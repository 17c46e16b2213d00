//! Character-level text operations with their mathematical meaning.
//!
//! Strings are modelled by their character sequences (`s@`). Every function
//! here states its result over `Seq<char>`.
use vstd::prelude::*;
use vstd::string::*;

verus! {

/// Unicode `White_Space`, the class that `char::is_whitespace` tests.
pub open spec fn is_ws(c: char) -> bool {
    let u = c as u32;
    ||| (9 <= u && u <= 13)
    ||| u == 32
    ||| u == 0x85
    ||| u == 0xA0
    ||| u == 0x1680
    ||| (0x2000 <= u && u <= 0x200A)
    ||| u == 0x2028
    ||| u == 0x2029
    ||| u == 0x202F
    ||| u == 0x205F
    ||| u == 0x3000
}

pub open spec fn is_ascii_digit(c: char) -> bool {
    '0' <= c && c <= '9'
}

/// Value of an ASCII digit.
pub open spec fn digit_val(c: char) -> nat {
    ((c as u32) - ('0' as u32)) as nat
}

/// A character class used by the trimming operations.
pub enum CharClass {
    Whitespace,
    Exactly(char),
    NonDigit,
    /// A path separator: `/` or `\`.
    PathSeparator,
}

pub open spec fn in_class(cls: CharClass, c: char) -> bool {
    match cls {
        CharClass::Whitespace => is_ws(c),
        CharClass::Exactly(d) => c == d,
        CharClass::NonDigit => !is_ascii_digit(c),
        CharClass::PathSeparator => c == '/' || c == '\\',
    }
}

/// Drops the leading characters of class `cls`.
pub open spec fn trim_start_by(s: Seq<char>, cls: CharClass) -> Seq<char>
    decreases s.len(),
{
    if s.len() > 0 && in_class(cls, s[0]) {
        trim_start_by(s.drop_first(), cls)
    } else {
        s
    }
}

/// Drops the trailing characters of class `cls`.
pub open spec fn trim_end_by(s: Seq<char>, cls: CharClass) -> Seq<char>
    decreases s.len(),
{
    if s.len() > 0 && in_class(cls, s.last()) {
        trim_end_by(s.drop_last(), cls)
    } else {
        s
    }
}

pub open spec fn trim_by(s: Seq<char>, cls: CharClass) -> Seq<char> {
    trim_end_by(trim_start_by(s, cls), cls)
}

/// What `str::trim` gives.
pub open spec fn trim(s: Seq<char>) -> Seq<char> {
    trim_by(s, CharClass::Whitespace)
}

pub open spec fn starts_with(s: Seq<char>, p: Seq<char>) -> bool {
    p.len() <= s.len() && s.subrange(0, p.len() as int) == p
}

pub open spec fn ends_with(s: Seq<char>, p: Seq<char>) -> bool {
    p.len() <= s.len() && s.subrange(s.len() - p.len(), s.len() as int) == p
}

pub open spec fn occurs_at(s: Seq<char>, p: Seq<char>, i: int) -> bool {
    0 <= i && i + p.len() <= s.len() && s.subrange(i, i + p.len()) == p
}

pub open spec fn contains(s: Seq<char>, p: Seq<char>) -> bool {
    exists|i: int| occurs_at(s, p, i)
}

/// Index of the first occurrence of `c`, or `None`.
pub open spec fn find_char(s: Seq<char>, c: char) -> Option<int>
    decreases s.len(),
{
    if s.len() == 0 {
        None
    } else if s[0] == c {
        Some(0)
    } else {
        match find_char(s.drop_first(), c) {
            Some(i) => Some(i + 1),
            None => None,
        }
    }
}

/// Strips the prefix `p` as many times as it occurs (`str::trim_start_matches`).
pub open spec fn strip_prefix_all(s: Seq<char>, p: Seq<char>) -> Seq<char>
    decreases s.len(),
{
    if p.len() > 0 && starts_with(s, p) {
        strip_prefix_all(s.skip(p.len() as int), p)
    } else {
        s
    }
}

/// Pieces of `s` between the characters of class `cls` (`str::split`).
pub open spec fn split_by(s: Seq<char>, cls: CharClass) -> Seq<Seq<char>>
    decreases s.len(),
{
    if s.len() == 0 {
        seq![Seq::<char>::empty()]
    } else {
        let r = split_by(s.drop_last(), cls);
        if in_class(cls, s.last()) {
            r.push(Seq::<char>::empty())
        } else {
            r.update(r.len() - 1, r.last().push(s.last()))
        }
    }
}

pub proof fn lemma_split_by_nonempty(s: Seq<char>, cls: CharClass)
    ensures
        split_by(s, cls).len() >= 1,
    decreases s.len(),
{
    if s.len() > 0 {
        lemma_split_by_nonempty(s.drop_last(), cls);
    }
}

/// Lexicographic order on characters compared by scalar value; it is the order
/// of `String` (UTF-8 keeps the order of scalar values).
pub open spec fn chars_lt(a: Seq<char>, b: Seq<char>) -> bool
    decreases a.len(),
{
    if a.len() == 0 {
        b.len() > 0
    } else if b.len() == 0 {
        false
    } else if (a[0] as u32) < (b[0] as u32) {
        true
    } else if (a[0] as u32) > (b[0] as u32) {
        false
    } else {
        chars_lt(a.drop_first(), b.drop_first())
    }
}

pub fn chars_of(s: &str) -> (r: Vec<char>)
    ensures
        r@ == s@,
{
    let mut r: Vec<char> = Vec::new();
    for c in it: s.chars()
        invariant
            it.seq() == s@,
            r@ == it.seq().take(it.index() as int),
    {
        r.push(c);
    }
    proof {
        assert(r@ =~= s@);
    }
    r
}

pub fn is_ws_char(c: char) -> (b: bool)
    ensures
        b == is_ws(c),
{
    let u = c as u32;
    (9 <= u && u <= 13) || u == 32 || u == 0x85 || u == 0xA0 || u == 0x1680 || (0x2000 <= u && u
        <= 0x200A) || u == 0x2028 || u == 0x2029 || u == 0x202F || u == 0x205F || u == 0x3000
}

pub fn is_digit_char(c: char) -> (b: bool)
    ensures
        b == is_ascii_digit(c),
{
    '0' <= c && c <= '9'
}

pub fn class_test(cls: &CharClass, c: char) -> (b: bool)
    ensures
        b == in_class(*cls, c),
{
    match cls {
        CharClass::Whitespace => is_ws_char(c),
        CharClass::Exactly(d) => c == *d,
        CharClass::NonDigit => !is_digit_char(c),
        CharClass::PathSeparator => c == '/' || c == '\\',
    }
}

/// Equality of two texts.
pub fn str_eq(a: &str, b: &str) -> (r: bool)
    ensures
        r == (a@ == b@),
{
    let ac = chars_of(a);
    let bc = chars_of(b);
    if ac.len() != bc.len() {
        return false;
    }
    let n = ac.len();
    for i in 0..n
        invariant
            n == ac@.len(),
            n == bc@.len(),
            ac@ == a@,
            bc@ == b@,
            forall|j: int| 0 <= j < i ==> ac@[j] == bc@[j],
    {
        if ac[i] != bc[i] {
            return false;
        }
    }
    proof {
        assert(ac@ =~= bc@);
    }
    true
}

/// Does `s` hold `p` at character position `i`?
pub fn occurs_at_exec(s: &Vec<char>, p: &Vec<char>, i: usize) -> (r: bool)
    ensures
        r == occurs_at(s@, p@, i as int),
{
    if i > s.len() || p.len() > s.len() - i {
        return false;
    }
    let n = p.len();
    for k in 0..n
        invariant
            n == p@.len(),
            i + n <= s@.len(),
            s@.len() == s.len(),
            forall|j: int| 0 <= j < k ==> s@[i + j] == p@[j],
    {
        if s[i + k] != p[k] {
            assert(s@.subrange(i as int, i + p@.len())[k as int] != p@[k as int]);
            return false;
        }
    }
    proof {
        assert(s@.subrange(i as int, i + p@.len()) =~= p@);
    }
    true
}

pub fn starts_with_str(s: &str, p: &str) -> (r: bool)
    ensures
        r == starts_with(s@, p@),
{
    let sc = chars_of(s);
    let pc = chars_of(p);
    occurs_at_exec(&sc, &pc, 0)
}

pub fn ends_with_str(s: &str, p: &str) -> (r: bool)
    ensures
        r == ends_with(s@, p@),
{
    let sc = chars_of(s);
    let pc = chars_of(p);
    if pc.len() > sc.len() {
        return false;
    }
    occurs_at_exec(&sc, &pc, sc.len() - pc.len())
}

/// Does `p` occur anywhere in `s`?
pub fn contains_str(s: &str, p: &str) -> (r: bool)
    ensures
        r == contains(s@, p@),
{
    let sc = chars_of(s);
    let pc = chars_of(p);
    if pc.len() > sc.len() {
        proof {
            assert forall|i: int| !occurs_at(s@, p@, i) by {}
        }
        return false;
    }
    if pc.len() == 0 {
        proof {
            assert(s@.subrange(0, 0) =~= p@);
            assert(occurs_at(s@, p@, 0));
        }
        return true;
    }
    let last = sc.len() - pc.len();
    let mut i: usize = 0;
    while i <= last
        invariant
            sc@ == s@,
            pc@ == p@,
            last == sc@.len() - pc@.len(),
            pc@.len() > 0,
            sc@.len() == sc.len(),
            i <= last + 1,
            forall|j: int| 0 <= j < i ==> !occurs_at(s@, p@, j),
        decreases last + 1 - i,
    {
        if occurs_at_exec(&sc, &pc, i) {
            return true;
        }
        i = i + 1;
    }
    proof {
        assert forall|j: int| !occurs_at(s@, p@, j) by {
            if 0 <= j && j < i {
            }
        }
    }
    false
}

/// The character positions `[a, b)` of `s` that remain after trimming `cls` from both ends.
fn trim_bounds(s: &Vec<char>, cls: &CharClass) -> (r: (usize, usize))
    ensures
        r.0 <= r.1 <= s@.len(),
        s@.subrange(r.0 as int, r.1 as int) == trim_by(s@, *cls),
        trim_start_by(s@, *cls) == s@.subrange(r.0 as int, s@.len() as int),
{
    let n = s.len();
    let mut a: usize = 0;
    proof {
        assert(s@.subrange(0, n as int) =~= s@);
    }
    while a < n && class_test(cls, s[a])
        invariant
            a <= n,
            n == s@.len(),
            trim_start_by(s@, *cls) == trim_start_by(s@.subrange(a as int, n as int), *cls),
        decreases n - a,
    {
        proof {
            let t = s@.subrange(a as int, n as int);
            assert(t.drop_first() =~= s@.subrange(a + 1, n as int));
        }
        a = a + 1;
    }
    proof {
        let t = s@.subrange(a as int, n as int);
        if a < n {
            assert(!in_class(*cls, t[0]));
        }
    }
    let mut b: usize = n;
    while b > a && class_test(cls, s[b - 1])
        invariant
            a <= b <= n,
            n == s@.len(),
            trim_start_by(s@, *cls) == s@.subrange(a as int, n as int),
            trim_by(s@, *cls) == trim_end_by(s@.subrange(a as int, b as int), *cls),
        decreases b - a,
    {
        proof {
            let t = s@.subrange(a as int, b as int);
            assert(t.drop_last() =~= s@.subrange(a as int, b - 1));
        }
        b = b - 1;
    }
    (a, b)
}

fn trim_class<'a>(s: &'a str, cls: CharClass) -> (r: &'a str)
    ensures
        r@ == trim_by(s@, cls),
{
    let sc = chars_of(s);
    let (a, b) = trim_bounds(&sc, &cls);
    s.substring_char(a, b)
}

/// `str::trim`.
pub fn trim_ws<'a>(s: &'a str) -> (r: &'a str)
    ensures
        r@ == trim(s@),
{
    trim_class(s, CharClass::Whitespace)
}

/// `str::trim_matches(c)` for a single character.
pub fn trim_char<'a>(s: &'a str, c: char) -> (r: &'a str)
    ensures
        r@ == trim_by(s@, CharClass::Exactly(c)),
{
    trim_class(s, CharClass::Exactly(c))
}

/// `str::trim_start_matches(c)` for a single character.
pub fn trim_start_char<'a>(s: &'a str, c: char) -> (r: &'a str)
    ensures
        r@ == trim_start_by(s@, CharClass::Exactly(c)),
{
    let sc = chars_of(s);
    let (a, _b) = trim_bounds(&sc, &CharClass::Exactly(c));
    s.substring_char(a, sc.len())
}

/// `str::trim_end_matches(c)` for a single character.
pub fn trim_end_char<'a>(s: &'a str, c: char) -> (r: &'a str)
    ensures
        r@ == trim_end_by(s@, CharClass::Exactly(c)),
{
    let sc = chars_of(s);
    let n = sc.len();
    let mut b: usize = n;
    proof {
        assert(s@.subrange(0, n as int) =~= s@);
    }
    while b > 0 && sc[b - 1] == c
        invariant
            b <= n,
            n == sc@.len(),
            sc@ == s@,
            trim_end_by(s@, CharClass::Exactly(c)) == trim_end_by(
                s@.subrange(0, b as int),
                CharClass::Exactly(c),
            ),
        decreases b,
    {
        proof {
            let t = s@.subrange(0, b as int);
            assert(t.drop_last() =~= s@.subrange(0, b - 1));
        }
        b = b - 1;
    }
    s.substring_char(0, b)
}

/// Copies a text into an owned `String`.
pub fn owned(s: &str) -> (r: String)
    ensures
        r@ == s@,
{
    String::from_str(s)
}


/// The views of a list of texts.
pub open spec fn views(v: Seq<&str>) -> Seq<Seq<char>> {
    v.map_values(|x: &str| x@)
}

/// `s.split(pattern)` for a character class: every piece, empty ones included.
pub fn split_class<'a>(s: &'a str, cls: CharClass) -> (r: Vec<&'a str>)
    ensures
        views(r@) == split_by(s@, cls),
{
    let c = chars_of(s);
    let n = c.len();
    let mut out: Vec<&'a str> = Vec::new();
    let mut start: usize = 0;
    proof {
        assert(s@.take(0) =~= Seq::<char>::empty());
        assert(views(out@).push(s@.subrange(0, 0)) =~= split_by(s@.take(0), cls));
    }
    for i in 0..n
        invariant
            n == c@.len(),
            c@ == s@,
            start <= i,
            views(out@).push(s@.subrange(start as int, i as int)) == split_by(s@.take(i as int), cls),
    {
        proof {
            assert(s@.take(i + 1).drop_last() =~= s@.take(i as int));
            assert(s@.take(i + 1).last() == c@[i as int]);
        }
        if class_test(&cls, c[i]) {
            let piece = s.substring_char(start, i);
            let ghost before = out@;
            out.push(piece);
            proof {
                assert(views(out@) =~= views(before).push(piece@));
            }
            start = i + 1;
            proof {
                assert(split_by(s@.take(i + 1), cls) == split_by(s@.take(i as int), cls).push(
                    Seq::<char>::empty(),
                ));
                assert(s@.subrange(start as int, i + 1) =~= Seq::<char>::empty());
                assert(views(out@).push(s@.subrange(start as int, i + 1)) =~= split_by(
                    s@.take(i + 1),
                    cls,
                ));
            }
        } else {
            proof {
                let prev = views(out@).push(s@.subrange(start as int, i as int));
                assert(s@.subrange(start as int, i as int).push(c@[i as int]) =~= s@.subrange(
                    start as int,
                    i + 1,
                ));
                assert(views(out@).push(s@.subrange(start as int, i + 1)) =~= prev.update(
                    prev.len() - 1,
                    prev.last().push(c@[i as int]),
                ));
            }
        }
    }
    let last = s.substring_char(start, n);
    out.push(last);
    proof {
        assert(s@.take(n as int) =~= s@);
        assert(views(out@) =~= split_by(s@, cls));
    }
    out
}


/// The views of a list of owned texts.
pub open spec fn sviews(v: Seq<String>) -> Seq<Seq<char>> {
    v.map_values(|x: String| x@)
}

/// The pieces joined with `sep` between them (`slice.join(sep)`).
pub open spec fn join(ps: Seq<Seq<char>>, sep: Seq<char>) -> Seq<char>
    decreases ps.len(),
{
    if ps.len() == 0 {
        Seq::empty()
    } else if ps.len() == 1 {
        ps[0]
    } else {
        join(ps.drop_last(), sep) + sep + ps.last()
    }
}

/// The non-empty pieces, in order.
pub open spec fn nonempty_pieces(ps: Seq<Seq<char>>) -> Seq<Seq<char>>
    decreases ps.len(),
{
    if ps.len() == 0 {
        ps
    } else {
        let r = nonempty_pieces(ps.drop_last());
        if ps.last().len() > 0 {
            r.push(ps.last())
        } else {
            r
        }
    }
}

/// `s.split_whitespace()`.
pub open spec fn words(s: Seq<char>) -> Seq<Seq<char>> {
    nonempty_pieces(split_by(s, CharClass::Whitespace))
}

/// `s.replace(c, r)`: every `c` replaced by `r`.
pub open spec fn replace_char(s: Seq<char>, c: char, r: Seq<char>) -> Seq<char> {
    join(split_by(s, CharClass::Exactly(c)), r)
}

/// Joins texts with a separator.
pub fn join_strs(ps: &Vec<&str>, sep: &str) -> (r: String)
    ensures
        r@ == join(views(ps@), sep@),
{
    let mut out = String::new();
    let n = ps.len();
    for i in 0..n
        invariant
            n == ps@.len(),
            out@ == join(views(ps@).take(i as int), sep@),
    {
        proof {
            let t = views(ps@).take(i + 1);
            assert(t.drop_last() =~= views(ps@).take(i as int));
            if i == 0 {
                assert(views(ps@).take(0) =~= Seq::<Seq<char>>::empty());
            }
        }
        if i > 0 {
            out.append(sep);
        }
        out.append(ps[i]);
        proof {
            if i == 0 {
                assert(out@ =~= views(ps@).take(1)[0]);
            }
        }
    }
    proof {
        assert(views(ps@).take(n as int) =~= views(ps@));
    }
    out
}

/// Joins owned texts with a separator.
pub fn join_strings(ps: &Vec<String>, sep: &str) -> (r: String)
    ensures
        r@ == join(sviews(ps@), sep@),
{
    let mut out = String::new();
    let n = ps.len();
    for i in 0..n
        invariant
            n == ps@.len(),
            out@ == join(sviews(ps@).take(i as int), sep@),
    {
        proof {
            let t = sviews(ps@).take(i + 1);
            assert(t.drop_last() =~= sviews(ps@).take(i as int));
            if i == 0 {
                assert(sviews(ps@).take(0) =~= Seq::<Seq<char>>::empty());
            }
        }
        if i > 0 {
            out.append(sep);
        }
        out.append(ps[i].as_str());
        proof {
            if i == 0 {
                assert(out@ =~= sviews(ps@).take(1)[0]);
            }
        }
    }
    proof {
        assert(sviews(ps@).take(n as int) =~= sviews(ps@));
    }
    out
}

/// `s.replace(c, r)`.
pub fn replace_char_str(s: &str, c: char, r: &str) -> (out: String)
    ensures
        out@ == replace_char(s@, c, r@),
{
    let pieces = split_class(s, CharClass::Exactly(c));
    join_strs(&pieces, r)
}

/// `s.split_whitespace()`.
pub fn split_words<'a>(s: &'a str) -> (r: Vec<&'a str>)
    ensures
        views(r@) == words(s@),
{
    let pieces = split_class(s, CharClass::Whitespace);
    let ghost pv = views(pieces@);
    let mut out: Vec<&'a str> = Vec::new();
    let n = pieces.len();
    for i in 0..n
        invariant
            n == pieces@.len(),
            pv == views(pieces@),
            views(out@) == nonempty_pieces(pv.take(i as int)),
    {
        proof {
            assert(pv.take(i + 1).drop_last() =~= pv.take(i as int));
        }
        let p = pieces[i];
        if p.unicode_len() > 0 {
            let ghost before = out@;
            out.push(p);
            proof {
                assert(views(out@) =~= views(before).push(p@));
            }
        }
    }
    proof {
        assert(pv.take(n as int) =~= pv);
        assert(pv == split_by(s@, CharClass::Whitespace));
    }
    out
}


pub proof fn lemma_trim_end_by_last(s: Seq<char>, cls: CharClass)
    ensures
        trim_end_by(s, cls).len() == 0 || !in_class(cls, trim_end_by(s, cls).last()),
        trim_end_by(s, cls).len() <= s.len(),
    decreases s.len(),
{
    if s.len() > 0 && in_class(cls, s.last()) {
        lemma_trim_end_by_last(s.drop_last(), cls);
    }
}

/// A text whose ends are not whitespace is its own trim.
pub proof fn lemma_trim_no_ws_ends(s: Seq<char>)
    requires
        s.len() == 0 || (!is_ws(s[0]) && !is_ws(s[s.len() - 1])),
    ensures
        trim(s) == s,
{
}


/// `s.trim_start_matches(p)` for a text pattern.
pub fn strip_prefix_all_str<'a>(s: &'a str, p: &str) -> (r: &'a str)
    ensures
        r@ == strip_prefix_all(s@, p@),
{
    let sc = chars_of(s);
    let pc = chars_of(p);
    let n = sc.len();
    let m = pc.len();
    if m == 0 {
        return s;
    }
    let mut a: usize = 0;
    proof {
        assert(s@.skip(0) =~= s@);
    }
    while a <= n && occurs_at_exec(&sc, &pc, a)
        invariant
            n == sc@.len(),
            m == pc@.len(),
            m > 0,
            sc@ == s@,
            pc@ == p@,
            a <= n,
            strip_prefix_all(s@, p@) == strip_prefix_all(s@.skip(a as int), p@),
        decreases n - a,
    {
        proof {
            let t = s@.skip(a as int);
            assert(t.subrange(0, m as int) =~= s@.subrange(a as int, a + m));
            assert(starts_with(t, p@));
            assert(t.skip(m as int) =~= s@.skip(a + m));
        }
        a = a + m;
    }
    proof {
        let t = s@.skip(a as int);
        if starts_with(t, p@) {
            assert(t.subrange(0, m as int) =~= s@.subrange(a as int, a + m));
        }
        assert(s@.subrange(a as int, n as int) =~= t);
    }
    s.substring_char(a, n)
}

/// `a < b` for texts (`String`'s order).
pub fn str_lt(a: &str, b: &str) -> (r: bool)
    ensures
        r == chars_lt(a@, b@),
{
    let ac = chars_of(a);
    let bc = chars_of(b);
    let n = ac.len();
    let m = bc.len();
    let mut i: usize = 0;
    proof {
        assert(a@.skip(0) =~= a@);
        assert(b@.skip(0) =~= b@);
    }
    while i < n && i < m
        invariant
            n == ac@.len(),
            m == bc@.len(),
            ac@ == a@,
            bc@ == b@,
            i <= n,
            i <= m,
            chars_lt(a@, b@) == chars_lt(a@.skip(i as int), b@.skip(i as int)),
        decreases n - i,
    {
        let x = ac[i] as u32;
        let y = bc[i] as u32;
        if x < y {
            return true;
        }
        if x > y {
            return false;
        }
        proof {
            assert(a@.skip(i as int).drop_first() =~= a@.skip(i + 1));
            assert(b@.skip(i as int).drop_first() =~= b@.skip(i + 1));
        }
        i = i + 1;
    }
    i < m
}

/// Inserts `x` into an ascending list, after every element not greater than it.
pub open spec fn ins_asc(sorted: Seq<Seq<char>>, x: Seq<char>) -> Seq<Seq<char>>
    decreases sorted.len(),
{
    if sorted.len() == 0 {
        seq![x]
    } else if chars_lt(x, sorted.last()) {
        ins_asc(sorted.drop_last(), x).push(sorted.last())
    } else {
        sorted.push(x)
    }
}

/// The texts in ascending order (what `Vec<String>::sort` gives).
pub open spec fn sort_asc(s: Seq<Seq<char>>) -> Seq<Seq<char>>
    decreases s.len(),
{
    if s.len() == 0 {
        s
    } else {
        ins_asc(sort_asc(s.drop_last()), s.last())
    }
}

proof fn lemma_ins_asc_at(sorted: Seq<Seq<char>>, x: Seq<char>, j: int)
    requires
        0 <= j <= sorted.len(),
        forall|t: int| j <= t < sorted.len() ==> chars_lt(x, #[trigger] sorted[t]),
        j == 0 || !chars_lt(x, sorted[j - 1]),
    ensures
        ins_asc(sorted, x) == sorted.insert(j, x),
    decreases sorted.len() - j,
{
    if sorted.len() == 0 {
        assert(sorted.insert(j, x) =~= seq![x]);
    } else if j == sorted.len() {
        assert(sorted.insert(j, x) =~= sorted.push(x));
    } else {
        let d = sorted.drop_last();
        assert(chars_lt(x, sorted[sorted.len() - 1]));
        assert forall|t: int| j <= t < d.len() implies chars_lt(x, #[trigger] d[t]) by {
            assert(d[t] == sorted[t]);
        }
        if j > 0 {
            assert(d[j - 1] == sorted[j - 1]);
        }
        lemma_ins_asc_at(d, x, j);
        assert(d.insert(j, x).push(sorted.last()) =~= sorted.insert(j, x));
    }
}

/// Sorts texts in ascending order.
pub fn sort_strings(v: Vec<String>) -> (r: Vec<String>)
    ensures
        sviews(r@) == sort_asc(sviews(v@)),
{
    let ghost src = sviews(v@);
    let ghost orig = v@;
    let mut out: Vec<String> = Vec::new();
    for x in it: v.into_iter()
        invariant
            it.seq() == orig,
            src == sviews(orig),
            sviews(out@) == sort_asc(src.take(it.index() as int)),
    {
        let ghost i = it.index();
        let mut j = out.len();
        while j > 0 && str_lt(x.as_str(), out[j - 1].as_str())
            invariant
                j <= out@.len(),
                forall|t: int| j <= t < out@.len() ==> chars_lt(x@, #[trigger] out@[t]@),
            decreases j,
        {
            j = j - 1;
        }
        proof {
            let sv = sviews(out@);
            assert forall|t: int| j <= t < sv.len() implies chars_lt(x@, #[trigger] sv[t]) by {
                assert(sv[t] == out@[t]@);
            }
            if j > 0 {
                assert(sv[j - 1] == out@[j - 1]@);
            }
            lemma_ins_asc_at(sv, x@, j as int);
            assert(src.take(i + 1).drop_last() =~= src.take(i as int));
            assert(src.take(i + 1).last() == x@);
        }
        let ghost before = out@;
        let ghost xv = x@;
        out.insert(j, x);
        proof {
            assert(sviews(out@) =~= sviews(before).insert(j as int, xv));
        }
    }
    proof {
        assert(src.take(src.len() as int) =~= src);
    }
    out
}


pub proof fn lemma_find_char_push(d: Seq<char>, x: char, c: char)
    ensures
        find_char(d.push(x), c) == match find_char(d, c) {
            Some(i) => Some(i),
            None => if x == c {
                Some(d.len() as int)
            } else {
                None
            },
        },
    decreases d.len(),
{
    if d.len() == 0 {
        assert(d.push(x)[0] == x);
        assert(d.push(x).drop_first() =~= Seq::<char>::empty());
    } else {
        assert(d.push(x).drop_first() =~= d.drop_first().push(x));
        assert(d.push(x)[0] == d[0]);
        lemma_find_char_push(d.drop_first(), x, c);
    }
}

/// The first piece of a split at `c` is the text before the first `c`; there is
/// more than one piece exactly when `c` occurs.
pub proof fn lemma_split_first_piece(s: Seq<char>, c: char)
    ensures
        split_by(s, CharClass::Exactly(c)).len() >= 1,
        match find_char(s, c) {
            Some(i) => 0 <= i < s.len() && split_by(s, CharClass::Exactly(c))[0] == s.take(i)
                && split_by(s, CharClass::Exactly(c)).len() > 1 && s[i] == c,
            None => split_by(s, CharClass::Exactly(c)).len() == 1 && split_by(
                s,
                CharClass::Exactly(c),
            )[0] == s,
        },
    decreases s.len(),
{
    let cls = CharClass::Exactly(c);
    if s.len() == 0 {
        assert(split_by(s, cls) =~= seq![Seq::<char>::empty()]);
        assert(s =~= Seq::<char>::empty());
    } else {
        let d = s.drop_last();
        let x = s.last();
        lemma_split_first_piece(d, c);
        lemma_find_char_push(d, x, c);
        assert(d.push(x) =~= s);
        let r = split_by(d, cls);
        match find_char(d, c) {
            Some(i) => {
                assert(s.take(i) =~= d.take(i));
                assert(s[i] == d[i]);
            },
            None => {
                if x == c {
                    assert(s.take(d.len() as int) =~= d);
                } else {
                    assert(r.last().push(x) =~= s);
                }
            },
        }
    }
}


pub proof fn lemma_find_char_is(s: Seq<char>, c: char, i: int)
    requires
        0 <= i < s.len(),
        s[i] == c,
        forall|j: int| 0 <= j < i ==> s[j] != c,
    ensures
        find_char(s, c) == Some(i),
    decreases s.len(),
{
    if i > 0 {
        assert forall|j: int| 0 <= j < i - 1 implies s.drop_first()[j] != c by {
            assert(s.drop_first()[j] == s[j + 1]);
        }
        assert(s[0] != c);
        lemma_find_char_is(s.drop_first(), c, i - 1);
    }
}

} // verus!
