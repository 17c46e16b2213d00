//! JSON documents as the panel reads and writes them.
//!
//! `Json` is the executable value; `JsonV` is its mathematical model, in which
//! every text is a `Seq<char>`. An object is a sequence of entries; a lookup
//! finds the first entry with the key, as a map with distinct keys does.
use vstd::prelude::*;
use crate::text::str_eq;

verus! {

/// The model of a JSON value. A number is kept as its decimal text.
pub enum JsonV {
    Null,
    Bool(bool),
    Number(Seq<char>),
    Str(Seq<char>),
    Array(Seq<JsonV>),
    Object(Seq<(Seq<char>, JsonV)>),
}

/// A JSON value. A number is kept as its decimal text, so that no digit is lost.
#[derive(Debug, PartialEq)]
pub enum Json {
    Null,
    Bool(bool),
    Number(String),
    Str(String),
    Array(Vec<Json>),
    Object(Vec<(String, Json)>),
}

impl Json {
    /// The model of this value.
    pub open spec fn deep(self) -> JsonV
        decreases self,
    {
        match self {
            Json::Null => JsonV::Null,
            Json::Bool(b) => JsonV::Bool(b),
            Json::Number(n) => JsonV::Number(n@),
            Json::Str(s) => JsonV::Str(s@),
            Json::Array(v) => JsonV::Array(
                Seq::new(
                    v@.len(),
                    |i: int|
                        if 0 <= i < v@.len() {
                            v@[i].deep()
                        } else {
                            JsonV::Null
                        },
                ),
            ),
            Json::Object(v) => JsonV::Object(
                Seq::new(
                    v@.len(),
                    |i: int|
                        if 0 <= i < v@.len() {
                            (v@[i].0@, v@[i].1.deep())
                        } else {
                            (Seq::empty(), JsonV::Null)
                        },
                ),
            ),
        }
    }
}

/// The models of a sequence of values.
pub open spec fn elems_deep(v: Seq<Json>) -> Seq<JsonV> {
    Seq::new(v.len(), |i: int| v[i].deep())
}

/// The models of a sequence of object entries.
pub open spec fn entries_deep(v: Seq<(String, Json)>) -> Seq<(Seq<char>, JsonV)> {
    Seq::new(v.len(), |i: int| (v[i].0@, v[i].1.deep()))
}

pub proof fn lemma_array_deep(v: Vec<Json>)
    ensures
        Json::Array(v).deep() == JsonV::Array(elems_deep(v@)),
{
    let f = |i: int|
        if 0 <= i < v@.len() {
            v@[i].deep()
        } else {
            JsonV::Null
        };
    match Json::Array(v).deep() {
        JsonV::Array(s) => {
            assert(s =~= elems_deep(v@));
        },
        _ => {},
    }
    assert(elems_deep(v@) =~= Seq::new(
        v@.len(),
        |i: int|
            if 0 <= i < v@.len() {
                v@[i].deep()
            } else {
                JsonV::Null
            },
    ));
}

pub proof fn lemma_object_deep(v: Vec<(String, Json)>)
    ensures
        Json::Object(v).deep() == JsonV::Object(entries_deep(v@)),
{
    match Json::Object(v).deep() {
        JsonV::Object(s) => {
            assert(s =~= entries_deep(v@));
        },
        _ => {},
    }
}

/// Position of the first entry with key `k`.
pub open spec fn key_pos(es: Seq<(Seq<char>, JsonV)>, k: Seq<char>) -> Option<int>
    decreases es.len(),
{
    if es.len() == 0 {
        None
    } else if es[0].0 == k {
        Some(0)
    } else {
        match key_pos(es.drop_first(), k) {
            Some(i) => Some(i + 1),
            None => None,
        }
    }
}

pub proof fn lemma_key_pos(es: Seq<(Seq<char>, JsonV)>, k: Seq<char>)
    ensures
        key_pos(es, k) matches Some(i) ==> 0 <= i < es.len() && es[i].0 == k && forall|j: int|
            0 <= j < i ==> es[j].0 != k,
        key_pos(es, k) is None ==> forall|j: int| 0 <= j < es.len() ==> es[j].0 != k,
    decreases es.len(),
{
    if es.len() > 0 {
        lemma_key_pos(es.drop_first(), k);
        if es[0].0 != k {
            assert forall|j: int| 0 < j < es.len() implies es[j] == es.drop_first()[j - 1] by {}
        }
    }
}

/// The first index `i` of `es` with key `k`, characterised without recursion.
pub proof fn lemma_key_pos_is(es: Seq<(Seq<char>, JsonV)>, k: Seq<char>, i: int)
    requires
        0 <= i < es.len(),
        es[i].0 == k,
        forall|j: int| 0 <= j < i ==> es[j].0 != k,
    ensures
        key_pos(es, k) == Some(i),
{
    lemma_key_pos(es, k);
}

pub proof fn lemma_key_pos_none(es: Seq<(Seq<char>, JsonV)>, k: Seq<char>)
    requires
        forall|j: int| 0 <= j < es.len() ==> es[j].0 != k,
    ensures
        key_pos(es, k) is None,
{
    lemma_key_pos(es, k);
}

/// `value.get(k)`: the member `k` of an object; `None` for any other value.
pub open spec fn field(j: JsonV, k: Seq<char>) -> Option<JsonV> {
    match j {
        JsonV::Object(es) => match key_pos(es, k) {
            Some(i) => Some(es[i].1),
            None => None,
        },
        _ => None,
    }
}

/// `value.as_str()`.
pub open spec fn as_str(j: JsonV) -> Option<Seq<char>> {
    match j {
        JsonV::Str(s) => Some(s),
        _ => None,
    }
}

/// `value.get(k).and_then(|v| v.as_str())`.
pub open spec fn field_str(j: JsonV, k: Seq<char>) -> Option<Seq<char>> {
    match field(j, k) {
        Some(v) => as_str(v),
        None => None,
    }
}

/// `value.get(k).and_then(|v| v.as_bool())`.
pub open spec fn field_bool(j: JsonV, k: Seq<char>) -> Option<bool> {
    match field(j, k) {
        Some(JsonV::Bool(b)) => Some(b),
        _ => None,
    }
}

/// Does the object hold key `k`? (`map.contains_key(k)`)
pub open spec fn has_key(es: Seq<(Seq<char>, JsonV)>, k: Seq<char>) -> bool {
    key_pos(es, k) is Some
}

/// `map.insert(k, v)`: replaces the value of an existing key in place, else appends.
pub open spec fn assoc_insert(es: Seq<(Seq<char>, JsonV)>, k: Seq<char>, v: JsonV) -> Seq<
    (Seq<char>, JsonV),
> {
    match key_pos(es, k) {
        Some(i) => es.update(i, (k, v)),
        None => es.push((k, v)),
    }
}

/// Replaces the value of member `k` by `f` of it, where `j` is an object that has `k`.
pub open spec fn update_field(j: JsonV, k: Seq<char>, f: spec_fn(JsonV) -> JsonV) -> JsonV {
    match j {
        JsonV::Object(es) => match key_pos(es, k) {
            Some(i) => JsonV::Object(es.update(i, (es[i].0, f(es[i].1)))),
            None => j,
        },
        _ => j,
    }
}

/// Applies `f` to every element of an array; any other value stays.
pub open spec fn map_array(j: JsonV, f: spec_fn(JsonV) -> JsonV) -> JsonV {
    match j {
        JsonV::Array(a) => JsonV::Array(a.map_values(f)),
        _ => j,
    }
}

/// Applies `f` to every member value of an object; any other value stays.
pub open spec fn map_members(j: JsonV, f: spec_fn(JsonV) -> JsonV) -> JsonV {
    match j {
        JsonV::Object(es) => JsonV::Object(
            es.map_values(|e: (Seq<char>, JsonV)| (e.0, f(e.1))),
        ),
        _ => j,
    }
}

/// Finds the first entry with key `key`.
pub fn find_key(es: &Vec<(String, Json)>, key: &str) -> (r: Option<usize>)
    ensures
        r matches Some(i) ==> i < es@.len() && key_pos(entries_deep(es@), key@) == Some(i as int),
        r is None ==> key_pos(entries_deep(es@), key@) is None,
{
    let n = es.len();
    let ghost d = entries_deep(es@);
    for i in 0..n
        invariant
            n == es@.len(),
            d == entries_deep(es@),
            forall|j: int| 0 <= j < i ==> d[j].0 != key@,
    {
        if str_eq(es[i].0.as_str(), key) {
            proof {
                lemma_key_pos_is(d, key@, i as int);
            }
            return Some(i);
        }
    }
    proof {
        lemma_key_pos_none(d, key@);
    }
    None
}

impl Json {
    /// `value.get(key)`.
    pub fn get(&self, key: &str) -> (r: Option<&Json>)
        ensures
            r matches Some(v) ==> field(self.deep(), key@) == Some(v.deep()),
            r is None ==> field(self.deep(), key@) is None,
    {
        match self {
            Json::Object(es) => {
                proof {
                    lemma_object_deep(*es);
                }
                match find_key(es, key) {
                    Some(i) => Some(&es[i].1),
                    None => None,
                }
            },
            _ => None,
        }
    }

    /// `value.as_str()`.
    pub fn as_str(&self) -> (r: Option<&str>)
        ensures
            r matches Some(s) ==> as_str(self.deep()) == Some(s@),
            r is None ==> as_str(self.deep()) is None,
    {
        match self {
            Json::Str(s) => Some(s.as_str()),
            _ => None,
        }
    }

    /// `value.get(key).and_then(|v| v.as_str())`.
    pub fn get_str(&self, key: &str) -> (r: Option<&str>)
        ensures
            r matches Some(s) ==> field_str(self.deep(), key@) == Some(s@),
            r is None ==> field_str(self.deep(), key@) is None,
    {
        match self.get(key) {
            Some(v) => v.as_str(),
            None => None,
        }
    }

    /// `value.get(key).and_then(|v| v.as_bool())`.
    pub fn get_bool(&self, key: &str) -> (r: Option<bool>)
        ensures
            r == field_bool(self.deep(), key@),
    {
        match self.get(key) {
            Some(Json::Bool(b)) => Some(*b),
            _ => None,
        }
    }

    /// A copy of this value.
    pub fn duplicate(&self) -> (r: Json)
        ensures
            r.deep() == self.deep(),
        decreases self,
    {
        match self {
            Json::Null => Json::Null,
            Json::Bool(b) => Json::Bool(*b),
            Json::Number(n) => Json::Number(n.clone()),
            Json::Str(s) => Json::Str(s.clone()),
            Json::Array(v) => {
                let mut out: Vec<Json> = Vec::new();
                let n = v.len();
                for i in 0..n
                    invariant
                        n == v@.len(),
                        *self == Json::Array(*v),
                        out@.len() == i,
                        forall|j: int| 0 <= j < i ==> out@[j].deep() == v@[j].deep(),
                {
                    proof {
                        assert(decreases_to!(*self => self->Array_0));
                        assert(decreases_to!(*v => v@));
                        assert(decreases_to!(v@ => v@[i as int]));
                    }
                    out.push(v[i].duplicate());
                }
                proof {
                    lemma_array_deep(out);
                    lemma_array_deep(*v);
                    assert(elems_deep(out@) =~= elems_deep(v@));
                }
                Json::Array(out)
            },
            Json::Object(v) => {
                let mut out: Vec<(String, Json)> = Vec::new();
                let n = v.len();
                for i in 0..n
                    invariant
                        n == v@.len(),
                        *self == Json::Object(*v),
                        out@.len() == i,
                        forall|j: int|
                            0 <= j < i ==> out@[j].0@ == v@[j].0@ && out@[j].1.deep()
                                == v@[j].1.deep(),
                {
                    proof {
                        assert(decreases_to!(*self => self->Object_0));
                        assert(decreases_to!(*v => v@));
                        assert(decreases_to!(v@ => v@[i as int]));
                        assert(decreases_to!(v@[i as int] => v@[i as int].1));
                    }
                    let k = v[i].0.clone();
                    let x = v[i].1.duplicate();
                    out.push((k, x));
                }
                proof {
                    lemma_object_deep(out);
                    lemma_object_deep(*v);
                    assert(entries_deep(out@) =~= entries_deep(v@));
                }
                Json::Object(out)
            },
        }
    }
}


pub proof fn lemma_entries_deep_push(s: Seq<(String, Json)>, e: (String, Json))
    ensures
        entries_deep(s.push(e)) == entries_deep(s).push((e.0@, e.1.deep())),
{
    assert(entries_deep(s.push(e)) =~= entries_deep(s).push((e.0@, e.1.deep())));
}

pub proof fn lemma_entries_deep_update(s: Seq<(String, Json)>, i: int, e: (String, Json))
    requires
        0 <= i < s.len(),
    ensures
        entries_deep(s.update(i, e)) == entries_deep(s).update(i, (e.0@, e.1.deep())),
{
    assert(entries_deep(s.update(i, e)) =~= entries_deep(s).update(i, (e.0@, e.1.deep())));
}

pub proof fn lemma_entries_deep_remove(s: Seq<(String, Json)>, i: int)
    requires
        0 <= i < s.len(),
    ensures
        entries_deep(s.remove(i)) == entries_deep(s).remove(i),
{
    assert(entries_deep(s.remove(i)) =~= entries_deep(s).remove(i));
}

pub proof fn lemma_elems_deep_push(s: Seq<Json>, e: Json)
    ensures
        elems_deep(s.push(e)) == elems_deep(s).push(e.deep()),
{
    assert(elems_deep(s.push(e)) =~= elems_deep(s).push(e.deep()));
}

/// `map.insert(k, v)` on the entries of an object.
pub fn obj_insert(es: &mut Vec<(String, Json)>, k: String, v: Json)
    ensures
        entries_deep(final(es)@) == assoc_insert(entries_deep(old(es)@), k@, v.deep()),
{
    let ghost kv = k@;
    let ghost vv = v.deep();
    match find_key(es, k.as_str()) {
        Some(i) => {
            proof {
                lemma_entries_deep_update(es@, i as int, (k, v));
            }
            es.set(i, (k, v));
        },
        None => {
            proof {
                lemma_entries_deep_push(es@, (k, v));
            }
            es.push((k, v));
        },
    }
}

/// `map.remove(key)` on the entries of an object.
pub fn obj_remove(es: &mut Vec<(String, Json)>, key: &str)
    ensures
        entries_deep(final(es)@) == without_key(entries_deep(old(es)@), key@),
{
    let mut tmp: Vec<(String, Json)> = Vec::new();
    core::mem::swap(&mut tmp, es);
    let kept = drop_key(tmp, key);
    *es = kept;
}

/// Takes out the entry at `i`, to be put back with `obj_put_back`.
pub fn obj_take(es: &mut Vec<(String, Json)>, i: usize) -> (r: (String, Json))
    requires
        i < old(es)@.len(),
    ensures
        final(es)@ == old(es)@.remove(i as int),
        r == old(es)@[i as int],
{
    es.remove(i)
}

/// Puts an entry back at `i`.
pub fn obj_put_back(es: &mut Vec<(String, Json)>, i: usize, e: (String, Json))
    requires
        i <= old(es)@.len(),
    ensures
        final(es)@ == old(es)@.insert(i as int, e),
{
    es.insert(i, e);
}

pub proof fn lemma_remove_insert<A>(s: Seq<A>, i: int, e: A)
    requires
        0 <= i < s.len(),
    ensures
        s.remove(i).insert(i, e) == s.update(i, e),
{
    assert(s.remove(i).insert(i, e) =~= s.update(i, e));
}


/// The entries of `es` without those with key `k`.
pub open spec fn without_key(es: Seq<(Seq<char>, JsonV)>, k: Seq<char>) -> Seq<(Seq<char>, JsonV)>
    decreases es.len(),
{
    if es.len() == 0 {
        es
    } else {
        let r = without_key(es.drop_last(), k);
        if es.last().0 == k {
            r
        } else {
            r.push(es.last())
        }
    }
}

pub proof fn lemma_has_key_exists(es: Seq<(Seq<char>, JsonV)>, k: Seq<char>)
    ensures
        has_key(es, k) <==> exists|j: int| 0 <= j < es.len() && #[trigger] es[j].0 == k,
{
    lemma_key_pos(es, k);
    if has_key(es, k) {
        let i = key_pos(es, k)->0;
        assert(es[i].0 == k);
    }
}

pub proof fn lemma_without_key_elems(es: Seq<(Seq<char>, JsonV)>, k: Seq<char>)
    ensures
        forall|j: int|
            0 <= j < without_key(es, k).len() ==> #[trigger] without_key(es, k)[j].0 != k
                && es.contains(without_key(es, k)[j]),
        forall|m: int|
            0 <= m < es.len() && #[trigger] es[m].0 != k ==> without_key(es, k).contains(es[m]),
    decreases es.len(),
{
    if es.len() > 0 {
        let d = es.drop_last();
        lemma_without_key_elems(d, k);
        let r = without_key(d, k);
        let w = without_key(es, k);
        assert forall|j: int| 0 <= j < w.len() implies #[trigger] w[j].0 != k && es.contains(w[j]) by {
            if j < r.len() {
                assert(w[j] == r[j]);
                assert(r[j].0 != k);
                assert(d.contains(r[j]));
                let m = choose|m: int| 0 <= m < d.len() && d[m] == r[j];
                assert(es[m] == r[j]);
            } else {
                assert(w[j] == es.last());
                assert(es[es.len() - 1] == w[j]);
            }
        }
        assert forall|m: int| 0 <= m < es.len() && #[trigger] es[m].0 != k implies w.contains(es[m]) by {
            if m < es.len() - 1 {
                assert(d[m] == es[m]);
                assert(r.contains(d[m]));
                let j = choose|j: int| 0 <= j < r.len() && r[j] == d[m];
                assert(w[j] == r[j]);
            } else {
                assert(w[w.len() - 1] == es[m]);
            }
        }
    }
}

pub proof fn lemma_without_key_has(es: Seq<(Seq<char>, JsonV)>, k: Seq<char>, k2: Seq<char>)
    ensures
        has_key(without_key(es, k), k2) == (k2 != k && has_key(es, k2)),
{
    let w = without_key(es, k);
    lemma_without_key_elems(es, k);
    lemma_has_key_exists(w, k2);
    lemma_has_key_exists(es, k2);
    if has_key(w, k2) {
        let j = choose|j: int| 0 <= j < w.len() && #[trigger] w[j].0 == k2;
        assert(w[j].0 != k);
        assert(es.contains(w[j]));
        let m = choose|m: int| 0 <= m < es.len() && es[m] == w[j];
        assert(es[m].0 == k2);
    }
    if k2 != k && has_key(es, k2) {
        let m = choose|m: int| 0 <= m < es.len() && #[trigger] es[m].0 == k2;
        assert(w.contains(es[m]));
        let j = choose|j: int| 0 <= j < w.len() && w[j] == es[m];
        assert(w[j].0 == k2);
    }
}

/// Drops every entry with key `key`.
pub fn drop_key(es: Vec<(String, Json)>, key: &str) -> (r: Vec<(String, Json)>)
    ensures
        entries_deep(r@) == without_key(entries_deep(es@), key@),
{
    let ghost src = es@;
    let mut out: Vec<(String, Json)> = Vec::new();
    for e in it: es.into_iter()
        invariant
            it.seq() == src,
            entries_deep(out@) == without_key(entries_deep(src.take(it.index() as int)), key@),
    {
        let ghost n = it.index();
        proof {
            assert(src.take(n + 1).drop_last() =~= src.take(n as int));
            assert(entries_deep(src.take(n + 1)).drop_last() =~= entries_deep(src.take(n as int)));
            assert(entries_deep(src.take(n + 1)).last() == (e.0@, e.1.deep()));
        }
        if !str_eq(e.0.as_str(), key) {
            proof {
                lemma_entries_deep_push(out@, e);
            }
            out.push(e);
        }
    }
    proof {
        assert(src.take(src.len() as int) =~= src);
    }
    out
}

/// An object taken apart at the member `key`, or the value itself when it has no such member.
pub enum FieldHole {
    Found { rest: Vec<(String, Json)>, index: usize, key: String, value: Json },
    Absent(Json),
}

/// Takes the member `key` out of `obj`.
pub fn take_field(obj: Json, key: &str) -> (r: FieldHole)
    ensures
        match r {
            FieldHole::Found { rest, index, key: k, value } => match obj.deep() {
                JsonV::Object(es) => key_pos(es, key@) == Some(index as int) && index < es.len()
                    && entries_deep(rest@) == es.remove(index as int) && k@ == es[index as int].0
                    && value.deep() == es[index as int].1,
                _ => false,
            },
            FieldHole::Absent(o) => o.deep() == obj.deep() && field(obj.deep(), key@) is None,
        },
{
    match obj {
        Json::Object(mut es) => {
            proof {
                lemma_object_deep(es);
            }
            match find_key(&es, key) {
                Some(i) => {
                    proof {
                        lemma_entries_deep_remove(es@, i as int);
                    }
                    let (k, v) = obj_take(&mut es, i);
                    FieldHole::Found { rest: es, index: i, key: k, value: v }
                },
                None => FieldHole::Absent(Json::Object(es)),
            }
        },
        other => FieldHole::Absent(other),
    }
}

/// Puts a member back where `take_field` took it from.
pub fn put_field(rest: Vec<(String, Json)>, index: usize, key: String, value: Json) -> (r: Json)
    requires
        index <= rest@.len(),
    ensures
        r.deep() == JsonV::Object(entries_deep(rest@).insert(index as int, (key@, value.deep()))),
{
    let mut es = rest;
    let ghost kv = key@;
    let ghost vv = value.deep();
    proof {
        assert(entries_deep(es@.insert(index as int, (key, value))) =~= entries_deep(es@).insert(
            index as int,
            (kv, vv),
        ));
    }
    obj_put_back(&mut es, index, (key, value));
    proof {
        lemma_object_deep(es);
    }
    Json::Object(es)
}

pub proof fn lemma_key_pos_update(es: Seq<(Seq<char>, JsonV)>, i: int, v: JsonV, k: Seq<char>)
    requires
        0 <= i < es.len(),
    ensures
        key_pos(es.update(i, (es[i].0, v)), k) == key_pos(es, k),
{
    let u = es.update(i, (es[i].0, v));
    lemma_key_pos(es, k);
    lemma_key_pos(u, k);
    assert forall|j: int| 0 <= j < es.len() implies u[j].0 == es[j].0 by {}
    match key_pos(es, k) {
        Some(p) => {
            lemma_key_pos_is(u, k, p);
        },
        None => {
            lemma_key_pos_none(u, k);
        },
    }
}


pub proof fn lemma_assoc_insert_has(es: Seq<(Seq<char>, JsonV)>, k: Seq<char>, v: JsonV, k2: Seq<char>)
    ensures
        has_key(assoc_insert(es, k, v), k2) == (k2 == k || has_key(es, k2)),
{
    let a = assoc_insert(es, k, v);
    lemma_has_key_exists(es, k2);
    lemma_has_key_exists(a, k2);
    lemma_key_pos(es, k);
    match key_pos(es, k) {
        Some(i) => {
            assert forall|j: int| 0 <= j < es.len() implies a[j].0 == es[j].0 by {}
            if has_key(es, k2) {
                let j = choose|j: int| 0 <= j < es.len() && #[trigger] es[j].0 == k2;
                assert(a[j].0 == k2);
            }
            if k2 == k {
                assert(a[i].0 == k2);
            }
        },
        None => {
            if has_key(es, k2) {
                let j = choose|j: int| 0 <= j < es.len() && #[trigger] es[j].0 == k2;
                assert(a[j].0 == k2);
            }
            if k2 == k {
                assert(a[es.len() as int].0 == k2);
            }
            if has_key(a, k2) {
                let j = choose|j: int| 0 <= j < a.len() && #[trigger] a[j].0 == k2;
                if j < es.len() {
                    assert(es[j].0 == k2);
                }
            }
        },
    }
}

/// Reading the member that `update_field` changed gives `f` of its old value.
pub proof fn lemma_field_of_update(j: JsonV, k: Seq<char>, f: spec_fn(JsonV) -> JsonV)
    ensures
        field(update_field(j, k, f), k) == match field(j, k) {
            Some(v) => Some(f(v)),
            None => None,
        },
{
    match j {
        JsonV::Object(es) => {
            lemma_key_pos(es, k);
            match key_pos(es, k) {
                Some(i) => {
                    lemma_key_pos_update(es, i, f(es[i].1), k);
                },
                None => {},
            }
        },
        _ => {},
    }
}

/// `value.get(i)` for an index: the element of an array.
pub open spec fn elem(j: JsonV, i: int) -> Option<JsonV> {
    match j {
        JsonV::Array(a) => if 0 <= i < a.len() {
            Some(a[i])
        } else {
            None
        },
        _ => None,
    }
}

/// `o.and_then(|v| v.get(k))`.
pub open spec fn opt_field(o: Option<JsonV>, k: Seq<char>) -> Option<JsonV> {
    match o {
        Some(v) => field(v, k),
        None => None,
    }
}

/// `o.and_then(|v| v.get(i))`.
pub open spec fn opt_elem(o: Option<JsonV>, i: int) -> Option<JsonV> {
    match o {
        Some(v) => elem(v, i),
        None => None,
    }
}

/// `o.and_then(|v| v.as_str())`.
pub open spec fn opt_str(o: Option<JsonV>) -> Option<Seq<char>> {
    match o {
        Some(v) => as_str(v),
        None => None,
    }
}

impl Json {
    /// `value.get(i)` for an index.
    pub fn at(&self, i: usize) -> (r: Option<&Json>)
        ensures
            r matches Some(v) ==> elem(self.deep(), i as int) == Some(v.deep()),
            r is None ==> elem(self.deep(), i as int) is None,
    {
        match self {
            Json::Array(a) => {
                proof {
                    lemma_array_deep(*a);
                }
                if i < a.len() {
                    Some(&a[i])
                } else {
                    None
                }
            },
            _ => None,
        }
    }

    /// A string value.
    pub fn text(s: &str) -> (r: Json)
        ensures
            r.deep() == JsonV::Str(s@),
    {
        Json::Str(String::from_str(s))
    }

    /// A number value.
    pub fn number(n: u64) -> (r: Json)
        ensures
            r.deep() == JsonV::Number(crate::num::dec(n as nat)),
    {
        Json::Number(crate::num::u64_to_string(n))
    }
}

/// Appends an entry to the entries of an object under construction.
pub fn push_entry(es: &mut Vec<(String, Json)>, k: &str, v: Json)
    ensures
        entries_deep(final(es)@) == entries_deep(old(es)@).push((k@, v.deep())),
{
    let key = String::from_str(k);
    proof {
        lemma_entries_deep_push(es@, (key, v));
    }
    es.push((key, v));
}

/// Appends an element to an array under construction.
pub fn push_elem(a: &mut Vec<Json>, v: Json)
    ensures
        elems_deep(final(a)@) == elems_deep(old(a)@).push(v.deep()),
{
    proof {
        lemma_elems_deep_push(a@, v);
    }
    a.push(v);
}

/// An object from its entries.
pub fn object(es: Vec<(String, Json)>) -> (r: Json)
    ensures
        r.deep() == JsonV::Object(entries_deep(es@)),
{
    proof {
        lemma_object_deep(es);
    }
    Json::Object(es)
}

/// An array from its elements.
pub fn array(a: Vec<Json>) -> (r: Json)
    ensures
        r.deep() == JsonV::Array(elems_deep(a@)),
{
    proof {
        lemma_array_deep(a);
    }
    Json::Array(a)
}


/// Reading a member after `map.insert` gives the inserted value; other members stay.
pub proof fn lemma_field_assoc_insert(es: Seq<(Seq<char>, JsonV)>, k: Seq<char>, v: JsonV, k2: Seq<char>)
    ensures
        field(JsonV::Object(assoc_insert(es, k, v)), k2) == if k2 == k {
            Some(v)
        } else {
            field(JsonV::Object(es), k2)
        },
{
    let a = assoc_insert(es, k, v);
    lemma_key_pos(es, k);
    lemma_key_pos(es, k2);
    lemma_key_pos(a, k2);
    match key_pos(es, k) {
        Some(i) => {
            assert forall|j: int| 0 <= j < es.len() implies a[j].0 == es[j].0 by {}
            if k2 == k {
                lemma_key_pos_is(a, k2, i);
            } else {
                match key_pos(es, k2) {
                    Some(m) => {
                        lemma_key_pos_is(a, k2, m);
                    },
                    None => {
                        lemma_key_pos_none(a, k2);
                    },
                }
            }
        },
        None => {
            assert forall|j: int| 0 <= j < es.len() implies a[j] == es[j] by {}
            if k2 == k {
                lemma_key_pos_is(a, k2, es.len() as int);
            } else {
                match key_pos(es, k2) {
                    Some(m) => {
                        lemma_key_pos_is(a, k2, m);
                    },
                    None => {
                        lemma_key_pos_none(a, k2);
                    },
                }
            }
        },
    }
}

/// Reading a member after removing key `k`: nothing for `k`.
pub proof fn lemma_field_without_key(es: Seq<(Seq<char>, JsonV)>, k: Seq<char>)
    ensures
        field(JsonV::Object(without_key(es, k)), k) is None,
{
    lemma_without_key_has(es, k, k);
    lemma_key_pos(without_key(es, k), k);
}

/// A member is there exactly when the object has its key.
pub proof fn lemma_field_is_some(es: Seq<(Seq<char>, JsonV)>, k: Seq<char>)
    ensures
        field(JsonV::Object(es), k) is Some <==> has_key(es, k),
{
}

/// Reading a member after appending an entry: the first entry with the key wins.
pub proof fn lemma_field_push(s: Seq<(Seq<char>, JsonV)>, x: (Seq<char>, JsonV), k: Seq<char>)
    ensures
        field(JsonV::Object(s.push(x)), k) == if has_key(s, k) {
            field(JsonV::Object(s), k)
        } else if x.0 == k {
            Some(x.1)
        } else {
            None::<JsonV>
        },
{
    let t = s.push(x);
    lemma_key_pos(s, k);
    match key_pos(s, k) {
        Some(i) => {
            lemma_key_pos_is(t, k, i);
        },
        None => {
            if x.0 == k {
                lemma_key_pos_is(t, k, s.len() as int);
            } else {
                lemma_key_pos_none(t, k);
            }
        },
    }
}

/// Reading a member other than `k` after removing key `k` gives the old value.
pub proof fn lemma_field_without_other(es: Seq<(Seq<char>, JsonV)>, k: Seq<char>, k2: Seq<char>)
    requires
        k2 != k,
    ensures
        field(JsonV::Object(without_key(es, k)), k2) == field(JsonV::Object(es), k2),
    decreases es.len(),
{
    if es.len() > 0 {
        let p = es.drop_last();
        let x = es.last();
        assert(es =~= p.push(x));
        lemma_field_without_other(p, k, k2);
        lemma_field_push(p, x, k2);
        lemma_without_key_has(p, k, k2);
        lemma_field_is_some(p, k2);
        let w = without_key(p, k);
        lemma_field_is_some(w, k2);
        if x.0 != k {
            lemma_field_push(w, x, k2);
        }
    }
}

} // verus!
