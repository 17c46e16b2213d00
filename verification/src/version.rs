//! OpenClaw version numbers: parsing, comparison, the recommended release of
//! each distribution, and the version report shown by the panel.
use vstd::prelude::*;
use vstd::string::*;
use crate::num::{IntErrorKind, parse_u32, parse_u32_spec};
use crate::text::{
    CharClass, split_by, split_class, views, sviews, str_eq, owned, replace_char,
    replace_char_str, words, split_words, contains, contains_str,
};

verus! {

/// `Ok` values of a list of parse results, in order (`filter_map(.. .ok())`).
pub open spec fn ok_values(rs: Seq<Result<u32, IntErrorKind>>) -> Seq<u32>
    decreases rs.len(),
{
    if rs.len() == 0 {
        Seq::empty()
    } else {
        let r = ok_values(rs.drop_last());
        match rs.last() {
            Ok(v) => r.push(v),
            Err(_) => r,
        }
    }
}

/// The numbers of a version text: every maximal run of ASCII digits that
/// parses as a `u32`, in order.
pub open spec fn parse_version_spec(s: Seq<char>) -> Seq<u32> {
    ok_values(split_by(s, CharClass::NonDigit).map_values(|p: Seq<char>| parse_u32_spec(p)))
}

/// The text before the first `-` (the whole text when it has none).
pub open spec fn base_version_spec(s: Seq<char>) -> Seq<char> {
    split_by(s, CharClass::Exactly('-'))[0]
}

/// Lexicographic order of number sequences (the order of `Vec<u32>`).
pub open spec fn seq_lt(a: Seq<u32>, b: Seq<u32>) -> bool
    decreases a.len(),
{
    if a.len() == 0 {
        b.len() > 0
    } else if b.len() == 0 {
        false
    } else if a[0] < b[0] {
        true
    } else if a[0] > b[0] {
        false
    } else {
        seq_lt(a.drop_first(), b.drop_first())
    }
}

/// Is `recommended` newer than `current`, suffixes after `-` ignored?
pub open spec fn is_newer(recommended: Seq<char>, current: Seq<char>) -> bool {
    seq_lt(
        parse_version_spec(base_version_spec(current)),
        parse_version_spec(base_version_spec(recommended)),
    )
}

/// Does the CLI's version match the recommended one, up to a `-…` suffix?
pub open spec fn versions_match_spec(cli: Seq<char>, recommended: Seq<char>) -> bool {
    cli == recommended || base_version_spec(cli) == base_version_spec(recommended)
}

/// The version of this panel.
pub open spec fn panel_version_spec() -> Seq<char> {
    "0.9.0"@
}

/// The version of this panel (the package version of this crate).
pub fn panel_version() -> (r: &'static str)
    ensures
        r@ == panel_version_spec(),
{
    "0.9.0"
}

/// `value.split(non-digit).filter_map(|s| s.parse().ok()).collect()`.
pub fn parse_version(value: &str) -> (r: Vec<u32>)
    ensures
        r@ == parse_version_spec(value@),
{
    let pieces = split_class(value, CharClass::NonDigit);
    let ghost rs = views(pieces@).map_values(|p: Seq<char>| parse_u32_spec(p));
    let mut out: Vec<u32> = Vec::new();
    let n = pieces.len();
    for i in 0..n
        invariant
            n == pieces@.len(),
            rs == views(pieces@).map_values(|p: Seq<char>| parse_u32_spec(p)),
            out@ == ok_values(rs.take(i as int)),
    {
        proof {
            assert(rs.take(i + 1).drop_last() =~= rs.take(i as int));
        }
        match parse_u32(pieces[i]) {
            Ok(v) => {
                out.push(v);
            },
            Err(_) => {},
        }
    }
    proof {
        assert(rs.take(n as int) =~= rs);
    }
    out
}

/// The version without its `-zh.x` / `-nightly` suffix: "2026.3.13-zh.1" gives "2026.3.13".
pub fn base_version(v: &str) -> (r: String)
    ensures
        r@ == base_version_spec(v@),
{
    let pieces = split_class(v, CharClass::Exactly('-'));
    proof {
        crate::text::lemma_split_by_nonempty(v@, CharClass::Exactly('-'));
    }
    owned(pieces[0])
}

/// Does the version the CLI reports match the recommended one? A `-zh.x` suffix
/// on either side does not count.
pub fn versions_match(cli_version: &str, recommended: &str) -> (r: bool)
    ensures
        r == versions_match_spec(cli_version@, recommended@),
{
    if str_eq(cli_version, recommended) {
        return true;
    }
    let a = base_version(cli_version);
    let b = base_version(recommended);
    a == b
}

/// `a < b` on number sequences.
pub fn vec_lt(a: &Vec<u32>, b: &Vec<u32>) -> (r: bool)
    ensures
        r == seq_lt(a@, b@),
{
    let n = a.len();
    let m = b.len();
    let mut i: usize = 0;
    proof {
        assert(a@.skip(0) =~= a@);
        assert(b@.skip(0) =~= b@);
    }
    while i < n && i < m
        invariant
            n == a@.len(),
            m == b@.len(),
            i <= n,
            i <= m,
            seq_lt(a@, b@) == seq_lt(a@.skip(i as int), b@.skip(i as int)),
        decreases n - i,
    {
        if a[i] < b[i] {
            return true;
        }
        if a[i] > b[i] {
            return false;
        }
        proof {
            assert(a@.skip(i as int).drop_first() =~= a@.skip(i + 1));
            assert(b@.skip(i as int).drop_first() =~= b@.skip(i + 1));
        }
        i = i + 1;
    }
    i < m
}

/// Is the recommended version newer than the current one? Suffixes after `-` are ignored.
pub fn recommended_is_newer(recommended: &str, current: &str) -> (r: bool)
    ensures
        r == is_newer(recommended@, current@),
{
    let rb = base_version(recommended);
    let cb = base_version(current);
    let r = parse_version(rb.as_str());
    let c = parse_version(cb.as_str());
    vec_lt(&c, &r)
}

pub proof fn lemma_seq_lt_irreflexive(a: Seq<u32>)
    ensures
        !seq_lt(a, a),
    decreases a.len(),
{
    if a.len() > 0 {
        lemma_seq_lt_irreflexive(a.drop_first());
    }
}

pub proof fn lemma_seq_lt_transitive(a: Seq<u32>, b: Seq<u32>, c: Seq<u32>)
    requires
        seq_lt(a, b),
        seq_lt(b, c),
    ensures
        seq_lt(a, c),
    decreases a.len(),
{
    if a.len() > 0 && b.len() > 0 && c.len() > 0 && a[0] == b[0] && b[0] == c[0] {
        lemma_seq_lt_transitive(a.drop_first(), b.drop_first(), c.drop_first());
    }
}

pub proof fn lemma_seq_lt_total(a: Seq<u32>, b: Seq<u32>)
    ensures
        a == b || seq_lt(a, b) || seq_lt(b, a),
    decreases a.len(),
{
    if a.len() > 0 && b.len() > 0 && a[0] == b[0] {
        lemma_seq_lt_total(a.drop_first(), b.drop_first());
        if a.drop_first() == b.drop_first() {
            assert(a.len() == b.len());
            assert forall|i: int| 0 <= i < a.len() implies a[i] == b[i] by {
                if i > 0 {
                    assert(a[i] == a.drop_first()[i - 1]);
                    assert(b[i] == b.drop_first()[i - 1]);
                }
            }
            assert(a =~= b);
        }
    } else if a.len() == 0 && b.len() == 0 {
        assert(a =~= b);
    }
}

/// Law: "is newer" is a strict order: no version is newer than itself, and newer is transitive.
pub proof fn law_newer_is_strict_order(a: Seq<char>, b: Seq<char>, c: Seq<char>)
    ensures
        !is_newer(a, a),
        is_newer(a, b) && is_newer(b, c) ==> is_newer(a, c),
        !(is_newer(a, b) && is_newer(b, a)),
{
    lemma_seq_lt_irreflexive(parse_version_spec(base_version_spec(a)));
    let pa = parse_version_spec(base_version_spec(a));
    let pb = parse_version_spec(base_version_spec(b));
    let pc = parse_version_spec(base_version_spec(c));
    if is_newer(a, b) && is_newer(b, c) {
        lemma_seq_lt_transitive(pc, pb, pa);
    }
    if is_newer(a, b) && is_newer(b, a) {
        lemma_seq_lt_transitive(pa, pb, pa);
    }
}

/// Law: matching versions are never newer than each other; matching is reflexive and symmetric.
pub proof fn law_match_excludes_newer(a: Seq<char>, b: Seq<char>)
    ensures
        versions_match_spec(a, a),
        versions_match_spec(a, b) == versions_match_spec(b, a),
        versions_match_spec(a, b) ==> !is_newer(a, b) && !is_newer(b, a),
{
    lemma_seq_lt_irreflexive(parse_version_spec(base_version_spec(a)));
}


/// The recommended release of one distribution, as the version policy gives it.
pub struct VersionPolicySource {
    pub recommended: Option<String>,
}

/// The recommended releases of the official and the Chinese distribution.
pub struct VersionPolicyEntry {
    pub official: VersionPolicySource,
    pub chinese: VersionPolicySource,
}

/// The version policy: a default entry, and entries for given panel versions.
/// `panels` lists each panel version once.
pub struct VersionPolicy {
    pub default: VersionPolicyEntry,
    pub panels: Vec<(String, VersionPolicyEntry)>,
}

pub open spec fn opt_view(o: Option<String>) -> Option<Seq<char>> {
    match o {
        Some(s) => Some(s@),
        None => None,
    }
}

/// The recommended release of `source` (`"official"`, or any other text for the
/// Chinese distribution) in one policy entry.
pub open spec fn entry_recommended(e: VersionPolicyEntry, source: Seq<char>) -> Option<Seq<char>> {
    if source == "official"@ {
        opt_view(e.official.recommended)
    } else {
        opt_view(e.chinese.recommended)
    }
}

/// Index of the first panel entry for `version`.
pub open spec fn panel_entry_pos(panels: Seq<(String, VersionPolicyEntry)>, version: Seq<char>) -> Option<int>
    decreases panels.len(),
{
    if panels.len() == 0 {
        None
    } else if panels[0].0@ == version {
        Some(0)
    } else {
        match panel_entry_pos(panels.drop_first(), version) {
            Some(i) => Some(i + 1),
            None => None,
        }
    }
}

pub proof fn lemma_panel_entry_pos(panels: Seq<(String, VersionPolicyEntry)>, version: Seq<char>)
    ensures
        panel_entry_pos(panels, version) matches Some(i) ==> 0 <= i < panels.len() && panels[i].0@
            == version && forall|j: int| 0 <= j < i ==> panels[j].0@ != version,
        panel_entry_pos(panels, version) is None ==> forall|j: int|
            0 <= j < panels.len() ==> panels[j].0@ != version,
    decreases panels.len(),
{
    if panels.len() > 0 {
        lemma_panel_entry_pos(panels.drop_first(), version);
        assert forall|j: int| 0 < j < panels.len() implies panels[j] == panels.drop_first()[j - 1] by {}
    }
}

/// The recommended release of `source`: the entry of this panel's version when it
/// names one, else the default entry.
pub open spec fn recommended_spec(policy: VersionPolicy, source: Seq<char>) -> Option<Seq<char>> {
    let from_panel = match panel_entry_pos(policy.panels@, panel_version_spec()) {
        Some(i) => entry_recommended(policy.panels@[i].1, source),
        None => None,
    };
    match from_panel {
        Some(v) => Some(v),
        None => entry_recommended(policy.default, source),
    }
}

/// Law: when the policy has an entry for this panel's version that names a
/// recommended release for the source, that release is the recommendation;
/// the default entry does not override it.
pub proof fn law_panel_entry_wins(policy: VersionPolicy, source: Seq<char>, i: int, rec: Seq<char>)
    requires
        0 <= i < policy.panels@.len(),
        policy.panels@[i].0@ == panel_version_spec(),
        forall|j: int| 0 <= j < i ==> policy.panels@[j].0@ != panel_version_spec(),
        source == "official"@ ==> opt_view(policy.panels@[i].1.official.recommended) == Some(rec),
        source != "official"@ ==> opt_view(policy.panels@[i].1.chinese.recommended) == Some(rec),
    ensures
        recommended_spec(policy, source) == Some(rec),
{
    lemma_panel_entry_pos(policy.panels@, panel_version_spec());
    let p = panel_entry_pos(policy.panels@, panel_version_spec());
    if p is None {
        assert(policy.panels@[i].0@ != panel_version_spec());
    } else {
        let q = p->0;
        if q < i {
            assert(policy.panels@[q].0@ != panel_version_spec());
        }
        if q > i {
            assert(policy.panels@[i].0@ != panel_version_spec());
        }
    }
}

/// Law: when no entry for this panel's version names a release for the
/// source, the default entry's recommendation for that source is taken.
pub proof fn law_default_entry_otherwise(policy: VersionPolicy, source: Seq<char>)
    requires
        forall|j: int|
            0 <= j < policy.panels@.len() && policy.panels@[j].0@ == panel_version_spec() ==> (
            if source == "official"@ {
                policy.panels@[j].1.official.recommended
            } else {
                policy.panels@[j].1.chinese.recommended
            }) is None,
    ensures
        recommended_spec(policy, source) == if source == "official"@ {
            opt_view(policy.default.official.recommended)
        } else {
            opt_view(policy.default.chinese.recommended)
        },
{
    lemma_panel_entry_pos(policy.panels@, panel_version_spec());
}

fn clone_opt(o: &Option<String>) -> (r: Option<String>)
    ensures
        opt_view(r) == opt_view(*o),
{
    match o {
        Some(s) => Some(s.clone()),
        None => None,
    }
}

fn entry_pick(e: &VersionPolicyEntry, source: &str) -> (r: Option<String>)
    ensures
        opt_view(r) == entry_recommended(*e, source@),
{
    if str_eq(source, "official") {
        clone_opt(&e.official.recommended)
    } else {
        clone_opt(&e.chinese.recommended)
    }
}

/// The release this panel recommends for `source` (`"official"` or the Chinese build).
pub fn recommended_version_for(policy: &VersionPolicy, source: &str) -> (r: Option<String>)
    ensures
        opt_view(r) == recommended_spec(*policy, source@),
{
    let pv = panel_version();
    let n = policy.panels.len();
    let mut found: Option<usize> = None;
    let mut i: usize = 0;
    while i < n
        invariant
            n == policy.panels@.len(),
            i <= n,
            pv@ == panel_version_spec(),
            found matches Some(k) ==> k < n && policy.panels@[k as int].0@ == pv@ && forall|j: int|
                0 <= j < k ==> policy.panels@[j].0@ != pv@,
            found is None ==> forall|j: int| 0 <= j < i ==> policy.panels@[j].0@ != pv@,
        decreases n - i,
    {
        if found.is_none() && str_eq(policy.panels[i].0.as_str(), pv) {
            found = Some(i);
        }
        i = i + 1;
    }
    proof {
        lemma_panel_entry_pos(policy.panels@, panel_version_spec());
        match found {
            Some(k) => {
                let p = panel_entry_pos(policy.panels@, panel_version_spec());
                assert(p == Some(k as int)) by {
                    if p is None {
                        assert(policy.panels@[k as int].0@ != pv@);
                    } else {
                        let q = p->0;
                        if q < k {
                            assert(policy.panels@[q].0@ != pv@);
                        }
                        if q > k {
                            assert(policy.panels@[k as int].0@ != pv@);
                        }
                    }
                }
            },
            None => {},
        }
    }
    let from_panel = match found {
        Some(k) => entry_pick(&policy.panels[k].1, source),
        None => None,
    };
    match from_panel {
        Some(v) => Some(v),
        None => entry_pick(&policy.default, source),
    }
}

/// What the panel reports about the installed OpenClaw.
pub struct VersionInfo {
    pub current: Option<String>,
    pub latest: Option<String>,
    pub recommended: Option<String>,
    pub update_available: bool,
    pub latest_update_available: bool,
    pub is_recommended: bool,
    pub ahead_of_recommended: bool,
    pub panel_version: String,
    pub source: String,
}

/// Is `target` an update over `current`? With no current version, any known target is one.
pub open spec fn update_over(current: Option<Seq<char>>, target: Option<Seq<char>>) -> bool {
    match (current, target) {
        (Some(c), Some(t)) => is_newer(t, c),
        (None, Some(_)) => true,
        _ => false,
    }
}

/// The version report from the installed, latest and recommended versions.
pub fn version_info(
    current: Option<String>,
    latest: Option<String>,
    recommended: Option<String>,
    source: String,
) -> (r: VersionInfo)
    ensures
        opt_view(r.current) == opt_view(current),
        opt_view(r.latest) == opt_view(latest),
        opt_view(r.recommended) == opt_view(recommended),
        r.source@ == source@,
        r.panel_version@ == panel_version_spec(),
        r.update_available == update_over(opt_view(current), opt_view(recommended)),
        r.latest_update_available == update_over(opt_view(current), opt_view(latest)),
        r.is_recommended == match (opt_view(current), opt_view(recommended)) {
            (Some(c), Some(rv)) => versions_match_spec(c, rv),
            _ => false,
        },
        r.ahead_of_recommended == match (opt_view(current), opt_view(recommended)) {
            (Some(c), Some(rv)) => is_newer(c, rv),
            _ => false,
        },
{
    let update_available = match (&current, &recommended) {
        (Some(c), Some(r)) => recommended_is_newer(r.as_str(), c.as_str()),
        (None, Some(_)) => true,
        _ => false,
    };
    let latest_update_available = match (&current, &latest) {
        (Some(c), Some(l)) => recommended_is_newer(l.as_str(), c.as_str()),
        (None, Some(_)) => true,
        _ => false,
    };
    let is_recommended = match (&current, &recommended) {
        (Some(c), Some(r)) => versions_match(c.as_str(), r.as_str()),
        _ => false,
    };
    let ahead_of_recommended = match (&current, &recommended) {
        (Some(c), Some(r)) => recommended_is_newer(c.as_str(), r.as_str()),
        _ => false,
    };
    VersionInfo {
        current,
        latest,
        recommended,
        update_available,
        latest_update_available,
        is_recommended,
        ahead_of_recommended,
        panel_version: owned(panel_version()),
        source,
    }
}

/// The npm package of a distribution: `"official"` is `openclaw`, any other the Chinese build.
pub fn npm_package_name(source: &str) -> (r: &'static str)
    ensures
        r@ == (if source@ == "official"@ {
            "openclaw"@
        } else {
            "@qingchencloud/openclaw-zh"@
        }),
{
    if str_eq(source, "official") {
        "openclaw"
    } else {
        "@qingchencloud/openclaw-zh"
    }
}


pub open spec fn package_of(source: Seq<char>) -> Seq<char> {
    if source == "official"@ {
        "openclaw"@
    } else {
        "@qingchencloud/openclaw-zh"@
    }
}

/// `{registry}/{package with '/' as %2F and '@' as %40}/latest`.
pub fn latest_version_url(registry: &str, source: &str) -> (r: String)
    ensures
        r@ == registry@ + "/"@ + replace_char(replace_char(package_of(source@), '/', "%2F"@), '@', "%40"@)
            + "/latest"@,
{
    let pkg = npm_package_name(source);
    let a = replace_char_str(pkg, '/', "%2F");
    let b = replace_char_str(a.as_str(), '@', "%40");
    let mut url = owned(registry);
    url.append("/");
    url.append(b.as_str());
    url.append("/latest");
    url
}

/// `{registry}/{package with '/' as %2F}`: the registry document that lists every version.
pub fn versions_list_url(registry: &str, source: &str) -> (r: String)
    ensures
        r@ == registry@ + "/"@ + replace_char(package_of(source@), '/', "%2F"@),
{
    let pkg = npm_package_name(source);
    let a = replace_char_str(pkg, '/', "%2F");
    let mut url = owned(registry);
    url.append("/");
    url.append(a.as_str());
    url
}

/// The version in the output of `openclaw --version`: its last word, if any.
pub fn version_from_cli_output(output: &str) -> (r: Option<String>)
    ensures
        match r {
            Some(v) => words(output@).len() > 0 && v@ == words(output@).last(),
            None => words(output@).len() == 0,
        },
{
    let ws = split_words(output);
    if ws.len() == 0 {
        None
    } else {
        Some(owned(ws[ws.len() - 1]))
    }
}

/// The distribution that `npm list -g @qingchencloud/openclaw-zh` reports.
pub fn source_from_npm_list(output: &str) -> (r: &'static str)
    ensures
        r@ == (if contains(output@, "openclaw-zh@"@) {
            "chinese"@
        } else {
            "official"@
        }),
{
    if contains_str(output, "openclaw-zh@") {
        "chinese"
    } else {
        "official"
    }
}

/// The distribution that the target of the `openclaw` symlink belongs to.
pub fn source_from_link_target(target: &str) -> (r: &'static str)
    ensures
        r@ == (if contains(target@, "openclaw-zh"@) {
            "chinese"@
        } else {
            "official"@
        }),
{
    if contains_str(target, "openclaw-zh") {
        "chinese"
    } else {
        "official"
    }
}

/// The sort key of a version text.
pub open spec fn vkey(s: Seq<char>) -> Seq<u32> {
    parse_version_spec(s)
}

/// Inserts `x` into a list sorted newest first, after every element that is not older.
pub open spec fn ins_desc(sorted: Seq<Seq<char>>, x: Seq<char>) -> Seq<Seq<char>>
    decreases sorted.len(),
{
    if sorted.len() == 0 {
        seq![x]
    } else if seq_lt(vkey(sorted.last()), vkey(x)) {
        ins_desc(sorted.drop_last(), x).push(sorted.last())
    } else {
        sorted.push(x)
    }
}

/// The versions sorted newest first; versions with equal numbers keep their order
/// (what a stable sort by descending number sequence gives).
pub open spec fn sort_desc(s: Seq<Seq<char>>) -> Seq<Seq<char>>
    decreases s.len(),
{
    if s.len() == 0 {
        s
    } else {
        ins_desc(sort_desc(s.drop_last()), s.last())
    }
}

/// First index of `x` in `s`.
pub open spec fn first_index(s: Seq<Seq<char>>, x: Seq<char>) -> Option<int>
    decreases s.len(),
{
    if s.len() == 0 {
        None
    } else if s[0] == x {
        Some(0)
    } else {
        match first_index(s.drop_first(), x) {
            Some(i) => Some(i + 1),
            None => None,
        }
    }
}

pub proof fn lemma_first_index(s: Seq<Seq<char>>, x: Seq<char>)
    ensures
        first_index(s, x) matches Some(i) ==> 0 <= i < s.len() && s[i] == x && forall|j: int|
            0 <= j < i ==> s[j] != x,
        first_index(s, x) is None ==> forall|j: int| 0 <= j < s.len() ==> s[j] != x,
    decreases s.len(),
{
    if s.len() > 0 {
        lemma_first_index(s.drop_first(), x);
        assert forall|j: int| 0 < j < s.len() implies s[j] == s.drop_first()[j - 1] by {}
    }
}

/// The version list as the panel offers it: newest first, with the recommended
/// version moved (or added) to the front.
pub open spec fn ordered_versions(s: Seq<Seq<char>>, recommended: Option<Seq<char>>) -> Seq<Seq<char>> {
    let sorted = sort_desc(s);
    match recommended {
        None => sorted,
        Some(r) => match first_index(sorted, r) {
            Some(p) => seq![r] + sorted.remove(p),
            None => seq![r] + sorted,
        },
    }
}

proof fn lemma_ins_desc_at(sorted: Seq<Seq<char>>, x: Seq<char>, j: int)
    requires
        0 <= j <= sorted.len(),
        forall|t: int| j <= t < sorted.len() ==> seq_lt(vkey(#[trigger] sorted[t]), vkey(x)),
        j == 0 || !seq_lt(vkey(sorted[j - 1]), vkey(x)),
    ensures
        ins_desc(sorted, x) == sorted.insert(j, x),
    decreases sorted.len() - j,
{
    if sorted.len() == 0 {
        assert(sorted.insert(j, x) =~= seq![x]);
    } else if j == sorted.len() {
        assert(sorted.insert(j, x) =~= sorted.push(x));
    } else {
        let d = sorted.drop_last();
        assert(seq_lt(vkey(sorted[sorted.len() - 1]), vkey(x)));
        assert forall|t: int| j <= t < d.len() implies seq_lt(vkey(#[trigger] d[t]), vkey(x)) by {
            assert(d[t] == sorted[t]);
        }
        if j > 0 {
            assert(d[j - 1] == sorted[j - 1]);
        }
        lemma_ins_desc_at(d, x, j);
        assert(d.insert(j, x).push(sorted.last()) =~= sorted.insert(j, x));
    }
}

/// Sorts the versions newest first (stably) and puts the recommended one first.
pub fn order_versions(versions: Vec<String>, recommended: Option<String>) -> (r: Vec<String>)
    ensures
        sviews(r@) == ordered_versions(sviews(versions@), opt_view(recommended)),
{
    let ghost src = sviews(versions@);
    let mut out: Vec<String> = Vec::new();
    let mut keys: Vec<Vec<u32>> = Vec::new();
    let ghost orig = versions@;
    for x in it: versions.into_iter()
        invariant
            it.seq() == orig,
            src == sviews(orig),
            sviews(out@) == sort_desc(src.take(it.index() as int)),
            keys@.len() == out@.len(),
            forall|t: int| 0 <= t < out@.len() ==> #[trigger] keys@[t]@ == vkey(out@[t]@),
    {
        let ghost i = it.index();
        let k = parse_version(x.as_str());
        let mut j = out.len();
        while j > 0 && vec_lt(&keys[j - 1], &k)
            invariant
                j <= out@.len(),
                keys@.len() == out@.len(),
                k@ == vkey(x@),
                forall|t: int| 0 <= t < out@.len() ==> #[trigger] keys@[t]@ == vkey(out@[t]@),
                forall|t: int| j <= t < out@.len() ==> seq_lt(vkey(#[trigger] out@[t]@), vkey(x@)),
            decreases j,
        {
            j = j - 1;
        }
        proof {
            let sv = sviews(out@);
            assert forall|t: int| j <= t < sv.len() implies seq_lt(vkey(#[trigger] sv[t]), vkey(x@)) by {
                assert(sv[t] == out@[t]@);
            }
            if j > 0 {
                assert(sv[j - 1] == out@[j - 1]@);
            }
            lemma_ins_desc_at(sv, x@, j as int);
            assert(src.take(i + 1).drop_last() =~= src.take(i as int));
            assert(src.take(i + 1).last() == x@);
        }
        let ghost before = out@;
        let ghost kbefore = keys@;
        let ghost xv = x@;
        out.insert(j, x);
        keys.insert(j, k);
        proof {
            assert(sviews(out@) =~= sviews(before).insert(j as int, xv));
            assert forall|t: int| 0 <= t < out@.len() implies #[trigger] keys@[t]@ == vkey(out@[t]@) by {
                if t < j {
                    assert(keys@[t] == kbefore[t]);
                    assert(out@[t] == before[t]);
                } else if t > j {
                    assert(keys@[t] == kbefore[t - 1]);
                    assert(out@[t] == before[t - 1]);
                }
            }
        }
    }
    proof {
        assert(src.take(src.len() as int) =~= src);
    }
    match recommended {
        None => out,
        Some(rv) => {
            let ghost sorted = sviews(out@);
            let n = out.len();
            let mut p: Option<usize> = None;
            let mut i: usize = 0;
            while i < n
                invariant
                    n == out@.len(),
                    i <= n,
                    sorted == sviews(out@),
                    p matches Some(q) ==> q < n && sorted[q as int] == rv@ && forall|t: int|
                        0 <= t < q ==> sorted[t] != rv@,
                    p is None ==> forall|t: int| 0 <= t < i ==> sorted[t] != rv@,
                decreases n - i,
            {
                if p.is_none() && out[i] == rv {
                    p = Some(i);
                }
                i = i + 1;
            }
            proof {
                lemma_first_index(sorted, rv@);
                let f = first_index(sorted, rv@);
                match p {
                    Some(q) => {
                        if f is None {
                            assert(sorted[q as int] != rv@);
                        } else {
                            let g = f->0;
                            if g < q {
                                assert(sorted[g] != rv@);
                            }
                            if g > q {
                                assert(sorted[q as int] != rv@);
                            }
                        }
                    },
                    None => {},
                }
            }
            let mut res = out;
            match p {
                Some(q) => {
                    let ghost before = res@;
                    let v = res.remove(q);
                    res.insert(0, v);
                    proof {
                        assert(sviews(res@) =~= seq![rv@] + sorted.remove(q as int));
                    }
                },
                None => {
                    let ghost before = res@;
                    res.insert(0, rv);
                    proof {
                        assert(sviews(res@) =~= seq![rv@] + sorted);
                    }
                },
            }
            res
        },
    }
}


/// Ordered newest first: no version comes before a newer one.
pub open spec fn is_newest_first(s: Seq<Seq<char>>) -> bool {
    forall|i: int, j: int| 0 <= i < j < s.len() ==> !seq_lt(vkey(s[i]), vkey(s[j]))
}

/// Where `ins_desc` puts `x`.
spec fn desc_pos(s: Seq<Seq<char>>, x: Seq<char>) -> int
    decreases s.len(),
{
    if s.len() == 0 {
        0
    } else if seq_lt(vkey(s.last()), vkey(x)) {
        desc_pos(s.drop_last(), x)
    } else {
        s.len() as int
    }
}

proof fn lemma_desc_pos(s: Seq<Seq<char>>, x: Seq<char>)
    ensures
        0 <= desc_pos(s, x) <= s.len(),
        forall|t: int| desc_pos(s, x) <= t < s.len() ==> seq_lt(vkey(#[trigger] s[t]), vkey(x)),
        desc_pos(s, x) > 0 ==> !seq_lt(vkey(s[desc_pos(s, x) - 1]), vkey(x)),
    decreases s.len(),
{
    if s.len() > 0 && seq_lt(vkey(s.last()), vkey(x)) {
        let d = s.drop_last();
        lemma_desc_pos(d, x);
        assert forall|t: int| desc_pos(s, x) <= t < s.len() implies seq_lt(
            vkey(#[trigger] s[t]),
            vkey(x),
        ) by {
            if t < s.len() - 1 {
                assert(s[t] == d[t]);
            }
        }
        if desc_pos(s, x) > 0 {
            assert(s[desc_pos(s, x) - 1] == d[desc_pos(s, x) - 1]);
        }
    }
}

/// `!(a < b)` and `!(b < c)` give `!(a < c)`.
proof fn lemma_not_lt_chain(a: Seq<u32>, b: Seq<u32>, c: Seq<u32>)
    requires
        !seq_lt(a, b),
        !seq_lt(b, c),
    ensures
        !seq_lt(a, c),
{
    lemma_seq_lt_total(a, b);
    lemma_seq_lt_total(b, c);
    if seq_lt(a, c) {
        if seq_lt(b, a) {
            lemma_seq_lt_transitive(b, a, c);
        }
        if seq_lt(c, b) {
            lemma_seq_lt_transitive(a, c, b);
            if seq_lt(b, a) {
                lemma_seq_lt_transitive(b, a, b);
                lemma_seq_lt_irreflexive(b);
            } else {
                lemma_seq_lt_irreflexive(a);
            }
        }
        if b == a {
            lemma_seq_lt_irreflexive(a);
        }
        if c == b {
            lemma_seq_lt_irreflexive(a);
        }
    }
}

proof fn lemma_ins_desc(s: Seq<Seq<char>>, x: Seq<char>)
    requires
        is_newest_first(s),
    ensures
        is_newest_first(ins_desc(s, x)),
        ins_desc(s, x).to_multiset() == s.to_multiset().insert(x),
{
    let k = desc_pos(s, x);
    lemma_desc_pos(s, x);
    lemma_ins_desc_at(s, x, k);
    let r = s.insert(k, x);
    assert forall|i: int, j: int| 0 <= i < j < r.len() implies !seq_lt(vkey(r[i]), vkey(r[j])) by {
        if j < k {
            assert(r[i] == s[i] && r[j] == s[j]);
        } else if j == k {
            assert(r[j] == x);
            assert(r[i] == s[i]);
            if i < k - 1 {
                lemma_not_lt_chain(vkey(s[i]), vkey(s[k - 1]), vkey(x));
            }
        } else if i < k {
            assert(r[i] == s[i] && r[j] == s[j - 1]);
        } else if i == k {
            assert(r[i] == x && r[j] == s[j - 1]);
            assert(seq_lt(vkey(s[j - 1]), vkey(x)));
            if seq_lt(vkey(x), vkey(s[j - 1])) {
                lemma_seq_lt_transitive(vkey(x), vkey(s[j - 1]), vkey(x));
                lemma_seq_lt_irreflexive(vkey(x));
            }
        } else {
            assert(r[i] == s[i - 1] && r[j] == s[j - 1]);
        }
    }
    vstd::seq_lib::to_multiset_insert(s, k, x);
}

/// Law: the version list is sorted newest first and holds each version exactly once.
pub proof fn law_versions_newest_first(s: Seq<Seq<char>>)
    ensures
        is_newest_first(sort_desc(s)),
        sort_desc(s).to_multiset() == s.to_multiset(),
    decreases s.len(),
{
    if s.len() > 0 {
        let d = s.drop_last();
        law_versions_newest_first(d);
        lemma_ins_desc(sort_desc(d), s.last());
        vstd::seq_lib::to_multiset_build(d, s.last());
        assert(d.push(s.last()) =~= s);
    }
}

/// Law: the offered list starts with the recommended version, is newest first
/// after it, and holds every listed version once; the recommended version is
/// added when the registry does not list it.
pub proof fn law_recommended_first(s: Seq<Seq<char>>, r: Seq<char>)
    ensures
        ordered_versions(s, Some(r))[0] == r,
        is_newest_first(ordered_versions(s, Some(r)).drop_first()),
        ordered_versions(s, Some(r)).to_multiset() == if s.contains(r) {
            s.to_multiset()
        } else {
            s.to_multiset().insert(r)
        },
{
    law_versions_newest_first(s);
    let sorted = sort_desc(s);
    lemma_first_index(sorted, r);
    let o = ordered_versions(s, Some(r));
    vstd::seq_lib::to_multiset_contains(s, r);
    vstd::seq_lib::to_multiset_contains(sorted, r);
    match first_index(sorted, r) {
        Some(p) => {
            let rest = sorted.remove(p);
            assert(o.drop_first() =~= rest);
            assert forall|i: int, j: int| 0 <= i < j < rest.len() implies !seq_lt(
                vkey(rest[i]),
                vkey(rest[j]),
            ) by {
                let a = if i < p { i } else { i + 1 };
                let b = if j < p { j } else { j + 1 };
                assert(rest[i] == sorted[a]);
                assert(rest[j] == sorted[b]);
            }
            vstd::seq_lib::to_multiset_remove(sorted, p);
            vstd::seq_lib::to_multiset_insert(rest, 0, r);
            assert(seq![r] + rest =~= rest.insert(0, r));
            assert(sorted.contains(r));
            assert(s.to_multiset().remove(r).insert(r) =~= s.to_multiset());
        },
        None => {
            assert(o.drop_first() =~= sorted);
            vstd::seq_lib::to_multiset_insert(sorted, 0, r);
            assert(seq![r] + sorted =~= sorted.insert(0, r));
            assert(!sorted.contains(r));
        },
    }
}

} // verus!
