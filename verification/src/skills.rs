//! Skills: how a dependency of a skill is installed, how ClawHub's search
//! output is read, and how a skill's description is found in its `SKILL.md`.
use vstd::prelude::*;
use crate::json::{
    Json, JsonV, field_str, entries_deep, elems_deep, push_entry, object, lemma_elems_deep_push,
    lemma_array_deep,
};
use crate::text::{
    CharClass, is_ws, trim, trim_by, starts_with, occurs_at, split_by, views, sviews, owned, str_eq,
    trim_ws, trim_char, starts_with_str, split_class, chars_of, occurs_at_exec, is_ws_char,
};

verus! {

/// The command that installs a dependency of kind `kind` described by `spec`:
/// `brew install <formula>`, `npm install -g <package>`, `go install <module>`
/// or `uv tool install <package>`; an error when the kind is unknown or its
/// field is missing.
pub open spec fn install_dep_spec(kind: Seq<char>, spec: JsonV) -> Result<
    (Seq<char>, Seq<Seq<char>>),
    Seq<char>,
> {
    if kind == "brew"@ {
        match field_str(spec, "formula"@) {
            Some(f) => Ok(("brew"@, seq!["install"@, f])),
            None => Err("缺少 formula 参数"@),
        }
    } else if kind == "node"@ {
        match field_str(spec, "package"@) {
            Some(p) => Ok(("npm"@, seq!["install"@, "-g"@, p])),
            None => Err("缺少 package 参数"@),
        }
    } else if kind == "go"@ {
        match field_str(spec, "module"@) {
            Some(m) => Ok(("go"@, seq!["install"@, m])),
            None => Err("缺少 module 参数"@),
        }
    } else if kind == "uv"@ {
        match field_str(spec, "package"@) {
            Some(p) => Ok(("uv"@, seq!["tool"@, "install"@, p])),
            None => Err("缺少 package 参数"@),
        }
    } else {
        Err("不支持的安装类型: "@ + kind)
    }
}

fn strings_of(a: &str, b: &str, c: Option<&str>) -> (r: Vec<String>)
    ensures
        sviews(r@) == match c {
            Some(x) => seq![a@, b@, x@],
            None => seq![a@, b@],
        },
{
    let mut v: Vec<String> = Vec::new();
    v.push(owned(a));
    v.push(owned(b));
    match c {
        Some(x) => v.push(owned(x)),
        None => {},
    }
    proof {
        match c {
            Some(x) => assert(sviews(v@) =~= seq![a@, b@, x@]),
            None => assert(sviews(v@) =~= seq![a@, b@]),
        }
    }
    v
}

/// The program and arguments that install a skill's dependency (see `install_dep_spec`).
pub fn install_dep_command(kind: &str, spec: &Json) -> (r: Result<(String, Vec<String>), String>)
    ensures
        match r {
            Ok((p, a)) => install_dep_spec(kind@, spec.deep()) == Ok::<
                (Seq<char>, Seq<Seq<char>>),
                Seq<char>,
            >((p@, sviews(a@))),
            Err(e) => install_dep_spec(kind@, spec.deep()) == Err::<
                (Seq<char>, Seq<Seq<char>>),
                Seq<char>,
            >(e@),
        },
{
    if str_eq(kind, "brew") {
        match spec.get_str("formula") {
            Some(f) => Ok((owned("brew"), strings_of("install", f, None))),
            None => Err(owned("缺少 formula 参数")),
        }
    } else if str_eq(kind, "node") {
        match spec.get_str("package") {
            Some(p) => Ok((owned("npm"), strings_of("install", "-g", Some(p)))),
            None => Err(owned("缺少 package 参数")),
        }
    } else if str_eq(kind, "go") {
        match spec.get_str("module") {
            Some(m) => Ok((owned("go"), strings_of("install", m, None))),
            None => Err(owned("缺少 module 参数")),
        }
    } else if str_eq(kind, "uv") {
        match spec.get_str("package") {
            Some(p) => Ok((owned("uv"), strings_of("tool", "install", Some(p)))),
            None => Err(owned("缺少 package 参数")),
        }
    } else {
        let mut m = owned("不支持的安装类型: ");
        m.append(kind);
        Err(m)
    }
}

/// `<prefix><stderr trimmed>`: how a failed command is reported.
pub fn failure_with_stderr(prefix: &str, stderr: &str) -> (r: String)
    ensures
        r@ == prefix@ + trim(stderr@),
{
    let mut m = owned(prefix);
    m.append(trim_ws(stderr));
    m
}

/// The error of a failed dependency install: the command, its exit status as
/// the platform shows it, and what it printed on stderr.
pub fn install_dep_failure(program: &str, status: &str, stderr: &str) -> (r: String)
    ensures
        r@ == "安装失败 ("@ + program@ + " "@ + status@ + "): "@ + trim(stderr@),
{
    let mut m = owned("安装失败 (");
    m.append(program);
    m.append(" ");
    m.append(status);
    m.append("): ");
    m.append(trim_ws(stderr));
    m
}

/// `{"success": true, "output": <stdout trimmed>}`.
pub fn install_dep_success(stdout: &str) -> (r: Json)
    ensures
        r.deep() == JsonV::Object(
            seq![("success"@, JsonV::Bool(true)), ("output"@, JsonV::Str(trim(stdout@)))],
        ),
{
    let mut es: Vec<(String, Json)> = Vec::new();
    push_entry(&mut es, "success", Json::Bool(true));
    push_entry(&mut es, "output", Json::text(trim_ws(stdout)));
    proof {
        assert(entries_deep(es@) =~= seq![
            ("success"@, JsonV::Bool(true)),
            ("output"@, JsonV::Str(trim(stdout@))),
        ]);
    }
    object(es)
}

/// `{"success": true, "slug": <slug>, "output": <stdout trimmed>}`.
pub fn clawhub_installed(slug: &str, stdout: &str) -> (r: Json)
    ensures
        r.deep() == JsonV::Object(
            seq![
                ("success"@, JsonV::Bool(true)),
                ("slug"@, JsonV::Str(slug@)),
                ("output"@, JsonV::Str(trim(stdout@))),
            ],
        ),
{
    let mut es: Vec<(String, Json)> = Vec::new();
    push_entry(&mut es, "success", Json::Bool(true));
    push_entry(&mut es, "slug", Json::text(slug));
    push_entry(&mut es, "output", Json::text(trim_ws(stdout)));
    proof {
        assert(entries_deep(es@) =~= seq![
            ("success"@, JsonV::Bool(true)),
            ("slug"@, JsonV::Str(slug@)),
            ("output"@, JsonV::Str(trim(stdout@))),
        ]);
    }
    object(es)
}

/// The query of a ClawHub search: trimmed; `None` when nothing is left, and
/// then the search answers with no result.
pub fn search_query(query: &str) -> (r: Option<String>)
    ensures
        match r {
            Some(q) => q@ == trim(query@) && q@.len() > 0,
            None => trim(query@).len() == 0,
        },
{
    let q = trim_ws(query);
    if q.is_empty() {
        None
    } else {
        Some(owned(q))
    }
}

/// The position of the first whitespace character.
pub open spec fn first_ws(s: Seq<char>) -> Option<int>
    decreases s.len(),
{
    if s.len() == 0 {
        None
    } else if is_ws(s[0]) {
        Some(0)
    } else {
        match first_ws(s.drop_first()) {
            Some(i) => Some(i + 1),
            None => None,
        }
    }
}

proof fn lemma_first_ws_is(s: Seq<char>, i: int)
    requires
        0 <= i < s.len(),
        is_ws(s[i]),
        forall|j: int| 0 <= j < i ==> !is_ws(s[j]),
    ensures
        first_ws(s) == Some(i),
    decreases i,
{
    if i > 0 {
        assert(!is_ws(s[0]));
        assert forall|j: int| 0 <= j < i - 1 implies !is_ws(s.drop_first()[j]) by {
            assert(s.drop_first()[j] == s[j + 1]);
        }
        lemma_first_ws_is(s.drop_first(), i - 1);
    }
}

proof fn lemma_first_ws_none(s: Seq<char>)
    requires
        forall|j: int| 0 <= j < s.len() ==> !is_ws(s[j]),
    ensures
        first_ws(s) is None,
    decreases s.len(),
{
    if s.len() > 0 {
        assert forall|j: int| 0 <= j < s.len() - 1 implies !is_ws(s.drop_first()[j]) by {
            assert(s.drop_first()[j] == s[j + 1]);
        }
        lemma_first_ws_none(s.drop_first());
    }
}

/// `line.splitn(2, char::is_whitespace)`: the text before the first whitespace
/// character, and the rest after it (empty when there is none).
pub open spec fn split_at_ws(l: Seq<char>) -> (Seq<char>, Seq<char>) {
    match first_ws(l) {
        Some(i) => (l.subrange(0, i), l.subrange(i + 1, l.len() as int)),
        None => (l, Seq::empty()),
    }
}

/// A line of search output that names a skill: not empty, not a rule of
/// dashes and not the `Search...` header.
pub open spec fn result_line(l: Seq<char>) -> bool {
    l.len() > 0 && !starts_with(l, "-"@) && !starts_with(l, "Search"@)
}

/// `{"slug": .., "description": .., "source": "clawhub"}` of a result line.
pub open spec fn search_item(l: Seq<char>) -> JsonV {
    JsonV::Object(
        seq![
            ("slug"@, JsonV::Str(trim(split_at_ws(l).0))),
            ("description"@, JsonV::Str(trim(split_at_ws(l).1))),
            ("source"@, JsonV::Str("clawhub"@)),
        ],
    )
}

/// The results of the lines, each trimmed, in order.
pub open spec fn search_items(lines: Seq<Seq<char>>) -> Seq<JsonV>
    decreases lines.len(),
{
    if lines.len() == 0 {
        Seq::empty()
    } else {
        let prev = search_items(lines.drop_last());
        let l = trim(lines.last());
        if result_line(l) && trim(split_at_ws(l).0).len() > 0 {
            prev.push(search_item(l))
        } else {
            prev
        }
    }
}

/// The skills in the output of `clawhub search`, one per line. (The lines are
/// taken between newlines; since each is trimmed and empty ones are dropped,
/// this is what `str::lines` gives.)
pub open spec fn search_results_spec(stdout: Seq<char>) -> JsonV {
    JsonV::Array(search_items(split_by(stdout, CharClass::Exactly('\n'))))
}

fn split_first_ws<'a>(l: &'a str) -> (r: (&'a str, &'a str))
    ensures
        (r.0@, r.1@) == split_at_ws(l@),
{
    let cs = chars_of(l);
    let n = cs.len();
    for i in 0..n
        invariant
            n == cs@.len(),
            cs@ == l@,
            forall|j: int| 0 <= j < i ==> !is_ws(cs@[j]),
    {
        if is_ws_char(cs[i]) {
            proof {
                lemma_first_ws_is(l@, i as int);
            }
            return (l.substring_char(0, i), l.substring_char(i + 1, n));
        }
    }
    proof {
        lemma_first_ws_none(l@);
        assert(l@.subrange(0, n as int) =~= l@);
        assert(l@.subrange(n as int, n as int) =~= Seq::<char>::empty());
    }
    (l.substring_char(0, n), l.substring_char(n, n))
}

fn search_item_exec(l: &str) -> (r: Json)
    ensures
        r.deep() == search_item(l@),
{
    let (a, b) = split_first_ws(l);
    let mut es: Vec<(String, Json)> = Vec::new();
    push_entry(&mut es, "slug", Json::text(trim_ws(a)));
    push_entry(&mut es, "description", Json::text(trim_ws(b)));
    push_entry(&mut es, "source", Json::text("clawhub"));
    proof {
        assert(entries_deep(es@) =~= seq![
            ("slug"@, JsonV::Str(trim(split_at_ws(l@).0))),
            ("description"@, JsonV::Str(trim(split_at_ws(l@).1))),
            ("source"@, JsonV::Str("clawhub"@)),
        ]);
    }
    object(es)
}

/// The search results of `clawhub search` output (see `search_results_spec`).
pub fn parse_search_output(stdout: &str) -> (r: Json)
    ensures
        r.deep() == search_results_spec(stdout@),
{
    let lines = split_class(stdout, CharClass::Exactly('\n'));
    let ghost ls = views(lines@);
    let n = lines.len();
    let mut items: Vec<Json> = Vec::new();
    for i in 0..n
        invariant
            n == lines@.len(),
            ls == views(lines@),
            ls == split_by(stdout@, CharClass::Exactly('\n')),
            elems_deep(items@) == search_items(ls.take(i as int)),
    {
        proof {
            assert(ls.take(i + 1).drop_last() =~= ls.take(i as int));
            assert(ls.take(i + 1).last() == lines@[i as int]@);
        }
        let l = trim_ws(lines[i]);
        if !l.is_empty() && !starts_with_str(l, "-") && !starts_with_str(l, "Search") {
            let (a, _) = split_first_ws(l);
            if !trim_ws(a).is_empty() {
                let item = search_item_exec(l);
                proof {
                    lemma_elems_deep_push(items@, item);
                }
                items.push(item);
            }
        }
    }
    proof {
        assert(ls.take(n as int) =~= ls);
        lemma_array_deep(items);
    }
    Json::Array(items)
}


/// The first position at which `p` occurs in `s`.
pub open spec fn find_sub(s: Seq<char>, p: Seq<char>) -> Option<int>
    decreases s.len(),
{
    if starts_with(s, p) {
        Some(0)
    } else if s.len() == 0 {
        None
    } else {
        match find_sub(s.drop_first(), p) {
            Some(i) => Some(i + 1),
            None => None,
        }
    }
}

proof fn lemma_occurs_drop_first(s: Seq<char>, p: Seq<char>, j: int)
    requires
        s.len() > 0,
        0 <= j,
    ensures
        occurs_at(s.drop_first(), p, j) == occurs_at(s, p, j + 1),
{
    if j + 1 + p.len() <= s.len() {
        assert(s.drop_first().subrange(j, j + p.len()) =~= s.subrange(j + 1, j + 1 + p.len()));
    }
}

proof fn lemma_find_sub_is(s: Seq<char>, p: Seq<char>, i: int)
    requires
        occurs_at(s, p, i),
        forall|j: int| 0 <= j < i ==> !occurs_at(s, p, j),
    ensures
        find_sub(s, p) == Some(i),
    decreases s.len(),
{
    if i == 0 {
        assert(starts_with(s, p));
    } else {
        assert(!occurs_at(s, p, 0));
        assert(!starts_with(s, p));
        lemma_occurs_drop_first(s, p, i - 1);
        assert forall|j: int| 0 <= j < i - 1 implies !occurs_at(s.drop_first(), p, j) by {
            lemma_occurs_drop_first(s, p, j);
        }
        lemma_find_sub_is(s.drop_first(), p, i - 1);
    }
}

proof fn lemma_find_sub_none(s: Seq<char>, p: Seq<char>)
    requires
        forall|j: int| 0 <= j ==> !occurs_at(s, p, j),
    ensures
        find_sub(s, p) is None,
    decreases s.len(),
{
    assert(!occurs_at(s, p, 0));
    if s.len() > 0 {
        assert forall|j: int| 0 <= j implies !occurs_at(s.drop_first(), p, j) by {
            lemma_occurs_drop_first(s, p, j);
        }
        lemma_find_sub_none(s.drop_first(), p);
    }
}

/// The first position at which `p` occurs in `s` (`str::find`, in characters).
pub fn find_text(s: &str, p: &str) -> (r: Option<usize>)
    ensures
        match r {
            Some(i) => find_sub(s@, p@) == Some(i as int) && occurs_at(s@, p@, i as int),
            None => find_sub(s@, p@) is None,
        },
{
    let sc = chars_of(s);
    let pc = chars_of(p);
    let m = sc.len();
    let mut i: usize = 0;
    while i < m
        invariant
            sc@ == s@,
            pc@ == p@,
            m == sc@.len(),
            i <= m,
            forall|j: int| 0 <= j < i ==> !occurs_at(s@, p@, j),
        decreases m - i,
    {
        if occurs_at_exec(&sc, &pc, i) {
            proof {
                lemma_find_sub_is(s@, p@, i as int);
            }
            return Some(i);
        }
        i = i + 1;
    }
    if occurs_at_exec(&sc, &pc, m) {
        proof {
            lemma_find_sub_is(s@, p@, m as int);
        }
        return Some(m);
    }
    proof {
        assert forall|j: int| 0 <= j implies !occurs_at(s@, p@, j) by {
            if j > m {
                assert(!occurs_at(s@, p@, j));
            }
        }
        lemma_find_sub_none(s@, p@);
    }
    None
}

/// The value of a `description:` line, after the prefix: trimmed, then without
/// surrounding double quotes, then without surrounding single quotes.
pub open spec fn description_value(rest: Seq<char>) -> Seq<char> {
    trim_by(trim_by(trim(rest), CharClass::Exactly('"')), CharClass::Exactly('\''))
}

/// The value of the first line that, trimmed, starts with `description:`.
pub open spec fn description_in(lines: Seq<Seq<char>>) -> Seq<char>
    decreases lines.len(),
{
    if lines.len() == 0 {
        Seq::empty()
    } else if starts_with(trim(lines[0]), "description:"@) {
        description_value(trim(lines[0]).skip(12))
    } else {
        description_in(lines.drop_first())
    }
}

/// The description of a skill in the YAML front matter of its `SKILL.md`
/// (between a leading `---` and the next `---`); empty when there is none.
pub open spec fn skill_description_spec(content: Seq<char>) -> Seq<char> {
    if !starts_with(content, "---"@) {
        Seq::empty()
    } else {
        let rest = content.skip(3);
        match find_sub(rest, "---"@) {
            Some(e) => description_in(split_by(rest.subrange(0, e), CharClass::Exactly('\n'))),
            None => Seq::empty(),
        }
    }
}

/// The description of a skill from the content of its `SKILL.md` (see `skill_description_spec`).
pub fn parse_skill_description(content: &str) -> (r: String)
    ensures
        r@ == skill_description_spec(content@),
{
    if !starts_with_str(content, "---") {
        return String::new();
    }
    let cs = chars_of(content);
    let n = cs.len();
    proof {
        reveal_strlit("---");
        assert(n >= 3);
    }
    let rest = content.substring_char(3, n);
    let e = match find_text(rest, "---") {
        Some(e) => e,
        None => {
            return String::new();
        },
    };
    proof {
        assert(rest@ =~= content@.skip(3));
    }
    let fm = rest.substring_char(0, e);
    let lines = split_class(fm, CharClass::Exactly('\n'));
    let ghost ls = views(lines@);
    let k = lines.len();
    proof {
        assert(ls.subrange(0, k as int) =~= ls);
    }
    for j in 0..k
        invariant
            k == lines@.len(),
            ls == views(lines@),
            starts_with(content@, "---"@),
            find_sub(content@.skip(3), "---"@) == Some(e as int),
            ls == split_by(content@.skip(3).subrange(0, e as int), CharClass::Exactly('\n')),
            description_in(ls) == description_in(ls.subrange(j as int, k as int)),
    {
        proof {
            let t = ls.subrange(j as int, k as int);
            assert(t[0] == lines@[j as int]@);
            assert(t.drop_first() =~= ls.subrange(j + 1, k as int));
        }
        let t = trim_ws(lines[j]);
        if starts_with_str(t, "description:") {
            proof {
                reveal_strlit("description:");
            }
            let tn = chars_of(t).len();
            let after = t.substring_char(12, tn);
            proof {
                assert(after@ =~= t@.skip(12));
            }
            let v = trim_char(trim_char(trim_ws(after), '"'), '\'');
            proof {
                let tt = ls.subrange(j as int, k as int);
                assert(tt[0] == lines@[j as int]@);
                assert(trim(tt[0]) == t@);
                assert(starts_with(trim(tt[0]), "description:"@));
                assert(description_in(tt) == description_value(t@.skip(12)));
                assert(v@ == description_value(t@.skip(12)));
            }
            return owned(v);
        }
    }
    proof {
        assert(ls.subrange(k as int, k as int).len() == 0);
    }
    String::new()
}

/// The entry of a skill found on disk when the CLI is not available.
pub fn local_skill_entry(name: &str, description: &str, file_path: &str) -> (r: Json)
    ensures
        r.deep() == JsonV::Object(
            seq![
                ("name"@, JsonV::Str(name@)),
                ("description"@, JsonV::Str(description@)),
                ("source"@, JsonV::Str("managed"@)),
                ("eligible"@, JsonV::Bool(true)),
                ("bundled"@, JsonV::Bool(false)),
                ("filePath"@, JsonV::Str(file_path@)),
            ],
        ),
{
    let mut es: Vec<(String, Json)> = Vec::new();
    push_entry(&mut es, "name", Json::text(name));
    push_entry(&mut es, "description", Json::text(description));
    push_entry(&mut es, "source", Json::text("managed"));
    push_entry(&mut es, "eligible", Json::Bool(true));
    push_entry(&mut es, "bundled", Json::Bool(false));
    push_entry(&mut es, "filePath", Json::text(file_path));
    proof {
        assert(entries_deep(es@) =~= seq![
            ("name"@, JsonV::Str(name@)),
            ("description"@, JsonV::Str(description@)),
            ("source"@, JsonV::Str("managed"@)),
            ("eligible"@, JsonV::Bool(true)),
            ("bundled"@, JsonV::Bool(false)),
            ("filePath"@, JsonV::Str(file_path@)),
        ]);
    }
    object(es)
}

/// The answer of a local scan: `{"skills": [..], "source": "local-scan", "cliAvailable": false}`.
pub fn local_scan_result(skills: Vec<Json>) -> (r: Json)
    ensures
        r.deep() == JsonV::Object(
            seq![
                ("skills"@, JsonV::Array(elems_deep(skills@))),
                ("source"@, JsonV::Str("local-scan"@)),
                ("cliAvailable"@, JsonV::Bool(false)),
            ],
        ),
{
    let ghost sk = elems_deep(skills@);
    proof {
        lemma_array_deep(skills);
    }
    let mut es: Vec<(String, Json)> = Vec::new();
    push_entry(&mut es, "skills", Json::Array(skills));
    push_entry(&mut es, "source", Json::text("local-scan"));
    push_entry(&mut es, "cliAvailable", Json::Bool(false));
    proof {
        assert(entries_deep(es@) =~= seq![
            ("skills"@, JsonV::Array(sk)),
            ("source"@, JsonV::Str("local-scan"@)),
            ("cliAvailable"@, JsonV::Bool(false)),
        ]);
    }
    object(es)
}

} // verus!
