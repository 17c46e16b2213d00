//! The panel's own chores: its configuration files, the Node.js and Git
//! checks, the search for Node.js, its update check, the proxy test, and the
//! files it serves to its window.
use vstd::prelude::*;
use crate::json::{
    Json, JsonV, field, field_str, entries_deep, push_entry, object, obj_insert, assoc_insert,
    lemma_object_deep,
};
use crate::text::{
    CharClass, trim, trim_start_by, starts_with, ends_with, owned, str_eq, trim_ws, trim_start_char,
    ends_with_str, sviews, split_by, in_class, split_class, views, chars_of, class_test,
};
use vstd::string::*;
use crate::num::{dec, IntErrorKind, parse_u32, parse_u32_spec};
use crate::uifields::{has_ui, strip_ui, has_ui_fields, strip_ui_fields};
use crate::providers::{status_text, status_text_spec};
use crate::install::Platform;

verus! {

/// The record of why the backend guardian should stay paused during a task.
/// It holds the reason only: this library has no guardian, so no pause is
/// performed and none is lifted when the record is dropped.
pub struct GuardianPause {
    pub reason: &'static str,
}

impl GuardianPause {
    /// The record for `reason`; it pauses nothing.
    pub fn new(reason: &'static str) -> (r: Self)
        ensures
            r.reason@ == reason@,
    {
        GuardianPause { reason }
    }
}

/// `dir.join(name)` for a relative `name` of one component on a Unix path: a
/// separator goes between unless `dir` is empty or already ends with one.
pub open spec fn join_path_spec(dir: Seq<char>, name: Seq<char>) -> Seq<char> {
    if dir.len() == 0 || ends_with(dir, "/"@) {
        dir + name
    } else {
        dir + "/"@ + name
    }
}

pub fn join_path(dir: &str, name: &str) -> (r: String)
    ensures
        r@ == join_path_spec(dir@, name@),
{
    let mut p = owned(dir);
    if !dir.is_empty() && !ends_with_str(dir, "/") {
        p.append("/");
    }
    p.append(name);
    p
}

/// The directory of configuration backups: `backups` in the OpenClaw directory.
pub fn backups_dir(openclaw_dir: &str) -> (r: String)
    ensures
        r@ == join_path_spec(openclaw_dir@, "backups"@),
{
    join_path(openclaw_dir, "backups")
}

/// The components of a path: the pieces between separators (`/` or `\`),
/// empty ones included.
pub open spec fn path_parts(p: Seq<char>) -> Seq<Seq<char>> {
    split_by(p, CharClass::PathSeparator)
}

/// The components left after resolving a list from the left: empty pieces and
/// `.` are dropped, and `..` drops the component before it (nothing at the start).
pub open spec fn resolve_parts(ps: Seq<Seq<char>>) -> Seq<Seq<char>>
    decreases ps.len(),
{
    if ps.len() == 0 {
        Seq::empty()
    } else {
        let r = resolve_parts(ps.drop_last());
        let x = ps.last();
        if x.len() == 0 || x == "."@ {
            r
        } else if x == ".."@ {
            if r.len() > 0 {
                r.drop_last()
            } else {
                r
            }
        } else {
            r.push(x)
        }
    }
}

/// Does the path start at a root (with a separator)?
pub open spec fn is_rooted(p: Seq<char>) -> bool {
    p.len() > 0 && in_class(CharClass::PathSeparator, p[0])
}

/// `path` lies in `dir` (or is `dir`) once `.` and `..` are resolved in both:
/// both are rooted or neither is, and the resolved components of `dir` begin
/// those of `path`.
pub open spec fn inside_dir_spec(dir: Seq<char>, path: Seq<char>) -> bool {
    let a = resolve_parts(path_parts(dir));
    let b = resolve_parts(path_parts(path));
    &&& is_rooted(dir) == is_rooted(path)
    &&& a.len() <= b.len()
    &&& forall|i: int| 0 <= i < a.len() ==> a[i] == b[i]
}

/// The resolved components of `p` (see `resolve_parts`).
fn resolved_parts<'a>(p: &'a str) -> (r: Vec<&'a str>)
    ensures
        views(r@) == resolve_parts(path_parts(p@)),
{
    let parts = split_class(p, CharClass::PathSeparator);
    let ghost ps = views(parts@);
    let n = parts.len();
    let mut out: Vec<&'a str> = Vec::new();
    proof {
        reveal_strlit(".");
        reveal_strlit("..");
        assert(ps.take(0) =~= Seq::<Seq<char>>::empty());
        assert(views(out@) =~= Seq::<Seq<char>>::empty());
    }
    for i in 0..n
        invariant
            n == parts@.len(),
            ps == views(parts@),
            ps == path_parts(p@),
            views(out@) == resolve_parts(ps.take(i as int)),
            "."@.len() == 1,
            "."@[0] == '.',
            ".."@.len() == 2,
            ".."@[0] == '.',
            ".."@[1] == '.',
    {
        let x = parts[i];
        let ghost before = out@;
        proof {
            assert(ps.take(i + 1).drop_last() =~= ps.take(i as int));
            assert(ps.take(i + 1).last() == x@);
        }
        if x.is_empty() || str_eq(x, ".") {
        } else if str_eq(x, "..") {
            proof {
                assert(x@ != "."@);
            }
            if out.len() > 0 {
                out.pop();
                proof {
                    assert(views(out@) =~= views(before).drop_last());
                }
            }
        } else {
            out.push(x);
            proof {
                assert(views(out@) =~= views(before).push(x@));
            }
        }
    }
    proof {
        assert(ps.take(n as int) =~= ps);
    }
    out
}

fn rooted(p: &str) -> (r: bool)
    ensures
        r == is_rooted(p@),
{
    let c = chars_of(p);
    c.len() > 0 && class_test(&CharClass::PathSeparator, c[0])
}

/// Whether `path` lies in `dir` once `.` and `..` are resolved (see `inside_dir_spec`).
pub fn inside_dir(dir: &str, path: &str) -> (r: bool)
    ensures
        r == inside_dir_spec(dir@, path@),
{
    if rooted(dir) != rooted(path) {
        return false;
    }
    let a = resolved_parts(dir);
    let b = resolved_parts(path);
    proof {
        assert(views(a@).len() == a@.len());
        assert(views(b@).len() == b@.len());
    }
    if a.len() > b.len() {
        return false;
    }
    let n = a.len();
    for i in 0..n
        invariant
            n == a@.len(),
            a@.len() <= b@.len(),
            views(a@) == resolve_parts(path_parts(dir@)),
            views(b@) == resolve_parts(path_parts(path@)),
            forall|j: int| 0 <= j < i ==> views(a@)[j] == views(b@)[j],
    {
        if !str_eq(a[i], b[i]) {
            assert(views(a@)[i as int] != views(b@)[i as int]);
            return false;
        }
    }
    true
}

/// The refusal of a request to write `path` as an `.env` file: only files
/// inside the OpenClaw directory `openclaw_dir` may be written, judged after
/// `.` and `..` are resolved.
pub fn check_env_file_path(openclaw_dir: &str, path: &str) -> (r: Result<(), String>)
    ensures
        r is Ok <==> inside_dir_spec(openclaw_dir@, path@),
        r matches Err(e) ==> e@ == "只允许写入 ~/.openclaw/ 目录下的文件"@,
{
    if inside_dir(openclaw_dir, path) {
        Ok(())
    } else {
        Err(owned("只允许写入 ~/.openclaw/ 目录下的文件"))
    }
}

/// The asset that a request for `uri_path` names: `index.html` for the root,
/// else the path without its leading slash.
pub open spec fn asset_path_spec(uri_path: Seq<char>) -> Seq<char> {
    if uri_path == "/"@ || uri_path.len() == 0 {
        "index.html"@
    } else if starts_with(uri_path, "/"@) {
        uri_path.skip(1)
    } else {
        uri_path
    }
}

pub fn asset_path(uri_path: &str) -> (r: &str)
    ensures
        r@ == asset_path_spec(uri_path@),
{
    if str_eq(uri_path, "/") || uri_path.is_empty() {
        "index.html"
    } else if crate::text::starts_with_str(uri_path, "/") {
        let n = crate::text::chars_of(uri_path).len();
        proof {
            reveal_strlit("/");
        }
        let r = uri_path.substring_char(1, n);
        proof {
            assert(r@ =~= uri_path@.skip(1));
        }
        r
    } else {
        uri_path
    }
}

/// The places where a release of the panel is looked for, in order: the
/// release API, the release page, and the name of the source.
pub open spec fn release_sources_spec() -> Seq<(Seq<char>, Seq<char>, Seq<char>)> {
    seq![
        (
            "https://api.github.com/repos/qingchencloud/clawpanel/releases/latest"@,
            "https://github.com/qingchencloud/clawpanel/releases"@,
            "github"@,
        ),
        (
            "https://gitee.com/api/v5/repos/QtCodeCreators/clawpanel/releases/latest"@,
            "https://gitee.com/QtCodeCreators/clawpanel/releases"@,
            "gitee"@,
        ),
    ]
}

pub fn release_sources() -> (r: Vec<(String, String, String)>)
    ensures
        r@.len() == 2,
        r@.map_values(|e: (String, String, String)| (e.0@, e.1@, e.2@)) == release_sources_spec(),
{
    let mut v: Vec<(String, String, String)> = Vec::new();
    v.push(
        (
            owned("https://api.github.com/repos/qingchencloud/clawpanel/releases/latest"),
            owned("https://github.com/qingchencloud/clawpanel/releases"),
            owned("github"),
        ),
    );
    v.push(
        (
            owned("https://gitee.com/api/v5/repos/QtCodeCreators/clawpanel/releases/latest"),
            owned("https://gitee.com/QtCodeCreators/clawpanel/releases"),
            owned("gitee"),
        ),
    );
    proof {
        assert(v@.map_values(|e: (String, String, String)| (e.0@, e.1@, e.2@))
            =~= release_sources_spec());
    }
    v
}

/// The answer of an update check from a release document `body` of `source`:
/// the tag without its leading `v`s, the release page (`html_url`, else
/// `releases_url`), the source and the download page; an error when the tag is empty.
pub open spec fn release_result_spec(body: JsonV, releases_url: Seq<char>, source: Seq<char>) -> Result<
    JsonV,
    Seq<char>,
> {
    let tag = trim_start_by(
        match field_str(body, "tag_name"@) {
            Some(t) => t,
            None => Seq::empty(),
        },
        CharClass::Exactly('v'),
    );
    if tag.len() == 0 {
        Err(source + ": 未找到版本号"@)
    } else {
        Ok(
            JsonV::Object(
                seq![
                    ("latest"@, JsonV::Str(tag)),
                    (
                        "url"@,
                        match field(body, "html_url"@) {
                            Some(u) => u,
                            None => JsonV::Str(releases_url),
                        },
                    ),
                    ("source"@, JsonV::Str(source)),
                    ("downloadUrl"@, JsonV::Str("https://claw.qt.cool"@)),
                ],
            ),
        )
    }
}

pub fn release_result(body: &Json, releases_url: &str, source: &str) -> (r: Result<Json, String>)
    ensures
        match r {
            Ok(j) => release_result_spec(body.deep(), releases_url@, source@) == Ok::<
                JsonV,
                Seq<char>,
            >(j.deep()),
            Err(e) => release_result_spec(body.deep(), releases_url@, source@) == Err::<
                JsonV,
                Seq<char>,
            >(e@),
        },
{
    let raw = match body.get_str("tag_name") {
        Some(t) => t,
        None => "",
    };
    proof {
        reveal_strlit("");
    }
    let tag = trim_start_char(raw, 'v');
    if tag.is_empty() {
        let mut m = owned(source);
        m.append(": 未找到版本号");
        return Err(m);
    }
    let url = match body.get("html_url") {
        Some(u) => u.duplicate(),
        None => Json::text(releases_url),
    };
    let mut es: Vec<(String, Json)> = Vec::new();
    push_entry(&mut es, "latest", Json::text(tag));
    push_entry(&mut es, "url", url);
    push_entry(&mut es, "source", Json::text(source));
    push_entry(&mut es, "downloadUrl", Json::text("https://claw.qt.cool"));
    proof {
        let d = entries_deep(es@);
        assert(d =~= release_result_spec(body.deep(), releases_url@, source@)->Ok_0->Object_0);
    }
    Ok(object(es))
}

/// The error of a source that answered with a failure status: `<source>: HTTP <status>`.
pub fn release_http_failure(source: &str, status: u16) -> (r: String)
    requires
        100 <= status <= 999,
    ensures
        r@ == source@ + ": HTTP "@ + status_text_spec(status),
{
    let mut m = owned(source);
    m.append(": HTTP ");
    let t = status_text(status);
    m.append(t.as_str());
    m
}

/// The error of a source that could not be reached: `<source>: <cause>`.
pub fn release_transport_failure(source: &str, detail: &str) -> (r: String)
    ensures
        r@ == source@ + ": "@ + detail@,
{
    let mut m = owned(source);
    m.append(": ");
    m.append(detail);
    m
}

/// An update check in progress: the index of the source asked now, and the
/// error of the last source that failed.
#[derive(Debug, PartialEq)]
pub struct UpdateCheck {
    pub source: usize,
    pub last_error: String,
}

/// What the source asked answered.
pub enum UpdateEvent {
    /// An answer with this status; `body` is its release document when the
    /// status is a success (`None` on other statuses).
    Answered { status: u16, body: Option<Json> },
    /// A success whose body could not be read as JSON, with the cause.
    Unreadable(String),
    /// No answer, with the cause.
    Unreachable(String),
}

pub enum UpdateEventV {
    Answered(u16, Option<JsonV>),
    Unreadable(Seq<char>),
    Unreachable(Seq<char>),
}

impl View for UpdateEvent {
    type V = UpdateEventV;

    open spec fn view(&self) -> UpdateEventV {
        match self {
            UpdateEvent::Answered { status, body } => UpdateEventV::Answered(
                *status,
                match body {
                    Some(b) => Some(b.deep()),
                    None => None,
                },
            ),
            UpdateEvent::Unreadable(e) => UpdateEventV::Unreadable(e@),
            UpdateEvent::Unreachable(e) => UpdateEventV::Unreachable(e@),
        }
    }
}

/// What the application does next: ask the release API at this address, or stop.
#[derive(Debug, PartialEq)]
pub enum UpdateAction {
    Fetch(String),
    Finish(Result<Json, String>),
}

pub enum UpdateActionV {
    Fetch(Seq<char>),
    Finish(Result<JsonV, Seq<char>>),
}

impl View for UpdateAction {
    type V = UpdateActionV;

    open spec fn view(&self) -> UpdateActionV {
        match self {
            UpdateAction::Fetch(u) => UpdateActionV::Fetch(u@),
            UpdateAction::Finish(r) => UpdateActionV::Finish(
                match r {
                    Ok(j) => Ok(j.deep()),
                    Err(e) => Err(e@),
                },
            ),
        }
    }
}

/// After source `i` failed with `err`: the next source, or the end with that error.
pub open spec fn after_failure(i: int, err: Seq<char>) -> (int, Seq<char>, UpdateActionV) {
    if i + 1 < release_sources_spec().len() {
        (i + 1, err, UpdateActionV::Fetch(release_sources_spec()[i + 1].0))
    } else {
        (i, err, UpdateActionV::Finish(Err(err)))
    }
}

/// One step of an update check at source `i`: a release found ends the check;
/// a source without a usable answer passes to the next, and the last one's
/// error ends it; an unreadable release document ends it at once.
pub open spec fn update_step_spec(i: int, last: Seq<char>, e: UpdateEventV) -> (
    int,
    Seq<char>,
    UpdateActionV,
) {
    let src = release_sources_spec()[i];
    match e {
        UpdateEventV::Answered(status, body) => if 200 <= status && status < 300 {
            match release_result_spec(
                match body {
                    Some(b) => b,
                    None => JsonV::Null,
                },
                src.1,
                src.2,
            ) {
                Ok(answer) => (i, last, UpdateActionV::Finish(Ok(answer))),
                Err(err) => after_failure(i, err),
            }
        } else {
            after_failure(i, src.2 + ": HTTP "@ + status_text_spec(status))
        },
        UpdateEventV::Unreadable(cause) => (
            i,
            last,
            UpdateActionV::Finish(Err("解析响应失败: "@ + cause)),
        ),
        UpdateEventV::Unreachable(cause) => after_failure(i, src.2 + ": "@ + cause),
    }
}

/// Starts an update check at the first source.
pub fn start_update_check() -> (r: (UpdateCheck, UpdateAction))
    ensures
        r.0.source == 0,
        r.0.last_error@ == Seq::<char>::empty(),
        r.1@ == UpdateActionV::Fetch(release_sources_spec()[0].0),
{
    let srcs = release_sources();
    proof {
        assert(srcs@.map_values(|e: (String, String, String)| (e.0@, e.1@, e.2@))[0] == (
            srcs@[0].0@,
            srcs@[0].1@,
            srcs@[0].2@,
        ));
    }
    let first = srcs[0].0.clone();
    (UpdateCheck { source: 0, last_error: String::new() }, UpdateAction::Fetch(first))
}

/// One step of an update check (see `update_step_spec`).
pub fn update_check_step(c: UpdateCheck, e: UpdateEvent) -> (r: (UpdateCheck, UpdateAction))
    requires
        c.source < 2,
        (e matches UpdateEvent::Answered { status, .. } ==> 100 <= status <= 999),
    ensures
        r.0.source < 2,
        (r.0.source as int, r.0.last_error@, r.1@) == update_step_spec(
            c.source as int,
            c.last_error@,
            e@,
        ),
{
    let srcs = release_sources();
    let i = c.source;
    let ghost sv = srcs@.map_values(|x: (String, String, String)| (x.0@, x.1@, x.2@));
    proof {
        assert(sv[i as int] == (srcs@[i as int].0@, srcs@[i as int].1@, srcs@[i as int].2@));
        assert(sv[1] == (srcs@[1].0@, srcs@[1].1@, srcs@[1].2@));
    }
    let source_name = srcs[i].2.as_str();
    let err = match e {
        UpdateEvent::Answered { status, body } => {
            if 200 <= status && status < 300 {
                let doc = match body {
                    Some(b) => b,
                    None => Json::Null,
                };
                match release_result(&doc, srcs[i].1.as_str(), source_name) {
                    Ok(answer) => {
                        return (c, UpdateAction::Finish(Ok(answer)));
                    },
                    Err(err) => err,
                }
            } else {
                release_http_failure(source_name, status)
            }
        },
        UpdateEvent::Unreadable(cause) => {
            let mut m = owned("解析响应失败: ");
            m.append(cause.as_str());
            return (c, UpdateAction::Finish(Err(m)));
        },
        UpdateEvent::Unreachable(cause) => release_transport_failure(source_name, cause.as_str()),
    };
    if i + 1 < srcs.len() {
        let next = srcs[i + 1].0.clone();
        (UpdateCheck { source: i + 1, last_error: err }, UpdateAction::Fetch(next))
    } else {
        let e2 = err.clone();
        (UpdateCheck { source: i, last_error: err }, UpdateAction::Finish(Err(e2)))
    }
}

/// The address the proxy test fetches: the one given, else npm's ping endpoint.
pub fn proxy_target(url: Option<String>) -> (r: String)
    ensures
        r@ == match url {
            Some(u) => u@,
            None => "https://registry.npmjs.org/-/ping"@,
        },
{
    match url {
        Some(u) => u,
        None => owned("https://registry.npmjs.org/-/ping"),
    }
}

/// The report of a proxy test that got an answer: reachable when the status is below 500.
pub fn proxy_report(status: u16, elapsed_ms: u64, proxy: &str, target: &str) -> (r: Json)
    ensures
        r.deep() == JsonV::Object(
            seq![
                ("ok"@, JsonV::Bool(status < 500)),
                ("status"@, JsonV::Number(dec(status as nat))),
                ("elapsed_ms"@, JsonV::Number(dec(elapsed_ms as nat))),
                ("proxy"@, JsonV::Str(proxy@)),
                ("target"@, JsonV::Str(target@)),
            ],
        ),
{
    let mut es: Vec<(String, Json)> = Vec::new();
    push_entry(&mut es, "ok", Json::Bool(status < 500));
    push_entry(&mut es, "status", Json::number(status as u64));
    push_entry(&mut es, "elapsed_ms", Json::number(elapsed_ms));
    push_entry(&mut es, "proxy", Json::text(proxy));
    push_entry(&mut es, "target", Json::text(target));
    proof {
        assert(entries_deep(es@) =~= seq![
            ("ok"@, JsonV::Bool(status < 500)),
            ("status"@, JsonV::Number(dec(status as nat))),
            ("elapsed_ms"@, JsonV::Number(dec(elapsed_ms as nat))),
            ("proxy"@, JsonV::Str(proxy@)),
            ("target"@, JsonV::Str(target@)),
        ]);
    }
    object(es)
}

/// The error of a proxy test that got no answer.
pub fn proxy_failure(elapsed_ms: u64, detail: &str) -> (r: String)
    ensures
        r@ == "代理连接失败 ("@ + dec(elapsed_ms as nat) + "ms): "@ + detail@,
{
    let mut m = owned("代理连接失败 (");
    crate::num::push_dec(&mut m, elapsed_ms);
    m.append("ms): ");
    m.append(detail);
    m
}


/// The version written as `meta.lastTouchedVersion` of a new configuration:
/// the recommended release of the Chinese build, else `2026.1.1`.
pub fn last_touched_version(recommended: Option<String>) -> (r: String)
    ensures
        r@ == match recommended {
            Some(v) => v@,
            None => "2026.1.1"@,
        },
{
    match recommended {
        Some(v) => v,
        None => owned("2026.1.1"),
    }
}

/// The configuration written when OpenClaw is installed but has none: a local
/// gateway on port 18789 without authentication, open to any origin, no
/// providers, and the full tool profile.
pub open spec fn default_config_spec(last_touched: Seq<char>) -> JsonV {
    JsonV::Object(
        seq![
            ("$schema"@, JsonV::Str("https://openclaw.ai/schema/config.json"@)),
            ("meta"@, JsonV::Object(seq![("lastTouchedVersion"@, JsonV::Str(last_touched))])),
            ("models"@, JsonV::Object(seq![("providers"@, JsonV::Object(Seq::empty()))])),
            (
                "gateway"@,
                JsonV::Object(
                    seq![
                        ("mode"@, JsonV::Str("local"@)),
                        ("port"@, JsonV::Number(dec(18789))),
                        ("auth"@, JsonV::Object(seq![("mode"@, JsonV::Str("none"@))])),
                        (
                            "controlUi"@,
                            JsonV::Object(
                                seq![
                                    ("allowedOrigins"@, JsonV::Array(seq![JsonV::Str("*"@)])),
                                    ("allowInsecureAuth"@, JsonV::Bool(true)),
                                ],
                            ),
                        ),
                    ],
                ),
            ),
            (
                "tools"@,
                JsonV::Object(
                    seq![
                        ("profile"@, JsonV::Str("full"@)),
                        ("sessions"@, JsonV::Object(seq![("visibility"@, JsonV::Str("all"@))])),
                    ],
                ),
            ),
        ],
    )
}

fn single(k: &str, v: Json) -> (r: Json)
    ensures
        r.deep() == JsonV::Object(seq![(k@, v.deep())]),
{
    let ghost vd = v.deep();
    let mut es: Vec<(String, Json)> = Vec::new();
    push_entry(&mut es, k, v);
    proof {
        assert(entries_deep(es@) =~= seq![(k@, vd)]);
    }
    object(es)
}

fn pair(k1: &str, v1: Json, k2: &str, v2: Json) -> (r: Json)
    ensures
        r.deep() == JsonV::Object(seq![(k1@, v1.deep()), (k2@, v2.deep())]),
{
    let ghost d1 = v1.deep();
    let ghost d2 = v2.deep();
    let mut es: Vec<(String, Json)> = Vec::new();
    push_entry(&mut es, k1, v1);
    push_entry(&mut es, k2, v2);
    proof {
        assert(entries_deep(es@) =~= seq![(k1@, d1), (k2@, d2)]);
    }
    object(es)
}

fn empty_object() -> (r: Json)
    ensures
        r.deep() == JsonV::Object(Seq::empty()),
{
    let es: Vec<(String, Json)> = Vec::new();
    proof {
        assert(entries_deep(es@) =~= Seq::empty());
    }
    object(es)
}

/// The default configuration (see `default_config_spec`).
pub fn default_openclaw_config(last_touched: &str) -> (r: Json)
    ensures
        r.deep() == default_config_spec(last_touched@),
{
    let meta = single("lastTouchedVersion", Json::text(last_touched));
    let models = single("providers", empty_object());
    let mut origins: Vec<Json> = Vec::new();
    origins.push(Json::text("*"));
    proof {
        crate::json::lemma_array_deep(origins);
        assert(crate::json::elems_deep(origins@) =~= seq![JsonV::Str("*"@)]);
    }
    let control = pair(
        "allowedOrigins",
        Json::Array(origins),
        "allowInsecureAuth",
        Json::Bool(true),
    );
    let auth = single("mode", Json::text("none"));
    let mut gw: Vec<(String, Json)> = Vec::new();
    push_entry(&mut gw, "mode", Json::text("local"));
    push_entry(&mut gw, "port", Json::number(18789));
    push_entry(&mut gw, "auth", auth);
    push_entry(&mut gw, "controlUi", control);
    let ghost gwd = entries_deep(gw@);
    let gateway = object(gw);
    let tools = pair(
        "profile",
        Json::text("full"),
        "sessions",
        single("visibility", Json::text("all")),
    );
    let mut es: Vec<(String, Json)> = Vec::new();
    push_entry(&mut es, "$schema", Json::text("https://openclaw.ai/schema/config.json"));
    push_entry(&mut es, "meta", meta);
    push_entry(&mut es, "models", models);
    push_entry(&mut es, "gateway", gateway);
    push_entry(&mut es, "tools", tools);
    proof {
        assert(gwd =~= default_config_spec(last_touched@)->Object_0[3].1->Object_0);
        assert(entries_deep(es@) =~= default_config_spec(last_touched@)->Object_0);
    }
    object(es)
}

/// The answer to a request to create the configuration: whether it was
/// created, or already existed.
pub fn init_answer(created: bool) -> (r: Json)
    ensures
        r.deep() == JsonV::Object(
            seq![
                ("created"@, JsonV::Bool(created)),
                (
                    "message"@,
                    JsonV::Str(
                        if created {
                            "配置文件已创建"@
                        } else {
                            "配置文件已存在"@
                        },
                    ),
                ),
            ],
        ),
{
    let msg = if created {
        "配置文件已创建"
    } else {
        "配置文件已存在"
    };
    pair("created", Json::Bool(created), "message", Json::text(msg))
}

/// `{"installed": .., "path": ..}`: whether `openclaw.json` exists in the directory `path`.
pub fn installation_status(installed: bool, path: &str) -> (r: Json)
    ensures
        r.deep() == JsonV::Object(
            seq![("installed"@, JsonV::Bool(installed)), ("path"@, JsonV::Str(path@))],
        ),
{
    pair("installed", Json::Bool(installed), "path", Json::text(path))
}

/// The status of a tool (Node.js, Git) from the output of `<tool> --version`:
/// installed with the trimmed output as version when it ran successfully,
/// else not installed with a null version.
pub open spec fn tool_status_spec(output: Option<Seq<char>>) -> JsonV {
    match output {
        Some(o) => JsonV::Object(
            seq![("installed"@, JsonV::Bool(true)), ("version"@, JsonV::Str(trim(o)))],
        ),
        None => JsonV::Object(seq![("installed"@, JsonV::Bool(false)), ("version"@, JsonV::Null)]),
    }
}

pub fn tool_status(output: Option<&str>) -> (r: Json)
    ensures
        r.deep() == tool_status_spec(
            match output {
                Some(o) => Some(o@),
                None => None,
            },
        ),
{
    match output {
        Some(o) => pair("installed", Json::Bool(true), "version", Json::text(trim_ws(o))),
        None => pair("installed", Json::Bool(false), "version", Json::Null),
    }
}

/// The status of the Node.js in a chosen directory: as `tool_status`, with the
/// directory as `path` when it was found.
pub fn node_status_at(output: Option<&str>, node_dir: &str) -> (r: Json)
    ensures
        r.deep() == match output {
            Some(o) => JsonV::Object(
                seq![
                    ("installed"@, JsonV::Bool(true)),
                    ("version"@, JsonV::Str(trim(o@))),
                    ("path"@, JsonV::Str(node_dir@)),
                ],
            ),
            None => tool_status_spec(None),
        },
{
    match output {
        Some(o) => {
            let mut es: Vec<(String, Json)> = Vec::new();
            push_entry(&mut es, "installed", Json::Bool(true));
            push_entry(&mut es, "version", Json::text(trim_ws(o)));
            push_entry(&mut es, "path", Json::text(node_dir));
            proof {
                assert(entries_deep(es@) =~= seq![
                    ("installed"@, JsonV::Bool(true)),
                    ("version"@, JsonV::Str(trim(o@))),
                    ("path"@, JsonV::Str(node_dir@)),
                ]);
            }
            object(es)
        },
        None => tool_status(None),
    }
}

/// A Node.js found by the scan: `{"path": .., "version": <output trimmed>}`.
pub fn node_found(path: &str, output: &str) -> (r: Json)
    ensures
        r.deep() == JsonV::Object(
            seq![("path"@, JsonV::Str(path@)), ("version"@, JsonV::Str(trim(output@)))],
        ),
{
    pair("path", Json::text(path), "version", Json::text(trim_ws(output)))
}

/// The panel settings with `nodePath` set: `settings` when it is an object,
/// else an empty one (an unreadable settings file counts as empty).
pub open spec fn with_node_path_spec(settings: Option<JsonV>, node_dir: Seq<char>) -> JsonV {
    JsonV::Object(
        assoc_insert(
            match settings {
                Some(JsonV::Object(es)) => es,
                _ => Seq::empty(),
            },
            "nodePath"@,
            JsonV::Str(node_dir),
        ),
    )
}

pub fn with_node_path(settings: Option<Json>, node_dir: &str) -> (r: Json)
    ensures
        r.deep() == with_node_path_spec(
            match settings {
                Some(s) => Some(s.deep()),
                None => None,
            },
            node_dir@,
        ),
{
    let mut es: Vec<(String, Json)> = match settings {
        Some(Json::Object(es)) => {
            proof {
                lemma_object_deep(es);
            }
            es
        },
        _ => {
            let v: Vec<(String, Json)> = Vec::new();
            proof {
                assert(entries_deep(v@) =~= Seq::empty());
            }
            v
        },
    };
    obj_insert(&mut es, owned("nodePath"), Json::text(node_dir));
    object(es)
}

/// What was found of the backup `openclaw.json.bak` when the configuration
/// itself did not parse.
pub enum BackupState {
    /// There is no backup file.
    Missing,
    /// The backup exists but could not be read, with the cause.
    Unreadable(String),
    /// The backup was read but is not valid JSON, with the cause.
    Invalid(String),
    /// The backup parsed to this value.
    Valid(Json),
}

pub enum BackupStateV {
    Missing,
    Unreadable(Seq<char>),
    Invalid(Seq<char>),
    Valid(JsonV),
}

impl View for BackupState {
    type V = BackupStateV;

    open spec fn view(&self) -> BackupStateV {
        match self {
            BackupState::Missing => BackupStateV::Missing,
            BackupState::Unreadable(e) => BackupStateV::Unreadable(e@),
            BackupState::Invalid(e) => BackupStateV::Invalid(e@),
            BackupState::Valid(j) => BackupStateV::Valid(j.deep()),
        }
    }
}

/// The configuration to use, from the parse of `openclaw.json` and, when that
/// failed, what the backup gave: the parsed file; else the backup, marked to
/// be written back over the broken file; else the error saying why neither
/// could be used.
pub open spec fn config_recovery_spec(main: Result<JsonV, Seq<char>>, backup: BackupStateV) -> Result<
    (JsonV, bool),
    Seq<char>,
> {
    match main {
        Ok(j) => Ok((j, false)),
        Err(e) => match backup {
            BackupStateV::Missing => Err("配置 JSON 损坏且无备份: "@ + e),
            BackupStateV::Unreadable(e2) => Err("备份也读取失败: "@ + e2),
            BackupStateV::Invalid(e2) => Err("配置损坏且备份也无效: 原始="@ + e + ", 备份="@ + e2),
            BackupStateV::Valid(b) => Ok((b, true)),
        },
    }
}

/// The configuration to use after loading (see `config_recovery_spec`); the
/// flag says that the backup is to be restored over the broken file.
pub fn config_recovery(main: Result<Json, String>, backup: BackupState) -> (r: Result<(Json, bool), String>)
    ensures
        match r {
            Ok((j, restored)) => config_recovery_spec(
                match main {
                    Ok(m) => Ok(m.deep()),
                    Err(e) => Err(e@),
                },
                backup@,
            ) == Ok::<(JsonV, bool), Seq<char>>((j.deep(), restored)),
            Err(e) => config_recovery_spec(
                match main {
                    Ok(m) => Ok(m.deep()),
                    Err(e) => Err(e@),
                },
                backup@,
            ) == Err::<(JsonV, bool), Seq<char>>(e@),
        },
{
    match main {
        Ok(j) => Ok((j, false)),
        Err(e) => match backup {
            BackupState::Missing => {
                let mut m = owned("配置 JSON 损坏且无备份: ");
                m.append(e.as_str());
                Err(m)
            },
            BackupState::Unreadable(e2) => {
                let mut m = owned("备份也读取失败: ");
                m.append(e2.as_str());
                Err(m)
            },
            BackupState::Invalid(e2) => {
                let mut m = owned("配置损坏且备份也无效: 原始=");
                m.append(e.as_str());
                m.append(", 备份=");
                m.append(e2.as_str());
                Err(m)
            },
            BackupState::Valid(b) => Ok((b, true)),
        },
    }
}

/// The configuration as loaded: with the UI-only fields removed when it had
/// any, and whether it had (so that the cleaned file is written back).
pub fn config_after_load(config: Json) -> (r: (Json, bool))
    ensures
        r.1 == has_ui(config.deep()),
        r.0.deep() == if has_ui(config.deep()) {
            strip_ui(config.deep())
        } else {
            config.deep()
        },
{
    if has_ui_fields(&config) {
        (strip_ui_fields(config), true)
    } else {
        (config, false)
    }
}

/// The length of a UTF-8 byte order mark at the start of `raw` (3), or 0.
pub fn bom_len(raw: &[u8]) -> (r: usize)
    ensures
        r == (if raw@.len() >= 3 && raw@[0] == 0xEFu8 && raw@[1] == 0xBBu8 && raw@[2] == 0xBFu8 {
            3usize
        } else {
            0usize
        }),
{
    if raw.len() >= 3 && raw[0] == 0xEFu8 && raw[1] == 0xBBu8 && raw[2] == 0xBFu8 {
        3
    } else {
        0
    }
}

/// How std describes a failed integer parse.
pub open spec fn int_error_text_spec(k: IntErrorKind) -> Seq<char> {
    match k {
        IntErrorKind::Empty => "cannot parse integer from empty string"@,
        IntErrorKind::InvalidDigit => "invalid digit found in string"@,
        IntErrorKind::PosOverflow => "number too large to fit in target type"@,
    }
}

pub fn int_error_text(k: IntErrorKind) -> (r: String)
    ensures
        r@ == int_error_text_spec(k),
{
    match k {
        IntErrorKind::Empty => owned("cannot parse integer from empty string"),
        IntErrorKind::InvalidDigit => owned("invalid digit found in string"),
        IntErrorKind::PosOverflow => owned("number too large to fit in target type"),
    }
}

/// The user id printed by `id -u`: the trimmed output as a number.
pub fn parse_uid(stdout: &str) -> (r: Result<u32, String>)
    ensures
        match parse_u32_spec(trim(stdout@)) {
            Ok(n) => r == Ok::<u32, String>(n),
            Err(k) => r matches Err(e) && e@ == "解析 UID 失败: "@ + int_error_text_spec(k),
        },
{
    match parse_u32(trim_ws(stdout)) {
        Ok(n) => Ok(n),
        Err(k) => {
            let mut m = owned("解析 UID 失败: ");
            let t = int_error_text(k);
            m.append(t.as_str());
            Err(m)
        },
    }
}


/// Where Node.js is looked for outside Windows.
pub open spec fn unix_node_dirs(home: Seq<char>) -> Seq<Seq<char>> {
    seq![
        "/usr/local/bin"@,
        "/opt/homebrew/bin"@,
        home + "/.nvm/current/bin"@,
        home + "/.volta/bin"@,
        home + "/.nodenv/shims"@,
        home + "/.fnm/current/bin"@,
        home + "/n/bin"@,
    ]
}

/// Where Node.js is looked for on the Windows drive `d`.
pub open spec fn drive_node_dirs(d: Seq<char>) -> Seq<Seq<char>> {
    seq![
        d + ":\\nodejs"@,
        d + ":\\Node"@,
        d + ":\\Node.js"@,
        d + ":\\Program Files\\nodejs"@,
        d + ":\\AI\\Node"@,
        d + ":\\AI\\nodejs"@,
        d + ":\\Dev\\nodejs"@,
        d + ":\\Tools\\nodejs"@,
    ]
}

pub open spec fn drives_node_dirs(ds: Seq<Seq<char>>) -> Seq<Seq<char>>
    decreases ds.len(),
{
    if ds.len() == 0 {
        Seq::empty()
    } else {
        drives_node_dirs(ds.drop_last()) + drive_node_dirs(ds.last())
    }
}

pub open spec fn or_default(o: Option<Seq<char>>, d: Seq<char>) -> Seq<char> {
    match o {
        Some(v) => v,
        None => d,
    }
}

/// Where Node.js is looked for on Windows: under Program Files (the defaults
/// when the variables are not set), the user's local programs and npm
/// directories (when set), Volta and nvm, and common folders of drives C to G.
pub open spec fn windows_node_dirs(
    home: Seq<char>,
    program_files: Option<Seq<char>>,
    program_files_x86: Option<Seq<char>>,
    local_app_data: Option<Seq<char>>,
    app_data: Option<Seq<char>>,
) -> Seq<Seq<char>> {
    let local = or_default(local_app_data, Seq::empty());
    let roaming = or_default(app_data, Seq::empty());
    seq![
        or_default(program_files, "C:\\Program Files"@) + "\\nodejs"@,
        or_default(program_files_x86, "C:\\Program Files (x86)"@) + "\\nodejs"@,
    ] + (if local.len() > 0 {
        seq![local + "\\Programs\\nodejs"@]
    } else {
        Seq::empty()
    }) + (if roaming.len() > 0 {
        seq![roaming + "\\npm"@]
    } else {
        Seq::empty()
    }) + seq![home + "\\.volta\\bin"@, home + "\\.nvm"@] + drives_node_dirs(
        seq!["C"@, "D"@, "E"@, "F"@, "G"@],
    )
}

fn cat(a: &str, b: &str) -> (r: String)
    ensures
        r@ == a@ + b@,
{
    let mut s = owned(a);
    s.append(b);
    s
}

fn push_dir(v: &mut Vec<String>, d: String)
    ensures
        sviews(final(v)@) == sviews(old(v)@).push(d@),
{
    v.push(d);
    proof {
        assert(sviews(v@) =~= sviews(old(v)@).push(d@));
    }
}

pub open spec fn opt_str_view(o: Option<&str>) -> Option<Seq<char>> {
    match o {
        Some(s) => Some(s@),
        None => None,
    }
}

/// The directories where the scan looks for Node.js (see `unix_node_dirs`
/// and `windows_node_dirs`); the environment values are `None` when unset.
pub fn node_candidates(
    platform: Platform,
    home: &str,
    program_files: Option<&str>,
    program_files_x86: Option<&str>,
    local_app_data: Option<&str>,
    app_data: Option<&str>,
) -> (r: Vec<String>)
    ensures
        sviews(r@) == match platform {
            Platform::Windows => windows_node_dirs(
                home@,
                opt_str_view(program_files),
                opt_str_view(program_files_x86),
                opt_str_view(local_app_data),
                opt_str_view(app_data),
            ),
            _ => unix_node_dirs(home@),
        },
{
    let mut v: Vec<String> = Vec::new();
    match platform {
        Platform::Windows => {
            let pf = match program_files {
                Some(x) => x,
                None => "C:\\Program Files",
            };
            let pf86 = match program_files_x86 {
                Some(x) => x,
                None => "C:\\Program Files (x86)",
            };
            push_dir(&mut v, cat(pf, "\\nodejs"));
            push_dir(&mut v, cat(pf86, "\\nodejs"));
            let ghost v0 = sviews(v@);
            match local_app_data {
                Some(x) => if !x.is_empty() {
                    push_dir(&mut v, cat(x, "\\Programs\\nodejs"));
                },
                None => {},
            }
            let ghost v1 = sviews(v@);
            match app_data {
                Some(x) => if !x.is_empty() {
                    push_dir(&mut v, cat(x, "\\npm"));
                },
                None => {},
            }
            let ghost v2 = sviews(v@);
            push_dir(&mut v, cat(home, "\\.volta\\bin"));
            push_dir(&mut v, cat(home, "\\.nvm"));
            let ghost head = sviews(v@);
            let mut drives: Vec<&str> = Vec::new();
            drives.push("C");
            drives.push("D");
            drives.push("E");
            drives.push("F");
            drives.push("G");
            let ghost ds = seq!["C"@, "D"@, "E"@, "F"@, "G"@];
            proof {
                assert(drives@.map_values(|x: &str| x@) =~= ds);
                assert(head + drives_node_dirs(ds.take(0)) =~= head);
                reveal_strlit("");
            }
            for i in 0..5usize
                invariant
                    drives@.len() == 5,
                    drives@.map_values(|x: &str| x@) == ds,
                    sviews(v@) == head + drives_node_dirs(ds.take(i as int)),
            {
                let d = drives[i];
                proof {
                    assert(d@ == ds[i as int]) by {
                        assert(drives@.map_values(|x: &str| x@)[i as int] == drives@[i as int]@);
                    }
                    assert(ds.take(i + 1).drop_last() =~= ds.take(i as int));
                    assert(ds.take(i + 1).last() == d@);
                }
                let ghost before = sviews(v@);
                push_dir(&mut v, cat(d, ":\\nodejs"));
                push_dir(&mut v, cat(d, ":\\Node"));
                push_dir(&mut v, cat(d, ":\\Node.js"));
                push_dir(&mut v, cat(d, ":\\Program Files\\nodejs"));
                push_dir(&mut v, cat(d, ":\\AI\\Node"));
                push_dir(&mut v, cat(d, ":\\AI\\nodejs"));
                push_dir(&mut v, cat(d, ":\\Dev\\nodejs"));
                push_dir(&mut v, cat(d, ":\\Tools\\nodejs"));
                proof {
                    assert(sviews(v@) =~= before + drive_node_dirs(d@));
                    assert(head + drives_node_dirs(ds.take(i + 1)) =~= head + drives_node_dirs(
                        ds.take(i as int),
                    ) + drive_node_dirs(d@));
                }
            }
            proof {
                assert(ds.take(5) =~= ds);
                let local = or_default(opt_str_view(local_app_data), Seq::empty());
                let roaming = or_default(opt_str_view(app_data), Seq::empty());
                assert(v1 =~= v0 + (if local.len() > 0 {
                    seq![local + "\\Programs\\nodejs"@]
                } else {
                    Seq::empty()
                }));
                assert(v2 =~= v1 + (if roaming.len() > 0 {
                    seq![roaming + "\\npm"@]
                } else {
                    Seq::empty()
                }));
            }
        },
        _ => {
            push_dir(&mut v, owned("/usr/local/bin"));
            push_dir(&mut v, owned("/opt/homebrew/bin"));
            push_dir(&mut v, cat(home, "/.nvm/current/bin"));
            push_dir(&mut v, cat(home, "/.volta/bin"));
            push_dir(&mut v, cat(home, "/.nodenv/shims"));
            push_dir(&mut v, cat(home, "/.fnm/current/bin"));
            push_dir(&mut v, cat(home, "/n/bin"));
            proof {
                assert(sviews(v@) =~= unix_node_dirs(home@));
            }
        },
    }
    v
}

} // verus!
