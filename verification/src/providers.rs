//! Model providers: cleaning their endpoint URLs, telling their API families
//! apart, and reading what a provider answered.
use vstd::prelude::*;
use vstd::string::*;
use crate::num::{dec, u64_to_string};
use crate::text::{
    CharClass, trim, trim_end_by, ends_with, starts_with, trim_ws, trim_end_char, ends_with_str, str_eq, owned,
};
use crate::version::opt_view;
use crate::json::{
    Json, JsonV, field, field_str, as_str, opt_field, opt_elem, opt_str, elems_deep,
    entries_deep, push_entry, push_elem, object, array, lemma_array_deep,
};
use crate::text::{
    join, views, join_strs, sviews, sort_asc, sort_strings, strip_prefix_all, strip_prefix_all_str,
};

verus! {

/// The endpoint paths that a pasted URL may end with, in the order they are tried.
pub open spec fn url_suffix_spec(i: int) -> Seq<char> {
    if i == 0 {
        "/api/chat"@
    } else if i == 1 {
        "/api/generate"@
    } else if i == 2 {
        "/api/tags"@
    } else if i == 3 {
        "/api"@
    } else if i == 4 {
        "/chat/completions"@
    } else if i == 5 {
        "/completions"@
    } else if i == 6 {
        "/responses"@
    } else if i == 7 {
        "/messages"@
    } else {
        "/models"@
    }
}

pub open spec fn url_suffix_count() -> int {
    9
}

/// Removes the first endpoint path (from position `i` of the list on) that `s` ends with.
pub open spec fn strip_endpoint_from(s: Seq<char>, i: int) -> Seq<char>
    decreases url_suffix_count() - i,
{
    if i >= url_suffix_count() || i < 0 {
        s
    } else if ends_with(s, url_suffix_spec(i)) {
        s.take(s.len() - url_suffix_spec(i).len())
    } else {
        strip_endpoint_from(s, i + 1)
    }
}

/// A base URL without trailing `/`, without one known endpoint path, and with
/// `/v1` added for an Ollama port (`:11434`).
pub open spec fn normalize_base_url_spec(raw: Seq<char>) -> Seq<char> {
    let a = trim_end_by(raw, CharClass::Exactly('/'));
    let b = trim_end_by(strip_endpoint_from(a, 0), CharClass::Exactly('/'));
    if ends_with(b, ":11434"@) {
        b + "/v1"@
    } else {
        b
    }
}

/// The canonical API family of a provider.
pub open spec fn api_type_spec(raw: Seq<char>) -> Seq<char> {
    let t = trim(raw);
    if t == "anthropic"@ || t == "anthropic-messages"@ {
        "anthropic-messages"@
    } else if t == "google-gemini"@ {
        "google-gemini"@
    } else {
        "openai-completions"@
    }
}

/// The base URL used for requests to an API family: an Anthropic base ends in `/v1`.
pub open spec fn base_url_for_api_spec(raw: Seq<char>, api_type: Seq<char>) -> Seq<char> {
    let base = normalize_base_url_spec(raw);
    if api_type_spec(api_type) == "anthropic-messages"@ && !ends_with(base, "/v1"@) {
        base + "/v1"@
    } else {
        base
    }
}

fn url_suffix(i: usize) -> (r: &'static str)
    requires
        i < 9,
    ensures
        r@ == url_suffix_spec(i as int),
{
    if i == 0 {
        "/api/chat"
    } else if i == 1 {
        "/api/generate"
    } else if i == 2 {
        "/api/tags"
    } else if i == 3 {
        "/api"
    } else if i == 4 {
        "/chat/completions"
    } else if i == 5 {
        "/completions"
    } else if i == 6 {
        "/responses"
    } else if i == 7 {
        "/messages"
    } else {
        "/models"
    }
}

/// Cleans a base URL: drops trailing `/`, then the first known endpoint path it
/// ends with (`/api/chat`, `/chat/completions`, `/models`, ...), then trailing
/// `/` again; an Ollama URL (`:11434`) gets `/v1`.
pub fn normalize_base_url(raw: &str) -> (r: String)
    ensures
        r@ == normalize_base_url_spec(raw@),
{
    let a = trim_end_char(raw, '/');
    let mut i: usize = 0;
    let mut cut: Option<usize> = None;
    while i < 9
        invariant
            i <= 9,
            cut matches Some(k) ==> k < 9 && ends_with(a@, url_suffix_spec(k as int))
                && strip_endpoint_from(a@, 0) == a@.take(a@.len() - url_suffix_spec(k as int).len()),
            cut is None ==> strip_endpoint_from(a@, 0) == strip_endpoint_from(a@, i as int),
        decreases 9 - i,
    {
        if cut.is_none() && ends_with_str(a, url_suffix(i)) {
            cut = Some(i);
        }
        i = i + 1;
    }
    let b: &str = match cut {
        Some(k) => {
            let n = a.unicode_len();
            let m = url_suffix(k).unicode_len();
            a.substring_char(0, n - m)
        },
        None => a,
    };
    let c = trim_end_char(b, '/');
    if ends_with_str(c, ":11434") {
        let mut out = owned(c);
        out.append("/v1");
        out
    } else {
        owned(c)
    }
}

/// The canonical API family: `anthropic`/`anthropic-messages` are
/// `anthropic-messages`, `google-gemini` stays, anything else is `openai-completions`.
pub fn normalize_model_api_type(raw: &str) -> (r: &'static str)
    ensures
        r@ == api_type_spec(raw@),
{
    let t = trim_ws(raw);
    if str_eq(t, "anthropic") || str_eq(t, "anthropic-messages") {
        "anthropic-messages"
    } else if str_eq(t, "google-gemini") {
        "google-gemini"
    } else {
        "openai-completions"
    }
}

/// The base URL for requests of the given API family.
pub fn normalize_base_url_for_api(raw: &str, api_type: &str) -> (r: String)
    ensures
        r@ == base_url_for_api_spec(raw@, api_type@),
{
    let mut base = normalize_base_url(raw);
    let t = normalize_model_api_type(api_type);
    if str_eq(t, "anthropic-messages") {
        if !ends_with_str(base.as_str(), "/v1") {
            base.append("/v1");
        }
    }
    base
}

/// Law: a cleaned base URL never ends with `/`.
pub proof fn law_normalized_url_has_no_trailing_slash(raw: Seq<char>)
    ensures
        !ends_with(normalize_base_url_spec(raw), "/"@),
{
    reveal_strlit("/");
    reveal_strlit("/v1");
    let a = trim_end_by(raw, CharClass::Exactly('/'));
    let b = trim_end_by(strip_endpoint_from(a, 0), CharClass::Exactly('/'));
    crate::text::lemma_trim_end_by_last(strip_endpoint_from(a, 0), CharClass::Exactly('/'));
    let r = normalize_base_url_spec(raw);
    if ends_with(r, "/"@) {
        assert(r.subrange(r.len() - 1, r.len() as int)[0] == '/');
        if ends_with(b, ":11434"@) {
            assert(r[r.len() - 1] == '1');
        } else {
            assert(r == b);
            assert(b[b.len() - 1] == '/');
        }
    }
}

proof fn lemma_trim_end_prefix(s: Seq<char>, cls: CharClass)
    ensures
        starts_with(s, trim_end_by(s, cls)),
    decreases s.len(),
{
    if s.len() > 0 && crate::text::in_class(cls, s.last()) {
        lemma_trim_end_prefix(s.drop_last(), cls);
        let t = trim_end_by(s, cls);
        assert(s.subrange(0, t.len() as int) =~= s.drop_last().subrange(0, t.len() as int));
    } else {
        assert(s.subrange(0, s.len() as int) =~= s);
    }
}

proof fn lemma_strip_endpoint_prefix(s: Seq<char>, i: int)
    ensures
        starts_with(s, strip_endpoint_from(s, i)),
    decreases url_suffix_count() - i,
{
    if i >= url_suffix_count() || i < 0 {
        assert(s.subrange(0, s.len() as int) =~= s);
    } else if ends_with(s, url_suffix_spec(i)) {
        let t = s.take(s.len() - url_suffix_spec(i).len());
        assert(s.subrange(0, t.len() as int) =~= t);
    } else {
        lemma_strip_endpoint_prefix(s, i + 1);
    }
}

proof fn lemma_starts_with_trans(s: Seq<char>, t: Seq<char>, u: Seq<char>)
    requires
        starts_with(s, t),
        starts_with(t, u),
    ensures
        starts_with(s, u),
{
    assert(s.subrange(0, u.len() as int) =~= t.subrange(0, u.len() as int));
}

/// Law: a cleaned base URL never ends with the Ollama port `:11434`, and it is
/// a beginning of the raw URL, or such a beginning that ends with `:11434`
/// followed by `/v1`.
pub proof fn law_normalized_url_is_cut_from_raw(raw: Seq<char>)
    ensures
        !ends_with(normalize_base_url_spec(raw), ":11434"@),
        starts_with(raw, normalize_base_url_spec(raw)) || (ends_with(
            normalize_base_url_spec(raw),
            ":11434/v1"@,
        ) && starts_with(
            raw,
            normalize_base_url_spec(raw).take(normalize_base_url_spec(raw).len() - 3),
        )),
{
    reveal_strlit(":11434");
    reveal_strlit("/v1");
    reveal_strlit(":11434/v1");
    let slash = CharClass::Exactly('/');
    let a = trim_end_by(raw, slash);
    let e = strip_endpoint_from(a, 0);
    let b = trim_end_by(e, slash);
    lemma_trim_end_prefix(raw, slash);
    lemma_strip_endpoint_prefix(a, 0);
    lemma_trim_end_prefix(e, slash);
    lemma_starts_with_trans(raw, a, e);
    lemma_starts_with_trans(raw, e, b);
    let r = normalize_base_url_spec(raw);
    if ends_with(b, ":11434"@) {
        assert(r == b + "/v1"@);
        assert(r.take(r.len() - 3) =~= b);
        let tail = b.subrange(b.len() - 6, b.len() as int);
        assert(tail == ":11434"@);
        assert(":11434"@.len() == 6 && "/v1"@.len() == 3 && ":11434/v1"@.len() == 9);
        assert forall|i: int| 0 <= i < 9 implies #[trigger] r.subrange(
            r.len() - 9,
            r.len() as int,
        )[i] == ":11434/v1"@[i] by {
            if i < 6 {
                assert(r[r.len() - 9 + i] == b[b.len() - 6 + i]);
                assert(tail[i] == b[b.len() - 6 + i]);
            } else {
                assert(r[r.len() - 9 + i] == "/v1"@[i - 6]);
            }
        }
        assert(r.subrange(r.len() - 9, r.len() as int) =~= ":11434/v1"@);
        assert(r[r.len() - 1] == '1');
        assert(":11434"@[5] == '4');
    } else {
        assert(r == b);
    }
}

/// The endpoint paths that a pasted base URL may end with and that cleaning
/// removes: `/api/chat`, `/api/generate`, `/api/tags`, `/api`,
/// `/chat/completions`, `/completions`, `/responses`, `/messages`, `/models`.
pub open spec fn is_endpoint_path(q: Seq<char>) -> bool {
    ||| q == "/api/chat"@
    ||| q == "/api/generate"@
    ||| q == "/api/tags"@
    ||| q == "/api"@
    ||| q == "/chat/completions"@
    ||| q == "/completions"@
    ||| q == "/responses"@
    ||| q == "/messages"@
    ||| q == "/models"@
}

proof fn lemma_ends_with_tail(s: Seq<char>, p: Seq<char>, q: Seq<char>)
    requires
        ends_with(s, p),
        q.len() <= p.len(),
        ends_with(s, q),
    ensures
        ends_with(p, q),
{
    assert forall|k: int| 0 <= k < q.len() implies #[trigger] p.subrange(
        p.len() - q.len(),
        p.len() as int,
    )[k] == q[k] by {
        assert(s.subrange(s.len() - q.len(), s.len() as int)[k] == q[k]);
        assert(s.subrange(s.len() - p.len(), s.len() as int)[p.len() - q.len() + k] == p[p.len() - q.len() + k]);
    }
    assert(p.subrange(p.len() - q.len(), p.len() as int) =~= q);
}

proof fn lemma_not_ends_last_two(p: Seq<char>, q: Seq<char>)
    requires
        2 <= q.len() <= p.len(),
        p[p.len() - 1] != q[q.len() - 1] || p[p.len() - 2] != q[q.len() - 2],
    ensures
        !ends_with(p, q),
{
    if ends_with(p, q) {
        assert(p.subrange(p.len() - q.len(), p.len() as int)[q.len() - 1] == q[q.len() - 1]);
        assert(p.subrange(p.len() - q.len(), p.len() as int)[q.len() - 2] == q[q.len() - 2]);
    }
}

proof fn lemma_strip_reaches(s: Seq<char>, k: int, i: int)
    requires
        0 <= k <= i < url_suffix_count(),
        forall|j: int| k <= j < i ==> !ends_with(s, #[trigger] url_suffix_spec(j)),
    ensures
        strip_endpoint_from(s, k) == strip_endpoint_from(s, i),
    decreases i - k,
{
    if k < i {
        lemma_strip_reaches(s, k + 1, i);
    }
}

proof fn lemma_endpoint_paths_revealed()
    ensures
        "/api/chat"@ =~= seq!['/', 'a', 'p', 'i', '/', 'c', 'h', 'a', 't'],
        "/api/generate"@ =~= seq!['/', 'a', 'p', 'i', '/', 'g', 'e', 'n', 'e', 'r', 'a', 't', 'e'],
        "/api/tags"@ =~= seq!['/', 'a', 'p', 'i', '/', 't', 'a', 'g', 's'],
        "/api"@ =~= seq!['/', 'a', 'p', 'i'],
        "/chat/completions"@ =~= seq![
            '/', 'c', 'h', 'a', 't', '/', 'c', 'o', 'm', 'p', 'l', 'e', 't', 'i', 'o', 'n', 's',
        ],
        "/completions"@ =~= seq!['/', 'c', 'o', 'm', 'p', 'l', 'e', 't', 'i', 'o', 'n', 's'],
        "/responses"@ =~= seq!['/', 'r', 'e', 's', 'p', 'o', 'n', 's', 'e', 's'],
        "/messages"@ =~= seq!['/', 'm', 'e', 's', 's', 'a', 'g', 'e', 's'],
        "/models"@ =~= seq!['/', 'm', 'o', 'd', 'e', 'l', 's'],
        "/"@ =~= seq!['/'],
        ":11434"@ =~= seq![':', '1', '1', '4', '3', '4'],
{
    reveal_strlit("/api/chat");
    reveal_strlit("/api/generate");
    reveal_strlit("/api/tags");
    reveal_strlit("/api");
    reveal_strlit("/chat/completions");
    reveal_strlit("/completions");
    reveal_strlit("/responses");
    reveal_strlit("/messages");
    reveal_strlit("/models");
    reveal_strlit("/");
    reveal_strlit(":11434");
}

/// Law: a base URL `b` followed by one of the endpoint paths cleans back to
/// `b`, when `b` ends neither with `/` nor with the Ollama port `:11434`, and
/// no longer endpoint path ends the whole URL (as `/chat/completions` ends
/// `b` + `/completions` when `b` ends with `/chat`).
pub proof fn law_endpoint_path_removed(b: Seq<char>, p: Seq<char>)
    requires
        is_endpoint_path(p),
        !ends_with(b, "/"@),
        !ends_with(b, ":11434"@),
        forall|q: Seq<char>|
            #[trigger] is_endpoint_path(q) && q.len() > p.len() ==> !ends_with(b + p, q),
    ensures
        normalize_base_url_spec(b + p) == b,
{
    lemma_endpoint_paths_revealed();
    let s = b + p;
    let slash = CharClass::Exactly('/');
    assert(ends_with(s, p)) by {
        assert(s.subrange(s.len() - p.len(), s.len() as int) =~= p);
    }
    // the URL does not end with `/`
    assert(s.last() == p.last());
    assert(trim_end_by(s, slash) == s);
    // the index of `p` in the order the paths are tried
    let i: int = if p == "/api/chat"@ {
        0
    } else if p == "/api/generate"@ {
        1
    } else if p == "/api/tags"@ {
        2
    } else if p == "/api"@ {
        3
    } else if p == "/chat/completions"@ {
        4
    } else if p == "/completions"@ {
        5
    } else if p == "/responses"@ {
        6
    } else if p == "/messages"@ {
        7
    } else {
        8
    };
    assert(url_suffix_spec(i) == p);
    assert forall|j: int| 0 <= j < i implies !ends_with(s, #[trigger] url_suffix_spec(j)) by {
        let q = url_suffix_spec(j);
        assert(is_endpoint_path(q));
        if q.len() <= p.len() {
            lemma_not_ends_last_two(p, q);
            if ends_with(s, q) {
                lemma_ends_with_tail(s, p, q);
            }
        }
    }
    lemma_strip_reaches(s, 0, i);
    assert(strip_endpoint_from(s, 0) == s.take(s.len() - p.len()));
    assert(s.take(s.len() - p.len()) =~= b);
    // `b` does not end with `/`
    if b.len() > 0 {
        if b.last() == '/' {
            assert(b.subrange(b.len() - 1, b.len() as int) =~= "/"@);
        }
    }
    assert(trim_end_by(b, slash) == b);
}

/// Law: the API family is one of three names, and naming it again gives the same.
pub proof fn law_api_type_canonical(raw: Seq<char>)
    ensures
        api_type_spec(raw) == "anthropic-messages"@ || api_type_spec(raw) == "google-gemini"@
            || api_type_spec(raw) == "openai-completions"@,
        api_type_spec(api_type_spec(raw)) == api_type_spec(raw),
{
    reveal_strlit("anthropic-messages");
    reveal_strlit("google-gemini");
    reveal_strlit("openai-completions");
    crate::text::lemma_trim_no_ws_ends("anthropic-messages"@);
    crate::text::lemma_trim_no_ws_ends("google-gemini"@);
    crate::text::lemma_trim_no_ws_ends("openai-completions"@);
    reveal_strlit("anthropic");
    assert("openai-completions"@[0] != "anthropic-messages"@[0]);
    assert("openai-completions"@ != "anthropic-messages"@);
    assert("openai-completions"@.len() != "anthropic"@.len());
    assert("openai-completions"@.len() != "google-gemini"@.len());
    assert("google-gemini"@.len() != "anthropic"@.len());
    assert("google-gemini"@.len() != "anthropic-messages"@.len());
}


/// What `reqwest::StatusCode::canonical_reason` gives for a status code.
pub uninterp spec fn canonical_reason_of(code: u16) -> Option<Seq<char>>;

/// `StatusCode::from_u16(code)` then `canonical_reason()`: the reason phrase of
/// the registered status codes. Claimed: the result is `canonical_reason_of(code)`.
#[verifier::external_body]
fn canonical_reason(code: u16) -> (r: Option<String>)
    requires
        100 <= code <= 999,
    ensures
        opt_view(r) == canonical_reason_of(code),
{
    match reqwest::StatusCode::from_u16(code).unwrap().canonical_reason() {
        Some(s) => Some(s.to_string()),
        None => None,
    }
}

/// How a status code prints: the number, a space, and its reason phrase.
pub open spec fn status_text_spec(code: u16) -> Seq<char> {
    dec(code as nat) + " "@ + match canonical_reason_of(code) {
        Some(r) => r,
        None => "<unknown status code>"@,
    }
}

/// The text of a status code, as `StatusCode` prints it ("404 Not Found").
pub fn status_text(code: u16) -> (r: String)
    requires
        100 <= code <= 999,
    ensures
        r@ == status_text_spec(code),
{
    let mut out = u64_to_string(code as u64);
    out.append(" ");
    match canonical_reason(code) {
        Some(reason) => out.append(reason.as_str()),
        None => out.append("<unknown status code>"),
    }
    out
}

/// The error text of a provider's JSON reply: `error.message`, else `message`.
pub open spec fn json_error_text(v: JsonV) -> Option<Seq<char>> {
    match opt_str(opt_field(field(v, "error"@), "message"@)) {
        Some(m) => Some(m),
        None => field_str(v, "message"@),
    }
}

/// The message shown for a failed request: the reply's error text, else `HTTP <status>`.
pub open spec fn error_message_spec(parsed: Option<JsonV>, status: u16) -> Seq<char> {
    match parsed {
        Some(v) => match json_error_text(v) {
            Some(m) => m,
            None => "HTTP "@ + status_text_spec(status),
        },
        None => "HTTP "@ + status_text_spec(status),
    }
}

/// `extract_error_message`: `parsed` is the reply body read as JSON (`None` when it is not JSON).
pub fn extract_error_message(parsed: &Option<Json>, status: u16) -> (r: String)
    requires
        100 <= status <= 999,
    ensures
        r@ == error_message_spec(
            match parsed {
                Some(v) => Some(v.deep()),
                None => None,
            },
            status,
        ),
{
    if let Some(v) = parsed {
        let from_error = match v.get("error") {
            Some(e) => e.get_str("message"),
            None => None,
        };
        match from_error {
            Some(m) => return owned(m),
            None => {},
        }
        match v.get_str("message") {
            Some(m) => return owned(m),
            None => {},
        }
    }
    let mut out = owned("HTTP ");
    let st = status_text(status);
    out.append(st.as_str());
    out
}

/// The texts of the blocks whose `type` is `"text"` and whose `text` is a string.
pub open spec fn text_blocks(a: Seq<JsonV>) -> Seq<Seq<char>>
    decreases a.len(),
{
    if a.len() == 0 {
        Seq::empty()
    } else {
        let r = text_blocks(a.drop_last());
        let b = a.last();
        if field_str(b, "type"@) == Some("text"@) && field_str(b, "text"@) is Some {
            r.push(field_str(b, "text"@)->0)
        } else {
            r
        }
    }
}

/// The reply text in the DashScope form (`output.text`), if not empty.
pub open spec fn output_text(v: JsonV) -> Option<Seq<char>> {
    match opt_str(opt_field(field(v, "output"@), "text"@)) {
        Some(t) => if t.len() > 0 {
            Some(t)
        } else {
            None
        },
        None => None,
    }
}

/// The reply text of the OpenAI form (`choices[0].message`): its content, else
/// its reasoning marked `[reasoning]`, else the DashScope form.
pub open spec fn choices_text(v: JsonV) -> Option<Seq<char>> {
    match opt_field(opt_elem(field(v, "choices"@), 0), "message"@) {
        Some(msg) => {
            let content = match field_str(msg, "content"@) {
                Some(c) => c,
                None => Seq::empty(),
            };
            if content.len() > 0 {
                Some(content)
            } else {
                match field_str(msg, "reasoning_content"@) {
                    Some(rc) => if rc.len() > 0 {
                        Some("[reasoning] "@ + rc)
                    } else {
                        output_text(v)
                    },
                    None => output_text(v),
                }
            }
        },
        None => output_text(v),
    }
}

/// The reply text of a chat answer in the Anthropic, Gemini, OpenAI or DashScope form.
pub open spec fn reply_text(v: JsonV) -> Option<Seq<char>> {
    let from_content = match field(v, "content"@) {
        Some(JsonV::Array(a)) => {
            let t = join(text_blocks(a), Seq::empty());
            if t.len() > 0 {
                Some(t)
            } else {
                None
            }
        },
        _ => None,
    };
    if from_content is Some {
        from_content
    } else {
        let cand = opt_str(
            opt_field(
                opt_elem(opt_field(opt_field(opt_elem(field(v, "candidates"@), 0), "content"@), "parts"@), 0),
                "text"@,
            ),
        );
        match cand {
            Some(t) => if t.len() > 0 {
                Some(t)
            } else {
                choices_text(v)
            },
            None => choices_text(v),
        }
    }
}

pub open spec fn opt_deep(o: Option<Json>) -> Option<JsonV> {
    match o {
        Some(v) => Some(v.deep()),
        None => None,
    }
}

fn content_text(v: &Json) -> (r: Option<String>)
    ensures
        opt_view(r) == match field(v.deep(), "content"@) {
            Some(JsonV::Array(a)) => {
                let t = join(text_blocks(a), Seq::empty());
                if t.len() > 0 {
                    Some(t)
                } else {
                    None
                }
            },
            _ => None,
        },
{
    match v.get("content") {
        Some(Json::Array(a)) => {
            proof {
                lemma_array_deep(*a);
            }
            let ghost ad = elems_deep(a@);
            let mut parts: Vec<&str> = Vec::new();
            let n = a.len();
            for i in 0..n
                invariant
                    n == a@.len(),
                    ad == elems_deep(a@),
                    views(parts@) == text_blocks(ad.take(i as int)),
            {
                proof {
                    assert(ad.take(i + 1).drop_last() =~= ad.take(i as int));
                    assert(ad.take(i + 1).last() == a@[i as int].deep());
                }
                let b = &a[i];
                let is_text = match b.get_str("type") {
                    Some(t) => str_eq(t, "text"),
                    None => false,
                };
                if is_text {
                    match b.get_str("text") {
                        Some(t) => {
                            let ghost before = parts@;
                            parts.push(t);
                            proof {
                                assert(views(parts@) =~= views(before).push(t@));
                            }
                        },
                        None => {},
                    }
                }
            }
            proof {
                assert(ad.take(n as int) =~= ad);
            }
            let t = join_strs(&parts, "");
            proof {
                reveal_strlit("");
                assert(""@ =~= Seq::<char>::empty());
            }
            if t.as_str().unicode_len() > 0 {
                Some(t)
            } else {
                None
            }
        },
        _ => None,
    }
}

fn output_text_exec(v: &Json) -> (r: Option<String>)
    ensures
        opt_view(r) == output_text(v.deep()),
{
    match v.get("output") {
        Some(o) => match o.get_str("text") {
            Some(t) => if t.unicode_len() > 0 {
                Some(owned(t))
            } else {
                None
            },
            None => None,
        },
        None => None,
    }
}

fn choices_text_exec(v: &Json) -> (r: Option<String>)
    ensures
        opt_view(r) == choices_text(v.deep()),
{
    let msg = match v.get("choices") {
        Some(c) => match c.at(0) {
            Some(c0) => c0.get("message"),
            None => None,
        },
        None => None,
    };
    match msg {
        Some(m) => {
            let content: &str = match m.get_str("content") {
                Some(c) => c,
                None => "",
            };
            proof {
                reveal_strlit("");
            }
            if content.unicode_len() > 0 {
                return Some(owned(content));
            }
            match m.get_str("reasoning_content") {
                Some(rc) => {
                    if rc.unicode_len() > 0 {
                        let mut out = owned("[reasoning] ");
                        out.append(rc);
                        return Some(out);
                    }
                },
                None => {},
            }
            output_text_exec(v)
        },
        None => output_text_exec(v),
    }
}

/// The reply text of a chat answer, whichever of the known forms it has.
pub fn extract_reply(v: &Json) -> (r: Option<String>)
    ensures
        opt_view(r) == reply_text(v.deep()),
{
    match content_text(v) {
        Some(t) => return Some(t),
        None => {},
    }
    let cand = match v.get("candidates") {
        Some(c) => match c.at(0) {
            Some(c0) => match c0.get("content") {
                Some(ct) => match ct.get("parts") {
                    Some(ps) => match ps.at(0) {
                        Some(p0) => p0.get_str("text"),
                        None => None,
                    },
                    None => None,
                },
                None => None,
            },
            None => None,
        },
        None => None,
    };
    match cand {
        Some(t) => {
            if t.unicode_len() > 0 {
                return Some(owned(t));
            }
        },
        None => {},
    }
    choices_text_exec(v)
}

/// What a model test reports, from the status and the reply read as JSON.
pub open spec fn model_test_spec(status: u16, parsed: Option<JsonV>) -> Result<Seq<char>, Seq<char>> {
    if !(200 <= status && status < 300) {
        let msg = error_message_spec(parsed, status);
        if status == 401 || status == 403 {
            Err(msg)
        } else {
            Ok(
                "⚠ 连接正常（API 返回 "@ + status_text_spec(status)
                    + "，部分模型对简单测试不兼容，不影响实际使用）"@,
            )
        }
    } else {
        Ok(
            match parsed {
                Some(v) => match reply_text(v) {
                    Some(t) => t,
                    None => "（模型已响应）"@,
                },
                None => "（模型已响应）"@,
            },
        )
    }
}

pub open spec fn res_view(r: Result<String, String>) -> Result<Seq<char>, Seq<char>> {
    match r {
        Ok(s) => Ok(s@),
        Err(e) => Err(e@),
    }
}

/// The result of a model test: an authentication failure (401/403) is an error;
/// another failure means the provider answered, with a warning; a success gives
/// the reply text.
pub fn model_test_outcome(status: u16, parsed: &Option<Json>) -> (r: Result<String, String>)
    requires
        100 <= status <= 999,
    ensures
        res_view(r) == model_test_spec(status, opt_deep(*parsed)),
{
    if !(200 <= status && status < 300) {
        let msg = extract_error_message(parsed, status);
        if status == 401 || status == 403 {
            return Err(msg);
        }
        let mut out = owned("⚠ 连接正常（API 返回 ");
        let st = status_text(status);
        out.append(st.as_str());
        out.append("，部分模型对简单测试不兼容，不影响实际使用）");
        return Ok(out);
    }
    let reply = match parsed {
        Some(v) => extract_reply(v),
        None => None,
    };
    match reply {
        Some(t) => Ok(t),
        None => Ok(owned("（模型已响应）")),
    }
}


/// An HTTP request to a provider: method, URL, headers and JSON body.
pub struct HttpRequest {
    pub post: bool,
    pub url: String,
    pub headers: Vec<(String, String)>,
    pub body: Option<Json>,
}

/// The model of a request.
pub struct RequestV {
    pub post: bool,
    pub url: Seq<char>,
    pub headers: Seq<(Seq<char>, Seq<char>)>,
    pub body: Option<JsonV>,
}

pub open spec fn headers_view(h: Seq<(String, String)>) -> Seq<(Seq<char>, Seq<char>)> {
    h.map_values(|e: (String, String)| (e.0@, e.1@))
}

impl HttpRequest {
    pub open spec fn view_req(self) -> RequestV {
        RequestV {
            post: self.post,
            url: self.url@,
            headers: headers_view(self.headers@),
            body: opt_deep(self.body),
        }
    }
}

/// `{"role": "user", "content": "Hi"}` in a one-element array.
pub open spec fn hi_messages() -> JsonV {
    JsonV::Array(seq![JsonV::Object(seq![("role"@, JsonV::Str("user"@)), ("content"@, JsonV::Str("Hi"@))])])
}

/// The headers that carry the key: none when the key is empty.
pub open spec fn key_header(name: Seq<char>, value: Seq<char>, key: Seq<char>) -> Seq<(Seq<char>, Seq<char>)> {
    if key.len() > 0 {
        seq![(name, value)]
    } else {
        Seq::empty()
    }
}

/// The API family of a request, `openai-completions` when none is given.
pub open spec fn api_family(api_type: Option<Seq<char>>) -> Seq<char> {
    api_type_spec(
        match api_type {
            Some(t) => t,
            None => "openai-completions"@,
        },
    )
}

/// The one-message chat request that tests a model.
pub open spec fn model_test_request_spec(
    base_url: Seq<char>,
    api_key: Seq<char>,
    model_id: Seq<char>,
    api_type: Option<Seq<char>>,
) -> RequestV {
    let t = api_family(api_type);
    let base = base_url_for_api_spec(base_url, t);
    if t == "anthropic-messages"@ {
        RequestV {
            post: true,
            url: base + "/messages"@,
            headers: seq![("anthropic-version"@, "2023-06-01"@)] + key_header("x-api-key"@, api_key, api_key),
            body: Some(JsonV::Object(seq![
                ("model"@, JsonV::Str(model_id)),
                ("messages"@, hi_messages()),
                ("max_tokens"@, JsonV::Number(dec(16))),
            ])),
        }
    } else if t == "google-gemini"@ {
        RequestV {
            post: true,
            url: base + "/models/"@ + model_id + ":generateContent?key="@ + api_key,
            headers: Seq::empty(),
            body: Some(JsonV::Object(seq![
                ("contents"@, JsonV::Array(seq![JsonV::Object(seq![
                    ("role"@, JsonV::Str("user"@)),
                    ("parts"@, JsonV::Array(seq![JsonV::Object(seq![("text"@, JsonV::Str("Hi"@))])])),
                ])])),
            ])),
        }
    } else {
        RequestV {
            post: true,
            url: base + "/chat/completions"@,
            headers: key_header("Authorization"@, "Bearer "@ + api_key, api_key),
            body: Some(JsonV::Object(seq![
                ("model"@, JsonV::Str(model_id)),
                ("messages"@, hi_messages()),
                ("max_tokens"@, JsonV::Number(dec(16))),
                ("stream"@, JsonV::Bool(false)),
            ])),
        }
    }
}

/// The request that lists a provider's models.
pub open spec fn list_models_request_spec(
    base_url: Seq<char>,
    api_key: Seq<char>,
    api_type: Option<Seq<char>>,
) -> RequestV {
    let t = api_family(api_type);
    let base = base_url_for_api_spec(base_url, t);
    if t == "anthropic-messages"@ {
        RequestV {
            post: false,
            url: base + "/models"@,
            headers: seq![("anthropic-version"@, "2023-06-01"@)] + key_header("x-api-key"@, api_key, api_key),
            body: None,
        }
    } else if t == "google-gemini"@ {
        RequestV { post: false, url: base + "/models?key="@ + api_key, headers: Seq::empty(), body: None }
    } else {
        RequestV {
            post: false,
            url: base + "/models"@,
            headers: key_header("Authorization"@, "Bearer "@ + api_key, api_key),
            body: None,
        }
    }
}

fn push_header(h: &mut Vec<(String, String)>, name: &str, value: String)
    ensures
        headers_view(final(h)@) == headers_view(old(h)@).push((name@, value@)),
{
    let ghost before = h@;
    let ghost vv = value@;
    h.push((owned(name), value));
    proof {
        assert(headers_view(h@) =~= headers_view(before).push((name@, vv)));
    }
}

fn hi_messages_exec() -> (r: Json)
    ensures
        r.deep() == hi_messages(),
{
    let mut m: Vec<(String, Json)> = Vec::new();
    proof {
        assert(entries_deep(m@) =~= Seq::<(Seq<char>, JsonV)>::empty());
    }
    push_entry(&mut m, "role", Json::text("user"));
    push_entry(&mut m, "content", Json::text("Hi"));
    proof {
        assert(entries_deep(m@) =~= seq![("role"@, JsonV::Str("user"@)), ("content"@, JsonV::Str("Hi"@))]);
    }
    let mo = object(m);
    let mut a: Vec<Json> = Vec::new();
    proof {
        assert(elems_deep(a@) =~= Seq::<JsonV>::empty());
    }
    push_elem(&mut a, mo);
    let r = array(a);
    proof {
        assert(elems_deep(a@) =~= seq![mo.deep()]);
    }
    r
}

fn family_of(api_type: Option<&str>) -> (r: &'static str)
    ensures
        r@ == api_family(
            match api_type {
                Some(t) => Some(t@),
                None => None,
            },
        ),
{
    match api_type {
        Some(t) => normalize_model_api_type(t),
        None => normalize_model_api_type("openai-completions"),
    }
}

/// The request of `test_model`: a one-message chat in the provider's API family.
pub fn model_test_request(
    base_url: &str,
    api_key: &str,
    model_id: &str,
    api_type: Option<&str>,
) -> (r: HttpRequest)
    ensures
        r.view_req() == model_test_request_spec(
            base_url@,
            api_key@,
            model_id@,
            match api_type {
                Some(t) => Some(t@),
                None => None,
            },
        ),
{
    let t = family_of(api_type);
    let base = normalize_base_url_for_api(base_url, t);
    let mut headers: Vec<(String, String)> = Vec::new();
    proof {
        assert(headers_view(headers@) =~= Seq::<(Seq<char>, Seq<char>)>::empty());
    }
    if str_eq(t, "anthropic-messages") {
        let mut url = base;
        url.append("/messages");
        push_header(&mut headers, "anthropic-version", owned("2023-06-01"));
        if api_key.unicode_len() > 0 {
            push_header(&mut headers, "x-api-key", owned(api_key));
        }
        let mut b: Vec<(String, Json)> = Vec::new();
        proof {
            assert(entries_deep(b@) =~= Seq::<(Seq<char>, JsonV)>::empty());
        }
        push_entry(&mut b, "model", Json::text(model_id));
        push_entry(&mut b, "messages", hi_messages_exec());
        push_entry(&mut b, "max_tokens", Json::number(16));
        let body = object(b);
        proof {
            assert(entries_deep(b@) =~= seq![
                ("model"@, JsonV::Str(model_id@)),
                ("messages"@, hi_messages()),
                ("max_tokens"@, JsonV::Number(dec(16))),
            ]);
            assert(headers_view(headers@) =~= seq![("anthropic-version"@, "2023-06-01"@)] + key_header(
                "x-api-key"@,
                api_key@,
                api_key@,
            ));
        }
        HttpRequest { post: true, url, headers, body: Some(body) }
    } else if str_eq(t, "google-gemini") {
        let mut url = base;
        url.append("/models/");
        url.append(model_id);
        url.append(":generateContent?key=");
        url.append(api_key);
        let mut part: Vec<(String, Json)> = Vec::new();
        proof {
            assert(entries_deep(part@) =~= Seq::<(Seq<char>, JsonV)>::empty());
        }
        push_entry(&mut part, "text", Json::text("Hi"));
        let mut parts: Vec<Json> = Vec::new();
        proof {
            assert(elems_deep(parts@) =~= Seq::<JsonV>::empty());
        }
        push_elem(&mut parts, object(part));
        let mut content: Vec<(String, Json)> = Vec::new();
        proof {
            assert(entries_deep(content@) =~= Seq::<(Seq<char>, JsonV)>::empty());
        }
        push_entry(&mut content, "role", Json::text("user"));
        push_entry(&mut content, "parts", array(parts));
        let mut contents: Vec<Json> = Vec::new();
        proof {
            assert(elems_deep(contents@) =~= Seq::<JsonV>::empty());
        }
        push_elem(&mut contents, object(content));
        let mut b: Vec<(String, Json)> = Vec::new();
        proof {
            assert(entries_deep(b@) =~= Seq::<(Seq<char>, JsonV)>::empty());
        }
        push_entry(&mut b, "contents", array(contents));
        let body = object(b);
        proof {
            assert(elems_deep(parts@) =~= seq![JsonV::Object(seq![("text"@, JsonV::Str("Hi"@))])]);
            assert(entries_deep(content@) =~= seq![
                ("role"@, JsonV::Str("user"@)),
                ("parts"@, JsonV::Array(seq![JsonV::Object(seq![("text"@, JsonV::Str("Hi"@))])])),
            ]);
            assert(elems_deep(contents@) =~= seq![JsonV::Object(entries_deep(content@))]);
            assert(entries_deep(b@) =~= seq![("contents"@, JsonV::Array(elems_deep(contents@)))]);
        }
        HttpRequest { post: true, url, headers, body: Some(body) }
    } else {
        let mut url = base;
        url.append("/chat/completions");
        if api_key.unicode_len() > 0 {
            let mut v = owned("Bearer ");
            v.append(api_key);
            push_header(&mut headers, "Authorization", v);
        }
        let mut b: Vec<(String, Json)> = Vec::new();
        proof {
            assert(entries_deep(b@) =~= Seq::<(Seq<char>, JsonV)>::empty());
        }
        push_entry(&mut b, "model", Json::text(model_id));
        push_entry(&mut b, "messages", hi_messages_exec());
        push_entry(&mut b, "max_tokens", Json::number(16));
        push_entry(&mut b, "stream", Json::Bool(false));
        let body = object(b);
        proof {
            assert(entries_deep(b@) =~= seq![
                ("model"@, JsonV::Str(model_id@)),
                ("messages"@, hi_messages()),
                ("max_tokens"@, JsonV::Number(dec(16))),
                ("stream"@, JsonV::Bool(false)),
            ]);
            assert(headers_view(headers@) =~= key_header("Authorization"@, "Bearer "@ + api_key@, api_key@));
        }
        HttpRequest { post: true, url, headers, body: Some(body) }
    }
}

/// The request of `list_remote_models`: `GET {base}/models` in the provider's API family.
pub fn list_models_request(base_url: &str, api_key: &str, api_type: Option<&str>) -> (r: HttpRequest)
    ensures
        r.view_req() == list_models_request_spec(
            base_url@,
            api_key@,
            match api_type {
                Some(t) => Some(t@),
                None => None,
            },
        ),
{
    let t = family_of(api_type);
    let base = normalize_base_url_for_api(base_url, t);
    let mut headers: Vec<(String, String)> = Vec::new();
    proof {
        assert(headers_view(headers@) =~= Seq::<(Seq<char>, Seq<char>)>::empty());
    }
    if str_eq(t, "anthropic-messages") {
        let mut url = base;
        url.append("/models");
        push_header(&mut headers, "anthropic-version", owned("2023-06-01"));
        if api_key.unicode_len() > 0 {
            push_header(&mut headers, "x-api-key", owned(api_key));
        }
        proof {
            assert(headers_view(headers@) =~= seq![("anthropic-version"@, "2023-06-01"@)] + key_header(
                "x-api-key"@,
                api_key@,
                api_key@,
            ));
        }
        HttpRequest { post: false, url, headers, body: None }
    } else if str_eq(t, "google-gemini") {
        let mut url = base;
        url.append("/models?key=");
        url.append(api_key);
        HttpRequest { post: false, url, headers, body: None }
    } else {
        let mut url = base;
        url.append("/models");
        if api_key.unicode_len() > 0 {
            let mut v = owned("Bearer ");
            v.append(api_key);
            push_header(&mut headers, "Authorization", v);
        }
        proof {
            assert(headers_view(headers@) =~= key_header("Authorization"@, "Bearer "@ + api_key@, api_key@));
        }
        HttpRequest { post: false, url, headers, body: None }
    }
}


/// The `id` strings of a list of model objects (`filter_map`).
pub open spec fn ids_of(a: Seq<JsonV>) -> Seq<Seq<char>>
    decreases a.len(),
{
    if a.len() == 0 {
        Seq::empty()
    } else {
        let r = ids_of(a.drop_last());
        match field_str(a.last(), "id"@) {
            Some(id) => r.push(id),
            None => r,
        }
    }
}

/// The `name` strings of a list of model objects, without leading `models/`.
pub open spec fn names_of(a: Seq<JsonV>) -> Seq<Seq<char>>
    decreases a.len(),
{
    if a.len() == 0 {
        Seq::empty()
    } else {
        let r = names_of(a.drop_last());
        match field_str(a.last(), "name"@) {
            Some(n) => r.push(strip_prefix_all(n, "models/"@)),
            None => r,
        }
    }
}

/// The model ids of a `/models` reply: `data[*].id` (OpenAI, Anthropic), else
/// `models[*].name` (Gemini).
pub open spec fn model_ids_spec(v: JsonV) -> Seq<Seq<char>> {
    match field(v, "data"@) {
        Some(JsonV::Array(d)) => ids_of(d),
        _ => match field(v, "models"@) {
            Some(JsonV::Array(d)) => names_of(d),
            _ => Seq::empty(),
        },
    }
}

/// What `list_remote_models` gives for a status and the reply read as JSON.
pub open spec fn remote_models_spec(status: u16, parsed: Option<JsonV>) -> Result<Seq<Seq<char>>, Seq<char>> {
    if !(200 <= status && status < 300) {
        Err("获取模型列表失败: "@ + error_message_spec(parsed, status))
    } else {
        let ids = sort_asc(
            match parsed {
                Some(v) => model_ids_spec(v),
                None => Seq::empty(),
            },
        );
        if ids.len() == 0 {
            Err("该服务商返回了空的模型列表，可能不支持 /models 接口"@)
        } else {
            Ok(ids)
        }
    }
}

fn ids_from(d: &Vec<Json>, by_name: bool) -> (r: Vec<String>)
    ensures
        sviews(r@) == if by_name {
            names_of(elems_deep(d@))
        } else {
            ids_of(elems_deep(d@))
        },
{
    let ghost dd = elems_deep(d@);
    let mut out: Vec<String> = Vec::new();
    let n = d.len();
    for i in 0..n
        invariant
            n == d@.len(),
            dd == elems_deep(d@),
            sviews(out@) == if by_name {
                names_of(dd.take(i as int))
            } else {
                ids_of(dd.take(i as int))
            },
    {
        proof {
            assert(dd.take(i + 1).drop_last() =~= dd.take(i as int));
            assert(dd.take(i + 1).last() == d@[i as int].deep());
        }
        let ghost before = out@;
        if by_name {
            match d[i].get_str("name") {
                Some(nm) => {
                    let t = strip_prefix_all_str(nm, "models/");
                    out.push(owned(t));
                    proof {
                        assert(sviews(out@) =~= sviews(before).push(t@));
                    }
                },
                None => {},
            }
        } else {
            match d[i].get_str("id") {
                Some(id) => {
                    out.push(owned(id));
                    proof {
                        assert(sviews(out@) =~= sviews(before).push(id@));
                    }
                },
                None => {},
            }
        }
    }
    proof {
        assert(dd.take(n as int) =~= dd);
    }
    out
}

/// The model ids of a `/models` reply, unsorted.
pub fn model_ids(v: &Json) -> (r: Vec<String>)
    ensures
        sviews(r@) == model_ids_spec(v.deep()),
{
    match v.get("data") {
        Some(Json::Array(d)) => {
            proof {
                lemma_array_deep(*d);
            }
            return ids_from(d, false);
        },
        _ => {},
    }
    match v.get("models") {
        Some(Json::Array(d)) => {
            proof {
                lemma_array_deep(*d);
            }
            ids_from(d, true)
        },
        _ => {
            let r: Vec<String> = Vec::new();
            proof {
                assert(sviews(r@) =~= Seq::<Seq<char>>::empty());
            }
            r
        },
    }
}

pub open spec fn res_views(r: Result<Vec<String>, String>) -> Result<Seq<Seq<char>>, Seq<char>> {
    match r {
        Ok(v) => Ok(sviews(v@)),
        Err(e) => Err(e@),
    }
}

/// The result of `list_remote_models` from the status and the reply read as JSON:
/// the sorted model ids, or the error to show.
pub fn remote_models_outcome(status: u16, parsed: &Option<Json>) -> (r: Result<Vec<String>, String>)
    requires
        100 <= status <= 999,
    ensures
        res_views(r) == remote_models_spec(status, opt_deep(*parsed)),
{
    if !(200 <= status && status < 300) {
        let msg = extract_error_message(parsed, status);
        let mut out = owned("获取模型列表失败: ");
        out.append(msg.as_str());
        return Err(out);
    }
    let ids = match parsed {
        Some(v) => model_ids(v),
        None => {
            let e: Vec<String> = Vec::new();
            proof {
                assert(sviews(e@) =~= Seq::<Seq<char>>::empty());
            }
            e
        },
    };
    let sorted = sort_strings(ids);
    if sorted.len() == 0 {
        Err(owned("该服务商返回了空的模型列表，可能不支持 /models 接口"))
    } else {
        Ok(sorted)
    }
}

/// The message for a request of `test_model` that got no answer.
pub fn model_test_transport_error(is_timeout: bool, is_connect: bool, detail: &str) -> (r: String)
    ensures
        r@ == if is_timeout {
            "请求超时 (30s)"@
        } else if is_connect {
            "连接失败: "@ + detail@
        } else {
            "请求失败: "@ + detail@
        },
{
    if is_timeout {
        owned("请求超时 (30s)")
    } else if is_connect {
        let mut s = owned("连接失败: ");
        s.append(detail);
        s
    } else {
        let mut s = owned("请求失败: ");
        s.append(detail);
        s
    }
}

/// The message for a request of `list_remote_models` that got no answer.
pub fn list_models_transport_error(is_timeout: bool, is_connect: bool, detail: &str) -> (r: String)
    ensures
        r@ == if is_timeout {
            "请求超时 (15s)，该服务商可能不支持模型列表接口"@
        } else if is_connect {
            "连接失败，请检查接口地址是否正确: "@ + detail@
        } else {
            "请求失败: "@ + detail@
        },
{
    if is_timeout {
        owned("请求超时 (15s)，该服务商可能不支持模型列表接口")
    } else if is_connect {
        let mut s = owned("连接失败，请检查接口地址是否正确: ");
        s.append(detail);
        s
    } else {
        let mut s = owned("请求失败: ");
        s.append(detail);
        s
    }
}

} // verus!
