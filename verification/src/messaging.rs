//! Messaging channels (Discord, Telegram, QQ Bot, Feishu and others): turning
//! the form the user fills in into the `channels` section of `openclaw.json`,
//! reading it back into a form, and judging the platforms' answers when a
//! credential is checked.
use vstd::prelude::*;
use vstd::string::*;
use crate::json::{
    Json, JsonV, field, field_str, field_bool, as_str, opt_field, assoc_insert,
    update_field, without_key, entries_deep, elems_deep, push_entry, push_elem, object, array,
    obj_insert, obj_remove, take_field, put_field, FieldHole, lemma_object_deep,
    lemma_array_deep, lemma_key_pos, lemma_remove_insert,
};
use crate::providers::{status_text, status_text_spec};
use crate::text::{
    CharClass, split_by, trim, find_char, join, views, sviews, join_strs, owned, str_eq, trim_ws,
    split_class,
};

verus! {

/// The first entry key that is not `k`.
pub open spec fn first_key_not(es: Seq<(Seq<char>, JsonV)>, k: Seq<char>) -> Option<Seq<char>>
    decreases es.len(),
{
    if es.len() == 0 {
        None
    } else if es[0].0 != k {
        Some(es[0].0)
    } else {
        first_key_not(es.drop_first(), k)
    }
}

/// The string elements of a list (`filter_map(as_str)`).
pub open spec fn strs_of(a: Seq<JsonV>) -> Seq<Seq<char>>
    decreases a.len(),
{
    if a.len() == 0 {
        Seq::empty()
    } else {
        let r = strs_of(a.drop_last());
        match as_str(a.last()) {
            Some(s) => r.push(s),
            None => r,
        }
    }
}

/// An entry for a present string member.
pub open spec fn str_entry(saved: JsonV, k: Seq<char>) -> Seq<(Seq<char>, JsonV)> {
    match field_str(saved, k) {
        Some(t) => seq![(k, JsonV::Str(t))],
        None => Seq::empty(),
    }
}

/// The Discord form: the token, the first guild and its first channel other than `*`.
pub open spec fn discord_form(saved: JsonV) -> Seq<(Seq<char>, JsonV)> {
    let a = str_entry(saved, "token"@);
    match field(saved, "guilds"@) {
        Some(JsonV::Object(ges)) => if ges.len() > 0 {
            let b = a.push(("guildId"@, JsonV::Str(ges[0].0)));
            match field(ges[0].1, "channels"@) {
                Some(JsonV::Object(ces)) => match first_key_not(ces, "*"@) {
                    Some(cid) => b.push(("channelId"@, JsonV::Str(cid))),
                    None => b,
                },
                _ => b,
            }
        } else {
            a
        },
        _ => a,
    }
}

/// The Telegram form: the bot token, and the allowed users joined by ", ".
pub open spec fn telegram_form(saved: JsonV) -> Seq<(Seq<char>, JsonV)> {
    let a = str_entry(saved, "botToken"@);
    match field(saved, "allowFrom"@) {
        Some(JsonV::Array(arr)) => a.push(("allowedUsers"@, JsonV::Str(join(strs_of(arr), ", "@)))),
        _ => a,
    }
}

/// The QQ Bot form: the token `AppID:AppSecret` split at its first `:`.
pub open spec fn qqbot_form(saved: JsonV) -> Seq<(Seq<char>, JsonV)> {
    match field_str(saved, "token"@) {
        Some(t) => match find_char(t, ':') {
            Some(i) => seq![
                ("appId"@, JsonV::Str(t.take(i))),
                ("appSecret"@, JsonV::Str(t.skip(i + 1))),
            ],
            None => Seq::empty(),
        },
        None => Seq::empty(),
    }
}

/// The Feishu form: app id, app secret and domain as saved.
pub open spec fn feishu_form(saved: JsonV) -> Seq<(Seq<char>, JsonV)> {
    str_entry(saved, "appId"@) + str_entry(saved, "appSecret"@) + str_entry(saved, "domain"@)
}

/// The form of another platform: every string member but `enabled`.
pub open spec fn generic_form(es: Seq<(Seq<char>, JsonV)>) -> Seq<(Seq<char>, JsonV)>
    decreases es.len(),
{
    if es.len() == 0 {
        Seq::empty()
    } else {
        let r = generic_form(es.drop_last());
        let e = es.last();
        if e.0 != "enabled"@ && as_str(e.1) is Some {
            assoc_insert(r, e.0, JsonV::Str(as_str(e.1)->0))
        } else {
            r
        }
    }
}

/// The saved configuration of a platform: `channels.<platform>`.
pub open spec fn saved_platform(cfg: JsonV, platform: Seq<char>) -> Option<JsonV> {
    opt_field(field(cfg, "channels"@), platform)
}

/// The form fields of a platform's saved configuration.
pub open spec fn platform_form(saved: JsonV, platform: Seq<char>) -> Seq<(Seq<char>, JsonV)> {
    if platform == "discord"@ {
        discord_form(saved)
    } else if platform == "telegram"@ {
        telegram_form(saved)
    } else if platform == "qqbot"@ {
        qqbot_form(saved)
    } else if platform == "feishu"@ {
        feishu_form(saved)
    } else {
        match saved {
            JsonV::Object(es) => generic_form(es),
            _ => Seq::empty(),
        }
    }
}

/// `{"exists": false}`, or `{"exists": true, "values": <form>}`.
pub open spec fn read_platform_spec(cfg: JsonV, platform: Seq<char>) -> JsonV {
    match saved_platform(cfg, platform) {
        Some(saved) => if saved == JsonV::Null {
            JsonV::Object(seq![("exists"@, JsonV::Bool(false))])
        } else {
            JsonV::Object(
                seq![
                    ("exists"@, JsonV::Bool(true)),
                    ("values"@, JsonV::Object(platform_form(saved, platform))),
                ],
            )
        },
        None => JsonV::Object(seq![("exists"@, JsonV::Bool(false))]),
    }
}

fn empty_entries() -> (r: Vec<(String, Json)>)
    ensures
        entries_deep(r@) == Seq::<(Seq<char>, JsonV)>::empty(),
{
    let r: Vec<(String, Json)> = Vec::new();
    proof {
        assert(entries_deep(r@) =~= Seq::<(Seq<char>, JsonV)>::empty());
    }
    r
}

fn push_str_member(form: &mut Vec<(String, Json)>, saved: &Json, k: &str)
    ensures
        entries_deep(final(form)@) == entries_deep(old(form)@) + str_entry(saved.deep(), k@),
{
    match saved.get_str(k) {
        Some(t) => {
            push_entry(form, k, Json::text(t));
            proof {
                assert(entries_deep(old(form)@).push((k@, JsonV::Str(t@))) =~= entries_deep(
                    old(form)@,
                ) + str_entry(saved.deep(), k@));
            }
        },
        None => {
            proof {
                assert(entries_deep(old(form)@) + str_entry(saved.deep(), k@) =~= entries_deep(
                    old(form)@,
                ));
            }
        },
    }
}

fn first_key_not_exec<'a>(es: &'a Vec<(String, Json)>, k: &str) -> (r: Option<&'a String>)
    ensures
        match r {
            Some(s) => first_key_not(entries_deep(es@), k@) == Some(s@),
            None => first_key_not(entries_deep(es@), k@) is None,
        },
{
    let ghost d = entries_deep(es@);
    let n = es.len();
    let mut i: usize = 0;
    proof {
        assert(d.skip(0) =~= d);
    }
    while i < n
        invariant
            n == es@.len(),
            d == entries_deep(es@),
            i <= n,
            first_key_not(d, k@) == first_key_not(d.skip(i as int), k@),
        decreases n - i,
    {
        if !str_eq(es[i].0.as_str(), k) {
            return Some(&es[i].0);
        }
        proof {
            assert(d.skip(i as int).drop_first() =~= d.skip(i + 1));
        }
        i = i + 1;
    }
    None
}

fn discord_form_exec(saved: &Json) -> (r: Vec<(String, Json)>)
    ensures
        entries_deep(r@) == discord_form(saved.deep()),
{
    let mut form = empty_entries();
    push_str_member(&mut form, saved, "token");
    proof {
        assert(entries_deep(form@) =~= str_entry(saved.deep(), "token"@));
    }
    match saved.get("guilds") {
        Some(Json::Object(ges)) => {
            proof {
                lemma_object_deep(*ges);
            }
            if ges.len() > 0 {
                let gid = &ges[0].0;
                push_entry(&mut form, "guildId", Json::text(gid.as_str()));
                match ges[0].1.get("channels") {
                    Some(Json::Object(ces)) => {
                        proof {
                            lemma_object_deep(*ces);
                        }
                        match first_key_not_exec(ces, "*") {
                            Some(cid) => {
                                push_entry(&mut form, "channelId", Json::text(cid.as_str()));
                            },
                            None => {},
                        }
                    },
                    _ => {},
                }
            }
        },
        _ => {},
    }
    form
}

fn strs_of_exec(a: &Vec<Json>) -> (r: Vec<&str>)
    ensures
        views(r@) == strs_of(elems_deep(a@)),
{
    let ghost d = elems_deep(a@);
    let mut out: Vec<&str> = Vec::new();
    let n = a.len();
    for i in 0..n
        invariant
            n == a@.len(),
            d == elems_deep(a@),
            views(out@) == strs_of(d.take(i as int)),
    {
        proof {
            assert(d.take(i + 1).drop_last() =~= d.take(i as int));
            assert(d.take(i + 1).last() == a@[i as int].deep());
        }
        match a[i].as_str() {
            Some(s) => {
                let ghost before = out@;
                out.push(s);
                proof {
                    assert(views(out@) =~= views(before).push(s@));
                }
            },
            None => {},
        }
    }
    proof {
        assert(d.take(n as int) =~= d);
    }
    out
}

fn telegram_form_exec(saved: &Json) -> (r: Vec<(String, Json)>)
    ensures
        entries_deep(r@) == telegram_form(saved.deep()),
{
    let mut form = empty_entries();
    push_str_member(&mut form, saved, "botToken");
    proof {
        assert(entries_deep(form@) =~= str_entry(saved.deep(), "botToken"@));
    }
    match saved.get("allowFrom") {
        Some(Json::Array(arr)) => {
            proof {
                lemma_array_deep(*arr);
            }
            let users = strs_of_exec(arr);
            let joined = join_strs(&users, ", ");
            push_entry(&mut form, "allowedUsers", Json::Str(joined));
        },
        _ => {},
    }
    form
}

fn qqbot_form_exec(saved: &Json) -> (r: Vec<(String, Json)>)
    ensures
        entries_deep(r@) == qqbot_form(saved.deep()),
{
    let mut form = empty_entries();
    match saved.get_str("token") {
        Some(t) => {
            let pieces = split_class(t, CharClass::Exactly(':'));
            proof {
                crate::text::lemma_split_by_nonempty(t@, CharClass::Exactly(':'));
                crate::text::lemma_split_first_piece(t@, ':');
            }
            if pieces.len() > 1 {
                let id = pieces[0];
                let n = t.unicode_len();
                let k = id.unicode_len();
                let secret = t.substring_char(k + 1, n);
                push_entry(&mut form, "appId", Json::text(id));
                push_entry(&mut form, "appSecret", Json::text(secret));
                proof {
                    assert(entries_deep(form@) =~= qqbot_form(saved.deep()));
                }
            }
        },
        None => {},
    }
    form
}

fn feishu_form_exec(saved: &Json) -> (r: Vec<(String, Json)>)
    ensures
        entries_deep(r@) == feishu_form(saved.deep()),
{
    let mut form = empty_entries();
    push_str_member(&mut form, saved, "appId");
    push_str_member(&mut form, saved, "appSecret");
    push_str_member(&mut form, saved, "domain");
    proof {
        assert(entries_deep(form@) =~= feishu_form(saved.deep()));
    }
    form
}

fn generic_form_exec(es: &Vec<(String, Json)>) -> (r: Vec<(String, Json)>)
    ensures
        entries_deep(r@) == generic_form(entries_deep(es@)),
{
    let ghost d = entries_deep(es@);
    let mut form = empty_entries();
    let n = es.len();
    for i in 0..n
        invariant
            n == es@.len(),
            d == entries_deep(es@),
            entries_deep(form@) == generic_form(d.take(i as int)),
    {
        proof {
            assert(d.take(i + 1).drop_last() =~= d.take(i as int));
            assert(d.take(i + 1).last() == (es@[i as int].0@, es@[i as int].1.deep()));
        }
        if !str_eq(es[i].0.as_str(), "enabled") {
            match es[i].1.as_str() {
                Some(s) => {
                    obj_insert(&mut form, es[i].0.clone(), Json::text(s));
                },
                None => {},
            }
        }
    }
    proof {
        assert(d.take(n as int) =~= d);
    }
    form
}

/// The form values of a platform's saved configuration (`read_platform_config`):
/// `{"exists": false}` when `channels.<platform>` is missing or null, else
/// `{"exists": true, "values": {...}}` with the fields the form edits.
pub fn read_platform_config(cfg: &Json, platform: &str) -> (r: Json)
    ensures
        r.deep() == read_platform_spec(cfg.deep(), platform@),
{
    let saved = match cfg.get("channels") {
        Some(c) => c.get(platform),
        None => None,
    };
    let saved = match saved {
        Some(s) => s,
        None => {
            let mut o = empty_entries();
            push_entry(&mut o, "exists", Json::Bool(false));
            proof {
                assert(entries_deep(o@) =~= seq![("exists"@, JsonV::Bool(false))]);
            }
            return object(o);
        },
    };
    if let Json::Null = saved {
        let mut o = empty_entries();
        push_entry(&mut o, "exists", Json::Bool(false));
        proof {
            assert(entries_deep(o@) =~= seq![("exists"@, JsonV::Bool(false))]);
        }
        return object(o);
    }
    proof {
        assert(saved.deep() != JsonV::Null);
    }
    let form = if str_eq(platform, "discord") {
        discord_form_exec(saved)
    } else if str_eq(platform, "telegram") {
        telegram_form_exec(saved)
    } else if str_eq(platform, "qqbot") {
        qqbot_form_exec(saved)
    } else if str_eq(platform, "feishu") {
        feishu_form_exec(saved)
    } else {
        match saved {
            Json::Object(es) => {
                proof {
                    lemma_object_deep(*es);
                }
                generic_form_exec(es)
            },
            _ => empty_entries(),
        }
    };
    let mut o = empty_entries();
    push_entry(&mut o, "exists", Json::Bool(true));
    push_entry(&mut o, "values", object(form));
    proof {
        assert(entries_deep(o@) =~= seq![
            ("exists"@, JsonV::Bool(true)),
            ("values"@, JsonV::Object(platform_form(saved.deep(), platform@))),
        ]);
    }
    object(o)
}


/// A form field as text, trimmed (`""` when it is missing or not a string).
pub open spec fn form_text(form: JsonV, k: Seq<char>) -> Seq<char> {
    trim(
        match field_str(form, k) {
            Some(t) => t,
            None => Seq::empty(),
        },
    )
}

/// The retry policy written for Discord.
pub open spec fn retry_policy() -> JsonV {
    JsonV::Object(
        seq![
            ("attempts"@, JsonV::Number(crate::num::dec(3))),
            ("minDelayMs"@, JsonV::Number(crate::num::dec(500))),
            ("maxDelayMs"@, JsonV::Number(crate::num::dec(30000))),
            ("jitter"@, JsonV::Number("0.1"@)),
        ],
    )
}

/// A trimmed string entry for a present string member.
pub open spec fn trimmed_entry(form: JsonV, k: Seq<char>) -> Seq<(Seq<char>, JsonV)> {
    match field_str(form, k) {
        Some(t) => seq![(k, JsonV::Str(trim(t)))],
        None => Seq::empty(),
    }
}

/// The Discord channel entry: the token, a fixed allow-list policy, and the guild
/// (with one channel, or `*` for all) when a guild id is given.
pub open spec fn discord_entry(form: JsonV) -> JsonV {
    let base = trimmed_entry(form, "token"@) + seq![
        ("enabled"@, JsonV::Bool(true)),
        ("groupPolicy"@, JsonV::Str("allowlist"@)),
        ("dm"@, JsonV::Object(seq![("enabled"@, JsonV::Bool(false))])),
        ("retry"@, retry_policy()),
    ];
    let gid = form_text(form, "guildId"@);
    if gid.len() > 0 {
        let cid = form_text(form, "channelId"@);
        let ck = if cid.len() == 0 {
            "*"@
        } else {
            cid
        };
        JsonV::Object(
            base.push(
                (
                    "guilds"@,
                    JsonV::Object(
                        seq![
                            (
                                gid,
                                JsonV::Object(
                                    seq![
                                        ("users"@, JsonV::Array(seq![JsonV::Str("*"@)])),
                                        ("requireMention"@, JsonV::Bool(true)),
                                        (
                                            "channels"@,
                                            JsonV::Object(
                                                seq![
                                                    (
                                                        ck,
                                                        JsonV::Object(
                                                            seq![
                                                                ("allow"@, JsonV::Bool(true)),
                                                                ("requireMention"@, JsonV::Bool(true)),
                                                            ],
                                                        ),
                                                    ),
                                                ],
                                            ),
                                        ),
                                    ],
                                ),
                            ),
                        ],
                    ),
                ),
            ),
        )
    } else {
        JsonV::Object(base)
    }
}

/// The pieces, trimmed, without the empty ones.
pub open spec fn trimmed_nonempty(ps: Seq<Seq<char>>) -> Seq<Seq<char>>
    decreases ps.len(),
{
    if ps.len() == 0 {
        Seq::empty()
    } else {
        let r = trimmed_nonempty(ps.drop_last());
        if trim(ps.last()).len() > 0 {
            r.push(trim(ps.last()))
        } else {
            r
        }
    }
}

/// The allowed users of a comma-separated list.
pub open spec fn user_list(s: Seq<char>) -> Seq<Seq<char>> {
    trimmed_nonempty(split_by(s, CharClass::Exactly(',')))
}

pub open spec fn str_values(ps: Seq<Seq<char>>) -> Seq<JsonV> {
    ps.map_values(|p: Seq<char>| JsonV::Str(p))
}

/// The Telegram channel entry: the bot token and the allowed users.
pub open spec fn telegram_entry(form: JsonV) -> JsonV {
    let base = trimmed_entry(form, "botToken"@).push(("enabled"@, JsonV::Bool(true)));
    match field_str(form, "allowedUsers"@) {
        Some(u) => if user_list(u).len() > 0 {
            JsonV::Object(base.push(("allowFrom"@, JsonV::Array(str_values(user_list(u))))))
        } else {
            JsonV::Object(base)
        },
        None => JsonV::Object(base),
    }
}

/// Every form member set into `acc`, in order.
pub open spec fn insert_all(acc: Seq<(Seq<char>, JsonV)>, es: Seq<(Seq<char>, JsonV)>) -> Seq<(Seq<char>, JsonV)>
    decreases es.len(),
{
    if es.len() == 0 {
        acc
    } else {
        assoc_insert(insert_all(acc, es.drop_last()), es.last().0, es.last().1)
    }
}

/// The channel entry of a platform, or the error for missing credentials.
pub open spec fn platform_entry_spec(platform: Seq<char>, form: JsonV) -> Result<JsonV, Seq<char>> {
    if platform == "discord"@ {
        Ok(discord_entry(form))
    } else if platform == "telegram"@ {
        Ok(telegram_entry(form))
    } else if platform == "qqbot"@ {
        let id = form_text(form, "appId"@);
        let secret = form_text(form, "appSecret"@);
        if id.len() == 0 || secret.len() == 0 {
            Err("AppID 和 AppSecret 不能为空"@)
        } else {
            Ok(JsonV::Object(seq![
                ("token"@, JsonV::Str(id + ":"@ + secret)),
                ("enabled"@, JsonV::Bool(true)),
            ]))
        }
    } else if platform == "feishu"@ {
        let id = form_text(form, "appId"@);
        let secret = form_text(form, "appSecret"@);
        let domain = form_text(form, "domain"@);
        if id.len() == 0 || secret.len() == 0 {
            Err("App ID 和 App Secret 不能为空"@)
        } else {
            let base = seq![
                ("appId"@, JsonV::Str(id)),
                ("appSecret"@, JsonV::Str(secret)),
                ("enabled"@, JsonV::Bool(true)),
                ("connectionMode"@, JsonV::Str("websocket"@)),
            ];
            Ok(JsonV::Object(if domain.len() > 0 {
                base.push(("domain"@, JsonV::Str(domain)))
            } else {
                base
            }))
        }
    } else {
        match form {
            JsonV::Object(es) => Ok(JsonV::Object(
                assoc_insert(insert_all(Seq::empty(), es), "enabled"@, JsonV::Bool(true)),
            )),
            _ => Ok(form),
        }
    }
}

/// The configuration with a platform's channel entry set from the form, or the
/// error that `save_messaging_platform` reports.
pub open spec fn save_platform_spec(cfg: JsonV, platform: Seq<char>, form: JsonV) -> Result<JsonV, Seq<char>> {
    match cfg {
        JsonV::Object(es) => {
            let ch = match field(cfg, "channels"@) {
                Some(c) => c,
                None => JsonV::Object(Seq::empty()),
            };
            match ch {
                JsonV::Object(ces) => match form {
                    JsonV::Object(_) => match platform_entry_spec(platform, form) {
                        Ok(entry) => Ok(JsonV::Object(assoc_insert(
                            es,
                            "channels"@,
                            JsonV::Object(assoc_insert(ces, platform, entry)),
                        ))),
                        Err(e) => Err(e),
                    },
                    _ => Err("表单数据格式错误"@),
                },
                _ => Err("channels 节点格式错误"@),
            }
        },
        _ => Err("配置格式错误"@),
    }
}

fn push_trimmed_member(entry: &mut Vec<(String, Json)>, form: &Json, k: &str)
    ensures
        entries_deep(final(entry)@) == entries_deep(old(entry)@) + trimmed_entry(form.deep(), k@),
{
    match form.get_str(k) {
        Some(t) => {
            push_entry(entry, k, Json::text(trim_ws(t)));
            proof {
                assert(entries_deep(old(entry)@).push((k@, JsonV::Str(trim(t@)))) =~= entries_deep(
                    old(entry)@,
                ) + trimmed_entry(form.deep(), k@));
            }
        },
        None => {
            proof {
                assert(entries_deep(old(entry)@) + trimmed_entry(form.deep(), k@) =~= entries_deep(
                    old(entry)@,
                ));
            }
        },
    }
}

fn form_text_exec(form: &Json, k: &str) -> (r: String)
    ensures
        r@ == form_text(form.deep(), k@),
{
    proof {
        reveal_strlit("");
        assert(""@ =~= Seq::<char>::empty());
    }
    let t: &str = match form.get_str(k) {
        Some(t) => t,
        None => "",
    };
    owned(trim_ws(t))
}

fn single(k: String, v: Json) -> (r: Json)
    ensures
        r.deep() == JsonV::Object(seq![(k@, v.deep())]),
{
    let mut o = empty_entries();
    let ghost kv = k@;
    let ghost vv = v.deep();
    proof {
        crate::json::lemma_entries_deep_push(o@, (k, v));
    }
    o.push((k, v));
    proof {
        assert(entries_deep(o@) =~= seq![(kv, vv)]);
    }
    object(o)
}

fn retry_policy_exec() -> (r: Json)
    ensures
        r.deep() == retry_policy(),
{
    let mut o = empty_entries();
    push_entry(&mut o, "attempts", Json::number(3));
    push_entry(&mut o, "minDelayMs", Json::number(500));
    push_entry(&mut o, "maxDelayMs", Json::number(30000));
    push_entry(&mut o, "jitter", Json::Number(owned("0.1")));
    proof {
        assert(entries_deep(o@) =~= retry_policy()->Object_0);
    }
    object(o)
}

fn discord_entry_exec(form: &Json) -> (r: Json)
    ensures
        r.deep() == discord_entry(form.deep()),
{
    let mut e = empty_entries();
    push_trimmed_member(&mut e, form, "token");
    push_entry(&mut e, "enabled", Json::Bool(true));
    push_entry(&mut e, "groupPolicy", Json::text("allowlist"));
    push_entry(&mut e, "dm", single(owned("enabled"), Json::Bool(false)));
    push_entry(&mut e, "retry", retry_policy_exec());
    let ghost base = entries_deep(e@);
    proof {
        assert(base =~= trimmed_entry(form.deep(), "token"@) + seq![
            ("enabled"@, JsonV::Bool(true)),
            ("groupPolicy"@, JsonV::Str("allowlist"@)),
            ("dm"@, JsonV::Object(seq![("enabled"@, JsonV::Bool(false))])),
            ("retry"@, retry_policy()),
        ]);
    }
    let gid = form_text_exec(form, "guildId");
    if gid.as_str().unicode_len() > 0 {
        let cid = form_text_exec(form, "channelId");
        let ck = if cid.as_str().unicode_len() == 0 {
            owned("*")
        } else {
            cid
        };
        let ghost ckv = ck@;
        let chan = single(ck, {
            let mut a = empty_entries();
            push_entry(&mut a, "allow", Json::Bool(true));
            push_entry(&mut a, "requireMention", Json::Bool(true));
            proof {
                assert(entries_deep(a@) =~= seq![
                    ("allow"@, JsonV::Bool(true)),
                    ("requireMention"@, JsonV::Bool(true)),
                ]);
            }
            object(a)
        });
        let mut users: Vec<Json> = Vec::new();
        proof {
            assert(elems_deep(users@) =~= Seq::<JsonV>::empty());
        }
        push_elem(&mut users, Json::text("*"));
        let mut g = empty_entries();
        push_entry(&mut g, "users", array(users));
        push_entry(&mut g, "requireMention", Json::Bool(true));
        push_entry(&mut g, "channels", chan);
        proof {
            assert(elems_deep(users@) =~= seq![JsonV::Str("*"@)]);
            assert(entries_deep(g@) =~= seq![
                ("users"@, JsonV::Array(seq![JsonV::Str("*"@)])),
                ("requireMention"@, JsonV::Bool(true)),
                ("channels"@, JsonV::Object(seq![(ckv, JsonV::Object(seq![
                    ("allow"@, JsonV::Bool(true)),
                    ("requireMention"@, JsonV::Bool(true)),
                ]))])),
            ]);
        }
        let guild = single(gid, object(g));
        push_entry(&mut e, "guilds", guild);
    }
    object(e)
}

fn user_list_exec(s: &str) -> (r: Vec<Json>)
    ensures
        elems_deep(r@) == str_values(user_list(s@)),
{
    let pieces = split_class(s, CharClass::Exactly(','));
    let ghost pv = views(pieces@);
    let mut out: Vec<Json> = Vec::new();
    let ghost mut names: Seq<Seq<char>> = Seq::empty();
    proof {
        assert(elems_deep(out@) =~= Seq::<JsonV>::empty());
    }
    let n = pieces.len();
    for i in 0..n
        invariant
            n == pieces@.len(),
            pv == views(pieces@),
            names == trimmed_nonempty(pv.take(i as int)),
            elems_deep(out@) == str_values(names),
    {
        proof {
            assert(pv.take(i + 1).drop_last() =~= pv.take(i as int));
            assert(pv.take(i + 1).last() == pieces@[i as int]@);
        }
        let t = trim_ws(pieces[i]);
        if t.unicode_len() > 0 {
            push_elem(&mut out, Json::text(t));
            proof {
                names = names.push(t@);
                assert(str_values(names) =~= str_values(names.drop_last()).push(JsonV::Str(t@)));
            }
        }
    }
    proof {
        assert(pv.take(n as int) =~= pv);
    }
    out
}

fn telegram_entry_exec(form: &Json) -> (r: Json)
    ensures
        r.deep() == telegram_entry(form.deep()),
{
    let mut e = empty_entries();
    push_trimmed_member(&mut e, form, "botToken");
    push_entry(&mut e, "enabled", Json::Bool(true));
    proof {
        assert(entries_deep(e@) =~= trimmed_entry(form.deep(), "botToken"@).push(
            ("enabled"@, JsonV::Bool(true)),
        ));
    }
    match form.get_str("allowedUsers") {
        Some(u) => {
            let users = user_list_exec(u);
            proof {
                assert(str_values(user_list(u@)).len() == user_list(u@).len());
                assert(elems_deep(users@).len() == users@.len());
            }
            if users.len() > 0 {
                push_entry(&mut e, "allowFrom", array(users));
            }
        },
        None => {},
    }
    object(e)
}

fn insert_all_exec(es: &Vec<(String, Json)>) -> (r: Vec<(String, Json)>)
    ensures
        entries_deep(r@) == insert_all(Seq::empty(), entries_deep(es@)),
{
    let ghost d = entries_deep(es@);
    let mut out = empty_entries();
    let n = es.len();
    for i in 0..n
        invariant
            n == es@.len(),
            d == entries_deep(es@),
            entries_deep(out@) == insert_all(Seq::empty(), d.take(i as int)),
    {
        proof {
            assert(d.take(i + 1).drop_last() =~= d.take(i as int));
            assert(d.take(i + 1).last() == (es@[i as int].0@, es@[i as int].1.deep()));
        }
        obj_insert(&mut out, es[i].0.clone(), es[i].1.duplicate());
    }
    proof {
        assert(d.take(n as int) =~= d);
    }
    out
}

/// The channel entry a platform's form gives (`Err` when QQ Bot or Feishu credentials are missing).
pub fn platform_entry(platform: &str, form: &Json) -> (r: Result<Json, String>)
    ensures
        match r {
            Ok(j) => platform_entry_spec(platform@, form.deep()) == Ok::<JsonV, Seq<char>>(j.deep()),
            Err(e) => platform_entry_spec(platform@, form.deep()) == Err::<JsonV, Seq<char>>(e@),
        },
{
    if str_eq(platform, "discord") {
        Ok(discord_entry_exec(form))
    } else if str_eq(platform, "telegram") {
        Ok(telegram_entry_exec(form))
    } else if str_eq(platform, "qqbot") {
        let id = form_text_exec(form, "appId");
        let secret = form_text_exec(form, "appSecret");
        if id.as_str().unicode_len() == 0 || secret.as_str().unicode_len() == 0 {
            return Err(owned("AppID 和 AppSecret 不能为空"));
        }
        let mut token = id;
        token.append(":");
        token.append(secret.as_str());
        let mut e = empty_entries();
        push_entry(&mut e, "token", Json::Str(token));
        push_entry(&mut e, "enabled", Json::Bool(true));
        proof {
            assert(entries_deep(e@) =~= platform_entry_spec(platform@, form.deep())->Ok_0->Object_0);
        }
        Ok(object(e))
    } else if str_eq(platform, "feishu") {
        let id = form_text_exec(form, "appId");
        let secret = form_text_exec(form, "appSecret");
        if id.as_str().unicode_len() == 0 || secret.as_str().unicode_len() == 0 {
            return Err(owned("App ID 和 App Secret 不能为空"));
        }
        let domain = form_text_exec(form, "domain");
        let mut e = empty_entries();
        push_entry(&mut e, "appId", Json::Str(id));
        push_entry(&mut e, "appSecret", Json::Str(secret));
        push_entry(&mut e, "enabled", Json::Bool(true));
        push_entry(&mut e, "connectionMode", Json::text("websocket"));
        if domain.as_str().unicode_len() > 0 {
            push_entry(&mut e, "domain", Json::Str(domain));
        }
        proof {
            assert(entries_deep(e@) =~= platform_entry_spec(platform@, form.deep())->Ok_0->Object_0);
        }
        Ok(object(e))
    } else {
        match form {
            Json::Object(es) => {
                proof {
                    lemma_object_deep(*es);
                }
                let mut e = insert_all_exec(es);
                obj_insert(&mut e, owned("enabled"), Json::Bool(true));
                Ok(object(e))
            },
            _ => Ok(form.duplicate()),
        }
    }
}

pub open spec fn res_json(r: Result<Json, String>) -> Result<JsonV, Seq<char>> {
    match r {
        Ok(j) => Ok(j.deep()),
        Err(e) => Err(e@),
    }
}

/// Sets a platform's channel entry from the form (`save_messaging_platform`):
/// the new configuration, or the error for a malformed configuration or form
/// or for missing credentials.
pub fn save_messaging_platform(cfg: Json, platform: &str, form: &Json) -> (r: Result<Json, String>)
    ensures
        res_json(r) == save_platform_spec(cfg.deep(), platform@, form.deep()),
{
    let is_obj = match &cfg {
        Json::Object(_) => true,
        _ => false,
    };
    if !is_obj {
        return Err(owned("配置格式错误"));
    }
    let ghost cd = cfg.deep();
    let hole = take_field(cfg, "channels");
    let (ces, slot) = match hole {
        FieldHole::Found { rest, index, key, value } => {
            match value {
                Json::Object(ces) => {
                    proof {
                        lemma_object_deep(ces);
                    }
                    (ces, FieldHole::Found { rest, index, key, value: Json::Null })
                },
                _ => return Err(owned("channels 节点格式错误")),
            }
        },
        FieldHole::Absent(o) => (empty_entries(), FieldHole::Absent(o)),
    };
    let form_is_obj = match form {
        Json::Object(_) => true,
        _ => false,
    };
    if !form_is_obj {
        return Err(owned("表单数据格式错误"));
    }
    let entry = match platform_entry(platform, form) {
        Ok(e) => e,
        Err(e) => return Err(e),
    };
    let mut ces = ces;
    obj_insert(&mut ces, owned(platform), entry);
    let ghost newch = JsonV::Object(entries_deep(ces@));
    let chans = object(ces);
    match slot {
        FieldHole::Found { rest, index, key, value: _ } => {
            proof {
                let es = cd->Object_0;
                lemma_key_pos(es, "channels"@);
                lemma_remove_insert(es, index as int, (key@, newch));
            }
            Ok(put_field(rest, index, key, chans))
        },
        FieldHole::Absent(o) => {
            match o {
                Json::Object(mut es) => {
                    proof {
                        lemma_object_deep(es);
                        crate::json::lemma_key_pos(cd->Object_0, "channels"@);
                    }
                    push_entry(&mut es, "channels", chans);
                    Ok(object(es))
                },
                _ => Err(owned("配置格式错误")),
            }
        },
    }
}


/// An object without the member `k`; any other value stays.
pub open spec fn drop_member(c: JsonV, k: Seq<char>) -> JsonV {
    match c {
        JsonV::Object(es) => JsonV::Object(without_key(es, k)),
        _ => c,
    }
}

/// An object with `enabled` set; any other value stays.
pub open spec fn set_enabled(p: JsonV, enabled: bool) -> JsonV {
    match p {
        JsonV::Object(es) => JsonV::Object(assoc_insert(es, "enabled"@, JsonV::Bool(enabled))),
        _ => p,
    }
}

pub open spec fn remove_platform_spec(cfg: JsonV, platform: Seq<char>) -> JsonV {
    update_field(cfg, "channels"@, |c: JsonV| drop_member(c, platform))
}

pub open spec fn toggle_platform_spec(cfg: JsonV, platform: Seq<char>, enabled: bool) -> Result<JsonV, Seq<char>> {
    match saved_platform(cfg, platform) {
        Some(JsonV::Object(_)) => Ok(update_field(
            cfg,
            "channels"@,
            |c: JsonV| update_field(c, platform, |p: JsonV| set_enabled(p, enabled)),
        )),
        _ => Err("平台 "@ + platform + " 未配置"@),
    }
}

/// One `{"id": <name>, "enabled": <flag>}` per configured channel; a channel
/// without an `enabled` flag counts as enabled.
pub open spec fn platform_list(es: Seq<(Seq<char>, JsonV)>) -> Seq<JsonV> {
    es.map_values(
        |e: (Seq<char>, JsonV)|
            JsonV::Object(
                seq![
                    ("id"@, JsonV::Str(e.0)),
                    (
                        "enabled"@,
                        JsonV::Bool(
                            match field_bool(e.1, "enabled"@) {
                                Some(b) => b,
                                None => true,
                            },
                        ),
                    ),
                ],
            ),
    )
}

pub open spec fn configured_platforms_spec(cfg: JsonV) -> JsonV {
    match field(cfg, "channels"@) {
        Some(JsonV::Object(es)) => JsonV::Array(platform_list(es)),
        _ => JsonV::Array(Seq::empty()),
    }
}

/// Removes a platform's channel entry (`remove_messaging_platform`).
pub fn remove_messaging_platform(cfg: Json, platform: &str) -> (r: Json)
    ensures
        r.deep() == remove_platform_spec(cfg.deep(), platform@),
{
    let ghost cd = cfg.deep();
    match take_field(cfg, "channels") {
        FieldHole::Found { rest, index, key, value } => {
            let ghost vd = value.deep();
            let nv = match value {
                Json::Object(mut ces) => {
                    proof {
                        lemma_object_deep(ces);
                    }
                    obj_remove(&mut ces, platform);
                    object(ces)
                },
                other => other,
            };
            proof {
                assert(nv.deep() == drop_member(vd, platform@));
                lemma_remove_insert(cd->Object_0, index as int, (key@, nv.deep()));
            }
            put_field(rest, index, key, nv)
        },
        FieldHole::Absent(o) => o,
    }
}

/// Sets a platform's `enabled` flag (`toggle_messaging_platform`); an error when
/// the platform has no channel entry.
pub fn toggle_messaging_platform(cfg: Json, platform: &str, enabled: bool) -> (r: Result<Json, String>)
    ensures
        res_json(r) == toggle_platform_spec(cfg.deep(), platform@, enabled),
{
    let ghost cd = cfg.deep();
    let configured = match cfg.get("channels") {
        Some(c) => match c.get(platform) {
            Some(Json::Object(_)) => true,
            _ => false,
        },
        None => false,
    };
    if !configured {
        let mut msg = owned("平台 ");
        msg.append(platform);
        msg.append(" 未配置");
        return Err(msg);
    }
    match take_field(cfg, "channels") {
        FieldHole::Found { rest, index, key, value } => {
            let ghost vd = value.deep();
            match take_field(value, platform) {
                FieldHole::Found { rest: rest2, index: index2, key: key2, value: pv } => {
                    let ghost pvd = pv.deep();
                    let npv = match pv {
                        Json::Object(mut pes) => {
                            proof {
                                lemma_object_deep(pes);
                            }
                            obj_insert(&mut pes, owned("enabled"), Json::Bool(enabled));
                            object(pes)
                        },
                        other => other,
                    };
                    proof {
                        assert(npv.deep() == set_enabled(pvd, enabled));
                        lemma_remove_insert(vd->Object_0, index2 as int, (key2@, npv.deep()));
                    }
                    let nv = put_field(rest2, index2, key2, npv);
                    proof {
                        lemma_remove_insert(cd->Object_0, index as int, (key@, nv.deep()));
                    }
                    Ok(put_field(rest, index, key, nv))
                },
                // Not reached: the entry was found above.
                FieldHole::Absent(_) => Err(owned("")),
            }
        },
        // Not reached: the channels were found above.
        FieldHole::Absent(_) => Err(owned("")),
    }
}

/// The configured platforms and their flags (`list_configured_platforms`).
pub fn list_configured_platforms(cfg: &Json) -> (r: Json)
    ensures
        r.deep() == configured_platforms_spec(cfg.deep()),
{
    let mut out: Vec<Json> = Vec::new();
    proof {
        assert(elems_deep(out@) =~= Seq::<JsonV>::empty());
    }
    match cfg.get("channels") {
        Some(Json::Object(es)) => {
            proof {
                lemma_object_deep(*es);
            }
            let ghost d = entries_deep(es@);
            let n = es.len();
            for i in 0..n
                invariant
                    n == es@.len(),
                    d == entries_deep(es@),
                    elems_deep(out@) == platform_list(d.take(i as int)),
            {
                let on = match es[i].1.get_bool("enabled") {
                    Some(b) => b,
                    None => true,
                };
                let mut o = empty_entries();
                push_entry(&mut o, "id", Json::text(es[i].0.as_str()));
                push_entry(&mut o, "enabled", Json::Bool(on));
                proof {
                    assert(entries_deep(o@) =~= platform_list(d.take(i + 1))[i as int]->Object_0);
                }
                push_elem(&mut out, object(o));
                proof {
                    assert(elems_deep(out@) =~= platform_list(d.take(i + 1)));
                }
            }
            proof {
                assert(d.take(n as int) =~= d);
            }
            array(out)
        },
        _ => {
            proof {
                assert(elems_deep(out@) =~= Seq::<JsonV>::empty());
            }
            array(out)
        },
    }
}


/// `{"valid": false, "errors": [msg]}`.
pub open spec fn invalid_verdict(msg: Seq<char>) -> JsonV {
    JsonV::Object(seq![("valid"@, JsonV::Bool(false)), ("errors"@, JsonV::Array(seq![JsonV::Str(msg)]))])
}

/// `{"valid": true, "errors": [], "details": details}`.
pub open spec fn valid_verdict(details: Seq<Seq<char>>) -> JsonV {
    JsonV::Object(
        seq![
            ("valid"@, JsonV::Bool(true)),
            ("errors"@, JsonV::Array(Seq::empty())),
            ("details"@, JsonV::Array(str_values(details))),
        ],
    )
}

/// The verdict for a platform without an online check.
pub open spec fn unchecked_verdict() -> JsonV {
    JsonV::Object(
        seq![
            ("valid"@, JsonV::Bool(true)),
            ("warnings"@, JsonV::Array(seq![JsonV::Str("该平台暂不支持在线校验"@)])),
        ],
    )
}

/// What checking a platform's credentials takes: a verdict given at once, or
/// the request to send.
pub enum CredentialCheck {
    Verdict(Json),
    Discord { token: String, guild_id: String },
    Telegram { url: String },
    QQBot { app_id: String, body: Json },
    Feishu { app_id: String, url: String, body: Json },
}

/// The model of a `CredentialCheck`.
pub enum CheckV {
    Verdict(JsonV),
    Discord { token: Seq<char>, guild_id: Seq<char> },
    Telegram { url: Seq<char> },
    QQBot { app_id: Seq<char>, body: JsonV },
    Feishu { app_id: Seq<char>, url: Seq<char>, body: JsonV },
}

impl CredentialCheck {
    pub open spec fn view_check(self) -> CheckV {
        match self {
            CredentialCheck::Verdict(j) => CheckV::Verdict(j.deep()),
            CredentialCheck::Discord { token, guild_id } => CheckV::Discord {
                token: token@,
                guild_id: guild_id@,
            },
            CredentialCheck::Telegram { url } => CheckV::Telegram { url: url@ },
            CredentialCheck::QQBot { app_id, body } => CheckV::QQBot { app_id: app_id@, body: body.deep() },
            CredentialCheck::Feishu { app_id, url, body } => CheckV::Feishu {
                app_id: app_id@,
                url: url@,
                body: body.deep(),
            },
        }
    }
}

/// The first step of `verify_bot_token`: missing fields give an invalid verdict at
/// once; otherwise the platform's check request.
pub open spec fn credential_check_spec(platform: Seq<char>, form: JsonV) -> CheckV {
    if platform == "discord"@ {
        let token = form_text(form, "token"@);
        if token.len() == 0 {
            CheckV::Verdict(invalid_verdict("Bot Token 不能为空"@))
        } else {
            CheckV::Discord { token, guild_id: form_text(form, "guildId"@) }
        }
    } else if platform == "telegram"@ {
        let token = form_text(form, "botToken"@);
        if token.len() == 0 {
            CheckV::Verdict(invalid_verdict("Bot Token 不能为空"@))
        } else if form_text(form, "allowedUsers"@).len() == 0 {
            CheckV::Verdict(invalid_verdict("至少需要填写一个允许的用户 ID"@))
        } else {
            CheckV::Telegram { url: "https://api.telegram.org/bot"@ + token + "/getMe"@ }
        }
    } else if platform == "qqbot"@ {
        let id = form_text(form, "appId"@);
        let secret = form_text(form, "appSecret"@);
        if id.len() == 0 {
            CheckV::Verdict(invalid_verdict("AppID 不能为空"@))
        } else if secret.len() == 0 {
            CheckV::Verdict(invalid_verdict("AppSecret 不能为空"@))
        } else {
            CheckV::QQBot {
                app_id: id,
                body: JsonV::Object(seq![("appId"@, JsonV::Str(id)), ("clientSecret"@, JsonV::Str(secret))]),
            }
        }
    } else if platform == "feishu"@ {
        let id = form_text(form, "appId"@);
        let secret = form_text(form, "appSecret"@);
        if id.len() == 0 {
            CheckV::Verdict(invalid_verdict("App ID 不能为空"@))
        } else if secret.len() == 0 {
            CheckV::Verdict(invalid_verdict("App Secret 不能为空"@))
        } else {
            let base = if form_text(form, "domain"@) == "lark"@ {
                "https://open.larksuite.com"@
            } else {
                "https://open.feishu.cn"@
            };
            CheckV::Feishu {
                app_id: id,
                url: base + "/open-apis/auth/v3/tenant_access_token/internal"@,
                body: JsonV::Object(seq![("app_id"@, JsonV::Str(id)), ("app_secret"@, JsonV::Str(secret))]),
            }
        }
    } else {
        CheckV::Verdict(unchecked_verdict())
    }
}

fn invalid_verdict_exec(msg: &str) -> (r: Json)
    ensures
        r.deep() == invalid_verdict(msg@),
{
    let mut errs: Vec<Json> = Vec::new();
    proof {
        assert(elems_deep(errs@) =~= Seq::<JsonV>::empty());
    }
    push_elem(&mut errs, Json::text(msg));
    let mut o = empty_entries();
    push_entry(&mut o, "valid", Json::Bool(false));
    push_entry(&mut o, "errors", array(errs));
    proof {
        assert(elems_deep(errs@) =~= seq![JsonV::Str(msg@)]);
        assert(entries_deep(o@) =~= invalid_verdict(msg@)->Object_0);
    }
    object(o)
}

fn valid_verdict_exec(details: &Vec<String>) -> (r: Json)
    ensures
        r.deep() == valid_verdict(sviews(details@)),
{
    let mut ds: Vec<Json> = Vec::new();
    proof {
        assert(elems_deep(ds@) =~= Seq::<JsonV>::empty());
    }
    let n = details.len();
    for i in 0..n
        invariant
            n == details@.len(),
            elems_deep(ds@) == str_values(sviews(details@).take(i as int)),
    {
        push_elem(&mut ds, Json::text(details[i].as_str()));
        proof {
            assert(str_values(sviews(details@).take(i + 1)) =~= str_values(
                sviews(details@).take(i as int),
            ).push(JsonV::Str(details@[i as int]@)));
        }
    }
    proof {
        assert(sviews(details@).take(n as int) =~= sviews(details@));
    }
    let mut none: Vec<Json> = Vec::new();
    proof {
        assert(elems_deep(none@) =~= Seq::<JsonV>::empty());
    }
    let mut o = empty_entries();
    push_entry(&mut o, "valid", Json::Bool(true));
    push_entry(&mut o, "errors", array(none));
    push_entry(&mut o, "details", array(ds));
    proof {
        assert(entries_deep(o@) =~= valid_verdict(sviews(details@))->Object_0);
    }
    object(o)
}

fn pair_object(k1: &str, v1: &str, k2: &str, v2: &str) -> (r: Json)
    ensures
        r.deep() == JsonV::Object(seq![(k1@, JsonV::Str(v1@)), (k2@, JsonV::Str(v2@))]),
{
    let mut o = empty_entries();
    push_entry(&mut o, k1, Json::text(v1));
    push_entry(&mut o, k2, Json::text(v2));
    proof {
        assert(entries_deep(o@) =~= seq![(k1@, JsonV::Str(v1@)), (k2@, JsonV::Str(v2@))]);
    }
    object(o)
}

/// The first step of `verify_bot_token`; an error when the form is not an object.
pub fn credential_check(platform: &str, form: &Json) -> (r: Result<CredentialCheck, String>)
    ensures
        match r {
            Ok(c) => form.deep() is Object && c.view_check() == credential_check_spec(platform@, form.deep()),
            Err(e) => !(form.deep() is Object) && e@ == "表单数据格式错误"@,
        },
{
    let form_is_obj = match form {
        Json::Object(_) => true,
        _ => false,
    };
    if !form_is_obj {
        return Err(owned("表单数据格式错误"));
    }
    if str_eq(platform, "discord") {
        let token = form_text_exec(form, "token");
        if token.as_str().unicode_len() == 0 {
            return Ok(CredentialCheck::Verdict(invalid_verdict_exec("Bot Token 不能为空")));
        }
        let guild_id = form_text_exec(form, "guildId");
        Ok(CredentialCheck::Discord { token, guild_id })
    } else if str_eq(platform, "telegram") {
        let token = form_text_exec(form, "botToken");
        if token.as_str().unicode_len() == 0 {
            return Ok(CredentialCheck::Verdict(invalid_verdict_exec("Bot Token 不能为空")));
        }
        let allowed = form_text_exec(form, "allowedUsers");
        if allowed.as_str().unicode_len() == 0 {
            return Ok(CredentialCheck::Verdict(invalid_verdict_exec("至少需要填写一个允许的用户 ID")));
        }
        let mut url = owned("https://api.telegram.org/bot");
        url.append(token.as_str());
        url.append("/getMe");
        Ok(CredentialCheck::Telegram { url })
    } else if str_eq(platform, "qqbot") {
        let id = form_text_exec(form, "appId");
        let secret = form_text_exec(form, "appSecret");
        if id.as_str().unicode_len() == 0 {
            return Ok(CredentialCheck::Verdict(invalid_verdict_exec("AppID 不能为空")));
        }
        if secret.as_str().unicode_len() == 0 {
            return Ok(CredentialCheck::Verdict(invalid_verdict_exec("AppSecret 不能为空")));
        }
        let body = pair_object("appId", id.as_str(), "clientSecret", secret.as_str());
        Ok(CredentialCheck::QQBot { app_id: id, body })
    } else if str_eq(platform, "feishu") {
        let id = form_text_exec(form, "appId");
        let secret = form_text_exec(form, "appSecret");
        if id.as_str().unicode_len() == 0 {
            return Ok(CredentialCheck::Verdict(invalid_verdict_exec("App ID 不能为空")));
        }
        if secret.as_str().unicode_len() == 0 {
            return Ok(CredentialCheck::Verdict(invalid_verdict_exec("App Secret 不能为空")));
        }
        let domain = form_text_exec(form, "domain");
        let mut url = if str_eq(domain.as_str(), "lark") {
            owned("https://open.larksuite.com")
        } else {
            owned("https://open.feishu.cn")
        };
        url.append("/open-apis/auth/v3/tenant_access_token/internal");
        let body = pair_object("app_id", id.as_str(), "app_secret", secret.as_str());
        Ok(CredentialCheck::Feishu { app_id: id, url, body })
    } else {
        let mut warns: Vec<Json> = Vec::new();
        proof {
            assert(elems_deep(warns@) =~= Seq::<JsonV>::empty());
        }
        push_elem(&mut warns, Json::text("该平台暂不支持在线校验"));
        let mut o = empty_entries();
        push_entry(&mut o, "valid", Json::Bool(true));
        push_entry(&mut o, "warnings", array(warns));
        proof {
            assert(elems_deep(warns@) =~= seq![JsonV::Str("该平台暂不支持在线校验"@)]);
            assert(entries_deep(o@) =~= unchecked_verdict()->Object_0);
        }
        Ok(CredentialCheck::Verdict(object(o)))
    }
}

/// `a.unwrap_or(d)` for optional texts.
pub open spec fn or_text(a: Option<Seq<char>>, d: Seq<char>) -> Seq<char> {
    match a {
        Some(t) => t,
        None => d,
    }
}

pub open spec fn telegram_verdict_spec(body: JsonV) -> JsonV {
    if field_bool(body, "ok"@) == Some(true) {
        let name = or_text(crate::json::opt_str(opt_field(field(body, "result"@), "username"@)), "未知"@);
        valid_verdict(seq!["Bot: @"@ + name])
    } else {
        invalid_verdict(or_text(field_str(body, "description"@), "Token 无效"@))
    }
}

pub open spec fn qqbot_verdict_spec(body: JsonV, app_id: Seq<char>) -> JsonV {
    if field_str(body, "access_token"@) is Some {
        valid_verdict(seq!["AppID: "@ + app_id])
    } else {
        let msg = match field(body, "message"@) {
            Some(m) => as_str(m),
            None => field_str(body, "msg"@),
        };
        invalid_verdict(or_text(msg, "凭证无效，请检查 AppID 和 AppSecret"@))
    }
}

/// Feishu accepts when `code` is the integer 0.
pub open spec fn feishu_verdict_spec(body: JsonV, app_id: Seq<char>) -> JsonV {
    if field(body, "code"@) == Some(JsonV::Number("0"@)) {
        valid_verdict(seq!["App ID: "@ + app_id])
    } else {
        invalid_verdict(or_text(field_str(body, "msg"@), "凭证无效，请检查 App ID 和 App Secret"@))
    }
}

fn text_or<'a>(a: Option<&'a str>, d: &'a str) -> (r: &'a str)
    ensures
        r@ == or_text(
            match a {
                Some(t) => Some(t@),
                None => None,
            },
            d@,
        ),
{
    match a {
        Some(t) => t,
        None => d,
    }
}

fn one_detail(prefix: &str, v: &str) -> (r: Vec<String>)
    ensures
        sviews(r@) == seq![prefix@ + v@],
{
    let mut d = owned(prefix);
    d.append(v);
    let mut r: Vec<String> = Vec::new();
    r.push(d);
    proof {
        assert(sviews(r@) =~= seq![prefix@ + v@]);
    }
    r
}

/// The verdict on Telegram's `getMe` answer.
pub fn telegram_verdict(body: &Json) -> (r: Json)
    ensures
        r.deep() == telegram_verdict_spec(body.deep()),
{
    if body.get_bool("ok") == Some(true) {
        let name = match body.get("result") {
            Some(res) => res.get_str("username"),
            None => None,
        };
        let details = one_detail("Bot: @", text_or(name, "未知"));
        valid_verdict_exec(&details)
    } else {
        invalid_verdict_exec(text_or(body.get_str("description"), "Token 无效"))
    }
}

/// The verdict on QQ Bot's access-token answer.
pub fn qqbot_verdict(body: &Json, app_id: &str) -> (r: Json)
    ensures
        r.deep() == qqbot_verdict_spec(body.deep(), app_id@),
{
    if body.get_str("access_token").is_some() {
        let details = one_detail("AppID: ", app_id);
        valid_verdict_exec(&details)
    } else {
        let msg = match body.get("message") {
            Some(m) => m.as_str(),
            None => body.get_str("msg"),
        };
        invalid_verdict_exec(text_or(msg, "凭证无效，请检查 AppID 和 AppSecret"))
    }
}

/// The verdict on Feishu's tenant-token answer.
pub fn feishu_verdict(body: &Json, app_id: &str) -> (r: Json)
    ensures
        r.deep() == feishu_verdict_spec(body.deep(), app_id@),
{
    let zero = match body.get("code") {
        Some(Json::Number(n)) => str_eq(n.as_str(), "0"),
        _ => false,
    };
    if zero {
        let details = one_detail("App ID: ", app_id);
        valid_verdict_exec(&details)
    } else {
        invalid_verdict_exec(text_or(body.get_str("msg"), "凭证无效，请检查 App ID 和 App Secret"))
    }
}

/// Discord's answer about the bot: an invalid verdict, or the first detail line.
pub open spec fn discord_me_spec(status: u16, me: JsonV) -> Result<Seq<char>, JsonV> {
    if status == 401 {
        Err(invalid_verdict("Bot Token 无效，请检查后重试"@))
    } else if !(200 <= status && status < 300) {
        Err(invalid_verdict("Discord API 返回异常: "@ + status_text_spec(status)))
    } else if field_bool(me, "bot"@) != Some(true) {
        Err(invalid_verdict("提供的 Token 不属于 Bot 账号，请使用 Bot Token"@))
    } else {
        Ok("Bot: @"@ + or_text(field_str(me, "username"@), "未知"@))
    }
}

/// Judges Discord's `users/@me` answer (`me` is its body; read only on success).
pub fn discord_me_step(status: u16, me: &Json) -> (r: Result<String, Json>)
    requires
        100 <= status <= 999,
    ensures
        match r {
            Ok(d) => discord_me_spec(status, me.deep()) == Ok::<Seq<char>, JsonV>(d@),
            Err(v) => discord_me_spec(status, me.deep()) == Err::<Seq<char>, JsonV>(v.deep()),
        },
{
    if status == 401 {
        return Err(invalid_verdict_exec("Bot Token 无效，请检查后重试"));
    }
    if !(200 <= status && status < 300) {
        let mut m = owned("Discord API 返回异常: ");
        let st = status_text(status);
        m.append(st.as_str());
        return Err(invalid_verdict_exec(m.as_str()));
    }
    if me.get_bool("bot") != Some(true) {
        return Err(invalid_verdict_exec("提供的 Token 不属于 Bot 账号，请使用 Bot Token"));
    }
    let mut d = owned("Bot: @");
    d.append(text_or(me.get_str("username"), "未知"));
    Ok(d)
}

/// The final Discord verdict. Without a guild id it holds the bot line only;
/// with one, it depends on the guild request (`status` is `None` when that
/// request failed, `guild` is its body as JSON, null when unreadable).
pub open spec fn discord_guild_spec(
    bot_detail: Seq<char>,
    guild_id: Seq<char>,
    status: Option<u16>,
    guild: JsonV,
) -> JsonV {
    if guild_id.len() == 0 {
        valid_verdict(seq![bot_detail])
    } else {
        match status {
            Some(s) => if 200 <= s && s < 300 {
                valid_verdict(seq![bot_detail, "服务器: "@ + or_text(field_str(guild, "name"@), "?"@)])
            } else if s == 403 || s == 404 {
                invalid_verdict("无法访问服务器 "@ + guild_id + "，请确认 Bot 已加入该服务器"@)
            } else {
                valid_verdict(seq![bot_detail, "服务器 ID 未能验证（网络问题）"@])
            },
            None => valid_verdict(seq![bot_detail, "服务器 ID 未能验证（网络问题）"@]),
        }
    }
}

/// The final Discord verdict after the optional guild lookup.
pub fn discord_guild_step(bot_detail: String, guild_id: &str, status: Option<u16>, guild: &Json) -> (r: Json)
    ensures
        r.deep() == discord_guild_spec(bot_detail@, guild_id@, status, guild.deep()),
{
    let mut details: Vec<String> = Vec::new();
    let ghost bd = bot_detail@;
    details.push(bot_detail);
    if guild_id.unicode_len() == 0 {
        proof {
            assert(sviews(details@) =~= seq![bd]);
        }
        return valid_verdict_exec(&details);
    }
    let second = match status {
        Some(s) => {
            if 200 <= s && s < 300 {
                let mut d = owned("服务器: ");
                d.append(text_or(guild.get_str("name"), "?"));
                d
            } else if s == 403 || s == 404 {
                let mut m = owned("无法访问服务器 ");
                m.append(guild_id);
                m.append("，请确认 Bot 已加入该服务器");
                return invalid_verdict_exec(m.as_str());
            } else {
                owned("服务器 ID 未能验证（网络问题）")
            }
        },
        None => owned("服务器 ID 未能验证（网络问题）"),
    };
    let ghost sv = second@;
    details.push(second);
    proof {
        assert(sviews(details@) =~= seq![bd, sv]);
    }
    valid_verdict_exec(&details)
}


/// Law (read after write): after a successful save, the platform's channel entry
/// is the entry the form gives, and every other platform's entry is as before.
pub proof fn law_save_then_saved(cfg: JsonV, platform: Seq<char>, form: JsonV, other: Seq<char>)
    requires
        save_platform_spec(cfg, platform, form) is Ok,
        other != platform,
    ensures
        saved_platform(save_platform_spec(cfg, platform, form)->Ok_0, platform) == Some(
            platform_entry_spec(platform, form)->Ok_0,
        ),
        saved_platform(save_platform_spec(cfg, platform, form)->Ok_0, other) == saved_platform(
            cfg,
            other,
        ),
{
    reveal_strlit("channels");
    let es = cfg->Object_0;
    let ch = match field(cfg, "channels"@) {
        Some(c) => c,
        None => JsonV::Object(Seq::empty()),
    };
    let ces = ch->Object_0;
    let entry = platform_entry_spec(platform, form)->Ok_0;
    let newch = JsonV::Object(assoc_insert(ces, platform, entry));
    crate::json::lemma_field_assoc_insert(es, "channels"@, newch, "channels"@);
    crate::json::lemma_field_assoc_insert(ces, platform, entry, platform);
    crate::json::lemma_field_assoc_insert(ces, platform, entry, other);
    if field(cfg, "channels"@) is None {
        assert(field(JsonV::Object(Seq::<(Seq<char>, JsonV)>::empty()), other) is None);
    }
}

/// Law (QQ Bot round trip): reading back a saved QQ Bot form gives the trimmed
/// AppID and AppSecret, when the AppID holds no `:`.
pub proof fn law_qqbot_round_trip(cfg: JsonV, form: JsonV)
    requires
        save_platform_spec(cfg, "qqbot"@, form) is Ok,
        forall|j: int|
            0 <= j < form_text(form, "appId"@).len() ==> #[trigger] form_text(form, "appId"@)[j] != ':',
    ensures
        read_platform_spec(save_platform_spec(cfg, "qqbot"@, form)->Ok_0, "qqbot"@) == JsonV::Object(
            seq![
                ("exists"@, JsonV::Bool(true)),
                (
                    "values"@,
                    JsonV::Object(
                        seq![
                            ("appId"@, JsonV::Str(form_text(form, "appId"@))),
                            ("appSecret"@, JsonV::Str(form_text(form, "appSecret"@))),
                        ],
                    ),
                ),
            ],
        ),
{
    reveal_strlit("qqbot");
    reveal_strlit("discord");
    reveal_strlit("telegram");
    reveal_strlit("token");
    reveal_strlit("enabled");
    reveal_strlit(":");
    let id = form_text(form, "appId"@);
    let secret = form_text(form, "appSecret"@);
    assert("qqbot"@.len() != "discord"@.len());
    assert("qqbot"@.len() != "telegram"@.len());
    assert("qqbot"@ != "discord"@);
    assert("qqbot"@ != "telegram"@);
    law_save_then_saved(cfg, "qqbot"@, form, "discord"@);
    let entry = platform_entry_spec("qqbot"@, form)->Ok_0;
    let es = seq![("token"@, JsonV::Str(id + ":"@ + secret)), ("enabled"@, JsonV::Bool(true))];
    assert(entry == JsonV::Object(es));
    crate::json::lemma_key_pos_is(es, "token"@, 0);
    let t = id + ":"@ + secret;
    assert(field_str(entry, "token"@) == Some(t));
    assert forall|j: int| 0 <= j < id.len() implies t[j] != ':' by {
        assert(t[j] == id[j]);
    }
    crate::text::lemma_find_char_is(t, ':', id.len() as int);
    assert(t.take(id.len() as int) =~= id);
    assert(t.skip(id.len() as int + 1) =~= secret);
}

/// What reading back a saved Telegram form gives: the trimmed bot token (when
/// the form has one), and the allowed users, cleaned (split at `,`, trimmed,
/// empty ones dropped) and joined by ", ", when any is left.
pub open spec fn telegram_read_back(form: JsonV) -> Seq<(Seq<char>, JsonV)> {
    let users = match field_str(form, "allowedUsers"@) {
        Some(u) => user_list(u),
        None => Seq::empty(),
    };
    trimmed_entry(form, "botToken"@) + if users.len() > 0 {
        seq![("allowedUsers"@, JsonV::Str(join(users, ", "@)))]
    } else {
        Seq::empty()
    }
}

proof fn lemma_strs_of_values(ps: Seq<Seq<char>>)
    ensures
        strs_of(str_values(ps)) == ps,
    decreases ps.len(),
{
    if ps.len() > 0 {
        lemma_strs_of_values(ps.drop_last());
        assert(str_values(ps).drop_last() =~= str_values(ps.drop_last()));
        assert(ps.drop_last().push(ps.last()) =~= ps);
    } else {
        assert(str_values(ps) =~= Seq::<JsonV>::empty());
    }
}

/// Law (Telegram round trip): reading back a saved Telegram form gives the
/// trimmed bot token and the cleaned list of allowed users.
pub proof fn law_telegram_round_trip(cfg: JsonV, form: JsonV)
    requires
        save_platform_spec(cfg, "telegram"@, form) is Ok,
    ensures
        read_platform_spec(save_platform_spec(cfg, "telegram"@, form)->Ok_0, "telegram"@)
            == JsonV::Object(
            seq![
                ("exists"@, JsonV::Bool(true)),
                ("values"@, JsonV::Object(telegram_read_back(form))),
            ],
        ),
{
    reveal_strlit("telegram");
    reveal_strlit("discord");
    reveal_strlit("botToken");
    reveal_strlit("enabled");
    reveal_strlit("allowFrom");
    assert("telegram"@.len() != "discord"@.len());
    assert("botToken"@.len() != "enabled"@.len());
    assert("allowFrom"@.len() != "enabled"@.len());
    assert("allowFrom"@.len() != "botToken"@.len());
    law_save_then_saved(cfg, "telegram"@, form, "discord"@);
    let entry = telegram_entry(form);
    let users = match field_str(form, "allowedUsers"@) {
        Some(u) => user_list(u),
        None => Seq::empty(),
    };
    let tok = trimmed_entry(form, "botToken"@);
    let base = tok.push(("enabled"@, JsonV::Bool(true)));
    let es = if users.len() > 0 {
        base.push(("allowFrom"@, JsonV::Array(str_values(users))))
    } else {
        base
    };
    assert(entry == JsonV::Object(es));
    // the bot token
    match field_str(form, "botToken"@) {
        Some(t) => {
            crate::json::lemma_key_pos_is(es, "botToken"@, 0);
            assert(str_entry(entry, "botToken"@) == tok);
        },
        None => {
            crate::json::lemma_key_pos_none(es, "botToken"@);
            assert(str_entry(entry, "botToken"@) =~= tok);
        },
    }
    // the allowed users
    if users.len() > 0 {
        crate::json::lemma_key_pos_is(es, "allowFrom"@, es.len() - 1);
        lemma_strs_of_values(users);
        assert(field(entry, "allowFrom"@) == Some(JsonV::Array(str_values(users))));
        assert(telegram_form(entry) =~= telegram_read_back(form));
    } else {
        crate::json::lemma_key_pos_none(es, "allowFrom"@);
        assert(telegram_form(entry) =~= telegram_read_back(form));
    }
}

/// Law (Discord round trip): saving a form with a guild id and a channel id
/// other than `*` (both trimmed, neither empty) allows exactly that channel of
/// that guild, and reading the platform back gives the same guild id and
/// channel id.
pub proof fn law_discord_round_trip(cfg: JsonV, form: JsonV)
    requires
        save_platform_spec(cfg, "discord"@, form) is Ok,
        form_text(form, "guildId"@).len() > 0,
        form_text(form, "channelId"@).len() > 0,
        form_text(form, "channelId"@) != "*"@,
    ensures
        ({
            let saved = save_platform_spec(cfg, "discord"@, form)->Ok_0;
            let entry = saved_platform(saved, "discord"@)->0;
            let gid = form_text(form, "guildId"@);
            let cid = form_text(form, "channelId"@);
            let guild = field(field(entry, "guilds"@)->0, gid)->0;
            let read = read_platform_spec(saved, "discord"@);
            &&& saved_platform(saved, "discord"@) is Some
            &&& field(entry, "guilds"@) is Some
            &&& field(field(entry, "guilds"@)->0, gid) is Some
            &&& field(guild, "channels"@) matches Some(JsonV::Object(ces)) && ces.len() == 1
                && ces[0].0 == cid
            &&& field_bool(read, "exists"@) == Some(true)
            &&& field(read, "values"@) is Some
            &&& field_str(field(read, "values"@)->0, "guildId"@) == Some(gid)
            &&& field_str(field(read, "values"@)->0, "channelId"@) == Some(cid)
        }),
{
    reveal_strlit("discord");
    reveal_strlit("telegram");
    reveal_strlit("token");
    reveal_strlit("enabled");
    reveal_strlit("groupPolicy");
    reveal_strlit("dm");
    reveal_strlit("retry");
    reveal_strlit("guilds");
    reveal_strlit("users");
    reveal_strlit("requireMention");
    reveal_strlit("channels");
    reveal_strlit("guildId");
    reveal_strlit("channelId");
    reveal_strlit("exists");
    reveal_strlit("values");
    reveal_strlit("*");
    assert("discord"@.len() != "telegram"@.len());
    law_save_then_saved(cfg, "discord"@, form, "telegram"@);
    let saved = save_platform_spec(cfg, "discord"@, form)->Ok_0;
    let gid = form_text(form, "guildId"@);
    let cid = form_text(form, "channelId"@);
    let entry = discord_entry(form);
    assert(saved_platform(saved, "discord"@) == Some(entry));
    let tok = trimmed_entry(form, "token"@);
    let base = tok + seq![
        ("enabled"@, JsonV::Bool(true)),
        ("groupPolicy"@, JsonV::Str("allowlist"@)),
        ("dm"@, JsonV::Object(seq![("enabled"@, JsonV::Bool(false))])),
        ("retry"@, retry_policy()),
    ];
    let chans = JsonV::Object(
        seq![
            (
                cid,
                JsonV::Object(
                    seq![("allow"@, JsonV::Bool(true)), ("requireMention"@, JsonV::Bool(true))],
                ),
            ),
        ],
    );
    let gs = seq![("users"@, JsonV::Array(seq![JsonV::Str("*"@)])), ("requireMention"@, JsonV::Bool(true)), ("channels"@, chans)];
    let guilds = seq![(gid, JsonV::Object(gs))];
    let es = base.push(("guilds"@, JsonV::Object(guilds)));
    assert(entry == JsonV::Object(es));
    // `guilds` is the last member, and no other member has that name
    assert forall|j: int| 0 <= j < es.len() - 1 implies es[j].0 != "guilds"@ by {
        assert(es[j].0.len() != "guilds"@.len() || es[j].0 == "token"@ || es[j].0 == "retry"@);
        if es[j].0 == "token"@ {
            assert("token"@.len() != "guilds"@.len());
        }
        if es[j].0 == "retry"@ {
            assert("retry"@.len() != "guilds"@.len());
        }
    }
    crate::json::lemma_key_pos_is(es, "guilds"@, es.len() - 1);
    crate::json::lemma_key_pos_is(guilds, gid, 0);
    assert("users"@.len() != "channels"@.len());
    assert("requireMention"@.len() != "channels"@.len());
    crate::json::lemma_key_pos_is(gs, "channels"@, 2);
    assert(first_key_not(chans->Object_0, "*"@) == Some(cid));
    // the form read back
    let vs = discord_form(entry);
    assert(vs == tok.push(("guildId"@, JsonV::Str(gid))).push(("channelId"@, JsonV::Str(cid)))) by {
        match field_str(form, "token"@) {
            Some(t) => {
                crate::json::lemma_key_pos_is(es, "token"@, 0);
            },
            None => {
                assert forall|j: int| 0 <= j < es.len() implies es[j].0 != "token"@ by {
                    assert(es[j].0.len() != "token"@.len() || es[j].0 == "retry"@);
                    if es[j].0 == "retry"@ {
                        assert("retry"@[0] != "token"@[0]);
                    }
                }
                crate::json::lemma_key_pos_none(es, "token"@);
            },
        }
    }
    assert("token"@.len() != "guildId"@.len());
    assert("token"@.len() != "channelId"@.len());
    assert("guildId"@.len() != "channelId"@.len());
    crate::json::lemma_key_pos_is(vs, "guildId"@, vs.len() - 2);
    crate::json::lemma_key_pos_is(vs, "channelId"@, vs.len() - 1);
    assert(entry != JsonV::Null);
    let read = read_platform_spec(saved, "discord"@);
    assert(read == JsonV::Object(seq![("exists"@, JsonV::Bool(true)), ("values"@, JsonV::Object(vs))]));
    assert("exists"@[0] != "values"@[0]);
    crate::json::lemma_key_pos_is(read->Object_0, "exists"@, 0);
    crate::json::lemma_key_pos_is(read->Object_0, "values"@, 1);
}

/// Law: a removed platform reads back as not configured.
pub proof fn law_remove_then_absent(cfg: JsonV, platform: Seq<char>)
    ensures
        saved_platform(remove_platform_spec(cfg, platform), platform) is None,
        read_platform_spec(remove_platform_spec(cfg, platform), platform) == JsonV::Object(
            seq![("exists"@, JsonV::Bool(false))],
        ),
{
    let f = |c: JsonV| drop_member(c, platform);
    crate::json::lemma_field_of_update(cfg, "channels"@, f);
    match field(cfg, "channels"@) {
        Some(JsonV::Object(es)) => {
            crate::json::lemma_field_without_key(es, platform);
        },
        _ => {},
    }
}

/// Law: after a successful toggle, the platform's `enabled` flag is the one asked for.
pub proof fn law_toggle_sets_flag(cfg: JsonV, platform: Seq<char>, enabled: bool)
    requires
        toggle_platform_spec(cfg, platform, enabled) is Ok,
    ensures
        saved_platform(toggle_platform_spec(cfg, platform, enabled)->Ok_0, platform) matches Some(p)
            && field_bool(p, "enabled"@) == Some(enabled),
{
    let g = |p: JsonV| set_enabled(p, enabled);
    let f = |c: JsonV| update_field(c, platform, g);
    crate::json::lemma_field_of_update(cfg, "channels"@, f);
    let c = field(cfg, "channels"@)->0;
    crate::json::lemma_field_of_update(c, platform, g);
    let p = field(c, platform)->0;
    crate::json::lemma_field_assoc_insert(p->Object_0, "enabled"@, JsonV::Bool(enabled), "enabled"@);
}

} // verus!
