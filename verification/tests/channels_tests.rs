use clawpanel::json::Json;
use clawpanel::messaging::{
    credential_check, discord_guild_step, discord_me_step, feishu_verdict, list_configured_platforms,
    qqbot_verdict, read_platform_config, remove_messaging_platform, save_messaging_platform,
    telegram_verdict, toggle_messaging_platform, CredentialCheck,
};
use clawpanel::pairing::{auto_pair_device, check_pairing_status, patch_gateway_origins};

fn s(x: &str) -> Json {
    Json::Str(x.to_string())
}

fn n(x: u64) -> Json {
    Json::Number(x.to_string())
}

fn o(v: Vec<(&str, Json)>) -> Json {
    Json::Object(v.into_iter().map(|(k, x)| (k.to_string(), x)).collect())
}

fn a(v: Vec<Json>) -> Json {
    Json::Array(v)
}

fn get<'a>(j: &'a Json, k: &str) -> Option<&'a Json> {
    match j {
        Json::Object(es) => es.iter().find(|(key, _)| key == k).map(|(_, v)| v),
        _ => None,
    }
}

#[test]
fn discord_save_then_read_back() {
    let form = o(vec![("token", s(" tok ")), ("guildId", s(" 42 ")), ("channelId", s(""))]);
    let cfg = save_messaging_platform(o(vec![]), "discord", &form).unwrap();
    let entry = get(get(&cfg, "channels").unwrap(), "discord").unwrap();
    assert_eq!(get(entry, "token"), Some(&s("tok")));
    assert_eq!(get(entry, "enabled"), Some(&Json::Bool(true)));
    assert_eq!(get(entry, "groupPolicy"), Some(&s("allowlist")));
    let guild = get(get(entry, "guilds").unwrap(), "42").unwrap();
    assert_eq!(get(guild, "users"), Some(&a(vec![s("*")])));
    let chan = get(get(guild, "channels").unwrap(), "*").unwrap();
    assert_eq!(chan, &o(vec![("allow", Json::Bool(true)), ("requireMention", Json::Bool(true))]));
    assert_eq!(
        read_platform_config(&cfg, "discord"),
        o(vec![("exists", Json::Bool(true)), ("values", o(vec![("token", s("tok")), ("guildId", s("42"))]))])
    );
}

#[test]
fn telegram_and_qqbot_round_trips() {
    let form = o(vec![("botToken", s("123:abc")), ("allowedUsers", s(" 1, ,2 "))]);
    let cfg = save_messaging_platform(o(vec![]), "telegram", &form).unwrap();
    let entry = get(get(&cfg, "channels").unwrap(), "telegram").unwrap();
    assert_eq!(get(entry, "allowFrom"), Some(&a(vec![s("1"), s("2")])));
    assert_eq!(
        read_platform_config(&cfg, "telegram"),
        o(vec![
            ("exists", Json::Bool(true)),
            ("values", o(vec![("botToken", s("123:abc")), ("allowedUsers", s("1, 2"))])),
        ])
    );
    let qq = o(vec![("appId", s("app")), ("appSecret", s("sec:ret"))]);
    let cfg = save_messaging_platform(cfg, "qqbot", &qq).unwrap();
    assert_eq!(
        get(get(&cfg, "channels").unwrap(), "qqbot"),
        Some(&o(vec![("token", s("app:sec:ret")), ("enabled", Json::Bool(true))]))
    );
    assert_eq!(
        read_platform_config(&cfg, "qqbot"),
        o(vec![
            ("exists", Json::Bool(true)),
            ("values", o(vec![("appId", s("app")), ("appSecret", s("sec:ret"))])),
        ])
    );
}

#[test]
fn save_errors() {
    assert_eq!(
        save_messaging_platform(o(vec![]), "qqbot", &o(vec![("appId", s("x"))])),
        Err("AppID 和 AppSecret 不能为空".to_string())
    );
    assert_eq!(
        save_messaging_platform(o(vec![]), "feishu", &o(vec![("appSecret", s("x"))])),
        Err("App ID 和 App Secret 不能为空".to_string())
    );
    assert_eq!(save_messaging_platform(a(vec![]), "x", &o(vec![])), Err("配置格式错误".to_string()));
    assert_eq!(
        save_messaging_platform(o(vec![("channels", s("bad"))]), "x", &o(vec![])),
        Err("channels 节点格式错误".to_string())
    );
    assert_eq!(
        save_messaging_platform(o(vec![]), "x", &s("form")),
        Err("表单数据格式错误".to_string())
    );
}

#[test]
fn feishu_and_generic_platforms() {
    let form = o(vec![("appId", s(" id ")), ("appSecret", s("sec")), ("domain", s("lark"))]);
    let cfg = save_messaging_platform(o(vec![]), "feishu", &form).unwrap();
    assert_eq!(
        get(get(&cfg, "channels").unwrap(), "feishu"),
        Some(&o(vec![
            ("appId", s("id")),
            ("appSecret", s("sec")),
            ("enabled", Json::Bool(true)),
            ("connectionMode", s("websocket")),
            ("domain", s("lark")),
        ]))
    );
    let cfg = save_messaging_platform(cfg, "slack", &o(vec![("hook", s("h")), ("n", n(3))])).unwrap();
    assert_eq!(
        get(get(&cfg, "channels").unwrap(), "slack"),
        Some(&o(vec![("hook", s("h")), ("n", n(3)), ("enabled", Json::Bool(true))]))
    );
    assert_eq!(
        read_platform_config(&cfg, "slack"),
        o(vec![("exists", Json::Bool(true)), ("values", o(vec![("hook", s("h"))]))])
    );
    assert_eq!(read_platform_config(&cfg, "none"), o(vec![("exists", Json::Bool(false))]));
}

#[test]
fn toggle_remove_and_list() {
    let cfg = o(vec![(
        "channels",
        o(vec![("discord", o(vec![("enabled", Json::Bool(true))])), ("x", o(vec![]))]),
    )]);
    let cfg = toggle_messaging_platform(cfg, "discord", false).unwrap();
    assert_eq!(
        list_configured_platforms(&cfg),
        a(vec![
            o(vec![("id", s("discord")), ("enabled", Json::Bool(false))]),
            o(vec![("id", s("x")), ("enabled", Json::Bool(true))]),
        ])
    );
    assert_eq!(
        toggle_messaging_platform(cfg, "telegram", true),
        Err("平台 telegram 未配置".to_string())
    );
    let cfg = o(vec![("channels", o(vec![("discord", o(vec![])), ("x", o(vec![]))]))]);
    let cfg = remove_messaging_platform(cfg, "discord");
    assert_eq!(cfg, o(vec![("channels", o(vec![("x", o(vec![]))]))]));
    assert_eq!(list_configured_platforms(&o(vec![])), a(vec![]));
}

#[test]
fn credential_checks() {
    match credential_check("telegram", &o(vec![("botToken", s("t")), ("allowedUsers", s("1"))])) {
        Ok(CredentialCheck::Telegram { url }) => assert_eq!(url, "https://api.telegram.org/bott/getMe"),
        _ => panic!("expected a Telegram request"),
    }
    match credential_check("telegram", &o(vec![("botToken", s("t"))])) {
        Ok(CredentialCheck::Verdict(v)) => assert_eq!(
            v,
            o(vec![("valid", Json::Bool(false)), ("errors", a(vec![s("至少需要填写一个允许的用户 ID")]))])
        ),
        _ => panic!("expected a verdict"),
    }
    match credential_check("other", &o(vec![])) {
        Ok(CredentialCheck::Verdict(v)) => assert_eq!(
            v,
            o(vec![("valid", Json::Bool(true)), ("warnings", a(vec![s("该平台暂不支持在线校验")]))])
        ),
        _ => panic!("expected a verdict"),
    }
    assert!(credential_check("discord", &s("x")).is_err());
    assert_eq!(
        telegram_verdict(&o(vec![("ok", Json::Bool(true)), ("result", o(vec![("username", s("bot"))]))])),
        o(vec![("valid", Json::Bool(true)), ("errors", a(vec![])), ("details", a(vec![s("Bot: @bot")]))])
    );
    assert_eq!(
        qqbot_verdict(&o(vec![("message", s("bad secret"))]), "a"),
        o(vec![("valid", Json::Bool(false)), ("errors", a(vec![s("bad secret")]))])
    );
    assert_eq!(
        feishu_verdict(&o(vec![("code", n(0))]), "cli_1"),
        o(vec![("valid", Json::Bool(true)), ("errors", a(vec![])), ("details", a(vec![s("App ID: cli_1")]))])
    );
    assert_eq!(
        feishu_verdict(&o(vec![("code", n(10003))]), "x"),
        o(vec![("valid", Json::Bool(false)), ("errors", a(vec![s("凭证无效，请检查 App ID 和 App Secret")]))])
    );
    assert_eq!(
        discord_me_step(500, &Json::Null),
        Err(o(vec![
            ("valid", Json::Bool(false)),
            ("errors", a(vec![s("Discord API 返回异常: 500 Internal Server Error")])),
        ]))
    );
    assert_eq!(
        discord_me_step(200, &o(vec![("bot", Json::Bool(true)), ("username", s("b"))])),
        Ok("Bot: @b".to_string())
    );
    assert_eq!(
        discord_guild_step("Bot: @b".to_string(), "9", Some(404), &Json::Null),
        o(vec![
            ("valid", Json::Bool(false)),
            ("errors", a(vec![s("无法访问服务器 9，请确认 Bot 已加入该服务器")])),
        ])
    );
    assert_eq!(
        discord_guild_step("Bot: @b".to_string(), "9", Some(200), &o(vec![("name", s("G"))])),
        o(vec![
            ("valid", Json::Bool(true)),
            ("errors", a(vec![])),
            ("details", a(vec![s("Bot: @b"), s("服务器: G")])),
        ])
    );
}

#[test]
fn pairing_writes_and_reads_back() {
    let key = o(vec![("deviceId", s("dev1"))]);
    assert_eq!(check_pairing_status(&key, None), Ok(false));
    let r = auto_pair_device(o(vec![]), "dev1", "pk", "linux", 1700000000000);
    assert!(r.write);
    assert_eq!(r.message, "设备配对成功");
    assert_eq!(check_pairing_status(&key, Some(&r.paired)), Ok(true));
    let rec = get(&r.paired, "dev1").unwrap();
    assert_eq!(get(rec, "platform"), Some(&s("linux")));
    assert_eq!(get(rec, "createdAtMs"), Some(&n(1700000000000)));
    let again = auto_pair_device(r.paired, "dev1", "pk", "linux", 5);
    assert!(!again.write);
    assert_eq!(again.message, "设备已配对");
    let moved = auto_pair_device(again.paired, "dev1", "pk", "macos", 5);
    assert!(moved.write);
    assert_eq!(moved.message, "设备已配对（已修正平台字段）");
    let rec = get(&moved.paired, "dev1").unwrap();
    assert_eq!(get(rec, "platform"), Some(&s("macos")));
    assert_eq!(get(rec, "deviceFamily"), Some(&s("desktop")));
    assert_eq!(check_pairing_status(&o(vec![]), None), Err("设备 ID 不存在".to_string()));
}

#[test]
fn origins_are_added_once() {
    let cfg = o(vec![(
        "gateway",
        o(vec![("controlUi", o(vec![("allowedOrigins", a(vec![s("https://mine"), s("tauri://localhost")]))]))]),
    )]);
    let patched = patch_gateway_origins(cfg);
    let expected = o(vec![(
        "gateway",
        o(vec![(
            "controlUi",
            o(vec![(
                "allowedOrigins",
                a(vec![
                    s("https://mine"),
                    s("tauri://localhost"),
                    s("https://tauri.localhost"),
                    s("http://tauri.localhost"),
                    s("http://localhost:1420"),
                    s("http://127.0.0.1:1420"),
                ]),
            )]),
        )]),
    )]);
    assert_eq!(patched, expected);
    assert_eq!(patch_gateway_origins(patched), expected);
    let fresh = patch_gateway_origins(o(vec![]));
    let origins = get(get(get(&fresh, "gateway").unwrap(), "controlUi").unwrap(), "allowedOrigins").unwrap();
    assert_eq!(origins, &a(vec![
        s("tauri://localhost"),
        s("https://tauri.localhost"),
        s("http://tauri.localhost"),
        s("http://localhost:1420"),
        s("http://127.0.0.1:1420"),
    ]));
}

#[test]
fn telegram_token_is_trimmed_and_empty_user_list_dropped() {
    let form = o(vec![("botToken", s("  9:xyz ")), ("allowedUsers", s(" , "))]);
    let cfg = save_messaging_platform(o(vec![]), "telegram", &form).unwrap();
    assert_eq!(
        read_platform_config(&cfg, "telegram"),
        o(vec![("exists", Json::Bool(true)), ("values", o(vec![("botToken", s("9:xyz"))]))])
    );
}
