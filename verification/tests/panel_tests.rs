use clawpanel::install::Platform;
use clawpanel::json::Json;
use clawpanel::panel::{
    asset_path, backups_dir, bom_len, check_env_file_path, config_after_load, config_recovery,
    inside_dir, BackupState, default_openclaw_config, init_answer,
    installation_status, int_error_text, join_path, last_touched_version, node_candidates,
    node_found, node_status_at, parse_uid, proxy_failure, proxy_report, proxy_target,
    release_http_failure, release_result, release_sources, release_transport_failure,
    start_update_check, tool_status, update_check_step, with_node_path, GuardianPause,
    UpdateAction, UpdateCheck, UpdateEvent,
};
use clawpanel::num::IntErrorKind;

fn s(x: &str) -> Json {
    Json::Str(x.to_string())
}

fn n(x: u64) -> Json {
    Json::Number(x.to_string())
}

fn o(v: Vec<(&str, Json)>) -> Json {
    Json::Object(v.into_iter().map(|(k, x)| (k.to_string(), x)).collect())
}

fn a(v: Vec<Json>) -> Json {
    Json::Array(v)
}

#[test]
fn paths_and_assets() {
    assert_eq!(join_path("/home/u/.openclaw", "backups"), "/home/u/.openclaw/backups");
    assert_eq!(join_path("/home/u/.openclaw/", "backups"), "/home/u/.openclaw/backups");
    assert_eq!(join_path("", "backups"), "backups");
    assert_eq!(backups_dir("/root/.openclaw"), "/root/.openclaw/backups");
    assert_eq!(asset_path("/"), "index.html");
    assert_eq!(asset_path(""), "index.html");
    assert_eq!(asset_path("/assets/app.js"), "assets/app.js");
    assert_eq!(asset_path("favicon.ico"), "favicon.ico");
    assert_eq!(GuardianPause::new("upgrade").reason, "upgrade");
}

#[test]
fn update_check_answers() {
    let srcs = release_sources();
    assert_eq!(srcs.len(), 2);
    assert_eq!(srcs[0].2, "github");
    assert_eq!(srcs[1].2, "gitee");
    let body = o(vec![("tag_name", s("vv0.9.1")), ("html_url", s("https://x/rel"))]);
    assert_eq!(
        release_result(&body, "https://fallback", "github"),
        Ok(o(vec![
            ("latest", s("0.9.1")),
            ("url", s("https://x/rel")),
            ("source", s("github")),
            ("downloadUrl", s("https://claw.qt.cool")),
        ]))
    );
    let body = o(vec![("tag_name", s("1.0.0"))]);
    assert_eq!(
        release_result(&body, "https://fallback", "gitee"),
        Ok(o(vec![
            ("latest", s("1.0.0")),
            ("url", s("https://fallback")),
            ("source", s("gitee")),
            ("downloadUrl", s("https://claw.qt.cool")),
        ]))
    );
    assert_eq!(
        release_result(&o(vec![("tag_name", s("v"))]), "u", "github"),
        Err("github: 未找到版本号".to_string())
    );
    assert_eq!(release_result(&o(vec![]), "u", "gitee"), Err("gitee: 未找到版本号".to_string()));
    assert_eq!(release_http_failure("github", 404), "github: HTTP 404 Not Found");
    assert_eq!(release_http_failure("gitee", 599), "gitee: HTTP 599 <unknown status code>");
    assert_eq!(release_transport_failure("gitee", "timed out"), "gitee: timed out");
}

#[test]
fn update_check_falls_back_to_gitee() {
    let (c, act) = start_update_check();
    assert_eq!(c, UpdateCheck { source: 0, last_error: String::new() });
    assert_eq!(
        act,
        UpdateAction::Fetch(
            "https://api.github.com/repos/qingchencloud/clawpanel/releases/latest".to_string()
        )
    );
    let (c, act) = update_check_step(c, UpdateEvent::Answered { status: 403, body: None });
    assert_eq!(c.source, 1);
    assert_eq!(c.last_error, "github: HTTP 403 Forbidden");
    assert_eq!(
        act,
        UpdateAction::Fetch(
            "https://gitee.com/api/v5/repos/QtCodeCreators/clawpanel/releases/latest".to_string()
        )
    );
    let body = o(vec![("tag_name", s("v0.9.2"))]);
    let (_, act) = update_check_step(c, UpdateEvent::Answered { status: 200, body: Some(body) });
    assert_eq!(
        act,
        UpdateAction::Finish(Ok(o(vec![
            ("latest", s("0.9.2")),
            ("url", s("https://gitee.com/QtCodeCreators/clawpanel/releases")),
            ("source", s("gitee")),
            ("downloadUrl", s("https://claw.qt.cool")),
        ])))
    );
}

#[test]
fn update_check_reports_last_failure() {
    let (c, _) = start_update_check();
    let (c, _) = update_check_step(c, UpdateEvent::Unreachable("timed out".to_string()));
    assert_eq!(c.last_error, "github: timed out");
    let (c, act) = update_check_step(c, UpdateEvent::Answered { status: 200, body: Some(o(vec![])) });
    assert_eq!(c.source, 1);
    assert_eq!(act, UpdateAction::Finish(Err("gitee: 未找到版本号".to_string())));
    let (c, _) = start_update_check();
    let (_, act) = update_check_step(c, UpdateEvent::Unreadable("EOF".to_string()));
    assert_eq!(act, UpdateAction::Finish(Err("解析响应失败: EOF".to_string())));
}

#[test]
fn proxy_test_answers() {
    assert_eq!(proxy_target(None), "https://registry.npmjs.org/-/ping");
    assert_eq!(proxy_target(Some("https://x".to_string())), "https://x");
    assert_eq!(
        proxy_report(200, 35, "http://p:1", "https://t"),
        o(vec![
            ("ok", Json::Bool(true)),
            ("status", n(200)),
            ("elapsed_ms", n(35)),
            ("proxy", s("http://p:1")),
            ("target", s("https://t")),
        ])
    );
    match proxy_report(502, 1, "p", "t") {
        Json::Object(es) => assert_eq!(es[0].1, Json::Bool(false)),
        other => panic!("{:?}", other),
    }
    assert_eq!(proxy_failure(12, "refused"), "代理连接失败 (12ms): refused");
}

#[test]
fn new_configuration() {
    assert_eq!(last_touched_version(None), "2026.1.1");
    assert_eq!(last_touched_version(Some("2026.3.13-zh.1".to_string())), "2026.3.13-zh.1");
    let cfg = default_openclaw_config("2026.1.1");
    let expected = o(vec![
        ("$schema", s("https://openclaw.ai/schema/config.json")),
        ("meta", o(vec![("lastTouchedVersion", s("2026.1.1"))])),
        ("models", o(vec![("providers", o(vec![]))])),
        (
            "gateway",
            o(vec![
                ("mode", s("local")),
                ("port", n(18789)),
                ("auth", o(vec![("mode", s("none"))])),
                (
                    "controlUi",
                    o(vec![("allowedOrigins", a(vec![s("*")])), ("allowInsecureAuth", Json::Bool(true))]),
                ),
            ]),
        ),
        (
            "tools",
            o(vec![("profile", s("full")), ("sessions", o(vec![("visibility", s("all"))]))]),
        ),
    ]);
    assert_eq!(cfg, expected);
    assert_eq!(
        init_answer(true),
        o(vec![("created", Json::Bool(true)), ("message", s("配置文件已创建"))])
    );
    assert_eq!(
        init_answer(false),
        o(vec![("created", Json::Bool(false)), ("message", s("配置文件已存在"))])
    );
    assert_eq!(
        installation_status(true, "/h/.openclaw"),
        o(vec![("installed", Json::Bool(true)), ("path", s("/h/.openclaw"))])
    );
}

#[test]
fn tool_checks() {
    assert_eq!(
        tool_status(Some("v20.1.0\n")),
        o(vec![("installed", Json::Bool(true)), ("version", s("v20.1.0"))])
    );
    assert_eq!(tool_status(None), o(vec![("installed", Json::Bool(false)), ("version", Json::Null)]));
    assert_eq!(
        node_status_at(Some("v18.0.0\n"), "/opt/node/bin"),
        o(vec![
            ("installed", Json::Bool(true)),
            ("version", s("v18.0.0")),
            ("path", s("/opt/node/bin")),
        ])
    );
    assert_eq!(node_status_at(None, "/x"), tool_status(None));
    assert_eq!(
        node_found("/usr/local/bin", " v22.0.0 "),
        o(vec![("path", s("/usr/local/bin")), ("version", s("v22.0.0"))])
    );
}

#[test]
fn node_search_places() {
    let unix = node_candidates(Platform::Linux, "/home/u", None, None, None, None);
    assert_eq!(
        unix,
        vec![
            "/usr/local/bin",
            "/opt/homebrew/bin",
            "/home/u/.nvm/current/bin",
            "/home/u/.volta/bin",
            "/home/u/.nodenv/shims",
            "/home/u/.fnm/current/bin",
            "/home/u/n/bin",
        ]
    );
    let win = node_candidates(Platform::Windows, "C:\\Users\\u", None, None, Some(""), Some("C:\\R"));
    assert_eq!(win.len(), 2 + 1 + 2 + 40);
    assert_eq!(win[0], "C:\\Program Files\\nodejs");
    assert_eq!(win[1], "C:\\Program Files (x86)\\nodejs");
    assert_eq!(win[2], "C:\\R\\npm");
    assert_eq!(win[3], "C:\\Users\\u\\.volta\\bin");
    assert_eq!(win[4], "C:\\Users\\u\\.nvm");
    assert_eq!(win[5], "C:\\nodejs");
    assert_eq!(win[44], "G:\\Tools\\nodejs");
    let win2 = node_candidates(Platform::Windows, "H", Some("P"), Some("Q"), Some("L"), None);
    assert_eq!(win2[0], "P\\nodejs");
    assert_eq!(win2[1], "Q\\nodejs");
    assert_eq!(win2[2], "L\\Programs\\nodejs");
    assert_eq!(win2.len(), 2 + 1 + 2 + 40);
}

#[test]
fn panel_settings_and_loading() {
    assert_eq!(
        with_node_path(Some(o(vec![("theme", s("dark")), ("nodePath", s("/old"))])), "/new"),
        o(vec![("theme", s("dark")), ("nodePath", s("/new"))])
    );
    assert_eq!(with_node_path(None, "/n"), o(vec![("nodePath", s("/n"))]));
    assert_eq!(with_node_path(Some(a(vec![])), "/n"), o(vec![("nodePath", s("/n"))]));
    let cfg = o(vec![(
        "models",
        o(vec![(
            "providers",
            o(vec![("p", o(vec![("models", a(vec![o(vec![("id", s("m")), ("latency", n(3))])]))]))]),
        )]),
    )]);
    let (clean, had) = config_after_load(cfg);
    assert!(had);
    assert_eq!(
        clean,
        o(vec![(
            "models",
            o(vec![(
                "providers",
                o(vec![("p", o(vec![("models", a(vec![o(vec![("id", s("m")), ("name", s("m"))])]))]))]),
            )]),
        )])
    );
    let (same, had2) = config_after_load(clean);
    assert!(!had2);
    assert!(matches!(same, Json::Object(_)));
    assert_eq!(bom_len(&[0xEF, 0xBB, 0xBF, b'{']), 3);
    assert_eq!(bom_len(b"{}"), 0);
    assert_eq!(bom_len(&[0xEF, 0xBB]), 0);
}

#[test]
fn uid_parsing() {
    assert_eq!(parse_uid("501\n"), Ok(501));
    assert_eq!(parse_uid(""), Err("解析 UID 失败: cannot parse integer from empty string".to_string()));
    assert_eq!(parse_uid("abc"), Err("解析 UID 失败: invalid digit found in string".to_string()));
    assert_eq!(
        parse_uid("99999999999"),
        Err("解析 UID 失败: number too large to fit in target type".to_string())
    );
    assert_eq!(int_error_text(IntErrorKind::Empty), "".parse::<u32>().unwrap_err().to_string());
    assert_eq!(int_error_text(IntErrorKind::InvalidDigit), "x".parse::<u32>().unwrap_err().to_string());
    assert_eq!(
        int_error_text(IntErrorKind::PosOverflow),
        "99999999999".parse::<u32>().unwrap_err().to_string()
    );
}

#[test]
fn env_file_must_stay_in_the_openclaw_dir() {
    let dir = "/home/u/.openclaw";
    assert_eq!(check_env_file_path(dir, "/home/u/.openclaw/.env"), Ok(()));
    assert_eq!(check_env_file_path(dir, "/home/u/.openclaw/agents/./x/.env"), Ok(()));
    assert_eq!(check_env_file_path(dir, "/home/u/.openclaw/a/../.env"), Ok(()));
    let refused = Err("只允许写入 ~/.openclaw/ 目录下的文件".to_string());
    assert_eq!(check_env_file_path(dir, "/home/u/.openclaw/../x"), refused);
    assert_eq!(check_env_file_path(dir, "/home/u/.openclaw2/.env"), refused);
    assert_eq!(check_env_file_path(dir, "/etc/.env"), refused);
    assert_eq!(check_env_file_path(dir, "home/u/.openclaw/.env"), refused);
    assert!(inside_dir("/home/u/.openclaw/", "/home/u//.openclaw/x"));
    assert!(!inside_dir("/a/b", "/a/b/../../a/c"));
}

#[test]
fn broken_config_falls_back_to_the_backup() {
    let good = o(vec![("a", n(1))]);
    let r = config_recovery(Ok(good), BackupState::Missing);
    assert_eq!(r, Ok((o(vec![("a", n(1))]), false)));
    let r = config_recovery(Err("bad".to_string()), BackupState::Valid(o(vec![("b", n(2))])));
    assert_eq!(r, Ok((o(vec![("b", n(2))]), true)));
    assert_eq!(
        config_recovery(Err("bad".to_string()), BackupState::Missing),
        Err("配置 JSON 损坏且无备份: bad".to_string())
    );
    assert_eq!(
        config_recovery(Err("bad".to_string()), BackupState::Unreadable("denied".to_string())),
        Err("备份也读取失败: denied".to_string())
    );
    assert_eq!(
        config_recovery(Err("bad".to_string()), BackupState::Invalid("eof".to_string())),
        Err("配置损坏且备份也无效: 原始=bad, 备份=eof".to_string())
    );
}
