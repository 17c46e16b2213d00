use clawpanel::backups::{
    backup_created, backup_listing, backup_missing, backup_name_at, check_backup_name,
    is_unsafe_backup_name, BackupFile,
};
use clawpanel::json::Json;
use clawpanel::skills::{
    clawhub_installed, failure_with_stderr, find_text, install_dep_command, install_dep_failure,
    install_dep_success, local_scan_result, local_skill_entry, parse_search_output,
    parse_skill_description, search_query,
};

fn s(x: &str) -> Json {
    Json::Str(x.to_string())
}

fn n(x: u64) -> Json {
    Json::Number(x.to_string())
}

fn o(v: Vec<(&str, Json)>) -> Json {
    Json::Object(v.into_iter().map(|(k, x)| (k.to_string(), x)).collect())
}

fn a(v: Vec<Json>) -> Json {
    Json::Array(v)
}

fn file(name: &str, size: u64, created_at: u64) -> BackupFile {
    BackupFile { name: name.to_string(), size, created_at }
}

#[test]
fn backup_names() {
    assert_eq!(backup_name_at("20260102-030405"), "openclaw-20260102-030405.json");
    assert!(is_unsafe_backup_name("../x.json"));
    assert!(is_unsafe_backup_name("a/b.json"));
    assert!(is_unsafe_backup_name("a\\b.json"));
    assert!(!is_unsafe_backup_name("openclaw-1.json"));
    assert_eq!(check_backup_name("../x"), Err("非法文件名".to_string()));
    assert_eq!(check_backup_name("ok.json"), Ok(()));
    assert_eq!(backup_missing("x.json"), "备份文件不存在: x.json");
}

#[test]
fn backups_listed_newest_first() {
    let files = vec![
        file("old.json", 10, 100),
        file("notes.txt", 1, 500),
        file("new.json", 20, 300),
        file("same-a.json", 5, 200),
        file("same-b.json", 6, 200),
        file(".json", 7, 900),
    ];
    let listing = backup_listing(files);
    let entry = |name: &str, size: u64, t: u64| {
        o(vec![("name", s(name)), ("size", n(size)), ("created_at", n(t))])
    };
    assert_eq!(
        listing,
        a(vec![
            entry("new.json", 20, 300),
            entry("same-a.json", 5, 200),
            entry("same-b.json", 6, 200),
            entry("old.json", 10, 100),
        ])
    );
    assert_eq!(backup_listing(vec![]), a(vec![]));
    assert_eq!(
        backup_created("b.json".to_string(), 42),
        o(vec![("name", s("b.json")), ("size", n(42))])
    );
}

#[test]
fn dependency_commands() {
    let (p, args) = install_dep_command("brew", &o(vec![("formula", s("jq"))])).unwrap();
    assert_eq!((p.as_str(), args), ("brew", vec!["install".to_string(), "jq".to_string()]));
    let (p, args) = install_dep_command("node", &o(vec![("package", s("pnpm"))])).unwrap();
    assert_eq!(p, "npm");
    assert_eq!(args, vec!["install", "-g", "pnpm"]);
    let (p, args) = install_dep_command("go", &o(vec![("module", s("x/y@latest"))])).unwrap();
    assert_eq!(p, "go");
    assert_eq!(args, vec!["install", "x/y@latest"]);
    let (p, args) = install_dep_command("uv", &o(vec![("package", s("ruff"))])).unwrap();
    assert_eq!(p, "uv");
    assert_eq!(args, vec!["tool", "install", "ruff"]);
    assert_eq!(install_dep_command("brew", &o(vec![])), Err("缺少 formula 参数".to_string()));
    assert_eq!(install_dep_command("node", &o(vec![])), Err("缺少 package 参数".to_string()));
    assert_eq!(install_dep_command("go", &o(vec![("module", n(1))])), Err("缺少 module 参数".to_string()));
    assert_eq!(install_dep_command("uv", &s("x")), Err("缺少 package 参数".to_string()));
    assert_eq!(install_dep_command("apt", &o(vec![])), Err("不支持的安装类型: apt".to_string()));
    assert_eq!(
        install_dep_failure("brew", "exit status: 1", "  no formula\n"),
        "安装失败 (brew exit status: 1): no formula"
    );
    assert_eq!(
        install_dep_success(" done \n"),
        o(vec![("success", Json::Bool(true)), ("output", s("done"))])
    );
    assert_eq!(
        clawhub_installed("weather", "ok\n"),
        o(vec![("success", Json::Bool(true)), ("slug", s("weather")), ("output", s("ok"))])
    );
    assert_eq!(failure_with_stderr("搜索失败: ", " bad \n"), "搜索失败: bad");
}

#[test]
fn search_output_is_read_line_by_line() {
    assert_eq!(search_query("  "), None);
    assert_eq!(search_query(" weather "), Some("weather".to_string()));
    let out = "Searching ClawHub...\n------\nweather  Get the forecast\r\n\n  calc\nSearch done\n";
    let item = |slug: &str, desc: &str| {
        o(vec![("slug", s(slug)), ("description", s(desc)), ("source", s("clawhub"))])
    };
    assert_eq!(
        parse_search_output(out),
        a(vec![item("weather", "Get the forecast"), item("calc", "")])
    );
    assert_eq!(parse_search_output(""), a(vec![]));
}

#[test]
fn skill_descriptions_from_front_matter() {
    let md = "---\nname: weather\ndescription: \"Get the forecast\"\n---\n# Weather\n";
    assert_eq!(parse_skill_description(md), "Get the forecast");
    assert_eq!(parse_skill_description("---\n  description:  'quoted' \n---"), "quoted");
    assert_eq!(parse_skill_description("# no front matter\ndescription: x"), "");
    assert_eq!(parse_skill_description("---\ndescription: never closed\n"), "");
    assert_eq!(parse_skill_description("---\nname: x\n---\ndescription: after\n"), "");
    assert_eq!(find_text("ab---c", "---"), Some(2));
    assert_eq!(find_text("abc", "---"), None);
    assert_eq!(
        local_skill_entry("w", "d", "/s/w/SKILL.md"),
        o(vec![
            ("name", s("w")),
            ("description", s("d")),
            ("source", s("managed")),
            ("eligible", Json::Bool(true)),
            ("bundled", Json::Bool(false)),
            ("filePath", s("/s/w/SKILL.md")),
        ])
    );
    assert_eq!(
        local_scan_result(vec![]),
        o(vec![("skills", a(vec![])), ("source", s("local-scan")), ("cliAvailable", Json::Bool(false))])
    );
}
