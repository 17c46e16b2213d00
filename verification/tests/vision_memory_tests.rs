use clawpanel::json::Json;
use clawpanel::memory::{
    agent_workspace, agents_cli_error, file_extension, is_memory_file, is_unsafe_path,
    lists_subdirectories, lookup_order, memory_location, memory_zip_name_at,
    MemoryDir,
};
use clawpanel::vision::patch_model_vision;

fn s(x: &str) -> Json {
    Json::Str(x.to_string())
}

fn o(v: Vec<(&str, Json)>) -> Json {
    Json::Object(v.into_iter().map(|(k, x)| (k.to_string(), x)).collect())
}

fn a(v: Vec<Json>) -> Json {
    Json::Array(v)
}

fn vision() -> Json {
    a(vec![s("text"), s("image")])
}

#[test]
fn vision_patch_adds_input_where_missing() {
    let cfg = o(vec![(
        "models",
        o(vec![(
            "providers",
            o(vec![
                (
                    "p",
                    o(vec![(
                        "models",
                        a(vec![
                            o(vec![("id", s("m1"))]),
                            o(vec![("id", s("m2")), ("input", a(vec![s("text")]))]),
                            s("bare"),
                        ]),
                    )]),
                ),
                ("q", s("not an object")),
            ]),
        )]),
    )]);
    let (out, changed) = patch_model_vision(cfg);
    assert!(changed);
    let expected = o(vec![(
        "models",
        o(vec![(
            "providers",
            o(vec![
                (
                    "p",
                    o(vec![(
                        "models",
                        a(vec![
                            o(vec![("id", s("m1")), ("input", vision())]),
                            o(vec![("id", s("m2")), ("input", a(vec![s("text")]))]),
                            s("bare"),
                        ]),
                    )]),
                ),
                ("q", s("not an object")),
            ]),
        )]),
    )]);
    assert_eq!(out, expected);
    let (again, changed2) = patch_model_vision(out);
    assert!(!changed2);
    assert_eq!(again, expected);
}

#[test]
fn vision_patch_without_models_changes_nothing() {
    let (out, changed) = patch_model_vision(o(vec![("gateway", o(vec![]))]));
    assert!(!changed);
    assert_eq!(out, o(vec![("gateway", o(vec![]))]));
}

#[test]
fn unsafe_paths() {
    assert!(is_unsafe_path("../etc/passwd"));
    assert!(is_unsafe_path("a/../b"));
    assert!(is_unsafe_path("/etc/passwd"));
    assert!(is_unsafe_path("\\server\\share"));
    assert!(is_unsafe_path("C:\\x"));
    assert!(is_unsafe_path("a\0b"));
    assert!(!is_unsafe_path("notes/2024.md"));
    assert!(!is_unsafe_path("a"));
    assert!(!is_unsafe_path(""));
    assert!(!is_unsafe_path("é:x"));
}

#[test]
fn workspace_lookup() {
    let agents = a(vec![
        o(vec![("id", s("main"))]),
        o(vec![("id", s("main")), ("workspace", s("/w/main"))]),
        o(vec![("id", s("coder")), ("workspace", s("/w/coder"))]),
    ]);
    assert_eq!(agent_workspace(&agents, "main"), Ok("/w/main".to_string()));
    assert_eq!(agent_workspace(&agents, "coder"), Ok("/w/coder".to_string()));
    assert_eq!(
        agent_workspace(&agents, "ghost"),
        Err("Agent「ghost」不存在或无 workspace".to_string())
    );
    assert_eq!(
        agent_workspace(&o(vec![]), "main"),
        Err("Agent「main」不存在或无 workspace".to_string())
    );
    assert_eq!(agents_cli_error(false, "denied"), "执行 openclaw 失败: denied");
    assert!(agents_cli_error(true, "").starts_with("OpenClaw CLI 未找到"));
}

#[test]
fn memory_places() {
    assert_eq!(memory_location("memory"), MemoryDir::Memory);
    assert_eq!(memory_location("archive"), MemoryDir::Archive);
    assert_eq!(memory_location("core"), MemoryDir::Core);
    assert_eq!(memory_location("other"), MemoryDir::Memory);
    assert_eq!(lookup_order(), vec![MemoryDir::Memory, MemoryDir::Archive, MemoryDir::Core]);
    assert!(lists_subdirectories("memory"));
    assert!(!lists_subdirectories("core"));
}

#[test]
fn extensions_follow_path_rules() {
    assert_eq!(file_extension("notes.md"), Some("md".to_string()));
    assert_eq!(file_extension("a.tar.gz"), Some("gz".to_string()));
    assert_eq!(file_extension(".md"), None);
    assert_eq!(file_extension("README"), None);
    assert_eq!(file_extension("trail."), Some("".to_string()));
    assert_eq!(file_extension(".."), None);
    assert!(is_memory_file("day.md"));
    assert!(is_memory_file("log.jsonl"));
    assert!(is_memory_file("x.json"));
    assert!(is_memory_file("y.txt"));
    assert!(!is_memory_file("pic.png"));
    assert!(!is_memory_file(".md"));
    assert!(!is_memory_file("MD"));
}

#[test]
fn export_names() {
    assert_eq!(
        memory_zip_name_at("memory", "20260102-030405"),
        "openclaw-memory-20260102-030405.zip"
    );
    assert_eq!(memory_zip_name_at("core", ""), "openclaw-core-.zip");
}
