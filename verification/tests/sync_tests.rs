use clawpanel::json::Json;
use clawpanel::sync::{agent_ids, sync_agent_models};

fn s(x: &str) -> Json {
    Json::Str(x.to_string())
}

fn o(v: Vec<(&str, Json)>) -> Json {
    Json::Object(v.into_iter().map(|(k, x)| (k.to_string(), x)).collect())
}

fn a(v: Vec<Json>) -> Json {
    Json::Array(v)
}

fn config() -> Json {
    o(vec![
        (
            "models",
            o(vec![(
                "providers",
                o(vec![
                    (
                        "openai",
                        o(vec![
                            ("baseUrl", s("https://a")),
                            ("apiKey", s("k1")),
                            ("models", a(vec![o(vec![("id", s("gpt-4"))]), s("gpt-3")])),
                        ]),
                    ),
                    ("new", o(vec![("baseUrl", s("https://n")), ("models", a(vec![]))])),
                ]),
            )]),
        ),
        (
            "agents",
            o(vec![(
                "list",
                a(vec![
                    o(vec![("id", s("main"))]),
                    o(vec![("id", s("coder"))]),
                    o(vec![("name", s("x"))]),
                ]),
            )]),
        ),
    ])
}

#[test]
fn sync_removes_adds_and_updates_providers() {
    let registry = o(vec![(
        "providers",
        o(vec![
            (
                "openai",
                o(vec![
                    ("baseUrl", s("https://old")),
                    ("apiKey", s("k1")),
                    (
                        "models",
                        a(vec![
                            o(vec![("id", s("gpt-4"))]),
                            o(vec![("id", s("gone"))]),
                            s("gpt-3"),
                            o(vec![("name", s("noid"))]),
                        ]),
                    ),
                ]),
            ),
            ("removed", o(vec![("baseUrl", s("x"))])),
        ]),
    )]);
    let (out, changed) = sync_agent_models(&config(), registry);
    assert!(changed);
    let expected = o(vec![(
        "providers",
        o(vec![
            (
                "openai",
                o(vec![
                    ("baseUrl", s("https://a")),
                    ("apiKey", s("k1")),
                    ("models", a(vec![o(vec![("id", s("gpt-4"))]), s("gpt-3")])),
                ]),
            ),
            ("new", o(vec![("baseUrl", s("https://n")), ("models", a(vec![]))])),
        ]),
    )]);
    assert_eq!(out, expected);
    // A second synchronisation finds nothing to do.
    let (again, changed2) = sync_agent_models(&config(), out);
    assert!(!changed2);
    assert_eq!(again, expected);
}

#[test]
fn sync_gives_registry_a_providers_object() {
    let (out, changed) = sync_agent_models(&config(), o(vec![("providers", s("broken"))]));
    assert!(changed);
    match &out {
        Json::Object(es) => {
            assert_eq!(es.len(), 1);
            assert_eq!(es[0].0, "providers");
            match &es[0].1 {
                Json::Object(ps) => {
                    let names: Vec<&str> = ps.iter().map(|(k, _)| k.as_str()).collect();
                    assert_eq!(names, vec!["openai", "new"]);
                }
                other => panic!("providers is not an object: {:?}", other),
            }
        }
        other => panic!("not an object: {:?}", other),
    }
}

#[test]
fn sync_without_configured_providers_only_adds_empty_providers() {
    let cfg = o(vec![("models", o(vec![]))]);
    let (out, changed) = sync_agent_models(&cfg, o(vec![]));
    assert!(changed);
    assert_eq!(out, o(vec![("providers", o(vec![]))]));
    let (out2, changed2) = sync_agent_models(&cfg, out);
    assert!(!changed2);
    assert_eq!(out2, o(vec![("providers", o(vec![]))]));
}

#[test]
fn sync_leaves_a_registry_that_is_not_an_object() {
    let (out, changed) = sync_agent_models(&config(), a(vec![s("x")]));
    assert!(!changed);
    assert_eq!(out, a(vec![s("x")]));
}

#[test]
fn sync_drops_all_models_when_configured_provider_lists_none() {
    let cfg = o(vec![("models", o(vec![("providers", o(vec![("p", o(vec![("api", s("openai"))]))]))]))]);
    let registry = o(vec![("providers", o(vec![("p", o(vec![("models", a(vec![s("m1")]))]))]))]);
    let (out, changed) = sync_agent_models(&cfg, registry);
    assert!(changed);
    assert_eq!(
        out,
        o(vec![("providers", o(vec![("p", o(vec![("models", a(vec![])), ("api", s("openai"))]))]))])
    );
}

#[test]
fn agent_ids_lists_main_then_others() {
    assert_eq!(agent_ids(&config()), vec!["main".to_string(), "coder".to_string()]);
    assert_eq!(agent_ids(&o(vec![])), vec!["main".to_string()]);
}

#[test]
fn sync_flag_false_when_registry_already_in_step() {
    let registry = o(vec![(
        "providers",
        o(vec![
            (
                "openai",
                o(vec![
                    ("baseUrl", s("https://a")),
                    ("apiKey", s("k1")),
                    ("models", a(vec![o(vec![("id", s("gpt-4"))])])),
                ]),
            ),
            ("new", o(vec![("baseUrl", s("https://n")), ("models", a(vec![]))])),
        ]),
    )]);
    let (out, changed) = sync_agent_models(&config(), registry.duplicate());
    assert!(!changed);
    assert_eq!(out, registry);
    let stale = o(vec![(
        "providers",
        o(vec![
            (
                "openai",
                o(vec![
                    ("baseUrl", s("https://a")),
                    ("apiKey", s("k2")),
                    ("models", a(vec![o(vec![("id", s("gpt-4"))])])),
                ]),
            ),
            ("new", o(vec![("baseUrl", s("https://n")), ("models", a(vec![]))])),
        ]),
    )]);
    let (out, changed) = sync_agent_models(&config(), stale.duplicate());
    assert!(changed);
    assert_ne!(out, stale);
}
