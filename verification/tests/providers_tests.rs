use clawpanel::json::Json;
use clawpanel::providers::{
    extract_error_message, extract_reply, list_models_request, list_models_transport_error,
    model_ids, model_test_outcome, model_test_request, model_test_transport_error,
    normalize_base_url, normalize_base_url_for_api, normalize_model_api_type, remote_models_outcome,
    status_text,
};
use clawpanel::uifields::{has_ui_fields, strip_ui_fields};

fn s(x: &str) -> Json {
    Json::Str(x.to_string())
}

fn n(x: u64) -> Json {
    Json::Number(x.to_string())
}

fn o(v: Vec<(&str, Json)>) -> Json {
    Json::Object(v.into_iter().map(|(k, x)| (k.to_string(), x)).collect())
}

fn a(v: Vec<Json>) -> Json {
    Json::Array(v)
}

#[test]
fn base_urls_are_normalized() {
    assert_eq!(normalize_base_url("https://api.x.com/v1/chat/completions/"), "https://api.x.com/v1");
    assert_eq!(normalize_base_url("http://localhost:11434/api/chat"), "http://localhost:11434/v1");
    assert_eq!(normalize_base_url("http://localhost:11434"), "http://localhost:11434/v1");
    assert_eq!(normalize_base_url("https://x.com/v3///"), "https://x.com/v3");
    assert_eq!(normalize_base_url("https://x.com/api/models"), "https://x.com/api");
    assert_eq!(normalize_base_url(""), "");
    assert_eq!(normalize_model_api_type(" anthropic "), "anthropic-messages");
    assert_eq!(normalize_model_api_type("google-gemini"), "google-gemini");
    assert_eq!(normalize_model_api_type("openai-responses"), "openai-completions");
    assert_eq!(normalize_model_api_type("whatever"), "openai-completions");
    assert_eq!(normalize_base_url_for_api("https://api.anthropic.com", "anthropic"), "https://api.anthropic.com/v1");
    assert_eq!(normalize_base_url_for_api("https://api.anthropic.com/v1/messages", "anthropic"), "https://api.anthropic.com/v1");
    assert_eq!(normalize_base_url_for_api("https://ark.cn/api/v3", "openai"), "https://ark.cn/api/v3");
}

#[test]
fn status_texts_come_from_http() {
    assert_eq!(status_text(404), "404 Not Found");
    assert_eq!(status_text(200), "200 OK");
    assert_eq!(status_text(418), "418 I'm a teapot");
    assert_eq!(status_text(799), "799 <unknown status code>");
}

#[test]
fn error_messages_prefer_the_reply() {
    let body = Some(o(vec![("error", o(vec![("message", s("bad key"))]))]));
    assert_eq!(extract_error_message(&body, 401), "bad key");
    assert_eq!(extract_error_message(&Some(o(vec![("message", s("m"))])), 400), "m");
    assert_eq!(extract_error_message(&None, 502), "HTTP 502 Bad Gateway");
    assert_eq!(extract_error_message(&Some(n(1)), 500), "HTTP 500 Internal Server Error");
}

#[test]
fn model_test_replies_and_errors() {
    let openai = o(vec![(
        "choices",
        a(vec![o(vec![("message", o(vec![("content", s("Hello!"))]))])]),
    )]);
    assert_eq!(extract_reply(&openai), Some("Hello!".to_string()));
    assert_eq!(model_test_outcome(200, &Some(openai)), Ok("Hello!".to_string()));
    assert_eq!(model_test_outcome(200, &None), Ok("（模型已响应）".to_string()));
    assert_eq!(
        model_test_outcome(401, &Some(o(vec![("message", s("no"))]))),
        Err("no".to_string())
    );
    assert_eq!(
        model_test_outcome(400, &None),
        Ok("⚠ 连接正常（API 返回 400 Bad Request，部分模型对简单测试不兼容，不影响实际使用）".to_string())
    );
    assert_eq!(model_test_transport_error(true, false, "x"), "请求超时 (30s)");
    assert_eq!(model_test_transport_error(false, true, "refused"), "连接失败: refused");
    assert_eq!(model_test_transport_error(false, false, "tls"), "请求失败: tls");
    assert_eq!(
        list_models_transport_error(true, false, ""),
        "请求超时 (15s)，该服务商可能不支持模型列表接口"
    );
    assert_eq!(
        list_models_transport_error(false, true, "dns"),
        "连接失败，请检查接口地址是否正确: dns"
    );
}

#[test]
fn requests_per_api_family() {
    let r = model_test_request("https://api.x.com/v1", "k", "gpt", None);
    assert!(r.post);
    assert_eq!(r.url, "https://api.x.com/v1/chat/completions");
    assert_eq!(r.headers, vec![("Authorization".to_string(), "Bearer k".to_string())]);
    let r = model_test_request("https://api.anthropic.com/v1", "", "sonnet-4", Some("anthropic"));
    assert_eq!(r.url, "https://api.anthropic.com/v1/messages");
    assert_eq!(r.headers, vec![("anthropic-version".to_string(), "2023-06-01".to_string())]);
    let r = list_models_request("https://g.com/v1beta", "key", Some("google-gemini"));
    assert!(!r.post);
    assert_eq!(r.url, "https://g.com/v1beta/models?key=key");
    assert!(r.headers.is_empty());
    assert!(r.body.is_none());
}

#[test]
fn remote_model_lists() {
    let body = o(vec![("data", a(vec![o(vec![("id", s("b"))]), o(vec![("id", s("a"))])]))]);
    assert_eq!(model_ids(&body), vec!["b".to_string(), "a".to_string()]);
    assert_eq!(
        remote_models_outcome(200, &Some(body)),
        Ok(vec!["a".to_string(), "b".to_string()])
    );
    assert_eq!(
        remote_models_outcome(200, &Some(o(vec![]))),
        Err("该服务商返回了空的模型列表，可能不支持 /models 接口".to_string())
    );
    assert_eq!(
        remote_models_outcome(404, &None),
        Err("获取模型列表失败: HTTP 404 Not Found".to_string())
    );
}

#[test]
fn ui_fields_are_stripped() {
    let cfg = o(vec![(
        "models",
        o(vec![(
            "providers",
            o(vec![(
                "p",
                o(vec![(
                    "models",
                    a(vec![o(vec![
                        ("id", s("m")),
                        ("name", s("M")),
                        ("lastTestAt", n(1)),
                        ("testStatus", s("ok")),
                    ])]),
                )]),
            )]),
        )]),
    )]);
    assert!(has_ui_fields(&cfg));
    let clean = strip_ui_fields(cfg);
    assert!(!has_ui_fields(&clean));
    assert_eq!(
        clean,
        o(vec![(
            "models",
            o(vec![("providers", o(vec![("p", o(vec![("models", a(vec![o(vec![("id", s("m")), ("name", s("M"))])]))]))]))]),
        )])
    );
}

#[test]
fn normalized_url_is_cut_from_the_raw_one() {
    for raw in [
        "http://localhost:11434/api/chat/",
        "https://api.x.com/v1/chat/completions",
        "http://h:11434",
        "https://x/",
        "",
    ] {
        let r = normalize_base_url(raw);
        assert!(!r.ends_with(":11434"));
        assert!(!r.ends_with('/'));
        assert!(raw.starts_with(r.as_str()) || (r.ends_with(":11434/v1") && raw.starts_with(&r[..r.len() - 3])));
    }
    assert_eq!(normalize_base_url("http://localhost:11434/api/chat/"), "http://localhost:11434/v1");
}

#[test]
fn stripping_keeps_everything_else() {
    let cfg = o(vec![
        ("gateway", o(vec![("port", n(18789))])),
        (
            "models",
            o(vec![
                ("mode", s("merge")),
                (
                    "providers",
                    o(vec![(
                        "p",
                        o(vec![
                            ("baseUrl", s("u")),
                            (
                                "models",
                                Json::Array(vec![
                                    o(vec![("id", s("m1")), ("latency", n(5)), ("input", s("text"))]),
                                    o(vec![("id", s("m2")), ("name", s("Two")), ("testStatus", s("ok"))]),
                                    s("bare"),
                                ]),
                            ),
                        ]),
                    )]),
                ),
            ]),
        ),
    ]);
    let out = strip_ui_fields(cfg);
    let want = o(vec![
        ("gateway", o(vec![("port", n(18789))])),
        (
            "models",
            o(vec![
                ("mode", s("merge")),
                (
                    "providers",
                    o(vec![(
                        "p",
                        o(vec![
                            ("baseUrl", s("u")),
                            (
                                "models",
                                Json::Array(vec![
                                    o(vec![("id", s("m1")), ("input", s("text")), ("name", s("m1"))]),
                                    o(vec![("id", s("m2")), ("name", s("Two"))]),
                                    s("bare"),
                                ]),
                            ),
                        ]),
                    )]),
                ),
            ]),
        ),
    ]);
    assert_eq!(out, want);
    assert!(!has_ui_fields(&out));
}
