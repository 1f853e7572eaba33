use std::sync::Mutex;

use oxid_relay::config::Config;
use oxid_relay::env::Env;
use oxid_relay::http::{HttpBody, HttpClient, HttpRequest, HttpResponse};
use oxid_relay::manifest::{default_entry, Manifest};
use oxid_relay::message::{Address, Mail, NewMail};
use oxid_relay::plugins::{plugin_dirs, usable_plugins, Platform};
use oxid_relay::script::{
    exec, form_request, get_request, mail_to_map, map_to_pairs, plugin_result, post_request,
    string_config_map, ScriptArg, ScriptValue,
};
use oxid_relay::table::TextMap;
use oxid_relay::time::Timestamp;

/// Records requests and returns scripted responses by URL substring.
struct MockHttp {
    rules: Vec<(String, u16, String)>,
    seen: Mutex<Vec<HttpRequest>>,
}

impl HttpClient for MockHttp {
    fn execute(&self, request: HttpRequest) -> Result<HttpResponse, String> {
        self.seen.lock().expect("lock").push(request.clone());
        for (needle, status, body) in &self.rules {
            if request.url.contains(needle) {
                return Ok(HttpResponse {
                    status: *status,
                    body: body.clone(),
                });
            }
        }
        Err(format!("no mock rule for {}", request.url))
    }
}

fn args(entries: &[(&str, &str)]) -> TextMap<ScriptArg> {
    let mut map = TextMap::new();
    for (key, value) in entries {
        map.insert(key.to_string(), ScriptArg::Text(value.to_string()));
    }
    map
}

fn text(map: &TextMap<ScriptValue>, key: &str) -> String {
    match map.get(key) {
        Some(ScriptValue::Text(text)) => text.clone(),
        other => panic!("expected a string under {key}, got {other:?}"),
    }
}

#[test]
fn http_post_records_request_and_returns_status() {
    let mock = MockHttp {
        rules: vec![("example.com".into(), 202, "ok".into())],
        seen: Mutex::new(vec![]),
    };
    let headers = args(&[("Content-Type", "application/json")]);
    let request = post_request("https://example.com/x", &headers, "{}").expect("request");
    let answer = exec(&mock, request).expect("answer");
    assert!(matches!(answer.get("status"), Some(ScriptValue::Number(202))));
    assert_eq!(text(&answer, "body"), "ok");

    let seen = mock.seen.lock().expect("lock");
    assert_eq!(seen.len(), 1);
    assert_eq!(seen[0].method, "POST");
    assert_eq!(seen[0].headers[0].0, "Content-Type");
    assert!(matches!(&seen[0].body, HttpBody::Text(body) if body == "{}"));
}

#[test]
fn client_errors_reach_the_script() {
    let mock = MockHttp { rules: vec![], seen: Mutex::new(vec![]) };
    let request = get_request("https://nowhere", &args(&[])).expect("request");
    assert_eq!(request.method, "GET");
    assert!(matches!(request.body, HttpBody::Empty));
    let err = exec(&mock, request).expect_err("no rule");
    assert_eq!(err, "http error: no mock rule for https://nowhere");
}

#[test]
fn methods_are_checked() {
    let mut request = get_request("u", &args(&[])).expect("request");
    assert!(request.check_method().is_ok());
    request.method = "PURGE".to_string();
    assert!(request.check_method().is_ok());
    request.method = "NOT VALID".to_string();
    assert_eq!(
        request.check_method().expect_err("space"),
        "invalid HTTP method: invalid HTTP method"
    );
    request.method = String::new();
    assert!(request.check_method().is_err());
}

#[test]
fn forms_and_headers_are_pairs_in_key_order() {
    let headers = args(&[("B", "2"), ("A", "1")]);
    let form = args(&[("scope", "s"), ("grant_type", "g")]);
    let request = form_request("u", &headers, &form).expect("request");
    assert_eq!(request.method, "POST");
    assert_eq!(
        request.headers,
        vec![("A".to_string(), "1".to_string()), ("B".to_string(), "2".to_string())]
    );
    match request.body {
        HttpBody::Form(pairs) => assert_eq!(pairs[0], ("grant_type".to_string(), "g".to_string())),
        other => panic!("expected a form, got {other:?}"),
    }
}

#[test]
fn values_must_be_strings() {
    let mut map = args(&[("a", "1"), ("c", "3")]);
    map.insert("d".to_string(), ScriptArg::Other("map".to_string()));
    map.insert("b".to_string(), ScriptArg::Other("i64".to_string()));
    let expected = "value for 'b' must be a string, got i64";
    assert_eq!(map_to_pairs(&map).expect_err("number"), expected);
    assert_eq!(get_request("u", &map).expect_err("headers"), expected);
    assert_eq!(post_request("u", &map, "b").expect_err("headers"), expected);
    assert_eq!(form_request("u", &args(&[]), &map).expect_err("form"), expected);
    let mut other = args(&[]);
    other.insert("x".to_string(), ScriptArg::Other("()".to_string()));
    assert_eq!(
        form_request("u", &other, &map).expect_err("headers first"),
        "value for 'x' must be a string, got ()"
    );
}

#[test]
fn mail_becomes_a_map() {
    let mail = Mail::from_new(
        NewMail {
            from: Address::new("relay@example.com".to_string()),
            to: vec![
                Address { email: "a@b.de".to_string(), name: Some("A".to_string()) },
                Address::new("c@d.de".to_string()),
            ],
            subject: "Status".into(),
            body: "Okay".into(),
            transport: Some("graph".into()),
        },
        Timestamp::from_unix(0, 0).expect("time"),
        1,
    );
    let map = mail_to_map(&mail);
    assert_eq!(map.len(), 4);
    assert_eq!(text(&map, "subject"), "Status");
    assert_eq!(text(&map, "body"), "Okay");
    match map.get("from") {
        Some(ScriptValue::Table(from)) => {
            assert_eq!(from.get("email").map(String::as_str), Some("relay@example.com"));
            assert!(!from.contains_key("name"));
        }
        other => panic!("expected a map, got {other:?}"),
    }
    match map.get("to") {
        Some(ScriptValue::Tables(to)) => {
            assert_eq!(to.len(), 2);
            assert_eq!(to[0].get("name").map(String::as_str), Some("A"));
            assert_eq!(to[1].get("email").map(String::as_str), Some("c@d.de"));
            assert!(!to[1].contains_key("name"));
        }
        other => panic!("expected a list, got {other:?}"),
    }
}

#[test]
fn script_outcomes_become_transport_errors() {
    assert!(plugin_result(Ok(Ok(()))).is_ok());
    assert_eq!(
        plugin_result(Ok(Err("401".to_string()))).expect_err("thrown").message(),
        "transport error: plugin send: 401"
    );
    assert_eq!(
        plugin_result(Err("panicked".to_string())).expect_err("task").message(),
        "transport error: plugin task failed: panicked"
    );
}

#[test]
fn settings_become_a_map_of_strings() {
    let mut settings = TextMap::new();
    settings.insert("topic".to_string(), "t".to_string());
    settings.insert("server".to_string(), "s".to_string());
    let map = string_config_map(&settings);
    assert_eq!(map.len(), 2);
    assert_eq!(map.key_at(0), "server");
    assert_eq!(text(&map, "topic"), "t");
}

#[test]
fn plugins_with_missing_secrets_are_skipped() {
    let mut config = Config::default();
    let mut graph = TextMap::new();
    graph.insert("client_secret_env".to_string(), "SECRET".to_string());
    config.plugins.insert("graph".to_string(), graph);
    let mut ntfy = TextMap::new();
    ntfy.insert("topic".to_string(), "t".to_string());
    config.plugins.insert("ntfy".to_string(), ntfy);
    let names = vec!["graph".to_string(), "ntfy".to_string(), "plain".to_string()];

    let usable = usable_plugins(&config, &names, &Env::new());
    assert_eq!(usable.iter().map(|p| p.index).collect::<Vec<_>>(), vec![1, 2]);
    assert_eq!(text(&usable[0].settings, "topic"), "t");
    assert_eq!(usable[1].settings.len(), 0);

    let mut env = Env::new();
    env.vars.insert("SECRET".to_string(), "s3cr3t".to_string());
    let usable = usable_plugins(&config, &names, &env);
    assert_eq!(usable.len(), 3);
    assert_eq!(text(&usable[0].settings, "client_secret"), "s3cr3t");
}

#[test]
fn plugin_directories_go_by_platform() {
    let none: Option<String> = None;
    let windows = |data: Option<&str>| Platform::Windows { program_data: data.map(String::from) };
    assert_eq!(plugin_dirs(&none, true, &Platform::Unix), vec![vec!["plugins"]]);
    assert_eq!(
        plugin_dirs(&none, false, &Platform::Unix),
        vec![vec!["/etc/oxid-relay/plugins"]]
    );
    assert_eq!(
        plugin_dirs(&none, false, &Platform::MacOs),
        vec![vec!["/Library/Application Support/OxidRelay/plugins"]]
    );
    assert_eq!(
        plugin_dirs(&none, false, &windows(None)),
        vec![vec!["C:\\ProgramData", "OxidRelay", "plugins"]]
    );
    assert_eq!(
        plugin_dirs(&none, false, &windows(Some("D:\\Data"))),
        vec![vec!["D:\\Data", "OxidRelay", "plugins"]]
    );
    let list = Some("a:b;c:".to_string());
    assert_eq!(
        plugin_dirs(&list, true, &Platform::Unix),
        vec![vec!["a"], vec!["b;c"], vec![""]]
    );
    assert_eq!(plugin_dirs(&list, false, &windows(None)), vec![vec!["a:b"], vec!["c:"]]);
}

#[test]
fn manifest_declares_capabilities() {
    let manifest = Manifest {
        name: "graph".to_string(),
        version: "0.1.0".to_string(),
        kind: "transport".to_string(),
        capabilities: vec!["send".to_string()],
        description: "Graph transport".to_string(),
        entry: default_entry(),
    };
    assert_eq!(manifest.entry, "script.rhai");
    assert!(manifest.has_capability("send"));
    assert!(!manifest.has_capability("receive"));
}
