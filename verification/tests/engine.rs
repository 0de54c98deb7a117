//! Selector matching and action application on concrete exchanges.

use tproxy_core::apply::{apply_request_action, apply_response_action, ApplyError};
use tproxy_core::matcher::{select_request, select_response};
use tproxy_core::message::{Request, Response};
use tproxy_core::rule::{config_format, Actions, AppendAction, ConfigFormat, ReplaceAction, Selector, Target};
use tproxy_core::uri::parse_uri;

fn b(s: &str) -> Vec<u8> {
    s.as_bytes().to_vec()
}

fn pairs(spec: &[(&str, &str)]) -> Vec<(Vec<u8>, Vec<u8>)> {
    spec.iter().map(|(k, v)| (b(k), b(v))).collect()
}

fn request(raw_uri: &str, method: &str, headers: &[(&str, &str)]) -> Request {
    Request {
        uri: parse_uri(&b(raw_uri)).expect("well-formed uri"),
        method: b(method),
        headers: pairs(headers),
        body: Vec::new(),
    }
}

fn empty_selector() -> Selector {
    Selector::all_absent()
}

fn no_actions() -> Actions {
    Actions { abort: false, delay: None, append: None, replace: None }
}

#[test]
fn empty_selector_matches_any_request() {
    let req = request("/anything?x=1", "POST", &[("h", "v")]);
    assert!(select_request(80, &req, &empty_selector()));
    assert!(select_request(65535, &req, &empty_selector()));
}

#[test]
fn path_selector_is_a_prefix_test() {
    let req = request("/rs-tproxy/sub?x=1", "GET", &[]);
    let mut sel = empty_selector();
    sel.path = Some(b("/rs-tproxy"));
    assert!(select_request(80, &req, &sel));
    sel.path = Some(b("/rs-tproxy/sub"));
    assert!(select_request(80, &req, &sel));
    // The query string is not part of the comparison.
    sel.path = Some(b("/rs-tproxy/sub?x=1"));
    assert!(!select_request(80, &req, &sel));
    sel.path = Some(b("/other"));
    assert!(!select_request(80, &req, &sel));
}

#[test]
fn header_match_is_existential_over_occurrences() {
    let req = request("/", "GET", &[("x", "a"), ("x", "b")]);
    let mut sel = empty_selector();
    sel.headers = Some(pairs(&[("x", "b")]));
    assert!(select_request(80, &req, &sel));
    sel.headers = Some(pairs(&[("x", "c")]));
    assert!(!select_request(80, &req, &sel));
}

#[test]
fn port_and_method_selectors_are_exact() {
    let req = request("/", "GET", &[]);
    let mut sel = empty_selector();
    sel.port = Some(8080);
    sel.method = Some(b("GET"));
    assert!(select_request(8080, &req, &sel));
    assert!(!select_request(8081, &req, &sel));
    sel.method = Some(b("PUT"));
    assert!(!select_request(8080, &req, &sel));
}

#[test]
fn scenario_selector_with_delay_leaves_request_unchanged() {
    // Selector {path: "/rs-tproxy", method: GET, headers: {aname: avalue}},
    // Actions {delay: 1s}: the request matches and the apply returns it
    // unchanged; the pipeline owes the exchange the delay afterwards.
    let req = request("/rs-tproxy?x=1", "GET", &[("aname", "avalue")]);
    let mut sel = empty_selector();
    sel.path = Some(b("/rs-tproxy"));
    sel.method = Some(b("GET"));
    sel.headers = Some(pairs(&[("aname", "avalue")]));
    assert!(select_request(80, &req, &sel));

    let mut actions = no_actions();
    actions.delay = Some(1_000_000_000);
    let out = apply_request_action(req, &actions).expect("no abort");
    assert_eq!(out.uri.to_paq_bytes(), b("/rs-tproxy?x=1"));
    assert_eq!(out.method, b("GET"));
    assert_eq!(out.headers, pairs(&[("aname", "avalue")]));
    assert_eq!(actions.delay, Some(1_000_000_000));
}

#[test]
fn scenario_append_action_adds_query_fragment() {
    let req = request("/depot?os=linux", "GET", &[]);
    let mut actions = no_actions();
    actions.append = Some(AppendAction { queries: Some(b("foo=bar")), headers: None });
    let out = apply_request_action(req, &actions).expect("no abort");
    assert_eq!(out.uri.to_paq_bytes(), b("/depot?os=linux&foo=bar"));
}

#[test]
fn scenario_replace_action_overrides_query_key() {
    let req = request("/depot?os=linux&foo=foo", "GET", &[]);
    let mut actions = no_actions();
    actions.replace = Some(ReplaceAction {
        path: None,
        method: None,
        body: None,
        code: None,
        queries: Some(pairs(&[("foo", "bar")])),
        headers: None,
    });
    let out = apply_request_action(req, &actions).expect("no abort");
    assert_eq!(out.uri.to_paq_bytes(), b("/depot?os=linux&foo=bar"));
}

#[test]
fn scenario_replace_empty_path_normalizes_to_root() {
    let req = request("/depot?foo=bar", "GET", &[]);
    let mut actions = no_actions();
    actions.replace = Some(ReplaceAction {
        path: Some(Vec::new()),
        method: None,
        body: None,
        code: None,
        queries: None,
        headers: None,
    });
    let out = apply_request_action(req, &actions).expect("no abort");
    assert_eq!(out.uri.to_paq_bytes(), b("/?foo=bar"));
}

#[test]
fn scenario_code_selector_rejects_other_status() {
    let resp = Response { code: 200, headers: pairs(&[("server", "nginx")]), body: Vec::new() };
    let mut sel = empty_selector();
    sel.code = Some(404);
    let uri = parse_uri(&b("/")).unwrap();
    assert!(!select_response(80, &uri, &b("GET"), &Vec::new(), &resp, &sel));
    sel.code = Some(200);
    assert!(select_response(80, &uri, &b("GET"), &Vec::new(), &resp, &sel));
}

#[test]
fn scenario_abort_short_circuits_delay_and_append() {
    let req = request("/", "GET", &[]);
    let actions = Actions {
        abort: true,
        delay: Some(5_000_000_000),
        append: Some(AppendAction { queries: Some(b("foo=bar")), headers: None }),
        replace: None,
    };
    assert!(matches!(apply_request_action(req, &actions), Err(ApplyError::Abort)));

    let resp = Response { code: 200, headers: Vec::new(), body: Vec::new() };
    assert!(matches!(apply_response_action(resp, &actions), Err(ApplyError::Abort)));
}

#[test]
fn append_headers_adds_occurrences_without_overwriting() {
    let req = request("/", "GET", &[("x", "a")]);
    let mut actions = no_actions();
    actions.append = Some(AppendAction { queries: None, headers: Some(pairs(&[("x", "b")])) });
    let out = apply_request_action(req, &actions).expect("no abort");
    assert_eq!(out.headers, pairs(&[("x", "a"), ("x", "b")]));
}

#[test]
fn replace_headers_overwrites_all_occurrences() {
    let req = request("/", "GET", &[("x", "a"), ("y", "1"), ("x", "b")]);
    let mut actions = no_actions();
    actions.replace = Some(ReplaceAction {
        path: None,
        method: None,
        body: None,
        code: None,
        queries: None,
        headers: Some(pairs(&[("x", "z")])),
    });
    let out = apply_request_action(req, &actions).expect("no abort");
    assert_eq!(out.headers, pairs(&[("y", "1"), ("x", "z")]));
}

#[test]
fn replace_action_on_response_sets_code_body_headers() {
    let resp = Response { code: 200, headers: pairs(&[("server", "nginx")]), body: b("old") };
    let mut actions = no_actions();
    actions.replace = Some(ReplaceAction {
        path: None,
        method: None,
        body: Some(b("new")),
        code: Some(503),
        queries: None,
        headers: Some(pairs(&[("server", "other")])),
    });
    let out = apply_response_action(resp, &actions).expect("no abort");
    assert_eq!(out.code, 503);
    assert_eq!(out.body, b("new"));
    assert_eq!(out.headers, pairs(&[("server", "other")]));
}

#[test]
fn invalid_append_fragment_fails_the_apply() {
    let req = request("/", "GET", &[]);
    let mut actions = no_actions();
    actions.append = Some(AppendAction { queries: Some(b("bad fragment")), headers: None });
    assert!(matches!(apply_request_action(req, &actions), Err(ApplyError::InvalidUri)));
}

#[test]
fn request_method_and_body_replacement() {
    let req = request("/submit", "GET", &[]);
    let mut actions = no_actions();
    actions.replace = Some(ReplaceAction {
        path: None,
        method: Some(b("POST")),
        body: Some(b("payload")),
        code: None,
        queries: None,
        headers: None,
    });
    let out = apply_request_action(req, &actions).expect("no abort");
    assert_eq!(out.method, b("POST"));
    assert_eq!(out.body, b("payload"));
}

#[test]
fn response_selector_uses_request_context() {
    let resp = Response { code: 200, headers: Vec::new(), body: Vec::new() };
    let uri = parse_uri(&b("/rs-tproxy")).unwrap();
    let req_headers = pairs(&[("aname", "avalue")]);
    let mut sel = empty_selector();
    sel.path = Some(b("/rs-tproxy"));
    sel.method = Some(b("GET"));
    sel.headers = Some(pairs(&[("aname", "avalue")]));
    assert!(select_response(80, &uri, &b("GET"), &req_headers, &resp, &sel));
    assert!(!select_response(80, &uri, &b("PUT"), &req_headers, &resp, &sel));
}

#[test]
fn config_format_accepts_json_and_yaml_only() {
    assert_eq!(config_format(Some(&b("json"))), Some(ConfigFormat::Json));
    assert_eq!(config_format(Some(&b("yaml"))), Some(ConfigFormat::Yaml));
    assert_eq!(config_format(Some(&b("toml"))), None);
    assert_eq!(config_format(Some(&b("JSON"))), None);
    assert_eq!(config_format(None), None);
}

#[test]
fn rule_model_carries_target() {
    let rule = tproxy_core::rule::Rule {
        target: Target::Request,
        selector: empty_selector(),
        actions: no_actions(),
    };
    assert_eq!(rule.target, Target::Request);
    assert!(rule.target != Target::Response);
}
