//! The URI rewriters on concrete inputs: appending query fragments,
//! replacing paths, and merging query overrides.

use tproxy_core::uri::{parse_uri, Uri};

fn uri(raw: &str) -> Uri {
    parse_uri(&raw.as_bytes().to_vec()).expect("well-formed uri")
}

fn rendered(u: &Uri) -> String {
    String::from_utf8(u.to_paq_bytes()).expect("ascii")
}

fn append(raw: &str, frag: Option<&str>) -> String {
    let mut u = uri(raw);
    let frag_bytes = frag.map(|f| f.as_bytes().to_vec());
    assert!(tproxy_core::uri::append_queries(&mut u, frag_bytes.as_ref()).is_ok());
    rendered(&u)
}

fn pairs(spec: &[(&str, &str)]) -> Vec<(Vec<u8>, Vec<u8>)> {
    spec.iter().map(|(k, v)| (k.as_bytes().to_vec(), v.as_bytes().to_vec())).collect()
}

fn replace_q(raw: &str, overrides: Option<&[(&str, &str)]>) -> String {
    let mut u = uri(raw);
    let ov = overrides.map(pairs);
    assert!(tproxy_core::uri::replace_queries(&mut u, ov.as_ref()).is_ok());
    rendered(&u)
}

fn replace_p(raw: &str, path: Option<&str>) -> String {
    let mut u = uri(raw);
    let p = path.map(|p| p.as_bytes().to_vec());
    assert!(tproxy_core::uri::replace_path(&mut u, p.as_ref()).is_ok());
    rendered(&u)
}

#[test]
fn test_append_queries() {
    assert_eq!(append("/", None), "/");
    assert_eq!(append("/", Some("")), "/");
    assert_eq!(append("/", Some("foo=bar")), "/?foo=bar");
    assert_eq!(append("/depot", Some("foo=bar")), "/depot?foo=bar");
    assert_eq!(append("/?os=linux", None), "/?os=linux");
    assert_eq!(append("/?os=linux", Some("")), "/?os=linux");
    assert_eq!(append("/?os=linux", Some("foo=bar")), "/?os=linux&foo=bar");
    assert_eq!(append("/depot?os=linux", Some("foo=bar")), "/depot?os=linux&foo=bar");
    assert_eq!(
        append("/depot?os=linux&foo=foo", Some("foo=bar")),
        "/depot?os=linux&foo=foo&foo=bar"
    );
    assert_eq!(
        append("/depot?os=linux&foo=foo", Some("foo=bar&os=windows")),
        "/depot?os=linux&foo=foo&foo=bar&os=windows"
    );
}

#[test]
fn test_replace_queries() {
    assert_eq!(replace_q("/", None), "/");
    assert_eq!(replace_q("/", Some(&[])), "/");
    assert_eq!(replace_q("/", Some(&[("foo", "bar")])), "/?foo=bar");
    assert_eq!(replace_q("/depot", Some(&[("foo", "bar")])), "/depot?foo=bar");
    assert_eq!(replace_q("/?os=linux", None), "/?os=linux");
    assert_eq!(replace_q("/?os=linux", Some(&[])), "/?os=linux");
    assert_eq!(replace_q("/?foo=foo", Some(&[("foo", "bar")])), "/?foo=bar");
    assert_eq!(replace_q("/?foo=foo&foo=foo2", Some(&[("foo", "bar")])), "/?foo=bar");
}

fn query_set(u: &str) -> Vec<(String, String)> {
    let q = u.split_once('?').map(|(_, q)| q).unwrap_or("");
    let mut out: Vec<(String, String)> = q
        .split('&')
        .filter(|p| !p.is_empty())
        .map(|p| {
            let (k, v) = p.split_once('=').unwrap_or((p, ""));
            (k.to_string(), v.to_string())
        })
        .collect();
    out.sort();
    out
}

#[test]
fn test_replace_queries_pro() {
    let a = replace_q("/?os=linux", Some(&[("foo", "bar")]));
    assert_eq!(query_set(&a), query_set("/?os=linux&foo=bar"));

    let b = replace_q("/?os=linux&foo=foo", Some(&[("foo", "bar")]));
    assert_eq!(query_set(&b), query_set("/?os=linux&foo=bar"));

    let c = replace_q("/?os=linux&foo=foo", Some(&[("foo", "bar"), ("os", "windows")]));
    assert_eq!(query_set(&c), query_set("/?foo=bar&os=windows"));
}

#[test]
fn test_replace_path() {
    assert_eq!(replace_p("/", None), "/");
    assert_eq!(replace_p("/", Some("")), "/");
    assert_eq!(replace_p("/depot?foo=bar", Some("")), "/?foo=bar");
    assert_eq!(replace_p("/?os=linux", None), "/?os=linux");
    assert_eq!(replace_p("/pull/1/depot?foo=bar", Some("/pull/2/depot")), "/pull/2/depot?foo=bar");
}

#[test]
fn replace_queries_idempotent_with_same_overrides() {
    let ov = pairs(&[("foo", "bar"), ("os", "windows")]);
    let mut once = uri("/a?os=linux&foo=foo&x=1");
    assert!(tproxy_core::uri::replace_queries(&mut once, Some(&ov)).is_ok());
    let mut twice = uri("/a?os=linux&foo=foo&x=1");
    assert!(tproxy_core::uri::replace_queries(&mut twice, Some(&ov)).is_ok());
    assert!(tproxy_core::uri::replace_queries(&mut twice, Some(&ov)).is_ok());
    assert_eq!(once.to_paq_bytes(), twice.to_paq_bytes());
}

#[test]
fn replace_queries_decodes_and_reencodes() {
    // A value with a space survives the decode/merge/encode cycle as `+`.
    let out = replace_q("/s?q=a+b", Some(&[("lang", "rust now")]));
    assert_eq!(out, "/s?q=a+b&lang=rust+now");
}

#[test]
fn replace_queries_rejects_malformed_existing_query() {
    let mut u = uri("/a?bad=%zz");
    let ov = pairs(&[("foo", "bar")]);
    let before = u.to_paq_bytes();
    assert!(tproxy_core::uri::replace_queries(&mut u, Some(&ov)).is_err());
    assert_eq!(u.to_paq_bytes(), before);
}

#[test]
fn append_queries_rejects_fragment_with_space() {
    let mut u = uri("/a?x=1");
    let frag = b"bad value".to_vec();
    let before = u.to_paq_bytes();
    assert!(tproxy_core::uri::append_queries(&mut u, Some(&frag)).is_err());
    assert_eq!(u.to_paq_bytes(), before);
}

#[test]
fn replace_path_rejects_path_without_leading_slash() {
    let mut u = uri("/a?x=1");
    let p = b"nope".to_vec();
    let before = u.to_paq_bytes();
    assert!(tproxy_core::uri::replace_path(&mut u, Some(&p)).is_err());
    assert_eq!(u.to_paq_bytes(), before);
}

#[test]
fn parse_uri_rejects_fragment_marker() {
    assert!(parse_uri(&b"/a#frag".to_vec()).is_err());
    assert!(parse_uri(&b"".to_vec()).is_err());
    assert!(parse_uri(&b"no-slash".to_vec()).is_err());
}
