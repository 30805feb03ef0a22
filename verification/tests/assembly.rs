use reqcraft::assemble::{assemble, AssembledRequest, UriParts};
use reqcraft::item::{Mode, ParsedToken, RequestItem};

fn item(token: &str) -> RequestItem {
    match RequestItem::from_token(token) {
        Ok(ParsedToken::Ready(it)) => it,
        other => panic!("expected a finished item for {:?}, got {:?}", token, other),
    }
}

fn bare_uri() -> UriParts {
    UriParts { scheme: None, authority: Some("example.org".to_string()), path_and_query: None }
}

fn build(mode: Mode, tokens: &[&str]) -> AssembledRequest {
    let items: Vec<RequestItem> = tokens.iter().map(|t| item(t)).collect();
    assemble("POST".to_string(), bare_uri(), mode, &items)
}

fn header_value<'a>(r: &'a AssembledRequest, name: &str) -> Option<&'a str> {
    for h in r.headers.iter() {
        if h.name == name {
            return Some(h.value.as_str());
        }
    }
    None
}

#[test]
fn uri_defaults() {
    let u = bare_uri().normalize();
    assert_eq!(u.scheme.as_deref(), Some("http"));
    assert_eq!(u.authority.as_deref(), Some("example.org"));
    assert_eq!(u.path_and_query.as_deref(), Some("/"));
}

#[test]
fn uri_existing_parts_pass_through() {
    let u = UriParts {
        scheme: Some("https".to_string()),
        authority: Some("example.org".to_string()),
        path_and_query: Some("/x?q=1".to_string()),
    };
    let n = u.normalize();
    assert_eq!(n.scheme.as_deref(), Some("https"));
    assert_eq!(n.path_and_query.as_deref(), Some("/x?q=1"));
}

#[test]
fn json_body_from_items() {
    let r = build(Mode::Json, &["name=John", "age:=30"]);
    assert_eq!(r.body, "{\"name\":\"John\",\"age\":30}");
    assert_eq!(header_value(&r, "content-type"), Some("application/json"));
    assert_eq!(header_value(&r, "content-length"), Some("24"));
}

#[test]
fn json_body_duplicate_key_last_write_wins() {
    let r = build(Mode::Json, &["a=1", "a:=2"]);
    assert_eq!(r.body, "{\"a\":2}");
    let r = build(Mode::Json, &["a=1", "b=2", "a:=3"]);
    assert_eq!(r.body, "{\"a\":3,\"b\":\"2\"}");
}

#[test]
fn json_body_escapes_strings() {
    let r = build(Mode::Json, &["say=a \"b\"\\c"]);
    assert_eq!(r.body, "{\"say\":\"a \\\"b\\\"\\\\c\"}");
}

#[test]
fn empty_body_adds_no_content_headers() {
    let r = build(Mode::Json, &["x-h:v", "q==s"]);
    assert_eq!(r.body, "");
    assert_eq!(header_value(&r, "content-type"), None);
    assert_eq!(header_value(&r, "content-length"), None);
    let r = build(Mode::Form, &[]);
    assert_eq!(r.body, "");
    assert_eq!(header_value(&r, "content-length"), None);
}

#[test]
fn form_body_percent_encodes() {
    let r = build(Mode::Form, &["name=John Doe"]);
    assert_eq!(r.body, "name=John%20Doe");
    assert_eq!(
        header_value(&r, "content-type"),
        Some("application/x-www-form-urlencoded")
    );
    assert_eq!(header_value(&r, "content-length"), Some("15"));
}

#[test]
fn form_body_keeps_duplicates_in_order() {
    let r = build(Mode::Form, &["a=1", "b=2", "a=3"]);
    assert_eq!(r.body, "a=1&b=2&a=3");
}

#[test]
fn form_body_serializes_json_items() {
    let r = build(Mode::Form, &["spec:={\"k\":\"v v\"}"]);
    assert_eq!(r.body, "spec=%7B%22k%22%3A%22v%20v%22%7D");
}

#[test]
fn default_headers_are_present() {
    let r = build(Mode::Json, &[]);
    assert_eq!(header_value(&r, "accept"), Some("*/*"));
    assert_eq!(header_value(&r, "user-agent"), Some("reqcraft/0.1.0"));
}

#[test]
fn user_accept_header_overrides_the_default() {
    let r = build(Mode::Json, &["accept:text/html"]);
    let accepts: Vec<&str> = r
        .headers
        .iter()
        .filter(|h| h.name == "accept")
        .map(|h| h.value.as_str())
        .collect();
    assert_eq!(accepts, vec!["text/html"]);
    assert_eq!(header_value(&r, "user-agent"), Some("reqcraft/0.1.0"));
}

#[test]
fn user_agent_header_overrides_the_default() {
    let r = build(Mode::Json, &["user-agent:custom/1.0"]);
    let agents: Vec<&str> = r
        .headers
        .iter()
        .filter(|h| h.name == "user-agent")
        .map(|h| h.value.as_str())
        .collect();
    assert_eq!(agents, vec!["custom/1.0"]);
    assert_eq!(header_value(&r, "accept"), Some("*/*"));
}

#[test]
fn header_items_are_applied_in_order() {
    let r = build(Mode::Json, &["x-b:2", "x-a:1", "x-b:3"]);
    let names: Vec<&str> = r.headers.iter().map(|h| h.name.as_str()).collect();
    assert_eq!(names, vec!["accept", "user-agent", "x-b", "x-a", "x-b"]);
}

#[test]
fn search_params_and_form_files_are_inert() {
    // Recognized and typed, but not folded into body or query yet.
    let r = build(Mode::Json, &["q==s", "avatar@./a.png"]);
    assert_eq!(r.body, "");
    let r = build(Mode::Form, &["q==s", "avatar@./a.png"]);
    assert_eq!(r.body, "");
}

#[test]
fn json_body_reparses_to_the_same_structure() {
    let r = build(Mode::Json, &["name=John", "age:=30", "tags:=[1,2,3]"]);
    let parsed = json::parse(&r.body).expect("body must be valid JSON");
    assert_eq!(parsed["name"], "John");
    assert_eq!(parsed["age"], 30);
    assert_eq!(parsed["tags"][2], 3);
    let reparsed = json::parse(&parsed.dump()).expect("dump must re-parse");
    assert_eq!(parsed, reparsed);
    assert_eq!(parsed.dump(), r.body);
}
