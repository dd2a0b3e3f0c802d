use subtrace::requests::{
    parse_method, validate_headers, HttpMethod, MakeRequest, RequestBuildError,
};
use subtrace::template::{Info, Matcher, Template};

fn template_named(name: &str) -> Template {
    Template {
        id: String::from(name),
        info: Info { name: String::from(name), reference: None },
        requests: Vec::new(),
        settings: None,
    }
}

fn subdomains_matcher(filter: Option<&str>, words: Option<Vec<&str>>, value: Option<&str>)
    -> Matcher {
    Matcher {
        matcher_type: String::from("subdomains"),
        filter: filter.map(String::from),
        words: words.map(|ws| ws.into_iter().map(String::from).collect()),
        status: None,
        indice: None,
        value: value.map(String::from),
    }
}

#[test]
fn regex_filter_extracts_group_one() {
    let mut mr = MakeRequest::new();
    let matcher = subdomains_matcher(Some("regex"), None, Some("host: (\\S+)"));
    let body = "host: sub1.example.com\nhost: sub2.example.com";
    let tpl = template_named("regex-tpl");
    let out = mr.process_matchers(body, 200, &vec![matcher], &tpl);
    assert_eq!(out.hostnames, vec!["sub1.example.com", "sub2.example.com"]);
    assert!(out.diagnostic.is_none());
}

#[test]
fn regex_filter_with_invalid_pattern_yields_nothing() {
    let mut mr = MakeRequest::new();
    let matcher = subdomains_matcher(Some("regex"), None, Some("(unclosed"));
    let tpl = template_named("regex-tpl");
    let out = mr.process_matchers("anything", 200, &vec![matcher], &tpl);
    assert!(out.hostnames.is_empty());
    assert!(out.diagnostic.is_none());
}

#[test]
fn json_filter_extracts_and_truncates() {
    let mut mr = MakeRequest::new();
    let matcher = subdomains_matcher(Some("json"), Some(vec!["a"]), None);
    let body = "{\"a\":[\"x.example.com\",\"y.example.com\\njunk\"]}";
    let tpl = template_named("json-tpl");
    let out = mr.process_matchers(body, 200, &vec![matcher], &tpl);
    assert_eq!(out.hostnames, vec!["x.example.com", "y.example.com"]);
}

#[test]
fn json_filter_descends_nested_arrays() {
    let mut mr = MakeRequest::new();
    let matcher = subdomains_matcher(Some("json"), Some(vec!["data", "host"]), None);
    let body = "{\"data\":[{\"host\":\"a.example.com\"},{\"host\":\"b.example.com\"}]}";
    let tpl = template_named("json-tpl");
    let out = mr.process_matchers(body, 200, &vec![matcher], &tpl);
    assert_eq!(out.hostnames, vec!["a.example.com", "b.example.com"]);
}

#[test]
fn json_filter_dedups_extracted_values() {
    let mut mr = MakeRequest::new();
    let matcher = subdomains_matcher(Some("json"), Some(vec!["a"]), None);
    let body = "{\"a\":[\"dup.example.com\",\"dup.example.com\",\"one.example.com\"]}";
    let tpl = template_named("json-tpl");
    let out = mr.process_matchers(body, 200, &vec![matcher], &tpl);
    assert_eq!(out.hostnames, vec!["dup.example.com", "one.example.com"]);
}

#[test]
fn json_filter_reports_invalid_body() {
    let mut mr = MakeRequest::new();
    let matcher = subdomains_matcher(Some("json"), Some(vec!["a"]), None);
    let tpl = template_named("json-tpl");
    let out = mr.process_matchers("not json at all", 200, &vec![matcher], &tpl);
    // the invalid-JSON placeholder is surfaced in-band, as a
    // skipped-result marker among the extracted data
    assert_eq!(out.hostnames, vec!["json-tpl | Invalid JSON response"]);
    assert!(out.diagnostic.is_none());
}

#[test]
fn unknown_filter_yields_diagnostic() {
    let mut mr = MakeRequest::new();
    let matcher = subdomains_matcher(Some("xml"), None, None);
    let tpl = template_named("tpl");
    let out = mr.process_matchers("body", 200, &vec![matcher], &tpl);
    // an unknown filter kind extracts nothing; its diagnostic is handed
    // back for logging, apart from the extracted data
    assert!(out.hostnames.is_empty());
    assert_eq!(out.diagnostic.as_deref(), Some("tpl | Unsupported filter type"));
}

#[test]
fn missing_filter_yields_diagnostic() {
    let mut mr = MakeRequest::new();
    let matcher = subdomains_matcher(None, None, None);
    let tpl = template_named("tpl");
    let out = mr.process_matchers("body", 200, &vec![matcher], &tpl);
    assert!(out.hostnames.is_empty());
    assert_eq!(out.diagnostic.as_deref(), Some("tpl | No filter provided"));
}

fn status_then_subdomains() -> Vec<Matcher> {
    let status_matcher = Matcher {
        matcher_type: String::from("status"),
        filter: Some(String::from("json")),
        words: Some(vec![String::from("error")]),
        status: Some(vec![403u16, 429u16]),
        indice: None,
        value: None,
    };
    let sub_matcher = subdomains_matcher(Some("regex"), None, Some("(\\S+)"));
    vec![status_matcher, sub_matcher]
}

#[test]
fn status_matcher_short_circuits_when_it_fires() {
    let mut mr = MakeRequest::new();
    let tpl = template_named("both-tpl");
    // the status matcher fires on 403: its (error path) extraction is
    // still merged, and the subdomains matcher is suppressed
    let out = mr.process_matchers(
        "{\"error\":[\"limited.example.com\"]}",
        403,
        &status_then_subdomains(),
        &tpl,
    );
    assert_eq!(out.hostnames, vec!["limited.example.com"]);
    // on 200 the status matcher does not fire and stage two extracts
    let out2 = mr.process_matchers("w.example.com", 200, &status_then_subdomains(), &tpl);
    assert_eq!(out2.hostnames, vec!["w.example.com"]);
}

#[test]
fn outputs_are_normalized() {
    let mut mr = MakeRequest::new();
    let matcher = subdomains_matcher(Some("regex"), None, Some("name=(\\S+)"));
    let tpl = template_named("tpl");
    let out = mr.process_matchers("name=*.wild.example.com.", 200, &vec![matcher], &tpl);
    assert_eq!(out.hostnames, vec!["wild.example.com"]);
    for h in &out.hostnames {
        assert!(!h.starts_with("*."));
        assert!(!h.ends_with('.'));
    }
}

#[test]
fn remove_newline_keeps_first_line() {
    assert_eq!(MakeRequest::remove_newline("a\nb\nc"), "a");
    assert_eq!(MakeRequest::remove_newline("a\r\nb"), "a");
    assert_eq!(MakeRequest::remove_newline("solo"), "solo");
    // a carriage return is dropped only before a line break; a lone
    // trailing one stays
    assert_eq!(MakeRequest::remove_newline("tail\r"), "tail\r");
}

#[test]
fn only_get_and_post_are_dispatched() {
    assert_eq!(parse_method("GET"), Ok(HttpMethod::Get));
    assert_eq!(parse_method("POST"), Ok(HttpMethod::Post));
    assert_eq!(parse_method("DELETE"), Err(RequestBuildError::UnsupportedMethod));
    assert_eq!(parse_method("get"), Err(RequestBuildError::UnsupportedMethod));
}

#[test]
fn header_wire_legality_is_checked() {
    let good = vec![
        (String::from("X-Api-Key"), String::from("abc 123")),
        (String::from("accept"), String::from("*/*")),
    ];
    assert_eq!(validate_headers(&good), Ok(()));
    let bad_name = vec![(String::from("bad header"), String::from("v"))];
    assert_eq!(validate_headers(&bad_name), Err(RequestBuildError::Header));
    let bad_value = vec![(String::from("ok"), String::from("line\nbreak"))];
    assert_eq!(validate_headers(&bad_value), Err(RequestBuildError::Header));
}
