use subtrace::manager::{is_template_file, TemplateManager};
use subtrace::secrets::{return_api, SecretStore};
use subtrace::template::{process_template_content, TemplateError};

fn store_with(entries: Vec<(&str, Option<&str>)>) -> SecretStore {
    let mut store = SecretStore::new();
    for (id, token) in entries {
        store.push(String::from(id), token.map(String::from));
    }
    store
}

const TEMPLATE: &str = "id: crtsh
info:
  name: crtsh-probe
  reference:
    - https://example.org/docs
settings:
  concatenate: false
requests:
  - method: GET
    path: https://api.test/q={{domain}}&key={{token}}
    headers:
      accept: application/json
    matchers:
      - type: subdomains
        filter: json
        words:
          - name_value
";

#[test]
fn template_loads_with_substitution_and_injection() {
    let store = store_with(vec![("crtsh", Some("tok-123"))]);
    let t = process_template_content(TEMPLATE, "example.com", &store).unwrap();
    assert_eq!(t.id, "crtsh");
    assert_eq!(t.info.name, "crtsh-probe");
    assert_eq!(t.info.reference.as_ref().unwrap()[0], "https://example.org/docs");
    assert_eq!(t.settings.as_ref().unwrap().concatenate, Some(false));
    assert_eq!(t.requests.len(), 1);
    let req = &t.requests[0];
    assert_eq!(req.method, "GET");
    assert_eq!(req.path, "https://api.test/q=example.com&key=tok-123");
    // the resolved domain is injected into every request entry
    assert_eq!(req.domain, "example.com");
    let headers = req.headers.as_ref().unwrap();
    assert_eq!(headers[0].0, "accept");
    assert_eq!(headers[0].1, "application/json");
    let matchers = req.matchers.as_ref().unwrap();
    assert_eq!(matchers[0].matcher_type, "subdomains");
    assert_eq!(matchers[0].filter.as_deref(), Some("json"));
    assert_eq!(matchers[0].words.as_ref().unwrap()[0], "name_value");
}

#[test]
fn absent_secret_resolves_to_empty_token() {
    let store = store_with(vec![]);
    let t = process_template_content(TEMPLATE, "example.com", &store).unwrap();
    assert_eq!(t.requests[0].path, "https://api.test/q=example.com&key=");
}

#[test]
fn malformed_document_is_a_parse_error() {
    let store = store_with(vec![]);
    let r = process_template_content("id: [unclosed", "example.com", &store);
    assert_eq!(r.err(), Some(TemplateError::Parse));
}

#[test]
fn missing_required_field_is_a_schema_error() {
    let store = store_with(vec![]);
    let no_id = "info:\n  name: x\nrequests: []\n";
    assert_eq!(
        process_template_content(no_id, "example.com", &store).err(),
        Some(TemplateError::Schema)
    );
    let no_requests = "id: x\ninfo:\n  name: x\n";
    assert_eq!(
        process_template_content(no_requests, "example.com", &store).err(),
        Some(TemplateError::Schema)
    );
}

#[test]
fn mistyped_field_is_a_schema_error() {
    let store = store_with(vec![]);
    let bad_status = "id: x
info:
  name: x
requests:
  - method: GET
    path: p
    matchers:
      - type: status
        status:
          - not-a-number
";
    assert_eq!(
        process_template_content(bad_status, "example.com", &store).err(),
        Some(TemplateError::Schema)
    );
}

#[test]
fn status_codes_load_as_numbers() {
    let store = store_with(vec![]);
    let with_status = "id: x
info:
  name: x
requests:
  - method: GET
    path: p
    matchers:
      - type: status
        filter: json
        status:
          - 403
          - 429
";
    let t = process_template_content(with_status, "example.com", &store).unwrap();
    let m = &t.requests[0].matchers.as_ref().unwrap()[0];
    assert_eq!(m.status.as_ref().unwrap(), &vec![403u16, 429u16]);
}

#[test]
fn store_builds_from_a_parsed_key_file() {
    let doc = subtrace::parse::parse_yaml_doc("virustotal: \"vt-key\"\nbroken: 5\n").unwrap();
    let store = subtrace::secrets::store_from_doc(&doc);
    assert_eq!(return_api(&store, "virustotal"), "vt-key");
    assert_eq!(return_api(&store, "broken"), "");
    assert_eq!(return_api(&store, "absent"), "");
}

#[test]
fn secret_lookup_matches_store_semantics() {
    let store = store_with(vec![
        ("virustotal", Some("vt-key")),
        ("shodan", Some("")),
        ("anubis", None),
    ]);
    assert_eq!(return_api(&store, "virustotal"), "vt-key");
    assert_eq!(return_api(&store, "shodan"), "");
    assert_eq!(return_api(&store, "anubis"), "");
    assert_eq!(return_api(&store, "absent"), "");
}

#[test]
fn manager_tracks_loaded_templates() {
    let store = store_with(vec![("crtsh", Some("t"))]);
    let mut manager = TemplateManager::new(String::from("example.com"));
    manager.set_threads(12);
    assert_eq!(manager.threads(), 12);
    assert_eq!(manager.domain().as_str(), "example.com");
    manager.load_template_content(TEMPLATE, &store).unwrap();
    assert_eq!(manager.template_count(), 1);
    assert_eq!(manager.template_ids(), vec![String::from("crtsh")]);
    assert_eq!(manager.template(0).id, "crtsh");
    assert!(manager.load_template_content("{bad", &store).is_err());
    assert_eq!(manager.template_count(), 1);
}

#[test]
fn template_file_names_are_filtered_by_extension() {
    assert!(is_template_file("probe.yaml"));
    assert!(is_template_file("probe.yml"));
    assert!(!is_template_file("probe.txt"));
    assert!(!is_template_file(".yaml"));
    assert!(!is_template_file("probe"));
}

#[test]
fn list_mode_loads_with_a_sentinel_domain() {
    let store = store_with(vec![]);
    let mut manager = TemplateManager::new(String::from("NULL"));
    manager.load_template_content(TEMPLATE, &store).unwrap();
    assert_eq!(manager.template_ids(), vec![String::from("crtsh")]);
}
