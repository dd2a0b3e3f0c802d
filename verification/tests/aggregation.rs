use subtrace::results::{filter_by_domain, ResultSet};
use subtrace::retry::{AttemptOutcome, RetryDecision, RetryState};
use subtrace::zone::{TransferOutcome, ZoneTransferRun};

#[test]
fn duplicate_hostname_keeps_first_source() {
    let mut rs = ResultSet::new();
    assert!(rs.insert("zone-transfer", "a.example.com"));
    assert!(!rs.insert("probe", "a.example.com"));
    assert_eq!(rs.len(), 1);
    let (host, source) = rs.entry(0);
    assert_eq!(host, "a.example.com");
    assert_eq!(source, "zone-transfer");
    assert_eq!(rs.count_for_source("zone-transfer"), 1);
    assert_eq!(rs.count_for_source("probe"), 0);
}

#[test]
fn result_set_keeps_insertion_order() {
    let mut rs = ResultSet::new();
    rs.insert("s1", "a.example.com");
    rs.insert("s2", "b.example.com");
    rs.insert("s1", "c.example.com");
    assert_eq!(rs.len(), 3);
    assert_eq!(rs.entry(0).0, "a.example.com");
    assert_eq!(rs.entry(1).0, "b.example.com");
    assert_eq!(rs.entry(2).0, "c.example.com");
    assert_eq!(rs.count_for_source("s1"), 2);
    assert_eq!(rs.count_for_source("s2"), 1);
}

#[test]
fn batch_insert_reports_only_new_hostnames() {
    let mut rs = ResultSet::new();
    let zone = vec![String::from("a.example.com"), String::from("b.example.com")];
    let added = rs.insert_all("zone-transfer", &zone);
    assert_eq!(added, zone);
    let probe = vec![
        String::from("b.example.com"),
        String::from("c.example.com"),
        String::from("c.example.com"),
    ];
    let added2 = rs.insert_all("crtsh-probe", &probe);
    assert_eq!(added2, vec![String::from("c.example.com")]);
    assert_eq!(rs.len(), 3);
    assert_eq!(rs.entry(1).1, "zone-transfer");
    assert_eq!(rs.count_for_source("zone-transfer"), 2);
    assert_eq!(rs.count_for_source("crtsh-probe"), 1);
}

#[test]
fn repeated_timeouts_give_three_attempts_with_backoff() {
    let mut state = RetryState::new();
    let d1 = state.step(&AttemptOutcome::TimedOut);
    assert_eq!(d1, RetryDecision::RetryAfter(2));
    let d2 = state.step(&AttemptOutcome::TimedOut);
    assert_eq!(d2, RetryDecision::RetryAfter(4));
    let d3 = state.step(&AttemptOutcome::TimedOut);
    assert_eq!(d3, RetryDecision::GiveUp);
}

#[test]
fn non_success_status_is_terminal() {
    let mut state = RetryState::new();
    let d = state.step(&AttemptOutcome::Delivered { status: 404 });
    assert_eq!(d, RetryDecision::Reject);
}

#[test]
fn success_is_accepted_and_other_transport_errors_are_terminal() {
    let mut state = RetryState::new();
    assert_eq!(state.step(&AttemptOutcome::Delivered { status: 200 }), RetryDecision::Accept);
    let mut state2 = RetryState::new();
    assert_eq!(state2.step(&AttemptOutcome::Failed), RetryDecision::Reject);
}

#[test]
fn timeout_then_success_is_accepted() {
    let mut state = RetryState::new();
    assert_eq!(state.step(&AttemptOutcome::TimedOut), RetryDecision::RetryAfter(2));
    assert_eq!(state.step(&AttemptOutcome::Delivered { status: 204 }), RetryDecision::Accept);
}

#[test]
fn refused_transfer_contributes_no_findings() {
    let mut run = ZoneTransferRun::start(3);
    run.on_transfer_outcome(&TransferOutcome::Refused);
    assert!(run.findings().is_empty());
    run.on_transfer_outcome(
        &TransferOutcome::Records(vec![
            String::from("a.example.com."),
            String::from("b.example.com."),
        ]),
    );
    let expect = vec![String::from("a.example.com"), String::from("b.example.com")];
    assert_eq!(run.findings(), &expect);
    // a later refusal leaves the other nameservers' findings untouched
    run.on_transfer_outcome(&TransferOutcome::Refused);
    assert_eq!(run.findings(), &expect);
    assert!(run.done());
}

#[test]
fn zone_findings_are_deduplicated_across_nameservers() {
    let mut run = ZoneTransferRun::start(2);
    run.on_transfer_outcome(&TransferOutcome::Records(vec![String::from("x.example.com.")]));
    run.on_transfer_outcome(
        &TransferOutcome::Records(vec![
            String::from("x.example.com"),
            String::from("y.example.com"),
        ]),
    );
    let expect = vec![String::from("x.example.com"), String::from("y.example.com")];
    assert_eq!(run.findings(), &expect);
}

#[test]
fn failed_connection_contributes_no_findings() {
    let mut run = ZoneTransferRun::start(1);
    run.on_transfer_outcome(&TransferOutcome::Failed);
    assert!(run.findings().is_empty());
    assert!(run.done());
}

#[test]
fn domain_filter_keeps_related_candidates() {
    let subs = vec![
        String::from("sub.example.com"),
        String::from("unrelated.org"),
        String::from("deep.sub.example.com"),
    ];
    let kept = filter_by_domain(&subs, "example.com");
    assert_eq!(kept, vec!["sub.example.com", "deep.sub.example.com"]);
}
