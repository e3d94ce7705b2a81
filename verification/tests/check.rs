use url_validator::{check_url, CheckStep, ProbeFailure, ProbeOutcome, UrlCheck};

#[test]
fn first_successful_variation_wins() {
    let network = |candidate: &str| {
        if candidate == "https://dead.example" {
            ProbeOutcome::Resolved("https://dead.example".to_string())
        } else {
            ProbeOutcome::Failed(ProbeFailure::Connect)
        }
    };
    let checked = check_url("http://dead.example", &network);
    assert!(checked.is_valid);
    assert_eq!(checked.url, "https://dead.example");
}

#[test]
fn secure_bare_form_is_preferred_when_all_answer() {
    let network = |candidate: &str| ProbeOutcome::Resolved(candidate.to_string());
    let checked = check_url("http://www.example.com/a", &network);
    assert!(checked.is_valid);
    assert_eq!(checked.url, "https://example.com/a");
}

#[test]
fn resolved_address_may_differ_from_every_candidate() {
    let network = |candidate: &str| {
        if candidate == "http://www.shop.example" {
            ProbeOutcome::Resolved("https://store.example/welcome".to_string())
        } else {
            ProbeOutcome::Failed(ProbeFailure::Timeout)
        }
    };
    let checked = check_url("shop.example", &network);
    assert!(checked.is_valid);
    assert_eq!(checked.url, "https://store.example/welcome");
}

#[test]
fn total_exhaustion_yields_invalid_with_raw_address() {
    let network = |_: &str| ProbeOutcome::Failed(ProbeFailure::Connect);
    let checked = check_url("HTTP://Nowhere.example", &network);
    assert!(!checked.is_valid);
    assert_eq!(checked.url, "HTTP://Nowhere.example");
}

#[test]
fn raw_form_is_the_last_resort() {
    let network = |candidate: &str| {
        if candidate == "ftp.example.com" {
            ProbeOutcome::Resolved("ftp.example.com".to_string())
        } else {
            ProbeOutcome::Failed(ProbeFailure::MalformedUrl)
        }
    };
    let checked = check_url("ftp.example.com", &network);
    assert!(checked.is_valid);
    assert_eq!(checked.url, "ftp.example.com");
}

#[test]
fn candidates_are_probed_in_order_once_each_until_one_answers() {
    let asked = std::cell::RefCell::new(Vec::new());
    let network = |candidate: &str| {
        asked.borrow_mut().push(candidate.to_string());
        if candidate.starts_with("http://") {
            ProbeOutcome::Resolved(candidate.to_string())
        } else {
            ProbeOutcome::Failed(ProbeFailure::Other)
        }
    };
    let checked = check_url("example.com", &network);
    assert_eq!(checked.url, "http://example.com");
    assert_eq!(
        asked.into_inner(),
        vec!["https://example.com", "https://www.example.com", "http://example.com"]
    );
}

fn expect_probe(check: &UrlCheck, wanted: &str) {
    match check.step() {
        CheckStep::Probe(candidate) => assert_eq!(candidate, wanted),
        CheckStep::Done(checked) => panic!("check over early: {:?}", checked),
    }
}

#[test]
fn step_by_step_check_moves_on_after_each_failure() {
    let mut check = UrlCheck::begin("http://dead.example");
    expect_probe(&check, "https://dead.example");
    expect_probe(&check, "https://dead.example");
    check.record(ProbeOutcome::Failed(ProbeFailure::Timeout));
    expect_probe(&check, "https://www.dead.example");
    check.record(ProbeOutcome::Failed(ProbeFailure::Connect));
    expect_probe(&check, "http://dead.example");
    check.record(ProbeOutcome::Resolved("http://dead.example/".to_string()));
    match check.step() {
        CheckStep::Done(checked) => {
            assert!(checked.is_valid);
            assert_eq!(checked.url, "http://dead.example/");
        }
        CheckStep::Probe(candidate) => panic!("still probing {}", candidate),
    }
}

#[test]
fn step_by_step_check_ends_invalid_after_all_candidates_failed() {
    let mut check = UrlCheck::begin("dead.example");
    for wanted in [
        "https://dead.example",
        "https://www.dead.example",
        "http://dead.example",
        "http://www.dead.example",
        "dead.example",
    ] {
        expect_probe(&check, wanted);
        check.record(ProbeOutcome::Failed(ProbeFailure::Connect));
    }
    match check.step() {
        CheckStep::Done(checked) => {
            assert!(!checked.is_valid);
            assert_eq!(checked.url, "dead.example");
        }
        CheckStep::Probe(candidate) => panic!("still probing {}", candidate),
    }
}

#[test]
fn outcome_reported_after_the_end_changes_nothing() {
    let mut check = UrlCheck::begin("a.example");
    check.record(ProbeOutcome::Resolved("https://a.example/".to_string()));
    check.record(ProbeOutcome::Resolved("https://other.example/".to_string()));
    check.record(ProbeOutcome::Failed(ProbeFailure::Other));
    match check.step() {
        CheckStep::Done(checked) => {
            assert!(checked.is_valid);
            assert_eq!(checked.url, "https://a.example/");
        }
        CheckStep::Probe(candidate) => panic!("still probing {}", candidate),
    }
}
