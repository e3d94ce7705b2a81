use url_validator::{ProbeFailure, ProbeOutcome, RedirectTrail, REQUEST_TIMEOUT_SECS};

#[test]
fn request_timeout_is_two_minutes() {
    assert_eq!(REQUEST_TIMEOUT_SECS, 120);
}

#[test]
fn trail_without_redirect_ends_at_requested_address() {
    let trail = RedirectTrail::start("https://a.example");
    assert_eq!(trail.final_url(), "https://a.example");
    match trail.conclude(Ok(())) {
        ProbeOutcome::Resolved(url) => assert_eq!(url, "https://a.example"),
        ProbeOutcome::Failed(cause) => panic!("unexpected failure {:?}", cause),
    }
}

#[test]
fn single_redirect_resolves_to_its_target() {
    let mut trail = RedirectTrail::start("https://a.example");
    let previous = trail.follow("https://b.example");
    assert_eq!(previous, "https://a.example");
    match trail.conclude(Ok(())) {
        ProbeOutcome::Resolved(url) => assert_eq!(url, "https://b.example"),
        ProbeOutcome::Failed(cause) => panic!("unexpected failure {:?}", cause),
    }
}

#[test]
fn only_the_last_redirect_target_is_kept() {
    let mut trail = RedirectTrail::start("http://a.example");
    assert_eq!(trail.follow("https://a.example"), "http://a.example");
    assert_eq!(trail.follow("https://www.a.example/"), "https://a.example");
    assert_eq!(trail.follow("https://www.a.example/home"), "https://www.a.example/");
    assert_eq!(trail.final_url(), "https://www.a.example/home");
}

#[test]
fn trace_follows_hops_in_order() {
    let hops = vec!["https://b.example".to_string(), "https://c.example/".to_string()];
    assert_eq!(RedirectTrail::trace("https://a.example", &hops).final_url(), "https://c.example/");
    assert_eq!(RedirectTrail::trace("https://a.example", &Vec::new()).final_url(), "https://a.example");
}

#[test]
fn failed_request_reports_its_cause_whatever_the_trail() {
    let mut trail = RedirectTrail::start("https://a.example");
    trail.follow("https://b.example");
    assert!(matches!(
        trail.conclude(Err(ProbeFailure::Timeout)),
        ProbeOutcome::Failed(ProbeFailure::Timeout)
    ));
    for cause in [
        ProbeFailure::Connect,
        ProbeFailure::Timeout,
        ProbeFailure::MalformedUrl,
        ProbeFailure::Other,
    ] {
        match RedirectTrail::start("x").conclude(Err(cause)) {
            ProbeOutcome::Failed(reported) => assert_eq!(reported, cause),
            ProbeOutcome::Resolved(url) => panic!("unexpected response from {}", url),
        }
    }
}
