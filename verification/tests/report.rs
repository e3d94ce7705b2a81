use url_validator::{aggregate, render_report, CheckedUrl, UnitOutcome, UrlSet, ValidationReport};

fn completed(is_valid: bool, url: &str) -> UnitOutcome {
    UnitOutcome::Completed(CheckedUrl { is_valid, url: url.to_string() })
}

fn strings(items: &[&str]) -> Vec<String> {
    items.iter().map(|item| item.to_string()).collect()
}

fn sorted(mut items: Vec<String>) -> Vec<String> {
    items.sort();
    items
}

#[test]
fn empty_report_text() {
    assert_eq!(ValidationReport::new().render(), "valid urls:\n\n\ninvalid urls:\n");
    assert_eq!(render_report(&Vec::new(), &Vec::new()), "valid urls:\n\n\ninvalid urls:\n");
}

#[test]
fn report_text_has_the_exact_format() {
    let text = render_report(
        &strings(&["https://b.example", "https://a.example"]),
        &strings(&["dead.example"]),
    );
    assert_eq!(
        text,
        "valid urls:\nhttps://a.example\nhttps://b.example\n\ninvalid urls:\ndead.example"
    );
}

#[test]
fn sections_are_sorted_and_free_of_duplicates() {
    let text = render_report(
        &strings(&["c", "a", "b", "a", "c", "a"]),
        &strings(&["z", "y", "z", "x10", "x9", "X"]),
    );
    assert_eq!(text, "valid urls:\na\nb\nc\n\ninvalid urls:\nX\nx10\nx9\ny\nz");
}

#[test]
fn sorting_goes_by_code_point() {
    let text = render_report(&strings(&["é", "z", "a", "Z", "ab", "", "a/"]), &Vec::new());
    assert_eq!(text, "valid urls:\n\nZ\na\na/\nab\nz\né\n\ninvalid urls:\n");
}

#[test]
fn outcomes_go_to_the_set_of_their_classification() {
    let mut report = ValidationReport::new();
    report.record(&completed(true, "https://a.example/"));
    report.record(&completed(false, "dead.example"));
    report.record(&UnitOutcome::Aborted);
    report.record(&completed(true, "https://b.example/"));
    assert_eq!(
        sorted(report.valid_urls()),
        strings(&["https://a.example/", "https://b.example/"])
    );
    assert_eq!(report.invalid_urls(), strings(&["dead.example"]));
}

#[test]
fn aborted_unit_is_in_neither_set() {
    let report = aggregate(&vec![UnitOutcome::Aborted, UnitOutcome::Aborted]);
    assert!(report.valid_urls().is_empty());
    assert!(report.invalid_urls().is_empty());
    assert_eq!(report.render(), "valid urls:\n\n\ninvalid urls:\n");
}

#[test]
fn insertion_is_idempotent() {
    let report = aggregate(&vec![
        completed(true, "https://a.example/"),
        completed(true, "https://a.example/"),
        completed(false, "dead.example"),
        completed(false, "dead.example"),
        completed(false, "dead.example"),
    ]);
    assert_eq!(report.valid_urls(), strings(&["https://a.example/"]));
    assert_eq!(report.invalid_urls(), strings(&["dead.example"]));
}

#[test]
fn report_does_not_depend_on_completion_order() {
    let one = aggregate(&vec![
        completed(true, "https://b.example/"),
        completed(false, "x.example"),
        UnitOutcome::Aborted,
        completed(true, "https://a.example/"),
        completed(false, "dead.example"),
    ]);
    let other = aggregate(&vec![
        completed(false, "dead.example"),
        completed(true, "https://a.example/"),
        completed(false, "x.example"),
        completed(true, "https://b.example/"),
        completed(true, "https://a.example/"),
    ]);
    let text = "valid urls:\nhttps://a.example/\nhttps://b.example/\n\ninvalid urls:\ndead.example\nx.example";
    assert_eq!(one.render(), text);
    assert_eq!(other.render(), text);
}

#[test]
fn sets_are_disjoint_when_no_address_is_classified_both_ways() {
    let report = aggregate(&vec![
        completed(true, "https://a.example/"),
        completed(false, "a.example"),
        completed(false, "b.example"),
    ]);
    let valid = report.valid_urls();
    for url in report.invalid_urls() {
        assert!(!valid.contains(&url));
    }
}

#[test]
fn address_classified_both_ways_is_in_both_sets() {
    let report = aggregate(&vec![
        completed(false, "http://x.example"),
        completed(true, "http://x.example"),
    ]);
    assert_eq!(report.valid_urls(), strings(&["http://x.example"]));
    assert_eq!(report.invalid_urls(), strings(&["http://x.example"]));
}

#[test]
fn url_set_has_set_semantics() {
    let mut set = UrlSet::new();
    assert_eq!(set.len(), 0);
    assert!(!set.contains("a"));
    assert!(set.insert("a".to_string()));
    assert!(set.insert("b".to_string()));
    assert!(!set.insert("a".to_string()));
    assert_eq!(set.len(), 2);
    assert!(set.contains("a"));
    assert!(set.contains("b"));
    assert!(!set.contains("A"));
    assert_eq!(sorted(set.to_vec()), strings(&["a", "b"]));
}
