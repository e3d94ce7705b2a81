use url_validator::input::{collect_entries, trim, trim_bounds};
use url_validator::{dedup_urls, parse_url_list};

fn strings(items: &[&str]) -> Vec<String> {
    items.iter().map(|item| item.to_string()).collect()
}

#[test]
fn trim_removes_white_space_at_both_ends_only() {
    assert_eq!(trim("  a b \t"), "a b");
    assert_eq!(trim("a"), "a");
    assert_eq!(trim("\u{a0}\r\nhttps://a.example\u{2003}"), "https://a.example");
    assert_eq!(trim("é "), "é");
}

#[test]
fn trim_of_blank_text_is_empty() {
    assert_eq!(trim(""), "");
    assert_eq!(trim(" "), "");
    assert_eq!(trim(" \t\r\n "), "");
}

#[test]
fn blank_lines_are_dropped() {
    assert_eq!(
        collect_entries(&strings(&["", "  a.example ", "   ", "b.example", "\t"])),
        strings(&["a.example", "b.example"])
    );
    assert!(collect_entries(&Vec::new()).is_empty());
}

#[test]
fn duplicates_collapse_to_the_first_occurrence() {
    assert_eq!(
        dedup_urls(strings(&["b", "a", "b", "c", "a", "b"])),
        strings(&["b", "a", "c"])
    );
    assert_eq!(dedup_urls(strings(&["a", "A"])), strings(&["a", "A"]));
    assert!(dedup_urls(Vec::new()).is_empty());
}

#[test]
fn input_list_is_cut_into_trimmed_unique_entries() {
    let contents = "https://a.example\n\n  http://b.example  \r\nhttps://a.example\n \nhttps://c.example";
    assert_eq!(
        parse_url_list(contents),
        strings(&["https://a.example", "http://b.example", "https://c.example"])
    );
}

#[test]
fn input_list_with_trailing_newline() {
    assert_eq!(parse_url_list("a.example\nb.example\n"), strings(&["a.example", "b.example"]));
}

#[test]
fn empty_input_list_holds_no_address() {
    assert!(parse_url_list("").is_empty());
    assert!(parse_url_list("\n\n \n").is_empty());
}

#[test]
fn duplicates_that_differ_only_in_white_space_collapse() {
    assert_eq!(parse_url_list("a.example\n a.example\na.example \n"), strings(&["a.example"]));
}

#[test]
fn trim_bounds_span_from_first_to_last_unset_flag() {
    assert_eq!(trim_bounds(&vec![true, true, false, true, false, true]), (2, 5));
    assert_eq!(trim_bounds(&vec![false, false]), (0, 2));
    assert_eq!(trim_bounds(&vec![false, true, true]), (0, 1));
    assert_eq!(trim_bounds(&vec![true, false]), (1, 2));
}

#[test]
fn trim_bounds_are_empty_where_every_flag_is_set() {
    assert_eq!(trim_bounds(&Vec::new()), (0, 0));
    assert_eq!(trim_bounds(&vec![true]), (1, 1));
    assert_eq!(trim_bounds(&vec![true, true, true]), (3, 3));
}
