use url_validator::{remove_url_protocol, remove_www, sanitize_url};

#[test]
fn test_sanitize_url() {
    assert_eq!(sanitize_url("https://www.google.com"), "google.com");
    assert_eq!(sanitize_url("https://www.google.com/"), "google.com/");
    assert_eq!(
        sanitize_url("https://www.google.com/search?q=rust&p=1"),
        "google.com/search?q=rust&p=1"
    );
}

#[test]
fn sanitize_empty_input_yields_empty_output() {
    assert_eq!(sanitize_url(""), "");
}

#[test]
fn sanitize_strips_insecure_scheme() {
    assert_eq!(sanitize_url("http://example.com/a"), "example.com/a");
}

#[test]
fn sanitize_leaves_bare_address_unchanged() {
    assert_eq!(sanitize_url("example.com/path?q=1"), "example.com/path?q=1");
    assert_eq!(sanitize_url(&sanitize_url("https://www.example.com")), "example.com");
}

#[test]
fn sanitize_is_idempotent_on_ordinary_addresses() {
    for raw in [
        "https://www.google.com",
        "http://example.org/index.html",
        "www.rust-lang.org",
        "www.www.a",
        "http://www.a.www.b.com",
        "ftp://files.example.net",
        "",
    ] {
        let once = sanitize_url(raw);
        assert_eq!(sanitize_url(&once), once);
    }
}

#[test]
fn sanitize_twice_differs_where_first_result_is_not_bare() {
    assert_eq!(sanitize_url("https://https://a"), "https://a");
    assert_eq!(sanitize_url("https://a"), "a");
    assert_eq!(sanitize_url("wwwwww.."), "www.");
    assert_eq!(sanitize_url("www."), "");
}

#[test]
fn sanitize_removes_every_www() {
    assert_eq!(sanitize_url("http://www.a.www.b.com"), "a.b.com");
    assert_eq!(sanitize_url("www.www.a"), "a");
    assert_eq!(sanitize_url(&sanitize_url("www.www.a")), "a");
}

#[test]
fn scheme_match_is_case_sensitive() {
    assert_eq!(remove_url_protocol("HTTPS://example.com"), "HTTPS://example.com");
    assert_eq!(remove_url_protocol("Http://example.com"), "Http://example.com");
}

#[test]
fn scheme_is_removed_only_at_the_front() {
    assert_eq!(remove_url_protocol("https://example.com"), "example.com");
    assert_eq!(remove_url_protocol("http://example.com"), "example.com");
    assert_eq!(remove_url_protocol("a http://example.com"), "a http://example.com");
    assert_eq!(remove_url_protocol("httpss://example.com"), "httpss://example.com");
    assert_eq!(remove_url_protocol("http:/example.com"), "http:/example.com");
    assert_eq!(
        remove_url_protocol("https://r.example/?to=http://x"),
        "r.example/?to=http://x"
    );
}

#[test]
fn www_is_removed_wherever_it_stands() {
    assert_eq!(remove_www("www.example.com"), "example.com");
    assert_eq!(remove_www("blog.www.example.com"), "blog.example.com");
    assert_eq!(remove_www("example.com/www.html"), "example.com/html");
}

#[test]
fn www_is_removed_as_often_as_it_stands() {
    assert_eq!(remove_www("www.a.www.b"), "a.b");
    assert_eq!(remove_www("www.www.www."), "");
    assert_eq!(remove_www("wwww.a"), "wa");
}

#[test]
fn what_stands_in_front_of_a_removed_www_is_not_read_again() {
    assert_eq!(remove_www("wwwwww.."), "www.");
    assert_eq!(remove_www("wwwww.w."), "www.");
}

#[test]
fn www_without_dot_is_kept() {
    assert_eq!(remove_www("wwwexample.com"), "wwwexample.com");
    assert_eq!(remove_www("WWW.example.com"), "WWW.example.com");
}

#[test]
fn sanitize_removes_scheme_before_www() {
    assert_eq!(sanitize_url("www.https://a"), "https://a");
    assert_eq!(sanitize_url("http://www.é.example/ü"), "é.example/ü");
}
