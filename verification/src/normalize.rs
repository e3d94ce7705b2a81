//! Stripping the scheme and the `www.` label from an address.

use regex::Regex;
use vstd::prelude::*;

verus! {

/// Pattern that matches a leading `http://` or `https://`.
pub const SCHEME_PATTERN: &'static str = "^(https?)://";

/// Pattern that matches the label `www.` wherever it stands.
pub const WWW_PATTERN: &'static str = "(www\\.)";

/// The characters of `http://`.
pub open spec fn http_scheme() -> Seq<char> {
    seq!['h', 't', 't', 'p', ':', '/', '/']
}

/// The characters of `https://`.
pub open spec fn https_scheme() -> Seq<char> {
    seq!['h', 't', 't', 'p', 's', ':', '/', '/']
}

/// The characters of `www.`.
pub open spec fn www_label() -> Seq<char> {
    seq!['w', 'w', 'w', '.']
}

/// `text` begins with one of the two schemes.
pub open spec fn has_scheme(text: Seq<char>) -> bool {
    http_scheme().is_prefix_of(text) || https_scheme().is_prefix_of(text)
}

/// `text` without its leading `http://` or `https://`, if it has one.
pub open spec fn without_scheme(text: Seq<char>) -> Seq<char> {
    if https_scheme().is_prefix_of(text) {
        text.skip(8)
    } else if http_scheme().is_prefix_of(text) {
        text.skip(7)
    } else {
        text
    }
}

/// `part` stands in `text` at index `at`.
pub open spec fn occurs_at(text: Seq<char>, part: Seq<char>, at: int) -> bool {
    0 <= at && at + part.len() <= text.len() && text.subrange(at, at + part.len()) == part
}

/// `part` stands somewhere in `text`.
pub open spec fn occurs_in(text: Seq<char>, part: Seq<char>) -> bool {
    exists|at: int| occurs_at(text, part, at)
}

/// `text` without every occurrence of `part`, taken from the left: where
/// `part` stands it is left out and the reading goes on behind it, so what
/// stands in front of an occurrence is not read again.
pub open spec fn without_all(text: Seq<char>, part: Seq<char>) -> Seq<char>
    decreases text.len(),
{
    if part.len() == 0 || text.len() < part.len() {
        text
    } else if part.is_prefix_of(text) {
        without_all(text.skip(part.len() as int), part)
    } else {
        seq![text[0]] + without_all(text.skip(1), part)
    }
}

/// The bare form of an address: the scheme removed, then every `www.` label,
/// wherever it stands in what is left.
pub open spec fn sanitized(url: Seq<char>) -> Seq<char> {
    without_all(without_scheme(url), www_label())
}

/// An address in bare form: no scheme in front, no `www.` anywhere.
pub open spec fn is_sanitized(url: Seq<char>) -> bool {
    !has_scheme(url) && !occurs_in(url, www_label())
}

/// Removing the occurrences of `part` shortens a text in which `part`
/// stands, and leaves a text without `part` as it is.
pub proof fn lemma_without_all_len(text: Seq<char>, part: Seq<char>)
    requires
        part.len() > 0,
    ensures
        occurs_in(text, part) ==> without_all(text, part).len() < text.len(),
        !occurs_in(text, part) ==> without_all(text, part) == text,
    decreases text.len(),
{
    if text.len() < part.len() {
        assert forall|at: int| !occurs_at(text, part, at) by {}
    } else if part.is_prefix_of(text) {
        assert(occurs_at(text, part, 0));
        let rest = text.skip(part.len() as int);
        lemma_without_all_len(rest, part);
        if !occurs_in(rest, part) {
            assert(without_all(rest, part) == rest);
        }
    } else {
        let rest = text.skip(1);
        lemma_without_all_len(rest, part);
        assert(!occurs_at(text, part, 0)) by {
            if occurs_at(text, part, 0) {
                assert(text.subrange(0, part.len() as int) == part);
            }
        }
        if occurs_in(text, part) {
            let at = choose|at: int| occurs_at(text, part, at);
            assert(rest.subrange(at - 1, at - 1 + part.len()) =~= text.subrange(
                at,
                at + part.len(),
            ));
            assert(occurs_at(rest, part, at - 1));
        }
        if occurs_in(rest, part) {
            let at = choose|at: int| occurs_at(rest, part, at);
            assert(text.subrange(at + 1, at + 1 + part.len()) =~= rest.subrange(
                at,
                at + part.len(),
            ));
            assert(occurs_at(text, part, at + 1));
        } else {
            assert(seq![text[0]] + rest =~= text);
        }
    }
}

/// Removing the scheme never lengthens a text, and shortens one that has a
/// scheme.
pub proof fn lemma_without_scheme_len(text: Seq<char>)
    ensures
        has_scheme(text) ==> without_scheme(text).len() < text.len(),
        !has_scheme(text) ==> without_scheme(text) == text,
{
}

/// Normalising returns exactly the bare addresses unchanged: an address is a
/// fixed point of `sanitized` if and only if it has no scheme in front and no
/// `www.` in it.
pub proof fn lemma_sanitized_fixed_point(url: Seq<char>)
    ensures
        sanitized(url) == url <==> is_sanitized(url),
{
    lemma_without_scheme_len(url);
    lemma_without_all_len(without_scheme(url), www_label());
    lemma_without_all_len(url, www_label());
}

/// Normalising twice gives what normalising once gives, if and only if the
/// first result is bare. (It is not for `https://https://a`, whose first
/// result `https://a` still carries a scheme, nor for `wwwwww..`, whose first
/// result is `www.`.)
pub proof fn lemma_sanitize_idempotent(url: Seq<char>)
    ensures
        sanitized(sanitized(url)) == sanitized(url) <==> is_sanitized(sanitized(url)),
{
    lemma_sanitized_fixed_point(sanitized(url));
}

/// Compiles `pattern` with `regex::Regex::new` and hands `haystack` to
/// `Regex::replace_all` with the empty replacement, which deletes every
/// match, the matches taken from the left and none overlapping another, and
/// leaves a haystack without a match as it is.
///
/// Only the two patterns of this module are admitted, so the pattern always
/// compiles. For `SCHEME_PATTERN` the match is anchored at the start of the
/// haystack, so there is at most one, and it is `http` with an optional `s`,
/// then `://`. For `WWW_PATTERN` the matches are the occurrences of the
/// literal `www.`.
#[verifier::external_body]
fn delete_matches(pattern: &str, haystack: &str) -> (out: String)
    requires
        pattern@ == SCHEME_PATTERN@ || pattern@ == WWW_PATTERN@,
    ensures
        pattern@ == SCHEME_PATTERN@ ==> out@ == without_scheme(haystack@),
        pattern@ == WWW_PATTERN@ ==> out@ == without_all(haystack@, www_label()),
{
    Regex::new(pattern).unwrap().replace_all(haystack, "").into_owned()
}

/// Removes a leading `http://` or `https://`. The match is case-sensitive.
pub fn remove_url_protocol(url: &str) -> (out: String)
    ensures
        out@ == without_scheme(url@),
{
    delete_matches(SCHEME_PATTERN, url)
}

/// Removes the label `www.` wherever in `url` it stands, not only at the
/// front, and as often as it stands there.
pub fn remove_www(url: &str) -> (out: String)
    ensures
        out@ == without_all(url@, www_label()),
{
    delete_matches(WWW_PATTERN, url)
}

/// Reduces an address to its bare host and path.
pub fn sanitize_url(url: &str) -> (out: String)
    ensures
        out@ == sanitized(url@),
{
    let bare = remove_url_protocol(url);
    remove_www(bare.as_str())
}

} // verus!
