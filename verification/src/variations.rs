//! The ordered list of candidate addresses tried for one raw address.

use crate::normalize::{http_scheme, https_scheme, sanitize_url, sanitized, www_label};
use vstd::prelude::*;
use vstd::string::*;

verus! {

/// The four scheme and host forms of an address, in order of preference:
/// secure before insecure, and the bare host before the `www.` host.
pub open spec fn scheme_host_forms(url: Seq<char>) -> Seq<Seq<char>> {
    let bare = sanitized(url);
    seq![
        https_scheme() + bare,
        https_scheme() + www_label() + bare,
        http_scheme() + bare,
        http_scheme() + www_label() + bare,
    ]
}

/// The candidates for `url`: its four scheme and host forms, then `url`
/// itself unless it is one of the four.
pub open spec fn variations_of(url: Seq<char>) -> Seq<Seq<char>> {
    let forms = scheme_host_forms(url);
    if forms.contains(url) {
        forms
    } else {
        forms.push(url)
    }
}

/// The shape of the candidates: the four scheme and host forms come first,
/// in their order; a fifth candidate is there exactly if the raw address is
/// none of the four, and it is the raw address. Either way the raw address
/// is among the candidates.
pub proof fn lemma_variations_shape(url: Seq<char>)
    ensures
        variations_of(url).len() == 4 || variations_of(url).len() == 5,
        variations_of(url).take(4) == scheme_host_forms(url),
        variations_of(url).len() == 5 <==> !scheme_host_forms(url).contains(url),
        variations_of(url).len() == 5 ==> variations_of(url)[4] == url,
        variations_of(url).contains(url),
{
    let forms = scheme_host_forms(url);
    assert(variations_of(url).take(4) =~= forms);
    if forms.contains(url) {
        let k = choose|k: int| 0 <= k < forms.len() && forms[k] == url;
        assert(variations_of(url)[k] == url);
    } else {
        assert(variations_of(url)[4] == url);
    }
}

/// `head` followed by `tail`.
fn concat(head: &str, tail: &str) -> (out: String)
    ensures
        out@ == head@ + tail@,
{
    let mut out = head.to_owned();
    out.append(tail);
    out
}

/// Whether `wanted` is among `items`.
pub(crate) fn contains_string(items: &Vec<String>, wanted: &String) -> (found: bool)
    ensures
        found == items.deep_view().contains(wanted@),
{
    let mut at: usize = 0;
    while at < items.len()
        invariant
            at <= items.len(),
            forall|k: int| 0 <= k < at ==> items.deep_view()[k] != wanted@,
        decreases items.len() - at,
    {
        if items[at] == *wanted {
            assert(items.deep_view()[at as int] == wanted@);
            return true;
        }
        at += 1;
    }
    false
}

/// Builds the candidates for `url` in the order in which they are to be
/// tried. The order is a precedence: the first candidate that answers wins.
pub fn build_url_variations(url: &str) -> (out: Vec<String>)
    ensures
        out.deep_view() == variations_of(url@),
{
    let partial_url = sanitize_url(url);
    let www_url = concat("www.", partial_url.as_str());
    proof {
        reveal_strlit("https://");
        reveal_strlit("http://");
        reveal_strlit("www.");
        assert("https://"@ =~= https_scheme());
        assert("http://"@ =~= http_scheme());
        assert("www."@ =~= www_label());
    }
    let mut variations: Vec<String> = Vec::new();
    variations.push(concat("https://", partial_url.as_str()));
    variations.push(concat("https://", www_url.as_str()));
    variations.push(concat("http://", partial_url.as_str()));
    variations.push(concat("http://", www_url.as_str()));
    proof {
        let bare = sanitized(url@);
        assert(https_scheme() + (www_label() + bare) =~= https_scheme() + www_label() + bare);
        assert(http_scheme() + (www_label() + bare) =~= http_scheme() + www_label() + bare);
        assert(variations.deep_view() =~= scheme_host_forms(url@));
    }
    let raw = url.to_owned();
    if !contains_string(&variations, &raw) {
        variations.push(raw);
        assert(variations.deep_view() =~= scheme_host_forms(url@).push(url@));
    }
    variations
}

} // verus!
