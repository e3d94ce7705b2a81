//! A whole run, one address after another: from the text of an input list
//! to the text of the report, with the network behind a probe that the
//! caller hands in.

use crate::check::{
    behaves_as, check_url, is_verdict_of, lemma_first_answer_wins, verdict_on, CheckedUrlView,
};
use crate::input::{parse_url_list, url_entries};
use crate::probe::ProbeOutcome;
use crate::report::{tally, UnitOutcome, ValidationReport};
use vstd::prelude::*;

verus! {

/// `outcomes` is what the units of a run over `urls` with `probe` may hand
/// in when each runs to its end: for each address, in order, an outcome that
/// checking it may yield.
pub open spec fn is_run_of<F: Fn(&str) -> ProbeOutcome>(
    urls: Seq<Seq<char>>,
    probe: F,
    outcomes: Seq<Option<CheckedUrlView>>,
) -> bool {
    &&& outcomes.len() == urls.len()
    &&& forall|k: int|
        0 <= k < urls.len() ==> (#[trigger] outcomes[k] matches Some(checked) && is_verdict_of(
            urls[k],
            probe,
            checked,
        ))
}

/// What a run over `urls` on the network `network` hands in: for each
/// address the outcome of checking it there.
pub open spec fn outcomes_on(
    urls: Seq<Seq<char>>,
    network: spec_fn(Seq<char>) -> Option<Seq<char>>,
) -> Seq<Option<CheckedUrlView>> {
    Seq::new(urls.len(), |k: int| Some(verdict_on(urls[k], network)))
}

/// With a probe that behaves as `network`, a run can hand in only what
/// `outcomes_on` gives: the classification is reproducible.
pub proof fn lemma_run_on_network<F: Fn(&str) -> ProbeOutcome>(
    urls: Seq<Seq<char>>,
    probe: F,
    network: spec_fn(Seq<char>) -> Option<Seq<char>>,
    outcomes: Seq<Option<CheckedUrlView>>,
)
    requires
        behaves_as(probe, network),
        is_run_of(urls, probe, outcomes),
    ensures
        outcomes == outcomes_on(urls, network),
{
    assert forall|k: int| 0 <= k < urls.len() implies outcomes[k] == outcomes_on(
        urls,
        network,
    )[k] by {
        lemma_first_answer_wins(urls[k], probe, network, outcomes[k].unwrap());
    }
    assert(outcomes =~= outcomes_on(urls, network));
}

/// Checks each address of `urls` with `probe`, in order, and folds the
/// outcomes into a report.
pub fn check_all<F: Fn(&str) -> ProbeOutcome>(urls: &Vec<String>, probe: &F) -> (report:
    ValidationReport)
    requires
        forall|candidate: &str| call_requires(*probe, (candidate,)),
    ensures
        exists|outcomes: Seq<Option<CheckedUrlView>>|
            is_run_of(urls.deep_view(), *probe, outcomes) && report@ == tally(outcomes),
{
    let mut report = ValidationReport::new();
    let ghost mut outcomes: Seq<Option<CheckedUrlView>> = Seq::empty();
    let mut at: usize = 0;
    while at < urls.len()
        invariant
            at <= urls.len(),
            forall|candidate: &str| call_requires(*probe, (candidate,)),
            is_run_of(urls.deep_view().take(at as int), *probe, outcomes),
            report@ == tally(outcomes),
        decreases urls.len() - at,
    {
        let checked = check_url(urls[at].as_str(), probe);
        let outcome = UnitOutcome::Completed(checked);
        report.record(&outcome);
        proof {
            let ghost before = outcomes;
            outcomes = outcomes.push(outcome@);
            assert(outcomes.drop_last() =~= before);
            assert forall|k: int| 0 <= k < at + 1 implies (#[trigger] outcomes[k] matches Some(
                checked,
            ) && is_verdict_of(urls.deep_view().take(at + 1)[k], *probe, checked)) by {
                if k < at {
                    assert(outcomes[k] == before[k]);
                    assert(urls.deep_view().take(at + 1)[k] == urls.deep_view().take(
                        at as int,
                    )[k]);
                }
            }
        }
        at += 1;
    }
    assert(urls.deep_view().take(at as int) =~= urls.deep_view());
    report
}

/// Runs a whole validation: reads the raw addresses out of `contents`,
/// checks each with `probe`, and renders the report.
pub fn validate<F: Fn(&str) -> ProbeOutcome>(contents: &str, probe: &F) -> (text: String)
    requires
        forall|candidate: &str| call_requires(*probe, (candidate,)),
    ensures
        exists|outcomes: Seq<Option<CheckedUrlView>>|
            is_run_of(url_entries(contents@), *probe, outcomes) && text@ == tally(outcomes).text(),
{
    let urls = parse_url_list(contents);
    let report = check_all(&urls, probe);
    report.render()
}

} // verus!
