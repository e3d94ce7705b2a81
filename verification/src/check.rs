//! Reducing one raw address to a single outcome: its candidates are probed
//! in order, one at a time, and the first that answers decides.

use crate::probe::{ProbeFailure, ProbeOutcome};
use crate::variations::{build_url_variations, variations_of};
use vstd::prelude::*;

verus! {

/// The single outcome of checking one raw address.
#[derive(Debug)]
pub struct CheckedUrl {
    /// Whether some candidate answered.
    pub is_valid: bool,
    /// The address the answering candidate resolved to, or the raw address
    /// unchanged where none answered.
    pub url: String,
}

/// A `CheckedUrl` as contracts see it.
pub struct CheckedUrlView {
    pub is_valid: bool,
    pub url: Seq<char>,
}

impl View for CheckedUrl {
    type V = CheckedUrlView;

    open spec fn view(&self) -> CheckedUrlView {
        CheckedUrlView { is_valid: self.is_valid, url: self.url@ }
    }
}

/// What the check of one address asks for next.
#[derive(Debug)]
pub enum CheckStep {
    /// Probe this candidate and report its outcome.
    Probe(String),
    /// The check is over with this outcome.
    Done(CheckedUrl),
}

/// The check of one raw address, between two attempts.
#[derive(Debug)]
pub struct UrlCheck {
    url: String,
    variations: Vec<String>,
    failed: usize,
    resolved: Option<String>,
}

/// A `UrlCheck` as contracts see it.
pub struct UrlCheckView {
    /// The raw address under check.
    pub url: Seq<char>,
    /// How many candidates, from the first on, were probed and failed.
    pub failed: nat,
    /// The address the answering candidate resolved to, once one answered.
    pub resolved: Option<Seq<char>>,
}

impl UrlCheckView {
    /// The candidate to probe next, while the check is not over.
    pub open spec fn pending(self) -> Option<Seq<char>> {
        if self.resolved is None && self.failed < variations_of(self.url).len() {
            Some(variations_of(self.url)[self.failed as int])
        } else {
            None
        }
    }

    /// The outcome of the check, once it is over.
    pub open spec fn verdict(self) -> Option<CheckedUrlView> {
        match self.resolved {
            Some(final_url) => Some(CheckedUrlView { is_valid: true, url: final_url }),
            None => if self.failed < variations_of(self.url).len() {
                None
            } else {
                Some(CheckedUrlView { is_valid: false, url: self.url })
            },
        }
    }

    /// The state after the pending candidate's attempt reported `answer`;
    /// a check that is over stays as it is.
    pub open spec fn after(self, answer: Option<Seq<char>>) -> UrlCheckView {
        if self.pending() is None {
            self
        } else {
            match answer {
                Some(final_url) => UrlCheckView { resolved: Some(final_url), ..self },
                None => UrlCheckView { failed: self.failed + 1, ..self },
            }
        }
    }
}

impl View for UrlCheck {
    type V = UrlCheckView;

    closed spec fn view(&self) -> UrlCheckView {
        UrlCheckView {
            url: self.url@,
            failed: self.failed as nat,
            resolved: match self.resolved {
                Some(final_url) => Some(final_url@),
                None => None,
            },
        }
    }
}

impl UrlCheck {
    #[verifier::type_invariant]
    spec fn well_formed(&self) -> bool {
        &&& self.variations.deep_view() == variations_of(self.url@)
        &&& self.failed <= self.variations.len()
    }

    /// Starts the check of `url`: nothing probed yet.
    pub fn begin(url: &str) -> (check: UrlCheck)
        ensures
            check@ == (UrlCheckView { url: url@, failed: 0, resolved: None }),
    {
        UrlCheck {
            url: url.to_owned(),
            variations: build_url_variations(url),
            failed: 0,
            resolved: None,
        }
    }

    /// What the check asks for next: the pending candidate, or the outcome
    /// once a candidate answered or all have failed.
    pub fn step(&self) -> (next: CheckStep)
        ensures
            match next {
                CheckStep::Probe(candidate) => self@.pending() == Some(candidate@),
                CheckStep::Done(checked) => self@.verdict() == Some(checked@),
            },
    {
        proof {
            use_type_invariant(self);
        }
        match &self.resolved {
            Some(final_url) => CheckStep::Done(
                CheckedUrl { is_valid: true, url: final_url.clone() },
            ),
            None => {
                if self.failed < self.variations.len() {
                    let candidate = self.variations[self.failed].clone();
                    assert(self.variations.deep_view()[self.failed as int] == candidate@);
                    CheckStep::Probe(candidate)
                } else {
                    CheckStep::Done(CheckedUrl { is_valid: false, url: self.url.clone() })
                }
            },
        }
    }

    /// Takes in the outcome of the attempt on the pending candidate. A
    /// response ends the check; a failure moves it on to the next candidate
    /// and the failed one is not tried again.
    pub fn record(&mut self, outcome: ProbeOutcome)
        ensures
            final(self)@ == old(self)@.after(outcome.resolved_url()),
    {
        proof {
            use_type_invariant(&*self);
        }
        if self.resolved.is_none() && self.failed < self.variations.len() {
            match outcome {
                ProbeOutcome::Resolved(final_url) => {
                    self.resolved = Some(final_url);
                },
                ProbeOutcome::Failed(_) => {
                    self.failed = self.failed + 1;
                },
            }
        }
    }
}

/// `probe` may report a failure for the candidate `candidate`.
pub open spec fn fails_on<F: Fn(&str) -> ProbeOutcome>(probe: F, candidate: Seq<char>) -> bool {
    exists|asked: &str, cause: ProbeFailure|
        asked@ == candidate && #[trigger] call_ensures(
            probe,
            (asked,),
            ProbeOutcome::Failed(cause),
        )
}

/// `probe` may answer for the candidate `candidate` with the resolved
/// address `final_url`.
pub open spec fn resolves_to<F: Fn(&str) -> ProbeOutcome>(
    probe: F,
    candidate: Seq<char>,
    final_url: Seq<char>,
) -> bool {
    exists|asked: &str, answer: String|
        asked@ == candidate && answer@ == final_url && #[trigger] call_ensures(
            probe,
            (asked,),
            ProbeOutcome::Resolved(answer),
        )
}

/// Checking `url` with `probe` may go like this: the first `failed`
/// candidates failed; then either the next one answered and `checked` carries
/// the address it resolved to, or none was left and `checked` carries `url`
/// as invalid.
pub open spec fn is_verdict_after<F: Fn(&str) -> ProbeOutcome>(
    url: Seq<char>,
    probe: F,
    checked: CheckedUrlView,
    failed: int,
) -> bool {
    &&& 0 <= failed <= variations_of(url).len()
    &&& forall|k: int| 0 <= k < failed ==> fails_on(probe, #[trigger] variations_of(url)[k])
    &&& if checked.is_valid {
        failed < variations_of(url).len() && resolves_to(
            probe,
            variations_of(url)[failed],
            checked.url,
        )
    } else {
        failed == variations_of(url).len() && checked.url == url
    }
}

/// `checked` is what checking `url` with `probe` may yield.
pub open spec fn is_verdict_of<F: Fn(&str) -> ProbeOutcome>(
    url: Seq<char>,
    probe: F,
    checked: CheckedUrlView,
) -> bool {
    exists|failed: int| is_verdict_after(url, probe, checked, failed)
}

/// Checks `url` by probing its candidates with `probe`, one after another in
/// their order, up to the first that answers.
pub fn check_url<F: Fn(&str) -> ProbeOutcome>(url: &str, probe: &F) -> (checked: CheckedUrl)
    requires
        forall|candidate: &str| call_requires(*probe, (candidate,)),
    ensures
        is_verdict_of(url@, *probe, checked@),
{
    let mut check = UrlCheck::begin(url);
    loop
        invariant
            check@.url == url@,
            check@.failed <= variations_of(url@).len(),
            forall|candidate: &str| call_requires(*probe, (candidate,)),
            forall|k: int|
                0 <= k < check@.failed ==> fails_on(*probe, #[trigger] variations_of(url@)[k]),
            check@.resolved matches Some(final_url) ==> check@.failed < variations_of(url@).len()
                && resolves_to(*probe, variations_of(url@)[check@.failed as int], final_url),
        decreases
            variations_of(url@).len() - check@.failed + (if check@.resolved is None { 1nat } else { 0nat }),
    {
        match check.step() {
            CheckStep::Probe(candidate) => {
                let asked = candidate.as_str();
                let outcome = probe(asked);
                proof {
                    match &outcome {
                        ProbeOutcome::Resolved(answer) => {
                            assert(call_ensures(*probe, (asked,), ProbeOutcome::Resolved(*answer)));
                            assert(resolves_to(*probe, candidate@, answer@));
                        },
                        ProbeOutcome::Failed(cause) => {
                            assert(call_ensures(*probe, (asked,), ProbeOutcome::Failed(*cause)));
                            assert(fails_on(*probe, candidate@));
                        },
                    }
                }
                check.record(outcome);
            },
            CheckStep::Done(checked) => {
                assert(is_verdict_after(url@, *probe, checked@, check@.failed as int));
                return checked;
            },
        }
    }
}

/// `probe` behaves as the network `network` does: whatever it reports for a
/// candidate is what `network` gives for it, the resolved address or none.
pub open spec fn behaves_as<F: Fn(&str) -> ProbeOutcome>(
    probe: F,
    network: spec_fn(Seq<char>) -> Option<Seq<char>>,
) -> bool {
    forall|asked: &str, outcome: ProbeOutcome| #[trigger]
        call_ensures(probe, (asked,), outcome) ==> outcome.resolved_url() == network(asked@)
}

/// The candidate at index `at` is the first of `url` that `network` answers.
pub open spec fn first_answer_at(
    url: Seq<char>,
    network: spec_fn(Seq<char>) -> Option<Seq<char>>,
    at: int,
) -> bool {
    &&& 0 <= at < variations_of(url).len()
    &&& network(variations_of(url)[at]) is Some
    &&& forall|k: int| 0 <= k < at ==> network(#[trigger] variations_of(url)[k]) is None
}

/// The outcome of checking `url` on `network`: valid with the address that
/// the first answering candidate resolves to, invalid with `url` itself where
/// no candidate answers.
pub open spec fn verdict_on(
    url: Seq<char>,
    network: spec_fn(Seq<char>) -> Option<Seq<char>>,
) -> CheckedUrlView {
    if exists|at: int| first_answer_at(url, network, at) {
        let at = choose|at: int| first_answer_at(url, network, at);
        CheckedUrlView { is_valid: true, url: network(variations_of(url)[at]).unwrap() }
    } else {
        CheckedUrlView { is_valid: false, url: url }
    }
}

/// The first candidate that answers wins: with a probe that behaves as
/// `network`, checking `url` can only yield the outcome `verdict_on` gives.
pub proof fn lemma_first_answer_wins<F: Fn(&str) -> ProbeOutcome>(
    url: Seq<char>,
    probe: F,
    network: spec_fn(Seq<char>) -> Option<Seq<char>>,
    checked: CheckedUrlView,
)
    requires
        behaves_as(probe, network),
        is_verdict_of(url, probe, checked),
    ensures
        checked == verdict_on(url, network),
{
    let candidates = variations_of(url);
    let failed = choose|failed: int| is_verdict_after(url, probe, checked, failed);
    assert forall|k: int| 0 <= k < failed implies network(#[trigger] candidates[k]) is None by {
        assert(fails_on(probe, candidates[k]));
    }
    if checked.is_valid {
        assert(resolves_to(probe, candidates[failed], checked.url));
        assert(network(candidates[failed]) == Some(checked.url));
        assert(first_answer_at(url, network, failed));
        let at = choose|at: int| first_answer_at(url, network, at);
        assert(at == failed) by {
            if at < failed {
                assert(network(candidates[at]) is None);
            }
            if failed < at {
                assert(network(candidates[failed]) is None);
            }
        }
    } else {
        assert forall|at: int| !first_answer_at(url, network, at) by {
            if 0 <= at < candidates.len() {
                assert(network(candidates[at]) is None);
            }
        }
    }
}

} // verus!
