//! What one network attempt reports, and the address it ended at.

use vstd::prelude::*;

verus! {

/// Seconds after which one request is given up.
pub const REQUEST_TIMEOUT_SECS: u64 = 120;

/// Why an attempt got no response.
#[derive(Clone, Copy, Debug, PartialEq, Eq, Structural)]
pub enum ProbeFailure {
    /// The connection could not be made; a failed name lookup counts here.
    Connect,
    /// No response came within the time allowed.
    Timeout,
    /// The candidate is not an address a request can be sent to.
    MalformedUrl,
    /// Any other failure of the request.
    Other,
}

/// The outcome of one attempt on one candidate address.
#[derive(Debug)]
pub enum ProbeOutcome {
    /// A response came, whatever its status; the address is the one the
    /// request ended at after its redirects.
    Resolved(String),
    /// No response came.
    Failed(ProbeFailure),
}

impl ProbeOutcome {
    /// The address the attempt ended at, if a response came.
    pub open spec fn resolved_url(&self) -> Option<Seq<char>> {
        match self {
            ProbeOutcome::Resolved(url) => Some(url@),
            ProbeOutcome::Failed(_) => None,
        }
    }
}

/// The address a request stands at while its redirects are followed. It
/// belongs to one request and keeps only the most recent target.
#[derive(Debug)]
pub struct RedirectTrail {
    latest: String,
}

impl RedirectTrail {
    /// The address the request stands at now.
    pub closed spec fn current(&self) -> Seq<char> {
        self.latest@
    }

    /// The address a request ends at: the last redirect target, or the
    /// requested address where there was no redirect.
    pub open spec fn final_address(requested: Seq<char>, hops: Seq<Seq<char>>) -> Seq<char> {
        if hops.len() == 0 {
            requested
        } else {
            hops.last()
        }
    }

    /// The trail of a request to `url` before any redirect.
    pub fn start(url: &str) -> (trail: RedirectTrail)
        ensures
            trail.current() == url@,
    {
        RedirectTrail { latest: url.to_owned() }
    }

    /// Records that the request is redirected to `target`, and returns the
    /// address it was redirected from.
    pub fn follow(&mut self, target: &str) -> (previous: String)
        ensures
            final(self).current() == target@,
            previous@ == old(self).current(),
    {
        let previous = self.latest.clone();
        self.latest = target.to_owned();
        previous
    }

    /// Follows `hops` in order from a request to `url`.
    pub fn trace(url: &str, hops: &Vec<String>) -> (trail: RedirectTrail)
        ensures
            trail.current() == Self::final_address(url@, hops.deep_view()),
    {
        let mut trail = RedirectTrail::start(url);
        let mut at: usize = 0;
        while at < hops.len()
            invariant
                at <= hops.len(),
                trail.current() == Self::final_address(url@, hops.deep_view().take(at as int)),
            decreases hops.len() - at,
        {
            trail.follow(hops[at].as_str());
            at += 1;
        }
        assert(hops.deep_view().take(at as int) =~= hops.deep_view());
        trail
    }

    /// The address the request stands at now.
    pub fn final_url(&self) -> (url: String)
        ensures
            url@ == self.current(),
    {
        self.latest.clone()
    }

    /// The outcome of the attempt once the request is over: resolved to the
    /// address the trail stands at if a response came, failed otherwise.
    pub fn conclude(&self, response: Result<(), ProbeFailure>) -> (outcome: ProbeOutcome)
        ensures
            response is Ok ==> outcome.resolved_url() == Some(self.current()),
            response matches Err(cause) ==> outcome == ProbeOutcome::Failed(cause),
    {
        match response {
            Ok(_) => ProbeOutcome::Resolved(self.latest.clone()),
            Err(cause) => ProbeOutcome::Failed(cause),
        }
    }
}

} // verus!
