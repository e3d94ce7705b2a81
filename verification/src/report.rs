//! The two sets of a validation run, reachable and unreachable, and how the
//! outcomes of the check units are folded into them.

use crate::check::{CheckedUrl, CheckedUrlView};
use crate::listing::{render_section, section_text};
use crate::text::lemma_contains_front_or_last;
use crate::variations::contains_string;
use vstd::prelude::*;
use vstd::string::*;

verus! {

/// What a check unit hands to the aggregation when it ends.
#[derive(Debug)]
pub enum UnitOutcome {
    /// The unit ran to its end and classified its address.
    Completed(CheckedUrl),
    /// The unit was torn down before it could classify its address.
    Aborted,
}

impl View for UnitOutcome {
    type V = Option<CheckedUrlView>;

    open spec fn view(&self) -> Option<CheckedUrlView> {
        match self {
            UnitOutcome::Completed(checked) => Some(checked@),
            UnitOutcome::Aborted => None,
        }
    }
}

impl DeepView for UnitOutcome {
    type V = Option<CheckedUrlView>;

    open spec fn deep_view(&self) -> Option<CheckedUrlView> {
        self@
    }
}

/// A set of addresses. An address is in it or not; adding one that is in it
/// changes nothing.
#[derive(Debug)]
pub struct UrlSet {
    items: Vec<String>,
}

impl View for UrlSet {
    type V = Set<Seq<char>>;

    closed spec fn view(&self) -> Set<Seq<char>> {
        self.items.deep_view().to_set()
    }
}

impl UrlSet {
    #[verifier::type_invariant]
    spec fn distinct(&self) -> bool {
        self.items.deep_view().no_duplicates()
    }

    /// The empty set.
    pub fn new() -> (set: UrlSet)
        ensures
            set@ == Set::<Seq<char>>::empty(),
    {
        let set = UrlSet { items: Vec::new() };
        assert(set.items.deep_view().to_set() =~= Set::<Seq<char>>::empty());
        set
    }

    /// Whether `url` is in the set.
    pub fn contains(&self, url: &str) -> (found: bool)
        ensures
            found == self@.contains(url@),
    {
        let wanted = url.to_owned();
        contains_string(&self.items, &wanted)
    }

    /// Adds `url`, and returns whether it was new to the set.
    pub fn insert(&mut self, url: String) -> (added: bool)
        ensures
            final(self)@ == old(self)@.insert(url@),
            added == !old(self)@.contains(url@),
    {
        proof {
            use_type_invariant(&*self);
        }
        if contains_string(&self.items, &url) {
            assert(self@.insert(url@) =~= self@);
            false
        } else {
            let ghost before = self.items.deep_view();
            let mut items: Vec<String> = Vec::new();
            std::mem::swap(&mut self.items, &mut items);
            items.push(url);
            assert(items.deep_view() =~= before.push(url@));
            self.items = items;
            assert(self.items.deep_view().to_set() =~= before.to_set().insert(url@)) by {
                let after = self.items.deep_view();
                assert(after.drop_last() =~= before);
                lemma_contains_front_or_last(after);
            }
            true
        }
    }

    /// How many addresses are in the set.
    pub fn len(&self) -> (count: usize)
        ensures
            self@.finite(),
            count == self@.len(),
    {
        proof {
            use_type_invariant(self);
            self.items.deep_view().unique_seq_to_set();
            vstd::seq_lib::seq_to_set_is_finite(self.items.deep_view());
        }
        self.items.len()
    }

    /// The addresses of the set, each once, in no particular order.
    pub fn to_vec(&self) -> (urls: Vec<String>)
        ensures
            urls.deep_view().to_set() == self@,
            urls.deep_view().no_duplicates(),
    {
        proof {
            use_type_invariant(self);
        }
        let urls = self.items.clone();
        assert(urls.deep_view() =~= self.items.deep_view());
        urls
    }
}

/// A `ValidationReport` as contracts see it.
pub struct ReportView {
    /// The addresses that reachable raw addresses resolved to.
    pub valid_urls: Set<Seq<char>>,
    /// The raw addresses of which no candidate answered.
    pub invalid_urls: Set<Seq<char>>,
}

impl ReportView {
    /// The report of a run in which no unit has ended yet.
    pub open spec fn empty() -> ReportView {
        ReportView { valid_urls: Set::empty(), invalid_urls: Set::empty() }
    }

    /// The report after one more unit ended with `outcome`: a valid result
    /// adds its address to the valid set, an invalid one to the invalid set,
    /// and a unit that was torn down adds nothing.
    pub open spec fn with(self, outcome: Option<CheckedUrlView>) -> ReportView {
        match outcome {
            Some(checked) => if checked.is_valid {
                ReportView { valid_urls: self.valid_urls.insert(checked.url), ..self }
            } else {
                ReportView { invalid_urls: self.invalid_urls.insert(checked.url), ..self }
            },
            None => self,
        }
    }

    /// The text of the report.
    pub open spec fn text(self) -> Seq<char> {
        "valid urls:\n"@ + section_text(self.valid_urls) + "\n\ninvalid urls:\n"@ + section_text(
            self.invalid_urls,
        )
    }
}

/// The report that the outcomes `outcomes`, taken in this order, add up to.
pub open spec fn tally(outcomes: Seq<Option<CheckedUrlView>>) -> ReportView
    decreases outcomes.len(),
{
    if outcomes.len() == 0 {
        ReportView::empty()
    } else {
        tally(outcomes.drop_last()).with(outcomes.last())
    }
}

/// The two result sets of a run.
#[derive(Debug)]
pub struct ValidationReport {
    valid_urls: UrlSet,
    invalid_urls: UrlSet,
}

impl View for ValidationReport {
    type V = ReportView;

    closed spec fn view(&self) -> ReportView {
        ReportView { valid_urls: self.valid_urls@, invalid_urls: self.invalid_urls@ }
    }
}

impl ValidationReport {
    /// The report of a run in which no unit has ended yet.
    pub fn new() -> (report: ValidationReport)
        ensures
            report@ == ReportView::empty(),
    {
        ValidationReport { valid_urls: UrlSet::new(), invalid_urls: UrlSet::new() }
    }

    /// Folds the outcome of one unit into the report.
    pub fn record(&mut self, outcome: &UnitOutcome)
        ensures
            final(self)@ == old(self)@.with(outcome@),
    {
        match outcome {
            UnitOutcome::Completed(checked) => {
                if checked.is_valid {
                    self.valid_urls.insert(checked.url.clone());
                } else {
                    self.invalid_urls.insert(checked.url.clone());
                }
            },
            UnitOutcome::Aborted => {},
        }
    }

    /// The addresses that reachable raw addresses resolved to, each once.
    pub fn valid_urls(&self) -> (urls: Vec<String>)
        ensures
            urls.deep_view().to_set() == self@.valid_urls,
            urls.deep_view().no_duplicates(),
    {
        self.valid_urls.to_vec()
    }

    /// The raw addresses of which no candidate answered, each once.
    pub fn invalid_urls(&self) -> (urls: Vec<String>)
        ensures
            urls.deep_view().to_set() == self@.invalid_urls,
            urls.deep_view().no_duplicates(),
    {
        self.invalid_urls.to_vec()
    }

    /// Renders the report as text.
    pub fn render(&self) -> (out: String)
        ensures
            out@ == self@.text(),
    {
        let valid = self.valid_urls.to_vec();
        let invalid = self.invalid_urls.to_vec();
        render_report(&valid, &invalid)
    }
}

/// Folds the outcomes of all units of a run, in the order in which the units
/// ended, into a report.
pub fn aggregate(outcomes: &Vec<UnitOutcome>) -> (report: ValidationReport)
    ensures
        report@ == tally(outcomes.deep_view()),
{
    let mut report = ValidationReport::new();
    let mut at: usize = 0;
    while at < outcomes.len()
        invariant
            at <= outcomes.len(),
            report@ == tally(outcomes.deep_view().take(at as int)),
        decreases outcomes.len() - at,
    {
        report.record(&outcomes[at]);
        proof {
            let seen = outcomes.deep_view().take(at + 1);
            assert(seen.drop_last() =~= outcomes.deep_view().take(at as int));
            assert(seen.last() == outcomes[at as int]@);
        }
        at += 1;
    }
    assert(outcomes.deep_view().take(at as int) =~= outcomes.deep_view());
    report
}

/// Renders two lists of addresses as the text of a report. Each list is
/// sorted and an address that occurs in it more than once is written once.
pub fn render_report(valid_urls: &Vec<String>, invalid_urls: &Vec<String>) -> (out: String)
    ensures
        out@ == (ReportView {
            valid_urls: valid_urls.deep_view().to_set(),
            invalid_urls: invalid_urls.deep_view().to_set(),
        }).text(),
{
    let valid = render_section(valid_urls);
    let invalid = render_section(invalid_urls);
    let mut out = "valid urls:\n".to_owned();
    out.append(valid.as_str());
    out.append("\n\ninvalid urls:\n");
    out.append(invalid.as_str());
    out
}

/// A valid outcome that carries `url`.
pub open spec fn valid_outcome(url: Seq<char>) -> Option<CheckedUrlView> {
    Some(CheckedUrlView { is_valid: true, url })
}

/// An invalid outcome that carries `url`.
pub open spec fn invalid_outcome(url: Seq<char>) -> Option<CheckedUrlView> {
    Some(CheckedUrlView { is_valid: false, url })
}

/// What the sets hold: an address is in the valid set exactly if some unit
/// ended valid with it, and in the invalid set exactly if some unit ended
/// invalid with it. A unit that was torn down leaves no trace, and both sets
/// are finite.
pub proof fn lemma_tally_members(outcomes: Seq<Option<CheckedUrlView>>)
    ensures
        forall|url: Seq<char>| #[trigger]
            tally(outcomes).valid_urls.contains(url) <==> outcomes.contains(valid_outcome(url)),
        forall|url: Seq<char>| #[trigger]
            tally(outcomes).invalid_urls.contains(url) <==> outcomes.contains(
                invalid_outcome(url),
            ),
        tally(outcomes).valid_urls.finite(),
        tally(outcomes).invalid_urls.finite(),
    decreases outcomes.len(),
{
    if outcomes.len() > 0 {
        let front = outcomes.drop_last();
        let last = outcomes.last();
        lemma_tally_members(front);
        lemma_contains_front_or_last(outcomes);
        assert forall|url: Seq<char>| #[trigger]
            tally(outcomes).valid_urls.contains(url) <==> outcomes.contains(
                valid_outcome(url),
            ) by {
            assert(tally(front).valid_urls.contains(url) <==> front.contains(valid_outcome(url)));
        }
        assert forall|url: Seq<char>| #[trigger]
            tally(outcomes).invalid_urls.contains(url) <==> outcomes.contains(
                invalid_outcome(url),
            ) by {
            assert(tally(front).invalid_urls.contains(url) <==> front.contains(
                invalid_outcome(url),
            ));
        }
    }
}

/// Every unit that ran to its end is reported: the address it carries is in
/// the set of its classification.
pub proof fn lemma_completed_units_are_reported(outcomes: Seq<Option<CheckedUrlView>>, unit: int)
    requires
        0 <= unit < outcomes.len(),
    ensures
        outcomes[unit] matches Some(checked) ==> if checked.is_valid {
            tally(outcomes).valid_urls.contains(checked.url)
        } else {
            tally(outcomes).invalid_urls.contains(checked.url)
        },
{
    lemma_tally_members(outcomes);
    match outcomes[unit] {
        Some(checked) => {
            if checked.is_valid {
                assert(outcomes[unit] == valid_outcome(checked.url));
            } else {
                assert(outcomes[unit] == invalid_outcome(checked.url));
            }
        },
        None => {},
    }
}

/// An address is in neither set exactly if no unit ran to its end with it;
/// so the address of a unit is missing from the report only where the unit
/// was torn down and no other unit carried the same address.
pub proof fn lemma_absent_iff_never_reported(
    outcomes: Seq<Option<CheckedUrlView>>,
    url: Seq<char>,
)
    ensures
        (!tally(outcomes).valid_urls.contains(url) && !tally(outcomes).invalid_urls.contains(url))
            <==> (forall|unit: int|
            0 <= unit < outcomes.len() ==> !(#[trigger] outcomes[unit] matches Some(checked)
                && checked.url == url)),
{
    lemma_tally_members(outcomes);
    if outcomes.contains(valid_outcome(url)) {
        let k = choose|k: int| 0 <= k < outcomes.len() && outcomes[k] == valid_outcome(url);
        assert(outcomes[k] matches Some(checked) && checked.url == url);
    }
    if outcomes.contains(invalid_outcome(url)) {
        let k = choose|k: int| 0 <= k < outcomes.len() && outcomes[k] == invalid_outcome(url);
        assert(outcomes[k] matches Some(checked) && checked.url == url);
    }
    if exists|unit: int|
        0 <= unit < outcomes.len() && (#[trigger] outcomes[unit] matches Some(checked)
            && checked.url == url) {
        let unit = choose|unit: int|
            0 <= unit < outcomes.len() && (#[trigger] outcomes[unit] matches Some(checked)
                && checked.url == url);
        lemma_completed_units_are_reported(outcomes, unit);
    }
}

/// The two sets have no address in common exactly if no address was carried
/// both by a unit that ended valid and by a unit that ended invalid.
pub proof fn lemma_disjoint_iff_no_clash(outcomes: Seq<Option<CheckedUrlView>>)
    ensures
        tally(outcomes).valid_urls.disjoint(tally(outcomes).invalid_urls) <==> (forall|
            url: Seq<char>,
        |
            !(outcomes.contains(#[trigger] valid_outcome(url)) && outcomes.contains(
                invalid_outcome(url),
            ))),
{
    lemma_tally_members(outcomes);
    let report = tally(outcomes);
    if report.valid_urls.disjoint(report.invalid_urls) {
        assert forall|url: Seq<char>|
            !(outcomes.contains(#[trigger] valid_outcome(url)) && outcomes.contains(
                invalid_outcome(url),
            )) by {
            if outcomes.contains(valid_outcome(url)) && outcomes.contains(invalid_outcome(url)) {
                assert(report.valid_urls.contains(url));
                assert(report.invalid_urls.contains(url));
            }
        }
    }
    if forall|url: Seq<char>|
        !(outcomes.contains(#[trigger] valid_outcome(url)) && outcomes.contains(
            invalid_outcome(url),
        )) {
        assert forall|url: Seq<char>|
            report.valid_urls.contains(url) implies !report.invalid_urls.contains(url) by {
            assert(!(outcomes.contains(valid_outcome(url)) && outcomes.contains(
                invalid_outcome(url),
            )));
        }
    }
}

/// The report does not depend on the order in which the units ended, nor on
/// how often an outcome came, nor on the units that were torn down: two
/// streams in which the same outcomes of completed units occur add up to the
/// same report, and so to the same text.
pub proof fn lemma_tally_ignores_order(
    first: Seq<Option<CheckedUrlView>>,
    second: Seq<Option<CheckedUrlView>>,
)
    requires
        forall|checked: CheckedUrlView|
            first.contains(Some(checked)) <==> second.contains(Some(checked)),
    ensures
        tally(first) == tally(second),
        tally(first).text() == tally(second).text(),
{
    lemma_tally_members(first);
    lemma_tally_members(second);
    assert forall|url: Seq<char>|
        tally(first).valid_urls.contains(url) <==> tally(second).valid_urls.contains(url) by {
        assert(first.contains(valid_outcome(url)) <==> second.contains(valid_outcome(url)));
    }
    assert forall|url: Seq<char>|
        tally(first).invalid_urls.contains(url) <==> tally(second).invalid_urls.contains(url) by {
        assert(first.contains(invalid_outcome(url)) <==> second.contains(invalid_outcome(url)));
    }
    assert(tally(first).valid_urls =~= tally(second).valid_urls);
    assert(tally(first).invalid_urls =~= tally(second).invalid_urls);
}

} // verus!
