//! Validation of bulk lists of web addresses.
//!
//! A raw address is normalised, expanded into an ordered list of candidate
//! addresses, and probed candidate by candidate until one answers. The
//! outcomes of many such checks are folded into two sets, reachable and
//! unreachable, and rendered as a sorted report.

pub mod check;
pub mod input;
pub mod listing;
pub mod normalize;
pub mod probe;
pub mod report;
pub mod run;
pub mod scheduler;
pub mod text;
pub mod variations;

pub use check::{check_url, CheckStep, CheckedUrl, UrlCheck};
pub use input::{dedup_urls, parse_url_list};
pub use normalize::{remove_url_protocol, remove_www, sanitize_url};
pub use probe::{ProbeFailure, ProbeOutcome, RedirectTrail, REQUEST_TIMEOUT_SECS};
pub use report::{aggregate, render_report, UnitOutcome, UrlSet, ValidationReport};
pub use run::{check_all, validate};
pub use scheduler::{Scheduler, SchedulerStep, PARALLEL_REQUESTS};
pub use variations::build_url_variations;
