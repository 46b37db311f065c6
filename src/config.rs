use std::time::Duration;
use vstd::prelude::*;

use crate::text::{chars_of, ends_with, has_suffix};

verus! {

/// Probes allowed in flight at once unless configured otherwise.
pub const DEFAULT_CONCURRENCY: usize = 50;

/// Per-request timeout in seconds unless configured otherwise.
pub const DEFAULT_TIMEOUT: u64 = 10;

/// Base jitter delay in milliseconds unless configured otherwise.
pub const DEFAULT_DELAY: u64 = 100;

/// User-Agent header sent unless configured otherwise.
pub const DEFAULT_USER_AGENT: &'static str =
    "Mozilla/5.0 (Macintosh; Intel Mac OS X 10.6; rv:37.0) Gecko/20100101 Firefox/37.0";

/// Settings of one run: the targets and how politely to probe them.
#[derive(Debug, Clone)]
pub struct AppConfig {
    /// Crawl roots or sitemap URLs.
    pub urls: Vec<String>,
    /// Probes allowed in flight at once.
    pub concurrency: usize,
    /// Per-request timeout in seconds.
    pub timeout: u64,
    /// Base jitter delay in milliseconds.
    pub delay: u64,
    /// User-Agent header value.
    pub user_agent: String,
    /// Where the report goes, when not the default place.
    pub output: Option<String>,
}

/// The duration of `secs` seconds.
pub uninterp spec fn secs_duration(secs: u64) -> Duration;

/// The duration of `millis` milliseconds.
pub uninterp spec fn millis_duration(millis: u64) -> Duration;

/// Relies on `Duration::from_secs`: a duration of that many whole seconds.
#[verifier::external_body]
fn duration_from_secs(secs: u64) -> (r: Duration)
    ensures
        r == secs_duration(secs),
{
    Duration::from_secs(secs)
}

/// Relies on `Duration::from_millis`: a duration of that many milliseconds.
#[verifier::external_body]
fn duration_from_millis(millis: u64) -> (r: Duration)
    ensures
        r == millis_duration(millis),
{
    Duration::from_millis(millis)
}

impl AppConfig {
    /// The per-request timeout, `timeout` seconds.
    pub fn timeout_duration(&self) -> (r: Duration)
        ensures
            r == secs_duration(self.timeout),
    {
        duration_from_secs(self.timeout)
    }

    /// The base jitter delay, `delay` milliseconds.
    pub fn delay_duration(&self) -> (r: Duration)
        ensures
            r == millis_duration(self.delay),
    {
        duration_from_millis(self.delay)
    }
}

/// A target names a sitemap when it ends in `.xml` or `.xml.gz`.
pub open spec fn sitemap_target(url: Seq<char>) -> bool {
    ends_with(url, ".xml"@) || ends_with(url, ".xml.gz"@)
}

/// Whether `url` names a sitemap rather than a page to crawl from.
pub fn is_sitemap_url(url: &str) -> (r: bool)
    ensures
        r == sitemap_target(url@),
{
    let cs = chars_of(url);
    has_suffix(&cs, ".xml") || has_suffix(&cs, ".xml.gz")
}

} // verus!
