//! The watched pages: what is tracked on each, and what its checks recorded.
use vstd::prelude::*;

use crate::text::strings_view;

verus! {

/// A point in time: whole seconds since the Unix epoch (UTC) and the
/// nanoseconds within that second, as `chrono` reports them.
#[derive(Clone, Copy, Debug, PartialEq, Eq, Structural)]
pub struct Timestamp {
    pub secs: i64,
    pub nanos: u32,
}

/// A reading of the system clock as `chrono` gives it: not before the Unix
/// epoch, and with the nanoseconds of a whole second.
pub open spec fn clock_reading(t: Timestamp) -> bool {
    0 <= t.secs && t.nanos < 1_000_000_000
}

/// The current time.
///
/// Trusted: `chrono::Utc::now()` read through `DateTime::timestamp` and
/// `DateTime::timestamp_subsec_nanos`. `Utc::now` takes the time since the
/// Unix epoch from the system clock (it panics on a clock set before the
/// epoch), so the seconds are not negative and the nanoseconds are those of
/// a `Duration`, below one second. Which time it is depends on the clock
/// and is not stated.
#[verifier::external_body]
pub(crate) fn current_time() -> (r: Timestamp)
    ensures
        clock_reading(r),
{
    let now = chrono::Utc::now();
    Timestamp { secs: now.timestamp(), nanos: now.timestamp_subsec_nanos() }
}

/// The whole seconds from the instant `(earlier_secs, earlier_nanos)` to the
/// instant `(later_secs, later_nanos)` as `chrono` counts them
/// (`(later - earlier).num_seconds()`), or `None` when `chrono` cannot
/// represent one of them.
pub uninterp spec fn chrono_whole_seconds(
    later_secs: i64,
    later_nanos: u32,
    earlier_secs: i64,
    earlier_nanos: u32,
) -> Option<i64>;

/// A time well inside the range `chrono` represents, and not within a
/// leap second.
pub open spec fn plain_time(t: Timestamp) -> bool {
    -8_000_000_000_000 <= t.secs <= 8_000_000_000_000 && t.nanos < 1_000_000_000
}

/// The whole seconds from `earlier` to `later`, rounded toward zero.
pub open spec fn whole_seconds_between(later: Timestamp, earlier: Timestamp) -> int {
    let d = (later.secs - earlier.secs) * 1_000_000_000 + (later.nanos - earlier.nanos);
    if d >= 0 {
        d / 1_000_000_000
    } else {
        -((-d) / 1_000_000_000)
    }
}

/// The whole seconds from `earlier` to `later`.
///
/// Trusted: `chrono::DateTime::from_timestamp` for both times, then
/// `DateTime - DateTime` and `TimeDelta::num_seconds`. The result is named
/// by `chrono_whole_seconds`; for times well inside chrono's range and not
/// in a leap second the difference is exact and `num_seconds` rounds toward
/// zero, which `whole_seconds_between` states.
#[verifier::external_body]
pub(crate) fn seconds_between(later: Timestamp, earlier: Timestamp) -> (r: Option<i64>)
    ensures
        r == chrono_whole_seconds(later.secs, later.nanos, earlier.secs, earlier.nanos),
        plain_time(later) && plain_time(earlier) ==> r == Some(
            whole_seconds_between(later, earlier) as i64,
        ),
{
    let later = match chrono::DateTime::from_timestamp(later.secs, later.nanos) {
        Some(t) => t,
        None => return None,
    };
    let earlier = match chrono::DateTime::from_timestamp(earlier.secs, earlier.nanos) {
        Some(t) => t,
        None => return None,
    };
    Some((later - earlier).num_seconds())
}

/// An identifier in the form of a random (version 4) UUID read as a
/// big-endian integer: the version nibble holds 4 and the variant bits
/// hold the RFC 4122 variant (binary 10).
pub open spec fn is_v4_id(id: u128) -> bool {
    (id >> 76u128) & 0xfu128 == 4u128 && (id >> 62u128) & 0x3u128 == 2u128
}

/// A fresh random identifier.
///
/// Trusted: `uuid::Uuid::new_v4()` read back as an integer with `Uuid::as_u128`.
/// `new_v4` masks random bits and sets the version and variant bits, which
/// `is_v4_id` states; the other bits are random and not stated.
#[verifier::external_body]
fn fresh_id() -> (r: u128)
    ensures
        is_v4_id(r),
{
    uuid::Uuid::new_v4().as_u128()
}

/// How many of the most recent errors a watch remembers.
pub const ERROR_HISTORY_LEN: usize = 10;

/// The interval between automatic checks of a new watch, in seconds (one hour).
pub const DEFAULT_INTERVAL_SECONDS: u64 = 3600;

/// What a watch extracts from its page.
#[allow(inconsistent_fields)]
#[derive(Clone, Debug, PartialEq)]
pub enum TrackingMode {
    /// Track the full text content of the page (normalized)
    FullPage,
    /// Track a specific price pattern (regex + heuristics)
    Price {
        /// Optional specific selector to narrow down price search
        selector: Option<String>,
    },
    /// Track availability based on keywords (e.g., "In Stock", "Sold Out")
    Availability {
        /// Custom keywords for "In Stock" (defaults will be used if empty)
        in_stock_keywords: Vec<String>,
        /// Custom keywords for "Out of Stock" (defaults will be used if empty)
        out_of_stock_keywords: Vec<String>,
    },
    /// Track presence/absence of specific keywords
    Keyword { keywords: Vec<String> },
    /// Track a specific HTML section by CSS selector
    HtmlSection { selector: String },
}

impl Default for TrackingMode {
    fn default() -> (r: Self)
        ensures
            r == TrackingMode::FullPage,
    {
        TrackingMode::FullPage
    }
}

/// A tracking mode with its strings seen as character sequences.
#[allow(inconsistent_fields)]
#[verifier::ext_equal]
pub enum ModeView {
    FullPage,
    Price { selector: Option<Seq<char>> },
    Availability { in_stock_keywords: Seq<Seq<char>>, out_of_stock_keywords: Seq<Seq<char>> },
    Keyword { keywords: Seq<Seq<char>> },
    HtmlSection { selector: Seq<char> },
}

/// The characters of an optional string.
pub open spec fn opt_view(o: Option<String>) -> Option<Seq<char>> {
    match o {
        Some(s) => Some(s@),
        None => None,
    }
}

impl View for TrackingMode {
    type V = ModeView;

    open spec fn view(&self) -> ModeView {
        match self {
            TrackingMode::FullPage => ModeView::FullPage,
            TrackingMode::Price { selector } => ModeView::Price { selector: opt_view(*selector) },
            TrackingMode::Availability { in_stock_keywords, out_of_stock_keywords } =>
                ModeView::Availability {
                in_stock_keywords: strings_view(in_stock_keywords@),
                out_of_stock_keywords: strings_view(out_of_stock_keywords@),
            },
            TrackingMode::Keyword { keywords } => ModeView::Keyword {
                keywords: strings_view(keywords@),
            },
            TrackingMode::HtmlSection { selector } => ModeView::HtmlSection { selector: selector@ },
        }
    }
}

/// A watched page and the record of its checks.
#[derive(Clone, Debug)]
pub struct Watch {
    pub id: u128,
    pub name: String,
    pub url: String,
    pub mode: TrackingMode,
    pub interval_seconds: u64,
    pub last_checked: Option<Timestamp>,
    pub last_success: Option<Timestamp>,
    pub last_error: Option<String>,
    /// The last value we successfully extracted, used for comparison
    pub last_value: Option<String>,
    /// The value from the check before the last one
    pub previous_value: Option<String>,
    /// Whether there is a change that hasn't been "seen" by the user yet
    pub has_unread_change: bool,
    pub total_checks: u64,
    pub total_successes: u64,
    /// History of the most recent error messages
    pub error_log: Vec<(Timestamp, String)>,
}

/// A watch with its strings seen as character sequences.
#[verifier::ext_equal]
pub struct WatchView {
    pub id: u128,
    pub name: Seq<char>,
    pub url: Seq<char>,
    pub mode: ModeView,
    pub interval_seconds: u64,
    pub last_checked: Option<Timestamp>,
    pub last_success: Option<Timestamp>,
    pub last_error: Option<Seq<char>>,
    pub last_value: Option<Seq<char>>,
    pub previous_value: Option<Seq<char>>,
    pub has_unread_change: bool,
    pub total_checks: u64,
    pub total_successes: u64,
    pub error_log: Seq<(Timestamp, Seq<char>)>,
}

/// The entries of an error history with their messages as character sequences.
pub open spec fn log_view(log: Seq<(Timestamp, String)>) -> Seq<(Timestamp, Seq<char>)> {
    log.map_values(|e: (Timestamp, String)| (e.0, e.1@))
}

impl View for Watch {
    type V = WatchView;

    open spec fn view(&self) -> WatchView {
        WatchView {
            id: self.id,
            name: self.name@,
            url: self.url@,
            mode: self.mode@,
            interval_seconds: self.interval_seconds,
            last_checked: self.last_checked,
            last_success: self.last_success,
            last_error: opt_view(self.last_error),
            last_value: opt_view(self.last_value),
            previous_value: opt_view(self.previous_value),
            has_unread_change: self.has_unread_change,
            total_checks: self.total_checks,
            total_successes: self.total_successes,
            error_log: log_view(self.error_log@),
        }
    }
}

/// A watch that has never been checked, checking every hour.
pub open spec fn fresh_watch(name: Seq<char>, url: Seq<char>, mode: ModeView, id: u128) -> WatchView {
    WatchView {
        id,
        name,
        url,
        mode,
        interval_seconds: DEFAULT_INTERVAL_SECONDS,
        last_checked: None,
        last_success: None,
        last_error: None,
        last_value: None,
        previous_value: None,
        has_unread_change: false,
        total_checks: 0,
        total_successes: 0,
        error_log: Seq::empty(),
    }
}

/// The error history after `entry` is recorded: it is appended, and only
/// the last `ERROR_HISTORY_LEN` entries are kept.
pub open spec fn log_after(log: Seq<(Timestamp, Seq<char>)>, entry: (Timestamp, Seq<char>)) -> Seq<
    (Timestamp, Seq<char>),
> {
    let appended = log.push(entry);
    if appended.len() > ERROR_HISTORY_LEN {
        appended.subrange(appended.len() - ERROR_HISTORY_LEN, appended.len() as int)
    } else {
        appended
    }
}

/// `w` after the error `msg` is recorded at time `at`.
pub open spec fn with_error(w: WatchView, msg: Seq<char>, at: Timestamp) -> WatchView {
    WatchView { last_error: Some(msg), error_log: log_after(w.error_log, (at, msg)), ..w }
}

impl Watch {
    /// A new watch of the page at `url`, never checked yet, checked every hour.
    pub fn new(name: String, url: String, mode: TrackingMode) -> (w: Watch)
        ensures
            w@ == fresh_watch(name@, url@, mode@, w.id),
            is_v4_id(w.id),
    {
        let w = Watch {
            id: fresh_id(),
            name,
            url,
            mode,
            interval_seconds: DEFAULT_INTERVAL_SECONDS,
            last_checked: None,
            last_success: None,
            last_error: None,
            last_value: None,
            previous_value: None,
            has_unread_change: false,
            total_checks: 0,
            total_successes: 0,
            error_log: Vec::new(),
        };
        assert(w@.error_log =~= Seq::empty());
        w
    }

    /// Records `error` as the last error and in the error history, stamped
    /// with the current time.
    pub fn add_error(&mut self, error: String)
        ensures
            exists|at: Timestamp|
                clock_reading(at) && final(self)@ == with_error(old(self)@, error@, at),
    {
        let at = current_time();
        self.add_error_at(error, at);
    }

    /// Records `error` as the last error and in the error history, stamped `at`.
    pub fn add_error_at(&mut self, error: String, at: Timestamp)
        ensures
            final(self)@ == with_error(old(self)@, error@, at),
    {
        let ghost appended = log_view(self.error_log@).push((at, error@));
        self.last_error = Some(error.clone());
        self.error_log.push((at, error));
        assert(log_view(self.error_log@) =~= appended);
        let ghost mid = self@;
        while self.error_log.len() > ERROR_HISTORY_LEN
            invariant
                self@ == (WatchView { error_log: log_view(self.error_log@), ..mid }),
                self.error_log.len() <= appended.len(),
                appended.len() > ERROR_HISTORY_LEN ==> self.error_log.len() >= ERROR_HISTORY_LEN,
                appended.len() <= ERROR_HISTORY_LEN ==> self.error_log.len() == appended.len(),
                log_view(self.error_log@) =~= appended.subrange(
                    appended.len() - self.error_log.len(),
                    appended.len() as int,
                ),
            decreases self.error_log.len(),
        {
            let ghost before = self.error_log@;
            self.error_log.remove(0);
            assert(log_view(self.error_log@) =~= log_view(before).drop_first());
        }
        assert(appended.len() <= ERROR_HISTORY_LEN ==> appended.subrange(0, appended.len() as int)
            =~= appended);
        assert(final(self)@ =~= with_error(old(self)@, error@, at));
    }
}

/// The error history never holds more than `ERROR_HISTORY_LEN` entries
/// once an error is recorded, whatever it held before: the new error is its
/// last entry, and it keeps the most recent of the earlier entries in their
/// order.
pub proof fn lemma_error_history_bounded(w: WatchView, msg: Seq<char>, at: Timestamp)
    ensures
        with_error(w, msg, at).error_log.len() <= ERROR_HISTORY_LEN,
        with_error(w, msg, at).error_log.last() == (at, msg),
        with_error(w, msg, at).last_error == Some(msg),
        w.error_log.len() < ERROR_HISTORY_LEN ==> with_error(w, msg, at).error_log == w.error_log.push(
            (at, msg),
        ),
        w.error_log.len() >= ERROR_HISTORY_LEN ==> with_error(w, msg, at).error_log
            == w.error_log.subrange(
            w.error_log.len() - (ERROR_HISTORY_LEN - 1),
            w.error_log.len() as int,
        ).push((at, msg)),
{
    let log = w.error_log;
    if log.len() >= ERROR_HISTORY_LEN {
        let a = log.push((at, msg));
        assert(a.subrange(a.len() - ERROR_HISTORY_LEN, a.len() as int) =~= log.subrange(
            log.len() - (ERROR_HISTORY_LEN - 1),
            log.len() as int,
        ).push((at, msg)));
    }
}

} // verus!
