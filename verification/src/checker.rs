//! One check of a watch: what is extracted from the fetched page for each
//! tracking mode, and how the outcome is recorded on the watch.
use vstd::prelude::*;

use crate::models::{
    clock_reading, current_time, lemma_error_history_bounded, opt_view, ERROR_HISTORY_LEN, with_error, ModeView, Timestamp, TrackingMode, Watch, WatchView,
};
use crate::text::{
    chars_of, concat, contains_chars, has_substring, join_strings, joined, lowercase,
    lowercase_chars, string_of, strings_view, text_of, trim_chars, trimmed,
};

verus! {

// ---------------------------------------------------------------------------
// HTML and regular expressions
// ---------------------------------------------------------------------------

/// Whether `scraper::Selector::parse` accepts `selector`.
pub uninterp spec fn selector_parses(selector: Seq<char>) -> bool;

/// The text nodes, in document order, of the first element that the CSS
/// `selector` matches in the HTML document `html`, as `scraper` parses the
/// document (`Html::parse_document`), finds the element (`Html::select`,
/// first item) and lists its text (`ElementRef::text`); `None` when no
/// element matches.
pub uninterp spec fn first_match_text(html: Seq<char>, selector: Seq<char>) -> Option<
    Seq<Seq<char>>,
>;

/// Whether `regex::Regex::new` accepts `pattern`.
pub uninterp spec fn pattern_compiles(pattern: Seq<char>) -> bool;

/// The text of the leftmost-first match of `pattern` in `text`, as
/// `regex::Regex::find` reports it; `None` when there is no match.
pub uninterp spec fn leftmost_match(pattern: Seq<char>, text: Seq<char>) -> Option<Seq<char>>;

pub open spec fn opt_strings_view(o: Option<Vec<String>>) -> Option<Seq<Seq<char>>> {
    match o {
        Some(v) => Some(strings_view(v@)),
        None => None,
    }
}

/// The text nodes of the first element of `html` that `selector` matches.
///
/// Trusted: `scraper::Selector::parse`, `scraper::Html::parse_document`,
/// `Html::select` and `ElementRef::text`. The result is `None` exactly when
/// the selector does not parse; otherwise it holds the text nodes of the
/// first matching element, or `None` when nothing matches. Both are
/// functions of the arguments alone, named by `selector_parses` and
/// `first_match_text`.
#[verifier::external_body]
fn select_first_text(html: &str, selector: &str) -> (r: Option<Option<Vec<String>>>)
    ensures
        r is Some <==> selector_parses(selector@),
        r matches Some(found) ==> opt_strings_view(found) == first_match_text(html@, selector@),
{
    let sel = match scraper::Selector::parse(selector) {
        Ok(sel) => sel,
        Err(_) => return None,
    };
    let document = scraper::Html::parse_document(html);
    let first = document.select(&sel).next();
    match first {
        Some(element) => Some(Some(element.text().map(String::from).collect())),
        None => Some(None),
    }
}

/// The leftmost-first match of `pattern` in `text`.
///
/// Trusted: `regex::Regex::new` and `Regex::find`. The result is `None`
/// exactly when the pattern does not compile; otherwise it holds the text
/// of the match, or `None` when there is none. Both are functions of the
/// arguments alone, named by `pattern_compiles` and `leftmost_match`.
#[verifier::external_body]
fn find_first(pattern: &str, text: &str) -> (r: Option<Option<String>>)
    ensures
        r is Some <==> pattern_compiles(pattern@),
        r matches Some(found) ==> opt_view(found) == leftmost_match(pattern@, text@),
{
    match regex::Regex::new(pattern) {
        Ok(re) => match re.find(text) {
            Some(m) => Some(Some(m.as_str().to_string())),
            None => Some(None),
        },
        Err(_) => None,
    }
}

// ---------------------------------------------------------------------------
// Extraction rules
// ---------------------------------------------------------------------------

/// Prices: a currency sign before a number, or a currency sign or code after it.
pub const PRICE_PATTERN: &'static str =
    "([$\u{20ac}\u{a3}\u{a5}\u{20b9}]\\s?\\d+([.,]\\d+)?)|(\\d+([.,]\\d+)?\\s?([$\u{20ac}\u{a3}\u{a5}]|USD|EUR|GBP|JPY))";

/// The text of the first element that `selector` matches, its text nodes
/// joined with single spaces: `None` when the selector does not parse,
/// `Some(None)` when nothing matches.
pub open spec fn selected_text(html: Seq<char>, selector: Seq<char>) -> Option<Option<Seq<char>>> {
    if selector_parses(selector) {
        match first_match_text(html, selector) {
            Some(nodes) => Some(Some(joined(nodes, " "@))),
            None => Some(None),
        }
    } else {
        None
    }
}

/// The text of the page's `body` element, if the page has one.
pub open spec fn body_text(html: Seq<char>) -> Option<Seq<char>> {
    match selected_text(html, "body"@) {
        Some(Some(t)) => Some(t),
        _ => None,
    }
}

/// The text that is searched for keywords: the lowercase body text, or the
/// lowercase page source when there is no body.
pub open spec fn searched_text(html: Seq<char>) -> Seq<char> {
    match body_text(html) {
        Some(t) => lowercase(t),
        None => lowercase(html),
    }
}

/// The phrases that mark a product as in stock when none are configured.
pub open spec fn default_in_stock() -> Seq<Seq<char>> {
    seq!["in stock"@, "available"@, "add to cart"@, "buy now"@]
}

/// The phrases that mark a product as out of stock when none are configured.
pub open spec fn default_out_of_stock() -> Seq<Seq<char>> {
    seq!["out of stock"@, "sold out"@, "currently unavailable"@, "not available"@]
}

/// Some phrase of `phrases`, in lowercase, occurs in `text`.
pub open spec fn mentions_any(text: Seq<char>, phrases: Seq<Seq<char>>) -> bool {
    exists|k: int| 0 <= k < phrases.len() && has_substring(text, lowercase(#[trigger] phrases[k]))
}

/// The keywords whose lowercase form does not occur in `text`, in order.
pub open spec fn missing_keywords(text: Seq<char>, keywords: Seq<Seq<char>>) -> Seq<Seq<char>>
    decreases keywords.len(),
{
    if keywords.len() == 0 {
        Seq::empty()
    } else {
        let before = missing_keywords(text, keywords.drop_last());
        if has_substring(text, lowercase(keywords.last())) {
            before
        } else {
            before.push(keywords.last())
        }
    }
}

/// Full page: the trimmed body text, or the page source when there is no body.
pub open spec fn full_page_value(html: Seq<char>) -> Seq<char> {
    match body_text(html) {
        Some(t) => trimmed(t),
        None => html,
    }
}

/// Price: the first price in the selected element's text (or the body's, or
/// the page source's), trimmed; "Price not found" when there is none.
pub open spec fn price_value(html: Seq<char>, selector: Option<Seq<char>>) -> Seq<char> {
    let text = match selector {
        Some(sel) => match selected_text(html, sel) {
            Some(Some(t)) => t,
            _ => Seq::empty(),
        },
        None => match body_text(html) {
            Some(t) => t,
            None => html,
        },
    };
    if pattern_compiles(PRICE_PATTERN@) {
        match leftmost_match(PRICE_PATTERN@, text) {
            Some(m) => trimmed(m),
            None => "Price not found"@,
        }
    } else {
        "Price not found"@
    }
}

/// Availability: in-stock phrases are looked for first, then out-of-stock
/// ones; the defaults stand in for an empty list.
pub open spec fn availability_value(
    html: Seq<char>,
    in_stock: Seq<Seq<char>>,
    out_of_stock: Seq<Seq<char>>,
) -> Seq<char> {
    let text = searched_text(html);
    let ins = if in_stock.len() == 0 {
        default_in_stock()
    } else {
        in_stock
    };
    let outs = if out_of_stock.len() == 0 {
        default_out_of_stock()
    } else {
        out_of_stock
    };
    if mentions_any(text, ins) {
        "In Stock"@
    } else if mentions_any(text, outs) {
        "Out of Stock"@
    } else {
        "Unknown Status"@
    }
}

/// Keywords: a success when every keyword occurs (ignoring case), an
/// error naming the missing ones otherwise.
pub open spec fn keyword_result(html: Seq<char>, keywords: Seq<Seq<char>>) -> Result<
    Seq<char>,
    Seq<char>,
> {
    if keywords.len() == 0 {
        Err("Keyword tracking mode requires at least one keyword."@)
    } else {
        let missing = missing_keywords(searched_text(html), keywords);
        if missing.len() == 0 {
            Ok("All keywords found: "@ + joined(keywords, ", "@))
        } else {
            Err("Missing keywords: "@ + joined(missing, ", "@))
        }
    }
}

/// HTML section: the trimmed text of the first element that the selector matches.
pub open spec fn section_result(html: Seq<char>, selector: Seq<char>) -> Result<
    Seq<char>,
    Seq<char>,
> {
    match selected_text(html, selector) {
        Some(Some(t)) => Ok(trimmed(t)),
        Some(None) => Err("Section not found"@),
        None => Err("Invalid CSS selector"@),
    }
}

/// What a check of a page whose source is `html` extracts in tracking mode
/// `mode`: the value, or the message of the error to record.
pub open spec fn extraction(html: Seq<char>, mode: ModeView) -> Result<Seq<char>, Seq<char>> {
    match mode {
        ModeView::FullPage => Ok(full_page_value(html)),
        ModeView::Price { selector } => Ok(price_value(html, selector)),
        ModeView::Availability { in_stock_keywords, out_of_stock_keywords } => Ok(
            availability_value(html, in_stock_keywords, out_of_stock_keywords),
        ),
        ModeView::Keyword { keywords } => keyword_result(html, keywords),
        ModeView::HtmlSection { selector } => section_result(html, selector),
    }
}

pub open spec fn result_view(r: Result<String, String>) -> Result<Seq<char>, Seq<char>> {
    match r {
        Ok(v) => Ok(v@),
        Err(e) => Err(e@),
    }
}

/// The joined text of the first element that `selector` matches.
fn select_text(html: &str, selector: &str) -> (r: Option<Option<String>>)
    ensures
        match (r, selected_text(html@, selector@)) {
            (Some(Some(t)), Some(Some(s))) => t@ == s,
            (Some(None), Some(None)) => true,
            (None, None) => true,
            _ => false,
        },
{
    match select_first_text(html, selector) {
        None => None,
        Some(None) => Some(None),
        Some(Some(nodes)) => Some(Some(join_strings(&nodes, " "))),
    }
}

fn select_body_text(html: &str) -> (r: Option<String>)
    ensures
        opt_view(r) == body_text(html@),
{
    match select_text(html, "body") {
        Some(Some(t)) => Some(t),
        _ => None,
    }
}

/// The lowercase body text, or the lowercase page source.
fn search_text(html: &str) -> (r: Vec<char>)
    ensures
        r@ == searched_text(html@),
{
    match select_body_text(html) {
        Some(t) => lowercase_chars(t.as_str()),
        None => lowercase_chars(html),
    }
}

/// Whether some phrase of `phrases`, in lowercase, occurs in `text`.
fn mentions(text: &Vec<char>, phrases: &Vec<String>) -> (r: bool)
    ensures
        r == mentions_any(text@, strings_view(phrases@)),
{
    let n = phrases.len();
    let mut k: usize = 0;
    while k < n
        invariant
            n == phrases.len(),
            k <= n,
            forall|j: int|
                0 <= j < k ==> !has_substring(text@, lowercase(#[trigger] phrases@[j]@)),
        decreases n - k,
    {
        let p = lowercase_chars(phrases[k].as_str());
        if contains_chars(text, &p) {
            assert(strings_view(phrases@)[k as int] == phrases@[k as int]@);
            return true;
        }
        k = k + 1;
    }
    assert forall|j: int|
        0 <= j < strings_view(phrases@).len() implies !has_substring(
        text@,
        lowercase(#[trigger] strings_view(phrases@)[j]),
    ) by {
        assert(strings_view(phrases@)[j] == phrases@[j]@);
    }
    false
}

fn strings_from(items: &[&str]) -> (r: Vec<String>)
    ensures
        strings_view(r@) == items@.map_values(|s: &str| s@),
{
    let mut r: Vec<String> = Vec::new();
    let n = items.len();
    let mut k: usize = 0;
    while k < n
        invariant
            n == items@.len(),
            k <= n,
            strings_view(r@) == items@.take(k as int).map_values(|s: &str| s@),
        decreases n - k,
    {
        r.push(text_of(items[k]));
        assert(items@.take(k + 1).map_values(|s: &str| s@) =~= items@.take(k as int).map_values(
            |s: &str| s@,
        ).push(items@[k as int]@));
        assert(strings_view(r@) =~= strings_view(r@.drop_last()).push(r@.last()@));
        k = k + 1;
    }
    assert(items@.take(n as int) =~= items@);
    r
}

fn default_in_stock_list() -> (r: Vec<String>)
    ensures
        strings_view(r@) == default_in_stock(),
{
    let items: [&str; 4] = ["in stock", "available", "add to cart", "buy now"];
    let r = strings_from(&items);
    assert(strings_view(r@) =~= default_in_stock());
    r
}

fn default_out_of_stock_list() -> (r: Vec<String>)
    ensures
        strings_view(r@) == default_out_of_stock(),
{
    let items: [&str; 4] = ["out of stock", "sold out", "currently unavailable", "not available"];
    let r = strings_from(&items);
    assert(strings_view(r@) =~= default_out_of_stock());
    r
}

fn full_page(html: &str) -> (r: String)
    ensures
        r@ == full_page_value(html@),
{
    match select_body_text(html) {
        Some(t) => string_of(&trim_chars(&chars_of(t.as_str()))),
        None => text_of(html),
    }
}

fn price(html: &str, selector: &Option<String>) -> (r: String)
    ensures
        r@ == price_value(html@, opt_view(*selector)),
{
    let text = match selector {
        Some(sel) => match select_text(html, sel.as_str()) {
            Some(Some(t)) => t,
            _ => String::new(),
        },
        None => match select_body_text(html) {
            Some(t) => t,
            None => text_of(html),
        },
    };
    match find_first(PRICE_PATTERN, text.as_str()) {
        Some(Some(m)) => string_of(&trim_chars(&chars_of(m.as_str()))),
        _ => text_of("Price not found"),
    }
}

fn availability(html: &str, in_stock: &Vec<String>, out_of_stock: &Vec<String>) -> (r: String)
    ensures
        r@ == availability_value(html@, strings_view(in_stock@), strings_view(out_of_stock@)),
{
    let text = search_text(html);
    let in_found = if in_stock.len() == 0 {
        mentions(&text, &default_in_stock_list())
    } else {
        mentions(&text, in_stock)
    };
    if in_found {
        return text_of("In Stock");
    }
    let out_found = if out_of_stock.len() == 0 {
        mentions(&text, &default_out_of_stock_list())
    } else {
        mentions(&text, out_of_stock)
    };
    if out_found {
        text_of("Out of Stock")
    } else {
        text_of("Unknown Status")
    }
}

fn keywords_report(html: &str, keywords: &Vec<String>) -> (r: Result<String, String>)
    ensures
        result_view(r) == keyword_result(html@, strings_view(keywords@)),
{
    if keywords.len() == 0 {
        return Err(text_of("Keyword tracking mode requires at least one keyword."));
    }
    let text = search_text(html);
    let ghost kv = strings_view(keywords@);
    let mut missing: Vec<String> = Vec::new();
    let n = keywords.len();
    let mut k: usize = 0;
    while k < n
        invariant
            n == keywords.len(),
            k <= n,
            kv == strings_view(keywords@),
            strings_view(missing@) == missing_keywords(text@, kv.take(k as int)),
        decreases n - k,
    {
        assert(kv.take(k + 1).drop_last() =~= kv.take(k as int));
        assert(kv.take(k + 1).last() == keywords@[k as int]@);
        let p = lowercase_chars(keywords[k].as_str());
        if !contains_chars(&text, &p) {
            let ghost before = strings_view(missing@);
            missing.push(keywords[k].clone());
            assert(strings_view(missing@) =~= before.push(keywords@[k as int]@));
        }
        k = k + 1;
    }
    assert(kv.take(n as int) =~= kv);
    if missing.len() == 0 {
        let all = join_strings(keywords, ", ");
        Ok(concat("All keywords found: ", all.as_str()))
    } else {
        let names = join_strings(&missing, ", ");
        Err(concat("Missing keywords: ", names.as_str()))
    }
}

fn section(html: &str, selector: &String) -> (r: Result<String, String>)
    ensures
        result_view(r) == section_result(html@, selector@),
{
    match select_text(html, selector.as_str()) {
        Some(Some(t)) => Ok(string_of(&trim_chars(&chars_of(t.as_str())))),
        Some(None) => Err(text_of("Section not found")),
        None => Err(text_of("Invalid CSS selector")),
    }
}

/// What a check extracts from the page source `html` in tracking mode
/// `mode`: the value, or the message of the error to record.
pub fn extract_value(html: &str, mode: &TrackingMode) -> (r: Result<String, String>)
    ensures
        result_view(r) == extraction(html@, mode@),
{
    match mode {
        TrackingMode::FullPage => Ok(full_page(html)),
        TrackingMode::Price { selector } => Ok(price(html, selector)),
        TrackingMode::Availability { in_stock_keywords, out_of_stock_keywords } => Ok(
            availability(html, in_stock_keywords, out_of_stock_keywords),
        ),
        TrackingMode::Keyword { keywords } => keywords_report(html, keywords),
        TrackingMode::HtmlSection { selector } => section(html, selector),
    }
}

// ---------------------------------------------------------------------------
// Recording a check
// ---------------------------------------------------------------------------

/// What fetching a watch's page gave.
#[derive(Clone, Debug)]
pub enum FetchOutcome {
    /// The request could not be made or sent; the error's message.
    RequestFailed(String),
    /// The server answered with a status that is not a success; the status
    /// as it is displayed (such as `404 Not Found`).
    HttpStatus(String),
    /// The response body could not be read as text; the error's message.
    BodyUnreadable(String),
    /// The page source.
    Page(String),
}

/// `w` once a check has started at `started`: the time is noted and the
/// check is counted.
pub open spec fn begun(w: WatchView, started: Timestamp) -> WatchView {
    WatchView { last_checked: Some(started), total_checks: (w.total_checks + 1) as u64, ..w }
}

/// `w` once `value` has been extracted at `at`. The last value becomes the
/// previous one, so the previous value is always the value from the check
/// before the last one. A value that differs from the last one, or the
/// first value ever, is an unread change.
pub open spec fn with_value(w: WatchView, value: Seq<char>, at: Timestamp) -> WatchView {
    let changed = match w.last_value {
        Some(old) => old != value,
        None => true,
    };
    WatchView {
        previous_value: w.last_value,
        has_unread_change: if changed {
            true
        } else {
            w.has_unread_change
        },
        last_value: Some(value),
        last_success: Some(at),
        total_successes: (w.total_successes + 1) as u64,
        last_error: None,
        ..w
    }
}

/// `w` after a check that started at `started` and fetched `fetched`; an
/// error is recorded at `logged`, and the check finishes at `finished`.
/// Every failure to fetch the page is recorded in the error history. An
/// extraction error is recorded there too, and also stands as the
/// extracted value.
pub open spec fn after_check(
    w: WatchView,
    started: Timestamp,
    fetched: FetchOutcome,
    logged: Timestamp,
    finished: Timestamp,
) -> WatchView {
    let b = begun(w, started);
    match fetched {
        FetchOutcome::RequestFailed(e) => with_error(b, "Request failed: "@ + e@, logged),
        FetchOutcome::HttpStatus(status) => with_error(b, "HTTP "@ + status@, logged),
        FetchOutcome::BodyUnreadable(e) => with_error(b, "Failed to get text: "@ + e@, logged),
        FetchOutcome::Page(html) => match extraction(html@, w.mode) {
            Ok(v) => with_value(b, v, finished),
            Err(msg) => with_value(with_error(b, msg, logged), msg, finished),
        },
    }
}

/// What a check reports: an error when the page could not be fetched.
pub open spec fn check_report(fetched: FetchOutcome) -> Result<(), Seq<char>> {
    match fetched {
        FetchOutcome::RequestFailed(e) => Err(e@),
        FetchOutcome::HttpStatus(status) => Err("HTTP "@ + status@),
        FetchOutcome::BodyUnreadable(e) => Err(e@),
        FetchOutcome::Page(_) => Ok(()),
    }
}

pub open spec fn report_view(r: Result<(), String>) -> Result<(), Seq<char>> {
    match r {
        Ok(()) => Ok(()),
        Err(e) => Err(e@),
    }
}

/// A check can be counted: the counters have room for one more.
pub open spec fn can_count_check(w: WatchView, fetched: FetchOutcome) -> bool {
    &&& w.total_checks < u64::MAX
    &&& fetched is Page ==> w.total_successes < u64::MAX
}

/// Records a check of `watch` that started at `started` and fetched
/// `fetched`, stamping an error it records with `logged` and its success
/// with `finished`.
pub fn check_watch_at(
    watch: &mut Watch,
    started: Timestamp,
    fetched: FetchOutcome,
    logged: Timestamp,
    finished: Timestamp,
) -> (r: Result<(), String>)
    requires
        can_count_check(old(watch)@, fetched),
    ensures
        final(watch)@ == after_check(old(watch)@, started, fetched, logged, finished),
        report_view(r) == check_report(fetched),
{
    let ghost w0 = watch@;
    watch.last_checked = Some(started);
    watch.total_checks = watch.total_checks + 1;
    assert(watch@ =~= begun(w0, started));
    match fetched {
        FetchOutcome::RequestFailed(e) => {
            let msg = concat("Request failed: ", e.as_str());
            watch.add_error_at(msg, logged);
            Err(e)
        },
        FetchOutcome::HttpStatus(status) => {
            let msg = concat("HTTP ", status.as_str());
            watch.add_error_at(msg.clone(), logged);
            Err(msg)
        },
        FetchOutcome::BodyUnreadable(e) => {
            let msg = concat("Failed to get text: ", e.as_str());
            watch.add_error_at(msg, logged);
            Err(e)
        },
        FetchOutcome::Page(html) => {
            let extracted = extract_value(html.as_str(), &watch.mode);
            let value = match extracted {
                Ok(v) => v,
                Err(msg) => {
                    watch.add_error_at(msg.clone(), logged);
                    msg
                },
            };
            let ghost w1 = watch@;
            let changed = match &watch.last_value {
                Some(old) => *old != value,
                None => true,
            };
            watch.previous_value = match &watch.last_value {
                Some(old) => Some(old.clone()),
                None => None,
            };
            if changed {
                watch.has_unread_change = true;
            }
            watch.last_value = Some(value);
            watch.last_success = Some(finished);
            watch.total_successes = watch.total_successes + 1;
            watch.last_error = None;
            assert(watch@ =~= with_value(w1, value@, finished));
            Ok(())
        },
    }
}

/// Records a check of `watch` that started at `started` and fetched
/// `fetched`; what it records is stamped with readings of the clock.
pub fn check_watch(watch: &mut Watch, started: Timestamp, fetched: FetchOutcome) -> (r: Result<
    (),
    String,
>)
    requires
        can_count_check(old(watch)@, fetched),
    ensures
        exists|logged: Timestamp, finished: Timestamp|
            clock_reading(logged) && clock_reading(finished) && final(watch)@ == after_check(
                old(watch)@,
                started,
                fetched,
                logged,
                finished,
            ),
        report_view(r) == check_report(fetched),
{
    let logged = current_time();
    let finished = current_time();
    check_watch_at(watch, started, fetched, logged, finished)
}

/// Every check is counted, and a check succeeds at most once: a watch that
/// never had more successes than checks still has none after a check.
pub proof fn lemma_successes_within_checks(
    w: WatchView,
    started: Timestamp,
    fetched: FetchOutcome,
    logged: Timestamp,
    finished: Timestamp,
)
    requires
        can_count_check(w, fetched),
        w.total_successes <= w.total_checks,
    ensures
        after_check(w, started, fetched, logged, finished).total_checks == w.total_checks + 1,
        after_check(w, started, fetched, logged, finished).total_successes <= after_check(
            w,
            started,
            fetched,
            logged,
            finished,
        ).total_checks,
        after_check(w, started, fetched, logged, finished).total_successes == w.total_successes + (
        if fetched is Page {
            1int
        } else {
            0int
        }),
        after_check(w, started, fetched, logged, finished).last_checked == Some(started),
{
}

/// A check that extracts the same value as last time raises no change: the
/// unread flag stays as it was, the value is kept (and so is now also the
/// previous value), and no error is recorded.
pub proof fn lemma_same_value_is_no_change(
    w: WatchView,
    started: Timestamp,
    html: String,
    logged: Timestamp,
    finished: Timestamp,
)
    requires
        can_count_check(w, FetchOutcome::Page(html)),
        extraction(html@, w.mode) matches Ok(v) && w.last_value == Some(v),
    ensures
        after_check(w, started, FetchOutcome::Page(html), logged, finished).has_unread_change
            == w.has_unread_change,
        after_check(w, started, FetchOutcome::Page(html), logged, finished).previous_value
            == w.last_value,
        after_check(w, started, FetchOutcome::Page(html), logged, finished).last_value == w.last_value,
        after_check(w, started, FetchOutcome::Page(html), logged, finished).last_error is None,
        after_check(w, started, FetchOutcome::Page(html), logged, finished).error_log == w.error_log,
{
}

/// A check that extracts a value different from the last one flags an
/// unread change and keeps the last value as the previous one.
pub proof fn lemma_new_value_is_change(
    w: WatchView,
    started: Timestamp,
    html: String,
    logged: Timestamp,
    finished: Timestamp,
)
    requires
        can_count_check(w, FetchOutcome::Page(html)),
        extraction(html@, w.mode) matches Ok(v) && w.last_value matches Some(old) && old != v,
    ensures
        after_check(w, started, FetchOutcome::Page(html), logged, finished).has_unread_change,
        after_check(w, started, FetchOutcome::Page(html), logged, finished).previous_value
            == w.last_value,
        after_check(w, started, FetchOutcome::Page(html), logged, finished).last_value == Some(
            extraction(html@, w.mode)->Ok_0,
        ),
{
}

/// A check that fetched the page moves the last value to the previous one,
/// so the previous value is always the value from the check before the
/// last one.
pub proof fn lemma_previous_is_value_before(
    w: WatchView,
    started: Timestamp,
    html: String,
    logged: Timestamp,
    finished: Timestamp,
)
    requires
        can_count_check(w, FetchOutcome::Page(html)),
    ensures
        after_check(w, started, FetchOutcome::Page(html), logged, finished).previous_value
            == w.last_value,
        after_check(w, started, FetchOutcome::Page(html), logged, finished).last_value is Some,
{
}

/// A check that could not fetch the page records the failure as the last
/// error and as the newest entry of the error history, and leaves what was
/// extracted before as it was.
pub proof fn lemma_fetch_failure_recorded(
    w: WatchView,
    started: Timestamp,
    fetched: FetchOutcome,
    logged: Timestamp,
    finished: Timestamp,
)
    requires
        can_count_check(w, fetched),
        !(fetched is Page),
    ensures
        ({
            let a = after_check(w, started, fetched, logged, finished);
            &&& a.last_error is Some
            &&& a.error_log.last() == (logged, a.last_error->Some_0)
            &&& a.error_log.len() == if w.error_log.len() < ERROR_HISTORY_LEN {
                w.error_log.len() + 1int
            } else {
                ERROR_HISTORY_LEN as int
            }
            &&& a.last_value == w.last_value
            &&& a.previous_value == w.previous_value
            &&& a.has_unread_change == w.has_unread_change
            &&& a.last_success == w.last_success
            &&& a.total_successes == w.total_successes
        }),
{
    let b = begun(w, started);
    let msg = match fetched {
        FetchOutcome::RequestFailed(e) => "Request failed: "@ + e@,
        FetchOutcome::HttpStatus(status) => "HTTP "@ + status@,
        FetchOutcome::BodyUnreadable(e) => "Failed to get text: "@ + e@,
        FetchOutcome::Page(_) => Seq::empty(),
    };
    lemma_error_history_bounded(b, msg, logged);
}

proof fn lemma_mentions_one_of_four(
    text: Seq<char>,
    a: Seq<char>,
    b: Seq<char>,
    c: Seq<char>,
    d: Seq<char>,
)
    ensures
        mentions_any(text, seq![a, b, c, d]) <==> has_substring(text, lowercase(a))
            || has_substring(text, lowercase(b)) || has_substring(text, lowercase(c))
            || has_substring(text, lowercase(d)),
{
    let p = seq![a, b, c, d];
    assert(p[0] == a && p[1] == b && p[2] == c && p[3] == d);
    if mentions_any(text, p) {
        let k = choose|k: int| 0 <= k < p.len() && has_substring(text, lowercase(#[trigger] p[k]));
        assert(k == 0 || k == 1 || k == 2 || k == 3);
    }
}

/// With no phrases of its own, an availability watch goes by the page's
/// text and these phrases, each taken in lowercase: "in stock",
/// "available", "add to cart" or "buy now" make it "In Stock"; failing
/// those, "out of stock", "sold out", "currently unavailable" or "not
/// available" make it "Out of Stock"; failing all of them the status is
/// "Unknown Status".
pub proof fn lemma_default_availability(html: Seq<char>)
    ensures
        ({
            let text = searched_text(html);
            let in_stock = has_substring(text, lowercase("in stock"@)) || has_substring(
                text,
                lowercase("available"@),
            ) || has_substring(text, lowercase("add to cart"@)) || has_substring(
                text,
                lowercase("buy now"@),
            );
            let out_of_stock = has_substring(text, lowercase("out of stock"@)) || has_substring(
                text,
                lowercase("sold out"@),
            ) || has_substring(text, lowercase("currently unavailable"@)) || has_substring(
                text,
                lowercase("not available"@),
            );
            extraction(
                html,
                ModeView::Availability {
                    in_stock_keywords: Seq::empty(),
                    out_of_stock_keywords: Seq::empty(),
                },
            ) == Ok::<Seq<char>, Seq<char>>(
                if in_stock {
                    "In Stock"@
                } else if out_of_stock {
                    "Out of Stock"@
                } else {
                    "Unknown Status"@
                },
            )
        }),
{
    let text = searched_text(html);
    lemma_mentions_one_of_four(text, "in stock"@, "available"@, "add to cart"@, "buy now"@);
    lemma_mentions_one_of_four(
        text,
        "out of stock"@,
        "sold out"@,
        "currently unavailable"@,
        "not available"@,
    );
}

/// Whatever the page gives, the recorded value (the extracted value, or
/// the extraction error standing for it) becomes the last value and the
/// old last value the previous one; a recorded value that differs from the
/// last one, or is the first, is flagged as an unread change, and an equal
/// one leaves the flag as it was.
pub proof fn lemma_changed_value_is_flagged(
    w: WatchView,
    started: Timestamp,
    html: String,
    logged: Timestamp,
    finished: Timestamp,
)
    requires
        can_count_check(w, FetchOutcome::Page(html)),
    ensures
        ({
            let a = after_check(w, started, FetchOutcome::Page(html), logged, finished);
            let recorded = match extraction(html@, w.mode) {
                Ok(v) => v,
                Err(msg) => msg,
            };
            &&& a.last_value == Some(recorded)
            &&& a.previous_value == w.last_value
            &&& a.last_value != w.last_value ==> a.has_unread_change
            &&& a.last_value == w.last_value ==> a.has_unread_change == w.has_unread_change
        }),
{
}

proof fn lemma_missing_keywords(text: Seq<char>, keywords: Seq<Seq<char>>)
    ensures
        missing_keywords(text, keywords).len() == 0 <==> forall|k: int|
            0 <= k < keywords.len() ==> has_substring(text, lowercase(#[trigger] keywords[k])),
    decreases keywords.len(),
{
    if keywords.len() > 0 {
        let init = keywords.drop_last();
        lemma_missing_keywords(text, init);
        if forall|k: int|
            0 <= k < keywords.len() ==> has_substring(text, lowercase(#[trigger] keywords[k])) {
            assert forall|k: int| 0 <= k < init.len() implies has_substring(
                text,
                lowercase(#[trigger] init[k]),
            ) by {
                assert(init[k] == keywords[k]);
            }
            assert(has_substring(text, lowercase(keywords[keywords.len() - 1])));
        }
        if missing_keywords(text, keywords).len() == 0 {
            assert forall|k: int| 0 <= k < keywords.len() implies has_substring(
                text,
                lowercase(#[trigger] keywords[k]),
            ) by {
                if k < init.len() {
                    assert(init[k] == keywords[k]);
                }
            }
        }
    }
}

/// Keyword tracking succeeds exactly when every keyword occurs in the
/// page's text, ignoring case; without keywords it always fails.
pub proof fn lemma_keyword_success(html: Seq<char>, keywords: Seq<Seq<char>>)
    ensures
        keyword_result(html, keywords) is Ok <==> keywords.len() > 0 && forall|k: int|
            0 <= k < keywords.len() ==> has_substring(
                searched_text(html),
                lowercase(#[trigger] keywords[k]),
            ),
{
    lemma_missing_keywords(searched_text(html), keywords);
}

/// In availability tracking, in-stock phrases win: when the page mentions
/// one, the status is "In Stock" whatever else it mentions.
pub proof fn lemma_in_stock_first(
    html: Seq<char>,
    in_stock: Seq<Seq<char>>,
    out_of_stock: Seq<Seq<char>>,
)
    requires
        mentions_any(
            searched_text(html),
            if in_stock.len() == 0 {
                default_in_stock()
            } else {
                in_stock
            },
        ),
    ensures
        availability_value(html, in_stock, out_of_stock) == "In Stock"@,
{
}

} // verus!
