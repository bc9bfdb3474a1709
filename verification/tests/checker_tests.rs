use pagewatch::checker::{check_watch, check_watch_at, extract_value, FetchOutcome};
use pagewatch::models::{Timestamp, TrackingMode, Watch, ERROR_HISTORY_LEN};

fn at(secs: i64) -> Timestamp {
    Timestamp { secs, nanos: 0 }
}

fn page(body: &str) -> String {
    format!("<html><head><title>T</title></head><body>{}</body></html>", body)
}

fn keywords(list: &[&str]) -> Vec<String> {
    list.iter().map(|s| s.to_string()).collect()
}

#[test]
fn default_mode_is_full_page() {
    assert_eq!(TrackingMode::default(), TrackingMode::FullPage);
}

#[test]
fn new_watch_is_unchecked_hourly() {
    let w = Watch::new("Shop".to_string(), "https://example.com".to_string(), TrackingMode::FullPage);
    assert_eq!(w.name, "Shop");
    assert_eq!(w.url, "https://example.com");
    assert_eq!(w.interval_seconds, 3600);
    assert_eq!(w.last_checked, None);
    assert_eq!(w.last_value, None);
    assert!(!w.has_unread_change);
    assert_eq!(w.total_checks, 0);
    assert_eq!(w.total_successes, 0);
    assert!(w.error_log.is_empty());
    let other = Watch::new("Shop".to_string(), "https://example.com".to_string(), TrackingMode::FullPage);
    assert_ne!(w.id, other.id);
    let id = uuid::Uuid::from_u128(w.id);
    assert_eq!(id.get_version_num(), 4);
    assert_eq!(id.get_variant(), uuid::Variant::RFC4122);
}

#[test]
fn error_history_keeps_last_ten() {
    let mut w = Watch::new("a".to_string(), "u".to_string(), TrackingMode::FullPage);
    for i in 0..12 {
        w.add_error_at(format!("e{}", i), at(i));
    }
    assert_eq!(w.error_log.len(), ERROR_HISTORY_LEN);
    assert_eq!(w.error_log[0], (at(2), "e2".to_string()));
    assert_eq!(w.error_log[9], (at(11), "e11".to_string()));
    assert_eq!(w.last_error, Some("e11".to_string()));
    w.add_error("now".to_string());
    assert_eq!(w.error_log.len(), ERROR_HISTORY_LEN);
    assert_eq!(w.error_log[9].1, "now");
}

#[test]
fn overlong_loaded_history_is_cut_to_last_ten() {
    let mut w = Watch::new("a".to_string(), "u".to_string(), TrackingMode::FullPage);
    w.error_log = (0..15).map(|i| (at(i), format!("old{}", i))).collect();
    w.add_error_at("new".to_string(), at(100));
    assert_eq!(w.error_log.len(), ERROR_HISTORY_LEN);
    assert_eq!(w.error_log[0], (at(6), "old6".to_string()));
    assert_eq!(w.error_log[8], (at(14), "old14".to_string()));
    assert_eq!(w.error_log[9], (at(100), "new".to_string()));
}

#[test]
fn full_page_is_trimmed_body_text() {
    let r = extract_value(&page("  <p>Hello</p>\n<p>World</p>  "), &TrackingMode::FullPage);
    assert_eq!(r, Ok("Hello \n World".to_string()));
    let r = extract_value("no markup at all", &TrackingMode::FullPage);
    assert_eq!(r, Ok("no markup at all".to_string()));
}

#[test]
fn price_is_found_in_body() {
    let html = page("<div>Only <b>$19.99</b> today</div>");
    assert_eq!(extract_value(&html, &TrackingMode::Price { selector: None }), Ok("$19.99".to_string()));
    let html = page("<span class='p'>Price: 50 EUR</span><span>$3</span>");
    assert_eq!(
        extract_value(&html, &TrackingMode::Price { selector: Some(".p".to_string()) }),
        Ok("50 EUR".to_string())
    );
    assert_eq!(
        extract_value(&page("nothing here"), &TrackingMode::Price { selector: None }),
        Ok("Price not found".to_string())
    );
    assert_eq!(
        extract_value(&html, &TrackingMode::Price { selector: Some("[[".to_string()) }),
        Ok("Price not found".to_string())
    );
}

#[test]
fn availability_prefers_in_stock() {
    let mode = TrackingMode::Availability { in_stock_keywords: vec![], out_of_stock_keywords: vec![] };
    assert_eq!(extract_value(&page("<p>IN STOCK now</p>"), &mode), Ok("In Stock".to_string()));
    assert_eq!(extract_value(&page("<p>Sold Out</p>"), &mode), Ok("Out of Stock".to_string()));
    assert_eq!(extract_value(&page("<p>In stock. Sold out soon.</p>"), &mode), Ok("In Stock".to_string()));
    assert_eq!(extract_value(&page("<p>hmm</p>"), &mode), Ok("Unknown Status".to_string()));
    let custom = TrackingMode::Availability {
        in_stock_keywords: keywords(&["Ready To Ship"]),
        out_of_stock_keywords: keywords(&["Backorder"]),
    };
    assert_eq!(extract_value(&page("ready to ship"), &custom), Ok("In Stock".to_string()));
    assert_eq!(extract_value(&page("in stock"), &custom), Ok("Unknown Status".to_string()));
    assert_eq!(extract_value(&page("BACKORDER"), &custom), Ok("Out of Stock".to_string()));
}

#[test]
fn keywords_report_missing_ones() {
    let mode = TrackingMode::Keyword { keywords: keywords(&["Rust", "Verus"]) };
    assert_eq!(
        extract_value(&page("rust and VERUS"), &mode),
        Ok("All keywords found: Rust, Verus".to_string())
    );
    assert_eq!(extract_value(&page("rust only"), &mode), Err("Missing keywords: Verus".to_string()));
    assert_eq!(
        extract_value(&page("x"), &TrackingMode::Keyword { keywords: vec![] }),
        Err("Keyword tracking mode requires at least one keyword.".to_string())
    );
}

#[test]
fn section_text_and_errors() {
    let html = page("<div id='x'>  Section   text </div>");
    assert_eq!(
        extract_value(&html, &TrackingMode::HtmlSection { selector: "#x".to_string() }),
        Ok("Section   text".to_string())
    );
    assert_eq!(
        extract_value(&html, &TrackingMode::HtmlSection { selector: "#y".to_string() }),
        Err("Section not found".to_string())
    );
    assert_eq!(
        extract_value(&html, &TrackingMode::HtmlSection { selector: "[[".to_string() }),
        Err("Invalid CSS selector".to_string())
    );
}

#[test]
fn first_check_is_a_change() {
    let mut w = Watch::new("a".to_string(), "u".to_string(), TrackingMode::HtmlSection { selector: "p".to_string() });
    let r = check_watch_at(&mut w, at(10), FetchOutcome::Page(page("<p>v1</p>")), at(11), at(11));
    assert_eq!(r, Ok(()));
    assert_eq!(w.last_checked, Some(at(10)));
    assert_eq!(w.last_success, Some(at(11)));
    assert_eq!(w.last_value, Some("v1".to_string()));
    assert_eq!(w.previous_value, None);
    assert!(w.has_unread_change);
    assert_eq!((w.total_checks, w.total_successes), (1, 1));

    w.has_unread_change = false;
    check_watch_at(&mut w, at(20), FetchOutcome::Page(page("<p>v1</p>")), at(21), at(21)).unwrap();
    assert!(!w.has_unread_change);
    assert_eq!(w.previous_value, Some("v1".to_string()));

    check_watch_at(&mut w, at(30), FetchOutcome::Page(page("<p>v2</p>")), at(31), at(31)).unwrap();
    assert!(w.has_unread_change);
    assert_eq!(w.previous_value, Some("v1".to_string()));
    assert_eq!(w.last_value, Some("v2".to_string()));
    assert_eq!((w.total_checks, w.total_successes), (3, 3));
}

#[test]
fn extraction_error_is_logged_and_recorded() {
    let mut w = Watch::new("a".to_string(), "u".to_string(), TrackingMode::HtmlSection { selector: "#gone".to_string() });
    let r = check_watch_at(&mut w, at(1), FetchOutcome::Page(page("<p>x</p>")), at(2), at(2));
    assert_eq!(r, Ok(()));
    assert_eq!(w.last_value, Some("Section not found".to_string()));
    assert_eq!(w.error_log, vec![(at(2), "Section not found".to_string())]);
    assert_eq!(w.last_error, None);
    assert_eq!(w.total_successes, 1);
}

#[test]
fn fetch_failures() {
    let mut w = Watch::new("a".to_string(), "u".to_string(), TrackingMode::FullPage);
    let r = check_watch_at(&mut w, at(1), FetchOutcome::HttpStatus("404 Not Found".to_string()), at(2), at(2));
    assert_eq!(r, Err("HTTP 404 Not Found".to_string()));
    assert_eq!(w.last_error, Some("HTTP 404 Not Found".to_string()));
    assert_eq!((w.total_checks, w.total_successes), (1, 0));

    let r = check_watch_at(&mut w, at(3), FetchOutcome::BodyUnreadable("bad body".to_string()), at(4), at(4));
    assert_eq!(r, Err("bad body".to_string()));
    assert_eq!(w.last_error, Some("Failed to get text: bad body".to_string()));
    assert_eq!(w.error_log.len(), 2);

    let r = check_watch(&mut w, at(5), FetchOutcome::RequestFailed("dns".to_string()));
    assert_eq!(r, Err("dns".to_string()));
    assert_eq!(w.error_log.len(), 3);
    assert_eq!(w.last_error, Some("Request failed: dns".to_string()));
    assert_eq!(w.error_log[2].1, "Request failed: dns");
    assert!(w.error_log[2].0.secs >= 0 && w.error_log[2].0.nanos < 1_000_000_000);
    assert_eq!(w.last_value, None);
    assert_eq!(w.last_checked, Some(at(5)));
    assert_eq!((w.total_checks, w.total_successes), (3, 0));
}
