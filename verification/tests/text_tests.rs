use pagewatch::text::{
    chars_of, contains_chars, decimal_string, join_strings, lowercase_chars, order_chars,
    parse_u64, split_keywords, trim_chars, Rank,
};

fn chars(s: &str) -> Vec<char> {
    s.chars().collect()
}

fn text(v: &[char]) -> String {
    v.iter().collect()
}

#[test]
fn trim_removes_surrounding_unicode_whitespace() {
    assert_eq!(text(&trim_chars(&chars("  \t hello world \n"))), "hello world");
    assert_eq!(text(&trim_chars(&chars("\u{3000}x\u{a0}"))), "x");
    assert_eq!(text(&trim_chars(&chars("   "))), "");
    assert_eq!(text(&trim_chars(&chars(""))), "");
    assert_eq!(text(&trim_chars(&chars("a b"))), "a b");
}

#[test]
fn substring_search() {
    assert!(contains_chars(&chars("add to cart now"), &chars("to cart")));
    assert!(contains_chars(&chars("abc"), &chars("")));
    assert!(contains_chars(&chars("abc"), &chars("abc")));
    assert!(!contains_chars(&chars("abc"), &chars("abcd")));
    assert!(!contains_chars(&chars("aab"), &chars("ba")));
    assert!(contains_chars(&chars("aaab"), &chars("aab")));
}

#[test]
fn parses_numbers_like_str_parse() {
    assert_eq!(parse_u64(&chars("3600")), Some(3600));
    assert_eq!(parse_u64(&chars("+5")), Some(5));
    assert_eq!(parse_u64(&chars("0")), Some(0));
    assert_eq!(parse_u64(&chars("18446744073709551615")), Some(u64::MAX));
    assert_eq!(parse_u64(&chars("18446744073709551616")), None);
    assert_eq!(parse_u64(&chars("")), None);
    assert_eq!(parse_u64(&chars("+")), None);
    assert_eq!(parse_u64(&chars("-1")), None);
    assert_eq!(parse_u64(&chars("12a")), None);
    for s in ["", "+", "-1", "007", "+12", "99999999999999999999", "4 2"] {
        assert_eq!(parse_u64(&chars(s)), s.parse::<u64>().ok(), "input {:?}", s);
    }
}

#[test]
fn writes_numbers_like_to_string() {
    for n in [0u64, 7, 10, 3600, 1234567890, u64::MAX] {
        assert_eq!(text(&decimal_string(n)), n.to_string());
        assert_eq!(parse_u64(&decimal_string(n)), Some(n));
    }
}

#[test]
fn splits_keyword_lists() {
    let parts = split_keywords(&chars(" in stock, sold out,, ,buy "));
    let parts: Vec<String> = parts.iter().map(|p| text(p)).collect();
    assert_eq!(parts, vec!["in stock", "sold out", "buy"]);
    assert!(split_keywords(&chars("")).is_empty());
    assert!(split_keywords(&chars(" , ,")).is_empty());
}

#[test]
fn joins_with_separator() {
    let parts = vec!["a".to_string(), "b".to_string(), "c".to_string()];
    assert_eq!(join_strings(&parts, ", "), "a, b, c");
    assert_eq!(join_strings(&vec!["solo".to_string()], ", "), "solo");
    assert_eq!(join_strings(&Vec::new(), ", "), "");
}

#[test]
fn orders_like_string_ord() {
    let pairs = [("apple", "banana"), ("b", "a"), ("same", "same"), ("ab", "abc"), ("é", "z")];
    for (a, b) in pairs {
        let expected = match a.cmp(b) {
            std::cmp::Ordering::Less => Rank::Less,
            std::cmp::Ordering::Equal => Rank::Equal,
            std::cmp::Ordering::Greater => Rank::Greater,
        };
        assert_eq!(order_chars(&chars(a), &chars(b)), expected);
    }
}

#[test]
fn lowercases_and_converts() {
    assert_eq!(text(&lowercase_chars("In STOCK Ä")), "in stock ä");
    assert_eq!(chars_of("héllo"), vec!['h', 'é', 'l', 'l', 'o']);
}
