use duxnet::clock::{get_current_timestamp, timestamp_from};
use duxnet::error::{CoreError, MAX_RETRIES};
use duxnet::text::{
    chars_of, decimal_string, is_lex_less, joined, last_position, parse_decimal, parse_digits, replace_char, same_text,
    skip_chars, starts_with,
};
use duxnet::types::Currency;

#[test]
fn decimal_numerals() {
    assert_eq!(decimal_string(0), "0");
    assert_eq!(decimal_string(7), "7");
    assert_eq!(decimal_string(10), "10");
    assert_eq!(decimal_string(1234567890), "1234567890");
    assert_eq!(decimal_string(u64::MAX), "18446744073709551615");
}

#[test]
fn prefixes() {
    assert!(starts_with("service:abc", "service:"));
    assert!(starts_with("service:", "service:"));
    assert!(starts_with("x", ""));
    assert!(!starts_with("servic", "service:"));
    assert!(!starts_with("task:1", "service:"));
    assert!(starts_with("héllo", "hé"));
}

#[test]
fn characters_not_bytes() {
    assert_eq!(chars_of("aé日"), vec!['a', 'é', '日']);
    assert_eq!(skip_chars("é日本", 1), "日本");
    assert_eq!(skip_chars("abc", 3), "");
    assert_eq!(joined("ab", "cd"), "abcd");
    assert_eq!(replace_char("did:duxnet:a", ':', '-'), "did-duxnet-a");
    assert_eq!(replace_char("none", ':', '-'), "none");
}

#[test]
fn text_equality() {
    assert!(same_text("abc", "abc"));
    assert!(!same_text("abc", "abd"));
    assert!(!same_text("abc", "ab"));
    assert!(same_text("", ""));
}

#[test]
fn lexicographic_order() {
    assert!(is_lex_less("a", "b"));
    assert!(!is_lex_less("b", "a"));
    assert!(!is_lex_less("a", "a"));
    assert!(is_lex_less("", "a"));
    assert!(!is_lex_less("a", ""));
    assert!(is_lex_less("ab", "abc"));
    assert!(is_lex_less("abc", "abd"));
    assert!(is_lex_less("Z", "a"));
    for (a, b) in [("did:x", "did:y"), ("did:x", "did:x1"), ("é", "z"), ("z", "é"), ("", "")] {
        assert_eq!(is_lex_less(a, b), a < b);
    }
}

#[test]
fn currency_symbols() {
    assert_eq!(Currency::BTC.symbol(), "BTC");
    assert_eq!(Currency::DOGE.symbol_lowercase(), "doge");
    assert_eq!(Currency::from_symbol("USDC"), Some(Currency::USDC));
    assert_eq!(Currency::from_symbol("DUX"), Some(Currency::DUX));
    assert_eq!(Currency::from_symbol("usdc"), None);
    assert_eq!(Currency::from_symbol(""), None);
    assert!(Currency::XMR.has_fund());
    assert!(!Currency::DUX.has_fund());
    for c in [Currency::BTC, Currency::ETH, Currency::USDC, Currency::LTC, Currency::XMR, Currency::DOGE, Currency::DUX] {
        assert_eq!(Currency::from_symbol(c.symbol()), Some(c));
        assert_eq!(c.symbol().to_lowercase(), c.symbol_lowercase());
    }
}

#[test]
fn the_clock_is_past_2020() {
    assert!(get_current_timestamp() > 1_577_836_800);
    assert_eq!(timestamp_from(Some(1_577_836_800)), 1_577_836_800);
    assert_eq!(timestamp_from(Some(0)), 0);
    assert_eq!(timestamp_from(None), 0);
}

#[test]
fn only_external_failures_are_retried_with_growing_delays() {
    assert_eq!(CoreError::ReleaseFailed.retry_delay(0), None);
    assert_eq!(CoreError::ReleaseFailed.retry_delay(1), Some(1));
    assert_eq!(CoreError::ReleaseFailed.retry_delay(2), Some(2));
    assert_eq!(CoreError::ReleaseFailed.retry_delay(3), Some(4));
    assert_eq!(CoreError::NothingRecorded.retry_delay(4), Some(8));
    assert_eq!(CoreError::NothingRecorded.retry_delay(MAX_RETRIES), Some(16));
    assert_eq!(CoreError::NothingRecorded.retry_delay(MAX_RETRIES + 1), None);
    assert_eq!(CoreError::BadSignature.retry_delay(1), None);
    assert_eq!(CoreError::NotDue.retry_delay(1), None);
    assert!(!CoreError::NotDue.is_retryable());
}

#[test]
fn numerals_are_read_back() {
    for n in [0u64, 7, 10, 99, 100, 1_234_567_890, u64::MAX] {
        assert_eq!(parse_decimal(&decimal_string(n)), Some(n));
    }
    assert_eq!(parse_decimal("0042"), Some(42));
    assert_eq!(parse_decimal(""), None);
    assert_eq!(parse_decimal("-1"), None);
    assert_eq!(parse_decimal("1 "), None);
    assert_eq!(parse_decimal("١٢"), None);
    assert_eq!(parse_decimal("18446744073709551616"), None);
    assert_eq!(parse_decimal("99999999999999999999999"), None);
    assert_eq!(parse_decimal("1844674407370955161x"), None);
    let chars: Vec<char> = "ab-12-34".chars().collect();
    assert_eq!(last_position(&chars, '-'), Some(5));
    assert_eq!(last_position(&chars, 'a'), Some(0));
    assert_eq!(last_position(&chars, 'z'), None);
    assert_eq!(parse_digits(&chars, 6), Some(34));
    assert_eq!(parse_digits(&chars, 3), None);
    assert_eq!(parse_digits(&chars, 8), None);
}
