//! Decimal strings of the wire format, replay pacing, and error messages.

use acticks::errors::Error;
use acticks::market::replay_delay;
use acticks::utils::{from_str, from_str_optional, to_string, to_string_optional};

#[test]
fn formats_decimals() {
    assert_eq!(to_string(0), "0");
    assert_eq!(to_string(7), "7");
    assert_eq!(to_string(105), "105");
    assert_eq!(to_string(18446744073709551615), "18446744073709551615");
}

#[test]
fn parses_decimals() {
    assert_eq!(from_str("0"), Some(0));
    assert_eq!(from_str("15"), Some(15));
    assert_eq!(from_str("007"), Some(7));
    assert_eq!(from_str("18446744073709551615"), Some(18446744073709551615));
}

#[test]
fn rejects_non_decimals() {
    assert_eq!(from_str(""), None);
    assert_eq!(from_str("12a"), None);
    assert_eq!(from_str("-5"), None);
    assert_eq!(from_str("1.5"), None);
    // one past the largest representable number
    assert_eq!(from_str("18446744073709551616"), None);
}

#[test]
fn round_trips() {
    for n in [0u64, 1, 9, 10, 99, 100, 12345, 4294967295] {
        assert_eq!(from_str(&to_string(n)), Some(n));
    }
}

#[test]
fn optional_variants() {
    assert_eq!(to_string_optional(&Some(42)), Some("42".to_string()));
    assert_eq!(to_string_optional(&None), None);
    assert_eq!(from_str_optional(Some("42")), Some(42));
    assert_eq!(from_str_optional(None), None);
    assert_eq!(from_str_optional(Some("x")), None);
}

#[test]
fn error_messages() {
    assert_eq!(Error::NotFound.message(), "resource not found");
    assert_eq!(Error::Uncancelable.message(), "target order is no longer cancelable");
    assert_eq!(Error::UninitializedPrice.message(), "tried to get uninitialized price");
    assert_eq!(Error::BadRequest.message(), "malformed order intent");
    assert_eq!(Error::Other.message(), "internal error");
}

#[test]
fn replay_pacing() {
    // a trade one second of synthetic time after the epoch, replayed at
    // a thousand times wall speed, is due after a millisecond
    assert_eq!(replay_delay(2_000_000_000, 1_000_000_000, 1000), 1_000_000);
    assert_eq!(replay_delay(5, 5, 10), 0);
    assert_eq!(replay_delay(105, 100, 2), 2);
}
