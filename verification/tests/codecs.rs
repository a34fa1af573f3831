use execute_payments::digits::cents_to_dec;
use execute_payments::digits::i32_to_dec;
use execute_payments::digits::parse_cents_dec;
use execute_payments::digits::parse_i32_dec;
use execute_payments::digits::parse_u64_dec;
use execute_payments::digits::u64_to_dec;
use execute_payments::errors::RepositoryError;
use execute_payments::query::build_latest_query;
use execute_payments::query::RepositoryConfig;

#[test]
fn unsigned_numerals_render_canonically() {
    assert_eq!(u64_to_dec(0), "0");
    assert_eq!(u64_to_dec(7), "7");
    assert_eq!(u64_to_dec(10), "10");
    assert_eq!(u64_to_dec(90210), "90210");
    assert_eq!(u64_to_dec(u64::MAX), "18446744073709551615");
}

#[test]
fn signed_numerals_render_canonically() {
    assert_eq!(i32_to_dec(0), "0");
    assert_eq!(i32_to_dec(-1), "-1");
    assert_eq!(i32_to_dec(-123), "-123");
    assert_eq!(i32_to_dec(i32::MIN), "-2147483648");
    assert_eq!(i32_to_dec(i32::MAX), "2147483647");
}

#[test]
fn cent_amounts_render_with_two_fraction_digits() {
    assert_eq!(cents_to_dec(0), "0.00");
    assert_eq!(cents_to_dec(5), "0.05");
    assert_eq!(cents_to_dec(999), "9.99");
    assert_eq!(cents_to_dec(1999), "19.99");
    assert_eq!(cents_to_dec(100), "1.00");
    assert_eq!(cents_to_dec(u64::MAX), "184467440737095516.15");
}

#[test]
fn parsing_inverts_rendering() {
    for v in [0u64, 1, 9, 10, 99, 12345, u64::MAX] {
        assert_eq!(parse_u64_dec(&u64_to_dec(v)), Some(v));
        assert_eq!(parse_cents_dec(&cents_to_dec(v)), Some(v));
    }
    for v in [0i32, 1, -1, 42, -42, i32::MIN, i32::MAX] {
        assert_eq!(parse_i32_dec(&i32_to_dec(v)), Some(v));
    }
}

#[test]
fn non_canonical_or_overflowing_numerals_parse_to_nothing() {
    assert_eq!(parse_u64_dec(""), None);
    assert_eq!(parse_u64_dec("01"), None);
    assert_eq!(parse_u64_dec("1x"), None);
    assert_eq!(parse_u64_dec("18446744073709551616"), None);
    assert_eq!(parse_u64_dec("99999999999999999999999"), None);
    assert_eq!(parse_i32_dec("-0"), None);
    assert_eq!(parse_i32_dec("2147483648"), None);
    assert_eq!(parse_i32_dec("-2147483649"), None);
    assert_eq!(parse_i32_dec("--1"), None);
    assert_eq!(parse_cents_dec("9.9"), None);
    assert_eq!(parse_cents_dec("9,99"), None);
    assert_eq!(parse_cents_dec("18446744073709551616.00"), None);
    assert_eq!(parse_cents_dec("184467440737095516.16"), None);
}

#[test]
fn latest_event_query_asks_for_one_newest_item() {
    let q = build_latest_query("payments".to_string(), "order-1".to_string());
    assert_eq!(q.table_name, "payments");
    assert_eq!(q.source, "order-1");
    assert_eq!(q.key_attribute, "source");
    assert_eq!(q.name_placeholder, "#source");
    assert_eq!(q.value_placeholder, ":source");
    assert_eq!(q.key_condition, "#source = :source");
    assert_eq!(q.limit, 1);
    assert!(!q.scan_forward);
}

#[test]
fn table_name_falls_back_to_the_default() {
    let config = RepositoryConfig { table_name: Some("payments".to_string()) };
    assert_eq!(config.table_name_or_default(), "payments");
    let config = RepositoryConfig { table_name: None };
    assert_eq!(config.table_name_or_default(), "TABLE_NAME");
}

#[test]
fn repository_errors_carry_their_messages() {
    assert_eq!(RepositoryError::save_failure().message, "Error saving event");
    assert_eq!(
        RepositoryError::query_failure("order-1").message,
        "Error retrieving item with source order-1"
    );
}
