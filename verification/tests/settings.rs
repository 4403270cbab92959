use masp_read_layer::settings::{
    parse_unsigned, read_setting, PoolSettings, BACKOFF_BASE_MS, BACKOFF_CAP_MS,
    DEFAULT_MAX_CONN_RETRIES, DEFAULT_POOL_SIZE,
};

#[test]
fn defaults_stand_where_nothing_is_set() {
    let settings = PoolSettings::from_values(None, None);
    assert_eq!(settings.max_pool_size, 8);
    assert_eq!(settings.max_conn_retries, 5);
    assert_eq!(DEFAULT_POOL_SIZE, 8);
    assert_eq!(DEFAULT_MAX_CONN_RETRIES, 5);
    assert_eq!(BACKOFF_BASE_MS, 100);
    assert_eq!(BACKOFF_CAP_MS, 5000);
}

#[test]
fn numbers_are_read() {
    let settings = PoolSettings::from_values(Some("32"), Some("0"));
    assert_eq!(settings.max_pool_size, 32);
    assert_eq!(settings.max_conn_retries, 0);
    let signed = PoolSettings::from_values(Some("+16"), Some("007"));
    assert_eq!(signed.max_pool_size, 16);
    assert_eq!(signed.max_conn_retries, 7);
}

#[test]
fn what_is_no_number_gives_the_default() {
    for text in ["", "+", "-1", "eight", "8 ", " 8", "8.0", "0x10", "1_000", "++1", "٣"] {
        let settings = PoolSettings::from_values(Some(text), Some(text));
        assert_eq!(settings.max_pool_size, 8);
        assert_eq!(settings.max_conn_retries, 5);
    }
}

#[test]
fn numbers_too_large_give_the_default() {
    let settings = PoolSettings::from_values(
        Some("340282366920938463463374607431768211456"),
        Some("4294967296"),
    );
    assert_eq!(settings.max_pool_size, 8);
    assert_eq!(settings.max_conn_retries, 5);
    let largest = PoolSettings::from_values(None, Some("4294967295"));
    assert_eq!(largest.max_conn_retries, u32::MAX);
}

#[test]
fn parsing_agrees_with_the_standard_library() {
    let texts = [
        "0", "1", "9", "10", "+0", "+42", "000", "18446744073709551615", "18446744073709551616",
        "18446744073709551610", "1844674407370955161", "99999999999999999999", "", "+", "-", "-0",
        "+-1", "1+", "12a", "a12", " 12", "12\n", "１２",
    ];
    for text in texts {
        assert_eq!(parse_unsigned(text.as_bytes(), u64::MAX), text.parse::<u64>().ok());
        let small = text.parse::<u32>().ok().map(u64::from);
        assert_eq!(parse_unsigned(text.as_bytes(), u64::from(u32::MAX)), small);
        let size = text.parse::<usize>().ok();
        assert_eq!(
            PoolSettings::from_values(Some(text), None).max_pool_size,
            size.unwrap_or(8)
        );
    }
}

#[test]
fn parse_bounds_are_exact() {
    assert_eq!(parse_unsigned(b"255", 255), Some(255));
    assert_eq!(parse_unsigned(b"256", 255), None);
    assert_eq!(parse_unsigned(b"0", 0), Some(0));
    assert_eq!(parse_unsigned(b"1", 0), None);
    assert_eq!(read_setting(Some("300"), 255, 7), 7);
    assert_eq!(read_setting(Some("200"), 255, 7), 200);
    assert_eq!(read_setting(None, 255, 7), 7);
}
