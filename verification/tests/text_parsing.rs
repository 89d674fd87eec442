use zone_sniper::{parse_i64, parse_pairs_file, PairInterval};

#[test]
fn parse_i64_reads_signed_decimals() {
    assert_eq!(parse_i64("42"), Some(42));
    assert_eq!(parse_i64("+7"), Some(7));
    assert_eq!(parse_i64("-15"), Some(-15));
    assert_eq!(parse_i64("007"), Some(7));
    assert_eq!(parse_i64("9223372036854775807"), Some(i64::MAX));
    assert_eq!(parse_i64("-9223372036854775808"), Some(i64::MIN));
}

#[test]
fn parse_i64_rejects_everything_else() {
    assert_eq!(parse_i64(""), None);
    assert_eq!(parse_i64("-"), None);
    assert_eq!(parse_i64("+"), None);
    assert_eq!(parse_i64("1a"), None);
    assert_eq!(parse_i64(" 1"), None);
    assert_eq!(parse_i64("1_000"), None);
    assert_eq!(parse_i64("9223372036854775808"), None);
    assert_eq!(parse_i64("-9223372036854775809"), None);
    assert_eq!(parse_i64("--1"), None);
}

#[test]
fn parse_i64_agrees_with_std() {
    for s in ["0", "-0", "+0", "12345678901234567890", "-1", "x", "١٢"] {
        assert_eq!(parse_i64(s), s.parse::<i64>().ok(), "{}", s);
    }
}

#[test]
fn pair_suffixes_split_base_and_quote() {
    let quotes = vec!["BTC".to_string(), "USDT".to_string()];
    assert_eq!(PairInterval::get_quote("BTCUSDT", &quotes), Some("USDT"));
    assert_eq!(PairInterval::get_base("BTCUSDT", &quotes), Some("BTC"));
    assert_eq!(PairInterval::get_quote("ÄÖUSDT", &quotes), Some("USDT"));
    assert_eq!(PairInterval::get_base("ÄÖUSDT", &quotes), Some("ÄÖ"));
    assert_eq!(PairInterval::get_quote("ETHEUR", &quotes), None);
}

#[test]
fn pairs_file_lines_end_in_lf_or_crlf() {
    let content = "btcusdt\r\n# comment\r\n\n  ethusdt  \nsolusdt\r";
    assert_eq!(parse_pairs_file(content), vec!["BTCUSDT".to_string(), "ETHUSDT".to_string(), "SOLUSDT".to_string()]);
    assert!(parse_pairs_file("").is_empty());
}
