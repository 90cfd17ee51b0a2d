use upstair_sim::parse::archive_member_count_ok;
use upstair_sim::parse::parse_bool_field;
use upstair_sim::parse::parse_scaled_field;
use upstair_sim::parse::parse_ticker_line;
use upstair_sim::parse::parse_trade_line;
use upstair_sim::parse::parse_u64_field;
use upstair_sim::parse::split_fields;
use upstair_sim::parse::ticker_file_name_matched;
use upstair_sim::parse::trade_file_name_matched;

#[test]
fn test_parse_trade_row() {
    let t = parse_trade_line(b"7,16541,2,33082,1699000000000,true", "BTCUSDT".to_string(), 0)
        .unwrap();
    assert_eq!(t.id, 7);
    assert_eq!(t.price, 16541);
    assert_eq!(t.qty, 2);
    assert_eq!(t.base_qty, 33082);
    assert_eq!(t.time, 1699000000000);
    assert!(t.is_buyer_maker);
    assert_eq!(t.symbol.as_str(), "BTCUSDT");
}

#[test]
fn test_parse_trade_row_bool_any_case() {
    let t = parse_trade_line(b"1,2,3,4,5,FALSE", "X".to_string(), 0).unwrap();
    assert!(!t.is_buyer_maker);
    let t = parse_trade_line(b"1,2,3,4,5,True", "X".to_string(), 0).unwrap();
    assert!(t.is_buyer_maker);
}

#[test]
fn test_parse_trade_row_rejects_bad_rows() {
    assert!(parse_trade_line(b"1,2,3,4,5", "X".to_string(), 0).is_none());
    assert!(parse_trade_line(b"1,2,x,4,5,true", "X".to_string(), 0).is_none());
    assert!(parse_trade_line(b"", "X".to_string(), 0).is_none());
    assert!(parse_trade_line(b"1,2,3,4,5,yes", "X".to_string(), 0).is_none());
}

#[test]
fn test_parse_ticker_row() {
    let b = parse_ticker_line(b"9,100,5,101,7,1000,2000", "BTCUSDT".to_string(), 0).unwrap();
    assert_eq!(b.update_id, 9);
    assert_eq!(b.best_bid_price, 100);
    assert_eq!(b.best_bid_qty, 5);
    assert_eq!(b.best_ask_price, 101);
    assert_eq!(b.best_ask_qty, 7);
    assert_eq!(b.transaction_time, 1000);
    assert_eq!(b.event_time, 2000);
}

#[test]
fn test_parse_u64_field_bounds() {
    assert_eq!(parse_u64_field(b"0"), Some(0));
    assert_eq!(parse_u64_field(b"18446744073709551615"), Some(u64::MAX));
    assert_eq!(parse_u64_field(b"18446744073709551616"), None);
    assert_eq!(parse_u64_field(b""), None);
    assert_eq!(parse_u64_field(b"12a"), None);
}

#[test]
fn test_parse_bool_field() {
    assert_eq!(parse_bool_field(b"true"), Some(true));
    assert_eq!(parse_bool_field(b"False"), Some(false));
    assert_eq!(parse_bool_field(b"t"), None);
}

#[test]
fn test_split_fields_keeps_empties() {
    let fields = split_fields(b"a,,b");
    assert_eq!(fields.len(), 3);
    assert_eq!(fields[0], b"a".to_vec());
    assert_eq!(fields[1], Vec::<u8>::new());
    assert_eq!(fields[2], b"b".to_vec());
}

#[test]
fn test_file_name_classification() {
    assert!(trade_file_name_matched(b"BTCUSDT-trades-2023-11-03.zip"));
    assert!(!trade_file_name_matched(b"BTCUSDT-bookticker-2023-11-03.zip"));
    assert!(ticker_file_name_matched(b"BTCUSDT-bookticker-2023-11-03.zip", true));
    assert!(!ticker_file_name_matched(b"BTCUSDT-bookTicker-2023-11-03.csv", true));
    assert!(ticker_file_name_matched(b"BTCUSDT-bookTicker-2023-11-03.csv", false));
}

// An archive is usable exactly when it has one member.
#[test]
fn test_archive_member_count() {
    assert!(!archive_member_count_ok(0));
    assert!(archive_member_count_ok(1));
    assert!(!archive_member_count_ok(2));
}

#[test]
fn test_parse_scaled_decimal_fields() {
    // two fractional digits of scale: 16541.50 becomes 1654150 units
    assert_eq!(parse_scaled_field(b"16541.50", 2), Some(1654150));
    assert_eq!(parse_scaled_field(b"16541", 2), Some(1654100));
    assert_eq!(parse_scaled_field(b"16541.5", 2), Some(1654150));
    // fraction beyond the scale is dropped
    assert_eq!(parse_scaled_field(b"0.129", 2), Some(12));
    assert_eq!(parse_scaled_field(b".5", 1), Some(5));
    assert_eq!(parse_scaled_field(b"5.", 0), Some(5));
    assert_eq!(parse_scaled_field(b"1.2.3", 2), None);
    assert_eq!(parse_scaled_field(b"1x.2", 2), None);
    assert_eq!(parse_scaled_field(b"1.x", 2), None);
    assert_eq!(parse_scaled_field(b"", 2), None);
}

#[test]
fn test_parse_trade_row_with_decimal_prices() {
    let t = parse_trade_line(b"7,16541.50,0.002,33.08,1699000000000,true", "BTCUSDT".to_string(), 3)
        .unwrap();
    assert_eq!(t.price, 16541500);
    assert_eq!(t.qty, 2);
    assert_eq!(t.base_qty, 33080);
    assert_eq!(t.time, 1699000000000);
}
