use quote_server::float_text::float_text_ok;
use quote_server::decimal::{format_u64, parse_u32, parse_u64};
use quote_server::quote_wire::{decode_quote, encode_quote, encode_quote_bytes};

fn chars(s: &str) -> Vec<char> {
    s.chars().collect()
}

#[test]
fn decimal_format_and_parse() {
    assert_eq!(format_u64(0).iter().collect::<String>(), "0");
    assert_eq!(format_u64(1700000000000).iter().collect::<String>(), "1700000000000");
    assert_eq!(format_u64(u64::MAX).iter().collect::<String>(), u64::MAX.to_string());
    assert_eq!(parse_u64(&chars("1700000000000")), Some(1700000000000));
    assert_eq!(parse_u64(&chars("+7")), Some(7));
    assert_eq!(parse_u64(&chars("")), None);
    assert_eq!(parse_u64(&chars("+")), None);
    assert_eq!(parse_u64(&chars("-1")), None);
    assert_eq!(parse_u64(&chars(" 1")), None);
    assert_eq!(parse_u64(&chars("18446744073709551615")), Some(u64::MAX));
    assert_eq!(parse_u64(&chars("18446744073709551616")), None);
    assert_eq!(parse_u32(&chars("4294967295")), Some(u32::MAX));
    assert_eq!(parse_u32(&chars("4294967296")), None);
    assert_eq!(parse_u32(&chars("007")), Some(7));
}

#[test]
fn decimal_agrees_with_std() {
    for s in ["0", "12", "+12", "-3", "1_0", "99999999999", "", "a", "4294967295", "+"] {
        assert_eq!(parse_u32(&chars(s)), s.parse::<u32>().ok(), "{}", s);
        assert_eq!(parse_u64(&chars(s)), s.parse::<u64>().ok(), "{}", s);
    }
}

#[test]
fn quote_text_format() {
    let s = encode_quote("AAPL", "123.45", 100, 1700000000000);
    assert_eq!(s, "AAPL|123.45|100|1700000000000");
    assert!(s.starts_with("AAPL|"));
    let b = encode_quote_bytes("AAPL", "123.45", 100, 1700000000000);
    assert_eq!(b, s.as_bytes().to_vec());
    assert!(b.contains(&b'|'));
}

#[test]
fn quote_text_round_trip() {
    let s = encode_quote("MSFT", "300", 4999, 0);
    let q = decode_quote(&s).unwrap();
    assert_eq!(q.ticker, "MSFT");
    assert_eq!(q.price, "300");
    assert_eq!(q.volume, 4999);
    assert_eq!(q.timestamp, 0);
}

#[test]
fn quote_text_decoding() {
    let q = decode_quote("AAPL|123.45|100|1700000000000").unwrap();
    assert_eq!(q.ticker, "AAPL");
    assert_eq!(q.price, "123.45");
    assert_eq!(q.volume, 100);
    assert_eq!(q.timestamp, 1700000000000);
    assert!(decode_quote("AAPL|1|2").is_none());
    assert!(decode_quote("AAPL|1|2|3|4").is_none());
    assert!(decode_quote("AAPL|1|x|3").is_none());
    assert!(decode_quote("AAPL|1|4294967296|3").is_none());
    assert!(decode_quote("AAPL|1|2|-3").is_none());
    assert!(decode_quote("|||0").is_none());
    assert!(decode_quote("||0|0").is_none());
    let empty = decode_quote("|0|0|0").unwrap();
    assert_eq!(empty.ticker, "");
    assert_eq!(empty.price, "0");
    assert_eq!(empty.volume, 0);
}

#[test]
fn float_text_agrees_with_std() {
    let samples = [
        "0", "150", "150.0", "123.45", "1.", ".5", ".", "", "+", "-", "+.5", "-1.5e10", "1e", "1e+",
        "1E5", "1e-7", "1.2.3", "1e5e6", "inf", "INF", "-Infinity", "+infinity", "infinit", "nan",
        "NaN", "-nan", "nan1", " 1", "1 ", "1_000", "0x10", "e5", "5e", "1.e3", "12e3.4", "++1",
        "1,5", "١", "42e0000", "99999999999999999999999999e400", "-.e1", "inFinItY",
    ];
    for s in samples {
        assert_eq!(float_text_ok(s), s.parse::<f64>().is_ok(), "{:?}", s);
    }
}

#[test]
fn quote_text_rejects_bad_price() {
    assert!(decode_quote("AAPL|abc|1|2").is_none());
    assert!(decode_quote("AAPL||1|2").is_none());
    assert!(decode_quote("AAPL|1e3|1|2").is_some());
}
