use trading_bot::canon::{canonicalize, is_safe_text, key_less, EncodingError};
use trading_bot::order::{OrderParameters, OrderType, Side};

fn pairs(items: &[(&str, &str)]) -> Vec<(String, String)> {
    items.iter().map(|(k, v)| (k.to_string(), v.to_string())).collect()
}

#[test]
fn canonical_string_is_sorted_with_timestamp_last() {
    let p = pairs(&[("symbol", "ETHUSDT"), ("side", "SELL"), ("type", "LIMIT"), ("quantity", "0.5")]);
    let c = canonicalize(&p, 1499827319559).unwrap();
    assert_eq!(c.query_string, "quantity=0.5&side=SELL&symbol=ETHUSDT&type=LIMIT&timestamp=1499827319559");
    assert_eq!(c.timestamp, 1499827319559);
}

#[test]
fn canonicalization_is_order_independent() {
    let a = pairs(&[("symbol", "ETHUSD"), ("side", "BUY"), ("type", "MARKET"), ("quantity", "1.5"), ("timeInForce", "GTC")]);
    let b = pairs(&[("timeInForce", "GTC"), ("quantity", "1.5"), ("type", "MARKET"), ("symbol", "ETHUSD"), ("side", "BUY")]);
    let c = pairs(&[("side", "BUY"), ("timeInForce", "GTC"), ("symbol", "ETHUSD"), ("quantity", "1.5"), ("type", "MARKET")]);
    let qa = canonicalize(&a, 7).unwrap().query_string;
    let qb = canonicalize(&b, 7).unwrap().query_string;
    let qc = canonicalize(&c, 7).unwrap().query_string;
    assert_eq!(qa, qb);
    assert_eq!(qa, qc);
    assert_eq!(qa, "quantity=1.5&side=BUY&symbol=ETHUSD&timeInForce=GTC&type=MARKET&timestamp=7");
}

#[test]
fn empty_parameter_list_gives_timestamp_only() {
    let c = canonicalize(&Vec::new(), 0).unwrap();
    assert_eq!(c.query_string, "timestamp=0");
}

#[test]
fn largest_timestamp_is_written_in_full() {
    let c = canonicalize(&pairs(&[("a", "b")]), u64::MAX).unwrap();
    assert_eq!(c.query_string, "a=b&timestamp=18446744073709551615");
}

#[test]
fn unsafe_value_is_an_encoding_error() {
    let p = pairs(&[("symbol", "ETH USD")]);
    assert_eq!(canonicalize(&p, 1).err(), Some(EncodingError::MalformedParameter));
    let p = pairs(&[("note", "a&b=c")]);
    assert_eq!(canonicalize(&p, 1).err(), Some(EncodingError::MalformedParameter));
    let p = pairs(&[("", "x")]);
    assert_eq!(canonicalize(&p, 1).err(), Some(EncodingError::MalformedParameter));
}

#[test]
fn reserved_key_is_refused() {
    let p = pairs(&[("symbol", "ETHUSD"), ("timestamp", "5")]);
    assert_eq!(canonicalize(&p, 1).err(), Some(EncodingError::ReservedKey));
    let p = pairs(&[("signature", "abc")]);
    assert_eq!(canonicalize(&p, 1).err(), Some(EncodingError::ReservedKey));
}

#[test]
fn duplicate_key_is_refused() {
    let p = pairs(&[("symbol", "ETHUSD"), ("side", "BUY"), ("symbol", "BTCUSD")]);
    assert_eq!(canonicalize(&p, 1).err(), Some(EncodingError::DuplicateKey));
}

#[test]
fn key_order_is_lexicographic() {
    assert!(key_less("side", "symbol"));
    assert!(!key_less("symbol", "side"));
    assert!(key_less("type", "typeX"));
    assert!(!key_less("type", "type"));
    assert!(key_less("Z", "a"));
}

#[test]
fn safe_text_accepts_decimals_and_symbols() {
    assert!(is_safe_text("1830.10"));
    assert!(is_safe_text("ETH-USD_1~"));
    assert!(!is_safe_text("a+b"));
    assert!(is_safe_text(""));
}

#[test]
fn order_parameters_become_pairs() {
    let p = OrderParameters {
        symbol: "ETHUSDT".to_string(),
        side: Side::Sell,
        order_type: OrderType::Limit,
        quantity: "0.5".to_string(),
        extra: pairs(&[("timeInForce", "GTC"), ("price", "1900.00")]),
    };
    assert_eq!(
        p.to_pairs(),
        pairs(&[
            ("symbol", "ETHUSDT"),
            ("side", "SELL"),
            ("type", "LIMIT"),
            ("quantity", "0.5"),
            ("timeInForce", "GTC"),
            ("price", "1900.00")
        ])
    );
}
