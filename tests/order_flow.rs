use trading_bot::canon::EncodingError;
use trading_bot::order::{prepare_order, OrderError, OrderParameters, OrderType, Side};
use trading_bot::reply::{decode_order_reply, decode_ticker_reply, outcome_of, quote_from_fields, response_matches_order, FeedError};
use trading_bot::signer::{sign_hmac, Credentials};
use trading_bot::price::parse_price;
use trading_bot::trigger::{Action, Comparator, FirePolicy, LoopConfig, Outcome, RunMode, TickerQuote, TriggerLoop, TriggerRule};

fn eth_order(quantity: &str) -> OrderParameters {
    OrderParameters {
        symbol: "ETHUSD".to_string(),
        side: Side::Buy,
        order_type: OrderType::Market,
        quantity: quantity.to_string(),
        extra: Vec::new(),
    }
}

/// Answers an order request as the exchange would: the symbol, side and type
/// taken from the query string.
fn echo(query: &str) -> String {
    let get = |key: &str| {
        query
            .split('&')
            .find_map(|kv| kv.strip_prefix(&format!("{}=", key)).map(|v| v.to_string()))
            .unwrap()
    };
    format!(
        "{{\"symbol\":\"{}\",\"orderId\":28,\"clientOrderId\":\"6gCrw2kRUAF9CvJDGP16IP\",\"transactTime\":{},\"price\":\"0.00000000\",\"origQty\":\"{}\",\"executedQty\":\"{}\",\"status\":\"FILLED\",\"timeInForce\":\"GTC\",\"type\":\"{}\",\"side\":\"{}\"}}",
        get("symbol"),
        get("timestamp"),
        get("quantity"),
        get("quantity"),
        get("type"),
        get("side")
    )
}

#[test]
fn signed_hmac_order_carries_the_signature_last() {
    let creds = Credentials::hmac("api-key".to_string(), b"secret".to_vec());
    let o = prepare_order(&eth_order("1.5"), &creds, 1700000000000).ok().unwrap();
    let canonical = "quantity=1.5&side=BUY&symbol=ETHUSD&type=MARKET&timestamp=1700000000000";
    let expected = sign_hmac(b"secret", canonical.as_bytes()).encoded;
    assert_eq!(o.query_string, format!("{}&signature={}", canonical, expected));
    assert_eq!(o.api_key, "api-key");
    assert_eq!(o.timestamp, 1700000000000);
}

#[test]
fn triggered_order_uses_the_configured_quantity() {
    let creds = Credentials::hmac("k".to_string(), b"s".to_vec());
    let o = prepare_order(&eth_order("1.5"), &creds, 1).ok().unwrap();
    assert!(o.query_string.starts_with("quantity=1.5&side=BUY&symbol=ETHUSD&type=MARKET&timestamp=1&signature="));
}

#[test]
fn bad_quantity_is_an_encoding_error() {
    let creds = Credentials::hmac("k".to_string(), b"s".to_vec());
    let r = prepare_order(&eth_order("1,5"), &creds, 1);
    assert_eq!(r.err(), Some(OrderError::Encoding(EncodingError::MalformedParameter)));
}

#[test]
fn round_trip_through_echo_keeps_symbol_side_and_type() {
    let creds = Credentials::hmac("k".to_string(), b"s".to_vec());
    let params = eth_order("1.5");
    let o = prepare_order(&params, &creds, 42).ok().unwrap();
    let resp = decode_order_reply(200, &echo(&o.query_string)).ok().unwrap();
    assert!(response_matches_order(&params, &resp));
    assert_eq!(resp.symbol, "ETHUSD");
    assert_eq!(resp.side, "BUY");
    assert_eq!(resp.order_type, "MARKET");
    assert_eq!(resp.orig_qty, "1.5");
    assert_eq!(resp.order_id, 28);
    assert_eq!(resp.transact_time, 42);
    let sell = OrderParameters { side: Side::Sell, ..eth_order("1.5") };
    assert!(!response_matches_order(&sell, &resp));
}

#[test]
fn failure_status_is_an_exchange_rejection() {
    let r = decode_order_reply(400, "{\"code\":-1013,\"msg\":\"Filter failure: LOT_SIZE\"}");
    assert_eq!(
        r.err(),
        Some(OrderError::ExchangeRejection { status: 400, code: Some(-1013), message: "Filter failure: LOT_SIZE".to_string() })
    );
    let r = decode_order_reply(502, "Bad Gateway");
    assert_eq!(r.err(), Some(OrderError::ExchangeRejection { status: 502, code: None, message: "Bad Gateway".to_string() }));
}

#[test]
fn malformed_reply_is_a_decode_error() {
    assert_eq!(decode_order_reply(200, "{\"symbol\":\"ETHUSD\"}").err(), Some(OrderError::Decode));
    assert_eq!(decode_order_reply(200, "not json").err(), Some(OrderError::Decode));
}

#[test]
fn outcomes_tell_transport_failures_apart() {
    assert_eq!(outcome_of(&Err(OrderError::Transport)), Outcome::TransportFailed);
    assert_eq!(outcome_of(&Err(OrderError::Decode)), Outcome::Failed);
    let creds = Credentials::hmac("k".to_string(), b"s".to_vec());
    let o = prepare_order(&eth_order("1"), &creds, 3).ok().unwrap();
    assert_eq!(outcome_of(&decode_order_reply(200, &echo(&o.query_string))), Outcome::Placed);
}

#[test]
fn ticker_reply_becomes_a_quote() {
    let q = decode_ticker_reply("{\"symbol\":\"ETHUSDT\",\"price\":\"1830.10000000\"}").ok().unwrap();
    assert_eq!(q.symbol, "ETHUSDT");
    assert_eq!(q.price, 183010000000);
    assert_eq!(decode_ticker_reply("{\"symbol\":\"ETHUSDT\",\"price\":\"abc\"}").err(), Some(FeedError::Decode));
    assert_eq!(decode_ticker_reply("{\"symbol\":\"ETHUSDT\"}").err(), Some(FeedError::Decode));
    assert_eq!(quote_from_fields("X".to_string(), "2.5").ok().unwrap().price, 250000000);
}

#[test]
fn quote_stream_scenario_submits_one_order_for_one_and_a_half() {
    let rule = TriggerRule { symbol: "ETHUSD".to_string(), comparator: Comparator::Gt, threshold: parse_price("1800.0").unwrap() };
    let config = LoopConfig { policy: FirePolicy::FireOnce, mode: RunMode::UntilCancelled, poll_interval_ms: 500, max_backoff_ms: 8000 };
    let mut l = TriggerLoop::new(rule, config);
    let creds = Credentials::hmac("k".to_string(), b"s".to_vec());
    let mut submitted = Vec::new();
    let mut fired_at = Vec::new();
    for (i, p) in ["1600.0", "1650.5", "1830.1"].iter().enumerate() {
        let q = TickerQuote { symbol: "ETHUSD".to_string(), price: parse_price(p).unwrap() };
        if l.on_quote(&q) == Action::Execute {
            fired_at.push(i);
            let o = prepare_order(&eth_order("1.5"), &creds, 1000 + i as u64).ok().unwrap();
            submitted.push(o.query_string);
            let echoed = decode_order_reply(200, &echo(submitted.last().unwrap()));
            assert_eq!(echoed.as_ref().ok().map(|r| r.orig_qty.clone()), Some("1.5".to_string()));
            l.on_execution_finished(outcome_of(&echoed));
        }
    }
    assert_eq!(fired_at, vec![2]);
    assert_eq!(submitted.len(), 1);
    assert!(submitted[0].starts_with("quantity=1.5&"));
}
