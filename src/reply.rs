use crate::order::{order_type_text, side_text, OrderError, OrderParameters};
use crate::price::{parse_price, price_text_value, PRICE_DECIMALS};
use crate::trigger::{Outcome, TickerQuote};
use vstd::prelude::*;

verus! {

#[verifier::external_type_specification]
#[verifier::external_body]
pub struct ExJsonValue(serde_json::Value);

#[verifier::external_type_specification]
#[verifier::external_body]
pub struct ExJsonError(serde_json::Error);

/// Relies on `serde_json::from_str::<serde_json::Value>`: parses JSON text.
#[verifier::external_body]
fn parse_json(text: &str) -> (r: Result<serde_json::Value, serde_json::Error>) {
    serde_json::from_str(text)
}

/// Relies on `serde_json::Value::get`: the member `key` of an object, if
/// the value is an object that has it.
#[verifier::external_body]
fn json_member<'a>(v: &'a serde_json::Value, key: &str) -> (r: Option<&'a serde_json::Value>) {
    v.get(key)
}

/// Relies on `serde_json::Value::as_str`: the text of a JSON string.
#[verifier::external_body]
fn json_as_string(v: &serde_json::Value) -> (r: Option<String>) {
    v.as_str().map(String::from)
}

/// Relies on `serde_json::Value::as_u64`: a JSON integer that fits in a `u64`.
#[verifier::external_body]
fn json_as_u64(v: &serde_json::Value) -> (r: Option<u64>) {
    v.as_u64()
}

/// Relies on `serde_json::Value::as_i64`: a JSON integer that fits in an `i64`.
#[verifier::external_body]
fn json_as_i64(v: &serde_json::Value) -> (r: Option<i64>) {
    v.as_i64()
}

fn member_str(v: &serde_json::Value, key: &str) -> (r: Option<String>) {
    match json_member(v, key) {
        Some(m) => json_as_string(m),
        None => None,
    }
}

fn member_u64(v: &serde_json::Value, key: &str) -> (r: Option<u64>) {
    match json_member(v, key) {
        Some(m) => json_as_u64(m),
        None => None,
    }
}

fn member_i64(v: &serde_json::Value, key: &str) -> (r: Option<i64>) {
    match json_member(v, key) {
        Some(m) => json_as_i64(m),
        None => None,
    }
}

/// The exchange's account of a placed order.
pub struct OrderResponse {
    pub symbol: String,
    pub order_id: u64,
    pub client_order_id: String,
    pub transact_time: u64,
    pub price: String,
    pub orig_qty: String,
    pub executed_qty: String,
    pub status: String,
    pub time_in_force: String,
    pub order_type: String,
    pub side: String,
}

/// Why a price poll brought no quote.
#[derive(Debug, Clone, Copy, PartialEq, Eq, Structural)]
pub enum FeedError {
    /// No response came back.
    Transport,
    /// The response is not a ticker for a valid price.
    Decode,
}

pub open spec fn success_status(status: u16) -> bool {
    200 <= status <= 299
}

fn decode_order_fields(v: &serde_json::Value) -> (r: Option<OrderResponse>) {
    let symbol = member_str(v, "symbol")?;
    let order_id = member_u64(v, "orderId")?;
    let client_order_id = member_str(v, "clientOrderId")?;
    let transact_time = member_u64(v, "transactTime")?;
    let price = member_str(v, "price")?;
    let orig_qty = member_str(v, "origQty")?;
    let executed_qty = member_str(v, "executedQty")?;
    let status = member_str(v, "status")?;
    let time_in_force = member_str(v, "timeInForce")?;
    let order_type = member_str(v, "type")?;
    let side = member_str(v, "side")?;
    Some(
        OrderResponse {
            symbol,
            order_id,
            client_order_id,
            transact_time,
            price,
            orig_qty,
            executed_qty,
            status,
            time_in_force,
            order_type,
            side,
        },
    )
}

/// Interprets the exchange's reply to an order submission: a failure status
/// is a rejection, carrying the exchange's `code` and `msg` when the body
/// has them (else the body itself as the message); a success status must
/// carry a complete order record.
pub fn decode_order_reply(status: u16, body: &str) -> (r: Result<OrderResponse, OrderError>)
    ensures
        !success_status(status) ==> (r matches Err(OrderError::ExchangeRejection { status: s, .. })
            && s == status),
        success_status(status) ==> (r is Ok || r == Err::<OrderResponse, OrderError>(
            OrderError::Decode,
        )),
{
    if !(200 <= status && status <= 299) {
        let (code, message) = match parse_json(body) {
            Ok(v) => {
                let m = match member_str(&v, "msg") {
                    Some(m) => m,
                    None => body.to_owned(),
                };
                (member_i64(&v, "code"), m)
            },
            Err(_) => (None, body.to_owned()),
        };
        return Err(OrderError::ExchangeRejection { status, code, message });
    }
    match parse_json(body) {
        Ok(v) => match decode_order_fields(&v) {
            Some(resp) => Ok(resp),
            None => Err(OrderError::Decode),
        },
        Err(_) => Err(OrderError::Decode),
    }
}

/// A quote from the symbol and price text of a ticker reply.
pub fn quote_from_fields(symbol: String, price_text: &str) -> (r: Result<TickerQuote, FeedError>)
    requires
        price_text@.len() + PRICE_DECIMALS <= usize::MAX,
    ensures
        match r {
            Ok(q) => q.symbol@ == symbol@ && price_text_value(price_text@) == Some(q.price as nat),
            Err(e) => e == FeedError::Decode && (price_text_value(price_text@) matches Some(x)
                ==> x > u64::MAX),
        },
{
    match parse_price(price_text) {
        Some(price) => Ok(TickerQuote { symbol, price }),
        None => Err(FeedError::Decode),
    }
}

/// Interprets a ticker reply `{"symbol": .., "price": ".."}`.
pub fn decode_ticker_reply(body: &str) -> (r: Result<TickerQuote, FeedError>)
    ensures
        r matches Err(e) ==> e == FeedError::Decode,
{
    let v = match parse_json(body) {
        Ok(v) => v,
        Err(_) => {
            return Err(FeedError::Decode);
        },
    };
    let symbol = match member_str(&v, "symbol") {
        Some(s) => s,
        None => {
            return Err(FeedError::Decode);
        },
    };
    let price_text = match member_str(&v, "price") {
        Some(p) => p,
        None => {
            return Err(FeedError::Decode);
        },
    };
    if price_text.as_str().unicode_len() > usize::MAX - PRICE_DECIMALS {
        return Err(FeedError::Decode);
    }
    quote_from_fields(symbol, price_text.as_str())
}

/// How a submission ended, as the trigger loop sees it.
pub fn outcome_of(r: &Result<OrderResponse, OrderError>) -> (o: Outcome)
    ensures
        o == (match r {
            Ok(_) => Outcome::Placed,
            Err(OrderError::Transport) => Outcome::TransportFailed,
            Err(_) => Outcome::Failed,
        }),
{
    match r {
        Ok(_) => Outcome::Placed,
        Err(OrderError::Transport) => Outcome::TransportFailed,
        Err(_) => Outcome::Failed,
    }
}

/// Whether a reply describes the order that was asked for: same symbol,
/// side and type.
pub fn response_matches_order(params: &OrderParameters, resp: &OrderResponse) -> (r: bool)
    ensures
        r == (resp.symbol@ == params.symbol@ && resp.side@ == side_text(params.side)
            && resp.order_type@ == order_type_text(params.order_type)),
{
    resp.symbol == params.symbol && resp.side == params.side.as_text() && resp.order_type
        == params.order_type.as_text()
}

} // verus!
