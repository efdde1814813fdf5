use crate::canon::{
    all_well_formed, canonical_query, canonicalize, has_duplicate_key, has_reserved_key,
    lemma_arrangement_exists, pairs_view, sorted_pairs, EncodingError, PairView,
};
use crate::digest::hex_of;
use crate::hmac::hmac_sha256;
use crate::signer::{
    base64_of, percent_encode, percent_encoded, sign, Credentials, KeyMaterial, SigningError,
};
use vstd::prelude::*;

verus! {

/// Buy or sell.
#[derive(Debug, Clone, Copy, PartialEq, Eq, Structural)]
pub enum Side {
    Buy,
    Sell,
}

/// Market or limit order.
#[derive(Debug, Clone, Copy, PartialEq, Eq, Structural)]
pub enum OrderType {
    Market,
    Limit,
}

pub open spec fn side_text(s: Side) -> Seq<char> {
    match s {
        Side::Buy => "BUY"@,
        Side::Sell => "SELL"@,
    }
}

pub open spec fn order_type_text(t: OrderType) -> Seq<char> {
    match t {
        OrderType::Market => "MARKET"@,
        OrderType::Limit => "LIMIT"@,
    }
}

impl Side {
    /// The exchange's name for the side.
    pub fn as_text(&self) -> (r: String)
        ensures
            r@ == side_text(*self),
    {
        match self {
            Side::Buy => String::from_str("BUY"),
            Side::Sell => String::from_str("SELL"),
        }
    }
}

impl OrderType {
    /// The exchange's name for the order type.
    pub fn as_text(&self) -> (r: String)
        ensures
            r@ == order_type_text(*self),
    {
        match self {
            OrderType::Market => String::from_str("MARKET"),
            OrderType::Limit => String::from_str("LIMIT"),
        }
    }
}

/// What an order asks for; `extra` holds further parameters such as
/// `timeInForce` or `price`.
pub struct OrderParameters {
    pub symbol: String,
    pub side: Side,
    pub order_type: OrderType,
    pub quantity: String,
    pub extra: Vec<(String, String)>,
}

/// The parameters of an order as key/value pairs, before canonical ordering.
pub open spec fn order_pairs(p: OrderParameters) -> Seq<PairView> {
    seq![
        ("symbol"@, p.symbol@),
        ("side"@, side_text(p.side)),
        ("type"@, order_type_text(p.order_type)),
        ("quantity"@, p.quantity@),
    ] + pairs_view(p.extra@)
}

/// Why a parameter list fails canonicalization, if it does.
pub open spec fn encoding_failure(p: Seq<PairView>) -> Option<EncodingError> {
    if !all_well_formed(p) {
        Some(EncodingError::MalformedParameter)
    } else if has_reserved_key(p) {
        Some(EncodingError::ReservedKey)
    } else if has_duplicate_key(p) {
        Some(EncodingError::DuplicateKey)
    } else {
        None
    }
}

impl OrderParameters {
    /// The parameters as key/value pairs: symbol, side, type, quantity, then
    /// the extra ones in their order.
    pub fn to_pairs(&self) -> (r: Vec<(String, String)>)
        ensures
            pairs_view(r@) == order_pairs(*self),
    {
        let mut r: Vec<(String, String)> = Vec::new();
        r.push((String::from_str("symbol"), self.symbol.clone()));
        r.push((String::from_str("side"), self.side.as_text()));
        r.push((String::from_str("type"), self.order_type.as_text()));
        r.push((String::from_str("quantity"), self.quantity.clone()));
        let mut i: usize = 0;
        while i < self.extra.len()
            invariant
                i <= self.extra@.len(),
                pairs_view(r@) == order_pairs(*self).subrange(0, 4 + i as int),
            decreases self.extra@.len() - i,
        {
            let item = (self.extra[i].0.clone(), self.extra[i].1.clone());
            assert(crate::canon::pair_view(item) == pairs_view(self.extra@)[i as int]);
            let ghost before = r@;
            r.push(item);
            assert(pairs_view(r@) =~= pairs_view(before).push(crate::canon::pair_view(item)));
            assert(order_pairs(*self)[4 + i as int] == pairs_view(self.extra@)[i as int]);
            assert(pairs_view(r@) =~= order_pairs(*self).subrange(0, 4 + i as int + 1));
            i = i + 1;
        }
        assert(order_pairs(*self).subrange(0, 4 + i as int) =~= order_pairs(*self));
        r
    }
}

/// A signed order request, ready to be sent: the API key for the header
/// and the query string that carries the signature last.
pub struct SignedOrder {
    pub api_key: String,
    pub query_string: String,
    pub timestamp: u64,
    pub signature: Vec<u8>,
}

/// Everything that can keep an order from being placed.
#[derive(Debug, PartialEq, Eq)]
pub enum OrderError {
    /// A parameter cannot be put in a query string.
    Encoding(EncodingError),
    /// The request could not be signed.
    Signing(SigningError),
    /// No response came back (connection failure or timeout).
    Transport,
    /// The exchange answered with a failure status.
    ExchangeRejection { status: u16, code: Option<i64>, message: String },
    /// The response does not have the expected shape.
    Decode,
}

/// The query string that is sent: the canonical string, then the encoded
/// signature as the `signature` parameter.
pub open spec fn signed_query(canonical: Seq<char>, encoded_signature: Seq<char>) -> Seq<char> {
    canonical + "&signature="@ + percent_encoded(encoded_signature)
}

pub open spec fn string_is_ascii_chars(s: Seq<char>) -> bool {
    forall|i: int| 0 <= i < s.len() ==> '\0' <= #[trigger] s[i] <= '\u{7f}'
}

proof fn lemma_hex_ascii(b: Seq<u8>)
    ensures
        string_is_ascii_chars(hex_of(b)),
    decreases b.len(),
{
    if b.len() > 0 {
        lemma_hex_ascii(b.drop_last());
        let h = hex_of(b);
        let last = b.last();
        let t = hex_of(b.drop_last());
        assert forall|i: int| 0 <= i < h.len() implies '\0' <= #[trigger] h[i] <= '\u{7f}' by {
            if i >= t.len() {
                assert(h[i] == crate::digest::hex_char(last / 16) || h[i] == crate::digest::hex_char(
                    last % 16,
                ));
            } else {
                assert(h[i] == t[i]);
            }
        }
    }
}

/// Builds and signs the order request for `params` at `timestamp`, which the
/// caller sampled once: the same timestamp is both signed and sent.
pub fn prepare_order(params: &OrderParameters, creds: &Credentials, timestamp: u64) -> (r: Result<
    SignedOrder,
    OrderError,
>)
    ensures
        encoding_failure(order_pairs(*params)) matches Some(e) ==> r == Err::<SignedOrder, OrderError>(
            OrderError::Encoding(e),
        ),
        encoding_failure(order_pairs(*params)) is None ==> match r {
            Ok(o) => {
                let canonical = canonical_query(order_pairs(*params), timestamp);
                &&& o.timestamp == timestamp
                &&& o.api_key@ == creds.api_key@
                &&& match creds.key {
                    KeyMaterial::Hmac(k) => {
                        &&& o.signature@ == hmac_sha256(k@, vstd::utf8::encode_utf8(canonical))
                        &&& o.query_string@ == signed_query(canonical, hex_of(o.signature@))
                    },
                    KeyMaterial::Rsa(_) => o.query_string@ == signed_query(
                        canonical,
                        base64_of(o.signature@),
                    ),
                }
            },
            Err(e) => creds.key is Rsa && e == OrderError::Signing(SigningError::SignatureFailed),
        },
{
    let pairs = params.to_pairs();
    let canonical = match canonicalize(&pairs, timestamp) {
        Ok(c) => c,
        Err(e) => {
            return Err(OrderError::Encoding(e));
        },
    };
    let ghost cq = canonical.query_string@;
    let bytes = canonical.query_string.as_str().as_bytes();
    let sig = match sign(creds, bytes) {
        Ok(s) => s,
        Err(e) => {
            return Err(OrderError::Signing(e));
        },
    };
    proof {
        match creds.key {
            KeyMaterial::Hmac(_) => lemma_hex_ascii(sig.bytes@),
            KeyMaterial::Rsa(_) => {},
        }
    }
    assert(sig.encoded.is_ascii()) by {
        assert forall|i: int| 0 <= i < sig.encoded@.len() implies '\0' <= #[trigger] sig.encoded@[i]
            <= '\u{7f}' by {
            match creds.key {
                KeyMaterial::Hmac(_) => {},
                KeyMaterial::Rsa(_) => {
                    assert(crate::signer::base64_char(sig.encoded@[i]));
                },
            }
        }
    }
    let escaped = percent_encode(sig.encoded.as_str());
    let mut query_string = canonical.query_string;
    query_string.append("&signature=");
    query_string.append(escaped.as_str());
    Ok(
        SignedOrder {
            api_key: creds.api_key.clone(),
            query_string,
            timestamp,
            signature: sig.bytes,
        },
    )
}


/// What an exchange echoing the request reads back: the canonical query
/// string of valid order parameters holds their symbol, side and type, each
/// under its own key.
pub proof fn lemma_canonical_keeps_order_fields(p: OrderParameters)
    requires
        encoding_failure(order_pairs(p)) is None,
    ensures
        sorted_pairs(order_pairs(p)).contains(("symbol"@, p.symbol@)),
        sorted_pairs(order_pairs(p)).contains(("side"@, side_text(p.side))),
        sorted_pairs(order_pairs(p)).contains(("type"@, order_type_text(p.order_type))),
        sorted_pairs(order_pairs(p)).contains(("quantity"@, p.quantity@)),
{
    let q = order_pairs(p);
    lemma_arrangement_exists(q);
    assert(q[0] == ("symbol"@, p.symbol@));
    assert(q[1] == ("side"@, side_text(p.side)));
    assert(q[2] == ("type"@, order_type_text(p.order_type)));
    assert(q[3] == ("quantity"@, p.quantity@));
    assert(q.contains(q[0]) && q.contains(q[1]) && q.contains(q[2]) && q.contains(q[3]));
}

} // verus!
