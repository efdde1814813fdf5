use crate::digest::{hex_of, sha256, to_hex};
use crate::hmac::{hmac_sha256, hmac_sha256_bytes};
use base64::Engine;
use rsa::pkcs8::DecodePrivateKey;
use vstd::prelude::*;

verus! {

#[verifier::external_type_specification]
#[verifier::external_body]
pub struct ExRsaPrivateKey(rsa::RsaPrivateKey);

#[verifier::external_type_specification]
#[verifier::external_body]
pub struct ExRsaError(rsa::Error);

#[verifier::external_type_specification]
#[verifier::external_body]
pub struct ExPkcs8Error(rsa::pkcs8::Error);

/// Relies on rsa's `DecodePrivateKey::from_pkcs8_pem` for `RsaPrivateKey`:
/// parses a PEM-encoded PKCS#8 private key.
#[verifier::external_body]
fn parse_pkcs8_pem(pem: &str) -> (r: Result<rsa::RsaPrivateKey, rsa::pkcs8::Error>) {
    rsa::RsaPrivateKey::from_pkcs8_pem(pem)
}

/// Relies on `rsa::RsaPrivateKey::sign` with `Pkcs1v15Sign::new::<Sha256>()`:
/// the RSASSA-PKCS1-v1_5 signature of a SHA-256 digest.
#[verifier::external_body]
fn pkcs1v15_sign_sha256(key: &rsa::RsaPrivateKey, digest: &[u8]) -> (r: Result<Vec<u8>, rsa::Error>) {
    key.sign(rsa::Pkcs1v15Sign::new::<sha2::Sha256>(), digest)
}

/// What standard, padded Base64 yields for a byte sequence.
pub uninterp spec fn base64_of(b: Seq<u8>) -> Seq<char>;

/// The characters of the standard Base64 alphabet and its padding.
pub open spec fn base64_char(c: char) -> bool {
    ('A' <= c && c <= 'Z') || ('a' <= c && c <= 'z') || ('0' <= c && c <= '9') || c == '+' || c
        == '/' || c == '='
}

/// Relies on base64's `general_purpose::STANDARD.encode`: standard alphabet,
/// with `=` padding, four characters for every started group of three bytes.
#[verifier::external_body]
fn base64_encode(b: &[u8]) -> (r: String)
    ensures
        r@ == base64_of(b@),
        r@.len() == 4 * ((b@.len() + 2) / 3),
        forall|i: int| 0 <= i < r@.len() ==> base64_char(#[trigger] r@[i]),
{
    base64::engine::general_purpose::STANDARD.encode(b)
}

/// Which algorithm authenticates requests.
#[derive(Debug, Clone, Copy, PartialEq, Eq, Structural)]
pub enum SigningScheme {
    /// HMAC-SHA256 with a shared secret, hex-encoded.
    Hmac,
    /// RSA PKCS#1 v1.5 over SHA-256 with a private key, Base64-encoded.
    Rsa,
}

/// Why a signature could not be made.
#[derive(Debug, Clone, Copy, PartialEq, Eq, Structural)]
pub enum SigningError {
    /// The key material is not a valid private key.
    InvalidKey,
    /// The signing primitive refused the key or the digest.
    SignatureFailed,
}

/// The secret that signs requests, fixed with the scheme.
pub enum KeyMaterial {
    Hmac(Vec<u8>),
    Rsa(rsa::RsaPrivateKey),
}

/// API key and signing key, built once and then only read.
pub struct Credentials {
    pub api_key: String,
    pub key: KeyMaterial,
}

/// A signature: the raw bytes and their encoding for the scheme.
pub struct Signature {
    pub bytes: Vec<u8>,
    pub encoded: String,
}

impl Credentials {
    /// Credentials for HMAC-SHA256 with a shared secret.
    pub fn hmac(api_key: String, secret: Vec<u8>) -> (r: Credentials)
        ensures
            r.api_key@ == api_key@,
            r.key matches KeyMaterial::Hmac(k) && k@ == secret@,
    {
        Credentials { api_key, key: KeyMaterial::Hmac(secret) }
    }

    /// Credentials for RSA signing; the key is parsed from PKCS#8 PEM text
    /// here, once, so that a bad key is found before any request.
    pub fn rsa_from_pem(api_key: String, pem: &str) -> (r: Result<Credentials, SigningError>)
        ensures
            match r {
                Ok(c) => c.api_key@ == api_key@ && c.key is Rsa,
                Err(e) => e == SigningError::InvalidKey,
            },
    {
        match parse_pkcs8_pem(pem) {
            Ok(k) => Ok(Credentials { api_key, key: KeyMaterial::Rsa(k) }),
            Err(_) => Err(SigningError::InvalidKey),
        }
    }

    pub open spec fn spec_scheme(&self) -> SigningScheme {
        match self.key {
            KeyMaterial::Hmac(_) => SigningScheme::Hmac,
            KeyMaterial::Rsa(_) => SigningScheme::Rsa,
        }
    }

    /// The scheme these credentials sign with.
    pub fn scheme(&self) -> (r: SigningScheme)
        ensures
            r == self.spec_scheme(),
    {
        match &self.key {
            KeyMaterial::Hmac(_) => SigningScheme::Hmac,
            KeyMaterial::Rsa(_) => SigningScheme::Rsa,
        }
    }
}

/// HMAC-SHA256 of `msg`, hex-encoded in lower case.
pub fn sign_hmac(secret: &[u8], msg: &[u8]) -> (r: Signature)
    ensures
        r.bytes@ == hmac_sha256(secret@, msg@),
        r.encoded@ == hex_of(r.bytes@),
{
    let bytes = hmac_sha256_bytes(secret, msg);
    let encoded = to_hex(bytes.as_slice());
    Signature { bytes, encoded }
}

/// RSA PKCS#1 v1.5 signature of the SHA-256 digest of `msg`, Base64-encoded.
pub fn sign_rsa(key: &rsa::RsaPrivateKey, msg: &[u8]) -> (r: Result<Signature, SigningError>)
    ensures
        match r {
            Ok(s) => {
                &&& s.encoded@ == base64_of(s.bytes@)
                &&& forall|i: int| 0 <= i < s.encoded@.len() ==> base64_char(#[trigger] s.encoded@[i])
            },
            Err(e) => e == SigningError::SignatureFailed,
        },
{
    let digest = sha256(msg);
    match pkcs1v15_sign_sha256(key, digest.as_slice()) {
        Ok(bytes) => {
            let encoded = base64_encode(bytes.as_slice());
            Ok(Signature { bytes, encoded })
        },
        Err(_) => Err(SigningError::SignatureFailed),
    }
}

/// Signs `msg` with the scheme that the credentials were built with.
pub fn sign(creds: &Credentials, msg: &[u8]) -> (r: Result<Signature, SigningError>)
    ensures
        match creds.key {
            KeyMaterial::Hmac(k) => r matches Ok(s) && s.bytes@ == hmac_sha256(k@, msg@)
                && s.encoded@ == hex_of(s.bytes@),
            KeyMaterial::Rsa(_) => match r {
                Ok(s) => {
                    &&& s.encoded@ == base64_of(s.bytes@)
                    &&& forall|i: int| 0 <= i < s.encoded@.len() ==> base64_char(#[trigger] s.encoded@[i])
                },
                Err(e) => e == SigningError::SignatureFailed,
            },
        },
{
    match &creds.key {
        KeyMaterial::Hmac(k) => Ok(sign_hmac(k.as_slice(), msg)),
        KeyMaterial::Rsa(k) => sign_rsa(k, msg),
    }
}

/// HMAC signing is deterministic: two signatures made under one key over
/// one canonical string are the same bytes and the same hex text.
pub proof fn lemma_hmac_deterministic(key: Seq<u8>, msg: Seq<u8>, first: Seq<u8>, second: Seq<u8>)
    requires
        first == hmac_sha256(key, msg),
        second == hmac_sha256(key, msg),
    ensures
        first == second,
        hex_of(first) == hex_of(second),
{
}

/// Upper-case hexadecimal digit for a value below 16.
pub open spec fn upper_hex_char(n: nat) -> char {
    if n < 10 {
        (('0' as u8) + (n as u8)) as char
    } else {
        (('A' as u8) + (n as u8) - 10) as char
    }
}

/// A character as it stands in a query string: itself when safe, else `%XY`.
pub open spec fn escape_char(c: char) -> Seq<char> {
    if crate::canon::safe_char(c) {
        seq![c]
    } else {
        seq!['%', upper_hex_char((c as nat) / 16), upper_hex_char((c as nat) % 16)]
    }
}

/// Percent-encoding of an ASCII text, character by character.
pub open spec fn percent_encoded(s: Seq<char>) -> Seq<char>
    decreases s.len(),
{
    if s.len() == 0 {
        Seq::empty()
    } else {
        percent_encoded(s.drop_last()) + escape_char(s.last())
    }
}

fn upper_hex_digit(n: u32) -> (r: &'static str)
    requires
        n < 16,
    ensures
        r@ == seq![upper_hex_char(n as nat)],
{
    let digits = "0123456789ABCDEF";
    proof {
        reveal_strlit("0123456789ABCDEF");
    }
    assert(digits.is_ascii());
    let r = digits.substring_ascii(n as usize, n as usize + 1);
    assert(r@ =~= seq![upper_hex_char(n as nat)]);
    r
}

/// Percent-encodes an ASCII text for a query string.
pub fn percent_encode(s: &str) -> (r: String)
    requires
        s.is_ascii(),
    ensures
        r@ == percent_encoded(s@),
{
    let n = s.unicode_len();
    let mut r = String::new();
    let mut i: usize = 0;
    while i < n
        invariant
            n == s@.len(),
            s.is_ascii(),
            i <= n,
            r@ == percent_encoded(s@.subrange(0, i as int)),
        decreases n - i,
    {
        let c = s.get_char(i);
        let ghost before = r@;
        if crate::canon::is_safe_text(s.substring_ascii(i, i + 1)) {
            proof {
                assert(s@.subrange(i as int, i as int + 1)[0] == c);
                assert(crate::canon::safe_char(c));
            }
            r.append(s.substring_ascii(i, i + 1));
            assert(r@ =~= before + escape_char(c));
        } else {
            proof {
                assert(s@.subrange(i as int, i as int + 1)[0] == c);
                assert(!crate::canon::safe_char(c));
                assert('\0' <= s@[i as int] <= '\u{7f}');
            }
            let code = c as u32;
            proof {
                reveal_strlit("%");
            }
            r.append("%");
            r.append(upper_hex_digit(code / 16));
            r.append(upper_hex_digit(code % 16));
            assert(r@ =~= before + escape_char(c));
        }
        proof {
            let t = s@.subrange(0, i as int + 1);
            assert(t.drop_last() =~= s@.subrange(0, i as int));
            assert(t.last() == c);
            assert(r@ =~= percent_encoded(t));
        }
        i = i + 1;
    }
    assert(s@.subrange(0, n as int) =~= s@);
    r
}

} // verus!
