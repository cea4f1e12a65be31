//! Request signing: HMAC-SHA256 over the path and the canonical encoding
//! of the parameters, rendered as lowercase hexadecimal.

use vstd::prelude::*;

use crate::encode::{canonical_encode, encode_value, lemma_encode_key_order_independent};
use crate::params::{ParamModel, ParamValue};
use crate::text::push_char;
use hmac::{Hmac, Mac};
use sha2::Sha256;

verus! {

/// The lowercase hexadecimal HMAC-SHA256 digest of `msg` under `key`: a
/// function of the two arguments alone.
pub uninterp spec fn hmac_sha256_hex(key: Seq<char>, msg: Seq<char>) -> Seq<char>;

/// One lowercase hexadecimal digit.
pub open spec fn is_hex_digit(c: char) -> bool {
    ('0' <= c && c <= '9') || ('a' <= c && c <= 'f')
}

/// Relies on hmac's `Hmac<Sha256>` over sha2 and on `hex::encode`: the
/// digest is a pure function of key and message, 32 bytes long, and
/// `hex::encode` renders each byte as two lowercase hexadecimal digits.
/// `Hmac::new_from_slice` accepts keys of any length, so the expect
/// cannot fire.
#[verifier::external_body]
fn hmac_sha256_hex_exec(key: &str, msg: &str) -> (r: String)
    ensures
        r@ == hmac_sha256_hex(key@, msg@),
        r@.len() == 64,
        forall|i: int| 0 <= i < r@.len() ==> is_hex_digit(#[trigger] r@[i]),
{
    let mut mac = Hmac::<Sha256>::new_from_slice(key.as_bytes())
        .expect("HMAC accepts keys of any length");
    mac.update(msg.as_bytes());
    hex::encode(mac.finalize().into_bytes())
}

/// The byte string that gets signed: the path, an ampersand, and the
/// canonical encoding of the parameters. The HTTP method plays no part.
pub open spec fn signing_input(path: Seq<char>, params: ParamModel) -> Seq<char> {
    path + seq!['&'] + encode_value(params)
}

/// The signature of one request.
pub open spec fn signature_of(secret: Seq<char>, path: Seq<char>, params: ParamModel) -> Seq<
    char,
> {
    hmac_sha256_hex(secret, signing_input(path, params))
}

/// Compute the signature for a request: HMAC-SHA256 over
/// `path&canonical(params)` keyed by the secret, as 64 lowercase
/// hexadecimal digits.
pub fn get_signature(secret: &str, path: &str, params: &ParamValue) -> (r: String)
    ensures
        r@ == signature_of(secret@, path@, params@),
        r@.len() == 64,
        forall|i: int| 0 <= i < r@.len() ==> is_hex_digit(#[trigger] r@[i]),
{
    let encoded = canonical_encode(params);
    let mut data = String::new();
    data.append(path);
    push_char(&mut data, '&');
    data.append(encoded.as_str());
    proof {
        assert(data@ =~= signing_input(path@, params@));
    }
    hmac_sha256_hex_exec(secret, data.as_str())
}

/// Signing is deterministic and independent of the order in which a
/// mapping's keys were bound: two well-formed mappings that denote the
/// same mapping yield the same signature for the same path and secret.
pub proof fn lemma_signature_key_order_independent(
    secret: Seq<char>,
    path: Seq<char>,
    a: ParamModel,
    b: ParamModel,
)
    requires
        a.wf(),
        b.wf(),
        a is Obj,
        b is Obj,
        a.obj_map() == b.obj_map(),
    ensures
        signature_of(secret, path, a) == signature_of(secret, path, b),
{
    lemma_encode_key_order_independent(a, b);
}

} // verus!
