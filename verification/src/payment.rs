//! Payment-gateway signature verification: a keyed SHA-256 digest over
//! `orderId|paymentId`, hex-encoded and compared with the signature the
//! gateway sent. The comparison never exits early on a mismatch, so its
//! timing does not depend on the position of the first differing byte.

use hmac::Mac;
use vstd::prelude::*;
use vstd::string::StringSliceAdditionalSpecFns;

verus! {

/// The keyed SHA-256 digest (HMAC) of the message. Named only: the
/// digest is a pure function of key and message, computed by the hmac
/// and sha2 crates.
pub uninterp spec fn spec_hmac_sha256(key: Seq<u8>, message: Seq<u8>) -> Seq<u8>;

/// The lower-case hex digit of a nibble, as an ASCII byte.
pub open spec fn hex_digit(n: u8) -> u8
    recommends
        n < 16,
{
    if n < 10 {
        (n + 48) as u8  // '0' through '9'
    } else {
        (n + 87) as u8  // 'a' through 'f'
    }
}

/// Lower-case hex encoding: two digits per byte, high nibble first.
pub open spec fn spec_hex_lower(bytes: Seq<u8>) -> Seq<u8>
    decreases bytes.len(),
{
    if bytes.len() == 0 {
        Seq::empty()
    } else {
        spec_hex_lower(bytes.drop_last()) + seq![
            hex_digit(bytes.last() / 16),
            hex_digit(bytes.last() % 16),
        ]
    }
}

/// The signed message: the order identifier, a pipe, the payment
/// identifier.
pub open spec fn spec_message(order: Seq<u8>, payment: Seq<u8>) -> Seq<u8> {
    order + seq![('|' as u8)] + payment
}

/// The signature the gateway would produce for these identifiers under
/// this key.
pub open spec fn spec_expected_signature(key: Seq<u8>, order: Seq<u8>, payment: Seq<u8>) -> Seq<
    u8,
> {
    spec_hex_lower(spec_hmac_sha256(key, spec_message(order, payment)))
}

/// Whether the received signature is the one the gateway would produce.
pub open spec fn spec_verify(
    order: Seq<u8>,
    payment: Seq<u8>,
    signature: Seq<u8>,
    key: Seq<u8>,
) -> bool {
    signature == spec_expected_signature(key, order, payment)
}

/// Relies on hmac's `Hmac<Sha256>` with sha2: the keyed SHA-256 digest
/// of the message. It depends on the key and the message alone, any key
/// length is accepted, and the digest is 32 bytes.
#[verifier::external_body]
fn hmac_sha256(key: &[u8], message: &[u8]) -> (r: Vec<u8>)
    ensures
        r@ == spec_hmac_sha256(key@, message@),
        r@.len() == 32,
{
    let mut mac = <hmac::Hmac<sha2::Sha256> as Mac>::new_from_slice(key)
        .expect("any key length is accepted");
    mac.update(message);
    mac.finalize().into_bytes().to_vec()
}

/// Relies on hex::encode: two lower-case hex digits per byte, high
/// nibble first.
#[verifier::external_body]
fn hex_lower(bytes: &[u8]) -> (r: Vec<u8>)
    ensures
        r@ == spec_hex_lower(bytes@),
{
    hex::encode(bytes).into_bytes()
}

/// Byte-sequence equality without an early exit on a mismatching byte.
fn bytes_eq(a: &[u8], b: &[u8]) -> (r: bool)
    ensures
        r == (a@ == b@),
{
    if a.len() != b.len() {
        return false;
    }
    let n = a.len();
    let mut same: bool = true;
    let mut k: usize = 0;
    proof {
        assert(a@.take(0) =~= b@.take(0));
    }
    while k < n
        invariant
            n == a@.len(),
            n == b@.len(),
            k <= n,
            same == (a@.take(k as int) == b@.take(k as int)),
        decreases n - k,
    {
        let ghost prev = same;
        if a[k] != b[k] {
            same = false;
        }
        proof {
            if prev && a@[k as int] == b@[k as int] {
                assert(a@.take(k as int + 1) =~= a@.take(k as int).push(a@[k as int]));
                assert(b@.take(k as int + 1) =~= b@.take(k as int).push(b@[k as int]));
            } else if !prev {
                if a@.take(k as int + 1) == b@.take(k as int + 1) {
                    assert forall|j: int| 0 <= j < k implies a@.take(k as int)[j] == b@.take(
                        k as int,
                    )[j] by {
                        assert(a@.take(k as int + 1)[j] == b@.take(k as int + 1)[j]);
                    }
                    assert(a@.take(k as int) =~= b@.take(k as int));
                }
            } else {
                if a@.take(k as int + 1) == b@.take(k as int + 1) {
                    assert(a@.take(k as int + 1)[k as int] == b@.take(k as int + 1)[k as int]);
                }
            }
        }
        k += 1;
    }
    proof {
        assert(a@.take(n as int) =~= a@);
        assert(b@.take(n as int) =~= b@);
    }
    same
}

/// Validates a gateway callback: recomputes the keyed digest of
/// `orderId|paymentId` under the secret, hex-encodes it, and compares
/// it with the received signature. Returns true exactly on a match, for
/// every input, and is deterministic: the result is a function of the
/// four arguments alone.
pub fn verify(order_id: &str, payment_id: &str, signature: &str, secret: &str) -> (r: bool)
    ensures
        r == spec_verify(
            order_id.spec_bytes(),
            payment_id.spec_bytes(),
            signature.spec_bytes(),
            secret.spec_bytes(),
        ),
{
    let mut message: Vec<u8> = Vec::new();
    message.extend_from_slice(order_id.as_bytes());
    message.push('|' as u8);
    message.extend_from_slice(payment_id.as_bytes());
    proof {
        assert(message@ =~= spec_message(order_id.spec_bytes(), payment_id.spec_bytes()));
    }
    let digest = hmac_sha256(secret.as_bytes(), message.as_slice());
    let expected = hex_lower(digest.as_slice());
    bytes_eq(signature.as_bytes(), expected.as_slice())
}

/// Tampering: of two different signatures for the same order, payment
/// and key, at most one can verify.
pub proof fn lemma_verify_tamper(
    order: Seq<u8>,
    payment: Seq<u8>,
    sig1: Seq<u8>,
    sig2: Seq<u8>,
    key: Seq<u8>,
)
    requires
        sig1 != sig2,
        spec_verify(order, payment, sig1, key),
    ensures
        !spec_verify(order, payment, sig2, key),
{
}

} // verus!
