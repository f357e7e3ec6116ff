//! Building payment orders for the outbound gateway call, and the
//! fallback that keeps the flow alive when the gateway cannot be
//! reached: a locally generated mock order identifier takes the place
//! of the gateway's.

use crate::ids::fresh_compact_id;
use crate::ids::is_lower_hex;
use vstd::prelude::*;
use vstd::string::StrSliceExecFns;
use vstd::string::StringExecFns;

verus! {

/// A character mapped to upper case if it is an ASCII lower-case
/// letter, and left alone otherwise.
pub open spec fn spec_ascii_upper_char(c: char) -> char {
    if 'a' <= c && c <= 'z' {
        ((c as u32) - 32) as char
    } else {
        c
    }
}

/// ASCII upper-casing of a character sequence.
pub open spec fn spec_ascii_upper(s: Seq<char>) -> Seq<char> {
    s.map_values(|c: char| spec_ascii_upper_char(c))
}

/// Relies on str::to_ascii_uppercase: ASCII letters 'a' to 'z' are
/// mapped to 'A' to 'Z', all other characters are unchanged.
#[verifier::external_body]
fn ascii_upper(s: &str) -> (r: String)
    ensures
        r@ == spec_ascii_upper(s@),
{
    s.to_ascii_uppercase()
}

/// A fresh suffix for order and receipt identifiers: sixteen lower-case
/// hex characters.
pub open spec fn is_order_suffix(s: Seq<char>) -> bool {
    s.len() == 16 && forall|i: int| 0 <= i < s.len() ==> is_lower_hex(#[trigger] s[i])
}

/// The outbound payment-order request: the amount in minor currency
/// units, the currency, and a receipt identifier to correlate the
/// gateway's answer.
pub struct OrderRequest {
    pub amount_minor: u64,
    pub currency: String,
    pub receipt: String,
}

/// Builds the outbound order request. The currency defaults to INR;
/// the receipt is `rcpt_` followed by sixteen upper-cased hex
/// characters of a fresh identifier.
pub fn new_order_request(amount_minor: u64, currency: Option<String>) -> (r: OrderRequest)
    ensures
        r.amount_minor == amount_minor,
        match currency {
            Some(c) => r.currency@ == c@,
            None => r.currency@ == "INR"@,
        },
        exists|s: Seq<char>| #![auto] is_order_suffix(s) && r.receipt@ == "rcpt_"@ + spec_ascii_upper(s),
{
    let currency = match currency {
        Some(c) => c,
        None => String::from_str("INR"),
    };
    let fresh = fresh_compact_id();
    let suffix = fresh.as_str().substring_ascii(0, 16);
    let upper = ascii_upper(suffix);
    let receipt = String::from_str("rcpt_").concat(upper.as_str());
    proof {
        assert(is_order_suffix(suffix@));
    }
    OrderRequest { amount_minor, currency, receipt }
}

/// The identifiers a created order carries: the gateway's own order
/// identifier where the call succeeded, else a locally generated mock
/// (`order_mock_` and a fresh hex suffix) so the flow can continue in
/// degraded mode; beside it the service's local order identifier,
/// `order_` and the upper-cased suffix.
pub fn finalize_order(gateway_order_id: Option<String>) -> (r: (String, String))
    ensures
        exists|s: Seq<char>|
            #![auto]
            is_order_suffix(s) && {
                &&& (match gateway_order_id {
                    Some(g) => r.0@ == g@,
                    None => r.0@ == "order_mock_"@ + s,
                })
                &&& r.1@ == "order_"@ + spec_ascii_upper(s)
            },
{
    let fresh = fresh_compact_id();
    let suffix = fresh.as_str().substring_ascii(0, 16);
    let upper = ascii_upper(suffix);
    let local = String::from_str("order_").concat(upper.as_str());
    let remote = match gateway_order_id {
        Some(g) => g,
        None => String::from_str("order_mock_").concat(suffix),
    };
    proof {
        assert(is_order_suffix(suffix@));
    }
    (remote, local)
}

} // verus!
