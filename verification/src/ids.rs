//! Fresh identifiers for transactions, registrations and orders, drawn
//! from the uuid crate. The values are random: nothing is promised of
//! them beyond their shape.

use vstd::prelude::*;

verus! {

/// Whether a character is a lower-case hex digit.
pub open spec fn is_lower_hex(c: char) -> bool {
    ('0' <= c && c <= '9') || ('a' <= c && c <= 'f')
}

/// Relies on uuid's `Uuid::new_v4` and its hyphenated `Display` form: a
/// fresh random identifier of 36 ASCII characters. The value is random,
/// so nothing more is promised of it.
#[verifier::external_body]
pub(crate) fn fresh_id() -> (r: String)
    ensures
        r@.len() == 36,
        r.is_ascii(),
{
    uuid::Uuid::new_v4().to_string()
}

/// Relies on uuid's `Uuid::new_v4` and its simple form: a fresh random
/// identifier of 32 lower-case hex characters, without hyphens. The
/// value is random, so nothing more is promised of it.
#[verifier::external_body]
pub(crate) fn fresh_compact_id() -> (r: String)
    ensures
        r@.len() == 32,
        r.is_ascii(),
        forall|i: int| 0 <= i < r@.len() ==> is_lower_hex(#[trigger] r@[i]),
{
    uuid::Uuid::new_v4().simple().to_string()
}

} // verus!
