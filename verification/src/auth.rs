//! Deriving a stable user identifier from an opaque bearer token.

use vstd::prelude::*;
use vstd::string::StrSliceExecFns;
use vstd::string::StringExecFns;
use vstd::string::StringSliceAdditionalSpecFns;

verus! {

/// The user identifier that a bearer token maps to: a fixed prefix
/// followed by the first characters of the token, at most ten.
pub open spec fn spec_user_id(token: Seq<char>) -> Seq<char> {
    "user_"@ + token.take(if token.len() < 10 { token.len() as int } else { 10 })
}

/// Derives the identifier that owns a wallet and registrations.
/// Tokens are ASCII (they are base64 text), so the first ten bytes
/// are the first ten characters.
pub fn get_user_id_from_token(token: &str) -> (r: String)
    requires
        token.is_ascii(),
    ensures
        r@ == spec_user_id(token@),
{
    proof {
        broadcast use vstd::string::is_ascii_spec_bytes;
        broadcast use vstd::slice::group_slice_axioms;

        assert(token.spec_bytes().len() == token@.len());
    }
    let bytes = token.as_bytes();
    let n: usize = if bytes.len() < 10 { bytes.len() } else { 10 };
    let prefix = token.substring_ascii(0, n);
    let r = String::from_str("user_").concat(prefix);
    proof {
        assert(r@ == "user_"@ + prefix@);
        assert(n as int == (if token@.len() < 10 { token@.len() as int } else { 10 }));
        assert(prefix@ == token@.take(n as int));
        assert(r@ =~= spec_user_id(token@));
    }
    r
}

} // verus!
