//! Random password generation.
//!
//! The pool of characters is fixed; each character of the password is an
//! independent uniform-ish draw from it (a random 32-bit value reduced
//! modulo the pool size).

use crate::codec::chars_to_string;
use crate::sys::random_u32;
use crate::text::str_chars;
use vstd::prelude::*;

verus! {

/// The character pool: ASCII letters and digits, with symbols appended
/// when requested.
pub open spec fn spec_charset(include_symbols: bool) -> Seq<char> {
    if include_symbols {
        "abcdefghijklmnopqrstuvwxyzABCDEFGHIJKLMNOPQRSTUVWXYZ0123456789"@
            + "!@#$%^&*()_-+=[]{}|;:,.<>?/"@
    } else {
        "abcdefghijklmnopqrstuvwxyzABCDEFGHIJKLMNOPQRSTUVWXYZ0123456789"@
    }
}

/// Generates a random password of the given length, drawn from the pool;
/// a length under 8 characters is refused.
#[verifier::loop_isolation(false)]
pub fn genrate_password(length: usize, include_symbols: bool) -> (r: Option<String>)
    ensures
        length < 8 <==> r is None,
        r matches Some(s) ==> s@.len() == length && forall|j: int|
            0 <= j < s@.len() ==> spec_charset(include_symbols).contains(#[trigger] s@[j]),
{
    if length < 8 {
        return None;
    }
    proof {
        reveal_strlit("abcdefghijklmnopqrstuvwxyzABCDEFGHIJKLMNOPQRSTUVWXYZ0123456789");
        reveal_strlit("!@#$%^&*()_-+=[]{}|;:,.<>?/");
    }
    let mut charset = str_chars("abcdefghijklmnopqrstuvwxyzABCDEFGHIJKLMNOPQRSTUVWXYZ0123456789");
    if include_symbols {
        let mut more = str_chars("!@#$%^&*()_-+=[]{}|;:,.<>?/");
        charset.append(&mut more);
    }
    let mut out: Vec<char> = Vec::new();
    let mut i: usize = 0;
    while i < length
        invariant
            i <= length,
            out@.len() == i,
            charset@ == spec_charset(include_symbols),
            charset@.len() > 0,
            forall|j: int|
                0 <= j < i ==> spec_charset(include_symbols).contains(#[trigger] out@[j]),
        decreases length - i,
    {
        let idx = (random_u32() as usize) % charset.len();
        out.push(charset[idx]);
        i = i + 1;
    }
    Some(chars_to_string(&out))
}

} // verus!
