//! Case-insensitive text matching for credential search.
//!
//! Lowercasing delegates to the standard library; substring search is the
//! crate's own, verified against [`contains_sub`].

use vstd::prelude::*;
use vstd::string::StrSliceExecFns;

verus! {

/// The Unicode lowercasing of a character sequence, as `str::to_lowercase`
/// computes it. The result depends on the characters alone.
pub uninterp spec fn lower_of(s: Seq<char>) -> Seq<char>;

/// Relies on `str::to_lowercase`: a pure function of the characters,
/// independent of locale and environment.
#[verifier::external_body]
pub(crate) fn to_lowercase(s: &str) -> (r: String)
    ensures
        r@ == lower_of(s@),
{
    s.to_lowercase()
}

/// True when `n` occurs contiguously inside `h`.
pub open spec fn contains_sub(h: Seq<char>, n: Seq<char>) -> bool {
    exists|i: int| 0 <= i <= h.len() - n.len() && #[trigger] h.subrange(i, i + n.len() as int) == n
}

/// The characters of `s`, as a vector.
pub(crate) fn str_chars(s: &str) -> (r: Vec<char>)
    ensures
        r@ == s@,
{
    let n = s.unicode_len();
    let mut r: Vec<char> = Vec::new();
    let mut i: usize = 0;
    while i < n
        invariant
            i <= n,
            n == s@.len(),
            r@ == s@.take(i as int),
        decreases n - i,
    {
        r.push(s.get_char(i));
        proof {
            assert(s@.take(i + 1) =~= s@.take(i as int).push(s@[i as int]));
        }
        i = i + 1;
    }
    proof {
        assert(s@.take(n as int) =~= s@);
    }
    r
}

/// Substring search over character vectors.
#[verifier::loop_isolation(false)]
pub(crate) fn contains_chars(h: &Vec<char>, n: &Vec<char>) -> (r: bool)
    ensures
        r == contains_sub(h@, n@),
{
    if n.len() > h.len() {
        return false;
    }
    if n.len() == 0 {
        proof {
            assert(h@.subrange(0, 0 + n@.len() as int) =~= n@);
        }
        return true;
    }
    let last = h.len() - n.len();
    let mut start: usize = 0;
    while start <= last
        invariant
            start <= last + 1,
            last == h@.len() - n@.len(),
            1 <= n@.len() <= h@.len(),
            forall|s: int|
                0 <= s < start ==> #[trigger] h@.subrange(s, s + n@.len() as int) != n@,
        decreases last + 1 - start,
    {
        let mut j: usize = 0;
        let mut matched = true;
        while j < n.len()
            invariant
                start <= last,
                last == h@.len() - n@.len(),
                1 <= n@.len() <= h@.len(),
                j <= n@.len(),
                matched ==> h@.subrange(start as int, start + j) == n@.take(j as int),
                !matched ==> h@.subrange(start as int, start + n@.len() as int) != n@,
            decreases n@.len() - j,
        {
            if h[start + j] != n[j] {
                proof {
                    let w = h@.subrange(start as int, start + n@.len() as int);
                    assert(w[j as int] == h@[start + j]);
                    assert(w != n@);
                }
                matched = false;
                j = n.len();
            } else {
                proof {
                    if matched {
                        assert(h@.subrange(start as int, start + j + 1) =~= h@.subrange(
                            start as int,
                            start + j,
                        ).push(h@[start + j]));
                        assert(n@.take(j + 1) =~= n@.take(j as int).push(n@[j as int]));
                    }
                }
                j = j + 1;
            }
        }
        if matched {
            proof {
                assert(n@.take(n@.len() as int) =~= n@);
                assert(h@.subrange(start as int, start + n@.len() as int) == n@);
            }
            return true;
        }
        start = start + 1;
    }
    proof {
        assert(forall|s: int|
            0 <= s <= h@.len() - n@.len() ==> #[trigger] h@.subrange(s, s + n@.len() as int)
                != n@);
    }
    false
}

} // verus!
