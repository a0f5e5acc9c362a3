//! Length-framed binary encoding primitives.
//!
//! The vault's payload and its on-disk envelope are records built from a
//! handful of primitive encodings: fixed-width little-endian integers,
//! character strings (a count followed by one 32-bit scalar value per
//! character), raw byte strings, and options. Each primitive has a spec
//! encoder, a spec decoder that consumes a prefix of a byte sequence and
//! returns the remainder, exec counterparts proved against them, and a
//! round-trip lemma: decoding an encoding, followed by arbitrary trailing
//! bytes, yields the value and exactly those trailing bytes.

use vstd::prelude::*;
use vstd::string::StrSliceExecFns;

verus! {

/// 256 raised to `k`: the number of values a `k`-byte field can hold.
pub open spec fn pow256(k: nat) -> nat
    decreases k,
{
    if k == 0 {
        1
    } else {
        256 * pow256((k - 1) as nat)
    }
}

/// The `k`-byte little-endian encoding of `n`.
pub open spec fn enc_le(n: nat, k: nat) -> Seq<u8>
    decreases k,
{
    if k == 0 {
        Seq::empty()
    } else {
        seq![(n % 256) as u8] + enc_le(n / 256, (k - 1) as nat)
    }
}

/// The value read back from a little-endian byte sequence.
pub open spec fn dec_le(b: Seq<u8>) -> nat
    decreases b.len(),
{
    if b.len() == 0 {
        0
    } else {
        (b[0] as nat) + 256 * dec_le(b.drop_first())
    }
}

pub proof fn lemma_enc_le_len(n: nat, k: nat)
    ensures
        enc_le(n, k).len() == k,
    decreases k,
{
    if k > 0 {
        lemma_enc_le_len(n / 256, (k - 1) as nat);
    }
}

pub proof fn lemma_dec_le_bound(b: Seq<u8>)
    ensures
        dec_le(b) < pow256(b.len()),
    decreases b.len(),
{
    if b.len() > 0 {
        lemma_dec_le_bound(b.drop_first());
    }
}

/// Decoding inverts encoding for every value that fits in `k` bytes.
pub proof fn lemma_dec_enc_le(n: nat, k: nat)
    requires
        n < pow256(k),
    ensures
        dec_le(enc_le(n, k)) == n,
    decreases k,
{
    if k > 0 {
        assert(n / 256 < pow256((k - 1) as nat)) by (nonlinear_arith)
            requires
                n < 256 * pow256((k - 1) as nat),
        ;
        lemma_dec_enc_le(n / 256, (k - 1) as nat);
        let e = enc_le(n, k);
        assert(e.drop_first() =~= enc_le(n / 256, (k - 1) as nat));
        assert((n % 256) + 256 * (n / 256) == n) by (nonlinear_arith);
    }
}

/// A `k`-byte encoding followed by anything splits back apart.
pub proof fn lemma_enc_le_take_skip(n: nat, k: nat, rest: Seq<u8>)
    requires
        n < pow256(k),
    ensures
        (enc_le(n, k) + rest).len() == k + rest.len(),
        (enc_le(n, k) + rest).take(k as int) == enc_le(n, k),
        (enc_le(n, k) + rest).skip(k as int) == rest,
        dec_le((enc_le(n, k) + rest).take(k as int)) == n,
{
    lemma_enc_le_len(n, k);
    assert((enc_le(n, k) + rest).take(k as int) =~= enc_le(n, k));
    assert((enc_le(n, k) + rest).skip(k as int) =~= rest);
    lemma_dec_enc_le(n, k);
}

/// Appends the `k`-byte little-endian encoding of `n` to `out`.
pub fn push_le(out: &mut Vec<u8>, n: u128, k: usize)
    requires
        (n as nat) < pow256(k as nat),
    ensures
        final(out)@ == old(out)@ + enc_le(n as nat, k as nat),
{
    let ghost n0 = n as nat;
    let ghost k0 = k as nat;
    let mut cur: u128 = n;
    let mut i: usize = 0;
    while i < k
        invariant
            i <= k,
            (cur as nat) < pow256((k - i) as nat),
            out@ + enc_le(cur as nat, (k - i) as nat) == old(out)@ + enc_le(n0, k0),
        decreases k - i,
    {
        proof {
            assert(pow256((k - i) as nat) == 256 * pow256((k - i - 1) as nat));
            assert((cur as nat) / 256 < pow256((k - i - 1) as nat)) by (nonlinear_arith)
                requires
                    (cur as nat) < 256 * pow256((k - i - 1) as nat),
            ;
        }
        let ghost pre = out@;
        out.push((cur % 256) as u8);
        proof {
            let c = cur as nat;
            let rem = (k - i - 1) as nat;
            assert(enc_le(c, (k - i) as nat) == seq![(c % 256) as u8] + enc_le(c / 256, rem));
            assert(out@ + enc_le(c / 256, rem) =~= pre + enc_le(c, (k - i) as nat));
        }
        cur = cur / 256;
        i = i + 1;
    }
    proof {
        assert(enc_le(cur as nat, 0) =~= Seq::<u8>::empty());
        assert(out@ =~= out@ + Seq::<u8>::empty());
    }
}

/// Reads a `k`-byte little-endian integer from the front of `b`, returning
/// the value and the remaining bytes; fails when fewer than `k` bytes are
/// left.
pub fn read_le<'a>(b: &'a [u8], k: usize) -> (r: Option<(u128, &'a [u8])>)
    requires
        k <= 16,
    ensures
        b@.len() >= k ==> (r matches Some(p) && (p.0 as nat) == dec_le(b@.take(k as int))
            && p.1@ == b@.skip(k as int)),
        b@.len() < k ==> r is None,
{
    if b.len() < k {
        return None;
    }
    let mut val: u128 = 0;
    let mut j: usize = k;
    proof {
        assert(b@.subrange(k as int, k as int) =~= Seq::<u8>::empty());
    }
    while j > 0
        invariant
            j <= k <= 16,
            k <= b@.len(),
            (val as nat) == dec_le(b@.subrange(j as int, k as int)),
            (val as nat) < pow256((k - j) as nat),
        decreases j,
    {
        let byte = *vstd::slice::slice_index_get(b, j - 1);
        proof {
            let s = b@.subrange(j - 1, k as int);
            assert(s.drop_first() =~= b@.subrange(j as int, k as int));
            assert(dec_le(s) == (byte as nat) + 256 * (val as nat));
            assert(256 * (val as nat) + 256 <= 256 * pow256((k - j) as nat)) by (nonlinear_arith)
                requires
                    (val as nat) < pow256((k - j) as nat),
            ;
            assert(pow256((k - j + 1) as nat) == 256 * pow256((k - j) as nat));
            lemma_pow256_le((k - j + 1) as nat, 16);
            lemma_pow256_16();
        }
        val = val * 256 + (byte as u128);
        j = j - 1;
    }
    proof {
        assert(b@.subrange(0, k as int) =~= b@.take(k as int));
    }
    Some((val, vstd::slice::slice_subrange(b, k, b.len())))
}

/// The largest field width in use, 16 bytes, covers exactly the `u128`
/// range.
pub proof fn lemma_pow256_16()
    ensures
        pow256(16) == 0x100000000000000000000000000000000,
{
    reveal_with_fuel(pow256, 17);
}

/// The field widths in use.
pub proof fn lemma_pow256_widths()
    ensures
        pow256(1) == 0x100,
        pow256(4) == 0x100000000,
        pow256(8) == 0x10000000000000000,
{
    reveal_with_fuel(pow256, 9);
}

/// `pow256` is monotone in its exponent.
pub proof fn lemma_pow256_le(a: nat, b: nat)
    requires
        a <= b,
    ensures
        pow256(a) <= pow256(b),
    decreases b,
{
    if a < b {
        lemma_pow256_le(a, (b - 1) as nat);
        assert(pow256(b) == 256 * pow256((b - 1) as nat));
        assert(256 * pow256((b - 1) as nat) >= pow256((b - 1) as nat)) by (nonlinear_arith);
    }
}

/// The encoding of a character sequence's contents: each character as its
/// 32-bit scalar value, 4 bytes little-endian.
pub open spec fn enc_chars(s: Seq<char>) -> Seq<u8>
    decreases s.len(),
{
    if s.len() == 0 {
        Seq::empty()
    } else {
        enc_le((s[0] as u32) as nat, 4) + enc_chars(s.drop_first())
    }
}

/// The encoding of a character string: an 8-byte count, then the characters.
pub open spec fn enc_str(s: Seq<char>) -> Seq<u8> {
    enc_le(s.len(), 8) + enc_chars(s)
}

/// Decodes `n` characters from the front of `b`; fails on a truncated input
/// or on a 32-bit value that is no Unicode scalar.
pub open spec fn dec_chars(b: Seq<u8>, n: nat) -> Option<(Seq<char>, Seq<u8>)>
    decreases n,
{
    if n == 0 {
        Some((Seq::empty(), b))
    } else if b.len() < 4 {
        None
    } else {
        let u = dec_le(b.take(4)) as u32;
        if vstd::utf8::is_scalar(u) {
            match dec_chars(b.skip(4), (n - 1) as nat) {
                Some(p) => Some((seq![u as char] + p.0, p.1)),
                None => None,
            }
        } else {
            None
        }
    }
}

/// Decodes a character string from the front of `b`.
pub open spec fn dec_str(b: Seq<u8>) -> Option<(Seq<char>, Seq<u8>)> {
    if b.len() < 8 {
        None
    } else {
        dec_chars(b.skip(8), dec_le(b.take(8)))
    }
}

/// A successful character decode consumes exactly 4 bytes per character.
pub proof fn lemma_dec_chars_len(b: Seq<u8>, n: nat)
    requires
        dec_chars(b, n) is Some,
    ensures
        dec_chars(b, n) matches Some(p) ==> p.1.len() + 4 * n == b.len() && p.0.len() == n,
    decreases n,
{
    if n > 0 {
        lemma_dec_chars_len(b.skip(4), (n - 1) as nat);
    }
}

pub proof fn lemma_dec_enc_chars(s: Seq<char>, rest: Seq<u8>)
    ensures
        dec_chars(enc_chars(s) + rest, s.len()) == Some((s, rest)),
    decreases s.len(),
{
    lemma_pow256_widths();
    if s.len() == 0 {
        assert(enc_chars(s) + rest =~= rest);
    } else {
        let c = s[0];
        let u = c as u32;
        vstd::utf8::char_is_scalar(c);
        let tail = enc_chars(s.drop_first()) + rest;
        assert(enc_chars(s) + rest =~= enc_le(u as nat, 4) + tail);
        lemma_enc_le_take_skip(u as nat, 4, tail);
        lemma_dec_enc_chars(s.drop_first(), rest);
        vstd::utf8::char_u32_cast(c, u);
        assert(seq![c] + s.drop_first() =~= s);
    }
}

pub proof fn lemma_dec_enc_str(s: Seq<char>, rest: Seq<u8>)
    requires
        s.len() < pow256(8),
    ensures
        dec_str(enc_str(s) + rest) == Some((s, rest)),
{
    let tail = enc_chars(s) + rest;
    assert(enc_str(s) + rest =~= enc_le(s.len(), 8) + tail);
    lemma_enc_le_take_skip(s.len(), 8, tail);
    lemma_dec_enc_chars(s, rest);
}

/// The contents encoding distributes over appending one character.
pub proof fn lemma_enc_chars_push(s: Seq<char>, c: char)
    ensures
        enc_chars(s.push(c)) == enc_chars(s) + enc_le((c as u32) as nat, 4),
    decreases s.len(),
{
    if s.len() == 0 {
        let sp = s.push(c);
        assert(sp[0] == c);
        assert(sp.drop_first() =~= Seq::<char>::empty());
        assert(enc_chars(sp) == enc_le((c as u32) as nat, 4) + enc_chars(sp.drop_first()));
        assert(enc_le((c as u32) as nat, 4) + Seq::<u8>::empty() =~= enc_le((c as u32) as nat, 4));
        assert(Seq::<u8>::empty() + enc_le((c as u32) as nat, 4) =~= enc_le((c as u32) as nat, 4));
    } else {
        assert(s.push(c).drop_first() =~= s.drop_first().push(c));
        assert(s.push(c)[0] == s[0]);
        lemma_enc_chars_push(s.drop_first(), c);
        assert(enc_le((s[0] as u32) as nat, 4) + (enc_chars(s.drop_first()) + enc_le(
            (c as u32) as nat,
            4,
        )) =~= (enc_le((s[0] as u32) as nat, 4) + enc_chars(s.drop_first())) + enc_le(
            (c as u32) as nat,
            4,
        ));
    }
}

/// Relies on `char::from_u32` of core: it returns a character exactly when
/// the value is a Unicode scalar, and that character's scalar value is the
/// argument.
pub assume_specification[ char::from_u32 ](u: u32) -> (r: Option<char>)
    ensures
        r is Some <==> vstd::utf8::is_scalar(u),
        r matches Some(c) ==> (c as u32) == u,
;

/// Relies on `String`'s `FromIterator` over `char` (via `Iterator::collect`):
/// the resulting string holds exactly the characters of the vector, in
/// order.
#[verifier::external_body]
pub(crate) fn chars_to_string(v: &Vec<char>) -> (r: String)
    ensures
        r@ == v@,
{
    v.iter().collect()
}

/// Appends the encoding of `s`'s contents to `out`.
fn push_chars(out: &mut Vec<u8>, s: &str)
    ensures
        final(out)@ == old(out)@ + enc_chars(s@),
{
    let n = s.unicode_len();
    let mut i: usize = 0;
    proof {
        assert(s@.take(0) =~= Seq::<char>::empty());
        assert(out@ + enc_chars(s@.take(0)) =~= out@);
        lemma_pow256_widths();
    }
    while i < n
        invariant
            i <= n,
            n == s@.len(),
            out@ == old(out)@ + enc_chars(s@.take(i as int)),
        decreases n - i,
    {
        let c = s.get_char(i);
        let ghost pre = out@;
        proof {
            lemma_pow256_widths();
        }
        push_le(out, (c as u32) as u128, 4);
        proof {
            lemma_enc_chars_push(s@.take(i as int), c);
            assert(s@.take(i + 1) =~= s@.take(i as int).push(c));
            assert(out@ =~= old(out)@ + enc_chars(s@.take(i + 1)));
        }
        i = i + 1;
    }
    proof {
        assert(s@.take(n as int) =~= s@);
    }
}

/// Appends the encoding of the character string `s` to `out`.
pub fn push_string(out: &mut Vec<u8>, s: &str)
    ensures
        final(out)@ == old(out)@ + enc_str(s@),
        s@.len() < pow256(8),
{
    let n = s.unicode_len();
    proof {
        lemma_pow256_widths();
    }
    push_le(out, n as u128, 8);
    push_chars(out, s);
    proof {
        assert(old(out)@ + (enc_le(s@.len(), 8) + enc_chars(s@)) =~= (old(out)@ + enc_le(
            s@.len(),
            8,
        )) + enc_chars(s@));
    }
}

/// Parses a character string from the front of `b`, returning it and the
/// remaining bytes.
pub fn parse_string<'a>(b: &'a [u8]) -> (r: Option<(String, &'a [u8])>)
    ensures
        r matches Some(p) ==> dec_str(b@) == Some((p.0@, p.1@)),
        r is None ==> dec_str(b@) is None,
{
    proof {
        lemma_pow256_widths();
    }
    let first = read_le(b, 8);
    if first.is_none() {
        return None;
    }
    let (n128, r1) = first.unwrap();
    let ghost n = n128 as nat;
    if n128 > (r1.len() / 4) as u128 {
        proof {
            if dec_chars(r1@, n) is Some {
                lemma_dec_chars_len(r1@, n);
            }
        }
        return None;
    }
    let count: usize = n128 as usize;
    let mut acc: Vec<char> = Vec::new();
    let mut cur: &[u8] = r1;
    let mut i: usize = 0;
    while i < count
        invariant
            i <= count,
            n == count,
            b@.len() >= 8,
            n == dec_le(b@.take(8)),
            r1@ == b@.skip(8),
            cur@.len() == r1@.len() - 4 * i,
            4 * count <= r1@.len(),
            acc@.len() == i,
            dec_chars(r1@, n) == (match dec_chars(cur@, (n - i as nat) as nat) {
                Some(p) => Some((acc@ + p.0, p.1)),
                None => None::<(Seq<char>, Seq<u8>)>,
            }),
        decreases count - i,
    {
        proof {
            lemma_pow256_widths();
            lemma_dec_le_bound(cur@.take(4));
        }
        let step = read_le(cur, 4);
        let (u128v, rest) = step.unwrap();
        let u: u32 = u128v as u32;
        let copt = char::from_u32(u);
        proof {
            assert(dec_chars(cur@, (n - i as nat) as nat) == (if vstd::utf8::is_scalar(u) {
                match dec_chars(cur@.skip(4), (n - i as nat - 1) as nat) {
                    Some(p) => Some((seq![u as char] + p.0, p.1)),
                    None => None::<(Seq<char>, Seq<u8>)>,
                }
            } else {
                None::<(Seq<char>, Seq<u8>)>
            }));
        }
        if copt.is_none() {
            return None;
        }
        let c = copt.unwrap();
        proof {
            vstd::utf8::char_u32_cast(c, u);
        }
        let ghost accpre = acc@;
        acc.push(c);
        proof {
            let o = dec_chars(cur@.skip(4), (n - i as nat - 1) as nat);
            if o is Some {
                let p = o->0;
                assert(accpre + (seq![c] + p.0) =~= acc@ + p.0);
            }
        }
        cur = rest;
        i = i + 1;
    }
    proof {
        assert(dec_chars(cur@, 0) == Some((Seq::<char>::empty(), cur@)));
        assert(acc@ + Seq::<char>::empty() =~= acc@);
    }
    let s = chars_to_string(&acc);
    Some((s, cur))
}

/// The encoding of an optional character string: a presence byte, then the
/// string if present.
pub open spec fn enc_opt_str(o: Option<Seq<char>>) -> Seq<u8> {
    match o {
        None => seq![0u8],
        Some(s) => seq![1u8] + enc_str(s),
    }
}

/// Decodes an optional character string from the front of `b`.
pub open spec fn dec_opt_str(b: Seq<u8>) -> Option<(Option<Seq<char>>, Seq<u8>)> {
    if b.len() < 1 {
        None
    } else if b[0] == 0 {
        Some((None, b.drop_first()))
    } else if b[0] == 1 {
        match dec_str(b.drop_first()) {
            Some(p) => Some((Some(p.0), p.1)),
            None => None,
        }
    } else {
        None
    }
}

pub proof fn lemma_dec_enc_opt_str(o: Option<Seq<char>>, rest: Seq<u8>)
    requires
        o matches Some(s) ==> s.len() < pow256(8),
    ensures
        dec_opt_str(enc_opt_str(o) + rest) == Some((o, rest)),
{
    match o {
        None => {
            assert((seq![0u8] + rest)[0] == 0);
            assert((seq![0u8] + rest).drop_first() =~= rest);
        },
        Some(s) => {
            let w = enc_opt_str(o) + rest;
            assert(w =~= seq![1u8] + (enc_str(s) + rest));
            assert(w[0] == 1);
            assert(w.drop_first() =~= enc_str(s) + rest);
            lemma_dec_enc_str(s, rest);
        },
    }
}

/// Appends the encoding of the optional string `o` to `out`.
pub fn push_opt_string(out: &mut Vec<u8>, o: &Option<String>)
    ensures
        final(out)@ == old(out)@ + enc_opt_str(match o {
            Some(s) => Some(s@),
            None => None,
        }),
        o matches Some(s) ==> s@.len() < pow256(8),
{
    match o {
        None => {
            out.push(0u8);
            proof {
                assert(old(out)@ + seq![0u8] =~= old(out)@.push(0u8));
            }
        },
        Some(s) => {
            out.push(1u8);
            let ghost mid = out@;
            push_string(out, s.as_str());
            proof {
                assert(mid =~= old(out)@ + seq![1u8]);
                assert(old(out)@ + (seq![1u8] + enc_str(s@)) =~= (old(out)@ + seq![1u8]) + enc_str(
                    s@,
                ));
            }
        },
    }
}

/// Parses an optional character string from the front of `b`.
pub fn parse_opt_string<'a>(b: &'a [u8]) -> (r: Option<(Option<String>, &'a [u8])>)
    ensures
        r matches Some(p) ==> dec_opt_str(b@) == Some((
            match p.0 {
                Some(s) => Some(s@),
                None => None,
            },
            p.1@,
        )),
        r is None ==> dec_opt_str(b@) is None,
{
    if b.len() < 1 {
        return None;
    }
    let tag = *vstd::slice::slice_index_get(b, 0);
    let rest = vstd::slice::slice_subrange(b, 1, b.len());
    proof {
        assert(rest@ =~= b@.drop_first());
    }
    if tag == 0 {
        Some((None, rest))
    } else if tag == 1 {
        match parse_string(rest) {
            Some(p) => Some((Some(p.0), p.1)),
            None => None,
        }
    } else {
        None
    }
}

/// The concatenated encodings of a sequence of character strings.
pub open spec fn enc_str_seq(l: Seq<Seq<char>>) -> Seq<u8>
    decreases l.len(),
{
    if l.len() == 0 {
        Seq::empty()
    } else {
        enc_str(l[0]) + enc_str_seq(l.drop_first())
    }
}

/// The encoding of a list of character strings: an 8-byte count, then the
/// strings.
pub open spec fn enc_str_list(l: Seq<Seq<char>>) -> Seq<u8> {
    enc_le(l.len(), 8) + enc_str_seq(l)
}

/// Decodes `n` character strings from the front of `b`.
pub open spec fn dec_str_seq(b: Seq<u8>, n: nat) -> Option<(Seq<Seq<char>>, Seq<u8>)>
    decreases n,
{
    if n == 0 {
        Some((Seq::empty(), b))
    } else {
        match dec_str(b) {
            Some(p) => match dec_str_seq(p.1, (n - 1) as nat) {
                Some(q) => Some((seq![p.0] + q.0, q.1)),
                None => None,
            },
            None => None,
        }
    }
}

/// Decodes a list of character strings from the front of `b`.
pub open spec fn dec_str_list(b: Seq<u8>) -> Option<(Seq<Seq<char>>, Seq<u8>)> {
    if b.len() < 8 {
        None
    } else {
        dec_str_seq(b.skip(8), dec_le(b.take(8)))
    }
}

/// A successful string decode consumes at least its 8-byte count field.
pub proof fn lemma_dec_str_len(b: Seq<u8>)
    requires
        dec_str(b) is Some,
    ensures
        dec_str(b) matches Some(p) ==> p.1.len() + 8 + 4 * p.0.len() == b.len(),
{
    lemma_dec_chars_len(b.skip(8), dec_le(b.take(8)));
}

/// A successful string-sequence decode consumes at least 8 bytes per string.
pub proof fn lemma_dec_str_seq_len(b: Seq<u8>, n: nat)
    requires
        dec_str_seq(b, n) is Some,
    ensures
        dec_str_seq(b, n) matches Some(q) ==> q.1.len() + 8 * n <= b.len() && q.0.len() == n,
    decreases n,
{
    if n > 0 {
        let p = dec_str(b)->0;
        lemma_dec_str_len(b);
        lemma_dec_str_seq_len(p.1, (n - 1) as nat);
    }
}

pub proof fn lemma_dec_enc_str_seq(l: Seq<Seq<char>>, rest: Seq<u8>)
    requires
        forall|i: int| 0 <= i < l.len() ==> (#[trigger] l[i]).len() < pow256(8),
    ensures
        dec_str_seq(enc_str_seq(l) + rest, l.len()) == Some((l, rest)),
    decreases l.len(),
{
    if l.len() == 0 {
        assert(enc_str_seq(l) + rest =~= rest);
    } else {
        let tail = enc_str_seq(l.drop_first()) + rest;
        assert(enc_str_seq(l) + rest =~= enc_str(l[0]) + tail);
        lemma_dec_enc_str(l[0], tail);
        lemma_dec_enc_str_seq(l.drop_first(), rest);
        assert(seq![l[0]] + l.drop_first() =~= l);
    }
}

pub proof fn lemma_dec_enc_str_list(l: Seq<Seq<char>>, rest: Seq<u8>)
    requires
        l.len() < pow256(8),
        forall|i: int| 0 <= i < l.len() ==> (#[trigger] l[i]).len() < pow256(8),
    ensures
        dec_str_list(enc_str_list(l) + rest) == Some((l, rest)),
{
    let tail = enc_str_seq(l) + rest;
    assert(enc_str_list(l) + rest =~= enc_le(l.len(), 8) + tail);
    lemma_enc_le_take_skip(l.len(), 8, tail);
    lemma_dec_enc_str_seq(l, rest);
}

/// The sequence encoding distributes over appending one string.
pub proof fn lemma_enc_str_seq_push(l: Seq<Seq<char>>, s: Seq<char>)
    ensures
        enc_str_seq(l.push(s)) == enc_str_seq(l) + enc_str(s),
    decreases l.len(),
{
    if l.len() == 0 {
        let lp = l.push(s);
        assert(lp[0] == s);
        assert(lp.drop_first() =~= Seq::<Seq<char>>::empty());
        assert(enc_str_seq(lp) == enc_str(s) + enc_str_seq(lp.drop_first()));
        assert(enc_str(s) + Seq::<u8>::empty() =~= enc_str(s));
        assert(Seq::<u8>::empty() + enc_str(s) =~= enc_str(s));
    } else {
        assert(l.push(s).drop_first() =~= l.drop_first().push(s));
        assert(l.push(s)[0] == l[0]);
        lemma_enc_str_seq_push(l.drop_first(), s);
        assert(enc_str(l[0]) + (enc_str_seq(l.drop_first()) + enc_str(s)) =~= (enc_str(l[0])
            + enc_str_seq(l.drop_first())) + enc_str(s));
    }
}

/// Appends the encoding of the string list `v` to `out`.
pub fn push_str_list(out: &mut Vec<u8>, v: &Vec<String>)
    ensures
        final(out)@ == old(out)@ + enc_str_list(v.deep_view()),
        v.deep_view().len() < pow256(8),
        forall|i: int|
            0 <= i < v.deep_view().len() ==> (#[trigger] v.deep_view()[i]).len() < pow256(8),
{
    proof {
        lemma_pow256_widths();
    }
    push_le(out, v.len() as u128, 8);
    let ghost mid = out@;
    let ghost dv = v.deep_view();
    let mut i: usize = 0;
    proof {
        assert(dv.take(0) =~= Seq::<Seq<char>>::empty());
        assert(mid + enc_str_seq(dv.take(0)) =~= mid);
    }
    while i < v.len()
        invariant
            i <= v@.len(),
            dv == v.deep_view(),
            dv.len() == v@.len(),
            out@ == mid + enc_str_seq(dv.take(i as int)),
            forall|j: int| 0 <= j < i ==> (#[trigger] dv[j]).len() < pow256(8),
        decreases v@.len() - i,
    {
        let ghost pre = out@;
        push_string(out, v[i].as_str());
        proof {
            assert(dv[i as int] == v@[i as int]@);
            lemma_enc_str_seq_push(dv.take(i as int), dv[i as int]);
            assert(dv.take(i + 1) =~= dv.take(i as int).push(dv[i as int]));
            assert(mid + (enc_str_seq(dv.take(i as int)) + enc_str(dv[i as int])) =~= (mid
                + enc_str_seq(dv.take(i as int))) + enc_str(dv[i as int]));
        }
        i = i + 1;
    }
    proof {
        assert(dv.take(dv.len() as int) =~= dv);
        assert(old(out)@ + (enc_le(dv.len(), 8) + enc_str_seq(dv)) =~= (old(out)@ + enc_le(
            dv.len(),
            8,
        )) + enc_str_seq(dv));
    }
}

/// Parses a list of character strings from the front of `b`.
pub fn parse_str_list<'a>(b: &'a [u8]) -> (r: Option<(Vec<String>, &'a [u8])>)
    ensures
        r matches Some(p) ==> dec_str_list(b@) == Some((p.0.deep_view(), p.1@)),
        r is None ==> dec_str_list(b@) is None,
{
    proof {
        lemma_pow256_widths();
    }
    let first = read_le(b, 8);
    if first.is_none() {
        return None;
    }
    let (n128, r1) = first.unwrap();
    let ghost n = n128 as nat;
    if n128 > (r1.len() / 8) as u128 {
        proof {
            if dec_str_seq(r1@, n) is Some {
                lemma_dec_str_seq_len(r1@, n);
            }
        }
        return None;
    }
    let count: usize = n128 as usize;
    let mut acc: Vec<String> = Vec::new();
    let mut cur: &[u8] = r1;
    let mut i: usize = 0;
    while i < count
        invariant
            i <= count,
            n == count,
            b@.len() >= 8,
            n == dec_le(b@.take(8)),
            r1@ == b@.skip(8),
            acc.deep_view().len() == i,
            dec_str_seq(r1@, n) == (match dec_str_seq(cur@, (n - i as nat) as nat) {
                Some(q) => Some((acc.deep_view() + q.0, q.1)),
                None => None::<(Seq<Seq<char>>, Seq<u8>)>,
            }),
        decreases count - i,
    {
        let step = parse_string(cur);
        proof {
            assert(dec_str_seq(cur@, (n - i as nat) as nat) == (match dec_str(cur@) {
                Some(p) => match dec_str_seq(p.1, (n - i as nat - 1) as nat) {
                    Some(q) => Some((seq![p.0] + q.0, q.1)),
                    None => None::<(Seq<Seq<char>>, Seq<u8>)>,
                },
                None => None::<(Seq<Seq<char>>, Seq<u8>)>,
            }));
        }
        if step.is_none() {
            return None;
        }
        let (s, rest) = step.unwrap();
        let ghost accpre = acc.deep_view();
        let ghost sv = s@;
        acc.push(s);
        proof {
            assert(acc.deep_view() =~= accpre.push(sv));
            let o = dec_str_seq(rest@, (n - i as nat - 1) as nat);
            if o is Some {
                let q = o->0;
                assert(accpre + (seq![sv] + q.0) =~= accpre.push(sv) + q.0);
            }
        }
        cur = rest;
        i = i + 1;
    }
    proof {
        assert(dec_str_seq(cur@, 0) == Some((Seq::<Seq<char>>::empty(), cur@)));
        assert(acc.deep_view() + Seq::<Seq<char>>::empty() =~= acc.deep_view());
    }
    Some((acc, cur))
}

/// The encoding of a raw byte string: an 8-byte count, then the bytes.
pub open spec fn enc_bytes(v: Seq<u8>) -> Seq<u8> {
    enc_le(v.len(), 8) + v
}

/// Decodes a raw byte string from the front of `b`.
pub open spec fn dec_bytes(b: Seq<u8>) -> Option<(Seq<u8>, Seq<u8>)> {
    if b.len() < 8 {
        None
    } else {
        let n = dec_le(b.take(8));
        let r = b.skip(8);
        if r.len() < n {
            None
        } else {
            Some((r.take(n as int), r.skip(n as int)))
        }
    }
}

pub proof fn lemma_dec_enc_bytes(v: Seq<u8>, rest: Seq<u8>)
    requires
        v.len() < pow256(8),
    ensures
        dec_bytes(enc_bytes(v) + rest) == Some((v, rest)),
{
    let tail = v + rest;
    assert(enc_bytes(v) + rest =~= enc_le(v.len(), 8) + tail);
    lemma_enc_le_take_skip(v.len(), 8, tail);
    assert(tail.take(v.len() as int) =~= v);
    assert(tail.skip(v.len() as int) =~= rest);
}

/// Appends the encoding of the byte string `v` to `out`.
pub fn push_bytes(out: &mut Vec<u8>, v: &[u8])
    ensures
        final(out)@ == old(out)@ + enc_bytes(v@),
        v@.len() < pow256(8),
{
    proof {
        lemma_pow256_widths();
    }
    push_le(out, v.len() as u128, 8);
    let ghost mid = out@;
    let mut j: usize = 0;
    proof {
        assert(mid + v@.take(0) =~= mid);
    }
    while j < v.len()
        invariant
            j <= v@.len(),
            out@ == mid + v@.take(j as int),
            mid == old(out)@ + enc_le(v@.len(), 8),
        decreases v@.len() - j,
    {
        out.push(*vstd::slice::slice_index_get(v, j));
        proof {
            assert(mid + v@.take(j + 1) =~= (mid + v@.take(j as int)).push(v@[j as int]));
        }
        j = j + 1;
    }
    proof {
        assert(v@.take(v@.len() as int) =~= v@);
        assert(old(out)@ + (enc_le(v@.len(), 8) + v@) =~= (old(out)@ + enc_le(v@.len(), 8)) + v@);
    }
}

/// Parses a raw byte string from the front of `b`.
pub fn parse_bytes<'a>(b: &'a [u8]) -> (r: Option<(Vec<u8>, &'a [u8])>)
    ensures
        r matches Some(p) ==> dec_bytes(b@) == Some((p.0@, p.1@)),
        r is None ==> dec_bytes(b@) is None,
{
    proof {
        lemma_pow256_widths();
    }
    let first = read_le(b, 8);
    if first.is_none() {
        return None;
    }
    let (n128, r1) = first.unwrap();
    if n128 > r1.len() as u128 {
        return None;
    }
    let n: usize = n128 as usize;
    let data = vstd::slice::slice_to_vec(vstd::slice::slice_subrange(r1, 0, n));
    let rest = vstd::slice::slice_subrange(r1, n, r1.len());
    proof {
        assert(r1@.subrange(0, n as int) =~= r1@.take(n as int));
        assert(r1@.subrange(n as int, r1@.len() as int) =~= r1@.skip(n as int));
    }
    Some((data, rest))
}

/// The encoding of a 32-bit unsigned integer.
pub open spec fn enc_u32(n: u32) -> Seq<u8> {
    enc_le(n as nat, 4)
}

/// The encoding of a 64-bit unsigned integer.
pub open spec fn enc_u64(n: u64) -> Seq<u8> {
    enc_le(n as nat, 8)
}

/// The encoding of a 128-bit unsigned integer.
pub open spec fn enc_u128(n: u128) -> Seq<u8> {
    enc_le(n as nat, 16)
}

/// The encoding of a signed 64-bit integer: its two's-complement bits.
pub open spec fn enc_i64(n: i64) -> Seq<u8> {
    enc_le((n as u64) as nat, 8)
}

/// Decodes a 32-bit unsigned integer from the front of `b`.
pub open spec fn dec_u32(b: Seq<u8>) -> Option<(u32, Seq<u8>)> {
    if b.len() < 4 {
        None
    } else {
        Some(((dec_le(b.take(4)) as u32), b.skip(4)))
    }
}

/// Decodes a 64-bit unsigned integer from the front of `b`.
pub open spec fn dec_u64(b: Seq<u8>) -> Option<(u64, Seq<u8>)> {
    if b.len() < 8 {
        None
    } else {
        Some(((dec_le(b.take(8)) as u64), b.skip(8)))
    }
}

/// Decodes a 128-bit unsigned integer from the front of `b`.
pub open spec fn dec_u128(b: Seq<u8>) -> Option<(u128, Seq<u8>)> {
    if b.len() < 16 {
        None
    } else {
        Some(((dec_le(b.take(16)) as u128), b.skip(16)))
    }
}

/// Decodes a signed 64-bit integer from the front of `b`.
pub open spec fn dec_i64(b: Seq<u8>) -> Option<(i64, Seq<u8>)> {
    if b.len() < 8 {
        None
    } else {
        Some((((dec_le(b.take(8)) as u64) as i64), b.skip(8)))
    }
}

pub proof fn lemma_dec_enc_u32(n: u32, rest: Seq<u8>)
    ensures
        dec_u32(enc_u32(n) + rest) == Some((n, rest)),
{
    lemma_pow256_widths();
    lemma_enc_le_take_skip(n as nat, 4, rest);
}

pub proof fn lemma_dec_enc_u128(n: u128, rest: Seq<u8>)
    ensures
        dec_u128(enc_u128(n) + rest) == Some((n, rest)),
{
    lemma_pow256_16();
    lemma_enc_le_take_skip(n as nat, 16, rest);
}

pub proof fn lemma_dec_enc_i64(n: i64, rest: Seq<u8>)
    ensures
        dec_i64(enc_i64(n) + rest) == Some((n, rest)),
{
    lemma_pow256_widths();
    lemma_enc_le_take_skip((n as u64) as nat, 8, rest);
    assert(((n as u64) as i64) == n) by (bit_vector);
}

/// Appends the encoding of `n` to `out`.
pub fn push_u32(out: &mut Vec<u8>, n: u32)
    ensures
        final(out)@ == old(out)@ + enc_u32(n),
{
    proof {
        lemma_pow256_widths();
    }
    push_le(out, n as u128, 4);
}

/// Appends the encoding of `n` to `out`.
pub fn push_u64(out: &mut Vec<u8>, n: u64)
    ensures
        final(out)@ == old(out)@ + enc_u64(n),
{
    proof {
        lemma_pow256_widths();
    }
    push_le(out, n as u128, 8);
}

/// Appends the encoding of `n` to `out`.
pub fn push_u128(out: &mut Vec<u8>, n: u128)
    ensures
        final(out)@ == old(out)@ + enc_u128(n),
{
    proof {
        lemma_pow256_16();
    }
    push_le(out, n, 16);
}

/// Appends the encoding of `n` to `out`.
pub fn push_i64(out: &mut Vec<u8>, n: i64)
    ensures
        final(out)@ == old(out)@ + enc_i64(n),
{
    proof {
        lemma_pow256_widths();
    }
    push_le(out, (n as u64) as u128, 8);
}

/// Parses a 32-bit unsigned integer from the front of `b`.
pub fn parse_u32<'a>(b: &'a [u8]) -> (r: Option<(u32, &'a [u8])>)
    ensures
        r matches Some(p) ==> dec_u32(b@) == Some((p.0, p.1@)),
        r is None ==> dec_u32(b@) is None,
{
    proof {
        lemma_pow256_widths();
        if b@.len() >= 4 {
            lemma_dec_le_bound(b@.take(4));
        }
    }
    match read_le(b, 4) {
        Some(p) => Some((p.0 as u32, p.1)),
        None => None,
    }
}

/// Parses a 64-bit unsigned integer from the front of `b`.
pub fn parse_u64<'a>(b: &'a [u8]) -> (r: Option<(u64, &'a [u8])>)
    ensures
        r matches Some(p) ==> dec_u64(b@) == Some((p.0, p.1@)),
        r is None ==> dec_u64(b@) is None,
{
    proof {
        lemma_pow256_widths();
        if b@.len() >= 8 {
            lemma_dec_le_bound(b@.take(8));
        }
    }
    match read_le(b, 8) {
        Some(p) => Some((p.0 as u64, p.1)),
        None => None,
    }
}

/// Parses a 128-bit unsigned integer from the front of `b`.
pub fn parse_u128<'a>(b: &'a [u8]) -> (r: Option<(u128, &'a [u8])>)
    ensures
        r matches Some(p) ==> dec_u128(b@) == Some((p.0, p.1@)),
        r is None ==> dec_u128(b@) is None,
{
    proof {
        lemma_pow256_16();
        if b@.len() >= 16 {
            lemma_dec_le_bound(b@.take(16));
        }
    }
    match read_le(b, 16) {
        Some(p) => Some((p.0, p.1)),
        None => None,
    }
}

/// Parses a signed 64-bit integer from the front of `b`.
pub fn parse_i64<'a>(b: &'a [u8]) -> (r: Option<(i64, &'a [u8])>)
    ensures
        r matches Some(p) ==> dec_i64(b@) == Some((p.0, p.1@)),
        r is None ==> dec_i64(b@) is None,
{
    match parse_u64(b) {
        Some(p) => Some((p.0 as i64, p.1)),
        None => None,
    }
}

} // verus!
