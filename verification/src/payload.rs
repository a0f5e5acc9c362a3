//! The vault payload: the byte encoding of a `CredentialVault` that is
//! encrypted into the on-disk envelope.
//!
//! The encoding is a fixed-order record: schema version, the two vault
//! timestamps, then the credentials, each a fixed-order record itself.
//! Decoding is proved to invert encoding exactly.

use crate::codec;
use crate::codec::pow256;
use crate::credential::{Credential, CredentialView, CredentialVault, VaultView};
use vstd::prelude::*;

verus! {

/// The encoding of one credential.
pub open spec fn enc_credential(c: CredentialView) -> Seq<u8> {
    codec::enc_u128(c.id) + codec::enc_str(c.service) + codec::enc_opt_str(c.username)
        + codec::enc_str(c.password) + codec::enc_opt_str(c.url) + codec::enc_opt_str(c.notes)
        + codec::enc_i64(c.created_at) + codec::enc_i64(c.updated_at) + codec::enc_str_list(c.tags)
}

/// Decodes one credential from the front of `b`.
pub open spec fn dec_credential(b: Seq<u8>) -> Option<(CredentialView, Seq<u8>)> {
    match codec::dec_u128(b) {
        None => None,
        Some((id, b1)) => match codec::dec_str(b1) {
            None => None,
            Some((service, b2)) => match codec::dec_opt_str(b2) {
                None => None,
                Some((username, b3)) => match codec::dec_str(b3) {
                    None => None,
                    Some((password, b4)) => match codec::dec_opt_str(b4) {
                        None => None,
                        Some((url, b5)) => match codec::dec_opt_str(b5) {
                            None => None,
                            Some((notes, b6)) => match codec::dec_i64(b6) {
                                None => None,
                                Some((created_at, b7)) => match codec::dec_i64(b7) {
                                    None => None,
                                    Some((updated_at, b8)) => match codec::dec_str_list(b8) {
                                        None => None,
                                        Some((tags, b9)) => Some(
                                            (
                                                CredentialView {
                                                    id,
                                                    service,
                                                    username,
                                                    password,
                                                    url,
                                                    notes,
                                                    created_at,
                                                    updated_at,
                                                    tags,
                                                },
                                                b9,
                                            ),
                                        ),
                                    },
                                },
                            },
                        },
                    },
                },
            },
        },
    }
}

/// Every count and string length of the credential fits its 8-byte field.
/// Values built by executable code always do.
pub open spec fn credential_fits(c: CredentialView) -> bool {
    &&& c.service.len() < pow256(8)
    &&& (c.username matches Some(u) ==> u.len() < pow256(8))
    &&& c.password.len() < pow256(8)
    &&& (c.url matches Some(u) ==> u.len() < pow256(8))
    &&& (c.notes matches Some(n) ==> n.len() < pow256(8))
    &&& c.tags.len() < pow256(8)
    &&& forall|i: int| 0 <= i < c.tags.len() ==> (#[trigger] c.tags[i]).len() < pow256(8)
}

/// Every count and string length of the vault fits its 8-byte field.
pub open spec fn vault_fits(v: VaultView) -> bool {
    &&& v.credentials.len() < pow256(8)
    &&& forall|i: int|
        0 <= i < v.credentials.len() ==> credential_fits(#[trigger] v.credentials[i])
}

#[verifier::rlimit(60)]
pub proof fn lemma_dec_enc_credential(c: CredentialView, rest: Seq<u8>)
    requires
        credential_fits(c),
    ensures
        dec_credential(enc_credential(c) + rest) == Some((c, rest)),
{
    let t9 = rest;
    let t8 = codec::enc_str_list(c.tags) + t9;
    let t7 = codec::enc_i64(c.updated_at) + t8;
    let t6 = codec::enc_i64(c.created_at) + t7;
    let t5 = codec::enc_opt_str(c.notes) + t6;
    let t4 = codec::enc_opt_str(c.url) + t5;
    let t3 = codec::enc_str(c.password) + t4;
    let t2 = codec::enc_opt_str(c.username) + t3;
    let t1 = codec::enc_str(c.service) + t2;
    let t0 = codec::enc_u128(c.id) + t1;
    assert(enc_credential(c) + rest =~= t0);
    codec::lemma_dec_enc_u128(c.id, t1);
    codec::lemma_dec_enc_str(c.service, t2);
    codec::lemma_dec_enc_opt_str(c.username, t3);
    codec::lemma_dec_enc_str(c.password, t4);
    codec::lemma_dec_enc_opt_str(c.url, t5);
    codec::lemma_dec_enc_opt_str(c.notes, t6);
    codec::lemma_dec_enc_i64(c.created_at, t7);
    codec::lemma_dec_enc_i64(c.updated_at, t8);
    codec::lemma_dec_enc_str_list(c.tags, t9);
}

/// The concatenated encodings of a sequence of credentials.
pub open spec fn enc_cred_seq(l: Seq<CredentialView>) -> Seq<u8>
    decreases l.len(),
{
    if l.len() == 0 {
        Seq::empty()
    } else {
        enc_credential(l[0]) + enc_cred_seq(l.drop_first())
    }
}

/// Decodes `n` credentials from the front of `b`.
pub open spec fn dec_cred_seq(b: Seq<u8>, n: nat) -> Option<(Seq<CredentialView>, Seq<u8>)>
    decreases n,
{
    if n == 0 {
        Some((Seq::empty(), b))
    } else {
        match dec_credential(b) {
            Some(p) => match dec_cred_seq(p.1, (n - 1) as nat) {
                Some(q) => Some((seq![p.0] + q.0, q.1)),
                None => None,
            },
            None => None,
        }
    }
}

pub proof fn lemma_dec_enc_cred_seq(l: Seq<CredentialView>, rest: Seq<u8>)
    requires
        forall|i: int| 0 <= i < l.len() ==> credential_fits(#[trigger] l[i]),
    ensures
        dec_cred_seq(enc_cred_seq(l) + rest, l.len()) == Some((l, rest)),
    decreases l.len(),
{
    if l.len() == 0 {
        assert(enc_cred_seq(l) + rest =~= rest);
    } else {
        let tail = enc_cred_seq(l.drop_first()) + rest;
        assert(enc_cred_seq(l) + rest =~= enc_credential(l[0]) + tail);
        lemma_dec_enc_credential(l[0], tail);
        lemma_dec_enc_cred_seq(l.drop_first(), rest);
        assert(seq![l[0]] + l.drop_first() =~= l);
    }
}

/// The sequence encoding distributes over appending one credential.
pub proof fn lemma_enc_cred_seq_push(l: Seq<CredentialView>, c: CredentialView)
    ensures
        enc_cred_seq(l.push(c)) == enc_cred_seq(l) + enc_credential(c),
    decreases l.len(),
{
    if l.len() == 0 {
        let lp = l.push(c);
        assert(lp[0] == c);
        assert(lp.drop_first() =~= Seq::<CredentialView>::empty());
        assert(enc_cred_seq(lp) == enc_credential(c) + enc_cred_seq(lp.drop_first()));
        assert(enc_credential(c) + Seq::<u8>::empty() =~= enc_credential(c));
        assert(Seq::<u8>::empty() + enc_credential(c) =~= enc_credential(c));
    } else {
        assert(l.push(c).drop_first() =~= l.drop_first().push(c));
        assert(l.push(c)[0] == l[0]);
        lemma_enc_cred_seq_push(l.drop_first(), c);
        assert(enc_credential(l[0]) + (enc_cred_seq(l.drop_first()) + enc_credential(c)) =~= (
        enc_credential(l[0]) + enc_cred_seq(l.drop_first())) + enc_credential(c));
    }
}

/// The encoding of a whole vault payload.
pub open spec fn enc_vault(v: VaultView) -> Seq<u8> {
    codec::enc_u32(v.version) + codec::enc_i64(v.created_at) + codec::enc_i64(v.updated_at)
        + codec::enc_le(v.credentials.len(), 8) + enc_cred_seq(v.credentials)
}

/// Decodes a vault payload from the front of `b`.
pub open spec fn dec_vault(b: Seq<u8>) -> Option<(VaultView, Seq<u8>)> {
    match codec::dec_u32(b) {
        None => None,
        Some((version, b1)) => match codec::dec_i64(b1) {
            None => None,
            Some((created_at, b2)) => match codec::dec_i64(b2) {
                None => None,
                Some((updated_at, b3)) => match codec::dec_u64(b3) {
                    None => None,
                    Some((n, b4)) => match dec_cred_seq(b4, n as nat) {
                        None => None,
                        Some((credentials, b5)) => Some(
                            (VaultView { credentials, created_at, updated_at, version }, b5),
                        ),
                    },
                },
            },
        },
    }
}

/// The vault a payload byte string stands for: a full decode with nothing
/// left over.
pub open spec fn payload_to_vault(b: Seq<u8>) -> Option<VaultView> {
    match dec_vault(b) {
        Some(p) => if p.1.len() == 0 {
            Some(p.0)
        } else {
            None
        },
        None => None,
    }
}

/// Decoding a vault payload inverts encoding: serializing a vault and
/// parsing the bytes back yields the identical vault, credentials,
/// identifiers and order included.
pub proof fn lemma_payload_round_trip(v: VaultView)
    requires
        vault_fits(v),
    ensures
        payload_to_vault(enc_vault(v)) == Some(v),
{
    let rest = Seq::<u8>::empty();
    let t4 = enc_cred_seq(v.credentials) + rest;
    let t3 = codec::enc_le(v.credentials.len(), 8) + t4;
    let t2 = codec::enc_i64(v.updated_at) + t3;
    let t1 = codec::enc_i64(v.created_at) + t2;
    let t0 = codec::enc_u32(v.version) + t1;
    assert(enc_vault(v) =~= t0);
    codec::lemma_dec_enc_u32(v.version, t1);
    codec::lemma_dec_enc_i64(v.created_at, t2);
    codec::lemma_dec_enc_i64(v.updated_at, t3);
    codec::lemma_pow256_widths();
    codec::lemma_enc_le_take_skip(v.credentials.len(), 8, t4);
    lemma_dec_enc_cred_seq(v.credentials, rest);
    assert(enc_cred_seq(v.credentials) + rest =~= enc_cred_seq(v.credentials));
}

/// Appends the encoding of one credential to `out`.
fn encode_credential(out: &mut Vec<u8>, c: &Credential)
    ensures
        final(out)@ == old(out)@ + enc_credential(c@),
        credential_fits(c@),
{
    codec::push_u128(out, c.id);
    let ghost p1 = codec::enc_u128(c@.id);
    codec::push_string(out, c.service.as_str());
    let ghost p2 = p1 + codec::enc_str(c@.service);
    proof {
        assert(out@ =~= old(out)@ + p2);
    }
    codec::push_opt_string(out, &c.username);
    let ghost p3 = p2 + codec::enc_opt_str(c@.username);
    proof {
        assert(out@ =~= old(out)@ + p3);
    }
    codec::push_string(out, c.password.as_str());
    let ghost p4 = p3 + codec::enc_str(c@.password);
    proof {
        assert(out@ =~= old(out)@ + p4);
    }
    codec::push_opt_string(out, &c.url);
    let ghost p5 = p4 + codec::enc_opt_str(c@.url);
    proof {
        assert(out@ =~= old(out)@ + p5);
    }
    codec::push_opt_string(out, &c.notes);
    let ghost p6 = p5 + codec::enc_opt_str(c@.notes);
    proof {
        assert(out@ =~= old(out)@ + p6);
    }
    codec::push_i64(out, c.created_at);
    let ghost p7 = p6 + codec::enc_i64(c@.created_at);
    proof {
        assert(out@ =~= old(out)@ + p7);
    }
    codec::push_i64(out, c.updated_at);
    let ghost p8 = p7 + codec::enc_i64(c@.updated_at);
    proof {
        assert(out@ =~= old(out)@ + p8);
    }
    codec::push_str_list(out, &c.tags);
    proof {
        assert(out@ =~= old(out)@ + (p8 + codec::enc_str_list(c@.tags)));
        assert(p8 + codec::enc_str_list(c@.tags) =~= enc_credential(c@));
    }
}

/// Parses one credential from the front of `b`.
fn parse_credential<'a>(b: &'a [u8]) -> (r: Option<(Credential, &'a [u8])>)
    ensures
        r matches Some(p) ==> dec_credential(b@) == Some((p.0@, p.1@)),
        r is None ==> dec_credential(b@) is None,
{
    let s0 = codec::parse_u128(b);
    if s0.is_none() {
        return None;
    }
    let (id, b1) = s0.unwrap();
    let s1 = codec::parse_string(b1);
    if s1.is_none() {
        return None;
    }
    let (service, b2) = s1.unwrap();
    let s2 = codec::parse_opt_string(b2);
    if s2.is_none() {
        return None;
    }
    let (username, b3) = s2.unwrap();
    let s3 = codec::parse_string(b3);
    if s3.is_none() {
        return None;
    }
    let (password, b4) = s3.unwrap();
    let s4 = codec::parse_opt_string(b4);
    if s4.is_none() {
        return None;
    }
    let (url, b5) = s4.unwrap();
    let s5 = codec::parse_opt_string(b5);
    if s5.is_none() {
        return None;
    }
    let (notes, b6) = s5.unwrap();
    let s6 = codec::parse_i64(b6);
    if s6.is_none() {
        return None;
    }
    let (created_at, b7) = s6.unwrap();
    let s7 = codec::parse_i64(b7);
    if s7.is_none() {
        return None;
    }
    let (updated_at, b8) = s7.unwrap();
    let s8 = codec::parse_str_list(b8);
    if s8.is_none() {
        return None;
    }
    let (tags, b9) = s8.unwrap();
    let c = Credential {
        id,
        service,
        username,
        password,
        url,
        notes,
        created_at,
        updated_at,
        tags,
    };
    Some((c, b9))
}

/// Serializes the vault into its payload bytes.
#[verifier::loop_isolation(false)]
pub fn encode_vault(vault: &CredentialVault) -> (r: Vec<u8>)
    ensures
        r@ == enc_vault(vault@),
        vault_fits(vault@),
{
    let mut out: Vec<u8> = Vec::new();
    codec::push_u32(&mut out, vault.version);
    let ghost p1 = codec::enc_u32(vault@.version);
    codec::push_i64(&mut out, vault.created_at);
    let ghost p2 = p1 + codec::enc_i64(vault@.created_at);
    proof {
        assert(out@ =~= p2);
    }
    codec::push_i64(&mut out, vault.updated_at);
    let ghost p3 = p2 + codec::enc_i64(vault@.updated_at);
    proof {
        assert(out@ =~= p3);
    }
    proof {
        codec::lemma_pow256_widths();
    }
    codec::push_le(&mut out, vault.credentials.len() as u128, 8);
    let ghost p4 = p3 + codec::enc_le(vault@.credentials.len(), 8);
    proof {
        assert(vault@.credentials.len() == vault.credentials@.len());
        assert(out@ =~= p4);
    }
    let ghost dv = vault@.credentials;
    let ghost mid = out@;
    let n = vault.credentials.len();
    let mut i: usize = 0;
    proof {
        assert(dv.take(0) =~= Seq::<CredentialView>::empty());
        assert(mid + enc_cred_seq(dv.take(0)) =~= mid);
    }
    while i < n
        invariant
            i <= n,
            n == vault.credentials@.len(),
            dv == vault@.credentials,
            mid == p4,
            out@ == mid + enc_cred_seq(dv.take(i as int)),
            forall|j: int| 0 <= j < i ==> credential_fits(#[trigger] dv[j]),
        decreases n - i,
    {
        let ghost pre = out@;
        encode_credential(&mut out, &vault.credentials[i]);
        proof {
            assert(dv[i as int] == vault.credentials@[i as int]@);
            lemma_enc_cred_seq_push(dv.take(i as int), dv[i as int]);
            assert(dv.take(i + 1) =~= dv.take(i as int).push(dv[i as int]));
            assert(mid + (enc_cred_seq(dv.take(i as int)) + enc_credential(dv[i as int])) =~= (mid
                + enc_cred_seq(dv.take(i as int))) + enc_credential(dv[i as int]));
        }
        i = i + 1;
    }
    proof {
        assert(dv.take(n as int) =~= dv);
        assert(p4 + enc_cred_seq(dv) =~= enc_vault(vault@));
    }
    out
}

/// Parses a whole vault payload; fails on malformed bytes or trailing
/// garbage.
#[verifier::loop_isolation(false)]
pub fn parse_vault(b: &[u8]) -> (r: Option<CredentialVault>)
    ensures
        r matches Some(v) ==> payload_to_vault(b@) == Some(v@),
        r is None ==> payload_to_vault(b@) is None,
{
    let s0 = codec::parse_u32(b);
    if s0.is_none() {
        return None;
    }
    let (version, b1) = s0.unwrap();
    let s1 = codec::parse_i64(b1);
    if s1.is_none() {
        return None;
    }
    let (created_at, b2) = s1.unwrap();
    let s2 = codec::parse_i64(b2);
    if s2.is_none() {
        return None;
    }
    let (updated_at, b3) = s2.unwrap();
    let s3 = codec::parse_u64(b3);
    if s3.is_none() {
        return None;
    }
    let (count, b4) = s3.unwrap();
    let ghost n = count as nat;
    let mut credentials: Vec<Credential> = Vec::new();
    let mut cur: &[u8] = b4;
    let mut i: u64 = 0;
    while i < count
        invariant
            i <= count,
            n == count,
            credentials.deep_view().len() == i,
            dec_cred_seq(b4@, n) == (match dec_cred_seq(cur@, (n - i as nat) as nat) {
                Some(q) => Some((credentials.deep_view() + q.0, q.1)),
                None => None::<(Seq<CredentialView>, Seq<u8>)>,
            }),
        decreases count - i,
    {
        let step = parse_credential(cur);
        proof {
            assert(dec_cred_seq(cur@, (n - i as nat) as nat) == (match dec_credential(cur@) {
                Some(p) => match dec_cred_seq(p.1, (n - i as nat - 1) as nat) {
                    Some(q) => Some((seq![p.0] + q.0, q.1)),
                    None => None::<(Seq<CredentialView>, Seq<u8>)>,
                },
                None => None::<(Seq<CredentialView>, Seq<u8>)>,
            }));
        }
        if step.is_none() {
            return None;
        }
        let (c, rest) = step.unwrap();
        let ghost accpre = credentials.deep_view();
        let ghost cv = c@;
        credentials.push(c);
        proof {
            assert(credentials.deep_view() =~= accpre.push(cv));
            let o = dec_cred_seq(rest@, (n - i as nat - 1) as nat);
            if o is Some {
                let q = o->0;
                assert(accpre + (seq![cv] + q.0) =~= accpre.push(cv) + q.0);
            }
        }
        cur = rest;
        i = i + 1;
    }
    proof {
        assert(dec_cred_seq(cur@, 0) == Some((Seq::<CredentialView>::empty(), cur@)));
        assert(credentials.deep_view() + Seq::<CredentialView>::empty() =~= credentials.deep_view());
    }
    if cur.len() > 0 {
        return None;
    }
    Some(CredentialVault { credentials, created_at, updated_at, version })
}

} // verus!
