//! The in-memory credential collection.
//!
//! A `Credential` is one stored secret; a `CredentialVault` is an ordered
//! sequence of them, living in memory between a load and its matching
//! save. Identifiers are 128-bit values, unique within a vault and never
//! reassigned; timestamps are whole seconds since the Unix epoch.

use crate::sys::{new_uuid, now_unix_seconds, zeroize_string};
use crate::text::{contains_chars, contains_sub, lower_of};
use vstd::prelude::*;

verus! {

/// One stored secret: a service name, the secret password, and optional
/// metadata.
#[derive(Clone)]
pub struct Credential {
    pub id: u128,
    pub service: String,
    pub username: Option<String>,
    pub password: String,
    pub url: Option<String>,
    pub notes: Option<String>,
    pub created_at: i64,
    pub updated_at: i64,
    pub tags: Vec<String>,
}

/// The mathematical value of a `Credential`.
#[verifier::ext_equal]
pub ghost struct CredentialView {
    pub id: u128,
    pub service: Seq<char>,
    pub username: Option<Seq<char>>,
    pub password: Seq<char>,
    pub url: Option<Seq<char>>,
    pub notes: Option<Seq<char>>,
    pub created_at: i64,
    pub updated_at: i64,
    pub tags: Seq<Seq<char>>,
}

impl View for Credential {
    type V = CredentialView;

    open spec fn view(&self) -> CredentialView {
        CredentialView {
            id: self.id,
            service: self.service@,
            username: self.username.deep_view(),
            password: self.password@,
            url: self.url.deep_view(),
            notes: self.notes.deep_view(),
            created_at: self.created_at,
            updated_at: self.updated_at,
            tags: self.tags.deep_view(),
        }
    }
}

impl DeepView for Credential {
    type V = CredentialView;

    open spec fn deep_view(&self) -> CredentialView {
        self.view()
    }
}

/// True when the credential matches the search term: a case-insensitive
/// substring match across service, username, url and tags.
pub open spec fn spec_matches_search(c: CredentialView, term: Seq<char>) -> bool {
    let t = lower_of(term);
    ||| contains_sub(lower_of(c.service), t)
    ||| match c.username {
        Some(u) => contains_sub(lower_of(u), t),
        None => false,
    }
    ||| match c.url {
        Some(u) => contains_sub(lower_of(u), t),
        None => false,
    }
    ||| exists|i: int| 0 <= i < c.tags.len() && contains_sub(lower_of(#[trigger] c.tags[i]), t)
}

impl Credential {
    /// A fresh credential: a random identifier, the given service and
    /// password, no optional metadata, and both timestamps set to now.
    pub fn new(service: String, password: String) -> (r: Credential)
        ensures
            r@.service == service@,
            r@.password == password@,
            r@.username is None,
            r@.url is None,
            r@.notes is None,
            r@.tags.len() == 0,
            r@.created_at == r@.updated_at,
    {
        let now = now_unix_seconds();
        Credential {
            id: new_uuid(),
            service,
            username: None,
            password,
            url: None,
            notes: None,
            created_at: now,
            updated_at: now,
            tags: Vec::new(),
        }
    }

    /// The same credential with the url set.
    pub fn with_url(self, url: String) -> (r: Credential)
        ensures
            r@ == (CredentialView { url: Some(url@), ..self@ }),
    {
        Credential {
            id: self.id,
            service: self.service,
            username: self.username,
            password: self.password,
            url: Some(url),
            notes: self.notes,
            created_at: self.created_at,
            updated_at: self.updated_at,
            tags: self.tags,
        }
    }

    /// The same credential with the notes set.
    pub fn with_notes(self, notes: String) -> (r: Credential)
        ensures
            r@ == (CredentialView { notes: Some(notes@), ..self@ }),
    {
        Credential {
            id: self.id,
            service: self.service,
            username: self.username,
            password: self.password,
            url: self.url,
            notes: Some(notes),
            created_at: self.created_at,
            updated_at: self.updated_at,
            tags: self.tags,
        }
    }

    /// The same credential with the tags set.
    pub fn with_tags(self, tags: Vec<String>) -> (r: Credential)
        ensures
            r@ == (CredentialView { tags: tags.deep_view(), ..self@ }),
    {
        Credential {
            id: self.id,
            service: self.service,
            username: self.username,
            password: self.password,
            url: self.url,
            notes: self.notes,
            created_at: self.created_at,
            updated_at: self.updated_at,
            tags,
        }
    }

    /// Replaces the password and bumps the update timestamp.
    pub fn update_password(&mut self, new_password: String)
        ensures
            final(self)@ == (CredentialView {
                password: new_password@,
                updated_at: final(self)@.updated_at,
                ..old(self)@
            }),
    {
        self.password = new_password;
        self.updated_at = now_unix_seconds();
    }

    /// True when the credential matches the search term.
    #[verifier::loop_isolation(false)]
    pub fn matches_search(&self, search_term: &str) -> (r: bool)
        ensures
            r == spec_matches_search(self@, search_term@),
    {
        let term_l = crate::text::to_lowercase(search_term);
        let term_c = crate::text::str_chars(term_l.as_str());
        let service_l = crate::text::to_lowercase(self.service.as_str());
        let service_c = crate::text::str_chars(service_l.as_str());
        if contains_chars(&service_c, &term_c) {
            return true;
        }
        match &self.username {
            Some(u) => {
                let ul = crate::text::to_lowercase(u.as_str());
                let uc = crate::text::str_chars(ul.as_str());
                if contains_chars(&uc, &term_c) {
                    return true;
                }
            },
            None => {},
        }
        match &self.url {
            Some(u) => {
                let ul = crate::text::to_lowercase(u.as_str());
                let uc = crate::text::str_chars(ul.as_str());
                if contains_chars(&uc, &term_c) {
                    return true;
                }
            },
            None => {},
        }
        let ghost tagviews = self@.tags;
        let mut i: usize = 0;
        while i < self.tags.len()
            invariant
                i <= self.tags.len(),
                tagviews == self@.tags,
                tagviews.len() == self.tags@.len(),
                forall|j: int|
                    0 <= j < i ==> !contains_sub(lower_of(#[trigger] tagviews[j]), lower_of(
                        search_term@,
                    )),
        decreases self.tags@.len() - i,
        {
            let tl = crate::text::to_lowercase(self.tags[i].as_str());
            let tc = crate::text::str_chars(tl.as_str());
            if contains_chars(&tc, &term_c) {
                proof {
                    assert(tagviews[i as int] == self.tags@[i as int]@);
                }
                return true;
            }
            proof {
                assert(tagviews[i as int] == self.tags@[i as int]@);
            }
            i = i + 1;
        }
        false
    }

    /// Overwrites the secret fields (password and notes) with zero; the
    /// rest of the credential is unchanged.
    pub fn zeroize(&mut self)
        ensures
            final(self)@.password.len() == 0,
            final(self)@.notes matches Some(n) ==> n.len() == 0,
            final(self)@.notes is Some <==> old(self)@.notes is Some,
            final(self)@.id == old(self)@.id,
            final(self)@.service == old(self)@.service,
            final(self)@.username == old(self)@.username,
            final(self)@.url == old(self)@.url,
            final(self)@.tags == old(self)@.tags,
            final(self)@.created_at == old(self)@.created_at,
            final(self)@.updated_at == old(self)@.updated_at,
    {
        zeroize_string(&mut self.password);
        match &mut self.notes {
            Some(n) => {
                zeroize_string(n);
            },
            None => {},
        }
    }
}

/// The ordered collection of credentials, with its own timestamps and a
/// schema version.
pub struct CredentialVault {
    pub credentials: Vec<Credential>,
    pub created_at: i64,
    pub updated_at: i64,
    pub version: u32,
}

/// The mathematical value of a `CredentialVault`.
#[verifier::ext_equal]
pub ghost struct VaultView {
    pub credentials: Seq<CredentialView>,
    pub created_at: i64,
    pub updated_at: i64,
    pub version: u32,
}

impl View for CredentialVault {
    type V = VaultView;

    open spec fn view(&self) -> VaultView {
        VaultView {
            credentials: self.credentials.deep_view(),
            created_at: self.created_at,
            updated_at: self.updated_at,
            version: self.version,
        }
    }
}

impl DeepView for CredentialVault {
    type V = VaultView;

    open spec fn deep_view(&self) -> VaultView {
        self.view()
    }
}

/// The position of the first credential with the given identifier, if any.
pub open spec fn spec_find(s: Seq<CredentialView>, id: u128) -> Option<int>
    decreases s.len(),
{
    if s.len() == 0 {
        None
    } else if s[0].id == id {
        Some(0)
    } else {
        match spec_find(s.drop_first(), id) {
            Some(i) => Some(i + 1),
            None => None,
        }
    }
}

/// A hit at `i` after a miss everywhere earlier pins down `spec_find`.
pub proof fn lemma_find_hit(s: Seq<CredentialView>, id: u128, i: int)
    requires
        0 <= i < s.len(),
        s[i].id == id,
        forall|j: int| 0 <= j < i ==> (#[trigger] s[j]).id != id,
    ensures
        spec_find(s, id) == Some(i),
    decreases s.len(),
{
    if i == 0 {
    } else {
        assert(s[0].id != id);
        lemma_find_hit(s.drop_first(), id, i - 1);
    }
}

/// A miss everywhere means `spec_find` finds nothing.
pub proof fn lemma_find_miss(s: Seq<CredentialView>, id: u128)
    requires
        forall|j: int| 0 <= j < s.len() ==> (#[trigger] s[j]).id != id,
    ensures
        spec_find(s, id) is None,
    decreases s.len(),
{
    if s.len() > 0 {
        lemma_find_miss(s.drop_first(), id);
    }
}

/// The credentials that match a search term, in vault order.
pub open spec fn spec_search(s: Seq<CredentialView>, term: Seq<char>) -> Seq<CredentialView>
    decreases s.len(),
{
    if s.len() == 0 {
        Seq::empty()
    } else {
        (if spec_matches_search(s[0], term) {
            seq![s[0]]
        } else {
            Seq::empty()
        }) + spec_search(s.drop_first(), term)
    }
}

/// The search result distributes over appending one credential.
pub proof fn lemma_spec_search_push(s: Seq<CredentialView>, c: CredentialView, term: Seq<char>)
    ensures
        spec_search(s.push(c), term) == spec_search(s, term) + (if spec_matches_search(c, term) {
            seq![c]
        } else {
            Seq::<CredentialView>::empty()
        }),
    decreases s.len(),
{
    let tail = if spec_matches_search(c, term) {
        seq![c]
    } else {
        Seq::<CredentialView>::empty()
    };
    if s.len() == 0 {
        let sp = s.push(c);
        assert(sp[0] == c);
        assert(sp.drop_first() =~= Seq::<CredentialView>::empty());
        assert(spec_search(sp.drop_first(), term) =~= Seq::<CredentialView>::empty());
        assert(tail + Seq::<CredentialView>::empty() =~= tail);
        assert(spec_search(s, term) + tail =~= tail);
    } else {
        assert(s.push(c).drop_first() =~= s.drop_first().push(c));
        assert(s.push(c)[0] == s[0]);
        lemma_spec_search_push(s.drop_first(), c, term);
        let head = if spec_matches_search(s[0], term) {
            seq![s[0]]
        } else {
            Seq::<CredentialView>::empty()
        };
        assert(head + (spec_search(s.drop_first(), term) + tail) =~= (head + spec_search(
            s.drop_first(),
            term,
        )) + tail);
    }
}

impl CredentialVault {
    /// An empty vault at schema version 1, with both timestamps set to now.
    pub fn new() -> (r: CredentialVault)
        ensures
            r@.credentials.len() == 0,
            r@.version == 1,
            r@.created_at == r@.updated_at,
    {
        let now = now_unix_seconds();
        CredentialVault { credentials: Vec::new(), created_at: now, updated_at: now, version: 1 }
    }

    /// Appends a credential and bumps the update timestamp.
    pub fn add_credentail(&mut self, credential: Credential)
        ensures
            final(self)@.credentials == old(self)@.credentials.push(credential@),
            final(self)@.created_at == old(self)@.created_at,
            final(self)@.version == old(self)@.version,
    {
        let ghost cv = credential@;
        self.credentials.push(credential);
        self.updated_at = now_unix_seconds();
        proof {
            assert(self.credentials.deep_view() =~= old(self).credentials.deep_view().push(cv));
        }
    }

    /// Removes the first credential with the given identifier and bumps the
    /// update timestamp; leaves the vault untouched when none matches.
    #[verifier::loop_isolation(false)]
    pub fn remove_credential(&mut self, id: u128) -> (r: Option<Credential>)
        ensures
            r matches Some(c) ==> spec_find(old(self)@.credentials, id) matches Some(j)
                && c@ == old(self)@.credentials[j]
                && c@.id == id
                && final(self)@.credentials == old(self)@.credentials.remove(j)
                && final(self)@.created_at == old(self)@.created_at
                && final(self)@.version == old(self)@.version,
            r is None ==> spec_find(old(self)@.credentials, id) is None && *final(self) == *old(self),
    {
        let ghost dv = self@.credentials;
        let n = self.credentials.len();
        let mut i: usize = 0;
        while i < n
            invariant
                i <= n,
                n == self.credentials@.len(),
                dv == self@.credentials,
                *self == *old(self),
                forall|j: int| 0 <= j < i ==> (#[trigger] dv[j]).id != id,
            decreases n - i,
        {
            if self.credentials[i].id == id {
                proof {
                    assert(dv[i as int] == self.credentials@[i as int]@);
                    lemma_find_hit(dv, id, i as int);
                }
                let c = self.credentials.remove(i);
                self.updated_at = now_unix_seconds();
                proof {
                    assert(self.credentials.deep_view() =~= dv.remove(i as int));
                }
                return Some(c);
            }
            proof {
                assert(dv[i as int] == self.credentials@[i as int]@);
            }
            i = i + 1;
        }
        proof {
            lemma_find_miss(dv, id);
        }
        None
    }

    /// A shared reference to the first credential with the given
    /// identifier, if any.
    #[verifier::loop_isolation(false)]
    pub fn find_credential(&self, id: u128) -> (r: Option<&Credential>)
        ensures
            r matches Some(c) ==> spec_find(self@.credentials, id) matches Some(j) && c@
                == self@.credentials[j] && c@.id == id,
            r is None ==> spec_find(self@.credentials, id) is None,
    {
        let ghost dv = self@.credentials;
        let n = self.credentials.len();
        let mut i: usize = 0;
        while i < n
            invariant
                i <= n,
                n == self.credentials@.len(),
                dv == self@.credentials,
                forall|j: int| 0 <= j < i ==> (#[trigger] dv[j]).id != id,
            decreases n - i,
        {
            if self.credentials[i].id == id {
                proof {
                    assert(dv[i as int] == self.credentials@[i as int]@);
                    lemma_find_hit(dv, id, i as int);
                }
                return Some(&self.credentials[i]);
            }
            proof {
                assert(dv[i as int] == self.credentials@[i as int]@);
            }
            i = i + 1;
        }
        proof {
            lemma_find_miss(dv, id);
        }
        None
    }

    /// A mutable reference to the first credential with the given
    /// identifier, if any; nothing else in the vault changes through it.
    #[verifier::loop_isolation(false)]
    pub fn find_credential_mut(&mut self, id: u128) -> (r: Option<&mut Credential>)
        ensures
            r matches Some(c) ==> (spec_find(old(self)@.credentials, id) matches Some(j) && (*c)@
                == old(self)@.credentials[j] && final(self).credentials@ == old(
                self,
            ).credentials@.update(j, *final(c)) && final(self).created_at == old(self).created_at
                && final(self).updated_at == old(self).updated_at && final(self).version == old(
                self,
            ).version),
            r is None ==> spec_find(old(self)@.credentials, id) is None && *final(self) == *old(
                self,
            ),
    {
        let ghost dv = self@.credentials;
        let n = self.credentials.len();
        let mut i: usize = 0;
        while i < n
            invariant
                i <= n,
                n == self.credentials@.len(),
                dv == self@.credentials,
                *self == *old(self),
                forall|j: int| 0 <= j < i ==> (#[trigger] dv[j]).id != id,
            decreases n - i,
        {
            if self.credentials[i].id == id {
                proof {
                    assert(dv[i as int] == self.credentials@[i as int]@);
                    lemma_find_hit(dv, id, i as int);
                }
                return Some(&mut self.credentials[i]);
            }
            proof {
                assert(dv[i as int] == self.credentials@[i as int]@);
            }
            i = i + 1;
        }
        proof {
            lemma_find_miss(dv, id);
        }
        None
    }

    /// All credentials matching the search term, in vault order.
    #[verifier::loop_isolation(false)]
    pub fn search_credentials(&self, serch_term: &str) -> (r: Vec<&Credential>)
        ensures
            r.deep_view() == spec_search(self@.credentials, serch_term@),
    {
        let ghost dv = self@.credentials;
        let mut acc: Vec<&Credential> = Vec::new();
        let n = self.credentials.len();
        let mut i: usize = 0;
        proof {
            assert(acc.deep_view() =~= spec_search(dv.take(0), serch_term@));
        }
        while i < n
            invariant
                i <= n,
                n == self.credentials@.len(),
                dv == self@.credentials,
                acc.deep_view() == spec_search(dv.take(i as int), serch_term@),
            decreases n - i,
        {
            let ghost accpre = acc.deep_view();
            let c = &self.credentials[i];
            proof {
                assert(dv[i as int] == self.credentials@[i as int]@);
            }
            if c.matches_search(serch_term) {
                acc.push(c);
                proof {
                    assert(acc.deep_view() =~= accpre.push(dv[i as int]));
                    assert(accpre + seq![dv[i as int]] =~= accpre.push(dv[i as int]));
                }
            }
            proof {
                lemma_spec_search_push(dv.take(i as int), dv[i as int], serch_term@);
                assert(dv.take(i + 1) =~= dv.take(i as int).push(dv[i as int]));
                if !spec_matches_search(dv[i as int], serch_term@) {
                    assert(accpre + Seq::<CredentialView>::empty() =~= accpre);
                }
            }
            i = i + 1;
        }
        proof {
            assert(dv.take(n as int) =~= dv);
        }
        acc
    }
}

} // verus!
