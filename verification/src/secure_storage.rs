//! Secure storage: a credential vault that seals entries with a key from a
//! pluggable key provider and hands secrets out again by id. Sealing is a
//! mocked flow (derive key, encode the entry, keep the sealed payload), but
//! the vault's contract is exact: what was stored is what comes back.

use vstd::prelude::*;
use vstd::string::StringExecFns;

use crate::codec::SpecToken;
use crate::codec::Token;
use crate::codec::decode_entry;
use crate::codec::enc_entry;
use crate::codec::encode_entry;
use crate::codec::toks_view;
use crate::resolve::ResolveError;
use crate::resolve::SecretResolver;

verus! {

/// Credential entry persisted in sealed form.
#[derive(Debug, PartialEq, Eq)]
pub struct CredentialEntry {
    pub id: String,
    pub username: String,
    pub secret: String,
    pub token: Option<String>,
    pub metadata: Option<String>,
}

/// Mathematical value of a [`CredentialEntry`].
pub struct SpecCredentialEntry {
    pub id: Seq<char>,
    pub username: Seq<char>,
    pub secret: Seq<char>,
    pub token: Option<Seq<char>>,
    pub metadata: Option<Seq<char>>,
}

impl View for CredentialEntry {
    type V = SpecCredentialEntry;

    open spec fn view(&self) -> SpecCredentialEntry {
        SpecCredentialEntry {
            id: self.id@,
            username: self.username@,
            secret: self.secret@,
            token: self.token.deep_view(),
            metadata: self.metadata.deep_view(),
        }
    }
}

impl Clone for CredentialEntry {
    /// Value-preserving copy: the copy has the same mathematical value.
    fn clone(&self) -> (r: CredentialEntry)
        ensures
            r@ == self@,
    {
        CredentialEntry {
            id: self.id.clone(),
            username: self.username.clone(),
            secret: self.secret.clone(),
            token: self.token.clone(),
            metadata: self.metadata.clone(),
        }
    }
}

/// Failure modes of the vault.
#[derive(Debug, Clone, PartialEq, Eq)]
pub enum VaultError {
    /// No credential is stored under the requested id.
    NotFound(String),
    /// The key provider could not derive a key.
    Key(String),
    /// An internal storage failure.
    Internal(String),
}

/// Handle to a derived sealing key.
#[derive(Debug, Clone, PartialEq, Eq)]
pub struct KeyHandle {
    pub alias: String,
}

/// Key provider abstraction over platform key stores.
///
/// A provider abstracts its behaviour as an alias function over labels plus a
/// health flag: a healthy provider derives a key for every label.
pub trait KeyProvider: Sized {
    /// Short human-readable provider name for diagnostics.
    fn label(&self) -> (r: &'static str);

    /// The alias the provider gives a key derived for `label`.
    spec fn alias_spec(&self, label: Seq<char>) -> Seq<char>;

    /// Whether the provider can currently derive keys.
    spec fn provider_ok(&self) -> bool;

    /// Derive a sealing key for `label`.
    fn derive_key(&self, label: &str) -> (r: Result<KeyHandle, VaultError>)
        ensures
            self.provider_ok() ==> (r matches Ok(h) && h.alias@ == self.alias_spec(label@)),
            r matches Ok(h) ==> h.alias@ == self.alias_spec(label@),
    ;
}

/// No-op provider useful for tests and scaffolding: always derives, with a
/// recognisable alias.
pub struct NoopKeyProvider;

impl KeyProvider for NoopKeyProvider {
    fn label(&self) -> (r: &'static str) {
        "noop-key-provider"
    }

    open spec fn alias_spec(&self, label: Seq<char>) -> Seq<char> {
        "noop-"@ + label
    }

    open spec fn provider_ok(&self) -> bool {
        true
    }

    fn derive_key(&self, label: &str) -> (r: Result<KeyHandle, VaultError>) {
        let mut alias: String = "noop-".to_owned();
        alias.append(label);
        Ok(KeyHandle { alias })
    }
}

/// One sealed row of the vault.
struct SealedRow {
    id: String,
    payload: Vec<Token>,
    key_alias: String,
}

/// Whether a sealed payload is the encoding of some entry stored under `id`.
spec fn row_wf(id: Seq<char>, payload: Seq<Token>) -> bool {
    exists|e: SpecCredentialEntry| toks_view(payload) == enc_entry(e) && e.id == id
}

/// The entry a well-formed sealed payload encodes.
spec fn row_entry(payload: Seq<Token>) -> SpecCredentialEntry {
    choose|e: SpecCredentialEntry| toks_view(payload) == enc_entry(e)
}

/// The encoding of an entry pins the entry down: token streams are compared
/// position by position, and every field sits at a fixed place.
proof fn lemma_enc_entry_injective(e1: SpecCredentialEntry, e2: SpecCredentialEntry)
    requires
        enc_entry(e1) == enc_entry(e2),
    ensures
        e1 == e2,
{
    let s1 = enc_entry(e1);
    let s2 = enc_entry(e2);
    assert(s1[0] == SpecToken::S(e1.id) && s2[0] == SpecToken::S(e2.id));
    assert(s1[1] == SpecToken::S(e1.username) && s2[1] == SpecToken::S(e2.username));
    assert(s1[2] == SpecToken::S(e1.secret) && s2[2] == SpecToken::S(e2.secret));
    assert(s1[3] == crate::codec::enc_opt_str(e1.token)[0]);
    assert(s2[3] == crate::codec::enc_opt_str(e2.token)[0]);
    match (e1.token, e2.token) {
        (None, None) => {
            assert(s1[4] == crate::codec::enc_opt_str(e1.metadata)[0]);
            assert(s2[4] == crate::codec::enc_opt_str(e2.metadata)[0]);
            match (e1.metadata, e2.metadata) {
                (None, None) => {},
                (Some(m1), Some(m2)) => {
                    assert(s1[5] == SpecToken::S(m1) && s2[5] == SpecToken::S(m2));
                },
                _ => {},
            }
        },
        (Some(t1), Some(t2)) => {
            assert(s1[4] == SpecToken::S(t1) && s2[4] == SpecToken::S(t2));
            assert(s1[5] == crate::codec::enc_opt_str(e1.metadata)[0]);
            assert(s2[5] == crate::codec::enc_opt_str(e2.metadata)[0]);
            match (e1.metadata, e2.metadata) {
                (None, None) => {},
                (Some(m1), Some(m2)) => {
                    assert(s1[6] == SpecToken::S(m1) && s2[6] == SpecToken::S(m2));
                },
                _ => {},
            }
        },
        _ => {},
    }
}

/// The map a sealed row list denotes; later rows shadow earlier ones.
spec fn rows_map(rows: Seq<SealedRow>) -> Map<Seq<char>, SpecCredentialEntry>
    decreases rows,
{
    if rows.len() == 0 {
        Map::empty()
    } else {
        rows_map(rows.subrange(0, rows.len() - 1)).insert(
            rows[rows.len() - 1].id@,
            row_entry(rows[rows.len() - 1].payload@),
        )
    }
}

/// If `rows[j]` is the last row for its id, the map holds that row's entry.
proof fn lemma_rows_map_found(rows: Seq<SealedRow>, j: int)
    requires
        0 <= j < rows.len(),
        forall|k: int| j < k < rows.len() ==> (#[trigger] rows[k]).id@ != rows[j].id@,
    ensures
        rows_map(rows).contains_key(rows[j].id@),
        rows_map(rows)[rows[j].id@] == row_entry(rows[j].payload@),
    decreases rows.len(),
{
    if j < rows.len() - 1 {
        lemma_rows_map_found(rows.subrange(0, rows.len() - 1), j);
    }
}

/// An id no row carries is absent from the map.
proof fn lemma_rows_map_absent(rows: Seq<SealedRow>, id: Seq<char>)
    requires
        forall|k: int| 0 <= k < rows.len() ==> (#[trigger] rows[k]).id@ != id,
    ensures
        !rows_map(rows).contains_key(id),
    decreases rows.len(),
{
    if rows.len() > 0 {
        lemma_rows_map_absent(rows.subrange(0, rows.len() - 1), id);
    }
}

/// In-memory credential vault: entries are sealed with a derived key on the
/// way in and decoded again on the way out.
pub struct CredentialVault<P: KeyProvider> {
    provider: P,
    rows: Vec<SealedRow>,
}

impl<P: KeyProvider> CredentialVault<P> {
    /// Every sealed payload is the encoding of an entry stored under its id.
    #[verifier::type_invariant]
    spec fn wf(&self) -> bool {
        forall|i: int|
            0 <= i < self.rows@.len() ==> row_wf(
                (#[trigger] self.rows@[i]).id@,
                self.rows@[i].payload@,
            )
    }

    /// The id-to-entry map this vault holds.
    pub closed spec fn entries(&self) -> Map<Seq<char>, SpecCredentialEntry> {
        rows_map(self.rows@)
    }

    /// The configured key provider.
    pub closed spec fn provider_view(&self) -> P {
        self.provider
    }

    /// An empty vault over the given key provider.
    pub fn new(provider: P) -> (r: CredentialVault<P>)
        ensures
            r.entries() == Map::<Seq<char>, SpecCredentialEntry>::empty(),
            r.provider_view() == provider,
    {
        CredentialVault { provider, rows: Vec::new() }
    }

    /// Seal `entry` under a key derived for its id and keep it; a later store
    /// under the same id shadows the earlier one.
    pub fn store(&mut self, entry: CredentialEntry) -> (r: Result<(), VaultError>)
        ensures
            old(self).provider_view().provider_ok() ==> r is Ok,
            r is Ok ==> final(self).entries() == old(self).entries().insert(entry@.id, entry@),
            r is Err ==> final(self).entries() == old(self).entries(),
            final(self).provider_view() == old(self).provider_view(),
    {
        proof {
            use_type_invariant(&*self);
        }
        let key = match self.provider.derive_key(entry.id.as_str()) {
            Ok(k) => k,
            Err(e) => {
                return Err(e);
            },
        };
        let payload = encode_entry(&entry);
        let ghost old_rows = self.rows@;
        let row = SealedRow { id: entry.id, payload, key_alias: key.alias };
        let mut rows: Vec<SealedRow> = Vec::new();
        core::mem::swap(&mut rows, &mut self.rows);
        rows.push(row);
        proof {
            assert(rows@.subrange(0, rows@.len() - 1) =~= old_rows);
            assert(toks_view(rows@[rows@.len() - 1].payload@) == enc_entry(entry@));
            assert(row_wf(rows@[rows@.len() - 1].id@, rows@[rows@.len() - 1].payload@));
            let chosen = row_entry(rows@[rows@.len() - 1].payload@);
            assert(toks_view(rows@[rows@.len() - 1].payload@) == enc_entry(chosen));
            lemma_enc_entry_injective(chosen, entry@);
        }
        core::mem::swap(&mut rows, &mut self.rows);
        Ok(())
    }

    /// Fetch and unseal the entry stored under `id`; the entry that was
    /// stored is the entry that comes back.
    #[verifier::loop_isolation(false)]
    pub fn fetch(&self, id: &str) -> (r: Result<CredentialEntry, VaultError>)
        ensures
            self.entries().contains_key(id@) ==> (r matches Ok(e) && e@ == self.entries()[id@]),
            !self.entries().contains_key(id@) ==> (r matches Err(ve) && ve matches
                VaultError::NotFound(missing) && missing@ == id@),
    {
        proof {
            use_type_invariant(&*self);
        }
        let target: String = id.to_owned();
        let n = self.rows.len();
        let mut i = n;
        while i > 0
            invariant
                i <= n,
                n == self.rows@.len(),
                forall|k: int| i <= k < n ==> (#[trigger] self.rows@[k]).id@ != id@,
            decreases i,
        {
            i = i - 1;
            if self.rows[i].id.eq(&target) {
                proof {
                    lemma_rows_map_found(self.rows@, i as int);
                }
                match decode_entry(&self.rows[i].payload) {
                    Some(entry) => {
                        proof {
                            let chosen = row_entry(self.rows@[i as int].payload@);
                            assert(toks_view(self.rows@[i as int].payload@) == enc_entry(chosen));
                        }
                        return Ok(entry);
                    },
                    None => {
                        proof {
                            let chosen = row_entry(self.rows@[i as int].payload@);
                            assert(toks_view(self.rows@[i as int].payload@) == enc_entry(chosen));
                            assert(false);
                        }
                        return Err(VaultError::Internal(id.to_owned()));
                    },
                }
            }
        }
        proof {
            lemma_rows_map_absent(self.rows@, id@);
        }
        Err(VaultError::NotFound(id.to_owned()))
    }
}

impl Default for CredentialVault<NoopKeyProvider> {
    /// An empty vault over the no-op key provider.
    fn default() -> (r: CredentialVault<NoopKeyProvider>)
        ensures
            r.entries() == Map::<Seq<char>, SpecCredentialEntry>::empty(),
    {
        CredentialVault::new(NoopKeyProvider)
    }
}

impl<P: KeyProvider> SecretResolver for CredentialVault<P> {
    /// The secrets this vault serves: each stored entry's secret, by id.
    closed spec fn secrets(&self) -> Map<Seq<char>, Seq<char>> {
        self.entries().map_values(|e: SpecCredentialEntry| e.secret)
    }

    /// The in-memory vault is always reachable.
    closed spec fn backend_ok(&self) -> bool {
        true
    }

    fn resolve(&self, key: &str) -> (r: Result<String, ResolveError>) {
        match self.fetch(key) {
            Ok(entry) => Ok(entry.secret),
            Err(_) => Err(ResolveError::SecretNotFound),
        }
    }
}

} // verus!
