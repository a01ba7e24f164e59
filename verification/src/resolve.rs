//! The value resolver: turns a [`ValueRef`] into a concrete string, either a
//! literal or a vault-sourced secret, immediately before each use.

use vstd::prelude::*;

use crate::types::ValueRef;

verus! {

/// Why a value reference could not be resolved.
#[derive(Debug, Clone, Copy, PartialEq, Eq, Structural)]
pub enum ResolveError {
    /// The vault has no entry for the requested key.
    SecretNotFound,
    /// The vault backend itself failed.
    SecretBackendError,
}

/// External collaborator boundary to the vault.
///
/// A resolver abstracts its store as a key-to-secret map plus a health flag:
/// while the backend is healthy, `resolve` answers exactly from the map and
/// reports `SecretNotFound` for the rest; an unhealthy backend turns every
/// lookup into `SecretBackendError`.
pub trait SecretResolver {
    /// The key-to-secret map this resolver serves.
    spec fn secrets(&self) -> Map<Seq<char>, Seq<char>>;

    /// Whether the backing store is reachable and healthy.
    spec fn backend_ok(&self) -> bool;

    /// Look up the secret stored under `key`.
    fn resolve(&self, key: &str) -> (r: Result<String, ResolveError>)
        ensures
            self.backend_ok() && self.secrets().contains_key(key@) ==> (r matches Ok(v) && v@
                == self.secrets()[key@]),
            self.backend_ok() && !self.secrets().contains_key(key@) ==> r == Err::<
                String,
                ResolveError,
            >(ResolveError::SecretNotFound),
            !self.backend_ok() ==> r == Err::<String, ResolveError>(ResolveError::SecretBackendError),
    ;
}

/// Resolve `value` to the concrete string an `Input` step will type.
///
/// A literal resolves unconditionally. A vault reference delegates to the
/// resolver: a missing key yields `SecretNotFound`, never a panic, and a
/// backend failure yields `SecretBackendError`.
pub fn resolve_value<R: SecretResolver>(resolver: &R, value: &ValueRef) -> (r: Result<
    String,
    ResolveError,
>)
    ensures
        value matches ValueRef::Literal(s) ==> (r matches Ok(out) && out@ == s@),
        value matches ValueRef::FromVault(k) ==> (resolver.backend_ok()
            && resolver.secrets().contains_key(k@) ==> (r matches Ok(out) && out@
            == resolver.secrets()[k@])),
        value matches ValueRef::FromVault(k) ==> (resolver.backend_ok()
            && !resolver.secrets().contains_key(k@) ==> r == Err::<String, ResolveError>(
            ResolveError::SecretNotFound,
        )),
        value matches ValueRef::FromVault(k) ==> (!resolver.backend_ok() ==> r == Err::<
            String,
            ResolveError,
        >(ResolveError::SecretBackendError)),
{
    match value {
        ValueRef::Literal(s) => Ok(s.clone()),
        ValueRef::FromVault(k) => resolver.resolve(k.as_str()),
    }
}

} // verus!
