//! A declarative login-automation engine: a platform-independent model of a
//! login flow (clicks, input, waits, branching, looping) together with a
//! verified execution engine that interprets the model against a pluggable
//! platform driver, resolving secrets on the way.

use vstd::prelude::*;

pub mod captcha;
pub mod codec;
pub mod engine;
pub mod driver;
pub mod resolve;
pub mod script_manager;
pub mod secure_storage;
pub mod types;

use crate::captcha::NoopCaptcha;
use crate::driver::BuiltinDriver;
use crate::engine::AutomationEngine;
use crate::script_manager::ScriptManager;
use crate::secure_storage::CredentialVault;
use crate::secure_storage::NoopKeyProvider;
use crate::secure_storage::SpecCredentialEntry;
use crate::types::SpecLoginScript;

verus! {

/// Shared application context: the default engine, an empty script store
/// and an empty credential vault.
pub struct AppContext {
    pub automation: AutomationEngine<BuiltinDriver, NoopCaptcha>,
    pub scripts: ScriptManager,
    pub vault: CredentialVault<NoopKeyProvider>,
}

impl AppContext {
    /// A freshly wired context: two built-in drivers registered, nothing
    /// saved and nothing stored yet.
    pub fn new() -> (r: AppContext)
        ensures
            r.automation.drivers_view().len() == 2,
            r.scripts.scripts() == Seq::<SpecLoginScript>::empty(),
            r.vault.entries() == Map::<Seq<char>, SpecCredentialEntry>::empty(),
    {
        AppContext {
            automation: AutomationEngine::with_defaults(),
            scripts: ScriptManager::new(),
            vault: CredentialVault::new(NoopKeyProvider),
        }
    }
}

} // verus!
