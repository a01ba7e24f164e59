//! Vault, script store and captcha coordinator behaviour.

use login_automation::captcha::CaptchaHandler;
use login_automation::captcha::NoopCaptcha;
use login_automation::script_manager::build_login_script;
use login_automation::script_manager::ScriptManager;
use login_automation::script_manager::ScriptStoreError;
use login_automation::secure_storage::CredentialEntry;
use login_automation::secure_storage::CredentialVault;
use login_automation::secure_storage::KeyProvider;
use login_automation::secure_storage::NoopKeyProvider;
use login_automation::secure_storage::VaultError;
use login_automation::types::CaptchaChallenge;
use login_automation::types::CaptchaKind;
use login_automation::types::CaptchaStrategy;
use login_automation::types::Selector;
use login_automation::types::Step;
use login_automation::types::TargetApp;
use login_automation::types::TargetAppKind;

fn entry(id: &str, secret: &str) -> CredentialEntry {
    CredentialEntry {
        id: id.to_string(),
        username: "user".to_string(),
        secret: secret.to_string(),
        token: Some("sess".to_string()),
        metadata: None,
    }
}

fn target() -> TargetApp {
    TargetApp {
        kind: TargetAppKind::Web,
        name: "demo".to_string(),
        version: None,
        endpoint: None,
    }
}

#[test]
fn stored_credentials_come_back_unchanged() {
    let mut vault = CredentialVault::new(NoopKeyProvider);
    vault.store(entry("acct1", "s3cr3t")).unwrap();
    let fetched = vault.fetch("acct1").unwrap();
    assert_eq!(fetched, entry("acct1", "s3cr3t"));
}

#[test]
fn later_store_shadows_earlier_store() {
    let mut vault = CredentialVault::new(NoopKeyProvider);
    vault.store(entry("acct1", "old")).unwrap();
    vault.store(entry("acct1", "new")).unwrap();
    assert_eq!(vault.fetch("acct1").unwrap().secret, "new");
}

#[test]
fn fetching_a_missing_credential_reports_not_found() {
    let vault = CredentialVault::new(NoopKeyProvider);
    match vault.fetch("ghost") {
        Err(VaultError::NotFound(id)) => assert_eq!(id, "ghost"),
        other => panic!("expected NotFound, got {:?}", other),
    }
}

#[test]
fn noop_key_provider_derives_a_labelled_alias() {
    let handle = NoopKeyProvider.derive_key("acct1").unwrap();
    assert_eq!(handle.alias, "noop-acct1");
}

#[test]
fn save_then_load_latest_returns_the_newest_version() {
    let mut manager = ScriptManager::new();
    manager.save(build_login_script(("flow", "v1"), target(), Vec::new()));
    manager.save(build_login_script(
        ("flow", "v2"),
        target(),
        vec![Step::SleepMs(1)],
    ));
    manager.save(build_login_script(("other", "v1"), target(), Vec::new()));
    let latest = manager.load("flow", None).unwrap();
    assert_eq!(latest.meta.version, "v2");
    assert_eq!(latest.steps.len(), 1);
}

#[test]
fn load_by_version_picks_the_requested_entry() {
    let mut manager = ScriptManager::new();
    manager.save(build_login_script(("flow", "v1"), target(), Vec::new()));
    manager.save(build_login_script(("flow", "v2"), target(), Vec::new()));
    let first = manager.load("flow", Some("v1")).unwrap();
    assert_eq!(first.meta.version, "v1");
}

#[test]
fn load_of_unknown_id_reports_not_found() {
    let manager = ScriptManager::new();
    assert_eq!(manager.load("nope", None), Err(ScriptStoreError::NotFound));
    assert_eq!(
        manager.load("nope", Some("v1")),
        Err(ScriptStoreError::NotFound)
    );
}

#[test]
fn load_of_unknown_version_reports_version_not_found() {
    let mut manager = ScriptManager::new();
    manager.save(build_login_script(("flow", "v1"), target(), Vec::new()));
    assert_eq!(
        manager.load("flow", Some("v9")),
        Err(ScriptStoreError::VersionNotFound)
    );
}

#[test]
fn list_versions_keeps_save_order_and_filters_by_id() {
    let mut manager = ScriptManager::new();
    manager.save(build_login_script(("flow", "v1"), target(), Vec::new()));
    manager.save(build_login_script(("other", "v7"), target(), Vec::new()));
    manager.save(build_login_script(("flow", "v2"), target(), Vec::new()));
    let versions = manager.list_versions("flow");
    assert_eq!(versions.len(), 2);
    assert_eq!(versions[0].version, "v1");
    assert_eq!(versions[1].version, "v2");
    assert_eq!(versions[0].id, "flow");
    assert_eq!(versions[0].changelog, None);
    assert_eq!(versions[0].created_at, "");
}

#[test]
fn recording_starts_with_an_empty_session() {
    let manager = ScriptManager::new();
    let session = manager.record(target());
    assert_eq!(session.target.name, "demo");
    assert!(session.steps.is_empty());
    assert!(session.selectors.is_empty());
}

#[test]
fn build_login_script_fills_metadata_and_leaves_lists_empty() {
    let script = build_login_script(
        ("flow", "v1"),
        target(),
        vec![Step::Click(Selector::Css("#go".to_string()))],
    );
    assert_eq!(script.meta.id, "flow");
    assert_eq!(script.meta.version, "v1");
    assert_eq!(script.meta.author, None);
    assert_eq!(script.validations.len(), 0);
    assert_eq!(script.error_handlers.len(), 0);
    assert_eq!(script.steps.len(), 1);
}

#[test]
fn noop_captcha_solves_with_a_manual_tag() {
    let challenge = CaptchaChallenge {
        kind: CaptchaKind::Image,
        payload: vec![1, 2, 3],
        metadata: Some("web-challenge".to_string()),
    };
    let solution = NoopCaptcha.solve(challenge.clone()).unwrap();
    assert_eq!(solution.challenge, challenge);
    assert_eq!(solution.response, "manual-input-placeholder");
    assert_eq!(solution.strategy, CaptchaStrategy::Manual);
}

#[test]
fn engine_dispatches_captcha_solving_to_its_handler() {
    let engine = login_automation::engine::AutomationEngine::with_defaults();
    let challenge = CaptchaChallenge {
        kind: CaptchaKind::Slider,
        payload: Vec::new(),
        metadata: None,
    };
    let solution = engine.solve_captcha(challenge).unwrap();
    assert_eq!(solution.strategy, CaptchaStrategy::Manual);
}

#[test]
fn app_context_wires_the_default_components() {
    let mut ctx = login_automation::AppContext::new();
    assert_eq!(ctx.automation.select_driver(&target()), Some(0));
    assert_eq!(ctx.scripts.load("none", None), Err(ScriptStoreError::NotFound));
    ctx.vault.store(entry("acct1", "s3cr3t")).unwrap();
    assert_eq!(ctx.vault.fetch("acct1").unwrap().secret, "s3cr3t");
}

#[test]
fn built_in_collaborators_carry_diagnostic_labels() {
    assert_eq!(NoopKeyProvider.label(), "noop-key-provider");
    assert_eq!(NoopCaptcha.label(), "noop-captcha");
}

#[test]
fn default_components_start_empty() {
    let vault: CredentialVault<NoopKeyProvider> = CredentialVault::default();
    match vault.fetch("anything") {
        Err(VaultError::NotFound(_)) => {}
        other => panic!("expected NotFound, got {:?}", other),
    }
    let manager = ScriptManager::default();
    assert!(manager.list_versions("any").is_empty());
    let engine: login_automation::engine::AutomationEngine<
        login_automation::driver::BuiltinDriver,
        NoopCaptcha,
    > = Default::default();
    assert_eq!(engine.select_driver(&target()), Some(0));
}
