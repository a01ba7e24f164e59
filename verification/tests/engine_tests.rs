//! End-to-end engine scenarios against the built-in stub drivers.

use login_automation::captcha::NoopCaptcha;
use login_automation::driver::AutomationDriver;
use login_automation::driver::BuiltinDriver;
use login_automation::driver::WebDriverStub;
use login_automation::engine::eval_condition;
use login_automation::engine::kind_message;
use login_automation::engine::AutomationEngine;
use login_automation::engine::RunErrorKind;
use login_automation::resolve::resolve_value;
use login_automation::resolve::ResolveError;
use login_automation::secure_storage::CredentialEntry;
use login_automation::secure_storage::CredentialVault;
use login_automation::secure_storage::NoopKeyProvider;
use login_automation::types::Condition;
use login_automation::types::Selector;
use login_automation::types::Step;
use login_automation::types::TargetApp;
use login_automation::types::TargetAppKind;
use login_automation::types::ValueRef;

fn web_target() -> TargetApp {
    TargetApp {
        kind: TargetAppKind::Web,
        name: "demo-app".to_string(),
        version: None,
        endpoint: Some("https://example.test/login".to_string()),
    }
}

fn android_target() -> TargetApp {
    TargetApp {
        kind: TargetAppKind::Android,
        name: "demo-app".to_string(),
        version: Some("1.2".to_string()),
        endpoint: None,
    }
}

fn login_page() -> Vec<(Selector, Option<String>)> {
    vec![
        (Selector::Css("#login".to_string()), None),
        (Selector::Css("#user".to_string()), None),
        (Selector::Css("#pass".to_string()), None),
        (Selector::Css("#dashboard".to_string()), Some("Welcome".to_string())),
    ]
}

fn login_steps() -> Vec<Step> {
    vec![
        Step::Click(Selector::Css("#login".to_string())),
        Step::Input {
            selector: Selector::Css("#user".to_string()),
            value: ValueRef::Literal("alice".to_string()),
        },
        Step::Input {
            selector: Selector::Css("#pass".to_string()),
            value: ValueRef::FromVault("acct1".to_string()),
        },
        Step::WaitFor(Selector::Css("#dashboard".to_string())),
    ]
}

fn vault_with_acct1() -> CredentialVault<NoopKeyProvider> {
    let mut vault = CredentialVault::new(NoopKeyProvider);
    vault
        .store(CredentialEntry {
            id: "acct1".to_string(),
            username: "alice".to_string(),
            secret: "s3cr3t".to_string(),
            token: None,
            metadata: None,
        })
        .unwrap();
    vault
}

fn web_engine(
    elements: Vec<(Selector, Option<String>)>,
) -> AutomationEngine<BuiltinDriver, NoopCaptcha> {
    AutomationEngine::new(
        vec![BuiltinDriver::Web(WebDriverStub::new(elements))],
        NoopCaptcha,
    )
}

#[test]
fn full_login_script_succeeds_with_session_token() {
    let mut engine = web_engine(login_page());
    let vault = vault_with_acct1();
    let script = login_automation::script_manager::build_login_script(
        ("login-flow", "v1"),
        web_target(),
        login_steps(),
    );
    let outcome = engine.run(&script, &vault);
    assert!(outcome.success);
    let token = outcome.session_token.expect("a session token");
    assert!(!token.is_empty());
    assert_eq!(token, "web-session-token");
    assert_eq!(outcome.error, None);
}

#[test]
fn missing_vault_entry_fails_with_secret_not_found() {
    let mut engine = web_engine(login_page());
    let empty_vault = CredentialVault::new(NoopKeyProvider);
    let script = login_automation::script_manager::build_login_script(
        ("login-flow", "v1"),
        web_target(),
        login_steps(),
    );
    let outcome = engine.run(&script, &empty_vault);
    assert!(!outcome.success);
    assert_eq!(outcome.session_token, None);
    assert_eq!(outcome.error, Some("secret-not-found".to_string()));
}

#[test]
fn conditional_with_absent_banner_runs_the_empty_branch() {
    // The driver shows no "#banner", so only `on_false` (empty) runs and the
    // run succeeds even though `on_true` holds an unresolvable input.
    let mut engine = web_engine(Vec::new());
    let vault = CredentialVault::new(NoopKeyProvider);
    let steps = vec![Step::Conditional {
        condition: Condition::Exists(Selector::Css("#banner".to_string())),
        on_true: vec![Step::Input {
            selector: Selector::Css("#dismiss".to_string()),
            value: ValueRef::FromVault("missing-key".to_string()),
        }],
        on_false: vec![],
    }];
    let script = login_automation::script_manager::build_login_script(
        ("banner-flow", "v1"),
        web_target(),
        steps,
    );
    let outcome = engine.run(&script, &vault);
    assert!(outcome.success);
}

#[test]
fn conditional_with_present_banner_runs_the_true_branch() {
    // Same script, but now "#banner" exists: `on_true` runs and its vault
    // lookup fails, so exactly one branch — the true one — was taken.
    let mut engine = web_engine(vec![(Selector::Css("#banner".to_string()), None)]);
    let vault = CredentialVault::new(NoopKeyProvider);
    let steps = vec![Step::Conditional {
        condition: Condition::Exists(Selector::Css("#banner".to_string())),
        on_true: vec![Step::Input {
            selector: Selector::Css("#dismiss".to_string()),
            value: ValueRef::FromVault("missing-key".to_string()),
        }],
        on_false: vec![],
    }];
    let script = login_automation::script_manager::build_login_script(
        ("banner-flow", "v1"),
        web_target(),
        steps,
    );
    let outcome = engine.run(&script, &vault);
    assert!(!outcome.success);
    assert_eq!(outcome.error, Some("secret-not-found".to_string()));
}

#[test]
fn empty_script_succeeds_without_any_driver() {
    let mut engine: AutomationEngine<BuiltinDriver, NoopCaptcha> =
        AutomationEngine::new(Vec::new(), NoopCaptcha);
    let vault = CredentialVault::new(NoopKeyProvider);
    let script = login_automation::script_manager::build_login_script(
        ("empty-flow", "v1"),
        web_target(),
        Vec::new(),
    );
    let outcome = engine.run(&script, &vault);
    assert!(outcome.success);
    assert_eq!(outcome.error, None);
}

#[test]
fn zero_iteration_loop_is_a_no_op() {
    let mut engine = web_engine(Vec::new());
    let vault = CredentialVault::new(NoopKeyProvider);
    let steps = vec![Step::Loop {
        times: 0,
        body: vec![Step::Input {
            selector: Selector::Css("#field".to_string()),
            value: ValueRef::FromVault("never-read".to_string()),
        }],
    }];
    let script = login_automation::script_manager::build_login_script(
        ("loop-flow", "v1"),
        web_target(),
        steps,
    );
    let outcome = engine.run(&script, &vault);
    // The body never runs, so its unresolvable vault reference never fires.
    assert!(outcome.success);
}

#[test]
fn no_supporting_driver_is_a_terminal_failure() {
    let mut engine = web_engine(Vec::new());
    let vault = CredentialVault::new(NoopKeyProvider);
    let script = login_automation::script_manager::build_login_script(
        ("android-flow", "v1"),
        android_target(),
        vec![Step::SleepMs(5)],
    );
    let outcome = engine.run(&script, &vault);
    assert!(!outcome.success);
    assert_eq!(outcome.error, Some("no-driver".to_string()));
}

#[test]
fn driver_selection_is_first_match() {
    let engine = AutomationEngine::with_defaults();
    assert_eq!(engine.select_driver(&web_target()), Some(0));
    assert_eq!(engine.select_driver(&android_target()), Some(1));
}

#[test]
fn registered_driver_extends_the_registry_in_order() {
    let mut engine = web_engine(Vec::new());
    assert_eq!(engine.select_driver(&android_target()), None);
    engine.register_driver(BuiltinDriver::Android(
        login_automation::driver::AndroidDriverStub::new(Vec::new()),
    ));
    assert_eq!(engine.select_driver(&android_target()), Some(1));
    assert_eq!(engine.select_driver(&web_target()), Some(0));
}

#[test]
fn empty_and_is_true_and_empty_or_is_false() {
    let mut driver = WebDriverStub::new(Vec::new());
    assert_eq!(eval_condition(&mut driver, &Condition::And(vec![])), Ok(true));
    assert_eq!(eval_condition(&mut driver, &Condition::Or(vec![])), Ok(false));
}

#[test]
fn condition_evaluation_composes_with_short_circuit() {
    let mut driver = WebDriverStub::new(vec![
        (Selector::Css("#a".to_string()), Some("hello".to_string())),
        (Selector::Css("#b".to_string()), None),
    ]);
    let exists_a = Condition::Exists(Selector::Css("#a".to_string()));
    let exists_c = Condition::Exists(Selector::Css("#c".to_string()));
    let text_a = Condition::TextEquals {
        selector: Selector::Css("#a".to_string()),
        expected: "hello".to_string(),
    };
    let text_b = Condition::TextEquals {
        selector: Selector::Css("#b".to_string()),
        expected: "hello".to_string(),
    };
    assert_eq!(eval_condition(&mut driver, &exists_a), Ok(true));
    assert_eq!(eval_condition(&mut driver, &exists_c), Ok(false));
    assert_eq!(eval_condition(&mut driver, &text_a), Ok(true));
    // An element without text never equals an expected text.
    assert_eq!(eval_condition(&mut driver, &text_b), Ok(false));
    let both = Condition::And(vec![exists_a.clone(), exists_c.clone()]);
    assert_eq!(eval_condition(&mut driver, &both), Ok(false));
    let either = Condition::Or(vec![exists_c.clone(), text_a.clone()]);
    assert_eq!(eval_condition(&mut driver, &either), Ok(true));
    let negated = Condition::Not(Box::new(exists_c));
    assert_eq!(eval_condition(&mut driver, &negated), Ok(true));
}

#[test]
fn resolving_a_missing_key_reports_secret_not_found() {
    let vault = CredentialVault::new(NoopKeyProvider);
    let missing = ValueRef::FromVault("absent".to_string());
    assert_eq!(
        resolve_value(&vault, &missing),
        Err(ResolveError::SecretNotFound)
    );
    let literal = ValueRef::Literal("plain".to_string());
    assert_eq!(resolve_value(&vault, &literal), Ok("plain".to_string()));
}

#[test]
fn error_handler_recovers_a_failed_step() {
    let mut engine = web_engine(Vec::new());
    let vault = CredentialVault::new(NoopKeyProvider);
    let mut script = login_automation::script_manager::build_login_script(
        ("recover-flow", "v1"),
        web_target(),
        vec![Step::Input {
            selector: Selector::Css("#pass".to_string()),
            value: ValueRef::FromVault("gone".to_string()),
        }],
    );
    script.error_handlers.push(login_automation::types::ErrorHandler {
        name: "secret-not-found".to_string(),
        on_error: vec![Step::Click(Selector::Css("#retry".to_string()))],
    });
    let outcome = engine.run(&script, &vault);
    // The matching handler runs as the substituted continuation and succeeds.
    assert!(outcome.success);
    assert_eq!(outcome.session_token, Some("web-session-token".to_string()));
}

#[test]
fn failure_kind_labels_are_stable() {
    assert_eq!(kind_message(RunErrorKind::NoDriver), "no-driver");
    assert_eq!(kind_message(RunErrorKind::Driver), "driver-error");
    assert_eq!(kind_message(RunErrorKind::SecretNotFound), "secret-not-found");
    assert_eq!(kind_message(RunErrorKind::SecretBackend), "secret-backend-error");
    assert_eq!(kind_message(RunErrorKind::Evaluation), "evaluation-error");
}

#[test]
fn stub_drivers_report_their_capabilities() {
    let web = WebDriverStub::new(Vec::new());
    let android = login_automation::driver::AndroidDriverStub::new(Vec::new());
    assert!(web.supports(&web_target()));
    assert!(!web.supports(&android_target()));
    assert!(android.supports(&android_target()));
    assert!(!android.supports(&web_target()));
    assert_eq!(web.name(), "web-stub");
    assert_eq!(android.name(), "android-stub");
}
