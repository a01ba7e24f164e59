//! Serialization round trips through the token stream.

use login_automation::codec::decode_entry;
use login_automation::codec::decode_script;
use login_automation::codec::encode_entry;
use login_automation::codec::encode_script;
use login_automation::codec::Token;
use login_automation::secure_storage::CredentialEntry;
use login_automation::types::Condition;
use login_automation::types::ErrorHandler;
use login_automation::types::LoginScript;
use login_automation::types::ScriptMeta;
use login_automation::types::Selector;
use login_automation::types::Step;
use login_automation::types::TargetApp;
use login_automation::types::TargetAppKind;
use login_automation::types::Validation;
use login_automation::types::ValueRef;

fn deep_script() -> LoginScript {
    let inner_conditional = Step::Conditional {
        condition: Condition::And(vec![
            Condition::Exists(Selector::XPath("//input".to_string())),
            Condition::Not(Box::new(Condition::Or(vec![
                Condition::TextEquals {
                    selector: Selector::Css("#status".to_string()),
                    expected: "locked".to_string(),
                },
                Condition::Exists(Selector::Coordinates { x: -3, y: 7 }),
            ]))),
        ]),
        on_true: vec![
            Step::Input {
                selector: Selector::AccessibilityId("user-field".to_string()),
                value: ValueRef::FromVault("acct1".to_string()),
            },
            Step::SleepMs(250),
        ],
        on_false: vec![Step::Click(Selector::Image("retry.png".to_string()))],
    };
    let nested_loop = Step::Loop {
        times: 3,
        body: vec![
            inner_conditional,
            Step::Loop {
                times: 0,
                body: vec![Step::WaitFor(Selector::Css("#spinner".to_string()))],
            },
        ],
    };
    LoginScript {
        meta: ScriptMeta {
            id: "deep-flow".to_string(),
            version: "v42".to_string(),
            author: Some("alice".to_string()),
            created_at: None,
            updated_at: Some("2024-01-01".to_string()),
        },
        target: TargetApp {
            kind: TargetAppKind::Android,
            name: "demo".to_string(),
            version: Some("9".to_string()),
            endpoint: None,
        },
        steps: vec![Step::Click(Selector::Css("#start".to_string())), nested_loop],
        validations: vec![Validation {
            description: "logged in".to_string(),
            condition: Condition::Exists(Selector::Css("#dashboard".to_string())),
        }],
        error_handlers: vec![ErrorHandler {
            name: "driver-error".to_string(),
            on_error: vec![Step::Click(Selector::Css("#reload".to_string()))],
        }],
    }
}

#[test]
fn deeply_nested_script_round_trips_identically() {
    let script = deep_script();
    let tokens = encode_script(&script);
    let decoded = decode_script(&tokens).expect("an encoded script decodes");
    assert_eq!(decoded, script);
}

#[test]
fn minimal_script_round_trips_identically() {
    let script = LoginScript {
        meta: ScriptMeta {
            id: "".to_string(),
            version: "".to_string(),
            author: None,
            created_at: None,
            updated_at: None,
        },
        target: TargetApp {
            kind: TargetAppKind::Web,
            name: "".to_string(),
            version: None,
            endpoint: None,
        },
        steps: Vec::new(),
        validations: Vec::new(),
        error_handlers: Vec::new(),
    };
    let tokens = encode_script(&script);
    let decoded = decode_script(&tokens).expect("an encoded script decodes");
    assert_eq!(decoded, script);
}

#[test]
fn garbage_tokens_do_not_decode() {
    assert_eq!(decode_script(&vec![Token::U(99)]), None);
    assert_eq!(decode_script(&Vec::new()), None);
}

#[test]
fn credential_entry_round_trips_identically() {
    let entry = CredentialEntry {
        id: "acct1".to_string(),
        username: "alice".to_string(),
        secret: "s3cr3t".to_string(),
        token: Some("sess".to_string()),
        metadata: None,
    };
    let tokens = encode_entry(&entry);
    assert_eq!(decode_entry(&tokens), Some(entry));
}

#[test]
fn encoding_distinguishes_selector_variants() {
    let a = encode_script(&script_with(Selector::Css("x".to_string())));
    let b = encode_script(&script_with(Selector::XPath("x".to_string())));
    assert_ne!(a, b);
}

fn script_with(selector: Selector) -> LoginScript {
    LoginScript {
        meta: ScriptMeta {
            id: "s".to_string(),
            version: "v".to_string(),
            author: None,
            created_at: None,
            updated_at: None,
        },
        target: TargetApp {
            kind: TargetAppKind::Web,
            name: "n".to_string(),
            version: None,
            endpoint: None,
        },
        steps: vec![Step::Click(selector)],
        validations: Vec::new(),
        error_handlers: Vec::new(),
    }
}
