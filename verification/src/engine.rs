//! The execution engine: picks the first registered driver that supports the
//! script's target, then interprets the step tree depth-first and left to
//! right against that driver, resolving input values lazily and dispatching
//! one error handler on failure.
//!
//! The whole run is pinned down by a mathematical interpreter
//! ([`spec_run_script`]) over the driver's abstract page, the resolver's
//! secret map, and the driver's own action semantics.

use vstd::prelude::*;

use crate::captcha::CaptchaError;
use crate::captcha::CaptchaHandler;
use crate::driver::AutomationDriver;
use crate::driver::DriverError;
use crate::driver::Page;
use crate::driver::UiAction;
use crate::driver::page_text;
use crate::resolve::ResolveError;
use crate::resolve::SecretResolver;
use crate::resolve::resolve_value;
use crate::types::CaptchaChallenge;
use crate::types::CaptchaSolution;
use crate::types::Condition;
use crate::types::LoginOutcome;
use crate::types::LoginScript;
use crate::types::SpecCondition;
use crate::types::SpecErrorHandler;
use crate::types::SpecLoginOutcome;
use crate::types::SpecLoginScript;
use crate::types::SpecStep;
use crate::types::SpecTargetApp;
use crate::types::SpecValueRef;
use crate::types::Step;
use crate::types::TargetApp;
use crate::types::ErrorHandler;
use crate::types::cond_view;
use crate::types::conds_view;
use crate::types::handlers_view;
use crate::types::lemma_conds_view;
use crate::types::lemma_steps_view;
use crate::types::step_view;
use crate::types::steps_view;

verus! {

/// Why a run failed; also the name an error handler matches on.
#[derive(Debug, Clone, Copy, PartialEq, Eq, Structural)]
pub enum RunErrorKind {
    /// No registered driver supports the script's target.
    NoDriver,
    /// A driver-level failure executing a step.
    Driver,
    /// A vault reference named a key the resolver has no entry for.
    SecretNotFound,
    /// The vault backend itself failed.
    SecretBackend,
    /// Condition evaluation could not complete.
    Evaluation,
}

/// Canonical label of a failure kind: the outcome's error string and the
/// name an error handler carries to catch that kind. Never holds a secret.
pub open spec fn kind_label(k: RunErrorKind) -> Seq<char> {
    match k {
        RunErrorKind::NoDriver => "no-driver"@,
        RunErrorKind::Driver => "driver-error"@,
        RunErrorKind::SecretNotFound => "secret-not-found"@,
        RunErrorKind::SecretBackend => "secret-backend-error"@,
        RunErrorKind::Evaluation => "evaluation-error"@,
    }
}

/// Canonical label of a failure kind.
pub fn kind_message(k: RunErrorKind) -> (r: &'static str)
    ensures
        r@ == kind_label(k),
{
    match k {
        RunErrorKind::NoDriver => "no-driver",
        RunErrorKind::Driver => "driver-error",
        RunErrorKind::SecretNotFound => "secret-not-found",
        RunErrorKind::SecretBackend => "secret-backend-error",
        RunErrorKind::Evaluation => "evaluation-error",
    }
}

/// What interpreting a step sequence does: the UI calls it makes, the page it
/// leaves, and the failure it stops on, if any.
pub struct SpecRun {
    pub events: Seq<UiAction>,
    pub page: Page,
    pub failure: Option<RunErrorKind>,
}

/// Resolution of a value reference against a resolver model: a literal
/// resolves to itself; a vault key resolves from the secret map while the
/// backend is healthy.
pub open spec fn spec_resolve(
    v: SpecValueRef,
    secrets: Map<Seq<char>, Seq<char>>,
    backend_ok: bool,
) -> Result<Seq<char>, RunErrorKind> {
    match v {
        SpecValueRef::Literal(s) => Ok(s),
        SpecValueRef::FromVault(k) => if !backend_ok {
            Err(RunErrorKind::SecretBackend)
        } else if secrets.contains_key(k) {
            Ok(secrets[k])
        } else {
            Err(RunErrorKind::SecretNotFound)
        },
    }
}

/// One driver action from page `p`: always logged; it succeeds exactly when
/// the driver's `act_ok` says so, and a failed action leaves the page as is.
pub open spec fn spec_act<D: AutomationDriver>(p: Page, a: UiAction) -> SpecRun {
    if D::act_ok(p, a) {
        SpecRun { events: seq![a], page: D::act_page(p, a), failure: None }
    } else {
        SpecRun { events: seq![a], page: p, failure: Some(RunErrorKind::Driver) }
    }
}

/// Evaluation of one condition on page `p`: the queries made, left to right
/// with short-circuiting, and the verdict (`None` when a query failed).
pub open spec fn spec_eval_cond<D: AutomationDriver>(c: SpecCondition, p: Page) -> (
    Seq<UiAction>,
    Option<bool>,
)
    decreases c,
{
    match c {
        SpecCondition::Exists(sel) => (
            seq![UiAction::QueryExists(sel)],
            if D::act_ok(p, UiAction::QueryExists(sel)) {
                Some(p.contains_key(sel))
            } else {
                None::<bool>
            },
        ),
        SpecCondition::TextEquals { selector, expected } => (
            seq![UiAction::QueryText(selector)],
            if D::act_ok(p, UiAction::QueryText(selector)) {
                Some(page_text(p, selector) == Some(expected))
            } else {
                None::<bool>
            },
        ),
        SpecCondition::And(cs) => spec_eval_conds::<D>(cs, p, false),
        SpecCondition::Or(cs) => spec_eval_conds::<D>(cs, p, true),
        SpecCondition::Not(inner) => {
            let r = spec_eval_cond::<D>(*inner, p);
            (
                r.0,
                match r.1 {
                    Some(b) => Some(!b),
                    None => None::<bool>,
                },
            )
        },
    }
}

/// Evaluate a combinator's operand sequence left to right, stopping at the
/// first `stop_at` verdict. With `stop_at` false this is conjunction, with
/// `stop_at` true it is disjunction, and an empty sequence yields the
/// combinator's identity element.
pub open spec fn spec_eval_conds<D: AutomationDriver>(
    cs: Seq<SpecCondition>,
    p: Page,
    stop_at: bool,
) -> (Seq<UiAction>, Option<bool>)
    decreases cs,
{
    if cs.len() == 0 {
        (Seq::<UiAction>::empty(), Some(!stop_at))
    } else {
        let head = spec_eval_cond::<D>(cs[0], p);
        match head.1 {
            None => (head.0, None::<bool>),
            Some(b) => if b == stop_at {
                (head.0, Some(stop_at))
            } else {
                let rest = spec_eval_conds::<D>(cs.subrange(1, cs.len() as int), p, stop_at);
                (head.0 + rest.0, rest.1)
            },
        }
    }
}

/// Interpretation of a step sequence from page `p`, left to right, stopping
/// at the first failure.
pub open spec fn spec_run_steps<D: AutomationDriver>(
    ss: Seq<SpecStep>,
    p: Page,
    secrets: Map<Seq<char>, Seq<char>>,
    backend_ok: bool,
) -> SpecRun
    decreases ss, 0nat, 0nat,
{
    if ss.len() == 0 {
        SpecRun { events: Seq::<UiAction>::empty(), page: p, failure: None }
    } else {
        let first = spec_run_step::<D>(ss[0], p, secrets, backend_ok);
        if first.failure is Some {
            first
        } else {
            let rest = spec_run_steps::<D>(
                ss.subrange(1, ss.len() as int),
                first.page,
                secrets,
                backend_ok,
            );
            SpecRun { events: first.events + rest.events, page: rest.page, failure: rest.failure }
        }
    }
}

/// Interpretation of one step from page `p`.
///
/// An input step resolves its value before any driver call, so a resolution
/// failure makes no UI call at all. A conditional evaluates its condition and
/// then runs exactly the chosen branch. A loop runs its body `times` times.
pub open spec fn spec_run_step<D: AutomationDriver>(
    s: SpecStep,
    p: Page,
    secrets: Map<Seq<char>, Seq<char>>,
    backend_ok: bool,
) -> SpecRun
    decreases s, 0nat, 0nat,
{
    match s {
        SpecStep::Click(sel) => spec_act::<D>(p, UiAction::Click(sel)),
        SpecStep::WaitFor(sel) => spec_act::<D>(p, UiAction::WaitFor(sel)),
        SpecStep::SleepMs(ms) => spec_act::<D>(p, UiAction::Sleep(ms)),
        SpecStep::Input { selector, value } => match spec_resolve(value, secrets, backend_ok) {
            Ok(text) => spec_act::<D>(p, UiAction::Input { selector, text }),
            Err(k) => SpecRun { events: Seq::<UiAction>::empty(), page: p, failure: Some(k) },
        },
        SpecStep::Conditional { condition, on_true, on_false } => {
            let ev = spec_eval_cond::<D>(condition, p);
            match ev.1 {
                None => SpecRun { events: ev.0, page: p, failure: Some(RunErrorKind::Evaluation) },
                Some(b) => {
                    let branch = spec_run_steps::<D>(
                        if b {
                            on_true
                        } else {
                            on_false
                        },
                        p,
                        secrets,
                        backend_ok,
                    );
                    SpecRun {
                        events: ev.0 + branch.events,
                        page: branch.page,
                        failure: branch.failure,
                    }
                },
            }
        },
        SpecStep::Loop { times, body } => spec_run_loop::<D>(
            body,
            times as nat,
            p,
            secrets,
            backend_ok,
        ),
    }
}

/// `n` sequential interpretations of `body`, stopping at the first failure.
pub open spec fn spec_run_loop<D: AutomationDriver>(
    body: Seq<SpecStep>,
    n: nat,
    p: Page,
    secrets: Map<Seq<char>, Seq<char>>,
    backend_ok: bool,
) -> SpecRun
    decreases body, n, 1nat,
{
    if n == 0 {
        SpecRun { events: Seq::<UiAction>::empty(), page: p, failure: None }
    } else {
        let first = spec_run_steps::<D>(body, p, secrets, backend_ok);
        if first.failure is Some {
            first
        } else {
            let rest = spec_run_loop::<D>(body, (n - 1) as nat, first.page, secrets, backend_ok);
            SpecRun { events: first.events + rest.events, page: rest.page, failure: rest.failure }
        }
    }
}

/// Index of the first handler named after `k`, if any.
pub open spec fn spec_find_handler(hs: Seq<SpecErrorHandler>, k: RunErrorKind) -> Option<int>
    decreases hs,
{
    if hs.len() == 0 {
        None::<int>
    } else if hs[0].name == kind_label(k) {
        Some(0)
    } else {
        match spec_find_handler(hs.subrange(1, hs.len() as int), k) {
            Some(i) => Some(i + 1),
            None => None::<int>,
        }
    }
}

/// The handler dispatched on failure `k`: the first handler whose name is the
/// failure's label, falling back to the first handler when none matches.
pub open spec fn spec_handler_choice(hs: Seq<SpecErrorHandler>, k: RunErrorKind) -> int {
    match spec_find_handler(hs, k) {
        Some(i) => i,
        None => 0,
    }
}

/// The whole run of a script's steps from page `p`: the main step sequence,
/// then, on failure, one dispatched error handler as the substituted
/// continuation. A failure inside the handler is terminal.
pub open spec fn spec_run_script<D: AutomationDriver>(
    script: SpecLoginScript,
    p: Page,
    secrets: Map<Seq<char>, Seq<char>>,
    backend_ok: bool,
) -> SpecRun {
    let main = spec_run_steps::<D>(script.steps, p, secrets, backend_ok);
    match main.failure {
        None => main,
        Some(k) => {
            if script.error_handlers.len() == 0 {
                main
            } else {
                let h = script.error_handlers[spec_handler_choice(script.error_handlers, k)];
                let rec = spec_run_steps::<D>(h.on_error, main.page, secrets, backend_ok);
                SpecRun { events: main.events + rec.events, page: rec.page, failure: rec.failure }
            }
        },
    }
}

/// Index of the first driver in `ds` that supports `t`, if any.
pub open spec fn spec_select<D: AutomationDriver>(ds: Seq<D>, t: SpecTargetApp) -> Option<int>
    decreases ds,
{
    if ds.len() == 0 {
        None::<int>
    } else if ds[0].supports_spec(t) {
        Some(0)
    } else {
        match spec_select::<D>(ds.subrange(1, ds.len() as int), t) {
            Some(i) => Some(i + 1),
            None => None::<int>,
        }
    }
}

/// Driver selection is deterministic first-match: `spec_select` yields
/// exactly the least index whose driver supports the target, and `None`
/// exactly when no driver does.
pub proof fn lemma_select_first_match<D: AutomationDriver>(ds: Seq<D>, t: SpecTargetApp)
    ensures
        match spec_select::<D>(ds, t) {
            Some(i) => 0 <= i < ds.len() && ds[i].supports_spec(t) && forall|j: int|
                0 <= j < i ==> !(#[trigger] ds[j]).supports_spec(t),
            None => forall|j: int| 0 <= j < ds.len() ==> !(#[trigger] ds[j]).supports_spec(t),
        },
    decreases ds.len(),
{
    if ds.len() > 0 && !ds[0].supports_spec(t) {
        let sub = ds.subrange(1, ds.len() as int);
        lemma_select_first_match::<D>(sub, t);
        match spec_select::<D>(sub, t) {
            Some(i) => {
                assert(ds[i + 1] == sub[i]);
                assert forall|j: int| 0 <= j < i + 1 implies !(#[trigger] ds[j]).supports_spec(t) by {
                    if j > 0 {
                        assert(ds[j] == sub[j - 1]);
                    }
                }
            },
            None => {
                assert forall|j: int| 0 <= j < ds.len() implies !(#[trigger] ds[j]).supports_spec(
                    t,
                ) by {
                    if j > 0 {
                        assert(ds[j] == sub[j - 1]);
                    }
                }
            },
        }
    }
}

/// A loop of zero iterations runs nothing: no UI call, no page change, no
/// failure, whatever its body holds.
pub proof fn lemma_loop_zero_is_noop<D: AutomationDriver>(
    body: Seq<SpecStep>,
    p: Page,
    secrets: Map<Seq<char>, Seq<char>>,
    backend_ok: bool,
)
    ensures
        spec_run_step::<D>(SpecStep::Loop { times: 0, body }, p, secrets, backend_ok) == (SpecRun {
            events: Seq::<UiAction>::empty(),
            page: p,
            failure: None::<RunErrorKind>,
        }),
{
}

/// A conditional runs exactly one branch per evaluation: when its condition
/// evaluates to a verdict, the step behaves as the condition's queries
/// followed by the run of the chosen branch alone — never both branches,
/// never neither.
pub proof fn lemma_conditional_one_branch<D: AutomationDriver>(
    condition: SpecCondition,
    on_true: Seq<SpecStep>,
    on_false: Seq<SpecStep>,
    p: Page,
    secrets: Map<Seq<char>, Seq<char>>,
    backend_ok: bool,
)
    requires
        spec_eval_cond::<D>(condition, p).1 is Some,
    ensures
        ({
            let ev = spec_eval_cond::<D>(condition, p);
            let chosen = if ev.1.unwrap() {
                on_true
            } else {
                on_false
            };
            let branch = spec_run_steps::<D>(chosen, p, secrets, backend_ok);
            spec_run_step::<D>(
                SpecStep::Conditional { condition, on_true, on_false },
                p,
                secrets,
                backend_ok,
            ) == (SpecRun {
                events: ev.0 + branch.events,
                page: branch.page,
                failure: branch.failure,
            })
        }),
{
}

/// Unfolding of [`spec_eval_conds`] at position `i` of a longer list.
proof fn lemma_eval_conds_unfold<D: AutomationDriver>(
    cs: Seq<SpecCondition>,
    p: Page,
    stop_at: bool,
    i: int,
)
    requires
        0 <= i < cs.len(),
    ensures
        ({
            let rest = spec_eval_conds::<D>(cs.subrange(i, cs.len() as int), p, stop_at);
            let h = spec_eval_cond::<D>(cs[i], p);
            let next = spec_eval_conds::<D>(cs.subrange(i + 1, cs.len() as int), p, stop_at);
            match h.1 {
                None => rest == (h.0, None::<bool>),
                Some(b) => if b == stop_at {
                    rest == (h.0, Some(stop_at))
                } else {
                    rest.0 == h.0 + next.0 && rest.1 == next.1
                },
            }
        }),
{
    let sub = cs.subrange(i, cs.len() as int);
    assert(sub[0] == cs[i]);
    assert(sub.subrange(1, sub.len() as int) =~= cs.subrange(i + 1, cs.len() as int));
}

/// Unfolding of [`spec_run_steps`] at position `i` of a longer list.
proof fn lemma_run_steps_unfold<D: AutomationDriver>(
    ss: Seq<SpecStep>,
    p: Page,
    secrets: Map<Seq<char>, Seq<char>>,
    backend_ok: bool,
    i: int,
)
    requires
        0 <= i < ss.len(),
    ensures
        ({
            let rest = spec_run_steps::<D>(ss.subrange(i, ss.len() as int), p, secrets, backend_ok);
            let h = spec_run_step::<D>(ss[i], p, secrets, backend_ok);
            let next = spec_run_steps::<D>(
                ss.subrange(i + 1, ss.len() as int),
                h.page,
                secrets,
                backend_ok,
            );
            if h.failure is Some {
                rest == h
            } else {
                rest.events == h.events + next.events && rest.page == next.page && rest.failure
                    == next.failure
            }
        }),
{
    let sub = ss.subrange(i, ss.len() as int);
    assert(sub[0] == ss[i]);
    assert(sub.subrange(1, sub.len() as int) =~= ss.subrange(i + 1, ss.len() as int));
}

/// Unfolding of [`spec_run_loop`] for a positive iteration count.
proof fn lemma_run_loop_unfold<D: AutomationDriver>(
    body: Seq<SpecStep>,
    n: nat,
    p: Page,
    secrets: Map<Seq<char>, Seq<char>>,
    backend_ok: bool,
)
    requires
        n > 0,
    ensures
        ({
            let total = spec_run_loop::<D>(body, n, p, secrets, backend_ok);
            let h = spec_run_steps::<D>(body, p, secrets, backend_ok);
            let next = spec_run_loop::<D>(body, (n - 1) as nat, h.page, secrets, backend_ok);
            if h.failure is Some {
                total == h
            } else {
                total.events == h.events + next.events && total.page == next.page && total.failure
                    == next.failure
            }
        }),
{
}

/// Evaluate `cond` against the driver's live page.
///
/// The driver's log grows by exactly the queries the mathematical evaluation
/// makes, the page is untouched, and the verdict is the mathematical one; a
/// query failure surfaces as a driver error and an undecided verdict.
pub fn eval_condition<D: AutomationDriver>(driver: &mut D, cond: &Condition) -> (r: Result<
    bool,
    DriverError,
>)
    ensures
        ({
            let sr = spec_eval_cond::<D>(cond@, old(driver).page());
            &&& final(driver).log() == old(driver).log() + sr.0
            &&& final(driver).page() == old(driver).page()
            &&& final(driver).token() == old(driver).token()
            &&& (r matches Ok(b) ==> sr.1 == Some(b))
            &&& (r is Ok <==> sr.1 is Some)
        }),
    decreases *cond,
{
    match cond {
        Condition::Exists(sel) => {
            let out = driver.element_exists(sel);
            proof {
                assert(old(driver).log().push(UiAction::QueryExists(sel@)) =~= old(driver).log()
                    + seq![UiAction::QueryExists(sel@)]);
            }
            out
        },
        Condition::TextEquals { selector, expected } => {
            let out = driver.text_of(selector);
            proof {
                assert(old(driver).log().push(UiAction::QueryText(selector@)) =~= old(driver).log()
                    + seq![UiAction::QueryText(selector@)]);
            }
            match out {
                Ok(t) => {
                    let b = match &t {
                        Some(actual) => actual.eq(expected),
                        None => false,
                    };
                    Ok(b)
                },
                Err(e) => Err(e),
            }
        },
        Condition::And(cs) => {
            proof {
                assert(*cond == Condition::And(*cs));
                assert(decreases_to!(*cond => *cs));
                assert(decreases_to!(*cs => cs@));
            }
            eval_conditions::<D>(driver, cs, false)
        },
        Condition::Or(cs) => {
            proof {
                assert(*cond == Condition::Or(*cs));
                assert(decreases_to!(*cond => *cs));
                assert(decreases_to!(*cs => cs@));
            }
            eval_conditions::<D>(driver, cs, true)
        },
        Condition::Not(inner) => {
            match eval_condition::<D>(driver, &**inner) {
                Ok(b) => Ok(!b),
                Err(e) => Err(e),
            }
        },
    }
}

/// Evaluate a combinator's operand list left to right, stopping at the first
/// `stop_at` verdict.
#[verifier::loop_isolation(false)]
pub fn eval_conditions<D: AutomationDriver>(driver: &mut D, cs: &Vec<Condition>, stop_at: bool) -> (r:
    Result<bool, DriverError>)
    ensures
        ({
            let sr = spec_eval_conds::<D>(conds_view(cs@), old(driver).page(), stop_at);
            &&& final(driver).log() == old(driver).log() + sr.0
            &&& final(driver).page() == old(driver).page()
            &&& final(driver).token() == old(driver).token()
            &&& (r matches Ok(b) ==> sr.1 == Some(b))
            &&& (r is Ok <==> sr.1 is Some)
        }),
    decreases cs@,
{
    let ghost p0 = driver.page();
    let ghost log0 = driver.log();
    let ghost tok0 = driver.token();
    let ghost whole = conds_view(cs@);
    proof {
        lemma_conds_view(cs@);
    }
    let ghost mut ev: Seq<UiAction> = Seq::empty();
    proof {
        assert(whole.subrange(0, whole.len() as int) =~= whole);
        assert(log0 + Seq::<UiAction>::empty() =~= log0);
        assert(Seq::<UiAction>::empty() + spec_eval_conds::<D>(whole, p0, stop_at).0
            =~= spec_eval_conds::<D>(whole, p0, stop_at).0);
    }
    let mut i: usize = 0;
    while i < cs.len()
        invariant
            i <= cs.len(),
            whole == conds_view(cs@),
            whole.len() == cs@.len(),
            forall|n: int| 0 <= n < cs@.len() ==> whole[n] == cond_view(cs@[n]),
            driver.page() == p0,
            driver.token() == tok0,
            driver.log() == log0 + ev,
            ({
                let total = spec_eval_conds::<D>(whole, p0, stop_at);
                let rest = spec_eval_conds::<D>(
                    whole.subrange(i as int, whole.len() as int),
                    p0,
                    stop_at,
                );
                total.0 == ev + rest.0 && total.1 == rest.1
            }),
        decreases cs@.len() - i,
    {
        let ghost h = spec_eval_cond::<D>(whole[i as int], p0);
        proof {
            lemma_eval_conds_unfold::<D>(whole, p0, stop_at, i as int);
        }
        let head_r = eval_condition::<D>(driver, &cs[i]);
        match head_r {
            Err(e) => {
                proof {
                    assert((log0 + ev) + h.0 =~= log0 + (ev + h.0));
                }
                return Err(e);
            },
            Ok(b) => {
                if b == stop_at {
                    proof {
                        assert((log0 + ev) + h.0 =~= log0 + (ev + h.0));
                    }
                    return Ok(b);
                }
                proof {
                    let next = spec_eval_conds::<D>(
                        whole.subrange(i + 1 as int, whole.len() as int),
                        p0,
                        stop_at,
                    );
                    assert((log0 + ev) + h.0 =~= log0 + (ev + h.0));
                    assert((ev + h.0) + next.0 =~= ev + (h.0 + next.0));
                    ev = ev + h.0;
                }
                i += 1;
            },
        }
    }
    proof {
        assert(whole.subrange(cs@.len() as int, whole.len() as int) =~= Seq::<
            SpecCondition,
        >::empty());
        assert(ev + Seq::<UiAction>::empty() =~= ev);
    }
    Ok(!stop_at)
}

/// Run one step against the driver, resolving input values on the way.
#[verifier::loop_isolation(false)]
pub fn run_step<D: AutomationDriver, R: SecretResolver>(
    driver: &mut D,
    resolver: &R,
    step: &Step,
) -> (r: Result<(), RunErrorKind>)
    ensures
        ({
            let sr = spec_run_step::<D>(
                step@,
                old(driver).page(),
                resolver.secrets(),
                resolver.backend_ok(),
            );
            &&& final(driver).log() == old(driver).log() + sr.events
            &&& final(driver).page() == sr.page
            &&& (r is Ok <==> sr.failure is None)
            &&& (r matches Err(k) ==> sr.failure == Some(k))
        }),
    decreases *step,
{
    match step {
        Step::Click(sel) => {
            let out = driver.click(sel);
            proof {
                assert(old(driver).log().push(UiAction::Click(sel@)) =~= old(driver).log()
                    + seq![UiAction::Click(sel@)]);
            }
            match out {
                Ok(u) => Ok(u),
                Err(_) => Err(RunErrorKind::Driver),
            }
        },
        Step::WaitFor(sel) => {
            let out = driver.wait_for(sel);
            proof {
                assert(old(driver).log().push(UiAction::WaitFor(sel@)) =~= old(driver).log()
                    + seq![UiAction::WaitFor(sel@)]);
            }
            match out {
                Ok(u) => Ok(u),
                Err(_) => Err(RunErrorKind::Driver),
            }
        },
        Step::SleepMs(ms) => {
            let out = driver.sleep_ms(*ms);
            proof {
                assert(old(driver).log().push(UiAction::Sleep(*ms)) =~= old(driver).log()
                    + seq![UiAction::Sleep(*ms)]);
            }
            match out {
                Ok(u) => Ok(u),
                Err(_) => Err(RunErrorKind::Driver),
            }
        },
        Step::Input { selector, value } => {
            match resolve_value(resolver, value) {
                Ok(text) => {
                    let out = driver.input(selector, text.as_str());
                    proof {
                        assert(old(driver).log().push(
                            UiAction::Input { selector: selector@, text: text@ },
                        ) =~= old(driver).log() + seq![UiAction::Input {
                            selector: selector@,
                            text: text@,
                        }]);
                    }
                    match out {
                        Ok(u) => Ok(u),
                        Err(_) => Err(RunErrorKind::Driver),
                    }
                },
                Err(ResolveError::SecretNotFound) => {
                    proof {
                        assert(old(driver).log() + Seq::<UiAction>::empty() =~= old(driver).log());
                    }
                    Err(RunErrorKind::SecretNotFound)
                },
                Err(ResolveError::SecretBackendError) => {
                    proof {
                        assert(old(driver).log() + Seq::<UiAction>::empty() =~= old(driver).log());
                    }
                    Err(RunErrorKind::SecretBackend)
                },
            }
        },
        Step::Conditional { condition, on_true, on_false } => {
            let verdict = eval_condition::<D>(driver, condition);
            match verdict {
                Err(_) => {
                    Err(RunErrorKind::Evaluation)
                },
                Ok(b) => {
                    let ghost ev = spec_eval_cond::<D>(condition@, old(driver).page()).0;
                    let branch = if b {
                        on_true
                    } else {
                        on_false
                    };
                    proof {
                        assert(*step == Step::Conditional {
                            condition: *condition,
                            on_true: *on_true,
                            on_false: *on_false,
                        });
                        assert(decreases_to!(*step => *branch));
                        assert(decreases_to!(*branch => branch@));
                    }
                    let out = run_steps::<D, R>(driver, resolver, branch);
                    proof {
                        let br = spec_run_steps::<D>(
                            steps_view(branch@),
                            old(driver).page(),
                            resolver.secrets(),
                            resolver.backend_ok(),
                        );
                        assert((old(driver).log() + ev) + br.events =~= old(driver).log() + (ev
                            + br.events));
                    }
                    out
                },
            }
        },
        Step::Loop { times, body } => {
            let t: u32 = *times;
            let ghost p_start = driver.page();
            let ghost log_start = driver.log();
            let ghost bodyv = steps_view(body@);
            let ghost mut ev: Seq<UiAction> = Seq::empty();
            proof {
                assert(log_start + Seq::<UiAction>::empty() =~= log_start);
                assert(Seq::<UiAction>::empty() + spec_run_loop::<D>(
                    bodyv,
                    t as nat,
                    p_start,
                    resolver.secrets(),
                    resolver.backend_ok(),
                ).events =~= spec_run_loop::<D>(
                    bodyv,
                    t as nat,
                    p_start,
                    resolver.secrets(),
                    resolver.backend_ok(),
                ).events);
            }
            let mut k: u32 = 0;
            while k < t
                invariant
                    k <= t,
                    driver.log() == log_start + ev,
                    ({
                        let total = spec_run_loop::<D>(
                            bodyv,
                            t as nat,
                            p_start,
                            resolver.secrets(),
                            resolver.backend_ok(),
                        );
                        let rest = spec_run_loop::<D>(
                            bodyv,
                            (t - k) as nat,
                            driver.page(),
                            resolver.secrets(),
                            resolver.backend_ok(),
                        );
                        total.events == ev + rest.events && total.page == rest.page
                            && total.failure == rest.failure
                    }),
                decreases t - k,
            {
                let ghost p_before = driver.page();
                proof {
                    lemma_run_loop_unfold::<D>(
                        bodyv,
                        (t - k) as nat,
                        p_before,
                        resolver.secrets(),
                        resolver.backend_ok(),
                    );
                }
                proof {
                    assert(*step == Step::Loop { times: t, body: *body });
                    assert(decreases_to!(*step => *body));
                    assert(decreases_to!(*body => body@));
                }
                let out = run_steps::<D, R>(driver, resolver, body);
                match out {
                    Ok(u) => {
                        proof {
                            let h = spec_run_steps::<D>(
                                bodyv,
                                p_before,
                                resolver.secrets(),
                                resolver.backend_ok(),
                            );
                            let next = spec_run_loop::<D>(
                                bodyv,
                                (t - k - 1) as nat,
                                h.page,
                                resolver.secrets(),
                                resolver.backend_ok(),
                            );
                            assert((log_start + ev) + h.events =~= log_start + (ev + h.events));
                            assert((ev + h.events) + next.events =~= ev + (h.events + next.events));
                            ev = ev + h.events;
                        }
                        k += 1;
                    },
                    Err(k2) => {
                        proof {
                            let h = spec_run_steps::<D>(
                                bodyv,
                                p_before,
                                resolver.secrets(),
                                resolver.backend_ok(),
                            );
                            assert((log_start + ev) + h.events =~= log_start + (ev + h.events));
                        }
                        return Err(k2);
                    },
                }
            }
            proof {
                assert(ev + Seq::<UiAction>::empty() =~= ev);
            }
            Ok(())
        },
    }
}

/// Run a step sequence against the driver, left to right, stopping at the
/// first failure.
#[verifier::loop_isolation(false)]
pub fn run_steps<D: AutomationDriver, R: SecretResolver>(
    driver: &mut D,
    resolver: &R,
    steps: &Vec<Step>,
) -> (r: Result<(), RunErrorKind>)
    ensures
        ({
            let sr = spec_run_steps::<D>(
                steps_view(steps@),
                old(driver).page(),
                resolver.secrets(),
                resolver.backend_ok(),
            );
            &&& final(driver).log() == old(driver).log() + sr.events
            &&& final(driver).page() == sr.page
            &&& (r is Ok <==> sr.failure is None)
            &&& (r matches Err(k) ==> sr.failure == Some(k))
        }),
    decreases steps@,
{
    let ghost p0 = driver.page();
    let ghost log0 = driver.log();
    let ghost whole = steps_view(steps@);
    proof {
        lemma_steps_view(steps@);
    }
    let ghost mut ev: Seq<UiAction> = Seq::empty();
    proof {
        assert(whole.subrange(0, whole.len() as int) =~= whole);
        assert(log0 + Seq::<UiAction>::empty() =~= log0);
        assert(Seq::<UiAction>::empty() + spec_run_steps::<D>(
            whole,
            p0,
            resolver.secrets(),
            resolver.backend_ok(),
        ).events =~= spec_run_steps::<D>(whole, p0, resolver.secrets(), resolver.backend_ok()).events);
    }
    let mut i: usize = 0;
    while i < steps.len()
        invariant
            i <= steps.len(),
            whole == steps_view(steps@),
            whole.len() == steps@.len(),
            forall|n: int| 0 <= n < steps@.len() ==> whole[n] == step_view(steps@[n]),
            driver.log() == log0 + ev,
            ({
                let total = spec_run_steps::<D>(
                    whole,
                    p0,
                    resolver.secrets(),
                    resolver.backend_ok(),
                );
                let rest = spec_run_steps::<D>(
                    whole.subrange(i as int, whole.len() as int),
                    driver.page(),
                    resolver.secrets(),
                    resolver.backend_ok(),
                );
                total.events == ev + rest.events && total.page == rest.page && total.failure
                    == rest.failure
            }),
        decreases steps@.len() - i,
    {
        let ghost p_before = driver.page();
        proof {
            lemma_run_steps_unfold::<D>(
                whole,
                p_before,
                resolver.secrets(),
                resolver.backend_ok(),
                i as int,
            );
        }
        let out = run_step::<D, R>(driver, resolver, &steps[i]);
        match out {
            Ok(u) => {
                proof {
                    let h = spec_run_step::<D>(
                        whole[i as int],
                        p_before,
                        resolver.secrets(),
                        resolver.backend_ok(),
                    );
                    let next = spec_run_steps::<D>(
                        whole.subrange(i + 1 as int, whole.len() as int),
                        h.page,
                        resolver.secrets(),
                        resolver.backend_ok(),
                    );
                    assert((log0 + ev) + h.events =~= log0 + (ev + h.events));
                    assert((ev + h.events) + next.events =~= ev + (h.events + next.events));
                    ev = ev + h.events;
                }
                i += 1;
            },
            Err(k2) => {
                proof {
                    let h = spec_run_step::<D>(
                        whole[i as int],
                        p_before,
                        resolver.secrets(),
                        resolver.backend_ok(),
                    );
                    assert((log0 + ev) + h.events =~= log0 + (ev + h.events));
                }
                return Err(k2);
            },
        }
    }
    proof {
        assert(whole.subrange(steps@.len() as int, whole.len() as int) =~= Seq::<
            SpecStep,
        >::empty());
        assert(ev + Seq::<UiAction>::empty() =~= ev);
    }
    Ok(())
}

/// `spec_find_handler` yields exactly the least index whose handler is named
/// after the failure kind, and `None` exactly when no handler is.
pub proof fn lemma_find_handler_first_match(hs: Seq<SpecErrorHandler>, k: RunErrorKind)
    ensures
        match spec_find_handler(hs, k) {
            Some(i) => 0 <= i < hs.len() && hs[i].name == kind_label(k) && forall|j: int|
                0 <= j < i ==> (#[trigger] hs[j]).name != kind_label(k),
            None => forall|j: int| 0 <= j < hs.len() ==> (#[trigger] hs[j]).name != kind_label(k),
        },
    decreases hs.len(),
{
    if hs.len() > 0 && hs[0].name != kind_label(k) {
        let sub = hs.subrange(1, hs.len() as int);
        lemma_find_handler_first_match(sub, k);
        match spec_find_handler(sub, k) {
            Some(i) => {
                assert(hs[i + 1] == sub[i]);
                assert forall|j: int| 0 <= j < i + 1 implies (#[trigger] hs[j]).name != kind_label(
                    k,
                ) by {
                    if j > 0 {
                        assert(hs[j] == sub[j - 1]);
                    }
                }
            },
            None => {
                assert forall|j: int| 0 <= j < hs.len() implies (#[trigger] hs[j]).name
                    != kind_label(k) by {
                    if j > 0 {
                        assert(hs[j] == sub[j - 1]);
                    }
                }
            },
        }
    }
}

/// Index of the handler dispatched for failure `k`: the first whose name is
/// the failure's label, else the first handler.
#[verifier::loop_isolation(false)]
fn find_handler(handlers: &Vec<ErrorHandler>, k: RunErrorKind) -> (r: usize)
    requires
        handlers@.len() > 0,
    ensures
        r < handlers@.len(),
        r as int == spec_handler_choice(handlers_view(handlers@), k),
{
    proof {
        lemma_find_handler_first_match(handlers_view(handlers@), k);
    }
    let label: String = kind_message(k).to_owned();
    let mut i: usize = 0;
    while i < handlers.len()
        invariant
            i <= handlers@.len(),
            label@ == kind_label(k),
            forall|j: int| 0 <= j < i ==> (#[trigger] handlers_view(handlers@)[j]).name
                != kind_label(k),
        decreases handlers@.len() - i,
    {
        if handlers[i].name.eq(&label) {
            proof {
                assert(handlers_view(handlers@)[i as int] == handlers@[i as int]@);
                assert(handlers_view(handlers@)[i as int].name == kind_label(k));
            }
            return i;
        }
        i += 1;
    }
    0
}

/// The engine: an ordered driver registry plus the captcha dispatch point.
///
/// Drivers are registered before the first run; a run borrows the script
/// read-only and touches exactly one driver, the first whose capability
/// matches the script's target.
pub struct AutomationEngine<D: AutomationDriver, C: CaptchaHandler> {
    drivers: Vec<D>,
    captcha: C,
}

impl<D: AutomationDriver, C: CaptchaHandler> AutomationEngine<D, C> {
    /// The registered drivers, in registration order.
    pub closed spec fn drivers_view(&self) -> Seq<D> {
        self.drivers@
    }

    /// The configured captcha handler.
    pub closed spec fn captcha_view(&self) -> C {
        self.captcha
    }

    /// An engine over the given drivers, tried in order, and one captcha
    /// handler.
    pub fn new(drivers: Vec<D>, captcha: C) -> (r: AutomationEngine<D, C>)
        ensures
            r.drivers_view() == drivers@,
            r.captcha_view() == captcha,
    {
        AutomationEngine { drivers, captcha }
    }

    /// Register one more driver, tried after all those already registered.
    pub fn register_driver(&mut self, driver: D)
        ensures
            final(self).drivers_view() == old(self).drivers_view().push(driver),
            final(self).captcha_view() == old(self).captcha_view(),
    {
        self.drivers.push(driver);
    }

    /// Index of the first registered driver that supports `target`.
    #[verifier::loop_isolation(false)]
    pub fn select_driver(&self, target: &TargetApp) -> (r: Option<usize>)
        ensures
            match r {
                Some(i) => spec_select::<D>(self.drivers_view(), target@) == Some(i as int),
                None => spec_select::<D>(self.drivers_view(), target@) is None,
            },
    {
        proof {
            lemma_select_first_match::<D>(self.drivers@, target@);
        }
        let mut i: usize = 0;
        while i < self.drivers.len()
            invariant
                i <= self.drivers@.len(),
                forall|j: int| 0 <= j < i ==> !(#[trigger] self.drivers@[j]).supports_spec(
                    target@,
                ),
            decreases self.drivers@.len() - i,
        {
            if self.drivers[i].supports(target) {
                return Some(i);
            }
            i += 1;
        }
        None
    }

    /// Single dispatch point for captcha solving: hand one challenge to the
    /// configured strategy and return its solution, tagged with provenance.
    pub fn solve_captcha(&self, challenge: CaptchaChallenge) -> (r: Result<
        CaptchaSolution,
        CaptchaError,
    >)
        ensures
            r is Ok <==> self.captcha_view().response_for(challenge@) is Some,
            r matches Ok(sol) ==> sol@.challenge == challenge@ && Some(sol@.response)
                == self.captcha_view().response_for(challenge@) && sol@.strategy
                == self.captcha_view().strategy(),
    {
        self.captcha.solve(challenge)
    }

    /// Run a login script: the sole entry point.
    ///
    /// A script with no steps succeeds trivially, with no driver touched.
    /// Otherwise the first driver supporting the target interprets the steps;
    /// no supporting driver is a terminal failure. The outcome carries the
    /// driver's session token on success and the failure kind's label on
    /// failure — never a secret.
    pub fn run<R: SecretResolver>(&mut self, script: &LoginScript, resolver: &R) -> (outcome:
        LoginOutcome)
        ensures
            final(self).captcha_view() == old(self).captcha_view(),
            final(self).drivers_view().len() == old(self).drivers_view().len(),
            script@.steps.len() == 0 ==> final(self).drivers_view() == old(self).drivers_view()
                && outcome@ == (SpecLoginOutcome {
                success: true,
                session_token: None::<Seq<char>>,
                error: None::<Seq<char>>,
            }),
            script@.steps.len() > 0 && spec_select::<D>(
                old(self).drivers_view(),
                script@.target,
            ) is None ==> final(self).drivers_view() == old(self).drivers_view() && outcome@ == (
            SpecLoginOutcome {
                success: false,
                session_token: None::<Seq<char>>,
                error: Some(kind_label(RunErrorKind::NoDriver)),
            }),
            script@.steps.len() > 0 ==> (spec_select::<D>(
                old(self).drivers_view(),
                script@.target,
            ) matches Some(i) ==> ({
                let d0 = old(self).drivers_view()[i];
                let sr = spec_run_script::<D>(
                    script@,
                    d0.page(),
                    resolver.secrets(),
                    resolver.backend_ok(),
                );
                &&& forall|j: int|
                    0 <= j < old(self).drivers_view().len() && j != i
                        ==> final(self).drivers_view()[j] == old(self).drivers_view()[j]
                &&& final(self).drivers_view()[i].log() == d0.log() + sr.events
                &&& final(self).drivers_view()[i].page() == sr.page
                &&& (sr.failure is None ==> outcome@.success && outcome@.session_token == Some(
                    final(self).drivers_view()[i].token(),
                ) && outcome@.error is None)
                &&& (sr.failure matches Some(k) ==> !outcome@.success && outcome@.session_token
                    is None && outcome@.error == Some(kind_label(k)))
            })),
    {
        proof {
            lemma_steps_view(script.steps@);
        }
        if script.steps.len() == 0 {
            return LoginOutcome { success: true, session_token: None, error: None };
        }
        let sel = self.select_driver(&script.target);
        match sel {
            None => LoginOutcome {
                success: false,
                session_token: None,
                error: Some(kind_message(RunErrorKind::NoDriver).to_owned()),
            },
            Some(i) => {
                proof {
                    lemma_select_first_match::<D>(self.drivers@, script.target@);
                }
                let mut d = self.drivers.remove(i);
                let ghost d0 = old(self).drivers_view()[i as int];
                let ghost sr = spec_run_script::<D>(
                    script@,
                    d0.page(),
                    resolver.secrets(),
                    resolver.backend_ok(),
                );
                let ghost main_sr = spec_run_steps::<D>(
                    script@.steps,
                    d0.page(),
                    resolver.secrets(),
                    resolver.backend_ok(),
                );
                let main = run_steps::<D, R>(&mut d, resolver, &script.steps);
                let handled: Result<(), RunErrorKind> = match main {
                    Ok(u) => Ok(u),
                    Err(k) => {
                        if script.error_handlers.len() == 0 {
                            Err(k)
                        } else {
                            let hi = find_handler(&script.error_handlers, k);
                            let rec = run_steps::<D, R>(
                                &mut d,
                                resolver,
                                &script.error_handlers[hi].on_error,
                            );
                            proof {
                                let recovery = spec_run_steps::<D>(
                                    script@.error_handlers[hi as int].on_error,
                                    main_sr.page,
                                    resolver.secrets(),
                                    resolver.backend_ok(),
                                );
                                assert((d0.log() + main_sr.events) + recovery.events =~= d0.log()
                                    + (main_sr.events + recovery.events));
                            }
                            rec
                        }
                    },
                };
                let outcome = match handled {
                    Ok(_) => LoginOutcome {
                        success: true,
                        session_token: Some(d.session_token()),
                        error: None,
                    },
                    Err(k2) => LoginOutcome {
                        success: false,
                        session_token: None,
                        error: Some(kind_message(k2).to_owned()),
                    },
                };
                let ghost d_final = d;
                self.drivers.insert(i, d);
                proof {
                    assert(self.drivers@ =~= old(self).drivers_view().update(i as int, d_final));
                }
                outcome
            },
        }
    }
}

impl AutomationEngine<crate::driver::BuiltinDriver, crate::captcha::NoopCaptcha> {
    /// An engine usable out of the box: the built-in web and Android stubs
    /// over empty surfaces, tried in that order, and the no-op captcha
    /// handler.
    pub fn with_defaults() -> (r: AutomationEngine<
        crate::driver::BuiltinDriver,
        crate::captcha::NoopCaptcha,
    >)
        ensures
            r.drivers_view().len() == 2,
            forall|t: SpecTargetApp|
                (#[trigger] r.drivers_view()[0].supports_spec(t)) <==> t.kind
                    == crate::types::TargetAppKind::Web,
            forall|t: SpecTargetApp|
                (#[trigger] r.drivers_view()[1].supports_spec(t)) <==> t.kind
                    == crate::types::TargetAppKind::Android,
            r.drivers_view()[0].log() == Seq::<UiAction>::empty(),
            r.drivers_view()[1].log() == Seq::<UiAction>::empty(),
    {
        let web = crate::driver::BuiltinDriver::Web(crate::driver::WebDriverStub::new(Vec::new()));
        let android = crate::driver::BuiltinDriver::Android(
            crate::driver::AndroidDriverStub::new(Vec::new()),
        );
        let drivers = vec![web, android];
        AutomationEngine::new(drivers, crate::captcha::NoopCaptcha)
    }
}

impl Default for AutomationEngine<crate::driver::BuiltinDriver, crate::captcha::NoopCaptcha> {
    /// The out-of-the-box engine of [`AutomationEngine::with_defaults`].
    fn default() -> (r: AutomationEngine<
        crate::driver::BuiltinDriver,
        crate::captcha::NoopCaptcha,
    >)
        ensures
            r.drivers_view().len() == 2,
    {
        AutomationEngine::with_defaults()
    }
}

/// The boolean combinators keep their identity elements: an empty
/// conjunction evaluates to true and an empty disjunction to false, with no
/// query made either way.
pub proof fn lemma_empty_combinators<D: AutomationDriver>(p: Page)
    ensures
        spec_eval_cond::<D>(SpecCondition::And(Seq::<SpecCondition>::empty()), p) == (
            Seq::<UiAction>::empty(),
            Some(true),
        ),
        spec_eval_cond::<D>(SpecCondition::Or(Seq::<SpecCondition>::empty()), p) == (
            Seq::<UiAction>::empty(),
            Some(false),
        ),
{
    assert(spec_eval_conds::<D>(Seq::<SpecCondition>::empty(), p, false) == (
        Seq::<UiAction>::empty(),
        Some(true),
    ));
    assert(spec_eval_conds::<D>(Seq::<SpecCondition>::empty(), p, true) == (
        Seq::<UiAction>::empty(),
        Some(false),
    ));
}

} // verus!
