//! The script model: immutable data describing a declarative login flow.
//!
//! Every executable type has a mathematical mirror (`Spec...`) used by the
//! contracts of the evaluator, the engine and the codec.

use vstd::prelude::*;

verus! {

/// Platform family a script targets.
#[derive(Debug, Clone, Copy, PartialEq, Eq, Structural)]
pub enum TargetAppKind {
    Web,
    Android,
}

/// Identifies the application a login script automates.
#[derive(Debug, PartialEq, Eq)]
pub struct TargetApp {
    pub kind: TargetAppKind,
    pub name: String,
    pub version: Option<String>,
    pub endpoint: Option<String>,
}

/// Mathematical value of a [`TargetApp`].
pub struct SpecTargetApp {
    pub kind: TargetAppKind,
    pub name: Seq<char>,
    pub version: Option<Seq<char>>,
    pub endpoint: Option<Seq<char>>,
}

impl View for TargetApp {
    type V = SpecTargetApp;

    open spec fn view(&self) -> SpecTargetApp {
        SpecTargetApp {
            kind: self.kind,
            name: self.name@,
            version: self.version.deep_view(),
            endpoint: self.endpoint.deep_view(),
        }
    }
}

/// Platform-agnostic descriptor of a UI element's location.
#[derive(Debug, PartialEq, Eq)]
pub enum Selector {
    Css(String),
    XPath(String),
    AccessibilityId(String),
    Image(String),
    Coordinates { x: i32, y: i32 },
}

/// Mathematical value of a [`Selector`].
pub enum SpecSelector {
    Css(Seq<char>),
    XPath(Seq<char>),
    AccessibilityId(Seq<char>),
    Image(Seq<char>),
    Coordinates { x: i32, y: i32 },
}

impl View for Selector {
    type V = SpecSelector;

    open spec fn view(&self) -> SpecSelector {
        match self {
            Selector::Css(s) => SpecSelector::Css(s@),
            Selector::XPath(s) => SpecSelector::XPath(s@),
            Selector::AccessibilityId(s) => SpecSelector::AccessibilityId(s@),
            Selector::Image(s) => SpecSelector::Image(s@),
            Selector::Coordinates { x, y } => SpecSelector::Coordinates { x: *x, y: *y },
        }
    }
}

/// A value used by an `Input` step: either inline text or a vault reference,
/// resolved immediately before use and never cached across steps.
#[derive(Debug, PartialEq, Eq)]
pub enum ValueRef {
    Literal(String),
    FromVault(String),
}

/// Mathematical value of a [`ValueRef`].
pub enum SpecValueRef {
    Literal(Seq<char>),
    FromVault(Seq<char>),
}

impl View for ValueRef {
    type V = SpecValueRef;

    open spec fn view(&self) -> SpecValueRef {
        match self {
            ValueRef::Literal(s) => SpecValueRef::Literal(s@),
            ValueRef::FromVault(s) => SpecValueRef::FromVault(s@),
        }
    }
}

/// Boolean condition over live driver state.
#[derive(Debug, PartialEq, Eq)]
pub enum Condition {
    Exists(Selector),
    TextEquals { selector: Selector, expected: String },
    And(Vec<Condition>),
    Or(Vec<Condition>),
    Not(Box<Condition>),
}

/// Mathematical value of a [`Condition`].
pub enum SpecCondition {
    Exists(SpecSelector),
    TextEquals { selector: SpecSelector, expected: Seq<char> },
    And(Seq<SpecCondition>),
    Or(Seq<SpecCondition>),
    Not(Box<SpecCondition>),
}

/// Mathematical value of a [`Condition`].
pub open spec fn cond_view(c: Condition) -> SpecCondition
    decreases c,
{
    match c {
        Condition::Exists(sel) => SpecCondition::Exists(sel@),
        Condition::TextEquals { selector, expected } => SpecCondition::TextEquals {
            selector: selector@,
            expected: expected@,
        },
        Condition::And(cs) => SpecCondition::And(conds_view(cs@)),
        Condition::Or(cs) => SpecCondition::Or(conds_view(cs@)),
        Condition::Not(c0) => SpecCondition::Not(Box::new(cond_view(*c0))),
    }
}

/// Element-wise [`cond_view`] over a sequence of conditions.
pub open spec fn conds_view(cs: Seq<Condition>) -> Seq<SpecCondition>
    decreases cs,
{
    if cs.len() == 0 {
        Seq::empty()
    } else {
        conds_view(cs.subrange(0, cs.len() - 1)).push(cond_view(cs[cs.len() - 1]))
    }
}

/// [`conds_view`] preserves length and maps elements one for one.
pub broadcast proof fn lemma_conds_view(cs: Seq<Condition>)
    ensures
        (#[trigger] conds_view(cs)).len() == cs.len(),
        forall|i: int| 0 <= i < cs.len() ==> conds_view(cs)[i] == cond_view(cs[i]),
    decreases cs,
{
    if cs.len() > 0 {
        lemma_conds_view(cs.subrange(0, cs.len() - 1));
    }
}

impl View for Condition {
    type V = SpecCondition;

    open spec fn view(&self) -> SpecCondition {
        cond_view(*self)
    }
}

/// One step of a login flow. Steps nest arbitrarily deep inside
/// `Conditional` and `Loop`; a script is a tree, never a graph.
#[derive(Debug, PartialEq, Eq)]
pub enum Step {
    Click(Selector),
    Input { selector: Selector, value: ValueRef },
    WaitFor(Selector),
    SleepMs(u64),
    Conditional { condition: Condition, on_true: Vec<Step>, on_false: Vec<Step> },
    Loop { times: u32, body: Vec<Step> },
}

/// Mathematical value of a [`Step`].
pub enum SpecStep {
    Click(SpecSelector),
    Input { selector: SpecSelector, value: SpecValueRef },
    WaitFor(SpecSelector),
    SleepMs(u64),
    Conditional { condition: SpecCondition, on_true: Seq<SpecStep>, on_false: Seq<SpecStep> },
    Loop { times: u32, body: Seq<SpecStep> },
}

/// Mathematical value of a [`Step`].
pub open spec fn step_view(s: Step) -> SpecStep
    decreases s,
{
    match s {
        Step::Click(sel) => SpecStep::Click(sel@),
        Step::Input { selector, value } => SpecStep::Input { selector: selector@, value: value@ },
        Step::WaitFor(sel) => SpecStep::WaitFor(sel@),
        Step::SleepMs(ms) => SpecStep::SleepMs(ms),
        Step::Conditional { condition, on_true, on_false } => SpecStep::Conditional {
            condition: condition@,
            on_true: steps_view(on_true@),
            on_false: steps_view(on_false@),
        },
        Step::Loop { times, body } => SpecStep::Loop { times, body: steps_view(body@) },
    }
}

/// Element-wise [`step_view`] over a sequence of steps.
pub open spec fn steps_view(ss: Seq<Step>) -> Seq<SpecStep>
    decreases ss,
{
    if ss.len() == 0 {
        Seq::empty()
    } else {
        steps_view(ss.subrange(0, ss.len() - 1)).push(step_view(ss[ss.len() - 1]))
    }
}

/// [`steps_view`] preserves length and maps elements one for one.
pub broadcast proof fn lemma_steps_view(ss: Seq<Step>)
    ensures
        (#[trigger] steps_view(ss)).len() == ss.len(),
        forall|i: int| 0 <= i < ss.len() ==> steps_view(ss)[i] == step_view(ss[i]),
    decreases ss,
{
    if ss.len() > 0 {
        lemma_steps_view(ss.subrange(0, ss.len() - 1));
    }
}

impl View for Step {
    type V = SpecStep;

    open spec fn view(&self) -> SpecStep {
        step_view(*self)
    }
}

/// Identity of a script: `(id, version)` is the storage key.
#[derive(Debug, PartialEq, Eq)]
pub struct ScriptMeta {
    pub id: String,
    pub version: String,
    pub author: Option<String>,
    pub created_at: Option<String>,
    pub updated_at: Option<String>,
}

/// Mathematical value of a [`ScriptMeta`].
pub struct SpecScriptMeta {
    pub id: Seq<char>,
    pub version: Seq<char>,
    pub author: Option<Seq<char>>,
    pub created_at: Option<Seq<char>>,
    pub updated_at: Option<Seq<char>>,
}

impl View for ScriptMeta {
    type V = SpecScriptMeta;

    open spec fn view(&self) -> SpecScriptMeta {
        SpecScriptMeta {
            id: self.id@,
            version: self.version@,
            author: self.author.deep_view(),
            created_at: self.created_at.deep_view(),
            updated_at: self.updated_at.deep_view(),
        }
    }
}

/// A named post-condition a script author expects to hold after a run;
/// checked by the caller, not by the engine core.
#[derive(Debug, PartialEq, Eq)]
pub struct Validation {
    pub description: String,
    pub condition: Condition,
}

/// Mathematical value of a [`Validation`].
pub struct SpecValidation {
    pub description: Seq<char>,
    pub condition: SpecCondition,
}

impl View for Validation {
    type V = SpecValidation;

    open spec fn view(&self) -> SpecValidation {
        SpecValidation { description: self.description@, condition: self.condition@ }
    }
}

/// Element-wise view over a sequence of validations.
pub open spec fn validations_view(vs: Seq<Validation>) -> Seq<SpecValidation> {
    Seq::new(vs.len(), |i: int| vs[i]@)
}

/// Named recovery step-sequence, selected when a step fails.
#[derive(Debug, PartialEq, Eq)]
pub struct ErrorHandler {
    pub name: String,
    pub on_error: Vec<Step>,
}

/// Mathematical value of an [`ErrorHandler`].
pub struct SpecErrorHandler {
    pub name: Seq<char>,
    pub on_error: Seq<SpecStep>,
}

impl View for ErrorHandler {
    type V = SpecErrorHandler;

    open spec fn view(&self) -> SpecErrorHandler {
        SpecErrorHandler { name: self.name@, on_error: steps_view(self.on_error@) }
    }
}

/// Element-wise view over a sequence of error handlers.
pub open spec fn handlers_view(hs: Seq<ErrorHandler>) -> Seq<SpecErrorHandler> {
    Seq::new(hs.len(), |i: int| hs[i]@)
}

/// The root artifact: an immutable description of a whole login flow.
#[derive(Debug, PartialEq, Eq)]
pub struct LoginScript {
    pub meta: ScriptMeta,
    pub target: TargetApp,
    pub steps: Vec<Step>,
    pub validations: Vec<Validation>,
    pub error_handlers: Vec<ErrorHandler>,
}

/// Mathematical value of a [`LoginScript`].
pub struct SpecLoginScript {
    pub meta: SpecScriptMeta,
    pub target: SpecTargetApp,
    pub steps: Seq<SpecStep>,
    pub validations: Seq<SpecValidation>,
    pub error_handlers: Seq<SpecErrorHandler>,
}

impl View for LoginScript {
    type V = SpecLoginScript;

    open spec fn view(&self) -> SpecLoginScript {
        SpecLoginScript {
            meta: self.meta@,
            target: self.target@,
            steps: steps_view(self.steps@),
            validations: validations_view(self.validations@),
            error_handlers: handlers_view(self.error_handlers@),
        }
    }
}

/// Terminal result of one run: success flag, optional session token,
/// and a human-readable error that never contains a secret.
#[derive(Debug, Clone, PartialEq, Eq)]
pub struct LoginOutcome {
    pub success: bool,
    pub session_token: Option<String>,
    pub error: Option<String>,
}

/// Mathematical value of a [`LoginOutcome`].
pub struct SpecLoginOutcome {
    pub success: bool,
    pub session_token: Option<Seq<char>>,
    pub error: Option<Seq<char>>,
}

impl View for LoginOutcome {
    type V = SpecLoginOutcome;

    open spec fn view(&self) -> SpecLoginOutcome {
        SpecLoginOutcome {
            success: self.success,
            session_token: self.session_token.deep_view(),
            error: self.error.deep_view(),
        }
    }
}

/// Kind of anti-automation challenge a driver can surface.
#[derive(Debug, Clone, Copy, PartialEq, Eq, Structural)]
pub enum CaptchaKind {
    Image,
    Slider,
    OtpPush,
}

/// Which strategy produced a captcha solution; recorded for auditing.
#[derive(Debug, Clone, Copy, PartialEq, Eq, Structural)]
pub enum CaptchaStrategy {
    Ocr,
    ThirdParty,
    Manual,
}

/// A challenge produced by a driver mid-execution; consumed exactly once.
#[derive(Debug, Clone, PartialEq, Eq)]
pub struct CaptchaChallenge {
    pub kind: CaptchaKind,
    pub payload: Vec<u8>,
    pub metadata: Option<String>,
}

/// Mathematical value of a [`CaptchaChallenge`].
pub struct SpecCaptchaChallenge {
    pub kind: CaptchaKind,
    pub payload: Seq<u8>,
    pub metadata: Option<Seq<char>>,
}

impl View for CaptchaChallenge {
    type V = SpecCaptchaChallenge;

    open spec fn view(&self) -> SpecCaptchaChallenge {
        SpecCaptchaChallenge {
            kind: self.kind,
            payload: self.payload@,
            metadata: self.metadata.deep_view(),
        }
    }
}

/// A solved challenge, tagged with the strategy that produced it.
#[derive(Debug, Clone, PartialEq, Eq)]
pub struct CaptchaSolution {
    pub challenge: CaptchaChallenge,
    pub response: String,
    pub strategy: CaptchaStrategy,
}

/// Mathematical value of a [`CaptchaSolution`].
pub struct SpecCaptchaSolution {
    pub challenge: SpecCaptchaChallenge,
    pub response: Seq<char>,
    pub strategy: CaptchaStrategy,
}

impl View for CaptchaSolution {
    type V = SpecCaptchaSolution;

    open spec fn view(&self) -> SpecCaptchaSolution {
        SpecCaptchaSolution {
            challenge: self.challenge@,
            response: self.response@,
            strategy: self.strategy,
        }
    }
}

impl Clone for TargetApp {
    /// Value-preserving copy: the copy has the same mathematical value.
    fn clone(&self) -> (r: TargetApp)
        ensures
            r@ == self@,
    {
        TargetApp {
            kind: self.kind,
            name: self.name.clone(),
            version: self.version.clone(),
            endpoint: self.endpoint.clone(),
        }
    }
}

impl Clone for ScriptMeta {
    /// Value-preserving copy: the copy has the same mathematical value.
    fn clone(&self) -> (r: ScriptMeta)
        ensures
            r@ == self@,
    {
        ScriptMeta {
            id: self.id.clone(),
            version: self.version.clone(),
            author: self.author.clone(),
            created_at: self.created_at.clone(),
            updated_at: self.updated_at.clone(),
        }
    }
}

impl Clone for Selector {
    /// Value-preserving copy: the copy has the same mathematical value.
    fn clone(&self) -> (r: Selector)
        ensures
            r@ == self@,
    {
        match self {
            Selector::Css(s) => Selector::Css(s.clone()),
            Selector::XPath(s) => Selector::XPath(s.clone()),
            Selector::AccessibilityId(s) => Selector::AccessibilityId(s.clone()),
            Selector::Image(s) => Selector::Image(s.clone()),
            Selector::Coordinates { x, y } => Selector::Coordinates { x: *x, y: *y },
        }
    }
}

impl Clone for ValueRef {
    /// Value-preserving copy: the copy has the same mathematical value.
    fn clone(&self) -> (r: ValueRef)
        ensures
            r@ == self@,
    {
        match self {
            ValueRef::Literal(s) => ValueRef::Literal(s.clone()),
            ValueRef::FromVault(s) => ValueRef::FromVault(s.clone()),
        }
    }
}

impl Clone for Condition {
    /// Value-preserving copy: the copy has the same mathematical value.
    fn clone(&self) -> (r: Condition)
        ensures
            r@ == self@,
        decreases *self,
    {
        match self {
            Condition::Exists(sel) => Condition::Exists(sel.clone()),
            Condition::TextEquals { selector, expected } => Condition::TextEquals {
                selector: selector.clone(),
                expected: expected.clone(),
            },
            Condition::And(cs) => Condition::And(clone_conditions(cs)),
            Condition::Or(cs) => Condition::Or(clone_conditions(cs)),
            Condition::Not(c0) => Condition::Not(Box::new((**c0).clone())),
        }
    }
}

/// Element-wise [`Condition::clone`]; the copy views to the same sequence.
pub fn clone_conditions(cs: &Vec<Condition>) -> (r: Vec<Condition>)
    ensures
        conds_view(r@) == conds_view(cs@),
    decreases cs@,
{
    let mut out: Vec<Condition> = Vec::new();
    let mut i: usize = 0;
    while i < cs.len()
        invariant
            i <= cs.len(),
            out@.len() == i,
            forall|j: int| 0 <= j < i ==> cond_view(#[trigger] out@[j]) == cond_view(cs@[j]),
        decreases cs@.len() - i,
    {
        out.push(cs[i].clone());
        i += 1;
    }
    proof {
        lemma_conds_view(out@);
        lemma_conds_view(cs@);
        assert(conds_view(out@) =~= conds_view(cs@));
    }
    out
}

impl Clone for Step {
    /// Value-preserving copy: the copy has the same mathematical value.
    fn clone(&self) -> (r: Step)
        ensures
            r@ == self@,
        decreases *self,
    {
        match self {
            Step::Click(sel) => Step::Click(sel.clone()),
            Step::Input { selector, value } => Step::Input {
                selector: selector.clone(),
                value: value.clone(),
            },
            Step::WaitFor(sel) => Step::WaitFor(sel.clone()),
            Step::SleepMs(ms) => Step::SleepMs(*ms),
            Step::Conditional { condition, on_true, on_false } => Step::Conditional {
                condition: condition.clone(),
                on_true: clone_steps(on_true),
                on_false: clone_steps(on_false),
            },
            Step::Loop { times, body } => Step::Loop { times: *times, body: clone_steps(body) },
        }
    }
}

/// Element-wise [`Step::clone`]; the copy views to the same sequence.
pub fn clone_steps(ss: &Vec<Step>) -> (r: Vec<Step>)
    ensures
        steps_view(r@) == steps_view(ss@),
    decreases ss@,
{
    let mut out: Vec<Step> = Vec::new();
    let mut i: usize = 0;
    while i < ss.len()
        invariant
            i <= ss.len(),
            out@.len() == i,
            forall|j: int| 0 <= j < i ==> step_view(#[trigger] out@[j]) == step_view(ss@[j]),
        decreases ss@.len() - i,
    {
        out.push(ss[i].clone());
        i += 1;
    }
    proof {
        lemma_steps_view(out@);
        lemma_steps_view(ss@);
        assert(steps_view(out@) =~= steps_view(ss@));
    }
    out
}

impl Clone for Validation {
    /// Value-preserving copy: the copy has the same mathematical value.
    fn clone(&self) -> (r: Validation)
        ensures
            r@ == self@,
    {
        Validation { description: self.description.clone(), condition: self.condition.clone() }
    }
}

impl Clone for ErrorHandler {
    /// Value-preserving copy: the copy has the same mathematical value.
    fn clone(&self) -> (r: ErrorHandler)
        ensures
            r@ == self@,
    {
        ErrorHandler { name: self.name.clone(), on_error: clone_steps(&self.on_error) }
    }
}

/// Element-wise [`Validation::clone`]; the copy views to the same sequence.
pub fn clone_validations(vs: &Vec<Validation>) -> (r: Vec<Validation>)
    ensures
        validations_view(r@) == validations_view(vs@),
{
    let mut out: Vec<Validation> = Vec::new();
    let mut i: usize = 0;
    while i < vs.len()
        invariant
            i <= vs.len(),
            out@.len() == i,
            forall|j: int| 0 <= j < i ==> (#[trigger] out@[j])@ == vs@[j]@,
        decreases vs@.len() - i,
    {
        out.push(vs[i].clone());
        i += 1;
    }
    proof {
        assert(validations_view(out@) =~= validations_view(vs@));
    }
    out
}

/// Element-wise [`ErrorHandler::clone`]; the copy views to the same sequence.
pub fn clone_handlers(hs: &Vec<ErrorHandler>) -> (r: Vec<ErrorHandler>)
    ensures
        handlers_view(r@) == handlers_view(hs@),
{
    let mut out: Vec<ErrorHandler> = Vec::new();
    let mut i: usize = 0;
    while i < hs.len()
        invariant
            i <= hs.len(),
            out@.len() == i,
            forall|j: int| 0 <= j < i ==> (#[trigger] out@[j])@ == hs@[j]@,
        decreases hs@.len() - i,
    {
        out.push(hs[i].clone());
        i += 1;
    }
    proof {
        assert(handlers_view(out@) =~= handlers_view(hs@));
    }
    out
}

impl Clone for LoginScript {
    /// Value-preserving copy: the copy has the same mathematical value.
    fn clone(&self) -> (r: LoginScript)
        ensures
            r@ == self@,
    {
        LoginScript {
            meta: self.meta.clone(),
            target: self.target.clone(),
            steps: clone_steps(&self.steps),
            validations: clone_validations(&self.validations),
            error_handlers: clone_handlers(&self.error_handlers),
        }
    }
}

} // verus!
