//! The driver boundary: platform drivers expose a small set of UI primitives
//! (existence and text queries, click, input, wait, sleep) and declare their
//! behaviour through spec functions, so the engine's run can be pinned down
//! exactly for every conforming driver.

use vstd::prelude::*;

use crate::types::Selector;
use crate::types::SpecSelector;
use crate::types::SpecTargetApp;
use crate::types::TargetApp;
use crate::types::TargetAppKind;

verus! {

/// Abstract page a driver currently shows: the selectors that resolve to an
/// element, each with the text the element carries, if any.
pub type Page = Map<SpecSelector, Option<Seq<char>>>;

/// Text of the element `sel` resolves to on page `p`: `None` when the element
/// is absent or carries no text. Absence is not an error.
pub open spec fn page_text(p: Page, sel: SpecSelector) -> Option<Seq<char>> {
    if p.contains_key(sel) {
        p[sel]
    } else {
        None
    }
}

/// One UI call made through a driver, as recorded in the driver's log.
pub enum UiAction {
    Click(SpecSelector),
    Input { selector: SpecSelector, text: Seq<char> },
    WaitFor(SpecSelector),
    Sleep(u64),
    QueryExists(SpecSelector),
    QueryText(SpecSelector),
}

/// Platform-level failure executing one UI primitive.
#[derive(Debug, Clone, PartialEq, Eq)]
pub struct DriverError {
    pub message: String,
}

impl View for DriverError {
    type V = Seq<char>;

    open spec fn view(&self) -> Seq<char> {
        self.message@
    }
}

/// Capability contract every platform driver implements.
///
/// A driver abstracts its live UI state as a [`Page`] and keeps a log of the
/// UI calls made through it. Two type-level spec functions, [`Self::act_ok`]
/// and [`Self::act_page`], say which actions succeed on which page and what
/// a successful action does to the page; queries never change the page.
/// Every primitive is logged, succeeds exactly when `act_ok` says so, and a
/// failed action leaves the page as it was.
pub trait AutomationDriver: Sized {
    /// Abstract page the driver currently shows.
    spec fn page(&self) -> Page;

    /// Every UI call made through this driver so far, oldest first.
    spec fn log(&self) -> Seq<UiAction>;

    /// Session token the driver would report right now.
    spec fn token(&self) -> Seq<char>;

    /// Which targets this driver can automate.
    spec fn supports_spec(&self, target: SpecTargetApp) -> bool;

    /// Whether action `a` succeeds on page `p`.
    spec fn act_ok(p: Page, a: UiAction) -> bool;

    /// The page after action `a` succeeds on page `p`.
    spec fn act_page(p: Page, a: UiAction) -> Page;

    /// Short human-readable driver name for diagnostics.
    fn name(&self) -> (r: &'static str);

    /// True exactly when this driver can automate `target`.
    fn supports(&self, target: &TargetApp) -> (r: bool)
        ensures
            r == self.supports_spec(target@),
    ;

    /// Whether `sel` resolves to an element on the current page.
    fn element_exists(&mut self, sel: &Selector) -> (r: Result<bool, DriverError>)
        ensures
            final(self).log() == old(self).log().push(UiAction::QueryExists(sel@)),
            final(self).page() == old(self).page(),
            final(self).token() == old(self).token(),
            r is Ok <==> Self::act_ok(old(self).page(), UiAction::QueryExists(sel@)),
            r matches Ok(b) ==> b == old(self).page().contains_key(sel@),
    ;

    /// Text of the element `sel` resolves to, `None` when absent or textless.
    fn text_of(&mut self, sel: &Selector) -> (r: Result<Option<String>, DriverError>)
        ensures
            final(self).log() == old(self).log().push(UiAction::QueryText(sel@)),
            final(self).page() == old(self).page(),
            final(self).token() == old(self).token(),
            r is Ok <==> Self::act_ok(old(self).page(), UiAction::QueryText(sel@)),
            r matches Ok(t) ==> t.deep_view() == page_text(old(self).page(), sel@),
    ;

    /// Click the element `sel` resolves to.
    fn click(&mut self, sel: &Selector) -> (r: Result<(), DriverError>)
        ensures
            final(self).log() == old(self).log().push(UiAction::Click(sel@)),
            r is Ok <==> Self::act_ok(old(self).page(), UiAction::Click(sel@)),
            r is Ok ==> final(self).page() == Self::act_page(
                old(self).page(),
                UiAction::Click(sel@),
            ),
            r is Err ==> final(self).page() == old(self).page(),
    ;

    /// Type `text` into the element `sel` resolves to.
    fn input(&mut self, sel: &Selector, text: &str) -> (r: Result<(), DriverError>)
        ensures
            final(self).log() == old(self).log().push(
                UiAction::Input { selector: sel@, text: text@ },
            ),
            r is Ok <==> Self::act_ok(
                old(self).page(),
                UiAction::Input { selector: sel@, text: text@ },
            ),
            r is Ok ==> final(self).page() == Self::act_page(
                old(self).page(),
                UiAction::Input { selector: sel@, text: text@ },
            ),
            r is Err ==> final(self).page() == old(self).page(),
    ;

    /// Wait until the element `sel` resolves to appears.
    fn wait_for(&mut self, sel: &Selector) -> (r: Result<(), DriverError>)
        ensures
            final(self).log() == old(self).log().push(UiAction::WaitFor(sel@)),
            r is Ok <==> Self::act_ok(old(self).page(), UiAction::WaitFor(sel@)),
            r is Ok ==> final(self).page() == Self::act_page(
                old(self).page(),
                UiAction::WaitFor(sel@),
            ),
            r is Err ==> final(self).page() == old(self).page(),
    ;

    /// Suspend for `ms` milliseconds; a pure timing directive.
    fn sleep_ms(&mut self, ms: u64) -> (r: Result<(), DriverError>)
        ensures
            final(self).log() == old(self).log().push(UiAction::Sleep(ms)),
            r is Ok <==> Self::act_ok(old(self).page(), UiAction::Sleep(ms)),
            r is Ok ==> final(self).page() == Self::act_page(old(self).page(), UiAction::Sleep(ms)),
            r is Err ==> final(self).page() == old(self).page(),
    ;

    /// The session token for the signed-in session.
    fn session_token(&self) -> (r: String)
        ensures
            r@ == self.token(),
    ;
}

/// In-memory UI surface shared by the built-in stub drivers: a list of
/// `(selector, text)` entries, later entries shadowing earlier ones, plus a
/// log of the UI calls made against it. Stub actions always succeed and never
/// change the surface.
pub struct StubSurface {
    pub elements: Vec<(Selector, Option<String>)>,
    pub calls: Ghost<Seq<UiAction>>,
}

/// The page an element list denotes; later entries shadow earlier ones.
pub open spec fn surface_page(elems: Seq<(Selector, Option<String>)>) -> Page
    decreases elems,
{
    if elems.len() == 0 {
        Map::empty()
    } else {
        surface_page(elems.subrange(0, elems.len() - 1)).insert(
            elems[elems.len() - 1].0@,
            elems[elems.len() - 1].1.deep_view(),
        )
    }
}

/// If `elems[j]` is the last entry for its selector, the page maps that
/// selector to that entry's text.
proof fn lemma_surface_page_found(elems: Seq<(Selector, Option<String>)>, j: int)
    requires
        0 <= j < elems.len(),
        forall|k: int| j < k < elems.len() ==> (#[trigger] elems[k]).0@ != elems[j].0@,
    ensures
        surface_page(elems).contains_key(elems[j].0@),
        surface_page(elems)[elems[j].0@] == elems[j].1.deep_view(),
    decreases elems.len(),
{
    if j < elems.len() - 1 {
        let prefix = elems.subrange(0, elems.len() - 1);
        lemma_surface_page_found(prefix, j);
    }
}

/// A selector no entry mentions is absent from the page.
proof fn lemma_surface_page_absent(elems: Seq<(Selector, Option<String>)>, sel: SpecSelector)
    requires
        forall|k: int| 0 <= k < elems.len() ==> (#[trigger] elems[k]).0@ != sel,
    ensures
        !surface_page(elems).contains_key(sel),
    decreases elems.len(),
{
    if elems.len() > 0 {
        lemma_surface_page_absent(elems.subrange(0, elems.len() - 1), sel);
    }
}

/// True exactly when the two selectors have the same mathematical value.
pub fn selector_eq(a: &Selector, b: &Selector) -> (r: bool)
    ensures
        r == (a@ == b@),
{
    match (a, b) {
        (Selector::Css(x), Selector::Css(y)) => x.eq(y),
        (Selector::XPath(x), Selector::XPath(y)) => x.eq(y),
        (Selector::AccessibilityId(x), Selector::AccessibilityId(y)) => x.eq(y),
        (Selector::Image(x), Selector::Image(y)) => x.eq(y),
        (Selector::Coordinates { x: ax, y: ay }, Selector::Coordinates { x: bx, y: by }) => *ax
            == *bx && *ay == *by,
        _ => false,
    }
}

impl StubSurface {
    /// A surface showing exactly `elements`.
    pub fn new(elements: Vec<(Selector, Option<String>)>) -> (r: StubSurface)
        ensures
            r.page() == surface_page(elements@),
            r.calls@ == Seq::<UiAction>::empty(),
    {
        StubSurface { elements, calls: Ghost(Seq::empty()) }
    }

    /// The page this surface denotes.
    pub open spec fn page(&self) -> Page {
        surface_page(self.elements@)
    }

    /// Record one UI call in the log.
    fn record(&mut self, a: Ghost<UiAction>)
        ensures
            final(self).calls@ == old(self).calls@.push(a@),
            final(self).elements == old(self).elements,
    {
        self.calls = Ghost(self.calls@.push(a@));
    }

    /// Whether the surface shows an element for `sel`.
    fn lookup_exists(&self, sel: &Selector) -> (r: bool)
        ensures
            r == self.page().contains_key(sel@),
    {
        let n = self.elements.len();
        let mut i = n;
        while i > 0
            invariant
                i <= n,
                n == self.elements.len(),
                forall|k: int| i <= k < n ==> (#[trigger] self.elements@[k]).0@ != sel@,
            decreases i,
        {
            i = i - 1;
            if selector_eq(&self.elements[i].0, sel) {
                proof {
                    lemma_surface_page_found(self.elements@, i as int);
                }
                return true;
            }
        }
        proof {
            lemma_surface_page_absent(self.elements@, sel@);
        }
        false
    }

    /// Text of the element the surface shows for `sel`, if any.
    fn lookup_text(&self, sel: &Selector) -> (r: Option<String>)
        ensures
            r.deep_view() == page_text(self.page(), sel@),
    {
        let n = self.elements.len();
        let mut i = n;
        while i > 0
            invariant
                i <= n,
                n == self.elements.len(),
                forall|k: int| i <= k < n ==> (#[trigger] self.elements@[k]).0@ != sel@,
            decreases i,
        {
            i = i - 1;
            if selector_eq(&self.elements[i].0, sel) {
                proof {
                    lemma_surface_page_found(self.elements@, i as int);
                }
                return self.elements[i].1.clone();
            }
        }
        proof {
            lemma_surface_page_absent(self.elements@, sel@);
        }
        None
    }
}

/// Built-in stub driver for web targets: an in-memory surface on which every
/// action succeeds and leaves the page unchanged.
pub struct WebDriverStub {
    pub surface: StubSurface,
}

impl WebDriverStub {
    /// A web stub showing exactly `elements`, with an empty call log.
    pub fn new(elements: Vec<(Selector, Option<String>)>) -> (r: WebDriverStub)
        ensures
            r.page() == surface_page(elements@),
            r.log() == Seq::<UiAction>::empty(),
    {
        WebDriverStub { surface: StubSurface::new(elements) }
    }
}

impl AutomationDriver for WebDriverStub {
    open spec fn page(&self) -> Page {
        self.surface.page()
    }

    open spec fn log(&self) -> Seq<UiAction> {
        self.surface.calls@
    }

    open spec fn token(&self) -> Seq<char> {
        "web-session-token"@
    }

    open spec fn supports_spec(&self, target: SpecTargetApp) -> bool {
        target.kind == TargetAppKind::Web
    }

    open spec fn act_ok(p: Page, a: UiAction) -> bool {
        true
    }

    open spec fn act_page(p: Page, a: UiAction) -> Page {
        p
    }

    fn name(&self) -> (r: &'static str) {
        "web-stub"
    }

    fn supports(&self, target: &TargetApp) -> (r: bool) {
        target.kind == TargetAppKind::Web
    }

    fn element_exists(&mut self, sel: &Selector) -> (r: Result<bool, DriverError>) {
        self.surface.record(Ghost(UiAction::QueryExists(sel@)));
        Ok(self.surface.lookup_exists(sel))
    }

    fn text_of(&mut self, sel: &Selector) -> (r: Result<Option<String>, DriverError>) {
        self.surface.record(Ghost(UiAction::QueryText(sel@)));
        Ok(self.surface.lookup_text(sel))
    }

    fn click(&mut self, sel: &Selector) -> (r: Result<(), DriverError>) {
        self.surface.record(Ghost(UiAction::Click(sel@)));
        Ok(())
    }

    fn input(&mut self, sel: &Selector, text: &str) -> (r: Result<(), DriverError>) {
        self.surface.record(Ghost(UiAction::Input { selector: sel@, text: text@ }));
        Ok(())
    }

    fn wait_for(&mut self, sel: &Selector) -> (r: Result<(), DriverError>) {
        self.surface.record(Ghost(UiAction::WaitFor(sel@)));
        Ok(())
    }

    fn sleep_ms(&mut self, ms: u64) -> (r: Result<(), DriverError>) {
        self.surface.record(Ghost(UiAction::Sleep(ms)));
        Ok(())
    }

    fn session_token(&self) -> (r: String) {
        "web-session-token".to_owned()
    }
}

/// Built-in stub driver for Android targets; behaves like the web stub but
/// answers for Android targets.
pub struct AndroidDriverStub {
    pub surface: StubSurface,
}

impl AndroidDriverStub {
    /// An Android stub showing exactly `elements`, with an empty call log.
    pub fn new(elements: Vec<(Selector, Option<String>)>) -> (r: AndroidDriverStub)
        ensures
            r.page() == surface_page(elements@),
            r.log() == Seq::<UiAction>::empty(),
    {
        AndroidDriverStub { surface: StubSurface::new(elements) }
    }
}

impl AutomationDriver for AndroidDriverStub {
    open spec fn page(&self) -> Page {
        self.surface.page()
    }

    open spec fn log(&self) -> Seq<UiAction> {
        self.surface.calls@
    }

    open spec fn token(&self) -> Seq<char> {
        "android-session-token"@
    }

    open spec fn supports_spec(&self, target: SpecTargetApp) -> bool {
        target.kind == TargetAppKind::Android
    }

    open spec fn act_ok(p: Page, a: UiAction) -> bool {
        true
    }

    open spec fn act_page(p: Page, a: UiAction) -> Page {
        p
    }

    fn name(&self) -> (r: &'static str) {
        "android-stub"
    }

    fn supports(&self, target: &TargetApp) -> (r: bool) {
        target.kind == TargetAppKind::Android
    }

    fn element_exists(&mut self, sel: &Selector) -> (r: Result<bool, DriverError>) {
        self.surface.record(Ghost(UiAction::QueryExists(sel@)));
        Ok(self.surface.lookup_exists(sel))
    }

    fn text_of(&mut self, sel: &Selector) -> (r: Result<Option<String>, DriverError>) {
        self.surface.record(Ghost(UiAction::QueryText(sel@)));
        Ok(self.surface.lookup_text(sel))
    }

    fn click(&mut self, sel: &Selector) -> (r: Result<(), DriverError>) {
        self.surface.record(Ghost(UiAction::Click(sel@)));
        Ok(())
    }

    fn input(&mut self, sel: &Selector, text: &str) -> (r: Result<(), DriverError>) {
        self.surface.record(Ghost(UiAction::Input { selector: sel@, text: text@ }));
        Ok(())
    }

    fn wait_for(&mut self, sel: &Selector) -> (r: Result<(), DriverError>) {
        self.surface.record(Ghost(UiAction::WaitFor(sel@)));
        Ok(())
    }

    fn sleep_ms(&mut self, ms: u64) -> (r: Result<(), DriverError>) {
        self.surface.record(Ghost(UiAction::Sleep(ms)));
        Ok(())
    }

    fn session_token(&self) -> (r: String) {
        "android-session-token".to_owned()
    }
}

/// Either built-in stub, so a registry can hold both at once.
pub enum BuiltinDriver {
    Web(WebDriverStub),
    Android(AndroidDriverStub),
}

impl AutomationDriver for BuiltinDriver {
    open spec fn page(&self) -> Page {
        match self {
            BuiltinDriver::Web(d) => d.page(),
            BuiltinDriver::Android(d) => d.page(),
        }
    }

    open spec fn log(&self) -> Seq<UiAction> {
        match self {
            BuiltinDriver::Web(d) => d.log(),
            BuiltinDriver::Android(d) => d.log(),
        }
    }

    open spec fn token(&self) -> Seq<char> {
        match self {
            BuiltinDriver::Web(d) => d.token(),
            BuiltinDriver::Android(d) => d.token(),
        }
    }

    open spec fn supports_spec(&self, target: SpecTargetApp) -> bool {
        match self {
            BuiltinDriver::Web(d) => d.supports_spec(target),
            BuiltinDriver::Android(d) => d.supports_spec(target),
        }
    }

    open spec fn act_ok(p: Page, a: UiAction) -> bool {
        true
    }

    open spec fn act_page(p: Page, a: UiAction) -> Page {
        p
    }

    fn name(&self) -> (r: &'static str) {
        match self {
            BuiltinDriver::Web(d) => d.name(),
            BuiltinDriver::Android(d) => d.name(),
        }
    }

    fn supports(&self, target: &TargetApp) -> (r: bool) {
        match self {
            BuiltinDriver::Web(d) => d.supports(target),
            BuiltinDriver::Android(d) => d.supports(target),
        }
    }

    fn element_exists(&mut self, sel: &Selector) -> (r: Result<bool, DriverError>) {
        match self {
            BuiltinDriver::Web(d) => d.element_exists(sel),
            BuiltinDriver::Android(d) => d.element_exists(sel),
        }
    }

    fn text_of(&mut self, sel: &Selector) -> (r: Result<Option<String>, DriverError>) {
        match self {
            BuiltinDriver::Web(d) => d.text_of(sel),
            BuiltinDriver::Android(d) => d.text_of(sel),
        }
    }

    fn click(&mut self, sel: &Selector) -> (r: Result<(), DriverError>) {
        match self {
            BuiltinDriver::Web(d) => d.click(sel),
            BuiltinDriver::Android(d) => d.click(sel),
        }
    }

    fn input(&mut self, sel: &Selector, text: &str) -> (r: Result<(), DriverError>) {
        match self {
            BuiltinDriver::Web(d) => d.input(sel, text),
            BuiltinDriver::Android(d) => d.input(sel, text),
        }
    }

    fn wait_for(&mut self, sel: &Selector) -> (r: Result<(), DriverError>) {
        match self {
            BuiltinDriver::Web(d) => d.wait_for(sel),
            BuiltinDriver::Android(d) => d.wait_for(sel),
        }
    }

    fn sleep_ms(&mut self, ms: u64) -> (r: Result<(), DriverError>) {
        match self {
            BuiltinDriver::Web(d) => d.sleep_ms(ms),
            BuiltinDriver::Android(d) => d.sleep_ms(ms),
        }
    }

    fn session_token(&self) -> (r: String) {
        match self {
            BuiltinDriver::Web(d) => d.session_token(),
            BuiltinDriver::Android(d) => d.session_token(),
        }
    }
}

} // verus!
