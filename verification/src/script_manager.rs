//! Script recording and versioning: an in-memory store that keeps every
//! saved script, groups them by id in save order, and serves a specific
//! version or the latest one.

use vstd::prelude::*;
use vstd::string::StringExecFns;

use crate::types::LoginScript;
use crate::types::ScriptMeta;
use crate::types::Selector;
use crate::types::SpecLoginScript;
use crate::types::Step;
use crate::types::TargetApp;
use crate::types::steps_view;

verus! {

/// Captured artifacts during a recording session.
#[derive(Debug)]
pub struct RecordedSession {
    pub target: TargetApp,
    pub steps: Vec<Step>,
    pub selectors: Vec<Selector>,
}

/// Version-control metadata for one saved script.
#[derive(Debug, Clone, PartialEq, Eq)]
pub struct ScriptVersion {
    pub id: String,
    pub version: String,
    pub changelog: Option<String>,
    pub created_at: String,
    pub author: Option<String>,
}

/// Mathematical value of a [`ScriptVersion`].
pub struct SpecScriptVersion {
    pub id: Seq<char>,
    pub version: Seq<char>,
    pub changelog: Option<Seq<char>>,
    pub created_at: Seq<char>,
    pub author: Option<Seq<char>>,
}

impl View for ScriptVersion {
    type V = SpecScriptVersion;

    open spec fn view(&self) -> SpecScriptVersion {
        SpecScriptVersion {
            id: self.id@,
            version: self.version@,
            changelog: self.changelog.deep_view(),
            created_at: self.created_at@,
            author: self.author.deep_view(),
        }
    }
}

impl DeepView for ScriptVersion {
    type V = SpecScriptVersion;

    open spec fn deep_view(&self) -> SpecScriptVersion {
        self.view()
    }
}

/// Failure modes of the script store.
#[derive(Debug, Clone, Copy, PartialEq, Eq, Structural)]
pub enum ScriptStoreError {
    /// No script is stored under the requested id.
    NotFound,
    /// The id is known but has no entry for the requested version.
    VersionNotFound,
}

/// The latest stored script with the given id, if any.
pub open spec fn latest_of(ss: Seq<SpecLoginScript>, id: Seq<char>) -> Option<SpecLoginScript>
    decreases ss,
{
    if ss.len() == 0 {
        None::<SpecLoginScript>
    } else if ss[ss.len() - 1].meta.id == id {
        Some(ss[ss.len() - 1])
    } else {
        latest_of(ss.subrange(0, ss.len() - 1), id)
    }
}

/// The first stored script with the given id and version, if any.
pub open spec fn version_of(ss: Seq<SpecLoginScript>, id: Seq<char>, ver: Seq<char>) -> Option<
    SpecLoginScript,
>
    decreases ss,
{
    if ss.len() == 0 {
        None::<SpecLoginScript>
    } else if ss[0].meta.id == id && ss[0].meta.version == ver {
        Some(ss[0])
    } else {
        version_of(ss.subrange(1, ss.len() as int), id, ver)
    }
}

/// The version row a stored script lists as.
pub open spec fn spec_version_row(s: SpecLoginScript) -> SpecScriptVersion {
    SpecScriptVersion {
        id: s.meta.id,
        version: s.meta.version,
        changelog: None::<Seq<char>>,
        created_at: match s.meta.created_at {
            Some(c) => c,
            None => Seq::<char>::empty(),
        },
        author: s.meta.author,
    }
}

/// Version rows of every stored script with the given id, in save order.
pub open spec fn spec_versions(ss: Seq<SpecLoginScript>, id: Seq<char>) -> Seq<SpecScriptVersion>
    decreases ss,
{
    if ss.len() == 0 {
        Seq::<SpecScriptVersion>::empty()
    } else {
        spec_versions(ss.subrange(0, ss.len() - 1), id) + (if ss[ss.len() - 1].meta.id == id {
            seq![spec_version_row(ss[ss.len() - 1])]
        } else {
            Seq::<SpecScriptVersion>::empty()
        })
    }
}

/// In-memory script manager: recording, saving, loading, and version lists.
pub struct ScriptManager {
    store: Vec<LoginScript>,
}

impl ScriptManager {
    /// Every saved script, in save order.
    pub closed spec fn scripts(&self) -> Seq<SpecLoginScript> {
        Seq::new(self.store@.len(), |i: int| self.store@[i]@)
    }

    /// An empty manager.
    pub fn new() -> (r: ScriptManager)
        ensures
            r.scripts() == Seq::<SpecLoginScript>::empty(),
    {
        let r = ScriptManager { store: Vec::new() };
        proof {
            assert(r.scripts() =~= Seq::<SpecLoginScript>::empty());
        }
        r
    }

    /// Open a recording session against `target`, with nothing captured yet.
    pub fn record(&self, target: TargetApp) -> (r: RecordedSession)
        ensures
            r.target@ == target@,
            r.steps@.len() == 0,
            r.selectors@.len() == 0,
    {
        RecordedSession { target, steps: Vec::new(), selectors: Vec::new() }
    }

    /// Save a script, keeping versions under the same id in save order.
    pub fn save(&mut self, script: LoginScript)
        ensures
            final(self).scripts() == old(self).scripts().push(script@),
    {
        self.store.push(script);
        proof {
            assert(self.scripts() =~= old(self).scripts().push(self.store@[self.store@.len()
                - 1]@));
        }
    }

    /// Load a specific version, or the latest version, of the script with
    /// the given id.
    #[verifier::loop_isolation(false)]
    pub fn load(&self, id: &str, version: Option<&str>) -> (r: Result<LoginScript, ScriptStoreError>)
        ensures
            version is None ==> (match latest_of(self.scripts(), id@) {
                Some(s) => r matches Ok(out) && out@ == s,
                None => r == Err::<LoginScript, ScriptStoreError>(ScriptStoreError::NotFound),
            }),
            version matches Some(v) ==> (match version_of(self.scripts(), id@, v@) {
                Some(s) => r matches Ok(out) && out@ == s,
                None => (r matches Err(e) && (e == ScriptStoreError::NotFound
                    || e == ScriptStoreError::VersionNotFound) && (e
                    == ScriptStoreError::NotFound <==> latest_of(self.scripts(), id@) is None)),
            }),
    {
        let id_string: String = id.to_owned();
        match version {
            None => {
                let n = self.store.len();
                let mut i = n;
                while i > 0
                    invariant
                        i <= n,
                        forall|k: int|
                            i <= k < n ==> (#[trigger] self.scripts()[k]).meta.id != id@,
                    decreases i,
                {
                    i = i - 1;
                    if self.store[i].meta.id.eq(&id_string) {
                        proof {
                            lemma_latest_found(self.scripts(), id@, i as int);
                        }
                        return Ok(self.store[i].clone());
                    }
                }
                proof {
                    lemma_latest_absent(self.scripts(), id@);
                }
                Err(ScriptStoreError::NotFound)
            },
            Some(ver) => {
                let ver_string: String = ver.to_owned();
                let mut found_id = false;
                let ghost mut id_witness: int = 0int;
                let mut i: usize = 0;
                while i < self.store.len()
                    invariant
                        i <= self.store@.len(),
                        forall|k: int|
                            0 <= k < i ==> !((#[trigger] self.scripts()[k]).meta.id == id@
                                && self.scripts()[k].meta.version == ver@),
                        found_id ==> 0 <= id_witness < i && self.scripts()[id_witness].meta.id
                            == id@,
                        !found_id ==> forall|k: int|
                            0 <= k < i ==> (#[trigger] self.scripts()[k]).meta.id != id@,
                    decreases self.store@.len() - i,
                {
                    if self.store[i].meta.id.eq(&id_string) {
                        if self.store[i].meta.version.eq(&ver_string) {
                            proof {
                                lemma_version_found(self.scripts(), id@, ver@, i as int);
                            }
                            return Ok(self.store[i].clone());
                        }
                        found_id = true;
                        proof {
                            id_witness = i as int;
                        }
                    }
                    i += 1;
                }
                proof {
                    lemma_version_absent(self.scripts(), id@, ver@);
                    if found_id {
                        lemma_latest_some(self.scripts(), id@, id_witness);
                    } else {
                        lemma_latest_absent(self.scripts(), id@);
                    }
                }
                if found_id {
                    Err(ScriptStoreError::VersionNotFound)
                } else {
                    Err(ScriptStoreError::NotFound)
                }
            },
        }
    }

    /// List the version rows of every script saved under `id`, in save
    /// order.
    #[verifier::loop_isolation(false)]
    pub fn list_versions(&self, id: &str) -> (r: Vec<ScriptVersion>)
        ensures
            r.deep_view() == spec_versions(self.scripts(), id@),
    {
        let id_string: String = id.to_owned();
        let mut out: Vec<ScriptVersion> = Vec::new();
        let mut i: usize = 0;
        proof {
            assert(self.scripts().subrange(0, 0) =~= Seq::<SpecLoginScript>::empty());
            assert(out.deep_view() =~= spec_versions(self.scripts().subrange(0, 0), id@));
        }
        while i < self.store.len()
            invariant
                i <= self.store@.len(),
                out.deep_view() == spec_versions(self.scripts().subrange(0, i as int), id@),
            decreases self.store@.len() - i,
        {
            let s = &self.store[i];
            if s.meta.id.eq(&id_string) {
                let row = ScriptVersion {
                    id: s.meta.id.clone(),
                    version: s.meta.version.clone(),
                    changelog: None,
                    created_at: match &s.meta.created_at {
                        Some(c) => c.clone(),
                        None => String::new(),
                    },
                    author: s.meta.author.clone(),
                };
                out.push(row);
            }
            i += 1;
            proof {
                assert(self.scripts().subrange(0, i as int).subrange(0, i - 1)
                    =~= self.scripts().subrange(0, i - 1));
                assert(out.deep_view() =~= spec_versions(
                    self.scripts().subrange(0, i as int),
                    id@,
                ));
            }
        }
        proof {
            assert(self.scripts().subrange(0, self.store@.len() as int) =~= self.scripts());
        }
        out
    }
}

impl Default for ScriptManager {
    /// An empty manager.
    fn default() -> (r: ScriptManager)
        ensures
            r.scripts() == Seq::<SpecLoginScript>::empty(),
    {
        ScriptManager::new()
    }
}

/// If `ss[j]` is the last script with its id, that script is the latest.
proof fn lemma_latest_found(ss: Seq<SpecLoginScript>, id: Seq<char>, j: int)
    requires
        0 <= j < ss.len(),
        ss[j].meta.id == id,
        forall|k: int| j < k < ss.len() ==> (#[trigger] ss[k]).meta.id != id,
    ensures
        latest_of(ss, id) == Some(ss[j]),
    decreases ss.len(),
{
    if j < ss.len() - 1 {
        lemma_latest_found(ss.subrange(0, ss.len() - 1), id, j);
    }
}

/// An id no stored script carries has no latest script.
proof fn lemma_latest_absent(ss: Seq<SpecLoginScript>, id: Seq<char>)
    requires
        forall|k: int| 0 <= k < ss.len() ==> (#[trigger] ss[k]).meta.id != id,
    ensures
        latest_of(ss, id) is None,
    decreases ss.len(),
{
    if ss.len() > 0 {
        lemma_latest_absent(ss.subrange(0, ss.len() - 1), id);
    }
}

/// An id some stored script carries has a latest script.
proof fn lemma_latest_some(ss: Seq<SpecLoginScript>, id: Seq<char>, j: int)
    requires
        0 <= j < ss.len(),
        ss[j].meta.id == id,
    ensures
        latest_of(ss, id) is Some,
    decreases ss.len(),
{
    if ss.len() > 0 && ss[ss.len() - 1].meta.id != id {
        lemma_latest_some(ss.subrange(0, ss.len() - 1), id, j);
    }
}

/// If `ss[j]` is the first script with its id and version, that script is
/// the one a version lookup yields.
proof fn lemma_version_found(ss: Seq<SpecLoginScript>, id: Seq<char>, ver: Seq<char>, j: int)
    requires
        0 <= j < ss.len(),
        ss[j].meta.id == id,
        ss[j].meta.version == ver,
        forall|k: int|
            0 <= k < j ==> !((#[trigger] ss[k]).meta.id == id && ss[k].meta.version == ver),
    ensures
        version_of(ss, id, ver) == Some(ss[j]),
    decreases ss.len(),
{
    if j > 0 {
        let sub = ss.subrange(1, ss.len() as int);
        assert forall|k: int| 0 <= k < j - 1 implies !((#[trigger] sub[k]).meta.id == id
            && sub[k].meta.version == ver) by {
            assert(sub[k] == ss[k + 1]);
        }
        lemma_version_found(sub, id, ver, j - 1);
    }
}

/// A version no stored script carries under the id yields nothing.
proof fn lemma_version_absent(ss: Seq<SpecLoginScript>, id: Seq<char>, ver: Seq<char>)
    requires
        forall|k: int|
            0 <= k < ss.len() ==> !((#[trigger] ss[k]).meta.id == id && ss[k].meta.version == ver),
    ensures
        version_of(ss, id, ver) is None,
    decreases ss.len(),
{
    if ss.len() > 0 {
        let sub = ss.subrange(1, ss.len() as int);
        assert forall|k: int| 0 <= k < sub.len() implies !((#[trigger] sub[k]).meta.id == id
            && sub[k].meta.version == ver) by {
            assert(sub[k] == ss[k + 1]);
        }
        lemma_version_absent(sub, id, ver);
    }
}

/// Build a script programmatically: `(id, version)` metadata, a target and
/// steps, with no validations and no error handlers.
pub fn build_login_script(meta: (&str, &str), target: TargetApp, steps: Vec<Step>) -> (r:
    LoginScript)
    ensures
        r@.meta.id == meta.0@,
        r@.meta.version == meta.1@,
        r@.meta.author is None,
        r@.meta.created_at is None,
        r@.meta.updated_at is None,
        r@.target == target@,
        r@.steps == steps_view(steps@),
        r@.validations.len() == 0,
        r@.error_handlers.len() == 0,
{
    let r = LoginScript {
        meta: ScriptMeta {
            id: meta.0.to_owned(),
            version: meta.1.to_owned(),
            author: None,
            created_at: None,
            updated_at: None,
        },
        target,
        steps,
        validations: Vec::new(),
        error_handlers: Vec::new(),
    };
    proof {
        assert(crate::types::validations_view(r.validations@) =~= Seq::<
            crate::types::SpecValidation,
        >::empty());
        assert(crate::types::handlers_view(r.error_handlers@) =~= Seq::<
            crate::types::SpecErrorHandler,
        >::empty());
    }
    r
}

} // verus!
