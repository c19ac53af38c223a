//! Building one package, as a machine of decisions: which step comes next
//! given what the last one showed. The caller performs each action (the
//! file system, the compiler pool, the linker, the global build cache) and
//! hands back what came of it; every decision of the build is taken here.
use vstd::prelude::*;
use crate::compdb::{entries_for_units, CompileCommandEntry};
use crate::compiler::{CompileUnit, Compiler, Language, LinkCommand};
use crate::engine::{
    artifact_name, artifact_path, collect_spec, no_sources_error, obj_dir, object_path_spec, plan_units,
    profile_dir, scan_spec, unit_plan, Crate, Layout,
};
use crate::error::RevolError;
use crate::paths::{join, Platform};
use crate::text::{owned, views};
use crate::workflow::BuiltArtifact;

verus! {

/// Where a package build stands.
#[derive(Debug, Clone, Copy, PartialEq, Eq, Structural)]
pub enum BuildPhase {
    /// Nothing done yet.
    Ready,
    /// Waiting for the files under the sources directory.
    Scanning,
    /// Waiting for the cache key of the sources (libraries only).
    Hashing,
    /// Waiting for the global build cache's answer (libraries only).
    LookingUp,
    /// Waiting for the cached archive to be copied into place.
    Restoring,
    /// Waiting for the compiled objects.
    Compiling,
    /// Waiting for the link.
    Linking,
    /// Waiting for the archive to be stored in the cache (libraries only).
    Storing,
    /// The build has ended.
    Over,
}

/// What the caller does next.
pub enum BuildAction {
    /// End the build with this error.
    Fail(RevolError),
    /// Create `obj_dir`, then list the files under `src`, relative to it.
    Scan { obj_dir: String, src: String },
    /// Compute the cache key of these sources compiled with these flags.
    HashSources { sources: Vec<String>, fingerprint: Vec<String> },
    /// Ask the global build cache for the archive of `key`.
    LookupCache { key: String },
    /// Copy the cached archive to the artifact's path.
    Restore { cached: String, artifact: String },
    /// Compile these units (their object directories created first).
    Compile { units: Vec<CompileUnit> },
    /// Run these link candidates, as `link_step` decides between them.
    Link { commands: Vec<LinkCommand> },
    /// Store the artifact in the global build cache under `key`.
    Store { key: String, artifact: String },
    /// The build is over, with this artifact.
    Finish(BuiltArtifact),
}

/// What came of the last action.
pub enum BuildEvent {
    /// The build is asked to start.
    Start,
    /// The files under the sources directory, relative to it.
    Scanned(Vec<String>),
    /// The cache key of the sources.
    Hashed(String),
    /// The cached archive's path, when the cache holds one.
    LookedUp(Option<String>),
    /// The cached archive is in place.
    Restored,
    /// The objects the units compiled to.
    Compiled(Vec<String>),
    /// The artifact is linked.
    Linked,
    /// Whether the archive was stored in the cache.
    StoreDone(bool),
    /// The last action failed with this error.
    Failed(RevolError),
}

/// A package build in progress.
pub struct BuildState {
    pub phase: BuildPhase,
    pub compiler: Compiler,
    pub layout: Layout,
    pub package_name: String,
    /// `target/<debug|release>`.
    pub profile: String,
    pub obj_dir: String,
    pub artifact: String,
    /// The directory the compiler runs from, for the compilation database.
    pub cwd: String,
    pub platform: Platform,
    /// The planned units, until they are handed out to compile.
    pub units: Vec<CompileUnit>,
    pub has_cpp: bool,
    /// The compilation database entries of the planned units.
    pub planned: Vec<CompileCommandEntry>,
    /// The cache key, for a library once it is known.
    pub key: Option<String>,
}

/// `units` are the planned units of `sources`: one per source, in order,
/// each with its object file and arguments; `has_cpp` says whether any is
/// C++.
pub open spec fn units_planned(c: Compiler, layout: Layout, sources: Seq<Seq<char>>, obj_dir: Seq<char>, platform: Platform,
    units: Seq<CompileUnit>, has_cpp: bool) -> bool {
    &&& units.len() == sources.len()
    &&& forall|i: int| 0 <= i < units.len() ==> {
        let u = #[trigger] units[i];
        let obj = object_path_spec(obj_dir, layout.src@, sources[i], platform);
        &&& u.source@ == sources[i]
        &&& u.object@ == obj
        &&& unit_plan(c, sources[i], obj) == Ok::<(Language, Seq<Seq<char>>), Seq<char>>((u.language, views(u.args@)))
    }
    &&& has_cpp == exists|i: int| 0 <= i < units.len() && (#[trigger] units[i]).language == Language::Cpp
}

/// `entries` are the compilation database entries of `units`, run from `cwd`.
pub open spec fn commands_planned(units: Seq<CompileUnit>, cwd: Seq<char>, entries: Seq<CompileCommandEntry>) -> bool {
    &&& entries.len() == units.len()
    &&& forall|i: int| 0 <= i < entries.len() ==> {
        &&& (#[trigger] entries[i]).directory@ == cwd
        &&& entries[i].file@ == units[i].source@
        &&& views(entries[i].arguments@) == seq![units[i].language.driver_spec()] + views(units[i].args@)
    }
}

/// The sources a scan of `files` yields for `layout`, or the layout error.
pub open spec fn scanned_sources(layout: Layout, files: Seq<Seq<char>>) -> core::result::Result<Seq<Seq<char>>, Seq<char>> {
    collect_spec(layout.entry_language, scan_spec(layout.src@, files, views(layout.include_globs@), views(layout.exclude@)))
}

/// The event the machine waits for in `phase` (a failure may come at any
/// point of a running build).
pub open spec fn expects(phase: BuildPhase, event: BuildEvent) -> bool {
    match event {
        BuildEvent::Failed(_) => !(phase is Ready) && !(phase is Over),
        BuildEvent::Start => phase is Ready,
        BuildEvent::Scanned(_) => phase is Scanning,
        BuildEvent::Hashed(_) => phase is Hashing,
        BuildEvent::LookedUp(_) => phase is LookingUp,
        BuildEvent::Restored => phase is Restoring,
        BuildEvent::Compiled(_) => phase is Compiling,
        BuildEvent::Linked => phase is Linking,
        BuildEvent::StoreDone(_) => phase is Storing,
    }
}

impl BuildState {
    /// What holds of every state the machine reaches: past the start the
    /// compiler settings have validated, and only a library ever deals with
    /// the global build cache.
    pub open spec fn inv(self) -> bool {
        &&& !(self.phase is Ready) && !(self.phase is Over) ==> self.compiler.validate_spec() is Ok
        &&& (self.phase is Hashing || self.phase is LookingUp || self.phase is Restoring || self.phase is Storing)
            ==> self.layout.crate_kind == Crate::Library
        &&& (self.phase is LookingUp || self.phase is Restoring || self.phase is Storing) ==> self.key is Some
        &&& self.layout.crate_kind == Crate::Executable ==> self.key is None
    }

    /// The settings of the build, which no step changes.
    pub open spec fn same_build(self, other: BuildState) -> bool {
        &&& other.compiler == self.compiler
        &&& other.layout == self.layout
        &&& other.package_name@ == self.package_name@
        &&& other.profile@ == self.profile@
        &&& other.obj_dir@ == self.obj_dir@
        &&& other.artifact@ == self.artifact@
        &&& other.cwd@ == self.cwd@
        &&& other.platform == self.platform
    }

    /// The artifact a build that went through ends with.
    pub open spec fn finished(self, b: BuiltArtifact, cache_hit: bool) -> bool {
        &&& b.path@ == self.artifact@
        &&& b.cache_hit == cache_hit
        &&& b.compile_commands@ == self.planned@
    }
}

/// A package build about to start: its profile, object directory and
/// artifact path under `target_dir`, nothing planned yet.
pub fn build_begin(compiler: Compiler, layout: Layout, package_name: &str, target_dir: &str, output_name: Option<&str>,
    release: bool, cwd: &str, platform: Platform) -> (s: BuildState)
    ensures
        s.phase is Ready,
        s.inv(),
        s.compiler == compiler,
        s.layout == layout,
        s.package_name@ == package_name@,
        s.profile@ == join(target_dir@, if release { "release"@ } else { "debug"@ }),
        s.obj_dir@ == join(join(s.profile@, "obj"@), package_name@),
        s.artifact@ == join(s.profile@, artifact_name(layout.crate_kind, match output_name {
            Some(o) => o@,
            None => package_name@,
        }, platform)),
        s.cwd@ == cwd@,
        s.platform == platform,
        s.units@.len() == 0,
        s.planned@.len() == 0,
        s.key is None,
{
    let profile = profile_dir(target_dir, release);
    let objects = obj_dir(profile.as_str(), package_name);
    let artifact = artifact_path(profile.as_str(), layout.crate_kind, package_name, output_name, platform);
    BuildState {
        phase: BuildPhase::Ready,
        compiler,
        layout,
        package_name: owned(package_name),
        profile,
        obj_dir: objects,
        artifact,
        cwd: owned(cwd),
        platform,
        units: Vec::new(),
        has_cpp: false,
        planned: Vec::new(),
        key: None,
    }
}

/// The decision on the files a scan listed: the layout's error, the error
/// of a package without sources, an error planning a unit or fingerprinting
/// a library; otherwise the planned units and database entries, and then
/// the cache key for a library, the compile for an executable.
pub open spec fn scan_decided(s: BuildState, files: Seq<Seq<char>>, t: BuildState, a: BuildAction) -> bool {
        match scanned_sources(s.layout, files) {
            Err(m) => a matches BuildAction::Fail(e) && e.is_layout(m),
            Ok(v) => if v.len() == 0 {
                a matches BuildAction::Fail(e) && e.is_layout("package '"@ + s.package_name@ + "' has no source files under src/"@)
            } else {
                match a {
                    BuildAction::Fail(e) => (exists|i: int| #![trigger v[i]] 0 <= i < v.len()
                        && (unit_plan(s.compiler, v[i], object_path_spec(s.obj_dir@, s.layout.src@, v[i], s.platform)) matches Err(m)
                        && e.is_config(m)))
                        || (s.layout.crate_kind == Crate::Library && (s.compiler.flags_spec(s.layout.entry_language) matches Err(m)
                            && e.is_config(m))),
                    BuildAction::HashSources { sources, fingerprint } => {
                        &&& s.layout.crate_kind == Crate::Library
                        &&& t.phase is Hashing
                        &&& views(sources@) == v
                        &&& s.compiler.flags_spec(s.layout.entry_language) == Ok::<Seq<Seq<char>>, Seq<char>>(views(fingerprint@))
                        &&& units_planned(s.compiler, s.layout, v, s.obj_dir@, s.platform, t.units@, t.has_cpp)
                        &&& commands_planned(t.units@, s.cwd@, t.planned@)
                    },
                    BuildAction::Compile { units } => {
                        &&& s.layout.crate_kind == Crate::Executable
                        &&& t.phase is Compiling
                        &&& units_planned(s.compiler, s.layout, v, s.obj_dir@, s.platform, units@, t.has_cpp)
                        &&& commands_planned(units@, s.cwd@, t.planned@)
                    },
                    _ => false,
                }
            },
        }
}

fn finish(s: BuildState, cache_hit: bool) -> (r: (BuildState, BuildAction))
    requires
        s.inv(),
    ensures
        r.0.phase is Over,
        r.0.inv(),
        s.same_build(r.0),
        r.1 matches BuildAction::Finish(b) && s.finished(b, cache_hit),
{
    let mut s = s;
    let ghost s0 = s;
    let artifact = owned(s.artifact.as_str());
    let mut commands: Vec<CompileCommandEntry> = Vec::new();
    commands.append(&mut s.planned);
    s.phase = BuildPhase::Over;
    proof {
        assert(commands@ == s0.planned@);
    }
    (s, BuildAction::Finish(BuiltArtifact { path: artifact, cache_hit, compile_commands: commands }))
}

fn fail(s: BuildState, e: RevolError) -> (r: (BuildState, BuildAction))
    requires
        s.inv(),
    ensures
        r.0.phase is Over,
        r.0.inv(),
        s.same_build(r.0),
        r.1 == BuildAction::Fail(e),
{
    let mut s = s;
    s.phase = BuildPhase::Over;
    (s, BuildAction::Fail(e))
}

/// Plan the build of the scanned files: the sources, their units and
/// database entries; then, for a library, ask for the cache key, and for an
/// executable, compile.
fn after_scan(s: BuildState, files: Vec<String>) -> (r: (BuildState, BuildAction))
    requires
        s.inv(),
        s.phase is Scanning,
    ensures
        r.0.inv(),
        s.same_build(r.0),
        r.1 is Fail ==> r.0.phase is Over,
        scan_decided(s, views(files@), r.0, r.1),
{
    let sources = match s.layout.collect_sources(&files) {
        Ok(v) => v,
        Err(e) => return fail(s, e),
    };
    if sources.len() == 0 {
        let e = no_sources_error(s.package_name.as_str());
        return fail(s, e);
    }
    let (units, has_cpp) = match plan_units(&s.compiler, &s.layout, &sources, s.obj_dir.as_str(), s.platform) {
        Ok(p) => p,
        Err(e) => {
            proof {
                let v = views(sources@);
                let i = choose|i: int| {
                    &&& 0 <= i < sources@.len()
                    &&& #[trigger] unit_plan(s.compiler, sources@[i]@, object_path_spec(s.obj_dir@, s.layout.src@, sources@[i]@, s.platform)) matches Err(m)
                    &&& e.is_config(m)
                };
                assert(v[i] == sources@[i]@);
            }
            return fail(s, e);
        },
    };
    let planned = entries_for_units(&units, s.cwd.as_str());
    proof {
        let v = views(sources@);
        assert forall|i: int| 0 <= i < units@.len() implies {
            let u = #[trigger] units@[i];
            let obj = object_path_spec(s.obj_dir@, s.layout.src@, v[i], s.platform);
            &&& u.source@ == v[i]
            &&& u.object@ == obj
            &&& unit_plan(s.compiler, v[i], obj) == Ok::<(Language, Seq<Seq<char>>), Seq<char>>((u.language, views(u.args@)))
        } by {
            assert(v[i] == sources@[i]@);
        }
    }
    let mut s = s;
    s.has_cpp = has_cpp;
    s.planned = planned;
    if s.layout.crate_kind == Crate::Library {
        let fingerprint = match s.compiler.cache_fingerprint(s.layout.entry_language) {
            Ok(f) => f,
            Err(e) => return fail(s, e),
        };
        s.units = units;
        s.phase = BuildPhase::Hashing;
        (s, BuildAction::HashSources { sources, fingerprint })
    } else {
        s.phase = BuildPhase::Compiling;
        (s, BuildAction::Compile { units })
    }
}

/// What one step of a package build decides: the next state `t` and the
/// action `a` for what came of the last action (`event`) in `state`.
pub open spec fn step_post(state: BuildState, event: BuildEvent, t: BuildState, a: BuildAction) -> bool {
    &&& (t.inv())
    &&& (state.same_build(t))
    // The compiler settings validate before anything else is done.
    &&& (!(a is Fail) ==> state.compiler.validate_spec() is Ok)
    &&& (state.phase is Ready ==> match state.compiler.validate_spec() {
            Err(m) => a matches BuildAction::Fail(e) && e.is_config(m) && t.phase is Over,
            Ok(_) => a matches BuildAction::Scan { obj_dir, src } && obj_dir@ == state.obj_dir@
                && src@ == state.layout.src@ && t.phase is Scanning,
        })
    // An executable never deals with the global build cache.
    &&& (state.layout.crate_kind == Crate::Executable ==> !(a is HashSources) && !(a is LookupCache)
            && !(a is Restore) && !(a is Store))
    &&& (a is Fail ==> t.phase is Over)
    &&& (match event {
            // A failure ends the build with that error, except a failure to
            // store in the cache, which never fails a finished build.
            BuildEvent::Failed(e) => !(state.phase is Storing) ==> (a == BuildAction::Fail(e) && t.phase is Over),
            BuildEvent::Start => true,
            BuildEvent::Scanned(files) => scan_decided(state, views(files@), t, a),
            BuildEvent::Hashed(key) => a matches BuildAction::LookupCache { key: k } && k@ == key@
                && t.phase is LookingUp && t.key == Some(key) && t.units@ == state.units@
                && t.planned@ == state.planned@ && t.has_cpp == state.has_cpp,
            // A cache hit restores the archive and ends with it, compiling
            // and linking nothing; a miss compiles the planned units.
            BuildEvent::LookedUp(Some(p)) => a matches BuildAction::Restore { cached, artifact }
                && cached@ == p@ && artifact@ == state.artifact@ && t.phase is Restoring && t.planned@ == state.planned@,
            BuildEvent::LookedUp(None) => a matches BuildAction::Compile { units } && units@ == state.units@
                && t.phase is Compiling && t.planned@ == state.planned@ && t.has_cpp == state.has_cpp
                && t.key == state.key,
            BuildEvent::Restored => a matches BuildAction::Finish(b) && state.finished(b, true) && t.phase is Over,
            BuildEvent::Compiled(objects) => a matches BuildAction::Link { commands }
                && crate::compiler::commands_view(commands@) == (if state.layout.crate_kind == Crate::Library {
                    crate::compiler::archiver_spec(views(objects@), state.artifact@, state.platform)
                } else {
                    seq![state.compiler.executable_link_spec(views(objects@), state.artifact@, state.has_cpp)]
                })
                && t.phase is Linking && t.planned@ == state.planned@ && t.key == state.key,
            // After the link a library is stored in the cache; an
            // executable is done.
            BuildEvent::Linked => match state.key {
                Some(k) => a matches BuildAction::Store { key, artifact } && key@ == k@ && artifact@ == state.artifact@
                    && t.phase is Storing && t.planned@ == state.planned@,
                None => a matches BuildAction::Finish(b) && state.finished(b, false) && t.phase is Over,
            },
            BuildEvent::StoreDone(_) => true,
        })
    // A restore ends in the cached artifact or an error, never a compile.
    &&& (state.phase is Restoring ==> (a is Fail || (a matches BuildAction::Finish(b) && state.finished(b, true))))
    // Whatever came of the store, the build ends with its fresh artifact.
    &&& (state.phase is Storing ==> (a matches BuildAction::Finish(b) && state.finished(b, false) && t.phase is Over))
}

/// Take the next decision of a package build from what came of the last
/// action.
pub fn build_step(state: BuildState, event: BuildEvent) -> (r: (BuildState, BuildAction))
    requires
        state.inv(),
        expects(state.phase, event),
    ensures
        step_post(state, event, r.0, r.1),
{
    match event {
        BuildEvent::Start => {
            match state.compiler.validate() {
                Err(e) => fail(state, e),
                Ok(_) => {
                    let mut s = state;
                    let objects = owned(s.obj_dir.as_str());
                    let src = owned(s.layout.src.as_str());
                    s.phase = BuildPhase::Scanning;
                    (s, BuildAction::Scan { obj_dir: objects, src })
                },
            }
        },
        BuildEvent::Failed(e) => {
            if state.phase == BuildPhase::Storing {
                finish(state, false)
            } else {
                fail(state, e)
            }
        },
        BuildEvent::Scanned(files) => after_scan(state, files),
        BuildEvent::Hashed(key) => {
            let mut s = state;
            let k = owned(key.as_str());
            s.key = Some(key);
            s.phase = BuildPhase::LookingUp;
            (s, BuildAction::LookupCache { key: k })
        },
        BuildEvent::LookedUp(found) => {
            let mut s = state;
            match found {
                Some(p) => {
                    let artifact = owned(s.artifact.as_str());
                    s.phase = BuildPhase::Restoring;
                    (s, BuildAction::Restore { cached: p, artifact })
                },
                None => {
                    let mut units: Vec<CompileUnit> = Vec::new();
                    units.append(&mut s.units);
                    s.phase = BuildPhase::Compiling;
                    (s, BuildAction::Compile { units })
                },
            }
        },
        BuildEvent::Restored => finish(state, true),
        BuildEvent::Compiled(objects) => {
            let mut s = state;
            let commands = s.compiler.link_command(&objects, s.artifact.as_str(), s.has_cpp,
                s.layout.crate_kind == Crate::Library, s.platform);
            s.phase = BuildPhase::Linking;
            (s, BuildAction::Link { commands })
        },
        BuildEvent::Linked => {
            match &state.key {
                Some(k) => {
                    let key = owned(k.as_str());
                    let artifact = owned(state.artifact.as_str());
                    let mut s = state;
                    s.phase = BuildPhase::Storing;
                    (s, BuildAction::Store { key, artifact })
                },
                None => finish(state, false),
            }
        },
        BuildEvent::StoreDone(_) => finish(state, false),
    }
}


/// A step that `build_step` takes: from a state that keeps the invariant,
/// on the event its phase waits for.
pub open spec fn step_taken(s: BuildState, e: BuildEvent, t: BuildState, a: BuildAction) -> bool {
    &&& s.inv()
    &&& expects(s.phase, e)
    &&& step_post(s, e, t, a)
}

/// A run of a package build from its start: `states[i]` takes
/// `events[i]` to `states[i + 1]` with `actions[i]`.
pub open spec fn run_of(states: Seq<BuildState>, events: Seq<BuildEvent>, actions: Seq<BuildAction>) -> bool {
    &&& states.len() == events.len() + 1
    &&& actions.len() == events.len()
    &&& states[0].phase is Ready
    &&& forall|i: int| #![trigger actions[i]] 0 <= i < events.len() ==> step_taken(states[i], events[i], states[i + 1], actions[i])
}

/// The phases between a scan and the end of a build.
pub open spec fn past_scan(p: BuildPhase) -> bool {
    p is Hashing || p is LookingUp || p is Restoring || p is Compiling || p is Linking || p is Storing
}

/// `e` is a scan of the build `s0` that found sources, and `cmds` are the
/// compilation database entries of their planned units, in source order.
pub open spec fn scan_plans(s0: BuildState, e: BuildEvent, cmds: Seq<CompileCommandEntry>) -> bool {
    match e {
        BuildEvent::Scanned(files) => match scanned_sources(s0.layout, views(files@)) {
            Ok(v) => v.len() > 0 && exists|units: Seq<CompileUnit>, has_cpp: bool|
                #[trigger] units_planned(s0.compiler, s0.layout, v, s0.obj_dir@, s0.platform, units, has_cpp)
                && commands_planned(units, s0.cwd@, cmds),
            Err(_) => false,
        },
        _ => false,
    }
}

proof fn lemma_run(states: Seq<BuildState>, events: Seq<BuildEvent>, actions: Seq<BuildAction>, k: int)
    requires
        run_of(states, events, actions),
        0 <= k < states.len(),
    ensures
        states[0].same_build(states[k]),
        past_scan(states[k].phase) ==> exists|j: int| 0 <= j < k && scan_plans(states[0], #[trigger] events[j], states[k].planned@),
    decreases k,
{
    if k > 0 {
        lemma_run(states, events, actions, k - 1);
        let s = states[k - 1];
        let e = events[k - 1];
        let t = states[k];
        let a = actions[k - 1];
        assert(step_taken(s, e, t, a));
        if past_scan(t.phase) {
            match e {
                BuildEvent::Scanned(files) => {
                    let v = scanned_sources(s.layout, views(files@))->Ok_0;
                    assert(scanned_sources(s.layout, views(files@)) is Ok);
                    assert(v.len() > 0);
                    match a {
                        BuildAction::HashSources { sources, fingerprint } => {
                            assert(units_planned(s.compiler, s.layout, v, s.obj_dir@, s.platform, t.units@, t.has_cpp));
                        },
                        BuildAction::Compile { units } => {
                            assert(units_planned(s.compiler, s.layout, v, s.obj_dir@, s.platform, units@, t.has_cpp));
                        },
                        _ => {},
                    }
                    assert(scan_plans(states[0], events[k - 1], t.planned@));
                },
                _ => {
                    assert(past_scan(s.phase) && t.planned@ == s.planned@);
                    let j = choose|j: int| 0 <= j < k - 1 && scan_plans(states[0], #[trigger] events[j], s.planned@);
                    assert(scan_plans(states[0], events[j], t.planned@));
                },
            }
        }
    }
}

/// Every build that finishes, served from the global build cache or
/// freshly compiled, ends with its artifact path and with the compilation
/// database of the sources its scan found: one entry per source, in
/// source order, each the planned unit's driver and arguments run from the
/// build's directory.
pub proof fn law_finished_build_holds_planned_database(states: Seq<BuildState>, events: Seq<BuildEvent>, actions: Seq<BuildAction>)
    requires
        run_of(states, events, actions),
    ensures
        forall|i: int| #![trigger actions[i]] 0 <= i < actions.len() && actions[i] is Finish ==> {
            &&& actions[i]->Finish_0.path@ == states[0].artifact@
            &&& exists|j: int| 0 <= j < i && scan_plans(states[0], #[trigger] events[j], actions[i]->Finish_0.compile_commands@)
        },
{
    assert forall|i: int| #![trigger actions[i]] 0 <= i < actions.len() && actions[i] is Finish implies {
        &&& actions[i]->Finish_0.path@ == states[0].artifact@
        &&& exists|j: int| 0 <= j < i && scan_plans(states[0], #[trigger] events[j], actions[i]->Finish_0.compile_commands@)
    } by {
        lemma_run(states, events, actions, i);
        let s = states[i];
        let b = actions[i]->Finish_0;
        assert(step_taken(s, events[i], states[i + 1], actions[i]));
        assert(past_scan(s.phase));
        assert(b.compile_commands@ == s.planned@);
        let j = choose|j: int| 0 <= j < i && scan_plans(states[0], #[trigger] events[j], s.planned@);
        assert(scan_plans(states[0], events[j], b.compile_commands@));
    }
}

} // verus!
