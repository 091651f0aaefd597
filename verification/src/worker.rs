//! The build coordinator: the goal arena, the planner that decides what
//! must be built or substituted, and the build-user allocation policy.

use vstd::prelude::*;

use crate::derivation::{Derivation, ParsedDerivation};
use crate::error::{BuildError, StoreError};
use crate::path::{StorePath, StorePathWithOutputs};
use crate::store::{MissingInfo, Store};
use crate::strutil::str_eq;
use crate::valid_path::{ValidPathInfo, ValidPathInfoV};

verus! {

/// Where a goal stands.
#[derive(Debug, PartialEq, Eq, Structural, Clone, Copy)]
pub enum ExitCode {
    EcBusy,
    EcSucces,
    EcFailed,
    EcNoSubstituters,
    EcIncompleteClosure,
}

/// Why a goal failed.
#[derive(Debug, PartialEq, Eq, Structural, Clone, Copy)]
pub enum Error {
    NotFound,
    Forbidden,
    Misc,
    Transient,
    Interrupted,
}

/// How paths are built.
#[derive(Debug, Copy, Clone, Eq, PartialEq, Structural)]
pub enum BuildMode {
    Normal,
}

/// A unit of work with a stable ordering key.
pub trait Goal {
    /// The sort key without a store at hand.
    fn key_nostore(&self) -> String;

    /// Advances the goal's state machine.
    fn start_work(&self) -> Result<(), BuildError>;
}

/// A goal that realises the outputs of one derivation. Goals reference
/// each other by index into the worker's arena, never by pointer.
#[derive(Debug)]
pub struct DerivationGoal {
    pub exit_code: ExitCode,
    pub build_mode: BuildMode,
    pub drv_path: StorePath,
    pub wanted_outputs: Vec<String>,
    pub use_derivation: bool,
    pub needs_restart: bool,
    pub retry_substitution: bool,
    pub nr_failed: usize,
    pub nr_no_substituters: usize,
    pub nr_incomplete_closure: usize,
    pub name: String,
    pub waitees: Vec<usize>,
    pub waiters: Vec<usize>,
    pub cur_round: usize,
    pub nr_rounds: usize,
    pub use_chroot: bool,
    pub fixed_output: bool,
    pub private_network: bool,
    pub sandbox_uid: u32,
    pub sandbox_gid: u32,
    pub tmp_dir: String,
    pub tmp_dir_in_sandbox: String,
    pub env: Vec<(String, String)>,
}

impl DerivationGoal {
    /// The derivation this goal realises.
    pub fn get_drv_path(&self) -> (r: StorePath)
        ensures
            r@ == self.drv_path@,
    {
        self.drv_path.clone_path()
    }

    /// The ordering key: `b$<name>$<printed drv path>`, so that builds
    /// sort after substitutions and by name among themselves.
    pub fn key<S: Store>(&self, store: &S) -> (r: String)
        requires
            self.drv_path.wf(),
            store.spec_has_store_dir(),
        ensures
            r@ == "b$"@ + self.drv_path@.skip(33) + seq!['$'] + crate::store::spec_print_path(
                store.spec_store_dir(),
                self.drv_path@,
            ),
    {
        let mut s = String::from_str("b$");
        let nm = self.drv_path.name();
        s.append(nm.as_str());
        crate::strutil::push_char(&mut s, '$');
        let printed = store.print_store_path(&self.drv_path);
        s.append(printed.as_str());
        assert(s@ =~= "b$"@ + self.drv_path@.skip(33) + seq!['$'] + crate::store::spec_print_path(
            store.spec_store_dir(),
            self.drv_path@,
        ));
        s
    }
}

impl Goal for DerivationGoal {
    fn key_nostore(&self) -> String {
        let mut s = String::from_str("b$");
        let nm = if self.drv_path.wf_check() {
            self.drv_path.name()
        } else {
            String::new()
        };
        s.append(nm.as_str());
        crate::strutil::push_char(&mut s, '$');
        s
    }

    fn start_work(&self) -> Result<(), BuildError> {
        Err(BuildError::SysError { msg: String::from_str("building is not implemented here") })
    }
}

/// The coordinator: it owns the goals, knows which are top-level and
/// which are awake, and counts running local builds. Goals are named by
/// their index in the arena.
#[derive(Debug)]
pub struct Worker {
    pub goals: Vec<DerivationGoal>,
    pub top_goals: Vec<usize>,
    pub awake: Vec<usize>,
    pub nr_local_builds: usize,
}

impl Worker {
    /// A worker with no goals.
    pub fn new() -> (r: Worker)
        ensures
            r.goals@.len() == 0,
            r.top_goals@.len() == 0,
            r.awake@.len() == 0,
            r.nr_local_builds == 0,
    {
        Worker { goals: Vec::new(), top_goals: Vec::new(), awake: Vec::new(), nr_local_builds: 0 }
    }

    /// How many local builds and substitutions are running.
    pub fn get_nr_local_builds(&self) -> (r: usize)
        ensures
            r == self.nr_local_builds,
    {
        self.nr_local_builds
    }

    /// Marks a goal as having work to do.
    pub fn wake_up(&mut self, goal: usize)
        requires
            goal < old(self).goals@.len(),
        ensures
            final(self).awake@ == old(self).awake@.push(goal),
            final(self).goals == old(self).goals,
            final(self).top_goals == old(self).top_goals,
            final(self).nr_local_builds == old(self).nr_local_builds,
    {
        self.awake.push(goal);
    }

    /// Creates a derivation goal in the arena and wakes it. The new
    /// goal starts busy, on round zero, without a sandbox.
    pub fn make_derivation_goal(
        &mut self,
        drv_path: StorePath,
        wanted_outputs: Vec<String>,
        build_mode: BuildMode,
        sandbox_build_dir: &str,
    ) -> (r: usize)
        ensures
            r == old(self).goals@.len(),
            final(self).goals@.len() == old(self).goals@.len() + 1,
            final(self).goals@.last().drv_path == drv_path,
            final(self).goals@.last().wanted_outputs == wanted_outputs,
            final(self).goals@.last().build_mode == build_mode,
            final(self).goals@.last().exit_code == ExitCode::EcBusy,
            final(self).goals@.last().cur_round == 0,
            final(self).goals@.last().nr_rounds == 0,
            !final(self).goals@.last().use_chroot,
            !final(self).goals@.last().fixed_output,
            final(self).goals@.last().private_network,
            final(self).goals@.last().tmp_dir_in_sandbox@ == sandbox_build_dir@,
            final(self).awake@ == old(self).awake@.push(old(self).goals@.len() as usize),
            forall|i: int|
                0 <= i < old(self).goals@.len() ==> final(self).goals@[i] == old(self).goals@[i],
    {
        let goal = DerivationGoal {
            exit_code: ExitCode::EcBusy,
            build_mode,
            drv_path,
            wanted_outputs,
            use_derivation: false,
            needs_restart: false,
            retry_substitution: false,
            nr_failed: 0,
            nr_no_substituters: 0,
            nr_incomplete_closure: 0,
            name: String::new(),
            waitees: Vec::new(),
            waiters: Vec::new(),
            cur_round: 0,
            nr_rounds: 0,
            use_chroot: false,
            fixed_output: false,
            private_network: true,
            sandbox_uid: 0,
            sandbox_gid: 0,
            tmp_dir: String::new(),
            tmp_dir_in_sandbox: sandbox_build_dir.to_owned(),
            env: Vec::new(),
        };
        let id = self.goals.len();
        self.goals.push(goal);
        self.awake.push(id);
        id
    }

    /// Drains the awake set and starts each goal. Building is not
    /// implemented here, so a worker with awake goals reports the first
    /// goal's failure; one with none returns once its top set is empty.
    pub fn run(&mut self) -> (r: Result<(), BuildError>)
        ensures
            r is Ok ==> final(self).awake@.len() == 0 || final(self).top_goals@.len() == 0,
    {
        loop
            decreases self.awake@.len(),
        {
            if self.top_goals.len() == 0 {
                return Ok(());
            }
            let next = match self.awake.pop() {
                Some(g) => g,
                None => {
                    return Ok(());
                },
            };
            if next < self.goals.len() {
                self.goals[next].start_work()?;
            }
        }
    }
}

/// One build user considered for allocation: resolved name and uid, and
/// whether this daemon holds its pool lock.
#[derive(Debug)]
pub struct BuildUserCandidate {
    pub name: String,
    pub uid: u32,
    pub lock_acquired: bool,
}

/// The first candidate whose lock was acquired.
pub open spec fn spec_first_locked(cands: Seq<BuildUserCandidate>, i: int) -> Option<int>
    decreases cands.len() - i,
{
    if i < 0 || i >= cands.len() {
        None
    } else if cands[i].lock_acquired {
        Some(i)
    } else {
        spec_first_locked(cands, i + 1)
    }
}

/// Picks the build user: the first candidate whose pool lock was taken.
/// No candidates at all means no build users are configured; a winner
/// that is the daemon's own user is refused; no lock taken means every
/// user is busy.
pub fn choose_build_user(cands: &Vec<BuildUserCandidate>, self_uid: u32, self_euid: u32) -> (r:
    Result<usize, BuildError>)
    ensures
        match r {
            Ok(i) => spec_first_locked(cands@, 0) == Some(i as int) && cands@[i as int].uid
                != self_uid && cands@[i as int].uid != self_euid,
            Err(e) => match e {
                BuildError::NoBuildUsers => cands@.len() == 0,
                BuildError::UserInGroup { .. } => spec_first_locked(cands@, 0) matches Some(j)
                    && (cands@[j].uid == self_uid || cands@[j].uid == self_euid),
                BuildError::NoFreeUsers => cands@.len() > 0 && spec_first_locked(cands@, 0)
                    is None,
                _ => false,
            },
        },
{
    if cands.len() == 0 {
        return Err(BuildError::NoBuildUsers);
    }
    let mut i: usize = 0;
    while i < cands.len()
        invariant
            i <= cands@.len(),
            spec_first_locked(cands@, 0) == spec_first_locked(cands@, i as int),
        decreases cands@.len() - i,
    {
        if cands[i].lock_acquired {
            if cands[i].uid == self_uid || cands[i].uid == self_euid {
                return Err(BuildError::UserInGroup {
                    group: String::from_str("build-users-group"),
                });
            }
            return Ok(i);
        }
        i = i + 1;
    }
    Err(BuildError::NoFreeUsers)
}

/// A store that can answer validity, substitutability and derivation
/// texts: what the planner needs.
pub trait ReadStore: Store {
    /// Whether a path is registered valid.
    spec fn spec_is_valid(&self, path: Seq<char>) -> bool;

    /// The stored text of a derivation, if the store holds one.
    spec fn spec_drv_text(&self, path: Seq<char>) -> Option<Seq<char>>;

    /// What a substituter offers for a path: download and archive sizes.
    spec fn spec_substitutable(&self, path: Seq<char>) -> Option<(u64, u64)>;

    /// Whether a path is valid.
    fn is_valid_path(&self, path: &StorePath) -> (r: Result<bool, StoreError>)
        ensures
            r matches Ok(b) ==> b == self.spec_is_valid(path@),
    ;

    /// Reads the text of a derivation.
    fn read_derivation(&self, path: &StorePath) -> (r: Result<String, StoreError>)
        ensures
            r matches Ok(s) ==> self.spec_drv_text(path@) == Some(s@),
    ;

    /// Asks the substituters about a path.
    fn query_substitutable(&self, path: &StorePath) -> (r: Option<(u64, u64)>)
        ensures
            r == self.spec_substitutable(path@),
    ;
}

/// Plans what realising `paths` would take, walking a work list. A
/// valid derivation with missing wanted outputs asks the substituters
/// about each; any miss sends the derivation to `will_build` and queues
/// its input derivations. An invalid derivation is `unknown`. A plain
/// path is counted for substitution on a hit and `unknown` on a miss.
/// Each path is visited once, keyed by its name: the first of two
/// namesakes decides for both.
#[verifier::rlimit(100)]
pub fn query_missing<S: ReadStore>(store: &S, paths: &Vec<StorePathWithOutputs>) -> (r: Result<
    MissingInfo,
    StoreError,
>)
    requires
        store.spec_has_store_dir(),
    ensures
        paths@.len() == 0 ==> (r matches Ok(info) && info.done@.len() == 0
            && info.will_build@.len() == 0 && info.will_substitute@.len() == 0
            && info.unknown@.len() == 0 && info.download_size == 0 && info.nar_size == 0),
        r matches Ok(info) ==> (forall|i: int|
            0 <= i < info.will_build@.len() ==> spec_will_build_entry(
                store,
                (#[trigger] info.will_build@[i])@,
            )),
        r matches Ok(info) ==> (forall|i: int|
            0 <= i < info.unknown@.len() ==> !store.spec_is_valid((#[trigger] info.unknown@[i])@)),
        r matches Ok(info) ==> (forall|i: int|
            0 <= i < info.will_substitute@.len() ==> !store.spec_is_valid(
                (#[trigger] info.will_substitute@[i])@,
            ) && store.spec_substitutable(info.will_substitute@[i]@) is Some),
        r matches Ok(info) ==> (forall|i: int|
            0 <= i < paths@.len() && spec_first_occ(paths@, i) ==> spec_classified(
                store,
                (#[trigger] paths@[i]).path@,
                paths@[i].outputs.deep_view(),
                info,
            )),
        !(r matches Err(StoreError::NoBuildJobs { .. })),
{
    let mut info = MissingInfo::new();
    let mut queue: Vec<StorePathWithOutputs> = Vec::new();
    let mut i: usize = 0;
    while i < paths.len()
        invariant
            i <= paths@.len(),
            queue@.len() == i,
            forall|j: int|
                0 <= j < i ==> (#[trigger] queue@[j]).path@ == paths@[j].path@
                    && queue@[j].outputs.deep_view() == paths@[j].outputs.deep_view(),
        decreases paths@.len() - i,
    {
        let p = &paths[i];
        queue.push(
            StorePathWithOutputs::new_with_outputs(p.path.clone_path(), clone_strings(&p.outputs)),
        );
        i = i + 1;
    }
    let ghost n0 = paths@.len() as int;
    let mut cursor: usize = 0;
    let mut fuel: u64 = u64::MAX;
    while cursor < queue.len() && fuel > 0
        invariant
            store.spec_has_store_dir(),
            cursor <= queue@.len(),
            n0 == paths@.len(),
            n0 <= queue@.len(),
            forall|j: int|
                0 <= j < n0 ==> (#[trigger] queue@[j]).path@ == paths@[j].path@
                    && queue@[j].outputs.deep_view() == paths@[j].outputs.deep_view(),
            paths@.len() == 0 ==> (cursor == 0 && queue@.len() == 0 && info.done@.len() == 0
                && info.will_build@.len() == 0 && info.will_substitute@.len() == 0
                && info.unknown@.len() == 0 && info.download_size == 0 && info.nar_size == 0),
            forall|i: int|
                0 <= i < info.will_build@.len() ==> spec_will_build_entry(
                    store,
                    (#[trigger] info.will_build@[i])@,
                ),
            forall|i: int|
                0 <= i < info.unknown@.len() ==> !store.spec_is_valid(
                    (#[trigger] info.unknown@[i])@,
                ),
            forall|i: int|
                0 <= i < info.will_substitute@.len() ==> !store.spec_is_valid(
                    (#[trigger] info.will_substitute@[i])@,
                ) && store.spec_substitutable(info.will_substitute@[i]@) is Some,
            forall|di: int|
                0 <= di < info.done@.len() ==> exists|j: int|
                    0 <= j < cursor && j < queue@.len() && (#[trigger] info.done@[di])@
                        == spec_plan_name(queue@[j].path@),
            forall|i: int|
                0 <= i < cursor && i < n0 && spec_first_occ(paths@, i) ==> spec_classified(
                    store,
                    (#[trigger] paths@[i]).path@,
                    paths@[i].outputs.deep_view(),
                    info,
                ),
        decreases fuel,
    {
        fuel = fuel - 1;
        let ghost c0 = cursor as int;
        let p_path = queue[cursor].path.clone_path();
        let p_outputs = clone_strings(&queue[cursor].outputs);
        cursor = cursor + 1;
        let nm = if p_path.wf_check() {
            p_path.name()
        } else {
            p_path.to_text()
        };
        proof {
            assert(nm@ == spec_plan_name(p_path@));
        }
        if contains_string(&info.done, nm.as_str()) {
            proof {
                if c0 < n0 && spec_first_occ(paths@, c0) {
                    let di = choose|di: int|
                        0 <= di < info.done@.len() && (#[trigger] info.done@[di])@ == nm@;
                    let j = choose|j: int|
                        0 <= j < c0 && j < queue@.len() && info.done@[di]@ == spec_plan_name(
                            queue@[j].path@,
                        );
                    assert(spec_plan_name(paths@[j].path@) == spec_plan_name(paths@[c0].path@));
                    assert(false);
                }
            }
            continue ;
        }
        info.done.push(nm);
        let ghost pre_info = info;
        let ghost pre_queue = queue@;
        match classify_one(store, &mut info, &mut queue, &p_path, &p_outputs) {
            Ok(()) => {},
            Err(e) => {
                return Err(e);
            },
        }
        proof {
            assert forall|i: int|
                0 <= i < info.will_build@.len() implies spec_will_build_entry(
                store,
                (#[trigger] info.will_build@[i])@,
            ) by {
                if i < pre_info.will_build@.len() {
                    assert(info.will_build@[i] == pre_info.will_build@[i]);
                }
            }
            assert forall|i: int|
                0 <= i < info.unknown@.len() implies !store.spec_is_valid(
                (#[trigger] info.unknown@[i])@,
            ) by {
                if i < pre_info.unknown@.len() {
                    assert(info.unknown@[i] == pre_info.unknown@[i]);
                }
            }
            assert forall|i: int|
                0 <= i < info.will_substitute@.len() implies !store.spec_is_valid(
                (#[trigger] info.will_substitute@[i])@,
            ) && store.spec_substitutable(info.will_substitute@[i]@) is Some by {
                if i < pre_info.will_substitute@.len() {
                    assert(info.will_substitute@[i] == pre_info.will_substitute@[i]);
                }
            }
            assert forall|j: int|
                0 <= j < n0 implies (#[trigger] queue@[j]).path@ == paths@[j].path@
                    && queue@[j].outputs.deep_view() == paths@[j].outputs.deep_view() by {
                assert(queue@[j] == pre_queue[j]);
            }
            assert forall|di: int|
                0 <= di < info.done@.len() implies exists|j: int|
                0 <= j < cursor && j < queue@.len() && (#[trigger] info.done@[di])@
                    == spec_plan_name(queue@[j].path@) by {
                assert(info.done@ == pre_info.done@);
                let j = choose|j: int|
                    0 <= j < cursor && j < pre_queue.len() && pre_info.done@[di]@
                        == spec_plan_name(pre_queue[j].path@);
                assert(queue@[j] == pre_queue[j]);
            }
            assert forall|i: int|
                0 <= i < cursor && i < n0 && spec_first_occ(paths@, i) implies spec_classified(
                store,
                (#[trigger] paths@[i]).path@,
                paths@[i].outputs.deep_view(),
                info,
            ) by {
                if i < c0 {
                    lemma_classified_monotone(
                        store,
                        paths@[i].path@,
                        paths@[i].outputs.deep_view(),
                        pre_info,
                        info,
                    );
                } else {
                    assert(p_path@ == pre_queue[c0].path@);
                    assert(p_path@ == paths@[c0].path@);
                    assert(p_outputs.deep_view() == paths@[c0].outputs.deep_view());
                }
            }
        }
    }
    if cursor < queue.len() {
        return Err(StoreError::Io { msg: String::from_str("planning ran too long") });
    }
    Ok(info)
}

/// Examines one visited path and records its classification. The inputs
/// of a derivation sent to the build set are appended to `queue`.
#[verifier::rlimit(100)]
fn classify_one<S: ReadStore>(
    store: &S,
    info: &mut MissingInfo,
    queue: &mut Vec<StorePathWithOutputs>,
    p_path: &StorePath,
    p_outputs: &Vec<String>,
) -> (r: Result<(), StoreError>)
    requires
        store.spec_has_store_dir(),
    ensures
        final(info).done@ == old(info).done@,
        spec_extends(old(info).unknown@, final(info).unknown@),
        spec_extends(old(info).will_build@, final(info).will_build@),
        spec_extends(old(info).will_substitute@, final(info).will_substitute@),
        forall|i: int|
            old(info).unknown@.len() <= i < final(info).unknown@.len() ==> !store.spec_is_valid(
                (#[trigger] final(info).unknown@[i])@,
            ),
        forall|i: int|
            old(info).will_substitute@.len() <= i < final(info).will_substitute@.len() ==> {
                &&& !store.spec_is_valid((#[trigger] final(info).will_substitute@[i])@)
                &&& store.spec_substitutable(final(info).will_substitute@[i]@) is Some
            },
        forall|i: int|
            old(info).will_build@.len() <= i < final(info).will_build@.len()
                ==> spec_will_build_entry(store, (#[trigger] final(info).will_build@[i])@),
        old(queue)@.len() <= final(queue)@.len(),
        forall|i: int| 0 <= i < old(queue)@.len() ==> final(queue)@[i] == #[trigger] old(queue)@[i],
        r is Ok ==> spec_classified(store, p_path@, p_outputs.deep_view(), *final(info)),
        !(r matches Err(StoreError::NoBuildJobs { .. })),
{
    let ghost wantedv = p_outputs.deep_view();
    proof {
        assert(wantedv.len() == p_outputs@.len());
    }
    if p_path.is_derivation() {
        let valid = match store.is_valid_path(p_path) {
            Ok(v) => v,
            Err(e) => {
                return Err(sanitize_plan_error(e));
            },
        };
        if !valid {
            let ghost unkp = info.unknown@;
            info.unknown.push(p_path.clone_path());
            proof {
                assert(info.unknown@[unkp.len() as int]@ == p_path@);
            }
            return Ok(());
        }
        let text = match store.read_derivation(p_path) {
            Ok(v) => v,
            Err(e) => {
                return Err(sanitize_plan_error(e));
            },
        };
        let drv = match Derivation::from_str(text.as_str(), store) {
            Ok(v) => v,
            Err(e) => {
                return Err(sanitize_plan_error(e));
            },
        };
        let ghost dv = drv@;
        let parsed = match ParsedDerivation::new(p_path.clone_path(), drv) {
            Ok(v) => v,
            Err(e) => {
                return Err(sanitize_plan_error(e));
            },
        };
        proof {
            assert(spec_drv_of(store, p_path@) == Some(dv));
            assert(parsed.derivation@ == dv);
        }
        let mut invalid: Vec<StorePath> = Vec::new();
        let mut k: usize = 0;
        while k < parsed.derivation.outputs.len()
            invariant
                store.spec_has_store_dir(),
                parsed.derivation@ == dv,
                info.unknown@ == old(info).unknown@,
                info.will_build@ == old(info).will_build@,
                info.will_substitute@ == old(info).will_substitute@,
                info.done@ == old(info).done@,
                queue@ == old(queue)@,
                wantedv.len() == p_outputs@.len(),
                wantedv == p_outputs.deep_view(),
                k <= parsed.derivation.outputs@.len(),
                dv.outputs.len() == parsed.derivation.outputs@.len(),
                forall|j: int|
                    0 <= j < invalid@.len() ==> spec_invalid_entry(
                        store,
                        dv,
                        wantedv,
                        (#[trigger] invalid@[j])@,
                    ),
                forall|m: int|
                    0 <= m < k && spec_wanted(wantedv, (#[trigger] dv.outputs[m]).0)
                        && !store.spec_is_valid(dv.outputs[m].1.path) ==> contains_path(
                        invalid@,
                        dv.outputs[m].1.path,
                    ),
            decreases parsed.derivation.outputs@.len() - k,
        {
            let (name, out) = &parsed.derivation.outputs[k];
            proof {
                assert(dv.outputs[k as int] == (
                    parsed.derivation.outputs@[k as int].0@,
                    parsed.derivation.outputs@[k as int].1@,
                ));
            }
            let wanted = p_outputs.len() == 0 || crate::derivation::vec_contains_str(
                p_outputs,
                name.as_str(),
            );
            proof {
                assert(wanted == spec_wanted(wantedv, dv.outputs[k as int].0));
            }
            if wanted {
                let out_valid = match store.is_valid_path(&out.path) {
                    Ok(v) => v,
                    Err(e) => {
                        return Err(sanitize_plan_error(e));
                    },
                };
                if !out_valid {
                    let ghost inv0 = invalid@;
                    invalid.push(out.path.clone_path());
                    proof {
                        assert(invalid@[inv0.len() as int]@ == dv.outputs[k as int].1.path);
                        assert forall|j: int|
                            0 <= j < invalid@.len() implies spec_invalid_entry(
                            store,
                            dv,
                            wantedv,
                            (#[trigger] invalid@[j])@,
                        ) by {
                            if j < inv0.len() {
                                assert(invalid@[j] == inv0[j]);
                            } else {
                                assert(spec_wanted(wantedv, dv.outputs[k as int].0)
                                    && !store.spec_is_valid(dv.outputs[k as int].1.path)
                                    && invalid@[j]@ == dv.outputs[k as int].1.path);
                            }
                        }
                        assert forall|m: int|
                            0 <= m < k + 1 && spec_wanted(wantedv, (#[trigger] dv.outputs[m]).0)
                                && !store.spec_is_valid(dv.outputs[m].1.path) implies contains_path(
                            invalid@,
                            dv.outputs[m].1.path,
                        ) by {
                            if m < k {
                                let j = choose|j: int|
                                    0 <= j < inv0.len() && (#[trigger] inv0[j])@
                                        == dv.outputs[m].1.path;
                                assert(invalid@[j]@ == dv.outputs[m].1.path);
                            } else {
                                assert(invalid@[inv0.len() as int]@ == dv.outputs[m].1.path);
                            }
                        }
                    }
                }
            }
            k = k + 1;
        }
        if invalid.len() == 0 {
            proof {
                assert(!spec_missing_wanted_output(store, dv, wantedv)) by {
                    if spec_missing_wanted_output(store, dv, wantedv) {
                        let m = choose|m: int|
                            0 <= m < dv.outputs.len() && spec_wanted(
                                wantedv,
                                (#[trigger] dv.outputs[m]).0,
                            ) && !store.spec_is_valid(dv.outputs[m].1.path);
                        assert(contains_path(invalid@, dv.outputs[m].1.path));
                        assert(false);
                    }
                }
            }
            return Ok(());
        }
        let ghost unk0 = info.unknown@;
        let ghost wb0 = info.will_build@;
        let ghost ws0 = info.will_substitute@;
        let ghost done0 = info.done@;
        let subs_allowed = parsed.substitutes_allowed();
        proof {
            assert(subs_allowed == spec_subs_allowed(dv));
        }
        let mut all_substitutable = true;
        if subs_allowed {
            let mut k2: usize = 0;
            while k2 < invalid.len()
                invariant
                    store.spec_has_store_dir(),
                    k2 <= invalid@.len(),
                    queue@ == old(queue)@,
                    info.unknown@ == unk0,
                    info.will_build@ == wb0,
                    info.done@ == done0,
                    spec_extends(ws0, info.will_substitute@),
                    forall|i: int|
                        ws0.len() <= i < info.will_substitute@.len() ==> {
                            &&& !store.spec_is_valid((#[trigger] info.will_substitute@[i])@)
                            &&& store.spec_substitutable(info.will_substitute@[i]@) is Some
                        },
                    forall|j: int|
                        0 <= j < invalid@.len() ==> spec_invalid_entry(
                            store,
                            dv,
                            wantedv,
                            (#[trigger] invalid@[j])@,
                        ),
                    all_substitutable <==> !(exists|j: int|
                        0 <= j < k2 && store.spec_substitutable(
                            (#[trigger] invalid@[j])@,
                        ) is None),
                    forall|j: int|
                        0 <= j < k2 && store.spec_substitutable(
                            (#[trigger] invalid@[j])@,
                        ) is Some ==> contains_path(info.will_substitute@, invalid@[j]@),
                decreases invalid@.len() - k2,
            {
                match store.query_substitutable(&invalid[k2]) {
                    Some((dl, nar)) => {
                        let ghost wsp = info.will_substitute@;
                        info.will_substitute.push(invalid[k2].clone_path());
                        info.download_size = add_saturating(info.download_size, dl);
                        info.nar_size = add_saturating(info.nar_size, nar);
                        proof {
                            assert(spec_invalid_entry(store, dv, wantedv, invalid@[k2 as int]@));
                            let m = choose|m: int|
                                0 <= m < dv.outputs.len() && spec_wanted(
                                    wantedv,
                                    (#[trigger] dv.outputs[m]).0,
                                ) && !store.spec_is_valid(dv.outputs[m].1.path)
                                    && invalid@[k2 as int]@ == dv.outputs[m].1.path;
                            assert(info.will_substitute@[wsp.len() as int]@
                                == invalid@[k2 as int]@);
                            assert(!store.spec_is_valid(invalid@[k2 as int]@));
                            assert forall|j: int|
                                0 <= j < k2 + 1 && store.spec_substitutable(
                                    (#[trigger] invalid@[j])@,
                                ) is Some implies contains_path(
                                info.will_substitute@,
                                invalid@[j]@,
                            ) by {
                                if j < k2 {
                                    let jj = choose|jj: int|
                                        0 <= jj < wsp.len() && (#[trigger] wsp[jj])@
                                            == invalid@[j]@;
                                    assert(info.will_substitute@[jj]@ == invalid@[j]@);
                                } else {
                                    assert(info.will_substitute@[wsp.len() as int]@
                                        == invalid@[j]@);
                                }
                            }
                        }
                    },
                    None => {
                        all_substitutable = false;
                    },
                }
                k2 = k2 + 1;
            }
        } else {
            all_substitutable = false;
        }
        if !all_substitutable {
            let ghost wbp = info.will_build@;
            info.will_build.push(p_path.clone_path());
            queue_inputs(queue, &parsed.derivation.inputs);
            proof {
                assert(info.will_build@[wbp.len() as int]@ == p_path@);
                assert(spec_will_build_entry(store, p_path@)) by {
                    assert(spec_invalid_entry(store, dv, wantedv, invalid@[0]@));
                    let m0 = choose|m: int|
                        0 <= m < dv.outputs.len() && spec_wanted(
                            wantedv,
                            (#[trigger] dv.outputs[m]).0,
                        ) && !store.spec_is_valid(dv.outputs[m].1.path) && invalid@[0]@
                        == dv.outputs[m].1.path;
                    assert(!store.spec_is_valid(dv.outputs[m0].1.path));
                    if spec_subs_allowed(dv) {
                        let j = choose|j: int|
                            0 <= j < invalid@.len() && store.spec_substitutable(
                                (#[trigger] invalid@[j])@,
                            ) is None;
                        assert(spec_invalid_entry(store, dv, wantedv, invalid@[j]@));
                        let m = choose|m: int|
                            0 <= m < dv.outputs.len() && spec_wanted(
                                wantedv,
                                (#[trigger] dv.outputs[m]).0,
                            ) && !store.spec_is_valid(dv.outputs[m].1.path) && invalid@[j]@
                            == dv.outputs[m].1.path;
                        assert(!store.spec_is_valid(dv.outputs[m].1.path)
                            && store.spec_substitutable(dv.outputs[m].1.path) is None);
                    }
                }
                if spec_subs_allowed(dv) {
                    assert forall|m: int|
                        0 <= m < dv.outputs.len() && spec_wanted(
                            wantedv,
                            (#[trigger] dv.outputs[m]).0,
                        ) && !store.spec_is_valid(dv.outputs[m].1.path)
                            && store.spec_substitutable(dv.outputs[m].1.path) is Some implies contains_path(
                        info.will_substitute@,
                        dv.outputs[m].1.path,
                    ) by {
                        assert(contains_path(invalid@, dv.outputs[m].1.path));
                        let j = choose|j: int|
                            0 <= j < invalid@.len() && (#[trigger] invalid@[j])@
                                == dv.outputs[m].1.path;
                        assert(store.spec_substitutable(invalid@[j]@) is Some);
                        assert(contains_path(info.will_substitute@, invalid@[j]@));
                    }
                }
                assert(spec_classified(store, p_path@, wantedv, *info));
            }
            return Ok(());
        }
        proof {
            assert(spec_subs_allowed(dv));
            assert(!spec_unsubstitutable_wanted_output(store, dv, wantedv)) by {
                if spec_unsubstitutable_wanted_output(store, dv, wantedv) {
                    let m = choose|m: int|
                        0 <= m < dv.outputs.len() && spec_wanted(
                            wantedv,
                            (#[trigger] dv.outputs[m]).0,
                        ) && !store.spec_is_valid(dv.outputs[m].1.path)
                            && store.spec_substitutable(dv.outputs[m].1.path) is None;
                    assert(contains_path(invalid@, dv.outputs[m].1.path));
                    let j = choose|j: int|
                        0 <= j < invalid@.len() && (#[trigger] invalid@[j])@
                            == dv.outputs[m].1.path;
                    assert(store.spec_substitutable(invalid@[j]@) is None);
                    assert(false);
                }
            }
            assert forall|m: int|
                0 <= m < dv.outputs.len() && spec_wanted(wantedv, (#[trigger] dv.outputs[m]).0)
                    && !store.spec_is_valid(dv.outputs[m].1.path) && store.spec_substitutable(
                    dv.outputs[m].1.path,
                ) is Some implies contains_path(info.will_substitute@, dv.outputs[m].1.path) by {
                assert(contains_path(invalid@, dv.outputs[m].1.path));
                let j = choose|j: int|
                    0 <= j < invalid@.len() && (#[trigger] invalid@[j])@ == dv.outputs[m].1.path;
                assert(store.spec_substitutable(invalid@[j]@) is Some);
                assert(contains_path(info.will_substitute@, invalid@[j]@));
            }
            assert(spec_classified(store, p_path@, wantedv, *info));
        }
        Ok(())
    } else {
        let valid = match store.is_valid_path(p_path) {
            Ok(v) => v,
            Err(e) => {
                return Err(sanitize_plan_error(e));
            },
        };
        if !valid {
            match store.query_substitutable(p_path) {
                Some((dl, nar)) => {
                    let ghost wsp = info.will_substitute@;
                    info.will_substitute.push(p_path.clone_path());
                    info.download_size = add_saturating(info.download_size, dl);
                    info.nar_size = add_saturating(info.nar_size, nar);
                    proof {
                        assert(info.will_substitute@[wsp.len() as int]@ == p_path@);
                    }
                },
                None => {
                    let ghost unkp = info.unknown@;
                    info.unknown.push(p_path.clone_path());
                    proof {
                        assert(info.unknown@[unkp.len() as int]@ == p_path@);
                    }
                },
            }
        }
        Ok(())
    }
}

/// Appends each input of a derivation to the work list.
fn queue_inputs(queue: &mut Vec<StorePathWithOutputs>, inputs: &Vec<(StorePath, Vec<String>)>)
    ensures
        old(queue)@.len() <= final(queue)@.len(),
        forall|i: int| 0 <= i < old(queue)@.len() ==> final(queue)@[i] == #[trigger] old(queue)@[i],
{
    let mut k3: usize = 0;
    while k3 < inputs.len()
        invariant
            k3 <= inputs@.len(),
            old(queue)@.len() <= queue@.len(),
            forall|i: int| 0 <= i < old(queue)@.len() ==> queue@[i] == #[trigger] old(queue)@[i],
        decreases inputs@.len() - k3,
    {
        let (ipath, iouts) = &inputs[k3];
        queue.push(
            StorePathWithOutputs::new_with_outputs(ipath.clone_path(), clone_strings(iouts)),
        );
        k3 = k3 + 1;
    }
}

fn clone_strings(v: &Vec<String>) -> (r: Vec<String>)
    ensures
        r.deep_view() == v.deep_view(),
{
    let mut out: Vec<String> = Vec::new();
    let mut i: usize = 0;
    while i < v.len()
        invariant
            i <= v@.len(),
            out@.len() == i,
            forall|k: int| 0 <= k < i ==> out@[k]@ == v@[k]@,
        decreases v@.len() - i,
    {
        out.push(v[i].as_str().to_owned());
        i = i + 1;
    }
    proof {
        assert forall|k: int| 0 <= k < out@.len() implies out.deep_view()[k] == v.deep_view()[k] by {
            assert(out.deep_view()[k] == out@[k]@);
            assert(v.deep_view()[k] == v@[k]@);
        }
        assert(out.deep_view() =~= v.deep_view());
    }
    out
}

fn sanitize_plan_error(e: StoreError) -> (r: StoreError)
    ensures
        !(r matches StoreError::NoBuildJobs { .. }),
{
    match e {
        StoreError::NoBuildJobs { .. } => StoreError::Io {
            msg: String::from_str("planning failed"),
        },
        other => other,
    }
}

fn add_saturating(a: u64, b: u64) -> (r: u64)
    ensures
        r == if a + b <= u64::MAX {
            a + b
        } else {
            u64::MAX as int
        },
{
    if a <= u64::MAX - b {
        a + b
    } else {
        u64::MAX
    }
}

fn contains_string(hay: &Vec<String>, needle: &str) -> (r: bool)
    ensures
        r == (exists|i: int| 0 <= i < hay@.len() && (#[trigger] hay@[i])@ == needle@),
{
    let mut i: usize = 0;
    while i < hay.len()
        invariant
            i <= hay@.len(),
            forall|k: int| 0 <= k < i ==> (#[trigger] hay@[k])@ != needle@,
        decreases hay@.len() - i,
    {
        if str_eq(hay[i].as_str(), needle) {
            return true;
        }
        i = i + 1;
    }
    false
}

/// Checks that the plan for `drvs` can be carried out: a plan whose
/// build set is not empty is refused when no build slots exist, and an
/// input that must be built forces such a refusal.
pub fn prime_cache<S: ReadStore>(
    store: &S,
    drvs: &Vec<StorePathWithOutputs>,
    max_build_jobs: usize,
) -> (r: Result<(), StoreError>)
    requires
        store.spec_has_store_dir(),
    ensures
        r matches Err(StoreError::NoBuildJobs { jobs }) ==> max_build_jobs == 0 && jobs >= 1,
        drvs@.len() == 0 ==> !(r matches Err(StoreError::NoBuildJobs { .. })),
        (max_build_jobs == 0 && exists|i: int|
            0 <= i < drvs@.len() && spec_first_occ(drvs@, i) && spec_input_must_build(
                store,
                (#[trigger] drvs@[i]).path@,
                drvs@[i].outputs.deep_view(),
            )) ==> r is Err,
{
    let missing = query_missing(store, drvs)?;
    if missing.will_build.len() != 0 && max_build_jobs == 0 {
        return Err(StoreError::NoBuildJobs { jobs: missing.will_build.len() });
    }
    proof {
        if max_build_jobs == 0 && exists|i: int|
            0 <= i < drvs@.len() && spec_first_occ(drvs@, i) && spec_input_must_build(
                store,
                (#[trigger] drvs@[i]).path@,
                drvs@[i].outputs.deep_view(),
            ) {
            let i = choose|i: int|
                0 <= i < drvs@.len() && spec_first_occ(drvs@, i) && spec_input_must_build(
                    store,
                    (#[trigger] drvs@[i]).path@,
                    drvs@[i].outputs.deep_view(),
                );
            assert(spec_classified(store, drvs@[i].path@, drvs@[i].outputs.deep_view(), missing));
            assert(contains_path(missing.will_build@, drvs@[i].path@));
            assert(false);
        }
    }
    Ok(())
}

/// Builds the given paths: the plan is checked first, and a plan that
/// needs builds while no build slots exist is refused.
pub fn build_paths<S: ReadStore>(
    store: &S,
    drvs: &Vec<StorePathWithOutputs>,
    _mode: BuildMode,
    max_build_jobs: usize,
) -> (r: Result<(), StoreError>)
    requires
        store.spec_has_store_dir(),
    ensures
        r matches Err(StoreError::NoBuildJobs { jobs }) ==> max_build_jobs == 0 && jobs >= 1,
        drvs@.len() == 0 ==> !(r matches Err(StoreError::NoBuildJobs { .. })),
        (max_build_jobs == 0 && exists|i: int|
            0 <= i < drvs@.len() && spec_first_occ(drvs@, i) && spec_input_must_build(
                store,
                (#[trigger] drvs@[i]).path@,
                drvs@[i].outputs.deep_view(),
            )) ==> r is Err,
{
    prime_cache(store, drvs, max_build_jobs)
}


/// An in-memory registered store: records, derivation texts, substituter
/// answers, and the written file trees. It serves `/nix/store`.
#[derive(Debug)]
pub struct MemStore {
    pub infos: Vec<ValidPathInfo>,
    pub drv_texts: Vec<(StorePath, String)>,
    pub substitutable: Vec<(StorePath, u64, u64)>,
    pub fs: crate::store::MockStore,
}

/// Whether some record holds the path.
pub open spec fn spec_mem_valid(infos: Seq<ValidPathInfo>, path: Seq<char>) -> bool {
    exists|i: int| 0 <= i < infos.len() && (#[trigger] infos[i]).path@ == path
}

/// The record registered for a path: the earliest entry, as the lookup
/// returns it.
pub open spec fn spec_mem_record(infos: Seq<ValidPathInfo>, path: Seq<char>) -> Option<
    crate::valid_path::ValidPathInfoV,
>
    decreases infos.len(),
{
    if infos.len() == 0 {
        None
    } else if infos.first().path@ == path {
        Some(infos.first()@)
    } else {
        spec_mem_record(infos.drop_first(), path)
    }
}

/// A record exists exactly when the path is valid.
pub proof fn lemma_mem_record_valid(infos: Seq<ValidPathInfo>, path: Seq<char>)
    ensures
        spec_mem_record(infos, path) is Some <==> spec_mem_valid(infos, path),
    decreases infos.len(),
{
    if infos.len() == 0 {
    } else if infos.first().path@ == path {
    } else {
        lemma_mem_record_valid(infos.drop_first(), path);
        assert forall|i: int|
            0 <= i < infos.len() && (#[trigger] infos[i]).path@ == path implies spec_mem_valid(
            infos.drop_first(),
            path,
        ) by {
            assert(infos.drop_first()[i - 1] == infos[i]);
        }
        assert(forall|i: int|
            0 <= i < infos.drop_first().len() ==> #[trigger] infos.drop_first()[i] == infos[i
                + 1]);
    }
}

/// The stored derivation text for a path, the latest entry winning.
pub open spec fn spec_mem_drv(texts: Seq<(StorePath, String)>, path: Seq<char>) -> Option<
    Seq<char>,
>
    decreases texts.len(),
{
    if texts.len() == 0 {
        None
    } else if texts.last().0@ == path {
        Some(texts.last().1@)
    } else {
        spec_mem_drv(texts.drop_last(), path)
    }
}

/// The substituter answer for a path, the latest entry winning.
pub open spec fn spec_mem_sub(subs: Seq<(StorePath, u64, u64)>, path: Seq<char>) -> Option<
    (u64, u64),
>
    decreases subs.len(),
{
    if subs.len() == 0 {
        None
    } else if subs.last().0@ == path {
        Some((subs.last().1, subs.last().2))
    } else {
        spec_mem_sub(subs.drop_last(), path)
    }
}

/// The de-duplication name of a queued path: its name part when the
/// basename is well-formed, the whole text otherwise.
pub open spec fn spec_plan_name(p: Seq<char>) -> Seq<char> {
    if crate::path::spec_store_basename_ok(p) {
        p.skip(33)
    } else {
        p
    }
}

/// Whether an output name is asked for: an empty wanted list asks for all.
pub open spec fn spec_wanted(wanted: Seq<Seq<char>>, name: Seq<char>) -> bool {
    wanted.len() == 0 || crate::derivation::contains_str(wanted, name)
}

/// The derivation a store holds under a path, parsed.
pub open spec fn spec_drv_of<S: ReadStore>(s: &S, p: Seq<char>) -> Option<
    crate::derivation::DerivationV,
> {
    match s.spec_drv_text(p) {
        Option::Some(text) => crate::derivation::spec_derivation_of_text(
            text,
            s.spec_store_dir(),
        ),
        Option::None => None,
    }
}

/// Whether a derivation allows substituting its outputs.
pub open spec fn spec_subs_allowed(d: crate::derivation::DerivationV) -> bool {
    match crate::derivation::spec_env_lookup(d.env, "allowSubstitutes"@) {
        Option::Some(v) => v == "1"@,
        Option::None => true,
    }
}

/// Whether some wanted output of `d` is not valid in the store.
pub open spec fn spec_missing_wanted_output<S: ReadStore>(
    s: &S,
    d: crate::derivation::DerivationV,
    wanted: Seq<Seq<char>>,
) -> bool {
    exists|k: int|
        0 <= k < d.outputs.len() && spec_wanted(wanted, (#[trigger] d.outputs[k]).0)
            && !s.spec_is_valid(d.outputs[k].1.path)
}

/// Whether some wanted output of `d` is not valid and no substituter
/// offers it.
pub open spec fn spec_unsubstitutable_wanted_output<S: ReadStore>(
    s: &S,
    d: crate::derivation::DerivationV,
    wanted: Seq<Seq<char>>,
) -> bool {
    exists|k: int|
        0 <= k < d.outputs.len() && spec_wanted(wanted, (#[trigger] d.outputs[k]).0)
            && !s.spec_is_valid(d.outputs[k].1.path) && s.spec_substitutable(
            d.outputs[k].1.path,
        ) is None
}

/// Whether a queued input forces a build: a valid derivation with a
/// missing wanted output that substitutes cannot fully cover.
pub open spec fn spec_input_must_build<S: ReadStore>(
    s: &S,
    p: Seq<char>,
    wanted: Seq<Seq<char>>,
) -> bool {
    &&& crate::strutil::spec_ends_with(p, ".drv"@)
    &&& s.spec_is_valid(p)
    &&& match spec_drv_of(s, p) {
        Option::Some(d) => crate::derivation::spec_env_lookup(d.env, "__json"@) is None
            && spec_missing_wanted_output(s, d, wanted) && (!spec_subs_allowed(d)
            || spec_unsubstitutable_wanted_output(s, d, wanted)),
        Option::None => false,
    }
}

/// What every build-set entry satisfies: a valid derivation with some
/// invalid output, not all of them substitutable.
pub open spec fn spec_will_build_entry<S: ReadStore>(s: &S, p: Seq<char>) -> bool {
    &&& crate::strutil::spec_ends_with(p, ".drv"@)
    &&& s.spec_is_valid(p)
    &&& match spec_drv_of(s, p) {
        Option::Some(d) => {
            &&& crate::derivation::spec_env_lookup(d.env, "__json"@) is None
            &&& exists|k: int|
                0 <= k < d.outputs.len() && !s.spec_is_valid((#[trigger] d.outputs[k]).1.path)
            &&& (spec_subs_allowed(d) ==> exists|k: int|
                0 <= k < d.outputs.len() && !s.spec_is_valid((#[trigger] d.outputs[k]).1.path)
                    && s.spec_substitutable(d.outputs[k].1.path) is None)
        },
        Option::None => false,
    }
}

/// Whether the queued input at `i` is the first with its name; later
/// namesakes are skipped by the planner.
pub open spec fn spec_first_occ(paths: Seq<StorePathWithOutputs>, i: int) -> bool {
    forall|j: int|
        0 <= j < i ==> spec_plan_name((#[trigger] paths[j]).path@) != spec_plan_name(
            paths[i].path@,
        )
}

/// Whether `p` is a wanted output of `d` that the store lacks.
pub open spec fn spec_invalid_entry<S: ReadStore>(
    s: &S,
    d: crate::derivation::DerivationV,
    wanted: Seq<Seq<char>>,
    p: Seq<char>,
) -> bool {
    exists|m: int|
        0 <= m < d.outputs.len() && spec_wanted(wanted, (#[trigger] d.outputs[m]).0)
            && !s.spec_is_valid(d.outputs[m].1.path) && p == d.outputs[m].1.path
}

/// Whether a path stands in a list.
pub open spec fn contains_path(list: Seq<StorePath>, p: Seq<char>) -> bool {
    exists|i: int| 0 <= i < list.len() && (#[trigger] list[i])@ == p
}

/// Where one examined path must have landed in the plan, over the
/// store's own views: an invalid derivation is unknown; a valid one with
/// a missing wanted output sends each substitutable such output to the
/// substitution set and, when any is unsubstitutable (or substitutes are
/// off), itself to the build set; a plain invalid path is counted for
/// substitution on an offer and unknown otherwise.
pub open spec fn spec_classified<S: ReadStore>(
    s: &S,
    p: Seq<char>,
    wanted: Seq<Seq<char>>,
    info: MissingInfo,
) -> bool {
    if crate::strutil::spec_ends_with(p, ".drv"@) {
        if !s.spec_is_valid(p) {
            contains_path(info.unknown@, p)
        } else {
            match spec_drv_of(s, p) {
                Option::Some(d) => crate::derivation::spec_env_lookup(d.env, "__json"@) is None
                    ==> {
                    &&& ((spec_missing_wanted_output(s, d, wanted) && (!spec_subs_allowed(d)
                        || spec_unsubstitutable_wanted_output(s, d, wanted)))
                        ==> contains_path(info.will_build@, p))
                    &&& (spec_subs_allowed(d) ==> forall|k: int|
                        0 <= k < d.outputs.len() && spec_wanted(
                            wanted,
                            (#[trigger] d.outputs[k]).0,
                        ) && !s.spec_is_valid(d.outputs[k].1.path) && s.spec_substitutable(
                            d.outputs[k].1.path,
                        ) is Some ==> contains_path(info.will_substitute@, d.outputs[k].1.path))
                },
                Option::None => true,
            }
        }
    } else {
        if s.spec_is_valid(p) {
            true
        } else {
            match s.spec_substitutable(p) {
                Option::Some(_) => contains_path(info.will_substitute@, p),
                Option::None => contains_path(info.unknown@, p),
            }
        }
    }
}

/// One path list extends another: nothing dropped, nothing reordered.
pub open spec fn spec_extends(a: Seq<StorePath>, b: Seq<StorePath>) -> bool {
    a.len() <= b.len() && forall|i: int| 0 <= i < a.len() ==> b[i] == #[trigger] a[i]
}

/// A classification stands once made: growing the plan's lists never
/// unmakes it.
proof fn lemma_classified_monotone<S: ReadStore>(
    s: &S,
    p: Seq<char>,
    wanted: Seq<Seq<char>>,
    info0: MissingInfo,
    info1: MissingInfo,
)
    requires
        spec_classified(s, p, wanted, info0),
        spec_extends(info0.unknown@, info1.unknown@),
        spec_extends(info0.will_build@, info1.will_build@),
        spec_extends(info0.will_substitute@, info1.will_substitute@),
    ensures
        spec_classified(s, p, wanted, info1),
{
    assert forall|q: Seq<char>| contains_path(info0.unknown@, q) implies contains_path(
        info1.unknown@,
        q,
    ) by {
        let i = choose|i: int| 0 <= i < info0.unknown@.len() && (#[trigger] info0.unknown@[i])@
            == q;
        assert(info1.unknown@[i]@ == q);
    }
    assert forall|q: Seq<char>| contains_path(info0.will_build@, q) implies contains_path(
        info1.will_build@,
        q,
    ) by {
        let i = choose|i: int|
            0 <= i < info0.will_build@.len() && (#[trigger] info0.will_build@[i])@ == q;
        assert(info1.will_build@[i]@ == q);
    }
    assert forall|q: Seq<char>| contains_path(info0.will_substitute@, q) implies contains_path(
        info1.will_substitute@,
        q,
    ) by {
        let i = choose|i: int|
            0 <= i < info0.will_substitute@.len() && (#[trigger] info0.will_substitute@[i])@ == q;
        assert(info1.will_substitute@[i]@ == q);
    }
}

/// Whether an import realized: some prefix of `source` serializes one
/// well-formed tree whose digest and size the record claims, and the
/// file system gained exactly that tree under the printed path.
pub open spec fn spec_tree_imported(
    source: Seq<u8>,
    nar_hash: crate::hash::HashV,
    nar_size: Option<u64>,
    printed: Seq<char>,
    fs0: crate::store::MockStore,
    fs1: crate::store::MockStore,
) -> bool {
    exists|n: int, t: crate::nar::NarV|
        #![trigger source.take(n), crate::nar::spec_encode_archive(t)]
        {
            &&& 0 <= n <= source.len()
            &&& crate::nar::nar_wf(t)
            &&& source.take(n) == crate::nar::spec_encode_archive(t)
            &&& nar_hash == crate::hash::HashV::Sha256(crate::hash::sha256_of(source.take(n)))
            &&& nar_size == Some(n as u64)
            &&& crate::store::mock_files_view(fs1.files@) == crate::store::mock_files_view(
                fs0.files@,
            ) + crate::nar::spec_restore_files(t, printed)
            &&& crate::store::mock_links_view(fs1.symlinks@) == crate::store::mock_links_view(
                fs0.symlinks@,
            ) + crate::nar::spec_restore_links(t, printed)
            &&& crate::store::mock_dirs_view(fs1.dirs@) == crate::store::mock_dirs_view(
                fs0.dirs@,
            ) + crate::nar::spec_restore_dirs(t, printed)
        }
}

impl MemStore {
    /// An empty store.
    pub fn new() -> (r: MemStore)
        ensures
            r.infos@.len() == 0,
            r.drv_texts@.len() == 0,
            r.substitutable@.len() == 0,
            r.fs.files@.len() == 0,
            r.fs.symlinks@.len() == 0,
            r.fs.dirs@.len() == 0,
    {
        MemStore {
            infos: Vec::new(),
            drv_texts: Vec::new(),
            substitutable: Vec::new(),
            fs: crate::store::MockStore::new(),
        }
    }

    /// Registers a record, assigning it the next row id. The path is
    /// valid afterwards.
    pub fn register_path(&mut self, info: ValidPathInfo) -> (r: ValidPathInfo)
        ensures
            final(self).infos@.len() == old(self).infos@.len() + 1,
            final(self).infos@.last()@ == (ValidPathInfoV { id: r.id, ..info@ }),
            r@ == (ValidPathInfoV { id: r.id, ..info@ }),
            forall|i: int|
                0 <= i < old(self).infos@.len() ==> final(self).infos@[i] == old(self).infos@[i],
            spec_mem_valid(final(self).infos@, info.path@),
            final(self).drv_texts == old(self).drv_texts,
            final(self).substitutable == old(self).substitutable,
            final(self).fs == old(self).fs,
    {
        let mut info = info;
        info.id = self.infos.len() as u64;
        let copy = info.clone_info();
        self.infos.push(copy);
        proof {
            assert(final(self).infos@.last()@ =~= ValidPathInfoV { id: info.id, ..info@ });
            assert(info@ =~= ValidPathInfoV { id: info.id, ..info@ });
            assert(final(self).infos@[final(self).infos@.len() - 1].path@ == info.path@);
        }
        info
    }

    /// Stores the text of a derivation.
    pub fn add_drv_text(&mut self, path: StorePath, text: String)
        ensures
            spec_mem_drv(final(self).drv_texts@, path@) == Some(text@),
            final(self).infos == old(self).infos,
            final(self).substitutable == old(self).substitutable,
            final(self).fs == old(self).fs,
    {
        self.drv_texts.push((path, text));
    }

    /// Records what a substituter offers for a path.
    pub fn add_substitutable(&mut self, path: StorePath, download_size: u64, nar_size: u64)
        ensures
            spec_mem_sub(final(self).substitutable@, path@) == Some((download_size, nar_size)),
            final(self).infos == old(self).infos,
            final(self).drv_texts == old(self).drv_texts,
            final(self).fs == old(self).fs,
    {
        self.substitutable.push((path, download_size, nar_size));
    }

    fn find_info(&self, path: &StorePath) -> (r: Option<&ValidPathInfo>)
        ensures
            match r {
                Some(info) => spec_mem_valid(self.infos@, path@) && info.path@ == path@
                    && spec_mem_record(self.infos@, path@) == Some(info@),
                None => !spec_mem_valid(self.infos@, path@) && spec_mem_record(
                    self.infos@,
                    path@,
                ) is None,
            },
    {
        let mut i: usize = 0;
        proof {
            assert(self.infos@.skip(0) =~= self.infos@);
        }
        while i < self.infos.len()
            invariant
                i <= self.infos@.len(),
                forall|k: int| 0 <= k < i ==> (#[trigger] self.infos@[k]).path@ != path@,
                spec_mem_record(self.infos@, path@) == spec_mem_record(
                    self.infos@.skip(i as int),
                    path@,
                ),
            decreases self.infos@.len() - i,
        {
            proof {
                assert(self.infos@.skip(i as int).first() == self.infos@[i as int]);
                assert(self.infos@.skip(i as int).drop_first() =~= self.infos@.skip(i + 1));
            }
            if str_eq(self.infos[i].path.to_text().as_str(), path.to_text().as_str()) {
                return Some(&self.infos[i]);
            }
            i = i + 1;
        }
        proof {
            assert(self.infos@.skip(self.infos@.len() as int) =~= Seq::<ValidPathInfo>::empty());
            lemma_mem_record_valid(self.infos@, path@);
        }
        None
    }

    /// The record registered for a path — the stored record itself — or
    /// an error for a path that is not valid.
    pub fn query_path_info(&self, path: &StorePath) -> (r: Result<ValidPathInfo, StoreError>)
        ensures
            match r {
                Ok(info) => spec_mem_record(self.infos@, path@) == Some(info@) && info.path@
                    == path@,
                Err(_) => !spec_mem_valid(self.infos@, path@),
            },
    {
        match self.find_info(path) {
            Some(info) => Ok(info.clone_info()),
            None => Err(StoreError::NotInStore { path: path.to_text() }),
        }
    }


    /// Imports a store object from its archive bytes. A record without an
    /// archive hash is refused at once and nothing changes. For a path
    /// that is not yet valid (or under repair), the bytes must serialize
    /// one well-formed tree whose digest and size equal what the record
    /// claims; the tree is then written under the printed path and the
    /// record registered. Any failure leaves the store as it was.
    #[verifier::rlimit(100)]
    pub fn add_to_store(
        &mut self,
        info: ValidPathInfo,
        source: &Vec<u8>,
        repair: bool,
    ) -> (r: Result<(), StoreError>)
        ensures
            r matches Err(StoreError::MissingHash { .. }) <==> info.nar_hash@ is Empty,
            r is Err ==> *final(self) == *old(self),
            r is Ok ==> !(info.nar_hash@ is Empty) && spec_mem_valid(
                final(self).infos@,
                info.path@,
            ),
            (r is Ok && spec_mem_valid(old(self).infos@, info.path@) && !repair) ==> *final(self)
                == *old(self),
            (r is Ok && (!spec_mem_valid(old(self).infos@, info.path@) || repair))
                ==> spec_tree_imported(
                source@,
                info.nar_hash@,
                info.nar_size,
                crate::store::spec_print_path(old(self).spec_store_dir(), info.path@),
                old(self).fs,
                final(self).fs,
            ),
    {
        if matches!(info.nar_hash, crate::hash::Hash::Empty) {
            return Err(StoreError::MissingHash { path: info.path.to_text() });
        }
        let ghost gpath_hash = info.nar_hash@;
        let ghost gpath_size = info.nar_size;
        let already = self.find_info(&info.path).is_some();
        if !already || repair {
            let printed = self.print_store_path(&info.path);
            let (magic, p) = match crate::nar::read_text_frame(source, 0) {
                Ok(v) => v,
                Err(_) => {
                    return Err(StoreError::BadArchive {
                        msg: String::from_str("the archive does not parse"),
                    });
                },
            };
            if !str_eq(magic.as_str(), "nix-archive-1") {
                return Err(StoreError::BadArchive {
                    msg: String::from_str("the archive does not parse"),
                });
            }
            let (node, end) = match crate::nar::parse_node(source, p) {
                Ok(v) => v,
                Err(_) => {
                    return Err(StoreError::BadArchive {
                        msg: String::from_str("the archive does not parse"),
                    });
                },
            };
            let mut consumed: Vec<u8> = Vec::new();
            let mut k: usize = 0;
            while k < end
                invariant
                    k <= end,
                    end <= source@.len(),
                    consumed@.len() == k,
                    consumed@ == source@.take(k as int),
                decreases end - k,
            {
                consumed.push(source[k]);
                assert(consumed@ =~= source@.take(k + 1));
                k = k + 1;
            }
            let digest = crate::hash::sha256_digest(consumed.as_slice());
            let realized = crate::hash::Hash::SHA256(digest);
            if !realized.hash_eq(&info.nar_hash) {
                return Err(StoreError::BadArchive {
                    msg: String::from_str("archive hash mismatch"),
                });
            }
            let size_matches = match info.nar_size {
                Some(sz) => sz == end as u64,
                None => false,
            };
            if !size_matches {
                return Err(StoreError::BadArchive {
                    msg: String::from_str("archive size mismatch"),
                });
            }
            node.restore(&mut self.fs, printed.as_str());
            let ghost gpath = info.path@;
            let _ = self.register_path(info);
            proof {
                let t = crate::nar::nar_view(node);
                assert(source@.take(end as int) =~= source@.subrange(0, p as int)
                    + source@.subrange(p as int, end as int));
                assert(source@.take(end as int) =~= crate::nar::spec_encode_archive(t));
                assert(spec_tree_imported(
                    source@,
                    gpath_hash,
                    gpath_size,
                    printed@,
                    old(self).fs,
                    self.fs,
                ));
            }
            return Ok(());
        }
        Ok(())
    }

    /// Adds a text blob to the store: the data is hashed, the text path
    /// derived from the hash and the references, the file written under
    /// the printed path, and a record with the archive digest of the
    /// single-file tree registered. The only failure is a derived
    /// basename that is not well-formed. A path that is already valid is
    /// returned as it stands, with nothing written or re-registered,
    /// unless `repair` asks for a fresh write.
    pub fn add_text_to_store(
        &mut self,
        suffix: &str,
        data: &[u8],
        refs: &Vec<StorePath>,
        repair: bool,
    ) -> (r: Result<ValidPathInfo, StoreError>)
        ensures
            ({
                let expected = crate::store::spec_make_store_path(
                    old(self).spec_store_dir(),
                    crate::store::spec_make_type(
                        old(self).spec_store_dir(),
                        "text"@,
                        crate::store::views_of(refs@),
                        false,
                    ),
                    crate::hash::sha256_of(data@),
                    suffix@,
                );
                match r {
                    Ok(info) => {
                        &&& expected == Some(info.path@)
                        &&& spec_mem_valid(final(self).infos@, info.path@)
                        &&& ((!spec_mem_valid(old(self).infos@, info.path@) || repair) ==> ({
                            let nar = crate::nar::spec_encode_archive(
                                crate::nar::NarV::Regular {
                                    executable: false,
                                    contents: data@,
                                },
                            );
                            &&& info.nar_hash@ == crate::hash::HashV::Sha256(
                                crate::hash::sha256_of(nar),
                            )
                            &&& info.nar_size == Some(nar.len() as u64)
                            &&& crate::store::mock_files_view(final(self).fs.files@)
                                == crate::store::mock_files_view(old(self).fs.files@) + seq![
                                (
                                    crate::store::spec_print_path(
                                        old(self).spec_store_dir(),
                                        info.path@,
                                    ),
                                    data@,
                                    false,
                                ),
                            ]
                        }))
                        &&& ((spec_mem_valid(old(self).infos@, info.path@) && !repair) ==> (
                        *final(self) == *old(self) && spec_mem_record(old(self).infos@, info.path@)
                            == Some(info@)))
                    },
                    Err(_) => expected is None && *final(self) == *old(self),
                }
            }),
    {
        let digest = crate::hash::sha256_digest(data);
        let h = crate::hash::Hash::SHA256(digest);
        let dest = match self.make_text_path(suffix, &h, refs) {
            Ok(p) => p,
            Err(e) => {
                return Err(e);
            },
        };
        let already = self.find_info(&dest).is_some();
        if !already || repair {
            let printed = self.print_store_path(&dest);
            self.fs.write_file(printed.as_str(), data, false);
            proof {
                assert(crate::store::mock_files_view(self.fs.files@)
                    =~= crate::store::mock_files_view(old(self).fs.files@) + seq![
                    (printed@, data@, false),
                ]);
            }
            let node = crate::nar::NarNode::Regular {
                executable: false,
                contents: vstd::slice::slice_to_vec(data),
            };
            let mut nar: Vec<u8> = Vec::new();
            crate::nar::write_str_frame(&mut nar, "nix-archive-1");
            node.encode(&mut nar);
            proof {
                assert(nar@ =~= crate::nar::spec_encode_archive(
                    crate::nar::NarV::Regular { executable: false, contents: data@ },
                ));
            }
            let nar_digest = crate::hash::sha256_digest(nar.as_slice());
            let nar_hash = crate::hash::Hash::SHA256(nar_digest);
            let info = match ValidPathInfo::now(dest, nar_hash, nar.len() as u64) {
                Ok(i) => i,
                Err(_) => {
                    proof {
                        assert(false);
                    }
                    return Err(StoreError::Unimplemented {
                        msg: String::from_str("unreachable"),
                    });
                },
            };
            let registered = self.register_path(info);
            return Ok(registered);
        }
        match self.find_info(&dest) {
            Some(found) => Ok(found.clone_info()),
            None => {
                proof {
                    assert(false);
                }
                Err(StoreError::NotInStore { path: dest.to_text() })
            },
        }
    }
}

impl Store for MemStore {
    open spec fn spec_has_store_dir(&self) -> bool {
        true
    }

    open spec fn spec_store_dir(&self) -> Seq<char> {
        "/nix/store"@
    }

    open spec fn spec_has_state_dir(&self) -> bool {
        false
    }

    open spec fn spec_state_dir(&self) -> Seq<char> {
        Seq::empty()
    }

    fn get_store_dir(&self) -> (r: Result<String, StoreError>) {
        Ok(String::from_str("/nix/store"))
    }

    fn get_state_dir(&self) -> (r: Result<String, StoreError>) {
        Err(StoreError::Unimplemented { msg: String::from_str("store: get_state_dir") })
    }
}

impl ReadStore for MemStore {
    open spec fn spec_is_valid(&self, path: Seq<char>) -> bool {
        spec_mem_valid(self.infos@, path)
    }

    open spec fn spec_drv_text(&self, path: Seq<char>) -> Option<Seq<char>> {
        spec_mem_drv(self.drv_texts@, path)
    }

    open spec fn spec_substitutable(&self, path: Seq<char>) -> Option<(u64, u64)> {
        spec_mem_sub(self.substitutable@, path)
    }

    fn is_valid_path(&self, path: &StorePath) -> (r: Result<bool, StoreError>) {
        Ok(self.find_info(path).is_some())
    }

    fn read_derivation(&self, path: &StorePath) -> (r: Result<String, StoreError>) {
        let n = self.drv_texts.len();
        let mut i: usize = n;
        assert(self.drv_texts@.take(n as int) =~= self.drv_texts@);
        while i > 0
            invariant
                i <= n,
                n == self.drv_texts@.len(),
                spec_mem_drv(self.drv_texts@, path@) == spec_mem_drv(
                    self.drv_texts@.take(i as int),
                    path@,
                ),
            decreases i,
        {
            i = i - 1;
            proof {
                assert(self.drv_texts@.take(i + 1).last() == self.drv_texts@[i as int]);
                assert(self.drv_texts@.take(i + 1).drop_last() =~= self.drv_texts@.take(i as int));
            }
            if str_eq(self.drv_texts[i].0.to_text().as_str(), path.to_text().as_str()) {
                return Ok(self.drv_texts[i].1.as_str().to_owned());
            }
        }
        assert(self.drv_texts@.take(0) =~= Seq::<(StorePath, String)>::empty());
        Err(StoreError::NotInStore { path: path.to_text() })
    }

    fn query_substitutable(&self, path: &StorePath) -> (r: Option<(u64, u64)>) {
        let n = self.substitutable.len();
        let mut i: usize = n;
        assert(self.substitutable@.take(n as int) =~= self.substitutable@);
        while i > 0
            invariant
                i <= n,
                n == self.substitutable@.len(),
                spec_mem_sub(self.substitutable@, path@) == spec_mem_sub(
                    self.substitutable@.take(i as int),
                    path@,
                ),
            decreases i,
        {
            i = i - 1;
            proof {
                assert(self.substitutable@.take(i + 1).last() == self.substitutable@[i as int]);
                assert(self.substitutable@.take(i + 1).drop_last() =~= self.substitutable@.take(
                    i as int,
                ));
            }
            if str_eq(self.substitutable[i].0.to_text().as_str(), path.to_text().as_str()) {
                return Some((self.substitutable[i].1, self.substitutable[i].2));
            }
        }
        assert(self.substitutable@.take(0) =~= Seq::<(StorePath, u64, u64)>::empty());
        None
    }
}

} // verus!
