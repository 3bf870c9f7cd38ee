use crate::config::{find_dynamic_match, has_producer, is_first_producer, produces, Build, Configuration};
use crate::error::DriverError;
use crate::fingerprint::{
    command_view, decide, decision_of, fingerprint, fingerprint_of, Decision, Timestamp,
};
use vstd::prelude::*;

verus! {

/// Where a target's task stands in a run.
#[derive(Clone, Copy, Debug, PartialEq, Eq, Structural)]
pub enum TaskState {
    /// No dependent has asked for the target.
    Idle,
    /// Waiting for its explicit and order-only inputs and its source files.
    Inputs,
    /// Waiting for its dynamic module to be read and compiled.
    Module,
    /// Waiting for its dynamic inputs.
    Dynamic,
    /// Waiting for the timestamps, stored fingerprint and outputs to be read.
    Inspecting,
    /// Its command must run and waits for a job permit.
    Queued,
    /// Its command is executing.
    Running,
    /// Waiting for its fingerprint to be written to the database.
    Recording,
    /// Finished successfully.
    Succeeded,
    /// Finished with a failure.
    Failed,
}

/// Work that the caller performs for the driver, reporting back an [`Event`].
#[derive(Debug)]
pub enum Action {
    /// Check that each of these source files of `target` exists.
    CheckSources { target: usize, paths: Vec<String> },
    /// Read, parse and compile the dynamic module at `path`, and add the
    /// resulting fragment to the graph registry.
    CompileModule { target: usize, path: String },
    /// Read the last-modified time of each of `inputs`, the stored fingerprint
    /// of `id`, and whether each of `outputs` exists.
    Inspect { target: usize, id: String, inputs: Vec<String>, outputs: Vec<String> },
    /// Run `command` through the shell while holding one job permit, then
    /// print the description and the captured output.
    Run { target: usize, command: String, description: Option<String> },
    /// Write `fingerprint` for `id` to the database.
    Record { target: usize, id: String, fingerprint: u64 },
}

/// What the caller observed for a target that it inspected.
#[derive(Debug)]
pub struct Observation {
    /// The last-modified times of the inputs named by the inspection, in order.
    pub times: Vec<Timestamp>,
    /// The fingerprint that the database holds for the target.
    pub stored: Option<u64>,
    /// For each output and implicit output, whether it exists.
    pub present: Vec<bool>,
}

/// The outcome of an [`Action`].
#[derive(Debug)]
pub enum Event {
    SourcesChecked { target: usize, result: Result<(), DriverError> },
    ModuleCompiled { target: usize, result: Result<Configuration, DriverError> },
    Inspected { target: usize, result: Result<Observation, DriverError> },
    Exited { target: usize, success: bool, code: Option<i32> },
    Recorded { target: usize, result: Result<(), DriverError> },
}

/// The explicit inputs of a target followed by its order-only inputs.
pub open spec fn all_inputs(b: Build) -> Seq<String> {
    b.inputs@ + b.order_only_inputs@
}

/// The command of a target's rule, if it has one.
pub open spec fn rule_command(b: Build) -> Option<Seq<char>> {
    match b.rule {
        Some(r) => Some(r.command@),
        None => None,
    }
}

/// No command has been started yet for a target in this state.
pub open spec fn before_command(s: TaskState) -> bool {
    s == TaskState::Idle || s == TaskState::Inputs || s == TaskState::Module || s
        == TaskState::Dynamic || s == TaskState::Inspecting || s == TaskState::Queued
}

/// A target in this state has seen all its explicit and order-only inputs finish.
pub open spec fn past_inputs(s: TaskState) -> bool {
    s == TaskState::Module || s == TaskState::Dynamic || past_dynamic(s)
}

/// A target in this state has seen all its dynamic inputs finish.
pub open spec fn past_dynamic(s: TaskState) -> bool {
    s == TaskState::Inspecting || s == TaskState::Queued || s == TaskState::Running || s
        == TaskState::Recording || s == TaskState::Succeeded
}

/// The state that a target moves to on a staleness decision.
pub open spec fn state_after(d: Decision) -> TaskState {
    match d {
        Decision::Skip => TaskState::Succeeded,
        Decision::Run => TaskState::Queued,
        Decision::Record => TaskState::Recording,
    }
}

/// The decision for target `b` on an observation.
pub open spec fn observed_decision(b: Build, obs: Observation) -> Decision {
    decision_of(
        b.rule is Some,
        obs.stored,
        fingerprint_of(rule_command(b), obs.times@),
        obs.present@,
    )
}

/// Every explicit and order-only input of `b` has a producer in `builds`:
/// the target has no source files to check.
pub open spec fn no_source_inputs(builds: Seq<Build>, b: Build) -> bool {
    forall|k: int| 0 <= k < all_inputs(b).len() ==> has_producer(builds, (#[trigger] all_inputs(b)[k])@)
}

spec fn outbox_grows(a: Driver, b: Driver) -> bool {
    &&& a.outbox@.len() <= b.outbox@.len()
    &&& forall|k: int| 0 <= k < a.outbox@.len() ==> #[trigger] b.outbox@[k] == a.outbox@[k]
}

/// Every target that moved from `a` to `b` into its module or inspection
/// phase has the matching action among those appended.
spec fn announced(a: Driver, b: Driver) -> bool {
    &&& forall|m: int|
        0 <= m < a.states@.len() && a.states@[m] != TaskState::Module && #[trigger] b.states@[m]
            == TaskState::Module ==> exists|k: int|
            a.outbox@.len() <= k < b.outbox@.len() && b.outbox@[k] == (Action::CompileModule {
                target: m as usize,
                path: a.config.builds@[m].dynamic_module->Some_0,
            })
    &&& forall|m: int|
        0 <= m < a.states@.len() && a.states@[m] != TaskState::Inspecting && #[trigger] b.states@[m]
            == TaskState::Inspecting ==> exists|k: int|
            a.outbox@.len() <= k < b.outbox@.len() && (#[trigger] b.outbox@[k]) is Inspect
                && b.outbox@[k]->Inspect_target == m
}

/// Every target registered from `a` to `b` whose source files are not known
/// to exist has a check of them among the actions appended.
spec fn sources_announced(a: Driver, b: Driver) -> bool {
    forall|m: int|
        0 <= m < a.states@.len() && a.states@[m] == TaskState::Idle && #[trigger] b.states@[m]
            != TaskState::Idle && !b.sources_ok@[m] ==> exists|k: int|
            a.outbox@.len() <= k < b.outbox@.len() && (#[trigger] b.outbox@[k]) is CheckSources
                && b.outbox@[k]->CheckSources_target == m
}

proof fn lemma_sources_announced_trans(a: Driver, b: Driver, c: Driver)
    requires
        sources_announced(a, b),
        sources_announced(b, c),
        outbox_grows(a, b),
        outbox_grows(b, c),
        sources_step(b, c),
        b.sources_ok@.len() == b.states@.len(),
        a.states@.len() == b.states@.len(),
        b.states@.len() == c.states@.len(),
        forall|m: int|
            0 <= m < b.states@.len() && b.states@[m] != TaskState::Idle ==> #[trigger] c.states@[m]
                != TaskState::Idle,
    ensures
        sources_announced(a, c),
{
    assert forall|m: int|
        0 <= m < a.states@.len() && a.states@[m] == TaskState::Idle && #[trigger] c.states@[m]
            != TaskState::Idle && !c.sources_ok@[m] implies exists|k: int|
        a.outbox@.len() <= k < c.outbox@.len() && (#[trigger] c.outbox@[k]) is CheckSources
            && c.outbox@[k]->CheckSources_target == m by {
        if b.states@[m] == TaskState::Idle {
            let k0 = choose|k: int|
                b.outbox@.len() <= k < c.outbox@.len() && (#[trigger] c.outbox@[k]) is CheckSources
                    && c.outbox@[k]->CheckSources_target == m;
            assert(a.outbox@.len() <= k0);
        } else {
            assert(!b.sources_ok@[m]);
            let k0 = choose|k: int|
                a.outbox@.len() <= k < b.outbox@.len() && (#[trigger] b.outbox@[k]) is CheckSources
                    && b.outbox@[k]->CheckSources_target == m;
            assert(c.outbox@[k0] == b.outbox@[k0]);
        }
    }
}

spec fn sources_step(a: Driver, b: Driver) -> bool {
    &&& a.sources_ok@.len() == b.sources_ok@.len()
    &&& forall|i: int|
        0 <= i < a.sources_ok@.len() && a.sources_ok@[i] && !(#[trigger] b.sources_ok@[i]) ==> a.states@[i]
            == TaskState::Idle
    &&& forall|i: int|
        0 <= i < a.sources_ok@.len() && #[trigger] b.sources_ok@[i] && !a.sources_ok@[i] ==> a.states@[i]
            == TaskState::Idle && no_source_inputs(a.config.builds@, a.config.builds@[i])
}

/// How many of `s` are `v`.
pub open spec fn count_in(s: Seq<TaskState>, v: TaskState) -> nat
    decreases s.len(),
{
    if s.len() == 0 {
        0
    } else {
        count_in(s.drop_last(), v) + if s.last() == v {
            1nat
        } else {
            0nat
        }
    }
}

proof fn lemma_count_absent(s: Seq<TaskState>, v: TaskState)
    requires
        forall|i: int| 0 <= i < s.len() ==> s[i] != v,
    ensures
        count_in(s, v) == 0,
    decreases s.len(),
{
    if s.len() > 0 {
        lemma_count_absent(s.drop_last(), v);
    }
}

/// The failure a run reports after `e`: the first one it met.
pub open spec fn first_failure(failure: Option<DriverError>, e: DriverError) -> Option<DriverError> {
    if failure is Some {
        failure
    } else {
        Some(e)
    }
}

/// `m` is the target of `fragment` that holds the dynamic inputs of a target
/// with the given outputs: the first producer of the first of them that
/// `fragment` produces.
pub open spec fn is_dynamic_match(fragment: Seq<Build>, outputs: Seq<String>, m: int) -> bool {
    exists|k: int|
        0 <= k < outputs.len() && is_first_producer(fragment, (#[trigger] outputs[k])@, m)
            && forall|j: int| 0 <= j < k ==> !has_producer(fragment, (#[trigger] outputs[j])@)
}

proof fn lemma_first_producer_unique(builds: Seq<Build>, name: Seq<char>, p: int, q: int)
    requires
        is_first_producer(builds, name, p),
        is_first_producer(builds, name, q),
    ensures
        p == q,
{
    if p < q {
        assert(produces(builds[p], name));
    } else if q < p {
        assert(produces(builds[q], name));
    }
}

proof fn lemma_dynamic_match_unique(fragment: Seq<Build>, outputs: Seq<String>, m1: int, m2: int)
    requires
        is_dynamic_match(fragment, outputs, m1),
        is_dynamic_match(fragment, outputs, m2),
    ensures
        m1 == m2,
{
    let k1 = choose|k: int|
        0 <= k < outputs.len() && is_first_producer(fragment, (#[trigger] outputs[k])@, m1)
            && forall|j: int| 0 <= j < k ==> !has_producer(fragment, (#[trigger] outputs[j])@);
    let k2 = choose|k: int|
        0 <= k < outputs.len() && is_first_producer(fragment, (#[trigger] outputs[k])@, m2)
            && forall|j: int| 0 <= j < k ==> !has_producer(fragment, (#[trigger] outputs[j])@);
    if k1 < k2 {
        assert(has_producer(fragment, outputs[k1]@));
    } else if k2 < k1 {
        assert(has_producer(fragment, outputs[k2]@));
    } else {
        lemma_first_producer_unique(fragment, outputs[k1]@, m1, m2);
    }
}

proof fn lemma_count_update(s: Seq<TaskState>, i: int, x: TaskState, v: TaskState)
    requires
        0 <= i < s.len(),
    ensures
        count_in(s.update(i, x), v) + (if s[i] == v {
            1int
        } else {
            0int
        }) == count_in(s, v) + (if x == v {
            1int
        } else {
            0int
        }),
    decreases s.len(),
{
    if i == s.len() - 1 {
        assert(s.update(i, x).drop_last() =~= s.drop_last());
    } else {
        lemma_count_update(s.drop_last(), i, x, v);
        assert(s.update(i, x).drop_last() =~= s.drop_last().update(i, x));
    }
}

fn copy_error(e: &DriverError) -> (r: DriverError)
    ensures
        r == *e,
{
    match e {
        DriverError::DefaultOutputNotFound(s) => DriverError::DefaultOutputNotFound(s.clone()),
        DriverError::DynamicDependencyNotFound(s) => DriverError::DynamicDependencyNotFound(
            s.clone(),
        ),
        DriverError::Io(p, m) => DriverError::Io(p.clone(), m.clone()),
        DriverError::CommandExit(c, code) => DriverError::CommandExit(c.clone(), *code),
        DriverError::Database(s) => DriverError::Database(s.clone()),
        DriverError::Validation(s) => DriverError::Validation(s.clone()),
        DriverError::DynamicModule(s) => DriverError::DynamicModule(s.clone()),
    }
}

fn push_names(out: &mut Vec<String>, names: &Vec<String>)
    ensures
        final(out)@ == old(out)@ + names@,
{
    let mut k: usize = 0;
    while k < names.len()
        invariant
            k <= names@.len(),
            out@ == old(out)@ + names@.take(k as int),
        decreases names@.len() - k,
    {
        out.push(names[k].clone());
        assert(names@.take(k + 1) =~= names@.take(k as int).push(names@[k as int]));
        k += 1;
    }
    assert(names@.take(k as int) =~= names@);
}

/// The scheduler of one run: it decides, from the events that the caller
/// reports, which work is done next for which target.
pub struct Driver {
    config: Configuration,
    /// For each target, the producer of each explicit and order-only input.
    deps: Vec<Vec<Option<usize>>>,
    /// For each target, the inputs that its dynamic module gave it.
    dyn_inputs: Vec<Vec<String>>,
    /// For each target, the producer of each dynamic input.
    dyn_deps: Vec<Vec<usize>>,
    sources_ok: Vec<bool>,
    fingerprints: Vec<u64>,
    states: Vec<TaskState>,
    job_limit: usize,
    running: usize,
    failure: Option<DriverError>,
    outbox: Vec<Action>,
    /// How many commands have been started for each target.
    runs: Ghost<Seq<nat>>,
    /// Whether each target's command has exited successfully.
    exited_ok: Ghost<Seq<bool>>,
}

impl Driver {
    /// The targets of the run.
    pub closed spec fn builds(&self) -> Seq<Build> {
        self.config.builds@
    }

    /// The state of each target.
    pub closed spec fn states(&self) -> Seq<TaskState> {
        self.states@
    }

    /// How many commands have been started for each target.
    pub closed spec fn runs(&self) -> Seq<nat> {
        self.runs@
    }

    /// Whether each target's command has exited successfully.
    pub closed spec fn exited_ok(&self) -> Seq<bool> {
        self.exited_ok@
    }

    /// The capacity of the job pool.
    pub closed spec fn job_limit(&self) -> nat {
        self.job_limit as nat
    }

    /// The first failure of the run, if any.
    pub closed spec fn failure(&self) -> Option<DriverError> {
        self.failure
    }

    /// The fingerprint computed for each target when it was inspected.
    pub closed spec fn computed_fingerprint(&self, i: int) -> u64 {
        self.fingerprints@[i]
    }

    /// Whether the source files of each registered target were found.
    pub closed spec fn sources_checked(&self) -> Seq<bool> {
        self.sources_ok@
    }

    /// The actions decided on but not handed out yet.
    pub closed spec fn pending(&self) -> Seq<Action> {
        self.outbox@
    }

    /// What an action other than `Run` carries, for a driver in this state.
    pub open spec fn well_formed_action(&self, a: Action) -> bool {
        let n = self.builds().len();
        match a {
            Action::Run { .. } => true,
            Action::CheckSources { target, .. } => target < n && self.states()[target as int]
                != TaskState::Idle,
            Action::CompileModule { target, path } => target < n && self.builds()[target as int].dynamic_module
                == Some(path) && (past_inputs(self.states()[target as int])
                || self.states()[target as int] == TaskState::Failed),
            Action::Inspect { target, id, inputs, outputs } => {
                &&& target < n
                &&& id == self.builds()[target as int].id
                &&& inputs@ == self.hashed_inputs(target as int)
                &&& outputs@ == self.builds()[target as int].outputs@
                    + self.builds()[target as int].implicit_outputs@
                &&& (past_dynamic(self.states()[target as int]) || self.states()[target as int]
                    == TaskState::Failed)
            },
            Action::Record { target, id, fingerprint } => {
                &&& target < n
                &&& id == self.builds()[target as int].id
                &&& fingerprint == self.computed_fingerprint(target as int)
                &&& (self.builds()[target as int].rule is None || self.exited_ok()[target as int])
                &&& (self.states()[target as int] == TaskState::Recording || self.states()[target as int]
                    == TaskState::Succeeded || self.states()[target as int] == TaskState::Failed)
            },
        }
    }

    /// The dynamic inputs of target `i`.
    pub closed spec fn dynamic_inputs(&self, i: int) -> Seq<String> {
        self.dyn_inputs@[i]@
    }

    /// The inputs whose timestamps are hashed for target `i`: its explicit
    /// inputs, then its dynamic inputs.
    pub open spec fn hashed_inputs(&self, i: int) -> Seq<String> {
        self.builds()[i].inputs@ + self.dynamic_inputs(i)
    }

    closed spec fn wf_shape(&self) -> bool {
        let n = self.config.builds@.len();
        &&& self.deps@.len() == n
        &&& self.dyn_inputs@.len() == n
        &&& self.dyn_deps@.len() == n
        &&& self.sources_ok@.len() == n
        &&& self.fingerprints@.len() == n
        &&& self.states@.len() == n
        &&& self.runs@.len() == n
        &&& self.exited_ok@.len() == n
        &&& forall|i: int|
            0 <= i < n ==> (#[trigger] self.deps@[i])@.len() == all_inputs(
                self.config.builds@[i],
            ).len()
        &&& forall|i: int, k: int|
            0 <= i < n && 0 <= k < self.deps@[i]@.len() ==> match (#[trigger] self.deps@[i]@[k]) {
                Some(p) => is_first_producer(
                    self.config.builds@,
                    all_inputs(self.config.builds@[i])[k]@,
                    p as int,
                ),
                None => !has_producer(
                    self.config.builds@,
                    all_inputs(self.config.builds@[i])[k]@,
                ),
            }
        &&& forall|i: int|
            0 <= i < n ==> (#[trigger] self.dyn_deps@[i])@.len() == self.dyn_inputs@[i]@.len()
        &&& forall|i: int, k: int|
            0 <= i < n && 0 <= k < self.dyn_deps@[i]@.len() ==> is_first_producer(
                self.config.builds@,
                self.dyn_inputs@[i]@[k]@,
                (#[trigger] self.dyn_deps@[i]@[k]) as int,
            )
    }

    closed spec fn wf_jobs(&self) -> bool {
        let n = self.config.builds@.len();
        &&& self.running as nat == count_in(self.states@, TaskState::Running)
        &&& self.running <= self.job_limit
        &&& forall|i: int|
            0 <= i < n ==> {
                &&& #[trigger] self.runs@[i] <= 1
                &&& before_command(self.states@[i]) ==> self.runs@[i] == 0
                &&& self.states@[i] == TaskState::Running ==> self.runs@[i] == 1
                &&& self.runs@[i] == 1 ==> self.config.builds@[i].rule is Some
                &&& self.states@[i] == TaskState::Queued ==> self.config.builds@[i].rule is Some
                &&& self.exited_ok@[i] ==> self.runs@[i] == 1
                &&& self.states@[i] == TaskState::Recording ==> (
                self.config.builds@[i].rule is None || self.exited_ok@[i])
                &&& self.states@[i] == TaskState::Failed ==> self.failure is Some
                &&& past_inputs(self.states@[i]) ==> self.sources_ok@[i]
            }
    }

    closed spec fn wf_order(&self) -> bool {
        let n = self.config.builds@.len();
        &&& forall|i: int|
            0 <= i < n && (self.states@[i] == TaskState::Idle || self.states@[i] == TaskState::Inputs
                || self.states@[i] == TaskState::Module) ==> (#[trigger] self.dyn_deps@[i])@.len() == 0
        &&& forall|i: int, k: int|
            0 <= i < n && past_inputs(self.states@[i]) && 0 <= k < self.deps@[i]@.len()
                && (#[trigger] self.deps@[i]@[k]) is Some ==> self.states@[self.deps@[i]@[k]->Some_0 as int]
                == TaskState::Succeeded
        &&& forall|i: int, k: int|
            0 <= i < n && past_dynamic(self.states@[i]) && 0 <= k < self.dyn_deps@[i]@.len()
                ==> self.states@[(#[trigger] self.dyn_deps@[i]@[k]) as int] == TaskState::Succeeded
    }

    closed spec fn wf_outbox(&self) -> bool {
        forall|k: int|
            0 <= k < self.outbox@.len() ==> !((#[trigger] self.outbox@[k]) is Run)
                && self.well_formed_action(self.outbox@[k])
    }

    closed spec fn same_but_states(&self, other: &Driver) -> bool {
        &&& self.config == other.config
        &&& self.deps == other.deps
        &&& self.dyn_inputs == other.dyn_inputs
        &&& self.dyn_deps == other.dyn_deps
        &&& self.sources_ok == other.sources_ok
        &&& self.fingerprints == other.fingerprints
        &&& self.job_limit == other.job_limit
        &&& self.running == other.running
        &&& self.failure == other.failure
        &&& self.outbox == other.outbox
        &&& self.runs == other.runs
        &&& self.exited_ok == other.exited_ok
    }

    fn set_state(&mut self, j: usize, v: TaskState)
        requires
            j < old(self).states@.len(),
            old(self).states@[j as int] != TaskState::Succeeded,
        ensures
            final(self).states@ == old(self).states@.update(j as int, v),
            final(self).same_but_states(old(self)),
            count_in(final(self).states@, TaskState::Running) + (if old(self).states@[j as int]
                == TaskState::Running {
                1int
            } else {
                0int
            }) == count_in(old(self).states@, TaskState::Running) + (if v == TaskState::Running {
                1int
            } else {
                0int
            }),
            count_in(final(self).states@, TaskState::Idle) + (if old(self).states@[j as int]
                == TaskState::Idle {
                1int
            } else {
                0int
            }) == count_in(old(self).states@, TaskState::Idle) + (if v == TaskState::Idle {
                1int
            } else {
                0int
            }),
    {
        proof {
            lemma_count_update(self.states@, j as int, v, TaskState::Running);
            lemma_count_update(self.states@, j as int, v, TaskState::Idle);
        }
        self.states.set(j, v);
    }

    /// Marks target `j` failed with `e`, keeping the run's first failure.
    fn fail(&mut self, j: usize, e: DriverError)
        requires
            old(self).wf(),
            j < old(self).states@.len(),
            old(self).states@[j as int] != TaskState::Succeeded,
            old(self).states@[j as int] != TaskState::Running,
        ensures
            final(self).wf(),
            final(self).states@ == old(self).states@.update(j as int, TaskState::Failed),
            final(self).failure == (if old(self).failure is Some {
                old(self).failure
            } else {
                Some(e)
            }),
            final(self).config == old(self).config,
            outbox_grows(*old(self), *final(self)),
            final(self).sources_ok == old(self).sources_ok,
            final(self).job_limit == old(self).job_limit,
            final(self).runs == old(self).runs,
            final(self).exited_ok == old(self).exited_ok,
            final(self).dyn_inputs == old(self).dyn_inputs,
    {
        self.set_state(j, TaskState::Failed);
        if self.failure.is_none() {
            self.failure = Some(e);
        }
    }

    /// Registers target `j`, which nothing has asked for yet: its source
    /// inputs are handed out to be checked.
    fn enter(&mut self, j: usize)
        requires
            old(self).wf(),
            j < old(self).states@.len(),
            old(self).states@[j as int] == TaskState::Idle,
        ensures
            final(self).wf(),
            final(self).states@ == old(self).states@.update(j as int, TaskState::Inputs),
            count_in(final(self).states@, TaskState::Idle) + 1 == count_in(
                old(self).states@,
                TaskState::Idle,
            ),
            final(self).config == old(self).config,
            outbox_grows(*old(self), *final(self)),
            sources_announced(*old(self), *final(self)),
            sources_step(*old(self), *final(self)),
            final(self).deps == old(self).deps,
            final(self).job_limit == old(self).job_limit,
            final(self).runs == old(self).runs,
            final(self).exited_ok == old(self).exited_ok,
            final(self).failure == old(self).failure,
            final(self).dyn_inputs == old(self).dyn_inputs,
    {
        let mut paths: Vec<String> = Vec::new();
        let b = &self.config.builds[j];
        let ghost names = all_inputs(*b);
        let n_explicit = b.inputs.len();
        let mut k: usize = 0;
        while k < self.deps[j].len()
            invariant
                self.wf(),
                j < self.states@.len(),
                k <= self.deps@[j as int]@.len(),
                paths@.len() == 0 ==> forall|m: int|
                    0 <= m < k ==> (#[trigger] self.deps@[j as int]@[m]) is Some,
                *b == self.config.builds@[j as int],
                names == all_inputs(*b),
                n_explicit == b.inputs@.len(),
            decreases self.deps@[j as int]@.len() - k,
        {
            if self.deps[j][k].is_none() {
                if k < n_explicit {
                    paths.push(b.inputs[k].clone());
                } else {
                    paths.push(b.order_only_inputs[k - n_explicit].clone());
                }
            }
            k += 1;
        }
        proof {
            if paths@.len() == 0 {
                assert forall|m: int| 0 <= m < all_inputs(*b).len() implies has_producer(
                    self.config.builds@,
                    (#[trigger] all_inputs(*b)[m])@,
                ) by {
                    let p = self.deps@[j as int]@[m]->Some_0;
                    assert(is_first_producer(self.config.builds@, all_inputs(*b)[m]@, p as int));
                    assert(produces(self.config.builds@[p as int], all_inputs(*b)[m]@));
                }
            }
        }
        self.set_state(j, TaskState::Inputs);
        if paths.len() == 0 {
            self.sources_ok.set(j, true);
        } else {
            self.sources_ok.set(j, false);
            self.outbox.push(Action::CheckSources { target: j, paths });
            assert(self.outbox@[self.outbox@.len() - 1] is CheckSources);
        }
    }


    /// Registers target `start` and, transitively, the producers of its
    /// explicit and order-only inputs that nothing has asked for yet.
    fn register(&mut self, start: usize)
        requires
            old(self).wf(),
            start < old(self).states@.len(),
        ensures
            final(self).wf(),
            final(self).states@[start as int] != TaskState::Idle,
            old(self).states@[start as int] == TaskState::Idle ==> final(self).states@[start as int]
                == TaskState::Inputs,
            forall|i: int|
                0 <= i < old(self).states@.len() ==> #[trigger] final(self).states@[i]
                    == old(self).states@[i] || (old(self).states@[i] == TaskState::Idle
                    && final(self).states@[i] == TaskState::Inputs),
            final(self).states@.len() == old(self).states@.len(),
            forall|i: int|
                0 <= i < old(self).states@.len() && old(self).states@[i] != TaskState::Idle
                    ==> #[trigger] final(self).states@[i] == old(self).states@[i],
            final(self).config == old(self).config,
            outbox_grows(*old(self), *final(self)),
            sources_announced(*old(self), *final(self)),
            sources_step(*old(self), *final(self)),
            final(self).job_limit == old(self).job_limit,
            final(self).runs == old(self).runs,
            final(self).exited_ok == old(self).exited_ok,
            final(self).failure == old(self).failure,
            final(self).dyn_inputs == old(self).dyn_inputs,
    {
        let ghost n = self.states@.len();
        let mut stack: Vec<usize> = Vec::new();
        if self.states[start] == TaskState::Idle {
            self.enter(start);
            let mut k: usize = 0;
            while k < self.deps[start].len()
                invariant
                    self.wf(),
                    self.states@.len() == n,
                    start < n,
                    k <= self.deps@[start as int]@.len(),
                    forall|m: int| 0 <= m < stack@.len() ==> #[trigger] stack@[m] < n,
                decreases self.deps@[start as int]@.len() - k,
            {
                match self.deps[start][k] {
                    Some(p) => {
                        stack.push(p);
                    },
                    None => {},
                }
                k += 1;
            }
        }
        while stack.len() > 0
            invariant
                self.wf(),
                self.states@.len() == n,
                start < n,
                n == old(self).states@.len(),
                forall|m: int| 0 <= m < stack@.len() ==> #[trigger] stack@[m] < n,
                self.states@[start as int] != TaskState::Idle,
                forall|i: int|
                    0 <= i < n && old(self).states@[i] != TaskState::Idle
                        ==> #[trigger] self.states@[i] == old(self).states@[i],
                self.config == old(self).config,
                self.job_limit == old(self).job_limit,
                self.runs == old(self).runs,
                self.exited_ok == old(self).exited_ok,
                self.failure == old(self).failure,
                old(self).states@[start as int] == TaskState::Idle ==> self.states@[start as int]
                    == TaskState::Inputs,
                forall|i: int|
                    0 <= i < n ==> #[trigger] self.states@[i] == old(self).states@[i] || (
                    old(self).states@[i] == TaskState::Idle && self.states@[i] == TaskState::Inputs),
                outbox_grows(*old(self), *self),
                sources_announced(*old(self), *self),
                sources_step(*old(self), *self),
                self.dyn_inputs == old(self).dyn_inputs,
            decreases count_in(self.states@, TaskState::Idle), stack@.len(),
        {
            let j = stack.pop().unwrap();
            let ghost before = *self;
            let ghost idle_before = count_in(self.states@, TaskState::Idle);
            if self.states[j] == TaskState::Idle {
                self.enter(j);
                let mut k: usize = 0;
                while k < self.deps[j].len()
                    invariant
                        self.wf(),
                        self.states@.len() == n,
                        j < n,
                        self.states@[j as int] != TaskState::Idle,
                        self.states@[start as int] != TaskState::Idle,
                        forall|i: int|
                            0 <= i < n && old(self).states@[i] != TaskState::Idle
                                ==> #[trigger] self.states@[i] == old(self).states@[i],
                        self.config == old(self).config,
                        self.job_limit == old(self).job_limit,
                        self.runs == old(self).runs,
                        self.exited_ok == old(self).exited_ok,
                        self.failure == old(self).failure,
                        self.dyn_inputs == old(self).dyn_inputs,
                        count_in(self.states@, TaskState::Idle) + 1 == idle_before,
                        k <= self.deps@[j as int]@.len(),
                        forall|m: int| 0 <= m < stack@.len() ==> #[trigger] stack@[m] < n,
                    decreases self.deps@[j as int]@.len() - k,
                {
                    match self.deps[j][k] {
                        Some(p) => {
                            stack.push(p);
                        },
                        None => {},
                    }
                    k += 1;
                }
                proof {
                    lemma_sources_announced_trans(*old(self), before, *self);
                }
            }
        }
    }


    /// Whether the explicit and order-only inputs of target `i` have finished:
    /// `Some(true)` when all succeeded, `Some(false)` when one failed, `None`
    /// while one is still pending.
    fn inputs_status(&self, i: usize) -> (r: Option<bool>)
        requires
            self.wf(),
            i < self.states@.len(),
        ensures
            (r == Some(true)) == self.deps_succeeded(i as int),
            r == Some(false) ==> self.failure is Some,
    {
        let mut done = true;
        let mut k: usize = 0;
        while k < self.deps[i].len()
            invariant
                self.wf(),
                i < self.states@.len(),
                k <= self.deps@[i as int]@.len(),
                done ==> forall|m: int|
                    0 <= m < k && (#[trigger] self.deps@[i as int]@[m]) is Some
                        ==> self.states@[self.deps@[i as int]@[m]->Some_0 as int]
                        == TaskState::Succeeded,
                !done ==> !self.deps_succeeded(i as int),
            decreases self.deps@[i as int]@.len() - k,
        {
            match self.deps[i][k] {
                Some(p) => {
                    assert(is_first_producer(self.config.builds@, all_inputs(self.config.builds@[i as int])[k as int]@, p as int));
                    if self.states[p] == TaskState::Failed {
                        assert(self.runs@[p as int] <= 1);
                        assert(self.deps@[i as int]@[k as int] is Some);
                        return Some(false);
                    }
                    if self.states[p] != TaskState::Succeeded {
                        done = false;
                    }
                },
                None => {},
            }
            k += 1;
        }
        if done {
            Some(true)
        } else {
            None
        }
    }

    /// Whether the dynamic inputs of target `i` have finished, as
    /// [`Self::inputs_status`] tells it of the other inputs.
    fn dynamic_status(&self, i: usize) -> (r: Option<bool>)
        requires
            self.wf(),
            i < self.states@.len(),
        ensures
            (r == Some(true)) == self.dyn_deps_succeeded(i as int),
            r == Some(false) ==> self.failure is Some,
    {
        let mut done = true;
        let mut k: usize = 0;
        while k < self.dyn_deps[i].len()
            invariant
                self.wf(),
                i < self.states@.len(),
                k <= self.dyn_deps@[i as int]@.len(),
                done ==> forall|m: int|
                    0 <= m < k ==> self.states@[(#[trigger] self.dyn_deps@[i as int]@[m]) as int]
                        == TaskState::Succeeded,
                !done ==> !self.dyn_deps_succeeded(i as int),
            decreases self.dyn_deps@[i as int]@.len() - k,
        {
            let p = self.dyn_deps[i][k];
            assert(is_first_producer(self.config.builds@, self.dyn_inputs@[i as int]@[k as int]@, p as int));
            if self.states[p] == TaskState::Failed {
                assert(self.runs@[p as int] <= 1);
                assert(self.states@[self.dyn_deps@[i as int]@[k as int] as int] != TaskState::Succeeded);
                return Some(false);
            }
            if self.states[p] != TaskState::Succeeded {
                done = false;
            }
            k += 1;
        }
        if done {
            Some(true)
        } else {
            None
        }
    }

    /// The inspection of target `i`: the inputs whose timestamps are hashed,
    /// and its outputs followed by its implicit outputs.
    fn inspect_action(&self, i: usize) -> (r: Action)
        requires
            self.wf(),
            i < self.states@.len(),
        ensures
            r matches Action::Inspect { target, id, inputs, outputs } && target == i && id
                == self.builds()[i as int].id && inputs@ == self.hashed_inputs(i as int)
                && outputs@ == self.builds()[i as int].outputs@
                + self.builds()[i as int].implicit_outputs@,
    {
        let b = &self.config.builds[i];
        let mut inputs: Vec<String> = Vec::new();
        push_names(&mut inputs, &b.inputs);
        push_names(&mut inputs, &self.dyn_inputs[i]);
        let mut outputs: Vec<String> = Vec::new();
        push_names(&mut outputs, &b.outputs);
        push_names(&mut outputs, &b.implicit_outputs);
        Action::Inspect { target: i, id: b.id.clone(), inputs, outputs }
    }

    /// Moves on every target whose awaited inputs have all finished.
    fn advance_all(&mut self)
        requires
            old(self).wf(),
        ensures
            final(self).wf(),
            final(self).states@.len() == old(self).states@.len(),
            forall|i: int|
                0 <= i < old(self).states@.len() && old(self).states@[i] != TaskState::Inputs
                    && old(self).states@[i] != TaskState::Dynamic ==> #[trigger] final(self).states@[i]
                    == old(self).states@[i],
            final(self).config == old(self).config,
            announced(*old(self), *final(self)),
            outbox_grows(*old(self), *final(self)),
            final(self).sources_ok == old(self).sources_ok,
            final(self).job_limit == old(self).job_limit,
            final(self).runs == old(self).runs,
            final(self).exited_ok == old(self).exited_ok,
            final(self).failure == old(self).failure,
            final(self).dyn_inputs == old(self).dyn_inputs,
            final(self).settled_inner(),
            forall|m: int| 0 <= m < old(self).states@.len() ==> (#[trigger] final(self).states@[m] == TaskState::Succeeded) == (old(self).states@[m] == TaskState::Succeeded),
            final(self).deps == old(self).deps,
            final(self).dyn_deps == old(self).dyn_deps,
            final(self).fingerprints == old(self).fingerprints,
            forall|i: int|
                0 <= i < old(self).states@.len() && old(self).states@[i] != TaskState::Idle
                    ==> #[trigger] final(self).states@[i] != TaskState::Idle,
    {
        let n = self.states.len();
        let mut i: usize = 0;
        while i < n
            invariant
                self.wf(),
                n == self.states@.len(),
                n == old(self).states@.len(),
                i <= n,
                forall|m: int|
                    0 <= m < n && old(self).states@[m] != TaskState::Inputs && old(self).states@[m]
                        != TaskState::Dynamic ==> #[trigger] self.states@[m] == old(self).states@[m],
                self.config == old(self).config,
                self.job_limit == old(self).job_limit,
                self.runs == old(self).runs,
                self.exited_ok == old(self).exited_ok,
                self.failure == old(self).failure,
                self.dyn_inputs == old(self).dyn_inputs,
                announced(*old(self), *self),
                outbox_grows(*old(self), *self),
                self.sources_ok == old(self).sources_ok,
                self.deps == old(self).deps,
                self.dyn_deps == old(self).dyn_deps,
                forall|m: int| 0 <= m < n ==> (#[trigger] self.states@[m] == TaskState::Succeeded) == (old(self).states@[m] == TaskState::Succeeded),
                forall|m: int|
                    0 <= m < i ==> !(#[trigger] self.states@[m] == TaskState::Inputs
                        && self.sources_ok@[m] && self.deps_succeeded(m)) && !(self.states@[m]
                        == TaskState::Dynamic && self.dyn_deps_succeeded(m)),
                self.fingerprints == old(self).fingerprints,
                forall|m: int|
                    0 <= m < n && old(self).states@[m] != TaskState::Idle
                        ==> #[trigger] self.states@[m] != TaskState::Idle,
            decreases n - i,
        {
            let ghost before = *self;
            if self.states[i] == TaskState::Inputs {
                match self.inputs_status(i) {
                    Some(true) => {
                        if self.sources_ok[i] {
                            match &self.config.builds[i].dynamic_module {
                                Some(path) => {
                                    let path = path.clone();
                                    self.set_state(i, TaskState::Module);
                                    self.outbox.push(Action::CompileModule { target: i, path });
                                },
                                None => {
                                    let action = self.inspect_action(i);
                                    self.set_state(i, TaskState::Inspecting);
                                    self.outbox.push(action);
                                },
                            }
                        }
                    },
                    Some(false) => {
                        self.set_state(i, TaskState::Failed);
                    },
                    None => {},
                }
            } else if self.states[i] == TaskState::Dynamic {
                match self.dynamic_status(i) {
                    Some(true) => {
                        let action = self.inspect_action(i);
                        self.set_state(i, TaskState::Inspecting);
                        self.outbox.push(action);
                    },
                    Some(false) => {
                        self.set_state(i, TaskState::Failed);
                    },
                    None => {},
                }
            }
            proof {
                assert forall|k: int| 0 <= k < before.outbox@.len() implies #[trigger] self.outbox@[k]
                    == before.outbox@[k] && self.well_formed_action(self.outbox@[k]) by {
                    lemma_action_kept(&before, self, before.outbox@[k]);
                }
            }
            proof {
                assert forall|m: int|
                    0 <= m < old(self).states@.len() && old(self).states@[m] != TaskState::Module
                        && #[trigger] self.states@[m] == TaskState::Module implies exists|k: int|
                    old(self).outbox@.len() <= k < self.outbox@.len() && self.outbox@[k] == (
                    Action::CompileModule {
                        target: m as usize,
                        path: old(self).config.builds@[m].dynamic_module->Some_0,
                    }) by {
                    if before.states@[m] == TaskState::Module {
                        let k0 = choose|k: int|
                            old(self).outbox@.len() <= k < before.outbox@.len() && before.outbox@[k]
                                == (Action::CompileModule {
                                target: m as usize,
                                path: old(self).config.builds@[m].dynamic_module->Some_0,
                            });
                        assert(self.outbox@[k0] == before.outbox@[k0]);
                    } else {
                        assert(self.outbox@[self.outbox@.len() - 1] == (Action::CompileModule {
                            target: m as usize,
                            path: old(self).config.builds@[m].dynamic_module->Some_0,
                        }));
                    }
                }
                assert forall|m: int|
                    0 <= m < old(self).states@.len() && old(self).states@[m] != TaskState::Inspecting
                        && #[trigger] self.states@[m] == TaskState::Inspecting implies exists|k: int|
                    old(self).outbox@.len() <= k < self.outbox@.len() && (#[trigger] self.outbox@[k]) is Inspect
                        && self.outbox@[k]->Inspect_target == m by {
                    if before.states@[m] == TaskState::Inspecting {
                        let k0 = choose|k: int|
                            old(self).outbox@.len() <= k < before.outbox@.len() && (#[trigger] before.outbox@[k]) is Inspect
                                && before.outbox@[k]->Inspect_target == m;
                        assert(self.outbox@[k0] == before.outbox@[k0]);
                    } else {
                        let last = self.outbox@.len() - 1;
                        assert(self.outbox@[last] is Inspect);
                    }
                }
            }
            proof {
                assert forall|m: int|
                    0 <= m < i + 1 implies !(#[trigger] self.states@[m] == TaskState::Inputs
                        && self.sources_ok@[m] && self.deps_succeeded(m)) && !(self.states@[m]
                        == TaskState::Dynamic && self.dyn_deps_succeeded(m)) by {
                    lemma_succeeded_same(&before, self, m);
                }
            }
            assert(self.wf_shape());
            assert(self.wf_jobs());
            assert(self.wf_order());
            assert(self.wf_outbox());
            i += 1;
        }
        assert(self.settled_inner());
    }


    /// A driver for a run of `config` with at most `job_limit` commands at a
    /// time. The producer of each default output is registered, and with it,
    /// transitively, the producers of its inputs. Fails on the first default
    /// output that no target produces.
    pub fn new(config: Configuration, job_limit: usize) -> (r: Result<Driver, DriverError>)
        ensures
            match r {
                Ok(d) => {
                    &&& d.wf()
                    &&& d.builds() == config.builds@
                    &&& d.job_limit() == job_limit
                    &&& d.settled()
                    &&& d.failure() is None
                    &&& forall|m: int|
                        0 <= m < d.states().len() && #[trigger] d.states()[m] != TaskState::Idle
                            && !d.sources_checked()[m] ==> exists|k: int|
                            0 <= k < d.pending().len() && (#[trigger] d.pending()[k]) is CheckSources
                                && d.pending()[k]->CheckSources_target == m
                    &&& forall|m: int|
                        0 <= m < d.states().len() && #[trigger] d.states()[m] == TaskState::Module
                            ==> exists|k: int|
                            0 <= k < d.pending().len() && d.pending()[k] == (Action::CompileModule {
                                target: m as usize,
                                path: config.builds@[m].dynamic_module->Some_0,
                            })
                    &&& forall|m: int|
                        0 <= m < d.states().len() && #[trigger] d.states()[m] == TaskState::Inspecting
                            ==> exists|k: int|
                            0 <= k < d.pending().len() && (#[trigger] d.pending()[k]) is Inspect
                                && d.pending()[k]->Inspect_target == m
                    &&& forall|i: int| 0 <= i < d.builds().len() ==> #[trigger] d.runs()[i] == 0
                    &&& forall|k: int|
                        0 <= k < config.default_outputs@.len() ==> has_producer(
                            config.builds@,
                            (#[trigger] config.default_outputs@[k])@,
                        )
                    &&& forall|k: int, p: int|
                        0 <= k < config.default_outputs@.len() && #[trigger] is_first_producer(
                            config.builds@,
                            config.default_outputs@[k]@,
                            p,
                        ) ==> d.states()[p] != TaskState::Idle
                },
                Err(e) => exists|k: int|
                    0 <= k < config.default_outputs@.len() && !has_producer(
                        config.builds@,
                        (#[trigger] config.default_outputs@[k])@,
                    ) && (forall|m: int|
                        0 <= m < k ==> has_producer(
                            config.builds@,
                            (#[trigger] config.default_outputs@[m])@,
                        )) && e == DriverError::DefaultOutputNotFound(config.default_outputs@[k]),
            },
    {
        let n = config.builds.len();
        let mut deps: Vec<Vec<Option<usize>>> = Vec::new();
        let mut i: usize = 0;
        while i < n
            invariant
                n == config.builds@.len(),
                i <= n,
                deps@.len() == i,
                forall|m: int|
                    0 <= m < i ==> (#[trigger] deps@[m])@.len() == all_inputs(
                        config.builds@[m],
                    ).len(),
                forall|m: int, k: int|
                    0 <= m < i && 0 <= k < deps@[m]@.len() ==> match (#[trigger] deps@[m]@[k]) {
                        Some(p) => is_first_producer(
                            config.builds@,
                            all_inputs(config.builds@[m])[k]@,
                            p as int,
                        ),
                        None => !has_producer(config.builds@, all_inputs(config.builds@[m])[k]@),
                    },
            decreases n - i,
        {
            let b = &config.builds[i];
            let ghost names = all_inputs(*b);
            let mut row: Vec<Option<usize>> = Vec::new();
            let mut k: usize = 0;
            while k < b.inputs.len()
                invariant
                    k <= b.inputs@.len(),
                    names == all_inputs(*b),
                    row@.len() == k,
                    forall|m: int|
                        0 <= m < k ==> match #[trigger] row@[m] {
                            Some(p) => is_first_producer(config.builds@, names[m]@, p as int),
                            None => !has_producer(config.builds@, names[m]@),
                        },
                decreases b.inputs@.len() - k,
            {
                row.push(config.producer_of(&b.inputs[k]));
                k += 1;
            }
            let mut k: usize = 0;
            while k < b.order_only_inputs.len()
                invariant
                    k <= b.order_only_inputs@.len(),
                    names == all_inputs(*b),
                    row@.len() == b.inputs@.len() + k,
                    forall|m: int|
                        0 <= m < b.inputs@.len() + k ==> match #[trigger] row@[m] {
                            Some(p) => is_first_producer(config.builds@, names[m]@, p as int),
                            None => !has_producer(config.builds@, names[m]@),
                        },
                decreases b.order_only_inputs@.len() - k,
            {
                assert(names[b.inputs@.len() + k] == b.order_only_inputs@[k as int]);
                row.push(config.producer_of(&b.order_only_inputs[k]));
                k += 1;
            }
            deps.push(row);
            i += 1;
        }
        let mut dyn_inputs: Vec<Vec<String>> = Vec::new();
        let mut dyn_deps: Vec<Vec<usize>> = Vec::new();
        let mut sources_ok: Vec<bool> = Vec::new();
        let mut fingerprints: Vec<u64> = Vec::new();
        let mut states: Vec<TaskState> = Vec::new();
        let mut i: usize = 0;
        while i < n
            invariant
                i <= n,
                dyn_inputs@.len() == i,
                dyn_deps@.len() == i,
                sources_ok@.len() == i,
                fingerprints@.len() == i,
                states@.len() == i,
                forall|m: int| 0 <= m < i ==> (#[trigger] dyn_inputs@[m])@.len() == 0,
                forall|m: int| 0 <= m < i ==> (#[trigger] dyn_deps@[m])@.len() == 0,
                forall|m: int| 0 <= m < i ==> #[trigger] states@[m] == TaskState::Idle,
            decreases n - i,
        {
            dyn_inputs.push(Vec::new());
            dyn_deps.push(Vec::new());
            sources_ok.push(false);
            fingerprints.push(0);
            states.push(TaskState::Idle);
            i += 1;
        }
        proof {
            lemma_count_absent(states@, TaskState::Running);
        }
        let mut d = Driver {
            config,
            deps,
            dyn_inputs,
            dyn_deps,
            sources_ok,
            fingerprints,
            states,
            job_limit,
            running: 0,
            failure: None,
            outbox: Vec::new(),
            runs: Ghost(Seq::new(n as nat, |i: int| 0nat)),
            exited_ok: Ghost(Seq::new(n as nat, |i: int| false)),
        };
        let ghost d0 = d;
        let mut k: usize = 0;
        while k < d.config.default_outputs.len()
            invariant
                d.wf(),
                k <= d.config.default_outputs@.len(),
                d.config == config,
                d.job_limit == job_limit,
                d.failure is None,
                forall|m: int|
                    0 <= m < d.states@.len() ==> #[trigger] d.states@[m] == TaskState::Idle
                        || d.states@[m] == TaskState::Inputs,
                sources_announced(d0, d),
                d0.outbox@.len() == 0,
                d0.states@.len() == d.states@.len(),
                forall|m: int| 0 <= m < d0.states@.len() ==> #[trigger] d0.states@[m] == TaskState::Idle,
                d.runs@ == Seq::new(n as nat, |i: int| 0nat),
                forall|m: int|
                    0 <= m < k ==> has_producer(
                        config.builds@,
                        (#[trigger] config.default_outputs@[m])@,
                    ),
                forall|m: int, p: int|
                    0 <= m < k && #[trigger] is_first_producer(
                        config.builds@,
                        config.default_outputs@[m]@,
                        p,
                    ) ==> d.states@[p] != TaskState::Idle,
            decreases d.config.default_outputs@.len() - k,
        {
            match d.config.producer_of(&d.config.default_outputs[k]) {
                Some(p) => {
                    let ghost before = d;
                    d.register(p);
                    proof {
                        lemma_sources_announced_trans(d0, before, d);
                    }
                    assert forall|m: int, q: int|
                        0 <= m <= k && #[trigger] is_first_producer(
                            config.builds@,
                            config.default_outputs@[m]@,
                            q,
                        ) implies d.states@[q] != TaskState::Idle by {
                        if m == k && q != p {
                            if q < p {
                                assert(!produces(config.builds@[q], config.default_outputs@[m]@));
                            } else {
                                assert(!produces(config.builds@[p as int], config.default_outputs@[m]@));
                            }
                        }
                    }
                },
                None => {
                    return Err(DriverError::DefaultOutputNotFound(d.config.default_outputs[k].clone()));
                },
            }
            k += 1;
        }
        let ghost mid = d;
        d.advance_all();
        proof {
            lemma_settled(&d);
            assert(sources_announced(mid, d));
            lemma_sources_announced_trans(d0, mid, d);
            assert forall|m: int|
                0 <= m < d.states().len() && #[trigger] d.states()[m] != TaskState::Idle
                    && !d.sources_checked()[m] implies exists|k: int|
                0 <= k < d.pending().len() && (#[trigger] d.pending()[k]) is CheckSources
                    && d.pending()[k]->CheckSources_target == m by {
                assert(d0.states@[m] == TaskState::Idle);
                assert(d.states@[m] != TaskState::Idle);
                assert(!d.sources_ok@[m]);
                let k0 = choose|k: int|
                    d0.outbox@.len() <= k < d.outbox@.len() && (#[trigger] d.outbox@[k]) is CheckSources
                        && d.outbox@[k]->CheckSources_target == m;
                assert(d.pending()[k0] == d.outbox@[k0]);
            }
            assert forall|m: int|
                0 <= m < d.states().len() && #[trigger] d.states()[m] == TaskState::Module implies exists|k: int|
                0 <= k < d.pending().len() && d.pending()[k] == (Action::CompileModule {
                    target: m as usize,
                    path: config.builds@[m].dynamic_module->Some_0,
                }) by {
                assert(d.states@[m] == TaskState::Module);
                assert(mid.config == config);
                assert(mid.states@[m] != TaskState::Module);
                assert(announced(mid, d));
                let k0 = choose|k: int|
                    mid.outbox@.len() <= k < d.outbox@.len() && d.outbox@[k] == (Action::CompileModule {
                        target: m as usize,
                        path: mid.config.builds@[m].dynamic_module->Some_0,
                    });
                assert(d.pending()[k0] == d.outbox@[k0]);
            }
            assert forall|m: int|
                0 <= m < d.states().len() && #[trigger] d.states()[m] == TaskState::Inspecting implies exists|k: int|
                0 <= k < d.pending().len() && (#[trigger] d.pending()[k]) is Inspect
                    && d.pending()[k]->Inspect_target == m by {
                assert(mid.states@[m] != TaskState::Inspecting);
            }
        }
        Ok(d)
    }


    /// Takes in the fragment that target `t`'s dynamic module compiled to.
    fn apply_module(&mut self, t: usize, fragment: Configuration)
        requires
            old(self).wf(),
            t < old(self).states@.len(),
            old(self).states@[t as int] == TaskState::Module,
        ensures
            final(self).wf(),
            final(self).states@.len() == old(self).states@.len(),
            forall|i: int|
                0 <= i < old(self).states@.len() && old(self).states@[i] != TaskState::Idle
                    && i != t ==> #[trigger] final(self).states@[i] == old(self).states@[i],
            final(self).config == old(self).config,
            forall|m: int|
                0 <= m < old(self).states@.len() && m != t ==> #[trigger] final(self).states@[m]
                    == old(self).states@[m] || (old(self).states@[m] == TaskState::Idle
                    && final(self).states@[m] == TaskState::Inputs),
            sources_announced(*old(self), *final(self)),
            outbox_grows(*old(self), *final(self)),
            sources_step(*old(self), *final(self)),
            final(self).job_limit == old(self).job_limit,
            final(self).runs == old(self).runs,
            final(self).exited_ok == old(self).exited_ok,
            old(self).failure is Some ==> final(self).failure == old(self).failure,
            final(self).states@[t as int] == TaskState::Failed || final(self).states@[t as int]
                == TaskState::Dynamic,
            ({
                let b = old(self).config.builds@[t as int];
                let not_found = DriverError::DynamicDependencyNotFound(b.id);
                &&& (forall|m: int| !is_dynamic_match(fragment.builds@, b.outputs@, m))
                    ==> final(self).states@[t as int] == TaskState::Failed && final(self).failure
                    == first_failure(old(self).failure, not_found)
                &&& forall|m: int|
                    #[trigger] is_dynamic_match(fragment.builds@, b.outputs@, m) ==> if forall|j: int|
                        0 <= j < fragment.builds@[m].inputs@.len() ==> has_producer(
                            old(self).config.builds@,
                            (#[trigger] fragment.builds@[m].inputs@[j])@,
                        ) {
                        final(self).dyn_inputs@[t as int]@ == fragment.builds@[m].inputs@
                            && final(self).states@[t as int] == TaskState::Dynamic
                            && final(self).failure == old(self).failure
                    } else {
                        final(self).states@[t as int] == TaskState::Failed && final(self).failure
                            == first_failure(old(self).failure, not_found)
                    }
            }),
    {
        let ghost b = self.config.builds@[t as int];
        match find_dynamic_match(&fragment, &self.config.builds[t].outputs) {
            None => {
                let e = DriverError::DynamicDependencyNotFound(self.config.builds[t].id.clone());
                self.fail(t, e);
                assert forall|m: int| !is_dynamic_match(fragment.builds@, b.outputs@, m) by {
                    if is_dynamic_match(fragment.builds@, b.outputs@, m) {
                        let k = choose|k: int|
                            0 <= k < b.outputs@.len() && is_first_producer(fragment.builds@, (#[trigger] b.outputs@[k])@, m)
                                && forall|j: int| 0 <= j < k ==> !has_producer(fragment.builds@, (#[trigger] b.outputs@[j])@);
                        assert(has_producer(fragment.builds@, b.outputs@[k]@));
                    }
                }
            },
            Some(m) => {
                assert(is_dynamic_match(fragment.builds@, b.outputs@, m as int));
                let names = &fragment.builds[m].inputs;
                let mut ps: Vec<usize> = Vec::new();
                let mut j: usize = 0;
                while j < names.len()
                    invariant
                        *self == *old(self),
                        self.wf(),
                        self.states@[t as int] == TaskState::Module,
                        b == self.config.builds@[t as int],
                        m < fragment.builds@.len(),
                        is_dynamic_match(fragment.builds@, b.outputs@, m as int),
                        t < self.states@.len(),
                        names == &fragment.builds@[m as int].inputs,
                        j <= names@.len(),
                        ps@.len() == j,
                        forall|q: int|
                            0 <= q < j ==> is_first_producer(
                                self.config.builds@,
                                names@[q]@,
                                (#[trigger] ps@[q]) as int,
                            ),
                    decreases names@.len() - j,
                {
                    match self.config.producer_of(&names[j]) {
                        Some(p) => {
                            ps.push(p);
                        },
                        None => {
                            let e = DriverError::DynamicDependencyNotFound(self.config.builds[t].id.clone());
                            self.fail(t, e);
                            assert forall|m2: int| #[trigger] is_dynamic_match(fragment.builds@, b.outputs@, m2) implies m2 == m by {
                                lemma_dynamic_match_unique(fragment.builds@, b.outputs@, m as int, m2);
                            }
                            assert(!has_producer(self.config.builds@, fragment.builds@[m as int].inputs@[j as int]@));
                            return;
                        },
                    }
                    j += 1;
                }
                let mut copy: Vec<String> = Vec::new();
                push_names(&mut copy, names);
                self.dyn_inputs.set(t, copy);
                self.dyn_deps.set(t, ps);
                self.set_state(t, TaskState::Dynamic);
                let mut j: usize = 0;
                while j < self.dyn_deps[t].len()
                    invariant
                        self.wf(),
                        t < self.states@.len(),
                        self.states@.len() == old(self).states@.len(),
                        j <= self.dyn_deps@[t as int]@.len(),
                        self.dyn_inputs@[t as int]@ == names@,
                        names == &fragment.builds@[m as int].inputs,
                        m < fragment.builds@.len(),
                        b == old(self).config.builds@[t as int],
                        is_dynamic_match(fragment.builds@, b.outputs@, m as int),
                        self.states@[t as int] == TaskState::Dynamic,
                        forall|i: int|
                            0 <= i < old(self).states@.len() && old(self).states@[i] != TaskState::Idle
                                && i != t ==> #[trigger] self.states@[i] == old(self).states@[i],
                        self.config == old(self).config,
                        self.job_limit == old(self).job_limit,
                        self.runs == old(self).runs,
                        self.exited_ok == old(self).exited_ok,
                        forall|m: int|
                            0 <= m < old(self).states@.len() && m != t ==> #[trigger] self.states@[m]
                                == old(self).states@[m] || (old(self).states@[m] == TaskState::Idle
                                && self.states@[m] == TaskState::Inputs),
                        sources_announced(*old(self), *self),
                        outbox_grows(*old(self), *self),
                        sources_step(*old(self), *self),
                        self.failure == old(self).failure,
                    decreases self.dyn_deps@[t as int]@.len() - j,
                {
                    let ghost before = *self;
                    let p = self.dyn_deps[t][j];
                    self.register(p);
                    proof {
                        lemma_sources_announced_trans(*old(self), before, *self);
                    }
                    j += 1;
                }
                assert forall|m2: int| #[trigger] is_dynamic_match(fragment.builds@, b.outputs@, m2) implies m2 == m by {
                    lemma_dynamic_match_unique(fragment.builds@, b.outputs@, m as int, m2);
                }
                assert forall|q: int| 0 <= q < fragment.builds@[m as int].inputs@.len() implies has_producer(
                    self.config.builds@,
                    (#[trigger] fragment.builds@[m as int].inputs@[q])@,
                ) by {
                    assert(self.dyn_deps@[t as int]@.len() == self.dyn_inputs@[t as int]@.len());
                    assert(is_first_producer(
                        self.config.builds@,
                        self.dyn_inputs@[t as int]@[q]@,
                        self.dyn_deps@[t as int]@[q] as int,
                    ));
                }
            },
        }
    }


    /// Takes in what the inspection of target `t` observed, and decides.
    fn apply_observation(&mut self, t: usize, obs: Observation)
        requires
            old(self).wf(),
            t < old(self).states@.len(),
            old(self).states@[t as int] == TaskState::Inspecting,
        ensures
            final(self).wf(),
            final(self).states@ == old(self).states@.update(
                t as int,
                state_after(observed_decision(old(self).config.builds@[t as int], obs)),
            ),
            final(self).fingerprints@ == old(self).fingerprints@.update(
                t as int,
                fingerprint_of(rule_command(old(self).config.builds@[t as int]), obs.times@),
            ),
            final(self).config == old(self).config,
            outbox_grows(*old(self), *final(self)),
            observed_decision(old(self).config.builds@[t as int], obs) == Decision::Record
                ==> final(self).outbox@ == old(self).outbox@.push(
                Action::Record {
                    target: t,
                    id: old(self).config.builds@[t as int].id,
                    fingerprint: fingerprint_of(
                        rule_command(old(self).config.builds@[t as int]),
                        obs.times@,
                    ),
                },
            ),
            final(self).sources_ok == old(self).sources_ok,
            final(self).job_limit == old(self).job_limit,
            final(self).runs == old(self).runs,
            final(self).exited_ok == old(self).exited_ok,
            final(self).failure == old(self).failure,
            final(self).dyn_inputs == old(self).dyn_inputs,
    {
        let b = &self.config.builds[t];
        let command: Option<&String> = match &b.rule {
            Some(r) => Some(&r.command),
            None => None,
        };
        assert(command_view(command) == rule_command(*b));
        let fp = fingerprint(command, &obs.times);
        let decision = decide(b.rule.is_some(), obs.stored, fp, &obs.present);
        self.fingerprints.set(t, fp);
        match decision {
            Decision::Skip => {
                self.set_state(t, TaskState::Succeeded);
            },
            Decision::Run => {
                self.set_state(t, TaskState::Queued);
            },
            Decision::Record => {
                let id = self.config.builds[t].id.clone();
                self.set_state(t, TaskState::Recording);
                self.outbox.push(Action::Record { target: t, id, fingerprint: fp });
            },
        }
    }

    /// Takes in the exit of target `t`'s command.
    fn finish_command(&mut self, t: usize, success: bool, code: Option<i32>)
        requires
            old(self).wf(),
            t < old(self).states@.len(),
            old(self).states@[t as int] == TaskState::Running,
        ensures
            final(self).wf(),
            final(self).config == old(self).config,
            outbox_grows(*old(self), *final(self)),
            success ==> final(self).outbox@ == old(self).outbox@.push(
                Action::Record {
                    target: t,
                    id: old(self).config.builds@[t as int].id,
                    fingerprint: old(self).fingerprints@[t as int],
                },
            ),
            final(self).sources_ok == old(self).sources_ok,
            final(self).job_limit == old(self).job_limit,
            final(self).runs == old(self).runs,
            final(self).dyn_inputs == old(self).dyn_inputs,
            success ==> final(self).states@ == old(self).states@.update(
                t as int,
                TaskState::Recording,
            ) && final(self).exited_ok@ == old(self).exited_ok@.update(t as int, true)
                && final(self).failure == old(self).failure,
            !success ==> final(self).states@ == old(self).states@.update(t as int, TaskState::Failed)
                && final(self).exited_ok == old(self).exited_ok && final(self).failure
                == first_failure(
                old(self).failure,
                DriverError::CommandExit(
                    old(self).config.builds@[t as int].rule->Some_0.command,
                    code,
                ),
            ),
    {
        assert(self.runs@[t as int] == 1);
        self.set_state(t, if success {
            TaskState::Recording
        } else {
            TaskState::Failed
        });
        self.running = self.running - 1;
        if success {
            self.exited_ok = Ghost(self.exited_ok@.update(t as int, true));
            let id = self.config.builds[t].id.clone();
            let fp = self.fingerprints[t];
            self.outbox.push(Action::Record { target: t, id, fingerprint: fp });
        } else {
            let command = match &self.config.builds[t].rule {
                Some(r) => r.command.clone(),
                None => String::new(),
            };
            if self.failure.is_none() {
                self.failure = Some(DriverError::CommandExit(command, code));
            }
        }
    }


    /// Takes in the outcome of an action, then moves on every target whose
    /// awaited inputs have finished. An event for a target that does not wait
    /// for it is ignored.
    #[verifier::rlimit(100)]
    pub fn handle(&mut self, event: Event)
        requires
            old(self).wf(),
        ensures
            final(self).wf(),
            final(self).builds() == old(self).builds(),
            final(self).job_limit() == old(self).job_limit(),
            final(self).runs() == old(self).runs(),
            final(self).states().len() == old(self).states().len(),
            forall|i: int|
                0 <= i < old(self).states().len() && old(self).states()[i] == TaskState::Succeeded
                    ==> #[trigger] final(self).states()[i] == TaskState::Succeeded,
            forall|i: int|
                0 <= i < old(self).states().len() && old(self).states()[i] == TaskState::Failed
                    ==> #[trigger] final(self).states()[i] == TaskState::Failed,
            old(self).failure() is Some ==> final(self).failure() == old(self).failure(),
            old(self).pending().len() <= final(self).pending().len(),
            forall|k: int|
                0 <= k < old(self).pending().len() ==> #[trigger] final(self).pending()[k]
                    == old(self).pending()[k],
            forall|i: int|
                0 <= i < old(self).states().len() && old(self).states()[i] != TaskState::Module
                    && #[trigger] final(self).states()[i] == TaskState::Module ==> exists|k: int|
                    old(self).pending().len() <= k < final(self).pending().len()
                        && final(self).pending()[k] == (Action::CompileModule {
                        target: i as usize,
                        path: old(self).builds()[i].dynamic_module->Some_0,
                    }),
            forall|i: int|
                0 <= i < old(self).states().len() && old(self).states()[i] != TaskState::Inspecting
                    && #[trigger] final(self).states()[i] == TaskState::Inspecting ==> exists|k: int|
                    old(self).pending().len() <= k < final(self).pending().len()
                        && (#[trigger] final(self).pending()[k]) is Inspect
                        && final(self).pending()[k]->Inspect_target == i,
            final(self).settled(),
            final(self).sources_checked().len() == old(self).sources_checked().len(),
            forall|i: int|
                0 <= i < old(self).states().len() && old(self).states()[i] == TaskState::Idle
                    && #[trigger] final(self).states()[i] != TaskState::Idle
                    && !final(self).sources_checked()[i] ==> exists|k: int|
                    old(self).pending().len() <= k < final(self).pending().len()
                        && (#[trigger] final(self).pending()[k]) is CheckSources
                        && final(self).pending()[k]->CheckSources_target == i,
            forall|i: int|
                0 <= i < old(self).sources_checked().len() && #[trigger] final(self).sources_checked()[i]
                    && !old(self).sources_checked()[i] ==> (event matches Event::SourcesChecked {
                    target,
                    result,
                } && target == i && result is Ok) || (old(self).states()[i] == TaskState::Idle
                    && no_source_inputs(old(self).builds(), old(self).builds()[i])),
            forall|i: int|
                0 <= i < old(self).states().len() && #[trigger] final(self).exited_ok()[i]
                    ==> old(self).exited_ok()[i] || (event matches Event::Exited {
                    target,
                    success,
                    ..
                } && target == i && success && old(self).states()[i] == TaskState::Running),
            match event {
                Event::SourcesChecked { target, result } => target < old(self).states().len()
                    && old(self).states()[target as int] == TaskState::Inputs && result is Err
                    ==> final(self).states()[target as int] == TaskState::Failed
                    && final(self).failure() == first_failure(
                    old(self).failure(),
                    result->Err_0,
                ),
                Event::ModuleCompiled { target, result } => target < old(self).states().len()
                    && old(self).states()[target as int] == TaskState::Module ==> match result {
                    Err(e) => final(self).states()[target as int] == TaskState::Failed
                        && final(self).failure() == first_failure(old(self).failure(), e),
                    Ok(fragment) => {
                        let b = old(self).builds()[target as int];
                        let not_found = DriverError::DynamicDependencyNotFound(b.id);
                        &&& (forall|m: int| !is_dynamic_match(fragment.builds@, b.outputs@, m))
                            ==> final(self).states()[target as int] == TaskState::Failed
                            && final(self).failure() == first_failure(old(self).failure(), not_found)
                        &&& forall|m: int|
                            #[trigger] is_dynamic_match(fragment.builds@, b.outputs@, m) ==> if forall|j: int|
                                0 <= j < fragment.builds@[m].inputs@.len() ==> has_producer(
                                    old(self).builds(),
                                    (#[trigger] fragment.builds@[m].inputs@[j])@,
                                ) {
                                final(self).dynamic_inputs(target as int) == fragment.builds@[m].inputs@
                            } else {
                                final(self).states()[target as int] == TaskState::Failed
                                    && final(self).failure() == first_failure(old(self).failure(), not_found)
                            }
                    },
                },
                Event::Inspected { target, result } => target < old(self).states().len()
                    && old(self).states()[target as int] == TaskState::Inspecting ==> match result {
                    Err(e) => final(self).states()[target as int] == TaskState::Failed
                        && final(self).failure() == first_failure(old(self).failure(), e),
                    Ok(obs) => final(self).states()[target as int] == state_after(
                        observed_decision(old(self).builds()[target as int], obs),
                    ) && final(self).failure() == old(self).failure() && (observed_decision(
                        old(self).builds()[target as int],
                        obs,
                    ) == Decision::Record ==> final(self).pending()[old(self).pending().len() as int]
                        == (Action::Record {
                        target,
                        id: old(self).builds()[target as int].id,
                        fingerprint: final(self).computed_fingerprint(target as int),
                    }))
                        && final(self).computed_fingerprint(target as int) == fingerprint_of(
                        rule_command(old(self).builds()[target as int]),
                        obs.times@,
                    ),
                },
                Event::Exited { target, success, code } => target < old(self).states().len()
                    && old(self).states()[target as int] == TaskState::Running ==> if success {
                    final(self).states()[target as int] == TaskState::Recording
                        && final(self).exited_ok()[target as int]
                        && final(self).failure() == old(self).failure()
                        && final(self).pending()[old(self).pending().len() as int] == (Action::Record {
                        target,
                        id: old(self).builds()[target as int].id,
                        fingerprint: final(self).computed_fingerprint(target as int),
                    })
                } else {
                    final(self).states()[target as int] == TaskState::Failed
                        && final(self).failure() == first_failure(
                        old(self).failure(),
                        DriverError::CommandExit(
                            old(self).builds()[target as int].rule->Some_0.command,
                            code,
                        ),
                    )
                },
                Event::Recorded { target, result } => target < old(self).states().len()
                    && old(self).states()[target as int] == TaskState::Recording ==> match result {
                    Ok(()) => final(self).states()[target as int] == TaskState::Succeeded
                        && final(self).failure() == old(self).failure(),
                    Err(e) => final(self).states()[target as int] == TaskState::Failed
                        && final(self).failure() == first_failure(old(self).failure(), e),
                },
            },
    {
        let n = self.states.len();
        match event {
            Event::SourcesChecked { target, result } => {
                if target < n && self.states[target] == TaskState::Inputs {
                    match result {
                        Ok(()) => {
                            self.sources_ok.set(target, true);
                        },
                        Err(e) => {
                            self.fail(target, e);
                        },
                    }
                }
            },
            Event::ModuleCompiled { target, result } => {
                if target < n && self.states[target] == TaskState::Module {
                    match result {
                        Ok(fragment) => {
                            self.apply_module(target, fragment);
                        },
                        Err(e) => {
                            self.fail(target, e);
                        },
                    }
                }
            },
            Event::Inspected { target, result } => {
                if target < n && self.states[target] == TaskState::Inspecting {
                    match result {
                        Ok(obs) => {
                            self.apply_observation(target, obs);
                        },
                        Err(e) => {
                            self.fail(target, e);
                        },
                    }
                }
            },
            Event::Exited { target, success, code } => {
                if target < n && self.states[target] == TaskState::Running {
                    self.finish_command(target, success, code);
                }
            },
            Event::Recorded { target, result } => {
                if target < n && self.states[target] == TaskState::Recording {
                    match result {
                        Ok(()) => {
                            let ghost before = *self;
                            self.set_state(target, TaskState::Succeeded);
                            proof {
                                assert forall|k: int| 0 <= k < self.outbox@.len() implies self.well_formed_action(
                                    #[trigger] self.outbox@[k],
                                ) by {
                                    lemma_action_kept(&before, self, self.outbox@[k]);
                                }
                            }
                        },
                        Err(e) => {
                            self.fail(target, e);
                        },
                    }
                }
            },
        }
        assert(self.wf_shape());
        assert(self.wf_jobs());
        assert(self.wf_order());
        assert(self.wf_outbox());
        let ghost mid = *self;
        self.advance_all();
        proof {
            lemma_settled(self);
            assert(sources_announced(*old(self), mid));
            assert(sources_announced(mid, *self));
            lemma_sources_announced_trans(*old(self), mid, *self);
            assert forall|m: int|
                0 <= m < old(self).states().len() && old(self).states()[m] == TaskState::Idle
                    && #[trigger] self.states()[m] != TaskState::Idle
                    && !self.sources_checked()[m] implies exists|k: int|
                old(self).pending().len() <= k < self.pending().len()
                    && (#[trigger] self.pending()[k]) is CheckSources
                    && self.pending()[k]->CheckSources_target == m by {
                assert(self.states@[m] != TaskState::Idle);
            }
            assert forall|m: int|
                0 <= m < old(self).states@.len() && old(self).states@[m] != TaskState::Module
                    && #[trigger] self.states@[m] == TaskState::Module implies exists|k: int|
                old(self).outbox@.len() <= k < self.outbox@.len() && self.outbox@[k] == (
                Action::CompileModule {
                    target: m as usize,
                    path: old(self).config.builds@[m].dynamic_module->Some_0,
                }) by {
                assert(mid.states@[m] != TaskState::Module);
            }
            assert forall|m: int|
                0 <= m < old(self).states@.len() && old(self).states@[m] != TaskState::Inspecting
                    && #[trigger] self.states@[m] == TaskState::Inspecting implies exists|k: int|
                old(self).outbox@.len() <= k < self.outbox@.len() && (#[trigger] self.outbox@[k]) is Inspect
                    && self.outbox@[k]->Inspect_target == m by {
                assert(mid.states@[m] != TaskState::Inspecting);
            }
        }
    }


    /// Hands out the work to do next. Queued commands are started, in target
    /// order, while fewer than the job limit are running; a queued target is
    /// left waiting only when the pool is full.
    pub fn take_actions(&mut self) -> (r: Vec<Action>)
        requires
            old(self).wf(),
        ensures
            final(self).wf(),
            final(self).builds() == old(self).builds(),
            final(self).job_limit() == old(self).job_limit(),
            final(self).failure() == old(self).failure(),
            final(self).exited_ok() == old(self).exited_ok(),
            final(self).states().len() == old(self).states().len(),
            forall|i: int|
                0 <= i < old(self).states().len() ==> {
                    &&& old(self).states()[i] != TaskState::Queued ==> #[trigger] final(self).states()[i]
                        == old(self).states()[i]
                    &&& old(self).states()[i] == TaskState::Queued ==> (final(self).states()[i]
                        == TaskState::Queued || final(self).states()[i] == TaskState::Running)
                    &&& final(self).runs()[i] == old(self).runs()[i] + if old(self).states()[i]
                        == TaskState::Queued && final(self).states()[i] == TaskState::Running {
                        1nat
                    } else {
                        0nat
                    }
                    &&& final(self).states()[i] == TaskState::Queued ==> count_in(
                        final(self).states(),
                        TaskState::Running,
                    ) == final(self).job_limit()
                },
            forall|k: int|
                0 <= k < r@.len() ==> match #[trigger] r@[k] {
                    Action::Run { target, command, .. } => {
                        &&& target < old(self).states().len()
                        &&& old(self).states()[target as int] == TaskState::Queued
                        &&& final(self).states()[target as int] == TaskState::Running
                        &&& old(self).builds()[target as int].rule is Some
                        &&& command == old(self).builds()[target as int].rule->Some_0.command
                    },
                    _ => final(self).well_formed_action(r@[k]),
                },
            r@.len() >= old(self).pending().len(),
            r@.take(old(self).pending().len() as int) == old(self).pending(),
            forall|k: int|
                old(self).pending().len() <= k < r@.len() ==> (#[trigger] r@[k]) is Run,
            final(self).pending().len() == 0,
            forall|k1: int, k2: int|
                0 <= k1 < k2 < r@.len() && (#[trigger] r@[k1]) is Run && (#[trigger] r@[k2]) is Run
                    ==> r@[k1]->Run_target != r@[k2]->Run_target,
    {
        let mut r: Vec<Action> = Vec::new();
        std::mem::swap(&mut r, &mut self.outbox);
        let ghost first = r@.len();
        let n = self.states.len();
        let mut i: usize = 0;
        while i < n
            invariant
                self.wf(),
                n == self.states@.len(),
                n == old(self).states@.len(),
                i <= n,
                first <= r@.len(),
                self.config == old(self).config,
                self.job_limit == old(self).job_limit,
                self.failure == old(self).failure,
                self.exited_ok == old(self).exited_ok,
                self.dyn_inputs == old(self).dyn_inputs,
                forall|m: int|
                    0 <= m < n ==> {
                        &&& (old(self).states@[m] != TaskState::Queued || m >= i)
                            ==> #[trigger] self.states@[m] == old(self).states@[m]
                        &&& old(self).states@[m] == TaskState::Queued ==> (self.states@[m]
                            == TaskState::Queued || self.states@[m] == TaskState::Running)
                        &&& self.runs@[m] == old(self).runs@[m] + if old(self).states@[m]
                            == TaskState::Queued && self.states@[m] == TaskState::Running {
                            1nat
                        } else {
                            0nat
                        }
                        &&& (m < i && self.states@[m] == TaskState::Queued) ==> self.running
                            == self.job_limit
                    },
                forall|k: int|
                    0 <= k < r@.len() ==> match #[trigger] r@[k] {
                        Action::Run { target, command, .. } => {
                            &&& k >= first
                            &&& target < i
                            &&& old(self).states@[target as int] == TaskState::Queued
                            &&& self.states@[target as int] == TaskState::Running
                            &&& old(self).config.builds@[target as int].rule is Some
                            &&& command == old(self).config.builds@[target as int].rule->Some_0.command
                        },
                        _ => k < first && self.well_formed_action(r@[k]),
                    },
                r@.take(first as int) == old(self).outbox@,
                first == old(self).outbox@.len(),
                self.outbox@.len() == 0,
                self.fingerprints == old(self).fingerprints,
                forall|k: int| first <= k < r@.len() ==> (#[trigger] r@[k]) is Run,
                forall|k1: int, k2: int|
                    0 <= k1 < k2 < r@.len() && (#[trigger] r@[k1]) is Run && (#[trigger] r@[k2]) is Run
                        ==> r@[k1]->Run_target < r@[k2]->Run_target,
            decreases n - i,
        {
            if self.states[i] == TaskState::Queued && self.running < self.job_limit {
                let (command, description) = match &self.config.builds[i].rule {
                    Some(rule) => (
                        rule.command.clone(),
                        match &rule.description {
                            Some(d) => Some(d.clone()),
                            None => None,
                        },
                    ),
                    None => (String::new(), None),
                };
                self.set_state(i, TaskState::Running);
                self.running = self.running + 1;
                self.runs = Ghost(self.runs@.update(i as int, 1));
                r.push(Action::Run { target: i, command, description });
            }
            i += 1;
        }
        r
    }

    /// The result of the run once it is known: its first failure, or success
    /// once every target that was asked for has succeeded; `None` while work
    /// is pending.
    pub fn outcome(&self) -> (r: Option<Result<(), DriverError>>)
        requires
            self.wf(),
        ensures
            r == if self.failure() is Some {
                Some(Err(self.failure()->Some_0))
            } else if forall|i: int|
                0 <= i < self.states().len() ==> #[trigger] self.states()[i] == TaskState::Idle
                    || self.states()[i] == TaskState::Succeeded {
                Some(Ok(()))
            } else {
                None
            },
    {
        match &self.failure {
            Some(e) => {
                return Some(Err(copy_error(e)));
            },
            None => {},
        }
        let mut i: usize = 0;
        while i < self.states.len()
            invariant
                self.failure is None,
                i <= self.states@.len(),
                forall|m: int|
                    0 <= m < i ==> #[trigger] self.states@[m] == TaskState::Idle || self.states@[m]
                        == TaskState::Succeeded,
            decreases self.states@.len() - i,
        {
            if self.states[i] != TaskState::Idle && self.states[i] != TaskState::Succeeded {
                assert(!(self.states()[i as int] == TaskState::Idle || self.states()[i as int]
                    == TaskState::Succeeded));
                return None;
            }
            i += 1;
        }
        Some(Ok(()))
    }

    /// The state of target `i`.
    pub fn state(&self, i: usize) -> (r: TaskState)
        requires
            self.wf(),
            i < self.states().len(),
        ensures
            r == self.states()[i as int],
    {
        self.states[i]
    }

    /// How many commands are running.
    pub fn running_count(&self) -> (r: usize)
        requires
            self.wf(),
        ensures
            r == count_in(self.states(), TaskState::Running),
    {
        self.running
    }

    /// The number of targets.
    pub fn target_count(&self) -> (r: usize)
        requires
            self.wf(),
        ensures
            r == self.builds().len(),
            r == self.states().len(),
    {
        self.states.len()
    }

    closed spec fn deps_succeeded(&self, i: int) -> bool {
        forall|k: int|
            0 <= k < self.deps@[i]@.len() && (#[trigger] self.deps@[i]@[k]) is Some
                ==> self.states@[self.deps@[i]@[k]->Some_0 as int] == TaskState::Succeeded
    }

    closed spec fn dyn_deps_succeeded(&self, i: int) -> bool {
        forall|k: int|
            0 <= k < self.dyn_deps@[i]@.len() ==> self.states@[(#[trigger] self.dyn_deps@[i]@[k]) as int]
                == TaskState::Succeeded
    }

    closed spec fn settled_inner(&self) -> bool {
        forall|i: int|
            0 <= i < self.states@.len() ==> !(#[trigger] self.states@[i] == TaskState::Inputs
                && self.sources_ok@[i] && self.deps_succeeded(i)) && !(self.states@[i]
                == TaskState::Dynamic && self.dyn_deps_succeeded(i))
    }

    /// Target `i`'s source files were found and the producers of its explicit
    /// and order-only inputs have all succeeded.
    pub open spec fn inputs_ready(&self, i: int) -> bool {
        &&& self.sources_checked()[i]
        &&& forall|k: int, p: int|
            0 <= k < all_inputs(self.builds()[i]).len() && #[trigger] is_first_producer(
                self.builds(),
                all_inputs(self.builds()[i])[k]@,
                p,
            ) ==> self.states()[p] == TaskState::Succeeded
    }

    /// The producers of target `i`'s dynamic inputs have all succeeded.
    pub open spec fn dynamic_ready(&self, i: int) -> bool {
        forall|k: int, p: int|
            0 <= k < self.dynamic_inputs(i).len() && #[trigger] is_first_producer(
                self.builds(),
                self.dynamic_inputs(i)[k]@,
                p,
            ) ==> self.states()[p] == TaskState::Succeeded
    }

    /// No target waits for inputs that are ready: every one whose inputs are
    /// ready has moved on to its module, its dynamic inputs or its inspection.
    pub open spec fn settled(&self) -> bool {
        forall|i: int|
            0 <= i < self.states().len() ==> !(#[trigger] self.states()[i] == TaskState::Inputs
                && self.inputs_ready(i)) && !(self.states()[i] == TaskState::Dynamic
                && self.dynamic_ready(i))
    }

    /// The driver's invariant.
    pub closed spec fn wf(&self) -> bool {
        &&& self.wf_shape()
        &&& self.wf_jobs()
        &&& self.wf_order()
        &&& self.wf_outbox()
    }
}

/// A step that a target can take while the driver moves on waiting targets.
spec fn forward_step(a: TaskState, b: TaskState) -> bool {
    a == b || (a == TaskState::Recording && b == TaskState::Succeeded) || (a == TaskState::Inputs && (b == TaskState::Module || b == TaskState::Inspecting
        || b == TaskState::Failed)) || (a == TaskState::Dynamic && (b == TaskState::Inspecting
        || b == TaskState::Failed))
}

proof fn lemma_action_kept(a: &Driver, b: &Driver, act: Action)
    requires
        a.wf_shape(),
        a.well_formed_action(act),
        a.config == b.config,
        a.dyn_inputs == b.dyn_inputs,
        a.fingerprints == b.fingerprints,
        a.exited_ok == b.exited_ok,
        a.states@.len() == b.states@.len(),
        forall|t: int| 0 <= t < a.states@.len() ==> forward_step(#[trigger] a.states@[t], b.states@[t]),
    ensures
        b.well_formed_action(act),
{
    match act {
        Action::CheckSources { target, .. } => {
            assert(forward_step(a.states@[target as int], b.states@[target as int]));
        },
        Action::CompileModule { target, .. } => {
            assert(forward_step(a.states@[target as int], b.states@[target as int]));
        },
        Action::Inspect { target, .. } => {
            assert(forward_step(a.states@[target as int], b.states@[target as int]));
        },
        Action::Record { target, .. } => {
            assert(forward_step(a.states@[target as int], b.states@[target as int]));
        },
        Action::Run { .. } => {},
    }
}

proof fn lemma_succeeded_same(a: &Driver, b: &Driver, m: int)
    requires
        a.wf_shape(),
        0 <= m < a.states@.len(),
        a.config == b.config,
        a.deps == b.deps,
        a.dyn_deps == b.dyn_deps,
        a.states@.len() == b.states@.len(),
        forall|p: int|
            0 <= p < a.states@.len() ==> (#[trigger] a.states@[p] == TaskState::Succeeded) == (
            b.states@[p] == TaskState::Succeeded),
    ensures
        a.deps_succeeded(m) == b.deps_succeeded(m),
        a.dyn_deps_succeeded(m) == b.dyn_deps_succeeded(m),
{
    assert forall|k: int|
        0 <= k < a.deps@[m]@.len() && (#[trigger] a.deps@[m]@[k]) is Some implies 0 <= a.deps@[m]@[k]->Some_0
        < a.states@.len() by {
        assert(is_first_producer(a.config.builds@, all_inputs(a.config.builds@[m])[k]@, a.deps@[m]@[k]->Some_0 as int));
    }
    assert forall|k: int|
        0 <= k < a.dyn_deps@[m]@.len() implies (#[trigger] a.dyn_deps@[m]@[k]) < a.states@.len() by {
        assert(is_first_producer(a.config.builds@, a.dyn_inputs@[m]@[k]@, a.dyn_deps@[m]@[k] as int));
    }
}

proof fn lemma_settled(d: &Driver)
    requires
        d.wf(),
        d.settled_inner(),
    ensures
        d.settled(),
{
    assert forall|i: int| 0 <= i < d.states().len() implies !(#[trigger] d.states()[i] == TaskState::Inputs
        && d.inputs_ready(i)) && !(d.states()[i] == TaskState::Dynamic && d.dynamic_ready(i)) by {
        if d.states()[i] == TaskState::Inputs && d.inputs_ready(i) {
            assert forall|k: int|
                0 <= k < d.deps@[i]@.len() && (#[trigger] d.deps@[i]@[k]) is Some implies d.states@[d.deps@[i]@[k]->Some_0 as int]
                    == TaskState::Succeeded by {
                let p = d.deps@[i]@[k]->Some_0 as int;
                assert(is_first_producer(d.builds(), all_inputs(d.builds()[i])[k]@, p));
            }
            assert(d.deps_succeeded(i));
        }
        if d.states()[i] == TaskState::Dynamic && d.dynamic_ready(i) {
            assert forall|k: int|
                0 <= k < d.dyn_deps@[i]@.len() implies d.states@[(#[trigger] d.dyn_deps@[i]@[k]) as int]
                    == TaskState::Succeeded by {
                let p = d.dyn_deps@[i]@[k] as int;
                assert(is_first_producer(d.builds(), d.dynamic_inputs(i)[k]@, p));
            }
            assert(d.dyn_deps_succeeded(i));
        }
    }
}

/// At no time are more commands running than the job limit allows.
pub proof fn lemma_jobs_within_limit(d: &Driver)
    requires
        d.wf(),
    ensures
        count_in(d.states(), TaskState::Running) <= d.job_limit(),
{
}

/// A target's command is started at most once in a run, and never before the
/// target leaves the queue: `take_actions` is the only place where `runs`
/// grows, by one for each command it hands out.
pub proof fn lemma_command_at_most_once(d: &Driver, i: int)
    requires
        d.wf(),
        0 <= i < d.states().len(),
    ensures
        d.runs()[i] <= 1,
        before_command(d.states()[i]) ==> d.runs()[i] == 0,
        d.states()[i] == TaskState::Running ==> d.runs()[i] == 1,
{
    assert(d.runs@[i] <= 1);
}

/// Every explicit and order-only input of a target that some target produces
/// has finished successfully, and its source files were found, before the
/// target moves past its input phase (to its dynamic module or its
/// inspection); every dynamic input has, before it is inspected. A command is
/// queued only after the inspection, and so started only after all of them.
pub proof fn lemma_inputs_finish_before_command(d: &Driver, b: int)
    requires
        d.wf(),
        0 <= b < d.states().len(),
        past_inputs(d.states()[b]),
    ensures
        d.sources_checked()[b],
        forall|k: int, p: int|
            0 <= k < all_inputs(d.builds()[b]).len() && #[trigger] is_first_producer(
                d.builds(),
                all_inputs(d.builds()[b])[k]@,
                p,
            ) ==> d.states()[p] == TaskState::Succeeded,
        past_dynamic(d.states()[b]) ==> forall|k: int, p: int|
            0 <= k < d.dynamic_inputs(b).len() && #[trigger] is_first_producer(
                d.builds(),
                d.dynamic_inputs(b)[k]@,
                p,
            ) ==> d.states()[p] == TaskState::Succeeded,
{
    assert(d.runs@[b] <= 1);
    assert forall|k: int, p: int|
        0 <= k < all_inputs(d.builds()[b]).len() && #[trigger] is_first_producer(
            d.builds(),
            all_inputs(d.builds()[b])[k]@,
            p,
        ) implies d.states()[p] == TaskState::Succeeded by {
        let name = all_inputs(d.builds()[b])[k]@;
        assert(has_producer(d.builds(), name));
        let q = d.deps@[b]@[k];
        assert(q is Some);
        lemma_first_producer_unique(d.builds(), name, p, q->Some_0 as int);
    }
    assert forall|k: int, p: int|
        past_dynamic(d.states()[b]) && 0 <= k < d.dynamic_inputs(b).len() && #[trigger] is_first_producer(
            d.builds(),
            d.dynamic_inputs(b)[k]@,
            p,
        ) implies d.states()[p] == TaskState::Succeeded by {
        let q = d.dyn_deps@[b]@[k];
        assert(is_first_producer(d.builds(), d.dynamic_inputs(b)[k]@, q as int));
        lemma_first_producer_unique(d.builds(), d.dynamic_inputs(b)[k]@, p, q as int);
    }
}

/// A target without a rule is never queued for a command, never runs one, and
/// has none started.
pub proof fn lemma_no_rule_no_command(d: &Driver, i: int)
    requires
        d.wf(),
        0 <= i < d.states().len(),
        d.builds()[i].rule is None,
    ensures
        d.runs()[i] == 0,
        d.states()[i] != TaskState::Queued,
        d.states()[i] != TaskState::Running,
{
    assert(d.runs@[i] <= 1);
}

/// A fingerprint is written only for a target without a rule or one whose
/// command exited successfully: a target waits for its record only then, and
/// a successful exit is noted only for a command that was started.
pub proof fn lemma_recorded_only_after_success(d: &Driver, i: int)
    requires
        d.wf(),
        0 <= i < d.states().len(),
    ensures
        d.states()[i] == TaskState::Recording ==> d.builds()[i].rule is None
            || d.exited_ok()[i],
        d.exited_ok()[i] ==> d.runs()[i] == 1,
{
    assert(d.runs@[i] <= 1);
}

/// An observation that shows a target's hashed inputs with the timestamps they
/// had when its fingerprint was recorded, and all of its outputs present,
/// leaves the target up to date. The inspected inputs are the explicit and
/// dynamic ones only (see `well_formed_action`), so touching an order-only input
/// changes nothing here.
pub proof fn lemma_unchanged_observation_skipped(b: Build, obs: Observation, recorded: Seq<Timestamp>)
    requires
        obs.times@ == recorded,
        obs.stored == Some(fingerprint_of(rule_command(b), recorded)),
        forall|k: int| 0 <= k < obs.present@.len() ==> #[trigger] obs.present@[k],
    ensures
        observed_decision(b, obs) == Decision::Skip,
        state_after(observed_decision(b, obs)) == TaskState::Succeeded,
{
}

} // verus!
