//! The named-task runner: every task of a list, repeated for a number of
//! trials, each instance in an execution context of its own.
//!
//! The runner runs nothing itself. It tells its caller which instance to
//! launch and when to pause, and is told in turn how each instance fares.
//! What the runner holds for one instance (phase, failure message, tally)
//! is touched by no event of another instance.

use crate::error::SetupError;
use crate::tally::Tally;
use crate::text::texts_view;
use vstd::prelude::*;

verus! {

/// How many trials a run has where a script does not say.
pub const DEFAULT_TRIALS: u32 = 1;

/// Milliseconds between one launch and the next where a script does not
/// say.
pub const DEFAULT_DELAY: u64 = 100;

/// Where one instance of a task stands.
#[derive(Clone, Copy, Debug, PartialEq, Eq, Structural)]
pub enum Phase {
    /// Not launched yet.
    Pending,
    /// Launched; its execution context is being made.
    Spawned,
    /// Its task is running.
    Executing,
    /// Its task ended without error.
    Completed,
    /// Its context could not be made, or its task ended in an error.
    Failed,
}

impl Phase {
    /// The instance has ended, one way or the other.
    pub open spec fn settled(self) -> bool {
        self is Completed || self is Failed
    }
}

/// What the caller of a runner does next.
#[derive(Clone, Copy, Debug, PartialEq, Eq, Structural)]
pub enum TaskAction {
    /// Make a fresh execution context and start in it the task at position
    /// `task` of the list, as instance number `instance`.
    Launch { instance: usize, trial: u32, task: usize },
    /// Sleep this many milliseconds before asking again. Only launches are
    /// held back by this; instances already launched run on.
    Pause(u64),
    /// Everything is launched: wait for an instance to end.
    Await,
    /// Every instance has ended.
    Finished,
}

/// Why what was reported of an instance was not accepted.
#[derive(Clone, Copy, Debug, PartialEq, Eq, Structural)]
pub enum PhaseError {
    /// The run has no instance of this number.
    UnknownInstance,
    /// The instance is not in a phase in which this can happen to it.
    WrongPhase,
}

/// An instance whose task did not end well.
#[derive(Debug, Clone, PartialEq, Eq)]
pub struct TaskError {
    pub instance: usize,
    pub trial: u32,
    /// The name of the task.
    pub name: String,
    /// What went wrong, in the words of whoever reported it.
    pub message: String,
}

/// A failed instance, as plain values.
pub struct Failure {
    pub instance: usize,
    pub trial: u32,
    pub name: Seq<char>,
    pub message: Seq<char>,
}

impl View for TaskError {
    type V = Failure;

    open spec fn view(&self) -> Failure {
        Failure {
            instance: self.instance,
            trial: self.trial,
            name: self.name@,
            message: self.message@,
        }
    }
}

/// How a run stands as a whole.
#[derive(Debug, Clone, PartialEq, Eq)]
pub enum RunOutcome {
    /// Some instance has not ended yet.
    Running,
    /// Every instance ended without error.
    Succeeded,
    /// Every instance ended, these in failure; by rising instance number.
    Failed(Vec<TaskError>),
}

/// How many of `phases` are settled.
pub open spec fn settled(phases: Seq<Phase>) -> nat
    decreases phases.len(),
{
    if phases.len() == 0 {
        0
    } else {
        settled(phases.drop_last()) + if phases.last().settled() {
            1nat
        } else {
            0nat
        }
    }
}

/// A run of tasks, as plain values.
pub struct Run {
    /// The names of the tasks, in the order given.
    pub names: Seq<Seq<char>>,
    pub trials: nat,
    /// Milliseconds between one launch and the next.
    pub delay: u64,
    /// The phase of each instance, by instance number.
    pub phases: Seq<Phase>,
    /// The failure message of each instance; empty where there is none.
    pub notes: Seq<Seq<char>>,
    /// The checks counted for each instance.
    pub tallies: Seq<Tally>,
    /// How many instances have been launched: those of the lowest numbers.
    pub launched: nat,
    /// Whether the pause after the latest launch has been taken.
    pub paused: bool,
}

impl Run {
    /// The number of instances: each task once in each trial.
    pub open spec fn total(self) -> nat {
        self.trials * self.names.len()
    }

    /// The trial that instance `instance` belongs to. Instances are numbered
    /// trial by trial, and within a trial in the order of the task list.
    pub open spec fn trial_of(self, instance: int) -> int {
        instance / (self.names.len() as int)
    }

    /// The position in the task list of the task of instance `instance`.
    pub open spec fn task_of(self, instance: int) -> int {
        instance % (self.names.len() as int)
    }

    /// The number of the instance of task `task` in trial `trial`.
    pub open spec fn instance_of(self, trial: int, task: int) -> int {
        trial * self.names.len() + task
    }

    /// The number of instances that have ended.
    pub open spec fn settled(self) -> nat {
        settled(self.phases)
    }

    /// Every instance has ended.
    pub open spec fn done(self) -> bool {
        self.settled() == self.total()
    }

    /// A run in which nothing has been launched.
    pub open spec fn fresh(names: Seq<Seq<char>>, trials: nat, delay: u64) -> Run {
        Run {
            names,
            trials,
            delay,
            phases: Seq::new(trials * names.len(), |i: int| Phase::Pending),
            notes: Seq::new(trials * names.len(), |i: int| Seq::<char>::empty()),
            tallies: Seq::new(trials * names.len(), |i: int| Tally { passed: 0, failed: 0 }),
            launched: 0,
            paused: false,
        }
    }

    /// What holds of a run however it was driven.
    pub open spec fn wf(self) -> bool {
        &&& self.phases.len() == self.total()
        &&& self.notes.len() == self.total()
        &&& self.tallies.len() == self.total()
        &&& self.trials <= u32::MAX
        &&& self.total() <= usize::MAX
        &&& self.launched <= self.total()
        &&& forall|i: int|
            0 <= i < self.phases.len() ==> (i < self.launched <==> !(#[trigger] self.phases[i]
                is Pending))
    }

    /// What the caller is told to do next.
    pub open spec fn next_action(self) -> TaskAction {
        if self.launched < self.total() {
            if self.launched > 0 && !self.paused {
                TaskAction::Pause(self.delay)
            } else {
                TaskAction::Launch {
                    instance: self.launched as usize,
                    trial: self.trial_of(self.launched as int) as u32,
                    task: self.task_of(self.launched as int) as usize,
                }
            }
        } else if self.settled() < self.total() {
            TaskAction::Await
        } else {
            TaskAction::Finished
        }
    }

    /// The run after the caller has been told what to do next: a pause is
    /// noted as taken, a launched instance is spawned.
    pub open spec fn advance(self) -> Run {
        match self.next_action() {
            TaskAction::Pause(_) => Run { paused: true, ..self },
            TaskAction::Launch { instance, .. } => Run {
                phases: self.phases.update(instance as int, Phase::Spawned),
                launched: self.launched + 1,
                paused: false,
                ..self
            },
            _ => self,
        }
    }

    /// Instance `instance` is in phase `phase`.
    pub open spec fn is_in(self, instance: int, phase: Phase) -> bool {
        0 <= instance < self.phases.len() && self.phases[instance] == phase
    }

    /// The run after the context of `instance` was made and its task
    /// started; unchanged unless the instance was spawned.
    pub open spec fn begin(self, instance: int) -> Run {
        if self.is_in(instance, Phase::Spawned) {
            Run { phases: self.phases.update(instance, Phase::Executing), ..self }
        } else {
            self
        }
    }

    /// The run after the task of `instance` ended without error; unchanged
    /// unless the instance was executing.
    pub open spec fn complete(self, instance: int) -> Run {
        if self.is_in(instance, Phase::Executing) {
            Run { phases: self.phases.update(instance, Phase::Completed), ..self }
        } else {
            self
        }
    }

    /// `instance` can fail: it is launched and has not ended.
    pub open spec fn can_fail(self, instance: int) -> bool {
        self.is_in(instance, Phase::Spawned) || self.is_in(instance, Phase::Executing)
    }

    /// The run after `instance` failed with `message`; unchanged unless the
    /// instance was spawned or executing.
    pub open spec fn fail(self, instance: int, message: Seq<char>) -> Run {
        if self.can_fail(instance) {
            Run {
                phases: self.phases.update(instance, Phase::Failed),
                notes: self.notes.update(instance, message),
                ..self
            }
        } else {
            self
        }
    }

    /// The run after `instance` made a check that passed, or failed;
    /// unchanged unless the instance was executing.
    pub open spec fn record(self, instance: int, pass: bool) -> Run {
        if self.is_in(instance, Phase::Executing) {
            Run {
                tallies: self.tallies.update(instance, self.tallies[instance].with(pass)),
                ..self
            }
        } else {
            self
        }
    }

    /// The failure that stands for instance `instance`.
    pub open spec fn failure(self, instance: int) -> Failure {
        Failure {
            instance: instance as usize,
            trial: self.trial_of(instance) as u32,
            name: self.names[self.task_of(instance)],
            message: self.notes[instance],
        }
    }

    /// The failures among the first `upto` instances, by rising number.
    pub open spec fn failures_below(self, upto: nat) -> Seq<Failure>
        decreases upto,
    {
        if upto == 0 {
            Seq::empty()
        } else if self.phases[upto - 1] is Failed {
            self.failures_below((upto - 1) as nat).push(self.failure(upto - 1))
        } else {
            self.failures_below((upto - 1) as nat)
        }
    }

    /// The failures of the run, by rising instance number.
    pub open spec fn failures(self) -> Seq<Failure> {
        self.failures_below(self.phases.len())
    }

}

/// Replacing one phase changes the count of settled ones by what left and
/// what came.
pub proof fn lemma_settled_update(phases: Seq<Phase>, at: int, phase: Phase)
    requires
        0 <= at < phases.len(),
    ensures
        settled(phases.update(at, phase)) + (if phases[at].settled() {
            1nat
        } else {
            0nat
        }) == settled(phases) + (if phase.settled() {
            1nat
        } else {
            0nat
        }),
    decreases phases.len(),
{
    let changed = phases.update(at, phase);
    if at == phases.len() - 1 {
        assert(changed.drop_last() =~= phases.drop_last());
    } else {
        lemma_settled_update(phases.drop_last(), at, phase);
        assert(changed.drop_last() =~= phases.drop_last().update(at, phase));
    }
}

/// No more phases are settled than there are; all are exactly when none is
/// left unsettled.
pub proof fn lemma_settled_all(phases: Seq<Phase>)
    ensures
        settled(phases) <= phases.len(),
        settled(phases) == phases.len() <==> forall|i: int|
            0 <= i < phases.len() ==> (#[trigger] phases[i]).settled(),
    decreases phases.len(),
{
    if phases.len() > 0 {
        let front = phases.drop_last();
        lemma_settled_all(front);
        assert(forall|i: int| 0 <= i < front.len() ==> front[i] == phases[i]);
        if settled(phases) == phases.len() {
            assert forall|i: int| 0 <= i < phases.len() implies (#[trigger] phases[i]).settled() by {
                if i < front.len() {
                    assert(front[i] == phases[i]);
                }
            }
        }
    }
}

/// In a run where nothing is launched, nothing is settled.
pub proof fn lemma_fresh_settled(count: nat)
    ensures
        settled(Seq::new(count, |i: int| Phase::Pending)) == 0,
    decreases count,
{
    if count > 0 {
        lemma_fresh_settled((count - 1) as nat);
        assert(Seq::new(count, |i: int| Phase::Pending).drop_last() =~= Seq::new(
            (count - 1) as nat,
            |i: int| Phase::Pending,
        ));
    }
}

/// Each task has exactly one instance in each trial: numbering the
/// instances trial by trial pairs the numbers below `trials * tasks` with
/// the pairs of a trial and a task.
pub proof fn law_one_instance_per_trial_and_task(run: Run, trial: int, task: int, instance: int)
    requires
        run.names.len() > 0,
    ensures
        0 <= trial < run.trials && 0 <= task < run.names.len() ==> {
            &&& 0 <= run.instance_of(trial, task) < run.total()
            &&& run.trial_of(run.instance_of(trial, task)) == trial
            &&& run.task_of(run.instance_of(trial, task)) == task
        },
        0 <= instance < run.total() ==> {
            &&& 0 <= run.trial_of(instance) < run.trials
            &&& 0 <= run.task_of(instance) < run.names.len()
            &&& run.instance_of(run.trial_of(instance), run.task_of(instance)) == instance
        },
{
    let n = run.names.len() as int;
    let trials = run.trials as int;
    if 0 <= trial < trials && 0 <= task < n {
        assert(0 <= trial * n + task < trials * n) by (nonlinear_arith)
            requires
                0 <= trial < trials,
                0 <= task < n,
        ;
        assert((trial * n + task) / n == trial && (trial * n + task) % n == task)
            by (nonlinear_arith)
            requires
                0 <= task < n,
                0 <= trial,
        ;
    }
    if 0 <= instance < trials * n {
        assert(0 <= instance / n < trials && 0 <= instance % n < n && (instance / n) * n
            + instance % n == instance) by (nonlinear_arith)
            requires
                0 <= instance < trials * n,
                n > 0,
        ;
    }
}

/// What happens to one instance leaves every other instance as it was:
/// its phase, its failure message and its tally. So a failure cancels no
/// sibling, and no instance sees the checks of another.
pub proof fn law_instances_are_isolated(
    run: Run,
    instance: int,
    other: int,
    message: Seq<char>,
    pass: bool,
)
    requires
        run.wf(),
        0 <= other < run.total(),
        other != instance,
    ensures
        run.begin(instance).phases[other] == run.phases[other],
        run.complete(instance).phases[other] == run.phases[other],
        run.fail(instance, message).phases[other] == run.phases[other],
        run.fail(instance, message).notes[other] == run.notes[other],
        run.record(instance, pass).tallies[other] == run.tallies[other],
        run.begin(instance).tallies == run.tallies,
        run.complete(instance).tallies == run.tallies,
        run.fail(instance, message).tallies == run.tallies,
{
}

/// The number of ended instances never goes down, whatever happens.
pub proof fn law_progress_never_drops(run: Run, instance: int, message: Seq<char>, pass: bool)
    requires
        run.wf(),
    ensures
        run.advance().settled() == run.settled(),
        run.begin(instance).settled() == run.settled(),
        run.record(instance, pass).settled() == run.settled(),
        run.complete(instance).settled() == run.settled() + if run.is_in(
            instance,
            Phase::Executing,
        ) {
            1nat
        } else {
            0nat
        },
        run.fail(instance, message).settled() == run.settled() + if run.can_fail(instance) {
            1nat
        } else {
            0nat
        },
{
    if run.is_in(instance, Phase::Spawned) {
        lemma_settled_update(run.phases, instance, Phase::Executing);
        lemma_settled_update(run.phases, instance, Phase::Failed);
    }
    if run.is_in(instance, Phase::Executing) {
        lemma_settled_update(run.phases, instance, Phase::Completed);
        lemma_settled_update(run.phases, instance, Phase::Failed);
    }
    if run.next_action() is Launch {
        lemma_settled_update(run.phases, run.launched as int, Phase::Spawned);
    }
}

/// Among the first `upto` instances there is a failure for each failed
/// instance and for no other.
pub proof fn lemma_failures_count(run: Run, upto: nat)
    requires
        upto <= run.phases.len(),
    ensures
        run.failures_below(upto).len() == 0 <==> forall|i: int|
            0 <= i < upto ==> !(#[trigger] run.phases[i] is Failed),
    decreases upto,
{
    if upto > 0 {
        lemma_failures_count(run, (upto - 1) as nat);
    }
}

/// A run has succeeded exactly when every one of its instances has
/// completed: it has ended, and nothing in it has failed.
pub proof fn law_success_is_all_completed(run: Run)
    requires
        run.wf(),
    ensures
        run.done() && run.failures().len() == 0 <==> forall|i: int|
            0 <= i < run.total() ==> #[trigger] run.phases[i] is Completed,
{
    lemma_settled_all(run.phases);
    lemma_failures_count(run, run.phases.len());
    if run.done() && run.failures().len() == 0 {
        assert forall|i: int| 0 <= i < run.total() implies #[trigger] run.phases[i]
            is Completed by {
            assert(run.phases[i].settled());
            assert(!(run.phases[i] is Failed));
        }
    }
    if forall|i: int| 0 <= i < run.total() ==> #[trigger] run.phases[i] is Completed {
        assert forall|i: int| 0 <= i < run.phases.len() implies (#[trigger] run.phases[i]).settled() by {
            assert(run.phases[i] is Completed);
        }
        assert forall|i: int| 0 <= i < run.phases.len() implies !(#[trigger] run.phases[i]
            is Failed) by {
            assert(run.phases[i] is Completed);
        }
    }
}

/// What a list of task errors holds.
pub open spec fn failures_view(errors: Seq<TaskError>) -> Seq<Failure> {
    Seq::new(errors.len(), |i: int| errors[i]@)
}

/// A run of named tasks: see the module.
pub struct TaskRunner {
    names: Vec<String>,
    trials: u32,
    delay: u64,
    phases: Vec<Phase>,
    notes: Vec<String>,
    tallies: Vec<Tally>,
    launched: usize,
    ended: usize,
    paused: bool,
}

impl View for TaskRunner {
    type V = Run;

    closed spec fn view(&self) -> Run {
        Run {
            names: texts_view(self.names@),
            trials: self.trials as nat,
            delay: self.delay,
            phases: self.phases@,
            notes: texts_view(self.notes@),
            tallies: self.tallies@,
            launched: self.launched as nat,
            paused: self.paused,
        }
    }
}

impl TaskRunner {
    /// The runner's bookkeeping agrees with its run, and the run is well
    /// formed.
    pub closed spec fn wf(&self) -> bool {
        &&& self@.wf()
        &&& self.ended == self@.settled()
    }

    /// A well-formed runner has a well-formed run.
    pub proof fn lemma_wf(&self)
        requires
            self.wf(),
        ensures
            self@.wf(),
    {
    }

    /// A run of every task of `task_names`, `trials` times over, with
    /// `delay` milliseconds between one launch and the next.
    pub fn new(task_names: Vec<String>, trials: u32, delay: u64) -> (r: Result<Self, SetupError>)
        ensures
            r is Err <==> trials * task_names.len() > usize::MAX,
            r matches Err(e) ==> e == SetupError::TooManyInstances,
            r matches Ok(runner) ==> runner.wf() && runner@ == Run::fresh(
                texts_view(task_names@),
                trials as nat,
                delay,
            ),
    {
        let total = match (trials as usize).checked_mul(task_names.len()) {
            Some(total) => total,
            None => {
                return Err(SetupError::TooManyInstances);
            },
        };
        let mut phases: Vec<Phase> = Vec::new();
        let mut notes: Vec<String> = Vec::new();
        let mut tallies: Vec<Tally> = Vec::new();
        let mut i: usize = 0;
        while i < total
            invariant
                i <= total,
                phases.len() == i,
                notes.len() == i,
                tallies.len() == i,
                forall|k: int| 0 <= k < i ==> phases[k] == Phase::Pending,
                forall|k: int| 0 <= k < i ==> (#[trigger] notes[k])@ == Seq::<char>::empty(),
                forall|k: int| 0 <= k < i ==> tallies[k] == (Tally { passed: 0, failed: 0 }),
            decreases total - i,
        {
            phases.push(Phase::Pending);
            notes.push(String::new());
            tallies.push(Tally::new());
            i += 1;
        }
        let runner = TaskRunner {
            names: task_names,
            trials,
            delay,
            phases,
            notes,
            tallies,
            launched: 0,
            ended: 0,
            paused: false,
        };
        proof {
            let fresh = Run::fresh(texts_view(task_names@), trials as nat, delay);
            lemma_fresh_settled(total as nat);
            assert(runner@.phases =~= fresh.phases);
            assert(runner@.notes =~= fresh.notes);
            assert(runner@.tallies =~= fresh.tallies);
        }
        Ok(runner)
    }

    /// The number of instances.
    pub fn total(&self) -> (r: usize)
        requires
            self.wf(),
        ensures
            r == self@.total(),
    {
        self.phases.len()
    }

    /// The number of instances launched so far.
    pub fn launched(&self) -> (r: usize)
        ensures
            r == self@.launched,
    {
        self.launched
    }

    /// The number of instances that have ended, well or not. It goes up by
    /// one with each instance that ends and never down, whichever task the
    /// instance belongs to.
    pub fn completed(&self) -> (r: usize)
        requires
            self.wf(),
        ensures
            r == self@.settled(),
    {
        self.ended
    }

    /// Whether every instance has ended.
    pub fn is_done(&self) -> (r: bool)
        requires
            self.wf(),
        ensures
            r == self@.done(),
    {
        self.ended == self.phases.len()
    }

    /// The phase of `instance`, if there is such an instance.
    pub fn phase(&self, instance: usize) -> (r: Option<Phase>)
        ensures
            r == if instance < self@.phases.len() {
                Some(self@.phases[instance as int])
            } else {
                None
            },
    {
        if instance < self.phases.len() {
            Some(self.phases[instance])
        } else {
            None
        }
    }

    /// The checks counted for `instance`, if there is such an instance.
    pub fn tally(&self, instance: usize) -> (r: Option<Tally>)
        ensures
            r == if instance < self@.tallies.len() {
                Some(self@.tallies[instance as int])
            } else {
                None
            },
    {
        if instance < self.tallies.len() {
            Some(self.tallies[instance])
        } else {
            None
        }
    }

    /// What the caller does next. Instances are launched one by one in the
    /// order of their numbers, with a pause between one launch and the
    /// next; once all are launched the caller waits until all have ended.
    pub fn advance(&mut self) -> (action: TaskAction)
        requires
            old(self).wf(),
        ensures
            final(self).wf(),
            action == old(self)@.next_action(),
            final(self)@ == old(self)@.advance(),
    {
        let total = self.phases.len();
        if self.launched < total {
            if self.launched > 0 && !self.paused {
                self.paused = true;
                return TaskAction::Pause(self.delay);
            }
            let instance = self.launched;
            let tasks = self.names.len();
            proof {
                let n = tasks as int;
                let trials = self.trials as int;
                assert(n > 0) by (nonlinear_arith)
                    requires
                        instance < trials * n,
                        instance >= 0,
                        n >= 0,
                ;
                assert(0 <= (instance as int) / n < trials) by (nonlinear_arith)
                    requires
                        0 <= instance < trials * n,
                        n > 0,
                ;
                lemma_settled_update(self.phases@, instance as int, Phase::Spawned);
            }
            let trial = (instance / tasks) as u32;
            let task = instance % tasks;
            self.phases.set(instance, Phase::Spawned);
            self.launched = instance + 1;
            self.paused = false;
            return TaskAction::Launch { instance, trial, task };
        }
        if self.ended < total {
            TaskAction::Await
        } else {
            TaskAction::Finished
        }
    }

    /// The execution context of `instance` is made and its task started.
    pub fn begin(&mut self, instance: usize) -> (r: Result<(), PhaseError>)
        requires
            old(self).wf(),
        ensures
            final(self).wf(),
            final(self)@ == old(self)@.begin(instance as int),
            r is Ok <==> old(self)@.is_in(instance as int, Phase::Spawned),
            r matches Err(e) ==> e == (if instance >= old(self)@.total() {
                PhaseError::UnknownInstance
            } else {
                PhaseError::WrongPhase
            }),
    {
        if instance >= self.phases.len() {
            return Err(PhaseError::UnknownInstance);
        }
        match self.phases[instance] {
            Phase::Spawned => {},
            _ => {
                return Err(PhaseError::WrongPhase);
            },
        }
        proof {
            lemma_settled_update(self.phases@, instance as int, Phase::Executing);
        }
        self.phases.set(instance, Phase::Executing);
        Ok(())
    }

    /// The task of `instance` ended without error.
    pub fn complete(&mut self, instance: usize) -> (r: Result<(), PhaseError>)
        requires
            old(self).wf(),
        ensures
            final(self).wf(),
            final(self)@ == old(self)@.complete(instance as int),
            r is Ok <==> old(self)@.is_in(instance as int, Phase::Executing),
            r is Ok ==> final(self)@.settled() == old(self)@.settled() + 1,
            r matches Err(e) ==> e == (if instance >= old(self)@.total() {
                PhaseError::UnknownInstance
            } else {
                PhaseError::WrongPhase
            }),
    {
        if instance >= self.phases.len() {
            return Err(PhaseError::UnknownInstance);
        }
        match self.phases[instance] {
            Phase::Executing => {},
            _ => {
                return Err(PhaseError::WrongPhase);
            },
        }
        proof {
            lemma_settled_update(self.phases@, instance as int, Phase::Completed);
            lemma_settled_all(self.phases@);
        }
        self.phases.set(instance, Phase::Completed);
        self.ended = self.ended + 1;
        Ok(())
    }

    /// The context of `instance` could not be made, or its task ended in an
    /// error. The failure is kept; no other instance is touched by it.
    pub fn fail(&mut self, instance: usize, message: String) -> (r: Result<(), PhaseError>)
        requires
            old(self).wf(),
        ensures
            final(self).wf(),
            final(self)@ == old(self)@.fail(instance as int, message@),
            r is Ok <==> old(self)@.can_fail(instance as int),
            r is Ok ==> final(self)@.settled() == old(self)@.settled() + 1,
            r matches Err(e) ==> e == (if instance >= old(self)@.total() {
                PhaseError::UnknownInstance
            } else {
                PhaseError::WrongPhase
            }),
    {
        if instance >= self.phases.len() {
            return Err(PhaseError::UnknownInstance);
        }
        match self.phases[instance] {
            Phase::Spawned => {},
            Phase::Executing => {},
            _ => {
                return Err(PhaseError::WrongPhase);
            },
        }
        proof {
            lemma_settled_update(self.phases@, instance as int, Phase::Failed);
            lemma_settled_all(self.phases@);
        }
        self.phases.set(instance, Phase::Failed);
        self.notes.set(instance, message);
        self.ended = self.ended + 1;
        assert(texts_view(self.notes@) =~= texts_view(old(self).notes@).update(
            instance as int,
            message@,
        ));
        Ok(())
    }

    /// The task of `instance` made a check that passed, or failed.
    pub fn record(&mut self, instance: usize, pass: bool) -> (r: Result<(), PhaseError>)
        requires
            old(self).wf(),
        ensures
            final(self).wf(),
            final(self)@ == old(self)@.record(instance as int, pass),
            r is Ok <==> old(self)@.is_in(instance as int, Phase::Executing),
            r matches Err(e) ==> e == (if instance >= old(self)@.total() {
                PhaseError::UnknownInstance
            } else {
                PhaseError::WrongPhase
            }),
    {
        if instance >= self.phases.len() {
            return Err(PhaseError::UnknownInstance);
        }
        match self.phases[instance] {
            Phase::Executing => {},
            _ => {
                return Err(PhaseError::WrongPhase);
            },
        }
        let mut tally = self.tallies[instance];
        tally.record(pass);
        self.tallies.set(instance, tally);
        Ok(())
    }

    /// How the run stands: still running, or ended with every instance
    /// well, or ended with the failures that it names.
    pub fn outcome(&self) -> (r: RunOutcome)
        requires
            self.wf(),
        ensures
            match r {
                RunOutcome::Running => !self@.done(),
                RunOutcome::Succeeded => self@.done() && self@.failures().len() == 0,
                RunOutcome::Failed(errors) => self@.done() && errors.len() > 0 && failures_view(
                    errors@,
                ) == self@.failures(),
            },
    {
        let total = self.phases.len();
        if self.ended != total {
            return RunOutcome::Running;
        }
        let tasks = self.names.len();
        let mut errors: Vec<TaskError> = Vec::new();
        let mut i: usize = 0;
        while i < total
            invariant
                self.wf(),
                total == self.phases.len(),
                tasks == self.names.len(),
                i <= total,
                failures_view(errors@) == self@.failures_below(i as nat),
            decreases total - i,
        {
            match self.phases[i] {
                Phase::Failed => {
                    proof {
                        let n = tasks as int;
                        let trials = self.trials as int;
                        assert(n > 0) by (nonlinear_arith)
                            requires
                                i < trials * n,
                                i >= 0,
                                n >= 0,
                        ;
                        assert(0 <= (i as int) / n < trials) by (nonlinear_arith)
                            requires
                                0 <= i < trials * n,
                                n > 0,
                        ;
                    }
                    let error = TaskError {
                        instance: i,
                        trial: (i / tasks) as u32,
                        name: self.names[i % tasks].clone(),
                        message: self.notes[i].clone(),
                    };
                    assert(error@ == self@.failure(i as int));
                    errors.push(error);
                    assert(failures_view(errors@) =~= self@.failures_below(i as nat).push(
                        self@.failure(i as int),
                    ));
                },
                _ => {},
            }
            i += 1;
        }
        if errors.len() == 0 {
            RunOutcome::Succeeded
        } else {
            RunOutcome::Failed(errors)
        }
    }
}

} // verus!
