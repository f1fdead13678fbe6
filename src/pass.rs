//! One reconciliation pass: the per-package decisions that turn a plan into
//! mount and unmount operations, and the applied state that results.

use vstd::prelude::*;

use crate::config::{App, Role};
use crate::plan::{plan, plan_of, Applied, Change, Task};

verus! {

/// Why the kernel refused a mount or an unmount.
#[derive(Clone, Copy, Debug, PartialEq, Eq, Structural)]
pub enum MountError {
    PermissionDenied,
    TargetBusy,
    SourceUnavailable,
    Other,
}

/// Operation not permitted.
pub const EPERM: i32 = 1;

/// No such file or directory.
pub const ENOENT: i32 = 2;

/// Permission denied.
pub const EACCES: i32 = 13;

/// Device or resource busy.
pub const EBUSY: i32 = 16;

/// Invalid argument; what unmounting a path that is no mount point reports.
pub const EINVAL: i32 = 22;

/// The kind of failure that a Linux error number stands for.
pub open spec fn mount_error_of(errno: i32) -> MountError {
    if errno == EPERM || errno == EACCES {
        MountError::PermissionDenied
    } else if errno == EBUSY {
        MountError::TargetBusy
    } else if errno == ENOENT {
        MountError::SourceUnavailable
    } else {
        MountError::Other
    }
}

impl MountError {
    /// Classifies the error number with which a mount or unmount failed.
    pub fn from_errno(errno: i32) -> (r: MountError)
        ensures
            r == mount_error_of(errno),
    {
        if errno == EPERM || errno == EACCES {
            MountError::PermissionDenied
        } else if errno == EBUSY {
            MountError::TargetBusy
        } else if errno == ENOENT {
            MountError::SourceUnavailable
        } else {
            MountError::Other
        }
    }
}

/// What an unmount that returned `failure` (`None` on success) means for the
/// package: a target that is no mount point, or is gone, is unmounted already.
pub fn unmount_result(failure: Option<i32>) -> (r: Result<(), MountError>)
    ensures
        match failure {
            None => r is Ok,
            Some(e) => if e == EINVAL || e == ENOENT {
                r is Ok
            } else {
                r == Err::<(), MountError>(mount_error_of(e))
            },
        },
{
    match failure {
        None => Ok(()),
        Some(e) => if e == EINVAL || e == ENOENT {
            Ok(())
        } else {
            Err(MountError::from_errno(e))
        },
    }
}

/// How the work on one package ended.
#[derive(Clone, Copy, Debug, PartialEq, Eq, Structural)]
pub enum Outcome {
    /// Mounted in this pass.
    Mounted,
    /// Found mounted already; no mount was issued.
    AlreadyMounted,
    /// The package manager does not know the package; retried on a later pass.
    NotInstalled,
    /// Unmounted in this pass.
    Unmounted,
    /// Found unmounted already; no unmount was issued.
    AlreadyUnmounted,
    /// The mount table could not be read.
    InspectFailed,
    MountFailed(MountError),
    UnmountFailed(MountError),
}

/// The task reached the state it asked for.
pub open spec fn succeeded(change: Change, outcome: Outcome) -> bool {
    match change {
        Change::Mount => outcome == Outcome::Mounted || outcome == Outcome::AlreadyMounted,
        Change::Unmount => outcome == Outcome::Unmounted || outcome == Outcome::AlreadyUnmounted,
    }
}

/// Where the current task stands.
pub enum Stage {
    /// Waiting for the package manager's answer.
    Resolving,
    /// Waiting for the mount table's answer; a mount carries its source path.
    Inspecting(Option<String>),
    /// Waiting for the mount or unmount to return.
    Operating,
    /// No task is under way: the pass is over.
    Idle,
}

/// What the caller hands back after carrying out an action.
pub enum Event {
    /// The package's installed path, or `None` when it is not installed.
    Resolved(Option<String>),
    /// The package manager could not be asked at all.
    ResolverFailed,
    /// Whether the package is mounted at its target.
    Inspected(bool),
    InspectorFailed,
    /// What the mount or unmount returned.
    Operated(Result<(), MountError>),
}

/// What the caller is to do next.
pub enum Action {
    /// Ask the package manager where `name` is installed.
    Resolve { name: String },
    /// Ask the mount table whether `name` is mounted at the target of `role`.
    Inspect { role: Role, name: String },
    /// Mount `source` at the target of `name` for `role`.
    Apply { role: Role, name: String, source: String },
    /// Unmount the target of `name` for `role`.
    Retract { role: Role, name: String },
    /// Every task is done: take the new applied state from `Pass::finish`.
    Finish,
    /// The package manager failed: the pass is dropped and the applied state kept.
    Abort,
}

/// What a stage does with an event.
pub enum Transition {
    Continue(Stage, Action),
    Complete(Outcome),
    Abort,
}

/// The first stage and action of a task: a mount resolves the package first,
/// an unmount needs no path and looks at the mount table first.
pub open spec fn start_of(t: Task) -> (Stage, Action) {
    match t.change {
        Change::Mount => (Stage::Resolving, Action::Resolve { name: t.name }),
        Change::Unmount => (Stage::Inspecting(None), Action::Inspect { role: t.role, name: t.name }),
    }
}

/// The stage is one that `t` can be in.
pub open spec fn stage_fits(t: Task, stage: Stage) -> bool {
    match stage {
        Stage::Resolving => t.change == Change::Mount,
        Stage::Inspecting(src) => (t.change == Change::Mount) == (src is Some),
        Stage::Operating => true,
        Stage::Idle => false,
    }
}

/// The event answers what the stage waits for.
pub open spec fn expects(stage: Stage, ev: Event) -> bool {
    match stage {
        Stage::Resolving => ev is Resolved || ev is ResolverFailed,
        Stage::Inspecting(_) => ev is Inspected || ev is InspectorFailed,
        Stage::Operating => ev is Operated,
        Stage::Idle => false,
    }
}

/// The decision on one event for task `t`. A package that is not installed
/// is skipped; one found mounted is not mounted again; one found unmounted is
/// not unmounted again; only a failure of the package manager ends the pass.
pub open spec fn transition(t: Task, stage: Stage, ev: Event) -> Transition {
    match (stage, ev) {
        (Stage::Resolving, Event::ResolverFailed) => Transition::Abort,
        (Stage::Resolving, Event::Resolved(None)) => Transition::Complete(Outcome::NotInstalled),
        (Stage::Resolving, Event::Resolved(Some(p))) => Transition::Continue(
            Stage::Inspecting(Some(p)),
            Action::Inspect { role: t.role, name: t.name },
        ),
        (Stage::Inspecting(_), Event::InspectorFailed) => Transition::Complete(
            Outcome::InspectFailed,
        ),
        (Stage::Inspecting(src), Event::Inspected(mounted)) => match t.change {
            Change::Mount => if mounted {
                Transition::Complete(Outcome::AlreadyMounted)
            } else {
                Transition::Continue(
                    Stage::Operating,
                    Action::Apply { role: t.role, name: t.name, source: src.unwrap() },
                )
            },
            Change::Unmount => if mounted {
                Transition::Continue(Stage::Operating, Action::Retract { role: t.role, name: t.name })
            } else {
                Transition::Complete(Outcome::AlreadyUnmounted)
            },
        },
        (Stage::Operating, Event::Operated(Ok(()))) => match t.change {
            Change::Mount => Transition::Complete(Outcome::Mounted),
            Change::Unmount => Transition::Complete(Outcome::Unmounted),
        },
        (Stage::Operating, Event::Operated(Err(e))) => match t.change {
            Change::Mount => Transition::Complete(Outcome::MountFailed(e)),
            Change::Unmount => Transition::Complete(Outcome::UnmountFailed(e)),
        },
        _ => Transition::Abort,
    }
}

/// The names of `role` whose tasks among the first `outcomes.len()` made
/// `change` successfully.
pub open spec fn done_names(
    tasks: Seq<Task>,
    outcomes: Seq<Outcome>,
    role: Role,
    change: Change,
) -> Set<Seq<char>> {
    Set::new(
        |n: Seq<char>|
            exists|i: int|
                0 <= i < outcomes.len() && i < tasks.len() && tasks[i].role == role
                    && tasks[i].change == change && succeeded(change, outcomes[i])
                    && #[trigger] tasks[i].name@ == n,
    )
}

/// The applied names of `role` after the tasks with these outcomes: the
/// earlier ones less those unmounted, plus those mounted. A failed or skipped
/// package keeps its earlier standing, so the next pass tries it again.
pub open spec fn applied_after(
    base: Set<Seq<char>>,
    tasks: Seq<Task>,
    outcomes: Seq<Outcome>,
    role: Role,
) -> Set<Seq<char>> {
    base.difference(done_names(tasks, outcomes, role, Change::Unmount)).union(
        done_names(tasks, outcomes, role, Change::Mount),
    )
}

/// A reconciliation pass in progress.
pub struct Pass {
    /// The declared packages the pass converges to.
    pub desired: Ghost<App>,
    /// The applied state the pass started from.
    pub base: Applied,
    pub tasks: Vec<Task>,
    /// The outcomes of the first tasks, in order.
    pub outcomes: Vec<Outcome>,
    /// Where the task after them stands.
    pub stage: Stage,
    pub aborted: bool,
}

impl Pass {
    /// The tasks are the plan from the base to the declared packages, the
    /// outcomes cover a prefix of them, and the stage fits the task under way.
    pub open spec fn wf(&self) -> bool {
        &&& self.desired@.wf()
        &&& self.base.wf()
        &&& plan_of(self.tasks@, &self.desired@, &self.base)
        &&& self.outcomes@.len() <= self.tasks@.len()
        &&& self.aborted ==> self.stage is Idle
        &&& !self.aborted ==> ((self.stage is Idle) == (self.outcomes@.len() == self.tasks@.len()))
        &&& !self.aborted && self.outcomes@.len() < self.tasks@.len() ==> stage_fits(
            self.tasks@[self.outcomes@.len() as int],
            self.stage,
        )
    }

    /// Every task has its outcome and the pass was not dropped.
    pub open spec fn finished(&self) -> bool {
        !self.aborted && self.outcomes@.len() == self.tasks@.len()
    }

    /// The task under way.
    pub open spec fn current(&self) -> Task {
        self.tasks@[self.outcomes@.len() as int]
    }

    /// The stage and action that follow the outcomes recorded so far.
    pub open spec fn next_after(tasks: Seq<Task>, done: nat) -> (Stage, Action) {
        if done < tasks.len() {
            start_of(tasks[done as int])
        } else {
            (Stage::Idle, Action::Finish)
        }
    }

    fn start(t: &Task) -> (r: (Stage, Action))
        ensures
            r == start_of(*t),
    {
        match t.change {
            Change::Mount => (Stage::Resolving, Action::Resolve { name: t.name.clone() }),
            Change::Unmount => (
                Stage::Inspecting(None),
                Action::Inspect { role: t.role, name: t.name.clone() },
            ),
        }
    }

    fn advance(&self) -> (r: (Stage, Action))
        requires
            self.outcomes@.len() <= self.tasks@.len(),
        ensures
            r == Self::next_after(self.tasks@, self.outcomes@.len()),
    {
        if self.outcomes.len() < self.tasks.len() {
            Self::start(&self.tasks[self.outcomes.len()])
        } else {
            (Stage::Idle, Action::Finish)
        }
    }

    /// Starts a pass from the declared packages and the applied state, and
    /// gives its first action.
    pub fn begin(desired: &App, applied: &Applied) -> (r: (Pass, Action))
        requires
            desired.wf(),
            applied.wf(),
        ensures
            r.0.wf(),
            r.0.desired@ == *desired,
            r.0.base.same(applied),
            plan_of(r.0.tasks@, desired, applied),
            r.0.outcomes@.len() == 0,
            !r.0.aborted,
            (r.0.stage, r.1) == Self::next_after(r.0.tasks@, 0),
    {
        let tasks = plan(desired, applied);
        let base = applied.duplicate();
        let mut pass = Pass {
            desired: Ghost(*desired),
            base,
            tasks,
            outcomes: Vec::new(),
            stage: Stage::Idle,
            aborted: false,
        };
        assert(plan_of(pass.tasks@, desired, &pass.base)) by {
            assert forall|role: Role| #[trigger] pass.base.set(role) == applied.set(role) by {
                if role == Role::SystemApp {
                }
            }
        }
        let (stage, action) = pass.advance();
        pass.stage = stage;
        (pass, action)
    }

    /// Returns whether `ev` answers what the pass waits for.
    pub fn expects_event(&self, ev: &Event) -> (r: bool)
        ensures
            r == expects(self.stage, *ev),
    {
        match (&self.stage, ev) {
            (Stage::Resolving, Event::Resolved(_)) => true,
            (Stage::Resolving, Event::ResolverFailed) => true,
            (Stage::Inspecting(_), Event::Inspected(_)) => true,
            (Stage::Inspecting(_), Event::InspectorFailed) => true,
            (Stage::Operating, Event::Operated(_)) => true,
            _ => false,
        }
    }

    fn decide(t: &Task, stage: &Stage, ev: Event) -> (r: Transition)
        requires
            stage_fits(*t, *stage),
            expects(*stage, ev),
        ensures
            r == transition(*t, *stage, ev),
    {
        match (stage, ev) {
            (Stage::Resolving, Event::ResolverFailed) => Transition::Abort,
            (Stage::Resolving, Event::Resolved(None)) => Transition::Complete(Outcome::NotInstalled),
            (Stage::Resolving, Event::Resolved(Some(p))) => Transition::Continue(
                Stage::Inspecting(Some(p)),
                Action::Inspect { role: t.role, name: t.name.clone() },
            ),
            (Stage::Inspecting(_), Event::InspectorFailed) => Transition::Complete(
                Outcome::InspectFailed,
            ),
            (Stage::Inspecting(src), Event::Inspected(mounted)) => match t.change {
                Change::Mount => if mounted {
                    Transition::Complete(Outcome::AlreadyMounted)
                } else {
                    let source = match src {
                        Some(p) => p.clone(),
                        None => String::new(),
                    };
                    Transition::Continue(
                        Stage::Operating,
                        Action::Apply { role: t.role, name: t.name.clone(), source },
                    )
                },
                Change::Unmount => if mounted {
                    Transition::Continue(
                        Stage::Operating,
                        Action::Retract { role: t.role, name: t.name.clone() },
                    )
                } else {
                    Transition::Complete(Outcome::AlreadyUnmounted)
                },
            },
            (Stage::Operating, Event::Operated(Ok(()))) => match t.change {
                Change::Mount => Transition::Complete(Outcome::Mounted),
                Change::Unmount => Transition::Complete(Outcome::Unmounted),
            },
            (Stage::Operating, Event::Operated(Err(e))) => match t.change {
                Change::Mount => Transition::Complete(Outcome::MountFailed(e)),
                Change::Unmount => Transition::Complete(Outcome::UnmountFailed(e)),
            },
            _ => Transition::Abort,
        }
    }

    /// Takes the answer to the last action and gives the next action.
    pub fn step(&mut self, ev: Event) -> (a: Action)
        requires
            old(self).wf(),
            expects(old(self).stage, ev),
        ensures
            final(self).wf(),
            final(self).desired == old(self).desired,
            final(self).base == old(self).base,
            final(self).tasks == old(self).tasks,
            match transition(old(self).current(), old(self).stage, ev) {
                Transition::Abort => {
                    &&& final(self).aborted
                    &&& final(self).outcomes == old(self).outcomes
                    &&& a == Action::Abort
                },
                Transition::Continue(stage, action) => {
                    &&& !final(self).aborted
                    &&& final(self).outcomes == old(self).outcomes
                    &&& final(self).stage == stage
                    &&& a == action
                },
                Transition::Complete(outcome) => {
                    &&& !final(self).aborted
                    &&& final(self).outcomes@ == old(self).outcomes@.push(outcome)
                    &&& (final(self).stage, a) == Self::next_after(
                        final(self).tasks@,
                        final(self).outcomes@.len(),
                    )
                },
            },
    {
        let tr = Self::decide(&self.tasks[self.outcomes.len()], &self.stage, ev);
        match tr {
            Transition::Abort => {
                self.aborted = true;
                self.stage = Stage::Idle;
                Action::Abort
            },
            Transition::Continue(stage, action) => {
                self.stage = stage;
                action
            },
            Transition::Complete(outcome) => {
                self.outcomes.push(outcome);
                let (stage, action) = self.advance();
                self.stage = stage;
                action
            },
        }
    }

    /// The applied state after a finished pass: what it started from, less
    /// the packages it unmounted, plus those it mounted or found mounted.
    pub fn finish(&self) -> (r: App)
        requires
            self.wf(),
            self.finished(),
        ensures
            r.wf(),
            forall|role: Role|
                #[trigger] r.set(role) == applied_after(
                    self.base.set(role),
                    self.tasks@,
                    self.outcomes@,
                    role,
                ),
    {
        let mut r = match &self.base {
            Applied::Unknown => App::empty(),
            Applied::Known(a) => a.duplicate(),
        };
        assert(forall|role: Role| #[trigger] r.set(role) == self.base.set(role)) by {
            if self.base is Unknown {
                assert(r.set(Role::SystemApp) == Set::<Seq<char>>::empty());
            }
        }
        let ghost tasks = self.tasks@;
        let ghost outcomes = self.outcomes@;
        let ghost desired = self.desired@;
        proof {
            assert forall|role: Role, c: Change|
                #![trigger done_names(tasks, outcomes.subrange(0, 0), role, c)]
                done_names(tasks, outcomes.subrange(0, 0), role, c) == Set::<Seq<char>>::empty() by {
                assert(done_names(tasks, outcomes.subrange(0, 0), role, c) =~= Set::<Seq<char>>::empty());
            }
            assert forall|role: Role| #[trigger] r.set(role) == applied_after(
                self.base.set(role), tasks, outcomes.subrange(0, 0), role) by {
                assert(done_names(tasks, outcomes.subrange(0, 0), role, Change::Mount) == Set::<Seq<char>>::empty());
                assert(done_names(tasks, outcomes.subrange(0, 0), role, Change::Unmount) == Set::<Seq<char>>::empty());
                assert(r.set(role) =~= applied_after(self.base.set(role), tasks, outcomes.subrange(0, 0), role));
            }
        }
        let mut i: usize = 0;
        while i < self.tasks.len()
            invariant
                self.wf(),
                self.finished(),
                tasks == self.tasks@,
                outcomes == self.outcomes@,
                desired == self.desired@,
                i <= tasks.len(),
                r.wf(),
                forall|role: Role|
                    #[trigger] r.set(role) == applied_after(
                        self.base.set(role),
                        tasks,
                        outcomes.subrange(0, i as int),
                        role,
                    ),
            decreases tasks.len() - i,
        {
            let t = &self.tasks[i];
            let o = self.outcomes[i];
            let ghost before = r;
            proof {
                lemma_done_step(tasks, outcomes, i as int);
                lemma_task_standing(tasks, &desired, &self.base, i as int);
                lemma_done_within(tasks, outcomes.subrange(0, i as int), &desired, &self.base);
            }
            let ok = match t.change {
                Change::Mount => match o {
                    Outcome::Mounted => true,
                    Outcome::AlreadyMounted => true,
                    _ => false,
                },
                Change::Unmount => match o {
                    Outcome::Unmounted => true,
                    Outcome::AlreadyUnmounted => true,
                    _ => false,
                },
            };
            if ok {
                match t.change {
                    Change::Mount => {
                        r.insert(t.role, t.name.clone());
                    },
                    Change::Unmount => {
                        r.remove(t.role, &t.name);
                    },
                }
            }
            proof {
                let next = outcomes.subrange(0, i + 1);
                assert forall|role: Role| #[trigger] r.set(role) == applied_after(
                    self.base.set(role), tasks, next, role) by {
                    if role == crate::config::other_role(t.role) {
                        assert(r.set(role) == before.set(role));
                    }
                    if role == t.role {
                        assert(r.set(role) =~= applied_after(self.base.set(role), tasks, next, role));
                    } else {
                        assert(role == crate::config::other_role(t.role));
                        assert(r.set(role) =~= applied_after(self.base.set(role), tasks, next, role));
                    }
                }
            }
            i = i + 1;
        }
        assert(outcomes.subrange(0, i as int) =~= outcomes);
        r
    }
}

/// Taking one more outcome adds at most the name of that task.
proof fn lemma_done_step(tasks: Seq<Task>, outcomes: Seq<Outcome>, i: int)
    requires
        0 <= i < outcomes.len(),
        i < tasks.len(),
    ensures
        forall|role: Role, c: Change|
            #![trigger done_names(tasks, outcomes.subrange(0, i + 1), role, c)]
            done_names(tasks, outcomes.subrange(0, i + 1), role, c) == if tasks[i].role == role
                && tasks[i].change == c && succeeded(c, outcomes[i]) {
                done_names(tasks, outcomes.subrange(0, i), role, c).insert(tasks[i].name@)
            } else {
                done_names(tasks, outcomes.subrange(0, i), role, c)
            },
{
    assert forall|role: Role, c: Change|
        #![trigger done_names(tasks, outcomes.subrange(0, i + 1), role, c)]
        done_names(tasks, outcomes.subrange(0, i + 1), role, c) == if tasks[i].role == role
            && tasks[i].change == c && succeeded(c, outcomes[i]) {
            done_names(tasks, outcomes.subrange(0, i), role, c).insert(tasks[i].name@)
        } else {
            done_names(tasks, outcomes.subrange(0, i), role, c)
        } by {
        let a = outcomes.subrange(0, i + 1);
        let b = outcomes.subrange(0, i);
        let want = if tasks[i].role == role && tasks[i].change == c && succeeded(c, outcomes[i]) {
            done_names(tasks, b, role, c).insert(tasks[i].name@)
        } else {
            done_names(tasks, b, role, c)
        };
        assert forall|n: Seq<char>| done_names(tasks, a, role, c).contains(n) == want.contains(n) by {
            if done_names(tasks, a, role, c).contains(n) {
                let k = choose|k: int|
                    0 <= k < a.len() && k < tasks.len() && tasks[k].role == role
                        && tasks[k].change == c && succeeded(c, a[k])
                        && #[trigger] tasks[k].name@ == n;
                if k < i {
                    assert(a[k] == b[k]);
                }
            }
            if done_names(tasks, b, role, c).contains(n) {
                let k = choose|k: int|
                    0 <= k < b.len() && k < tasks.len() && tasks[k].role == role
                        && tasks[k].change == c && succeeded(c, b[k])
                        && #[trigger] tasks[k].name@ == n;
                assert(a[k] == b[k]);
            }
            if tasks[i].role == role && tasks[i].change == c && succeeded(c, outcomes[i]) && n
                == tasks[i].name@ {
                assert(a[i] == outcomes[i]);
            }
        }
        assert(done_names(tasks, a, role, c) =~= want);
    }
}

/// Under a plan, a mounted name was not applied before and an unmounted
/// name was.
proof fn lemma_task_standing(tasks: Seq<Task>, desired: &App, base: &Applied, i: int)
    requires
        desired.wf(),
        plan_of(tasks, desired, base),
        0 <= i < tasks.len(),
    ensures
        tasks[i].change == Change::Mount ==> !base.set(tasks[i].role).contains(tasks[i].name@),
        tasks[i].change == Change::Mount ==> tasks[i].name@.len() > 0,
        tasks[i].change == Change::Unmount ==> base.set(tasks[i].role).contains(tasks[i].name@),
{
    assert(crate::plan::changed_names(tasks, tasks[i].role, tasks[i].change).contains(
        tasks[i].name@,
    ));
    if tasks[i].change == Change::Mount {
        crate::config::lemma_set_names_nonempty(desired, tasks[i].role, tasks[i].name@);
    }
}

/// Under a plan, every name mounted so far was not applied before.
proof fn lemma_done_within(tasks: Seq<Task>, outcomes: Seq<Outcome>, desired: &App, base: &Applied)
    requires
        desired.wf(),
        plan_of(tasks, desired, base),
    ensures
        forall|role: Role, n: Seq<char>|
            #[trigger] done_names(tasks, outcomes, role, Change::Mount).contains(n) ==> !base.set(
                role,
            ).contains(n),
{
    assert forall|role: Role, n: Seq<char>|
        #[trigger] done_names(tasks, outcomes, role, Change::Mount).contains(n) implies !base.set(
            role,
        ).contains(n) by {
        let k = choose|k: int|
            0 <= k < outcomes.len() && k < tasks.len() && tasks[k].role == role
                && tasks[k].change == Change::Mount && succeeded(Change::Mount, outcomes[k])
                && #[trigger] tasks[k].name@ == n;
        lemma_task_standing(tasks, desired, base, k);
    }
}

} // verus!
