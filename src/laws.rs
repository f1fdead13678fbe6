//! What holds of reconciliation across tasks and passes.

use vstd::prelude::*;

use crate::config::{App, Role};
use crate::pass::{
    applied_after, done_names, stage_fits, succeeded, transition, Action, Event, Outcome, Pass,
    Stage, Transition,
};
use crate::plan::{changed_names, plan_of, Applied, Change, Task};

verus! {

/// Every task has an outcome and each of them reached the state it asked for.
pub open spec fn all_succeeded(tasks: Seq<Task>, outcomes: Seq<Outcome>) -> bool {
    &&& outcomes.len() == tasks.len()
    &&& forall|i: int| 0 <= i < tasks.len() ==> succeeded(tasks[i].change, #[trigger] outcomes[i])
}

/// `next` holds the applied state that a pass with these tasks and outcomes leaves.
pub open spec fn left_by(next: &App, base: &Applied, tasks: Seq<Task>, outcomes: Seq<Outcome>) -> bool {
    forall|role: Role|
        #![trigger next.set(role)]
        next.set(role) == applied_after(base.set(role), tasks, outcomes, role)
}

proof fn lemma_no_changes_no_tasks(tasks: Seq<Task>)
    requires
        forall|role: Role, c: Change|
            #[trigger] changed_names(tasks, role, c) == Set::<Seq<char>>::empty(),
    ensures
        tasks.len() == 0,
{
    if tasks.len() > 0 {
        assert(changed_names(tasks, tasks[0].role, tasks[0].change).contains(tasks[0].name@));
    }
}

/// Convergence: when every task of a pass succeeds, the applied state it
/// leaves holds exactly the declared sets, whatever order the names were
/// declared in; each newly declared name was found mounted or mounted, and
/// each withdrawn one found unmounted or unmounted.
pub proof fn lemma_convergence(
    desired: &App,
    base: &Applied,
    tasks: Seq<Task>,
    outcomes: Seq<Outcome>,
)
    requires
        desired.wf(),
        base.wf(),
        plan_of(tasks, desired, base),
        all_succeeded(tasks, outcomes),
    ensures
        forall|role: Role|
            #![trigger applied_after(base.set(role), tasks, outcomes, role)]
            applied_after(base.set(role), tasks, outcomes, role) == desired.set(role),
        forall|role: Role, n: Seq<char>|
            desired.set(role).contains(n) && !(#[trigger] base.set(role).contains(n)) ==> exists|
                i: int,
            |
                0 <= i < tasks.len() && tasks[i].role == role && #[trigger] tasks[i].name@ == n
                    && tasks[i].change == Change::Mount && (outcomes[i] == Outcome::Mounted
                    || outcomes[i] == Outcome::AlreadyMounted),
        forall|role: Role, n: Seq<char>|
            #[trigger] base.set(role).contains(n) && !desired.set(role).contains(n) ==> exists|
                i: int,
            |
                0 <= i < tasks.len() && tasks[i].role == role && #[trigger] tasks[i].name@ == n
                    && tasks[i].change == Change::Unmount && (outcomes[i] == Outcome::Unmounted
                    || outcomes[i] == Outcome::AlreadyUnmounted),
{
    assert forall|role: Role, c: Change|
        #[trigger] done_names(tasks, outcomes, role, c) == changed_names(tasks, role, c) by {
        assert forall|n: Seq<char>| #[trigger]
            done_names(tasks, outcomes, role, c).contains(n) == changed_names(
                tasks,
                role,
                c,
            ).contains(n) by {
            if changed_names(tasks, role, c).contains(n) {
                let i = choose|i: int|
                    0 <= i < tasks.len() && tasks[i].role == role && tasks[i].change == c
                        && #[trigger] tasks[i].name@ == n;
                assert(succeeded(tasks[i].change, outcomes[i]));
            }
        }
        assert(done_names(tasks, outcomes, role, c) =~= changed_names(tasks, role, c));
    }
    assert forall|role: Role|
        #![trigger applied_after(base.set(role), tasks, outcomes, role)]
        applied_after(base.set(role), tasks, outcomes, role) == desired.set(role) by {
        assert(changed_names(tasks, role, Change::Mount) == desired.set(role).difference(
            base.set(role),
        ));
        assert(changed_names(tasks, role, Change::Unmount) == base.set(role).difference(
            desired.set(role),
        ));
        assert(applied_after(base.set(role), tasks, outcomes, role) =~= desired.set(role));
    }
    assert forall|role: Role, n: Seq<char>|
        desired.set(role).contains(n) && !(#[trigger] base.set(role).contains(n)) implies exists|
            i: int,
        |
            0 <= i < tasks.len() && tasks[i].role == role && #[trigger] tasks[i].name@ == n
                && tasks[i].change == Change::Mount && (outcomes[i] == Outcome::Mounted
                || outcomes[i] == Outcome::AlreadyMounted) by {
        assert(changed_names(tasks, role, Change::Mount).contains(n));
        let i = choose|i: int|
            0 <= i < tasks.len() && tasks[i].role == role && tasks[i].change == Change::Mount
                && #[trigger] tasks[i].name@ == n;
        assert(succeeded(tasks[i].change, outcomes[i]));
    }
    assert forall|role: Role, n: Seq<char>|
        #[trigger] base.set(role).contains(n) && !desired.set(role).contains(n) implies exists|
            i: int,
        |
            0 <= i < tasks.len() && tasks[i].role == role && #[trigger] tasks[i].name@ == n
                && tasks[i].change == Change::Unmount && (outcomes[i] == Outcome::Unmounted
                || outcomes[i] == Outcome::AlreadyUnmounted) by {
        assert(changed_names(tasks, role, Change::Unmount).contains(n));
        let i = choose|i: int|
            0 <= i < tasks.len() && tasks[i].role == role && tasks[i].change == Change::Unmount
                && #[trigger] tasks[i].name@ == n;
        assert(succeeded(tasks[i].change, outcomes[i]));
    }
}

/// Idempotence: after a pass in which every task succeeded, a pass over the
/// same declared packages has no task, so its first action is to finish and
/// it issues no mount or unmount.
pub proof fn lemma_idempotence(
    desired: &App,
    base: &Applied,
    tasks: Seq<Task>,
    outcomes: Seq<Outcome>,
    next: &App,
    next_tasks: Seq<Task>,
)
    requires
        desired.wf(),
        base.wf(),
        next.wf(),
        plan_of(tasks, desired, base),
        all_succeeded(tasks, outcomes),
        left_by(next, base, tasks, outcomes),
        plan_of(next_tasks, desired, &Applied::Known(*next)),
    ensures
        next_tasks.len() == 0,
        Pass::next_after(next_tasks, 0) == (Stage::Idle, Action::Finish),
{
    lemma_convergence(desired, base, tasks, outcomes);
    assert forall|role: Role, c: Change| #[trigger]
        changed_names(next_tasks, role, c) == Set::<Seq<char>>::empty() by {
        assert(next.set(role) == applied_after(base.set(role), tasks, outcomes, role));
        assert(desired.set(role).difference(next.set(role)) =~= Set::<Seq<char>>::empty());
        assert(next.set(role).difference(desired.set(role)) =~= Set::<Seq<char>>::empty());
        if c == Change::Mount {
        } else {
        }
    }
    lemma_no_changes_no_tasks(next_tasks);
}

/// Partial-failure isolation: a task that succeeded is reflected in the
/// applied state a pass leaves and is not planned again; a task that did not
/// succeed keeps its earlier standing and is planned again on the next pass
/// over the same declared packages, whatever the other tasks did.
pub proof fn lemma_failure_isolation(
    desired: &App,
    base: &Applied,
    tasks: Seq<Task>,
    outcomes: Seq<Outcome>,
    next: &App,
    next_tasks: Seq<Task>,
    i: int,
)
    requires
        desired.wf(),
        base.wf(),
        next.wf(),
        plan_of(tasks, desired, base),
        outcomes.len() == tasks.len(),
        left_by(next, base, tasks, outcomes),
        plan_of(next_tasks, desired, &Applied::Known(*next)),
        0 <= i < tasks.len(),
    ensures
        succeeded(tasks[i].change, outcomes[i]) ==> {
            &&& next.set(tasks[i].role).contains(tasks[i].name@) == (tasks[i].change
                == Change::Mount)
            &&& !changed_names(next_tasks, tasks[i].role, Change::Mount).contains(tasks[i].name@)
            &&& !changed_names(next_tasks, tasks[i].role, Change::Unmount).contains(
                tasks[i].name@,
            )
        },
        !succeeded(tasks[i].change, outcomes[i]) ==> {
            &&& next.set(tasks[i].role).contains(tasks[i].name@) == (tasks[i].change
                == Change::Unmount)
            &&& changed_names(next_tasks, tasks[i].role, tasks[i].change).contains(
                tasks[i].name@,
            )
        },
{
    let t = tasks[i];
    let role = t.role;
    let n = t.name@;
    assert(changed_names(tasks, role, t.change).contains(n));
    assert(next.set(role) == applied_after(base.set(role), tasks, outcomes, role));
    assert(changed_names(tasks, role, Change::Mount) == desired.set(role).difference(
        base.set(role),
    ));
    assert(changed_names(tasks, role, Change::Unmount) == base.set(role).difference(
        desired.set(role),
    ));
    assert(changed_names(next_tasks, role, Change::Mount) == desired.set(role).difference(
        next.set(role),
    ));
    assert(changed_names(next_tasks, role, Change::Unmount) == next.set(role).difference(
        desired.set(role),
    ));
    if succeeded(t.change, outcomes[i]) {
        assert(done_names(tasks, outcomes, role, t.change).contains(n));
    }
    // A name is the subject of one task of its role only.
    assert forall|k: int|
        0 <= k < tasks.len() && tasks[k].role == role && #[trigger] tasks[k].name@ == n
            implies k == i by {
        if k < i {
            assert(!(tasks[k].role == tasks[i].role && tasks[k].name@ == tasks[i].name@));
        } else if k > i {
            assert(!(tasks[i].role == tasks[k].role && tasks[i].name@ == tasks[k].name@));
        }
    }
    if !succeeded(t.change, outcomes[i]) {
        assert(!done_names(tasks, outcomes, role, t.change).contains(n));
    }
    let other = match t.change {
        Change::Mount => Change::Unmount,
        Change::Unmount => Change::Mount,
    };
    assert(!done_names(tasks, outcomes, role, other).contains(n));
}

/// Crash-safe first pass: with nothing known of earlier passes every declared
/// package is to be mounted and none unmounted, and a package that the mount
/// table shows mounted already is taken as applied without a mount.
pub proof fn lemma_first_pass(desired: &App, tasks: Seq<Task>, i: int, stage: Stage)
    requires
        desired.wf(),
        plan_of(tasks, desired, &Applied::Unknown),
        0 <= i < tasks.len(),
        stage is Inspecting,
        stage_fits(tasks[i], stage),
    ensures
        forall|role: Role|
            #![trigger changed_names(tasks, role, Change::Mount)]
            changed_names(tasks, role, Change::Mount) == desired.set(role),
        forall|role: Role|
            #![trigger changed_names(tasks, role, Change::Unmount)]
            changed_names(tasks, role, Change::Unmount) == Set::<Seq<char>>::empty(),
        tasks[i].change == Change::Mount,
        transition(tasks[i], stage, Event::Inspected(true)) == Transition::Complete(
            Outcome::AlreadyMounted,
        ),
        succeeded(Change::Mount, Outcome::AlreadyMounted),
{
    assert forall|role: Role|
        #![trigger changed_names(tasks, role, Change::Mount)]
        changed_names(tasks, role, Change::Mount) == desired.set(role) by {
        assert(desired.set(role).difference(Set::<Seq<char>>::empty()) =~= desired.set(role));
    }
    assert forall|role: Role|
        #![trigger changed_names(tasks, role, Change::Unmount)]
        changed_names(tasks, role, Change::Unmount) == Set::<Seq<char>>::empty() by {
        assert(Set::<Seq<char>>::empty().difference(desired.set(role)) =~= Set::<
            Seq<char>,
        >::empty());
    }
    if tasks[i].change == Change::Unmount {
        assert(changed_names(tasks, tasks[i].role, Change::Unmount).contains(tasks[i].name@));
    }
}

/// Not-installed skip: a package that the package manager does not know is
/// neither mounted nor a reason to drop the pass, and it does not count as
/// applied.
pub proof fn lemma_not_installed_skipped(t: Task)
    requires
        t.change == Change::Mount,
    ensures
        transition(t, Stage::Resolving, Event::Resolved(None)) == Transition::Complete(
            Outcome::NotInstalled,
        ),
        !succeeded(t.change, Outcome::NotInstalled),
{
}

} // verus!
