//! The difference between the declared packages and the last applied ones.

use vstd::prelude::*;

use crate::config::{contains_name, App, Role};

verus! {

/// What the reconciler last converged to. At process start nothing is known:
/// the first pass then treats every declared package as pending and lets the
/// live mount state tell which of them are in place already.
pub enum Applied {
    Unknown,
    Known(App),
}

impl Applied {
    /// The names taken as applied for `role`; none while nothing is known.
    pub open spec fn set(&self, role: Role) -> Set<Seq<char>> {
        match self {
            Applied::Unknown => Set::empty(),
            Applied::Known(a) => a.set(role),
        }
    }

    /// A known applied state names each package of a role once.
    pub open spec fn wf(&self) -> bool {
        match self {
            Applied::Unknown => true,
            Applied::Known(a) => a.wf(),
        }
    }

    /// Both hold the same sets.
    pub open spec fn same(&self, other: &Applied) -> bool {
        self.set(Role::SystemApp) == other.set(Role::SystemApp) && self.set(Role::PrivilegedApp)
            == other.set(Role::PrivilegedApp)
    }

    /// A copy with the same sets.
    pub fn duplicate(&self) -> (r: Applied)
        requires
            self.wf(),
        ensures
            r.wf(),
            r.same(self),
    {
        match self {
            Applied::Unknown => Applied::Unknown,
            Applied::Known(a) => Applied::Known(a.duplicate()),
        }
    }
}

/// Whether a package is to be injected or withdrawn.
#[derive(Clone, Copy, Debug, PartialEq, Eq, Structural)]
pub enum Change {
    Mount,
    Unmount,
}

/// One package whose declared membership differs from the applied one.
pub struct Task {
    pub role: Role,
    pub name: String,
    pub change: Change,
}

/// The names of the tasks that make `change` for `role`.
pub open spec fn changed_names(tasks: Seq<Task>, role: Role, change: Change) -> Set<Seq<char>> {
    Set::new(
        |n: Seq<char>|
            exists|i: int|
                0 <= i < tasks.len() && tasks[i].role == role && tasks[i].change == change
                    && #[trigger] tasks[i].name@ == n,
    )
}

/// No package of a role is the subject of two tasks.
pub open spec fn distinct_tasks(tasks: Seq<Task>) -> bool {
    forall|i: int, j: int|
        0 <= i < j < tasks.len() ==> !(#[trigger] tasks[i].role == #[trigger] tasks[j].role
            && tasks[i].name@ == tasks[j].name@)
}

/// `tasks` mounts exactly what is declared and not applied, and unmounts
/// exactly what is applied and no longer declared, once each.
pub open spec fn plan_of(tasks: Seq<Task>, desired: &App, applied: &Applied) -> bool {
    &&& distinct_tasks(tasks)
    &&& forall|role: Role|
        #![trigger changed_names(tasks, role, Change::Mount)]
        changed_names(tasks, role, Change::Mount) == desired.set(role).difference(
            applied.set(role),
        )
    &&& forall|role: Role|
        #![trigger changed_names(tasks, role, Change::Unmount)]
        changed_names(tasks, role, Change::Unmount) == applied.set(role).difference(
            desired.set(role),
        )
}

/// The tasks of one role are named by the role's sets.
pub open spec fn role_names(tasks: Seq<Task>, role: Role) -> Set<Seq<char>> {
    changed_names(tasks, role, Change::Mount).union(changed_names(tasks, role, Change::Unmount))
}

proof fn lemma_push_task(tasks: Seq<Task>, t: Task)
    ensures
        forall|role: Role, change: Change|
            #![trigger changed_names(tasks.push(t), role, change)]
            changed_names(tasks.push(t), role, change) == if t.role == role && t.change == change {
                changed_names(tasks, role, change).insert(t.name@)
            } else {
                changed_names(tasks, role, change)
            },
        distinct_tasks(tasks) && !role_names(tasks, t.role).contains(t.name@) ==> distinct_tasks(
            tasks.push(t),
        ),
{
    let p = tasks.push(t);
    assert forall|role: Role, change: Change|
        #![trigger changed_names(tasks.push(t), role, change)]
        changed_names(tasks.push(t), role, change) == if t.role == role && t.change == change {
            changed_names(tasks, role, change).insert(t.name@)
        } else {
            changed_names(tasks, role, change)
        } by {
        let want = if t.role == role && t.change == change {
            changed_names(tasks, role, change).insert(t.name@)
        } else {
            changed_names(tasks, role, change)
        };
        assert forall|n: Seq<char>| changed_names(p, role, change).contains(n) == want.contains(
            n,
        ) by {
            if changed_names(p, role, change).contains(n) {
                let i = choose|i: int|
                    0 <= i < p.len() && p[i].role == role && p[i].change == change
                        && #[trigger] p[i].name@ == n;
                if i < tasks.len() {
                    assert(tasks[i].name@ == n);
                }
            }
            if changed_names(tasks, role, change).contains(n) {
                let i = choose|i: int|
                    0 <= i < tasks.len() && tasks[i].role == role && tasks[i].change == change
                        && #[trigger] tasks[i].name@ == n;
                assert(p[i].name@ == n);
            }
            if t.role == role && t.change == change && n == t.name@ {
                assert(p[tasks.len() as int].name@ == n);
            }
        }
        assert(changed_names(p, role, change) =~= want);
    }
    if distinct_tasks(tasks) && !role_names(tasks, t.role).contains(t.name@) {
        assert forall|i: int, j: int| 0 <= i < j < p.len() implies !(#[trigger] p[i].role
            == #[trigger] p[j].role && p[i].name@ == p[j].name@) by {
            if j == tasks.len() && p[i].role == t.role && p[i].name@ == t.name@ {
                assert(tasks[i].name@ == t.name@);
                assert(changed_names(tasks, t.role, tasks[i].change).contains(t.name@));
            }
            if j < tasks.len() {
                assert(p[i] == tasks[i] && p[j] == tasks[j]);
            }
        }
    }
}

/// Adds the tasks of `role` to `tasks`, which holds only tasks of other roles.
fn plan_role(desired: &App, applied: &Applied, role: Role, tasks: &mut Vec<Task>)
    requires
        desired.wf(),
        applied.wf(),
        distinct_tasks(old(tasks)@),
        forall|i: int| 0 <= i < old(tasks)@.len() ==> (#[trigger] old(tasks)@[i]).role != role,
    ensures
        distinct_tasks(final(tasks)@),
        changed_names(final(tasks)@, role, Change::Mount) == desired.set(role).difference(
            applied.set(role),
        ),
        changed_names(final(tasks)@, role, Change::Unmount) == applied.set(role).difference(
            desired.set(role),
        ),
        forall|r: Role, c: Change|
            r != role ==> #[trigger] changed_names(final(tasks)@, r, c) == changed_names(
                old(tasks)@,
                r,
                c,
            ),
        forall|i: int|
            0 <= i < final(tasks)@.len() ==> (#[trigger] final(tasks)@[i]).role == role || exists|
                j: int,
            |
                0 <= j < old(tasks)@.len() && final(tasks)@[i].role == #[trigger] old(
                    tasks,
                )@[j].role,
{
    let no_names: Vec<String> = Vec::new();
    let wanted = desired.names(role);
    let had = match applied {
        Applied::Unknown => &no_names,
        Applied::Known(a) => a.names(role),
    };
    assert(crate::config::name_set(had@) == applied.set(role)) by {
        if applied is Unknown {
            assert(crate::config::name_set(had@) =~= Set::<Seq<char>>::empty());
        }
    }
    assert(changed_names(tasks@, role, Change::Mount) =~= Set::<Seq<char>>::empty());
    assert(changed_names(tasks@, role, Change::Unmount) =~= Set::<Seq<char>>::empty());
    let ghost start = tasks@;
    let mut i: usize = 0;
    while i < wanted.len()
        invariant
            i <= wanted.len(),
            wanted@ == desired.list(role),
            desired.wf(),
            crate::config::name_set(had@) == applied.set(role),
            distinct_tasks(tasks@),
            changed_names(tasks@, role, Change::Mount) == crate::config::name_set(
                wanted@.subrange(0, i as int),
            ).difference(applied.set(role)),
            changed_names(tasks@, role, Change::Unmount) == Set::<Seq<char>>::empty(),
            forall|r: Role, c: Change|
                r != role ==> #[trigger] changed_names(tasks@, r, c) == changed_names(start, r, c),
            tasks@.len() >= start.len(),
            forall|k: int| 0 <= k < start.len() ==> tasks@[k] == start[k],
            forall|k: int| start.len() <= k < tasks@.len() ==> (#[trigger] tasks@[k]).role == role,
        decreases wanted.len() - i,
    {
        let name = &wanted[i];
        let ghost prefix = wanted@.subrange(0, i as int);
        proof {
            crate::config::lemma_name_set_push(prefix, wanted@[i as int]);
            assert(prefix.push(wanted@[i as int]) =~= wanted@.subrange(0, i + 1));
        }
        if !contains_name(had, name) {
            let t = Task { role, name: name.clone(), change: Change::Mount };
            proof {
                lemma_push_task(tasks@, t);
                if role_names(tasks@, role).contains(t.name@) {
                    assert(crate::config::name_set(prefix).contains(t.name@));
                    let k = choose|k: int| 0 <= k < prefix.len() && #[trigger] prefix[k]@ == t.name@;
                    assert(wanted@[k]@ != wanted@[i as int]@);
                }
            }
            tasks.push(t);
        }
        i = i + 1;
    }
    assert(wanted@.subrange(0, i as int) =~= wanted@);
    let mut j: usize = 0;
    while j < had.len()
        invariant
            j <= had.len(),
            wanted@ == desired.list(role),
            applied.wf(),
            had@ == (match applied {
                Applied::Unknown => no_names@,
                Applied::Known(a) => a.list(role),
            }),
            crate::config::distinct_names(had@),
            crate::config::name_set(had@) == applied.set(role),
            distinct_tasks(tasks@),
            changed_names(tasks@, role, Change::Mount) == desired.set(role).difference(
                applied.set(role),
            ),
            changed_names(tasks@, role, Change::Unmount) == crate::config::name_set(
                had@.subrange(0, j as int),
            ).difference(desired.set(role)),
            forall|r: Role, c: Change|
                r != role ==> #[trigger] changed_names(tasks@, r, c) == changed_names(start, r, c),
            tasks@.len() >= start.len(),
            forall|k: int| 0 <= k < start.len() ==> tasks@[k] == start[k],
            forall|k: int| start.len() <= k < tasks@.len() ==> (#[trigger] tasks@[k]).role == role,
        decreases had.len() - j,
    {
        let name = &had[j];
        let ghost prefix = had@.subrange(0, j as int);
        proof {
            crate::config::lemma_name_set_push(prefix, had@[j as int]);
            assert(prefix.push(had@[j as int]) =~= had@.subrange(0, j + 1));
            assert(crate::config::name_set(had@).contains(had@[j as int]@)) by {
                assert(had@[j as int]@ == had@[j as int]@);
            }
        }
        if !contains_name(wanted, name) {
            let t = Task { role, name: name.clone(), change: Change::Unmount };
            proof {
                lemma_push_task(tasks@, t);
                if role_names(tasks@, role).contains(t.name@) {
                    if changed_names(tasks@, role, Change::Unmount).contains(t.name@) {
                        assert(crate::config::name_set(prefix).contains(t.name@));
                        let k = choose|k: int| 0 <= k < prefix.len() && #[trigger] prefix[k]@ == t.name@;
                        assert(had@[k]@ != had@[j as int]@);
                    }
                }
            }
            tasks.push(t);
        }
        j = j + 1;
    }
    assert(had@.subrange(0, j as int) =~= had@);
    assert forall|k: int| 0 <= k < tasks@.len() implies (#[trigger] tasks@[k]).role == role || exists|
        m: int,
    | 0 <= m < start.len() && tasks@[k].role == #[trigger] start[m].role by {
        if k < start.len() {
            assert(tasks@[k] == start[k]);
        }
    }
}

/// The tasks that take the applied state to the declared one: for each role,
/// mount what is declared and not applied, unmount what is applied and no
/// longer declared.
pub fn plan(desired: &App, applied: &Applied) -> (tasks: Vec<Task>)
    requires
        desired.wf(),
        applied.wf(),
    ensures
        plan_of(tasks@, desired, applied),
{
    let mut tasks: Vec<Task> = Vec::new();
    plan_role(desired, applied, Role::SystemApp, &mut tasks);
    plan_role(desired, applied, Role::PrivilegedApp, &mut tasks);
    tasks
}

} // verus!
