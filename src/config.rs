//! Declared package sets (the desired state) and their editing.

use vstd::prelude::*;

verus! {

/// Where a package is injected: `/system/app` or `/system/priv-app`.
#[derive(Clone, Copy, Debug, PartialEq, Eq, Hash, Structural)]
pub enum Role {
    SystemApp,
    PrivilegedApp,
}

/// The set of names that a list of package names holds.
pub open spec fn name_set(names: Seq<String>) -> Set<Seq<char>> {
    Set::new(|n: Seq<char>| exists|i: int| 0 <= i < names.len() && #[trigger] names[i]@ == n)
}

/// No name occurs twice in the list.
pub open spec fn distinct_names(names: Seq<String>) -> bool {
    forall|i: int, j: int| 0 <= i < j < names.len() ==> #[trigger] names[i]@ != #[trigger] names[j]@
}

/// No name of the list is empty.
pub open spec fn nonempty_names(names: Seq<String>) -> bool {
    forall|i: int| 0 <= i < names.len() ==> (#[trigger] names[i])@.len() > 0
}

/// A list of package names of one role: each name non-empty and named once.
pub open spec fn valid_names(names: Seq<String>) -> bool {
    distinct_names(names) && nonempty_names(names)
}

/// Returns whether `name` occurs in `names`.
pub fn contains_name(names: &Vec<String>, name: &String) -> (r: bool)
    ensures
        r == name_set(names@).contains(name@),
{
    let mut i: usize = 0;
    while i < names.len()
        invariant
            i <= names.len(),
            forall|k: int| 0 <= k < i ==> names@[k]@ != name@,
        decreases names.len() - i,
    {
        if names[i] == *name {
            return true;
        }
        i = i + 1;
    }
    false
}

/// Copies a list of names, string by string.
pub fn copy_names(names: &Vec<String>) -> (r: Vec<String>)
    ensures
        r@ == names@,
{
    let mut r: Vec<String> = Vec::new();
    let mut i: usize = 0;
    while i < names.len()
        invariant
            i <= names.len(),
            r@ == names@.subrange(0, i as int),
        decreases names.len() - i,
    {
        r.push(names[i].clone());
        i = i + 1;
        assert(r@ =~= names@.subrange(0, i as int));
    }
    assert(r@ =~= names@);
    r
}

/// The declared packages: one set of names per role.
pub struct App {
    pub system_app: Vec<String>,
    pub priv_app: Vec<String>,
}

impl App {
    /// The list that holds the packages of `role`.
    pub open spec fn list(&self, role: Role) -> Seq<String> {
        match role {
            Role::SystemApp => self.system_app@,
            Role::PrivilegedApp => self.priv_app@,
        }
    }

    /// The set of package names declared for `role`.
    pub open spec fn set(&self, role: Role) -> Set<Seq<char>> {
        name_set(self.list(role))
    }

    /// Each list names each package at most once, and no name is empty.
    pub open spec fn wf(&self) -> bool {
        valid_names(self.system_app@) && valid_names(self.priv_app@)
    }

    /// Both sets are the same as in `other`.
    pub open spec fn same_sets(&self, other: &App) -> bool {
        self.set(Role::SystemApp) == other.set(Role::SystemApp) && self.set(Role::PrivilegedApp)
            == other.set(Role::PrivilegedApp)
    }

    /// No package at all.
    pub fn empty() -> (r: App)
        ensures
            r.wf(),
            r.system_app@.len() == 0,
            r.priv_app@.len() == 0,
            r.set(Role::SystemApp) == Set::<Seq<char>>::empty(),
            r.set(Role::PrivilegedApp) == Set::<Seq<char>>::empty(),
    {
        let r = App { system_app: Vec::new(), priv_app: Vec::new() };
        assert(r.set(Role::SystemApp) =~= Set::<Seq<char>>::empty());
        assert(r.set(Role::PrivilegedApp) =~= Set::<Seq<char>>::empty());
        r
    }

    /// The names declared for `role`.
    pub fn names(&self, role: Role) -> (r: &Vec<String>)
        ensures
            r@ == self.list(role),
    {
        match role {
            Role::SystemApp => &self.system_app,
            Role::PrivilegedApp => &self.priv_app,
        }
    }

    /// Returns whether `name` is declared for `role`.
    pub fn contains(&self, role: Role, name: &String) -> (r: bool)
        ensures
            r == self.set(role).contains(name@),
    {
        contains_name(self.names(role), name)
    }

    /// Builds the sets from two lists in which a name may occur more than
    /// once; empty names are left out.
    pub fn from_lists(system_app: Vec<String>, priv_app: Vec<String>) -> (r: App)
        ensures
            r.wf(),
            r.set(Role::SystemApp) == name_set(system_app@).remove(Seq::<char>::empty()),
            r.set(Role::PrivilegedApp) == name_set(priv_app@).remove(Seq::<char>::empty()),
    {
        let mut r = App::empty();
        let mut i: usize = 0;
        while i < system_app.len()
            invariant
                i <= system_app.len(),
                r.wf(),
                r.priv_app@.len() == 0,
                r.set(Role::SystemApp) == name_set(system_app@.subrange(0, i as int)).remove(
                    Seq::<char>::empty(),
                ),
            decreases system_app.len() - i,
        {
            r.insert(Role::SystemApp, system_app[i].clone());
            proof {
                lemma_name_set_push(system_app@.subrange(0, i as int), system_app@[i as int]);
                if system_app@[i as int]@.len() == 0 {
                    assert(system_app@[i as int]@ =~= Seq::<char>::empty());
                }
                assert(system_app@.subrange(0, i as int).push(system_app@[i as int])
                    =~= system_app@.subrange(0, i + 1));
                assert(r.set(Role::SystemApp) =~= name_set(system_app@.subrange(0, i + 1)).remove(
                    Seq::<char>::empty(),
                ));
            }
            i = i + 1;
        }
        let mut j: usize = 0;
        while j < priv_app.len()
            invariant
                j <= priv_app.len(),
                i == system_app.len(),
                r.wf(),
                r.set(Role::SystemApp) == name_set(system_app@.subrange(0, i as int)).remove(
                    Seq::<char>::empty(),
                ),
                r.set(Role::PrivilegedApp) == name_set(priv_app@.subrange(0, j as int)).remove(
                    Seq::<char>::empty(),
                ),
            decreases priv_app.len() - j,
        {
            r.insert(Role::PrivilegedApp, priv_app[j].clone());
            proof {
                lemma_name_set_push(priv_app@.subrange(0, j as int), priv_app@[j as int]);
                if priv_app@[j as int]@.len() == 0 {
                    assert(priv_app@[j as int]@ =~= Seq::<char>::empty());
                }
                assert(priv_app@.subrange(0, j as int).push(priv_app@[j as int])
                    =~= priv_app@.subrange(0, j + 1));
                assert(r.set(Role::PrivilegedApp) =~= name_set(priv_app@.subrange(0, j + 1)).remove(
                    Seq::<char>::empty(),
                ));
            }
            j = j + 1;
        }
        assert(system_app@.subrange(0, i as int) =~= system_app@);
        assert(priv_app@.subrange(0, j as int) =~= priv_app@);
        r
    }

    /// Declares `name` for `role`; returns whether it was new. An empty
    /// name is no package name and is refused.
    pub fn insert(&mut self, role: Role, name: String) -> (added: bool)
        requires
            old(self).wf(),
        ensures
            final(self).wf(),
            added == (name@.len() > 0 && !old(self).set(role).contains(name@)),
            final(self).set(role) == if name@.len() > 0 {
                old(self).set(role).insert(name@)
            } else {
                old(self).set(role)
            },
            final(self).list(other_role(role)) == old(self).list(other_role(role)),
    {
        if name.as_str().unicode_len() == 0 {
            return false;
        }
        if self.contains(role, &name) {
            assert(old(self).set(role).insert(name@) =~= old(self).set(role));
            return false;
        }
        match role {
            Role::SystemApp => {
                proof {
                    lemma_name_set_push(self.system_app@, name);
                }
                self.system_app.push(name);
            },
            Role::PrivilegedApp => {
                proof {
                    lemma_name_set_push(self.priv_app@, name);
                }
                self.priv_app.push(name);
            },
        }
        true
    }

    /// Withdraws `name` from `role`; returns whether it was declared.
    pub fn remove(&mut self, role: Role, name: &String) -> (removed: bool)
        requires
            old(self).wf(),
        ensures
            final(self).wf(),
            removed == old(self).set(role).contains(name@),
            final(self).set(role) == old(self).set(role).remove(name@),
            final(self).list(other_role(role)) == old(self).list(other_role(role)),
    {
        let list = match role {
            Role::SystemApp => &mut self.system_app,
            Role::PrivilegedApp => &mut self.priv_app,
        };
        remove_name(list, name)
    }

    /// A copy with the same lists.
    pub fn duplicate(&self) -> (r: App)
        ensures
            r.system_app@ == self.system_app@,
            r.priv_app@ == self.priv_app@,
    {
        App { system_app: copy_names(&self.system_app), priv_app: copy_names(&self.priv_app) }
    }
}

/// The role that is not `role`.
pub open spec fn other_role(role: Role) -> Role {
    match role {
        Role::SystemApp => Role::PrivilegedApp,
        Role::PrivilegedApp => Role::SystemApp,
    }
}

/// Appending a name adds it to the set; appending a new name keeps the list distinct.
pub proof fn lemma_name_set_push(names: Seq<String>, name: String)
    ensures
        name_set(names.push(name)) == name_set(names).insert(name@),
        distinct_names(names) && !name_set(names).contains(name@) ==> distinct_names(
            names.push(name),
        ),
        nonempty_names(names) && name@.len() > 0 ==> nonempty_names(names.push(name)),
{
    let p = names.push(name);
    assert forall|n: Seq<char>| name_set(p).contains(n) == name_set(names).insert(name@).contains(
        n,
    ) by {
        if name_set(names).contains(n) {
            let i = choose|i: int| 0 <= i < names.len() && #[trigger] names[i]@ == n;
            assert(p[i]@ == n);
        }
        if n == name@ {
            assert(p[names.len() as int]@ == n);
        }
        if name_set(p).contains(n) {
            let i = choose|i: int| 0 <= i < p.len() && #[trigger] p[i]@ == n;
            if i < names.len() {
                assert(names[i]@ == n);
            }
        }
    }
    assert(name_set(p) =~= name_set(names).insert(name@));
    if distinct_names(names) && !name_set(names).contains(name@) {
        assert forall|i: int, j: int| 0 <= i < j < p.len() implies #[trigger] p[i]@
            != #[trigger] p[j]@ by {
            if j == names.len() {
                assert(names[i]@ == p[i]@);
            } else {
                assert(names[i]@ == p[i]@ && names[j]@ == p[j]@);
            }
        }
    }
}

/// A name of a well-formed set is not empty.
pub proof fn lemma_set_names_nonempty(app: &App, role: Role, n: Seq<char>)
    requires
        app.wf(),
        app.set(role).contains(n),
    ensures
        n.len() > 0,
{
    let i = choose|i: int| 0 <= i < app.list(role).len() && #[trigger] app.list(role)[i]@ == n;
    assert(app.list(role)[i]@.len() > 0);
}

/// Removes `name` from a list of distinct names; returns whether it was there.
fn remove_name(list: &mut Vec<String>, name: &String) -> (removed: bool)
    requires
        valid_names(old(list)@),
    ensures
        valid_names(final(list)@),
        removed == name_set(old(list)@).contains(name@),
        name_set(final(list)@) == name_set(old(list)@).remove(name@),
{
    let mut i: usize = 0;
    while i < list.len()
        invariant
            i <= list.len(),
            list@ == old(list)@,
            valid_names(list@),
            forall|k: int| 0 <= k < i ==> list@[k]@ != name@,
        decreases list.len() - i,
    {
        if list[i] == *name {
            let ghost before = list@;
            list.remove(i);
            proof {
                assert forall|n: Seq<char>| name_set(list@).contains(n) == name_set(
                    before,
                ).remove(name@).contains(n) by {
                    if name_set(list@).contains(n) {
                        let k = choose|k: int| 0 <= k < list@.len() && #[trigger] list@[k]@ == n;
                        if k < i {
                            assert(before[k]@ == n);
                        } else {
                            assert(before[k + 1]@ == n);
                            assert(before[i as int]@ != before[k + 1]@);
                        }
                    }
                    if name_set(before).remove(name@).contains(n) {
                        let k = choose|k: int| 0 <= k < before.len() && #[trigger] before[k]@ == n;
                        if k < i {
                            assert(list@[k]@ == n);
                        } else if k > i {
                            assert(list@[k - 1]@ == n);
                        }
                    }
                }
                assert(name_set(list@) =~= name_set(before).remove(name@));
                assert(name_set(before).contains(name@)) by {
                    assert(before[i as int]@ == name@);
                }
                assert forall|a: int, b: int| 0 <= a < b < list@.len() implies #[trigger] list@[a]@
                    != #[trigger] list@[b]@ by {
                    let a2 = if a < i { a } else { a + 1 };
                    let b2 = if b < i { b } else { b + 1 };
                    assert(list@[a] == before[a2] && list@[b] == before[b2]);
                    assert(before[a2]@ != before[b2]@);
                }
                assert forall|a: int| 0 <= a < list@.len() implies (#[trigger] list@[a])@.len()
                    > 0 by {
                    if a >= i {
                        assert(list@[a] == before[a + 1]);
                    }
                }
            }
            return true;
        }
        i = i + 1;
    }
    assert(name_set(list@) =~= name_set(old(list)@).remove(name@));
    false
}

/// Why a reload of the declared packages failed.
#[derive(Clone, Copy, Debug, PartialEq, Eq, Structural)]
pub enum ConfigError {
    /// The configuration source does not exist or cannot be read.
    Unavailable,
    /// The configuration source could not be parsed.
    Malformed,
}

/// The daemon's view of the configuration: the declared packages.
pub struct Config {
    pub app: App,
}

impl Config {
    /// A configuration that declares no package.
    pub fn new() -> (r: Config)
        ensures
            r.app.wf(),
            r.app.set(Role::SystemApp) == Set::<Seq<char>>::empty(),
            r.app.set(Role::PrivilegedApp) == Set::<Seq<char>>::empty(),
    {
        Config { app: App::empty() }
    }

    /// A copy of the declared packages.
    pub fn get(&self) -> (r: App)
        ensures
            r.system_app@ == self.app.system_app@,
            r.priv_app@ == self.app.priv_app@,
    {
        self.app.duplicate()
    }

    /// Replaces the declared packages by what a reload produced. A failed
    /// reload leaves them as they were and hands the failure back.
    pub fn load_config(&mut self, loaded: Result<App, ConfigError>) -> (r: Result<(), ConfigError>)
        ensures
            match loaded {
                Ok(app) => r == Ok::<(), ConfigError>(()) && final(self).app == app,
                Err(e) => r == Err::<(), ConfigError>(e) && final(self).app == old(self).app,
            },
    {
        match loaded {
            Ok(app) => {
                self.app = app;
                Ok(())
            },
            Err(e) => Err(e),
        }
    }
}

} // verus!
