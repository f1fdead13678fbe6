use std::collections::{HashMap, HashSet};

use oukaro::{
    unmount_result, Action, App, Applied, ConfigError, Event, MountError, Outcome, Pass, Reconciler,
    Role,
};

fn names(list: &[&str]) -> Vec<String> {
    list.iter().map(|s| s.to_string()).collect()
}

fn app(system: &[&str], privileged: &[&str]) -> App {
    App::from_lists(names(system), names(privileged))
}

fn set_of(a: &App, role: Role) -> HashSet<String> {
    a.names(role).iter().cloned().collect()
}

fn applied_set(r: &Reconciler, role: Role) -> HashSet<String> {
    match &r.applied {
        Applied::Unknown => HashSet::new(),
        Applied::Known(a) => set_of(a, role),
    }
}

fn hs(list: &[&str]) -> HashSet<String> {
    list.iter().map(|s| s.to_string()).collect()
}

/// A stand-in for the package manager and the kernel.
#[derive(Default)]
struct World {
    installed: HashMap<String, String>,
    mounted: HashSet<(Role, String)>,
    failing_mounts: HashSet<String>,
    resolver_down: bool,
    resolves: Vec<String>,
    applies: Vec<(Role, String, String)>,
    retracts: Vec<(Role, String)>,
}

impl World {
    fn install(&mut self, name: &str, path: &str) {
        self.installed.insert(name.to_string(), path.to_string());
    }

    fn operator_calls(&self) -> usize {
        self.applies.len() + self.retracts.len()
    }

    fn mounted_set(&self, role: Role) -> HashSet<String> {
        self.mounted.iter().filter(|(r, _)| *r == role).map(|(_, n)| n.clone()).collect()
    }

    fn answer(&mut self, action: &Action) -> Event {
        match action {
            Action::Resolve { name } => {
                self.resolves.push(name.clone());
                if self.resolver_down {
                    Event::ResolverFailed
                } else {
                    Event::Resolved(self.installed.get(name).cloned())
                }
            }
            Action::Inspect { role, name } => {
                Event::Inspected(self.mounted.contains(&(*role, name.clone())))
            }
            Action::Apply { role, name, source } => {
                self.applies.push((*role, name.clone(), source.clone()));
                if self.failing_mounts.contains(name) {
                    Event::Operated(Err(MountError::PermissionDenied))
                } else {
                    self.mounted.insert((*role, name.clone()));
                    Event::Operated(Ok(()))
                }
            }
            Action::Retract { role, name } => {
                self.retracts.push((*role, name.clone()));
                self.mounted.remove(&(*role, name.clone()));
                Event::Operated(Ok(()))
            }
            Action::Finish | Action::Abort => unreachable!(),
        }
    }
}

/// Runs one pass against `world`; returns the pass as it ended.
fn run_pass(r: &mut Reconciler, desired: App, world: &mut World) -> Pass {
    let (mut pass, mut action) = r.start_pass(Ok(desired)).unwrap();
    loop {
        match action {
            Action::Finish | Action::Abort => break,
            _ => {
                let ev = world.answer(&action);
                assert!(pass.expects_event(&ev));
                action = pass.step(ev);
            }
        }
    }
    r.end_pass(&pass);
    pass
}

#[test]
fn single_app_mounted_once_then_nothing() {
    let mut r = Reconciler::new();
    r.applied = Applied::Known(App::empty());
    let mut w = World::default();
    w.install("app1", "/data/app/app1");
    run_pass(&mut r, app(&["app1"], &[]), &mut w);
    assert_eq!(
        w.applies,
        vec![(Role::SystemApp, "app1".to_string(), "/data/app/app1".to_string())]
    );
    assert!(w.retracts.is_empty());
    run_pass(&mut r, app(&["app1"], &[]), &mut w);
    assert_eq!(w.operator_calls(), 1);
    assert_eq!(applied_set(&r, Role::SystemApp), hs(&["app1"]));
}

#[test]
fn withdrawn_app_retracted_once_even_if_uninstalled() {
    let mut r = Reconciler::new();
    r.applied = Applied::Known(App::empty());
    let mut w = World::default();
    w.install("app1", "/data/app/app1");
    run_pass(&mut r, app(&["app1"], &[]), &mut w);
    w.installed.clear();
    w.resolves.clear();
    run_pass(&mut r, app(&[], &[]), &mut w);
    assert_eq!(w.retracts, vec![(Role::SystemApp, "app1".to_string())]);
    assert!(w.resolves.is_empty());
    assert!(applied_set(&r, Role::SystemApp).is_empty());
    assert!(w.mounted.is_empty());
}

#[test]
fn unchanged_state_issues_no_operations() {
    let mut r = Reconciler::new();
    let mut w = World::default();
    for n in ["a", "b", "c"] {
        w.install(n, &format!("/data/app/{n}"));
    }
    run_pass(&mut r, app(&["a", "b"], &["c"]), &mut w);
    let calls = w.operator_calls();
    assert_eq!(calls, 3);
    let (pass, action) = r.start_pass(Ok(app(&["b", "a"], &["c"]))).unwrap();
    assert!(matches!(action, Action::Finish));
    assert!(pass.tasks.is_empty());
    r.end_pass(&pass);
    assert_eq!(w.operator_calls(), calls);
}

#[test]
fn converges_to_second_state_whatever_the_order() {
    for second in [app(&["b", "d"], &[]), app(&["d", "b"], &[])] {
        let mut r = Reconciler::new();
        let mut w = World::default();
        for n in ["a", "b", "c", "d"] {
            w.install(n, &format!("/data/app/{n}"));
        }
        run_pass(&mut r, app(&["a", "b"], &["c"]), &mut w);
        run_pass(&mut r, second, &mut w);
        assert_eq!(w.mounted_set(Role::SystemApp), hs(&["b", "d"]));
        assert!(w.mounted_set(Role::PrivilegedApp).is_empty());
        assert_eq!(applied_set(&r, Role::SystemApp), hs(&["b", "d"]));
        assert!(applied_set(&r, Role::PrivilegedApp).is_empty());
    }
}

#[test]
fn failed_mount_is_isolated_and_retried() {
    let mut r = Reconciler::new();
    let mut w = World::default();
    for n in ["a", "b", "c"] {
        w.install(n, &format!("/data/app/{n}"));
    }
    w.failing_mounts.insert("b".to_string());
    let pass = run_pass(&mut r, app(&["a", "b", "c"], &[]), &mut w);
    assert!(pass.outcomes.contains(&Outcome::MountFailed(MountError::PermissionDenied)));
    assert_eq!(applied_set(&r, Role::SystemApp), hs(&["a", "c"]));
    assert_eq!(w.mounted_set(Role::SystemApp), hs(&["a", "c"]));
    w.failing_mounts.clear();
    w.applies.clear();
    run_pass(&mut r, app(&["a", "b", "c"], &[]), &mut w);
    assert_eq!(
        w.applies,
        vec![(Role::SystemApp, "b".to_string(), "/data/app/b".to_string())]
    );
    assert_eq!(applied_set(&r, Role::SystemApp), hs(&["a", "b", "c"]));
}

#[test]
fn first_pass_recognises_existing_mount() {
    let mut r = Reconciler::new();
    let mut w = World::default();
    w.install("app1", "/data/app/app1");
    w.install("app2", "/data/app/app2");
    w.mounted.insert((Role::PrivilegedApp, "app1".to_string()));
    let pass = run_pass(&mut r, app(&[], &["app1", "app2"]), &mut w);
    assert_eq!(
        w.applies,
        vec![(Role::PrivilegedApp, "app2".to_string(), "/data/app/app2".to_string())]
    );
    assert!(pass.outcomes.contains(&Outcome::AlreadyMounted));
    assert_eq!(applied_set(&r, Role::PrivilegedApp), hs(&["app1", "app2"]));
}

#[test]
fn not_installed_package_is_skipped() {
    let mut r = Reconciler::new();
    let mut w = World::default();
    w.install("a", "/data/app/a");
    let pass = run_pass(&mut r, app(&["ghost", "a"], &[]), &mut w);
    assert!(!pass.aborted);
    assert!(pass.outcomes.contains(&Outcome::NotInstalled));
    assert_eq!(w.applies.len(), 1);
    assert_eq!(applied_set(&r, Role::SystemApp), hs(&["a"]));
    w.install("ghost", "/data/app/ghost");
    run_pass(&mut r, app(&["ghost", "a"], &[]), &mut w);
    assert_eq!(applied_set(&r, Role::SystemApp), hs(&["a", "ghost"]));
}

#[test]
fn resolver_failure_drops_the_pass() {
    let mut r = Reconciler::new();
    r.applied = Applied::Known(app(&["x"], &[]));
    let mut w = World::default();
    w.resolver_down = true;
    let pass = run_pass(&mut r, app(&["x", "y"], &[]), &mut w);
    assert!(pass.aborted);
    assert!(w.applies.is_empty());
    assert_eq!(applied_set(&r, Role::SystemApp), hs(&["x"]));
}

#[test]
fn failed_unmount_stays_applied() {
    let mut r = Reconciler::new();
    r.applied = Applied::Known(app(&[], &["p"]));
    let (mut pass, action) = r.start_pass(Ok(app(&[], &[]))).unwrap();
    assert!(matches!(action, Action::Inspect { role: Role::PrivilegedApp, .. }));
    let action = pass.step(Event::Inspected(true));
    assert!(matches!(action, Action::Retract { role: Role::PrivilegedApp, .. }));
    let action = pass.step(Event::Operated(Err(MountError::TargetBusy)));
    assert!(matches!(action, Action::Finish));
    assert_eq!(pass.outcomes, vec![Outcome::UnmountFailed(MountError::TargetBusy)]);
    r.end_pass(&pass);
    assert_eq!(applied_set(&r, Role::PrivilegedApp), hs(&["p"]));
}

#[test]
fn already_unmounted_counts_as_done() {
    let mut r = Reconciler::new();
    r.applied = Applied::Known(app(&["s"], &[]));
    let (mut pass, _) = r.start_pass(Ok(app(&[], &[]))).unwrap();
    let action = pass.step(Event::Inspected(false));
    assert!(matches!(action, Action::Finish));
    assert_eq!(pass.outcomes, vec![Outcome::AlreadyUnmounted]);
    r.end_pass(&pass);
    assert!(applied_set(&r, Role::SystemApp).is_empty());
}

#[test]
fn inspector_failure_is_per_package() {
    let mut r = Reconciler::new();
    let (mut pass, action) = r.start_pass(Ok(app(&["q"], &[]))).unwrap();
    assert!(matches!(action, Action::Resolve { .. }));
    let action = pass.step(Event::Resolved(Some("/data/app/q".to_string())));
    assert!(matches!(action, Action::Inspect { .. }));
    assert!(!pass.expects_event(&Event::Operated(Ok(()))));
    let action = pass.step(Event::InspectorFailed);
    assert!(matches!(action, Action::Finish));
    assert_eq!(pass.outcomes, vec![Outcome::InspectFailed]);
    r.end_pass(&pass);
    assert!(applied_set(&r, Role::SystemApp).is_empty());
}

#[test]
fn failed_reload_keeps_declared_state() {
    let mut r = Reconciler::new();
    let mut w = World::default();
    w.install("a", "/data/app/a");
    run_pass(&mut r, app(&["a"], &[]), &mut w);
    for e in [ConfigError::Unavailable, ConfigError::Malformed] {
        assert_eq!(r.start_pass(Err(e)).err(), Some(e));
        assert_eq!(set_of(&r.config.app, Role::SystemApp), hs(&["a"]));
        assert_eq!(applied_set(&r, Role::SystemApp), hs(&["a"]));
    }
}

#[test]
fn errno_classification() {
    assert_eq!(MountError::from_errno(1), MountError::PermissionDenied);
    assert_eq!(MountError::from_errno(13), MountError::PermissionDenied);
    assert_eq!(MountError::from_errno(16), MountError::TargetBusy);
    assert_eq!(MountError::from_errno(2), MountError::SourceUnavailable);
    assert_eq!(MountError::from_errno(5), MountError::Other);
}

#[test]
fn unmount_of_absent_target_succeeds() {
    assert_eq!(unmount_result(None), Ok(()));
    assert_eq!(unmount_result(Some(22)), Ok(()));
    assert_eq!(unmount_result(Some(2)), Ok(()));
    assert_eq!(unmount_result(Some(16)), Err(MountError::TargetBusy));
    assert_eq!(unmount_result(Some(1)), Err(MountError::PermissionDenied));
}
