//! The state the reconciliation loop keeps between passes.

use vstd::prelude::*;

use crate::config::{App, Config, ConfigError, Role};
use crate::pass::{applied_after, Action, Pass};
use crate::plan::{plan_of, Applied};

verus! {

/// The declared packages and what the last passes applied. Nothing of it is
/// persisted: a new process starts with nothing known as applied.
pub struct Reconciler {
    pub config: Config,
    pub applied: Applied,
}

impl Reconciler {
    /// Each set names each package once.
    pub open spec fn wf(&self) -> bool {
        self.config.app.wf() && self.applied.wf()
    }

    /// Nothing declared, nothing known as applied.
    pub fn new() -> (r: Reconciler)
        ensures
            r.wf(),
            r.applied is Unknown,
            r.config.app.set(Role::SystemApp) == Set::<Seq<char>>::empty(),
            r.config.app.set(Role::PrivilegedApp) == Set::<Seq<char>>::empty(),
    {
        Reconciler { config: Config::new(), applied: Applied::Unknown }
    }

    /// Takes the result of reloading the configuration and, when it
    /// succeeded, starts a pass towards it. A failed reload keeps the declared
    /// packages and the applied state as they were and hands the failure back.
    pub fn start_pass(&mut self, loaded: Result<App, ConfigError>) -> (r: Result<
        (Pass, Action),
        ConfigError,
    >)
        requires
            old(self).wf(),
            loaded is Ok ==> loaded->Ok_0.wf(),
        ensures
            final(self).wf(),
            final(self).applied == old(self).applied,
            match loaded {
                Ok(app) => {
                    &&& final(self).config.app == app
                    &&& r is Ok
                    &&& r->Ok_0.0.wf()
                    &&& r->Ok_0.0.desired@ == app
                    &&& r->Ok_0.0.base.same(&old(self).applied)
                    &&& plan_of(r->Ok_0.0.tasks@, &app, &old(self).applied)
                    &&& r->Ok_0.0.outcomes@.len() == 0
                    &&& !r->Ok_0.0.aborted
                    &&& (r->Ok_0.0.stage, r->Ok_0.1) == Pass::next_after(r->Ok_0.0.tasks@, 0)
                },
                Err(e) => {
                    &&& final(self).config.app == old(self).config.app
                    &&& r == Err::<(Pass, Action), ConfigError>(e)
                },
            },
    {
        match self.config.load_config(loaded) {
            Ok(()) => Ok(Pass::begin(&self.config.app, &self.applied)),
            Err(e) => Err(e),
        }
    }

    /// Takes the applied state that a pass left. A finished pass replaces it;
    /// a dropped pass leaves it as it was.
    pub fn end_pass(&mut self, pass: &Pass)
        requires
            old(self).wf(),
            pass.wf(),
            pass.finished() || pass.aborted,
        ensures
            final(self).wf(),
            final(self).config == old(self).config,
            pass.aborted ==> final(self).applied == old(self).applied,
            pass.finished() ==> final(self).applied is Known && forall|role: Role|
                #[trigger] final(self).applied.set(role) == applied_after(
                    pass.base.set(role),
                    pass.tasks@,
                    pass.outcomes@,
                    role,
                ),
    {
        if !pass.aborted {
            self.applied = Applied::Known(pass.finish());
        }
    }
}

} // verus!
