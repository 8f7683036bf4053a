//! The startup sequence of a service as a state machine.
//!
//! The phases run in one fixed order: configure, mount, template, build, ignite, launch. Within
//! a phase the modules are visited in registration order. The machine names the step to perform
//! now and is told how it went; the first failure ends the sequence. Liftoff happens while the
//! launch step is pending and never changes what is pending or how the sequence ends.
//!
//! The machine knows the modules by their number only. [`crate::backend::Backend`] holds the
//! modules beside the machine and calls their hooks as the machine says.

use vstd::prelude::*;

verus! {

/// One unit of work of the startup sequence. `module` counts the registered modules from zero,
/// in registration order.
#[derive(Clone, Copy, Debug, PartialEq, Eq, Structural)]
pub enum Step {
    /// Apply address, port and identity to the server builder.
    Configure,
    /// Mount the routes of one module under its base path.
    Mount { module: usize },
    /// Give the server its template engine, to be set up when the server ignites.
    Template,
    /// Run the build hook of one module, threading the server builder through it.
    Build { module: usize },
    /// Take the server from built to ready to launch.
    IgniteServer,
    /// Run the ignite hook of one module.
    Ignite { module: usize },
    /// Start the server and block until it terminates.
    Launch,
}

/// Where the sequence stands: the last phase that is complete.
#[derive(Clone, Copy, Debug, PartialEq, Eq, Structural)]
pub enum Stage {
    Created,
    Configured,
    Mounted,
    TemplateReady,
    Built,
    Ignited,
    Running,
    Terminated,
    Failed,
}

/// A liftoff hook that reported an error. It is reported, nothing more.
#[derive(Debug, PartialEq, Eq)]
pub struct LiftoffFailure {
    pub module: usize,
    pub message: String,
}

/// The machine as a mathematical value.
pub struct State {
    /// How many modules are registered.
    pub modules: usize,
    /// The step to perform now; `None` once the sequence has ended.
    pub pending: Option<Step>,
    /// Whether the server has reported that it is live.
    pub live: bool,
    /// How the sequence ended; `None` while a step is pending.
    pub verdict: Option<Result<(), Seq<char>>>,
}

/// The outcome of a step as the machine sees it: success, or the message of the failure.
pub open spec fn outcome_view(outcome: Result<(), String>) -> Result<(), Seq<char>> {
    match outcome {
        Ok(_) => Ok(()),
        Err(message) => Err(message@),
    }
}

/// The verdict as the machine holds it.
pub open spec fn verdict_view(verdict: Option<Result<(), String>>) -> Option<
    Result<(), Seq<char>>,
> {
    match verdict {
        Some(outcome) => Some(outcome_view(outcome)),
        None => None,
    }
}

/// The state before anything has run.
pub open spec fn initial(modules: usize) -> State {
    State { modules, pending: Some(Step::Configure), live: false, verdict: None }
}

/// The step that follows `step` when `step` succeeds; `None` after the launch. A phase that
/// visits the modules goes from one module to the next and, after the last, on to the next
/// phase; with no module registered it is passed through at once.
pub open spec fn successor(step: Step, modules: usize) -> Option<Step> {
    match step {
        Step::Configure => Some(
            if modules > 0 {
                Step::Mount { module: 0 }
            } else {
                Step::Template
            },
        ),
        Step::Mount { module } => Some(
            if module + 1 < modules {
                Step::Mount { module: (module + 1) as usize }
            } else {
                Step::Template
            },
        ),
        Step::Template => Some(
            if modules > 0 {
                Step::Build { module: 0 }
            } else {
                Step::IgniteServer
            },
        ),
        Step::Build { module } => Some(
            if module + 1 < modules {
                Step::Build { module: (module + 1) as usize }
            } else {
                Step::IgniteServer
            },
        ),
        Step::IgniteServer => Some(
            if modules > 0 {
                Step::Ignite { module: 0 }
            } else {
                Step::Launch
            },
        ),
        Step::Ignite { module } => Some(
            if module + 1 < modules {
                Step::Ignite { module: (module + 1) as usize }
            } else {
                Step::Launch
            },
        ),
        Step::Launch => None,
    }
}

/// The state after the pending step ended with `outcome`. A success moves on to the successor,
/// a failure ends the sequence with its message, and a sequence that has ended stays as it is.
pub open spec fn after(state: State, outcome: Result<(), Seq<char>>) -> State {
    match state.pending {
        None => state,
        Some(step) => match outcome {
            Ok(_) => match successor(step, state.modules) {
                Some(next) => State { pending: Some(next), ..state },
                None => State { pending: None, verdict: Some(Ok(())), ..state },
            },
            Err(message) => State { pending: None, verdict: Some(Err(message)), ..state },
        },
    }
}

/// The state after the server reported that it is live. Only a pending launch can go live.
pub open spec fn lifted(state: State) -> State {
    State { live: state.live || state.pending == Some(Step::Launch), ..state }
}

/// The stage that a state stands for.
pub open spec fn stage_of(state: State) -> Stage {
    match state.pending {
        Some(Step::Configure) => Stage::Created,
        Some(Step::Mount { .. }) => Stage::Configured,
        Some(Step::Template) => Stage::Mounted,
        Some(Step::Build { .. }) => Stage::TemplateReady,
        Some(Step::IgniteServer) => Stage::Built,
        Some(Step::Ignite { .. }) => Stage::Built,
        Some(Step::Launch) => if state.live {
            Stage::Running
        } else {
            Stage::Ignited
        },
        None => match state.verdict {
            Some(Err(_)) => if state.live {
                Stage::Terminated
            } else {
                Stage::Failed
            },
            _ => Stage::Terminated,
        },
    }
}

/// Whether `step` names a registered module, where it names one.
pub open spec fn in_range(step: Step, modules: usize) -> bool {
    match step {
        Step::Mount { module } => module < modules,
        Step::Build { module } => module < modules,
        Step::Ignite { module } => module < modules,
        _ => true,
    }
}

/// The module that a step visits, for a step of a phase that visits the modules.
pub open spec fn module_of(step: Step) -> Option<usize> {
    match step {
        Step::Mount { module } => Some(module),
        Step::Build { module } => Some(module),
        Step::Ignite { module } => Some(module),
        _ => None,
    }
}

/// The step of the same phase as `step` that visits `module`.
pub open spec fn same_phase(step: Step, module: usize) -> Step {
    match step {
        Step::Mount { .. } => Step::Mount { module },
        Step::Build { .. } => Step::Build { module },
        Step::Ignite { .. } => Step::Ignite { module },
        _ => step,
    }
}

/// The step that follows the phase of `step`, for a step of a phase that visits the modules.
pub open spec fn phase_exit(step: Step) -> Step {
    match step {
        Step::Mount { .. } => Step::Template,
        Step::Build { .. } => Step::IgniteServer,
        Step::Ignite { .. } => Step::Launch,
        _ => step,
    }
}

/// What holds of every state that the machine reaches.
pub open spec fn well_formed(state: State) -> bool {
    &&& state.pending is None <==> state.verdict is Some
    &&& state.pending matches Some(step) ==> in_range(step, state.modules)
    &&& state.live ==> state.pending is None || state.pending == Some(Step::Launch)
}

/// The liftoff hooks that failed, in registration order, each with its module and message.
pub open spec fn liftoff_failures(outcomes: Seq<Result<(), String>>) -> Seq<(usize, Seq<char>)>
    decreases outcomes.len(),
{
    if outcomes.len() == 0 {
        Seq::empty()
    } else {
        let earlier = liftoff_failures(outcomes.drop_last());
        match outcomes.last() {
            Ok(_) => earlier,
            Err(message) => earlier.push(((outcomes.len() - 1) as usize, message@)),
        }
    }
}

/// A reported failure as a pair of module and message.
pub open spec fn failure_view(failure: LiftoffFailure) -> (usize, Seq<char>) {
    (failure.module, failure.message@)
}

/// The startup sequence of one service.
pub struct Lifecycle {
    modules: usize,
    pending: Option<Step>,
    live: bool,
    verdict: Option<Result<(), String>>,
}

impl View for Lifecycle {
    type V = State;

    closed spec fn view(&self) -> State {
        State {
            modules: self.modules,
            pending: self.pending,
            live: self.live,
            verdict: verdict_view(self.verdict),
        }
    }
}

impl Lifecycle {
    #[verifier::type_invariant]
    spec fn valid(&self) -> bool {
        well_formed(self@)
    }

    /// A sequence for `modules` registered modules, with nothing done yet.
    pub fn new(modules: usize) -> (r: Lifecycle)
        ensures
            r@ == initial(modules),
    {
        Lifecycle { modules, pending: Some(Step::Configure), live: false, verdict: None }
    }

    /// The step to perform now, or `None` once the sequence has ended. A step that names a
    /// module names a registered one.
    pub fn pending(&self) -> (r: Option<Step>)
        ensures
            r == self@.pending,
            r matches Some(step) ==> in_range(step, self@.modules),
            well_formed(self@),
    {
        proof {
            use_type_invariant(self);
        }
        self.pending
    }

    /// Reports how the pending step went. Success moves on to the next step, in the order of
    /// [`successor`]; an error ends the sequence with its message, and no later step becomes
    /// pending. Once the sequence has ended a report changes nothing.
    pub fn complete(&mut self, outcome: Result<(), String>)
        ensures
            final(self)@ == after(old(self)@, outcome_view(outcome)),
        no_unwind
    {
        proof {
            use_type_invariant(&*self);
        }
        let step = match self.pending {
            Some(step) => step,
            None => {
                return ;
            },
        };
        match outcome {
            Ok(_) => {
                let next = Self::next_step(step, self.modules);
                match next {
                    Some(_) => {
                        self.pending = next;
                    },
                    None => {
                        *self = Lifecycle {
                            modules: self.modules,
                            pending: None,
                            live: self.live,
                            verdict: Some(Ok(())),
                        };
                    },
                }
            },
            Err(message) => {
                *self = Lifecycle {
                    modules: self.modules,
                    pending: None,
                    live: self.live,
                    verdict: Some(Err(message)),
                };
            },
        }
    }

    /// Takes note that the server is live. Only a pending launch goes live; the pending step
    /// and the verdict stay as they were.
    pub fn go_live(&mut self)
        ensures
            final(self)@ == lifted(old(self)@),
        no_unwind
    {
        proof {
            use_type_invariant(&*self);
        }
        match self.pending {
            Some(Step::Launch) => {
                self.live = true;
            },
            _ => {},
        }
    }

    /// The failures among the outcomes of the liftoff hooks, one outcome per module in
    /// registration order, for reporting.
    pub fn report(outcomes: &Vec<Result<(), String>>) -> (r: Vec<LiftoffFailure>)
        ensures
            r@.map_values(|f: LiftoffFailure| failure_view(f)) == liftoff_failures(outcomes@),
    {
        let mut failures: Vec<LiftoffFailure> = Vec::new();
        let mut i: usize = 0;
        while i < outcomes.len()
            invariant
                i <= outcomes@.len(),
                failures@.map_values(|f: LiftoffFailure| failure_view(f)) == liftoff_failures(
                    outcomes@.take(i as int),
                ),
            decreases outcomes@.len() - i,
        {
            proof {
                assert(outcomes@.take(i + 1).drop_last() == outcomes@.take(i as int));
            }
            match &outcomes[i] {
                Ok(_) => {},
                Err(message) => {
                    let ghost before = failures@;
                    failures.push(LiftoffFailure { module: i, message: message.clone() });
                    proof {
                        assert(failures@.map_values(|f: LiftoffFailure| failure_view(f))
                            == before.map_values(|f: LiftoffFailure| failure_view(f)).push(
                            (i, message@),
                        ));
                    }
                },
            }
            i = i + 1;
        }
        proof {
            assert(outcomes@.take(outcomes@.len() as int) == outcomes@);
        }
        failures
    }

    /// Takes note that the server is live and that the liftoff hooks, one per module in
    /// registration order, ended with `outcomes`. Returns the failures for reporting. Whatever
    /// the hooks reported, the pending step and the verdict stay as they were.
    pub fn liftoff(&mut self, outcomes: &Vec<Result<(), String>>) -> (r: Vec<LiftoffFailure>)
        ensures
            final(self)@ == lifted(old(self)@),
            r@.map_values(|f: LiftoffFailure| failure_view(f)) == liftoff_failures(outcomes@),
    {
        self.go_live();
        Self::report(outcomes)
    }

    /// How many modules the sequence visits in each phase.
    pub fn modules(&self) -> (r: usize)
        ensures
            r == self@.modules,
    {
        self.modules
    }

    /// Where the sequence stands.
    pub fn stage(&self) -> (r: Stage)
        ensures
            r == stage_of(self@),
    {
        proof {
            use_type_invariant(self);
        }
        match self.pending {
            Some(Step::Configure) => Stage::Created,
            Some(Step::Mount { .. }) => Stage::Configured,
            Some(Step::Template) => Stage::Mounted,
            Some(Step::Build { .. }) => Stage::TemplateReady,
            Some(Step::IgniteServer) => Stage::Built,
            Some(Step::Ignite { .. }) => Stage::Built,
            Some(Step::Launch) => if self.live {
                Stage::Running
            } else {
                Stage::Ignited
            },
            None => match &self.verdict {
                Some(Err(_)) => if self.live {
                    Stage::Terminated
                } else {
                    Stage::Failed
                },
                _ => Stage::Terminated,
            },
        }
    }

    /// How the sequence ended: `None` while a step is pending, then success or the message of
    /// the failure that ended it.
    pub fn verdict(&self) -> (r: Option<Result<(), String>>)
        ensures
            verdict_view(r) == self@.verdict,
            r is None <==> self@.pending is Some,
    {
        proof {
            use_type_invariant(self);
        }
        match &self.verdict {
            None => None,
            Some(Ok(_)) => Some(Ok(())),
            Some(Err(message)) => Some(Err(message.clone())),
        }
    }

    /// The step after `step`, for a step that names a registered module where it names one.
    fn next_step(step: Step, modules: usize) -> (r: Option<Step>)
        requires
            in_range(step, modules),
        ensures
            r == successor(step, modules),
            r matches Some(next) ==> in_range(next, modules),
            r is None <==> step == Step::Launch,
        no_unwind
    {
        match step {
            Step::Configure => if modules > 0 {
                Some(Step::Mount { module: 0 })
            } else {
                Some(Step::Template)
            },
            Step::Mount { module } => if module + 1 < modules {
                Some(Step::Mount { module: module + 1 })
            } else {
                Some(Step::Template)
            },
            Step::Template => if modules > 0 {
                Some(Step::Build { module: 0 })
            } else {
                Some(Step::IgniteServer)
            },
            Step::Build { module } => if module + 1 < modules {
                Some(Step::Build { module: module + 1 })
            } else {
                Some(Step::IgniteServer)
            },
            Step::IgniteServer => if modules > 0 {
                Some(Step::Ignite { module: 0 })
            } else {
                Some(Step::Launch)
            },
            Step::Ignite { module } => if module + 1 < modules {
                Some(Step::Ignite { module: module + 1 })
            } else {
                Some(Step::Launch)
            },
            Step::Launch => None,
        }
    }
}

} // verus!
