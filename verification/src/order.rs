//! What holds of every run of the startup sequence.
//!
//! A run feeds the machine one outcome after another. The laws below say which steps such a run
//! performs, in which order, where it stops and how it ends.

use vstd::prelude::*;
use crate::lifecycle::{
    after, initial, lifted, liftoff_failures, module_of, phase_exit, same_phase, stage_of,
    successor, well_formed, Stage, State, Step,
};

verus! {

/// The steps of a run in which nothing fails: the phases in their fixed order and, within each
/// phase that visits the modules, every module once, in registration order.
#[verifier::opaque]
pub open spec fn plan(modules: usize) -> Seq<Step> {
    seq![Step::Configure] + Seq::new(modules as nat, |i: int| Step::Mount { module: i as usize })
        + seq![Step::Template] + Seq::new(
        modules as nat,
        |i: int| Step::Build { module: i as usize },
    ) + seq![Step::IgniteServer] + Seq::new(
        modules as nat,
        |i: int| Step::Ignite { module: i as usize },
    ) + seq![Step::Launch]
}

/// The state after the outcomes were reported one by one, starting from `state`.
pub open spec fn run(state: State, outcomes: Seq<Result<(), Seq<char>>>) -> State
    decreases outcomes.len(),
{
    if outcomes.len() == 0 {
        state
    } else {
        after(run(state, outcomes.drop_last()), outcomes.last())
    }
}

/// The steps that were performed for those reports: the step that was pending when each
/// outcome came in. A report that comes in after the end stands for no step.
pub open spec fn performed(state: State, outcomes: Seq<Result<(), Seq<char>>>) -> Seq<Step>
    decreases outcomes.len(),
{
    if outcomes.len() == 0 {
        Seq::empty()
    } else {
        let earlier = performed(state, outcomes.drop_last());
        match run(state, outcomes.drop_last()).pending {
            Some(step) => earlier.push(step),
            None => earlier,
        }
    }
}

/// The position of the first failure among the outcomes.
pub open spec fn first_failure(outcomes: Seq<Result<(), Seq<char>>>) -> Option<int>
    decreases outcomes.len(),
{
    if outcomes.len() == 0 {
        None
    } else {
        match first_failure(outcomes.drop_last()) {
            Some(k) => Some(k),
            None => if outcomes.last() is Err {
                Some(outcomes.len() - 1)
            } else {
                None
            },
        }
    }
}

/// How a run over all of `outcomes` ends: with the first failure, if there is one.
pub open spec fn verdict_of(outcomes: Seq<Result<(), Seq<char>>>) -> Result<(), Seq<char>> {
    match first_failure(outcomes) {
        Some(k) => outcomes[k],
        None => Ok(()),
    }
}

/// The outcomes of a run with one more module, registered at position `at`, whose three hooks
/// all succeed; `outcomes` are those of a full run with `modules` modules.
pub open spec fn with_idle_module(
    outcomes: Seq<Result<(), Seq<char>>>,
    modules: usize,
    at: int,
) -> Seq<Result<(), Seq<char>>> {
    outcomes.insert(1 + at, Ok(())).insert(modules + 3 + at, Ok(())).insert(
        2 * modules + 5 + at,
        Ok(()),
    )
}

/// The plan has one step for each phase of the server and three for each module.
pub proof fn lemma_plan_length(modules: usize)
    ensures
        plan(modules).len() == 3 * modules + 4,
{
    reveal(plan);
}

/// Where each step stands in the plan.
pub proof fn lemma_plan_index(modules: usize, p: int)
    requires
        0 <= p < 3 * modules + 4,
    ensures
        plan(modules)[p] == if p == 0 {
            Step::Configure
        } else if p <= modules {
            Step::Mount { module: (p - 1) as usize }
        } else if p == modules + 1 {
            Step::Template
        } else if p <= 2 * modules + 1 {
            Step::Build { module: (p - modules - 2) as usize }
        } else if p == 2 * modules + 2 {
            Step::IgniteServer
        } else if p <= 3 * modules + 2 {
            Step::Ignite { module: (p - 2 * modules - 3) as usize }
        } else {
            Step::Launch
        },
{
    reveal(plan);
}

/// The machine walks the plan: it starts at the plan's first step, the successor of each step
/// is the next step of the plan, and the last step has none.
pub proof fn lemma_successor_follows_plan(modules: usize, p: int)
    requires
        0 <= p < plan(modules).len(),
    ensures
        initial(modules).pending == Some(plan(modules)[0]),
        successor(plan(modules)[p], modules) == if p + 1 < plan(modules).len() {
            Some(plan(modules)[p + 1])
        } else {
            None
        },
{
    lemma_plan_length(modules);
    lemma_plan_index(modules, 0);
    lemma_plan_index(modules, p);
    if p + 1 < plan(modules).len() {
        lemma_plan_index(modules, p + 1);
    }
}

/// The first failure is a failure, and no outcome before it is one.
pub proof fn lemma_first_failure(outcomes: Seq<Result<(), Seq<char>>>)
    ensures
        match first_failure(outcomes) {
            Some(k) => {
                &&& 0 <= k < outcomes.len()
                &&& outcomes[k] is Err
                &&& forall|j: int| 0 <= j < k ==> outcomes[j] is Ok
            },
            None => forall|j: int| 0 <= j < outcomes.len() ==> outcomes[j] is Ok,
        },
    decreases outcomes.len(),
{
    if outcomes.len() > 0 {
        let earlier = outcomes.drop_last();
        lemma_first_failure(earlier);
        assert forall|j: int| 0 <= j < earlier.len() implies outcomes[j] == earlier[j] by {}
    }
}

/// The state of a run that has ended with `verdict`.
pub open spec fn ended(modules: usize, verdict: Result<(), Seq<char>>) -> State {
    State { modules, pending: None, live: false, verdict: Some(verdict) }
}

/// The state of a run that has performed the first `done` steps of the plan without failure.
pub open spec fn reached(modules: usize, done: int) -> State {
    if done < plan(modules).len() {
        State { modules, pending: Some(plan(modules)[done]), live: false, verdict: None }
    } else {
        ended(modules, Ok(()))
    }
}

proof fn lemma_run_from_start(modules: usize, outcomes: Seq<Result<(), Seq<char>>>)
    ensures
        match first_failure(outcomes) {
            Some(k) if k < plan(modules).len() => {
                &&& run(initial(modules), outcomes) == ended(modules, outcomes[k])
                &&& performed(initial(modules), outcomes) == plan(modules).take(k + 1)
            },
            _ => if outcomes.len() < plan(modules).len() {
                &&& run(initial(modules), outcomes) == reached(modules, outcomes.len() as int)
                &&& performed(initial(modules), outcomes) == plan(modules).take(
                    outcomes.len() as int,
                )
            } else {
                &&& run(initial(modules), outcomes) == ended(modules, Ok(()))
                &&& performed(initial(modules), outcomes) == plan(modules)
            },
        },
    decreases outcomes.len(),
{
    let steps = plan(modules);
    lemma_plan_length(modules);
    if outcomes.len() == 0 {
        lemma_plan_index(modules, 0);
        assert(steps.take(0) =~= Seq::<Step>::empty());
    } else {
        let earlier = outcomes.drop_last();
        let done = earlier.len() as int;
        lemma_run_from_start(modules, earlier);
        lemma_first_failure(earlier);
        lemma_first_failure(outcomes);
        if first_failure(earlier) is None && done < steps.len() {
            lemma_successor_follows_plan(modules, done);
            assert(steps.take(done).push(steps[done]) =~= steps.take(done + 1));
            if done + 1 == steps.len() {
                assert(steps.take(done + 1) =~= steps);
            }
        }
    }
}

/// Registration order: as long as nothing fails, the steps performed are the plan from its
/// start, step by step, and the step that is pending next is the plan's next step. After the
/// last step the run has ended in success.
pub proof fn lemma_run_follows_plan(modules: usize, outcomes: Seq<Result<(), Seq<char>>>)
    requires
        first_failure(outcomes) is None,
        outcomes.len() <= plan(modules).len(),
    ensures
        performed(initial(modules), outcomes) == plan(modules).take(outcomes.len() as int),
        run(initial(modules), outcomes) == reached(modules, outcomes.len() as int),
{
    lemma_run_from_start(modules, outcomes);
    assert(plan(modules).take(plan(modules).len() as int) =~= plan(modules));
}

/// Short-circuit: the first failure ends the run. The failed step is the last one performed,
/// however many outcomes are reported after it, and its outcome is the verdict. The server
/// never went live, so the run ends in the stage `Failed`.
pub proof fn lemma_first_failure_ends_run(
    modules: usize,
    outcomes: Seq<Result<(), Seq<char>>>,
    k: int,
)
    requires
        first_failure(outcomes) == Some(k),
        k < plan(modules).len(),
    ensures
        performed(initial(modules), outcomes) == plan(modules).take(k + 1),
        run(initial(modules), outcomes) == ended(modules, outcomes[k]),
        stage_of(run(initial(modules), outcomes)) == Stage::Failed,
{
    lemma_run_from_start(modules, outcomes);
    lemma_first_failure(outcomes);
}

/// Short-circuit at build: when the build hook of module `failed` is the first step to fail,
/// no build hook of a later module runs, and neither the server nor any module is ignited or
/// launched.
pub proof fn lemma_build_failure_skips_the_rest(
    modules: usize,
    outcomes: Seq<Result<(), Seq<char>>>,
    failed: usize,
)
    requires
        failed < modules,
        first_failure(outcomes) == Some(modules + 2 + failed),
    ensures
        performed(initial(modules), outcomes).last() == (Step::Build { module: failed }),
        forall|i: int|
            0 <= i < performed(initial(modules), outcomes).len() ==> match #[trigger] performed(
                initial(modules),
                outcomes,
            )[i] {
                Step::Build { module } => module <= failed,
                Step::IgniteServer => false,
                Step::Ignite { .. } => false,
                Step::Launch => false,
                _ => true,
            },
{
    let k = modules + 2 + failed;
    lemma_plan_length(modules);
    lemma_first_failure_ends_run(modules, outcomes, k);
    let steps = performed(initial(modules), outcomes);
    assert(steps.len() == k + 1);
    assert forall|i: int| 0 <= i < steps.len() implies match #[trigger] steps[i] {
        Step::Build { module } => module <= failed,
        Step::IgniteServer => false,
        Step::Ignite { .. } => false,
        Step::Launch => false,
        _ => true,
    } by {
        lemma_plan_index(modules, i);
    }
    lemma_plan_index(modules, k);
}

/// Once a run has ended, further reports change nothing and stand for no step.
pub proof fn lemma_ended_run_stays(state: State, outcomes: Seq<Result<(), Seq<char>>>)
    requires
        state.pending is None,
    ensures
        run(state, outcomes) == state,
        performed(state, outcomes) == Seq::<Step>::empty(),
    decreases outcomes.len(),
{
    if outcomes.len() > 0 {
        lemma_ended_run_stays(state, outcomes.drop_last());
    }
}

/// Every registered module is mounted, each by a step of its own: the mount phase has one
/// step per module, whatever the modules are and under whichever base paths they stand.
pub proof fn lemma_every_module_is_mounted(modules: usize, module: usize)
    requires
        module < modules,
    ensures
        plan(modules)[1 + module] == (Step::Mount { module }),
        forall|p: int|
            0 <= p < plan(modules).len() && #[trigger] plan(modules)[p] == (Step::Mount {
                module,
            }) ==> p == 1 + module,
{
    lemma_plan_length(modules);
    lemma_plan_index(modules, 1 + module);
    assert forall|p: int|
        0 <= p < plan(modules).len() && #[trigger] plan(modules)[p] == (Step::Mount {
            module,
        }) implies p == 1 + module by {
        lemma_plan_index(modules, p);
    }
}

/// Liftoff decides nothing: going live leaves the pending step and the verdict as they are,
/// and the outcome of the next step is taken exactly as it would have been.
pub proof fn lemma_liftoff_decides_nothing(state: State, outcome: Result<(), Seq<char>>)
    ensures
        lifted(state).pending == state.pending,
        lifted(state).verdict == state.verdict,
        after(lifted(state), outcome).pending == after(state, outcome).pending,
        after(lifted(state), outcome).verdict == after(state, outcome).verdict,
{
}

/// A success among the outcomes, wherever it stands, does not change which failure is the
/// first.
pub proof fn lemma_success_is_no_failure(outcomes: Seq<Result<(), Seq<char>>>, at: int)
    requires
        0 <= at <= outcomes.len(),
    ensures
        first_failure(outcomes.insert(at, Ok(()))) == match first_failure(outcomes) {
            Some(k) => Some(
                if k < at {
                    k
                } else {
                    k + 1
                },
            ),
            None => None,
        },
        verdict_of(outcomes.insert(at, Ok(()))) == verdict_of(outcomes),
    decreases outcomes.len(),
{
    let longer = outcomes.insert(at, Ok(()));
    lemma_first_failure(outcomes);
    if at == outcomes.len() {
        assert(longer.drop_last() =~= outcomes);
    } else {
        let earlier = outcomes.drop_last();
        assert(longer.drop_last() =~= earlier.insert(at, Ok(())));
        lemma_success_is_no_failure(earlier, at);
        lemma_first_failure(earlier);
    }
}

/// First error wins: a run over one outcome for every step of the plan ends with the first
/// failure among them, or in success if there is none.
pub proof fn lemma_full_run_verdict(modules: usize, outcomes: Seq<Result<(), Seq<char>>>)
    requires
        outcomes.len() == plan(modules).len(),
    ensures
        run(initial(modules), outcomes) == ended(modules, verdict_of(outcomes)),
{
    lemma_run_from_start(modules, outcomes);
    lemma_first_failure(outcomes);
}

/// A step as it reads once the module at position `at` is taken out of the registry: a step
/// of that module is no step any more, and the modules behind it move up by one.
pub open spec fn forget(step: Step, at: usize) -> Option<Step> {
    match step {
        Step::Mount { module } => if module == at {
            None
        } else if module > at {
            Some(Step::Mount { module: (module - 1) as usize })
        } else {
            Some(step)
        },
        Step::Build { module } => if module == at {
            None
        } else if module > at {
            Some(Step::Build { module: (module - 1) as usize })
        } else {
            Some(step)
        },
        Step::Ignite { module } => if module == at {
            None
        } else if module > at {
            Some(Step::Ignite { module: (module - 1) as usize })
        } else {
            Some(step)
        },
        _ => Some(step),
    }
}

/// The steps as they read once the module at position `at` is taken out of the registry.
pub open spec fn without_module(steps: Seq<Step>, at: usize) -> Seq<Step>
    decreases steps.len(),
{
    if steps.len() == 0 {
        Seq::empty()
    } else {
        match forget(steps.last(), at) {
            Some(step) => without_module(steps.drop_last(), at).push(step),
            None => without_module(steps.drop_last(), at),
        }
    }
}

/// How many steps of the module at position `at` stand among the first `upto` steps of the
/// plan for one module more than `modules`.
pub open spec fn idle_steps(modules: usize, at: usize, upto: int) -> int {
    (if upto > 1 + at {
        1int
    } else {
        0int
    }) + (if upto > modules + 3 + at {
        1int
    } else {
        0int
    }) + (if upto > 2 * modules + 5 + at {
        1int
    } else {
        0int
    })
}

/// The step of a module in each of the three phases that visit the modules, and the steps of
/// the server between them.
proof fn lemma_plan_places(modules: usize, module: int)
    requires
        0 <= module < modules,
    ensures
        plan(modules)[1 + module] == (Step::Mount { module: module as usize }),
        plan(modules)[modules + 2 + module] == (Step::Build { module: module as usize }),
        plan(modules)[2 * modules + 3 + module] == (Step::Ignite { module: module as usize }),
{
    lemma_plan_index(modules, 1 + module);
    lemma_plan_index(modules, modules + 2 + module);
    lemma_plan_index(modules, 2 * modules + 3 + module);
}

/// The steps of the server in the plan.
proof fn lemma_plan_of_server(modules: usize)
    ensures
        plan(modules)[0] == Step::Configure,
        plan(modules)[modules + 1] == Step::Template,
        plan(modules)[2 * modules + 2] == Step::IgniteServer,
        plan(modules)[3 * modules + 3] == Step::Launch,
{
    lemma_plan_index(modules, 0);
    lemma_plan_index(modules, modules + 1);
    lemma_plan_index(modules, 2 * modules + 2);
    lemma_plan_index(modules, 3 * modules + 3);
}

/// One step of the plan with one module more, read without that module: a step of the module
/// is no step, and any other is the step of the plan without the module that stands as many
/// places earlier as steps of the module come before it.
proof fn lemma_forget_step(modules: usize, at: usize, p: int)
    requires
        modules < usize::MAX,
        at <= modules,
        0 <= p < 3 * modules + 7,
    ensures
        idle_steps(modules, at, p + 1) == idle_steps(modules, at, p) + (if forget(
            plan((modules + 1) as usize)[p],
            at,
        ) is None {
            1int
        } else {
            0int
        }),
        0 <= p - idle_steps(modules, at, p),
        forget(plan((modules + 1) as usize)[p], at) matches Some(step) ==> p - idle_steps(
            modules,
            at,
            p,
        ) < 3 * modules + 4 && step == plan(modules)[p - idle_steps(modules, at, p)],
{
    let more = (modules + 1) as usize;
    let step = plan(more)[p];
    lemma_plan_of_server(more);
    lemma_plan_of_server(modules);
    if 1 <= p <= more {
        let module = p - 1;
        lemma_plan_places(more, module);
        assert(step == Step::Mount { module: module as usize });
        if module < at {
            lemma_plan_places(modules, module);
        } else if module > at {
            lemma_plan_places(modules, module - 1);
        }
    } else if more + 2 <= p <= 2 * more + 1 {
        let module = p - more - 2;
        lemma_plan_places(more, module);
        assert(step == Step::Build { module: module as usize });
        if module < at {
            lemma_plan_places(modules, module);
        } else if module > at {
            lemma_plan_places(modules, module - 1);
        }
    } else if 2 * more + 3 <= p <= 3 * more + 2 {
        let module = p - 2 * more - 3;
        lemma_plan_places(more, module);
        assert(step == Step::Ignite { module: module as usize });
        if module < at {
            lemma_plan_places(modules, module);
        } else if module > at {
            lemma_plan_places(modules, module - 1);
        }
    }
}

/// The plan with one module more, cut anywhere and read without that module, is the plan
/// without it, cut where as many of its own steps have been performed.
proof fn lemma_plan_without_module(modules: usize, at: usize, upto: int)
    requires
        modules < usize::MAX,
        at <= modules,
        0 <= upto <= 3 * modules + 7,
    ensures
        0 <= upto - idle_steps(modules, at, upto) <= 3 * modules + 4,
        without_module(plan((modules + 1) as usize).take(upto), at) == plan(modules).take(
            upto - idle_steps(modules, at, upto),
        ),
    decreases upto,
{
    let more = (modules + 1) as usize;
    lemma_plan_length(modules);
    lemma_plan_length(more);
    if upto == 0 {
        assert(plan(more).take(0) =~= Seq::<Step>::empty());
        assert(plan(modules).take(0) =~= Seq::<Step>::empty());
    } else {
        let shorter = upto - 1;
        lemma_plan_without_module(modules, at, shorter);
        lemma_forget_step(modules, at, shorter);
        let cut = plan(more).take(upto);
        assert(cut.drop_last() =~= plan(more).take(shorter));
        assert(cut.last() == plan(more)[shorter]);
        let kept = shorter - idle_steps(modules, at, shorter);
        match forget(plan(more)[shorter], at) {
            Some(step) => {
                assert(plan(modules).take(kept).push(step) =~= plan(modules).take(kept + 1));
            },
            None => {},
        }
    }
}

/// Where an outcome stands once the three successes of one more module at position `at`
/// are put among the outcomes of a full run for `modules` modules.
pub open spec fn moved(modules: usize, at: usize, k: int) -> int {
    let first = if k < 1 + at {
        k
    } else {
        k + 1
    };
    let second = if first < modules + 3 + at {
        first
    } else {
        first + 1
    };
    if second < 2 * modules + 5 + at {
        second
    } else {
        second + 1
    }
}

/// An outcome moves by as many places as steps of the new module come before it.
proof fn lemma_moved(modules: usize, at: usize, k: int)
    requires
        at <= modules,
        0 <= k <= 3 * modules + 4,
    ensures
        moved(modules, at, k) == k + idle_steps(modules, at, moved(modules, at, k)),
        k < 3 * modules + 4 ==> moved(modules, at, k) + 1 - idle_steps(
            modules,
            at,
            moved(modules, at, k) + 1,
        ) == k + 1,
        moved(modules, at, k) <= 3 * modules + 7,
{
}

/// The outcomes with the successes of one more module among them: as many as the plan with
/// that module has steps, with the same first failure, moved to its new place.
proof fn lemma_with_idle_module(modules: usize, at: usize, outcomes: Seq<Result<(), Seq<char>>>)
    requires
        at <= modules,
        outcomes.len() == 3 * modules + 4,
    ensures
        with_idle_module(outcomes, modules, at as int).len() == 3 * modules + 7,
        with_idle_module(outcomes, modules, at as int)[1 + at] is Ok,
        with_idle_module(outcomes, modules, at as int)[modules + 3 + at] is Ok,
        with_idle_module(outcomes, modules, at as int)[2 * modules + 5 + at] is Ok,
        verdict_of(with_idle_module(outcomes, modules, at as int)) == verdict_of(outcomes),
        first_failure(with_idle_module(outcomes, modules, at as int)) == match first_failure(
            outcomes,
        ) {
            Some(k) => Some(moved(modules, at, k)),
            None => None,
        },
{
    let first = outcomes.insert(1 + at, Ok(()));
    let second = first.insert(modules + 3 + at, Ok(()));
    lemma_success_is_no_failure(outcomes, 1 + at);
    lemma_success_is_no_failure(first, modules + 3 + at);
    lemma_success_is_no_failure(second, 2 * modules + 5 + at);
}

/// A module that implements nothing changes nothing. Take a full run and register one more
/// module at position `at`, whose mount, build and ignite steps all succeed: the run ends with
/// the same verdict and in the same stage as without it, and the steps of the other modules
/// and of the server are performed exactly as without it.
pub proof fn lemma_idle_module_changes_nothing(
    modules: usize,
    at: usize,
    outcomes: Seq<Result<(), Seq<char>>>,
)
    requires
        modules < usize::MAX,
        at <= modules,
        outcomes.len() == plan(modules).len(),
    ensures
        ({
            let more = (modules + 1) as usize;
            let longer = with_idle_module(outcomes, modules, at as int);
            &&& longer.len() == plan(more).len()
            &&& plan(more)[1 + at] == (Step::Mount { module: at }) && longer[1 + at] is Ok
            &&& plan(more)[modules + 3 + at] == (Step::Build { module: at }) && longer[modules + 3
                + at] is Ok
            &&& plan(more)[2 * modules + 5 + at] == (Step::Ignite { module: at }) && longer[2
                * modules + 5 + at] is Ok
            &&& run(initial(more), longer).verdict == run(initial(modules), outcomes).verdict
            &&& stage_of(run(initial(more), longer)) == stage_of(run(initial(modules), outcomes))
            &&& without_module(performed(initial(more), longer), at) == performed(
                initial(modules),
                outcomes,
            )
        }),
{
    let more = (modules + 1) as usize;
    let longer = with_idle_module(outcomes, modules, at as int);
    lemma_plan_length(modules);
    lemma_plan_length(more);
    lemma_plan_index(more, 1 + at);
    lemma_plan_index(more, modules + 3 + at);
    lemma_plan_index(more, 2 * modules + 5 + at);
    lemma_with_idle_module(modules, at, outcomes);
    lemma_full_run_verdict(modules, outcomes);
    lemma_full_run_verdict(more, longer);
    lemma_first_failure(outcomes);
    lemma_run_from_start(modules, outcomes);
    lemma_run_from_start(more, longer);
    match first_failure(outcomes) {
        Some(k) => {
            let moved_to = moved(modules, at, k);
            lemma_moved(modules, at, k);
            lemma_plan_without_module(modules, at, moved_to + 1);
        },
        None => {
            lemma_plan_without_module(modules, at, 3 * modules + 7);
            assert(plan(more).take(3 * modules + 7) =~= plan(more));
            assert(plan(modules).take(3 * modules + 4) =~= plan(modules));
        },
    }
}

/// How far a stage is along the way from `Created` to the end.
pub open spec fn rank(stage: Stage) -> int {
    match stage {
        Stage::Created => 0,
        Stage::Configured => 1,
        Stage::Mounted => 2,
        Stage::TemplateReady => 3,
        Stage::Built => 4,
        Stage::Ignited => 5,
        Stage::Running => 6,
        Stage::Terminated => 7,
        Stage::Failed => 7,
    }
}

/// Every state that the machine reaches is well formed: the first one is, and neither a report
/// nor a liftoff leads out of the well-formed states.
pub proof fn lemma_well_formed_is_kept(modules: usize, state: State, outcome: Result<(), Seq<char>>)
    requires
        well_formed(state),
    ensures
        well_formed(initial(modules)),
        well_formed(after(state, outcome)),
        well_formed(lifted(state)),
{
}

/// The stages follow each other in one direction: no report and no liftoff takes the sequence
/// back to an earlier stage, and from `Terminated` and `Failed` it goes nowhere.
pub proof fn lemma_stages_advance(state: State, outcome: Result<(), Seq<char>>)
    requires
        well_formed(state),
    ensures
        rank(stage_of(state)) <= rank(stage_of(after(state, outcome))),
        rank(stage_of(state)) <= rank(stage_of(lifted(state))),
        state.pending is None ==> stage_of(after(state, outcome)) == stage_of(state) && stage_of(
            lifted(state),
        ) == stage_of(state),
        stage_of(state) == Stage::Running ==> stage_of(after(state, outcome)) == Stage::Terminated,
        stage_of(after(state, outcome)) == Stage::Failed ==> stage_of(state) != Stage::Running,
{
}

/// The report of a liftoff names the failed hooks and no others, each with its message, in
/// registration order.
pub proof fn lemma_liftoff_report(outcomes: Seq<Result<(), String>>)
    requires
        outcomes.len() <= usize::MAX,
    ensures
        forall|i: int|
            0 <= i < liftoff_failures(outcomes).len() ==> {
                let (module, message) = #[trigger] liftoff_failures(outcomes)[i];
                &&& module < outcomes.len()
                &&& outcomes[module as int] matches Err(text) && text@ == message
            },
        forall|i: int, j: int|
            0 <= i < j < liftoff_failures(outcomes).len() ==> (#[trigger] liftoff_failures(
                outcomes,
            )[i]).0 < (#[trigger] liftoff_failures(outcomes)[j]).0,
        forall|module: int|
            0 <= module < outcomes.len() && #[trigger] outcomes[module] is Err ==> exists|i: int|
                0 <= i < liftoff_failures(outcomes).len() && (#[trigger] liftoff_failures(
                    outcomes,
                )[i]).0 == module,
    decreases outcomes.len(),
{
    if outcomes.len() > 0 {
        let earlier = outcomes.drop_last();
        lemma_liftoff_report(earlier);
        let report = liftoff_failures(outcomes);
        let before = liftoff_failures(earlier);
        assert forall|module: int|
            0 <= module < outcomes.len() && #[trigger] outcomes[module] is Err implies exists|
            i: int,
        |
            0 <= i < report.len() && (#[trigger] report[i]).0 == module by {
            if module < earlier.len() {
                assert(earlier[module] is Err);
                let i = choose|i: int| 0 <= i < before.len() && (#[trigger] before[i]).0 == module;
                assert(report[i].0 == module);
            } else {
                assert(report[report.len() - 1].0 == module);
            }
        }
    }
}

/// As many successes as `count`.
pub open spec fn successes(count: nat) -> Seq<Result<(), Seq<char>>> {
    Seq::new(count, |i: int| Ok(()))
}

/// The steps of the phase of `step` for `count` modules, from the module `from` on.
pub open spec fn phase_steps(step: Step, from: usize, count: nat) -> Seq<Step> {
    Seq::new(count, |i: int| same_phase(step, (from + i) as usize))
}

/// A phase is its steps: while a step for the module `from` is pending, reporting a success for
/// each of the next `count` modules performs their steps in registration order and leaves
/// the step of the module after them pending or, after the last module, the step that follows
/// the phase.
pub proof fn lemma_phase_is_its_steps(state: State, step: Step, from: usize, count: nat)
    requires
        state.pending == Some(step),
        module_of(step) == Some(from),
        from < state.modules,
        from + count <= state.modules,
    ensures
        run(state, successes(count)) == (State {
            pending: Some(
                if from + count < state.modules {
                    same_phase(step, (from + count) as usize)
                } else {
                    phase_exit(step)
                },
            ),
            ..state
        }),
        performed(state, successes(count)) == phase_steps(step, from, count),
    decreases count,
{
    if count == 0 {
        assert(performed(state, successes(count)) =~= phase_steps(step, from, count));
    } else {
        let fewer = (count - 1) as nat;
        lemma_phase_is_its_steps(state, step, from, fewer);
        assert(successes(count).drop_last() =~= successes(fewer));
        let visited = same_phase(step, (from + fewer) as usize);
        assert(phase_steps(step, from, fewer).push(visited) =~= phase_steps(step, from, count));
    }
}

/// A phase stops at its first failure: after `count` successes, the failure of the next
/// module ends the sequence with its message, and its step is the last one performed.
pub proof fn lemma_phase_stops_at_failure(
    state: State,
    step: Step,
    from: usize,
    count: nat,
    message: Seq<char>,
)
    requires
        state.pending == Some(step),
        module_of(step) == Some(from),
        from + count < state.modules,
    ensures
        run(state, successes(count).push(Err(message))) == (State {
            pending: None,
            verdict: Some(Err(message)),
            ..state
        }),
        performed(state, successes(count).push(Err(message))) == phase_steps(
            step,
            from,
            count + 1,
        ),
{
    lemma_phase_is_its_steps(state, step, from, count);
    let outcomes = successes(count).push(Err(message));
    assert(outcomes.drop_last() =~= successes(count));
    assert(phase_steps(step, from, count).push(same_phase(step, (from + count) as usize))
        =~= phase_steps(step, from, count + 1));
}

} // verus!
