use web_backend::lifecycle::{Lifecycle, LiftoffFailure, Stage, Step};

/// Performs the steps of a sequence for `modules` modules. `fails` names the step that fails,
/// if any, with its message. Returns the steps in the order in which they became pending.
fn drive(modules: usize, fails: Option<(Step, &str)>) -> (Vec<Step>, Lifecycle) {
    let mut lifecycle = Lifecycle::new(modules);
    let mut steps = Vec::new();
    while let Some(step) = lifecycle.pending() {
        steps.push(step);
        match fails {
            Some((failing, message)) if failing == step => {
                lifecycle.complete(Err(message.to_string()))
            }
            _ => lifecycle.complete(Ok(())),
        }
    }
    (steps, lifecycle)
}

fn full_plan(modules: usize) -> Vec<Step> {
    let mut steps = vec![Step::Configure];
    steps.extend((0..modules).map(|module| Step::Mount { module }));
    steps.push(Step::Template);
    steps.extend((0..modules).map(|module| Step::Build { module }));
    steps.push(Step::IgniteServer);
    steps.extend((0..modules).map(|module| Step::Ignite { module }));
    steps.push(Step::Launch);
    steps
}

#[test]
fn phases_visit_modules_in_registration_order() {
    let (steps, lifecycle) = drive(3, None);
    assert_eq!(
        steps,
        vec![
            Step::Configure,
            Step::Mount { module: 0 },
            Step::Mount { module: 1 },
            Step::Mount { module: 2 },
            Step::Template,
            Step::Build { module: 0 },
            Step::Build { module: 1 },
            Step::Build { module: 2 },
            Step::IgniteServer,
            Step::Ignite { module: 0 },
            Step::Ignite { module: 1 },
            Step::Ignite { module: 2 },
            Step::Launch,
        ]
    );
    assert_eq!(lifecycle.verdict(), Some(Ok(())));
    assert_eq!(lifecycle.stage(), Stage::Terminated);
    assert_eq!(lifecycle.modules(), 3);
}

#[test]
fn any_number_of_modules_follows_the_plan() {
    for modules in 0..6 {
        let (steps, lifecycle) = drive(modules, None);
        assert_eq!(steps, full_plan(modules));
        assert_eq!(steps.len(), 3 * modules + 4);
        assert_eq!(lifecycle.verdict(), Some(Ok(())));
    }
}

#[test]
fn no_phase_is_skipped_without_modules() {
    let (steps, lifecycle) = drive(0, None);
    assert_eq!(
        steps,
        vec![Step::Configure, Step::Template, Step::IgniteServer, Step::Launch]
    );
    assert_eq!(lifecycle.stage(), Stage::Terminated);
}

#[test]
fn a_new_sequence_has_done_nothing() {
    let lifecycle = Lifecycle::new(2);
    assert_eq!(lifecycle.pending(), Some(Step::Configure));
    assert_eq!(lifecycle.stage(), Stage::Created);
    assert_eq!(lifecycle.verdict(), None);
    assert_eq!(lifecycle.modules(), 2);
}

#[test]
fn stages_follow_each_other() {
    let mut lifecycle = Lifecycle::new(1);
    let mut stages = vec![lifecycle.stage()];
    while lifecycle.pending().is_some() {
        if lifecycle.pending() == Some(Step::Launch) {
            lifecycle.liftoff(&vec![Ok(())]);
            stages.push(lifecycle.stage());
        }
        lifecycle.complete(Ok(()));
        stages.push(lifecycle.stage());
    }
    assert_eq!(
        stages,
        vec![
            Stage::Created,
            Stage::Configured,
            Stage::Mounted,
            Stage::TemplateReady,
            Stage::Built,
            Stage::Built,
            Stage::Ignited,
            Stage::Running,
            Stage::Terminated,
        ]
    );
}

#[test]
fn a_failed_build_hook_stops_the_later_ones_and_the_ignite_phase() {
    let (steps, lifecycle) = drive(4, Some((Step::Build { module: 1 }, "no database")));
    assert_eq!(
        steps,
        vec![
            Step::Configure,
            Step::Mount { module: 0 },
            Step::Mount { module: 1 },
            Step::Mount { module: 2 },
            Step::Mount { module: 3 },
            Step::Template,
            Step::Build { module: 0 },
            Step::Build { module: 1 },
        ]
    );
    assert!(!steps.contains(&Step::Build { module: 2 }));
    assert!(!steps.contains(&Step::IgniteServer));
    assert!(!steps.contains(&Step::Launch));
    assert_eq!(lifecycle.verdict(), Some(Err("no database".to_string())));
    assert_eq!(lifecycle.stage(), Stage::Failed);
    assert_eq!(lifecycle.pending(), None);
}

#[test]
fn a_failed_ignite_hook_stops_the_later_ones_and_the_launch() {
    let (steps, lifecycle) = drive(3, Some((Step::Ignite { module: 0 }, "port taken")));
    assert_eq!(steps.last(), Some(&Step::Ignite { module: 0 }));
    assert_eq!(steps.len(), 3 + 1 + 3 + 1 + 1 + 1);
    assert!(!steps.contains(&Step::Ignite { module: 1 }));
    assert!(!steps.contains(&Step::Launch));
    assert_eq!(lifecycle.verdict(), Some(Err("port taken".to_string())));
    assert_eq!(lifecycle.stage(), Stage::Failed);
}

#[test]
fn a_server_that_does_not_ignite_fails_the_assembly() {
    let (steps, lifecycle) = drive(2, Some((Step::IgniteServer, "bad config")));
    assert_eq!(steps.last(), Some(&Step::IgniteServer));
    assert!(!steps.contains(&Step::Ignite { module: 0 }));
    assert_eq!(lifecycle.verdict(), Some(Err("bad config".to_string())));
    assert_eq!(lifecycle.stage(), Stage::Failed);
}

#[test]
fn every_step_can_end_the_sequence() {
    for failing in full_plan(2) {
        let (steps, lifecycle) = drive(2, Some((failing, "stop")));
        assert_eq!(steps.last(), Some(&failing));
        let position = full_plan(2).iter().position(|step| *step == failing).unwrap();
        assert_eq!(steps, full_plan(2)[..=position].to_vec());
        assert_eq!(lifecycle.verdict(), Some(Err("stop".to_string())));
        assert_eq!(lifecycle.stage(), Stage::Failed);
    }
}

#[test]
fn the_first_failure_is_the_verdict() {
    let mut lifecycle = Lifecycle::new(1);
    lifecycle.complete(Ok(()));
    lifecycle.complete(Err("first".to_string()));
    lifecycle.complete(Err("second".to_string()));
    lifecycle.complete(Ok(()));
    assert_eq!(lifecycle.verdict(), Some(Err("first".to_string())));
    assert_eq!(lifecycle.pending(), None);
    assert_eq!(lifecycle.stage(), Stage::Failed);
}

#[test]
fn reports_after_the_end_change_nothing() {
    let (_, mut lifecycle) = drive(2, None);
    lifecycle.complete(Err("late".to_string()));
    assert_eq!(lifecycle.verdict(), Some(Ok(())));
    assert_eq!(lifecycle.stage(), Stage::Terminated);
    assert_eq!(lifecycle.pending(), None);
}

fn until_launch(modules: usize) -> Lifecycle {
    let mut lifecycle = Lifecycle::new(modules);
    while lifecycle.pending() != Some(Step::Launch) {
        lifecycle.complete(Ok(()));
    }
    lifecycle
}

#[test]
fn liftoff_failures_are_reported_and_decide_nothing() {
    let mut lifecycle = until_launch(3);
    assert_eq!(lifecycle.stage(), Stage::Ignited);
    let outcomes = vec![
        Err("announce failed".to_string()),
        Ok(()),
        Err("registry down".to_string()),
    ];
    let failures = lifecycle.liftoff(&outcomes);
    assert_eq!(
        failures,
        vec![
            LiftoffFailure { module: 0, message: "announce failed".to_string() },
            LiftoffFailure { module: 2, message: "registry down".to_string() },
        ]
    );
    assert_eq!(lifecycle.stage(), Stage::Running);
    assert_eq!(lifecycle.pending(), Some(Step::Launch));
    assert_eq!(lifecycle.verdict(), None);
    lifecycle.complete(Ok(()));
    assert_eq!(lifecycle.verdict(), Some(Ok(())));
    assert_eq!(lifecycle.stage(), Stage::Terminated);
}

#[test]
fn liftoff_without_failures_reports_none() {
    let mut lifecycle = until_launch(2);
    assert_eq!(lifecycle.liftoff(&vec![Ok(()), Ok(())]), Vec::new());
    assert_eq!(lifecycle.liftoff(&Vec::new()), Vec::new());
    assert_eq!(lifecycle.stage(), Stage::Running);
}

#[test]
fn a_server_that_stops_with_an_error_after_liftoff_has_terminated() {
    let mut lifecycle = until_launch(1);
    lifecycle.liftoff(&vec![Err("ignored".to_string())]);
    lifecycle.complete(Err("connection lost".to_string()));
    assert_eq!(lifecycle.verdict(), Some(Err("connection lost".to_string())));
    assert_eq!(lifecycle.stage(), Stage::Terminated);
}

#[test]
fn a_server_that_never_went_live_has_failed() {
    let mut lifecycle = until_launch(1);
    lifecycle.complete(Err("address in use".to_string()));
    assert_eq!(lifecycle.verdict(), Some(Err("address in use".to_string())));
    assert_eq!(lifecycle.stage(), Stage::Failed);
}

#[test]
fn only_a_pending_launch_goes_live() {
    let mut lifecycle = Lifecycle::new(1);
    let failures = lifecycle.liftoff(&vec![Err("early".to_string())]);
    assert_eq!(failures.len(), 1);
    assert_eq!(lifecycle.stage(), Stage::Created);
    assert_eq!(lifecycle.pending(), Some(Step::Configure));
    let (_, mut ended) = drive(1, Some((Step::Template, "stop")));
    ended.liftoff(&Vec::new());
    assert_eq!(ended.stage(), Stage::Failed);
}

#[test]
fn a_module_without_hooks_changes_nothing() {
    let (without, ended_without) = drive(2, Some((Step::Build { module: 1 }, "boom")));
    let (with, ended_with) = drive(3, Some((Step::Build { module: 2 }, "boom")));
    assert_eq!(ended_with.verdict(), ended_without.verdict());
    assert_eq!(ended_with.stage(), ended_without.stage());
    assert_eq!(with.len(), without.len() + 2);
    let (_, all_well) = drive(2, None);
    let (_, all_well_with) = drive(3, None);
    assert_eq!(all_well_with.verdict(), all_well.verdict());
    assert_eq!(all_well_with.stage(), all_well.stage());
}

#[test]
fn going_live_is_the_liftoff_without_its_report() {
    let mut lifecycle = until_launch(2);
    lifecycle.go_live();
    assert_eq!(lifecycle.stage(), Stage::Running);
    assert_eq!(lifecycle.pending(), Some(Step::Launch));
    assert_eq!(lifecycle.verdict(), None);
    let mut early = Lifecycle::new(2);
    early.go_live();
    assert_eq!(early.stage(), Stage::Created);
}

#[test]
fn the_report_names_the_failed_hooks_in_registration_order() {
    let outcomes = vec![
        Ok(()),
        Err("second".to_string()),
        Ok(()),
        Err("fourth".to_string()),
    ];
    assert_eq!(
        Lifecycle::report(&outcomes),
        vec![
            LiftoffFailure { module: 1, message: "second".to_string() },
            LiftoffFailure { module: 3, message: "fourth".to_string() },
        ]
    );
    assert_eq!(Lifecycle::report(&Vec::new()), Vec::new());
}
