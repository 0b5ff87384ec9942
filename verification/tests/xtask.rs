use ragloom::xtask::{parse_task, qa_steps, run_task, StepOutcome, Task, TaskAction, XtaskError};

#[test]
fn qa_steps_match_local_developer_gate() {
    let steps = qa_steps();

    assert_eq!(steps.len(), 3);
    assert_eq!(steps[0].name, "fmt");
    assert_eq!(steps[0].args, ["fmt", "--check"]);
    assert_eq!(steps[1].name, "clippy");
    assert_eq!(steps[1].args, ["clippy", "--workspace", "--all-targets", "--all-features", "--", "-D", "warnings",]);
    assert_eq!(steps[2].name, "test");
    assert_eq!(steps[2].args, ["test", "--workspace", "--all-targets", "--all-features"]);
}

#[test]
fn parse_task_defaults_to_qa() {
    assert_eq!(parse_task(&[]).expect("task"), Task::Qa);
}

#[test]
fn parse_task_accepts_explicit_qa() {
    assert_eq!(parse_task(&["qa".to_string()]).expect("task"), Task::Qa);
}

#[test]
fn parse_task_rejects_unknown_subcommand() {
    let err = parse_task(&["unknown".to_string()]).expect_err("unknown command");
    assert!(err.message().contains("unknown xtask command"));
    assert_eq!(err, XtaskError::UnknownCommand { command: "unknown".to_string() });
}

#[test]
fn task_run_hands_out_steps_in_order_and_finishes() {
    let mut run = run_task(Task::Qa);
    let mut names = Vec::new();
    let mut action = run.start();
    loop {
        match action {
            TaskAction::RunStep(step) => {
                names.push(step.name.clone());
                action = run.advance(StepOutcome::Succeeded);
            }
            TaskAction::Finished(result) => {
                assert_eq!(result, Ok(()));
                break;
            }
        }
    }
    assert_eq!(names, vec!["fmt", "clippy", "test"]);
}

#[test]
fn task_run_stops_at_the_first_failed_step() {
    let mut run = run_task(Task::Qa);
    assert!(matches!(run.start(), TaskAction::RunStep(ref s) if s.name == "fmt"));
    assert!(matches!(run.advance(StepOutcome::Succeeded), TaskAction::RunStep(ref s) if s.name == "clippy"));
    let end = run.advance(StepOutcome::Failed("exit status: 101".to_string()));
    match end {
        TaskAction::Finished(Err(e)) => {
            assert_eq!(e.message(), "cargo step `clippy` failed with status exit status: 101");
        }
        other => panic!("unexpected action: {:?}", other),
    }
}

#[test]
fn task_run_reports_a_step_that_could_not_start() {
    let mut run = run_task(Task::Qa);
    let _ = run.start();
    match run.advance(StepOutcome::SpawnFailed("not found".to_string())) {
        TaskAction::Finished(Err(XtaskError::SpawnFailed { step, source })) => {
            assert_eq!(step, "fmt");
            assert_eq!(source, "not found");
        }
        other => panic!("unexpected action: {:?}", other),
    }
}
