//! Developer task runner: which cargo steps a task consists of, and how a
//! run proceeds from step to step. Spawning the steps is up to the caller.
use vstd::prelude::*;
use crate::text::{owned, str_eq};

verus! {

/// A developer task.
#[derive(Debug, Clone, Copy, PartialEq, Eq, Structural)]
pub enum Task {
    Qa,
}

/// One cargo invocation of a task.
#[derive(Debug, PartialEq, Eq)]
pub struct Step {
    pub name: String,
    pub args: Vec<String>,
}

/// Failures of a task run.
#[derive(Debug, Clone, PartialEq, Eq)]
pub enum XtaskError {
    UnknownCommand { command: String },
    /// The step could not be started; `source` describes why.
    SpawnFailed { step: String, source: String },
    /// The step ran and failed; `status` renders its exit status.
    StepFailed { step: String, status: String },
}

/// The rendering of a task error.
pub open spec fn xtask_error_message(e: XtaskError) -> Seq<char> {
    match e {
        XtaskError::UnknownCommand { command } => "unknown xtask command: "@ + command@ + " (supported: qa)"@,
        XtaskError::SpawnFailed { step, source } => "failed to spawn cargo step `"@ + step@ + "`: "@ + source@,
        XtaskError::StepFailed { step, status } => "cargo step `"@ + step@ + "` failed with status "@ + status@,
    }
}

impl XtaskError {
    pub fn message(&self) -> (m: String)
        ensures
            m@ == xtask_error_message(*self),
    {
        let mut m = String::new();
        match self {
            XtaskError::UnknownCommand { command } => {
                m.push_str("unknown xtask command: ");
                m.push_str(command.as_str());
                m.push_str(" (supported: qa)");
            },
            XtaskError::SpawnFailed { step, source } => {
                m.push_str("failed to spawn cargo step `");
                m.push_str(step.as_str());
                m.push_str("`: ");
                m.push_str(source.as_str());
            },
            XtaskError::StepFailed { step, status } => {
                m.push_str("cargo step `");
                m.push_str(step.as_str());
                m.push_str("` failed with status ");
                m.push_str(status.as_str());
            },
        }
        proof {
            let e = Seq::<char>::empty();
            assert(e + "unknown xtask command: "@ =~= "unknown xtask command: "@);
            assert(e + "failed to spawn cargo step `"@ =~= "failed to spawn cargo step `"@);
            assert(e + "cargo step `"@ =~= "cargo step `"@);
        }
        m
    }
}

/// The task named by the first argument: none or `qa` selects the QA task;
/// anything else is an unknown command.
pub fn parse_task(args: &[String]) -> (r: Result<Task, XtaskError>)
    ensures
        args@.len() == 0 ==> r == Ok::<Task, XtaskError>(Task::Qa),
        args@.len() > 0 && args@[0]@ == "qa"@ ==> r == Ok::<Task, XtaskError>(Task::Qa),
        args@.len() > 0 && args@[0]@ != "qa"@ ==> (r matches Err(XtaskError::UnknownCommand { command })
            && command@ == args@[0]@),
{
    if args.len() == 0 {
        return Ok(Task::Qa);
    }
    if str_eq(args[0].as_str(), "qa") {
        Ok(Task::Qa)
    } else {
        Err(XtaskError::UnknownCommand { command: args[0].clone() })
    }
}

/// `v` holds exactly the strings `s`.
pub open spec fn strings_are(v: Seq<String>, s: Seq<Seq<char>>) -> bool {
    &&& v.len() == s.len()
    &&& forall|i: int| 0 <= i < v.len() ==> (#[trigger] v[i])@ == s[i]
}

fn strings(parts: &[&str]) -> (v: Vec<String>)
    ensures
        v@.len() == parts@.len(),
        forall|i: int| 0 <= i < v@.len() ==> (#[trigger] v@[i])@ == parts@[i]@,
{
    let mut v: Vec<String> = Vec::new();
    let mut i: usize = 0;
    while i < parts.len()
        invariant
            i <= parts@.len(),
            v@.len() == i,
            forall|k: int| 0 <= k < i ==> (#[trigger] v@[k])@ == parts@[k]@,
        decreases parts@.len() - i,
    {
        v.push(owned(parts[i]));
        i += 1;
    }
    v
}

/// The QA gate: formatting check, lints as errors, then all tests.
pub open spec fn qa_step_names() -> Seq<Seq<char>> {
    seq!["fmt"@, "clippy"@, "test"@]
}

pub open spec fn qa_step_args(i: int) -> Seq<Seq<char>> {
    if i == 0 {
        seq!["fmt"@, "--check"@]
    } else if i == 1 {
        seq!["clippy"@, "--workspace"@, "--all-targets"@, "--all-features"@, "--"@, "-D"@, "warnings"@]
    } else {
        seq!["test"@, "--workspace"@, "--all-targets"@, "--all-features"@]
    }
}

/// The steps of the QA task, in order.
pub fn qa_steps() -> (steps: Vec<Step>)
    ensures
        steps@.len() == 3,
        forall|i: int| 0 <= i < 3 ==> (#[trigger] steps@[i]).name@ == qa_step_names()[i]
            && strings_are(steps@[i].args@, qa_step_args(i)),
{
    let mut steps: Vec<Step> = Vec::new();
    steps.push(Step { name: owned("fmt"), args: strings(&["fmt", "--check"]) });
    steps.push(Step {
        name: owned("clippy"),
        args: strings(&["clippy", "--workspace", "--all-targets", "--all-features", "--", "-D", "warnings"]),
    });
    steps.push(Step { name: owned("test"), args: strings(&["test", "--workspace", "--all-targets", "--all-features"]) });
    proof {
        assert forall|i: int| 0 <= i < 3 implies (#[trigger] steps@[i]).name@ == qa_step_names()[i]
            && strings_are(steps@[i].args@, qa_step_args(i)) by {
            if i == 0 {
                assert(strings_are(steps@[0].args@, qa_step_args(0)));
            } else if i == 1 {
                assert(strings_are(steps@[1].args@, qa_step_args(1)));
            } else {
                assert(strings_are(steps@[2].args@, qa_step_args(2)));
            }
        }
    }
    steps
}

/// What happened when a step was run.
#[derive(Debug, Clone, PartialEq, Eq)]
pub enum StepOutcome {
    Succeeded,
    /// The step could not be started; the text describes why.
    SpawnFailed(String),
    /// The step exited unsuccessfully; the text renders its status.
    Failed(String),
}

/// What the caller must do next.
#[derive(Debug, PartialEq, Eq)]
pub enum TaskAction {
    /// Run this step and report its outcome.
    RunStep(Step),
    /// The run is over.
    Finished(Result<(), XtaskError>),
}

/// A run of a task, step by step.
#[derive(Debug)]
pub struct TaskRun {
    steps: Vec<Step>,
    next: usize,
    done: bool,
}

impl TaskRun {
    pub closed spec fn steps_view(&self) -> Seq<Step> {
        self.steps@
    }

    /// Number of steps already handed out.
    pub closed spec fn position(&self) -> nat {
        self.next as nat
    }

    pub closed spec fn is_done(&self) -> bool {
        self.done
    }

    pub closed spec fn wf(&self) -> bool {
        self.next <= self.steps@.len()
    }

    /// The first action of the run.
    pub fn start(&mut self) -> (a: TaskAction)
        requires
            old(self).wf(),
            old(self).position() == 0,
            !old(self).is_done(),
        ensures
            final(self).wf(),
            final(self).steps_view() == old(self).steps_view(),
            old(self).steps_view().len() == 0 ==> a == TaskAction::Finished(Ok(())) && final(self).is_done(),
            old(self).steps_view().len() > 0 ==> (a matches TaskAction::RunStep(s) && same_step(s, old(self).steps_view()[0]))
                && final(self).position() == 1 && !final(self).is_done(),
    {
        if self.steps.len() == 0 {
            self.done = true;
            return TaskAction::Finished(Ok(()));
        }
        self.next = 1;
        TaskAction::RunStep(self.steps[0].clone())
    }

    /// The action after the last handed-out step ended with `outcome`: the
    /// first failure ends the run with its error, success moves on to the
    /// next step, and after the last step the run ends successfully.
    pub fn advance(&mut self, outcome: StepOutcome) -> (a: TaskAction)
        requires
            old(self).wf(),
            old(self).position() > 0,
            !old(self).is_done(),
        ensures
            final(self).wf(),
            final(self).steps_view() == old(self).steps_view(),
            ({
                let prev = old(self).steps_view()[old(self).position() - 1];
                match outcome {
                    StepOutcome::SpawnFailed(src) => (a matches TaskAction::Finished(Err(XtaskError::SpawnFailed { step, source }))
                        && step@ == prev.name@ && source@ == src@) && final(self).is_done(),
                    StepOutcome::Failed(st) => (a matches TaskAction::Finished(Err(XtaskError::StepFailed { step, status }))
                        && step@ == prev.name@ && status@ == st@) && final(self).is_done(),
                    StepOutcome::Succeeded => if old(self).position() < old(self).steps_view().len() {
                        (a matches TaskAction::RunStep(s) && same_step(s, old(self).steps_view()[old(self).position() as int]))
                            && final(self).position() == old(self).position() + 1 && !final(self).is_done()
                    } else {
                        a == TaskAction::Finished(Ok(())) && final(self).is_done()
                    },
                }
            }),
    {
        let prev_name = self.steps[self.next - 1].name.clone();
        match outcome {
            StepOutcome::SpawnFailed(source) => {
                self.done = true;
                TaskAction::Finished(Err(XtaskError::SpawnFailed { step: prev_name, source }))
            },
            StepOutcome::Failed(status) => {
                self.done = true;
                TaskAction::Finished(Err(XtaskError::StepFailed { step: prev_name, status }))
            },
            StepOutcome::Succeeded => {
                if self.next < self.steps.len() {
                    let s = self.steps[self.next].clone();
                    self.next = self.next + 1;
                    TaskAction::RunStep(s)
                } else {
                    self.done = true;
                    TaskAction::Finished(Ok(()))
                }
            },
        }
    }
}

impl Clone for Step {
    fn clone(&self) -> (c: Self)
        ensures
            same_step(c, *self),
    {
        Step { name: self.name.clone(), args: clone_strings(&self.args) }
    }
}

/// Two steps with the same name and arguments.
pub open spec fn same_step(a: Step, b: Step) -> bool {
    a.name@ == b.name@ && a.args@ == b.args@
}

fn clone_strings(v: &Vec<String>) -> (c: Vec<String>)
    ensures
        c@ == v@,
{
    let mut c: Vec<String> = Vec::new();
    let mut i: usize = 0;
    while i < v.len()
        invariant
            i <= v@.len(),
            c@ == v@.take(i as int),
        decreases v@.len() - i,
    {
        c.push(v[i].clone());
        assert(v@.take(i + 1) =~= v@.take(i as int).push(v@[i as int]));
        i += 1;
    }
    assert(v@.take(v@.len() as int) =~= v@);
    c
}

/// Starts a run of `task`; the caller drives it with [`TaskRun::start`] and
/// [`TaskRun::advance`], running each step it is handed.
pub fn run_task(task: Task) -> (r: TaskRun)
    ensures
        r.wf(),
        r.position() == 0,
        !r.is_done(),
        r.steps_view().len() == 3,
        forall|i: int| 0 <= i < 3 ==> (#[trigger] r.steps_view()[i]).name@ == qa_step_names()[i]
            && strings_are(r.steps_view()[i].args@, qa_step_args(i)),
{
    let steps = match task {
        Task::Qa => qa_steps(),
    };
    TaskRun { steps, next: 0, done: false }
}

} // verus!
