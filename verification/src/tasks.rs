//! Tasks: which steps of a task run, how a step's command is shown, and what
//! kind of script a step runs.

use crate::config::{runs_on, Task, TaskStep};
use crate::script::{kind_of_step_type, ScriptType};
use crate::text::{chars_of, contains_text, copy_texts, occurs_in, same_text, texts_of};
use vstd::prelude::*;
use vstd::string::StringExecFns;

verus! {

/// Position of the first task of this name, or the number of tasks.
pub open spec fn position_of_task(tasks: Seq<Task>, name: Seq<char>) -> int
    decreases tasks.len(),
{
    if tasks.len() == 0 {
        0
    } else {
        let m = position_of_task(tasks.drop_last(), name);
        if m < tasks.len() - 1 {
            m
        } else if tasks.last().name@ == name {
            tasks.len() - 1
        } else {
            tasks.len() as int
        }
    }
}

/// `position_of_task` is the least index of a task of that name.
pub proof fn lemma_position_of_task(tasks: Seq<Task>, name: Seq<char>)
    ensures
        0 <= position_of_task(tasks, name) <= tasks.len(),
        position_of_task(tasks, name) < tasks.len() ==> tasks[position_of_task(
            tasks,
            name,
        )].name@ == name,
        forall|j: int| 0 <= j < position_of_task(tasks, name) ==> tasks[j].name@ != name,
    decreases tasks.len(),
{
    if tasks.len() > 0 {
        let init = tasks.drop_last();
        lemma_position_of_task(init, name);
        assert(forall|j: int| 0 <= j < init.len() ==> init[j] == tasks[j]);
    }
}

/// Position of the first task of this name.
pub fn find_task(tasks: &Vec<Task>, name: &str) -> (pos: Option<usize>)
    ensures
        match pos {
            Some(i) => i < tasks.len() && i == position_of_task(tasks@, name@),
            None => position_of_task(tasks@, name@) == tasks.len(),
        },
{
    let mut i: usize = 0;
    while i < tasks.len()
        invariant
            i <= tasks.len(),
            forall|j: int| 0 <= j < i ==> tasks[j].name@ != name@,
        decreases tasks.len() - i,
    {
        if same_text(tasks[i].name.as_str(), name) {
            proof {
                lemma_position_of_task(tasks@, name@);
            }
            return Some(i);
        }
        i = i + 1;
    }
    proof {
        lemma_position_of_task(tasks@, name@);
    }
    None
}

/// The mathematical content of a step.
pub struct StepView {
    pub step_type: Seq<char>,
    pub repo: Seq<char>,
    pub cmd: Seq<char>,
    pub args: Seq<Seq<char>>,
    pub platform: Seq<char>,
}

impl View for TaskStep {
    type V = StepView;

    open spec fn view(&self) -> StepView {
        StepView {
            step_type: self.step_type@,
            repo: self.repo@,
            cmd: self.cmd@,
            args: texts_of(self.args@),
            platform: self.platform@,
        }
    }
}

/// The contents of a vector of steps, in order.
pub open spec fn steps_of(v: Seq<TaskStep>) -> Seq<StepView> {
    Seq::new(v.len(), |i: int| v[i]@)
}

/// The steps that run on the platform, in order.
pub open spec fn steps_on(steps: Seq<StepView>, platform: Seq<char>) -> Seq<StepView>
    decreases steps.len(),
{
    if steps.len() == 0 {
        Seq::empty()
    } else if runs_on(steps.last().platform, platform) {
        steps_on(steps.drop_last(), platform).push(steps.last())
    } else {
        steps_on(steps.drop_last(), platform)
    }
}

/// The steps of a task that run on the given platform, in order.
pub fn steps_for_platform(steps: &Vec<TaskStep>, current_platform: &str) -> (selected: Vec<
    TaskStep,
>)
    ensures
        steps_of(selected@) == steps_on(steps_of(steps@), current_platform@),
{
    let ghost all = steps_of(steps@);
    let mut selected: Vec<TaskStep> = Vec::new();
    proof {
        assert(steps_of(selected@) =~= steps_on(all.take(0), current_platform@));
    }
    let mut i: usize = 0;
    while i < steps.len()
        invariant
            i <= steps.len(),
            all == steps_of(steps@),
            steps_of(selected@) == steps_on(all.take(i as int), current_platform@),
        decreases steps.len() - i,
    {
        proof {
            let next = all.take(i + 1);
            assert(next.drop_last() =~= all.take(i as int));
            assert(next.last() == steps[i as int]@);
        }
        if steps[i].should_run_on_current_platform(current_platform) {
            let ghost before = steps_of(selected@);
            let step = TaskStep {
                step_type: steps[i].step_type.clone(),
                repo: steps[i].repo.clone(),
                cmd: steps[i].cmd.clone(),
                args: copy_texts(&steps[i].args),
                platform: steps[i].platform.clone(),
            };
            selected.push(step);
            proof {
                assert(steps_of(selected@) =~= before.push(steps[i as int]@));
            }
        }
        i = i + 1;
    }
    proof {
        assert(all.take(i as int) =~= all);
    }
    selected
}

/// The arguments joined by single spaces.
pub open spec fn joined_args(args: Seq<Seq<char>>) -> Seq<char>
    decreases args.len(),
{
    if args.len() == 0 {
        Seq::empty()
    } else if args.len() == 1 {
        args[0]
    } else {
        joined_args(args.drop_last()) + seq![' '] + args.last()
    }
}

/// A step's command as it is shown: the command alone where the joined
/// arguments are empty, else the command, a space and the arguments.
pub open spec fn shown_command(cmd: Seq<char>, args: Seq<Seq<char>>) -> Seq<char> {
    if joined_args(args).len() == 0 {
        cmd
    } else {
        cmd + seq![' '] + joined_args(args)
    }
}

/// The arguments joined by single spaces.
pub fn join_args(args: &Vec<String>) -> (line: String)
    ensures
        line@ == joined_args(texts_of(args@)),
{
    proof {
        reveal_strlit(" ");
        assert(" "@ =~= seq![' ']);
    }
    if args.len() == 0 {
        return String::new();
    }
    let ghost all = texts_of(args@);
    let mut line = args[0].clone();
    let mut i: usize = 1;
    proof {
        assert(all.take(1).len() == 1);
        assert(all.take(1)[0] == args[0]@);
    }
    while i < args.len()
        invariant
            1 <= i <= args.len(),
            all == texts_of(args@),
            " "@ == seq![' '],
            line@ == joined_args(all.take(i as int)),
        decreases args.len() - i,
    {
        proof {
            let next = all.take(i + 1);
            assert(next.drop_last() =~= all.take(i as int));
            assert(next.last() == args[i as int]@);
        }
        line = line.concat(" ").concat(args[i].as_str());
        i = i + 1;
    }
    proof {
        assert(all.take(i as int) =~= all);
    }
    line
}

/// A step's command as it is shown.
pub fn command_display(cmd: &str, args: &Vec<String>) -> (shown: String)
    ensures
        shown@ == shown_command(cmd@, texts_of(args@)),
{
    proof {
        reveal_strlit(" ");
        assert(" "@ =~= seq![' ']);
    }
    let joined = join_args(args);
    if joined.as_str().is_empty() {
        cmd.to_owned()
    } else {
        cmd.to_owned().concat(" ").concat(joined.as_str())
    }
}

/// The kind of script that a step runs: the kind that its explicit type
/// names, else the kind of the command's file.
pub fn resolve_script_type(step_type: &str, cmd: &str) -> (kind: ScriptType)
    ensures
        kind_of_step_type(step_type@) is Some ==> kind == kind_of_step_type(step_type@)->0,
{
    match ScriptType::from_step_type(step_type) {
        Some(kind) => kind,
        None => ScriptType::from_path(cmd),
    }
}

/// The message of a failed start says that the script does not exist.
pub open spec fn reports_missing_script(message: Seq<char>) -> bool {
    occurs_in(message, "not found"@) || occurs_in(message, "cannot find"@)
}

/// Whether the message of a failed start says that the script does not
/// exist: it holds `"not found"` or `"cannot find"`.
pub fn is_missing_script_error(message: &str) -> (missing: bool)
    ensures
        missing == reports_missing_script(message@),
{
    let chars = chars_of(message);
    contains_text(&chars, &chars_of("not found")) || contains_text(
        &chars,
        &chars_of("cannot find"),
    )
}

/// How many spaces fill a header line of the given length up to the width
/// of the terminal.
pub fn header_padding(term_width: usize, line_len: usize) -> (padding: usize)
    ensures
        padding == (if line_len >= term_width {
            0
        } else {
            term_width - line_len
        }),
{
    if line_len >= term_width {
        0
    } else {
        term_width - line_len
    }
}

} // verus!
