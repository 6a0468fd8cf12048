//! What the transfer tool is called with, and what is recorded of each call.
//!
//! Running the tool is left to whoever drives the library; here are the
//! command lines and the outcomes.

use vstd::prelude::*;
use vstd::string::*;
use crate::paths::text_of;
use crate::planner::{Task, Verb};

verus! {

/// The number of workers when none is configured.
pub const DEFAULT_WORKERS: usize = 3;

/// The word the transfer tool knows a verb by.
pub open spec fn verb_text(verb: Verb) -> Seq<char> {
    match verb {
        Verb::Copy => "copy"@,
        Verb::Mkdir => "mkdir"@,
        Verb::Delete => "delete"@,
        Verb::Purge => "purge"@,
        Verb::MoveTo => "moveto"@,
    }
}

/// Executable form of [`verb_text`].
pub fn verb_word(verb: Verb) -> (word: &'static str)
    ensures
        word@ == verb_text(verb),
{
    match verb {
        Verb::Copy => "copy",
        Verb::Mkdir => "mkdir",
        Verb::Delete => "delete",
        Verb::Purge => "purge",
        Verb::MoveTo => "moveto",
    }
}

/// The arguments the transfer tool is run with for `task`: the verb's word,
/// then the task's arguments.
pub fn command_line(task: &Task) -> (args: Vec<String>)
    ensures
        args.deep_view() == seq![verb_text(task.verb)] + task@.remote_args,
{
    let mut args: Vec<String> = Vec::new();
    args.push(String::from_str(verb_word(task.verb)));
    let mut i: usize = 0;
    assert(args.deep_view() =~= seq![verb_text(task.verb)] + task@.remote_args.take(0));
    while i < task.remote_args.len()
        invariant
            i <= task.remote_args.len(),
            args.deep_view() == seq![verb_text(task.verb)] + task@.remote_args.take(i as int),
        decreases task.remote_args.len() - i,
    {
        let ghost done = args.deep_view();
        let arg = task.remote_args[i].clone();
        args.push(arg);
        assert(args.deep_view() =~= done.push(task.remote_args[i as int]@));
        assert(task@.remote_args.take(i + 1) =~= task@.remote_args.take(i as int).push(
            task.remote_args[i as int]@,
        ));
        i += 1;
        assert(args.deep_view() =~= seq![verb_text(task.verb)] + task@.remote_args.take(i as int));
    }
    assert(task@.remote_args.take(i as int) =~= task@.remote_args);
    args
}

/// How a run of the transfer tool ended.
#[derive(Debug, Clone, Copy, PartialEq, Eq, Structural)]
pub enum ToolStatus {
    /// The tool ran and exited; `success` says whether its exit status was
    /// zero.
    Exited { success: bool },
    /// The tool could not be started.
    LaunchFailed,
}

/// What became of one task.
#[derive(Debug, Clone, PartialEq, Eq)]
pub struct Outcome {
    pub description: String,
    pub succeeded: bool,
}

/// Whether a run that ended with `status` counts as a success: only an exit
/// with status zero does.
pub open spec fn is_success(status: ToolStatus) -> bool {
    status == (ToolStatus::Exited { success: true })
}

/// Records the outcome of `task`. No way a run can end is an error of the
/// batch: each is recorded, under the task's description.
pub fn record_outcome(task: &Task, status: ToolStatus) -> (outcome: Outcome)
    ensures
        outcome.description@ == task.description@,
        outcome.succeeded == is_success(status),
{
    let succeeded = match status {
        ToolStatus::Exited { success } => success,
        ToolStatus::LaunchFailed => false,
    };
    Outcome { description: task.description.clone(), succeeded }
}

/// Records the outcomes of a batch: one for each task, in the order of the
/// tasks, whatever became of the others.
pub fn record_outcomes(tasks: &Vec<Task>, statuses: &Vec<ToolStatus>) -> (outcomes: Vec<Outcome>)
    requires
        tasks.len() == statuses.len(),
    ensures
        outcomes.len() == tasks.len(),
        forall|i: int|
            0 <= i < tasks.len() ==> (#[trigger] outcomes[i]).description@ == tasks[i].description@
                && outcomes[i].succeeded == is_success(statuses[i]),
{
    let mut outcomes: Vec<Outcome> = Vec::new();
    let mut i: usize = 0;
    while i < tasks.len()
        invariant
            i <= tasks.len(),
            tasks.len() == statuses.len(),
            outcomes.len() == i,
            forall|j: int|
                0 <= j < i ==> (#[trigger] outcomes[j]).description@ == tasks[j].description@
                    && outcomes[j].succeeded == is_success(statuses[j]),
        decreases tasks.len() - i,
    {
        outcomes.push(record_outcome(&tasks[i], statuses[i]));
        i += 1;
    }
    outcomes
}

/// The number of workers to run tasks with: the configured one, if it is not
/// zero, and three otherwise.
pub fn worker_count(configured: Option<usize>) -> (n: usize)
    ensures
        n == match configured {
            Some(k) => if k > 0 {
                k
            } else {
                DEFAULT_WORKERS
            },
            None => DEFAULT_WORKERS,
        },
        n >= 1,
{
    match configured {
        Some(k) => if k > 0 {
            k
        } else {
            DEFAULT_WORKERS
        },
        None => DEFAULT_WORKERS,
    }
}

/// The character of a decimal digit.
pub open spec fn digit_char(d: nat) -> char {
    if d == 0 {
        '0'
    } else if d == 1 {
        '1'
    } else if d == 2 {
        '2'
    } else if d == 3 {
        '3'
    } else if d == 4 {
        '4'
    } else if d == 5 {
        '5'
    } else if d == 6 {
        '6'
    } else if d == 7 {
        '7'
    } else if d == 8 {
        '8'
    } else {
        '9'
    }
}

/// The decimal numeral of `n`.
pub open spec fn decimal(n: nat) -> Seq<char>
    decreases n,
{
    if n < 10 {
        seq![digit_char(n)]
    } else {
        decimal(n / 10).push(digit_char(n % 10))
    }
}

/// Executable form of [`digit_char`].
fn digit(d: usize) -> (c: char)
    requires
        d < 10,
    ensures
        c == digit_char(d as nat),
{
    if d == 0 {
        '0'
    } else if d == 1 {
        '1'
    } else if d == 2 {
        '2'
    } else if d == 3 {
        '3'
    } else if d == 4 {
        '4'
    } else if d == 5 {
        '5'
    } else if d == 6 {
        '6'
    } else if d == 7 {
        '7'
    } else if d == 8 {
        '8'
    } else {
        '9'
    }
}

/// The decimal numeral of `n`, as characters.
fn decimal_chars(n: usize) -> (out: Vec<char>)
    ensures
        out@ == decimal(n as nat),
    decreases n,
{
    if n < 10 {
        let mut out: Vec<char> = Vec::new();
        out.push(digit(n));
        assert(out@ =~= seq![digit_char(n as nat)]);
        out
    } else {
        let mut out = decimal_chars(n / 10);
        out.push(digit(n % 10));
        out
    }
}

/// The decimal numeral of `n`.
pub fn decimal_text(n: usize) -> (text: String)
    ensures
        text@ == decimal(n as nat),
{
    let chars = decimal_chars(n);
    text_of(&chars)
}

/// The arguments of a full resynchronisation, as plain text.
pub open spec fn sync_args(
    remote_root: Seq<char>,
    root: Seq<char>,
    exclude_file: Seq<char>,
    keep_mod_time: bool,
    checkers: Option<nat>,
    tps_limit: Option<Seq<char>>,
) -> Seq<Seq<char>> {
    seq!["sync"@, remote_root, root, "--exclude-from"@, exclude_file] + (if keep_mod_time {
        seq!["--no-update-modtime"@]
    } else {
        Seq::empty()
    }) + (match checkers {
        Some(n) => seq!["--checkers"@, decimal(n)],
        None => Seq::empty(),
    }) + (match tps_limit {
        Some(t) => seq!["--tpslimit"@, t],
        None => Seq::empty(),
    }) + seq!["--retries"@, "1"@]
}

/// The arguments the transfer tool is run with for a full resynchronisation
/// of `root` from `remote_root`, leaving out what `exclude_file` lists.
/// `tps_limit` is the limit as it is to appear on the command line.
pub fn sync_arguments(
    remote_root: &str,
    root: &str,
    exclude_file: &str,
    keep_mod_time: bool,
    checkers: Option<usize>,
    tps_limit: Option<&str>,
) -> (args: Vec<String>)
    ensures
        args.deep_view() == sync_args(
            remote_root@,
            root@,
            exclude_file@,
            keep_mod_time,
            match checkers {
                Some(n) => Some(n as nat),
                None => None,
            },
            match tps_limit {
                Some(t) => Some(t@),
                None => None,
            },
        ),
{
    let mut args: Vec<String> = Vec::new();
    args.push(String::from_str("sync"));
    args.push(String::from_str(remote_root));
    args.push(String::from_str(root));
    args.push(String::from_str("--exclude-from"));
    args.push(String::from_str(exclude_file));
    assert(args.deep_view() =~= seq!["sync"@, remote_root@, root@, "--exclude-from"@, exclude_file@]);
    let ghost head = args.deep_view();
    let ghost flag: Seq<Seq<char>> = if keep_mod_time {
        seq!["--no-update-modtime"@]
    } else {
        Seq::empty()
    };
    if keep_mod_time {
        args.push(String::from_str("--no-update-modtime"));
    }
    assert(args.deep_view() =~= head + flag);
    let ghost check: Seq<Seq<char>> = match checkers {
        Some(n) => seq!["--checkers"@, decimal(n as nat)],
        None => Seq::empty(),
    };
    match checkers {
        Some(n) => {
            args.push(String::from_str("--checkers"));
            args.push(decimal_text(n));
        },
        None => {},
    }
    assert(args.deep_view() =~= head + flag + check);
    let ghost limit: Seq<Seq<char>> = match tps_limit {
        Some(t) => seq!["--tpslimit"@, t@],
        None => Seq::empty(),
    };
    match tps_limit {
        Some(t) => {
            args.push(String::from_str("--tpslimit"));
            args.push(String::from_str(t));
        },
        None => {},
    }
    assert(args.deep_view() =~= head + flag + check + limit);
    args.push(String::from_str("--retries"));
    args.push(String::from_str("1"));
    assert(args.deep_view() =~= head + flag + check + limit + seq!["--retries"@, "1"@]);
    args
}

} // verus!
