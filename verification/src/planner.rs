//! Move detection and task planning.
//!
//! A batch of change events, together with the snapshots taken before and
//! after it, is turned into the remote operations that mirror the change.
//! Events are read two at a time: a removal directly followed by a creation
//! is taken for a move; every other event is classified by itself. Planning
//! never fails. An event one of whose paths is excluded, or whose target is
//! not in the state the event implies, yields no task.

use vstd::prelude::*;
use vstd::string::*;
use crate::matcher::{any_matches, IgnoreMatcher};
use crate::pathop::{Op, PathOp, PathOpView};
use crate::paths::{relative_path, remote_form, upload_path};
use crate::snapshot::Snapshot;

verus! {

/// What the transfer tool is asked to do.
#[derive(Debug, Clone, Copy, PartialEq, Eq, Structural)]
pub enum Verb {
    Copy,
    Mkdir,
    Delete,
    Purge,
    MoveTo,
}

/// One planned remote operation.
#[derive(Debug, Clone, PartialEq, Eq)]
pub struct Task {
    pub verb: Verb,
    pub remote_args: Vec<String>,
    pub description: String,
}

/// A task as plain text.
pub struct TaskView {
    pub verb: Verb,
    pub remote_args: Seq<Seq<char>>,
    pub description: Seq<char>,
}

impl View for Task {
    type V = TaskView;

    open spec fn view(&self) -> TaskView {
        TaskView {
            verb: self.verb,
            remote_args: self.remote_args.deep_view(),
            description: self.description@,
        }
    }
}

impl DeepView for Task {
    type V = TaskView;

    open spec fn deep_view(&self) -> TaskView {
        self@
    }
}

/// The remote address of `p` below `remote_root`.
pub open spec fn remote_join(remote_root: Seq<char>, p: Seq<char>) -> Seq<char> {
    remote_root + seq!['/'] + p
}

/// The remote rename of `from` to `to`, described under `label`.
pub open spec fn move_task(
    label: Seq<char>,
    root: Seq<char>,
    remote_root: Seq<char>,
    from: Seq<char>,
    from_is_file: bool,
    to: Seq<char>,
    to_is_file: bool,
) -> TaskView {
    let f = remote_form(root, from, from_is_file, true);
    let t = remote_form(root, to, to_is_file, true);
    TaskView {
        verb: Verb::MoveTo,
        remote_args: seq![remote_join(remote_root, f), remote_join(remote_root, t)],
        description: label + " from: "@ + f + " to: "@ + t,
    }
}

/// The upload of the file `path` into the remote directory that holds it.
pub open spec fn copy_task(root: Seq<char>, remote_root: Seq<char>, path: Seq<char>) -> TaskView {
    TaskView {
        verb: Verb::Copy,
        remote_args: seq![path, remote_join(remote_root, remote_form(root, path, true, false))],
        description: "COPY "@ + remote_form(root, path, true, true),
    }
}

/// The creation of the remote directory for `path`.
pub open spec fn mkdir_task(root: Seq<char>, remote_root: Seq<char>, path: Seq<char>) -> TaskView {
    TaskView {
        verb: Verb::Mkdir,
        remote_args: seq![remote_join(remote_root, remote_form(root, path, false, false))],
        description: "MKDIR "@ + remote_form(root, path, false, true),
    }
}

/// The removal of what `path` was on the remote side: a file is deleted, a
/// directory purged.
pub open spec fn remove_task(
    root: Seq<char>,
    remote_root: Seq<char>,
    path: Seq<char>,
    was_file: bool,
) -> TaskView {
    let target = relative_path(root, path);
    TaskView {
        verb: if was_file {
            Verb::Delete
        } else {
            Verb::Purge
        },
        remote_args: seq![remote_join(remote_root, target)],
        description: (if was_file {
            "DELETE "@
        } else {
            "PURGE "@
        }) + target,
    }
}

/// Whether the matcher excludes an event: it excludes the path the event is
/// about, or the path that one was before.
pub open spec fn excluded_event(ev: PathOpView, patterns: Seq<Seq<char>>) -> bool {
    any_matches(patterns, ev.path) || any_matches(patterns, ev.old_path)
}

/// Whether two adjacent events are taken for one move: a removal of a path
/// tracked before, then a creation or a write of a path tracked after, neither
/// of the events excluded.
pub open spec fn is_move_pair(
    first: PathOpView,
    second: PathOpView,
    before: Map<Seq<char>, bool>,
    after: Map<Seq<char>, bool>,
    patterns: Seq<Seq<char>>,
) -> bool {
    &&& first.op == Op::REMOVE
    &&& (second.op == Op::CREATE || second.op == Op::WRITE)
    &&& before.contains_key(first.path)
    &&& after.contains_key(second.path)
    &&& !excluded_event(first, patterns)
    &&& !excluded_event(second, patterns)
}

/// The task for a pair of events that is a move.
pub open spec fn pair_task(
    first: PathOpView,
    second: PathOpView,
    before: Map<Seq<char>, bool>,
    after: Map<Seq<char>, bool>,
    root: Seq<char>,
    remote_root: Seq<char>,
) -> TaskView {
    move_task(
        "MOVE"@,
        root,
        remote_root,
        first.path,
        before[first.path],
        second.path,
        after[second.path],
    )
}

/// The task for one event taken by itself, if it yields one.
pub open spec fn event_task(
    ev: PathOpView,
    before: Map<Seq<char>, bool>,
    after: Map<Seq<char>, bool>,
    root: Seq<char>,
    remote_root: Seq<char>,
    patterns: Seq<Seq<char>>,
) -> Option<TaskView> {
    if excluded_event(ev, patterns) {
        None
    } else {
        match ev.op {
            Op::CREATE => if !after.contains_key(ev.path) {
                None
            } else if after[ev.path] {
                Some(copy_task(root, remote_root, ev.path))
            } else {
                Some(mkdir_task(root, remote_root, ev.path))
            },
            Op::WRITE => if after.contains_key(ev.path) && after[ev.path] {
                Some(copy_task(root, remote_root, ev.path))
            } else {
                None
            },
            Op::RENAME => if after.contains_key(ev.path) {
                Some(
                    move_task(
                        "RENAME"@,
                        root,
                        remote_root,
                        ev.old_path,
                        after[ev.path],
                        ev.path,
                        after[ev.path],
                    ),
                )
            } else {
                None
            },
            Op::REMOVE => if before.contains_key(ev.path) {
                Some(remove_task(root, remote_root, ev.path, before[ev.path]))
            } else {
                None
            },
            Op::CHMOD => None,
        }
    }
}

/// The tasks of one event taken by itself: one or none.
pub open spec fn event_tasks(
    ev: PathOpView,
    before: Map<Seq<char>, bool>,
    after: Map<Seq<char>, bool>,
    root: Seq<char>,
    remote_root: Seq<char>,
    patterns: Seq<Seq<char>>,
) -> Seq<TaskView> {
    match event_task(ev, before, after, root, remote_root, patterns) {
        Some(t) => seq![t],
        None => Seq::empty(),
    }
}

/// The tasks for the events of `batch` from position `i` on, where `i` starts
/// a chunk of two.
pub open spec fn plan_from(
    batch: Seq<PathOpView>,
    i: int,
    before: Map<Seq<char>, bool>,
    after: Map<Seq<char>, bool>,
    root: Seq<char>,
    remote_root: Seq<char>,
    patterns: Seq<Seq<char>>,
) -> Seq<TaskView>
    decreases batch.len() - i,
{
    if i < 0 || i >= batch.len() {
        Seq::empty()
    } else if i + 1 >= batch.len() {
        event_tasks(batch[i], before, after, root, remote_root, patterns)
    } else if is_move_pair(batch[i], batch[i + 1], before, after, patterns) {
        seq![pair_task(batch[i], batch[i + 1], before, after, root, remote_root)] + plan_from(
            batch,
            i + 2,
            before,
            after,
            root,
            remote_root,
            patterns,
        )
    } else {
        event_tasks(batch[i], before, after, root, remote_root, patterns) + event_tasks(
            batch[i + 1],
            before,
            after,
            root,
            remote_root,
            patterns,
        ) + plan_from(batch, i + 2, before, after, root, remote_root, patterns)
    }
}

/// The tasks planned for a whole batch.
pub open spec fn plan_spec(
    batch: Seq<PathOpView>,
    before: Map<Seq<char>, bool>,
    after: Map<Seq<char>, bool>,
    root: Seq<char>,
    remote_root: Seq<char>,
    patterns: Seq<Seq<char>>,
) -> Seq<TaskView> {
    plan_from(batch, 0, before, after, root, remote_root, patterns)
}

/// `remote_root`, a slash, and `p`.
pub fn join_remote(remote_root: &str, p: &str) -> (out: String)
    ensures
        out@ == remote_join(remote_root@, p@),
{
    let mut out = String::from_str(remote_root);
    out.append("/");
    out.append(p);
    proof {
        reveal_strlit("/");
        assert("/"@ =~= seq!['/']);
    }
    out
}

/// Builds the remote rename of `from` to `to`.
pub fn make_move(
    label: &str,
    root: &str,
    remote_root: &str,
    from: &str,
    from_is_file: bool,
    to: &str,
    to_is_file: bool,
) -> (task: Task)
    ensures
        task@ == move_task(label@, root@, remote_root@, from@, from_is_file, to@, to_is_file),
{
    let f = upload_path(root, from, from_is_file, true);
    let t = upload_path(root, to, to_is_file, true);
    let mut remote_args: Vec<String> = Vec::new();
    remote_args.push(join_remote(remote_root, f.as_str()));
    remote_args.push(join_remote(remote_root, t.as_str()));
    let mut description = String::from_str(label);
    description.append(" from: ");
    description.append(f.as_str());
    description.append(" to: ");
    description.append(t.as_str());
    let task = Task { verb: Verb::MoveTo, remote_args, description };
    assert(task@.remote_args =~= seq![
        remote_join(remote_root@, f@),
        remote_join(remote_root@, t@),
    ]);
    task
}

/// Builds the upload of the file `path`.
pub fn make_copy(root: &str, remote_root: &str, path: &str) -> (task: Task)
    ensures
        task@ == copy_task(root@, remote_root@, path@),
{
    let target = upload_path(root, path, true, false);
    let shown = upload_path(root, path, true, true);
    let mut remote_args: Vec<String> = Vec::new();
    remote_args.push(String::from_str(path));
    remote_args.push(join_remote(remote_root, target.as_str()));
    let mut description = String::from_str("COPY ");
    description.append(shown.as_str());
    let task = Task { verb: Verb::Copy, remote_args, description };
    assert(task@.remote_args =~= seq![path@, remote_join(remote_root@, target@)]);
    task
}

/// Builds the creation of the remote directory for `path`.
pub fn make_mkdir(root: &str, remote_root: &str, path: &str) -> (task: Task)
    ensures
        task@ == mkdir_task(root@, remote_root@, path@),
{
    let target = upload_path(root, path, false, false);
    let shown = upload_path(root, path, false, true);
    let mut remote_args: Vec<String> = Vec::new();
    remote_args.push(join_remote(remote_root, target.as_str()));
    let mut description = String::from_str("MKDIR ");
    description.append(shown.as_str());
    let task = Task { verb: Verb::Mkdir, remote_args, description };
    assert(task@.remote_args =~= seq![remote_join(remote_root@, target@)]);
    task
}

/// Builds the removal of what `path` was on the remote side.
pub fn make_remove(root: &str, remote_root: &str, path: &str, was_file: bool) -> (task: Task)
    ensures
        task@ == remove_task(root@, remote_root@, path@, was_file),
{
    let target = upload_path(root, path, false, false);
    let mut remote_args: Vec<String> = Vec::new();
    remote_args.push(join_remote(remote_root, target.as_str()));
    let mut description = if was_file {
        String::from_str("DELETE ")
    } else {
        String::from_str("PURGE ")
    };
    description.append(target.as_str());
    let verb = if was_file {
        Verb::Delete
    } else {
        Verb::Purge
    };
    let task = Task { verb, remote_args, description };
    assert(task@.remote_args =~= seq![remote_join(remote_root@, target@)]);
    task
}

/// Decides [`excluded_event`].
pub fn is_excluded(ev: &PathOp, matcher: &IgnoreMatcher) -> (b: bool)
    ensures
        b == excluded_event(ev@, matcher.patterns()),
{
    if matcher.matches(ev.path.as_str()) {
        true
    } else if ev.old_path == ev.path {
        false
    } else {
        matcher.matches(ev.old_path.as_str())
    }
}

/// Decides whether two adjacent events are taken for one move.
pub fn detect_move(
    first: &PathOp,
    second: &PathOp,
    before: &Snapshot,
    after: &Snapshot,
    matcher: &IgnoreMatcher,
) -> (b: bool)
    ensures
        b == is_move_pair(first@, second@, before@, after@, matcher.patterns()),
{
    first.op == Op::REMOVE && (second.op == Op::CREATE || second.op == Op::WRITE)
        && before.contains(first.path.as_str()) && after.contains(second.path.as_str())
        && !is_excluded(first, matcher) && !is_excluded(second, matcher)
}

/// Classifies one event by itself.
pub fn classify(
    ev: &PathOp,
    before: &Snapshot,
    after: &Snapshot,
    root: &str,
    remote_root: &str,
    matcher: &IgnoreMatcher,
) -> (task: Option<Task>)
    ensures
        task.deep_view() == event_task(
            ev@,
            before@,
            after@,
            root@,
            remote_root@,
            matcher.patterns(),
        ),
{
    if is_excluded(ev, matcher) {
        return None;
    }
    let path = ev.path.as_str();
    match ev.op {
        Op::CREATE => match after.kind(path) {
            Some(true) => Some(make_copy(root, remote_root, path)),
            Some(false) => Some(make_mkdir(root, remote_root, path)),
            None => None,
        },
        Op::WRITE => match after.kind(path) {
            Some(true) => Some(make_copy(root, remote_root, path)),
            _ => None,
        },
        Op::RENAME => match after.kind(path) {
            Some(is_file) => Some(
                make_move(
                    "RENAME",
                    root,
                    remote_root,
                    ev.old_path.as_str(),
                    is_file,
                    path,
                    is_file,
                ),
            ),
            None => None,
        },
        Op::REMOVE => match before.kind(path) {
            Some(was_file) => Some(make_remove(root, remote_root, path, was_file)),
            None => None,
        },
        Op::CHMOD => None,
    }
}

/// Plans the remote operations for `batch`.
///
/// `before` is the snapshot the batch started from, `after` the one taken when
/// it was complete. The result is exactly [`plan_spec`]: for each chunk of two
/// events either the one move they stand for, or the tasks of each event by
/// itself, in the order of the batch.
pub fn plan(
    batch: &Vec<PathOp>,
    before: &Snapshot,
    after: &Snapshot,
    root: &str,
    remote_root: &str,
    matcher: &IgnoreMatcher,
) -> (tasks: Vec<Task>)
    ensures
        tasks.deep_view() == plan_spec(
            batch.deep_view(),
            before@,
            after@,
            root@,
            remote_root@,
            matcher.patterns(),
        ),
        forall|k: int|
            0 <= k < tasks.len() ==> has_source(
                (#[trigger] tasks[k])@,
                batch.deep_view(),
                before@,
                after@,
                root@,
                remote_root@,
                matcher.patterns(),
            ),
{
    let ghost events = batch.deep_view();
    let ghost whole = plan_spec(events, before@, after@, root@, remote_root@, matcher.patterns());
    let mut tasks: Vec<Task> = Vec::new();
    let mut i: usize = 0;
    assert(tasks.deep_view() =~= Seq::<TaskView>::empty());
    while i < batch.len()
        invariant
            i <= batch.len(),
            events == batch.deep_view(),
            whole == tasks.deep_view() + plan_from(
                events,
                i as int,
                before@,
                after@,
                root@,
                remote_root@,
                matcher.patterns(),
            ),
        decreases batch.len() - i,
    {
        let ghost done = tasks.deep_view();
        let ghost rest = plan_from(
            events,
            i + 2,
            before@,
            after@,
            root@,
            remote_root@,
            matcher.patterns(),
        );
        assert(events[i as int] == batch[i as int]@);
        if i + 1 < batch.len() {
            assert(events[i + 1] == batch[i + 1]@);
            if detect_move(&batch[i], &batch[i + 1], before, after, matcher) {
                let first = &batch[i];
                let second = &batch[i + 1];
                let from_is_file = before.kind(first.path.as_str()).unwrap();
                let to_is_file = after.kind(second.path.as_str()).unwrap();
                let task = make_move(
                    "MOVE",
                    root,
                    remote_root,
                    first.path.as_str(),
                    from_is_file,
                    second.path.as_str(),
                    to_is_file,
                );
                tasks.push(task);
                assert(tasks.deep_view() =~= done + seq![task@]);
                assert(whole =~= tasks.deep_view() + rest);
            } else {
                let one = classify(&batch[i], before, after, root, remote_root, matcher);
                let ghost first_tasks = event_tasks(
                    events[i as int],
                    before@,
                    after@,
                    root@,
                    remote_root@,
                    matcher.patterns(),
                );
                if let Some(task) = one {
                    tasks.push(task);
                    assert(tasks.deep_view() =~= done + seq![task@]);
                }
                assert(tasks.deep_view() =~= done + first_tasks);
                let ghost mid = tasks.deep_view();
                let two = classify(&batch[i + 1], before, after, root, remote_root, matcher);
                let ghost second_tasks = event_tasks(
                    events[i + 1],
                    before@,
                    after@,
                    root@,
                    remote_root@,
                    matcher.patterns(),
                );
                if let Some(task) = two {
                    tasks.push(task);
                    assert(tasks.deep_view() =~= mid + seq![task@]);
                }
                assert(tasks.deep_view() =~= done + first_tasks + second_tasks);
                assert(whole =~= tasks.deep_view() + rest);
            }
            i += 2;
        } else {
            let one = classify(&batch[i], before, after, root, remote_root, matcher);
            if let Some(task) = one {
                tasks.push(task);
                assert(tasks.deep_view() =~= done + seq![task@]);
            }
            assert(whole =~= tasks.deep_view() + Seq::<TaskView>::empty());
            i += 1;
        }
    }
    assert(plan_from(events, i as int, before@, after@, root@, remote_root@, matcher.patterns())
        =~= Seq::<TaskView>::empty());
    assert(whole =~= tasks.deep_view());
    proof {
        lemma_plan_skips_excluded(events, before@, after@, root@, remote_root@, matcher.patterns());
        assert forall|k: int| 0 <= k < tasks.len() implies has_source(
            (#[trigger] tasks[k])@,
            events,
            before@,
            after@,
            root@,
            remote_root@,
            matcher.patterns(),
        ) by {
            assert(tasks[k]@ == whole[k]);
        }
    }
    tasks
}

/// How long to let the remote side settle after one rename, in milliseconds.
pub const SETTLE_MS: u64 = 100;

/// Whether `ev` is a rename that yields a task.
pub open spec fn is_planned_rename(
    ev: PathOpView,
    after: Map<Seq<char>, bool>,
    patterns: Seq<Seq<char>>,
) -> bool {
    ev.op == Op::RENAME && !excluded_event(ev, patterns) && after.contains_key(ev.path)
}

/// How many renames of `batch` yield a task.
pub open spec fn planned_renames(
    batch: Seq<PathOpView>,
    after: Map<Seq<char>, bool>,
    patterns: Seq<Seq<char>>,
) -> nat
    decreases batch.len(),
{
    if batch.len() == 0 {
        0
    } else {
        planned_renames(batch.drop_last(), after, patterns) + if is_planned_rename(
            batch.last(),
            after,
            patterns,
        ) {
            1nat
        } else {
            0nat
        }
    }
}

/// The settle delay a batch asks for: `SETTLE_MS` for each rename that yields
/// a task, and no more than a `u64` holds.
pub fn settle_millis(batch: &Vec<PathOp>, after: &Snapshot, matcher: &IgnoreMatcher) -> (ms: u64)
    ensures
        ms == if SETTLE_MS * planned_renames(batch.deep_view(), after@, matcher.patterns())
            <= u64::MAX {
            SETTLE_MS * planned_renames(batch.deep_view(), after@, matcher.patterns())
        } else {
            u64::MAX as int
        },
{
    let ghost events = batch.deep_view();
    let mut ms: u64 = 0;
    let mut i: usize = 0;
    assert(events.take(0) =~= Seq::<PathOpView>::empty());
    while i < batch.len()
        invariant
            i <= batch.len(),
            events == batch.deep_view(),
            ms == if SETTLE_MS * planned_renames(events.take(i as int), after@, matcher.patterns())
                <= u64::MAX {
                SETTLE_MS * planned_renames(events.take(i as int), after@, matcher.patterns())
            } else {
                u64::MAX as int
            },
        decreases batch.len() - i,
    {
        assert(events.take(i + 1).drop_last() =~= events.take(i as int));
        assert(events.take(i + 1).last() == batch[i as int]@);
        let ev = &batch[i];
        if ev.op == Op::RENAME && !is_excluded(ev, matcher) && after.contains(
            ev.path.as_str(),
        ) {
            ms = if ms <= u64::MAX - SETTLE_MS {
                ms + SETTLE_MS
            } else {
                u64::MAX
            };
        }
        i += 1;
    }
    assert(events.take(i as int) =~= events);
    ms
}

/// Whether `task` is what the event at `j` of `batch` yields, by itself or as
/// the first of a move pair, with no excluded path, old or new, among the
/// events it reads.
pub open spec fn stems_from(
    task: TaskView,
    batch: Seq<PathOpView>,
    j: int,
    before: Map<Seq<char>, bool>,
    after: Map<Seq<char>, bool>,
    root: Seq<char>,
    remote_root: Seq<char>,
    patterns: Seq<Seq<char>>,
) -> bool {
    &&& 0 <= j < batch.len()
    &&& !any_matches(patterns, batch[j].path)
    &&& !any_matches(patterns, batch[j].old_path)
    &&& {
        ||| event_task(batch[j], before, after, root, remote_root, patterns) == Some(task)
        ||| {
            &&& j + 1 < batch.len()
            &&& !any_matches(patterns, batch[j + 1].path)
            &&& !any_matches(patterns, batch[j + 1].old_path)
            &&& is_move_pair(batch[j], batch[j + 1], before, after, patterns)
            &&& task == pair_task(batch[j], batch[j + 1], before, after, root, remote_root)
        }
    }
}

/// Every task planned from position `i` on stems from events that are not
/// excluded.
pub proof fn lemma_plan_from_skips_excluded(
    batch: Seq<PathOpView>,
    i: int,
    before: Map<Seq<char>, bool>,
    after: Map<Seq<char>, bool>,
    root: Seq<char>,
    remote_root: Seq<char>,
    patterns: Seq<Seq<char>>,
    k: int,
)
    requires
        0 <= k < plan_from(batch, i, before, after, root, remote_root, patterns).len(),
    ensures
        exists|j: int|
            stems_from(
                plan_from(batch, i, before, after, root, remote_root, patterns)[k],
                batch,
                j,
                before,
                after,
                root,
                remote_root,
                patterns,
            ),
    decreases batch.len() - i,
{
    let tasks = plan_from(batch, i, before, after, root, remote_root, patterns);
    let rest = plan_from(batch, i + 2, before, after, root, remote_root, patterns);
    let one = event_tasks(batch[i], before, after, root, remote_root, patterns);
    if i + 1 >= batch.len() {
        assert(stems_from(tasks[k], batch, i, before, after, root, remote_root, patterns));
    } else if is_move_pair(batch[i], batch[i + 1], before, after, patterns) {
        if k == 0 {
            assert(stems_from(tasks[k], batch, i, before, after, root, remote_root, patterns));
        } else {
            assert(tasks[k] == rest[k - 1]);
            lemma_plan_from_skips_excluded(
                batch,
                i + 2,
                before,
                after,
                root,
                remote_root,
                patterns,
                k - 1,
            );
        }
    } else {
        let two = event_tasks(batch[i + 1], before, after, root, remote_root, patterns);
        if k < one.len() {
            assert(tasks[k] == one[k]);
            assert(stems_from(tasks[k], batch, i, before, after, root, remote_root, patterns));
        } else if k < one.len() + two.len() {
            assert(tasks[k] == two[k - one.len()]);
            assert(stems_from(tasks[k], batch, i + 1, before, after, root, remote_root, patterns));
        } else {
            assert(tasks[k] == rest[k - one.len() - two.len()]);
            lemma_plan_from_skips_excluded(
                batch,
                i + 2,
                before,
                after,
                root,
                remote_root,
                patterns,
                k - one.len() - two.len(),
            );
        }
    }
}

/// Whether `task` stems from some event of `batch`, or move pair of events,
/// whose paths are not excluded.
pub open spec fn has_source(
    task: TaskView,
    batch: Seq<PathOpView>,
    before: Map<Seq<char>, bool>,
    after: Map<Seq<char>, bool>,
    root: Seq<char>,
    remote_root: Seq<char>,
    patterns: Seq<Seq<char>>,
) -> bool {
    exists|j: int| stems_from(task, batch, j, before, after, root, remote_root, patterns)
}

/// No planned task refers to an excluded path: each task of a plan stems from
/// an event, or a move pair of events, whose paths the matcher does not
/// exclude.
pub proof fn lemma_plan_skips_excluded(
    batch: Seq<PathOpView>,
    before: Map<Seq<char>, bool>,
    after: Map<Seq<char>, bool>,
    root: Seq<char>,
    remote_root: Seq<char>,
    patterns: Seq<Seq<char>>,
)
    ensures
        forall|k: int|
            0 <= k < plan_spec(batch, before, after, root, remote_root, patterns).len()
                ==> has_source(
                #[trigger] plan_spec(batch, before, after, root, remote_root, patterns)[k],
                batch,
                before,
                after,
                root,
                remote_root,
                patterns,
            ),
{
    let tasks = plan_spec(batch, before, after, root, remote_root, patterns);
    assert forall|k: int| 0 <= k < tasks.len() implies has_source(
        #[trigger] tasks[k],
        batch,
        before,
        after,
        root,
        remote_root,
        patterns,
    ) by {
        lemma_plan_from_skips_excluded(batch, 0, before, after, root, remote_root, patterns, k);
    }
}

/// No planned task is built from an excluded path: the task at `k` of a plan
/// stems from an event, or a move pair of events, none of whose paths, old or
/// new, the matcher excludes.
pub proof fn lemma_plan_refers_to_no_excluded_path(
    batch: Seq<PathOpView>,
    before: Map<Seq<char>, bool>,
    after: Map<Seq<char>, bool>,
    root: Seq<char>,
    remote_root: Seq<char>,
    patterns: Seq<Seq<char>>,
    k: int,
)
    requires
        0 <= k < plan_spec(batch, before, after, root, remote_root, patterns).len(),
    ensures
        exists|j: int|
            stems_from(
                plan_spec(batch, before, after, root, remote_root, patterns)[k],
                batch,
                j,
                before,
                after,
                root,
                remote_root,
                patterns,
            ) && !excluded_event(batch[j], patterns),
{
    lemma_plan_from_skips_excluded(batch, 0, before, after, root, remote_root, patterns, k);
    let task = plan_spec(batch, before, after, root, remote_root, patterns)[k];
    let j = choose|j: int|
        stems_from(task, batch, j, before, after, root, remote_root, patterns);
    assert(stems_from(task, batch, j, before, after, root, remote_root, patterns)
        && !excluded_event(batch[j], patterns));
}

/// An excluded event never yields a task of its own, whatever its kind.
pub proof fn lemma_excluded_event_yields_nothing(
    ev: PathOpView,
    before: Map<Seq<char>, bool>,
    after: Map<Seq<char>, bool>,
    root: Seq<char>,
    remote_root: Seq<char>,
    patterns: Seq<Seq<char>>,
)
    requires
        excluded_event(ev, patterns),
    ensures
        event_task(ev, before, after, root, remote_root, patterns) is None,
        forall|other: PathOpView|
            !is_move_pair(ev, other, before, after, patterns) && !is_move_pair(
                other,
                ev,
                before,
                after,
                patterns,
            ),
{
}

/// A batch whose events are all excluded plans nothing.
pub proof fn lemma_excluded_batch_plans_nothing(
    batch: Seq<PathOpView>,
    before: Map<Seq<char>, bool>,
    after: Map<Seq<char>, bool>,
    root: Seq<char>,
    remote_root: Seq<char>,
    patterns: Seq<Seq<char>>,
)
    requires
        forall|j: int| 0 <= j < batch.len() ==> excluded_event(#[trigger] batch[j], patterns),
    ensures
        plan_spec(batch, before, after, root, remote_root, patterns).len() == 0,
{
    let tasks = plan_spec(batch, before, after, root, remote_root, patterns);
    if tasks.len() > 0 {
        lemma_plan_from_skips_excluded(batch, 0, before, after, root, remote_root, patterns, 0);
    }
}

/// A removal directly followed by the creation of another path, the first
/// tracked before and the second after, neither excluded, is planned as
/// exactly one remote move, not as a deletion and an upload. Neither event is
/// a rename, so each has one path only.
pub proof fn lemma_remove_then_create_is_one_move(
    removed: PathOpView,
    created: PathOpView,
    before: Map<Seq<char>, bool>,
    after: Map<Seq<char>, bool>,
    root: Seq<char>,
    remote_root: Seq<char>,
    patterns: Seq<Seq<char>>,
)
    requires
        removed.wf(),
        created.wf(),
        removed.op == Op::REMOVE,
        created.op == Op::CREATE,
        removed.path != created.path,
        before.contains_key(removed.path),
        after.contains_key(created.path),
        !any_matches(patterns, removed.path),
        !any_matches(patterns, created.path),
    ensures
        plan_spec(seq![removed, created], before, after, root, remote_root, patterns) == seq![
            pair_task(removed, created, before, after, root, remote_root),
        ],
        pair_task(removed, created, before, after, root, remote_root).verb == Verb::MoveTo,
{
    let batch = seq![removed, created];
    assert(plan_from(batch, 2, before, after, root, remote_root, patterns) =~= Seq::empty());
    assert(plan_from(batch, 0, before, after, root, remote_root, patterns) =~= seq![
        pair_task(removed, created, before, after, root, remote_root),
    ]);
}

/// Planning is repeatable: two plans of the same batch against the same
/// snapshots, roots and patterns are the same list of tasks.
pub proof fn lemma_plan_repeatable(
    first: Seq<TaskView>,
    second: Seq<TaskView>,
    batch: Seq<PathOpView>,
    before: Map<Seq<char>, bool>,
    after: Map<Seq<char>, bool>,
    root: Seq<char>,
    remote_root: Seq<char>,
    patterns: Seq<Seq<char>>,
)
    requires
        first == plan_spec(batch, before, after, root, remote_root, patterns),
        second == plan_spec(batch, before, after, root, remote_root, patterns),
    ensures
        first == second,
{
}

} // verus!
