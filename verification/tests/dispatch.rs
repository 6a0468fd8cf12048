use rclone_ignore::dispatch::{
    command_line, decimal_text, record_outcome, record_outcomes, sync_arguments, verb_word,
    worker_count, Outcome, ToolStatus, DEFAULT_WORKERS,
};
use rclone_ignore::planner::{Task, Verb};

fn task(verb: Verb, args: &[&str], description: &str) -> Task {
    Task {
        verb,
        remote_args: args.iter().map(|a| a.to_string()).collect(),
        description: description.to_string(),
    }
}

#[test]
fn verbs_have_the_words_of_the_tool() {
    assert_eq!(verb_word(Verb::Copy), "copy");
    assert_eq!(verb_word(Verb::Mkdir), "mkdir");
    assert_eq!(verb_word(Verb::Delete), "delete");
    assert_eq!(verb_word(Verb::Purge), "purge");
    assert_eq!(verb_word(Verb::MoveTo), "moveto");
}

#[test]
fn command_line_is_the_verb_then_the_arguments() {
    let t = task(Verb::Copy, &["/sync/a.txt", "remote/"], "COPY a.txt");
    assert_eq!(command_line(&t), vec!["copy", "/sync/a.txt", "remote/"]);
    let t = task(Verb::MoveTo, &["remote/a", "remote/b"], "MOVE from: a to: b");
    assert_eq!(command_line(&t), vec!["moveto", "remote/a", "remote/b"]);
    let t = task(Verb::Purge, &[], "PURGE");
    assert_eq!(command_line(&t), vec!["purge"]);
}

#[test]
fn only_a_zero_exit_is_a_success() {
    let t = task(Verb::Mkdir, &["remote/d"], "MKDIR d/");
    assert_eq!(
        record_outcome(&t, ToolStatus::Exited { success: true }),
        Outcome { description: "MKDIR d/".to_string(), succeeded: true }
    );
    assert_eq!(
        record_outcome(&t, ToolStatus::Exited { success: false }),
        Outcome { description: "MKDIR d/".to_string(), succeeded: false }
    );
    assert_eq!(
        record_outcome(&t, ToolStatus::LaunchFailed),
        Outcome { description: "MKDIR d/".to_string(), succeeded: false }
    );
}

#[test]
fn worker_count_defaults_to_three() {
    assert_eq!(DEFAULT_WORKERS, 3);
    assert_eq!(worker_count(None), 3);
    assert_eq!(worker_count(Some(0)), 3);
    assert_eq!(worker_count(Some(1)), 1);
    assert_eq!(worker_count(Some(16)), 16);
}

#[test]
fn decimal_text_writes_numerals() {
    assert_eq!(decimal_text(0), "0");
    assert_eq!(decimal_text(7), "7");
    assert_eq!(decimal_text(10), "10");
    assert_eq!(decimal_text(12345), "12345");
    assert_eq!(decimal_text(9876543210), "9876543210");
    assert_eq!(decimal_text(usize::MAX), usize::MAX.to_string());
}

#[test]
fn sync_arguments_with_every_option() {
    assert_eq!(
        sync_arguments("remote:/p", "/sync", "/tmp/ex.txt", true, Some(8), Some("2.5")),
        vec![
            "sync",
            "remote:/p",
            "/sync",
            "--exclude-from",
            "/tmp/ex.txt",
            "--no-update-modtime",
            "--checkers",
            "8",
            "--tpslimit",
            "2.5",
            "--retries",
            "1",
        ]
    );
}

#[test]
fn sync_arguments_with_no_option() {
    assert_eq!(
        sync_arguments("remote", "/sync", "ex", false, None, None),
        vec!["sync", "remote", "/sync", "--exclude-from", "ex", "--retries", "1"]
    );
    assert_eq!(
        sync_arguments("remote", "/sync", "ex", false, Some(120), None),
        vec!["sync", "remote", "/sync", "--exclude-from", "ex", "--checkers", "120", "--retries", "1"]
    );
}

#[test]
fn a_failed_task_does_not_stop_the_batch() {
    let tasks = vec![
        task(Verb::Copy, &["/sync/a", "remote/"], "COPY a"),
        task(Verb::Delete, &["remote/b"], "DELETE b"),
        task(Verb::Mkdir, &["remote/c"], "MKDIR c/"),
    ];
    let statuses = vec![
        ToolStatus::Exited { success: false },
        ToolStatus::LaunchFailed,
        ToolStatus::Exited { success: true },
    ];
    assert_eq!(
        record_outcomes(&tasks, &statuses),
        vec![
            Outcome { description: "COPY a".to_string(), succeeded: false },
            Outcome { description: "DELETE b".to_string(), succeeded: false },
            Outcome { description: "MKDIR c/".to_string(), succeeded: true },
        ]
    );
    assert_eq!(record_outcomes(&vec![], &vec![]), vec![]);
}
