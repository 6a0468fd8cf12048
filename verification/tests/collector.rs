use rclone_ignore::collector::{to_change, Collector, RawEvent, Signal, Wait, QUIET_WINDOW_MS};
use rclone_ignore::pathop::{Op, PathOp};

fn note(raw: RawEvent) -> Signal {
    Signal::Notification(raw)
}

#[test]
fn quiet_window_is_half_a_second() {
    assert_eq!(QUIET_WINDOW_MS, 500);
}

#[test]
fn idle_collector_waits_indefinitely() {
    let c = Collector::new();
    assert_eq!(c.wait(), Wait::Indefinitely);
}

#[test]
fn burst_is_delivered_as_one_batch_in_arrival_order() {
    let mut c = Collector::new();
    assert_eq!(c.on_signal(note(RawEvent::Create("/sync/a".to_string()))), None);
    assert_eq!(c.wait(), Wait::Quiet { millis: 500 });
    assert_eq!(c.on_signal(note(RawEvent::Write("/sync/a".to_string()))), None);
    assert_eq!(
        c.on_signal(note(RawEvent::Rename("/sync/a".to_string(), "/sync/b".to_string()))),
        None
    );
    assert_eq!(c.on_signal(note(RawEvent::Remove("/sync/c".to_string()))), None);
    assert_eq!(c.on_signal(note(RawEvent::Chmod("/sync/b".to_string()))), None);
    let batch = c.on_signal(Signal::QuietElapsed).unwrap();
    assert_eq!(
        batch,
        vec![
            PathOp::new("/sync/a", "/sync/a", Op::CREATE),
            PathOp::new("/sync/a", "/sync/a", Op::WRITE),
            PathOp::new("/sync/a", "/sync/b", Op::RENAME),
            PathOp::new("/sync/c", "/sync/c", Op::REMOVE),
            PathOp::new("/sync/b", "/sync/b", Op::CHMOD),
        ]
    );
    assert_eq!(c.wait(), Wait::Indefinitely);
}

#[test]
fn noise_is_never_part_of_a_batch() {
    let mut c = Collector::new();
    assert_eq!(c.on_signal(note(RawEvent::Noise)), None);
    assert_eq!(c.wait(), Wait::Indefinitely);
    c.on_signal(note(RawEvent::Create("/sync/a".to_string())));
    assert_eq!(c.on_signal(note(RawEvent::Noise)), None);
    assert_eq!(c.wait(), Wait::Quiet { millis: 500 });
    let batch = c.on_signal(Signal::QuietElapsed).unwrap();
    assert_eq!(batch, vec![PathOp::new("/sync/a", "/sync/a", Op::CREATE)]);
}

#[test]
fn quiet_window_with_no_open_batch_delivers_nothing() {
    let mut c = Collector::new();
    assert_eq!(c.on_signal(Signal::QuietElapsed), None);
    c.on_signal(note(RawEvent::Noise));
    assert_eq!(c.on_signal(Signal::QuietElapsed), None);
}

#[test]
fn collector_starts_over_after_a_delivery() {
    let mut c = Collector::new();
    c.on_signal(note(RawEvent::Create("/sync/a".to_string())));
    assert!(c.on_signal(Signal::QuietElapsed).is_some());
    assert_eq!(c.on_signal(Signal::QuietElapsed), None);
    c.on_signal(note(RawEvent::Remove("/sync/a".to_string())));
    assert_eq!(
        c.on_signal(Signal::QuietElapsed),
        Some(vec![PathOp::new("/sync/a", "/sync/a", Op::REMOVE)])
    );
}

#[test]
fn to_change_maps_each_kind() {
    assert_eq!(
        to_change(&RawEvent::Rename("o".to_string(), "n".to_string())),
        Some(PathOp::new("o", "n", Op::RENAME))
    );
    assert_eq!(
        to_change(&RawEvent::Chmod("p".to_string())),
        Some(PathOp::new("p", "p", Op::CHMOD))
    );
    assert_eq!(to_change(&RawEvent::Noise), None);
}
