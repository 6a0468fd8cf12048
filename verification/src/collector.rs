//! The event collector: raw notifications coalesced into batches.
//!
//! The collector waits for a first notification, then keeps collecting for as
//! long as notifications arrive within the quiet window. When the window
//! passes with nothing new, the batch is complete. Advisory notifications are
//! noise: they are never part of a batch. The collector decides; waiting on
//! the watch subscription is left to whoever drives it.

use vstd::prelude::*;
use crate::pathop::{Op, PathOp, PathOpView};

verus! {

/// The quiet window, in milliseconds.
pub const QUIET_WINDOW_MS: u64 = 500;

/// A notification as the watch subscription reports it.
#[derive(Debug, Clone, PartialEq, Eq)]
pub enum RawEvent {
    Create(String),
    Write(String),
    Rename(String, String),
    Remove(String),
    Chmod(String),
    /// An advisory notification, or one that carries no change.
    Noise,
}

/// The change a notification stands for; none for noise.
pub open spec fn change_of(raw: RawEvent) -> Option<PathOpView> {
    match raw {
        RawEvent::Create(p) => Some(PathOpView { old_path: p@, path: p@, op: Op::CREATE }),
        RawEvent::Write(p) => Some(PathOpView { old_path: p@, path: p@, op: Op::WRITE }),
        RawEvent::Rename(old, new) => Some(
            PathOpView { old_path: old@, path: new@, op: Op::RENAME },
        ),
        RawEvent::Remove(p) => Some(PathOpView { old_path: p@, path: p@, op: Op::REMOVE }),
        RawEvent::Chmod(p) => Some(PathOpView { old_path: p@, path: p@, op: Op::CHMOD }),
        RawEvent::Noise => None,
    }
}

/// Turns a notification into the change it stands for.
pub fn to_change(raw: &RawEvent) -> (change: Option<PathOp>)
    ensures
        change.deep_view() == change_of(*raw),
{
    match raw {
        RawEvent::Create(p) => Some(PathOp::new(p.as_str(), p.as_str(), Op::CREATE)),
        RawEvent::Write(p) => Some(PathOp::new(p.as_str(), p.as_str(), Op::WRITE)),
        RawEvent::Rename(old, new) => Some(PathOp::new(old.as_str(), new.as_str(), Op::RENAME)),
        RawEvent::Remove(p) => Some(PathOp::new(p.as_str(), p.as_str(), Op::REMOVE)),
        RawEvent::Chmod(p) => Some(PathOp::new(p.as_str(), p.as_str(), Op::CHMOD)),
        RawEvent::Noise => None,
    }
}

/// What the collector is told.
#[derive(Debug, Clone, PartialEq, Eq)]
pub enum Signal {
    /// A notification arrived.
    Notification(RawEvent),
    /// The wait ended with no notification.
    QuietElapsed,
}

/// How long to wait for the next notification.
#[derive(Debug, Clone, Copy, PartialEq, Eq, Structural)]
pub enum Wait {
    /// No batch is open: wait until something arrives.
    Indefinitely,
    /// A batch is open: wait for the quiet window at most.
    Quiet { millis: u64 },
}

/// The collector as plain values: whether a batch is open, and the changes
/// collected so far.
pub struct CollectorView {
    pub collecting: bool,
    pub batch: Seq<PathOpView>,
}

/// The collector after `signal`.
pub open spec fn collector_after(state: CollectorView, signal: Signal) -> CollectorView {
    match signal {
        Signal::Notification(raw) => match change_of(raw) {
            Some(change) => CollectorView { collecting: true, batch: state.batch.push(change) },
            None => state,
        },
        Signal::QuietElapsed => CollectorView { collecting: false, batch: Seq::empty() },
    }
}

/// The batch that `signal` completes, if it completes one: the quiet window
/// passed while a batch was open.
pub open spec fn delivered_by(state: CollectorView, signal: Signal) -> Option<Seq<PathOpView>> {
    match signal {
        Signal::QuietElapsed => if state.collecting {
            Some(state.batch)
        } else {
            None
        },
        Signal::Notification(_) => None,
    }
}

/// Coalesces notifications into batches.
#[derive(Debug)]
pub struct Collector {
    collecting: bool,
    batch: Vec<PathOp>,
}

impl View for Collector {
    type V = CollectorView;

    closed spec fn view(&self) -> CollectorView {
        CollectorView { collecting: self.collecting, batch: self.batch.deep_view() }
    }
}

impl Collector {
    /// A batch is open only once it holds a change.
    pub open spec fn wf(&self) -> bool {
        self@.collecting == (self@.batch.len() > 0)
    }

    /// A collector with no batch open.
    pub fn new() -> (c: Collector)
        ensures
            c@ == (CollectorView { collecting: false, batch: Seq::empty() }),
            c.wf(),
    {
        let c = Collector { collecting: false, batch: Vec::new() };
        assert(c@.batch =~= Seq::<PathOpView>::empty());
        c
    }

    /// How long to wait for the next notification.
    pub fn wait(&self) -> (w: Wait)
        ensures
            w == if self@.collecting {
                Wait::Quiet { millis: QUIET_WINDOW_MS }
            } else {
                Wait::Indefinitely
            },
    {
        if self.collecting {
            Wait::Quiet { millis: QUIET_WINDOW_MS }
        } else {
            Wait::Indefinitely
        }
    }

    /// Takes one signal. A change is appended to the open batch, opening one
    /// if need be; noise is dropped. When the quiet window passes, the open
    /// batch is handed out, in arrival order, and the collector starts over.
    pub fn on_signal(&mut self, signal: Signal) -> (delivered: Option<Vec<PathOp>>)
        ensures
            final(self)@ == collector_after(old(self)@, signal),
            delivered.deep_view() == delivered_by(old(self)@, signal),
            old(self).wf() ==> final(self).wf(),
    {
        match signal {
            Signal::Notification(raw) => {
                let ghost before = self.batch.deep_view();
                match to_change(&raw) {
                    Some(change) => {
                        self.batch.push(change);
                        self.collecting = true;
                        assert(self.batch.deep_view() =~= before.push(change@));
                    },
                    None => {},
                }
                None
            },
            Signal::QuietElapsed => {
                let was_collecting = self.collecting;
                let mut batch: Vec<PathOp> = Vec::new();
                assert(batch.deep_view() =~= Seq::<PathOpView>::empty());
                core::mem::swap(&mut self.batch, &mut batch);
                self.collecting = false;
                if was_collecting {
                    Some(batch)
                } else {
                    None
                }
            },
        }
    }
}

} // verus!
