//! Change events: what happened to which path.

use vstd::prelude::*;
use vstd::string::*;

verus! {

/// The kind of a change.
#[derive(Debug, Clone, Copy, Eq, PartialEq, Structural)]
pub enum Op {
    CREATE,
    WRITE,
    RENAME,
    REMOVE,
    CHMOD,
}

/// One change event. `old_path` equals `path` except for a rename.
#[derive(Debug, Clone, Eq, PartialEq)]
pub struct PathOp {
    pub old_path: String,
    pub path: String,
    pub op: Op,
}

/// A change event as plain text and kind.
pub struct PathOpView {
    pub old_path: Seq<char>,
    pub path: Seq<char>,
    pub op: Op,
}

impl PathOpView {
    /// The event invariant: only a rename has an old path of its own.
    pub open spec fn wf(self) -> bool {
        self.op != Op::RENAME ==> self.old_path == self.path
    }
}

impl View for PathOp {
    type V = PathOpView;

    open spec fn view(&self) -> PathOpView {
        PathOpView { old_path: self.old_path@, path: self.path@, op: self.op }
    }
}

impl DeepView for PathOp {
    type V = PathOpView;

    open spec fn deep_view(&self) -> PathOpView {
        self@
    }
}

impl PathOp {
    /// The event `op` on `path`, which was `old_path` before.
    pub fn new(old_path: &str, path: &str, op: Op) -> (r: PathOp)
        ensures
            r@ == (PathOpView { old_path: old_path@, path: path@, op: op }),
    {
        PathOp { old_path: String::from_str(old_path), path: String::from_str(path), op: op }
    }
}

} // verus!
