use vstd::prelude::*;

verus! {

/// A file modification timestamp, at the best resolution the filesystem
/// provides. Two `ModTime` values are only ever compared for equality:
/// equality means "unchanged", inequality means "rewritten". No ordering
/// or recency comparison is ever made.
#[derive(Clone, Copy, PartialEq, Eq, Structural, Debug)]
pub struct ModTime {
    pub secs: i64,
    pub nanos: u32,
}

} // verus!
