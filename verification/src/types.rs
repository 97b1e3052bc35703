use vstd::prelude::*;

verus! {

/// The facts about the current block that scheduling reads.
#[derive(Clone, Copy, Debug)]
pub struct BlockInfo {
    /// Height of the current block.
    pub height: u64,
    /// Time of the current block, in nanoseconds since the Unix epoch.
    pub time_nanos: u64,
}

/// The execution environment of a call: the current block.
#[derive(Clone, Copy, Debug)]
pub struct Env {
    pub block: BlockInfo,
}

/// One end of the window within which a task may run.
#[derive(Clone, Copy, Debug, PartialEq, Eq, Structural)]
pub enum BoundarySpec {
    /// A block height.
    Height(u64),
    /// A point in time, in nanoseconds since the Unix epoch.
    Time(u64),
}

/// The window within which a task may run; either end may be open.
#[derive(Clone, Copy, Debug, PartialEq, Eq, Structural)]
pub struct Boundary {
    pub start: Option<BoundarySpec>,
    pub end: Option<BoundarySpec>,
}

/// How often a task runs.
#[derive(Clone, Debug)]
pub enum Interval {
    /// Once, at the next block in the window.
    Once,
    /// At every block from the next one in the window on.
    Immediate,
    /// Every given number of blocks, on heights that are multiples of it.
    Block(u64),
    /// Whenever the cron expression fires.
    Cron(String),
}

/// Whether a slot is a block height or a timestamp.
#[derive(Clone, Copy, Debug, PartialEq, Eq, Structural)]
pub enum SlotType {
    Block,
    Cron,
}

} // verus!
