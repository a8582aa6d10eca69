use vstd::prelude::*;

verus! {

/// What the player asks the engine to do.
#[derive(Debug, Clone, Copy, PartialEq, Eq, Structural)]
#[allow(inconsistent_fields)]
pub enum Command {
    MoveCursor { delta: i32 },
    Select { index: u32 },
    Choose { index: u8 },
    Continue,
    Notes,
    Help,
    Close,
    Quit,
}

/// Whether the caller should write the lineage after a step.
#[derive(Debug, Clone, Copy, PartialEq, Eq, Structural)]
pub enum PersistHint {
    Flush,
    Skip,
}

} // verus!
