use vstd::prelude::*;
use crate::record::{RunResult, StageTraceEvent};

verus! {

pub const FETCH_WIDTH: usize = 4;
pub const DISPATCH_WIDTH: usize = 4;
pub const ISSUE_WIDTH: usize = 4;
pub const COMMIT_WIDTH: usize = 4;
pub const READ_PORTS: usize = 3;
pub const ROB_CAPACITY: usize = 128;
pub const PHYS_IQ_COUNT: usize = 8;
pub const IQ_CAPACITY: usize = 32;
pub const IQ_ENQUEUE_PORTS: usize = 2;
pub const LSU_WIDTH: usize = 1;
pub const L1D_WIDTH: usize = 1;
pub const FRONTEND_REDIRECT_RESTART_DELAY: u64 = 1;
pub const REG_T1: u8 = 24;
pub const REG_U1: u8 = 28;
pub const LD_GEN_E1: u8 = 1;
pub const LD_GEN_E2: u8 = 2;
pub const LD_GEN_E3: u8 = 4;
pub const LD_GEN_E4: u8 = 8;
/// Number of frontend stages: F0, F1, F2, F3, IB, F4, D1, D2, D3, S1, S2.
pub const FRONTEND_STAGE_COUNT: usize = 11;

/// Trap raised when a branch correction targets something other than a block start.
pub const TRAP_BRU_RECOVERY_NOT_BSTART: u64 = 0x4001;
/// Trap raised when a dynamic block target was never set up.
pub const TRAP_DYNAMIC_TARGET_MISSING: u64 = 0x4002;
/// Trap raised when a dynamic block target does not land on a block start.
pub const TRAP_DYNAMIC_TARGET_NOT_BSTART: u64 = 0x4003;
/// Trap raised when a dynamic block target was set up in an older block.
pub const TRAP_DYNAMIC_TARGET_STALE: u64 = 0x4004;
/// Trap raised when a SETRET does not directly follow its call header.
pub const TRAP_SETRET_NOT_ADJACENT: u64 = 0x4005;

/// Name of a frontend stage.
pub fn frontend_stage_name(idx: usize) -> (r: &'static str)
    requires
        idx < FRONTEND_STAGE_COUNT,
    ensures
        r@ == spec_frontend_stage_name(idx),
{
    match idx {
        0 => "F0",
        1 => "F1",
        2 => "F2",
        3 => "F3",
        4 => "IB",
        5 => "F4",
        6 => "D1",
        7 => "D2",
        8 => "D3",
        9 => "S1",
        _ => "S2",
    }
}

pub open spec fn spec_frontend_stage_name(idx: usize) -> Seq<char> {
    if idx == 0 {
        "F0"@
    } else if idx == 1 {
        "F1"@
    } else if idx == 2 {
        "F2"@
    } else if idx == 3 {
        "F3"@
    } else if idx == 4 {
        "IB"@
    } else if idx == 5 {
        "F4"@
    } else if idx == 6 {
        "D1"@
    } else if idx == 7 {
        "D2"@
    } else if idx == 8 {
        "D3"@
    } else if idx == 9 {
        "S1"@
    } else {
        "S2"@
    }
}

/// Knobs of a cycle-model run.
#[derive(Clone, Copy, Debug)]
pub struct CycleRunOptions {
    pub max_cycles: u64,
    pub load_miss_every: Option<u64>,
    pub load_miss_penalty: u64,
}

impl Default for CycleRunOptions {
    fn default() -> (r: Self)
        ensures
            r.max_cycles == 256,
            r.load_miss_every is None,
            r.load_miss_penalty == 8,
    {
        CycleRunOptions { max_cycles: 256, load_miss_every: None, load_miss_penalty: 8 }
    }
}

/// What a cycle-model run hands back: the architectural result and the trace.
#[derive(Clone, Debug)]
pub struct CycleRunBundle {
    pub result: RunResult,
    pub stage_events: Vec<StageTraceEvent>,
}

/// The cycle-approximate engine.
#[derive(Debug, Default)]
pub struct CycleEngine;

} // verus!
