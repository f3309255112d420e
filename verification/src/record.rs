use vstd::prelude::*;

verus! {

/// Architectural record of one retired instruction, as produced by the
/// functional model and by the cycle model alike.
#[derive(Clone, Copy, Debug, PartialEq, Eq)]
pub struct CommitRecord {
    pub cycle: u64,
    pub pc: u64,
    pub insn: u64,
    pub len: u8,
    pub next_pc: u64,
    pub src0_valid: u8,
    pub src0_reg: u8,
    pub src0_data: u64,
    pub src1_valid: u8,
    pub src1_reg: u8,
    pub src1_data: u64,
    pub wb_valid: u8,
    pub wb_rd: u8,
    pub wb_data: u64,
    pub mem_valid: u8,
    pub mem_is_store: u8,
    pub mem_addr: u64,
    pub mem_size: u8,
    pub trap_valid: u8,
    pub trap_cause: u64,
    pub traparg0: u64,
}

/// One named operand field of a decoded instruction.
#[derive(Debug)]
pub struct DecodedField {
    pub name: String,
    pub value_u64: u64,
}

/// The decoder's view of one instruction: what the pipeline model reads of it.
#[derive(Debug)]
pub struct DecodedInstruction {
    pub mnemonic: String,
    pub assembly: String,
    pub uop_group: String,
    pub fields: Vec<DecodedField>,
}

/// What the pipeline model reads of a decoded instruction.
pub struct DecodedView {
    pub mnemonic: Seq<char>,
    pub assembly: Seq<char>,
    pub uop_group: Seq<char>,
    pub fields: Seq<(Seq<char>, u64)>,
}

impl View for DecodedField {
    type V = (Seq<char>, u64);

    open spec fn view(&self) -> (Seq<char>, u64) {
        (self.name@, self.value_u64)
    }
}

impl View for DecodedInstruction {
    type V = DecodedView;

    open spec fn view(&self) -> DecodedView {
        DecodedView {
            mnemonic: self.mnemonic@,
            assembly: self.assembly@,
            uop_group: self.uop_group@,
            fields: self.fields@.map_values(|f: DecodedField| f@),
        }
    }
}

impl Clone for DecodedField {
    fn clone(&self) -> (r: Self)
        ensures
            r@ == self@,
    {
        DecodedField { name: self.name.clone(), value_u64: self.value_u64 }
    }
}

impl Clone for DecodedInstruction {
    fn clone(&self) -> (r: Self)
        ensures
            r@ == self@,
    {
        let fields = self.fields.clone();
        assert(fields@.map_values(|f: DecodedField| f@) =~= self.fields@.map_values(
            |f: DecodedField| f@,
        ));
        DecodedInstruction {
            mnemonic: self.mnemonic.clone(),
            assembly: self.assembly.clone(),
            uop_group: self.uop_group.clone(),
            fields,
        }
    }
}

/// Which engine produced a run.
#[derive(Clone, Copy, Debug, PartialEq, Eq, Structural)]
pub enum EngineKind {
    Func,
    Cycle,
}

/// Summary counters of a run.
#[derive(Clone, Debug)]
pub struct RunMetrics {
    pub engine: EngineKind,
    pub cycles: u64,
    pub commits: u64,
    pub exit_reason: String,
}

/// Result of running a guest image on an engine.
#[derive(Clone, Debug)]
pub struct RunResult {
    pub image_name: String,
    pub entry_pc: u64,
    pub metrics: RunMetrics,
    pub commits: Vec<CommitRecord>,
    pub decoded: Vec<DecodedInstruction>,
}

/// One row of the pipeline trace: where a micro-op stood in a cycle and why.
#[derive(Clone, Debug)]
pub struct StageTraceEvent {
    pub cycle: u64,
    pub row_id: String,
    pub stage_id: String,
    pub lane_id: String,
    pub stall: bool,
    pub cause: String,
    pub checkpoint_id: Option<u8>,
    pub trap_cause: Option<u64>,
    pub traparg0: Option<u64>,
    pub target_setup_epoch: Option<u16>,
    pub boundary_epoch: Option<u16>,
    pub target_source_owner_row_id: Option<String>,
    pub target_source_epoch: Option<u16>,
    pub target_owner_row_id: Option<String>,
    pub target_producer_kind: Option<String>,
    pub branch_kind: Option<String>,
    pub return_kind: Option<String>,
    pub call_materialization_kind: Option<String>,
    pub target_source_kind: Option<String>,
}

} // verus!
