use vstd::prelude::*;
use std::collections::{BTreeSet, VecDeque};
use crate::config::{FRONTEND_STAGE_COUNT, IQ_CAPACITY, PHYS_IQ_COUNT};
use crate::record::{CommitRecord, DecodedInstruction};
use crate::seqmap::SeqMap;

verus! {

/// Which implicit queue (`t` or `u`) a value travels through.
#[derive(Clone, Copy, Debug, PartialEq, Eq, Structural)]
pub enum QueueWakeKind {
    T,
    U,
}

/// Whether a wakeup is speculative (on an expected load hit) or final.
#[derive(Clone, Copy, Debug, PartialEq, Eq, Structural)]
pub enum IqWakeKind {
    Spec,
    Nonspec,
}

/// The physical issue queues.
#[derive(Clone, Copy, Debug, PartialEq, Eq, Structural)]
pub enum PhysIq {
    AluIq0,
    SharedIq1,
    BruIq,
    AguIq0,
    AguIq1,
    StdIq0,
    StdIq1,
    CmdIq,
}

/// A slot of a physical issue queue.
#[derive(Clone, Copy, Debug, PartialEq, Eq, Structural)]
pub struct QTag {
    pub phys_iq: PhysIq,
    pub entry_id: usize,
}

/// The position of a value in the logical `t`/`u` queue stream.
#[derive(Clone, Copy, Debug, PartialEq, Eq, Structural)]
pub struct LogicalQueueTag {
    pub kind: QueueWakeKind,
    pub tag: usize,
}

/// How a block ends: the branch that its header announces.
#[derive(Clone, Copy, Debug, PartialEq, Eq, Structural)]
pub enum BranchOwnerKind {
    NoBranch,
    Fall,
    Cond,
    Call,
    Ret,
    Direct,
    Ind,
    ICall,
}

/// Which instruction consumes a dynamic return target.
#[derive(Clone, Copy, Debug, PartialEq, Eq, Structural)]
pub enum ReturnConsumerKind {
    SetcTgt,
    FretRa,
    FretStk,
}

/// How a call's return address came into being.
#[derive(Clone, Copy, Debug, PartialEq, Eq, Structural)]
pub enum CallMaterializationKind {
    FusedCall,
    AdjacentSetret,
}

/// Where a dynamic block target came from.
#[derive(Clone, Copy, Debug, PartialEq, Eq, Structural)]
pub enum DynamicTargetSourceKind {
    ArchTargetSetup,
    CallReturnFused,
    CallReturnAdjacentSetret,
}

/// The branch context of the block that is being dispatched.
#[derive(Clone, Copy, Debug, PartialEq, Eq, Structural)]
pub struct BranchOwnerContext {
    pub kind: BranchOwnerKind,
    pub base_pc: u64,
    pub target_pc: u64,
    pub off: u64,
    pub pred_take: bool,
    pub epoch: u16,
}

pub open spec fn spec_default_branch_context() -> BranchOwnerContext {
    BranchOwnerContext {
        kind: BranchOwnerKind::NoBranch,
        base_pc: 0,
        target_pc: 0,
        off: 0,
        pred_take: false,
        epoch: 0,
    }
}

impl Default for BranchOwnerContext {
    fn default() -> (r: Self)
        ensures
            r == spec_default_branch_context(),
    {
        BranchOwnerContext {
            kind: BranchOwnerKind::NoBranch,
            base_pc: 0,
            target_pc: 0,
            off: 0,
            pred_take: false,
            epoch: 0,
        }
    }
}

/// A wakeup broadcast by a producer.
#[derive(Clone, Copy, Debug, PartialEq, Eq, Structural)]
pub struct IqWakeEvent {
    pub producer: usize,
    pub wake_kind: IqWakeKind,
    pub queue_kind: Option<QueueWakeKind>,
    pub logical_tag: Option<LogicalQueueTag>,
    pub qtag: Option<QTag>,
}

/// One micro-op of the run, with the timing the model gives it.
#[derive(Clone, Debug)]
pub struct CycleUop {
    pub decoded: DecodedInstruction,
    pub commit: CommitRecord,
    pub deps: [Option<usize>; 2],
    pub src_queue_kinds: [Option<QueueWakeKind>; 2],
    pub src_logical_tags: [Option<LogicalQueueTag>; 2],
    pub src_qtags: [Option<QTag>; 2],
    pub dst_queue_kind: Option<QueueWakeKind>,
    pub dst_logical_tag: Option<LogicalQueueTag>,
    pub dst_qtag: Option<QTag>,
    pub bypass_d2: bool,
    pub is_load: bool,
    pub is_store: bool,
    pub load_ordinal: Option<usize>,
    pub load_store_id: Option<usize>,
    pub miss_injected: bool,
    pub redirect_target: Option<u64>,
    pub phys_iq: Option<PhysIq>,
    pub pick_wakeup_visible: Option<u64>,
    pub data_ready_visible: Option<u64>,
    pub miss_pending_until: Option<u64>,
    pub e1_cycle: Option<u64>,
    pub e4_cycle: Option<u64>,
    pub w1_cycle: Option<u64>,
    pub done_cycle: Option<u64>,
}

/// An occupied issue-queue slot and the readiness of its two sources.
#[derive(Clone, Copy, Debug)]
pub struct IqEntry {
    pub seq: usize,
    pub phys_iq: PhysIq,
    pub inflight: bool,
    pub src_valid: [bool; 2],
    pub src_ready_nonspec: [bool; 2],
    pub src_ready_spec: [bool; 2],
    pub src_wait_qtag: [bool; 2],
}

pub open spec fn spec_phys_iq_index(q: PhysIq) -> usize {
    match q {
        PhysIq::AluIq0 => 0,
        PhysIq::SharedIq1 => 1,
        PhysIq::BruIq => 2,
        PhysIq::AguIq0 => 3,
        PhysIq::AguIq1 => 4,
        PhysIq::StdIq0 => 5,
        PhysIq::StdIq1 => 6,
        PhysIq::CmdIq => 7,
    }
}

pub open spec fn spec_lane_id(q: PhysIq) -> Seq<char> {
    match q {
        PhysIq::AluIq0 => "alu_iq0"@,
        PhysIq::SharedIq1 => "shared_iq1"@,
        PhysIq::BruIq => "bru_iq"@,
        PhysIq::AguIq0 => "agu_iq0"@,
        PhysIq::AguIq1 => "agu_iq1"@,
        PhysIq::StdIq0 => "std_iq0"@,
        PhysIq::StdIq1 => "std_iq1"@,
        PhysIq::CmdIq => "cmd_iq"@,
    }
}

impl PhysIq {
    /// Position of the queue among the physical queues.
    pub fn index(self) -> (r: usize)
        ensures
            r == spec_phys_iq_index(self),
            r < PHYS_IQ_COUNT,
    {
        match self {
            PhysIq::AluIq0 => 0,
            PhysIq::SharedIq1 => 1,
            PhysIq::BruIq => 2,
            PhysIq::AguIq0 => 3,
            PhysIq::AguIq1 => 4,
            PhysIq::StdIq0 => 5,
            PhysIq::StdIq1 => 6,
            PhysIq::CmdIq => 7,
        }
    }

    /// Trace lane of the queue.
    pub fn lane_id(self) -> (r: &'static str)
        ensures
            r@ == spec_lane_id(self),
    {
        match self {
            PhysIq::AluIq0 => "alu_iq0",
            PhysIq::SharedIq1 => "shared_iq1",
            PhysIq::BruIq => "bru_iq",
            PhysIq::AguIq0 => "agu_iq0",
            PhysIq::AguIq1 => "agu_iq1",
            PhysIq::StdIq0 => "std_iq0",
            PhysIq::StdIq1 => "std_iq1",
            PhysIq::CmdIq => "cmd_iq",
        }
    }

    /// Number of slots of the queue.
    pub fn capacity(self) -> (r: usize)
        ensures
            r == IQ_CAPACITY,
    {
        IQ_CAPACITY
    }
}

pub proof fn lemma_phys_iq_index_injective(a: PhysIq, b: PhysIq)
    ensures
        spec_phys_iq_index(a) == spec_phys_iq_index(b) <==> a == b,
{
}

/// Where the frontend restarts after a redirect.
#[derive(Clone, Copy, Debug, PartialEq, Eq, Structural)]
pub struct FrontendRedirectState {
    pub source_seq: usize,
    pub target_pc: u64,
    pub restart_seq: usize,
    pub checkpoint_id: u8,
    pub from_correction: bool,
    pub resume_cycle: u64,
}

/// A flush that takes effect in a later cycle.
#[derive(Clone, Copy, Debug, PartialEq, Eq, Structural)]
pub struct PendingFlushState {
    pub flush_seq: usize,
    pub checkpoint_id: u8,
    pub apply_cycle: u64,
}

/// A branch-unit correction that waits for the end of its block.
#[derive(Clone, Copy, Debug, PartialEq, Eq, Structural)]
pub struct BruCorrectionState {
    pub source_seq: usize,
    pub epoch: u16,
    pub actual_take: bool,
    pub target_pc: u64,
    pub checkpoint_id: u8,
    pub visible_cycle: u64,
}

/// A precise trap that will be taken when its micro-op retires.
#[derive(Clone, Copy, Debug, PartialEq, Eq, Structural)]
pub struct PendingTrapState {
    pub seq: usize,
    pub cause: u64,
    pub traparg0: u64,
    pub checkpoint_id: u8,
    pub visible_cycle: u64,
}

/// A load waiting in the load-issue queue for its refill.
#[derive(Clone, Copy, Debug)]
pub struct LiqEntry {
    pub seq: usize,
    pub refill_ready_cycle: u64,
}

/// A miss-data-buffer entry.
#[derive(Clone, Copy, Debug)]
pub struct MdbEntry {
    pub seq: usize,
    pub refill_ready_cycle: u64,
}

/// A retired store waiting in the store-coalescing buffer.
#[derive(Clone, Copy, Debug)]
pub struct ScbEntry {
    pub seq: usize,
    pub enqueue_cycle: u64,
}

/// The kind of an L1D transaction.
#[derive(Clone, Copy, Debug, PartialEq, Eq, Structural)]
pub enum L1dTxnKind {
    LoadHit,
    StoreDrain,
}

/// An L1D transaction in flight.
#[derive(Clone, Copy, Debug)]
pub struct L1dEntry {
    pub seq: usize,
    pub kind: L1dTxnKind,
    pub ready_cycle: u64,
}

/// The dispatch-side state saved at a block start, restored on a flush.
#[derive(Debug)]
pub struct ReadyTableCheckpoint {
    pub ready_table_t: BTreeSet<usize>,
    pub ready_table_u: BTreeSet<usize>,
    pub recovery_epoch: u16,
    pub block_head: bool,
    pub branch_context: BranchOwnerContext,
    pub dynamic_target_pc: Option<u64>,
    pub dynamic_target_owner_seq: Option<usize>,
    pub dynamic_target_producer_kind: Option<ReturnConsumerKind>,
    pub dynamic_target_setup_epoch: Option<u16>,
    pub dynamic_target_owner_kind: Option<ReturnConsumerKind>,
    pub dynamic_target_source_owner_seq: Option<usize>,
    pub dynamic_target_source_epoch: Option<u16>,
    pub dynamic_target_source_kind: Option<DynamicTargetSourceKind>,
    pub dynamic_target_call_materialization_kind: Option<CallMaterializationKind>,
    pub call_header_seq: Option<usize>,
    pub call_return_target_pc: Option<u64>,
    pub call_return_target_owner_seq: Option<usize>,
    pub call_return_target_epoch: Option<u16>,
    pub call_return_materialization_kind: Option<CallMaterializationKind>,
}

/// Number of slots of the flattened per-queue, per-entry tables.
pub const QTAG_SLOTS: usize = 256;

/// Flat index of a queue slot in the per-slot tables.
pub open spec fn spec_qtag_slot(q: QTag) -> int {
    spec_phys_iq_index(q.phys_iq) * IQ_CAPACITY + q.entry_id
}

pub fn qtag_slot(q: QTag) -> (r: usize)
    requires
        q.entry_id < IQ_CAPACITY,
    ensures
        r == spec_qtag_slot(q),
        r < QTAG_SLOTS,
{
    q.phys_iq.index() * IQ_CAPACITY + q.entry_id
}

/// All the pipeline's queues and the dispatch-side bookkeeping.
pub struct StageQueues {
    pub frontend: Vec<VecDeque<usize>>,
    pub frontend_redirect: Option<FrontendRedirectState>,
    pub pending_flush: Option<PendingFlushState>,
    pub flush_checkpoint_id: Option<u8>,
    pub seq_checkpoint_ids: SeqMap<u8>,
    pub seq_rob_checkpoint_ids: SeqMap<u8>,
    pub seq_recovery_checkpoint_ids: SeqMap<u8>,
    pub seq_recovery_epochs: SeqMap<u16>,
    pub seq_branch_contexts: SeqMap<BranchOwnerContext>,
    pub seq_dynamic_target_pcs: SeqMap<u64>,
    pub seq_boundary_target_pcs: SeqMap<u64>,
    pub seq_boundary_target_owner_seqs: SeqMap<usize>,
    pub seq_boundary_target_producer_kinds: SeqMap<ReturnConsumerKind>,
    pub seq_boundary_target_setup_epochs: SeqMap<u16>,
    pub seq_boundary_target_source_owner_seqs: SeqMap<usize>,
    pub seq_boundary_target_source_epochs: SeqMap<u16>,
    pub seq_boundary_target_source_kinds: SeqMap<DynamicTargetSourceKind>,
    pub seq_return_consumer_kinds: SeqMap<ReturnConsumerKind>,
    pub seq_call_return_target_pcs: SeqMap<u64>,
    pub seq_call_return_target_owner_seqs: SeqMap<usize>,
    pub seq_call_return_target_epochs: SeqMap<u16>,
    pub seq_call_materialization_kinds: SeqMap<CallMaterializationKind>,
    pub seq_call_header_faults: SeqMap<u64>,
    pub active_recovery_checkpoint_id: u8,
    pub active_recovery_epoch: u16,
    pub active_block_head: bool,
    pub active_branch_context: BranchOwnerContext,
    pub active_dynamic_target_pc: Option<u64>,
    pub active_dynamic_target_owner_seq: Option<usize>,
    pub active_dynamic_target_producer_kind: Option<ReturnConsumerKind>,
    pub active_dynamic_target_setup_epoch: Option<u16>,
    pub active_dynamic_target_owner_kind: Option<ReturnConsumerKind>,
    pub active_dynamic_target_source_owner_seq: Option<usize>,
    pub active_dynamic_target_source_epoch: Option<u16>,
    pub active_dynamic_target_source_kind: Option<DynamicTargetSourceKind>,
    pub active_dynamic_target_call_materialization_kind: Option<CallMaterializationKind>,
    pub active_call_header_seq: Option<usize>,
    pub active_call_return_target_pc: Option<u64>,
    pub active_call_return_target_owner_seq: Option<usize>,
    pub active_call_return_target_epoch: Option<u16>,
    pub active_call_return_materialization_kind: Option<CallMaterializationKind>,
    /// Saved dispatch state, one slot per checkpoint id.
    pub ready_table_checkpoints: Vec<Option<ReadyTableCheckpoint>>,
    pub pending_bru_correction: Option<BruCorrectionState>,
    pub pending_trap: Option<PendingTrapState>,
    pub iq_tags: SeqMap<QTag>,
    /// For each queue slot, the index in the issue queue of the entry that owns it.
    pub iq_owner_table: Vec<Option<usize>>,
    /// For each queue slot, the `(seq, source index)` pairs that wait on it.
    pub qtag_wait_crossbar: Vec<Vec<(usize, usize)>>,
    pub ready_table_t: BTreeSet<usize>,
    pub ready_table_u: BTreeSet<usize>,
    pub liq: VecDeque<LiqEntry>,
    pub lhq: VecDeque<usize>,
    pub mdb: VecDeque<MdbEntry>,
    pub stq: VecDeque<usize>,
    pub scb: VecDeque<ScbEntry>,
    pub l1d: VecDeque<L1dEntry>,
    pub p1: VecDeque<usize>,
    pub i1: VecDeque<usize>,
    pub i2: VecDeque<usize>,
    pub e1: VecDeque<usize>,
    pub e2: VecDeque<usize>,
    pub e3: VecDeque<usize>,
    pub e4: VecDeque<usize>,
    pub w1: VecDeque<usize>,
    pub w2: VecDeque<usize>,
    pub lsid_issue_ptr: usize,
    pub lsid_complete_ptr: usize,
    pub lsid_cache_ptr: usize,
}

impl StageQueues {
    /// The frontend, recovery, dispatch and issue state of `self` and `o`
    /// agree: only the execute, writeback and memory-side queues and the
    /// cache-order pointer may differ.
    pub open spec fn same_front_and_issue(&self, o: &StageQueues) -> bool {
        &&& self.frontend == o.frontend
        &&& self.frontend_redirect == o.frontend_redirect
        &&& self.pending_flush == o.pending_flush
        &&& self.flush_checkpoint_id == o.flush_checkpoint_id
        &&& self.seq_checkpoint_ids == o.seq_checkpoint_ids
        &&& self.seq_rob_checkpoint_ids == o.seq_rob_checkpoint_ids
        &&& self.seq_recovery_checkpoint_ids == o.seq_recovery_checkpoint_ids
        &&& self.seq_recovery_epochs == o.seq_recovery_epochs
        &&& self.seq_branch_contexts == o.seq_branch_contexts
        &&& self.seq_dynamic_target_pcs == o.seq_dynamic_target_pcs
        &&& self.seq_boundary_target_pcs == o.seq_boundary_target_pcs
        &&& self.seq_boundary_target_owner_seqs == o.seq_boundary_target_owner_seqs
        &&& self.seq_boundary_target_producer_kinds == o.seq_boundary_target_producer_kinds
        &&& self.seq_boundary_target_setup_epochs == o.seq_boundary_target_setup_epochs
        &&& self.seq_boundary_target_source_owner_seqs == o.seq_boundary_target_source_owner_seqs
        &&& self.seq_boundary_target_source_epochs == o.seq_boundary_target_source_epochs
        &&& self.seq_boundary_target_source_kinds == o.seq_boundary_target_source_kinds
        &&& self.seq_return_consumer_kinds == o.seq_return_consumer_kinds
        &&& self.seq_call_return_target_pcs == o.seq_call_return_target_pcs
        &&& self.seq_call_return_target_owner_seqs == o.seq_call_return_target_owner_seqs
        &&& self.seq_call_return_target_epochs == o.seq_call_return_target_epochs
        &&& self.seq_call_materialization_kinds == o.seq_call_materialization_kinds
        &&& self.seq_call_header_faults == o.seq_call_header_faults
        &&& self.active_recovery_checkpoint_id == o.active_recovery_checkpoint_id
        &&& self.active_recovery_epoch == o.active_recovery_epoch
        &&& self.active_block_head == o.active_block_head
        &&& self.active_branch_context == o.active_branch_context
        &&& self.active_dynamic_target_pc == o.active_dynamic_target_pc
        &&& self.active_dynamic_target_owner_seq == o.active_dynamic_target_owner_seq
        &&& self.active_dynamic_target_producer_kind == o.active_dynamic_target_producer_kind
        &&& self.active_dynamic_target_setup_epoch == o.active_dynamic_target_setup_epoch
        &&& self.active_dynamic_target_owner_kind == o.active_dynamic_target_owner_kind
        &&& self.active_dynamic_target_source_owner_seq == o.active_dynamic_target_source_owner_seq
        &&& self.active_dynamic_target_source_epoch == o.active_dynamic_target_source_epoch
        &&& self.active_dynamic_target_source_kind == o.active_dynamic_target_source_kind
        &&& self.active_dynamic_target_call_materialization_kind == o.active_dynamic_target_call_materialization_kind
        &&& self.active_call_header_seq == o.active_call_header_seq
        &&& self.active_call_return_target_pc == o.active_call_return_target_pc
        &&& self.active_call_return_target_owner_seq == o.active_call_return_target_owner_seq
        &&& self.active_call_return_target_epoch == o.active_call_return_target_epoch
        &&& self.active_call_return_materialization_kind == o.active_call_return_materialization_kind
        &&& self.ready_table_checkpoints == o.ready_table_checkpoints
        &&& self.pending_bru_correction == o.pending_bru_correction
        &&& self.pending_trap == o.pending_trap
        &&& self.iq_tags == o.iq_tags
        &&& self.iq_owner_table == o.iq_owner_table
        &&& self.qtag_wait_crossbar == o.qtag_wait_crossbar
        &&& self.ready_table_t == o.ready_table_t
        &&& self.ready_table_u == o.ready_table_u
        &&& self.p1 == o.p1
        &&& self.i1 == o.i1
        &&& self.i2 == o.i2
        &&& self.lsid_issue_ptr == o.lsid_issue_ptr
        &&& self.lsid_complete_ptr == o.lsid_complete_ptr
    }
}

impl StageQueues {
    /// `self` and `o` agree on every pipeline queue, the issue-side tables,
    /// the saved checkpoints and the pending recovery requests.
    pub open spec fn same_queues(&self, o: &StageQueues) -> bool {
        &&& self.frontend == o.frontend
        &&& self.frontend_redirect == o.frontend_redirect
        &&& self.pending_flush == o.pending_flush
        &&& self.flush_checkpoint_id == o.flush_checkpoint_id
        &&& self.ready_table_checkpoints == o.ready_table_checkpoints
        &&& self.pending_bru_correction == o.pending_bru_correction
        &&& self.pending_trap == o.pending_trap
        &&& self.iq_tags == o.iq_tags
        &&& self.iq_owner_table == o.iq_owner_table
        &&& self.qtag_wait_crossbar == o.qtag_wait_crossbar
        &&& self.ready_table_t == o.ready_table_t
        &&& self.ready_table_u == o.ready_table_u
        &&& self.liq == o.liq
        &&& self.lhq == o.lhq
        &&& self.mdb == o.mdb
        &&& self.stq == o.stq
        &&& self.scb == o.scb
        &&& self.l1d == o.l1d
        &&& self.p1 == o.p1
        &&& self.i1 == o.i1
        &&& self.i2 == o.i2
        &&& self.e1 == o.e1
        &&& self.e2 == o.e2
        &&& self.e3 == o.e3
        &&& self.e4 == o.e4
        &&& self.w1 == o.w1
        &&& self.w2 == o.w2
        &&& self.lsid_issue_ptr == o.lsid_issue_ptr
        &&& self.lsid_complete_ptr == o.lsid_complete_ptr
        &&& self.lsid_cache_ptr == o.lsid_cache_ptr
    }
}

impl StageQueues {
    /// `self` and `o` agree on the call-return state: the open call header,
    /// the return address produced last and the per-micro-op call records.
    pub open spec fn same_call_state(&self, o: &StageQueues) -> bool {
        &&& self.active_call_header_seq == o.active_call_header_seq
        &&& self.active_call_return_target_pc == o.active_call_return_target_pc
        &&& self.active_call_return_target_owner_seq == o.active_call_return_target_owner_seq
        &&& self.active_call_return_target_epoch == o.active_call_return_target_epoch
        &&& self.active_call_return_materialization_kind == o.active_call_return_materialization_kind
        &&& self.seq_call_return_target_pcs == o.seq_call_return_target_pcs
        &&& self.seq_call_return_target_owner_seqs == o.seq_call_return_target_owner_seqs
        &&& self.seq_call_return_target_epochs == o.seq_call_return_target_epochs
        &&& self.seq_call_header_faults == o.seq_call_header_faults
    }

    /// `self` and `o` agree on what dispatch records per micro-op about its
    /// checkpoint, epoch and branch context, and on the block being dispatched.
    pub open spec fn same_dispatch_marks(&self, o: &StageQueues) -> bool {
        &&& self.seq_checkpoint_ids == o.seq_checkpoint_ids
        &&& self.seq_rob_checkpoint_ids == o.seq_rob_checkpoint_ids
        &&& self.seq_recovery_checkpoint_ids == o.seq_recovery_checkpoint_ids
        &&& self.seq_recovery_epochs == o.seq_recovery_epochs
        &&& self.seq_branch_contexts == o.seq_branch_contexts
        &&& self.active_recovery_checkpoint_id == o.active_recovery_checkpoint_id
        &&& self.active_recovery_epoch == o.active_recovery_epoch
        &&& self.active_block_head == o.active_block_head
    }

    /// `self` and `o` agree on the dynamic-target records of past block ends.
    pub open spec fn same_target_records(&self, o: &StageQueues) -> bool {
        &&& self.seq_dynamic_target_pcs == o.seq_dynamic_target_pcs
        &&& self.seq_boundary_target_pcs == o.seq_boundary_target_pcs
        &&& self.seq_boundary_target_owner_seqs == o.seq_boundary_target_owner_seqs
        &&& self.seq_boundary_target_producer_kinds == o.seq_boundary_target_producer_kinds
        &&& self.seq_boundary_target_setup_epochs == o.seq_boundary_target_setup_epochs
        &&& self.seq_boundary_target_source_owner_seqs == o.seq_boundary_target_source_owner_seqs
        &&& self.seq_boundary_target_source_epochs == o.seq_boundary_target_source_epochs
        &&& self.seq_boundary_target_source_kinds == o.seq_boundary_target_source_kinds
        &&& self.seq_return_consumer_kinds == o.seq_return_consumer_kinds
    }
}

impl StageQueues {
    /// `self` and `o` agree on everything but the scheduled redirect, the
    /// pending flush and its checkpoint, and the pending correction.
    pub open spec fn same_queues_but_recovery(&self, o: &StageQueues) -> bool {
        &&& self.frontend == o.frontend
        &&& self.seq_checkpoint_ids == o.seq_checkpoint_ids
        &&& self.seq_rob_checkpoint_ids == o.seq_rob_checkpoint_ids
        &&& self.seq_recovery_checkpoint_ids == o.seq_recovery_checkpoint_ids
        &&& self.seq_recovery_epochs == o.seq_recovery_epochs
        &&& self.seq_branch_contexts == o.seq_branch_contexts
        &&& self.seq_dynamic_target_pcs == o.seq_dynamic_target_pcs
        &&& self.seq_boundary_target_pcs == o.seq_boundary_target_pcs
        &&& self.seq_boundary_target_owner_seqs == o.seq_boundary_target_owner_seqs
        &&& self.seq_boundary_target_producer_kinds == o.seq_boundary_target_producer_kinds
        &&& self.seq_boundary_target_setup_epochs == o.seq_boundary_target_setup_epochs
        &&& self.seq_boundary_target_source_owner_seqs == o.seq_boundary_target_source_owner_seqs
        &&& self.seq_boundary_target_source_epochs == o.seq_boundary_target_source_epochs
        &&& self.seq_boundary_target_source_kinds == o.seq_boundary_target_source_kinds
        &&& self.seq_return_consumer_kinds == o.seq_return_consumer_kinds
        &&& self.seq_call_return_target_pcs == o.seq_call_return_target_pcs
        &&& self.seq_call_return_target_owner_seqs == o.seq_call_return_target_owner_seqs
        &&& self.seq_call_return_target_epochs == o.seq_call_return_target_epochs
        &&& self.seq_call_materialization_kinds == o.seq_call_materialization_kinds
        &&& self.seq_call_header_faults == o.seq_call_header_faults
        &&& self.active_recovery_checkpoint_id == o.active_recovery_checkpoint_id
        &&& self.active_recovery_epoch == o.active_recovery_epoch
        &&& self.active_block_head == o.active_block_head
        &&& self.active_branch_context == o.active_branch_context
        &&& self.active_dynamic_target_pc == o.active_dynamic_target_pc
        &&& self.active_dynamic_target_owner_seq == o.active_dynamic_target_owner_seq
        &&& self.active_dynamic_target_producer_kind == o.active_dynamic_target_producer_kind
        &&& self.active_dynamic_target_setup_epoch == o.active_dynamic_target_setup_epoch
        &&& self.active_dynamic_target_owner_kind == o.active_dynamic_target_owner_kind
        &&& self.active_dynamic_target_source_owner_seq == o.active_dynamic_target_source_owner_seq
        &&& self.active_dynamic_target_source_epoch == o.active_dynamic_target_source_epoch
        &&& self.active_dynamic_target_source_kind == o.active_dynamic_target_source_kind
        &&& self.active_dynamic_target_call_materialization_kind == o.active_dynamic_target_call_materialization_kind
        &&& self.active_call_header_seq == o.active_call_header_seq
        &&& self.active_call_return_target_pc == o.active_call_return_target_pc
        &&& self.active_call_return_target_owner_seq == o.active_call_return_target_owner_seq
        &&& self.active_call_return_target_epoch == o.active_call_return_target_epoch
        &&& self.active_call_return_materialization_kind == o.active_call_return_materialization_kind
        &&& self.ready_table_checkpoints == o.ready_table_checkpoints
        &&& self.pending_trap == o.pending_trap
        &&& self.iq_tags == o.iq_tags
        &&& self.iq_owner_table == o.iq_owner_table
        &&& self.qtag_wait_crossbar == o.qtag_wait_crossbar
        &&& self.ready_table_t == o.ready_table_t
        &&& self.ready_table_u == o.ready_table_u
        &&& self.liq == o.liq
        &&& self.lhq == o.lhq
        &&& self.mdb == o.mdb
        &&& self.stq == o.stq
        &&& self.scb == o.scb
        &&& self.l1d == o.l1d
        &&& self.p1 == o.p1
        &&& self.i1 == o.i1
        &&& self.i2 == o.i2
        &&& self.e1 == o.e1
        &&& self.e2 == o.e2
        &&& self.e3 == o.e3
        &&& self.e4 == o.e4
        &&& self.w1 == o.w1
        &&& self.w2 == o.w2
        &&& self.lsid_issue_ptr == o.lsid_issue_ptr
        &&& self.lsid_complete_ptr == o.lsid_complete_ptr
        &&& self.lsid_cache_ptr == o.lsid_cache_ptr
    }
}

impl StageQueues {
    /// `self` and `o` agree on everything but the three load/store-order pointers.
    pub open spec fn same_front_and_issue_but_lsid(&self, o: &StageQueues) -> bool {
        &&& self.frontend == o.frontend
        &&& self.frontend_redirect == o.frontend_redirect
        &&& self.pending_flush == o.pending_flush
        &&& self.flush_checkpoint_id == o.flush_checkpoint_id
        &&& self.seq_checkpoint_ids == o.seq_checkpoint_ids
        &&& self.seq_rob_checkpoint_ids == o.seq_rob_checkpoint_ids
        &&& self.seq_recovery_checkpoint_ids == o.seq_recovery_checkpoint_ids
        &&& self.seq_recovery_epochs == o.seq_recovery_epochs
        &&& self.seq_branch_contexts == o.seq_branch_contexts
        &&& self.seq_dynamic_target_pcs == o.seq_dynamic_target_pcs
        &&& self.seq_boundary_target_pcs == o.seq_boundary_target_pcs
        &&& self.seq_boundary_target_owner_seqs == o.seq_boundary_target_owner_seqs
        &&& self.seq_boundary_target_producer_kinds == o.seq_boundary_target_producer_kinds
        &&& self.seq_boundary_target_setup_epochs == o.seq_boundary_target_setup_epochs
        &&& self.seq_boundary_target_source_owner_seqs == o.seq_boundary_target_source_owner_seqs
        &&& self.seq_boundary_target_source_epochs == o.seq_boundary_target_source_epochs
        &&& self.seq_boundary_target_source_kinds == o.seq_boundary_target_source_kinds
        &&& self.seq_return_consumer_kinds == o.seq_return_consumer_kinds
        &&& self.seq_call_return_target_pcs == o.seq_call_return_target_pcs
        &&& self.seq_call_return_target_owner_seqs == o.seq_call_return_target_owner_seqs
        &&& self.seq_call_return_target_epochs == o.seq_call_return_target_epochs
        &&& self.seq_call_materialization_kinds == o.seq_call_materialization_kinds
        &&& self.seq_call_header_faults == o.seq_call_header_faults
        &&& self.active_recovery_checkpoint_id == o.active_recovery_checkpoint_id
        &&& self.active_recovery_epoch == o.active_recovery_epoch
        &&& self.active_block_head == o.active_block_head
        &&& self.active_branch_context == o.active_branch_context
        &&& self.active_dynamic_target_pc == o.active_dynamic_target_pc
        &&& self.active_dynamic_target_owner_seq == o.active_dynamic_target_owner_seq
        &&& self.active_dynamic_target_producer_kind == o.active_dynamic_target_producer_kind
        &&& self.active_dynamic_target_setup_epoch == o.active_dynamic_target_setup_epoch
        &&& self.active_dynamic_target_owner_kind == o.active_dynamic_target_owner_kind
        &&& self.active_dynamic_target_source_owner_seq == o.active_dynamic_target_source_owner_seq
        &&& self.active_dynamic_target_source_epoch == o.active_dynamic_target_source_epoch
        &&& self.active_dynamic_target_source_kind == o.active_dynamic_target_source_kind
        &&& self.active_dynamic_target_call_materialization_kind == o.active_dynamic_target_call_materialization_kind
        &&& self.active_call_header_seq == o.active_call_header_seq
        &&& self.active_call_return_target_pc == o.active_call_return_target_pc
        &&& self.active_call_return_target_owner_seq == o.active_call_return_target_owner_seq
        &&& self.active_call_return_target_epoch == o.active_call_return_target_epoch
        &&& self.active_call_return_materialization_kind == o.active_call_return_materialization_kind
        &&& self.ready_table_checkpoints == o.ready_table_checkpoints
        &&& self.pending_bru_correction == o.pending_bru_correction
        &&& self.pending_trap == o.pending_trap
        &&& self.iq_tags == o.iq_tags
        &&& self.iq_owner_table == o.iq_owner_table
        &&& self.qtag_wait_crossbar == o.qtag_wait_crossbar
        &&& self.ready_table_t == o.ready_table_t
        &&& self.ready_table_u == o.ready_table_u
        &&& self.liq == o.liq
        &&& self.lhq == o.lhq
        &&& self.mdb == o.mdb
        &&& self.stq == o.stq
        &&& self.scb == o.scb
        &&& self.l1d == o.l1d
        &&& self.p1 == o.p1
        &&& self.i1 == o.i1
        &&& self.i2 == o.i2
        &&& self.e1 == o.e1
        &&& self.e2 == o.e2
        &&& self.e3 == o.e3
        &&& self.e4 == o.e4
        &&& self.w1 == o.w1
        &&& self.w2 == o.w2
    }
}

impl StageQueues {
    /// `self` and `o` agree on everything but the two ready tables.
    pub open spec fn same_except_ready_tables(&self, o: &StageQueues) -> bool {
        &&& self.frontend == o.frontend
        &&& self.frontend_redirect == o.frontend_redirect
        &&& self.pending_flush == o.pending_flush
        &&& self.flush_checkpoint_id == o.flush_checkpoint_id
        &&& self.seq_checkpoint_ids == o.seq_checkpoint_ids
        &&& self.seq_rob_checkpoint_ids == o.seq_rob_checkpoint_ids
        &&& self.seq_recovery_checkpoint_ids == o.seq_recovery_checkpoint_ids
        &&& self.seq_recovery_epochs == o.seq_recovery_epochs
        &&& self.seq_branch_contexts == o.seq_branch_contexts
        &&& self.seq_dynamic_target_pcs == o.seq_dynamic_target_pcs
        &&& self.seq_boundary_target_pcs == o.seq_boundary_target_pcs
        &&& self.seq_boundary_target_owner_seqs == o.seq_boundary_target_owner_seqs
        &&& self.seq_boundary_target_producer_kinds == o.seq_boundary_target_producer_kinds
        &&& self.seq_boundary_target_setup_epochs == o.seq_boundary_target_setup_epochs
        &&& self.seq_boundary_target_source_owner_seqs == o.seq_boundary_target_source_owner_seqs
        &&& self.seq_boundary_target_source_epochs == o.seq_boundary_target_source_epochs
        &&& self.seq_boundary_target_source_kinds == o.seq_boundary_target_source_kinds
        &&& self.seq_return_consumer_kinds == o.seq_return_consumer_kinds
        &&& self.seq_call_return_target_pcs == o.seq_call_return_target_pcs
        &&& self.seq_call_return_target_owner_seqs == o.seq_call_return_target_owner_seqs
        &&& self.seq_call_return_target_epochs == o.seq_call_return_target_epochs
        &&& self.seq_call_materialization_kinds == o.seq_call_materialization_kinds
        &&& self.seq_call_header_faults == o.seq_call_header_faults
        &&& self.active_recovery_checkpoint_id == o.active_recovery_checkpoint_id
        &&& self.active_recovery_epoch == o.active_recovery_epoch
        &&& self.active_block_head == o.active_block_head
        &&& self.active_branch_context == o.active_branch_context
        &&& self.active_dynamic_target_pc == o.active_dynamic_target_pc
        &&& self.active_dynamic_target_owner_seq == o.active_dynamic_target_owner_seq
        &&& self.active_dynamic_target_producer_kind == o.active_dynamic_target_producer_kind
        &&& self.active_dynamic_target_setup_epoch == o.active_dynamic_target_setup_epoch
        &&& self.active_dynamic_target_owner_kind == o.active_dynamic_target_owner_kind
        &&& self.active_dynamic_target_source_owner_seq == o.active_dynamic_target_source_owner_seq
        &&& self.active_dynamic_target_source_epoch == o.active_dynamic_target_source_epoch
        &&& self.active_dynamic_target_source_kind == o.active_dynamic_target_source_kind
        &&& self.active_dynamic_target_call_materialization_kind == o.active_dynamic_target_call_materialization_kind
        &&& self.active_call_header_seq == o.active_call_header_seq
        &&& self.active_call_return_target_pc == o.active_call_return_target_pc
        &&& self.active_call_return_target_owner_seq == o.active_call_return_target_owner_seq
        &&& self.active_call_return_target_epoch == o.active_call_return_target_epoch
        &&& self.active_call_return_materialization_kind == o.active_call_return_materialization_kind
        &&& self.ready_table_checkpoints == o.ready_table_checkpoints
        &&& self.pending_bru_correction == o.pending_bru_correction
        &&& self.pending_trap == o.pending_trap
        &&& self.iq_tags == o.iq_tags
        &&& self.iq_owner_table == o.iq_owner_table
        &&& self.qtag_wait_crossbar == o.qtag_wait_crossbar
        &&& self.liq == o.liq
        &&& self.lhq == o.lhq
        &&& self.mdb == o.mdb
        &&& self.stq == o.stq
        &&& self.scb == o.scb
        &&& self.l1d == o.l1d
        &&& self.p1 == o.p1
        &&& self.i1 == o.i1
        &&& self.i2 == o.i2
        &&& self.e1 == o.e1
        &&& self.e2 == o.e2
        &&& self.e3 == o.e3
        &&& self.e4 == o.e4
        &&& self.w1 == o.w1
        &&& self.w2 == o.w2
        &&& self.lsid_issue_ptr == o.lsid_issue_ptr
        &&& self.lsid_complete_ptr == o.lsid_complete_ptr
        &&& self.lsid_cache_ptr == o.lsid_cache_ptr
    }

    /// `self` and `o` agree on everything retirement leaves alone: all but the pending trap, the ready tables, the store queue and the coalescing buffer.
    pub open spec fn same_outside_retire(&self, o: &StageQueues) -> bool {
        &&& self.frontend == o.frontend
        &&& self.frontend_redirect == o.frontend_redirect
        &&& self.pending_flush == o.pending_flush
        &&& self.flush_checkpoint_id == o.flush_checkpoint_id
        &&& self.seq_checkpoint_ids == o.seq_checkpoint_ids
        &&& self.seq_rob_checkpoint_ids == o.seq_rob_checkpoint_ids
        &&& self.seq_recovery_checkpoint_ids == o.seq_recovery_checkpoint_ids
        &&& self.seq_recovery_epochs == o.seq_recovery_epochs
        &&& self.seq_branch_contexts == o.seq_branch_contexts
        &&& self.seq_dynamic_target_pcs == o.seq_dynamic_target_pcs
        &&& self.seq_boundary_target_pcs == o.seq_boundary_target_pcs
        &&& self.seq_boundary_target_owner_seqs == o.seq_boundary_target_owner_seqs
        &&& self.seq_boundary_target_producer_kinds == o.seq_boundary_target_producer_kinds
        &&& self.seq_boundary_target_setup_epochs == o.seq_boundary_target_setup_epochs
        &&& self.seq_boundary_target_source_owner_seqs == o.seq_boundary_target_source_owner_seqs
        &&& self.seq_boundary_target_source_epochs == o.seq_boundary_target_source_epochs
        &&& self.seq_boundary_target_source_kinds == o.seq_boundary_target_source_kinds
        &&& self.seq_return_consumer_kinds == o.seq_return_consumer_kinds
        &&& self.seq_call_return_target_pcs == o.seq_call_return_target_pcs
        &&& self.seq_call_return_target_owner_seqs == o.seq_call_return_target_owner_seqs
        &&& self.seq_call_return_target_epochs == o.seq_call_return_target_epochs
        &&& self.seq_call_materialization_kinds == o.seq_call_materialization_kinds
        &&& self.seq_call_header_faults == o.seq_call_header_faults
        &&& self.active_recovery_checkpoint_id == o.active_recovery_checkpoint_id
        &&& self.active_recovery_epoch == o.active_recovery_epoch
        &&& self.active_block_head == o.active_block_head
        &&& self.active_branch_context == o.active_branch_context
        &&& self.active_dynamic_target_pc == o.active_dynamic_target_pc
        &&& self.active_dynamic_target_owner_seq == o.active_dynamic_target_owner_seq
        &&& self.active_dynamic_target_producer_kind == o.active_dynamic_target_producer_kind
        &&& self.active_dynamic_target_setup_epoch == o.active_dynamic_target_setup_epoch
        &&& self.active_dynamic_target_owner_kind == o.active_dynamic_target_owner_kind
        &&& self.active_dynamic_target_source_owner_seq == o.active_dynamic_target_source_owner_seq
        &&& self.active_dynamic_target_source_epoch == o.active_dynamic_target_source_epoch
        &&& self.active_dynamic_target_source_kind == o.active_dynamic_target_source_kind
        &&& self.active_dynamic_target_call_materialization_kind == o.active_dynamic_target_call_materialization_kind
        &&& self.active_call_header_seq == o.active_call_header_seq
        &&& self.active_call_return_target_pc == o.active_call_return_target_pc
        &&& self.active_call_return_target_owner_seq == o.active_call_return_target_owner_seq
        &&& self.active_call_return_target_epoch == o.active_call_return_target_epoch
        &&& self.active_call_return_materialization_kind == o.active_call_return_materialization_kind
        &&& self.ready_table_checkpoints == o.ready_table_checkpoints
        &&& self.pending_bru_correction == o.pending_bru_correction
        &&& self.iq_tags == o.iq_tags
        &&& self.iq_owner_table == o.iq_owner_table
        &&& self.qtag_wait_crossbar == o.qtag_wait_crossbar
        &&& self.liq == o.liq
        &&& self.lhq == o.lhq
        &&& self.mdb == o.mdb
        &&& self.l1d == o.l1d
        &&& self.p1 == o.p1
        &&& self.i1 == o.i1
        &&& self.i2 == o.i2
        &&& self.e1 == o.e1
        &&& self.e2 == o.e2
        &&& self.e3 == o.e3
        &&& self.e4 == o.e4
        &&& self.w1 == o.w1
        &&& self.w2 == o.w2
        &&& self.lsid_issue_ptr == o.lsid_issue_ptr
        &&& self.lsid_complete_ptr == o.lsid_complete_ptr
        &&& self.lsid_cache_ptr == o.lsid_cache_ptr
    }
}

/// Every element of `q` names a micro-op below `n`.
pub open spec fn seqs_below(q: Seq<usize>, n: nat) -> bool {
    forall|i: int| 0 <= i < q.len() ==> (q[i] as int) < n
}

pub open spec fn keys_below<V>(m: Map<usize, V>, n: nat) -> bool {
    forall|k: usize| m.contains_key(k) ==> (k as int) < n
}

impl StageQueues {
    /// The shape of the tables and the bound on every sequence number stored,
    /// given that the run has `n` micro-ops.
    pub open spec fn wf(&self, n: nat) -> bool {
        &&& self.frontend@.len() == FRONTEND_STAGE_COUNT
        &&& forall|i: int| 0 <= i < FRONTEND_STAGE_COUNT ==> seqs_below(#[trigger] self.frontend@[i]@, n)
        &&& seqs_below(self.p1@, n)
        &&& seqs_below(self.i1@, n)
        &&& seqs_below(self.i2@, n)
        &&& seqs_below(self.e1@, n)
        &&& seqs_below(self.e2@, n)
        &&& seqs_below(self.e3@, n)
        &&& seqs_below(self.e4@, n)
        &&& seqs_below(self.w1@, n)
        &&& seqs_below(self.w2@, n)
        &&& seqs_below(self.lhq@, n)
        &&& seqs_below(self.stq@, n)
        &&& forall|i: int| 0 <= i < self.liq@.len() ==> (#[trigger] self.liq@[i]).seq < n
        &&& forall|i: int| 0 <= i < self.mdb@.len() ==> (#[trigger] self.mdb@[i]).seq < n
        &&& forall|i: int| 0 <= i < self.scb@.len() ==> (#[trigger] self.scb@[i]).seq < n
        &&& forall|i: int| 0 <= i < self.l1d@.len() ==> (#[trigger] self.l1d@[i]).seq < n
        &&& self.ready_table_checkpoints@.len() == 256
        &&& self.iq_owner_table@.len() == QTAG_SLOTS
        &&& self.qtag_wait_crossbar@.len() == QTAG_SLOTS
        &&& forall|s: int, j: int|
            0 <= s < QTAG_SLOTS && 0 <= j < self.qtag_wait_crossbar@[s]@.len()
                ==> (#[trigger] self.qtag_wait_crossbar@[s]@[j]).1 < 2
        &&& forall|k: usize| #[trigger] self.iq_tags@.contains_key(k) ==> self.iq_tags@[k].entry_id < IQ_CAPACITY
        &&& keys_below(self.iq_tags@, n)
        &&& keys_below(self.seq_call_header_faults@, n)
        &&& (self.pending_trap matches Some(t) ==> t.seq < n)
    }
}

/// Every recorded dependency of a micro-op names an older micro-op, and
/// every queue slot it names is a real slot.
pub open spec fn uops_wf(uops: Seq<CycleUop>) -> bool {
    forall|s: int| 0 <= s < uops.len() ==> uop_wf(#[trigger] uops[s], s)
}

/// No micro-op holds the largest load/store id, so the id pointers can
/// always step past the one they reach.
pub open spec fn lsids_below_max(uops: Seq<CycleUop>) -> bool {
    forall|s: int| 0 <= s < uops.len() ==> ((#[trigger] uops[s]).load_store_id matches Some(id) ==> id < usize::MAX)
}

pub open spec fn uop_wf(u: CycleUop, s: int) -> bool {
    &&& forall|i: int| 0 <= i < 2 ==> (#[trigger] u.deps[i] matches Some(p) ==> p < s)
    &&& forall|i: int| 0 <= i < 2 ==> (#[trigger] u.src_qtags[i] matches Some(q) ==> q.entry_id < IQ_CAPACITY)
    &&& (u.dst_qtag matches Some(q) ==> q.entry_id < IQ_CAPACITY)
}

} // verus!

verus! {

/// Fresh per-slot tables: nothing owns and nothing waits on any queue slot.
pub fn empty_iq_owner_table() -> (t: Vec<Option<usize>>)
    ensures
        t@.len() == QTAG_SLOTS,
        forall|i: int| 0 <= i < QTAG_SLOTS ==> t@[i] is None,
{
    let mut t: Vec<Option<usize>> = Vec::new();
    while t.len() < QTAG_SLOTS
        invariant
            t@.len() <= QTAG_SLOTS,
            forall|i: int| 0 <= i < t@.len() ==> t@[i] is None,
        decreases QTAG_SLOTS - t@.len(),
    {
        t.push(None);
    }
    t
}

pub fn empty_qtag_wait_crossbar() -> (t: Vec<Vec<(usize, usize)>>)
    ensures
        t@.len() == QTAG_SLOTS,
        forall|i: int| 0 <= i < QTAG_SLOTS ==> (#[trigger] t@[i])@.len() == 0,
{
    let mut t: Vec<Vec<(usize, usize)>> = Vec::new();
    while t.len() < QTAG_SLOTS
        invariant
            t@.len() <= QTAG_SLOTS,
            forall|i: int| 0 <= i < t@.len() ==> (#[trigger] t@[i])@.len() == 0,
        decreases QTAG_SLOTS - t@.len(),
    {
        t.push(Vec::new());
    }
    t
}

fn empty_checkpoint_table() -> (t: Vec<Option<ReadyTableCheckpoint>>)
    ensures
        t@.len() == 256,
        forall|i: int| 0 <= i < 256 ==> t@[i] is None,
{
    let mut t: Vec<Option<ReadyTableCheckpoint>> = Vec::new();
    while t.len() < 256
        invariant
            t@.len() <= 256,
            forall|i: int| 0 <= i < t@.len() ==> t@[i] is None,
        decreases 256 - t@.len(),
    {
        t.push(None);
    }
    t
}

fn empty_frontend() -> (t: Vec<VecDeque<usize>>)
    ensures
        t@.len() == FRONTEND_STAGE_COUNT,
        forall|i: int| 0 <= i < FRONTEND_STAGE_COUNT ==> (#[trigger] t@[i])@.len() == 0,
{
    let mut t: Vec<VecDeque<usize>> = Vec::new();
    while t.len() < FRONTEND_STAGE_COUNT
        invariant
            t@.len() <= FRONTEND_STAGE_COUNT,
            forall|i: int| 0 <= i < t@.len() ==> (#[trigger] t@[i])@.len() == 0,
        decreases FRONTEND_STAGE_COUNT - t@.len(),
    {
        t.push(VecDeque::new());
    }
    t
}

impl StageQueues {
    /// The state of an empty pipeline at reset.
    pub open spec fn is_reset(&self) -> bool {
        &&& self.frontend@.len() == FRONTEND_STAGE_COUNT
        &&& forall|i: int| 0 <= i < FRONTEND_STAGE_COUNT ==> (#[trigger] self.frontend@[i])@.len() == 0
        &&& self.frontend_redirect is None
        &&& self.pending_flush is None
        &&& self.flush_checkpoint_id is None
        &&& self.seq_checkpoint_ids@ == Map::<usize, u8>::empty()
        &&& self.seq_rob_checkpoint_ids@ == Map::<usize, u8>::empty()
        &&& self.seq_recovery_checkpoint_ids@ == Map::<usize, u8>::empty()
        &&& self.seq_recovery_epochs@ == Map::<usize, u16>::empty()
        &&& self.seq_branch_contexts@ == Map::<usize, BranchOwnerContext>::empty()
        &&& self.seq_dynamic_target_pcs@ == Map::<usize, u64>::empty()
        &&& self.seq_boundary_target_pcs@ == Map::<usize, u64>::empty()
        &&& self.seq_boundary_target_owner_seqs@ == Map::<usize, usize>::empty()
        &&& self.seq_boundary_target_producer_kinds@ == Map::<usize, ReturnConsumerKind>::empty()
        &&& self.seq_boundary_target_setup_epochs@ == Map::<usize, u16>::empty()
        &&& self.seq_boundary_target_source_owner_seqs@ == Map::<usize, usize>::empty()
        &&& self.seq_boundary_target_source_epochs@ == Map::<usize, u16>::empty()
        &&& self.seq_boundary_target_source_kinds@ == Map::<usize, DynamicTargetSourceKind>::empty()
        &&& self.seq_return_consumer_kinds@ == Map::<usize, ReturnConsumerKind>::empty()
        &&& self.seq_call_return_target_pcs@ == Map::<usize, u64>::empty()
        &&& self.seq_call_return_target_owner_seqs@ == Map::<usize, usize>::empty()
        &&& self.seq_call_return_target_epochs@ == Map::<usize, u16>::empty()
        &&& self.seq_call_materialization_kinds@ == Map::<usize, CallMaterializationKind>::empty()
        &&& self.seq_call_header_faults@ == Map::<usize, u64>::empty()
        &&& self.iq_tags@ == Map::<usize, QTag>::empty()
        &&& self.active_recovery_checkpoint_id == 0
        &&& self.active_recovery_epoch == 0
        &&& self.active_block_head
        &&& self.active_branch_context == spec_default_branch_context()
        &&& self.active_dynamic_target_pc is None
        &&& self.active_dynamic_target_owner_seq is None
        &&& self.active_dynamic_target_producer_kind is None
        &&& self.active_dynamic_target_setup_epoch is None
        &&& self.active_dynamic_target_owner_kind is None
        &&& self.active_dynamic_target_source_owner_seq is None
        &&& self.active_dynamic_target_source_epoch is None
        &&& self.active_dynamic_target_source_kind is None
        &&& self.active_dynamic_target_call_materialization_kind is None
        &&& self.active_call_header_seq is None
        &&& self.active_call_return_target_pc is None
        &&& self.active_call_return_target_owner_seq is None
        &&& self.active_call_return_target_epoch is None
        &&& self.active_call_return_materialization_kind is None
        &&& self.pending_bru_correction is None
        &&& self.pending_trap is None
        &&& self.ready_table_checkpoints@.len() == 256
        &&& forall|i: int| 0 <= i < 256 ==> self.ready_table_checkpoints@[i] is None
        &&& self.iq_owner_table@.len() == QTAG_SLOTS
        &&& self.qtag_wait_crossbar@.len() == QTAG_SLOTS
        &&& forall|i: int| 0 <= i < QTAG_SLOTS ==> self.iq_owner_table@[i] is None
        &&& forall|i: int| 0 <= i < QTAG_SLOTS ==> (#[trigger] self.qtag_wait_crossbar@[i])@.len() == 0
        &&& self.ready_table_t@ == Set::<usize>::empty()
        &&& self.ready_table_u@ == Set::<usize>::empty()
        &&& self.liq@.len() == 0 && self.lhq@.len() == 0 && self.mdb@.len() == 0
        &&& self.stq@.len() == 0 && self.scb@.len() == 0 && self.l1d@.len() == 0
        &&& self.p1@.len() == 0 && self.i1@.len() == 0 && self.i2@.len() == 0
        &&& self.e1@.len() == 0 && self.e2@.len() == 0 && self.e3@.len() == 0
        &&& self.e4@.len() == 0 && self.w1@.len() == 0 && self.w2@.len() == 0
        &&& self.lsid_issue_ptr == 0 && self.lsid_complete_ptr == 0 && self.lsid_cache_ptr == 0
    }
}

impl Default for StageQueues {
    fn default() -> (r: Self)
        ensures
            r.is_reset(),
            forall|n: nat| r.wf(n),
    {
        StageQueues {
            frontend: empty_frontend(),
            frontend_redirect: None,
            pending_flush: None,
            flush_checkpoint_id: None,
            seq_checkpoint_ids: SeqMap::new(),
            seq_rob_checkpoint_ids: SeqMap::new(),
            seq_recovery_checkpoint_ids: SeqMap::new(),
            seq_recovery_epochs: SeqMap::new(),
            seq_branch_contexts: SeqMap::new(),
            seq_dynamic_target_pcs: SeqMap::new(),
            seq_boundary_target_pcs: SeqMap::new(),
            seq_boundary_target_owner_seqs: SeqMap::new(),
            seq_boundary_target_producer_kinds: SeqMap::new(),
            seq_boundary_target_setup_epochs: SeqMap::new(),
            seq_boundary_target_source_owner_seqs: SeqMap::new(),
            seq_boundary_target_source_epochs: SeqMap::new(),
            seq_boundary_target_source_kinds: SeqMap::new(),
            seq_return_consumer_kinds: SeqMap::new(),
            seq_call_return_target_pcs: SeqMap::new(),
            seq_call_return_target_owner_seqs: SeqMap::new(),
            seq_call_return_target_epochs: SeqMap::new(),
            seq_call_materialization_kinds: SeqMap::new(),
            seq_call_header_faults: SeqMap::new(),
            active_recovery_checkpoint_id: 0,
            active_recovery_epoch: 0,
            active_block_head: true,
            active_branch_context: BranchOwnerContext::default(),
            active_dynamic_target_pc: None,
            active_dynamic_target_owner_seq: None,
            active_dynamic_target_producer_kind: None,
            active_dynamic_target_setup_epoch: None,
            active_dynamic_target_owner_kind: None,
            active_dynamic_target_source_owner_seq: None,
            active_dynamic_target_source_epoch: None,
            active_dynamic_target_source_kind: None,
            active_dynamic_target_call_materialization_kind: None,
            active_call_header_seq: None,
            active_call_return_target_pc: None,
            active_call_return_target_owner_seq: None,
            active_call_return_target_epoch: None,
            active_call_return_materialization_kind: None,
            ready_table_checkpoints: empty_checkpoint_table(),
            pending_bru_correction: None,
            pending_trap: None,
            iq_tags: SeqMap::new(),
            iq_owner_table: empty_iq_owner_table(),
            qtag_wait_crossbar: empty_qtag_wait_crossbar(),
            ready_table_t: BTreeSet::new(),
            ready_table_u: BTreeSet::new(),
            liq: VecDeque::new(),
            lhq: VecDeque::new(),
            mdb: VecDeque::new(),
            stq: VecDeque::new(),
            scb: VecDeque::new(),
            l1d: VecDeque::new(),
            p1: VecDeque::new(),
            i1: VecDeque::new(),
            i2: VecDeque::new(),
            e1: VecDeque::new(),
            e2: VecDeque::new(),
            e3: VecDeque::new(),
            e4: VecDeque::new(),
            w1: VecDeque::new(),
            w2: VecDeque::new(),
            lsid_issue_ptr: 0,
            lsid_complete_ptr: 0,
            lsid_cache_ptr: 0,
        }
    }
}

} // verus!

verus! {

/// Two micro-op records agree on everything decode and dispatch fixed; only
/// the timing and miss-tracking fields may differ.
pub open spec fn same_static(a: CycleUop, b: CycleUop) -> bool {
    &&& a.decoded == b.decoded
    &&& a.commit == b.commit
    &&& a.deps == b.deps
    &&& a.src_queue_kinds == b.src_queue_kinds
    &&& a.src_logical_tags == b.src_logical_tags
    &&& a.src_qtags == b.src_qtags
    &&& a.dst_queue_kind == b.dst_queue_kind
    &&& a.dst_logical_tag == b.dst_logical_tag
    &&& a.dst_qtag == b.dst_qtag
    &&& a.bypass_d2 == b.bypass_d2
    &&& a.is_load == b.is_load
    &&& a.is_store == b.is_store
    &&& a.load_ordinal == b.load_ordinal
    &&& a.load_store_id == b.load_store_id
    &&& a.redirect_target == b.redirect_target
    &&& a.phys_iq == b.phys_iq
}

pub open spec fn same_static_seq(a: Seq<CycleUop>, b: Seq<CycleUop>) -> bool {
    &&& a.len() == b.len()
    &&& forall|i: int| 0 <= i < a.len() ==> same_static(#[trigger] a[i], b[i])
}

pub proof fn lemma_same_static_wf(a: Seq<CycleUop>, b: Seq<CycleUop>)
    requires
        uops_wf(a),
        same_static_seq(a, b),
    ensures
        uops_wf(b),
{
    assert forall|s: int| 0 <= s < b.len() implies uop_wf(#[trigger] b[s], s) by {
        assert(same_static(a[s], b[s]));
        assert(uop_wf(a[s], s));
    }
}

} // verus!

verus! {

/// Two records agree on everything but what dispatch and the issue stages
/// fill in: the queue, the slot, the slots the sources wait on and the
/// visibility marks.
pub open spec fn same_static_but_dispatch(a: CycleUop, b: CycleUop) -> bool {
    &&& a.decoded == b.decoded
    &&& a.commit == b.commit
    &&& a.deps == b.deps
    &&& a.src_queue_kinds == b.src_queue_kinds
    &&& a.src_logical_tags == b.src_logical_tags
    &&& a.dst_queue_kind == b.dst_queue_kind
    &&& a.dst_logical_tag == b.dst_logical_tag
    &&& a.bypass_d2 == b.bypass_d2
    &&& a.is_load == b.is_load
    &&& a.is_store == b.is_store
    &&& a.load_ordinal == b.load_ordinal
    &&& a.load_store_id == b.load_store_id
    &&& a.redirect_target == b.redirect_target
}

pub open spec fn same_static_seq_but_dispatch(a: Seq<CycleUop>, b: Seq<CycleUop>) -> bool {
    &&& a.len() == b.len()
    &&& forall|i: int| 0 <= i < a.len() ==> same_static_but_dispatch(#[trigger] a[i], b[i])
}

pub proof fn lemma_dispatch_update_wf(a: Seq<CycleUop>, s: int, v: CycleUop)
    requires
        0 <= s < a.len(),
        uops_wf(a),
        same_static_but_dispatch(a[s], v),
        uop_wf(v, s),
    ensures
        uops_wf(a.update(s, v)),
        same_static_seq_but_dispatch(a, a.update(s, v)),
{
    assert forall|i: int| 0 <= i < a.len() implies same_static_but_dispatch(#[trigger] a[i], a.update(s, v)[i]) by {}
    assert forall|i: int| 0 <= i < a.len() implies uop_wf(#[trigger] a.update(s, v)[i], i) by {
        if i != s {
            assert(uop_wf(a[i], i));
        }
    }
}

} // verus!
