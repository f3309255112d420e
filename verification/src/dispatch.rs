use vstd::prelude::*;
use std::collections::VecDeque;
use crate::config::{FETCH_WIDTH, IQ_ENQUEUE_PORTS, ISSUE_WIDTH, PHYS_IQ_COUNT};
use crate::decode::{is_bstart, is_bstop, is_macro_boundary, is_start_marker, spec_is_bstart, spec_is_bstop, spec_is_macro_boundary, spec_is_start_marker};
use crate::model::{BranchOwnerContext, CycleUop, IqEntry, PhysIq, QTAG_SLOTS, QTag, StageQueues, spec_default_branch_context, uops_wf};
use crate::owner::{
    boundary_context_from_uop, call_owner_post, dyn_owner_post, is_call_header_uop, live_rob_checkpoint_id_for_seq,
    spec_boundary_context, spec_is_call_header, spec_live_rob_checkpoint_id, update_call_header_owner,
    update_dynamic_target_owner,
};

verus! {

// ---------------------------------------------------------------------------
// Which parts of the state one dispatch step leaves alone.
// ---------------------------------------------------------------------------

/// `a` and `b` agree outside the per-micro-op dispatch records, the recovery checkpoint and the saved checkpoints (and the active dispatch state, compared as a view).
pub open spec fn same_outside_marks(a: StageQueues, b: StageQueues) -> bool {
    &&& a.frontend == b.frontend
    &&& a.frontend_redirect == b.frontend_redirect
    &&& a.pending_flush == b.pending_flush
    &&& a.flush_checkpoint_id == b.flush_checkpoint_id
    &&& a.seq_checkpoint_ids == b.seq_checkpoint_ids
    &&& a.seq_dynamic_target_pcs == b.seq_dynamic_target_pcs
    &&& a.seq_boundary_target_pcs == b.seq_boundary_target_pcs
    &&& a.seq_boundary_target_owner_seqs == b.seq_boundary_target_owner_seqs
    &&& a.seq_boundary_target_producer_kinds == b.seq_boundary_target_producer_kinds
    &&& a.seq_boundary_target_setup_epochs == b.seq_boundary_target_setup_epochs
    &&& a.seq_boundary_target_source_owner_seqs == b.seq_boundary_target_source_owner_seqs
    &&& a.seq_boundary_target_source_epochs == b.seq_boundary_target_source_epochs
    &&& a.seq_boundary_target_source_kinds == b.seq_boundary_target_source_kinds
    &&& a.seq_return_consumer_kinds == b.seq_return_consumer_kinds
    &&& a.seq_call_return_target_pcs == b.seq_call_return_target_pcs
    &&& a.seq_call_return_target_owner_seqs == b.seq_call_return_target_owner_seqs
    &&& a.seq_call_return_target_epochs == b.seq_call_return_target_epochs
    &&& a.seq_call_materialization_kinds == b.seq_call_materialization_kinds
    &&& a.seq_call_header_faults == b.seq_call_header_faults
    &&& a.pending_bru_correction == b.pending_bru_correction
    &&& a.pending_trap == b.pending_trap
    &&& a.iq_tags == b.iq_tags
    &&& a.iq_owner_table == b.iq_owner_table
    &&& a.qtag_wait_crossbar == b.qtag_wait_crossbar
    &&& a.liq == b.liq
    &&& a.lhq == b.lhq
    &&& a.mdb == b.mdb
    &&& a.stq == b.stq
    &&& a.scb == b.scb
    &&& a.l1d == b.l1d
    &&& a.p1 == b.p1
    &&& a.i1 == b.i1
    &&& a.i2 == b.i2
    &&& a.e1 == b.e1
    &&& a.e2 == b.e2
    &&& a.e3 == b.e3
    &&& a.e4 == b.e4
    &&& a.w1 == b.w1
    &&& a.w2 == b.w2
    &&& a.lsid_issue_ptr == b.lsid_issue_ptr
    &&& a.lsid_complete_ptr == b.lsid_complete_ptr
    &&& a.lsid_cache_ptr == b.lsid_cache_ptr
}

/// `a` and `b` agree outside the state of the block being dispatched.
pub open spec fn same_outside_block(a: StageQueues, b: StageQueues) -> bool {
    &&& a.frontend == b.frontend
    &&& a.frontend_redirect == b.frontend_redirect
    &&& a.pending_flush == b.pending_flush
    &&& a.flush_checkpoint_id == b.flush_checkpoint_id
    &&& a.seq_checkpoint_ids == b.seq_checkpoint_ids
    &&& a.seq_rob_checkpoint_ids == b.seq_rob_checkpoint_ids
    &&& a.seq_recovery_checkpoint_ids == b.seq_recovery_checkpoint_ids
    &&& a.seq_recovery_epochs == b.seq_recovery_epochs
    &&& a.seq_branch_contexts == b.seq_branch_contexts
    &&& a.seq_dynamic_target_pcs == b.seq_dynamic_target_pcs
    &&& a.seq_boundary_target_pcs == b.seq_boundary_target_pcs
    &&& a.seq_boundary_target_owner_seqs == b.seq_boundary_target_owner_seqs
    &&& a.seq_boundary_target_producer_kinds == b.seq_boundary_target_producer_kinds
    &&& a.seq_boundary_target_setup_epochs == b.seq_boundary_target_setup_epochs
    &&& a.seq_boundary_target_source_owner_seqs == b.seq_boundary_target_source_owner_seqs
    &&& a.seq_boundary_target_source_epochs == b.seq_boundary_target_source_epochs
    &&& a.seq_boundary_target_source_kinds == b.seq_boundary_target_source_kinds
    &&& a.seq_return_consumer_kinds == b.seq_return_consumer_kinds
    &&& a.seq_call_return_target_pcs == b.seq_call_return_target_pcs
    &&& a.seq_call_return_target_owner_seqs == b.seq_call_return_target_owner_seqs
    &&& a.seq_call_return_target_epochs == b.seq_call_return_target_epochs
    &&& a.seq_call_materialization_kinds == b.seq_call_materialization_kinds
    &&& a.seq_call_header_faults == b.seq_call_header_faults
    &&& a.active_recovery_checkpoint_id == b.active_recovery_checkpoint_id
    &&& a.active_call_return_target_pc == b.active_call_return_target_pc
    &&& a.active_call_return_target_owner_seq == b.active_call_return_target_owner_seq
    &&& a.active_call_return_target_epoch == b.active_call_return_target_epoch
    &&& a.active_call_return_materialization_kind == b.active_call_return_materialization_kind
    &&& a.ready_table_checkpoints == b.ready_table_checkpoints
    &&& a.pending_bru_correction == b.pending_bru_correction
    &&& a.pending_trap == b.pending_trap
    &&& a.iq_tags == b.iq_tags
    &&& a.iq_owner_table == b.iq_owner_table
    &&& a.qtag_wait_crossbar == b.qtag_wait_crossbar
    &&& a.ready_table_t == b.ready_table_t
    &&& a.ready_table_u == b.ready_table_u
    &&& a.liq == b.liq
    &&& a.lhq == b.lhq
    &&& a.mdb == b.mdb
    &&& a.stq == b.stq
    &&& a.scb == b.scb
    &&& a.l1d == b.l1d
    &&& a.p1 == b.p1
    &&& a.i1 == b.i1
    &&& a.i2 == b.i2
    &&& a.e1 == b.e1
    &&& a.e2 == b.e2
    &&& a.e3 == b.e3
    &&& a.e4 == b.e4
    &&& a.w1 == b.w1
    &&& a.w2 == b.w2
    &&& a.lsid_issue_ptr == b.lsid_issue_ptr
    &&& a.lsid_complete_ptr == b.lsid_complete_ptr
    &&& a.lsid_cache_ptr == b.lsid_cache_ptr
}

/// `a` and `b` agree outside W2.
pub open spec fn same_outside_w2(a: StageQueues, b: StageQueues) -> bool {
    &&& a.frontend == b.frontend
    &&& a.frontend_redirect == b.frontend_redirect
    &&& a.pending_flush == b.pending_flush
    &&& a.flush_checkpoint_id == b.flush_checkpoint_id
    &&& a.seq_checkpoint_ids == b.seq_checkpoint_ids
    &&& a.seq_rob_checkpoint_ids == b.seq_rob_checkpoint_ids
    &&& a.seq_recovery_checkpoint_ids == b.seq_recovery_checkpoint_ids
    &&& a.seq_recovery_epochs == b.seq_recovery_epochs
    &&& a.seq_branch_contexts == b.seq_branch_contexts
    &&& a.seq_dynamic_target_pcs == b.seq_dynamic_target_pcs
    &&& a.seq_boundary_target_pcs == b.seq_boundary_target_pcs
    &&& a.seq_boundary_target_owner_seqs == b.seq_boundary_target_owner_seqs
    &&& a.seq_boundary_target_producer_kinds == b.seq_boundary_target_producer_kinds
    &&& a.seq_boundary_target_setup_epochs == b.seq_boundary_target_setup_epochs
    &&& a.seq_boundary_target_source_owner_seqs == b.seq_boundary_target_source_owner_seqs
    &&& a.seq_boundary_target_source_epochs == b.seq_boundary_target_source_epochs
    &&& a.seq_boundary_target_source_kinds == b.seq_boundary_target_source_kinds
    &&& a.seq_return_consumer_kinds == b.seq_return_consumer_kinds
    &&& a.seq_call_return_target_pcs == b.seq_call_return_target_pcs
    &&& a.seq_call_return_target_owner_seqs == b.seq_call_return_target_owner_seqs
    &&& a.seq_call_return_target_epochs == b.seq_call_return_target_epochs
    &&& a.seq_call_materialization_kinds == b.seq_call_materialization_kinds
    &&& a.seq_call_header_faults == b.seq_call_header_faults
    &&& a.active_recovery_checkpoint_id == b.active_recovery_checkpoint_id
    &&& a.active_recovery_epoch == b.active_recovery_epoch
    &&& a.active_block_head == b.active_block_head
    &&& a.active_branch_context == b.active_branch_context
    &&& a.active_dynamic_target_pc == b.active_dynamic_target_pc
    &&& a.active_dynamic_target_owner_seq == b.active_dynamic_target_owner_seq
    &&& a.active_dynamic_target_producer_kind == b.active_dynamic_target_producer_kind
    &&& a.active_dynamic_target_setup_epoch == b.active_dynamic_target_setup_epoch
    &&& a.active_dynamic_target_owner_kind == b.active_dynamic_target_owner_kind
    &&& a.active_dynamic_target_source_owner_seq == b.active_dynamic_target_source_owner_seq
    &&& a.active_dynamic_target_source_epoch == b.active_dynamic_target_source_epoch
    &&& a.active_dynamic_target_source_kind == b.active_dynamic_target_source_kind
    &&& a.active_dynamic_target_call_materialization_kind == b.active_dynamic_target_call_materialization_kind
    &&& a.active_call_header_seq == b.active_call_header_seq
    &&& a.active_call_return_target_pc == b.active_call_return_target_pc
    &&& a.active_call_return_target_owner_seq == b.active_call_return_target_owner_seq
    &&& a.active_call_return_target_epoch == b.active_call_return_target_epoch
    &&& a.active_call_return_materialization_kind == b.active_call_return_materialization_kind
    &&& a.ready_table_checkpoints == b.ready_table_checkpoints
    &&& a.pending_bru_correction == b.pending_bru_correction
    &&& a.pending_trap == b.pending_trap
    &&& a.iq_tags == b.iq_tags
    &&& a.iq_owner_table == b.iq_owner_table
    &&& a.qtag_wait_crossbar == b.qtag_wait_crossbar
    &&& a.ready_table_t == b.ready_table_t
    &&& a.ready_table_u == b.ready_table_u
    &&& a.liq == b.liq
    &&& a.lhq == b.lhq
    &&& a.mdb == b.mdb
    &&& a.stq == b.stq
    &&& a.scb == b.scb
    &&& a.l1d == b.l1d
    &&& a.p1 == b.p1
    &&& a.i1 == b.i1
    &&& a.i2 == b.i2
    &&& a.e1 == b.e1
    &&& a.e2 == b.e2
    &&& a.e3 == b.e3
    &&& a.e4 == b.e4
    &&& a.w1 == b.w1
    &&& a.lsid_issue_ptr == b.lsid_issue_ptr
    &&& a.lsid_complete_ptr == b.lsid_complete_ptr
    &&& a.lsid_cache_ptr == b.lsid_cache_ptr
}

/// `a` and `b` agree outside the queue-slot tags and the slot wait lists.
pub open spec fn same_outside_enqueue(a: StageQueues, b: StageQueues) -> bool {
    &&& a.frontend == b.frontend
    &&& a.frontend_redirect == b.frontend_redirect
    &&& a.pending_flush == b.pending_flush
    &&& a.flush_checkpoint_id == b.flush_checkpoint_id
    &&& a.seq_checkpoint_ids == b.seq_checkpoint_ids
    &&& a.seq_rob_checkpoint_ids == b.seq_rob_checkpoint_ids
    &&& a.seq_recovery_checkpoint_ids == b.seq_recovery_checkpoint_ids
    &&& a.seq_recovery_epochs == b.seq_recovery_epochs
    &&& a.seq_branch_contexts == b.seq_branch_contexts
    &&& a.seq_dynamic_target_pcs == b.seq_dynamic_target_pcs
    &&& a.seq_boundary_target_pcs == b.seq_boundary_target_pcs
    &&& a.seq_boundary_target_owner_seqs == b.seq_boundary_target_owner_seqs
    &&& a.seq_boundary_target_producer_kinds == b.seq_boundary_target_producer_kinds
    &&& a.seq_boundary_target_setup_epochs == b.seq_boundary_target_setup_epochs
    &&& a.seq_boundary_target_source_owner_seqs == b.seq_boundary_target_source_owner_seqs
    &&& a.seq_boundary_target_source_epochs == b.seq_boundary_target_source_epochs
    &&& a.seq_boundary_target_source_kinds == b.seq_boundary_target_source_kinds
    &&& a.seq_return_consumer_kinds == b.seq_return_consumer_kinds
    &&& a.seq_call_return_target_pcs == b.seq_call_return_target_pcs
    &&& a.seq_call_return_target_owner_seqs == b.seq_call_return_target_owner_seqs
    &&& a.seq_call_return_target_epochs == b.seq_call_return_target_epochs
    &&& a.seq_call_materialization_kinds == b.seq_call_materialization_kinds
    &&& a.seq_call_header_faults == b.seq_call_header_faults
    &&& a.active_recovery_checkpoint_id == b.active_recovery_checkpoint_id
    &&& a.active_recovery_epoch == b.active_recovery_epoch
    &&& a.active_block_head == b.active_block_head
    &&& a.active_branch_context == b.active_branch_context
    &&& a.active_dynamic_target_pc == b.active_dynamic_target_pc
    &&& a.active_dynamic_target_owner_seq == b.active_dynamic_target_owner_seq
    &&& a.active_dynamic_target_producer_kind == b.active_dynamic_target_producer_kind
    &&& a.active_dynamic_target_setup_epoch == b.active_dynamic_target_setup_epoch
    &&& a.active_dynamic_target_owner_kind == b.active_dynamic_target_owner_kind
    &&& a.active_dynamic_target_source_owner_seq == b.active_dynamic_target_source_owner_seq
    &&& a.active_dynamic_target_source_epoch == b.active_dynamic_target_source_epoch
    &&& a.active_dynamic_target_source_kind == b.active_dynamic_target_source_kind
    &&& a.active_dynamic_target_call_materialization_kind == b.active_dynamic_target_call_materialization_kind
    &&& a.active_call_header_seq == b.active_call_header_seq
    &&& a.active_call_return_target_pc == b.active_call_return_target_pc
    &&& a.active_call_return_target_owner_seq == b.active_call_return_target_owner_seq
    &&& a.active_call_return_target_epoch == b.active_call_return_target_epoch
    &&& a.active_call_return_materialization_kind == b.active_call_return_materialization_kind
    &&& a.ready_table_checkpoints == b.ready_table_checkpoints
    &&& a.pending_bru_correction == b.pending_bru_correction
    &&& a.pending_trap == b.pending_trap
    &&& a.iq_owner_table == b.iq_owner_table
    &&& a.ready_table_t == b.ready_table_t
    &&& a.ready_table_u == b.ready_table_u
    &&& a.liq == b.liq
    &&& a.lhq == b.lhq
    &&& a.mdb == b.mdb
    &&& a.stq == b.stq
    &&& a.scb == b.scb
    &&& a.l1d == b.l1d
    &&& a.p1 == b.p1
    &&& a.i1 == b.i1
    &&& a.i2 == b.i2
    &&& a.e1 == b.e1
    &&& a.e2 == b.e2
    &&& a.e3 == b.e3
    &&& a.e4 == b.e4
    &&& a.w1 == b.w1
    &&& a.w2 == b.w2
    &&& a.lsid_issue_ptr == b.lsid_issue_ptr
    &&& a.lsid_complete_ptr == b.lsid_complete_ptr
    &&& a.lsid_cache_ptr == b.lsid_cache_ptr
}

} // verus!

verus! {

// ---------------------------------------------------------------------------
// S2 dispatch, one micro-op at a time.
// ---------------------------------------------------------------------------

/// The checkpoint a micro-op is dispatched under: a block start allocates
/// its own, anything else inherits the active one.
pub open spec fn dispatch_checkpoint(seq: usize, uops: Seq<CycleUop>, p: StageQueues) -> u8 {
    if spec_is_start_marker(uops[seq as int].decoded@.mnemonic) {
        spec_live_rob_checkpoint_id(p, uops, seq)
    } else {
        p.active_recovery_checkpoint_id
    }
}

/// What dispatch records for `seq` before anything else: a block start
/// takes a checkpoint (saving the active dispatch state in it), and every
/// micro-op records its checkpoint, epoch and branch context.
pub open spec fn marks_post(seq: usize, uops: Seq<CycleUop>, p: StageQueues, q: StageQueues) -> bool {
    let sm = spec_is_start_marker(uops[seq as int].decoded@.mnemonic);
    let cid = dispatch_checkpoint(seq, uops, p);
    &&& q.checkpoint_slots() == if sm { p.checkpoint_slots().update(cid as int, Some(p.active_view())) } else { p.checkpoint_slots() }
    &&& q.ready_table_checkpoints@.len() == p.ready_table_checkpoints@.len()
    &&& q.active_view() == p.active_view()
    &&& q.seq_rob_checkpoint_ids@ == if sm { p.seq_rob_checkpoint_ids@.insert(seq, cid) } else { p.seq_rob_checkpoint_ids@ }
    &&& q.active_recovery_checkpoint_id == cid
    &&& q.seq_recovery_checkpoint_ids@ == p.seq_recovery_checkpoint_ids@.insert(seq, cid)
    &&& q.seq_recovery_epochs@ == p.seq_recovery_epochs@.insert(seq, p.active_recovery_epoch)
    &&& q.seq_branch_contexts@ == p.seq_branch_contexts@.insert(seq, p.active_branch_context)
    &&& same_outside_marks(p, q)
}

fn record_dispatch_marks(seq: usize, pipeline: &mut StageQueues, uops: &Vec<CycleUop>)
    requires
        seq < uops@.len(),
        old(pipeline).ready_table_checkpoints@.len() == 256,
    ensures
        marks_post(seq, uops@, *old(pipeline), *final(pipeline)),
{
    let total = uops.len();
    assert(seq < usize::MAX) by {
        assert(seq < total);
    }
    let checkpoint_id = if is_start_marker(&uops[seq].decoded) {
        let cid = live_rob_checkpoint_id_for_seq(seq, pipeline, uops);
        pipeline.seq_rob_checkpoint_ids.insert(seq, cid);
        pipeline.active_recovery_checkpoint_id = cid;
        crate::checkpoint::snapshot_ready_tables_for_checkpoint(pipeline, cid);
        cid
    } else {
        pipeline.active_recovery_checkpoint_id
    };
    pipeline.seq_recovery_checkpoint_ids.insert(seq, checkpoint_id);
    let epoch = pipeline.active_recovery_epoch;
    pipeline.seq_recovery_epochs.insert(seq, epoch);
    let ctx = pipeline.active_branch_context;
    pipeline.seq_branch_contexts.insert(seq, ctx);
}

/// How `seq` affects the block structure, read from the dispatch state `c`.
pub open spec fn opens_block(seq: usize, uops: Seq<CycleUop>, c: StageQueues) -> bool {
    spec_is_bstart(uops[seq as int].decoded@.mnemonic) && c.active_block_head
}

pub open spec fn ends_block(seq: usize, uops: Seq<CycleUop>, c: StageQueues) -> bool {
    let m = uops[seq as int].decoded@.mnemonic;
    (spec_is_bstart(m) && !c.active_block_head) || spec_is_bstop(m) || spec_is_macro_boundary(m)
}

/// What a block header or boundary does to the block being dispatched: a
/// boundary makes the next header start a block and a header consumes
/// that; either one moves to a new epoch, opens the header's branch context
/// in it and drops the dynamic target set up for the old block (and, unless
/// it is a call header, the open call header).
pub open spec fn close_post(seq: usize, uops: Seq<CycleUop>, c: StageQueues, d: StageQueues) -> bool {
    let head = opens_block(seq, uops, c);
    let boundary = ends_block(seq, uops, c);
    let epoch = c.active_recovery_epoch.wrapping_add(1);
    &&& d.active_block_head == if head { false } else if boundary { true } else { c.active_block_head }
    &&& if boundary || head {
        &&& d.active_recovery_epoch == epoch
        &&& d.active_branch_context == match spec_boundary_context(seq, uops[seq as int], c) {
            Some(x) => BranchOwnerContext { epoch, ..x },
            None => BranchOwnerContext { epoch, ..spec_default_branch_context() },
        }
        &&& d.active_dynamic_target_pc is None
        &&& d.active_dynamic_target_owner_seq is None
        &&& d.active_dynamic_target_producer_kind is None
        &&& d.active_dynamic_target_setup_epoch is None
        &&& d.active_dynamic_target_owner_kind is None
        &&& d.active_dynamic_target_source_owner_seq is None
        &&& d.active_dynamic_target_source_epoch is None
        &&& d.active_dynamic_target_source_kind is None
        &&& d.active_dynamic_target_call_materialization_kind is None
        &&& d.active_call_header_seq == if spec_is_call_header(uops[seq as int]) { c.active_call_header_seq } else { None }
    } else {
        &&& d.active_recovery_epoch == c.active_recovery_epoch
        &&& d.active_branch_context == c.active_branch_context
        &&& d.active_dynamic_target_pc == c.active_dynamic_target_pc
        &&& d.active_dynamic_target_owner_seq == c.active_dynamic_target_owner_seq
        &&& d.active_dynamic_target_producer_kind == c.active_dynamic_target_producer_kind
        &&& d.active_dynamic_target_setup_epoch == c.active_dynamic_target_setup_epoch
        &&& d.active_dynamic_target_owner_kind == c.active_dynamic_target_owner_kind
        &&& d.active_dynamic_target_source_owner_seq == c.active_dynamic_target_source_owner_seq
        &&& d.active_dynamic_target_source_epoch == c.active_dynamic_target_source_epoch
        &&& d.active_dynamic_target_source_kind == c.active_dynamic_target_source_kind
        &&& d.active_dynamic_target_call_materialization_kind == c.active_dynamic_target_call_materialization_kind
        &&& d.active_call_header_seq == c.active_call_header_seq
    }
    &&& same_outside_block(c, d)
}

fn close_block(seq: usize, pipeline: &mut StageQueues, uops: &Vec<CycleUop>, head: bool, boundary: bool, is_call_header: bool)
    requires
        seq < uops@.len(),
        head == opens_block(seq, uops@, *old(pipeline)),
        boundary == ends_block(seq, uops@, *old(pipeline)),
        is_call_header == spec_is_call_header(uops@[seq as int]),
    ensures
        close_post(seq, uops@, *old(pipeline), *final(pipeline)),
{
    if boundary {
        pipeline.active_block_head = true;
    }
    if head {
        pipeline.active_block_head = false;
    }
    if boundary || head {
        let ctx = boundary_context_from_uop(seq, &uops[seq], pipeline);
        let epoch = pipeline.active_recovery_epoch.wrapping_add(1);
        pipeline.active_recovery_epoch = epoch;
        pipeline.active_branch_context = match ctx {
            Some(x) => BranchOwnerContext { epoch, ..x },
            None => BranchOwnerContext { epoch, ..BranchOwnerContext::default() },
        };
        pipeline.active_dynamic_target_pc = None;
        pipeline.active_dynamic_target_owner_seq = None;
        pipeline.active_dynamic_target_producer_kind = None;
        pipeline.active_dynamic_target_setup_epoch = None;
        pipeline.active_dynamic_target_owner_kind = None;
        pipeline.active_dynamic_target_source_owner_seq = None;
        pipeline.active_dynamic_target_source_epoch = None;
        pipeline.active_dynamic_target_source_kind = None;
        pipeline.active_dynamic_target_call_materialization_kind = None;
        if !is_call_header {
            pipeline.active_call_header_seq = None;
        }
    }
}

} // verus!

verus! {

/// The state S2 dispatch carries from one micro-op to the next.
pub struct DispatchState {
    pub p: StageQueues,
    pub iq: Seq<IqEntry>,
    pub uops: Seq<CycleUop>,
    pub ports: [usize; PHYS_IQ_COUNT],
    pub stay: Seq<usize>,
}

/// `Some(v)` unless `o` already holds a value.
pub open spec fn or_insert(o: Option<u64>, v: u64) -> Option<u64> {
    if o is Some { o } else { Some(v) }
}

/// A micro-op that bypasses the issue queues: it is visible to consumers
/// from the next cycle and runs on the command queue.
pub open spec fn bypassed(u: CycleUop, cycle: u64) -> CycleUop {
    CycleUop {
        pick_wakeup_visible: or_insert(u.pick_wakeup_visible, (cycle + 1) as u64),
        data_ready_visible: or_insert(u.data_ready_visible, (cycle + 1) as u64),
        phys_iq: Some(PhysIq::CmdIq),
        ..u
    }
}

/// `d` and `e` agree outside what dispatch into the issue queue changes.
pub open spec fn stalls(d: DispatchState, e: DispatchState, seq: usize) -> bool {
    &&& e.p == d.p
    &&& e.iq == d.iq
    &&& e.uops == d.uops
    &&& e.ports == d.ports
    &&& e.stay == d.stay.push(seq)
}

/// The entry of `seq` in queue `q` once it holds slot `tag`: its sources
/// annotated with the slots they wait on, registered as waiters, and a new
/// issue-queue entry seeded with their readiness.
pub open spec fn enqueued(cycle: u64, seq: usize, q: PhysIq, tag: QTag, d: DispatchState, e: DispatchState) -> bool {
    let idx = crate::model::spec_phys_iq_index(q) as int;
    let u1 = CycleUop { phys_iq: Some(q), dst_qtag: Some(tag), ..d.uops[seq as int] };
    let uops1 = d.uops.update(seq as int, u1);
    let tags1 = d.p.iq_tags@.insert(seq, tag);
    let t = d.p.ready_table_t@;
    let r = d.p.ready_table_u@;
    let u2 = crate::iq_wake::with_src_qtags(
        u1,
        crate::iq_wake::annotate_state(uops1, seq as int, 0, tags1, t, r),
        crate::iq_wake::annotate_state(uops1, seq as int, 1, tags1, t, r),
    );
    let uops2 = uops1.update(seq as int, u2);
    &&& e.uops == uops2
    &&& e.p.iq_tags@ == tags1
    &&& e.p.qtag_wait_crossbar@.len() == d.p.qtag_wait_crossbar@.len()
    &&& forall|s: int| 0 <= s < d.p.qtag_wait_crossbar@.len() ==> (#[trigger] e.p.qtag_wait_crossbar@[s])@
        == crate::iq::waiters_register(
        crate::iq::waiters_register(d.p.qtag_wait_crossbar@[s]@, seq, 0, u2.src_qtags[0], s),
        seq,
        1,
        u2.src_qtags[1],
        s,
    )
    &&& e.ports@ == d.ports@.update(idx, (d.ports[idx] + 1) as usize)
    &&& e.iq.len() == d.iq.len() + 1
    &&& e.iq.take(d.iq.len() as int) == d.iq
    &&& e.iq.last().seq == seq
    &&& e.iq.last().phys_iq == q
    &&& !e.iq.last().inflight
    &&& crate::iq_state::entry_seeded(uops2, e.iq.last(), cycle, t, r)
    &&& e.stay == d.stay
    &&& same_outside_enqueue(d.p, e.p)
}

/// The last part of dispatching `seq`: a bypassing micro-op goes straight
/// to W2 (while it has room); any other one enters the first candidate
/// queue with room, a free slot and an unused enqueue port, or stays in S2.
pub open spec fn route_post(cycle: u64, seq: usize, d: DispatchState, e: DispatchState) -> bool {
    let u = d.uops[seq as int];
    if u.bypass_d2 {
        &&& e.uops == d.uops.update(seq as int, bypassed(u, cycle))
        &&& e.iq == d.iq
        &&& e.ports == d.ports
        &&& if d.p.w2@.len() < ISSUE_WIDTH {
            &&& e.p.w2@ == d.p.w2@.push(seq)
            &&& e.stay == d.stay
        } else {
            &&& e.p.w2 == d.p.w2
            &&& e.stay == d.stay.push(seq)
        }
        &&& same_outside_w2(d.p, e.p)
    } else {
        match crate::iq::first_routable(crate::iq::spec_issue_queue_candidates(u.decoded@.uop_group), d.iq, d.ports, 0) {
            None => stalls(d, e, seq),
            Some(q) => match crate::iq::first_free_slot(d.p.iq_tags@, q, 0) {
                None => stalls(d, e, seq),
                Some(tag) => if d.ports[crate::model::spec_phys_iq_index(q) as int] >= IQ_ENQUEUE_PORTS {
                    stalls(d, e, seq)
                } else {
                    enqueued(cycle, seq, q, tag, d, e)
                },
            },
        }
    }
}

fn route_or_bypass(
    cycle: u64,
    seq: usize,
    pipeline: &mut StageQueues,
    iq: &mut Vec<IqEntry>,
    uops: &mut Vec<CycleUop>,
    ports: &mut [usize; PHYS_IQ_COUNT],
    stay: &mut VecDeque<usize>,
)
    requires
        seq < old(uops)@.len(),
        cycle < u64::MAX,
        uops_wf(old(uops)@),
        crate::iq::tags_in_range(old(pipeline).iq_tags@),
        old(pipeline).qtag_wait_crossbar@.len() == QTAG_SLOTS,
        forall|i: int| 0 <= i < PHYS_IQ_COUNT ==> old(ports)[i] <= IQ_ENQUEUE_PORTS,
    ensures
        route_post(
            cycle,
            seq,
            DispatchState { p: *old(pipeline), iq: old(iq)@, uops: old(uops)@, ports: *old(ports), stay: old(stay)@ },
            DispatchState { p: *final(pipeline), iq: final(iq)@, uops: final(uops)@, ports: *final(ports), stay: final(stay)@ },
        ),
        uops_wf(final(uops)@),
        crate::model::same_static_seq_but_dispatch(old(uops)@, final(uops)@),
        crate::iq::tags_in_range(final(pipeline).iq_tags@),
        final(pipeline).qtag_wait_crossbar@.len() == QTAG_SLOTS,
        forall|i: int| 0 <= i < PHYS_IQ_COUNT ==> final(ports)[i] <= IQ_ENQUEUE_PORTS,
        forall|k: usize| #[trigger] final(pipeline).iq_tags@.contains_key(k) ==> old(pipeline).iq_tags@.contains_key(k) || k == seq,
        forall|x: usize| #[trigger] final(pipeline).w2@.contains(x) ==> old(pipeline).w2@.contains(x) || x == seq,
        forall|x: usize| #[trigger] final(stay)@.contains(x) ==> old(stay)@.contains(x) || x == seq,
        forall|i: int| 0 <= i < final(iq)@.len() ==> (i < old(iq)@.len() && #[trigger] final(iq)@[i] == old(iq)@[i]) || final(iq)@[i].seq == seq,
        crate::iq::tags_distinct(old(pipeline).iq_tags@) ==> crate::iq::tags_distinct(final(pipeline).iq_tags@),
        crate::iq::within_capacity(old(iq)@) ==> crate::iq::within_capacity(final(iq)@),
        (forall|s: int, j: int| 0 <= s < QTAG_SLOTS && 0 <= j < old(pipeline).qtag_wait_crossbar@[s]@.len()
            ==> (#[trigger] old(pipeline).qtag_wait_crossbar@[s]@[j]).1 < 2) ==> (forall|s: int, j: int|
            0 <= s < QTAG_SLOTS && 0 <= j < final(pipeline).qtag_wait_crossbar@[s]@.len()
                ==> (#[trigger] final(pipeline).qtag_wait_crossbar@[s]@[j]).1 < 2),
{
    let total = uops.len();
    assert(seq < usize::MAX) by {
        assert(seq < total);
    }
    if uops[seq].bypass_d2 {
        let ghost before = uops@[seq as int];
        if uops[seq].pick_wakeup_visible.is_none() {
            uops[seq].pick_wakeup_visible = Some(cycle + 1);
        }
        if uops[seq].data_ready_visible.is_none() {
            uops[seq].data_ready_visible = Some(cycle + 1);
        }
        uops[seq].phys_iq = Some(PhysIq::CmdIq);
        assert(uops@[seq as int] == bypassed(before, cycle));
        assert(uops@ == old(uops)@.update(seq as int, bypassed(before, cycle)));
        proof {
            crate::model::lemma_dispatch_update_wf(old(uops)@, seq as int, bypassed(before, cycle));
        }
        if pipeline.w2.len() < ISSUE_WIDTH {
            pipeline.w2.push_back(seq);
        } else {
            stay.push_back(seq);
        }
        return;
    }
    let phys_iq = match crate::iq::route_phys_iq(seq, iq, uops, ports) {
        Some(q) => q,
        None => {
            stay.push_back(seq);
            proof {
                crate::model::lemma_dispatch_update_wf(old(uops)@, seq as int, old(uops)@[seq as int]);
                assert(old(uops)@.update(seq as int, old(uops)@[seq as int]) == old(uops)@);
            }
            return;
        },
    };
    let qtag = match crate::iq::allocate_qtag(&pipeline.iq_tags, phys_iq) {
        Some(t) => t,
        None => {
            stay.push_back(seq);
            proof {
                crate::model::lemma_dispatch_update_wf(old(uops)@, seq as int, old(uops)@[seq as int]);
                assert(old(uops)@.update(seq as int, old(uops)@[seq as int]) == old(uops)@);
            }
            return;
        },
    };
    let idx = phys_iq.index();
    if ports[idx] >= IQ_ENQUEUE_PORTS {
        stay.push_back(seq);
        proof {
            crate::model::lemma_dispatch_update_wf(old(uops)@, seq as int, old(uops)@[seq as int]);
            assert(old(uops)@.update(seq as int, old(uops)@[seq as int]) == old(uops)@);
        }
        return;
    }
    ports[idx] = ports[idx] + 1;
    let ghost u0 = uops@[seq as int];
    uops[seq].phys_iq = Some(phys_iq);
    uops[seq].dst_qtag = Some(qtag);
    let ghost u1 = CycleUop { phys_iq: Some(phys_iq), dst_qtag: Some(qtag), ..u0 };
    assert(uops@[seq as int] == u1);
    assert(uops@ == old(uops)@.update(seq as int, u1));
    proof {
        crate::model::lemma_dispatch_update_wf(old(uops)@, seq as int, u1);
    }
    let ghost tags0 = pipeline.iq_tags@;
    pipeline.iq_tags.insert(seq, qtag);
    proof {
        if crate::iq::tags_distinct(tags0) {
            crate::iq::law_fresh_slot_keeps_tags_distinct(tags0, seq, qtag);
        }
    }
    crate::iq_wake::annotate_qtag_sources(seq, &pipeline.iq_tags, &pipeline.ready_table_t, &pipeline.ready_table_u, uops);
    crate::iq::register_iq_wait_crossbar_entry(&mut pipeline.qtag_wait_crossbar, seq, &uops[seq]);
    let entry = crate::iq_state::make_iq_entry(cycle, seq, phys_iq, &pipeline.ready_table_t, &pipeline.ready_table_u, uops);
    let ghost iq0 = iq@;
    iq.push(entry);
    proof {
        if crate::iq::within_capacity(iq0) {
            crate::iq::lemma_first_routable_can_take(
                crate::iq::spec_issue_queue_candidates(old(uops)@[seq as int].decoded@.uop_group),
                iq0,
                *old(ports),
                0,
            );
            assert forall|q: PhysIq| #[trigger] crate::iq::occupancy(iq@, q) <= crate::config::IQ_CAPACITY by {
                crate::iq::lemma_occupancy_push(iq0, entry, q);
            }
        }
        assert(iq@.take(iq0.len() as int) == iq0);
        let u2 = uops@[seq as int];
        crate::model::lemma_dispatch_update_wf(old(uops)@, seq as int, u2);
        assert(uops@ == old(uops)@.update(seq as int, u2));
    }
}

} // verus!

verus! {

/// One S2 micro-op dispatched, through the intermediate pipeline states
/// `a` (checkpoint and records), `b` (dynamic target), `c` (call state) and
/// `d` (block state).
pub open spec fn step_chain(
    cycle: u64,
    seq: usize,
    pre: DispatchState,
    a: StageQueues,
    b: StageQueues,
    c: StageQueues,
    d: StageQueues,
    post: DispatchState,
) -> bool {
    &&& marks_post(seq, pre.uops, pre.p, a)
    &&& dyn_owner_post(seq, pre.uops, a, b)
    &&& call_owner_post(seq, pre.uops, b, c)
    &&& close_post(seq, pre.uops, c, d)
    &&& route_post(cycle, seq, DispatchState { p: d, ..pre }, post)
}

pub open spec fn dispatch_step(cycle: u64, seq: usize, pre: DispatchState, post: DispatchState) -> bool {
    exists|a: StageQueues, b: StageQueues, c: StageQueues, d: StageQueues| #[trigger] step_chain(cycle, seq, pre, a, b, c, d, post)
}

/// `trace` lists the states of S2 dispatch over `s2`: each one follows
/// from the one before by dispatching the next micro-op.
pub open spec fn dispatch_trace(cycle: u64, s2: Seq<usize>, trace: Seq<DispatchState>) -> bool {
    &&& trace.len() == s2.len() + 1
    &&& forall|j: int| 0 <= j < s2.len() ==> dispatch_step(cycle, s2[j], #[trigger] trace[j], trace[j + 1])
}

pub open spec fn dispatch_start(p: StageQueues, iq: Seq<IqEntry>, uops: Seq<CycleUop>) -> DispatchState {
    DispatchState { p, iq, uops, ports: [0usize; PHYS_IQ_COUNT], stay: Seq::empty() }
}

/// What dispatch from S2 does to the pipeline, the issue queue and the
/// micro-op records.
pub open spec fn dispatch_post(cycle: u64, p_old: StageQueues, iq_old: Seq<IqEntry>, rob_old: Seq<usize>, uops_old: Seq<CycleUop>, p_new: StageQueues, iq_new: Seq<IqEntry>, rob_new: Seq<usize>, uops_new: Seq<CycleUop>) -> bool {
    &&& exists|trace: Seq<DispatchState>| {
        &&& #[trigger] dispatch_trace(cycle, p_old.frontend@[10]@, trace)
        &&& trace[0] == dispatch_start(p_old, iq_old, uops_old)
        &&& iq_new == trace.last().iq
        &&& uops_new == trace.last().uops
        &&& p_new.frontend@.len() == trace.last().p.frontend@.len()
        &&& p_new.frontend@[10]@ == trace.last().stay
        &&& forall|i: int| 0 <= i < 10 ==> #[trigger] p_new.frontend@[i] == trace.last().p.frontend@[i]
        &&& forall|s: int| 0 <= s < QTAG_SLOTS ==> p_new.iq_owner_table@[s]
            == crate::iq::owner_of(iq_new, p_new.iq_tags@, s, iq_new.len() as int)
        &&& same_outside_dispatch_result(trace.last().p, p_new)
    }
    &&& rob_new == rob_old
    &&& p_new.wf(uops_new.len())
    &&& uops_wf(uops_new)
    &&& crate::model::same_static_seq_but_dispatch(uops_old, uops_new)
    &&& (forall|i: int| 0 <= i < iq_old.len() ==> (#[trigger] iq_old[i]).seq < uops_old.len())
        ==> (forall|i: int| 0 <= i < iq_new.len() ==> (#[trigger] iq_new[i]).seq < uops_old.len())
    &&& p_new.lsid_issue_ptr == p_old.lsid_issue_ptr
    &&& p_new.lsid_complete_ptr == p_old.lsid_complete_ptr
    &&& crate::iq::tags_distinct(p_old.iq_tags@) ==> crate::iq::tags_distinct(p_new.iq_tags@)
    &&& crate::iq::within_capacity(iq_old) ==> crate::iq::within_capacity(iq_new)
}

/// Dispatches the micro-ops in S2, oldest first: each records its
/// checkpoint, epoch and branch context (a block start taking a checkpoint
/// of the dispatch state), updates the dynamic-target and call-return
/// state, opens or closes a block, and then bypasses to W2 or enters an
/// issue queue. Those that find no room stay in S2, in order. Finally the
/// slot-owner table is rebuilt.
pub fn dispatch_to_iq_and_bypass(
    cycle: u64,
    pipeline: &mut StageQueues,
    iq: &mut Vec<IqEntry>,
    rob: &mut VecDeque<usize>,
    uops: &mut Vec<CycleUop>,
)
    requires
        old(pipeline).wf(old(uops)@.len()),
        uops_wf(old(uops)@),
        cycle < u64::MAX,
    ensures
        dispatch_post(cycle, *old(pipeline), old(iq)@, old(rob)@, old(uops)@, *final(pipeline), final(iq)@, final(rob)@, final(uops)@),
{
    let ghost n = uops@.len();
    let ghost init = dispatch_start(*pipeline, iq@, uops@);
    let ghost s2 = pipeline.frontend@[10]@;
    let mut ports: [usize; PHYS_IQ_COUNT] = [0usize; PHYS_IQ_COUNT];
    let mut stay: VecDeque<usize> = VecDeque::new();
    let mut i: usize = 0;
    let ghost mut trace: Seq<DispatchState> = seq![init];
    while i < pipeline.frontend[10].len()
        invariant
            pipeline.frontend@.len() == 11,
            pipeline.frontend@[10]@ == s2,
            i <= s2.len(),
            seqs_below_all(s2, n),
            uops@.len() == n,
            uops_wf(uops@),
            crate::model::same_static_seq_but_dispatch(old(uops)@, uops@),
            cycle < u64::MAX,
            pipeline.ready_table_checkpoints@.len() == 256,
            crate::iq::tags_in_range(pipeline.iq_tags@),
            pipeline.qtag_wait_crossbar@.len() == QTAG_SLOTS,
            pipeline.iq_owner_table@.len() == QTAG_SLOTS,
            forall|q: int| 0 <= q < PHYS_IQ_COUNT ==> ports[q] <= IQ_ENQUEUE_PORTS,
            pipeline.wf(n),
            seqs_below_all(stay@, n),
            (forall|j: int| 0 <= j < old(iq)@.len() ==> (#[trigger] old(iq)@[j]).seq < n)
                ==> (forall|j: int| 0 <= j < iq@.len() ==> (#[trigger] iq@[j]).seq < n),
            pipeline.lsid_issue_ptr == old(pipeline).lsid_issue_ptr,
            pipeline.lsid_complete_ptr == old(pipeline).lsid_complete_ptr,
            crate::iq::tags_distinct(old(pipeline).iq_tags@) ==> crate::iq::tags_distinct(pipeline.iq_tags@),
            crate::iq::within_capacity(old(iq)@) ==> crate::iq::within_capacity(iq@),
            trace.len() == i + 1,
            trace[0] == init,
            trace[i as int] == (DispatchState { p: *pipeline, iq: iq@, uops: uops@, ports, stay: stay@ }),
            forall|j: int| 0 <= j < i ==> dispatch_step(cycle, s2[j], #[trigger] trace[j], trace[j + 1]),
        decreases s2.len() - i,
    {
        let seq = pipeline.frontend[10][i];
        assert((seq as int) < n);
        let ghost pre = DispatchState { p: *pipeline, iq: iq@, uops: uops@, ports, stay: stay@ };
        let is_call_header = is_call_header_uop(&uops[seq]);
        let bstart = is_bstart(&uops[seq].decoded);
        let head = bstart && pipeline.active_block_head;
        let boundary = (bstart && !pipeline.active_block_head) || is_bstop(&uops[seq].decoded) || is_macro_boundary(
            &uops[seq].decoded,
        );
        record_dispatch_marks(seq, pipeline, uops);
        let ghost a = *pipeline;
        update_dynamic_target_owner(seq, pipeline, uops);
        let ghost b = *pipeline;
        update_call_header_owner(seq, pipeline, uops);
        let ghost c = *pipeline;
        close_block(seq, pipeline, uops, head, boundary, is_call_header);
        let ghost d = *pipeline;
        route_or_bypass(cycle, seq, pipeline, iq, uops, &mut ports, &mut stay);
        proof {
            assert(pipeline.wf(n));
            let post = DispatchState { p: *pipeline, iq: iq@, uops: uops@, ports, stay: stay@ };
            assert(step_chain(cycle, seq, pre, a, b, c, d, post));
            assert(dispatch_step(cycle, s2[i as int], pre, post));
            let t2 = trace.push(post);
            assert forall|j: int| 0 <= j < i + 1 implies dispatch_step(cycle, s2[j], #[trigger] t2[j], t2[j + 1]) by {
                if j < i {
                    assert(t2[j] == trace[j] && t2[j + 1] == trace[j + 1]);
                }
            }
            trace = t2;
        }
        i += 1;
    }
    let ghost fin = DispatchState { p: *pipeline, iq: iq@, uops: uops@, ports, stay: stay@ };
    let ghost before_set = *pipeline;
    pipeline.frontend.set(10, stay);
    assert forall|k: int| 0 <= k < crate::config::FRONTEND_STAGE_COUNT implies crate::model::seqs_below(
        #[trigger] pipeline.frontend@[k]@,
        n,
    ) by {
        if k != 10 {
            assert(pipeline.frontend@[k] == before_set.frontend@[k]);
        }
    }
    crate::iq::rebuild_iq_owner_table(&mut pipeline.iq_owner_table, iq, &pipeline.iq_tags);
    assert(dispatch_trace(cycle, s2, trace));
    assert(trace.last() == fin);
}

} // verus!

verus! {

/// `a` and `b` agree outside the frontend stages and the slot-owner table.
pub open spec fn same_outside_dispatch_result(a: StageQueues, b: StageQueues) -> bool {
    &&& a.frontend_redirect == b.frontend_redirect
    &&& a.pending_flush == b.pending_flush
    &&& a.flush_checkpoint_id == b.flush_checkpoint_id
    &&& a.seq_checkpoint_ids == b.seq_checkpoint_ids
    &&& a.seq_rob_checkpoint_ids == b.seq_rob_checkpoint_ids
    &&& a.seq_recovery_checkpoint_ids == b.seq_recovery_checkpoint_ids
    &&& a.seq_recovery_epochs == b.seq_recovery_epochs
    &&& a.seq_branch_contexts == b.seq_branch_contexts
    &&& a.seq_dynamic_target_pcs == b.seq_dynamic_target_pcs
    &&& a.seq_boundary_target_pcs == b.seq_boundary_target_pcs
    &&& a.seq_boundary_target_owner_seqs == b.seq_boundary_target_owner_seqs
    &&& a.seq_boundary_target_producer_kinds == b.seq_boundary_target_producer_kinds
    &&& a.seq_boundary_target_setup_epochs == b.seq_boundary_target_setup_epochs
    &&& a.seq_boundary_target_source_owner_seqs == b.seq_boundary_target_source_owner_seqs
    &&& a.seq_boundary_target_source_epochs == b.seq_boundary_target_source_epochs
    &&& a.seq_boundary_target_source_kinds == b.seq_boundary_target_source_kinds
    &&& a.seq_return_consumer_kinds == b.seq_return_consumer_kinds
    &&& a.seq_call_return_target_pcs == b.seq_call_return_target_pcs
    &&& a.seq_call_return_target_owner_seqs == b.seq_call_return_target_owner_seqs
    &&& a.seq_call_return_target_epochs == b.seq_call_return_target_epochs
    &&& a.seq_call_materialization_kinds == b.seq_call_materialization_kinds
    &&& a.seq_call_header_faults == b.seq_call_header_faults
    &&& a.active_recovery_checkpoint_id == b.active_recovery_checkpoint_id
    &&& a.active_recovery_epoch == b.active_recovery_epoch
    &&& a.active_block_head == b.active_block_head
    &&& a.active_branch_context == b.active_branch_context
    &&& a.active_dynamic_target_pc == b.active_dynamic_target_pc
    &&& a.active_dynamic_target_owner_seq == b.active_dynamic_target_owner_seq
    &&& a.active_dynamic_target_producer_kind == b.active_dynamic_target_producer_kind
    &&& a.active_dynamic_target_setup_epoch == b.active_dynamic_target_setup_epoch
    &&& a.active_dynamic_target_owner_kind == b.active_dynamic_target_owner_kind
    &&& a.active_dynamic_target_source_owner_seq == b.active_dynamic_target_source_owner_seq
    &&& a.active_dynamic_target_source_epoch == b.active_dynamic_target_source_epoch
    &&& a.active_dynamic_target_source_kind == b.active_dynamic_target_source_kind
    &&& a.active_dynamic_target_call_materialization_kind == b.active_dynamic_target_call_materialization_kind
    &&& a.active_call_header_seq == b.active_call_header_seq
    &&& a.active_call_return_target_pc == b.active_call_return_target_pc
    &&& a.active_call_return_target_owner_seq == b.active_call_return_target_owner_seq
    &&& a.active_call_return_target_epoch == b.active_call_return_target_epoch
    &&& a.active_call_return_materialization_kind == b.active_call_return_materialization_kind
    &&& a.ready_table_checkpoints == b.ready_table_checkpoints
    &&& a.pending_bru_correction == b.pending_bru_correction
    &&& a.pending_trap == b.pending_trap
    &&& a.iq_tags == b.iq_tags
    &&& a.qtag_wait_crossbar == b.qtag_wait_crossbar
    &&& a.ready_table_t == b.ready_table_t
    &&& a.ready_table_u == b.ready_table_u
    &&& a.liq == b.liq
    &&& a.lhq == b.lhq
    &&& a.mdb == b.mdb
    &&& a.stq == b.stq
    &&& a.scb == b.scb
    &&& a.l1d == b.l1d
    &&& a.p1 == b.p1
    &&& a.i1 == b.i1
    &&& a.i2 == b.i2
    &&& a.e1 == b.e1
    &&& a.e2 == b.e2
    &&& a.e3 == b.e3
    &&& a.e4 == b.e4
    &&& a.w1 == b.w1
    &&& a.w2 == b.w2
    &&& a.lsid_issue_ptr == b.lsid_issue_ptr
    &&& a.lsid_complete_ptr == b.lsid_complete_ptr
    &&& a.lsid_cache_ptr == b.lsid_cache_ptr
}

pub open spec fn seqs_below_all(q: Seq<usize>, n: nat) -> bool {
    forall|i: int| 0 <= i < q.len() ==> (q[i] as int) < n
}

} // verus!

verus! {

// ---------------------------------------------------------------------------
// Fetch.
// ---------------------------------------------------------------------------

/// How many micro-ops fetch takes from `s` on with `room` slots in F0: it
/// stops after a micro-op that redirects.
pub open spec fn fetch_count(uops: Seq<CycleUop>, s: int, room: int) -> int
    decreases room,
{
    if room <= 0 || s < 0 || s >= uops.len() {
        0
    } else if uops[s].redirect_target is Some {
        1
    } else {
        1 + fetch_count(uops, s + 1, room - 1)
    }
}

/// Where fetch resumes this cycle, if it may run at all: at the restart
/// point of a redirect whose delay is over, else where it stopped.
pub open spec fn fetch_start(cycle: u64, p: StageQueues, next: usize) -> Option<usize> {
    match p.frontend_redirect {
        Some(r) => if cycle < r.resume_cycle { None } else { Some(r.restart_seq) },
        None => Some(next),
    }
}

/// The number of micro-ops fetched from `start`: none while an older
/// redirect is unresolved, else up to the room in F0.
pub open spec fn fetched(uops: Seq<CycleUop>, f0_len: nat, start: usize) -> int {
    if crate::recovery::first_unresolved_from(uops, start as int, 0) is Some {
        0
    } else {
        fetch_count(uops, start as int, FETCH_WIDTH - f0_len)
    }
}

proof fn lemma_fetch_count_bounds(uops: Seq<CycleUop>, s: int, room: int)
    ensures
        0 <= fetch_count(uops, s, room),
        room > 0 && 0 <= s < uops.len() ==> fetch_count(uops, s, room) >= 1,
        fetch_count(uops, s, room) <= if room > 0 { room } else { 0 },
        0 <= s ==> s + fetch_count(uops, s, room) <= if s <= uops.len() { uops.len() as int } else { s },
    decreases room,
{
    if room > 0 && 0 <= s < uops.len() && uops[s].redirect_target is None {
        lemma_fetch_count_bounds(uops, s + 1, room - 1);
    }
}

/// What fetching does to the pipeline and the fetch pointer.
pub open spec fn fill_fetch_post(cycle: u64, p_old: StageQueues, next_old: usize, uops: Seq<CycleUop>, p_new: StageQueues, next_new: usize) -> bool {
    &&& match fetch_start(cycle, p_old, next_old) {
        None => {
            &&& p_new == p_old
            &&& next_new == next_old
        },
        Some(start) => {
            let f0 = p_old.frontend@[0]@;
            let k = if f0.len() < FETCH_WIDTH && start < uops.len() { fetched(uops, f0.len(), start) } else { 0 };
            let cid = crate::blocks::spec_packet_checkpoint_id(uops[start as int].commit.pc);
            &&& next_new == start + k
            &&& p_new.frontend@.len() == p_old.frontend@.len()
            &&& p_new.frontend@[0]@ == f0 + Seq::new(k as nat, |i: int| (start + i) as usize)
            &&& forall|i: int| 1 <= i < crate::config::FRONTEND_STAGE_COUNT ==> #[trigger] p_new.frontend@[i] == p_old.frontend@[i]
            &&& forall|s: usize| #[trigger] p_new.seq_checkpoint_ids@.contains_key(s) <==> (p_old.seq_checkpoint_ids@.contains_key(s) || start <= s < start + k)
            &&& forall|s: usize| #[trigger] p_new.seq_checkpoint_ids@.contains_key(s) ==> p_new.seq_checkpoint_ids@[s] == if p_old.seq_checkpoint_ids@.contains_key(s) {
                p_old.seq_checkpoint_ids@[s]
            } else {
                cid
            }
            &&& p_new.frontend_redirect == if p_old.frontend_redirect is Some { None } else { p_old.frontend_redirect }
            &&& same_outside_fetch(p_old, p_new)
        },
    }
    &&& p_old.wf(uops.len()) ==> p_new.wf(uops.len())
}

/// Fetches into F0 for `cycle`: resumes at a redirect's restart point once
/// its delay is over; then, unless an already fetched micro-op has an
/// unresolved redirect, takes consecutive micro-ops while F0 has room,
/// stopping after one that redirects. Every fetched micro-op without a
/// checkpoint gets that of the packet's first micro-op.
pub fn fill_fetch(cycle: u64, pipeline: &mut StageQueues, next_fetch_seq: &mut usize, uops: &Vec<CycleUop>)
    requires
        old(pipeline).frontend@.len() == crate::config::FRONTEND_STAGE_COUNT,
    ensures
        fill_fetch_post(cycle, *old(pipeline), *old(next_fetch_seq), uops@, *final(pipeline), *final(next_fetch_seq)),
{
    if let Some(r) = pipeline.frontend_redirect {
        if cycle < r.resume_cycle {
            return;
        }
        *next_fetch_seq = r.restart_seq;
        pipeline.frontend_redirect = None;
    }
    let start = *next_fetch_seq;
    let ghost mid = *pipeline;
    let total = uops.len();
    let ghost f0 = pipeline.frontend@[0]@;
    let f0_len = pipeline.frontend[0].len();
    let room: usize = if f0_len < FETCH_WIDTH { FETCH_WIDTH - f0_len } else { 0 };
    let blocked = start >= total || crate::recovery::unresolved_redirect_barrier(start, uops).is_some();
    let mut fetched_count: usize = 0;
    proof {
        lemma_fetch_count_bounds(uops@, start as int, room as int);
    }
    if !blocked {
        loop
            invariant_except_break
                fetch_count(uops@, start as int, room as int) == fetched_count + fetch_count(uops@, start + fetched_count, room - fetched_count),
            invariant
                !blocked,
                start < total,
                total == uops@.len(),
                fetched_count <= room <= FETCH_WIDTH,
                start + fetched_count <= total,
                *next_fetch_seq == start + fetched_count,
                pipeline.frontend@.len() == crate::config::FRONTEND_STAGE_COUNT,
                pipeline.frontend@[0]@ == f0 + Seq::new(fetched_count as nat, |i: int| (start + i) as usize),
                forall|i: int| 1 <= i < crate::config::FRONTEND_STAGE_COUNT ==> #[trigger] pipeline.frontend@[i] == mid.frontend@[i],
                *pipeline == (StageQueues { frontend: pipeline.frontend, ..mid }),
            ensures
                fetched_count == fetch_count(uops@, start as int, room as int),
                *next_fetch_seq == start + fetched_count,
                pipeline.frontend@.len() == crate::config::FRONTEND_STAGE_COUNT,
                pipeline.frontend@[0]@ == f0 + Seq::new(fetched_count as nat, |i: int| (start + i) as usize),
                forall|i: int| 1 <= i < crate::config::FRONTEND_STAGE_COUNT ==> #[trigger] pipeline.frontend@[i] == mid.frontend@[i],
                *pipeline == (StageQueues { frontend: pipeline.frontend, ..mid }),
            decreases room - fetched_count,
        {
            if fetched_count >= room || start + fetched_count >= total {
                break;
            }
            let seq = start + fetched_count;
            pipeline.frontend[0].push_back(seq);
            fetched_count += 1;
            *next_fetch_seq = seq + 1;
            proof {
                assert(f0 + Seq::new(fetched_count as nat, |i: int| (start + i) as usize) =~= (f0 + Seq::new(
                    (fetched_count - 1) as nat,
                    |i: int| (start + i) as usize,
                )).push(seq));
            }
            if uops[seq].redirect_target.is_some() {
                break;
            }
        }
    }
    proof {
        if old(pipeline).wf(total as nat) {
            assert(mid.wf(total as nat));
            if !blocked {
                assert forall|i: int| 0 <= i < crate::config::FRONTEND_STAGE_COUNT implies crate::model::seqs_below(
                    #[trigger] pipeline.frontend@[i]@,
                    total as nat,
                ) by {
                    if i == 0 {
                        let q = pipeline.frontend@[0]@;
                        assert forall|j: int| 0 <= j < q.len() implies (q[j] as int) < total by {
                            if j >= f0.len() {
                                assert(q[j] == (start + (j - f0.len())) as usize);
                            } else {
                                assert(q[j] == f0[j]);
                                assert(crate::model::seqs_below(mid.frontend@[0]@, total as nat));
                            }
                        }
                    } else {
                        assert(pipeline.frontend@[i] == mid.frontend@[i]);
                    }
                }
            }
            assert(pipeline.wf(total as nat));
        }
    }
    if fetched_count > 0 {
        let checkpoint_id = crate::blocks::packet_checkpoint_id(uops[start].commit.pc);
        let ghost before = *pipeline;
        let mut i: usize = 0;
        while i < fetched_count
            invariant
                i <= fetched_count,
                start + fetched_count <= total,
                forall|s: usize| #[trigger] pipeline.seq_checkpoint_ids@.contains_key(s) <==> (mid.seq_checkpoint_ids@.contains_key(s) || start <= s < start + i),
                forall|s: usize| #[trigger] pipeline.seq_checkpoint_ids@.contains_key(s) ==> pipeline.seq_checkpoint_ids@[s] == if mid.seq_checkpoint_ids@.contains_key(s) {
                    mid.seq_checkpoint_ids@[s]
                } else {
                    checkpoint_id
                },
                *pipeline == (StageQueues { seq_checkpoint_ids: pipeline.seq_checkpoint_ids, ..before }),
                before.seq_checkpoint_ids == mid.seq_checkpoint_ids,
            decreases fetched_count - i,
        {
            let s = start + i;
            if pipeline.seq_checkpoint_ids.get(s).is_none() {
                pipeline.seq_checkpoint_ids.insert(s, checkpoint_id);
            }
            i += 1;
        }
    }
}

} // verus!

verus! {

/// `a` and `b` agree outside the frontend stages, the scheduled redirect
/// and the fetch checkpoints.
pub open spec fn same_outside_fetch(a: StageQueues, b: StageQueues) -> bool {
    &&& a.pending_flush == b.pending_flush
    &&& a.flush_checkpoint_id == b.flush_checkpoint_id
    &&& a.seq_rob_checkpoint_ids == b.seq_rob_checkpoint_ids
    &&& a.seq_recovery_checkpoint_ids == b.seq_recovery_checkpoint_ids
    &&& a.seq_recovery_epochs == b.seq_recovery_epochs
    &&& a.seq_branch_contexts == b.seq_branch_contexts
    &&& a.seq_dynamic_target_pcs == b.seq_dynamic_target_pcs
    &&& a.seq_boundary_target_pcs == b.seq_boundary_target_pcs
    &&& a.seq_boundary_target_owner_seqs == b.seq_boundary_target_owner_seqs
    &&& a.seq_boundary_target_producer_kinds == b.seq_boundary_target_producer_kinds
    &&& a.seq_boundary_target_setup_epochs == b.seq_boundary_target_setup_epochs
    &&& a.seq_boundary_target_source_owner_seqs == b.seq_boundary_target_source_owner_seqs
    &&& a.seq_boundary_target_source_epochs == b.seq_boundary_target_source_epochs
    &&& a.seq_boundary_target_source_kinds == b.seq_boundary_target_source_kinds
    &&& a.seq_return_consumer_kinds == b.seq_return_consumer_kinds
    &&& a.seq_call_return_target_pcs == b.seq_call_return_target_pcs
    &&& a.seq_call_return_target_owner_seqs == b.seq_call_return_target_owner_seqs
    &&& a.seq_call_return_target_epochs == b.seq_call_return_target_epochs
    &&& a.seq_call_materialization_kinds == b.seq_call_materialization_kinds
    &&& a.seq_call_header_faults == b.seq_call_header_faults
    &&& a.active_recovery_checkpoint_id == b.active_recovery_checkpoint_id
    &&& a.active_recovery_epoch == b.active_recovery_epoch
    &&& a.active_block_head == b.active_block_head
    &&& a.active_branch_context == b.active_branch_context
    &&& a.active_dynamic_target_pc == b.active_dynamic_target_pc
    &&& a.active_dynamic_target_owner_seq == b.active_dynamic_target_owner_seq
    &&& a.active_dynamic_target_producer_kind == b.active_dynamic_target_producer_kind
    &&& a.active_dynamic_target_setup_epoch == b.active_dynamic_target_setup_epoch
    &&& a.active_dynamic_target_owner_kind == b.active_dynamic_target_owner_kind
    &&& a.active_dynamic_target_source_owner_seq == b.active_dynamic_target_source_owner_seq
    &&& a.active_dynamic_target_source_epoch == b.active_dynamic_target_source_epoch
    &&& a.active_dynamic_target_source_kind == b.active_dynamic_target_source_kind
    &&& a.active_dynamic_target_call_materialization_kind == b.active_dynamic_target_call_materialization_kind
    &&& a.active_call_header_seq == b.active_call_header_seq
    &&& a.active_call_return_target_pc == b.active_call_return_target_pc
    &&& a.active_call_return_target_owner_seq == b.active_call_return_target_owner_seq
    &&& a.active_call_return_target_epoch == b.active_call_return_target_epoch
    &&& a.active_call_return_materialization_kind == b.active_call_return_materialization_kind
    &&& a.ready_table_checkpoints == b.ready_table_checkpoints
    &&& a.pending_bru_correction == b.pending_bru_correction
    &&& a.pending_trap == b.pending_trap
    &&& a.iq_tags == b.iq_tags
    &&& a.iq_owner_table == b.iq_owner_table
    &&& a.qtag_wait_crossbar == b.qtag_wait_crossbar
    &&& a.ready_table_t == b.ready_table_t
    &&& a.ready_table_u == b.ready_table_u
    &&& a.liq == b.liq
    &&& a.lhq == b.lhq
    &&& a.mdb == b.mdb
    &&& a.stq == b.stq
    &&& a.scb == b.scb
    &&& a.l1d == b.l1d
    &&& a.p1 == b.p1
    &&& a.i1 == b.i1
    &&& a.i2 == b.i2
    &&& a.e1 == b.e1
    &&& a.e2 == b.e2
    &&& a.e3 == b.e3
    &&& a.e4 == b.e4
    &&& a.w1 == b.w1
    &&& a.w2 == b.w2
    &&& a.lsid_issue_ptr == b.lsid_issue_ptr
    &&& a.lsid_complete_ptr == b.lsid_complete_ptr
    &&& a.lsid_cache_ptr == b.lsid_cache_ptr
}

} // verus!

verus! {

/// Law: dispatch keeps the issue-queue slot tables consistent: no two
/// micro-ops hold the same slot, no issue queue holds more entries than it
/// has slots, and the owner table names, for each slot, the entry that holds
/// it.
pub proof fn law_dispatch_keeps_slot_tables(
    cycle: u64,
    p_old: StageQueues,
    iq_old: Seq<IqEntry>,
    rob_old: Seq<usize>,
    uops_old: Seq<CycleUop>,
    p_new: StageQueues,
    iq_new: Seq<IqEntry>,
    rob_new: Seq<usize>,
    uops_new: Seq<CycleUop>,
)
    requires
        dispatch_post(cycle, p_old, iq_old, rob_old, uops_old, p_new, iq_new, rob_new, uops_new),
        crate::iq::tags_distinct(p_old.iq_tags@),
        crate::iq::within_capacity(iq_old),
    ensures
        crate::iq::tags_distinct(p_new.iq_tags@),
        crate::iq::within_capacity(iq_new),
        forall|s: int| 0 <= s < QTAG_SLOTS ==> p_new.iq_owner_table@[s]
            == crate::iq::owner_of(iq_new, p_new.iq_tags@, s, iq_new.len() as int),
        rob_new == rob_old,
{
    let trace = choose|trace: Seq<DispatchState>| {
        &&& #[trigger] dispatch_trace(cycle, p_old.frontend@[10]@, trace)
        &&& trace[0] == dispatch_start(p_old, iq_old, uops_old)
        &&& iq_new == trace.last().iq
        &&& uops_new == trace.last().uops
        &&& p_new.frontend@.len() == trace.last().p.frontend@.len()
        &&& p_new.frontend@[10]@ == trace.last().stay
        &&& forall|i: int| 0 <= i < 10 ==> #[trigger] p_new.frontend@[i] == trace.last().p.frontend@[i]
        &&& forall|s: int| 0 <= s < QTAG_SLOTS ==> p_new.iq_owner_table@[s]
            == crate::iq::owner_of(iq_new, p_new.iq_tags@, s, iq_new.len() as int)
        &&& same_outside_dispatch_result(trace.last().p, p_new)
    };
}

} // verus!

verus! {

/// How many of `entries` sit in issue queue `q`.
pub open spec fn entries_in(entries: Seq<IqEntry>, q: PhysIq) -> nat
    decreases entries.len(),
{
    if entries.len() == 0 {
        0
    } else {
        entries_in(entries.drop_last(), q) + (if entries.last().phys_iq == q { 1nat } else { 0nat })
    }
}

proof fn lemma_entries_in_push(s: Seq<IqEntry>, e: IqEntry, q: PhysIq)
    ensures
        entries_in(s.push(e), q) == entries_in(s, q) + (if e.phys_iq == q { 1nat } else { 0nat }),
{
    assert(s.push(e).drop_last() =~= s);
}

/// `st` still begins with `old_iq`, and the entries after it, queue by
/// queue, are as many as the enqueue ports used, none over its limit.
spec fn ports_account(old_iq: Seq<IqEntry>, st: DispatchState) -> bool {
    &&& st.iq.len() >= old_iq.len()
    &&& st.iq.take(old_iq.len() as int) == old_iq
    &&& forall|q: PhysIq| #[trigger] entries_in(st.iq.skip(old_iq.len() as int), q)
        == st.ports@[crate::model::spec_phys_iq_index(q) as int]
    &&& forall|i: int| 0 <= i < PHYS_IQ_COUNT ==> #[trigger] st.ports@[i] <= IQ_ENQUEUE_PORTS
}

proof fn lemma_step_accounts(cycle: u64, seq: usize, old_iq: Seq<IqEntry>, d: DispatchState, e: DispatchState)
    requires
        ports_account(old_iq, d),
        dispatch_step(cycle, seq, d, e),
    ensures
        ports_account(old_iq, e),
{
    let (a, b, c, p) = choose|a: StageQueues, b: StageQueues, c: StageQueues, p: StageQueues|
        #[trigger] step_chain(cycle, seq, d, a, b, c, p, e);
    let d2 = DispatchState { p: p, ..d };
    assert(route_post(cycle, seq, d2, e));
    let n = old_iq.len() as int;
    let u = d.uops[seq as int];
    if !u.bypass_d2 {
        match crate::iq::first_routable(crate::iq::spec_issue_queue_candidates(u.decoded@.uop_group), d2.iq, d2.ports, 0) {
            None => {},
            Some(q) => match crate::iq::first_free_slot(d2.p.iq_tags@, q, 0) {
                None => {},
                Some(tag) => if d2.ports[crate::model::spec_phys_iq_index(q) as int] < IQ_ENQUEUE_PORTS {
                    assert(enqueued(cycle, seq, q, tag, d2, e));
                    let last = e.iq.last();
                    assert(e.iq =~= d.iq.push(last));
                    assert(e.iq.take(n) =~= old_iq);
                    assert(e.iq.skip(n) =~= d.iq.skip(n).push(last));
                    assert forall|q2: PhysIq| #[trigger] entries_in(e.iq.skip(n), q2)
                        == e.ports@[crate::model::spec_phys_iq_index(q2) as int] by {
                        lemma_entries_in_push(d.iq.skip(n), last, q2);
                        assert(entries_in(d.iq.skip(n), q2) == d.ports@[crate::model::spec_phys_iq_index(q2) as int]);
                    }
                },
            },
        }
    }
}

proof fn lemma_trace_accounts(cycle: u64, s2: Seq<usize>, trace: Seq<DispatchState>, old_iq: Seq<IqEntry>, j: int)
    requires
        dispatch_trace(cycle, s2, trace),
        ports_account(old_iq, trace[0]),
        0 <= j <= s2.len(),
    ensures
        ports_account(old_iq, trace[j]),
    decreases j,
{
    if j > 0 {
        lemma_trace_accounts(cycle, s2, trace, old_iq, j - 1);
        lemma_step_accounts(cycle, s2[j - 1], old_iq, trace[j - 1], trace[j]);
    }
}

/// Law: dispatch only appends to the issue queue, and in one cycle no issue
/// queue takes more new entries than it has enqueue ports.
pub proof fn law_dispatch_respects_enqueue_ports(
    cycle: u64,
    p_old: StageQueues,
    iq_old: Seq<IqEntry>,
    rob_old: Seq<usize>,
    uops_old: Seq<CycleUop>,
    p_new: StageQueues,
    iq_new: Seq<IqEntry>,
    rob_new: Seq<usize>,
    uops_new: Seq<CycleUop>,
)
    requires
        dispatch_post(cycle, p_old, iq_old, rob_old, uops_old, p_new, iq_new, rob_new, uops_new),
    ensures
        iq_new.len() >= iq_old.len(),
        iq_new.take(iq_old.len() as int) == iq_old,
        forall|q: PhysIq| #[trigger] entries_in(iq_new.skip(iq_old.len() as int), q) <= IQ_ENQUEUE_PORTS,
{
    let trace = choose|trace: Seq<DispatchState>| {
        &&& #[trigger] dispatch_trace(cycle, p_old.frontend@[10]@, trace)
        &&& trace[0] == dispatch_start(p_old, iq_old, uops_old)
        &&& iq_new == trace.last().iq
        &&& uops_new == trace.last().uops
        &&& p_new.frontend@.len() == trace.last().p.frontend@.len()
        &&& p_new.frontend@[10]@ == trace.last().stay
        &&& forall|i: int| 0 <= i < 10 ==> #[trigger] p_new.frontend@[i] == trace.last().p.frontend@[i]
        &&& forall|s: int| 0 <= s < QTAG_SLOTS ==> p_new.iq_owner_table@[s]
            == crate::iq::owner_of(iq_new, p_new.iq_tags@, s, iq_new.len() as int)
        &&& same_outside_dispatch_result(trace.last().p, p_new)
    };
    let s2 = p_old.frontend@[10]@;
    let t0 = trace[0];
    assert(t0.iq.take(iq_old.len() as int) =~= iq_old);
    assert(t0.iq.skip(iq_old.len() as int) =~= Seq::<IqEntry>::empty());
    assert forall|q: PhysIq| #[trigger] entries_in(t0.iq.skip(iq_old.len() as int), q)
        == t0.ports@[crate::model::spec_phys_iq_index(q) as int] by {
        assert(t0.ports@[crate::model::spec_phys_iq_index(q) as int] == 0);
    }
    lemma_trace_accounts(cycle, s2, trace, iq_old, s2.len() as int);
    let fin = trace[s2.len() as int];
    assert(fin == trace.last());
    assert forall|q: PhysIq| #[trigger] entries_in(iq_new.skip(iq_old.len() as int), q) <= IQ_ENQUEUE_PORTS by {
        assert(fin.ports@[crate::model::spec_phys_iq_index(q) as int] <= IQ_ENQUEUE_PORTS);
    }
}

} // verus!

verus! {

proof fn lemma_first_routable_candidate(c: Seq<PhysIq>, iq: Seq<IqEntry>, ports: [usize; PHYS_IQ_COUNT], i: int)
    ensures
        first_routable_in(c, iq, ports, i),
    decreases c.len() - i,
{
    if 0 <= i < c.len() && !crate::iq::queue_can_take(iq, ports, c[i]) {
        lemma_first_routable_candidate(c, iq, ports, i + 1);
    }
}

spec fn first_routable_in(c: Seq<PhysIq>, iq: Seq<IqEntry>, ports: [usize; PHYS_IQ_COUNT], i: int) -> bool {
    crate::iq::first_routable(c, iq, ports, i) matches Some(q) ==> c.contains(q)
}

/// The entries of `st` after the first `n` come from S2 (`s2`), sit in a
/// queue their micro-op's group may use, and are not yet in flight; the
/// micro-ops keep their decoded instructions.
spec fn new_entries_ok(n: int, s2: Seq<usize>, uops_old: Seq<CycleUop>, st: DispatchState) -> bool {
    &&& 0 <= n <= st.iq.len()
    &&& st.uops.len() == uops_old.len()
    &&& forall|s: int| 0 <= s < uops_old.len() ==> (#[trigger] st.uops[s]).decoded == uops_old[s].decoded
    &&& forall|k: int| n <= k < st.iq.len() ==> {
        &&& s2.contains((#[trigger] st.iq[k]).seq)
        &&& crate::iq::spec_issue_queue_candidates(uops_old[st.iq[k].seq as int].decoded@.uop_group).contains(st.iq[k].phys_iq)
        &&& !st.iq[k].inflight
    }
}

proof fn lemma_step_new_entries(cycle: u64, s2: Seq<usize>, j: int, uops_old: Seq<CycleUop>, n: int, d: DispatchState, e: DispatchState)
    requires
        0 <= j < s2.len(),
        (s2[j] as int) < uops_old.len(),
        new_entries_ok(n, s2, uops_old, d),
        dispatch_step(cycle, s2[j], d, e),
    ensures
        new_entries_ok(n, s2, uops_old, e),
{
    let seq = s2[j];
    let (a, b, c, p) = choose|a: StageQueues, b: StageQueues, c: StageQueues, p: StageQueues|
        #[trigger] step_chain(cycle, seq, d, a, b, c, p, e);
    let d2 = DispatchState { p: p, ..d };
    assert(route_post(cycle, seq, d2, e));
    let u = d.uops[seq as int];
    if u.bypass_d2 {
        assert forall|s: int| 0 <= s < uops_old.len() implies (#[trigger] e.uops[s]).decoded == uops_old[s].decoded by {
            if s != seq as int {
                assert(e.uops[s] == d.uops[s]);
            }
        }
    } else {
        let cands = crate::iq::spec_issue_queue_candidates(u.decoded@.uop_group);
        match crate::iq::first_routable(cands, d2.iq, d2.ports, 0) {
            None => {},
            Some(q) => match crate::iq::first_free_slot(d2.p.iq_tags@, q, 0) {
                None => {},
                Some(tag) => if d2.ports[crate::model::spec_phys_iq_index(q) as int] < IQ_ENQUEUE_PORTS {
                    assert(enqueued(cycle, seq, q, tag, d2, e));
                    lemma_first_routable_candidate(cands, d2.iq, d2.ports, 0);
                    assert(cands.contains(q));
                    let last = e.iq.last();
                    assert(e.iq =~= d.iq.push(last));
                    assert(s2[j] == seq);
                    assert(s2.contains(seq));
                    assert forall|s: int| 0 <= s < uops_old.len() implies (#[trigger] e.uops[s]).decoded == uops_old[s].decoded by {
                        if s != seq as int {
                            assert(e.uops[s] == d.uops[s]);
                        }
                    }
                    assert forall|k: int| n <= k < e.iq.len() implies {
                        &&& s2.contains((#[trigger] e.iq[k]).seq)
                        &&& crate::iq::spec_issue_queue_candidates(uops_old[e.iq[k].seq as int].decoded@.uop_group).contains(e.iq[k].phys_iq)
                        &&& !e.iq[k].inflight
                    } by {
                        if k < d.iq.len() {
                            assert(e.iq[k] == d.iq[k]);
                        } else {
                            assert(e.iq[k] == last);
                            assert(uops_old[seq as int].decoded == u.decoded);
                        }
                    }
                },
            },
        }
    }
}

proof fn lemma_trace_new_entries(cycle: u64, s2: Seq<usize>, trace: Seq<DispatchState>, uops_old: Seq<CycleUop>, n: int, j: int)
    requires
        dispatch_trace(cycle, s2, trace),
        crate::model::seqs_below(s2, uops_old.len()),
        new_entries_ok(n, s2, uops_old, trace[0]),
        0 <= j <= s2.len(),
    ensures
        new_entries_ok(n, s2, uops_old, trace[j]),
    decreases j,
{
    if j > 0 {
        lemma_trace_new_entries(cycle, s2, trace, uops_old, n, j - 1);
        assert((s2[j - 1] as int) < uops_old.len());
        lemma_step_new_entries(cycle, s2, j - 1, uops_old, n, trace[j - 1], trace[j]);
    }
}

/// Law: every entry dispatch adds to the issue queue is for a micro-op that
/// was waiting in S2, sits in a queue its micro-op's group may use, and is
/// not yet in flight.
pub proof fn law_dispatch_enters_candidate_queues(
    cycle: u64,
    p_old: StageQueues,
    iq_old: Seq<IqEntry>,
    rob_old: Seq<usize>,
    uops_old: Seq<CycleUop>,
    p_new: StageQueues,
    iq_new: Seq<IqEntry>,
    rob_new: Seq<usize>,
    uops_new: Seq<CycleUop>,
)
    requires
        p_old.wf(uops_old.len()),
        dispatch_post(cycle, p_old, iq_old, rob_old, uops_old, p_new, iq_new, rob_new, uops_new),
    ensures
        forall|k: int| iq_old.len() <= k < iq_new.len() ==> {
            &&& p_old.frontend@[10]@.contains((#[trigger] iq_new[k]).seq)
            &&& crate::iq::spec_issue_queue_candidates(uops_old[iq_new[k].seq as int].decoded@.uop_group).contains(iq_new[k].phys_iq)
            &&& !iq_new[k].inflight
        },
{
    let trace = choose|trace: Seq<DispatchState>| {
        &&& #[trigger] dispatch_trace(cycle, p_old.frontend@[10]@, trace)
        &&& trace[0] == dispatch_start(p_old, iq_old, uops_old)
        &&& iq_new == trace.last().iq
        &&& uops_new == trace.last().uops
        &&& p_new.frontend@.len() == trace.last().p.frontend@.len()
        &&& p_new.frontend@[10]@ == trace.last().stay
        &&& forall|i: int| 0 <= i < 10 ==> #[trigger] p_new.frontend@[i] == trace.last().p.frontend@[i]
        &&& forall|s: int| 0 <= s < QTAG_SLOTS ==> p_new.iq_owner_table@[s]
            == crate::iq::owner_of(iq_new, p_new.iq_tags@, s, iq_new.len() as int)
        &&& same_outside_dispatch_result(trace.last().p, p_new)
    };
    let s2 = p_old.frontend@[10]@;
    let n = iq_old.len() as int;
    assert(crate::model::seqs_below(s2, uops_old.len()));
    lemma_trace_new_entries(cycle, s2, trace, uops_old, n, s2.len() as int);
    assert(trace[s2.len() as int] == trace.last());
}

} // verus!

verus! {

/// The micro-ops that hold an issue-queue slot are exactly those with an
/// issue-queue entry.
pub open spec fn tags_match_entries(tags: Map<usize, QTag>, iq: Seq<IqEntry>) -> bool {
    forall|s: usize| tags.contains_key(s) <==> exists|i: int| 0 <= i < iq.len() && (#[trigger] iq[i]).seq == s
}

proof fn lemma_step_tags_match(cycle: u64, seq: usize, d: DispatchState, e: DispatchState)
    requires
        tags_match_entries(d.p.iq_tags@, d.iq),
        dispatch_step(cycle, seq, d, e),
    ensures
        tags_match_entries(e.p.iq_tags@, e.iq),
{
    let (a, b, c, p) = choose|a: StageQueues, b: StageQueues, c: StageQueues, p: StageQueues|
        #[trigger] step_chain(cycle, seq, d, a, b, c, p, e);
    assert(a.iq_tags == d.p.iq_tags);
    assert(b.iq_tags == a.iq_tags);
    assert(c.iq_tags == b.iq_tags);
    assert(p.iq_tags == c.iq_tags);
    let d2 = DispatchState { p: p, ..d };
    assert(route_post(cycle, seq, d2, e));
    let u = d.uops[seq as int];
    if !u.bypass_d2 {
        match crate::iq::first_routable(crate::iq::spec_issue_queue_candidates(u.decoded@.uop_group), d2.iq, d2.ports, 0) {
            None => {},
            Some(q) => match crate::iq::first_free_slot(d2.p.iq_tags@, q, 0) {
                None => {},
                Some(tag) => if d2.ports[crate::model::spec_phys_iq_index(q) as int] < IQ_ENQUEUE_PORTS {
                    assert(enqueued(cycle, seq, q, tag, d2, e));
                    let last = e.iq.last();
                    assert(e.iq =~= d.iq.push(last));
                    assert forall|s: usize| e.p.iq_tags@.contains_key(s) <==> exists|i: int| 0 <= i < e.iq.len() && (#[trigger] e.iq[i]).seq == s by {
                        if s == seq {
                            assert(e.iq[e.iq.len() - 1].seq == s);
                        } else {
                            if d.p.iq_tags@.contains_key(s) {
                                let i = choose|i: int| 0 <= i < d.iq.len() && (#[trigger] d.iq[i]).seq == s;
                                assert(e.iq[i] == d.iq[i]);
                            }
                            if exists|i: int| 0 <= i < e.iq.len() && (#[trigger] e.iq[i]).seq == s {
                                let i = choose|i: int| 0 <= i < e.iq.len() && (#[trigger] e.iq[i]).seq == s;
                                assert(i < d.iq.len());
                                assert(d.iq[i] == e.iq[i]);
                            }
                        }
                    }
                },
            },
        }
    }
}

proof fn lemma_trace_tags_match(cycle: u64, s2: Seq<usize>, trace: Seq<DispatchState>, j: int)
    requires
        dispatch_trace(cycle, s2, trace),
        tags_match_entries(trace[0].p.iq_tags@, trace[0].iq),
        0 <= j <= s2.len(),
    ensures
        tags_match_entries(trace[j].p.iq_tags@, trace[j].iq),
    decreases j,
{
    if j > 0 {
        lemma_trace_tags_match(cycle, s2, trace, j - 1);
        lemma_step_tags_match(cycle, s2[j - 1], trace[j - 1], trace[j]);
    }
}

/// Law: when the micro-ops holding a slot are exactly those in the issue
/// queue, dispatch keeps it so.
pub proof fn law_dispatch_keeps_tags_for_entries(
    cycle: u64,
    p_old: StageQueues,
    iq_old: Seq<IqEntry>,
    rob_old: Seq<usize>,
    uops_old: Seq<CycleUop>,
    p_new: StageQueues,
    iq_new: Seq<IqEntry>,
    rob_new: Seq<usize>,
    uops_new: Seq<CycleUop>,
)
    requires
        dispatch_post(cycle, p_old, iq_old, rob_old, uops_old, p_new, iq_new, rob_new, uops_new),
        tags_match_entries(p_old.iq_tags@, iq_old),
    ensures
        tags_match_entries(p_new.iq_tags@, iq_new),
{
    let trace = choose|trace: Seq<DispatchState>| {
        &&& #[trigger] dispatch_trace(cycle, p_old.frontend@[10]@, trace)
        &&& trace[0] == dispatch_start(p_old, iq_old, uops_old)
        &&& iq_new == trace.last().iq
        &&& uops_new == trace.last().uops
        &&& p_new.frontend@.len() == trace.last().p.frontend@.len()
        &&& p_new.frontend@[10]@ == trace.last().stay
        &&& forall|i: int| 0 <= i < 10 ==> #[trigger] p_new.frontend@[i] == trace.last().p.frontend@[i]
        &&& forall|s: int| 0 <= s < QTAG_SLOTS ==> p_new.iq_owner_table@[s]
            == crate::iq::owner_of(iq_new, p_new.iq_tags@, s, iq_new.len() as int)
        &&& same_outside_dispatch_result(trace.last().p, p_new)
    };
    let s2 = p_old.frontend@[10]@;
    lemma_trace_tags_match(cycle, s2, trace, s2.len() as int);
    assert(trace[s2.len() as int] == trace.last());
}

} // verus!

verus! {

/// Each entry of `st` after the first `n` is for a micro-op among the first
/// `j` of S2, whose record names the entry's queue and the slot it holds.
spec fn new_entries_marked(n: int, s2: Seq<usize>, j: int, st: DispatchState) -> bool {
    &&& 0 <= n <= st.iq.len()
    &&& forall|k: int| n <= k < st.iq.len() ==> {
        &&& s2.take(j).contains((#[trigger] st.iq[k]).seq)
        &&& st.uops[st.iq[k].seq as int].phys_iq == Some(st.iq[k].phys_iq)
        &&& st.p.iq_tags@.contains_key(st.iq[k].seq)
        &&& st.uops[st.iq[k].seq as int].dst_qtag == Some(st.p.iq_tags@[st.iq[k].seq])
    }
}

proof fn lemma_taken_below(s2: Seq<usize>, j: int, len: nat, x: usize)
    requires
        0 <= j <= s2.len(),
        crate::model::seqs_below(s2, len),
        s2.take(j).contains(x),
    ensures
        (x as int) < len,
{
    let i = choose|i: int| 0 <= i < s2.take(j).len() && s2.take(j)[i] == x;
    assert(s2[i] == x);
}

proof fn lemma_step_marked(cycle: u64, s2: Seq<usize>, j: int, n: int, len: nat, d: DispatchState, e: DispatchState)
    requires
        0 <= j < s2.len(),
        s2.no_duplicates(),
        crate::model::seqs_below(s2, len),
        (s2[j] as int) < len,
        d.uops.len() == len,
        new_entries_marked(n, s2, j, d),
        dispatch_step(cycle, s2[j], d, e),
    ensures
        new_entries_marked(n, s2, j + 1, e),
        e.uops.len() == len,
{
    let seq = s2[j];
    let (a, b, c, p) = choose|a: StageQueues, b: StageQueues, c: StageQueues, p: StageQueues|
        #[trigger] step_chain(cycle, seq, d, a, b, c, p, e);
    assert(a.iq_tags == d.p.iq_tags);
    assert(b.iq_tags == a.iq_tags);
    assert(c.iq_tags == b.iq_tags);
    assert(p.iq_tags == c.iq_tags);
    let d2 = DispatchState { p: p, ..d };
    assert(route_post(cycle, seq, d2, e));
    assert(s2.take(j + 1) =~= s2.take(j).push(seq));
    assert(!s2.take(j).contains(seq)) by {
        if s2.take(j).contains(seq) {
            let i = choose|i: int| 0 <= i < s2.take(j).len() && s2.take(j)[i] == seq;
            assert(s2[i] == s2[j]);
        }
    }
    let u = d.uops[seq as int];
    if u.bypass_d2 {
        assert forall|k: int| n <= k < e.iq.len() implies {
            &&& s2.take(j + 1).contains((#[trigger] e.iq[k]).seq)
            &&& e.uops[e.iq[k].seq as int].phys_iq == Some(e.iq[k].phys_iq)
            &&& e.p.iq_tags@.contains_key(e.iq[k].seq)
            &&& e.uops[e.iq[k].seq as int].dst_qtag == Some(e.p.iq_tags@[e.iq[k].seq])
        } by {
            assert(s2.take(j).contains(d.iq[k].seq));
            assert(d.iq[k].seq != seq);
            lemma_taken_below(s2, j, len, d.iq[k].seq);
            assert(e.uops[d.iq[k].seq as int] == d.uops[d.iq[k].seq as int]);
        }
    } else {
        match crate::iq::first_routable(crate::iq::spec_issue_queue_candidates(u.decoded@.uop_group), d2.iq, d2.ports, 0) {
            None => {},
            Some(q) => match crate::iq::first_free_slot(d2.p.iq_tags@, q, 0) {
                None => {},
                Some(tag) => if d2.ports[crate::model::spec_phys_iq_index(q) as int] < IQ_ENQUEUE_PORTS {
                    assert(enqueued(cycle, seq, q, tag, d2, e));
                    let last = e.iq.last();
                    assert(e.iq =~= d.iq.push(last));
                    assert(s2.take(j + 1).contains(seq)) by {
                        assert(s2.take(j + 1)[j] == seq);
                    }
                    assert forall|k: int| n <= k < e.iq.len() implies {
                        &&& s2.take(j + 1).contains((#[trigger] e.iq[k]).seq)
                        &&& e.uops[e.iq[k].seq as int].phys_iq == Some(e.iq[k].phys_iq)
                        &&& e.p.iq_tags@.contains_key(e.iq[k].seq)
                        &&& e.uops[e.iq[k].seq as int].dst_qtag == Some(e.p.iq_tags@[e.iq[k].seq])
                    } by {
                        if k < d.iq.len() {
                            assert(e.iq[k] == d.iq[k]);
                            assert(s2.take(j).contains(d.iq[k].seq));
                            assert(d.iq[k].seq != seq);
                            lemma_taken_below(s2, j, len, d.iq[k].seq);
                            assert(e.uops[d.iq[k].seq as int] == d.uops[d.iq[k].seq as int]);
                        } else {
                            assert(e.iq[k] == last);
                        }
                    }
                },
            },
        }
    }
}

proof fn lemma_trace_marked(cycle: u64, s2: Seq<usize>, trace: Seq<DispatchState>, n: int, len: nat, j: int)
    requires
        dispatch_trace(cycle, s2, trace),
        s2.no_duplicates(),
        crate::model::seqs_below(s2, len),
        trace[0].uops.len() == len,
        0 <= n <= trace[0].iq.len(),
        trace[0].iq.len() == n,
        0 <= j <= s2.len(),
    ensures
        new_entries_marked(n, s2, j, trace[j]),
        trace[j].uops.len() == len,
    decreases j,
{
    if j > 0 {
        lemma_trace_marked(cycle, s2, trace, n, len, j - 1);
        assert((s2[j - 1] as int) < len);
        lemma_step_marked(cycle, s2, j - 1, n, len, trace[j - 1], trace[j]);
    }
}

/// Law: when no micro-op waits in S2 twice, every micro-op dispatch enters
/// into the issue queue has its record name that queue and the slot it
/// holds there.
pub proof fn law_dispatch_marks_entered_uops(
    cycle: u64,
    p_old: StageQueues,
    iq_old: Seq<IqEntry>,
    rob_old: Seq<usize>,
    uops_old: Seq<CycleUop>,
    p_new: StageQueues,
    iq_new: Seq<IqEntry>,
    rob_new: Seq<usize>,
    uops_new: Seq<CycleUop>,
)
    requires
        p_old.wf(uops_old.len()),
        p_old.frontend@[10]@.no_duplicates(),
        dispatch_post(cycle, p_old, iq_old, rob_old, uops_old, p_new, iq_new, rob_new, uops_new),
    ensures
        forall|k: int| iq_old.len() <= k < iq_new.len() ==> {
            &&& uops_new[(#[trigger] iq_new[k]).seq as int].phys_iq == Some(iq_new[k].phys_iq)
            &&& p_new.iq_tags@.contains_key(iq_new[k].seq)
            &&& uops_new[iq_new[k].seq as int].dst_qtag == Some(p_new.iq_tags@[iq_new[k].seq])
        },
{
    let trace = choose|trace: Seq<DispatchState>| {
        &&& #[trigger] dispatch_trace(cycle, p_old.frontend@[10]@, trace)
        &&& trace[0] == dispatch_start(p_old, iq_old, uops_old)
        &&& iq_new == trace.last().iq
        &&& uops_new == trace.last().uops
        &&& p_new.frontend@.len() == trace.last().p.frontend@.len()
        &&& p_new.frontend@[10]@ == trace.last().stay
        &&& forall|i: int| 0 <= i < 10 ==> #[trigger] p_new.frontend@[i] == trace.last().p.frontend@[i]
        &&& forall|s: int| 0 <= s < QTAG_SLOTS ==> p_new.iq_owner_table@[s]
            == crate::iq::owner_of(iq_new, p_new.iq_tags@, s, iq_new.len() as int)
        &&& same_outside_dispatch_result(trace.last().p, p_new)
    };
    let s2 = p_old.frontend@[10]@;
    assert(crate::model::seqs_below(s2, uops_old.len()));
    lemma_trace_marked(cycle, s2, trace, iq_old.len() as int, uops_old.len(), s2.len() as int);
    assert(trace[s2.len() as int] == trace.last());
}

} // verus!
