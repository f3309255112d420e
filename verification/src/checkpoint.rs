use vstd::prelude::*;
use std::collections::BTreeSet;
use crate::model::{
    BranchOwnerContext, CallMaterializationKind, DynamicTargetSourceKind, LogicalQueueTag,
    QueueWakeKind, ReadyTableCheckpoint, ReturnConsumerKind, StageQueues,
};

verus! {

broadcast use vstd::std_specs::btree::group_btree_axioms;

/// The dispatch-side state that a checkpoint saves.
pub struct CheckpointView {
    pub ready_table_t: Set<usize>,
    pub ready_table_u: Set<usize>,
    pub recovery_epoch: u16,
    pub block_head: bool,
    pub branch_context: BranchOwnerContext,
    pub dynamic_target_pc: Option<u64>,
    pub dynamic_target_owner_seq: Option<usize>,
    pub dynamic_target_producer_kind: Option<ReturnConsumerKind>,
    pub dynamic_target_setup_epoch: Option<u16>,
    pub dynamic_target_owner_kind: Option<ReturnConsumerKind>,
    pub dynamic_target_source_owner_seq: Option<usize>,
    pub dynamic_target_source_epoch: Option<u16>,
    pub dynamic_target_source_kind: Option<DynamicTargetSourceKind>,
    pub dynamic_target_call_materialization_kind: Option<CallMaterializationKind>,
    pub call_header_seq: Option<usize>,
    pub call_return_target_pc: Option<u64>,
    pub call_return_target_owner_seq: Option<usize>,
    pub call_return_target_epoch: Option<u16>,
    pub call_return_materialization_kind: Option<CallMaterializationKind>,
}

impl View for ReadyTableCheckpoint {
    type V = CheckpointView;

    open spec fn view(&self) -> CheckpointView {
        CheckpointView {
            ready_table_t: self.ready_table_t@,
            ready_table_u: self.ready_table_u@,
            recovery_epoch: self.recovery_epoch,
            block_head: self.block_head,
            branch_context: self.branch_context,
            dynamic_target_pc: self.dynamic_target_pc,
            dynamic_target_owner_seq: self.dynamic_target_owner_seq,
            dynamic_target_producer_kind: self.dynamic_target_producer_kind,
            dynamic_target_setup_epoch: self.dynamic_target_setup_epoch,
            dynamic_target_owner_kind: self.dynamic_target_owner_kind,
            dynamic_target_source_owner_seq: self.dynamic_target_source_owner_seq,
            dynamic_target_source_epoch: self.dynamic_target_source_epoch,
            dynamic_target_source_kind: self.dynamic_target_source_kind,
            dynamic_target_call_materialization_kind: self.dynamic_target_call_materialization_kind,
            call_header_seq: self.call_header_seq,
            call_return_target_pc: self.call_return_target_pc,
            call_return_target_owner_seq: self.call_return_target_owner_seq,
            call_return_target_epoch: self.call_return_target_epoch,
            call_return_materialization_kind: self.call_return_materialization_kind,
        }
    }
}

impl StageQueues {
    /// The current dispatch-side state, as a checkpoint would save it.
    pub open spec fn active_view(&self) -> CheckpointView {
        CheckpointView {
            ready_table_t: self.ready_table_t@,
            ready_table_u: self.ready_table_u@,
            recovery_epoch: self.active_recovery_epoch,
            block_head: self.active_block_head,
            branch_context: self.active_branch_context,
            dynamic_target_pc: self.active_dynamic_target_pc,
            dynamic_target_owner_seq: self.active_dynamic_target_owner_seq,
            dynamic_target_producer_kind: self.active_dynamic_target_producer_kind,
            dynamic_target_setup_epoch: self.active_dynamic_target_setup_epoch,
            dynamic_target_owner_kind: self.active_dynamic_target_owner_kind,
            dynamic_target_source_owner_seq: self.active_dynamic_target_source_owner_seq,
            dynamic_target_source_epoch: self.active_dynamic_target_source_epoch,
            dynamic_target_source_kind: self.active_dynamic_target_source_kind,
            dynamic_target_call_materialization_kind: self.active_dynamic_target_call_materialization_kind,
            call_header_seq: self.active_call_header_seq,
            call_return_target_pc: self.active_call_return_target_pc,
            call_return_target_owner_seq: self.active_call_return_target_owner_seq,
            call_return_target_epoch: self.active_call_return_target_epoch,
            call_return_materialization_kind: self.active_call_return_materialization_kind,
        }
    }

    /// The saved checkpoints, by id.
    pub open spec fn checkpoint_slots(&self) -> Seq<Option<CheckpointView>> {
        self.ready_table_checkpoints@.map_values(
            |c: Option<ReadyTableCheckpoint>|
                match c {
                    Some(v) => Some(v@),
                    None => None,
                },
        )
    }

    /// Everything but the active dispatch state and the checkpoint table.
    pub open spec fn same_outside_dispatch_state(&self, other: &StageQueues) -> bool {
        &&& self.frontend == other.frontend
        &&& self.frontend_redirect == other.frontend_redirect
        &&& self.pending_flush == other.pending_flush
        &&& self.flush_checkpoint_id == other.flush_checkpoint_id
        &&& self.seq_checkpoint_ids == other.seq_checkpoint_ids
        &&& self.seq_rob_checkpoint_ids == other.seq_rob_checkpoint_ids
        &&& self.seq_recovery_checkpoint_ids == other.seq_recovery_checkpoint_ids
        &&& self.seq_recovery_epochs == other.seq_recovery_epochs
        &&& self.seq_branch_contexts == other.seq_branch_contexts
        &&& self.seq_dynamic_target_pcs == other.seq_dynamic_target_pcs
        &&& self.seq_boundary_target_pcs == other.seq_boundary_target_pcs
        &&& self.seq_boundary_target_owner_seqs == other.seq_boundary_target_owner_seqs
        &&& self.seq_boundary_target_producer_kinds == other.seq_boundary_target_producer_kinds
        &&& self.seq_boundary_target_setup_epochs == other.seq_boundary_target_setup_epochs
        &&& self.seq_boundary_target_source_owner_seqs == other.seq_boundary_target_source_owner_seqs
        &&& self.seq_boundary_target_source_epochs == other.seq_boundary_target_source_epochs
        &&& self.seq_boundary_target_source_kinds == other.seq_boundary_target_source_kinds
        &&& self.seq_return_consumer_kinds == other.seq_return_consumer_kinds
        &&& self.seq_call_return_target_pcs == other.seq_call_return_target_pcs
        &&& self.seq_call_return_target_owner_seqs == other.seq_call_return_target_owner_seqs
        &&& self.seq_call_return_target_epochs == other.seq_call_return_target_epochs
        &&& self.seq_call_materialization_kinds == other.seq_call_materialization_kinds
        &&& self.seq_call_header_faults == other.seq_call_header_faults
        &&& self.active_recovery_checkpoint_id == other.active_recovery_checkpoint_id
        &&& self.pending_bru_correction == other.pending_bru_correction
        &&& self.pending_trap == other.pending_trap
        &&& self.iq_tags == other.iq_tags
        &&& self.iq_owner_table == other.iq_owner_table
        &&& self.qtag_wait_crossbar == other.qtag_wait_crossbar
        &&& self.liq == other.liq
        &&& self.lhq == other.lhq
        &&& self.mdb == other.mdb
        &&& self.stq == other.stq
        &&& self.scb == other.scb
        &&& self.l1d == other.l1d
        &&& self.p1 == other.p1
        &&& self.i1 == other.i1
        &&& self.i2 == other.i2
        &&& self.e1 == other.e1
        &&& self.e2 == other.e2
        &&& self.e3 == other.e3
        &&& self.e4 == other.e4
        &&& self.w1 == other.w1
        &&& self.w2 == other.w2
        &&& self.lsid_issue_ptr == other.lsid_issue_ptr
        &&& self.lsid_complete_ptr == other.lsid_complete_ptr
        &&& self.lsid_cache_ptr == other.lsid_cache_ptr
    }
}

/// What saving checkpoint `id` does: slot `id` now holds the active state,
/// and nothing else changes.
pub open spec fn snapshot_post(old: StageQueues, new: StageQueues, id: u8) -> bool {
    &&& new.checkpoint_slots() == old.checkpoint_slots().update(id as int, Some(old.active_view()))
    &&& new.active_view() == old.active_view()
    &&& new.same_outside_dispatch_state(&old)
}

/// What restoring checkpoint `id` does: the active state becomes the saved
/// one when the slot holds one; the table and everything else is unchanged.
pub open spec fn restore_post(old: StageQueues, new: StageQueues, id: u8, restored: bool) -> bool {
    &&& restored == old.checkpoint_slots()[id as int] is Some
    &&& (old.checkpoint_slots()[id as int] matches Some(c) ==> new.active_view() == c)
    &&& (old.checkpoint_slots()[id as int] is None ==> new.active_view() == old.active_view())
    &&& new.checkpoint_slots() == old.checkpoint_slots()
    &&& new.same_outside_dispatch_state(&old)
}

/// Marks the value `tag` ready in its queue's ready table.
pub fn insert_ready_table_tag(pipeline: &mut StageQueues, tag: LogicalQueueTag)
    ensures
        tag.kind == QueueWakeKind::T ==> final(pipeline).ready_table_t@ == old(pipeline).ready_table_t@.insert(tag.tag)
            && final(pipeline).ready_table_u@ == old(pipeline).ready_table_u@,
        tag.kind == QueueWakeKind::U ==> final(pipeline).ready_table_u@ == old(pipeline).ready_table_u@.insert(tag.tag)
            && final(pipeline).ready_table_t@ == old(pipeline).ready_table_t@,
        final(pipeline).same_except_ready_tables(&old(pipeline)),
{
    match tag.kind {
        QueueWakeKind::T => {
            pipeline.ready_table_t.insert(tag.tag);
        },
        QueueWakeKind::U => {
            pipeline.ready_table_u.insert(tag.tag);
        },
    }
}

/// Whether the queue value `tag` is known ready.
pub fn logical_tag_ready(tag: LogicalQueueTag, ready_table_t: &BTreeSet<usize>, ready_table_u: &BTreeSet<
    usize,
>) -> (r: bool)
    ensures
        r == (match tag.kind {
            QueueWakeKind::T => ready_table_t@.contains(tag.tag),
            QueueWakeKind::U => ready_table_u@.contains(tag.tag),
        }),
{
    match tag.kind {
        QueueWakeKind::T => ready_table_t.contains(&tag.tag),
        QueueWakeKind::U => ready_table_u.contains(&tag.tag),
    }
}

/// Saves the active dispatch state as checkpoint `checkpoint_id`.
pub fn snapshot_ready_tables_for_checkpoint(pipeline: &mut StageQueues, checkpoint_id: u8)
    requires
        old(pipeline).ready_table_checkpoints@.len() == 256,
    ensures
        snapshot_post(*old(pipeline), *final(pipeline), checkpoint_id),
        final(pipeline).ready_table_checkpoints@.len() == 256,
{
    let snapshot = ReadyTableCheckpoint {
        ready_table_t: pipeline.ready_table_t.clone(),
        ready_table_u: pipeline.ready_table_u.clone(),
        recovery_epoch: pipeline.active_recovery_epoch,
        block_head: pipeline.active_block_head,
        branch_context: pipeline.active_branch_context,
        dynamic_target_pc: pipeline.active_dynamic_target_pc,
        dynamic_target_owner_seq: pipeline.active_dynamic_target_owner_seq,
        dynamic_target_producer_kind: pipeline.active_dynamic_target_producer_kind,
        dynamic_target_setup_epoch: pipeline.active_dynamic_target_setup_epoch,
        dynamic_target_owner_kind: pipeline.active_dynamic_target_owner_kind,
        dynamic_target_source_owner_seq: pipeline.active_dynamic_target_source_owner_seq,
        dynamic_target_source_epoch: pipeline.active_dynamic_target_source_epoch,
        dynamic_target_source_kind: pipeline.active_dynamic_target_source_kind,
        dynamic_target_call_materialization_kind: pipeline.active_dynamic_target_call_materialization_kind,
        call_header_seq: pipeline.active_call_header_seq,
        call_return_target_pc: pipeline.active_call_return_target_pc,
        call_return_target_owner_seq: pipeline.active_call_return_target_owner_seq,
        call_return_target_epoch: pipeline.active_call_return_target_epoch,
        call_return_materialization_kind: pipeline.active_call_return_materialization_kind,
    };
    pipeline.ready_table_checkpoints.set(checkpoint_id as usize, Some(snapshot));
    proof {
        assert(pipeline.checkpoint_slots() =~= old(pipeline).checkpoint_slots().update(
            checkpoint_id as int,
            Some(old(pipeline).active_view()),
        ));
    }
}

/// Restores the dispatch state saved as checkpoint `checkpoint_id`, if any.
pub fn restore_ready_tables_for_checkpoint(pipeline: &mut StageQueues, checkpoint_id: u8) -> (restored: bool)
    requires
        old(pipeline).ready_table_checkpoints@.len() == 256,
    ensures
        restore_post(*old(pipeline), *final(pipeline), checkpoint_id, restored),
        final(pipeline).ready_table_checkpoints@.len() == 256,
{
    let idx = checkpoint_id as usize;
    let (t, u, epoch, head, ctx, a, b, c, d, e, f, g, h, i, j, k, l, m, n) = match &pipeline.ready_table_checkpoints[idx] {
        Some(s) => (
            s.ready_table_t.clone(),
            s.ready_table_u.clone(),
            s.recovery_epoch,
            s.block_head,
            s.branch_context,
            s.dynamic_target_pc,
            s.dynamic_target_owner_seq,
            s.dynamic_target_producer_kind,
            s.dynamic_target_setup_epoch,
            s.dynamic_target_owner_kind,
            s.dynamic_target_source_owner_seq,
            s.dynamic_target_source_epoch,
            s.dynamic_target_source_kind,
            s.dynamic_target_call_materialization_kind,
            s.call_header_seq,
            s.call_return_target_pc,
            s.call_return_target_owner_seq,
            s.call_return_target_epoch,
            s.call_return_materialization_kind,
        ),
        None => {
            return false;
        },
    };
    pipeline.ready_table_t = t;
    pipeline.ready_table_u = u;
    pipeline.active_recovery_epoch = epoch;
    pipeline.active_block_head = head;
    pipeline.active_branch_context = ctx;
    pipeline.active_dynamic_target_pc = a;
    pipeline.active_dynamic_target_owner_seq = b;
    pipeline.active_dynamic_target_producer_kind = c;
    pipeline.active_dynamic_target_setup_epoch = d;
    pipeline.active_dynamic_target_owner_kind = e;
    pipeline.active_dynamic_target_source_owner_seq = f;
    pipeline.active_dynamic_target_source_epoch = g;
    pipeline.active_dynamic_target_source_kind = h;
    pipeline.active_dynamic_target_call_materialization_kind = i;
    pipeline.active_call_header_seq = j;
    pipeline.active_call_return_target_pc = k;
    pipeline.active_call_return_target_owner_seq = l;
    pipeline.active_call_return_target_epoch = m;
    pipeline.active_call_return_materialization_kind = n;
    true
}

/// Law: restoring a checkpoint gives back exactly the dispatch state that was
/// saved in it, whatever happened in between, so long as the slot was not
/// saved over; the restore itself leaves the checkpoint table, the queues,
/// the per-micro-op records and the pending flush, correction and trap as
/// they were.
pub proof fn law_restore_returns_snapshot(
    before_save: StageQueues,
    after_save: StageQueues,
    before_restore: StageQueues,
    after_restore: StageQueues,
    id: u8,
    restored: bool,
)
    requires
        before_save.checkpoint_slots().len() == 256,
        snapshot_post(before_save, after_save, id),
        before_restore.checkpoint_slots()[id as int] == after_save.checkpoint_slots()[id as int],
        restore_post(before_restore, after_restore, id, restored),
    ensures
        restored,
        after_restore.active_view() == before_save.active_view(),
        after_restore.checkpoint_slots() == before_restore.checkpoint_slots(),
        after_restore.same_outside_dispatch_state(&before_restore),
{
}

} // verus!
