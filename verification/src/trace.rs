use vstd::prelude::*;
use std::collections::VecDeque;
use crate::model::{CycleUop, IqEntry, L1dTxnKind, StageQueues, spec_lane_id};
use crate::owner::row_id_text;
use crate::lsu_queues::spec_lsid_ready;
use crate::model::uops_wf;
use crate::select::{i2_issue_eligible, i2_waits_on_lsid, spec_i2_ready};
use crate::record::StageTraceEvent;
use crate::config::{
    TRAP_BRU_RECOVERY_NOT_BSTART, TRAP_DYNAMIC_TARGET_MISSING, TRAP_DYNAMIC_TARGET_NOT_BSTART,
    TRAP_DYNAMIC_TARGET_STALE, TRAP_SETRET_NOT_ADJACENT,
};
use crate::owner::{
    branch_kind_label, call_materialization_kind_label, dynamic_target_source_kind_label,
    live_boundary_epoch_for_seq, live_branch_kind_for_seq, live_call_materialization_kind_for_seq,
    live_control_target_owner_row_id_for_seq, live_dynamic_target_producer_kind_for_seq,
    live_dynamic_target_setup_epoch_for_seq, live_dynamic_target_source_epoch_for_seq,
    live_dynamic_target_source_kind_for_seq, live_dynamic_target_source_owner_row_id_for_seq,
    live_return_consumer_kind_for_seq, map_get, return_consumer_kind_label, spec_branch_kind_label,
    spec_call_materialization_kind_label, spec_control_target_owner, spec_dynamic_target_source_kind_label,
    spec_live_branch_kind, spec_live_call_materialization_kind, spec_live_return_consumer_kind,
    spec_recovery_epoch, spec_return_consumer_kind_label,
};

verus! {

/// The metadata a flush or retire event carries about its micro-op.
#[derive(Clone, Debug)]
pub struct EventMeta {
    pub checkpoint_id: Option<u8>,
    pub trap_cause: Option<u64>,
    pub traparg0: Option<u64>,
    pub target_setup_epoch: Option<u16>,
    pub boundary_epoch: Option<u16>,
    pub target_source_owner_row_id: Option<String>,
    pub target_source_epoch: Option<u16>,
    pub target_owner_row_id: Option<String>,
    pub target_producer_kind: Option<String>,
    pub branch_kind: Option<String>,
    pub return_kind: Option<String>,
    pub call_materialization_kind: Option<String>,
    pub target_source_kind: Option<String>,
}

pub open spec fn text_view(o: Option<String>) -> Option<Seq<char>> {
    match o {
        Some(s) => Some(s@),
        None => None,
    }
}

pub struct MetaView {
    pub checkpoint_id: Option<u8>,
    pub trap_cause: Option<u64>,
    pub traparg0: Option<u64>,
    pub target_setup_epoch: Option<u16>,
    pub boundary_epoch: Option<u16>,
    pub target_source_owner_row_id: Option<Seq<char>>,
    pub target_source_epoch: Option<u16>,
    pub target_owner_row_id: Option<Seq<char>>,
    pub target_producer_kind: Option<Seq<char>>,
    pub branch_kind: Option<Seq<char>>,
    pub return_kind: Option<Seq<char>>,
    pub call_materialization_kind: Option<Seq<char>>,
    pub target_source_kind: Option<Seq<char>>,
}

impl View for EventMeta {
    type V = MetaView;

    open spec fn view(&self) -> MetaView {
        MetaView {
            checkpoint_id: self.checkpoint_id,
            trap_cause: self.trap_cause,
            traparg0: self.traparg0,
            target_setup_epoch: self.target_setup_epoch,
            boundary_epoch: self.boundary_epoch,
            target_source_owner_row_id: text_view(self.target_source_owner_row_id),
            target_source_epoch: self.target_source_epoch,
            target_owner_row_id: text_view(self.target_owner_row_id),
            target_producer_kind: text_view(self.target_producer_kind),
            branch_kind: text_view(self.branch_kind),
            return_kind: text_view(self.return_kind),
            call_materialization_kind: text_view(self.call_materialization_kind),
            target_source_kind: text_view(self.target_source_kind),
        }
    }
}

pub open spec fn no_meta() -> MetaView {
    MetaView {
        checkpoint_id: None,
        trap_cause: None,
        traparg0: None,
        target_setup_epoch: None,
        boundary_epoch: None,
        target_source_owner_row_id: None,
        target_source_epoch: None,
        target_owner_row_id: None,
        target_producer_kind: None,
        branch_kind: None,
        return_kind: None,
        call_materialization_kind: None,
        target_source_kind: None,
    }
}

/// A trace event as text and numbers.
pub struct EventView {
    pub cycle: u64,
    pub row_id: Seq<char>,
    pub stage_id: Seq<char>,
    pub lane_id: Seq<char>,
    pub stall: bool,
    pub cause: Seq<char>,
    pub meta: MetaView,
}

pub open spec fn event_view(e: StageTraceEvent) -> EventView {
    EventView {
        cycle: e.cycle,
        row_id: e.row_id@,
        stage_id: e.stage_id@,
        lane_id: e.lane_id@,
        stall: e.stall,
        cause: e.cause@,
        meta: MetaView {
            checkpoint_id: e.checkpoint_id,
            trap_cause: e.trap_cause,
            traparg0: e.traparg0,
            target_setup_epoch: e.target_setup_epoch,
            boundary_epoch: e.boundary_epoch,
            target_source_owner_row_id: text_view(e.target_source_owner_row_id),
            target_source_epoch: e.target_source_epoch,
            target_owner_row_id: text_view(e.target_owner_row_id),
            target_producer_kind: text_view(e.target_producer_kind),
            branch_kind: text_view(e.branch_kind),
            return_kind: text_view(e.return_kind),
            call_materialization_kind: text_view(e.call_materialization_kind),
            target_source_kind: text_view(e.target_source_kind),
        },
    }
}

pub open spec fn events_view(v: Seq<StageTraceEvent>) -> Seq<EventView> {
    v.map_values(|e: StageTraceEvent| event_view(e))
}

/// The lane a micro-op is drawn in: its issue queue, else the lane of the
/// block being run.
pub open spec fn lane_text(uops: Seq<CycleUop>, seq: usize, default_lane: Seq<char>) -> Seq<char> {
    match uops[seq as int].phys_iq {
        Some(q) => spec_lane_id(q),
        None => default_lane,
    }
}

pub open spec fn event_of(
    cycle: u64,
    default_lane: Seq<char>,
    uops: Seq<CycleUop>,
    seq: usize,
    stage: Seq<char>,
    cause: Seq<char>,
    meta: MetaView,
) -> EventView {
    EventView {
        cycle,
        row_id: row_id_text(seq),
        stage_id: stage,
        lane_id: lane_text(uops, seq, default_lane),
        stall: false,
        cause,
        meta,
    }
}

fn text_copy(o: &Option<String>) -> (r: Option<String>)
    ensures
        text_view(r) == text_view(*o),
{
    match o {
        Some(s) => Some(s.clone()),
        None => None,
    }
}

/// The event of `seq` in `stage` for `cause`, with metadata.
pub fn stage_event_with_meta(
    cycle: u64,
    default_lane: &String,
    uops: &Vec<CycleUop>,
    seq: usize,
    stage: &str,
    cause: &str,
    meta: &EventMeta,
) -> (r: StageTraceEvent)
    requires
        seq < uops@.len(),
    ensures
        event_view(r) == event_of(cycle, default_lane@, uops@, seq, stage@, cause@, meta@),
{
    let lane_id = match uops[seq].phys_iq {
        Some(q) => String::from_str(q.lane_id()),
        None => default_lane.clone(),
    };
    StageTraceEvent {
        cycle,
        row_id: crate::text::uop_row_id(seq),
        stage_id: String::from_str(stage),
        lane_id,
        stall: false,
        cause: String::from_str(cause),
        checkpoint_id: meta.checkpoint_id,
        trap_cause: meta.trap_cause,
        traparg0: meta.traparg0,
        target_setup_epoch: meta.target_setup_epoch,
        boundary_epoch: meta.boundary_epoch,
        target_source_owner_row_id: text_copy(&meta.target_source_owner_row_id),
        target_source_epoch: meta.target_source_epoch,
        target_owner_row_id: text_copy(&meta.target_owner_row_id),
        target_producer_kind: text_copy(&meta.target_producer_kind),
        branch_kind: text_copy(&meta.branch_kind),
        return_kind: text_copy(&meta.return_kind),
        call_materialization_kind: text_copy(&meta.call_materialization_kind),
        target_source_kind: text_copy(&meta.target_source_kind),
    }
}

/// The plain event of `seq` in `stage` for `cause`.
pub fn stage_event(cycle: u64, default_lane: &String, uops: &Vec<CycleUop>, seq: usize, stage: &str, cause: &str) -> (r: StageTraceEvent)
    requires
        seq < uops@.len(),
    ensures
        event_view(r) == event_of(cycle, default_lane@, uops@, seq, stage@, cause@, no_meta()),
{
    let meta = EventMeta {
        checkpoint_id: None,
        trap_cause: None,
        traparg0: None,
        target_setup_epoch: None,
        boundary_epoch: None,
        target_source_owner_row_id: None,
        target_source_epoch: None,
        target_owner_row_id: None,
        target_producer_kind: None,
        branch_kind: None,
        return_kind: None,
        call_materialization_kind: None,
        target_source_kind: None,
    };
    stage_event_with_meta(cycle, default_lane, uops, seq, stage, cause, &meta)
}

} // verus!

verus! {

pub open spec fn row_of(o: Option<usize>) -> Option<Seq<char>> {
    match o {
        Some(s) => Some(row_id_text(s)),
        None => None,
    }
}

/// The metadata of `seq` as the pipeline knows it now, with the given
/// checkpoint and trap fields.
pub open spec fn spec_live_meta(
    p: StageQueues,
    uops: Seq<CycleUop>,
    seq: usize,
    checkpoint_id: Option<u8>,
    trap_cause: Option<u64>,
    traparg0: Option<u64>,
) -> MetaView {
    MetaView {
        checkpoint_id,
        trap_cause,
        traparg0,
        target_setup_epoch: map_get(p.seq_boundary_target_setup_epochs@, seq),
        boundary_epoch: if spec_live_branch_kind(p, uops, seq) is Some {
            Some(spec_recovery_epoch(p, uops, seq))
        } else {
            None
        },
        target_source_owner_row_id: row_of(map_get(p.seq_boundary_target_source_owner_seqs@, seq)),
        target_source_epoch: map_get(p.seq_boundary_target_source_epochs@, seq),
        target_owner_row_id: row_of(spec_control_target_owner(p, uops, seq)),
        target_producer_kind: match map_get(p.seq_boundary_target_producer_kinds@, seq) {
            Some(k) => Some(spec_return_consumer_kind_label(k)),
            None => None,
        },
        branch_kind: match spec_live_branch_kind(p, uops, seq) {
            Some(k) => spec_branch_kind_label(k),
            None => None,
        },
        return_kind: match spec_live_return_consumer_kind(p, uops, seq) {
            Some(k) => Some(spec_return_consumer_kind_label(k)),
            None => None,
        },
        call_materialization_kind: match spec_live_call_materialization_kind(p, uops, seq) {
            Some(k) => Some(spec_call_materialization_kind_label(k)),
            None => None,
        },
        target_source_kind: match map_get(p.seq_boundary_target_source_kinds@, seq) {
            Some(k) => Some(spec_dynamic_target_source_kind_label(k)),
            None => None,
        },
    }
}

fn label_text(s: Option<&'static str>) -> (r: Option<String>)
    ensures
        text_view(r) == match s {
            Some(t) => Some(t@),
            None => None::<Seq<char>>,
        },
{
    match s {
        Some(t) => Some(String::from_str(t)),
        None => None,
    }
}

/// What the pipeline knows now of the control transfer and dynamic target
/// of `seq`, for a flush or retire event.
pub fn live_meta(
    seq: usize,
    pipeline: &StageQueues,
    uops: &Vec<CycleUop>,
    checkpoint_id: Option<u8>,
    trap_cause: Option<u64>,
    traparg0: Option<u64>,
) -> (r: EventMeta)
    ensures
        r@ == spec_live_meta(*pipeline, uops@, seq, checkpoint_id, trap_cause, traparg0),
{
    let producer = match live_dynamic_target_producer_kind_for_seq(seq, pipeline, uops) {
        Some(k) => Some(return_consumer_kind_label(k)),
        None => None,
    };
    let branch = match live_branch_kind_for_seq(seq, pipeline, uops) {
        Some(k) => branch_kind_label(k),
        None => None,
    };
    let ret = match live_return_consumer_kind_for_seq(seq, pipeline, uops) {
        Some(k) => Some(return_consumer_kind_label(k)),
        None => None,
    };
    let call = match live_call_materialization_kind_for_seq(seq, pipeline, uops) {
        Some(k) => Some(call_materialization_kind_label(k)),
        None => None,
    };
    let source = match live_dynamic_target_source_kind_for_seq(seq, pipeline, uops) {
        Some(k) => Some(dynamic_target_source_kind_label(k)),
        None => None,
    };
    let source_owner = live_dynamic_target_source_owner_row_id_for_seq(seq, pipeline, uops);
    let owner = live_control_target_owner_row_id_for_seq(seq, pipeline, uops);
    EventMeta {
        checkpoint_id,
        trap_cause,
        traparg0,
        target_setup_epoch: live_dynamic_target_setup_epoch_for_seq(seq, pipeline, uops),
        boundary_epoch: live_boundary_epoch_for_seq(seq, pipeline, uops),
        target_source_owner_row_id: source_owner,
        target_source_epoch: live_dynamic_target_source_epoch_for_seq(seq, pipeline, uops),
        target_owner_row_id: owner,
        target_producer_kind: label_text(producer),
        branch_kind: label_text(branch),
        return_kind: label_text(ret),
        call_materialization_kind: label_text(call),
        target_source_kind: label_text(source),
    }
}

pub open spec fn spec_pending_trap_stage_cause(cause: u64, source: Option<crate::model::DynamicTargetSourceKind>) -> Seq<char> {
    if cause == TRAP_BRU_RECOVERY_NOT_BSTART {
        "bru_recovery_fault"@
    } else if cause == TRAP_DYNAMIC_TARGET_MISSING {
        "dynamic_target_missing"@
    } else if cause == TRAP_DYNAMIC_TARGET_STALE {
        match source {
            Some(crate::model::DynamicTargetSourceKind::CallReturnFused)
            | Some(crate::model::DynamicTargetSourceKind::CallReturnAdjacentSetret) => "dynamic_target_stale_return"@,
            _ => "dynamic_target_stale_setup"@,
        }
    } else if cause == TRAP_DYNAMIC_TARGET_NOT_BSTART {
        "dynamic_target_not_bstart"@
    } else if cause == TRAP_SETRET_NOT_ADJACENT {
        "call_header_fault"@
    } else {
        "trap_fault"@
    }
}

/// The flush cause a pending trap is traced with; a stale dynamic target
/// says whether it came from a return address or a target setup.
pub fn pending_trap_stage_cause(cause: u64, target_source_kind: Option<crate::model::DynamicTargetSourceKind>) -> (r: &'static str)
    ensures
        r@ == spec_pending_trap_stage_cause(cause, target_source_kind),
{
    if cause == TRAP_BRU_RECOVERY_NOT_BSTART {
        "bru_recovery_fault"
    } else if cause == TRAP_DYNAMIC_TARGET_MISSING {
        "dynamic_target_missing"
    } else if cause == TRAP_DYNAMIC_TARGET_STALE {
        match target_source_kind {
            Some(crate::model::DynamicTargetSourceKind::CallReturnFused)
            | Some(crate::model::DynamicTargetSourceKind::CallReturnAdjacentSetret) => "dynamic_target_stale_return",
            _ => "dynamic_target_stale_setup",
        }
    } else if cause == TRAP_DYNAMIC_TARGET_NOT_BSTART {
        "dynamic_target_not_bstart"
    } else if cause == TRAP_SETRET_NOT_ADJACENT {
        "call_header_fault"
    } else {
        "trap_fault"
    }
}

} // verus!

verus! {

// ---------------------------------------------------------------------------
// Stage timestamps.
// ---------------------------------------------------------------------------

/// What reaching stage `stage` (0: E1, 1: E4, 2: W1, 3: W2) in `cycle` for the
/// first time records on a micro-op: the cycle, and when its result becomes
/// visible (a load announces itself from E1 and delivers from E4; anything
/// else does both from W1).
pub open spec fn stamped(stage: int, u: CycleUop, cycle: u64) -> CycleUop {
    let next = (cycle + 1) as u64;
    if stage == 0 {
        if u.e1_cycle is None {
            CycleUop {
                e1_cycle: Some(cycle),
                pick_wakeup_visible: if u.is_load { Some(next) } else { u.pick_wakeup_visible },
                ..u
            }
        } else {
            u
        }
    } else if stage == 1 {
        if u.e4_cycle is None {
            CycleUop { e4_cycle: Some(cycle), data_ready_visible: Some(next), ..u }
        } else {
            u
        }
    } else if stage == 2 {
        if u.w1_cycle is None {
            CycleUop {
                w1_cycle: Some(cycle),
                pick_wakeup_visible: if !u.is_load { Some(next) } else { u.pick_wakeup_visible },
                data_ready_visible: if !u.is_load { Some(next) } else { u.data_ready_visible },
                ..u
            }
        } else {
            u
        }
    } else {
        if u.done_cycle is None {
            CycleUop { done_cycle: Some(cycle), ..u }
        } else {
            u
        }
    }
}

/// `uops` with every micro-op of `q` stamped for `stage`.
pub open spec fn stamped_all(uops: Seq<CycleUop>, q: Seq<usize>, stage: int, cycle: u64) -> Seq<CycleUop> {
    Seq::new(uops.len(), |s: int| if q.contains(s as usize) { stamped(stage, uops[s], cycle) } else { uops[s] })
}

proof fn lemma_stamped_idempotent(stage: int, u: CycleUop, cycle: u64)
    ensures
        stamped(stage, stamped(stage, u, cycle), cycle) == stamped(stage, u, cycle),
{
}

fn stamp_queue(stage: u8, q: &VecDeque<usize>, uops: &mut Vec<CycleUop>, cycle: u64)
    requires
        stage < 4,
        cycle < u64::MAX,
        crate::model::seqs_below(q@, old(uops)@.len()),
    ensures
        final(uops)@ == stamped_all(old(uops)@, q@, stage as int, cycle),
{
    let ghost u0 = uops@;
    let total = uops.len();
    let mut i: usize = 0;
    while i < q.len()
        invariant
            i <= q@.len(),
            total == u0.len(),
            stage < 4,
            cycle < u64::MAX,
            crate::model::seqs_below(q@, u0.len()),
            uops@ == stamped_all(u0, q@.take(i as int), stage as int, cycle),
        decreases q@.len() - i,
    {
        let seq = q[i];
        let ghost before = uops@;
        let next = cycle + 1;
        if stage == 0 {
            if uops[seq].e1_cycle.is_none() {
                uops[seq].e1_cycle = Some(cycle);
                if uops[seq].is_load {
                    uops[seq].pick_wakeup_visible = Some(next);
                }
            }
        } else if stage == 1 {
            if uops[seq].e4_cycle.is_none() {
                uops[seq].e4_cycle = Some(cycle);
                uops[seq].data_ready_visible = Some(next);
            }
        } else if stage == 2 {
            if uops[seq].w1_cycle.is_none() {
                uops[seq].w1_cycle = Some(cycle);
                if !uops[seq].is_load {
                    uops[seq].pick_wakeup_visible = Some(next);
                    uops[seq].data_ready_visible = Some(next);
                }
            }
        } else {
            if uops[seq].done_cycle.is_none() {
                uops[seq].done_cycle = Some(cycle);
            }
        }
        proof {
            assert(uops@[seq as int] == stamped(stage as int, before[seq as int], cycle));
            assert(q@.take(i + 1) == q@.take(i as int).push(seq));
            crate::recovery::lemma_push_contains(q@.take(i as int), seq);
            lemma_stamped_idempotent(stage as int, u0[seq as int], cycle);
            let target = stamped_all(u0, q@.take(i + 1), stage as int, cycle);
            assert(uops@.len() == target.len());
            assert forall|k: int| 0 <= k < uops@.len() implies uops@[k] == target[k] by {
                if k != seq as int {
                    assert(uops@[k] == before[k]);
                    assert((k as usize) as int == k);
                    assert(q@.take(i + 1).contains(k as usize) == q@.take(i as int).contains(k as usize));
                }
            }
            assert(uops@ =~= target);
        }
        i += 1;
    }
    assert(q@.take(q@.len() as int) == q@);
}

/// Stamps the micro-ops in E1, E4, W1 and W2 with the cycle they first
/// reached the stage in, and marks when their results become visible.
pub fn tag_stage_cycles(cycle: u64, pipeline: &StageQueues, uops: &mut Vec<CycleUop>)
    requires
        cycle < u64::MAX,
        pipeline.wf(old(uops)@.len()),
    ensures
        final(uops)@ == stamped_all(
            stamped_all(
                stamped_all(stamped_all(old(uops)@, pipeline.e1@, 0, cycle), pipeline.e4@, 1, cycle),
                pipeline.w1@,
                2,
                cycle,
            ),
            pipeline.w2@,
            3,
            cycle,
        ),
        crate::model::same_static_seq(old(uops)@, final(uops)@),
{
    let ghost u0 = uops@;
    stamp_queue(0, &pipeline.e1, uops, cycle);
    let ghost u1 = uops@;
    stamp_queue(1, &pipeline.e4, uops, cycle);
    let ghost u2 = uops@;
    stamp_queue(2, &pipeline.w1, uops, cycle);
    let ghost u3 = uops@;
    stamp_queue(3, &pipeline.w2, uops, cycle);
    proof {
        assert forall|i: int| 0 <= i < u0.len() implies crate::model::same_static(#[trigger] u0[i], uops@[i]) by {
            assert(crate::model::same_static(u0[i], u1[i]));
            assert(crate::model::same_static(u1[i], u2[i]));
            assert(crate::model::same_static(u2[i], u3[i]));
            assert(crate::model::same_static(u3[i], uops@[i]));
        }
    }
}

} // verus!

verus! {

// ---------------------------------------------------------------------------
// The per-cycle trace.
// ---------------------------------------------------------------------------

pub open spec fn plain(cycle: u64, lane: Seq<char>, uops: Seq<CycleUop>, seq: usize, stage: Seq<char>, cause: Seq<char>) -> EventView {
    event_of(cycle, lane, uops, seq, stage, cause, no_meta())
}

/// One event per micro-op of `q`, all in `stage` for `cause`.
pub open spec fn plain_events(cycle: u64, lane: Seq<char>, uops: Seq<CycleUop>, q: Seq<usize>, stage: Seq<char>, cause: Seq<char>) -> Seq<EventView> {
    Seq::new(q.len(), |i: int| plain(cycle, lane, uops, q[i], stage, cause))
}

proof fn lemma_events_push(v: Seq<StageTraceEvent>, e: StageTraceEvent)
    ensures
        events_view(v.push(e)) == events_view(v).push(event_view(e)),
{
    assert(events_view(v.push(e)) =~= events_view(v).push(event_view(e)));
}

fn push_event(out: &mut Vec<StageTraceEvent>, e: StageTraceEvent)
    ensures
        events_view(final(out)@) == events_view(old(out)@).push(event_view(e)),
{
    proof {
        lemma_events_push(out@, e);
    }
    out.push(e);
}

/// Appends one event per micro-op of `q`, in order.
fn push_plain_events(
    out: &mut Vec<StageTraceEvent>,
    cycle: u64,
    lane: &String,
    uops: &Vec<CycleUop>,
    q: &VecDeque<usize>,
    stage: &str,
    cause: &str,
)
    requires
        crate::model::seqs_below(q@, uops@.len()),
    ensures
        events_view(final(out)@) == events_view(old(out)@) + plain_events(cycle, lane@, uops@, q@, stage@, cause@),
{
    let ghost o = events_view(out@);
    let mut i: usize = 0;
    while i < q.len()
        invariant
            i <= q@.len(),
            crate::model::seqs_below(q@, uops@.len()),
            events_view(out@) == o + plain_events(cycle, lane@, uops@, q@.take(i as int), stage@, cause@),
        decreases q@.len() - i,
    {
        let e = stage_event(cycle, lane, uops, q[i], stage, cause);
        push_event(out, e);
        proof {
            assert(plain_events(cycle, lane@, uops@, q@.take(i + 1), stage@, cause@) =~= plain_events(
                cycle,
                lane@,
                uops@,
                q@.take(i as int),
                stage@,
                cause@,
            ).push(plain(cycle, lane@, uops@, q@[i as int], stage@, cause@)));
            assert(o + plain_events(cycle, lane@, uops@, q@.take(i + 1), stage@, cause@) =~= (o + plain_events(
                cycle,
                lane@,
                uops@,
                q@.take(i as int),
                stage@,
                cause@,
            )).push(plain(cycle, lane@, uops@, q@[i as int], stage@, cause@)));
        }
        i += 1;
    }
    assert(q@.take(q@.len() as int) == q@);
}

} // verus!

verus! {

pub open spec fn liq_cause(x: crate::model::LiqEntry, cycle: u64) -> Seq<char> {
    if x.refill_ready_cycle <= cycle { "eligible"@ } else { "wait_refill"@ }
}

pub open spec fn liq_events(cycle: u64, lane: Seq<char>, uops: Seq<CycleUop>, q: Seq<crate::model::LiqEntry>) -> Seq<EventView> {
    Seq::new(q.len(), |i: int| plain(cycle, lane, uops, q[i].seq, "LIQ"@, liq_cause(q[i], cycle)))
}

fn push_liq_events(out: &mut Vec<StageTraceEvent>, cycle: u64, lane: &String, uops: &Vec<CycleUop>, q: &VecDeque<crate::model::LiqEntry>)
    requires
        forall|i: int| 0 <= i < q@.len() ==> ((#[trigger] q@[i]).seq as int) < uops@.len(),
    ensures
        events_view(final(out)@) == events_view(old(out)@) + liq_events(cycle, lane@, uops@, q@),
{
    let ghost o = events_view(out@);
    let mut i: usize = 0;
    while i < q.len()
        invariant
            i <= q@.len(),
            forall|i: int| 0 <= i < q@.len() ==> ((#[trigger] q@[i]).seq as int) < uops@.len(),
            events_view(out@) == o + liq_events(cycle, lane@, uops@, q@.take(i as int)),
        decreases q@.len() - i,
    {
        let x = q[i];
        let cause = if x.refill_ready_cycle <= cycle { "eligible" } else { "wait_refill" };
        let e = stage_event(cycle, lane, uops, x.seq, "LIQ", cause);
        push_event(out, e);
        proof {
            let ev = plain(cycle, lane@, uops@, x.seq, "LIQ"@, liq_cause(x, cycle));
            assert(liq_events(cycle, lane@, uops@, q@.take(i + 1)) =~= liq_events(cycle, lane@, uops@, q@.take(i as int)).push(ev));
            assert(o + liq_events(cycle, lane@, uops@, q@.take(i + 1)) =~= (o + liq_events(cycle, lane@, uops@, q@.take(i as int))).push(ev));
        }
        i += 1;
    }
    assert(q@.take(q@.len() as int) == q@);
}

pub open spec fn mdb_cause(x: crate::model::MdbEntry, cycle: u64) -> Seq<char> {
    if x.refill_ready_cycle <= cycle { "refill_ready"@ } else { "wait_refill"@ }
}

pub open spec fn mdb_events(cycle: u64, lane: Seq<char>, uops: Seq<CycleUop>, q: Seq<crate::model::MdbEntry>) -> Seq<EventView> {
    Seq::new(q.len(), |i: int| plain(cycle, lane, uops, q[i].seq, "MDB"@, mdb_cause(q[i], cycle)))
}

fn push_mdb_events(out: &mut Vec<StageTraceEvent>, cycle: u64, lane: &String, uops: &Vec<CycleUop>, q: &VecDeque<crate::model::MdbEntry>)
    requires
        forall|i: int| 0 <= i < q@.len() ==> ((#[trigger] q@[i]).seq as int) < uops@.len(),
    ensures
        events_view(final(out)@) == events_view(old(out)@) + mdb_events(cycle, lane@, uops@, q@),
{
    let ghost o = events_view(out@);
    let mut i: usize = 0;
    while i < q.len()
        invariant
            i <= q@.len(),
            forall|i: int| 0 <= i < q@.len() ==> ((#[trigger] q@[i]).seq as int) < uops@.len(),
            events_view(out@) == o + mdb_events(cycle, lane@, uops@, q@.take(i as int)),
        decreases q@.len() - i,
    {
        let x = q[i];
        let cause = if x.refill_ready_cycle <= cycle { "refill_ready" } else { "wait_refill" };
        let e = stage_event(cycle, lane, uops, x.seq, "MDB", cause);
        push_event(out, e);
        proof {
            let ev = plain(cycle, lane@, uops@, x.seq, "MDB"@, mdb_cause(x, cycle));
            assert(mdb_events(cycle, lane@, uops@, q@.take(i + 1)) =~= mdb_events(cycle, lane@, uops@, q@.take(i as int)).push(ev));
            assert(o + mdb_events(cycle, lane@, uops@, q@.take(i + 1)) =~= (o + mdb_events(cycle, lane@, uops@, q@.take(i as int))).push(ev));
        }
        i += 1;
    }
    assert(q@.take(q@.len() as int) == q@);
}

pub open spec fn scb_cause(x: crate::model::ScbEntry, cycle: u64) -> Seq<char> {
    if x.enqueue_cycle < cycle { "drain_ready"@ } else { "coalesce"@ }
}

pub open spec fn scb_events(cycle: u64, lane: Seq<char>, uops: Seq<CycleUop>, q: Seq<crate::model::ScbEntry>) -> Seq<EventView> {
    Seq::new(q.len(), |i: int| plain(cycle, lane, uops, q[i].seq, "SCB"@, scb_cause(q[i], cycle)))
}

fn push_scb_events(out: &mut Vec<StageTraceEvent>, cycle: u64, lane: &String, uops: &Vec<CycleUop>, q: &VecDeque<crate::model::ScbEntry>)
    requires
        forall|i: int| 0 <= i < q@.len() ==> ((#[trigger] q@[i]).seq as int) < uops@.len(),
    ensures
        events_view(final(out)@) == events_view(old(out)@) + scb_events(cycle, lane@, uops@, q@),
{
    let ghost o = events_view(out@);
    let mut i: usize = 0;
    while i < q.len()
        invariant
            i <= q@.len(),
            forall|i: int| 0 <= i < q@.len() ==> ((#[trigger] q@[i]).seq as int) < uops@.len(),
            events_view(out@) == o + scb_events(cycle, lane@, uops@, q@.take(i as int)),
        decreases q@.len() - i,
    {
        let x = q[i];
        let cause = if x.enqueue_cycle < cycle { "drain_ready" } else { "coalesce" };
        let e = stage_event(cycle, lane, uops, x.seq, "SCB", cause);
        push_event(out, e);
        proof {
            let ev = plain(cycle, lane@, uops@, x.seq, "SCB"@, scb_cause(x, cycle));
            assert(scb_events(cycle, lane@, uops@, q@.take(i + 1)) =~= scb_events(cycle, lane@, uops@, q@.take(i as int)).push(ev));
            assert(o + scb_events(cycle, lane@, uops@, q@.take(i + 1)) =~= (o + scb_events(cycle, lane@, uops@, q@.take(i as int))).push(ev));
        }
        i += 1;
    }
    assert(q@.take(q@.len() as int) == q@);
}

pub open spec fn l1d_cause(x: crate::model::L1dEntry, cycle: u64) -> Seq<char> {
    match x.kind { L1dTxnKind::LoadHit => if x.ready_cycle <= cycle { "load_hit_resp"@ } else { "load_hit_req"@ }, L1dTxnKind::StoreDrain => if x.ready_cycle <= cycle { "store_drain_resp"@ } else { "store_drain_req"@ } }
}

pub open spec fn l1d_events(cycle: u64, lane: Seq<char>, uops: Seq<CycleUop>, q: Seq<crate::model::L1dEntry>) -> Seq<EventView> {
    Seq::new(q.len(), |i: int| plain(cycle, lane, uops, q[i].seq, "L1D"@, l1d_cause(q[i], cycle)))
}

fn push_l1d_events(out: &mut Vec<StageTraceEvent>, cycle: u64, lane: &String, uops: &Vec<CycleUop>, q: &VecDeque<crate::model::L1dEntry>)
    requires
        forall|i: int| 0 <= i < q@.len() ==> ((#[trigger] q@[i]).seq as int) < uops@.len(),
    ensures
        events_view(final(out)@) == events_view(old(out)@) + l1d_events(cycle, lane@, uops@, q@),
{
    let ghost o = events_view(out@);
    let mut i: usize = 0;
    while i < q.len()
        invariant
            i <= q@.len(),
            forall|i: int| 0 <= i < q@.len() ==> ((#[trigger] q@[i]).seq as int) < uops@.len(),
            events_view(out@) == o + l1d_events(cycle, lane@, uops@, q@.take(i as int)),
        decreases q@.len() - i,
    {
        let x = q[i];
        let cause = match x.kind { L1dTxnKind::LoadHit => if x.ready_cycle <= cycle { "load_hit_resp" } else { "load_hit_req" }, L1dTxnKind::StoreDrain => if x.ready_cycle <= cycle { "store_drain_resp" } else { "store_drain_req" } };
        let e = stage_event(cycle, lane, uops, x.seq, "L1D", cause);
        push_event(out, e);
        proof {
            let ev = plain(cycle, lane@, uops@, x.seq, "L1D"@, l1d_cause(x, cycle));
            assert(l1d_events(cycle, lane@, uops@, q@.take(i + 1)) =~= l1d_events(cycle, lane@, uops@, q@.take(i as int)).push(ev));
            assert(o + l1d_events(cycle, lane@, uops@, q@.take(i + 1)) =~= (o + l1d_events(cycle, lane@, uops@, q@.take(i as int))).push(ev));
        }
        i += 1;
    }
    assert(q@.take(q@.len() as int) == q@);
}

} // verus!

verus! {

pub open spec fn i2_cause(uops: Seq<CycleUop>, s: usize, cycle: u64, ptr: usize) -> Seq<char> {
    if spec_i2_ready(uops, s as int, cycle) && spec_lsid_ready(uops, s as int, ptr) { "issue_confirm"@ } else if spec_i2_ready(uops, s as int, cycle) && !spec_lsid_ready(uops, s as int, ptr) { "wait_lsid"@ } else { "wait_forward"@ }
}

pub open spec fn i2_events(cycle: u64, lane: Seq<char>, uops: Seq<CycleUop>, q: Seq<usize>, ptr: usize) -> Seq<EventView> {
    Seq::new(q.len(), |i: int| plain(cycle, lane, uops, q[i], "I2"@, i2_cause(uops, q[i], cycle, ptr)))
}

fn push_i2_events(out: &mut Vec<StageTraceEvent>, cycle: u64, lane: &String, uops: &Vec<CycleUop>, q: &VecDeque<usize>, ptr: usize)
    requires
        crate::model::seqs_below(q@, uops@.len()),
        uops_wf(uops@),
    ensures
        events_view(final(out)@) == events_view(old(out)@) + i2_events(cycle, lane@, uops@, q@, ptr),
{
    let ghost o = events_view(out@);
    let mut i: usize = 0;
    while i < q.len()
        invariant
            i <= q@.len(),
            crate::model::seqs_below(q@, uops@.len()),
            uops_wf(uops@),
            events_view(out@) == o + i2_events(cycle, lane@, uops@, q@.take(i as int), ptr),
        decreases q@.len() - i,
    {
        let s = q[i];
        let cause = if i2_issue_eligible(s, cycle, ptr, uops) { "issue_confirm" } else if i2_waits_on_lsid(s, cycle, ptr, uops) { "wait_lsid" } else { "wait_forward" };
        let e = stage_event(cycle, lane, uops, s, "I2", cause);
        push_event(out, e);
        proof {
            let ev = plain(cycle, lane@, uops@, s, "I2"@, i2_cause(uops@, s, cycle, ptr));
            assert(i2_events(cycle, lane@, uops@, q@.take(i + 1), ptr) =~= i2_events(cycle, lane@, uops@, q@.take(i as int), ptr).push(ev));
            assert(o + i2_events(cycle, lane@, uops@, q@.take(i + 1), ptr) =~= (o + i2_events(cycle, lane@, uops@, q@.take(i as int), ptr)).push(ev));
        }
        i += 1;
    }
    assert(q@.take(q@.len() as int) == q@);
}

pub open spec fn e1_cause(uops: Seq<CycleUop>, s: usize, cycle: u64) -> Seq<char> {
    if uops[s as int].is_load { "ld_spec_wakeup"@ } else { "execute"@ }
}

pub open spec fn e1_events(cycle: u64, lane: Seq<char>, uops: Seq<CycleUop>, q: Seq<usize>) -> Seq<EventView> {
    Seq::new(q.len(), |i: int| plain(cycle, lane, uops, q[i], "E1"@, e1_cause(uops, q[i], cycle)))
}

fn push_e1_events(out: &mut Vec<StageTraceEvent>, cycle: u64, lane: &String, uops: &Vec<CycleUop>, q: &VecDeque<usize>)
    requires
        crate::model::seqs_below(q@, uops@.len()),
        
    ensures
        events_view(final(out)@) == events_view(old(out)@) + e1_events(cycle, lane@, uops@, q@),
{
    let ghost o = events_view(out@);
    let mut i: usize = 0;
    while i < q.len()
        invariant
            i <= q@.len(),
            crate::model::seqs_below(q@, uops@.len()),
            
            events_view(out@) == o + e1_events(cycle, lane@, uops@, q@.take(i as int)),
        decreases q@.len() - i,
    {
        let s = q[i];
        let cause = if uops[s].is_load { "ld_spec_wakeup" } else { "execute" };
        let e = stage_event(cycle, lane, uops, s, "E1", cause);
        push_event(out, e);
        proof {
            let ev = plain(cycle, lane@, uops@, s, "E1"@, e1_cause(uops@, s, cycle));
            assert(e1_events(cycle, lane@, uops@, q@.take(i + 1)) =~= e1_events(cycle, lane@, uops@, q@.take(i as int)).push(ev));
            assert(o + e1_events(cycle, lane@, uops@, q@.take(i + 1)) =~= (o + e1_events(cycle, lane@, uops@, q@.take(i as int))).push(ev));
        }
        i += 1;
    }
    assert(q@.take(q@.len() as int) == q@);
}

pub open spec fn e4_cause(uops: Seq<CycleUop>, s: usize, cycle: u64, p: StageQueues) -> Seq<char> {
    if uops[s as int].is_load && crate::lsu::spec_load_forward_visible(s, p, uops) { "ld_store_forward"@ } else { "ld_data"@ }
}

pub open spec fn e4_events(cycle: u64, lane: Seq<char>, uops: Seq<CycleUop>, q: Seq<usize>, p: StageQueues) -> Seq<EventView> {
    Seq::new(q.len(), |i: int| plain(cycle, lane, uops, q[i], "E4"@, e4_cause(uops, q[i], cycle, p)))
}

fn push_e4_events(out: &mut Vec<StageTraceEvent>, cycle: u64, lane: &String, uops: &Vec<CycleUop>, q: &VecDeque<usize>, pipeline: &StageQueues)
    requires
        crate::model::seqs_below(q@, uops@.len()),
        pipeline.wf(uops@.len()),
    ensures
        events_view(final(out)@) == events_view(old(out)@) + e4_events(cycle, lane@, uops@, q@, *pipeline),
{
    let ghost o = events_view(out@);
    let mut i: usize = 0;
    while i < q.len()
        invariant
            i <= q@.len(),
            crate::model::seqs_below(q@, uops@.len()),
            pipeline.wf(uops@.len()),
            events_view(out@) == o + e4_events(cycle, lane@, uops@, q@.take(i as int), *pipeline),
        decreases q@.len() - i,
    {
        let s = q[i];
        let cause = if uops[s].is_load && crate::lsu::load_forward_visible(s, pipeline, uops) { "ld_store_forward" } else { "ld_data" };
        let e = stage_event(cycle, lane, uops, s, "E4", cause);
        push_event(out, e);
        proof {
            let ev = plain(cycle, lane@, uops@, s, "E4"@, e4_cause(uops@, s, cycle, *pipeline));
            assert(e4_events(cycle, lane@, uops@, q@.take(i + 1), *pipeline) =~= e4_events(cycle, lane@, uops@, q@.take(i as int), *pipeline).push(ev));
            assert(o + e4_events(cycle, lane@, uops@, q@.take(i + 1), *pipeline) =~= (o + e4_events(cycle, lane@, uops@, q@.take(i as int), *pipeline)).push(ev));
        }
        i += 1;
    }
    assert(q@.take(q@.len() as int) == q@);
}

pub open spec fn rob_cause(uops: Seq<CycleUop>, s: usize, cycle: u64) -> Seq<char> {
    if uops[s as int].done_cycle is Some { "ready"@ } else { "wait_head"@ }
}

pub open spec fn rob_events(cycle: u64, lane: Seq<char>, uops: Seq<CycleUop>, q: Seq<usize>) -> Seq<EventView> {
    Seq::new(q.len(), |i: int| plain(cycle, lane, uops, q[i], "ROB"@, rob_cause(uops, q[i], cycle)))
}

fn push_rob_events(out: &mut Vec<StageTraceEvent>, cycle: u64, lane: &String, uops: &Vec<CycleUop>, q: &VecDeque<usize>)
    requires
        crate::model::seqs_below(q@, uops@.len()),
        
    ensures
        events_view(final(out)@) == events_view(old(out)@) + rob_events(cycle, lane@, uops@, q@),
{
    let ghost o = events_view(out@);
    let mut i: usize = 0;
    while i < q.len()
        invariant
            i <= q@.len(),
            crate::model::seqs_below(q@, uops@.len()),
            
            events_view(out@) == o + rob_events(cycle, lane@, uops@, q@.take(i as int)),
        decreases q@.len() - i,
    {
        let s = q[i];
        let cause = if uops[s].done_cycle.is_some() { "ready" } else { "wait_head" };
        let e = stage_event(cycle, lane, uops, s, "ROB", cause);
        push_event(out, e);
        proof {
            let ev = plain(cycle, lane@, uops@, s, "ROB"@, rob_cause(uops@, s, cycle));
            assert(rob_events(cycle, lane@, uops@, q@.take(i + 1)) =~= rob_events(cycle, lane@, uops@, q@.take(i as int)).push(ev));
            assert(o + rob_events(cycle, lane@, uops@, q@.take(i + 1)) =~= (o + rob_events(cycle, lane@, uops@, q@.take(i as int))).push(ev));
        }
        i += 1;
    }
    assert(q@.take(q@.len() as int) == q@);
}

} // verus!

verus! {

/// Entry `e` is the winner of its queue.
pub open spec fn entry_wins(uops: Seq<CycleUop>, iq: Seq<IqEntry>, rob: Seq<usize>, cycle: u64, ptr: usize, e: IqEntry) -> bool {
    exists|j: int| #[trigger] crate::issue::is_queue_winner(uops, iq, rob, cycle, ptr, e.phys_iq, j) && iq[j].seq == e.seq
}

/// Why an issue-queue entry is where it is: picked already, waiting on a
/// source or its load/store turn, the oldest ready one of its queue, or
/// ready behind an older one.
pub open spec fn iq_cause(uops: Seq<CycleUop>, iq: Seq<IqEntry>, rob: Seq<usize>, cycle: u64, ptr: usize, e: IqEntry) -> Seq<char> {
    if e.inflight {
        "inflight"@
    } else {
        match crate::issue::spec_wait_cause(uops, e, cycle, ptr) {
            Some(c) => c,
            None => if entry_wins(uops, iq, rob, cycle, ptr, e) { "ready"@ } else { "wait_iq_age"@ },
        }
    }
}

pub open spec fn iq_events(cycle: u64, lane: Seq<char>, uops: Seq<CycleUop>, iq: Seq<IqEntry>, rob: Seq<usize>, ptr: usize) -> Seq<EventView> {
    Seq::new(iq.len(), |i: int| plain(cycle, lane, uops, iq[i].seq, "IQ"@, iq_cause(uops, iq, rob, cycle, ptr, iq[i])))
}

fn listed_winner(w: &Vec<(usize, usize, crate::model::PhysIq)>, seq: usize, q: crate::model::PhysIq) -> (r: bool)
    ensures
        r == exists|k: int| 0 <= k < w@.len() && (#[trigger] w@[k]).1 == seq && w@[k].2 == q,
{
    let mut k: usize = 0;
    while k < w.len()
        invariant
            k <= w@.len(),
            forall|j: int| 0 <= j < k ==> !((#[trigger] w@[j]).1 == seq && w@[j].2 == q),
        decreases w@.len() - k,
    {
        if w[k].1 == seq && w[k].2 == q {
            return true;
        }
        k += 1;
    }
    false
}

proof fn lemma_listed_iff_wins(uops: Seq<CycleUop>, iq: Seq<IqEntry>, rob: Seq<usize>, cycle: u64, ptr: usize, w: Seq<(usize, usize, crate::model::PhysIq)>, e: IqEntry)
    requires
        crate::issue::winners_ok(uops, iq, rob, cycle, ptr, w),
    ensures
        (exists|k: int| 0 <= k < w.len() && (#[trigger] w[k]).1 == e.seq && w[k].2 == e.phys_iq) <==> entry_wins(uops, iq, rob, cycle, ptr, e),
{
    if exists|k: int| 0 <= k < w.len() && (#[trigger] w[k]).1 == e.seq && w[k].2 == e.phys_iq {
        let k = choose|k: int| 0 <= k < w.len() && (#[trigger] w[k]).1 == e.seq && w[k].2 == e.phys_iq;
        assert(crate::issue::is_queue_winner(uops, iq, rob, cycle, ptr, w[k].2, w[k].0 as int));
        assert(iq[w[k].0 as int].seq == e.seq);
    }
    if entry_wins(uops, iq, rob, cycle, ptr, e) {
        let j = choose|j: int| #[trigger] crate::issue::is_queue_winner(uops, iq, rob, cycle, ptr, e.phys_iq, j) && iq[j].seq == e.seq;
        reveal(crate::issue::is_queue_winner);
        reveal(crate::issue::queue_listed);
        assert(0 <= j < iq.len() && iq[j].phys_iq == e.phys_iq);
        assert(crate::issue::pickable(uops, iq[j], cycle, ptr));
        assert(crate::issue::queue_listed(w, iq[j].phys_iq));
        let k = choose|k: int| 0 <= k < w.len() && w[k].2 == iq[j].phys_iq;
        assert(crate::issue::is_queue_winner(uops, iq, rob, cycle, ptr, w[k].2, w[k].0 as int));
        crate::issue::lemma_winner_unique(uops, iq, rob, cycle, ptr, e.phys_iq, j, w[k].0 as int);
        assert(w[k].1 == e.seq && w[k].2 == e.phys_iq);
    }
}

fn push_iq_events(out: &mut Vec<StageTraceEvent>, cycle: u64, lane: &String, uops: &Vec<CycleUop>, iq: &Vec<IqEntry>, rob: &VecDeque<usize>, ptr: usize)
    requires
        forall|i: int| 0 <= i < iq@.len() ==> (#[trigger] iq@[i]).seq < uops@.len(),
        uops_wf(uops@),
    ensures
        events_view(final(out)@) == events_view(old(out)@) + iq_events(cycle, lane@, uops@, iq@, rob@, ptr),
{
    let winners = crate::issue::ready_iq_winners(cycle, ptr, iq, uops, rob);
    let ghost o = events_view(out@);
    let mut i: usize = 0;
    while i < iq.len()
        invariant
            i <= iq@.len(),
            forall|i: int| 0 <= i < iq@.len() ==> (#[trigger] iq@[i]).seq < uops@.len(),
            uops_wf(uops@),
            crate::issue::winners_ok(uops@, iq@, rob@, cycle, ptr, winners@),
            events_view(out@) == o + Seq::new(i as nat, |k: int| plain(cycle, lane@, uops@, iq@[k].seq, "IQ"@, iq_cause(uops@, iq@, rob@, cycle, ptr, iq@[k]))),
        decreases iq@.len() - i,
    {
        let entry = iq[i];
        let cause = if entry.inflight {
            "inflight"
        } else if let Some(c) = crate::issue::iq_entry_wait_cause_from_state(&entry, cycle, ptr, uops) {
            c
        } else if listed_winner(&winners, entry.seq, entry.phys_iq) {
            "ready"
        } else {
            "wait_iq_age"
        };
        proof {
            lemma_listed_iff_wins(uops@, iq@, rob@, cycle, ptr, winners@, entry);
        }
        let e = stage_event(cycle, lane, uops, entry.seq, "IQ", cause);
        push_event(out, e);
        proof {
            let ev = plain(cycle, lane@, uops@, entry.seq, "IQ"@, iq_cause(uops@, iq@, rob@, cycle, ptr, entry));
            assert(Seq::new((i + 1) as nat, |k: int| plain(cycle, lane@, uops@, iq@[k].seq, "IQ"@, iq_cause(uops@, iq@, rob@, cycle, ptr, iq@[k])))
                =~= Seq::new(i as nat, |k: int| plain(cycle, lane@, uops@, iq@[k].seq, "IQ"@, iq_cause(uops@, iq@, rob@, cycle, ptr, iq@[k]))).push(ev));
            assert(o + Seq::new((i + 1) as nat, |k: int| plain(cycle, lane@, uops@, iq@[k].seq, "IQ"@, iq_cause(uops@, iq@, rob@, cycle, ptr, iq@[k])))
                =~= (o + Seq::new(i as nat, |k: int| plain(cycle, lane@, uops@, iq@[k].seq, "IQ"@, iq_cause(uops@, iq@, rob@, cycle, ptr, iq@[k])))).push(ev));
        }
        i += 1;
    }
    assert(Seq::new(iq@.len(), |k: int| plain(cycle, lane@, uops@, iq@[k].seq, "IQ"@, iq_cause(uops@, iq@, rob@, cycle, ptr, iq@[k])))
        =~= iq_events(cycle, lane@, uops@, iq@, rob@, ptr));
}

} // verus!

verus! {

pub open spec fn frontend_events(cycle: u64, lane: Seq<char>, p: StageQueues, uops: Seq<CycleUop>, k: int) -> Seq<EventView>
    decreases k,
{
    if k <= 0 {
        Seq::empty()
    } else {
        frontend_events(cycle, lane, p, uops, k - 1) + plain_events(
            cycle,
            lane,
            uops,
            p.frontend@[k - 1]@,
            crate::config::spec_frontend_stage_name((k - 1) as usize),
            "resident"@,
        )
    }
}

pub open spec fn trap_flush_events(cycle: u64, lane: Seq<char>, p: StageQueues, uops: Seq<CycleUop>) -> Seq<EventView> {
    match p.pending_trap {
        Some(t) => if t.visible_cycle == cycle {
            seq![
                event_of(
                    cycle,
                    lane,
                    uops,
                    t.seq,
                    "FLS"@,
                    spec_pending_trap_stage_cause(t.cause, map_get(p.seq_boundary_target_source_kinds@, t.seq)),
                    spec_live_meta(p, uops, t.seq, Some(t.checkpoint_id), Some(t.cause), Some(t.traparg0)),
                ),
            ]
        } else {
            Seq::empty()
        },
        None => Seq::empty(),
    }
}

/// The redirect events of the first `k` micro-ops that resolve in `cycle`.
pub open spec fn resolving_redirects(cycle: u64, lane: Seq<char>, p: StageQueues, uops: Seq<CycleUop>, k: int) -> Seq<EventView>
    decreases k,
{
    if k <= 0 {
        Seq::empty()
    } else {
        let prev = resolving_redirects(cycle, lane, p, uops, k - 1);
        let s = (k - 1) as usize;
        if crate::recovery::spec_redirect_resolve_cycle(uops[k - 1]) == Some(cycle) {
            prev.push(
                event_of(
                    cycle,
                    lane,
                    uops,
                    s,
                    "FLS"@,
                    "redirect"@,
                    spec_live_meta(p, uops, s, Some(crate::owner::spec_live_rob_checkpoint_id(p, uops, s)), None, None),
                ),
            )
        } else {
            prev
        }
    }
}

pub open spec fn redirect_flush_events(cycle: u64, lane: Seq<char>, p: StageQueues, uops: Seq<CycleUop>) -> Seq<EventView> {
    match crate::recovery::spec_resolved_frontend_redirect(cycle, p, uops) {
        Some(r) => seq![
            event_of(
                cycle,
                lane,
                uops,
                r.source_seq,
                "FLS"@,
                if r.from_correction { "redirect_br_corr"@ } else { "redirect_boundary"@ },
                spec_live_meta(p, uops, r.source_seq, Some(r.checkpoint_id), None, None),
            ),
        ],
        None => resolving_redirects(cycle, lane, p, uops, uops.len() as int),
    }
}

/// Every event of `cycle`, in trace order: the frontend stages, the memory
/// side, the issue queue, the issue and execute stages, then flushes and
/// the ROB.
pub open spec fn cycle_events(
    cycle: u64,
    lane: Seq<char>,
    p: StageQueues,
    iq: Seq<IqEntry>,
    rob: Seq<usize>,
    uops: Seq<CycleUop>,
) -> Seq<EventView> {
    frontend_events(cycle, lane, p, uops, crate::config::FRONTEND_STAGE_COUNT as int)
        + liq_events(cycle, lane, uops, p.liq@)
        + plain_events(cycle, lane, uops, p.lhq@, "LHQ"@, "inflight_load"@)
        + mdb_events(cycle, lane, uops, p.mdb@)
        + plain_events(cycle, lane, uops, p.stq@, "STQ"@, "store_visible"@)
        + scb_events(cycle, lane, uops, p.scb@)
        + l1d_events(cycle, lane, uops, p.l1d@)
        + iq_events(cycle, lane, uops, iq, rob, p.lsid_issue_ptr)
        + plain_events(cycle, lane, uops, p.p1@, "P1"@, "pick"@)
        + plain_events(cycle, lane, uops, p.i1@, "I1"@, "rf_arbitrate"@)
        + i2_events(cycle, lane, uops, p.i2@, p.lsid_issue_ptr)
        + e1_events(cycle, lane, uops, p.e1@)
        + plain_events(cycle, lane, uops, p.e2@, "E2"@, "execute"@)
        + plain_events(cycle, lane, uops, p.e3@, "E3"@, "execute"@)
        + e4_events(cycle, lane, uops, p.e4@, p)
        + plain_events(cycle, lane, uops, p.w1@, "W1"@, "wakeup"@)
        + plain_events(cycle, lane, uops, p.w2@, "W2"@, "complete"@)
        + trap_flush_events(cycle, lane, p, uops)
        + redirect_flush_events(cycle, lane, p, uops)
        + rob_events(cycle, lane, uops, rob)
}

fn push_redirect_flush_events(out: &mut Vec<StageTraceEvent>, cycle: u64, lane: &String, pipeline: &StageQueues, uops: &Vec<CycleUop>)
    ensures
        events_view(final(out)@) == events_view(old(out)@) + redirect_flush_events(cycle, lane@, *pipeline, uops@),
{
    if let Some(r) = crate::recovery::resolved_frontend_redirect(cycle, pipeline, uops) {
        assert(r.source_seq < uops@.len()) by {
            let s = crate::recovery::spec_resolved_boundary_seq(uops@, cycle);
            crate::recovery::lemma_first_resolving_bound(uops@, cycle, 0);
        }
        let meta = live_meta(r.source_seq, pipeline, uops, Some(r.checkpoint_id), None, None);
        let cause = if r.from_correction { "redirect_br_corr" } else { "redirect_boundary" };
        let e = stage_event_with_meta(cycle, lane, uops, r.source_seq, "FLS", cause, &meta);
        push_event(out, e);
        assert(events_view(out@) =~= events_view(old(out)@) + redirect_flush_events(cycle, lane@, *pipeline, uops@));
        return;
    }
    let ghost o = events_view(out@);
    let mut s: usize = 0;
    while s < uops.len()
        invariant
            s <= uops@.len(),
            events_view(out@) == o + resolving_redirects(cycle, lane@, *pipeline, uops@, s as int),
        decreases uops@.len() - s,
    {
        if crate::recovery::redirect_resolve_cycle(&uops[s]) == Some(cycle) {
            let cid = crate::owner::live_rob_checkpoint_id_for_seq(s, pipeline, uops);
            let meta = live_meta(s, pipeline, uops, Some(cid), None, None);
            let e = stage_event_with_meta(cycle, lane, uops, s, "FLS", "redirect", &meta);
            push_event(out, e);
            assert(o + resolving_redirects(cycle, lane@, *pipeline, uops@, s + 1) =~= (o + resolving_redirects(
                cycle,
                lane@,
                *pipeline,
                uops@,
                s as int,
            )).push(event_view(e)));
        }
        s += 1;
    }
}

fn push_trap_flush_events(out: &mut Vec<StageTraceEvent>, cycle: u64, lane: &String, pipeline: &StageQueues, uops: &Vec<CycleUop>)
    requires
        pipeline.wf(uops@.len()),
    ensures
        events_view(final(out)@) == events_view(old(out)@) + trap_flush_events(cycle, lane@, *pipeline, uops@),
{
    if let Some(t) = pipeline.pending_trap {
        if t.visible_cycle == cycle {
            let source = crate::owner::live_dynamic_target_source_kind_for_seq(t.seq, pipeline, uops);
            let meta = live_meta(t.seq, pipeline, uops, Some(t.checkpoint_id), Some(t.cause), Some(t.traparg0));
            let cause = pending_trap_stage_cause(t.cause, source);
            let e = stage_event_with_meta(cycle, lane, uops, t.seq, "FLS", cause, &meta);
            push_event(out, e);
            assert(events_view(out@) =~= events_view(old(out)@) + trap_flush_events(cycle, lane@, *pipeline, uops@));
            return;
        }
    }
    assert(events_view(out@) =~= events_view(old(out)@) + trap_flush_events(cycle, lane@, *pipeline, uops@));
}

fn push_frontend_events(out: &mut Vec<StageTraceEvent>, cycle: u64, lane: &String, pipeline: &StageQueues, uops: &Vec<CycleUop>)
    requires
        pipeline.wf(uops@.len()),
    ensures
        events_view(final(out)@) == events_view(old(out)@) + frontend_events(
            cycle,
            lane@,
            *pipeline,
            uops@,
            crate::config::FRONTEND_STAGE_COUNT as int,
        ),
{
    let ghost o = events_view(out@);
    let mut k: usize = 0;
    while k < crate::config::FRONTEND_STAGE_COUNT
        invariant
            k <= crate::config::FRONTEND_STAGE_COUNT,
            pipeline.wf(uops@.len()),
            events_view(out@) == o + frontend_events(cycle, lane@, *pipeline, uops@, k as int),
        decreases crate::config::FRONTEND_STAGE_COUNT - k,
    {
        let ghost before = events_view(out@);
        push_plain_events(out, cycle, lane, uops, &pipeline.frontend[k], crate::config::frontend_stage_name(k), "resident");
        assert(o + frontend_events(cycle, lane@, *pipeline, uops@, k + 1) =~= before + plain_events(
            cycle,
            lane@,
            uops@,
            pipeline.frontend@[k as int]@,
            crate::config::spec_frontend_stage_name(k),
            "resident"@,
        ));
        k += 1;
    }
}

/// Appends the trace of `cycle`: one event per micro-op per place it
/// occupies, with why it is there; flush events for a trap that becomes
/// visible and for redirects that resolve; and the ROB. Micro-ops without
/// an issue queue are drawn in `default_lane`.
#[verifier::spinoff_prover]
#[verifier::rlimit(50)]
pub fn emit_stage_events(
    cycle: u64,
    default_lane: &String,
    pipeline: &StageQueues,
    iq: &Vec<IqEntry>,
    rob: &VecDeque<usize>,
    uops: &Vec<CycleUop>,
    out: &mut Vec<StageTraceEvent>,
)
    requires
        pipeline.wf(uops@.len()),
        uops_wf(uops@),
        forall|i: int| 0 <= i < iq@.len() ==> (#[trigger] iq@[i]).seq < uops@.len(),
        crate::model::seqs_below(rob@, uops@.len()),
    ensures
        events_view(final(out)@) == events_view(old(out)@) + cycle_events(cycle, default_lane@, *pipeline, iq@, rob@, uops@),
{
    let ghost o = events_view(out@);
    push_frontend_events(out, cycle, default_lane, pipeline, uops);
    push_liq_events(out, cycle, default_lane, uops, &pipeline.liq);
    push_plain_events(out, cycle, default_lane, uops, &pipeline.lhq, "LHQ", "inflight_load");
    push_mdb_events(out, cycle, default_lane, uops, &pipeline.mdb);
    push_plain_events(out, cycle, default_lane, uops, &pipeline.stq, "STQ", "store_visible");
    push_scb_events(out, cycle, default_lane, uops, &pipeline.scb);
    push_l1d_events(out, cycle, default_lane, uops, &pipeline.l1d);
    push_iq_events(out, cycle, default_lane, uops, iq, rob, pipeline.lsid_issue_ptr);
    push_plain_events(out, cycle, default_lane, uops, &pipeline.p1, "P1", "pick");
    push_plain_events(out, cycle, default_lane, uops, &pipeline.i1, "I1", "rf_arbitrate");
    push_i2_events(out, cycle, default_lane, uops, &pipeline.i2, pipeline.lsid_issue_ptr);
    push_e1_events(out, cycle, default_lane, uops, &pipeline.e1);
    push_plain_events(out, cycle, default_lane, uops, &pipeline.e2, "E2", "execute");
    push_plain_events(out, cycle, default_lane, uops, &pipeline.e3, "E3", "execute");
    push_e4_events(out, cycle, default_lane, uops, &pipeline.e4, pipeline);
    push_plain_events(out, cycle, default_lane, uops, &pipeline.w1, "W1", "wakeup");
    push_plain_events(out, cycle, default_lane, uops, &pipeline.w2, "W2", "complete");
    push_trap_flush_events(out, cycle, default_lane, pipeline, uops);
    push_redirect_flush_events(out, cycle, default_lane, pipeline, uops);
    push_rob_events(out, cycle, default_lane, uops, rob);
    assert(events_view(out@) =~= o + cycle_events(cycle, default_lane@, *pipeline, iq@, rob@, uops@));
}

} // verus!

verus! {

proof fn lemma_fallback_frame(p: StageQueues, q: StageQueues, uops: Seq<CycleUop>, i: int)
    requires
        p.same_outside_retire(&q),
    ensures
        crate::owner::fallback_context_before(p, uops, i) == crate::owner::fallback_context_before(q, uops, i),
    decreases i,
{
    if i > 0 {
        lemma_fallback_frame(p, q, uops, i - 1);
        assert(crate::owner::spec_boundary_context((i - 1) as usize, uops[i - 1], p) == crate::owner::spec_boundary_context(
            (i - 1) as usize,
            uops[i - 1],
            q,
        ));
    }
}

/// What a flush or retire event says of a micro-op does not depend on the
/// state that retirement changes.
proof fn lemma_live_meta_frame(
    p: StageQueues,
    q: StageQueues,
    uops: Seq<CycleUop>,
    seq: usize,
    checkpoint_id: Option<u8>,
    trap_cause: Option<u64>,
    traparg0: Option<u64>,
)
    requires
        p.same_outside_retire(&q),
    ensures
        spec_live_meta(p, uops, seq, checkpoint_id, trap_cause, traparg0) == spec_live_meta(
            q,
            uops,
            seq,
            checkpoint_id,
            trap_cause,
            traparg0,
        ),
        crate::owner::spec_live_rob_checkpoint_id(p, uops, seq) == crate::owner::spec_live_rob_checkpoint_id(q, uops, seq),
{
    lemma_fallback_frame(p, q, uops, seq as int);
    assert(crate::owner::spec_boundary_context(seq, uops[seq as int], p) == crate::owner::spec_boundary_context(seq, uops[seq as int], q));
    assert(spec_live_branch_kind(p, uops, seq) == spec_live_branch_kind(q, uops, seq));
}

} // verus!

verus! {

pub proof fn lemma_live_meta_frame_pub(p: StageQueues, q: StageQueues, uops: Seq<CycleUop>, seq: usize, trap_cause: Option<u64>, traparg0: Option<u64>)
    requires
        q.same_outside_retire(&p) || p.same_outside_retire(&q),
    ensures
        forall|c: Option<u8>| #[trigger] spec_live_meta(p, uops, seq, c, trap_cause, traparg0) == spec_live_meta(q, uops, seq, c, trap_cause, traparg0),
        crate::owner::spec_live_rob_checkpoint_id(p, uops, seq) == crate::owner::spec_live_rob_checkpoint_id(q, uops, seq),
{
    if p.same_outside_retire(&q) {
        assert forall|c: Option<u8>| #[trigger] spec_live_meta(p, uops, seq, c, trap_cause, traparg0) == spec_live_meta(q, uops, seq, c, trap_cause, traparg0) by {
            lemma_live_meta_frame(p, q, uops, seq, c, trap_cause, traparg0);
        }
        lemma_live_meta_frame(p, q, uops, seq, None, trap_cause, traparg0);
    } else {
        assert forall|c: Option<u8>| #[trigger] spec_live_meta(p, uops, seq, c, trap_cause, traparg0) == spec_live_meta(q, uops, seq, c, trap_cause, traparg0) by {
            lemma_live_meta_frame(q, p, uops, seq, c, trap_cause, traparg0);
        }
        lemma_live_meta_frame(q, p, uops, seq, None, trap_cause, traparg0);
    }
}

pub proof fn lemma_events_push_pub(v: Seq<StageTraceEvent>, e: StageTraceEvent)
    ensures
        events_view(v.push(e)) == events_view(v).push(event_view(e)),
{
    lemma_events_push(v, e);
}

} // verus!

verus! {

/// Every event of `v` is of cycle `cycle`, is no stall, and sits on the
/// row of a micro-op (`uop` and its number).
pub open spec fn events_of_cycle(v: Seq<EventView>, cycle: u64) -> bool {
    forall|i: int| 0 <= i < v.len() ==> {
        &&& (#[trigger] v[i]).cycle == cycle
        &&& !v[i].stall
        &&& exists|s: usize| v[i].row_id == #[trigger] crate::owner::row_id_text(s)
    }
}

proof fn lemma_cycle_concat(a: Seq<EventView>, b: Seq<EventView>, cycle: u64)
    requires
        events_of_cycle(a, cycle),
        events_of_cycle(b, cycle),
    ensures
        events_of_cycle(a + b, cycle),
{
    assert forall|i: int| 0 <= i < (a + b).len() implies (#[trigger] (a + b)[i]).cycle == cycle && !(a + b)[i].stall by {
        if i < a.len() {
            assert((a + b)[i] == a[i]);
        } else {
            assert((a + b)[i] == b[i - a.len()]);
        }
    }
}

proof fn lemma_frontend_events_cycle(cycle: u64, lane: Seq<char>, p: StageQueues, uops: Seq<CycleUop>, k: int)
    ensures
        events_of_cycle(frontend_events(cycle, lane, p, uops, k), cycle),
    decreases k,
{
    if k > 0 {
        lemma_frontend_events_cycle(cycle, lane, p, uops, k - 1);
        lemma_cycle_concat(
            frontend_events(cycle, lane, p, uops, k - 1),
            plain_events(cycle, lane, uops, p.frontend@[k - 1]@, crate::config::spec_frontend_stage_name((k - 1) as usize), "resident"@),
            cycle,
        );
    }
}

proof fn lemma_resolving_cycle(cycle: u64, lane: Seq<char>, p: StageQueues, uops: Seq<CycleUop>, k: int)
    ensures
        events_of_cycle(resolving_redirects(cycle, lane, p, uops, k), cycle),
    decreases k,
{
    if k > 0 {
        lemma_resolving_cycle(cycle, lane, p, uops, k - 1);
    }
}

proof fn lemma_cycle_events_cycle(cycle: u64, lane: Seq<char>, p: StageQueues, iq: Seq<IqEntry>, rob: Seq<usize>, uops: Seq<CycleUop>)
    ensures
        events_of_cycle(cycle_events(cycle, lane, p, iq, rob, uops), cycle),
{
    lemma_frontend_events_cycle(cycle, lane, p, uops, crate::config::FRONTEND_STAGE_COUNT as int);
    lemma_resolving_cycle(cycle, lane, p, uops, uops.len() as int);
    let a0 = frontend_events(cycle, lane, p, uops, crate::config::FRONTEND_STAGE_COUNT as int);
    let b1 = liq_events(cycle, lane, uops, p.liq@);
    assert(events_of_cycle(b1, cycle));
    lemma_cycle_concat(a0, b1, cycle);
    let a1 = a0 + b1;
    let b2 = plain_events(cycle, lane, uops, p.lhq@, "LHQ"@, "inflight_load"@);
    assert(events_of_cycle(b2, cycle));
    lemma_cycle_concat(a1, b2, cycle);
    let a2 = a1 + b2;
    let b3 = mdb_events(cycle, lane, uops, p.mdb@);
    assert(events_of_cycle(b3, cycle));
    lemma_cycle_concat(a2, b3, cycle);
    let a3 = a2 + b3;
    let b4 = plain_events(cycle, lane, uops, p.stq@, "STQ"@, "store_visible"@);
    assert(events_of_cycle(b4, cycle));
    lemma_cycle_concat(a3, b4, cycle);
    let a4 = a3 + b4;
    let b5 = scb_events(cycle, lane, uops, p.scb@);
    assert(events_of_cycle(b5, cycle));
    lemma_cycle_concat(a4, b5, cycle);
    let a5 = a4 + b5;
    let b6 = l1d_events(cycle, lane, uops, p.l1d@);
    assert(events_of_cycle(b6, cycle));
    lemma_cycle_concat(a5, b6, cycle);
    let a6 = a5 + b6;
    let b7 = iq_events(cycle, lane, uops, iq, rob, p.lsid_issue_ptr);
    assert(events_of_cycle(b7, cycle));
    lemma_cycle_concat(a6, b7, cycle);
    let a7 = a6 + b7;
    let b8 = plain_events(cycle, lane, uops, p.p1@, "P1"@, "pick"@);
    assert(events_of_cycle(b8, cycle));
    lemma_cycle_concat(a7, b8, cycle);
    let a8 = a7 + b8;
    let b9 = plain_events(cycle, lane, uops, p.i1@, "I1"@, "rf_arbitrate"@);
    assert(events_of_cycle(b9, cycle));
    lemma_cycle_concat(a8, b9, cycle);
    let a9 = a8 + b9;
    let b10 = i2_events(cycle, lane, uops, p.i2@, p.lsid_issue_ptr);
    assert(events_of_cycle(b10, cycle));
    lemma_cycle_concat(a9, b10, cycle);
    let a10 = a9 + b10;
    let b11 = e1_events(cycle, lane, uops, p.e1@);
    assert(events_of_cycle(b11, cycle));
    lemma_cycle_concat(a10, b11, cycle);
    let a11 = a10 + b11;
    let b12 = plain_events(cycle, lane, uops, p.e2@, "E2"@, "execute"@);
    assert(events_of_cycle(b12, cycle));
    lemma_cycle_concat(a11, b12, cycle);
    let a12 = a11 + b12;
    let b13 = plain_events(cycle, lane, uops, p.e3@, "E3"@, "execute"@);
    assert(events_of_cycle(b13, cycle));
    lemma_cycle_concat(a12, b13, cycle);
    let a13 = a12 + b13;
    let b14 = e4_events(cycle, lane, uops, p.e4@, p);
    assert(events_of_cycle(b14, cycle));
    lemma_cycle_concat(a13, b14, cycle);
    let a14 = a13 + b14;
    let b15 = plain_events(cycle, lane, uops, p.w1@, "W1"@, "wakeup"@);
    assert(events_of_cycle(b15, cycle));
    lemma_cycle_concat(a14, b15, cycle);
    let a15 = a14 + b15;
    let b16 = plain_events(cycle, lane, uops, p.w2@, "W2"@, "complete"@);
    assert(events_of_cycle(b16, cycle));
    lemma_cycle_concat(a15, b16, cycle);
    let a16 = a15 + b16;
    let b17 = trap_flush_events(cycle, lane, p, uops);
    assert(events_of_cycle(b17, cycle));
    lemma_cycle_concat(a16, b17, cycle);
    let a17 = a16 + b17;
    let b18 = redirect_flush_events(cycle, lane, p, uops);
    assert(events_of_cycle(b18, cycle));
    lemma_cycle_concat(a17, b18, cycle);
    let a18 = a17 + b18;
    let b19 = rob_events(cycle, lane, uops, rob);
    assert(events_of_cycle(b19, cycle));
    lemma_cycle_concat(a18, b19, cycle);
    let a19 = a18 + b19;
}

/// Law: tracing a cycle only appends to the trace: what was there stays, in
/// order, and every event added is of that cycle, is no stall, and sits on
/// the row of a micro-op.
pub proof fn law_stage_events_append_only(
    cycle: u64,
    lane: Seq<char>,
    p: StageQueues,
    iq: Seq<IqEntry>,
    rob: Seq<usize>,
    uops: Seq<CycleUop>,
    before: Seq<EventView>,
    after: Seq<EventView>,
)
    requires
        after == before + cycle_events(cycle, lane, p, iq, rob, uops),
    ensures
        after.len() >= before.len(),
        after.take(before.len() as int) == before,
        events_of_cycle(after.skip(before.len() as int), cycle),
{
    lemma_cycle_events_cycle(cycle, lane, p, iq, rob, uops);
    assert(after.take(before.len() as int) =~= before);
    assert(after.skip(before.len() as int) =~= cycle_events(cycle, lane, p, iq, rob, uops));
}

} // verus!

verus! {

/// What stamping the stage cycles of `cycle` makes of `uops` (the post-state
/// of `tag_stage_cycles`).
pub open spec fn stage_cycles_stamped(uops: Seq<CycleUop>, p: StageQueues, cycle: u64) -> Seq<CycleUop> {
    stamped_all(
        stamped_all(stamped_all(stamped_all(uops, p.e1@, 0, cycle), p.e4@, 1, cycle), p.w1@, 2, cycle),
        p.w2@,
        3,
        cycle,
    )
}

/// Law: stamping the stage cycles twice, for the same pipeline and cycle, is
/// stamping them once.
pub proof fn law_stage_stamps_idempotent(uops: Seq<CycleUop>, p: StageQueues, cycle: u64)
    ensures
        stage_cycles_stamped(stage_cycles_stamped(uops, p, cycle), p, cycle) == stage_cycles_stamped(uops, p, cycle),
{
    let once = stage_cycles_stamped(uops, p, cycle);
    let twice = stage_cycles_stamped(once, p, cycle);
    assert forall|s: int| 0 <= s < uops.len() implies #[trigger] twice[s] == once[s] by {
        let a0 = stamped_all(uops, p.e1@, 0, cycle);
        let a1 = stamped_all(a0, p.e4@, 1, cycle);
        let a2 = stamped_all(a1, p.w1@, 2, cycle);
        let b0 = stamped_all(once, p.e1@, 0, cycle);
        let b1 = stamped_all(b0, p.e4@, 1, cycle);
        let b2 = stamped_all(b1, p.w1@, 2, cycle);
        assert(once[s] == (if p.w2@.contains(s as usize) { stamped(3, a2[s], cycle) } else { a2[s] }));
        assert(a2[s] == (if p.w1@.contains(s as usize) { stamped(2, a1[s], cycle) } else { a1[s] }));
        assert(a1[s] == (if p.e4@.contains(s as usize) { stamped(1, a0[s], cycle) } else { a0[s] }));
        assert(a0[s] == (if p.e1@.contains(s as usize) { stamped(0, uops[s], cycle) } else { uops[s] }));
        assert(b0[s] == (if p.e1@.contains(s as usize) { stamped(0, once[s], cycle) } else { once[s] }));
        assert(b0[s] == once[s]);
        assert(b1[s] == (if p.e4@.contains(s as usize) { stamped(1, b0[s], cycle) } else { b0[s] }));
        assert(b1[s] == once[s]);
        assert(b2[s] == (if p.w1@.contains(s as usize) { stamped(2, b1[s], cycle) } else { b1[s] }));
        assert(b2[s] == once[s]);
        assert(twice[s] == (if p.w2@.contains(s as usize) { stamped(3, b2[s], cycle) } else { b2[s] }));
    }
    assert(twice =~= once);
}

} // verus!

verus! {

/// Every event of `v` sits on the row of one of the first `n` micro-ops.
pub open spec fn rows_below(v: Seq<EventView>, n: nat) -> bool {
    forall|i: int| 0 <= i < v.len() ==> #[trigger] row_below(v[i], n)
}

/// `e` sits on the row of one of the first `n` micro-ops.
pub open spec fn row_below(e: EventView, n: nat) -> bool {
    exists|s: usize| (s as int) < n && e.row_id == #[trigger] crate::owner::row_id_text(s)
}

proof fn lemma_rows_concat(a: Seq<EventView>, b: Seq<EventView>, n: nat)
    requires
        rows_below(a, n),
        rows_below(b, n),
    ensures
        rows_below(a + b, n),
{
    assert forall|i: int| 0 <= i < (a + b).len() implies #[trigger] row_below((a + b)[i], n) by {
        if i < a.len() {
            assert((a + b)[i] == a[i]);
            assert(row_below(a[i], n));
        } else {
            let j = i - a.len();
            assert((a + b)[i] == b[j]);
            assert(row_below(b[j], n));
        }
    }
}

proof fn lemma_frontend_rows(cycle: u64, lane: Seq<char>, p: StageQueues, uops: Seq<CycleUop>, k: int)
    requires
        p.wf(uops.len()),
        k <= crate::config::FRONTEND_STAGE_COUNT,
    ensures
        rows_below(frontend_events(cycle, lane, p, uops, k), uops.len()),
    decreases k,
{
    if k > 0 {
        lemma_frontend_rows(cycle, lane, p, uops, k - 1);
        let q = p.frontend@[k - 1]@;
        let b = plain_events(cycle, lane, uops, q, crate::config::spec_frontend_stage_name((k - 1) as usize), "resident"@);
        assert(crate::model::seqs_below(q, uops.len())) by {
            assert(p.frontend@[k - 1]@ == q);
        }
        assert forall|i: int| 0 <= i < b.len() implies #[trigger] row_below(b[i], uops.len()) by {
            assert((q[i] as int) < uops.len());
            assert(b[i].row_id == crate::owner::row_id_text(q[i]));
        }
        lemma_rows_concat(frontend_events(cycle, lane, p, uops, k - 1), b, uops.len());
    }
}

proof fn lemma_resolving_rows(cycle: u64, lane: Seq<char>, p: StageQueues, uops: Seq<CycleUop>, k: int)
    requires
        k <= uops.len(),
    ensures
        rows_below(resolving_redirects(cycle, lane, p, uops, k), uops.len()),
    decreases k,
{
    if k > 0 {
        lemma_resolving_rows(cycle, lane, p, uops, k - 1);
        let prev = resolving_redirects(cycle, lane, p, uops, k - 1);
        let cur = resolving_redirects(cycle, lane, p, uops, k);
        assert forall|i: int| 0 <= i < cur.len() implies #[trigger] row_below(cur[i], uops.len()) by {
            if i < prev.len() {
                assert(cur[i] == prev[i]);
            } else {
                assert(cur[i].row_id == crate::owner::row_id_text((k - 1) as usize));
            }
        }
    }
}

/// Law: with every micro-op the pipeline, the issue queue and the ROB hold
/// among the first `uops.len()`, every event of a traced cycle sits on the
/// row of one of them.
pub proof fn law_stage_event_rows_name_micro_ops(
    cycle: u64,
    lane: Seq<char>,
    p: StageQueues,
    iq: Seq<IqEntry>,
    rob: Seq<usize>,
    uops: Seq<CycleUop>,
)
    requires
        p.wf(uops.len()),
        forall|i: int| 0 <= i < iq.len() ==> (#[trigger] iq[i]).seq < uops.len(),
        crate::model::seqs_below(rob, uops.len()),
    ensures
        rows_below(cycle_events(cycle, lane, p, iq, rob, uops), uops.len()),
{
    let n = uops.len();
    lemma_frontend_rows(cycle, lane, p, uops, crate::config::FRONTEND_STAGE_COUNT as int);
    let a0 = frontend_events(cycle, lane, p, uops, crate::config::FRONTEND_STAGE_COUNT as int);
    let b1 = liq_events(cycle, lane, uops, p.liq@);
    assert forall|i: int| 0 <= i < b1.len() implies #[trigger] row_below(b1[i], n) by {
        assert(b1[i].row_id == crate::owner::row_id_text(p.liq@[i].seq));
    }
    lemma_rows_concat(a0, b1, n);
    let a1 = a0 + b1;
    let b2 = plain_events(cycle, lane, uops, p.lhq@, "LHQ"@, "inflight_load"@);
    assert forall|i: int| 0 <= i < b2.len() implies #[trigger] row_below(b2[i], n) by {
        assert(b2[i].row_id == crate::owner::row_id_text(p.lhq@[i]));
    }
    lemma_rows_concat(a1, b2, n);
    let a2 = a1 + b2;
    let b3 = mdb_events(cycle, lane, uops, p.mdb@);
    assert forall|i: int| 0 <= i < b3.len() implies #[trigger] row_below(b3[i], n) by {
        assert(b3[i].row_id == crate::owner::row_id_text(p.mdb@[i].seq));
    }
    lemma_rows_concat(a2, b3, n);
    let a3 = a2 + b3;
    let b4 = plain_events(cycle, lane, uops, p.stq@, "STQ"@, "store_visible"@);
    assert forall|i: int| 0 <= i < b4.len() implies #[trigger] row_below(b4[i], n) by {
        assert(b4[i].row_id == crate::owner::row_id_text(p.stq@[i]));
    }
    lemma_rows_concat(a3, b4, n);
    let a4 = a3 + b4;
    let b5 = scb_events(cycle, lane, uops, p.scb@);
    assert forall|i: int| 0 <= i < b5.len() implies #[trigger] row_below(b5[i], n) by {
        assert(b5[i].row_id == crate::owner::row_id_text(p.scb@[i].seq));
    }
    lemma_rows_concat(a4, b5, n);
    let a5 = a4 + b5;
    let b6 = l1d_events(cycle, lane, uops, p.l1d@);
    assert forall|i: int| 0 <= i < b6.len() implies #[trigger] row_below(b6[i], n) by {
        assert(b6[i].row_id == crate::owner::row_id_text(p.l1d@[i].seq));
    }
    lemma_rows_concat(a5, b6, n);
    let a6 = a5 + b6;
    let b7 = iq_events(cycle, lane, uops, iq, rob, p.lsid_issue_ptr);
    assert forall|i: int| 0 <= i < b7.len() implies #[trigger] row_below(b7[i], n) by {
        assert(b7[i].row_id == crate::owner::row_id_text(iq[i].seq));
    }
    lemma_rows_concat(a6, b7, n);
    let a7 = a6 + b7;
    let b8 = plain_events(cycle, lane, uops, p.p1@, "P1"@, "pick"@);
    assert forall|i: int| 0 <= i < b8.len() implies #[trigger] row_below(b8[i], n) by {
        assert(b8[i].row_id == crate::owner::row_id_text(p.p1@[i]));
    }
    lemma_rows_concat(a7, b8, n);
    let a8 = a7 + b8;
    let b9 = plain_events(cycle, lane, uops, p.i1@, "I1"@, "rf_arbitrate"@);
    assert forall|i: int| 0 <= i < b9.len() implies #[trigger] row_below(b9[i], n) by {
        assert(b9[i].row_id == crate::owner::row_id_text(p.i1@[i]));
    }
    lemma_rows_concat(a8, b9, n);
    let a9 = a8 + b9;
    let b10 = i2_events(cycle, lane, uops, p.i2@, p.lsid_issue_ptr);
    assert forall|i: int| 0 <= i < b10.len() implies #[trigger] row_below(b10[i], n) by {
        assert(b10[i].row_id == crate::owner::row_id_text(p.i2@[i]));
    }
    lemma_rows_concat(a9, b10, n);
    let a10 = a9 + b10;
    let b11 = e1_events(cycle, lane, uops, p.e1@);
    assert forall|i: int| 0 <= i < b11.len() implies #[trigger] row_below(b11[i], n) by {
        assert(b11[i].row_id == crate::owner::row_id_text(p.e1@[i]));
    }
    lemma_rows_concat(a10, b11, n);
    let a11 = a10 + b11;
    let b12 = plain_events(cycle, lane, uops, p.e2@, "E2"@, "execute"@);
    assert forall|i: int| 0 <= i < b12.len() implies #[trigger] row_below(b12[i], n) by {
        assert(b12[i].row_id == crate::owner::row_id_text(p.e2@[i]));
    }
    lemma_rows_concat(a11, b12, n);
    let a12 = a11 + b12;
    let b13 = plain_events(cycle, lane, uops, p.e3@, "E3"@, "execute"@);
    assert forall|i: int| 0 <= i < b13.len() implies #[trigger] row_below(b13[i], n) by {
        assert(b13[i].row_id == crate::owner::row_id_text(p.e3@[i]));
    }
    lemma_rows_concat(a12, b13, n);
    let a13 = a12 + b13;
    let b14 = e4_events(cycle, lane, uops, p.e4@, p);
    assert forall|i: int| 0 <= i < b14.len() implies #[trigger] row_below(b14[i], n) by {
        assert(b14[i].row_id == crate::owner::row_id_text(p.e4@[i]));
    }
    lemma_rows_concat(a13, b14, n);
    let a14 = a13 + b14;
    let b15 = plain_events(cycle, lane, uops, p.w1@, "W1"@, "wakeup"@);
    assert forall|i: int| 0 <= i < b15.len() implies #[trigger] row_below(b15[i], n) by {
        assert(b15[i].row_id == crate::owner::row_id_text(p.w1@[i]));
    }
    lemma_rows_concat(a14, b15, n);
    let a15 = a14 + b15;
    let b16 = plain_events(cycle, lane, uops, p.w2@, "W2"@, "complete"@);
    assert forall|i: int| 0 <= i < b16.len() implies #[trigger] row_below(b16[i], n) by {
        assert(b16[i].row_id == crate::owner::row_id_text(p.w2@[i]));
    }
    lemma_rows_concat(a15, b16, n);
    let a16 = a15 + b16;
    let b17 = trap_flush_events(cycle, lane, p, uops);
    assert forall|i: int| 0 <= i < b17.len() implies #[trigger] row_below(b17[i], n) by {
        assert(b17[i].row_id == crate::owner::row_id_text(p.pending_trap->0.seq));
    }
    lemma_rows_concat(a16, b17, n);
    let a17 = a16 + b17;
    let b18 = redirect_flush_events(cycle, lane, p, uops);
    match crate::recovery::spec_resolved_frontend_redirect(cycle, p, uops) {
        Some(r) => {
            crate::recovery::lemma_first_resolving_bound(uops, cycle, 0);
            assert((r.source_seq as int) < n);
            assert forall|i: int| 0 <= i < b18.len() implies #[trigger] row_below(b18[i], n) by {
                assert(b18[i].row_id == crate::owner::row_id_text(r.source_seq));
            }
        },
        None => {
            lemma_resolving_rows(cycle, lane, p, uops, uops.len() as int);
        },
    }
    lemma_rows_concat(a17, b18, n);
    let a18 = a17 + b18;
    let b19 = rob_events(cycle, lane, uops, rob);
    assert forall|i: int| 0 <= i < b19.len() implies #[trigger] row_below(b19[i], n) by {
        assert(b19[i].row_id == crate::owner::row_id_text(rob[i]));
    }
    lemma_rows_concat(a18, b19, n);
    let a19 = a18 + b19;
    assert(cycle_events(cycle, lane, p, iq, rob, uops) == a19);
}

} // verus!
