use vstd::prelude::*;
use std::collections::VecDeque;
use crate::config::COMMIT_WIDTH;
use crate::lsu_queues::drop_seq;
use crate::model::{CycleUop, PendingTrapState, QueueWakeKind, ScbEntry, StageQueues};
use crate::record::{CommitRecord, StageTraceEvent};
use crate::trace::{EventView, event_of, events_view, spec_live_meta};

verus! {

/// What retirement has done so far in a cycle.
pub struct RetireState {
    pub rob: Seq<usize>,
    pub committed: Seq<CommitRecord>,
    pub retired: Seq<usize>,
    pub events: Seq<EventView>,
    pub pending_trap: Option<PendingTrapState>,
    pub ready_t: Set<usize>,
    pub ready_u: Set<usize>,
    pub stq: Seq<usize>,
    pub scb: Seq<ScbEntry>,
    pub trap: Option<u64>,
}

/// The ROB head can retire: it has completed.
pub open spec fn head_done(uops: Seq<CycleUop>, st: RetireState) -> bool {
    st.rob.len() > 0 && uops[st.rob[0] as int].done_cycle is Some
}

/// The record the ROB head retires with: its commit, stamped with the
/// cycle, carrying the pending trap if the trap is its own.
pub open spec fn retired_commit(cycle: u64, uops: Seq<CycleUop>, st: RetireState) -> CommitRecord {
    let seq = st.rob[0];
    let base = uops[seq as int].commit;
    match st.pending_trap {
        Some(t) => if t.seq == seq {
            CommitRecord { trap_valid: 1, trap_cause: t.cause, traparg0: t.traparg0, cycle, ..base }
        } else {
            CommitRecord { cycle, ..base }
        },
        None => CommitRecord { cycle, ..base },
    }
}

/// Retiring the ROB head: it leaves the ROB with its commit record and a
/// CMT event; the pending trap, if its own, is taken; its queue value
/// becomes ready; a store moves from the store queue to the coalescing buffer.
pub open spec fn retire_step(cycle: u64, lane: Seq<char>, p0: StageQueues, uops: Seq<CycleUop>, st: RetireState) -> RetireState {
    let seq = st.rob[0];
    let u = uops[seq as int];
    let commit = retired_commit(cycle, uops, st);
    let own_trap = st.pending_trap matches Some(t) && t.seq == seq;
    let tc: Option<u64> = if commit.trap_valid != 0 { Some(commit.trap_cause) } else { None };
    let ta: Option<u64> = if commit.trap_valid != 0 { Some(commit.traparg0) } else { None };
    let ev = event_of(
        cycle,
        lane,
        uops,
        seq,
        "CMT"@,
        "retire"@,
        spec_live_meta(p0, uops, seq, Some(crate::owner::spec_live_rob_checkpoint_id(p0, uops, seq)), tc, ta),
    );
    RetireState {
        rob: st.rob.drop_first(),
        committed: st.committed.push(commit),
        retired: st.retired.push(seq),
        events: st.events.push(ev),
        pending_trap: if own_trap { None } else { st.pending_trap },
        trap: if own_trap { Some(st.pending_trap->0.cause) } else { st.trap },
        ready_t: match u.dst_logical_tag {
            Some(tag) => if tag.kind == QueueWakeKind::T { st.ready_t.insert(tag.tag) } else { st.ready_t },
            None => st.ready_t,
        },
        ready_u: match u.dst_logical_tag {
            Some(tag) => if tag.kind == QueueWakeKind::U { st.ready_u.insert(tag.tag) } else { st.ready_u },
            None => st.ready_u,
        },
        stq: if u.is_store { drop_seq(st.stq, seq) } else { st.stq },
        scb: if u.is_store { st.scb.push(ScbEntry { seq, enqueue_cycle: cycle }) } else { st.scb },
    }
}

/// Retiring completed ROB heads, in order, at most `k` of them.
pub open spec fn retire_run(cycle: u64, lane: Seq<char>, p0: StageQueues, uops: Seq<CycleUop>, st: RetireState, k: nat) -> RetireState
    decreases k,
{
    if k == 0 || !head_done(uops, st) {
        st
    } else {
        retire_run(cycle, lane, p0, uops, retire_step(cycle, lane, p0, uops, st), (k - 1) as nat)
    }
}

pub open spec fn retire_start(
    p: StageQueues,
    rob: Seq<usize>,
    committed: Seq<CommitRecord>,
    retired: Seq<usize>,
    events: Seq<StageTraceEvent>,
) -> RetireState {
    RetireState {
        rob,
        committed,
        retired,
        events: events_view(events),
        pending_trap: p.pending_trap,
        ready_t: p.ready_table_t@,
        ready_u: p.ready_table_u@,
        stq: p.stq@,
        scb: p.scb@,
        trap: None,
    }
}

pub open spec fn retire_state_of(
    p: StageQueues,
    rob: Seq<usize>,
    committed: Seq<CommitRecord>,
    retired: Seq<usize>,
    events: Seq<StageTraceEvent>,
    trap: Option<u64>,
) -> RetireState {
    RetireState {
        rob,
        committed,
        retired,
        events: events_view(events),
        pending_trap: p.pending_trap,
        ready_t: p.ready_table_t@,
        ready_u: p.ready_table_u@,
        stq: p.stq@,
        scb: p.scb@,
        trap,
    }
}

proof fn lemma_retire_run_unfold(cycle: u64, lane: Seq<char>, p0: StageQueues, uops: Seq<CycleUop>, st: RetireState, k: nat)
    requires
        k > 0,
        head_done(uops, st),
    ensures
        retire_run(cycle, lane, p0, uops, st, k) == retire_run(cycle, lane, p0, uops, retire_step(cycle, lane, p0, uops, st), (k - 1) as nat),
{
}

/// What retiring does to the ROB, the retired records, the trace and the
/// pipeline, and the trap it reports.
pub open spec fn retire_post(cycle: u64, lane: Seq<char>, p_old: StageQueues, rob_old: Seq<usize>, committed_old: Seq<CommitRecord>, retired_old: Seq<usize>, events_old: Seq<StageTraceEvent>, uops: Seq<CycleUop>, p_new: StageQueues, rob_new: Seq<usize>, committed_new: Seq<CommitRecord>, retired_new: Seq<usize>, events_new: Seq<StageTraceEvent>, trap: Option<u64>) -> bool {
    &&& ({
        let f = retire_run(
            cycle,
            lane,
            p_old,
            uops,
            retire_start(p_old, rob_old, committed_old, retired_old, events_old),
            COMMIT_WIDTH as nat,
        );
        &&& rob_new == f.rob
        &&& committed_new == f.committed
        &&& retired_new == f.retired
        &&& events_view(events_new) == f.events
        &&& p_new.pending_trap == f.pending_trap
        &&& p_new.ready_table_t@ == f.ready_t
        &&& p_new.ready_table_u@ == f.ready_u
        &&& p_new.stq@ == f.stq
        &&& p_new.scb@ == f.scb
        &&& trap == f.trap
    })
    &&& p_new.same_outside_retire(&p_old)
    &&& p_new.wf(uops.len())
    &&& crate::model::seqs_below(rob_new, uops.len())
}

/// Retires up to COMMIT_WIDTH completed micro-ops from the head of the ROB,
/// in order; returns the cause of a trap that one of them took.
pub fn retire_ready(
    cycle: u64,
    default_lane: &String,
    rob: &mut VecDeque<usize>,
    committed: &mut Vec<CommitRecord>,
    retired_seqs: &mut Vec<usize>,
    pipeline: &mut StageQueues,
    uops: &Vec<CycleUop>,
    stage_events: &mut Vec<StageTraceEvent>,
) -> (trap: Option<u64>)
    requires
        old(pipeline).wf(uops@.len()),
        crate::model::seqs_below(old(rob)@, uops@.len()),
    ensures
        retire_post(cycle, default_lane@, *old(pipeline), old(rob)@, old(committed)@, old(retired_seqs)@, old(stage_events)@, uops@, *final(pipeline), final(rob)@, final(committed)@, final(retired_seqs)@, final(stage_events)@, trap),
{
    let ghost p0 = *pipeline;
    let ghost n = uops@.len();
    let ghost st0 = retire_start(*pipeline, rob@, committed@, retired_seqs@, stage_events@);
    let mut retired_this_cycle: usize = 0;
    let mut trap_retired: Option<u64> = None;
    while retired_this_cycle < COMMIT_WIDTH
        invariant
            retired_this_cycle <= COMMIT_WIDTH,
            pipeline.same_outside_retire(&p0),
            pipeline.wf(n),
            uops@.len() == n,
            crate::model::seqs_below(rob@, n),
            retire_run(cycle, default_lane@, p0, uops@, st0, COMMIT_WIDTH as nat) == retire_run(
                cycle,
                default_lane@,
                p0,
                uops@,
                retire_state_of(*pipeline, rob@, committed@, retired_seqs@, stage_events@, trap_retired),
                (COMMIT_WIDTH - retired_this_cycle) as nat,
            ),
        ensures
            retire_run(cycle, default_lane@, p0, uops@, st0, COMMIT_WIDTH as nat)
                == retire_state_of(*pipeline, rob@, committed@, retired_seqs@, stage_events@, trap_retired),
        decreases COMMIT_WIDTH - retired_this_cycle,
    {
        let ghost st = retire_state_of(*pipeline, rob@, committed@, retired_seqs@, stage_events@, trap_retired);
        if rob.len() == 0 {
            break;
        }
        let seq = rob[0];
        assert((seq as int) < n);
        if uops[seq].done_cycle.is_none() {
            break;
        }
        proof {
            lemma_retire_run_unfold(cycle, default_lane@, p0, uops@, st, (COMMIT_WIDTH - retired_this_cycle) as nat);
        }
        let mut commit = uops[seq].commit;
        if let Some(t) = pipeline.pending_trap {
            if t.seq == seq {
                commit.trap_valid = 1;
                commit.trap_cause = t.cause;
                commit.traparg0 = t.traparg0;
                trap_retired = Some(t.cause);
                pipeline.pending_trap = None;
            }
        }
        let trap_cause = if commit.trap_valid != 0 { Some(commit.trap_cause) } else { None };
        let traparg0 = if commit.trap_valid != 0 { Some(commit.traparg0) } else { None };
        commit.cycle = cycle;
        committed.push(commit);
        retired_seqs.push(seq);
        proof {
            crate::trace::lemma_live_meta_frame_pub(p0, *pipeline, uops@, seq, trap_cause, traparg0);
        }
        let cid = crate::owner::live_rob_checkpoint_id_for_seq(seq, pipeline, uops);
        let meta = crate::trace::live_meta(seq, pipeline, uops, Some(cid), trap_cause, traparg0);
        let e = crate::trace::stage_event_with_meta(cycle, default_lane, uops, seq, "CMT", "retire", &meta);
        proof {
            crate::trace::lemma_events_push_pub(stage_events@, e);
        }
        stage_events.push(e);
        rob.pop_front();
        if let Some(tag) = uops[seq].dst_logical_tag {
            crate::checkpoint::insert_ready_table_tag(pipeline, tag);
        }
        if uops[seq].is_store {
            crate::lsu_queues::remove_queue_entry(&mut pipeline.stq, seq);
            pipeline.scb.push_back(ScbEntry { seq, enqueue_cycle: cycle });
        }
        proof {
            let next = retire_state_of(*pipeline, rob@, committed@, retired_seqs@, stage_events@, trap_retired);
            assert(next == retire_step(cycle, default_lane@, p0, uops@, st));
            assert forall|i: int| 0 <= i < pipeline.stq@.len() implies (pipeline.stq@[i] as int) < n by {
                crate::lsu_queues::lemma_drop_seq(st.stq, seq);
                assert(pipeline.stq@.contains(pipeline.stq@[i]));
            }
        }
        retired_this_cycle += 1;
    }
    trap_retired
}

} // verus!
