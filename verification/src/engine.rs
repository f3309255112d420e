use vstd::prelude::*;
use std::collections::VecDeque;
use crate::commit::{RetireState, head_done, retire_post, retire_ready, retire_run, retire_step};
use crate::config::{COMMIT_WIDTH, CycleEngine, CycleRunBundle, CycleRunOptions, FRONTEND_STAGE_COUNT, ISSUE_WIDTH};
use crate::decode::{build_uops, registers_in_range};
use crate::dispatch::{dispatch_post, dispatch_to_iq_and_bypass, fill_fetch, fill_fetch_post};
use crate::issue::{
    advance_i1_to_i2, advance_i2, advance_p1_to_i1, arb_fold, arbitrate_i1, arbitrate_post, i1_to_i2_post, i2_post, pick_from_iq,
    pick_post,
};
use crate::iq::tags_in_range;
use crate::iq_wake::{cycle_end_state, same_identity, update_iq_entries_for_cycle};
use crate::lsu::{advance_execute, advance_l1d, advance_liq, advance_scb, execute_post, l1d_post, liq_post, scb_post};
use crate::model::{
    CycleUop, IqEntry, QTAG_SLOTS, StageQueues, keys_below, lsids_below_max, same_static_seq, seqs_below, uops_wf,
};
use crate::record::{CommitRecord, DecodedInstruction, EngineKind, RunMetrics, RunResult, StageTraceEvent};
use crate::recovery::{
    Sequenced, apply_pending_flush, bru_publish_post, call_fault_publish_post, dynamic_fault_publish_post, flush_post,
    redirect_schedule_post, kept_upto, owned_upto, pruned_after, publish_bru_correction_state,
    publish_call_header_fault_state, publish_dynamic_boundary_target_fault_state, schedule_frontend_redirect_recovery,
};
use crate::iq_state::src_state;
use crate::select::rank_sorted;
use crate::stages::{advance_frontend, frontend_post, lemma_frontend_steps_below, spec_moved, stages_below};
use crate::text::{hex_text, hex8_string, text_is, zero_padded};
use crate::trace::{cycle_events, emit_stage_events, events_view, stamped_all, tag_stage_cycles};

verus! {

broadcast use vstd::seq_lib::group_seq_properties;

// ---------------------------------------------------------------------------
// What every cycle keeps.
// ---------------------------------------------------------------------------

/// Every issue-queue entry names a micro-op below `n`.
pub open spec fn iq_below(iq: Seq<IqEntry>, n: nat) -> bool {
    forall|i: int| 0 <= i < iq.len() ==> (#[trigger] iq[i]).seq < n
}

/// The state the cycle loop keeps between cycles: every queue, table and
/// record names a real micro-op, the micro-op records are well formed, the
/// completion pointer never runs ahead of the issue pointer, no two
/// micro-ops hold the same issue-queue slot, and no issue queue holds more
/// entries than it has slots.
pub open spec fn engine_ok(p: StageQueues, iq: Seq<IqEntry>, rob: Seq<usize>, uops: Seq<CycleUop>) -> bool {
    &&& p.wf(uops.len())
    &&& uops_wf(uops)
    &&& lsids_below_max(uops)
    &&& iq_below(iq, uops.len())
    &&& seqs_below(rob, uops.len())
    &&& p.lsid_complete_ptr <= p.lsid_issue_ptr
    &&& crate::iq::tags_distinct(p.iq_tags@)
    &&& crate::iq::within_capacity(iq)
}

/// `a` and `b` hold the same micro-ops: the same architectural record and
/// the same decoded instruction at every position.
pub open spec fn same_records(a: Seq<CycleUop>, b: Seq<CycleUop>) -> bool {
    &&& a.len() == b.len()
    &&& forall|s: int| 0 <= s < a.len() ==> (#[trigger] a[s]).commit == b[s].commit && a[s].decoded == b[s].decoded
}

/// `c` is the architectural record `base` as the model retires it: stamped
/// with the cycle it retired in and, where it took a pending trap, carrying
/// that trap.
pub open spec fn retired_as(c: CommitRecord, base: CommitRecord) -> bool {
    ||| c == (CommitRecord { cycle: c.cycle, ..base })
    ||| c.trap_valid == 1 && c == (CommitRecord {
        cycle: c.cycle,
        trap_valid: 1,
        trap_cause: c.trap_cause,
        traparg0: c.traparg0,
        ..base
    })
}

/// What has retired so far: one micro-op per record, each record that of its
/// micro-op as retired, all in cycles before `b` and in cycle order.
pub open spec fn committed_ok(committed: Seq<CommitRecord>, retired: Seq<usize>, uops: Seq<CycleUop>, b: int) -> bool {
    &&& retired.len() == committed.len()
    &&& seqs_below(retired, uops.len())
    &&& forall|i: int| 0 <= i < committed.len() ==> retired_as(#[trigger] committed[i], uops[retired[i] as int].commit)
    &&& forall|i: int| 0 <= i < committed.len() ==> (#[trigger] committed[i]).cycle < b
    &&& forall|i: int, j: int| 0 <= i <= j < committed.len() ==> (#[trigger] committed[i]).cycle <= (#[trigger] committed[j]).cycle
}

// ---------------------------------------------------------------------------
// One cycle, step by step.
// ---------------------------------------------------------------------------

/// Everything the cycle loop works on, between two of its steps.
pub struct EngineSnap {
    pub p: StageQueues,
    pub iq: Seq<IqEntry>,
    pub rob: Seq<usize>,
    pub uops: Seq<CycleUop>,
    pub committed: Seq<CommitRecord>,
    pub retired: Seq<usize>,
    pub next_fetch: usize,
    pub events: Seq<StageTraceEvent>,
    pub trap: Option<u64>,
}

/// The steps of a cycle, in order: a flush falls due (0), fetch (1), stage
/// cycles are stamped (2), branch outcomes (3), dynamic-target faults (4) and
/// call-header faults (5) are published, the issue queue wakes (6), the cycle
/// is traced (7), the coalescing buffer drains (8), the ROB head retires (9),
/// a frontend redirect is scheduled (10), execute (11), the L1D queue (12),
/// the load-issue queue (13), I1 moves to I2 (14), read ports are arbitrated
/// into I1 (15), I2 issues (16), the issue queues are picked into P1 (17),
/// S2 dispatches (18) and the frontend advances (19). `step_ok` holds when
/// `b` is what step `op` of cycle `cycle` makes of `a`.
#[verifier::opaque]
pub open spec fn step_ok(op: int, cycle: u64, lane: Seq<char>, options: CycleRunOptions, a: EngineSnap, b: EngineSnap) -> bool {
    if op == 0 {
        &&& flush_post(cycle, a.p, a.iq, a.rob, a.uops, b.p, b.iq, b.rob)
        &&& b == EngineSnap { p: b.p, iq: b.iq, rob: b.rob, ..a }
    } else if op == 1 {
        &&& fill_fetch_post(cycle, a.p, a.next_fetch, a.uops, b.p, b.next_fetch)
        &&& b == EngineSnap { p: b.p, next_fetch: b.next_fetch, ..a }
    } else if op == 2 {
        &&& b.uops == stamped_all(
            stamped_all(stamped_all(stamped_all(a.uops, a.p.e1@, 0, cycle), a.p.e4@, 1, cycle), a.p.w1@, 2, cycle),
            a.p.w2@,
            3,
            cycle,
        )
        &&& b == EngineSnap { uops: b.uops, ..a }
    } else if op == 3 {
        &&& bru_publish_post(cycle, a.p, a.uops, b.p)
        &&& b == EngineSnap { p: b.p, ..a }
    } else if op == 4 {
        &&& dynamic_fault_publish_post(cycle, a.p, a.uops, b.p)
        &&& b == EngineSnap { p: b.p, ..a }
    } else if op == 5 {
        &&& call_fault_publish_post(cycle, a.p, a.uops, b.p)
        &&& b == EngineSnap { p: b.p, ..a }
    } else if op == 6 {
        &&& b.iq.len() == a.iq.len()
        &&& forall|i: int| 0 <= i < a.iq.len() ==> {
            &&& same_identity(#[trigger] a.iq[i], b.iq[i])
            &&& src_state(b.iq[i], 0) == cycle_end_state(a.uops, cycle, a.iq, a.p.iq_owner_table@, a.p.iq_tags@,
                a.p.qtag_wait_crossbar@, a.p.ready_table_t@, a.p.ready_table_u@, i, 0)
            &&& src_state(b.iq[i], 1) == cycle_end_state(a.uops, cycle, a.iq, a.p.iq_owner_table@, a.p.iq_tags@,
                a.p.qtag_wait_crossbar@, a.p.ready_table_t@, a.p.ready_table_u@, i, 1)
        }
        &&& b == EngineSnap { iq: b.iq, ..a }
    } else if op == 7 {
        &&& events_view(b.events) == events_view(a.events) + cycle_events(cycle, lane, a.p, a.iq, a.rob, a.uops)
        &&& b == EngineSnap { events: b.events, ..a }
    } else if op == 8 {
        &&& scb_post(cycle, a.p, a.uops, b.p)
        &&& b == EngineSnap { p: b.p, ..a }
    } else if op == 9 {
        &&& retire_post(cycle, lane, a.p, a.rob, a.committed, a.retired, a.events, a.uops, b.p, b.rob, b.committed,
            b.retired, b.events, b.trap)
        &&& b == EngineSnap { p: b.p, rob: b.rob, committed: b.committed, retired: b.retired, events: b.events, trap: b.trap, ..a }
    } else if op == 10 {
        &&& redirect_schedule_post(cycle, a.p, a.uops, b.p)
        &&& b == EngineSnap { p: b.p, ..a }
    } else if op == 11 {
        &&& execute_post(cycle, options, a.p, a.uops, b.p, b.uops)
        &&& b == EngineSnap { p: b.p, uops: b.uops, ..a }
    } else if op == 12 {
        &&& l1d_post(cycle, a.p, b.p)
        &&& b == EngineSnap { p: b.p, ..a }
    } else if op == 13 {
        &&& liq_post(cycle, a.p, a.uops, a.rob, b.p, b.uops)
        &&& b == EngineSnap { p: b.p, uops: b.uops, ..a }
    } else if op == 14 {
        &&& i1_to_i2_post(a.p, a.iq, b.p, b.iq)
        &&& b == EngineSnap { p: b.p, iq: b.iq, ..a }
    } else if op == 15 {
        let g = arb_fold(a.uops, cycle, a.iq, rank_sorted(a.p.p1@, a.rob), a.p.p1@.len() as int).granted;
        let k = spec_moved(a.p.i1@.len() as int, g.len() as int, ISSUE_WIDTH as int);
        &&& arbitrate_post(cycle, a.p.p1@, a.iq, a.uops, a.rob, Seq::empty(), b.iq, g)
        &&& b.p.i1@ == a.p.i1@ + g.take(k)
        &&& b.p.p1@ == g.skip(k)
        &&& b.p == StageQueues { i1: b.p.i1, p1: b.p.p1, ..a.p }
        &&& b == EngineSnap { p: b.p, iq: b.iq, ..a }
    } else if op == 16 {
        &&& i2_post(cycle, a.uops, a.p.i2@, a.p.e1@, a.p.lhq@, a.p.stq@, a.p.lsid_issue_ptr, a.p.lsid_complete_ptr,
            b.p.i2@, b.p.e1@, b.p.lhq@, b.p.stq@, b.p.lsid_issue_ptr, b.p.lsid_complete_ptr)
        &&& b.p == StageQueues {
            i2: b.p.i2,
            e1: b.p.e1,
            lhq: b.p.lhq,
            stq: b.p.stq,
            lsid_issue_ptr: b.p.lsid_issue_ptr,
            lsid_complete_ptr: b.p.lsid_complete_ptr,
            ..a.p
        }
        &&& b == EngineSnap { p: b.p, ..a }
    } else if op == 17 {
        &&& pick_post(cycle, a.p.lsid_issue_ptr, a.iq, a.uops, a.p.p1@, a.rob, b.iq, b.p.p1@)
        &&& b.p == StageQueues { p1: b.p.p1, ..a.p }
        &&& b == EngineSnap { p: b.p, iq: b.iq, ..a }
    } else if op == 18 {
        &&& dispatch_post(cycle, a.p, a.iq, a.rob, a.uops, b.p, b.iq, b.rob, b.uops)
        &&& b == EngineSnap { p: b.p, iq: b.iq, rob: b.rob, uops: b.uops, ..a }
    } else {
        &&& frontend_post(a.p, a.rob, b.p, b.rob)
        &&& b == EngineSnap { p: b.p, rob: b.rob, ..a }
    }
}

/// `s` is a run of consecutive steps of cycle `cycle`, the first being step
/// `first`.
pub open spec fn chain_from(first: int, cycle: u64, lane: Seq<char>, options: CycleRunOptions, s: Seq<EngineSnap>) -> bool {
    &&& s.len() >= 1
    &&& forall|k: int| 0 <= k < s.len() - 1 ==> step_ok(first + k, cycle, lane, options, #[trigger] s[k], s[k + 1])
}

proof fn lemma_chain_append(first: int, cycle: u64, lane: Seq<char>, options: CycleRunOptions, a: Seq<EngineSnap>, b: Seq<EngineSnap>)
    requires
        chain_from(first, cycle, lane, options, a),
        chain_from(first + a.len() - 1, cycle, lane, options, b),
        a.last() == b[0],
    ensures
        chain_from(first, cycle, lane, options, a + b.skip(1)),
        (a + b.skip(1)).len() == a.len() + b.len() - 1,
        (a + b.skip(1))[0] == a[0],
        (a + b.skip(1)).last() == b.last(),
{
    let c = a + b.skip(1);
    assert forall|k: int| 0 <= k < c.len() - 1 implies step_ok(first + k, cycle, lane, options, #[trigger] c[k], c[k + 1]) by {
        if k < a.len() - 1 {
            assert(c[k] == a[k] && c[k + 1] == a[k + 1]);
            assert(step_ok(first + k, cycle, lane, options, a[k], a[k + 1]));
        } else {
            let j = k - (a.len() - 1);
            if k == a.len() - 1 {
                assert(c[k] == a.last());
            } else {
                assert(c[k] == b[j]);
            }
            assert(c[k + 1] == b[j + 1]);
            assert(step_ok(first + a.len() - 1 + j, cycle, lane, options, b[j], b[j + 1]));
        }
    }
    if b.len() > 1 {
        assert(c.last() == b.last());
    }
}

/// How a cycle of `s`'s snapshots ends: a trap retired (after step 9);
/// every instruction had retired by step 10; or all its steps ran.
pub open spec fn cycle_shape_ok(s: Seq<EngineSnap>, target: nat) -> bool {
    ||| s.len() == 11 && s[10].trap is Some
    ||| s.len() == 12 && s[10].trap is None && s[11].committed.len() == target
    ||| s.len() == 21 && s[10].trap is None && s[11].committed.len() != target
}

/// The cycle ran all its steps and left instructions to retire.
pub open spec fn cycle_goes_on(s: Seq<EngineSnap>, target: nat) -> bool {
    &&& s.len() == 21
    &&& s[10].trap is None
    &&& s[11].committed.len() != target
    &&& s[20].committed.len() != target
}

/// The cycles of `log`, each as the snapshots between its steps: cycle `c`
/// is a run of the steps of cycle `c` that ends as `cycle_shape_ok` says,
/// the first starts from `init`, each other starts where the one before
/// ended, and every cycle but the last goes on.
pub open spec fn log_prefix_ok(lane: Seq<char>, options: CycleRunOptions, target: nat, init: EngineSnap, log: Seq<Seq<EngineSnap>>) -> bool {
    &&& forall|c: int| 0 <= c < log.len() ==> chain_from(0, c as u64, lane, options, #[trigger] log[c]) && cycle_shape_ok(log[c], target)
    &&& log.len() > 0 ==> log[0][0] == init
    &&& forall|c: int| 0 <= c < log.len() - 1 ==> cycle_goes_on(#[trigger] log[c], target) && log[c + 1][0] == log[c].last()
}

/// A whole run: its cycles as `log_prefix_ok` says, no more than the budget,
/// and fewer only where the last cycle stopped the run.
pub open spec fn run_log_ok(lane: Seq<char>, options: CycleRunOptions, target: nat, init: EngineSnap, log: Seq<Seq<EngineSnap>>) -> bool {
    &&& log_prefix_ok(lane, options, target, init, log)
    &&& log.len() <= options.max_cycles
    &&& log.len() < options.max_cycles ==> log.len() > 0 && !cycle_goes_on(log.last(), target)
}

/// Where the cycles of `log` leave the state that started as `init`.
pub open spec fn run_end(init: EngineSnap, log: Seq<Seq<EngineSnap>>) -> EngineSnap {
    if log.len() == 0 {
        init
    } else {
        log.last().last()
    }
}

/// The state before the first cycle: an empty pipeline over the micro-ops
/// built from the functional run's commits and decoded instructions.
pub open spec fn run_start_ok(init: EngineSnap, commits: Seq<CommitRecord>, decoded: Seq<DecodedInstruction>) -> bool {
    &&& init.p.is_reset()
    &&& init.iq.len() == 0
    &&& init.rob.len() == 0
    &&& init.committed.len() == 0
    &&& init.retired.len() == 0
    &&& init.next_fetch == 0
    &&& init.events.len() == 0
    &&& init.trap is None
    &&& init.uops.len() == (if commits.len() < decoded.len() { commits.len() } else { decoded.len() })
    &&& forall|s: int| 0 <= s < init.uops.len() ==> crate::decode::built_uop(#[trigger] init.uops[s], commits, crate::decode::decoded_views(decoded), s)
}

/// The exit reason of a run that ended in `end`: the functional run's own
/// when every instruction retired, the trap that retired, or the budget.
pub open spec fn run_exit(end: EngineSnap, target: nat, func_exit: Seq<char>) -> Seq<char> {
    if end.committed.len() == target {
        func_exit
    } else {
        match end.trap {
            Some(cause) => trap_exit_reason(cause),
            None => "cycle_limit"@,
        }
    }
}

proof fn lemma_log_push(lane: Seq<char>, options: CycleRunOptions, target: nat, init: EngineSnap, log: Seq<Seq<EngineSnap>>, cur: Seq<EngineSnap>)
    requires
        log_prefix_ok(lane, options, target, init, log),
        log.len() > 0 ==> cycle_goes_on(log.last(), target),
        log.len() < u64::MAX,
        chain_from(0, log.len() as u64, lane, options, cur),
        cycle_shape_ok(cur, target),
        cur[0] == run_end(init, log),
    ensures
        log_prefix_ok(lane, options, target, init, log.push(cur)),
        run_end(init, log.push(cur)) == cur.last(),
        log.push(cur).last() == cur,
{
    let l = log.push(cur);
    assert forall|c: int| 0 <= c < l.len() implies chain_from(0, c as u64, lane, options, #[trigger] l[c]) && cycle_shape_ok(l[c], target) by {
        if c < log.len() {
            assert(l[c] == log[c]);
        }
    }
    assert forall|c: int| 0 <= c < l.len() - 1 implies cycle_goes_on(#[trigger] l[c], target) && l[c + 1][0] == l[c].last() by {
        assert(l[c] == log[c]);
        if c < log.len() - 1 {
            assert(l[c + 1] == log[c + 1]);
        }
    }
}

proof fn lemma_same_records_trans(a: Seq<CycleUop>, b: Seq<CycleUop>, c: Seq<CycleUop>)
    requires
        same_records(a, b),
        same_records(b, c),
    ensures
        same_records(a, c),
{
    assert forall|s: int| 0 <= s < a.len() implies (#[trigger] a[s]).commit == c[s].commit && a[s].decoded == c[s].decoded by {
        assert(a[s].commit == b[s].commit && a[s].decoded == b[s].decoded);
        assert(b[s].commit == c[s].commit && b[s].decoded == c[s].decoded);
    }
}

/// What has retired stays described by the same micro-op records, and by
/// any later cycle bound.
proof fn lemma_records_move(
    committed: Seq<CommitRecord>,
    retired: Seq<usize>,
    a: Seq<CycleUop>,
    b: Seq<CycleUop>,
    b1: int,
    b2: int,
)
    requires
        committed_ok(committed, retired, a, b1),
        same_records(a, b),
        b1 <= b2,
    ensures
        committed_ok(committed, retired, b, b2),
{
    assert forall|i: int| 0 <= i < committed.len() implies retired_as(#[trigger] committed[i], b[retired[i] as int].commit) by {
        assert(retired_as(committed[i], a[retired[i] as int].commit));
        assert((retired[i] as int) < a.len());
        assert(a[retired[i] as int].commit == b[retired[i] as int].commit);
    }
}

proof fn lemma_filter_below<T: Sequenced>(q: Seq<T>, pred: spec_fn(T) -> bool, n: nat)
    requires
        forall|i: int| 0 <= i < q.len() ==> (#[trigger] q[i]).seq_spec() < n,
    ensures
        forall|i: int| 0 <= i < q.filter(pred).len() ==> (#[trigger] q.filter(pred)[i]).seq_spec() < n,
{
    assert forall|i: int| 0 <= i < q.filter(pred).len() implies (#[trigger] q.filter(pred)[i]).seq_spec() < n by {
        let x = q.filter(pred)[i];
        assert(q.filter(pred).contains(x));
        q.lemma_filter_contains_rev(pred, x);
        let j = choose|j: int| 0 <= j < q.len() && q[j] == x;
    }
}

proof fn lemma_kept_below(q: Seq<usize>, b: usize, n: nat)
    requires
        seqs_below(q, n),
    ensures
        seqs_below(kept_upto(q, b), n),
{
    let pred = crate::lsu_queues::at_most(b);
    assert forall|i: int| 0 <= i < q.filter(pred).len() implies (q.filter(pred)[i] as int) < n by {
        let x = q.filter(pred)[i];
        assert(q.filter(pred).contains(x));
        q.lemma_filter_contains_rev(pred, x);
        let j = choose|j: int| 0 <= j < q.len() && q[j] == x;
    }
}

/// A queue whose every element is in `b` or in `c` names only micro-ops below
/// `n` when `b` and `c` do.
proof fn lemma_drawn_from(a: Seq<usize>, b: Seq<usize>, c: Seq<usize>, n: nat)
    requires
        seqs_below(b, n),
        seqs_below(c, n),
        forall|x: usize| #[trigger] a.contains(x) ==> b.contains(x) || c.contains(x),
    ensures
        seqs_below(a, n),
{
    assert forall|i: int| 0 <= i < a.len() implies (a[i] as int) < n by {
        assert(a.contains(a[i]));
        if b.contains(a[i]) {
            let j = choose|j: int| 0 <= j < b.len() && b[j] == a[i];
        } else {
            let j = choose|j: int| 0 <= j < c.len() && c[j] == a[i];
        }
    }
}

/// Applying a pending flush keeps the loop state.
proof fn lemma_flush_keeps(
    o: StageQueues,
    f: StageQueues,
    iq0: Seq<IqEntry>,
    iq1: Seq<IqEntry>,
    rob0: Seq<usize>,
    rob1: Seq<usize>,
    uops: Seq<CycleUop>,
    b: usize,
)
    requires
        engine_ok(o, iq0, rob0, uops),
        pruned_after(o, f, b),
        iq1 == iq0.filter(owned_upto::<IqEntry>(b)),
        rob1 == kept_upto(rob0, b),
        f.stq@ == kept_upto(o.stq@, b),
        f.lhq@ == kept_upto(o.lhq@, b),
        f.liq@ == o.liq@.filter(owned_upto::<crate::model::LiqEntry>(b)),
        f.mdb@ == o.mdb@.filter(owned_upto::<crate::model::MdbEntry>(b)),
        f.scb@ == o.scb@.filter(owned_upto::<crate::model::ScbEntry>(b)),
        f.l1d@ == o.l1d@.filter(owned_upto::<crate::model::L1dEntry>(b)),
        f.pending_trap == o.pending_trap,
        f.ready_table_checkpoints@.len() == 256,
        f.iq_owner_table@.len() == QTAG_SLOTS,
        tags_in_range(f.iq_tags@),
        f.lsid_complete_ptr <= f.lsid_issue_ptr,
    ensures
        engine_ok(f, iq1, rob1, uops),
{
    let n = uops.len();
    assert forall|i: int| 0 <= i < FRONTEND_STAGE_COUNT implies seqs_below(#[trigger] f.frontend@[i]@, n) by {
        assert(seqs_below(o.frontend@[i]@, n));
        lemma_kept_below(o.frontend@[i]@, b, n);
    }
    lemma_kept_below(o.p1@, b, n);
    lemma_kept_below(o.i1@, b, n);
    lemma_kept_below(o.i2@, b, n);
    lemma_kept_below(o.e1@, b, n);
    lemma_kept_below(o.e2@, b, n);
    lemma_kept_below(o.e3@, b, n);
    lemma_kept_below(o.e4@, b, n);
    lemma_kept_below(o.w1@, b, n);
    lemma_kept_below(o.w2@, b, n);
    lemma_kept_below(o.lhq@, b, n);
    lemma_kept_below(o.stq@, b, n);
    lemma_kept_below(rob0, b, n);
    lemma_filter_below(o.liq@, owned_upto::<crate::model::LiqEntry>(b), n);
    lemma_filter_below(o.mdb@, owned_upto::<crate::model::MdbEntry>(b), n);
    lemma_filter_below(o.scb@, owned_upto::<crate::model::ScbEntry>(b), n);
    lemma_filter_below(o.l1d@, owned_upto::<crate::model::L1dEntry>(b), n);
    lemma_filter_below(iq0, owned_upto::<IqEntry>(b), n);
    assert forall|q: crate::model::PhysIq| #[trigger] crate::iq::occupancy(iq1, q) <= crate::config::IQ_CAPACITY by {
        crate::iq::lemma_occupancy_filter(iq0, owned_upto::<IqEntry>(b), q);
    }
    assert forall|s: int, j: int|
        0 <= s < QTAG_SLOTS && 0 <= j < f.qtag_wait_crossbar@[s]@.len() implies (#[trigger] f.qtag_wait_crossbar@[s]@[j]).1
        < 2 by {
        let pred = |p: (usize, usize)| p.0 <= b;
        let w = o.qtag_wait_crossbar@[s]@;
        assert(f.qtag_wait_crossbar@[s]@ == w.filter(pred));
        let x = w.filter(pred)[j];
        assert(w.filter(pred).contains(x));
        w.lemma_filter_contains_rev(pred, x);
        let m = choose|m: int| 0 <= m < w.len() && w[m] == x;
        assert(o.qtag_wait_crossbar@[s]@[m].1 < 2);
    }
    assert(keys_below(f.iq_tags@, n));
    assert(keys_below(f.seq_call_header_faults@, n));
}

/// Retiring in cycle `cycle` moves ROB heads into the retired list, each
/// with its record as retired in that cycle.
proof fn lemma_retire_run_ok(
    cycle: u64,
    lane: Seq<char>,
    p0: StageQueues,
    uops: Seq<CycleUop>,
    st: RetireState,
    k: nat,
)
    requires
        seqs_below(st.rob, uops.len()),
        committed_ok(st.committed, st.retired, uops, cycle as int + 1),
    ensures
        committed_ok(
            retire_run(cycle, lane, p0, uops, st, k).committed,
            retire_run(cycle, lane, p0, uops, st, k).retired,
            uops,
            cycle as int + 1,
        ),
    decreases k,
{
    if k > 0 && head_done(uops, st) {
        let nx = retire_step(cycle, lane, p0, uops, st);
        let c = crate::commit::retired_commit(cycle, uops, st);
        assert(nx.committed == st.committed.push(c));
        assert(nx.retired == st.retired.push(st.rob[0]));
        assert(retired_as(c, uops[st.rob[0] as int].commit));
        assert(seqs_below(nx.rob, uops.len()));
        assert(committed_ok(nx.committed, nx.retired, uops, cycle as int + 1)) by {
            assert forall|i: int| 0 <= i < nx.committed.len() implies retired_as(
                #[trigger] nx.committed[i],
                uops[nx.retired[i] as int].commit,
            ) by {
                if i < st.committed.len() {
                    assert(nx.committed[i] == st.committed[i]);
                    assert(nx.retired[i] == st.retired[i]);
                }
            }
        }
        lemma_retire_run_ok(cycle, lane, p0, uops, nx, (k - 1) as nat);
    }
}

// ---------------------------------------------------------------------------
// The run.
// ---------------------------------------------------------------------------

/// The step budget of the functional run that feeds a cycle run of
/// `max_cycles` cycles: `COMMIT_WIDTH` steps a cycle, at least one,
/// saturating at `u64::MAX`.
pub open spec fn spec_functional_step_limit(max_cycles: u64) -> u64 {
    let w = max_cycles * COMMIT_WIDTH;
    if w > u64::MAX {
        u64::MAX
    } else if w == 0 {
        1
    } else {
        w as u64
    }
}

pub fn functional_step_limit(max_cycles: u64) -> (r: u64)
    ensures
        r == spec_functional_step_limit(max_cycles),
{
    let w = match max_cycles.checked_mul(COMMIT_WIDTH as u64) {
        Some(w) => w,
        None => u64::MAX,
    };
    if w < 1 {
        1
    } else {
        w
    }
}

/// The exit reason of a run that retired a trap with cause `cause`.
pub open spec fn trap_exit_reason(cause: u64) -> Seq<char> {
    "trap(0x"@ + zero_padded(hex_text(cause as nat), 8) + ")"@
}

/// `trap(0x` and the cause in at least eight lower-case hex digits, then `)`.
pub fn trap_exit_text(cause: u64) -> (r: String)
    ensures
        r@ == trap_exit_reason(cause),
{
    let digits = hex8_string(cause);
    String::from_str("trap(0x").concat(digits.as_str()).concat(")")
}

/// The cycle count a run reports: the whole budget when it ran out of
/// cycles, else one past the cycle of the last commit.
pub open spec fn reported_cycles(exit_reason: Seq<char>, max_cycles: u64, commits: Seq<CommitRecord>) -> u64 {
    if exit_reason == "cycle_limit"@ {
        max_cycles
    } else if commits.len() == 0 {
        max_cycles
    } else {
        let c = commits.last().cycle;
        if c + 1 > u64::MAX {
            u64::MAX
        } else {
            (c + 1) as u64
        }
    }
}

/// The snapshot of the cycle loop's state made of these parts, with the
/// retired records and the trap taken from `base`.
pub open spec fn engine_snap(
    p: StageQueues,
    iq: Seq<IqEntry>,
    rob: Seq<usize>,
    uops: Seq<CycleUop>,
    next_fetch: usize,
    events: Seq<StageTraceEvent>,
    base: EngineSnap,
) -> EngineSnap {
    EngineSnap { p, iq, rob, uops, next_fetch, events, ..base }
}

/// The first part of a cycle (steps 0 to 8): apply a due flush, fetch,
/// stamp stage cycles, publish this cycle's branch outcomes and faults, wake
/// the issue queue, trace the cycle and drain the coalescing buffer.
fn begin_cycle(
    cycle: u64,
    default_lane: &String,
    pipeline: &mut StageQueues,
    iq: &mut Vec<IqEntry>,
    rob: &mut VecDeque<usize>,
    uops: &mut Vec<CycleUop>,
    next_fetch_seq: &mut usize,
    stage_events: &mut Vec<StageTraceEvent>,
    Ghost(base): Ghost<EngineSnap>,
    Ghost(options): Ghost<CycleRunOptions>,
)
    requires
        engine_ok(*old(pipeline), old(iq)@, old(rob)@, old(uops)@),
        cycle < u64::MAX,
    ensures
        engine_ok(*final(pipeline), final(iq)@, final(rob)@, final(uops)@),
        same_records(old(uops)@, final(uops)@),
        exists|s: Seq<EngineSnap>| {
            &&& #[trigger] chain_from(0, cycle, default_lane@, options, s)
            &&& s.len() == 10
            &&& s[0] == engine_snap(*old(pipeline), old(iq)@, old(rob)@, old(uops)@, *old(next_fetch_seq), old(stage_events)@, base)
            &&& s[9] == engine_snap(*final(pipeline), final(iq)@, final(rob)@, final(uops)@, *final(next_fetch_seq), final(stage_events)@, base)
        },
{
    let ghost lane = default_lane@;
    let ghost n = uops@.len();
    let ghost p0 = *pipeline;
    let ghost iq0 = iq@;
    let ghost rob0 = rob@;
    let ghost s0 = engine_snap(*pipeline, iq@, rob@, uops@, *next_fetch_seq, stage_events@, base);
    apply_pending_flush(cycle, pipeline, iq, rob, &*uops);
    let ghost s1 = engine_snap(*pipeline, iq@, rob@, uops@, *next_fetch_seq, stage_events@, base);
    assert(step_ok(0, cycle, lane, options, s0, s1)) by {
        reveal(step_ok);
    }
    proof {
        match p0.pending_flush {
            Some(pf) => if pf.apply_cycle <= cycle {
                lemma_flush_keeps(p0, *pipeline, iq0, iq@, rob0, rob@, uops@, pf.flush_seq);
            },
            None => {},
        }
    }
    assert(engine_ok(*pipeline, iq@, rob@, uops@));
    fill_fetch(cycle, pipeline, next_fetch_seq, &*uops);
    let ghost s2 = engine_snap(*pipeline, iq@, rob@, uops@, *next_fetch_seq, stage_events@, base);
    assert(step_ok(1, cycle, lane, options, s1, s2)) by {
        reveal(step_ok);
    }
    assert(engine_ok(*pipeline, iq@, rob@, uops@));

    let ghost u0 = uops@;
    tag_stage_cycles(cycle, &*pipeline, uops);
    let ghost s3 = engine_snap(*pipeline, iq@, rob@, uops@, *next_fetch_seq, stage_events@, base);
    assert(step_ok(2, cycle, lane, options, s2, s3)) by {
        reveal(step_ok);
    }
    proof {
        lemma_static_keeps(u0, uops@);
    }
    assert(engine_ok(*pipeline, iq@, rob@, uops@));
    publish_bru_correction_state(cycle, pipeline, &*uops);
    let ghost s4 = engine_snap(*pipeline, iq@, rob@, uops@, *next_fetch_seq, stage_events@, base);
    assert(step_ok(3, cycle, lane, options, s3, s4)) by {
        reveal(step_ok);
    }
    publish_dynamic_boundary_target_fault_state(cycle, pipeline, &*uops);
    let ghost s5 = engine_snap(*pipeline, iq@, rob@, uops@, *next_fetch_seq, stage_events@, base);
    assert(step_ok(4, cycle, lane, options, s4, s5)) by {
        reveal(step_ok);
    }
    publish_call_header_fault_state(cycle, pipeline, &*uops);
    let ghost s6 = engine_snap(*pipeline, iq@, rob@, uops@, *next_fetch_seq, stage_events@, base);
    assert(step_ok(5, cycle, lane, options, s5, s6)) by {
        reveal(step_ok);
    }
    assert(engine_ok(*pipeline, iq@, rob@, uops@));
    let ghost iq1 = iq@;
    update_iq_entries_for_cycle(
        cycle,
        iq,
        &pipeline.ready_table_t,
        &pipeline.ready_table_u,
        &pipeline.iq_owner_table,
        &pipeline.iq_tags,
        &pipeline.qtag_wait_crossbar,
        &*uops,
    );
    let ghost s7 = engine_snap(*pipeline, iq@, rob@, uops@, *next_fetch_seq, stage_events@, base);
    assert(step_ok(6, cycle, lane, options, s6, s7)) by {
        reveal(step_ok);
    }
    proof {
        assert forall|i: int| 0 <= i < iq@.len() implies (#[trigger] iq@[i]).seq < n by {
            assert(crate::iq_wake::settled(
                uops@,
                cycle,
                iq1[i],
                iq@[i],
                pipeline.ready_table_t@,
                pipeline.ready_table_u@,
            ));
        }
        assert forall|i: int| 0 <= i < iq1.len() implies (#[trigger] iq1[i]).phys_iq == iq@[i].phys_iq by {
            assert(crate::iq_wake::settled(
                uops@,
                cycle,
                iq1[i],
                iq@[i],
                pipeline.ready_table_t@,
                pipeline.ready_table_u@,
            ));
        }
        lemma_same_queues_capacity(iq1, iq@);
    }
    assert(engine_ok(*pipeline, iq@, rob@, uops@));
    emit_stage_events(cycle, default_lane, &*pipeline, &*iq, &*rob, &*uops, stage_events);
    let ghost s8 = engine_snap(*pipeline, iq@, rob@, uops@, *next_fetch_seq, stage_events@, base);
    assert(step_ok(7, cycle, lane, options, s7, s8)) by {
        reveal(step_ok);
    }
    advance_scb(cycle, pipeline, &*uops);
    let ghost s9 = engine_snap(*pipeline, iq@, rob@, uops@, *next_fetch_seq, stage_events@, base);
    assert(step_ok(8, cycle, lane, options, s8, s9)) by {
        reveal(step_ok);
    }
    assert(engine_ok(*pipeline, iq@, rob@, uops@));
    proof {
        let chain = seq![s0, s1, s2, s3, s4, s5, s6, s7, s8, s9];
        assert forall|k: int| 0 <= k < chain.len() - 1 implies step_ok(0 + k, cycle, lane, options, #[trigger] chain[k], chain[k + 1]) by {
            if k == 0 { assert(chain[0] == s0 && chain[1] == s1); }
            else if k == 1 { assert(chain[1] == s1 && chain[2] == s2); }
            else if k == 2 { assert(chain[2] == s2 && chain[3] == s3); }
            else if k == 3 { assert(chain[3] == s3 && chain[4] == s4); }
            else if k == 4 { assert(chain[4] == s4 && chain[5] == s5); }
            else if k == 5 { assert(chain[5] == s5 && chain[6] == s6); }
            else if k == 6 { assert(chain[6] == s6 && chain[7] == s7); }
            else if k == 7 { assert(chain[7] == s7 && chain[8] == s8); }
            else { assert(chain[8] == s8 && chain[9] == s9); }
        }
        assert(chain_from(0, cycle, lane, options, chain));
    }
}

proof fn lemma_picked_below(
    uops: Seq<CycleUop>,
    iq: Seq<IqEntry>,
    rob: Seq<usize>,
    cycle: u64,
    ptr: usize,
    s: usize,
    n: nat,
)
    requires
        crate::issue::picked_ok(uops, iq, rob, cycle, ptr, s),
        iq_below(iq, n),
    ensures
        (s as int) < n,
{
    reveal(crate::issue::picked_ok);
    if (s as int) >= n {
        assert forall|i: int| 0 <= i < iq.len() implies (#[trigger] iq[i]).seq != s by {}
    }
}

proof fn lemma_same_queues_capacity(a: Seq<IqEntry>, b: Seq<IqEntry>)
    requires
        crate::iq::within_capacity(a),
        a.len() == b.len(),
        forall|i: int| 0 <= i < a.len() ==> (#[trigger] a[i]).phys_iq == b[i].phys_iq,
    ensures
        crate::iq::within_capacity(b),
{
    assert forall|q: crate::model::PhysIq| #[trigger] crate::iq::occupancy(b, q) <= crate::config::IQ_CAPACITY by {
        crate::iq::lemma_occupancy_same_queues(a, b, q);
    }
}

proof fn lemma_static_keeps(a: Seq<CycleUop>, b: Seq<CycleUop>)
    requires
        same_static_seq(a, b),
        uops_wf(a),
        lsids_below_max(a),
    ensures
        uops_wf(b),
        lsids_below_max(b),
        same_records(a, b),
{
    crate::model::lemma_same_static_wf(a, b);
    assert forall|s: int| 0 <= s < a.len() implies (#[trigger] a[s]).commit == b[s].commit && a[s].decoded == b[s].decoded by {
        assert(crate::model::same_static(a[s], b[s]));
    }
    assert forall|s: int| 0 <= s < b.len() implies ((#[trigger] b[s]).load_store_id matches Some(id) ==> id
        < usize::MAX) by {
        assert(crate::model::same_static(a[s], b[s]));
    }
}

/// Execute, the L1D queue and the load-issue queue (steps 11 to 13).
fn advance_memory_side(
    cycle: u64,
    pipeline: &mut StageQueues,
    iq: &Vec<IqEntry>,
    rob: &VecDeque<usize>,
    uops: &mut Vec<CycleUop>,
    options: &CycleRunOptions,
    Ghost(base): Ghost<EngineSnap>,
    Ghost(lane): Ghost<Seq<char>>,
)
    requires
        engine_ok(*old(pipeline), iq@, rob@, old(uops)@),
    ensures
        engine_ok(*final(pipeline), iq@, rob@, final(uops)@),
        same_records(old(uops)@, final(uops)@),
        exists|s: Seq<EngineSnap>| {
            &&& #[trigger] chain_from(11, cycle, lane, *options, s)
            &&& s.len() == 4
            &&& s[0] == EngineSnap { p: *old(pipeline), iq: iq@, rob: rob@, uops: old(uops)@, ..base }
            &&& s[3] == EngineSnap { p: *final(pipeline), iq: iq@, rob: rob@, uops: final(uops)@, ..base }
        },
{
    let ghost s0 = EngineSnap { p: *pipeline, iq: iq@, rob: rob@, uops: uops@, ..base };
    let ghost u0 = uops@;
    advance_execute(cycle, pipeline, uops, options);
    let ghost s1 = EngineSnap { p: *pipeline, iq: iq@, rob: rob@, uops: uops@, ..base };
    assert(step_ok(11, cycle, lane, *options, s0, s1)) by {
        reveal(step_ok);
    }
    proof {
        lemma_static_keeps(u0, uops@);
    }
    assert(engine_ok(*pipeline, iq@, rob@, uops@));
    advance_l1d(cycle, pipeline);
    let ghost s2 = EngineSnap { p: *pipeline, iq: iq@, rob: rob@, uops: uops@, ..base };
    assert(step_ok(12, cycle, lane, *options, s1, s2)) by {
        reveal(step_ok);
    }
    assert(engine_ok(*pipeline, iq@, rob@, uops@));
    let ghost u1 = uops@;
    advance_liq(cycle, pipeline, uops, rob);
    let ghost s3 = EngineSnap { p: *pipeline, iq: iq@, rob: rob@, uops: uops@, ..base };
    assert(step_ok(13, cycle, lane, *options, s2, s3)) by {
        reveal(step_ok);
    }
    proof {
        lemma_static_keeps(u1, uops@);
        assert forall|s: int| 0 <= s < u0.len() implies (#[trigger] u0[s]).commit == uops@[s].commit && u0[s].decoded
            == uops@[s].decoded by {
            assert(crate::model::same_static(u0[s], u1[s]));
            assert(crate::model::same_static(u1[s], uops@[s]));
        }
        let chain = seq![s0, s1, s2, s3];
        assert forall|k: int| 0 <= k < chain.len() - 1 implies step_ok(11 + k, cycle, lane, *options, #[trigger] chain[k], chain[k + 1]) by {
            if k == 0 { assert(chain[0] == s0 && chain[1] == s1); }
            else if k == 1 { assert(chain[1] == s1 && chain[2] == s2); }
            else { assert(chain[2] == s2 && chain[3] == s3); }
        }
        assert(chain_from(11, cycle, lane, *options, chain));
    }
}

/// The issue stages (steps 14 to 17): I1 to I2, read-port arbitration into
/// I1, I2 into execute, and the pick from the issue queue into P1.
fn advance_issue_side(
    cycle: u64,
    pipeline: &mut StageQueues,
    iq: &mut Vec<IqEntry>,
    rob: &VecDeque<usize>,
    uops: &Vec<CycleUop>,
    Ghost(base): Ghost<EngineSnap>,
    Ghost(lane): Ghost<Seq<char>>,
    Ghost(options): Ghost<CycleRunOptions>,
)
    requires
        engine_ok(*old(pipeline), old(iq)@, rob@, uops@),
    ensures
        engine_ok(*final(pipeline), final(iq)@, rob@, uops@),
        exists|s: Seq<EngineSnap>| {
            &&& #[trigger] chain_from(14, cycle, lane, options, s)
            &&& s.len() == 5
            &&& s[0] == EngineSnap { p: *old(pipeline), iq: old(iq)@, rob: rob@, uops: uops@, ..base }
            &&& s[4] == EngineSnap { p: *final(pipeline), iq: final(iq)@, rob: rob@, uops: uops@, ..base }
        },
{
    let ghost n = uops@.len();
    let ghost p0 = *pipeline;
    let ghost iq0 = iq@;
    let ghost s0 = EngineSnap { p: *pipeline, iq: iq@, rob: rob@, uops: uops@, ..base };
    advance_i1_to_i2(pipeline, iq);
    let ghost s1 = EngineSnap { p: *pipeline, iq: iq@, rob: rob@, uops: uops@, ..base };
    assert(step_ok(14, cycle, lane, options, s0, s1)) by {
        reveal(step_ok);
    }
    proof {
        lemma_drawn_from(pipeline.i2@, p0.i2@, p0.i1@, n);
        lemma_drawn_from(pipeline.i1@, p0.i1@, p0.i1@, n);
        assert forall|i: int| 0 <= i < iq@.len() implies (#[trigger] iq@[i]).seq < n by {
            let x = iq@[i];
            assert(iq@.contains(x));
            let pred = |e: IqEntry| !crate::issue::i1_fold(iq0, p0.i2@, p0.i1@, p0.i1@.len() as int).moved.contains(e.seq);
            assert(iq@ == iq0.filter(pred));
            iq0.lemma_filter_contains_rev(pred, x);
            let j = choose|j: int| 0 <= j < iq0.len() && iq0[j] == x;
        }
        assert forall|q: crate::model::PhysIq| #[trigger] crate::iq::occupancy(iq@, q) <= crate::config::IQ_CAPACITY by {
            let pred = |e: IqEntry| !crate::issue::i1_fold(iq0, p0.i2@, p0.i1@, p0.i1@.len() as int).moved.contains(e.seq);
            crate::iq::lemma_occupancy_filter(iq0, pred, q);
        }
        assert forall|s: int, j: int|
            0 <= s < QTAG_SLOTS && 0 <= j < pipeline.qtag_wait_crossbar@[s]@.len() implies (
            #[trigger] pipeline.qtag_wait_crossbar@[s]@[j]).1 < 2 by {
            let x = pipeline.qtag_wait_crossbar@[s]@[j];
            assert(pipeline.qtag_wait_crossbar@[s]@.contains(x));
            assert(p0.qtag_wait_crossbar@[s]@.contains(x));
            let m = choose|m: int| 0 <= m < p0.qtag_wait_crossbar@[s]@.len() && p0.qtag_wait_crossbar@[s]@[m] == x;
            assert(p0.qtag_wait_crossbar@[s]@[m].1 < 2);
        }
    }
    assert(engine_ok(*pipeline, iq@, rob@, uops@));
    let ghost p1s = *pipeline;
    let ghost iq1 = iq@;
    let mut granted_i1 = arbitrate_i1(cycle, &mut pipeline.p1, iq, uops, rob);
    let ghost g = granted_i1@;
    proof {
        assert forall|i: int| 0 <= i < iq@.len() implies (#[trigger] iq@[i]).seq < n && iq1[i].phys_iq == iq@[i].phys_iq by {
            assert(crate::issue::entry_same_but_inflight(iq1[i], iq@[i]));
        }
        lemma_same_queues_capacity(iq1, iq@);
        assert forall|k: int| 0 <= k < g.len() implies (g[k] as int) < n by {
            assert(p1s.p1@.contains(g[k]));
            let j = choose|j: int| 0 <= j < p1s.p1@.len() && p1s.p1@[j] == g[k];
        }
    }
    let ghost i1b = pipeline.i1@;
    let ghost p1m = pipeline.p1@;
    advance_p1_to_i1(&mut pipeline.i1, &mut granted_i1, &mut pipeline.p1);
    let ghost s2 = EngineSnap { p: *pipeline, iq: iq@, rob: rob@, uops: uops@, ..base };
    proof {
        assert(p1m =~= Seq::<usize>::empty());
        assert(pipeline.p1@ =~= g.skip(crate::stages::spec_moved(i1b.len() as int, g.len() as int, ISSUE_WIDTH as int)));
    }
    assert(step_ok(15, cycle, lane, options, s1, s2)) by {
        reveal(step_ok);
    }
    proof {
        let kk = crate::stages::spec_moved(i1b.len() as int, g.len() as int, crate::config::ISSUE_WIDTH as int);
        assert forall|j: int| 0 <= j < pipeline.i1@.len() implies (pipeline.i1@[j] as int) < n by {
            if j >= i1b.len() {
                assert(pipeline.i1@[j] == g[j - i1b.len()]);
            }
        }
        assert forall|j: int| 0 <= j < pipeline.p1@.len() implies (pipeline.p1@[j] as int) < n by {
            assert(pipeline.p1@[j] == g[j + kk]);
        }
    }
    assert(engine_ok(*pipeline, iq@, rob@, uops@));
    let ghost p2 = *pipeline;
    advance_i2(
        cycle,
        &mut pipeline.i2,
        &mut pipeline.e1,
        &mut pipeline.lhq,
        &mut pipeline.stq,
        &mut pipeline.lsid_issue_ptr,
        &mut pipeline.lsid_complete_ptr,
        uops,
    );
    proof {
        lemma_drawn_from(pipeline.e1@, p2.e1@, p2.i2@, n);
        lemma_drawn_from(pipeline.lhq@, p2.lhq@, p2.i2@, n);
        lemma_drawn_from(pipeline.stq@, p2.stq@, p2.i2@, n);
        lemma_drawn_from(pipeline.i2@, p2.i2@, p2.i2@, n);
    }
    let ghost s3 = EngineSnap { p: *pipeline, iq: iq@, rob: rob@, uops: uops@, ..base };
    assert(step_ok(16, cycle, lane, options, s2, s3)) by {
        reveal(step_ok);
    }
    assert(engine_ok(*pipeline, iq@, rob@, uops@));
    let ghost p3 = *pipeline;
    let ghost iq3 = iq@;
    pick_from_iq(cycle, pipeline.lsid_issue_ptr, iq, uops, &mut pipeline.p1, rob);
    let ghost s4 = EngineSnap { p: *pipeline, iq: iq@, rob: rob@, uops: uops@, ..base };
    assert(step_ok(17, cycle, lane, options, s3, s4)) by {
        reveal(step_ok);
    }
    proof {
        assert forall|i: int| 0 <= i < iq@.len() implies (#[trigger] iq@[i]).seq < n && iq3[i].phys_iq == iq@[i].phys_iq by {
            assert(crate::issue::entry_same_but_inflight(iq3[i], iq@[i]));
        }
        lemma_same_queues_capacity(iq3, iq@);
        assert forall|j: int| 0 <= j < pipeline.p1@.len() implies (pipeline.p1@[j] as int) < n by {
            if j < p3.p1@.len() {
                assert(pipeline.p1@.subrange(0, p3.p1@.len() as int)[j] == p3.p1@[j]);
            } else {
                assert(crate::issue::picked_ok(uops@, iq3, rob@, cycle, p3.lsid_issue_ptr, pipeline.p1@[j]));
                lemma_picked_below(uops@, iq3, rob@, cycle, p3.lsid_issue_ptr, pipeline.p1@[j], n);
            }
        }
    }
    proof {
        let chain = seq![s0, s1, s2, s3, s4];
        assert forall|k: int| 0 <= k < chain.len() - 1 implies step_ok(14 + k, cycle, lane, options, #[trigger] chain[k], chain[k + 1]) by {
            if k == 0 { assert(chain[0] == s0 && chain[1] == s1); }
            else if k == 1 { assert(chain[1] == s1 && chain[2] == s2); }
            else if k == 2 { assert(chain[2] == s2 && chain[3] == s3); }
            else { assert(chain[3] == s3 && chain[4] == s4); }
        }
        assert(chain_from(14, cycle, lane, options, chain));
    }
}

/// Dispatch from S2 and the frontend transfers (steps 18 and 19).
fn advance_dispatch_side(
    cycle: u64,
    pipeline: &mut StageQueues,
    iq: &mut Vec<IqEntry>,
    rob: &mut VecDeque<usize>,
    uops: &mut Vec<CycleUop>,
    Ghost(base): Ghost<EngineSnap>,
    Ghost(lane): Ghost<Seq<char>>,
    Ghost(options): Ghost<CycleRunOptions>,
)
    requires
        engine_ok(*old(pipeline), old(iq)@, old(rob)@, old(uops)@),
        cycle < u64::MAX,
    ensures
        engine_ok(*final(pipeline), final(iq)@, final(rob)@, final(uops)@),
        same_records(old(uops)@, final(uops)@),
        exists|s: Seq<EngineSnap>| {
            &&& #[trigger] chain_from(18, cycle, lane, options, s)
            &&& s.len() == 3
            &&& s[0] == EngineSnap { p: *old(pipeline), iq: old(iq)@, rob: old(rob)@, uops: old(uops)@, ..base }
            &&& s[2] == EngineSnap { p: *final(pipeline), iq: final(iq)@, rob: final(rob)@, uops: final(uops)@, ..base }
        },
{
    let ghost u0 = uops@;
    let ghost s0 = EngineSnap { p: *pipeline, iq: iq@, rob: rob@, uops: uops@, ..base };
    dispatch_to_iq_and_bypass(cycle, pipeline, iq, rob, uops);
    let ghost s1 = EngineSnap { p: *pipeline, iq: iq@, rob: rob@, uops: uops@, ..base };
    assert(step_ok(18, cycle, lane, options, s0, s1)) by {
        reveal(step_ok);
    }
    proof {
        assert forall|s: int| 0 <= s < uops@.len() implies ((#[trigger] uops@[s]).load_store_id matches Some(id) ==> id
            < usize::MAX) && u0[s].commit == uops@[s].commit && u0[s].decoded == uops@[s].decoded by {
            assert(crate::model::same_static_but_dispatch(u0[s], uops@[s]));
        }
    }
    assert(engine_ok(*pipeline, iq@, rob@, uops@));
    let ghost n = uops@.len();
    let ghost p0 = *pipeline;
    let ghost rob0 = rob@;
    advance_frontend(pipeline, rob);
    let ghost s2 = EngineSnap { p: *pipeline, iq: iq@, rob: rob@, uops: uops@, ..base };
    assert(step_ok(19, cycle, lane, options, s1, s2)) by {
        reveal(step_ok);
    }
    proof {
        assert(stages_below(p0.frontend_view(), n)) by {
            assert forall|i: int| 0 <= i < p0.frontend_view().len() implies seqs_below(#[trigger] p0.frontend_view()[i], n) by {
                assert(p0.frontend_view()[i] == p0.frontend@[i]@);
            }
        }
        lemma_frontend_steps_below(p0.frontend_view(), rob0, (FRONTEND_STAGE_COUNT - 1) as int, n);
        assert forall|i: int| 0 <= i < FRONTEND_STAGE_COUNT implies seqs_below(#[trigger] pipeline.frontend@[i]@, n) by {
            assert(pipeline.frontend_view()[i] == pipeline.frontend@[i]@);
        }
    }
    proof {
        let chain = seq![s0, s1, s2];
        assert forall|k: int| 0 <= k < chain.len() - 1 implies step_ok(18 + k, cycle, lane, options, #[trigger] chain[k], chain[k + 1]) by {
            if k == 0 { assert(chain[0] == s0 && chain[1] == s1); }
            else { assert(chain[1] == s1 && chain[2] == s2); }
        }
        assert(chain_from(18, cycle, lane, options, chain));
    }
}

impl CycleEngine {
    /// Runs the pipeline model over the instruction stream of a functional
    /// run, for at most `options.max_cycles` cycles. It stops early when a
    /// trap retires or when every instruction of the stream has retired, and
    /// reports the retired commits, their decoded instructions and the trace.
    pub fn run(
        &self,
        image_name: String,
        entry_pc: u64,
        default_lane: &String,
        func: &RunResult,
        options: &CycleRunOptions,
    ) -> (bundle: CycleRunBundle)
        requires
            registers_in_range(func.commits@, crate::decode::decoded_views(func.decoded@)),
        ensures
            bundle.result.image_name@ == image_name@,
            bundle.result.entry_pc == entry_pc,
            bundle.result.metrics.engine == EngineKind::Cycle,
            bundle.result.metrics.commits == bundle.result.commits@.len(),
            bundle.result.decoded@.len() == bundle.result.commits@.len(),
            (func.commits@.len() == 0 || func.decoded@.len() == 0) ==> {
                &&& bundle.result.metrics.cycles == 0
                &&& bundle.result.commits@.len() == 0
                &&& bundle.stage_events@.len() == 0
                &&& bundle.result.metrics.exit_reason@ == func.metrics.exit_reason@
            },
            (func.commits@.len() > 0 && func.decoded@.len() > 0) ==> {
                &&& bundle.result.metrics.cycles == reported_cycles(
                    bundle.result.metrics.exit_reason@,
                    options.max_cycles,
                    bundle.result.commits@,
                )
                &&& (bundle.result.commits@.len() == func.commits@.len() ==> bundle.result.metrics.exit_reason@
                    == func.metrics.exit_reason@)
                &&& (bundle.result.commits@.len() != func.commits@.len() ==> {
                    ||| bundle.result.metrics.exit_reason@ == "cycle_limit"@
                    ||| exists|cause: u64| bundle.result.metrics.exit_reason@ == #[trigger] trap_exit_reason(cause)
                })
                &&& forall|i: int| 0 <= i < bundle.result.commits@.len() ==> exists|s: int| {
                    &&& 0 <= s < func.commits@.len()
                    &&& s < func.decoded@.len()
                    &&& retired_as(#[trigger] bundle.result.commits@[i], func.commits@[s])
                    &&& bundle.result.decoded@[i]@ == func.decoded@[s]@
                }
                &&& forall|i: int| 0 <= i < bundle.result.commits@.len() ==> (#[trigger] bundle.result.commits@[i]).cycle
                    < options.max_cycles
                &&& forall|i: int, j: int|
                    0 <= i <= j < bundle.result.commits@.len() ==> (#[trigger] bundle.result.commits@[i]).cycle
                        <= (#[trigger] bundle.result.commits@[j]).cycle
                &&& exists|init: EngineSnap, log: Seq<Seq<EngineSnap>>| {
                    &&& run_start_ok(init, func.commits@, func.decoded@)
                    &&& #[trigger] run_log_ok(default_lane@, *options, func.commits@.len(), init, log)
                    &&& bundle.result.commits@ == run_end(init, log).committed
                    &&& bundle.stage_events@ == run_end(init, log).events
                    &&& bundle.result.metrics.exit_reason@ == run_exit(run_end(init, log), func.commits@.len(), func.metrics.exit_reason@)
                    &&& forall|i: int| 0 <= i < bundle.result.decoded@.len() ==> (#[trigger] bundle.result.decoded@[i])@
                        == run_end(init, log).uops[run_end(init, log).retired[i] as int].decoded@
                }
            },
    {
        let mut uops = build_uops(&func.commits, &func.decoded);
        if uops.len() == 0 {
            return CycleRunBundle {
                result: RunResult {
                    image_name,
                    entry_pc,
                    metrics: RunMetrics {
                        engine: EngineKind::Cycle,
                        cycles: 0,
                        commits: 0,
                        exit_reason: func.metrics.exit_reason.clone(),
                    },
                    commits: Vec::new(),
                    decoded: Vec::new(),
                },
                stage_events: Vec::new(),
            };
        }
        let ghost n = uops@.len();
        let ghost u_init = uops@;
        let ghost lane = default_lane@;
        let mut stage_events: Vec<StageTraceEvent> = Vec::new();
        let mut pipeline = StageQueues::default();
        let mut iq: Vec<IqEntry> = Vec::new();
        let mut rob: VecDeque<usize> = VecDeque::new();
        let mut committed: Vec<CommitRecord> = Vec::new();
        let mut retired_seqs: Vec<usize> = Vec::new();
        let mut next_fetch_seq: usize = 0;
        let mut exit_reason = String::from_str("cycle_limit");
        let target_commit_count = func.commits.len();
        let max_cycles = options.max_cycles;
        let mut cycle: u64 = 0;
        let ghost target: nat = func.commits@.len();
        let ghost init = EngineSnap {
            p: pipeline,
            iq: iq@,
            rob: rob@,
            uops: uops@,
            committed: committed@,
            retired: retired_seqs@,
            next_fetch: next_fetch_seq,
            events: stage_events@,
            trap: None,
        };
        let ghost mut log: Seq<Seq<EngineSnap>> = Seq::empty();
        let ghost mut last_trap: Option<u64> = None;
        proof {
            assert(lsids_below_max(uops@)) by {
                assert forall|s: int| 0 <= s < uops@.len() implies ((#[trigger] uops@[s]).load_store_id matches Some(
                    id,
                ) ==> id < usize::MAX) by {
                    assert(uops@.len() <= usize::MAX);
                }
            }
        }
        while cycle < max_cycles
            invariant_except_break
                exit_reason@ == "cycle_limit"@,
                committed_ok(committed@, retired_seqs@, uops@, cycle as int),
                log.len() == cycle,
                log.len() > 0 ==> cycle_goes_on(log.last(), target),
                last_trap is None,
            invariant
                engine_ok(pipeline, iq@, rob@, uops@),
                uops@.len() == n,
                n > 0,
                same_records(u_init, uops@),
                cycle <= max_cycles,
                max_cycles == options.max_cycles,
                target_commit_count == func.commits@.len(),
                target == func.commits@.len(),
                lane == default_lane@,
                log_prefix_ok(lane, *options, target, init, log),
                run_end(init, log) == (EngineSnap {
                    p: pipeline,
                    iq: iq@,
                    rob: rob@,
                    uops: uops@,
                    committed: committed@,
                    retired: retired_seqs@,
                    next_fetch: next_fetch_seq,
                    events: stage_events@,
                    trap: last_trap,
                }),
            ensures
                engine_ok(pipeline, iq@, rob@, uops@),
                uops@.len() == n,
                same_records(u_init, uops@),
                committed_ok(committed@, retired_seqs@, uops@, max_cycles as int),
                ({
                    ||| exit_reason@ == "cycle_limit"@
                    ||| committed@.len() == func.commits@.len()
                    ||| exists|cause: u64| exit_reason@ == #[trigger] trap_exit_reason(cause)
                }),
                run_log_ok(lane, *options, target, init, log),
                last_trap matches Some(c) ==> exit_reason@ == trap_exit_reason(c),
                last_trap is None && committed@.len() != target ==> exit_reason@ == "cycle_limit"@,
            decreases max_cycles - cycle,
        {
            let ghost ub = uops@;
            let ghost start = run_end(init, log);
            begin_cycle(
                cycle,
                default_lane,
                &mut pipeline,
                &mut iq,
                &mut rob,
                &mut uops,
                &mut next_fetch_seq,
                &mut stage_events,
                Ghost(start),
                Ghost(*options),
            );
            let ghost sb = choose|s: Seq<EngineSnap>| {
                &&& #[trigger] chain_from(0, cycle, lane, *options, s)
                &&& s.len() == 10
                &&& s[0] == engine_snap(start.p, start.iq, start.rob, start.uops, start.next_fetch, start.events, start)
                &&& s[9] == engine_snap(pipeline, iq@, rob@, uops@, next_fetch_seq, stage_events@, start)
            };
            assert(sb[0] == start);
            proof {
                lemma_records_move(committed@, retired_seqs@, ub, uops@, cycle as int, cycle as int + 1);
                lemma_same_records_trans(u_init, ub, uops@);
            }
            let ghost st0 = crate::commit::retire_start(pipeline, rob@, committed@, retired_seqs@, stage_events@);
            let ghost pr = pipeline;
            let trap_retired = retire_ready(
                cycle,
                default_lane,
                &mut rob,
                &mut committed,
                &mut retired_seqs,
                &mut pipeline,
                &uops,
                &mut stage_events,
            );
            let ghost s10 = EngineSnap {
                p: pipeline,
                iq: iq@,
                rob: rob@,
                uops: uops@,
                committed: committed@,
                retired: retired_seqs@,
                next_fetch: next_fetch_seq,
                events: stage_events@,
                trap: trap_retired,
            };
            assert(step_ok(9, cycle, lane, *options, sb[9], s10)) by {
                reveal(step_ok);
            }
            let ghost c10 = sb.push(s10);
            proof {
                lemma_chain_append(0, cycle, lane, *options, sb, seq![sb[9], s10]);
                assert(seq![sb[9], s10].skip(1) =~= seq![s10]);
                assert(sb + seq![s10] =~= c10);
            }
            proof {
                lemma_retire_run_ok(cycle, default_lane@, pr, uops@, st0, COMMIT_WIDTH as nat);
            }
            assert(engine_ok(pipeline, iq@, rob@, uops@));
            proof {
                lemma_records_move(committed@, retired_seqs@, uops@, uops@, cycle as int + 1, max_cycles as int);
            }
            if let Some(cause) = trap_retired {
                exit_reason = trap_exit_text(cause);
                proof {
                    assert(cycle_shape_ok(c10, target));
                    lemma_log_push(lane, *options, target, init, log, c10);
                    log = log.push(c10);
                    last_trap = Some(cause);
                }
                break;
            }
            schedule_frontend_redirect_recovery(cycle, &mut pipeline, &uops);
            let ghost s11 = EngineSnap {
                p: pipeline,
                iq: iq@,
                rob: rob@,
                uops: uops@,
                committed: committed@,
                retired: retired_seqs@,
                next_fetch: next_fetch_seq,
                events: stage_events@,
                trap: None,
            };
            assert(step_ok(10, cycle, lane, *options, s10, s11)) by {
                reveal(step_ok);
            }
            let ghost c11 = c10.push(s11);
            proof {
                lemma_chain_append(0, cycle, lane, *options, c10, seq![s10, s11]);
                assert(seq![s10, s11].skip(1) =~= seq![s11]);
                assert(c10 + seq![s11] =~= c11);
            }
            assert(engine_ok(pipeline, iq@, rob@, uops@));

            if committed.len() == target_commit_count {
                exit_reason = func.metrics.exit_reason.clone();
                proof {
                    assert(cycle_shape_ok(c11, target));
                    lemma_log_push(lane, *options, target, init, log, c11);
                    log = log.push(c11);
                }
                break;
            }

            let ghost um = uops@;
            advance_memory_side(cycle, &mut pipeline, &iq, &rob, &mut uops, options, Ghost(s11), Ghost(lane));
            let ghost sm = choose|s: Seq<EngineSnap>| {
                &&& #[trigger] chain_from(11, cycle, lane, *options, s)
                &&& s.len() == 4
                &&& s[0] == EngineSnap { p: s11.p, iq: iq@, rob: rob@, uops: um, ..s11 }
                &&& s[3] == EngineSnap { p: pipeline, iq: iq@, rob: rob@, uops: uops@, ..s11 }
            };
            let ghost c14 = c11 + sm.skip(1);
            proof {
                assert(sm[0] == s11);
                lemma_chain_append(0, cycle, lane, *options, c11, sm);
            }
            let ghost s14 = sm[3];
            advance_issue_side(cycle, &mut pipeline, &mut iq, &rob, &uops, Ghost(s14), Ghost(lane), Ghost(*options));
            let ghost si = choose|s: Seq<EngineSnap>| {
                &&& #[trigger] chain_from(14, cycle, lane, *options, s)
                &&& s.len() == 5
                &&& s[0] == EngineSnap { p: s14.p, iq: s14.iq, rob: rob@, uops: uops@, ..s14 }
                &&& s[4] == EngineSnap { p: pipeline, iq: iq@, rob: rob@, uops: uops@, ..s14 }
            };
            let ghost c18 = c14 + si.skip(1);
            proof {
                assert(si[0] == s14);
                assert(c14.last() == s14);
                lemma_chain_append(0, cycle, lane, *options, c14, si);
            }
            let ghost s18 = si[4];
            let ghost ud = uops@;
            advance_dispatch_side(cycle, &mut pipeline, &mut iq, &mut rob, &mut uops, Ghost(s18), Ghost(lane), Ghost(*options));
            let ghost sd = choose|s: Seq<EngineSnap>| {
                &&& #[trigger] chain_from(18, cycle, lane, *options, s)
                &&& s.len() == 3
                &&& s[0] == EngineSnap { p: s18.p, iq: s18.iq, rob: s18.rob, uops: ud, ..s18 }
                &&& s[2] == EngineSnap { p: pipeline, iq: iq@, rob: rob@, uops: uops@, ..s18 }
            };
            let ghost c21 = c18 + sd.skip(1);
            proof {
                assert(sd[0] == s18);
                assert(c18.last() == s18);
                lemma_chain_append(0, cycle, lane, *options, c18, sd);
                assert(c21.len() == 21);
                assert(c21[10] == s10);
                assert(c21[11] == s11);
                assert(c21.last() == sd[2]);
                assert(sd[2].committed == committed@);
                assert(cycle_shape_ok(c21, target));
            }
            proof {
                lemma_same_records_trans(um, ud, uops@);
                lemma_records_move(committed@, retired_seqs@, um, uops@, cycle as int + 1, cycle as int + 1);
                lemma_same_records_trans(u_init, um, uops@);
                lemma_records_move(committed@, retired_seqs@, uops@, uops@, cycle as int + 1, max_cycles as int);
                lemma_log_push(lane, *options, target, init, log, c21);
                log = log.push(c21);
            }
            if committed.len() == target_commit_count {
                exit_reason = func.metrics.exit_reason.clone();
                break;
            }
            cycle += 1;
        }
        if committed.len() == target_commit_count {
            exit_reason = func.metrics.exit_reason.clone();
        }
        let mut decoded: Vec<DecodedInstruction> = Vec::new();
        let mut k: usize = 0;
        while k < retired_seqs.len()
            invariant
                k <= retired_seqs@.len(),
                decoded@.len() == k,
                seqs_below(retired_seqs@, n),
                uops@.len() == n,
                forall|j: int| 0 <= j < k ==> (#[trigger] decoded@[j])@ == uops@[retired_seqs@[j] as int].decoded@,
            decreases retired_seqs@.len() - k,
        {
            let seq = retired_seqs[k];
            decoded.push(uops[seq].decoded.clone());
            k += 1;
        }
        let cycles = if text_is(&exit_reason, "cycle_limit") {
            max_cycles
        } else if committed.len() > 0 {
            committed[committed.len() - 1].cycle.saturating_add(1)
        } else {
            max_cycles
        };
        assert(committed@.len() > 0 ==> committed@.last() == committed@[committed@.len() - 1]);
        proof {
            assert forall|i: int| 0 <= i < committed@.len() implies exists|s: int| {
                &&& 0 <= s < func.commits@.len()
                &&& s < func.decoded@.len()
                &&& retired_as(#[trigger] committed@[i], func.commits@[s])
                &&& decoded@[i]@ == func.decoded@[s]@
            } by {
                let s = retired_seqs@[i] as int;
                assert(retired_as(committed@[i], uops@[s].commit));
                assert(crate::decode::built_uop(
                    u_init[s],
                    func.commits@,
                    crate::decode::decoded_views(func.decoded@),
                    s,
                ));
                assert(u_init[s].commit == uops@[s].commit && u_init[s].decoded == uops@[s].decoded);
                assert(decoded@[i]@ == uops@[s].decoded@);
            }
            assert(run_start_ok(init, func.commits@, func.decoded@));
        }
        let commits_len = committed.len() as u64;
        let result = RunResult {
            image_name,
            entry_pc,
            metrics: RunMetrics { engine: EngineKind::Cycle, cycles, commits: commits_len, exit_reason },
            commits: committed,
            decoded,
        };
        let bundle = CycleRunBundle { result, stage_events };
        proof {
            assert(run_log_ok(lane, *options, target, init, log));
        }
        bundle
    }
}

} // verus!
