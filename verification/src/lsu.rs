use vstd::prelude::*;
use std::collections::VecDeque;
use vstd::multiset::Multiset;
use crate::config::{CycleRunOptions, ISSUE_WIDTH, L1D_WIDTH, LSU_WIDTH};
use crate::lsu_queues::{
    can_accept_l1d, drop_seq, lemma_drop_seq, lhq_insert, lsid_cache_ready, remove_mdb_entry, remove_queue_entry,
    scb_entry_drain_ready, spec_lsid_ready,
};
use crate::model::{
    CycleUop, L1dEntry, L1dTxnKind, LiqEntry, MdbEntry, ScbEntry, StageQueues, lemma_same_static_wf,
    same_static, same_static_seq, seqs_below, uops_wf,
};
use crate::select::{should_inject_load_miss, spec_should_inject};
use crate::stages::{advance_simple, spec_moved};

verus! {

broadcast use vstd::seq_lib::group_seq_properties;

// ---------------------------------------------------------------------------
// Execute: W1 -> W2, E4 -> L1D (or a miss into the load-issue queue),
// E3 -> E4, E2 -> E3, E1 -> E2 (loads) or W1 (everything else).
// ---------------------------------------------------------------------------

/// The cycle in which a load that misses now may retry.
pub open spec fn miss_restart_cycle(cycle: u64, penalty: u64) -> u64 {
    cycle.saturating_add(if penalty >= 1 { penalty } else { 1 })
}

/// A load after an injected miss: it waits for its refill and loses every
/// timing mark of its first attempt.
pub open spec fn with_miss_injected(u: CycleUop, restart: u64) -> CycleUop {
    CycleUop {
        miss_injected: true,
        miss_pending_until: Some(restart),
        pick_wakeup_visible: None,
        data_ready_visible: None,
        e1_cycle: None,
        e4_cycle: None,
        w1_cycle: None,
        done_cycle: None,
        ..u
    }
}

pub struct E4Fold {
    pub uops: Seq<CycleUop>,
    pub liq: Seq<LiqEntry>,
    pub mdb: Seq<MdbEntry>,
    pub lhq: Seq<usize>,
    pub l1d: Seq<L1dEntry>,
    pub stay: Seq<usize>,
}

pub open spec fn e4_step(cycle: u64, opts: CycleRunOptions, cache_ptr: usize, st: E4Fold, s: usize) -> E4Fold {
    if spec_should_inject(st.uops[s as int], opts.load_miss_every) {
        let r = miss_restart_cycle(cycle, opts.load_miss_penalty);
        E4Fold {
            uops: st.uops.update(s as int, with_miss_injected(st.uops[s as int], r)),
            liq: st.liq.push(LiqEntry { seq: s, refill_ready_cycle: r }),
            mdb: st.mdb.push(MdbEntry { seq: s, refill_ready_cycle: r }),
            lhq: drop_seq(st.lhq, s),
            ..st
        }
    } else if spec_lsid_ready(st.uops, s as int, cache_ptr) && st.l1d.len() < L1D_WIDTH {
        E4Fold {
            uops: st.uops.update(s as int, CycleUop { miss_pending_until: None, ..st.uops[s as int] }),
            l1d: st.l1d.push(L1dEntry { seq: s, kind: L1dTxnKind::LoadHit, ready_cycle: cycle.saturating_add(1) }),
            ..st
        }
    } else {
        E4Fold { stay: st.stay.push(s), ..st }
    }
}

/// The first `k` E4 micro-ops handled in order.
pub open spec fn e4_fold(cycle: u64, opts: CycleRunOptions, cache_ptr: usize, init: E4Fold, e4: Seq<usize>, k: int) -> E4Fold
    decreases k,
{
    if k <= 0 {
        init
    } else {
        e4_step(cycle, opts, cache_ptr, e4_fold(cycle, opts, cache_ptr, init, e4, k - 1), e4[k - 1])
    }
}

proof fn lemma_e4_fold_shape(cycle: u64, opts: CycleRunOptions, cache_ptr: usize, init: E4Fold, e4: Seq<usize>, k: int)
    requires
        0 <= k <= e4.len(),
        seqs_below(e4, init.uops.len()),
    ensures
        same_static_seq(init.uops, e4_fold(cycle, opts, cache_ptr, init, e4, k).uops),
        e4_fold(cycle, opts, cache_ptr, init, e4, k).liq.len() >= init.liq.len(),
        forall|i: int| 0 <= i < init.liq.len() ==> #[trigger] e4_fold(cycle, opts, cache_ptr, init, e4, k).liq[i] == init.liq[i],
        forall|i: int| init.liq.len() <= i < e4_fold(cycle, opts, cache_ptr, init, e4, k).liq.len()
            ==> (#[trigger] e4_fold(cycle, opts, cache_ptr, init, e4, k).liq[i].seq as int) < init.uops.len(),
        e4_fold(cycle, opts, cache_ptr, init, e4, k).mdb.len() >= init.mdb.len(),
        forall|i: int| 0 <= i < init.mdb.len() ==> #[trigger] e4_fold(cycle, opts, cache_ptr, init, e4, k).mdb[i] == init.mdb[i],
        forall|i: int| init.mdb.len() <= i < e4_fold(cycle, opts, cache_ptr, init, e4, k).mdb.len()
            ==> (#[trigger] e4_fold(cycle, opts, cache_ptr, init, e4, k).mdb[i].seq as int) < init.uops.len(),
        e4_fold(cycle, opts, cache_ptr, init, e4, k).l1d.len() >= init.l1d.len(),
        forall|i: int| 0 <= i < init.l1d.len() ==> #[trigger] e4_fold(cycle, opts, cache_ptr, init, e4, k).l1d[i] == init.l1d[i],
        forall|i: int| init.l1d.len() <= i < e4_fold(cycle, opts, cache_ptr, init, e4, k).l1d.len()
            ==> (#[trigger] e4_fold(cycle, opts, cache_ptr, init, e4, k).l1d[i].seq as int) < init.uops.len(),
        forall|x: usize| e4_fold(cycle, opts, cache_ptr, init, e4, k).lhq.contains(x) ==> init.lhq.contains(x),
        forall|x: usize| e4_fold(cycle, opts, cache_ptr, init, e4, k).stay.contains(x) ==> init.stay.contains(x) || e4.contains(x),
    decreases k,
{
    if k > 0 {
        lemma_e4_fold_shape(cycle, opts, cache_ptr, init, e4, k - 1);
        let p = e4_fold(cycle, opts, cache_ptr, init, e4, k - 1);
        let s = e4[k - 1];
        assert(e4.contains(s));
        lemma_drop_seq(p.lhq, s);
        let f = e4_fold(cycle, opts, cache_ptr, init, e4, k);
        assert(same_static_seq(init.uops, f.uops)) by {
            assert(same_static_seq(init.uops, p.uops));
            assert forall|i: int| 0 <= i < init.uops.len() implies same_static(#[trigger] init.uops[i], f.uops[i]) by {
                assert(same_static(init.uops[i], p.uops[i]));
            }
        }
    }
}

pub struct E1Fold {
    pub e2: Seq<usize>,
    pub w1: Seq<usize>,
    pub stay: Seq<usize>,
}

pub open spec fn e1_step(uops: Seq<CycleUop>, st: E1Fold, s: usize) -> E1Fold {
    if uops[s as int].is_load {
        if st.e2.len() < LSU_WIDTH {
            E1Fold { e2: st.e2.push(s), ..st }
        } else {
            E1Fold { stay: st.stay.push(s), ..st }
        }
    } else if st.w1.len() < ISSUE_WIDTH {
        E1Fold { w1: st.w1.push(s), ..st }
    } else {
        E1Fold { stay: st.stay.push(s), ..st }
    }
}

/// The first `k` E1 micro-ops handled in order.
pub open spec fn e1_fold(uops: Seq<CycleUop>, init: E1Fold, e1: Seq<usize>, k: int) -> E1Fold
    decreases k,
{
    if k <= 0 {
        init
    } else {
        e1_step(uops, e1_fold(uops, init, e1, k - 1), e1[k - 1])
    }
}

proof fn lemma_e1_fold_elems(uops: Seq<CycleUop>, init: E1Fold, e1: Seq<usize>, k: int)
    requires
        0 <= k <= e1.len(),
    ensures
        ({
            let f = e1_fold(uops, init, e1, k);
            &&& forall|x: usize| f.e2.contains(x) ==> init.e2.contains(x) || e1.contains(x)
            &&& forall|x: usize| f.w1.contains(x) ==> init.w1.contains(x) || e1.contains(x)
            &&& forall|x: usize| f.stay.contains(x) ==> init.stay.contains(x) || e1.contains(x)
        }),
    decreases k,
{
    if k > 0 {
        lemma_e1_fold_elems(uops, init, e1, k - 1);
        assert(e1.contains(e1[k - 1]));
    }
}

proof fn lemma_seqs_below_contains(q: Seq<usize>, n: nat, r: Seq<usize>)
    requires
        forall|x: usize| q.contains(x) ==> r.contains(x),
        seqs_below(r, n),
    ensures
        seqs_below(q, n),
{
    assert forall|i: int| 0 <= i < q.len() implies (q[i] as int) < n by {
        assert(q.contains(q[i]));
        let j = choose|j: int| 0 <= j < r.len() && r[j] == q[i];
    }
}

} // verus!

verus! {

/// What the execute stages do to the pipeline and the micro-op records.
pub open spec fn execute_post(cycle: u64, options: CycleRunOptions, p_old: StageQueues, uops_old: Seq<CycleUop>, p_new: StageQueues, uops_new: Seq<CycleUop>) -> bool {
    &&& ({
        let w = spec_moved(0, p_old.w1@.len() as int, ISSUE_WIDTH as int);
        let init4 = E4Fold {
            uops: uops_old,
            liq: p_old.liq@,
            mdb: p_old.mdb@,
            lhq: p_old.lhq@,
            l1d: p_old.l1d@,
            stay: Seq::empty(),
        };
        let f4 = e4_fold(cycle, options, p_old.lsid_cache_ptr, init4, p_old.e4@, p_old.e4@.len() as int);
        let k3 = spec_moved(f4.stay.len() as int, p_old.e3@.len() as int, LSU_WIDTH as int);
        let e3_mid = p_old.e3@.skip(k3);
        let k2 = spec_moved(e3_mid.len() as int, p_old.e2@.len() as int, LSU_WIDTH as int);
        let init1 = E1Fold { e2: p_old.e2@.skip(k2), w1: p_old.w1@.skip(w), stay: Seq::empty() };
        let f1 = e1_fold(f4.uops, init1, p_old.e1@, p_old.e1@.len() as int);
        &&& p_new.w2@ == p_old.w1@.take(w)
        &&& uops_new == f4.uops
        &&& p_new.liq@ == f4.liq
        &&& p_new.mdb@ == f4.mdb
        &&& p_new.lhq@ == f4.lhq
        &&& p_new.l1d@ == f4.l1d
        &&& p_new.e4@ == f4.stay + p_old.e3@.take(k3)
        &&& p_new.e3@ == e3_mid + p_old.e2@.take(k2)
        &&& p_new.e2@ == f1.e2
        &&& p_new.w1@ == f1.w1
        &&& p_new.e1@ == f1.stay
    })
    &&& p_new.same_front_and_issue(&p_old)
    &&& p_new.stq == p_old.stq
    &&& p_new.scb == p_old.scb
    &&& p_new.lsid_cache_ptr == p_old.lsid_cache_ptr
    &&& same_static_seq(uops_old, uops_new)
    &&& p_new.wf(uops_new.len())
    &&& uops_wf(uops_new)
}

/// The execute and writeback stages of one cycle, oldest stage first:
/// W1 drains into W2; each E4 load either takes an injected miss (and goes
/// to the load-issue queue and miss-data buffer) or, in load/store order and
/// while the cache port is free, starts a cache hit; E3 -> E4 and E2 -> E3
/// move as far as the LSU width allows; E1 loads go to E2 and everything
/// else to W1, while there is room.
pub fn advance_execute(cycle: u64, pipeline: &mut StageQueues, uops: &mut Vec<CycleUop>, options: &CycleRunOptions)
    requires
        old(pipeline).wf(old(uops)@.len()),
        uops_wf(old(uops)@),
    ensures
        execute_post(cycle, *options, *old(pipeline), old(uops)@, *final(pipeline), final(uops)@),
{
    let ghost n = uops@.len();
    let ghost old_pipeline = *pipeline;
    pipeline.w2.clear();
    advance_simple(&mut pipeline.w2, &mut pipeline.w1, ISSUE_WIDTH);

    let ghost init4 = E4Fold {
        uops: uops@,
        liq: pipeline.liq@,
        mdb: pipeline.mdb@,
        lhq: pipeline.lhq@,
        l1d: pipeline.l1d@,
        stay: Seq::empty(),
    };
    let mut prev_e4: VecDeque<usize> = VecDeque::new();
    std::mem::swap(&mut prev_e4, &mut pipeline.e4);
    let ghost e40 = prev_e4@;
    let mut stay_e4: VecDeque<usize> = VecDeque::new();
    let cache_ptr = pipeline.lsid_cache_ptr;
    let mut k: usize = 0;
    while k < prev_e4.len()
        invariant
            k <= prev_e4@.len(),
            prev_e4@ == e40,
            seqs_below(e40, n),
            init4.uops.len() == n,
            uops@.len() == n,
            ({
                let f = e4_fold(cycle, *options, cache_ptr, init4, e40, k as int);
                &&& uops@ == f.uops
                &&& pipeline.liq@ == f.liq
                &&& pipeline.mdb@ == f.mdb
                &&& pipeline.lhq@ == f.lhq
                &&& pipeline.l1d@ == f.l1d
                &&& stay_e4@ == f.stay
            }),
            cache_ptr == pipeline.lsid_cache_ptr,
            pipeline.lsid_cache_ptr == old_pipeline.lsid_cache_ptr,
            pipeline.same_front_and_issue(&old_pipeline),
            pipeline.stq == old_pipeline.stq,
            pipeline.scb == old_pipeline.scb,
            pipeline.e1 == old_pipeline.e1,
            pipeline.e2 == old_pipeline.e2,
            pipeline.e3 == old_pipeline.e3,
            pipeline.w1@ == old_pipeline.w1@.skip(spec_moved(0, old_pipeline.w1@.len() as int, ISSUE_WIDTH as int)),
            pipeline.w2@ == old_pipeline.w1@.take(spec_moved(0, old_pipeline.w1@.len() as int, ISSUE_WIDTH as int)),
        decreases e40.len() - k,
    {
        let seq = prev_e4[k];
        assert((seq as int) < n);
        if should_inject_load_miss(seq, options, uops) {
            let penalty = if options.load_miss_penalty >= 1 { options.load_miss_penalty } else { 1 };
            let restart_cycle = cycle.saturating_add(penalty);
            let ghost before = uops@[seq as int];
            uops[seq].miss_injected = true;
            uops[seq].miss_pending_until = Some(restart_cycle);
            uops[seq].pick_wakeup_visible = None;
            uops[seq].data_ready_visible = None;
            uops[seq].e1_cycle = None;
            uops[seq].e4_cycle = None;
            uops[seq].w1_cycle = None;
            uops[seq].done_cycle = None;
            assert(uops@[seq as int] == with_miss_injected(before, restart_cycle));
            pipeline.liq.push_back(LiqEntry { seq, refill_ready_cycle: restart_cycle });
            pipeline.mdb.push_back(MdbEntry { seq, refill_ready_cycle: restart_cycle });
            remove_queue_entry(&mut pipeline.lhq, seq);
        } else if lsid_cache_ready(seq, cache_ptr, uops) && can_accept_l1d(&pipeline.l1d) {
            let ghost before = uops@[seq as int];
            uops[seq].miss_pending_until = None;
            assert(uops@[seq as int] == CycleUop { miss_pending_until: None, ..before });
            pipeline.l1d.push_back(L1dEntry { seq, kind: L1dTxnKind::LoadHit, ready_cycle: cycle.saturating_add(1) });
        } else {
            stay_e4.push_back(seq);
        }
        proof {
            assert(uops@ =~= e4_fold(cycle, *options, cache_ptr, init4, e40, k + 1).uops);
        }
        k += 1;
    }
    pipeline.e4 = stay_e4;
    let ghost f4 = e4_fold(cycle, *options, cache_ptr, init4, e40, e40.len() as int);
    proof {
        lemma_e4_fold_shape(cycle, *options, cache_ptr, init4, e40, e40.len() as int);
    }

    advance_simple(&mut pipeline.e4, &mut pipeline.e3, LSU_WIDTH);
    advance_simple(&mut pipeline.e3, &mut pipeline.e2, LSU_WIDTH);

    let ghost init1 = E1Fold { e2: pipeline.e2@, w1: pipeline.w1@, stay: Seq::empty() };
    let mut prev_e1: VecDeque<usize> = VecDeque::new();
    std::mem::swap(&mut prev_e1, &mut pipeline.e1);
    let ghost e10 = prev_e1@;
    let ghost mid = *pipeline;
    let mut stay_e1: VecDeque<usize> = VecDeque::new();
    let mut i: usize = 0;
    while i < prev_e1.len()
        invariant
            i <= prev_e1@.len(),
            prev_e1@ == e10,
            uops@ == f4.uops,
            pipeline.same_front_and_issue(&mid),
            pipeline.stq == mid.stq,
            pipeline.scb == mid.scb,
            pipeline.lsid_cache_ptr == mid.lsid_cache_ptr,
            pipeline.liq == mid.liq,
            pipeline.mdb == mid.mdb,
            pipeline.lhq == mid.lhq,
            pipeline.l1d == mid.l1d,
            pipeline.e4 == mid.e4,
            pipeline.e3 == mid.e3,
            pipeline.w2 == mid.w2,
            seqs_below(e10, n),
            uops@.len() == n,
            ({
                let f = e1_fold(uops@, init1, e10, i as int);
                &&& pipeline.e2@ == f.e2
                &&& pipeline.w1@ == f.w1
                &&& stay_e1@ == f.stay
            }),
        decreases e10.len() - i,
    {
        let seq = prev_e1[i];
        assert((seq as int) < n);
        if uops[seq].is_load {
            if pipeline.e2.len() < LSU_WIDTH {
                pipeline.e2.push_back(seq);
            } else {
                stay_e1.push_back(seq);
            }
        } else if pipeline.w1.len() < ISSUE_WIDTH {
            pipeline.w1.push_back(seq);
        } else {
            stay_e1.push_back(seq);
        }
        i += 1;
    }
    pipeline.e1 = stay_e1;
    proof {
        let f1 = e1_fold(uops@, init1, e10, e10.len() as int);
        lemma_e1_fold_elems(uops@, init1, e10, e10.len() as int);
        lemma_same_static_wf(old(uops)@, uops@);
        assert(seqs_below(old_pipeline.e2@, n));
        assert(seqs_below(init1.e2, n)) by {
            assert forall|x: usize| init1.e2.contains(x) implies old_pipeline.e2@.contains(x) by {
                let j = choose|j: int| 0 <= j < init1.e2.len() && init1.e2[j] == x;
            }
            lemma_seqs_below_contains(init1.e2, n, old_pipeline.e2@);
        }
        assert(seqs_below(init1.w1, n)) by {
            assert forall|x: usize| init1.w1.contains(x) implies old_pipeline.w1@.contains(x) by {
                let j = choose|j: int| 0 <= j < init1.w1.len() && init1.w1[j] == x;
            }
            lemma_seqs_below_contains(init1.w1, n, old_pipeline.w1@);
        }
        lemma_seqs_below_contains(f1.e2, n, init1.e2 + e10);
        lemma_seqs_below_contains(f1.w1, n, init1.w1 + e10);
        lemma_seqs_below_contains(f1.stay, n, e10);
        assert(init4.lhq == old_pipeline.lhq@);
        lemma_seqs_below_contains(f4.lhq, n, init4.lhq);
        lemma_seqs_below_contains(f4.stay, n, e40);
        assert(seqs_below(pipeline.e4@, n));
        assert(seqs_below(pipeline.e3@, n));
        assert(seqs_below(pipeline.w2@, n));
        assert(forall|i: int| 0 <= i < pipeline.liq@.len() ==> (#[trigger] pipeline.liq@[i]).seq < n);
        assert(forall|i: int| 0 <= i < pipeline.mdb@.len() ==> (#[trigger] pipeline.mdb@[i]).seq < n);
        assert(forall|i: int| 0 <= i < pipeline.l1d@.len() ==> (#[trigger] pipeline.l1d@[i]).seq < n);
    }
}

} // verus!

verus! {

// ---------------------------------------------------------------------------
// Load-issue queue: the oldest refilled load re-enters E1.
// ---------------------------------------------------------------------------

pub open spec fn liq_eligible(e: LiqEntry, cycle: u64, cache_ptr: usize, uops: Seq<CycleUop>) -> bool {
    e.refill_ready_cycle <= cycle && spec_lsid_ready(uops, e.seq as int, cache_ptr)
}

/// `i` is the first eligible entry of least ROB age.
pub open spec fn liq_first_oldest(
    liq: Seq<LiqEntry>,
    i: int,
    cycle: u64,
    cache_ptr: usize,
    uops: Seq<CycleUop>,
    rob: Seq<usize>,
) -> bool {
    &&& 0 <= i < liq.len()
    &&& liq_eligible(liq[i], cycle, cache_ptr, uops)
    &&& forall|j: int| 0 <= j < liq.len() && liq_eligible(#[trigger] liq[j], cycle, cache_ptr, uops)
        ==> crate::select::spec_rob_rank(rob, liq[i].seq) <= crate::select::spec_rob_rank(rob, liq[j].seq)
    &&& forall|j: int| 0 <= j < i && liq_eligible(#[trigger] liq[j], cycle, cache_ptr, uops)
        ==> crate::select::spec_rob_rank(rob, liq[i].seq) < crate::select::spec_rob_rank(rob, liq[j].seq)
}

pub open spec fn liq_any_eligible(liq: Seq<LiqEntry>, cycle: u64, cache_ptr: usize, uops: Seq<CycleUop>) -> bool {
    exists|j: int| 0 <= j < liq.len() && liq_eligible(#[trigger] liq[j], cycle, cache_ptr, uops)
}

fn select_liq_entry(
    cycle: u64,
    liq: &VecDeque<LiqEntry>,
    cache_ptr: usize,
    uops: &Vec<CycleUop>,
    rob: &VecDeque<usize>,
) -> (r: Option<usize>)
    requires
        forall|i: int| 0 <= i < liq@.len() ==> ((#[trigger] liq@[i]).seq as int) < uops@.len(),
    ensures
        match r {
            None => !liq_any_eligible(liq@, cycle, cache_ptr, uops@),
            Some(i) => liq_first_oldest(liq@, i as int, cycle, cache_ptr, uops@, rob@),
        },
{
    let mut best: Option<usize> = None;
    let mut best_rank: usize = 0;
    let mut i: usize = 0;
    while i < liq.len()
        invariant
            i <= liq@.len(),
            forall|j: int| 0 <= j < liq@.len() ==> ((#[trigger] liq@[j]).seq as int) < uops@.len(),
            match best {
                None => forall|j: int| 0 <= j < i ==> !liq_eligible(#[trigger] liq@[j], cycle, cache_ptr, uops@),
                Some(b) => {
                    &&& b < i
                    &&& liq_eligible(liq@[b as int], cycle, cache_ptr, uops@)
                    &&& best_rank == crate::select::spec_rob_rank(rob@, liq@[b as int].seq)
                    &&& forall|j: int| 0 <= j < i && liq_eligible(#[trigger] liq@[j], cycle, cache_ptr, uops@)
                        ==> best_rank <= crate::select::spec_rob_rank(rob@, liq@[j].seq)
                    &&& forall|j: int| 0 <= j < b && liq_eligible(#[trigger] liq@[j], cycle, cache_ptr, uops@)
                        ==> best_rank < crate::select::spec_rob_rank(rob@, liq@[j].seq)
                },
            },
        decreases liq@.len() - i,
    {
        let e = liq[i];
        if e.refill_ready_cycle <= cycle && lsid_cache_ready(e.seq, cache_ptr, uops) {
            let rank = crate::select::rob_age_rank(e.seq, rob);
            match best {
                None => {
                    best = Some(i);
                    best_rank = rank;
                },
                Some(_) => {
                    if rank < best_rank {
                        best = Some(i);
                        best_rank = rank;
                    }
                },
            }
        }
        i += 1;
    }
    best
}

/// What the load-issue queue step does to the pipeline and the micro-op
/// records.
pub open spec fn liq_post(cycle: u64, p_old: StageQueues, uops_old: Seq<CycleUop>, rob: Seq<usize>, p_new: StageQueues, uops_new: Seq<CycleUop>) -> bool {
    &&& (crate::lsu_queues::loads_in(p_old.e1@, uops_old) < LSU_WIDTH
        && liq_any_eligible(p_old.liq@, cycle, p_old.lsid_cache_ptr, uops_old)) <==> (exists|i: int|
        {
            &&& #[trigger] liq_first_oldest(p_old.liq@, i, cycle, p_old.lsid_cache_ptr, uops_old, rob)
            &&& ({
                let s = p_old.liq@[i].seq;
                &&& p_new.liq@ == p_old.liq@.remove(i)
                &&& uops_new == uops_old.update(s as int, CycleUop { miss_pending_until: None, ..uops_old[s as int] })
                &&& p_new.lhq@ == crate::issue::insert_once(p_old.lhq@, s)
                &&& p_new.mdb@ == p_old.mdb@.filter(|m: MdbEntry| m.seq != s)
                &&& p_new.e1@ == p_old.e1@.push(s)
            })
        })
    &&& !(crate::lsu_queues::loads_in(p_old.e1@, uops_old) < LSU_WIDTH
        && liq_any_eligible(p_old.liq@, cycle, p_old.lsid_cache_ptr, uops_old)) ==> {
        &&& p_new.liq == p_old.liq
        &&& uops_new == uops_old
        &&& p_new.lhq == p_old.lhq
        &&& p_new.mdb == p_old.mdb
        &&& p_new.e1 == p_old.e1
    }
    &&& p_new.same_front_and_issue(&p_old)
    &&& p_new.stq == p_old.stq
    &&& p_new.scb == p_old.scb
    &&& p_new.l1d == p_old.l1d
    &&& p_new.e2 == p_old.e2
    &&& p_new.e3 == p_old.e3
    &&& p_new.e4 == p_old.e4
    &&& p_new.w1 == p_old.w1
    &&& p_new.w2 == p_old.w2
    &&& p_new.lsid_cache_ptr == p_old.lsid_cache_ptr
    &&& same_static_seq(uops_old, uops_new)
    &&& p_new.wf(uops_new.len())
    &&& uops_wf(uops_new)
}

/// When E1 has a free load slot, the oldest load whose refill has arrived
/// (and whose turn it is in load/store order) leaves the load-issue queue:
/// its miss is over, it takes a load-hit-queue entry, its miss-data entry
/// goes, and it re-enters E1.
pub fn advance_liq(cycle: u64, pipeline: &mut StageQueues, uops: &mut Vec<CycleUop>, rob: &VecDeque<usize>)
    requires
        old(pipeline).wf(old(uops)@.len()),
        uops_wf(old(uops)@),
    ensures
        liq_post(cycle, *old(pipeline), old(uops)@, rob@, *final(pipeline), final(uops)@),
{
    let ghost n = uops@.len();
    if !crate::lsu_queues::load_slot_available(&pipeline.e1, uops) {
        return;
    }
    let Some(idx) = select_liq_entry(cycle, &pipeline.liq, pipeline.lsid_cache_ptr, uops, rob) else {
        return;
    };
    let ghost old_liq = pipeline.liq@;
    let selected = pipeline.liq.remove(idx).unwrap();
    let ghost before = uops@[selected.seq as int];
    uops[selected.seq].miss_pending_until = None;
    assert(uops@[selected.seq as int] == CycleUop { miss_pending_until: None, ..before });
    lhq_insert(&mut pipeline.lhq, selected.seq);
    remove_mdb_entry(&mut pipeline.mdb, selected.seq);
    pipeline.e1.push_back(selected.seq);
    proof {
        assert(same_static_seq(old(uops)@, uops@)) by {
            assert forall|i: int| 0 <= i < n implies same_static(#[trigger] old(uops)@[i], uops@[i]) by {}
        }
        lemma_same_static_wf(old(uops)@, uops@);
        assert forall|i: int| 0 <= i < pipeline.liq@.len() implies (#[trigger] pipeline.liq@[i]).seq < n by {
            if i < idx {
                assert(pipeline.liq@[i] == old_liq[i]);
            } else {
                assert(pipeline.liq@[i] == old_liq[i + 1]);
            }
        }
        assert forall|i: int| 0 <= i < pipeline.mdb@.len() implies (#[trigger] pipeline.mdb@[i]).seq < n by {
            let m = pipeline.mdb@[i];
            assert(pipeline.mdb@.contains(m));
            old(pipeline).mdb@.lemma_filter_contains_rev(|m: MdbEntry| m.seq != selected.seq, m);
        }
        assert(seqs_below(pipeline.lhq@, n));
        assert(seqs_below(pipeline.e1@, n));
    }
}

} // verus!

verus! {

// ---------------------------------------------------------------------------
// L1D: finished load hits write back; finished store drains retire.
// ---------------------------------------------------------------------------

pub struct L1dFold {
    pub l1d: Seq<L1dEntry>,
    pub lhq: Seq<usize>,
    pub w1: Seq<usize>,
    pub cache_ptr: usize,
}

pub open spec fn l1d_step(cycle: u64, st: L1dFold, e: L1dEntry) -> L1dFold {
    if e.ready_cycle > cycle {
        L1dFold { l1d: st.l1d.push(e), ..st }
    } else {
        match e.kind {
            L1dTxnKind::LoadHit => if st.w1.len() < ISSUE_WIDTH {
                L1dFold {
                    lhq: drop_seq(st.lhq, e.seq),
                    w1: st.w1.push(e.seq),
                    cache_ptr: st.cache_ptr.saturating_add(1),
                    ..st
                }
            } else {
                L1dFold { l1d: st.l1d.push(e), ..st }
            },
            L1dTxnKind::StoreDrain => L1dFold { cache_ptr: st.cache_ptr.saturating_add(1), ..st },
        }
    }
}

/// The first `k` transactions handled in order.
pub open spec fn l1d_fold(cycle: u64, init: L1dFold, txns: Seq<L1dEntry>, k: int) -> L1dFold
    decreases k,
{
    if k <= 0 {
        init
    } else {
        l1d_step(cycle, l1d_fold(cycle, init, txns, k - 1), txns[k - 1])
    }
}

proof fn lemma_l1d_fold_elems(cycle: u64, init: L1dFold, txns: Seq<L1dEntry>, k: int)
    requires
        0 <= k <= txns.len(),
    ensures
        forall|e: L1dEntry| l1d_fold(cycle, init, txns, k).l1d.contains(e) ==> init.l1d.contains(e) || txns.contains(e),
        forall|x: usize| l1d_fold(cycle, init, txns, k).lhq.contains(x) ==> init.lhq.contains(x),
        forall|x: usize| l1d_fold(cycle, init, txns, k).w1.contains(x) ==> init.w1.contains(x) || exists|j: int|
            0 <= j < txns.len() && (#[trigger] txns[j]).seq == x,
    decreases k,
{
    if k > 0 {
        lemma_l1d_fold_elems(cycle, init, txns, k - 1);
        let p = l1d_fold(cycle, init, txns, k - 1);
        assert(txns.contains(txns[k - 1]));
        lemma_drop_seq(p.lhq, txns[k - 1].seq);
        assert(txns[k - 1].seq == txns[k - 1].seq);
    }
}

/// What the L1D queue step does to the pipeline.
pub open spec fn l1d_post(cycle: u64, p_old: StageQueues, p_new: StageQueues) -> bool {
    &&& ({
        let init = L1dFold { l1d: Seq::empty(), lhq: p_old.lhq@, w1: p_old.w1@, cache_ptr: p_old.lsid_cache_ptr };
        let f = l1d_fold(cycle, init, p_old.l1d@, p_old.l1d@.len() as int);
        &&& p_new.l1d@ == f.l1d
        &&& p_new.lhq@ == f.lhq
        &&& p_new.w1@ == f.w1
        &&& p_new.lsid_cache_ptr == f.cache_ptr
    })
    &&& p_new.same_front_and_issue(&p_old)
    &&& p_new.stq == p_old.stq
    &&& p_new.scb == p_old.scb
    &&& p_new.liq == p_old.liq
    &&& p_new.mdb == p_old.mdb
    &&& p_new.e1 == p_old.e1
    &&& p_new.e2 == p_old.e2
    &&& p_new.e3 == p_old.e3
    &&& p_new.e4 == p_old.e4
    &&& p_new.w2 == p_old.w2
    &&& forall|n: nat| p_old.wf(n) ==> p_new.wf(n)
}

/// Cache transactions whose time has come finish, in order: a load hit
/// writes back through W1 while W1 has room, otherwise it waits; a store
/// drain retires. Each finished transaction advances the cache-order pointer.
pub fn advance_l1d(cycle: u64, pipeline: &mut StageQueues)
    ensures
        l1d_post(cycle, *old(pipeline), *final(pipeline)),
{
    let ghost old_pipeline = *pipeline;
    let mut remaining: VecDeque<L1dEntry> = VecDeque::new();
    std::mem::swap(&mut remaining, &mut pipeline.l1d);
    let ghost txns = remaining@;
    let ghost init = L1dFold { l1d: Seq::empty(), lhq: pipeline.lhq@, w1: pipeline.w1@, cache_ptr: pipeline.lsid_cache_ptr };
    assert(txns == old_pipeline.l1d@);
    assert(init.lhq == old_pipeline.lhq@ && init.w1 == old_pipeline.w1@);
    let mut k: usize = 0;
    while k < remaining.len()
        invariant
            k <= remaining@.len(),
            remaining@ == txns,
            ({
                let f = l1d_fold(cycle, init, txns, k as int);
                &&& pipeline.l1d@ == f.l1d
                &&& pipeline.lhq@ == f.lhq
                &&& pipeline.w1@ == f.w1
                &&& pipeline.lsid_cache_ptr == f.cache_ptr
            }),
            pipeline.same_front_and_issue(&old_pipeline),
            pipeline.stq == old_pipeline.stq,
            pipeline.scb == old_pipeline.scb,
            pipeline.liq == old_pipeline.liq,
            pipeline.mdb == old_pipeline.mdb,
            pipeline.e1 == old_pipeline.e1,
            pipeline.e2 == old_pipeline.e2,
            pipeline.e3 == old_pipeline.e3,
            pipeline.e4 == old_pipeline.e4,
            pipeline.w2 == old_pipeline.w2,
        decreases txns.len() - k,
    {
        let entry = remaining[k];
        if entry.ready_cycle > cycle {
            pipeline.l1d.push_back(entry);
        } else {
            match entry.kind {
                L1dTxnKind::LoadHit => {
                    if pipeline.w1.len() < ISSUE_WIDTH {
                        remove_queue_entry(&mut pipeline.lhq, entry.seq);
                        pipeline.w1.push_back(entry.seq);
                        pipeline.lsid_cache_ptr = pipeline.lsid_cache_ptr.saturating_add(1);
                    } else {
                        pipeline.l1d.push_back(entry);
                    }
                },
                L1dTxnKind::StoreDrain => {
                    pipeline.lsid_cache_ptr = pipeline.lsid_cache_ptr.saturating_add(1);
                },
            }
        }
        k += 1;
    }
    proof {
        lemma_l1d_fold_elems(cycle, init, txns, txns.len() as int);
        assert forall|n: nat| old_pipeline.wf(n) implies pipeline.wf(n) by {
            assert forall|i: int| 0 <= i < pipeline.l1d@.len() implies (#[trigger] pipeline.l1d@[i]).seq < n by {
                assert(pipeline.l1d@.contains(pipeline.l1d@[i]));
                assert(!init.l1d.contains(pipeline.l1d@[i]));
                assert(txns.contains(pipeline.l1d@[i]));
                let j = choose|j: int| 0 <= j < txns.len() && txns[j] == pipeline.l1d@[i];
            }
            lemma_seqs_below_contains(pipeline.lhq@, n, old_pipeline.lhq@);
            assert forall|i: int| 0 <= i < pipeline.w1@.len() implies (pipeline.w1@[i] as int) < n by {
                let x = pipeline.w1@[i];
                assert(pipeline.w1@.contains(x));
                if old_pipeline.w1@.contains(x) {
                    let j = choose|j: int| 0 <= j < old_pipeline.w1@.len() && old_pipeline.w1@[j] == x;
                } else {
                    let j = choose|j: int| 0 <= j < txns.len() && (#[trigger] txns[j]).seq == x;
                }
            }
        }
    }
}

} // verus!

verus! {

// ---------------------------------------------------------------------------
// Store-coalescing buffer: retired stores drain into free cache ports.
// ---------------------------------------------------------------------------

pub open spec fn scb_ready(e: ScbEntry, cycle: u64, cache_ptr: usize, uops: Seq<CycleUop>) -> bool {
    e.enqueue_cycle < cycle && spec_lsid_ready(uops, e.seq as int, cache_ptr)
}

/// Index of the first drain-ready entry of `scb`, from position `i` on.
pub open spec fn first_scb_ready(scb: Seq<ScbEntry>, cycle: u64, cache_ptr: usize, uops: Seq<CycleUop>, i: int) -> Option<int>
    decreases scb.len() - i,
{
    if i < 0 || i >= scb.len() {
        None
    } else if scb_ready(scb[i], cycle, cache_ptr, uops) {
        Some(i)
    } else {
        first_scb_ready(scb, cycle, cache_ptr, uops, i + 1)
    }
}

/// The buffer and the cache transactions after draining, while a cache port
/// is free, the first ready store each time.
pub open spec fn scb_drain(
    scb: Seq<ScbEntry>,
    l1d: Seq<L1dEntry>,
    cycle: u64,
    cache_ptr: usize,
    uops: Seq<CycleUop>,
) -> (Seq<ScbEntry>, Seq<L1dEntry>)
    decreases L1D_WIDTH - l1d.len(),
{
    if l1d.len() >= L1D_WIDTH {
        (scb, l1d)
    } else {
        match first_scb_ready(scb, cycle, cache_ptr, uops, 0) {
            None => (scb, l1d),
            Some(i) => scb_drain(
                scb.remove(i),
                l1d.push(L1dEntry { seq: scb[i].seq, kind: L1dTxnKind::StoreDrain, ready_cycle: cycle.saturating_add(1) }),
                cycle,
                cache_ptr,
                uops,
            ),
        }
    }
}

proof fn lemma_first_scb_ready(scb: Seq<ScbEntry>, cycle: u64, cache_ptr: usize, uops: Seq<CycleUop>, i: int)
    requires
        0 <= i <= scb.len(),
    ensures
        match first_scb_ready(scb, cycle, cache_ptr, uops, i) {
            None => forall|j: int| i <= j < scb.len() ==> !scb_ready(#[trigger] scb[j], cycle, cache_ptr, uops),
            Some(k) => i <= k < scb.len() && scb_ready(scb[k], cycle, cache_ptr, uops)
                && forall|j: int| i <= j < k ==> !scb_ready(#[trigger] scb[j], cycle, cache_ptr, uops),
        },
    decreases scb.len() - i,
{
    if i < scb.len() {
        lemma_first_scb_ready(scb, cycle, cache_ptr, uops, i + 1);
    }
}

fn find_scb_ready(scb: &VecDeque<ScbEntry>, cycle: u64, cache_ptr: usize, uops: &Vec<CycleUop>) -> (r: Option<usize>)
    requires
        forall|i: int| 0 <= i < scb@.len() ==> ((#[trigger] scb@[i]).seq as int) < uops@.len(),
    ensures
        r matches Some(i) ==> first_scb_ready(scb@, cycle, cache_ptr, uops@, 0) == Some(i as int),
        r is None ==> first_scb_ready(scb@, cycle, cache_ptr, uops@, 0) is None,
{
    let mut i: usize = 0;
    while i < scb.len()
        invariant
            i <= scb@.len(),
            forall|j: int| 0 <= j < scb@.len() ==> ((#[trigger] scb@[j]).seq as int) < uops@.len(),
            first_scb_ready(scb@, cycle, cache_ptr, uops@, 0) == first_scb_ready(scb@, cycle, cache_ptr, uops@, i as int),
        decreases scb@.len() - i,
    {
        let e = scb[i];
        if scb_entry_drain_ready(&e, cycle) && lsid_cache_ready(e.seq, cache_ptr, uops) {
            return Some(i);
        }
        i += 1;
    }
    None
}

/// What draining the coalescing buffer does to the pipeline.
pub open spec fn scb_post(cycle: u64, p_old: StageQueues, uops: Seq<CycleUop>, p_new: StageQueues) -> bool {
    &&& ({
        let r = scb_drain(p_old.scb@, p_old.l1d@, cycle, p_old.lsid_cache_ptr, uops);
        &&& p_new.scb@ == r.0
        &&& p_new.l1d@ == r.1
    })
    &&& p_new.same_front_and_issue(&p_old)
    &&& p_new.stq == p_old.stq
    &&& p_new.liq == p_old.liq
    &&& p_new.mdb == p_old.mdb
    &&& p_new.lhq == p_old.lhq
    &&& p_new.e1 == p_old.e1
    &&& p_new.e2 == p_old.e2
    &&& p_new.e3 == p_old.e3
    &&& p_new.e4 == p_old.e4
    &&& p_new.w1 == p_old.w1
    &&& p_new.w2 == p_old.w2
    &&& p_new.lsid_cache_ptr == p_old.lsid_cache_ptr
    &&& p_new.wf(uops.len())
}

/// Moves retired stores from the coalescing buffer into the cache while a
/// port is free: each time the first store that has waited a cycle and whose
/// turn it is in load/store order.
pub fn advance_scb(cycle: u64, pipeline: &mut StageQueues, uops: &Vec<CycleUop>)
    requires
        old(pipeline).wf(uops@.len()),
    ensures
        scb_post(cycle, *old(pipeline), uops@, *final(pipeline)),
{
    let ghost n = uops@.len();
    while can_accept_l1d(&pipeline.l1d)
        invariant
            pipeline.wf(n),
            uops@.len() == n,
            scb_drain(pipeline.scb@, pipeline.l1d@, cycle, pipeline.lsid_cache_ptr, uops@)
                == scb_drain(old(pipeline).scb@, old(pipeline).l1d@, cycle, old(pipeline).lsid_cache_ptr, uops@),
            pipeline.same_front_and_issue(&*old(pipeline)),
            pipeline.stq == old(pipeline).stq,
            pipeline.liq == old(pipeline).liq,
            pipeline.mdb == old(pipeline).mdb,
            pipeline.lhq == old(pipeline).lhq,
            pipeline.e1 == old(pipeline).e1,
            pipeline.e2 == old(pipeline).e2,
            pipeline.e3 == old(pipeline).e3,
            pipeline.e4 == old(pipeline).e4,
            pipeline.w1 == old(pipeline).w1,
            pipeline.w2 == old(pipeline).w2,
            pipeline.lsid_cache_ptr == old(pipeline).lsid_cache_ptr,
        ensures
            scb_drain(pipeline.scb@, pipeline.l1d@, cycle, pipeline.lsid_cache_ptr, uops@) == (pipeline.scb@, pipeline.l1d@),
        decreases L1D_WIDTH - pipeline.l1d@.len(),
    {
        let Some(idx) = find_scb_ready(&pipeline.scb, cycle, pipeline.lsid_cache_ptr, uops) else {
            break;
        };
        proof {
            lemma_first_scb_ready(pipeline.scb@, cycle, pipeline.lsid_cache_ptr, uops@, 0);
        }
        let ghost scb0 = pipeline.scb@;
        let entry = pipeline.scb.remove(idx).unwrap();
        pipeline.l1d.push_back(L1dEntry { seq: entry.seq, kind: L1dTxnKind::StoreDrain, ready_cycle: cycle.saturating_add(1) });
        proof {
            assert forall|i: int| 0 <= i < pipeline.scb@.len() implies (#[trigger] pipeline.scb@[i]).seq < n by {
                if i < idx {
                    assert(pipeline.scb@[i] == scb0[i]);
                } else {
                    assert(pipeline.scb@[i] == scb0[i + 1]);
                }
            }
        }
    }
}

// ---------------------------------------------------------------------------
// Store-to-load forwarding.
// ---------------------------------------------------------------------------

pub open spec fn spec_store_matches_load(uops: Seq<CycleUop>, store_seq: int, load_seq: int) -> bool {
    &&& uops[store_seq].is_store
    &&& uops[load_seq].is_load
    &&& uops[store_seq].commit.mem_addr == uops[load_seq].commit.mem_addr
    &&& uops[store_seq].commit.mem_size == uops[load_seq].commit.mem_size
}

/// A store feeds a load when both touch the same address with the same size.
pub fn store_matches_load(store_seq: usize, load_seq: usize, uops: &Vec<CycleUop>) -> (r: bool)
    requires
        store_seq < uops@.len(),
        load_seq < uops@.len(),
    ensures
        r == spec_store_matches_load(uops@, store_seq as int, load_seq as int),
{
    let store = &uops[store_seq].commit;
    let load = &uops[load_seq].commit;
    uops[store_seq].is_store && uops[load_seq].is_load && store.mem_addr == load.mem_addr && store.mem_size == load.mem_size
}

pub open spec fn spec_load_forward_visible(seq: usize, p: StageQueues, uops: Seq<CycleUop>) -> bool {
    &&& uops[seq as int].is_load
    &&& {
        ||| exists|i: int| 0 <= i < p.stq@.len() && #[trigger] p.stq@[i] < seq
            && spec_store_matches_load(uops, p.stq@[i] as int, seq as int)
        ||| exists|i: int| 0 <= i < p.scb@.len() && (#[trigger] p.scb@[i]).seq < seq
            && spec_store_matches_load(uops, p.scb@[i].seq as int, seq as int)
        ||| exists|i: int| 0 <= i < p.l1d@.len() && (#[trigger] p.l1d@[i]).kind == L1dTxnKind::StoreDrain
            && p.l1d@[i].seq < seq && spec_store_matches_load(uops, p.l1d@[i].seq as int, seq as int)
    }
}

/// Whether an older store that writes exactly what load `seq` reads is still
/// in the store queue, the coalescing buffer or draining into the cache.
pub fn load_forward_visible(seq: usize, pipeline: &StageQueues, uops: &Vec<CycleUop>) -> (r: bool)
    requires
        seq < uops@.len(),
        pipeline.wf(uops@.len()),
    ensures
        r == spec_load_forward_visible(seq, *pipeline, uops@),
{
    if !uops[seq].is_load {
        return false;
    }
    let mut i: usize = 0;
    while i < pipeline.stq.len()
        invariant
            i <= pipeline.stq@.len(),
            seq < uops@.len(),
            pipeline.wf(uops@.len()),
            forall|j: int| 0 <= j < i ==> !(#[trigger] pipeline.stq@[j] < seq
                && spec_store_matches_load(uops@, pipeline.stq@[j] as int, seq as int)),
        decreases pipeline.stq@.len() - i,
    {
        let s = pipeline.stq[i];
        if s < seq && store_matches_load(s, seq, uops) {
            return true;
        }
        i += 1;
    }
    let mut i: usize = 0;
    while i < pipeline.scb.len()
        invariant
            i <= pipeline.scb@.len(),
            seq < uops@.len(),
            pipeline.wf(uops@.len()),
            forall|j: int| 0 <= j < i ==> !((#[trigger] pipeline.scb@[j]).seq < seq
                && spec_store_matches_load(uops@, pipeline.scb@[j].seq as int, seq as int)),
        decreases pipeline.scb@.len() - i,
    {
        let s = pipeline.scb[i].seq;
        if s < seq && store_matches_load(s, seq, uops) {
            return true;
        }
        i += 1;
    }
    let mut i: usize = 0;
    while i < pipeline.l1d.len()
        invariant
            i <= pipeline.l1d@.len(),
            seq < uops@.len(),
            pipeline.wf(uops@.len()),
            forall|j: int| 0 <= j < i ==> !((#[trigger] pipeline.l1d@[j]).kind == L1dTxnKind::StoreDrain
                && pipeline.l1d@[j].seq < seq && spec_store_matches_load(uops@, pipeline.l1d@[j].seq as int, seq as int)),
        decreases pipeline.l1d@.len() - i,
    {
        let e = pipeline.l1d[i];
        if e.kind == L1dTxnKind::StoreDrain && e.seq < seq && store_matches_load(e.seq, seq, uops) {
            return true;
        }
        i += 1;
    }
    false
}

} // verus!

verus! {

/// The micro-ops of a queue, counted with multiplicity.
pub open spec fn seq_bag(q: Seq<usize>) -> Multiset<usize> {
    q.to_multiset()
}

/// The micro-ops that the L1D queue entries belong to.
pub open spec fn l1d_seqs(q: Seq<L1dEntry>) -> Seq<usize> {
    q.map_values(|e: L1dEntry| e.seq)
}

/// The micro-ops that the load-issue queue entries belong to.
pub open spec fn liq_seqs(q: Seq<LiqEntry>) -> Seq<usize> {
    q.map_values(|e: LiqEntry| e.seq)
}

proof fn lemma_push_bag(q: Seq<usize>, x: usize)
    ensures
        seq_bag(q.push(x)) =~= seq_bag(q).insert(x),
{
    q.to_multiset_ensures();
}

proof fn lemma_empty_bag()
    ensures
        seq_bag(Seq::<usize>::empty()) =~= Multiset::<usize>::empty(),
{
    broadcast use vstd::multiset::group_multiset_axioms, vstd::seq_lib::group_to_multiset_ensures;

    let e = Seq::<usize>::empty();
    assert forall|x: usize| #[trigger] seq_bag(e).count(x) == Multiset::<usize>::empty().count(x) by {
        assert(!e.contains(x));
    }
}

proof fn lemma_e1_fold_bag(uops: Seq<CycleUop>, init: E1Fold, e1: Seq<usize>, k: int)
    requires
        0 <= k <= e1.len(),
    ensures
        ({
            let f = e1_fold(uops, init, e1, k);
            seq_bag(f.e2).add(seq_bag(f.w1)).add(seq_bag(f.stay))
                == seq_bag(init.e2).add(seq_bag(init.w1)).add(seq_bag(init.stay)).add(seq_bag(e1.take(k)))
        }),
    decreases k,
{
    broadcast use vstd::multiset::group_multiset_axioms, vstd::seq_lib::group_to_multiset_ensures;

    let f = e1_fold(uops, init, e1, k);
    let lhs = seq_bag(f.e2).add(seq_bag(f.w1)).add(seq_bag(f.stay));
    let rhs = seq_bag(init.e2).add(seq_bag(init.w1)).add(seq_bag(init.stay)).add(seq_bag(e1.take(k)));
    if k == 0 {
        assert(e1.take(0) =~= Seq::<usize>::empty());
        lemma_empty_bag();
        assert forall|x: usize| #[trigger] lhs.count(x) == rhs.count(x) by {}
    } else {
        lemma_e1_fold_bag(uops, init, e1, k - 1);
        let g = e1_fold(uops, init, e1, k - 1);
        let s = e1[k - 1];
        assert(e1.take(k) =~= e1.take(k - 1).push(s));
        lemma_push_bag(e1.take(k - 1), s);
        lemma_push_bag(g.e2, s);
        lemma_push_bag(g.w1, s);
        lemma_push_bag(g.stay, s);
        let glhs = seq_bag(g.e2).add(seq_bag(g.w1)).add(seq_bag(g.stay));
        let grhs = seq_bag(init.e2).add(seq_bag(init.w1)).add(seq_bag(init.stay)).add(seq_bag(e1.take(k - 1)));
        assert forall|x: usize| #[trigger] lhs.count(x) == rhs.count(x) by {
            assert(glhs.count(x) == grhs.count(x));
        }
    }
    assert(lhs =~= rhs);
}

proof fn lemma_e4_fold_bag(cycle: u64, opts: CycleRunOptions, cache_ptr: usize, init: E4Fold, e4: Seq<usize>, k: int)
    requires
        0 <= k <= e4.len(),
    ensures
        ({
            let f = e4_fold(cycle, opts, cache_ptr, init, e4, k);
            seq_bag(f.stay).add(seq_bag(l1d_seqs(f.l1d))).add(seq_bag(liq_seqs(f.liq)))
                == seq_bag(init.stay).add(seq_bag(l1d_seqs(init.l1d))).add(seq_bag(liq_seqs(init.liq))).add(
                seq_bag(e4.take(k)),
            )
        }),
    decreases k,
{
    broadcast use vstd::multiset::group_multiset_axioms, vstd::seq_lib::group_to_multiset_ensures;

    let f = e4_fold(cycle, opts, cache_ptr, init, e4, k);
    let lhs = seq_bag(f.stay).add(seq_bag(l1d_seqs(f.l1d))).add(seq_bag(liq_seqs(f.liq)));
    let rhs = seq_bag(init.stay).add(seq_bag(l1d_seqs(init.l1d))).add(seq_bag(liq_seqs(init.liq))).add(seq_bag(e4.take(k)));
    if k == 0 {
        assert(e4.take(0) =~= Seq::<usize>::empty());
        lemma_empty_bag();
        assert forall|x: usize| #[trigger] lhs.count(x) == rhs.count(x) by {}
    } else {
        lemma_e4_fold_bag(cycle, opts, cache_ptr, init, e4, k - 1);
        let g = e4_fold(cycle, opts, cache_ptr, init, e4, k - 1);
        let s = e4[k - 1];
        assert(e4.take(k) =~= e4.take(k - 1).push(s));
        lemma_push_bag(e4.take(k - 1), s);
        lemma_push_bag(g.stay, s);
        lemma_push_bag(l1d_seqs(g.l1d), s);
        lemma_push_bag(liq_seqs(g.liq), s);
        let r = miss_restart_cycle(cycle, opts.load_miss_penalty);
        assert(l1d_seqs(g.l1d.push(L1dEntry { seq: s, kind: L1dTxnKind::LoadHit, ready_cycle: cycle.saturating_add(1) }))
            =~= l1d_seqs(g.l1d).push(s));
        assert(liq_seqs(g.liq.push(LiqEntry { seq: s, refill_ready_cycle: r })) =~= liq_seqs(g.liq).push(s));
        let glhs = seq_bag(g.stay).add(seq_bag(l1d_seqs(g.l1d))).add(seq_bag(liq_seqs(g.liq)));
        let grhs = seq_bag(init.stay).add(seq_bag(l1d_seqs(init.l1d))).add(seq_bag(liq_seqs(init.liq))).add(
            seq_bag(e4.take(k - 1)),
        );
        assert forall|x: usize| #[trigger] lhs.count(x) == rhs.count(x) by {
            assert(glhs.count(x) == grhs.count(x));
        }
    }
    assert(lhs =~= rhs);
}

proof fn lemma_split_bag(q: Seq<usize>, k: int)
    requires
        0 <= k <= q.len(),
    ensures
        seq_bag(q) =~= seq_bag(q.take(k)).add(seq_bag(q.skip(k))),
{
    assert(q =~= q.take(k) + q.skip(k));
    vstd::seq_lib::lemma_multiset_commutative(q.take(k), q.skip(k));
}

/// Law: the execute stages lose no micro-op and make none up. W2 takes the
/// front of W1; every other micro-op of E1 to E4 and W1 is, afterwards, in
/// E1 to E4 or W1 again, or was handed, out of E4, to the L1D queue (a hit)
/// or to the load-issue queue (an injected miss).
pub proof fn law_execute_conserves(cycle: u64, options: CycleRunOptions, p_old: StageQueues, uops_old: Seq<CycleUop>, p_new: StageQueues, uops_new: Seq<CycleUop>)
    requires
        execute_post(cycle, options, p_old, uops_old, p_new, uops_new),
    ensures
        ({
            let w = spec_moved(0, p_old.w1@.len() as int, ISSUE_WIDTH as int);
            &&& p_new.w2@ == p_old.w1@.take(w)
            &&& seq_bag(p_new.e1@).add(seq_bag(p_new.e2@)).add(seq_bag(p_new.e3@)).add(seq_bag(p_new.e4@)).add(
                seq_bag(p_new.w1@),
            ).add(seq_bag(l1d_seqs(p_new.l1d@))).add(seq_bag(liq_seqs(p_new.liq@)))
                == seq_bag(p_old.e1@).add(seq_bag(p_old.e2@)).add(seq_bag(p_old.e3@)).add(seq_bag(p_old.e4@)).add(
                seq_bag(p_old.w1@.skip(w)),
            ).add(seq_bag(l1d_seqs(p_old.l1d@))).add(seq_bag(liq_seqs(p_old.liq@)))
        }),
{
    broadcast use vstd::multiset::group_multiset_axioms, vstd::seq_lib::group_to_multiset_ensures;

    let w = spec_moved(0, p_old.w1@.len() as int, ISSUE_WIDTH as int);
    let init4 = E4Fold {
        uops: uops_old,
        liq: p_old.liq@,
        mdb: p_old.mdb@,
        lhq: p_old.lhq@,
        l1d: p_old.l1d@,
        stay: Seq::empty(),
    };
    let e4 = p_old.e4@;
    let f4 = e4_fold(cycle, options, p_old.lsid_cache_ptr, init4, e4, e4.len() as int);
    let k3 = spec_moved(f4.stay.len() as int, p_old.e3@.len() as int, LSU_WIDTH as int);
    let e3_mid = p_old.e3@.skip(k3);
    let k2 = spec_moved(e3_mid.len() as int, p_old.e2@.len() as int, LSU_WIDTH as int);
    let init1 = E1Fold { e2: p_old.e2@.skip(k2), w1: p_old.w1@.skip(w), stay: Seq::empty() };
    let e1 = p_old.e1@;
    lemma_e4_fold_bag(cycle, options, p_old.lsid_cache_ptr, init4, e4, e4.len() as int);
    lemma_e1_fold_bag(f4.uops, init1, e1, e1.len() as int);
    assert(e4.take(e4.len() as int) =~= e4);
    assert(e1.take(e1.len() as int) =~= e1);
    lemma_empty_bag();
    lemma_split_bag(p_old.e3@, k3);
    lemma_split_bag(p_old.e2@, k2);
    vstd::seq_lib::lemma_multiset_commutative(f4.stay, p_old.e3@.take(k3));
    vstd::seq_lib::lemma_multiset_commutative(e3_mid, p_old.e2@.take(k2));
    let lhs = seq_bag(p_new.e1@).add(seq_bag(p_new.e2@)).add(seq_bag(p_new.e3@)).add(seq_bag(p_new.e4@)).add(
        seq_bag(p_new.w1@),
    ).add(seq_bag(l1d_seqs(p_new.l1d@))).add(seq_bag(liq_seqs(p_new.liq@)));
    let rhs = seq_bag(p_old.e1@).add(seq_bag(p_old.e2@)).add(seq_bag(p_old.e3@)).add(seq_bag(p_old.e4@)).add(
        seq_bag(p_old.w1@.skip(w)),
    ).add(seq_bag(l1d_seqs(p_old.l1d@))).add(seq_bag(liq_seqs(p_old.liq@)));
    let b4 = seq_bag(f4.stay).add(seq_bag(l1d_seqs(f4.l1d))).add(seq_bag(liq_seqs(f4.liq)));
    let f1 = e1_fold(f4.uops, init1, e1, e1.len() as int);
    let b1 = seq_bag(f1.e2).add(seq_bag(f1.w1)).add(seq_bag(f1.stay));
    assert forall|x: usize| #[trigger] lhs.count(x) == rhs.count(x) by {
        assert(b4.count(x) == seq_bag(l1d_seqs(p_old.l1d@)).add(seq_bag(liq_seqs(p_old.liq@))).add(seq_bag(e4)).count(x)
            - seq_bag(Seq::<usize>::empty()).count(x));
        assert(b1.count(x) == seq_bag(init1.e2).add(seq_bag(init1.w1)).add(seq_bag(e1)).count(x)
            - seq_bag(Seq::<usize>::empty()).count(x));
    }
    assert(lhs =~= rhs);
}

} // verus!

verus! {

/// The entries `e4_fold` adds to the L1D queue are load hits ready the next
/// cycle, and those it adds to the load-issue queue and miss-data buffer
/// wait for the refill; all are for micro-ops of E4.
spec fn e4_new_entries_ok(cycle: u64, opts: CycleRunOptions, init: E4Fold, e4: Seq<usize>, f: E4Fold) -> bool {
    let r = miss_restart_cycle(cycle, opts.load_miss_penalty);
    &&& f.l1d.len() >= init.l1d.len() && f.liq.len() >= init.liq.len() && f.mdb.len() >= init.mdb.len()
    &&& f.l1d.take(init.l1d.len() as int) == init.l1d
    &&& f.liq.take(init.liq.len() as int) == init.liq
    &&& f.mdb.take(init.mdb.len() as int) == init.mdb
    &&& forall|i: int| init.l1d.len() <= i < f.l1d.len() ==> {
        &&& (#[trigger] f.l1d[i]).kind == L1dTxnKind::LoadHit
        &&& f.l1d[i].ready_cycle == cycle.saturating_add(1)
        &&& e4.contains(f.l1d[i].seq)
    }
    &&& forall|i: int| init.liq.len() <= i < f.liq.len() ==> {
        &&& (#[trigger] f.liq[i]).refill_ready_cycle == r
        &&& e4.contains(f.liq[i].seq)
    }
    &&& forall|i: int| init.mdb.len() <= i < f.mdb.len() ==> {
        &&& (#[trigger] f.mdb[i]).refill_ready_cycle == r
        &&& e4.contains(f.mdb[i].seq)
    }
}

proof fn lemma_e4_fold_new_entries(cycle: u64, opts: CycleRunOptions, cache_ptr: usize, init: E4Fold, e4: Seq<usize>, k: int)
    requires
        0 <= k <= e4.len(),
    ensures
        e4_new_entries_ok(cycle, opts, init, e4, e4_fold(cycle, opts, cache_ptr, init, e4, k)),
    decreases k,
{
    if k > 0 {
        lemma_e4_fold_new_entries(cycle, opts, cache_ptr, init, e4, k - 1);
        let p = e4_fold(cycle, opts, cache_ptr, init, e4, k - 1);
        let f = e4_fold(cycle, opts, cache_ptr, init, e4, k);
        let s = e4[k - 1];
        assert(e4.contains(s));
        assert(f == e4_step(cycle, opts, cache_ptr, p, s));
        assert(f.l1d.take(init.l1d.len() as int) =~= init.l1d) by {
            assert(f.l1d.take(init.l1d.len() as int) =~= p.l1d.take(init.l1d.len() as int));
        }
        assert(f.liq.take(init.liq.len() as int) =~= init.liq) by {
            assert(f.liq.take(init.liq.len() as int) =~= p.liq.take(init.liq.len() as int));
        }
        assert(f.mdb.take(init.mdb.len() as int) =~= init.mdb) by {
            assert(f.mdb.take(init.mdb.len() as int) =~= p.mdb.take(init.mdb.len() as int));
        }
        assert forall|i: int| init.l1d.len() <= i < f.l1d.len() implies {
            &&& (#[trigger] f.l1d[i]).kind == L1dTxnKind::LoadHit
            &&& f.l1d[i].ready_cycle == cycle.saturating_add(1)
            &&& e4.contains(f.l1d[i].seq)
        } by {
            if i < p.l1d.len() {
                assert(f.l1d[i] == p.l1d[i]);
            }
        }
        assert forall|i: int| init.liq.len() <= i < f.liq.len() implies {
            &&& (#[trigger] f.liq[i]).refill_ready_cycle == miss_restart_cycle(cycle, opts.load_miss_penalty)
            &&& e4.contains(f.liq[i].seq)
        } by {
            if i < p.liq.len() {
                assert(f.liq[i] == p.liq[i]);
            }
        }
        assert forall|i: int| init.mdb.len() <= i < f.mdb.len() implies {
            &&& (#[trigger] f.mdb[i]).refill_ready_cycle == miss_restart_cycle(cycle, opts.load_miss_penalty)
            &&& e4.contains(f.mdb[i].seq)
        } by {
            if i < p.mdb.len() {
                assert(f.mdb[i] == p.mdb[i]);
            }
        }
    } else {
        let f = e4_fold(cycle, opts, cache_ptr, init, e4, k);
        assert(f.l1d.take(init.l1d.len() as int) =~= init.l1d);
        assert(f.liq.take(init.liq.len() as int) =~= init.liq);
        assert(f.mdb.take(init.mdb.len() as int) =~= init.mdb);
    }
}

/// Law: execute keeps the L1D queue, the load-issue queue and the miss-data
/// buffer as they were and only appends to them, from E4: to the L1D queue
/// load hits ready the next cycle, to the other two injected misses that
/// wait until `cycle` plus the miss penalty (at least one cycle).
pub proof fn law_execute_new_memory_entries(cycle: u64, options: CycleRunOptions, p_old: StageQueues, uops_old: Seq<CycleUop>, p_new: StageQueues, uops_new: Seq<CycleUop>)
    requires
        execute_post(cycle, options, p_old, uops_old, p_new, uops_new),
    ensures
        ({
            let r = miss_restart_cycle(cycle, options.load_miss_penalty);
            let (l_old, q_old, m_old) = (p_old.l1d@, p_old.liq@, p_old.mdb@);
            let (l_new, q_new, m_new) = (p_new.l1d@, p_new.liq@, p_new.mdb@);
            &&& l_new.len() >= l_old.len() && q_new.len() >= q_old.len() && m_new.len() >= m_old.len()
            &&& l_new.take(l_old.len() as int) == l_old
            &&& q_new.take(q_old.len() as int) == q_old
            &&& m_new.take(m_old.len() as int) == m_old
            &&& forall|i: int| l_old.len() <= i < l_new.len() ==> {
                &&& (#[trigger] l_new[i]).kind == L1dTxnKind::LoadHit
                &&& l_new[i].ready_cycle == cycle.saturating_add(1)
                &&& p_old.e4@.contains(l_new[i].seq)
            }
            &&& forall|i: int| q_old.len() <= i < q_new.len() ==> {
                &&& (#[trigger] q_new[i]).refill_ready_cycle == r
                &&& p_old.e4@.contains(q_new[i].seq)
            }
            &&& forall|i: int| m_old.len() <= i < m_new.len() ==> {
                &&& (#[trigger] m_new[i]).refill_ready_cycle == r
                &&& p_old.e4@.contains(m_new[i].seq)
            }
        }),
{
    let init4 = E4Fold {
        uops: uops_old,
        liq: p_old.liq@,
        mdb: p_old.mdb@,
        lhq: p_old.lhq@,
        l1d: p_old.l1d@,
        stay: Seq::empty(),
    };
    lemma_e4_fold_new_entries(cycle, options, p_old.lsid_cache_ptr, init4, p_old.e4@, p_old.e4@.len() as int);
}

} // verus!
