use vstd::prelude::*;
use std::collections::VecDeque;
use crate::config::{CycleRunOptions, ISSUE_WIDTH, LD_GEN_E1, LD_GEN_E2, LD_GEN_E3, LD_GEN_E4, PHYS_IQ_COUNT, READ_PORTS};
use crate::iq_state::{
    data_ready_at, dep_data_ready_cycle, dep_pick_ready_cycle, pick_ready_at, source_uses_qtag_wakeup,
    source_valid, spec_source_valid, spec_uses_qtag_wakeup,
};
use crate::lsu_queues::{spec_lsid_ready};
use crate::model::{CycleUop, IqEntry, PhysIq, spec_phys_iq_index, uop_wf, uops_wf};
use crate::record::CommitRecord;

verus! {

broadcast use vstd::seq_lib::group_seq_properties;

// ---------------------------------------------------------------------------
// Age in the ROB.
// ---------------------------------------------------------------------------

pub open spec fn rank_from(rob: Seq<usize>, seq: usize, i: int) -> usize
    decreases rob.len() - i,
{
    if i < 0 || i >= rob.len() {
        usize::MAX
    } else if rob[i] == seq {
        i as usize
    } else {
        rank_from(rob, seq, i + 1)
    }
}

/// The position of `seq` in the ROB (oldest first), or `usize::MAX`.
pub open spec fn spec_rob_rank(rob: Seq<usize>, seq: usize) -> usize {
    rank_from(rob, seq, 0)
}

/// Age rank of `seq`: its position in the ROB, `usize::MAX` when absent.
pub fn rob_age_rank(seq: usize, rob: &VecDeque<usize>) -> (r: usize)
    ensures
        r == spec_rob_rank(rob@, seq),
{
    let mut i: usize = 0;
    while i < rob.len()
        invariant
            i <= rob@.len(),
            rank_from(rob@, seq, i as int) == spec_rob_rank(rob@, seq),
        decreases rob@.len() - i,
    {
        if rob[i] == seq {
            return i;
        }
        i += 1;
    }
    usize::MAX
}

pub open spec fn sorted_by_rank(v: Seq<usize>, rob: Seq<usize>) -> bool {
    forall|a: int, b: int| 0 <= a < b < v.len() ==> spec_rob_rank(rob, v[a]) <= spec_rob_rank(rob, v[b])
}

/// `s` with `x` placed after every element of no greater rank: the step of
/// a stable insertion sort by ROB rank.
pub open spec fn rank_insert(s: Seq<usize>, x: usize, rob: Seq<usize>) -> Seq<usize>
    decreases s.len(),
{
    if s.len() == 0 || spec_rob_rank(rob, s.last()) <= spec_rob_rank(rob, x) {
        s.push(x)
    } else {
        rank_insert(s.drop_last(), x, rob).push(s.last())
    }
}

/// `v` sorted by ROB rank, oldest first; equal ranks keep their order in `v`.
pub open spec fn rank_sorted(v: Seq<usize>, rob: Seq<usize>) -> Seq<usize>
    decreases v.len(),
{
    if v.len() == 0 {
        Seq::empty()
    } else {
        rank_insert(rank_sorted(v.drop_last(), rob), v.last(), rob)
    }
}

proof fn lemma_rank_insert_at(s: Seq<usize>, x: usize, rob: Seq<usize>, pos: int)
    requires
        0 <= pos <= s.len(),
        forall|k: int| pos <= k < s.len() ==> spec_rob_rank(rob, s[k]) > spec_rob_rank(rob, x),
        pos == 0 || spec_rob_rank(rob, s[pos - 1]) <= spec_rob_rank(rob, x),
    ensures
        rank_insert(s, x, rob) == s.insert(pos, x),
    decreases s.len(),
{
    if s.len() == 0 {
        assert(s.insert(pos, x) =~= s.push(x));
    } else if spec_rob_rank(rob, s.last()) <= spec_rob_rank(rob, x) {
        assert(pos == s.len());
        assert(s.insert(pos, x) =~= s.push(x));
    } else {
        let d = s.drop_last();
        assert(pos < s.len());
        lemma_rank_insert_at(d, x, rob, pos);
        assert(d.insert(pos, x).push(s.last()) =~= s.insert(pos, x));
    }
}

/// Orders micro-ops oldest first (stable for equal ranks).
pub fn sort_by_rob_rank(v: Vec<usize>, rob: &VecDeque<usize>) -> (r: Vec<usize>)
    ensures
        r@ == rank_sorted(v@, rob@),
        r@.to_multiset() == v@.to_multiset(),
        r@.len() == v@.len(),
        sorted_by_rank(r@, rob@),
{
    let mut out: Vec<usize> = Vec::new();
    let mut i: usize = 0;
    while i < v.len()
        invariant
            i <= v@.len(),
            out@.to_multiset() == v@.take(i as int).to_multiset(),
            out@.len() == i,
            sorted_by_rank(out@, rob@),
            out@ == rank_sorted(v@.take(i as int), rob@),
        decreases v@.len() - i,
    {
        let x = v[i];
        let rx = rob_age_rank(x, rob);
        let mut pos: usize = out.len();
        while pos > 0 && rob_age_rank(out[pos - 1], rob) > rx
            invariant
                pos <= out@.len(),
                forall|k: int| pos <= k < out@.len() ==> spec_rob_rank(rob@, out@[k]) > rx,
            decreases pos,
        {
            pos -= 1;
        }
        proof {
            assert(v@.take(i + 1) =~= v@.take(i as int).push(x));
        }
        let ghost before = out@;
        out.insert(pos, x);
        proof {
            before.insert_ensures(pos as int, x);
            assert(out@ == before.insert(pos as int, x));
            lemma_rank_insert_at(before, x, rob@, pos as int);
            assert(v@.take(i + 1).drop_last() =~= v@.take(i as int));
            assert(v@.take(i + 1).last() == x);
            assert forall|a: int, b: int| 0 <= a < b < out@.len() implies spec_rob_rank(rob@, out@[a]) <= spec_rob_rank(rob@, out@[b]) by {
                if b == pos {
                    if pos > 0 {
                        assert(spec_rob_rank(rob@, before[pos - 1]) <= rx);
                    }
                } else if a == pos {
                }
            }
        }
        i += 1;
    }
    assert(v@.take(v@.len() as int) =~= v@);
    out
}

// ---------------------------------------------------------------------------
// Register-file read ports.
// ---------------------------------------------------------------------------

/// Source `idx` of the entry reads the register file at I1.
pub open spec fn needs_rf_read(uops: Seq<CycleUop>, e: IqEntry, idx: int, cycle: u64) -> bool {
    let u = uops[e.seq as int];
    if !spec_source_valid(u.commit, idx) {
        false
    } else if spec_uses_qtag_wakeup(uops, e.seq as int, idx) {
        false
    } else if e.src_ready_spec[idx] {
        false
    } else {
        match u.deps[idx] {
            None => true,
            Some(p) => if data_ready_at(uops, p as int) <= cycle {
                true
            } else {
                !(uops[p as int].is_load && pick_ready_at(uops, p as int) <= cycle)
            },
        }
    }
}

pub open spec fn ports_needed(uops: Seq<CycleUop>, e: IqEntry, cycle: u64) -> nat {
    (if needs_rf_read(uops, e, 0, cycle) { 1nat } else { 0nat }) + (if needs_rf_read(uops, e, 1, cycle) {
        1nat
    } else {
        0nat
    })
}

pub fn source_needs_rf_read_from_entry(
    entry: &IqEntry,
    commit: &CommitRecord,
    idx: usize,
    dep: Option<usize>,
    cycle: u64,
    uops: &Vec<CycleUop>,
) -> (r: bool)
    requires
        entry.seq < uops@.len(),
        uops_wf(uops@),
        idx < 2,
        *commit == uops@[entry.seq as int].commit,
        dep == uops@[entry.seq as int].deps[idx as int],
    ensures
        r == needs_rf_read(uops@, *entry, idx as int, cycle),
{
    assert(uop_wf(uops@[entry.seq as int], entry.seq as int));
    if !source_valid(commit, idx) {
        return false;
    }
    if source_uses_qtag_wakeup(entry.seq, idx, uops) {
        return false;
    }
    if entry.src_ready_spec[idx] {
        return false;
    }
    match dep {
        None => true,
        Some(producer) => {
            if dep_data_ready_cycle(producer, uops) <= cycle {
                return true;
            }
            !(uops[producer].is_load && dep_pick_ready_cycle(producer, uops) <= cycle)
        },
    }
}

/// How many register-file read ports the entry needs at I1.
pub fn read_ports_needed_from_entry(entry: &IqEntry, cycle: u64, uops: &Vec<CycleUop>) -> (r: usize)
    requires
        entry.seq < uops@.len(),
        uops_wf(uops@),
    ensures
        r == ports_needed(uops@, *entry, cycle),
        r <= 2,
{
    let seq = entry.seq;
    let a = source_needs_rf_read_from_entry(entry, &uops[seq].commit, 0, uops[seq].deps[0], cycle, uops);
    let b = source_needs_rf_read_from_entry(entry, &uops[seq].commit, 1, uops[seq].deps[1], cycle, uops);
    (if a { 1 } else { 0 }) + (if b { 1 } else { 0 })
}

/// The register-file read ports `seq` needs at I1 when it enters its issue
/// queue (the shared one when it has none yet) in `cycle` with empty ready
/// tables.
pub fn read_ports_needed(seq: usize, cycle: u64, uops: &Vec<CycleUop>) -> (r: usize)
    requires
        seq < uops@.len(),
        uops_wf(uops@),
    ensures
        forall|e: IqEntry|
            e.seq == seq && crate::iq_state::entry_seeded(uops@, e, cycle, Set::empty(), Set::empty()) ==> r
                == ports_needed(uops@, e, cycle),
{
    let q = match uops[seq].phys_iq {
        Some(q) => q,
        None => PhysIq::SharedIq1,
    };
    let no_t: std::collections::BTreeSet<usize> = std::collections::BTreeSet::new();
    let no_u: std::collections::BTreeSet<usize> = std::collections::BTreeSet::new();
    let entry = crate::iq_state::make_iq_entry(cycle, seq, q, &no_t, &no_u, uops);
    let r = read_ports_needed_from_entry(&entry, cycle, uops);
    proof {
        assert forall|e: IqEntry|
            e.seq == seq && crate::iq_state::entry_seeded(uops@, e, cycle, Set::empty(), Set::empty()) implies r
                == ports_needed(uops@, e, cycle) by {
            assert(crate::iq_state::src_state(e, 0) == crate::iq_state::src_state(entry, 0));
            assert(crate::iq_state::src_state(e, 1) == crate::iq_state::src_state(entry, 1));
            assert(needs_rf_read(uops@, e, 0, cycle) == needs_rf_read(uops@, entry, 0, cycle));
            assert(needs_rf_read(uops@, e, 1, cycle) == needs_rf_read(uops@, entry, 1, cycle));
        }
    }
    r
}

// ---------------------------------------------------------------------------
// Readiness at I2 and load/store order.
// ---------------------------------------------------------------------------

pub open spec fn spec_i2_ready(uops: Seq<CycleUop>, seq: int, cycle: u64) -> bool {
    &&& (uops[seq].deps[0] matches Some(p) ==> data_ready_at(uops, p as int) <= cycle)
    &&& (uops[seq].deps[1] matches Some(p) ==> data_ready_at(uops, p as int) <= cycle)
}

/// Whether both source values of `seq` are available in `cycle`.
pub fn i2_ready(seq: usize, cycle: u64, uops: &Vec<CycleUop>) -> (r: bool)
    requires
        seq < uops@.len(),
        uops_wf(uops@),
    ensures
        r == spec_i2_ready(uops@, seq as int, cycle),
{
    assert(uop_wf(uops@[seq as int], seq as int));
    let ok0 = match uops[seq].deps[0] {
        Some(p) => dep_data_ready_cycle(p, uops) <= cycle,
        None => true,
    };
    let ok1 = match uops[seq].deps[1] {
        Some(p) => dep_data_ready_cycle(p, uops) <= cycle,
        None => true,
    };
    ok0 && ok1
}

/// Memory micro-ops issue in load/store order.
pub fn lsid_issue_ready(seq: usize, lsid_issue_ptr: usize, uops: &Vec<CycleUop>) -> (r: bool)
    requires
        seq < uops@.len(),
    ensures
        r == spec_lsid_ready(uops@, seq as int, lsid_issue_ptr),
{
    match uops[seq].load_store_id {
        Some(id) => id == lsid_issue_ptr,
        None => true,
    }
}

pub fn i2_issue_eligible(seq: usize, cycle: u64, lsid_issue_ptr: usize, uops: &Vec<CycleUop>) -> (r: bool)
    requires
        seq < uops@.len(),
        uops_wf(uops@),
    ensures
        r == (spec_i2_ready(uops@, seq as int, cycle) && spec_lsid_ready(uops@, seq as int, lsid_issue_ptr)),
{
    i2_ready(seq, cycle, uops) && lsid_issue_ready(seq, lsid_issue_ptr, uops)
}

pub fn i2_waits_on_lsid(seq: usize, cycle: u64, lsid_issue_ptr: usize, uops: &Vec<CycleUop>) -> (r: bool)
    requires
        seq < uops@.len(),
        uops_wf(uops@),
    ensures
        r == (spec_i2_ready(uops@, seq as int, cycle) && !spec_lsid_ready(uops@, seq as int, lsid_issue_ptr)),
{
    i2_ready(seq, cycle, uops) && !lsid_issue_ready(seq, lsid_issue_ptr, uops)
}

// ---------------------------------------------------------------------------
// Load-miss tracking.
// ---------------------------------------------------------------------------

pub open spec fn miss_pending_uop(u: CycleUop) -> bool {
    u.is_load && u.miss_injected && u.done_cycle is None && (u.miss_pending_until is Some || u.e1_cycle is Some
        || u.e4_cycle is Some || u.w1_cycle is Some)
}

pub open spec fn spec_miss_pending_active(uops: Seq<CycleUop>) -> bool {
    exists|i: int| 0 <= i < uops.len() && miss_pending_uop(#[trigger] uops[i])
}

/// Whether an injected load miss is still outstanding.
pub fn miss_pending_active(cycle: u64, uops: &Vec<CycleUop>) -> (r: bool)
    ensures
        r == spec_miss_pending_active(uops@),
{
    let mut i: usize = 0;
    while i < uops.len()
        invariant
            i <= uops@.len(),
            forall|j: int| 0 <= j < i ==> !miss_pending_uop(#[trigger] uops@[j]),
        decreases uops@.len() - i,
    {
        let u = &uops[i];
        if u.is_load && u.miss_injected && u.done_cycle.is_none() && (u.miss_pending_until.is_some()
            || u.e1_cycle.is_some() || u.e4_cycle.is_some() || u.w1_cycle.is_some()) {
            assert(miss_pending_uop(uops@[i as int]));
            return true;
        }
        i += 1;
    }
    false
}

/// The load-pipeline stage bit of `seq` in `cycle`.
pub open spec fn spec_load_stage_mask(u: CycleUop, cycle: u64) -> u8 {
    if !u.is_load {
        0
    } else if u.miss_pending_until is Some {
        LD_GEN_E4
    } else if u.e4_cycle == Some(cycle) {
        LD_GEN_E4
    } else {
        match u.e1_cycle {
            Some(e1) => if cycle >= e1 {
                if cycle - e1 == 0 {
                    LD_GEN_E1
                } else if cycle - e1 == 1 {
                    LD_GEN_E2
                } else if cycle - e1 == 2 {
                    LD_GEN_E3
                } else {
                    0
                }
            } else {
                0
            },
            None => 0,
        }
    }
}

fn current_load_stage_mask(seq: usize, cycle: u64, uops: &Vec<CycleUop>) -> (r: u8)
    requires
        seq < uops@.len(),
    ensures
        r == spec_load_stage_mask(uops@[seq as int], cycle),
{
    let uop = &uops[seq];
    if !uop.is_load {
        return 0;
    }
    if uop.miss_pending_until.is_some() {
        return LD_GEN_E4;
    }
    if let Some(e4) = uop.e4_cycle {
        if cycle == e4 {
            return LD_GEN_E4;
        }
    }
    match uop.e1_cycle {
        Some(e1) => if cycle >= e1 {
            let d = cycle - e1;
            if d == 0 {
                LD_GEN_E1
            } else if d == 1 {
                LD_GEN_E2
            } else if d == 2 {
                LD_GEN_E3
            } else {
                0
            }
        } else {
            0
        },
        None => 0,
    }
}

/// The load-stage bits of `seq` and of everything it transitively depends on.
pub open spec fn spec_load_gen_vec(uops: Seq<CycleUop>, seq: int, cycle: u64) -> u8
    decreases seq,
{
    if seq < 0 || seq >= uops.len() {
        0
    } else {
        let u = uops[seq];
        let m0 = spec_load_stage_mask(u, cycle);
        let m1 = match u.deps[0] {
            Some(p) => if 0 <= p < seq { spec_load_gen_vec(uops, p as int, cycle) } else { 0 },
            None => 0,
        };
        let m2 = match u.deps[1] {
            Some(p) => if 0 <= p < seq { spec_load_gen_vec(uops, p as int, cycle) } else { 0 },
            None => 0,
        };
        m0 | m1 | m2
    }
}

fn dep_load_gen_vec_inner(seq: usize, cycle: u64, uops: &Vec<CycleUop>, memo: &mut Vec<Option<u8>>) -> (r: u8)
    requires
        seq < uops@.len(),
        uops_wf(uops@),
        old(memo)@.len() == uops@.len(),
        forall|i: int| 0 <= i < old(memo)@.len() ==> (#[trigger] old(memo)@[i] matches Some(m) ==> m == spec_load_gen_vec(uops@, i, cycle)),
    ensures
        r == spec_load_gen_vec(uops@, seq as int, cycle),
        final(memo)@.len() == uops@.len(),
        forall|i: int| 0 <= i < final(memo)@.len() ==> (#[trigger] final(memo)@[i] matches Some(m) ==> m == spec_load_gen_vec(uops@, i, cycle)),
    decreases seq,
{
    if let Some(mask) = memo[seq] {
        return mask;
    }
    assert(uop_wf(uops@[seq as int], seq as int));
    let mut mask = current_load_stage_mask(seq, cycle, uops);
    let d0 = uops[seq].deps[0];
    let d1 = uops[seq].deps[1];
    let m1 = match d0 {
        Some(p) => dep_load_gen_vec_inner(p, cycle, uops, memo),
        None => 0,
    };
    let m2 = match d1 {
        Some(p) => dep_load_gen_vec_inner(p, cycle, uops, memo),
        None => 0,
    };
    mask = mask | m1 | m2;
    memo.set(seq, Some(mask));
    mask
}

/// The load-stage bits that reach `seq` through its dependency chain.
pub fn dep_load_gen_vec(seq: usize, cycle: u64, uops: &Vec<CycleUop>) -> (r: u8)
    requires
        seq < uops@.len(),
        uops_wf(uops@),
    ensures
        r == spec_load_gen_vec(uops@, seq as int, cycle),
{
    let mut memo: Vec<Option<u8>> = Vec::new();
    while memo.len() < uops.len()
        invariant
            memo@.len() <= uops@.len(),
            forall|i: int| 0 <= i < memo@.len() ==> memo@[i] is None,
        decreases uops@.len() - memo@.len(),
    {
        memo.push(None);
    }
    dep_load_gen_vec_inner(seq, cycle, uops, &mut memo)
}

pub open spec fn spec_should_inject(u: CycleUop, every: Option<u64>) -> bool {
    match every {
        None => false,
        Some(e) => e != 0 && u.is_load && !u.miss_injected && match u.load_ordinal {
            Some(o) => (o + 1) % (e as int) == 0,
            None => false,
        },
    }
}

/// Whether the configured miss pattern makes load `seq` miss now.
pub fn should_inject_load_miss(seq: usize, options: &CycleRunOptions, uops: &Vec<CycleUop>) -> (r: bool)
    requires
        seq < uops@.len(),
    ensures
        r == spec_should_inject(uops@[seq as int], options.load_miss_every),
{
    let Some(every) = options.load_miss_every else {
        return false;
    };
    if every == 0 {
        return false;
    }
    let uop = &uops[seq];
    if !uop.is_load || uop.miss_injected {
        return false;
    }
    match uop.load_ordinal {
        Some(ordinal) => {
            let o = ordinal as u128 + 1;
            o % (every as u128) == 0
        },
        None => false,
    }
}

} // verus!
