use vstd::prelude::*;
use std::collections::VecDeque;
use crate::config::{ISSUE_WIDTH, LD_GEN_E4, PHYS_IQ_COUNT, READ_PORTS};
use crate::iq::{rebuild_iq_owner_table, tags_in_range, unregister_iq_wait_crossbar_seq};
use crate::lsu_queues::{e1_can_accept, lhq_insert, loads_in, spec_lsid_ready, stq_insert};
use crate::model::{CycleUop, IqEntry, PhysIq, QTAG_SLOTS, StageQueues, spec_phys_iq_index, uop_wf, uops_wf};
use crate::select::{
    dep_load_gen_vec, i2_issue_eligible, lsid_issue_ready, miss_pending_active, ports_needed,
    read_ports_needed_from_entry, rob_age_rank, sort_by_rob_rank, sorted_by_rank, spec_i2_ready,
    spec_load_gen_vec, spec_miss_pending_active, spec_rob_rank,
};
use crate::stages::{advance_simple, spec_moved};

verus! {

broadcast use vstd::seq_lib::group_seq_properties;

// ---------------------------------------------------------------------------
// Why an issue-queue entry waits.
// ---------------------------------------------------------------------------

pub open spec fn dep_blocked_by_miss(uops: Seq<CycleUop>, seq: int, idx: int, cycle: u64) -> bool {
    match uops[seq].deps[idx] {
        Some(p) => spec_miss_pending_active(uops) && (spec_load_gen_vec(uops, p as int, cycle) & LD_GEN_E4) != 0,
        None => false,
    }
}

pub open spec fn src_unready(e: IqEntry, idx: int) -> bool {
    e.src_valid[idx] && !(e.src_ready_nonspec[idx] || e.src_ready_spec[idx])
}

pub open spec fn unready_cause(e: IqEntry, idx: int) -> Seq<char> {
    if e.src_wait_qtag[idx] {
        "wait_qtag"@
    } else {
        "wait_dep"@
    }
}

/// Why the entry cannot be picked in `cycle`, or `None` when it can.
pub open spec fn spec_wait_cause(uops: Seq<CycleUop>, e: IqEntry, cycle: u64, lsid_issue_ptr: usize) -> Option<Seq<char>> {
    let s = e.seq as int;
    if !spec_lsid_ready(uops, s, lsid_issue_ptr) {
        Some("wait_lsid"@)
    } else if dep_blocked_by_miss(uops, s, 0, cycle) {
        Some("wait_miss"@)
    } else if src_unready(e, 0) {
        Some(unready_cause(e, 0))
    } else if dep_blocked_by_miss(uops, s, 1, cycle) {
        Some("wait_miss"@)
    } else if src_unready(e, 1) {
        Some(unready_cause(e, 1))
    } else {
        None
    }
}

pub fn iq_entry_wait_cause_from_state(entry: &IqEntry, cycle: u64, lsid_issue_ptr: usize, uops: &Vec<CycleUop>) -> (r: Option<&'static str>)
    requires
        entry.seq < uops@.len(),
        uops_wf(uops@),
    ensures
        r matches Some(c) ==> spec_wait_cause(uops@, *entry, cycle, lsid_issue_ptr) == Some(c@),
        r is None ==> spec_wait_cause(uops@, *entry, cycle, lsid_issue_ptr) is None,
{
    let seq = entry.seq;
    assert(uop_wf(uops@[seq as int], seq as int));
    if !lsid_issue_ready(seq, lsid_issue_ptr, uops) {
        return Some("wait_lsid");
    }
    let miss_pending = miss_pending_active(cycle, uops);
    if let Some(dep) = uops[seq].deps[0] {
        if miss_pending && (dep_load_gen_vec(dep, cycle, uops) & LD_GEN_E4 != 0) {
            return Some("wait_miss");
        }
    }
    if entry.src_valid[0] && !(entry.src_ready_nonspec[0] || entry.src_ready_spec[0]) {
        return Some(if entry.src_wait_qtag[0] { "wait_qtag" } else { "wait_dep" });
    }
    if let Some(dep) = uops[seq].deps[1] {
        if miss_pending && (dep_load_gen_vec(dep, cycle, uops) & LD_GEN_E4 != 0) {
            return Some("wait_miss");
        }
    }
    if entry.src_valid[1] && !(entry.src_ready_nonspec[1] || entry.src_ready_spec[1]) {
        return Some(if entry.src_wait_qtag[1] { "wait_qtag" } else { "wait_dep" });
    }
    None
}

pub fn iq_entry_ready_from_state(entry: &IqEntry, cycle: u64, lsid_issue_ptr: usize, uops: &Vec<CycleUop>) -> (r: bool)
    requires
        entry.seq < uops@.len(),
        uops_wf(uops@),
    ensures
        r == (spec_wait_cause(uops@, *entry, cycle, lsid_issue_ptr) is None),
{
    iq_entry_wait_cause_from_state(entry, cycle, lsid_issue_ptr, uops).is_none()
}

// ---------------------------------------------------------------------------
// Picking: one winner per physical queue, the oldest ready entry.
// ---------------------------------------------------------------------------

/// The pick state `seq` would have on entering its issue queue (the shared
/// one when it has none yet) in `cycle` with empty ready tables.
fn fresh_entry(seq: usize, cycle: u64, uops: &Vec<CycleUop>) -> (e: IqEntry)
    requires
        seq < uops@.len(),
        uops_wf(uops@),
    ensures
        e.seq == seq,
        crate::iq_state::entry_seeded(uops@, e, cycle, Set::empty(), Set::empty()),
{
    let q = match uops[seq].phys_iq {
        Some(q) => q,
        None => PhysIq::SharedIq1,
    };
    let no_t: std::collections::BTreeSet<usize> = std::collections::BTreeSet::new();
    let no_u: std::collections::BTreeSet<usize> = std::collections::BTreeSet::new();
    crate::iq_state::make_iq_entry(cycle, seq, q, &no_t, &no_u, uops)
}

proof fn lemma_seeded_wait_cause(uops: Seq<CycleUop>, a: IqEntry, b: IqEntry, cycle: u64, ptr: usize)
    requires
        a.seq == b.seq,
        a.seq < uops.len(),
        crate::iq_state::entry_seeded(uops, a, cycle, Set::empty(), Set::empty()),
        crate::iq_state::entry_seeded(uops, b, cycle, Set::empty(), Set::empty()),
    ensures
        spec_wait_cause(uops, a, cycle, ptr) == spec_wait_cause(uops, b, cycle, ptr),
{
    assert(crate::iq_state::src_state(a, 0) == crate::iq_state::src_state(b, 0));
    assert(crate::iq_state::src_state(a, 1) == crate::iq_state::src_state(b, 1));
    assert(src_unready(a, 0) == src_unready(b, 0));
    assert(src_unready(a, 1) == src_unready(b, 1));
    assert(unready_cause(a, 0) == unready_cause(b, 0));
    assert(unready_cause(a, 1) == unready_cause(b, 1));
}

/// Why `seq` could not be picked in `cycle` if it entered its issue queue
/// now with empty ready tables; `None` when it could.
pub fn iq_entry_wait_cause(seq: usize, cycle: u64, lsid_issue_ptr: usize, uops: &Vec<CycleUop>) -> (r: Option<&'static str>)
    requires
        seq < uops@.len(),
        uops_wf(uops@),
    ensures
        forall|e: IqEntry|
            e.seq == seq && crate::iq_state::entry_seeded(uops@, e, cycle, Set::empty(), Set::empty()) ==> match r {
                Some(c) => spec_wait_cause(uops@, e, cycle, lsid_issue_ptr) == Some(c@),
                None => spec_wait_cause(uops@, e, cycle, lsid_issue_ptr) is None,
            },
{
    let entry = fresh_entry(seq, cycle, uops);
    let r = iq_entry_wait_cause_from_state(&entry, cycle, lsid_issue_ptr, uops);
    proof {
        assert forall|e: IqEntry|
            e.seq == seq && crate::iq_state::entry_seeded(uops@, e, cycle, Set::empty(), Set::empty()) implies match r {
                Some(c) => spec_wait_cause(uops@, e, cycle, lsid_issue_ptr) == Some(c@),
                None => spec_wait_cause(uops@, e, cycle, lsid_issue_ptr) is None,
            } by {
            lemma_seeded_wait_cause(uops@, e, entry, cycle, lsid_issue_ptr);
        }
    }
    r
}

/// Whether `seq` could be picked in `cycle` if it entered its issue queue now
/// with empty ready tables.
pub fn iq_entry_ready(seq: usize, cycle: u64, lsid_issue_ptr: usize, uops: &Vec<CycleUop>) -> (r: bool)
    requires
        seq < uops@.len(),
        uops_wf(uops@),
    ensures
        forall|e: IqEntry|
            e.seq == seq && crate::iq_state::entry_seeded(uops@, e, cycle, Set::empty(), Set::empty()) ==> (r
                <==> spec_wait_cause(uops@, e, cycle, lsid_issue_ptr) is None),
{
    let entry = fresh_entry(seq, cycle, uops);
    let r = iq_entry_ready_from_state(&entry, cycle, lsid_issue_ptr, uops);
    proof {
        assert forall|e: IqEntry|
            e.seq == seq && crate::iq_state::entry_seeded(uops@, e, cycle, Set::empty(), Set::empty()) implies (r
                <==> spec_wait_cause(uops@, e, cycle, lsid_issue_ptr) is None) by {
            lemma_seeded_wait_cause(uops@, e, entry, cycle, lsid_issue_ptr);
        }
    }
    r
}

#[verifier::opaque]
pub open spec fn pickable(uops: Seq<CycleUop>, e: IqEntry, cycle: u64, ptr: usize) -> bool {
    !e.inflight && spec_wait_cause(uops, e, cycle, ptr) is None
}

/// Entry `i` is at least as old as entry `j` (by ROB rank, then by position).
pub open spec fn older_or_same(iq: Seq<IqEntry>, rob: Seq<usize>, i: int, j: int) -> bool {
    spec_rob_rank(rob, iq[i].seq) < spec_rob_rank(rob, iq[j].seq) || (spec_rob_rank(rob, iq[i].seq)
        == spec_rob_rank(rob, iq[j].seq) && i <= j)
}

/// `w` is the winner of queue `q`: a pickable entry of `q` older than every
/// other pickable entry of `q`.
#[verifier::opaque]
pub open spec fn is_queue_winner(uops: Seq<CycleUop>, iq: Seq<IqEntry>, rob: Seq<usize>, cycle: u64, ptr: usize, q: PhysIq, w: int) -> bool {
    &&& 0 <= w < iq.len()
    &&& iq[w].phys_iq == q
    &&& pickable(uops, iq[w], cycle, ptr)
    &&& forall|j: int| 0 <= j < iq.len() && iq[j].phys_iq == q && pickable(uops, iq[j], cycle, ptr) ==> older_or_same(iq, rob, w, j)
}

#[verifier::opaque]
pub open spec fn queue_listed(w: Seq<(usize, usize, PhysIq)>, q: PhysIq) -> bool {
    exists|k: int| 0 <= k < w.len() && w[k].2 == q
}

pub open spec fn winners_ok(uops: Seq<CycleUop>, iq: Seq<IqEntry>, rob: Seq<usize>, cycle: u64, ptr: usize, w: Seq<(usize, usize, PhysIq)>) -> bool {
    &&& forall|k: int| 0 <= k < w.len() ==> is_queue_winner(uops, iq, rob, cycle, ptr, (#[trigger] w[k]).2, w[k].0 as int)
        && 0 <= w[k].0 < iq.len() && iq[w[k].0 as int].seq == w[k].1
    &&& forall|a: int, b: int| 0 <= a < b < w.len() ==> spec_phys_iq_index((#[trigger] w[a]).2) < spec_phys_iq_index((#[trigger] w[b]).2)
    &&& forall|j: int| 0 <= j < iq.len() && pickable(uops, #[trigger] iq[j], cycle, ptr) ==> queue_listed(w, iq[j].phys_iq)
}

fn phys_iq_of_index(i: usize) -> (q: PhysIq)
    requires
        i < PHYS_IQ_COUNT,
    ensures
        spec_phys_iq_index(q) == i,
{
    match i {
        0 => PhysIq::AluIq0,
        1 => PhysIq::SharedIq1,
        2 => PhysIq::BruIq,
        3 => PhysIq::AguIq0,
        4 => PhysIq::AguIq1,
        5 => PhysIq::StdIq0,
        6 => PhysIq::StdIq1,
        _ => PhysIq::CmdIq,
    }
}

/// The oldest pickable entry of queue `q`.
fn queue_winner(q: PhysIq, cycle: u64, lsid_issue_ptr: usize, iq: &Vec<IqEntry>, uops: &Vec<CycleUop>, rob: &VecDeque<usize>) -> (r: Option<usize>)
    requires
        forall|i: int| 0 <= i < iq@.len() ==> (#[trigger] iq@[i]).seq < uops@.len(),
        uops_wf(uops@),
    ensures
        r matches Some(b) ==> is_queue_winner(uops@, iq@, rob@, cycle, lsid_issue_ptr, q, b as int) && b < iq@.len(),
        r is None ==> forall|j: int| 0 <= j < iq@.len() && iq@[j].phys_iq == q ==> !pickable(uops@, #[trigger] iq@[j], cycle, lsid_issue_ptr),
{
    let mut best: Option<usize> = None;
    let mut i: usize = 0;
    while i < iq.len()
        invariant
            i <= iq@.len(),
            forall|x: int| 0 <= x < iq@.len() ==> (#[trigger] iq@[x]).seq < uops@.len(),
            uops_wf(uops@),
            best matches Some(b) ==> b < i && iq@[b as int].phys_iq == q && pickable(uops@, iq@[b as int], cycle, lsid_issue_ptr)
                && forall|j: int| 0 <= j < i && iq@[j].phys_iq == q && pickable(uops@, #[trigger] iq@[j], cycle, lsid_issue_ptr) ==> older_or_same(iq@, rob@, b as int, j),
            best is None ==> forall|j: int| 0 <= j < i && iq@[j].phys_iq == q ==> !pickable(uops@, #[trigger] iq@[j], cycle, lsid_issue_ptr),
        decreases iq@.len() - i,
    {
        let e = &iq[i];
        proof {
            reveal(pickable);
        }
        if e.phys_iq == q && !e.inflight && iq_entry_ready_from_state(e, cycle, lsid_issue_ptr, uops) {
            match best {
                None => {
                    best = Some(i);
                },
                Some(b) => {
                    if rob_age_rank(e.seq, rob) < rob_age_rank(iq[b].seq, rob) {
                        best = Some(i);
                    }
                },
            }
        }
        i += 1;
    }
    proof {
        reveal(is_queue_winner);
    }
    best
}

/// `s` is the seq of a queue winner.
#[verifier::opaque]
pub open spec fn picked_ok(uops: Seq<CycleUop>, iq: Seq<IqEntry>, rob: Seq<usize>, cycle: u64, ptr: usize, s: usize) -> bool {
    exists|i: int| 0 <= i < iq.len() && iq[i].seq == s && is_queue_winner(uops, iq, rob, cycle, ptr, iq[i].phys_iq, i)
}

/// For each physical queue, its oldest pickable entry `(position, seq, queue)`,
/// in queue order.
pub fn ready_iq_winners(cycle: u64, lsid_issue_ptr: usize, iq: &Vec<IqEntry>, uops: &Vec<CycleUop>, rob: &VecDeque<usize>) -> (r: Vec<(usize, usize, PhysIq)>)
    requires
        forall|i: int| 0 <= i < iq@.len() ==> (#[trigger] iq@[i]).seq < uops@.len(),
        uops_wf(uops@),
    ensures
        winners_ok(uops@, iq@, rob@, cycle, lsid_issue_ptr, r@),
{
    let mut out: Vec<(usize, usize, PhysIq)> = Vec::new();
    let mut qi: usize = 0;
    while qi < PHYS_IQ_COUNT
        invariant
            qi <= PHYS_IQ_COUNT,
            forall|i: int| 0 <= i < iq@.len() ==> (#[trigger] iq@[i]).seq < uops@.len(),
            uops_wf(uops@),
            forall|k: int| 0 <= k < out@.len() ==> is_queue_winner(uops@, iq@, rob@, cycle, lsid_issue_ptr, (#[trigger] out@[k]).2, out@[k].0 as int)
                && 0 <= out@[k].0 < iq@.len() && iq@[out@[k].0 as int].seq == out@[k].1 && spec_phys_iq_index(out@[k].2) < qi,
            forall|a: int, b: int| 0 <= a < b < out@.len() ==> spec_phys_iq_index((#[trigger] out@[a]).2) < spec_phys_iq_index((#[trigger] out@[b]).2),
            forall|j: int| 0 <= j < iq@.len() && pickable(uops@, #[trigger] iq@[j], cycle, lsid_issue_ptr) && spec_phys_iq_index(iq@[j].phys_iq) < qi
                ==> queue_listed(out@, iq@[j].phys_iq),
        decreases PHYS_IQ_COUNT - qi,
    {
        let q = phys_iq_of_index(qi);
        let best = queue_winner(q, cycle, lsid_issue_ptr, iq, uops, rob);
        let ghost prev = out@;
        if let Some(b) = best {
            out.push((b, iq[b].seq, q));
            proof {
                reveal(queue_listed);
                assert forall|j: int| 0 <= j < iq@.len() && pickable(uops@, #[trigger] iq@[j], cycle, lsid_issue_ptr) && spec_phys_iq_index(iq@[j].phys_iq) < qi + 1
                    implies queue_listed(out@, iq@[j].phys_iq) by {
                    if spec_phys_iq_index(iq@[j].phys_iq) == qi {
                        crate::model::lemma_phys_iq_index_injective(iq@[j].phys_iq, q);
                        assert(out@[out@.len() - 1].2 == iq@[j].phys_iq);
                    } else {
                        assert(queue_listed(prev, iq@[j].phys_iq));
                        let k = choose|k: int| 0 <= k < prev.len() && prev[k].2 == iq@[j].phys_iq;
                        assert(out@[k].2 == iq@[j].phys_iq);
                    }
                }
            }
        } else {
            proof {
                assert forall|j: int| 0 <= j < iq@.len() && pickable(uops@, #[trigger] iq@[j], cycle, lsid_issue_ptr) && spec_phys_iq_index(iq@[j].phys_iq) < qi + 1
                    implies queue_listed(out@, iq@[j].phys_iq) by {
                    if spec_phys_iq_index(iq@[j].phys_iq) == qi {
                        crate::model::lemma_phys_iq_index_injective(iq@[j].phys_iq, q);
                    }
                }
            }
        }
        qi += 1;
    }
    out
}

pub open spec fn entry_same_but_inflight(a: IqEntry, b: IqEntry) -> bool {
    a.seq == b.seq && a.phys_iq == b.phys_iq && a.src_valid == b.src_valid && a.src_ready_nonspec == b.src_ready_nonspec
        && a.src_ready_spec == b.src_ready_spec && a.src_wait_qtag == b.src_wait_qtag
}

/// `s` with `x` placed after every element whose key is no greater than
/// its own: the step of a stable insertion sort by `key`.
pub open spec fn key_insert(s: Seq<usize>, x: usize, key: spec_fn(usize) -> usize) -> Seq<usize>
    decreases s.len(),
{
    if s.len() == 0 || key(s.last()) <= key(x) {
        s.push(x)
    } else {
        key_insert(s.drop_last(), x, key).push(s.last())
    }
}

/// `v` sorted by `key`; equal keys keep their order in `v`.
pub open spec fn key_sorted(v: Seq<usize>, key: spec_fn(usize) -> usize) -> Seq<usize>
    decreases v.len(),
{
    if v.len() == 0 {
        Seq::empty()
    } else {
        key_insert(key_sorted(v.drop_last(), key), v.last(), key)
    }
}

proof fn lemma_key_insert_at(s: Seq<usize>, x: usize, key: spec_fn(usize) -> usize, pos: int)
    requires
        0 <= pos <= s.len(),
        forall|k: int| pos <= k < s.len() ==> key(s[k]) > key(x),
        pos == 0 || key(s[pos - 1]) <= key(x),
    ensures
        key_insert(s, x, key) == s.insert(pos, x),
    decreases s.len(),
{
    if s.len() == 0 {
        assert(s.insert(pos, x) =~= s.push(x));
    } else if key(s.last()) <= key(x) {
        assert(pos == s.len());
        assert(s.insert(pos, x) =~= s.push(x));
    } else {
        let d = s.drop_last();
        assert(pos < s.len());
        lemma_key_insert_at(d, x, key, pos);
        assert(d.insert(pos, x).push(s.last()) =~= s.insert(pos, x));
    }
}

/// The age rank of the micro-op at position `p` of a winner list.
pub open spec fn winner_key(w: Seq<(usize, usize, PhysIq)>, rob: Seq<usize>) -> spec_fn(usize) -> usize {
    |p: usize| spec_rob_rank(rob, w[p as int].1)
}

/// The positions of a winner list, oldest winner first (stable).
pub open spec fn pick_order(w: Seq<(usize, usize, PhysIq)>, rob: Seq<usize>) -> Seq<usize> {
    key_sorted(Seq::new(w.len(), |i: int| i as usize), winner_key(w, rob))
}

/// The positions of the winners, oldest first (stable for equal ranks).
fn sort_winners_by_rank(w: &Vec<(usize, usize, PhysIq)>, rob: &VecDeque<usize>) -> (r: Vec<usize>)
    ensures
        forall|k: int| 0 <= k < r@.len() ==> (#[trigger] r@[k]) < w@.len(),
        r@ == pick_order(w@, rob@),
{
    let ghost idxs = Seq::new(w@.len(), |i: int| i as usize);
    let ghost key = winner_key(w@, rob@);
    let mut out: Vec<usize> = Vec::new();
    let mut i: usize = 0;
    while i < w.len()
        invariant
            i <= w@.len(),
            forall|k: int| 0 <= k < out@.len() ==> (#[trigger] out@[k]) < i,
            idxs == Seq::new(w@.len(), |i: int| i as usize),
            key == winner_key(w@, rob@),
            out@ == key_sorted(idxs.take(i as int), key),
        decreases w@.len() - i,
    {
        let rx = rob_age_rank(w[i].1, rob);
        let mut pos: usize = out.len();
        while pos > 0 && rob_age_rank(w[out[pos - 1]].1, rob) > rx
            invariant
                pos <= out@.len(),
                forall|k: int| 0 <= k < out@.len() ==> (#[trigger] out@[k]) < i,
                i < w@.len(),
                key == winner_key(w@, rob@),
                rx == spec_rob_rank(rob@, w@[i as int].1),
                forall|k: int| pos <= k < out@.len() ==> key(out@[k]) > key(i),
            decreases pos,
        {
            pos -= 1;
        }
        let ghost before = out@;
        out.insert(pos, i);
        proof {
            before.insert_ensures(pos as int, i);
            lemma_key_insert_at(before, i, key, pos as int);
            assert(idxs.take(i + 1).drop_last() =~= idxs.take(i as int));
            assert(idxs.take(i + 1).last() == i);
            assert forall|k: int| 0 <= k < out@.len() implies (#[trigger] out@[k]) < i + 1 by {
                if k < pos {
                    assert(out@[k] == before[k]);
                } else if k > pos {
                    assert(out@[k] == before[k - 1]);
                }
            }
        }
        i += 1;
    }
    assert(idxs.take(w@.len() as int) =~= idxs);
    out
}

/// A queue has at most one winner.
pub proof fn lemma_winner_unique(uops: Seq<CycleUop>, iq: Seq<IqEntry>, rob: Seq<usize>, cycle: u64, ptr: usize, q: PhysIq, a: int, b: int)
    requires
        is_queue_winner(uops, iq, rob, cycle, ptr, q, a),
        is_queue_winner(uops, iq, rob, cycle, ptr, q, b),
    ensures
        a == b,
{
    reveal(is_queue_winner);
    assert(older_or_same(iq, rob, a, b));
    assert(older_or_same(iq, rob, b, a));
}

proof fn lemma_key_insert_len(s: Seq<usize>, x: usize, key: spec_fn(usize) -> usize)
    ensures
        key_insert(s, x, key).len() == s.len() + 1,
    decreases s.len(),
{
    if s.len() > 0 && key(s.last()) > key(x) {
        lemma_key_insert_len(s.drop_last(), x, key);
    }
}

proof fn lemma_key_sorted_len(v: Seq<usize>, key: spec_fn(usize) -> usize)
    ensures
        key_sorted(v, key).len() == v.len(),
    decreases v.len(),
{
    if v.len() > 0 {
        lemma_key_sorted_len(v.drop_last(), key);
        lemma_key_insert_len(key_sorted(v.drop_last(), key), v.last(), key);
    }
}

/// Two winner lists in strictly increasing queue order that hold the same
/// elements are the same list.
proof fn lemma_sorted_lists_equal(a: Seq<(usize, usize, PhysIq)>, b: Seq<(usize, usize, PhysIq)>)
    requires
        forall|i: int, j: int| 0 <= i < j < a.len() ==> spec_phys_iq_index((#[trigger] a[i]).2) < spec_phys_iq_index((#[trigger] a[j]).2),
        forall|i: int, j: int| 0 <= i < j < b.len() ==> spec_phys_iq_index((#[trigger] b[i]).2) < spec_phys_iq_index((#[trigger] b[j]).2),
        forall|x: (usize, usize, PhysIq)| a.contains(x) <==> b.contains(x),
    ensures
        a == b,
    decreases a.len() + b.len(),
{
    if a.len() == 0 {
        if b.len() > 0 {
            assert(b.contains(b[0]));
        }
        assert(a =~= b);
    } else if b.len() == 0 {
        assert(a.contains(a[0]));
    } else {
        assert(a.contains(a[0]));
        assert(b.contains(b[0]));
        let k = choose|k: int| 0 <= k < b.len() && b[k] == a[0];
        let j = choose|j: int| 0 <= j < a.len() && a[j] == b[0];
        if j > 0 {
            assert(spec_phys_iq_index(a[0].2) < spec_phys_iq_index(a[j].2));
        }
        if k > 0 {
            assert(spec_phys_iq_index(b[0].2) < spec_phys_iq_index(b[k].2));
        }
        assert(a[0] == b[0]);
        let a1 = a.drop_first();
        let b1 = b.drop_first();
        assert forall|x: (usize, usize, PhysIq)| a1.contains(x) implies b1.contains(x) by {
            let i = choose|i: int| 0 <= i < a1.len() && a1[i] == x;
            assert(a.contains(x) && a[i + 1] == x);
            let m = choose|m: int| 0 <= m < b.len() && b[m] == x;
            if m == 0 {
                assert(spec_phys_iq_index(a[0].2) < spec_phys_iq_index(a[i + 1].2));
            }
            assert(b1[m - 1] == x);
        }
        assert forall|x: (usize, usize, PhysIq)| b1.contains(x) implies a1.contains(x) by {
            let i = choose|i: int| 0 <= i < b1.len() && b1[i] == x;
            assert(b.contains(x) && b[i + 1] == x);
            let m = choose|m: int| 0 <= m < a.len() && a[m] == x;
            if m == 0 {
                assert(spec_phys_iq_index(b[0].2) < spec_phys_iq_index(b[i + 1].2));
            }
            assert(a1[m - 1] == x);
        }
        assert forall|i: int, j: int| 0 <= i < j < a1.len() implies spec_phys_iq_index((#[trigger] a1[i]).2) < spec_phys_iq_index((#[trigger] a1[j]).2) by {
            assert(a1[i] == a[i + 1] && a1[j] == a[j + 1]);
        }
        assert forall|i: int, j: int| 0 <= i < j < b1.len() implies spec_phys_iq_index((#[trigger] b1[i]).2) < spec_phys_iq_index((#[trigger] b1[j]).2) by {
            assert(b1[i] == b[i + 1] && b1[j] == b[j + 1]);
        }
        lemma_sorted_lists_equal(a1, b1);
        assert(a =~= seq![a[0]] + a1);
        assert(b =~= seq![b[0]] + b1);
    }
}

proof fn lemma_winners_contained(uops: Seq<CycleUop>, iq: Seq<IqEntry>, rob: Seq<usize>, cycle: u64, ptr: usize, w1: Seq<(usize, usize, PhysIq)>, w2: Seq<(usize, usize, PhysIq)>, x: (usize, usize, PhysIq))
    requires
        winners_ok(uops, iq, rob, cycle, ptr, w1),
        winners_ok(uops, iq, rob, cycle, ptr, w2),
        w1.contains(x),
    ensures
        w2.contains(x),
{
    let k = choose|k: int| 0 <= k < w1.len() && w1[k] == x;
    assert(is_queue_winner(uops, iq, rob, cycle, ptr, w1[k].2, w1[k].0 as int));
    reveal(is_queue_winner);
    let p = x.0 as int;
    assert(pickable(uops, iq[p], cycle, ptr));
    assert(queue_listed(w2, iq[p].phys_iq));
    reveal(queue_listed);
    let k2 = choose|k2: int| 0 <= k2 < w2.len() && w2[k2].2 == iq[p].phys_iq;
    assert(is_queue_winner(uops, iq, rob, cycle, ptr, w2[k2].2, w2[k2].0 as int));
    lemma_winner_unique(uops, iq, rob, cycle, ptr, x.2, p, w2[k2].0 as int);
    assert(w2[k2] == x);
}

/// The winner list of a queue state is unique: one winner per queue that
/// has a pickable entry, in queue order.
pub proof fn law_winners_unique(uops: Seq<CycleUop>, iq: Seq<IqEntry>, rob: Seq<usize>, cycle: u64, ptr: usize, w1: Seq<(usize, usize, PhysIq)>, w2: Seq<(usize, usize, PhysIq)>)
    requires
        winners_ok(uops, iq, rob, cycle, ptr, w1),
        winners_ok(uops, iq, rob, cycle, ptr, w2),
    ensures
        w1 == w2,
{
    assert forall|x: (usize, usize, PhysIq)| w1.contains(x) <==> w2.contains(x) by {
        if w1.contains(x) {
            lemma_winners_contained(uops, iq, rob, cycle, ptr, w1, w2, x);
        }
        if w2.contains(x) {
            lemma_winners_contained(uops, iq, rob, cycle, ptr, w2, w1, x);
        }
    }
    lemma_sorted_lists_equal(w1, w2);
}

/// How many winners P1 takes: as many as fit below the issue width.
pub open spec fn pick_count(p1_len: nat, n: nat) -> nat {
    if p1_len >= ISSUE_WIDTH {
        0
    } else if n <= ISSUE_WIDTH - p1_len {
        n
    } else {
        (ISSUE_WIDTH - p1_len) as nat
    }
}

/// The seqs of the first `k` winners in the order `order`.
pub open spec fn picked_seqs(w: Seq<(usize, usize, PhysIq)>, order: Seq<usize>, k: nat) -> Seq<usize> {
    Seq::new(k, |j: int| w[order[j] as int].1)
}

/// `iq` with the entries of the first `k` winners (in the order `order`)
/// marked in flight.
pub open spec fn mark_picked(iq: Seq<IqEntry>, w: Seq<(usize, usize, PhysIq)>, order: Seq<usize>, k: nat) -> Seq<IqEntry>
    decreases k,
{
    if k == 0 {
        iq
    } else {
        let prev = mark_picked(iq, w, order, (k - 1) as nat);
        let idx = w[order[k - 1] as int].0 as int;
        prev.update(idx, IqEntry { inflight: true, ..prev[idx] })
    }
}

/// What the pick does to the issue queue and P1.
pub open spec fn pick_post(cycle: u64, ptr: usize, iq_old: Seq<IqEntry>, uops: Seq<CycleUop>, p1_old: Seq<usize>, rob: Seq<usize>, iq_new: Seq<IqEntry>, p1_new: Seq<usize>) -> bool {
    &&& iq_new.len() == iq_old.len()
    &&& forall|i: int| 0 <= i < iq_old.len() ==> entry_same_but_inflight(#[trigger] iq_old[i], iq_new[i])
    &&& forall|i: int| 0 <= i < iq_old.len() && !iq_new[i].inflight ==> !(#[trigger] iq_old[i]).inflight
    &&& p1_new.len() >= p1_old.len()
    &&& p1_new.subrange(0, p1_old.len() as int) == p1_old
    &&& p1_old.len() >= ISSUE_WIDTH ==> p1_new == p1_old
    &&& p1_old.len() < ISSUE_WIDTH ==> p1_new.len() <= ISSUE_WIDTH
    &&& forall|k: int| p1_old.len() <= k < p1_new.len() ==> picked_ok(uops, iq_old, rob, cycle, ptr, #[trigger] p1_new[k])
    &&& exists|w: Seq<(usize, usize, PhysIq)>| #[trigger] winners_ok(uops, iq_old, rob, cycle, ptr, w)
        && p1_new == p1_old + picked_seqs(w, pick_order(w, rob), pick_count(p1_old.len(), w.len()))
        && iq_new == mark_picked(iq_old, w, pick_order(w, rob), pick_count(p1_old.len(), w.len()))
}

/// Moves each queue's winner into P1, oldest first, while P1 has room; the
/// picked entries stay in the queue, marked in flight.
pub fn pick_from_iq(cycle: u64, lsid_issue_ptr: usize, iq: &mut Vec<IqEntry>, uops: &Vec<CycleUop>, p1: &mut VecDeque<usize>, rob: &VecDeque<usize>)
    requires
        forall|i: int| 0 <= i < old(iq)@.len() ==> (#[trigger] old(iq)@[i]).seq < uops@.len(),
        uops_wf(uops@),
    ensures
        pick_post(cycle, lsid_issue_ptr, old(iq)@, uops@, old(p1)@, rob@, final(iq)@, final(p1)@),
{
    let ghost iq0 = iq@;
    let ghost p10 = p1@;
    let winners = ready_iq_winners(cycle, lsid_issue_ptr, iq, uops, rob);
    let candidates = sort_winners_by_rank(&winners, rob);
    let ghost order = pick_order(winners@, rob@);
    let ghost count = pick_count(p10.len(), winners@.len());
    proof {
        lemma_key_sorted_len(Seq::new(winners@.len(), |i: int| i as usize), winner_key(winners@, rob@));
        assert(p1@ =~= p10 + picked_seqs(winners@, order, 0));
    }
    let mut c: usize = 0;
    while c < candidates.len()
        invariant
            c <= count,
            candidates@ == order,
            candidates@.len() == winners@.len(),
            count == pick_count(p10.len(), winners@.len()),
            p1@ == p10 + picked_seqs(winners@, order, c as nat),
            iq@ == mark_picked(iq0, winners@, order, c as nat),
            c <= candidates@.len(),
            forall|k: int| 0 <= k < candidates@.len() ==> (#[trigger] candidates@[k]) < winners@.len(),
            iq@.len() == iq0.len(),
            winners_ok(uops@, iq0, rob@, cycle, lsid_issue_ptr, winners@),
            forall|i: int| 0 <= i < iq0.len() ==> entry_same_but_inflight(#[trigger] iq0[i], iq@[i]),
            forall|i: int| 0 <= i < iq0.len() && !iq@[i].inflight ==> !(#[trigger] iq0[i]).inflight,
            p1@.len() >= p10.len(),
            p1@.subrange(0, p10.len() as int) == p10,
            p10.len() >= ISSUE_WIDTH ==> p1@ == p10,
            p10.len() < ISSUE_WIDTH ==> p1@.len() <= ISSUE_WIDTH,
            forall|m: int| p10.len() <= m < p1@.len() ==> picked_ok(uops@, iq0, rob@, cycle, lsid_issue_ptr, #[trigger] p1@[m]),
        ensures
            c == count,
            p1@ == p10 + picked_seqs(winners@, order, c as nat),
            iq@ == mark_picked(iq0, winners@, order, c as nat),
        decreases candidates@.len() - c,
    {
        if p1.len() >= ISSUE_WIDTH {
            break;
        }
        let m = candidates[c];
        let idx = winners[m].0;
        let seq = winners[m].1;
        proof {
            assert(is_queue_winner(uops@, iq0, rob@, cycle, lsid_issue_ptr, winners@[m as int].2, winners@[m as int].0 as int));
            reveal(is_queue_winner);
            assert(iq0[idx as int].phys_iq == winners@[m as int].2);
        }
        let ghost prev_p1 = p1@;
        let ghost prev_iq = iq@;
        iq[idx].inflight = true;
        p1.push_back(seq);
        proof {
            assert(iq@ =~= mark_picked(iq0, winners@, order, (c + 1) as nat));
            assert(p1@ =~= p10 + picked_seqs(winners@, order, (c + 1) as nat));
            assert(p1@.subrange(0, p10.len() as int) =~= prev_p1.subrange(0, p10.len() as int));
            reveal(picked_ok);
            assert(iq0[idx as int].seq == seq);
            assert(picked_ok(uops@, iq0, rob@, cycle, lsid_issue_ptr, seq));
            assert forall|mm: int| p10.len() <= mm < p1@.len() implies picked_ok(uops@, iq0, rob@, cycle, lsid_issue_ptr, #[trigger] p1@[mm]) by {
                if mm < p1@.len() - 1 {
                    assert(p1@[mm] == prev_p1[mm]);
                }
            }
        }
        c += 1;
    }
    assert(winners_ok(uops@, iq0, rob@, cycle, lsid_issue_ptr, winners@));
}


} // verus!

verus! {

// ---------------------------------------------------------------------------
// P1 -> I1: register-file read-port arbitration.
// ---------------------------------------------------------------------------

/// The position of the first issue-queue entry of `seq`.
pub open spec fn entry_index_from(iq: Seq<IqEntry>, seq: usize, i: int) -> Option<int>
    decreases iq.len() - i,
{
    if i < 0 || i >= iq.len() {
        None
    } else if iq[i].seq == seq {
        Some(i)
    } else {
        entry_index_from(iq, seq, i + 1)
    }
}

pub open spec fn entry_index(iq: Seq<IqEntry>, seq: usize) -> Option<int> {
    entry_index_from(iq, seq, 0)
}

proof fn lemma_entry_index_from(iq: Seq<IqEntry>, seq: usize, i: int)
    ensures
        entry_index_from(iq, seq, i) matches Some(j) ==> i <= j < iq.len() && iq[j].seq == seq,
    decreases iq.len() - i,
{
    if 0 <= i < iq.len() {
        lemma_entry_index_from(iq, seq, i + 1);
    }
}

fn find_entry(iq: &Vec<IqEntry>, seq: usize) -> (r: Option<usize>)
    ensures
        r matches Some(j) ==> entry_index(iq@, seq) == Some(j as int) && j < iq@.len() && iq@[j as int].seq == seq,
        r is None ==> entry_index(iq@, seq) is None,
{
    proof {
        lemma_entry_index_from(iq@, seq, 0);
    }
    let mut i: usize = 0;
    while i < iq.len()
        invariant
            i <= iq@.len(),
            entry_index_from(iq@, seq, i as int) == entry_index(iq@, seq),
        decreases iq@.len() - i,
    {
        if iq[i].seq == seq {
            return Some(i);
        }
        i += 1;
    }
    None
}

/// Read ports used by a list of granted micro-ops.
pub open spec fn ports_of(uops: Seq<CycleUop>, iq: Seq<IqEntry>, adm: Seq<usize>, cycle: u64) -> nat
    decreases adm.len(),
{
    if adm.len() == 0 {
        0
    } else {
        ports_of(uops, iq, adm.drop_last(), cycle) + match entry_index(iq, adm.last()) {
            Some(j) => ports_needed(uops, iq[j], cycle),
            None => 0,
        }
    }
}

pub open spec fn queue_of(iq: Seq<IqEntry>, seq: usize) -> int {
    match entry_index(iq, seq) {
        Some(j) => spec_phys_iq_index(iq[j].phys_iq) as int,
        None => -1,
    }
}

/// What read-port arbitration has decided so far in a cycle: the grants,
/// the read ports and queues they took, and the issue queue.
pub struct ArbFold {
    pub granted: Seq<usize>,
    pub ports: nat,
    pub used: Set<int>,
    pub iq: Seq<IqEntry>,
}

/// One P1 micro-op's turn: it is granted when no other micro-op of its queue
/// was granted this cycle and the read ports it needs are still free;
/// otherwise its issue-queue entry stops being in flight.
pub open spec fn arb_step(uops: Seq<CycleUop>, cycle: u64, iq0: Seq<IqEntry>, st: ArbFold, seq: usize) -> ArbFold {
    match entry_index(iq0, seq) {
        None => st,
        Some(j) => {
            let need = ports_needed(uops, iq0[j], cycle);
            let q = spec_phys_iq_index(iq0[j].phys_iq) as int;
            if !st.used.contains(q) && st.ports + need <= READ_PORTS {
                ArbFold { granted: st.granted.push(seq), ports: st.ports + need, used: st.used.insert(q), iq: st.iq }
            } else {
                ArbFold { iq: st.iq.update(j, IqEntry { inflight: false, ..st.iq[j] }), ..st }
            }
        },
    }
}

/// The turns of the first `k` attempts.
pub open spec fn arb_fold(uops: Seq<CycleUop>, cycle: u64, iq0: Seq<IqEntry>, attempts: Seq<usize>, k: int) -> ArbFold
    decreases k,
{
    if k <= 0 {
        ArbFold { granted: Seq::empty(), ports: 0, used: Set::empty(), iq: iq0 }
    } else {
        arb_step(uops, cycle, iq0, arb_fold(uops, cycle, iq0, attempts, k - 1), attempts[k - 1])
    }
}

/// What read-port arbitration does to P1 and the issue queue, and what it
/// grants.
pub open spec fn arbitrate_post(cycle: u64, p1_old: Seq<usize>, iq_old: Seq<IqEntry>, uops: Seq<CycleUop>, rob: Seq<usize>, p1_new: Seq<usize>, iq_new: Seq<IqEntry>, granted: Seq<usize>) -> bool {
    &&& p1_new.len() == 0
    &&& iq_new.len() == iq_old.len()
    &&& forall|i: int| 0 <= i < iq_old.len() ==> entry_same_but_inflight(#[trigger] iq_old[i], iq_new[i])
    &&& forall|i: int| 0 <= i < iq_old.len() && iq_new[i].inflight ==> (#[trigger] iq_old[i]).inflight
    &&& forall|k: int| 0 <= k < granted.len() ==> p1_old.contains(#[trigger] granted[k]) && entry_index(iq_old, granted[k]) is Some
    &&& forall|a: int, b: int| 0 <= a < b < granted.len() ==> queue_of(iq_old, #[trigger] granted[a]) != queue_of(iq_old, #[trigger] granted[b])
    &&& ports_of(uops, iq_old, granted, cycle) <= READ_PORTS
    &&& sorted_by_rank(granted, rob)
    &&& ({
        let f = arb_fold(uops, cycle, iq_old, crate::select::rank_sorted(p1_old, rob), p1_old.len() as int);
        &&& granted == f.granted
        &&& iq_new == f.iq
    })
}

/// Picks the P1 micro-ops that advance to I1 this cycle, oldest first: at most
/// one per physical queue, within the register-file read ports. The others
/// leave P1 and their entries are no longer in flight, so they can be picked again.
pub fn arbitrate_i1(cycle: u64, p1: &mut VecDeque<usize>, iq: &mut Vec<IqEntry>, uops: &Vec<CycleUop>, rob: &VecDeque<usize>) -> (granted: VecDeque<usize>)
    requires
        forall|i: int| 0 <= i < old(iq)@.len() ==> (#[trigger] old(iq)@[i]).seq < uops@.len(),
        uops_wf(uops@),
    ensures
        arbitrate_post(cycle, old(p1)@, old(iq)@, uops@, rob@, final(p1)@, final(iq)@, granted@),
{
    let ghost iq0 = iq@;
    let ghost p10 = p1@;
    let mut drained: Vec<usize> = Vec::new();
    while p1.len() > 0
        invariant
            drained@ + p1@ == p10,
        decreases p1@.len(),
    {
        let s = p1.pop_front().unwrap();
        proof {
            assert(drained@.push(s) + p1@ =~= p10);
        }
        drained.push(s);
    }
    assert(drained@ =~= p10);
    let attempts = sort_by_rob_rank(drained, rob);
    proof {
        assert forall|k: int| 0 <= k < attempts@.len() implies p10.contains(#[trigger] attempts@[k]) by {
            assert(attempts@.to_multiset().count(attempts@[k]) > 0);
            assert(p10.to_multiset().count(attempts@[k]) > 0);
        }
    }
    let mut granted: VecDeque<usize> = VecDeque::new();
    let mut used_ports: usize = 0;
    let mut used_queues: [bool; PHYS_IQ_COUNT] = [false, false, false, false, false, false, false, false];
    let ghost mut pos: Seq<int> = Seq::empty();
    let mut t: usize = 0;
    while t < attempts.len()
        invariant
            t <= attempts@.len(),
            forall|k: int| 0 <= k < attempts@.len() ==> p10.contains(#[trigger] attempts@[k]),
            sorted_by_rank(attempts@, rob@),
            iq@.len() == iq0.len(),
            forall|i: int| 0 <= i < iq0.len() ==> (#[trigger] iq0[i]).seq < uops@.len(),
            uops_wf(uops@),
            forall|i: int| 0 <= i < iq0.len() ==> entry_same_but_inflight(#[trigger] iq0[i], iq@[i]),
            forall|i: int| 0 <= i < iq0.len() && iq@[i].inflight ==> (#[trigger] iq0[i]).inflight,
            pos.len() == granted@.len(),
            forall|k: int| 0 <= k < pos.len() ==> 0 <= #[trigger] pos[k] < t && attempts@[pos[k]] == granted@[k],
            forall|a: int, b: int| 0 <= a < b < pos.len() ==> #[trigger] pos[a] < #[trigger] pos[b],
            forall|k: int| 0 <= k < granted@.len() ==> entry_index(iq0, #[trigger] granted@[k]) is Some,
            forall|k: int| 0 <= k < granted@.len() ==> 0 <= queue_of(iq0, #[trigger] granted@[k]) < PHYS_IQ_COUNT && used_queues[queue_of(iq0, granted@[k])],
            forall|a: int, b: int| 0 <= a < b < granted@.len() ==> queue_of(iq0, #[trigger] granted@[a]) != queue_of(iq0, #[trigger] granted@[b]),
            used_ports == ports_of(uops@, iq0, granted@, cycle),
            used_ports <= READ_PORTS,
            attempts@ == crate::select::rank_sorted(p10, rob@),
            ({
                let f = arb_fold(uops@, cycle, iq0, attempts@, t as int);
                &&& granted@ == f.granted
                &&& used_ports == f.ports
                &&& forall|q: int| 0 <= q < PHYS_IQ_COUNT ==> (used_queues[q] <==> f.used.contains(q))
                &&& forall|q: int| f.used.contains(q) ==> 0 <= q < PHYS_IQ_COUNT
                &&& iq@ == f.iq
            }),
        decreases attempts@.len() - t,
    {
        let seq = attempts[t];
        let Some(j) = find_entry(iq, seq) else {
            proof {
                lemma_entry_index_same_seqs(iq0, iq@, seq, 0);
            }
            t += 1;
            continue;
        };
        proof {
            lemma_entry_index_same_seqs(iq0, iq@, seq, 0);
            assert(entry_same_but_inflight(iq0[j as int], iq@[j as int]));
        }
        let entry = iq[j];
        let needed = read_ports_needed_from_entry(&entry, cycle, uops);
        let q = entry.phys_iq.index();
        proof {
            assert(ports_needed(uops@, entry, cycle) == ports_needed(uops@, iq0[j as int], cycle));
        }
        if !used_queues[q] && used_ports + needed <= READ_PORTS {
            let ghost prev = granted@;
            used_ports += needed;
            used_queues[q] = true;
            granted.push_back(seq);
            proof {
                pos = pos.push(t as int);
                assert(granted@.drop_last() =~= prev);
                assert(queue_of(iq0, seq) == q);
                assert forall|a: int, b: int| 0 <= a < b < granted@.len() implies queue_of(iq0, #[trigger] granted@[a]) != queue_of(iq0, #[trigger] granted@[b]) by {
                    if b == granted@.len() - 1 {
                        assert(granted@[a] == prev[a]);
                    } else {
                        assert(granted@[a] == prev[a]);
                        assert(granted@[b] == prev[b]);
                    }
                }
                assert forall|k: int| 0 <= k < granted@.len() implies 0 <= queue_of(iq0, #[trigger] granted@[k]) < PHYS_IQ_COUNT && used_queues[queue_of(iq0, granted@[k])] by {
                    if k < prev.len() {
                        assert(granted@[k] == prev[k]);
                    }
                }
            }
        } else {
            iq[j].inflight = false;
        }
        t += 1;
    }
    proof {
        assert forall|k: int| 0 <= k < granted@.len() implies p10.contains(#[trigger] granted@[k]) by {
            assert(attempts@[pos[k]] == granted@[k]);
        }
        assert forall|a: int, b: int| 0 <= a < b < granted@.len() implies spec_rob_rank(rob@, granted@[a]) <= spec_rob_rank(rob@, granted@[b]) by {
            assert(pos[a] < pos[b]);
            assert(attempts@[pos[a]] == granted@[a]);
            assert(attempts@[pos[b]] == granted@[b]);
        }
    }
    granted
}

proof fn lemma_entry_index_same_seqs(a: Seq<IqEntry>, b: Seq<IqEntry>, seq: usize, i: int)
    requires
        a.len() == b.len(),
        forall|k: int| 0 <= k < a.len() ==> entry_same_but_inflight(#[trigger] a[k], b[k]),
    ensures
        entry_index_from(a, seq, i) == entry_index_from(b, seq, i),
    decreases a.len() - i,
{
    if 0 <= i < a.len() {
        assert(entry_same_but_inflight(a[i], b[i]));
        lemma_entry_index_same_seqs(a, b, seq, i + 1);
    }
}

/// Granted micro-ops enter I1 while it has room; the rest go back to P1.
pub fn advance_p1_to_i1(i1: &mut VecDeque<usize>, granted_i1: &mut VecDeque<usize>, p1: &mut VecDeque<usize>)
    ensures
        ({
            let k = spec_moved(old(i1)@.len() as int, old(granted_i1)@.len() as int, ISSUE_WIDTH as int);
            &&& final(i1)@ == old(i1)@ + old(granted_i1)@.take(k)
            &&& final(p1)@ == old(p1)@ + old(granted_i1)@.skip(k)
            &&& final(granted_i1)@.len() == 0
        }),
{
    advance_simple(i1, granted_i1, ISSUE_WIDTH);
    let ghost rest = granted_i1@;
    let ghost p10 = p1@;
    while granted_i1.len() > 0
        invariant
            p1@ + granted_i1@ == p10 + rest,
        decreases granted_i1@.len(),
    {
        let s = granted_i1.pop_front().unwrap();
        proof {
            assert(p1@.push(s) + granted_i1@ =~= p10 + rest);
        }
        p1.push_back(s);
    }
    assert(p1@ =~= p10 + rest);
}

} // verus!

verus! {

// ---------------------------------------------------------------------------
// I1 -> I2: one entry per physical queue; granted entries leave the queue.
// ---------------------------------------------------------------------------

pub struct I1Fold {
    pub i2: Seq<usize>,
    pub stay: Seq<usize>,
    pub moved: Seq<usize>,
    pub used: Set<int>,
}

pub open spec fn i1_step(iq: Seq<IqEntry>, st: I1Fold, s: usize) -> I1Fold {
    if st.i2.len() >= ISSUE_WIDTH {
        I1Fold { stay: st.stay.push(s), ..st }
    } else {
        match entry_index(iq, s) {
            None => st,
            Some(j) => {
                let q = spec_phys_iq_index(iq[j].phys_iq) as int;
                if st.used.contains(q) {
                    I1Fold { stay: st.stay.push(s), ..st }
                } else {
                    I1Fold { i2: st.i2.push(s), moved: st.moved.push(s), used: st.used.insert(q), ..st }
                }
            },
        }
    }
}

/// The transfer of the first `k` I1 micro-ops.
pub open spec fn i1_fold(iq: Seq<IqEntry>, i2: Seq<usize>, i1: Seq<usize>, k: int) -> I1Fold
    decreases k,
{
    if k <= 0 {
        I1Fold { i2, stay: Seq::empty(), moved: Seq::empty(), used: Set::empty() }
    } else {
        i1_step(iq, i1_fold(iq, i2, i1, k - 1), i1[k - 1])
    }
}

proof fn lemma_i1_fold_queues(iq: Seq<IqEntry>, i2: Seq<usize>, i1: Seq<usize>, k: int)
    requires
        0 <= k <= i1.len(),
    ensures
        forall|m: int| 0 <= m < i1_fold(iq, i2, i1, k).moved.len() ==> i1_fold(iq, i2, i1, k).used.contains(
            queue_of(iq, #[trigger] i1_fold(iq, i2, i1, k).moved[m]),
        ),
        forall|a: int, b: int|
            0 <= a < b < i1_fold(iq, i2, i1, k).moved.len() ==> queue_of(iq, #[trigger] i1_fold(iq, i2, i1, k).moved[a])
                != queue_of(iq, #[trigger] i1_fold(iq, i2, i1, k).moved[b]),
    decreases k,
{
    if k > 0 {
        lemma_i1_fold_queues(iq, i2, i1, k - 1);
        let st = i1_fold(iq, i2, i1, k - 1);
        let f = i1_fold(iq, i2, i1, k);
        if f.moved != st.moved {
            let s = i1[k - 1];
            assert(f.moved == st.moved.push(s));
            assert(forall|m: int| 0 <= m < st.moved.len() ==> f.moved[m] == st.moved[m]);
        }
    }
}

/// Law: one cycle's transfer from I1 to I2 admits at most one micro-op per
/// physical issue queue.
pub proof fn law_i1_admits_one_per_queue(iq: Seq<IqEntry>, i2: Seq<usize>, i1: Seq<usize>, a: int, b: int)
    requires
        0 <= a < b < i1_fold(iq, i2, i1, i1.len() as int).moved.len(),
    ensures
        queue_of(iq, i1_fold(iq, i2, i1, i1.len() as int).moved[a]) != queue_of(
            iq,
            i1_fold(iq, i2, i1, i1.len() as int).moved[b],
        ),
{
    lemma_i1_fold_queues(iq, i2, i1, i1.len() as int);
}

proof fn lemma_i1_fold_elems(iq: Seq<IqEntry>, i2: Seq<usize>, i1: Seq<usize>, k: int)
    requires
        0 <= k <= i1.len(),
    ensures
        forall|x: usize| i1_fold(iq, i2, i1, k).i2.contains(x) ==> i2.contains(x) || i1.contains(x),
        forall|x: usize| i1_fold(iq, i2, i1, k).stay.contains(x) ==> i1.contains(x),
        forall|x: usize| i1_fold(iq, i2, i1, k).moved.contains(x) ==> i1.contains(x),
    decreases k,
{
    if k > 0 {
        lemma_i1_fold_elems(iq, i2, i1, k - 1);
        assert(i1.contains(i1[k - 1]));
    }
}

fn retain_unmoved(iq: &mut Vec<IqEntry>, moved: &Vec<usize>)
    ensures
        final(iq)@ == old(iq)@.filter(|e: IqEntry| !moved@.contains(e.seq)),
{
    let ghost pred = |e: IqEntry| !moved@.contains(e.seq);
    let mut out: Vec<IqEntry> = Vec::new();
    let mut i: usize = 0;
    while i < iq.len()
        invariant
            i <= iq@.len(),
            pred == |e: IqEntry| !moved@.contains(e.seq),
            out@ == iq@.take(i as int).filter(pred),
        decreases iq@.len() - i,
    {
        let e = iq[i];
        proof {
            assert(iq@.take(i + 1) =~= iq@.take(i as int).push(e));
            assert(iq@.take(i as int).push(e).filter(pred) == if pred(e) {
                iq@.take(i as int).filter(pred).push(e)
            } else {
                iq@.take(i as int).filter(pred)
            }) by {
                reveal_with_fuel(Seq::filter, 2);
                assert(iq@.take(i as int).push(e).drop_last() =~= iq@.take(i as int));
            }
        }
        if !crate::stages::queue_contains_vec(moved, e.seq) {
            out.push(e);
        }
        i += 1;
    }
    assert(iq@.take(iq@.len() as int) =~= iq@);
    *iq = out;
}

/// Filtering twice is filtering by both predicates.
proof fn lemma_filter_twice(s: Seq<(usize, usize)>, a: spec_fn((usize, usize)) -> bool, b: spec_fn((usize, usize)) -> bool)
    ensures
        s.filter(a).filter(b) == s.filter(|x: (usize, usize)| a(x) && b(x)),
    decreases s.len(),
{
    let ab = |x: (usize, usize)| a(x) && b(x);
    if s.len() == 0 {
        reveal(Seq::filter);
        assert(s.filter(a) =~= s);
        assert(s.filter(a).filter(b) =~= s.filter(ab));
    } else {
        let d = s.drop_last();
        let e = s.last();
        lemma_filter_twice(d, a, b);
        assert(s =~= d.push(e));
        d.lemma_filter_push(e, a);
        d.lemma_filter_push(e, ab);
        d.filter(a).lemma_filter_push(e, b);
    }
}

/// Filtering by a predicate that every element meets keeps everything.
proof fn lemma_filter_all(s: Seq<(usize, usize)>, a: spec_fn((usize, usize)) -> bool)
    requires
        forall|x: (usize, usize)| #[trigger] a(x),
    ensures
        s.filter(a) == s,
    decreases s.len(),
{
    if s.len() == 0 {
        reveal(Seq::filter);
    } else {
        let d = s.drop_last();
        lemma_filter_all(d, a);
        assert(s =~= d.push(s.last()));
        d.lemma_filter_push(s.last(), a);
    }
}

/// What moving I1 into I2 does to the pipeline and the issue queue.
pub open spec fn i1_to_i2_post(p_old: StageQueues, iq_old: Seq<IqEntry>, p_new: StageQueues, iq_new: Seq<IqEntry>) -> bool {
    &&& ({
        let f = i1_fold(iq_old, p_old.i2@, p_old.i1@, p_old.i1@.len() as int);
        &&& p_new.i2@ == f.i2
        &&& p_new.i1@ == f.stay
        &&& iq_new == iq_old.filter(|e: IqEntry| !f.moved.contains(e.seq))
        &&& p_new.iq_tags@ == p_old.iq_tags@.remove_keys(f.moved.to_set())
        &&& p_new.qtag_wait_crossbar@.len() == p_old.qtag_wait_crossbar@.len()
        &&& forall|s: int, x: (usize, usize)| 0 <= s < p_new.qtag_wait_crossbar@.len()
            ==> ((#[trigger] p_new.qtag_wait_crossbar@[s]@.contains(x))
                <==> (p_old.qtag_wait_crossbar@[s]@.contains(x) && !f.moved.contains(x.0)))
        &&& forall|s: int| 0 <= s < p_new.qtag_wait_crossbar@.len() ==> (#[trigger] p_new.qtag_wait_crossbar@[s])@
            == p_old.qtag_wait_crossbar@[s]@.filter(|x: (usize, usize)| !f.moved.contains(x.0))
    })
    &&& p_new.iq_owner_table@.len() == QTAG_SLOTS
    &&& forall|s: int| 0 <= s < QTAG_SLOTS ==> p_new.iq_owner_table@[s] == crate::iq::owner_of(iq_new, p_new.iq_tags@, s, iq_new.len() as int)
    &&& tags_in_range(p_new.iq_tags@)
    &&& p_new.frontend == p_old.frontend
    &&& p_new.p1 == p_old.p1
    &&& p_new.e1 == p_old.e1
    &&& p_new.lsid_issue_ptr == p_old.lsid_issue_ptr
    &&& p_new == (StageQueues {
        i1: p_new.i1,
        i2: p_new.i2,
        iq_tags: p_new.iq_tags,
        qtag_wait_crossbar: p_new.qtag_wait_crossbar,
        iq_owner_table: p_new.iq_owner_table,
        ..p_old
    })
    &&& forall|x: usize| #[trigger] p_new.i2@.contains(x) ==> p_old.i2@.contains(x) || p_old.i1@.contains(x)
    &&& forall|x: usize| #[trigger] p_new.i1@.contains(x) ==> p_old.i1@.contains(x)
}

/// Moves I1 micro-ops into I2 while it has room, at most one per physical
/// queue; those that move leave the issue queue, free their slot and stop
/// waiting on any slot.
pub fn advance_i1_to_i2(pipeline: &mut StageQueues, iq: &mut Vec<IqEntry>)
    requires
        old(pipeline).iq_owner_table@.len() == QTAG_SLOTS,
        tags_in_range(old(pipeline).iq_tags@),
    ensures
        i1_to_i2_post(*old(pipeline), old(iq)@, *final(pipeline), final(iq)@),
{
    broadcast use vstd::seq_lib::group_seq_properties;
    let ghost iq0 = iq@;
    let ghost i10 = pipeline.i1@;
    let ghost i20 = pipeline.i2@;
    let mut prev_i1: VecDeque<usize> = VecDeque::new();
    std::mem::swap(&mut prev_i1, &mut pipeline.i1);
    let mut moved: Vec<usize> = Vec::new();
    let mut stay: VecDeque<usize> = VecDeque::new();
    let mut used_queues: [bool; PHYS_IQ_COUNT] = [false, false, false, false, false, false, false, false];
    let mut k: usize = 0;
    while k < prev_i1.len()
        invariant
            k <= prev_i1@.len(),
            prev_i1@ == i10,
            iq@ == iq0,
            ({
                let f = i1_fold(iq0, i20, i10, k as int);
                &&& pipeline.i2@ == f.i2
                &&& stay@ == f.stay
                &&& moved@ == f.moved
                &&& forall|q: int| 0 <= q < PHYS_IQ_COUNT ==> (used_queues[q] <==> f.used.contains(q))
                &&& forall|q: int| f.used.contains(q) ==> 0 <= q < PHYS_IQ_COUNT
            }),
            pipeline.iq_owner_table@.len() == QTAG_SLOTS,
            tags_in_range(pipeline.iq_tags@),
            pipeline.frontend == old(pipeline).frontend,
            pipeline.p1 == old(pipeline).p1,
            pipeline.e1 == old(pipeline).e1,
            pipeline.iq_tags == old(pipeline).iq_tags,
            pipeline.qtag_wait_crossbar == old(pipeline).qtag_wait_crossbar,
            pipeline.lsid_issue_ptr == old(pipeline).lsid_issue_ptr,
            *pipeline == (StageQueues { i1: pipeline.i1, i2: pipeline.i2, ..*old(pipeline) }),
        decreases prev_i1@.len() - k,
    {
        let seq = prev_i1[k];
        if pipeline.i2.len() >= ISSUE_WIDTH {
            stay.push_back(seq);
        } else {
            match find_entry(iq, seq) {
                None => {},
                Some(j) => {
                    let q = iq[j].phys_iq.index();
                    if used_queues[q] {
                        stay.push_back(seq);
                    } else {
                        used_queues[q] = true;
                        pipeline.i2.push_back(seq);
                        moved.push(seq);
                    }
                },
            }
        }
        k += 1;
    }
    retain_unmoved(iq, &moved);
    let mut m: usize = 0;
    let ghost tags0 = pipeline.iq_tags@;
    let ghost cb0 = pipeline.qtag_wait_crossbar@;
    let ghost i2_done = pipeline.i2@;
    proof {
        assert forall|s: int| 0 <= s < pipeline.qtag_wait_crossbar@.len() implies (#[trigger] pipeline.qtag_wait_crossbar@[s])@
            == cb0[s]@.filter(|x: (usize, usize)| !moved@.take(0).contains(x.0)) by {
            lemma_filter_all(cb0[s]@, |x: (usize, usize)| !moved@.take(0).contains(x.0));
        }
    }
    while m < moved.len()
        invariant
            m <= moved@.len(),
            pipeline.i2@ == i2_done,
            pipeline.iq_tags@ == tags0.remove_keys(moved@.take(m as int).to_set()),
            tags_in_range(pipeline.iq_tags@),
            tags_in_range(tags0),
            pipeline.qtag_wait_crossbar@.len() == cb0.len(),
            forall|s: int, x: (usize, usize)| 0 <= s < pipeline.qtag_wait_crossbar@.len()
                ==> ((#[trigger] pipeline.qtag_wait_crossbar@[s]@.contains(x))
                    <==> (cb0[s]@.contains(x) && !moved@.take(m as int).contains(x.0))),
            forall|s: int| 0 <= s < pipeline.qtag_wait_crossbar@.len() ==> (#[trigger] pipeline.qtag_wait_crossbar@[s])@
                == cb0[s]@.filter(|x: (usize, usize)| !moved@.take(m as int).contains(x.0)),
            pipeline.iq_owner_table@.len() == QTAG_SLOTS,
            pipeline.frontend == old(pipeline).frontend,
            pipeline.p1 == old(pipeline).p1,
            pipeline.e1 == old(pipeline).e1,
            pipeline.lsid_issue_ptr == old(pipeline).lsid_issue_ptr,
            *pipeline == (StageQueues {
                i1: pipeline.i1,
                i2: pipeline.i2,
                iq_tags: pipeline.iq_tags,
                qtag_wait_crossbar: pipeline.qtag_wait_crossbar,
                ..*old(pipeline)
            }),
        decreases moved@.len() - m,
    {
        let seq = moved[m];
        let ghost cb1 = pipeline.qtag_wait_crossbar@;
        pipeline.iq_tags.remove(seq);
        unregister_iq_wait_crossbar_seq(&mut pipeline.qtag_wait_crossbar, seq);
        proof {
            assert forall|s: int| 0 <= s < pipeline.qtag_wait_crossbar@.len() implies (#[trigger] pipeline.qtag_wait_crossbar@[s])@
                == cb0[s]@.filter(|x: (usize, usize)| !moved@.take(m + 1).contains(x.0)) by {
                let pm = |x: (usize, usize)| !moved@.take(m as int).contains(x.0);
                let q = |p: (usize, usize)| p.0 != seq;
                let pm1 = |x: (usize, usize)| !moved@.take(m + 1).contains(x.0);
                assert(cb1[s]@ == cb0[s]@.filter(pm));
                lemma_filter_twice(cb0[s]@, pm, q);
                assert(moved@.take(m + 1) =~= moved@.take(m as int).push(seq));
                assert((|x: (usize, usize)| pm(x) && q(x)) =~= pm1);
            }
            assert(moved@.take(m + 1).to_set() =~= moved@.take(m as int).to_set().insert(seq)) by {
                assert(moved@.take(m + 1) =~= moved@.take(m as int).push(seq));
            }
            assert(pipeline.iq_tags@ =~= tags0.remove_keys(moved@.take(m + 1).to_set()));
            assert forall|s: int, x: (usize, usize)| 0 <= s < pipeline.qtag_wait_crossbar@.len()
                implies ((#[trigger] pipeline.qtag_wait_crossbar@[s]@.contains(x))
                    <==> (cb0[s]@.contains(x) && !moved@.take(m + 1).contains(x.0))) by {
                let pred = |p: (usize, usize)| p.0 != seq;
                assert(pipeline.qtag_wait_crossbar@[s]@ == cb1[s]@.filter(pred));
                assert(moved@.take(m + 1) =~= moved@.take(m as int).push(seq));
                if pipeline.qtag_wait_crossbar@[s]@.contains(x) {
                    cb1[s]@.lemma_filter_contains_rev(pred, x);
                    let jj = choose|jj: int| 0 <= jj < cb1[s]@.filter(pred).len() && cb1[s]@.filter(pred)[jj] == x;
                    cb1[s]@.lemma_filter_pred(pred, jj);
                }
                if cb0[s]@.contains(x) && !moved@.take(m + 1).contains(x.0) {
                    assert(cb1[s]@.contains(x));
                    let jj = choose|jj: int| 0 <= jj < cb1[s]@.len() && cb1[s]@[jj] == x;
                    cb1[s]@.lemma_filter_contains(pred, jj);
                }
            }
        }
        m += 1;
    }
    assert(moved@.take(moved@.len() as int) =~= moved@);
    proof {
        lemma_i1_fold_elems(iq0, i20, i10, i10.len() as int);
    }
    rebuild_iq_owner_table(&mut pipeline.iq_owner_table, iq, &pipeline.iq_tags);
    pipeline.i1 = stay;
}

} // verus!

verus! {

// ---------------------------------------------------------------------------
// I2 -> E1: eligible micro-ops enter execute in order; loads and stores take
// their LSU queue entries and advance the load/store id pointers.
// ---------------------------------------------------------------------------

pub struct I2Fold {
    pub e1: Seq<usize>,
    pub lhq: Seq<usize>,
    pub stq: Seq<usize>,
    pub issue_ptr: int,
    pub complete_ptr: int,
    pub stay: Seq<usize>,
}

pub open spec fn insert_once(q: Seq<usize>, s: usize) -> Seq<usize> {
    if q.contains(s) { q } else { q.push(s) }
}

pub open spec fn i2_accepts(uops: Seq<CycleUop>, cycle: u64, st: I2Fold, s: usize) -> bool {
    &&& spec_i2_ready(uops, s as int, cycle)
    &&& (uops[s as int].load_store_id matches Some(id) ==> id == st.issue_ptr)
    &&& st.e1.len() < ISSUE_WIDTH
    &&& (uops[s as int].is_load ==> loads_in(st.e1, uops) < crate::config::LSU_WIDTH)
}

pub open spec fn i2_step(uops: Seq<CycleUop>, cycle: u64, st: I2Fold, s: usize) -> I2Fold {
    if i2_accepts(uops, cycle, st, s) {
        let u = uops[s as int];
        let bump: int = if u.load_store_id is Some { 1 } else { 0 };
        I2Fold {
            e1: st.e1.push(s),
            lhq: if u.is_load { insert_once(st.lhq, s) } else { st.lhq },
            stq: if !u.is_load && u.is_store { insert_once(st.stq, s) } else { st.stq },
            issue_ptr: st.issue_ptr + bump,
            complete_ptr: st.complete_ptr + bump,
            stay: st.stay,
        }
    } else {
        I2Fold { stay: st.stay.push(s), ..st }
    }
}

/// The transfer of the first `k` I2 micro-ops.
pub open spec fn i2_fold(uops: Seq<CycleUop>, cycle: u64, init: I2Fold, i2: Seq<usize>, k: int) -> I2Fold
    decreases k,
{
    if k <= 0 {
        init
    } else {
        i2_step(uops, cycle, i2_fold(uops, cycle, init, i2, k - 1), i2[k - 1])
    }
}

proof fn lemma_i2_fold_bounds(uops: Seq<CycleUop>, cycle: u64, init: I2Fold, i2: Seq<usize>, k: int)
    requires
        0 <= k <= i2.len(),
        init.stay.len() == 0,
    ensures
        ({
            let f = i2_fold(uops, cycle, init, i2, k);
            &&& init.issue_ptr <= f.issue_ptr <= init.issue_ptr + k
            &&& f.complete_ptr - init.complete_ptr == f.issue_ptr - init.issue_ptr
            &&& f.e1.len() >= init.e1.len()
            &&& forall|x: usize| f.e1.contains(x) ==> init.e1.contains(x) || i2.take(k).contains(x)
            &&& forall|x: usize| f.lhq.contains(x) ==> init.lhq.contains(x) || i2.take(k).contains(x)
            &&& forall|x: usize| f.stq.contains(x) ==> init.stq.contains(x) || i2.take(k).contains(x)
            &&& forall|x: usize| f.stay.contains(x) ==> i2.take(k).contains(x)
        }),
    decreases k,
{
    broadcast use vstd::seq_lib::group_seq_properties;
    if k > 0 {
        lemma_i2_fold_bounds(uops, cycle, init, i2, k - 1);
        assert(i2.take(k) == i2.take(k - 1).push(i2[k - 1]));
    }
}

/// What the I2 stage does to its queues and the load/store pointers.
pub open spec fn i2_post(cycle: u64, uops: Seq<CycleUop>, i2_old: Seq<usize>, e1_old: Seq<usize>, lhq_old: Seq<usize>, stq_old: Seq<usize>, issue_old: usize, complete_old: usize, i2_new: Seq<usize>, e1_new: Seq<usize>, lhq_new: Seq<usize>, stq_new: Seq<usize>, issue_new: usize, complete_new: usize) -> bool {
    &&& ({
        let init = I2Fold {
            e1: e1_old,
            lhq: lhq_old,
            stq: stq_old,
            issue_ptr: issue_old as int,
            complete_ptr: complete_old as int,
            stay: Seq::empty(),
        };
        let f = i2_fold(uops, cycle, init, i2_old, i2_old.len() as int);
        &&& e1_new == f.e1
        &&& lhq_new == f.lhq
        &&& stq_new == f.stq
        &&& issue_new == f.issue_ptr
        &&& complete_new == f.complete_ptr
        &&& i2_new == f.stay
    })
    &&& complete_new <= issue_new
    &&& forall|x: usize| #[trigger] e1_new.contains(x) ==> e1_old.contains(x) || i2_old.contains(x)
    &&& forall|x: usize| #[trigger] lhq_new.contains(x) ==> lhq_old.contains(x) || i2_old.contains(x)
    &&& forall|x: usize| #[trigger] stq_new.contains(x) ==> stq_old.contains(x) || i2_old.contains(x)
    &&& forall|x: usize| #[trigger] i2_new.contains(x) ==> i2_old.contains(x)
}

/// Moves every I2 micro-op that is ready, holds the oldest outstanding
/// load/store id (if it has one) and finds room in E1 into E1, in I2 order;
/// the others stay in I2.
pub fn advance_i2(
    cycle: u64,
    i2: &mut VecDeque<usize>,
    e1: &mut VecDeque<usize>,
    lhq: &mut VecDeque<usize>,
    stq: &mut VecDeque<usize>,
    lsid_issue_ptr: &mut usize,
    lsid_complete_ptr: &mut usize,
    uops: &Vec<CycleUop>,
)
    requires
        uops_wf(uops@),
        forall|i: int| 0 <= i < old(i2)@.len() ==> (old(i2)@[i] as int) < uops@.len(),
        forall|i: int| 0 <= i < old(e1)@.len() ==> (old(e1)@[i] as int) < uops@.len(),
        crate::model::lsids_below_max(uops@),
        *old(lsid_complete_ptr) <= *old(lsid_issue_ptr),
    ensures
        i2_post(cycle, uops@, old(i2)@, old(e1)@, old(lhq)@, old(stq)@, *old(lsid_issue_ptr), *old(lsid_complete_ptr), final(i2)@, final(e1)@, final(lhq)@, final(stq)@, *final(lsid_issue_ptr), *final(lsid_complete_ptr)),
{
    let ghost init = I2Fold {
        e1: e1@,
        lhq: lhq@,
        stq: stq@,
        issue_ptr: *lsid_issue_ptr as int,
        complete_ptr: *lsid_complete_ptr as int,
        stay: Seq::empty(),
    };
    let ghost i20 = i2@;
    let mut stay: VecDeque<usize> = VecDeque::new();
    let mut k: usize = 0;
    while k < i2.len()
        invariant
            k <= i2@.len(),
            i2@ == i20,
            uops_wf(uops@),
            forall|i: int| 0 <= i < i20.len() ==> (i20[i] as int) < uops@.len(),
            forall|i: int| 0 <= i < init.e1.len() ==> (init.e1[i] as int) < uops@.len(),
            crate::model::lsids_below_max(uops@),
            init.complete_ptr <= init.issue_ptr,
            init.stay.len() == 0,
            ({
                let f = i2_fold(uops@, cycle, init, i20, k as int);
                &&& e1@ == f.e1
                &&& lhq@ == f.lhq
                &&& stq@ == f.stq
                &&& *lsid_issue_ptr == f.issue_ptr
                &&& *lsid_complete_ptr == f.complete_ptr
                &&& stay@ == f.stay
            }),
        decreases i20.len() - k,
    {
        proof {
            lemma_i2_fold_bounds(uops@, cycle, init, i20, k as int);
            assert forall|i: int| 0 <= i < e1@.len() implies (e1@[i] as int) < uops@.len() by {
                let x = e1@[i];
                assert(e1@.contains(x));
                if i20.take(k as int).contains(x) {
                    let j = choose|j: int| 0 <= j < i20.take(k as int).len() && i20.take(k as int)[j] == x;
                    assert(i20[j] == x);
                }
            }
        }
        let seq = i2[k];
        if i2_issue_eligible(seq, cycle, *lsid_issue_ptr, uops) && e1_can_accept(seq, e1, uops) {
            e1.push_back(seq);
            if uops[seq].is_load {
                lhq_insert(lhq, seq);
            } else if uops[seq].is_store {
                stq_insert(stq, seq);
            }
            if uops[seq].load_store_id.is_some() {
                *lsid_issue_ptr += 1;
                *lsid_complete_ptr += 1;
            }
        } else {
            stay.push_back(seq);
        }
        k += 1;
    }
    proof {
        lemma_i2_fold_bounds(uops@, cycle, init, i20, i20.len() as int);
        assert(i20.take(i20.len() as int) =~= i20);
    }
    *i2 = stay;
}

} // verus!
