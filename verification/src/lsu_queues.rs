use vstd::prelude::*;
use std::collections::VecDeque;
use crate::config::{ISSUE_WIDTH, L1D_WIDTH, LSU_WIDTH};
use crate::model::{CycleUop, L1dEntry, MdbEntry, ScbEntry};
use crate::stages::queue_contains;

verus! {

broadcast use vstd::seq_lib::group_seq_properties;

/// Adds `seq` to the load-hit queue unless it is there.
pub fn lhq_insert(lhq: &mut VecDeque<usize>, seq: usize)
    ensures
        final(lhq)@ == (if old(lhq)@.contains(seq) { old(lhq)@ } else { old(lhq)@.push(seq) }),
{
    if !queue_contains(lhq, seq) {
        lhq.push_back(seq);
    }
}

/// Adds `seq` to the store queue unless it is there.
pub fn stq_insert(stq: &mut VecDeque<usize>, seq: usize)
    ensures
        final(stq)@ == (if old(stq)@.contains(seq) { old(stq)@ } else { old(stq)@.push(seq) }),
{
    if !queue_contains(stq, seq) {
        stq.push_back(seq);
    }
}

/// `q` without any occurrence of `s`.
pub open spec fn drop_seq(q: Seq<usize>, s: usize) -> Seq<usize> {
    q.filter(differs_from(s))
}

pub open spec fn at_most(b: usize) -> spec_fn(usize) -> bool {
    |x: usize| x <= b
}

pub open spec fn differs_from(s: usize) -> spec_fn(usize) -> bool {
    |x: usize| x != s
}

pub proof fn lemma_drop_seq(q: Seq<usize>, s: usize)
    ensures
        forall|y: usize| #[trigger] drop_seq(q, s).contains(y) <==> (q.contains(y) && y != s),
{
    assert forall|y: usize| #[trigger] drop_seq(q, s).contains(y) implies (q.contains(y) && y != s) by {
        let fq = q.filter(differs_from(s));
        q.lemma_filter_contains_rev(differs_from(s), y);
        let j = choose|j: int| 0 <= j < fq.len() && #[trigger] fq[j] == y;
        q.lemma_filter_pred(differs_from(s), j);
    }
    assert forall|y: usize| q.contains(y) && y != s implies #[trigger] drop_seq(q, s).contains(y) by {
        let j = choose|j: int| 0 <= j < q.len() && q[j] == y;
        q.lemma_filter_contains(differs_from(s), j);
    }
}

/// Keeps the entries of `queue` that `keep` accepts: with `upto`, those at
/// most `bound`; otherwise those different from `bound`.
pub fn retain_seqs(queue: &mut VecDeque<usize>, bound: usize, upto: bool)
    ensures
        upto ==> final(queue)@ == old(queue)@.filter(at_most(bound)),
        !upto ==> final(queue)@ == drop_seq(old(queue)@, bound),
{
    let ghost pred = if upto {
        at_most(bound)
    } else {
        differs_from(bound)
    };
    let mut out: VecDeque<usize> = VecDeque::new();
    let mut i: usize = 0;
    while i < queue.len()
        invariant
            i <= queue@.len(),
            pred == (if upto {
                at_most(bound)
            } else {
                differs_from(bound)
            }),
            out@ == queue@.take(i as int).filter(pred),
        decreases queue@.len() - i,
    {
        let s = queue[i];
        proof {
            assert(queue@.take(i + 1) =~= queue@.take(i as int).push(s));
            assert(queue@.take(i as int).push(s).filter(pred) == if pred(s) {
                queue@.take(i as int).filter(pred).push(s)
            } else {
                queue@.take(i as int).filter(pred)
            }) by {
                reveal_with_fuel(Seq::filter, 2);
                assert(queue@.take(i as int).push(s).drop_last() =~= queue@.take(i as int));
            }
        }
        if (upto && s <= bound) || (!upto && s != bound) {
            out.push_back(s);
        }
        i += 1;
    }
    assert(queue@.take(queue@.len() as int) =~= queue@);
    *queue = out;
}

/// Removes every occurrence of `seq` from a queue.
pub fn remove_queue_entry(queue: &mut VecDeque<usize>, seq: usize)
    ensures
        final(queue)@ == drop_seq(old(queue)@, seq),
{
    retain_seqs(queue, seq, false);
}

/// Removes the miss-data-buffer entries of `seq`.
pub fn remove_mdb_entry(mdb: &mut VecDeque<MdbEntry>, seq: usize)
    ensures
        final(mdb)@ == old(mdb)@.filter(|e: MdbEntry| e.seq != seq),
{
    let ghost pred = |e: MdbEntry| e.seq != seq;
    let mut out: VecDeque<MdbEntry> = VecDeque::new();
    let mut i: usize = 0;
    while i < mdb.len()
        invariant
            i <= mdb@.len(),
            pred == |e: MdbEntry| e.seq != seq,
            out@ == mdb@.take(i as int).filter(pred),
        decreases mdb@.len() - i,
    {
        let e = mdb[i];
        proof {
            assert(mdb@.take(i + 1) =~= mdb@.take(i as int).push(e));
            assert(mdb@.take(i as int).push(e).filter(pred) == if pred(e) {
                mdb@.take(i as int).filter(pred).push(e)
            } else {
                mdb@.take(i as int).filter(pred)
            }) by {
                reveal_with_fuel(Seq::filter, 2);
                assert(mdb@.take(i as int).push(e).drop_last() =~= mdb@.take(i as int));
            }
        }
        if e.seq != seq {
            out.push_back(e);
        }
        i += 1;
    }
    assert(mdb@.take(mdb@.len() as int) =~= mdb@);
    *mdb = out;
}

pub open spec fn loads_in(queue: Seq<usize>, uops: Seq<CycleUop>) -> nat {
    queue.filter(|s: usize| (s as int) < uops.len() && uops[s as int].is_load).len()
}

/// Whether a stage still has room for a load (it holds fewer than LSU_WIDTH).
pub fn load_slot_available(queue: &VecDeque<usize>, uops: &Vec<CycleUop>) -> (r: bool)
    requires
        forall|i: int| 0 <= i < queue@.len() ==> (queue@[i] as int) < uops@.len(),
    ensures
        r == (loads_in(queue@, uops@) < LSU_WIDTH),
{
    let ghost pred = |s: usize| (s as int) < uops@.len() && uops@[s as int].is_load;
    let mut count: usize = 0;
    let mut i: usize = 0;
    while i < queue.len()
        invariant
            i <= queue@.len(),
            forall|j: int| 0 <= j < queue@.len() ==> (queue@[j] as int) < uops@.len(),
            pred == |s: usize| (s as int) < uops@.len() && uops@[s as int].is_load,
            count == queue@.take(i as int).filter(pred).len(),
            count <= i,
        decreases queue@.len() - i,
    {
        let s = queue[i];
        proof {
            assert(queue@.take(i + 1) =~= queue@.take(i as int).push(s));
            queue@.take(i as int).lemma_filter_len_push(pred, s);
        }
        if uops[s].is_load {
            count += 1;
        }
        i += 1;
    }
    assert(queue@.take(queue@.len() as int) =~= queue@);
    count < LSU_WIDTH
}

/// Whether E1 can take `seq`: a free issue slot, and a free load slot for a load.
pub fn e1_can_accept(seq: usize, e1: &VecDeque<usize>, uops: &Vec<CycleUop>) -> (r: bool)
    requires
        seq < uops@.len(),
        forall|i: int| 0 <= i < e1@.len() ==> (e1@[i] as int) < uops@.len(),
    ensures
        r == (e1@.len() < ISSUE_WIDTH && (!uops@[seq as int].is_load || loads_in(e1@, uops@) < LSU_WIDTH)),
{
    e1.len() < ISSUE_WIDTH && (!uops[seq].is_load || load_slot_available(e1, uops))
}

/// Whether the L1D can take another transaction.
pub fn can_accept_l1d(l1d: &VecDeque<L1dEntry>) -> (r: bool)
    ensures
        r == (l1d@.len() < L1D_WIDTH),
{
    l1d.len() < L1D_WIDTH
}

pub open spec fn spec_lsid_ready(uops: Seq<CycleUop>, seq: int, ptr: usize) -> bool {
    match uops[seq].load_store_id {
        Some(id) => id == ptr,
        None => true,
    }
}

/// Memory micro-ops reach the cache in load/store order.
pub fn lsid_cache_ready(seq: usize, lsid_cache_ptr: usize, uops: &Vec<CycleUop>) -> (r: bool)
    requires
        seq < uops@.len(),
    ensures
        r == spec_lsid_ready(uops@, seq as int, lsid_cache_ptr),
{
    match uops[seq].load_store_id {
        Some(id) => id == lsid_cache_ptr,
        None => true,
    }
}

/// A retired store may drain from the coalescing buffer the cycle after it entered.
pub fn scb_entry_drain_ready(entry: &ScbEntry, cycle: u64) -> (r: bool)
    ensures
        r == (entry.enqueue_cycle < cycle),
{
    entry.enqueue_cycle < cycle
}

} // verus!
