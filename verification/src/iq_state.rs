use vstd::prelude::*;
use std::collections::BTreeSet;
use crate::checkpoint::logical_tag_ready;
use crate::model::{
    CycleUop, IqEntry, IqWakeEvent, IqWakeKind, LogicalQueueTag, PhysIq, QTAG_SLOTS, QTag,
    QueueWakeKind, qtag_slot, spec_qtag_slot, uops_wf,
};
use crate::record::CommitRecord;
use crate::iq::{iq_owner_index, tags_in_range};
use crate::seqmap::SeqMap;

verus! {

broadcast use vstd::std_specs::btree::group_btree_axioms;

// ---------------------------------------------------------------------------
// When producers' results become visible.
// ---------------------------------------------------------------------------

pub open spec fn pick_ready_at(uops: Seq<CycleUop>, p: int) -> u64 {
    match uops[p].pick_wakeup_visible {
        Some(c) => c,
        None => u64::MAX,
    }
}

pub open spec fn data_ready_at(uops: Seq<CycleUop>, p: int) -> u64 {
    match uops[p].data_ready_visible {
        Some(c) => c,
        None => u64::MAX,
    }
}

/// The cycle from which a consumer of `producer` may be picked.
pub fn dep_pick_ready_cycle(producer: usize, uops: &Vec<CycleUop>) -> (r: u64)
    requires
        producer < uops@.len(),
    ensures
        r == pick_ready_at(uops@, producer as int),
{
    match uops[producer].pick_wakeup_visible {
        Some(c) => c,
        None => u64::MAX,
    }
}

/// The cycle from which the data of `producer` is available.
pub fn dep_data_ready_cycle(producer: usize, uops: &Vec<CycleUop>) -> (r: u64)
    requires
        producer < uops@.len(),
    ensures
        r == data_ready_at(uops@, producer as int),
{
    match uops[producer].data_ready_visible {
        Some(c) => c,
        None => u64::MAX,
    }
}

pub open spec fn spec_source_valid(c: CommitRecord, idx: int) -> bool {
    if idx == 0 {
        c.src0_valid != 0
    } else if idx == 1 {
        c.src1_valid != 0
    } else {
        false
    }
}

/// Whether source `idx` of the record reads a register.
pub fn source_valid(commit: &CommitRecord, idx: usize) -> (r: bool)
    ensures
        r == spec_source_valid(*commit, idx as int),
{
    match idx {
        0 => commit.src0_valid != 0,
        1 => commit.src1_valid != 0,
        _ => false,
    }
}

pub open spec fn spec_uses_qtag_wakeup(uops: Seq<CycleUop>, seq: int, idx: int) -> bool {
    match uops[seq].src_queue_kinds[idx] {
        Some(kind) => match uops[seq].deps[idx] {
            Some(p) => uops[seq].src_qtags[idx] is Some && uops[p as int].dst_queue_kind == Some(kind)
                && uops[p as int].dst_logical_tag == uops[seq].src_logical_tags[idx],
            None => false,
        },
        None => false,
    }
}

/// Whether source `idx` of `seq` is woken through its producer's queue slot.
pub fn source_uses_qtag_wakeup(seq: usize, idx: usize, uops: &Vec<CycleUop>) -> (r: bool)
    requires
        seq < uops@.len(),
        idx < 2,
        uops_wf(uops@),
    ensures
        r == spec_uses_qtag_wakeup(uops@, seq as int, idx as int),
{
    let Some(kind) = uops[seq].src_queue_kinds[idx] else {
        return false;
    };
    let Some(producer) = uops[seq].deps[idx] else {
        return false;
    };
    assert(crate::model::uop_wf(uops@[seq as int], seq as int));
    uops[seq].src_qtags[idx].is_some() && uops[producer].dst_queue_kind == Some(kind)
        && uops[producer].dst_logical_tag == uops[seq].src_logical_tags[idx]
}

pub open spec fn tag_ready(tag: LogicalQueueTag, t: Set<usize>, u: Set<usize>) -> bool {
    match tag.kind {
        QueueWakeKind::T => t.contains(tag.tag),
        QueueWakeKind::U => u.contains(tag.tag),
    }
}

pub open spec fn spec_logical_ready(uops: Seq<CycleUop>, seq: int, idx: int, t: Set<usize>, u: Set<usize>) -> bool {
    match uops[seq].src_logical_tags[idx] {
        Some(tag) => tag_ready(tag, t, u),
        None => false,
    }
}

fn source_logical_ready(
    seq: usize,
    idx: usize,
    ready_table_t: &BTreeSet<usize>,
    ready_table_u: &BTreeSet<usize>,
    uops: &Vec<CycleUop>,
) -> (r: bool)
    requires
        seq < uops@.len(),
        idx < 2,
    ensures
        r == spec_logical_ready(uops@, seq as int, idx as int, ready_table_t@, ready_table_u@),
{
    match uops[seq].src_logical_tags[idx] {
        Some(tag) => logical_tag_ready(tag, ready_table_t, ready_table_u),
        None => false,
    }
}

// ---------------------------------------------------------------------------
// Source readiness of an issue-queue entry.
// ---------------------------------------------------------------------------

/// (ready from final data, ready from a speculative wakeup, waiting on a queue slot)
pub open spec fn src_state(e: IqEntry, idx: int) -> (bool, bool, bool) {
    (e.src_ready_nonspec[idx], e.src_ready_spec[idx], e.src_wait_qtag[idx])
}

/// `e2` is `e1` with only the readiness of source `idx` changed, to `st`.
pub open spec fn entry_source_set(e1: IqEntry, e2: IqEntry, idx: int, st: (bool, bool, bool)) -> bool {
    &&& e2.seq == e1.seq
    &&& e2.phys_iq == e1.phys_iq
    &&& e2.inflight == e1.inflight
    &&& e2.src_valid == e1.src_valid
    &&& src_state(e2, idx) == st
    &&& src_state(e2, 1 - idx) == src_state(e1, 1 - idx)
}

fn set_source_state(entry: &mut IqEntry, idx: usize, st: (bool, bool, bool))
    requires
        idx < 2,
    ensures
        entry_source_set(*old(entry), *final(entry), idx as int, st),
{
    entry.src_ready_nonspec[idx] = st.0;
    entry.src_ready_spec[idx] = st.1;
    entry.src_wait_qtag[idx] = st.2;
}

/// Clears the readiness of source `idx`.
pub fn reset_iq_entry_source_state(entry: &mut IqEntry, idx: usize)
    requires
        idx < 2,
    ensures
        entry_source_set(*old(entry), *final(entry), idx as int, (false, false, false)),
{
    set_source_state(entry, idx, (false, false, false));
}

/// The readiness a source starts with when its micro-op enters the queue.
pub open spec fn seed_state(uops: Seq<CycleUop>, seq: int, idx: int, cycle: u64, t: Set<usize>, u: Set<usize>) -> (bool, bool, bool) {
    match uops[seq].deps[idx] {
        None => (true, false, false),
        Some(p) => if spec_logical_ready(uops, seq, idx, t, u) || data_ready_at(uops, p as int) <= cycle {
            (true, false, false)
        } else if pick_ready_at(uops, p as int) <= cycle {
            (false, true, false)
        } else {
            (false, false, spec_uses_qtag_wakeup(uops, seq, idx))
        },
    }
}

fn seed_iq_entry_source_state(
    cycle: u64,
    entry: &mut IqEntry,
    idx: usize,
    ready_table_t: &BTreeSet<usize>,
    ready_table_u: &BTreeSet<usize>,
    uops: &Vec<CycleUop>,
)
    requires
        old(entry).seq < uops@.len(),
        idx < 2,
        uops_wf(uops@),
        src_state(*old(entry), idx as int) == (false, false, false),
    ensures
        entry_source_set(*old(entry), *final(entry), idx as int, seed_state(uops@, old(entry).seq as int, idx as int, cycle, ready_table_t@, ready_table_u@)),
{
    let seq = entry.seq;
    assert(crate::model::uop_wf(uops@[seq as int], seq as int));
    let logical_ready = source_logical_ready(seq, idx, ready_table_t, ready_table_u, uops);
    let qtag_wait = source_uses_qtag_wakeup(seq, idx, uops);
    match uops[seq].deps[idx] {
        None => set_source_state(entry, idx, (true, false, false)),
        Some(producer) => {
            if logical_ready || dep_data_ready_cycle(producer, uops) <= cycle {
                set_source_state(entry, idx, (true, false, false));
            } else if dep_pick_ready_cycle(producer, uops) <= cycle {
                set_source_state(entry, idx, (false, true, false));
            } else {
                set_source_state(entry, idx, (false, false, qtag_wait));
            }
        },
    }
}

pub open spec fn entry_seeded(uops: Seq<CycleUop>, e: IqEntry, cycle: u64, t: Set<usize>, u: Set<usize>) -> bool {
    &&& e.src_valid[0] == spec_source_valid(uops[e.seq as int].commit, 0)
    &&& e.src_valid[1] == spec_source_valid(uops[e.seq as int].commit, 1)
    &&& src_state(e, 0) == seed_state(uops, e.seq as int, 0, cycle, t, u)
    &&& src_state(e, 1) == seed_state(uops, e.seq as int, 1, cycle, t, u)
}

/// A fresh issue-queue entry for `seq`, with the readiness its sources have now.
pub fn make_iq_entry(
    cycle: u64,
    seq: usize,
    phys_iq: PhysIq,
    ready_table_t: &BTreeSet<usize>,
    ready_table_u: &BTreeSet<usize>,
    uops: &Vec<CycleUop>,
) -> (e: IqEntry)
    requires
        seq < uops@.len(),
        uops_wf(uops@),
    ensures
        e.seq == seq,
        e.phys_iq == phys_iq,
        !e.inflight,
        entry_seeded(uops@, e, cycle, ready_table_t@, ready_table_u@),
{
    let mut entry = IqEntry {
        seq,
        phys_iq,
        inflight: false,
        src_valid: [false, false],
        src_ready_nonspec: [false, false],
        src_ready_spec: [false, false],
        src_wait_qtag: [false, false],
    };
    let v0 = source_valid(&uops[seq].commit, 0);
    entry.src_valid[0] = v0;
    reset_iq_entry_source_state(&mut entry, 0);
    seed_iq_entry_source_state(cycle, &mut entry, 0, ready_table_t, ready_table_u, uops);
    let v1 = source_valid(&uops[seq].commit, 1);
    entry.src_valid[1] = v1;
    reset_iq_entry_source_state(&mut entry, 1);
    seed_iq_entry_source_state(cycle, &mut entry, 1, ready_table_t, ready_table_u, uops);
    entry
}

/// The readiness of a waiting source after stale speculative or data
/// readiness is revoked.
pub open spec fn revoke_state(uops: Seq<CycleUop>, e: IqEntry, idx: int, cycle: u64, t: Set<usize>, u: Set<usize>) -> (bool, bool, bool) {
    let (n, s, w) = src_state(e, idx);
    if !e.src_valid[idx] {
        (n, s, w)
    } else {
        match uops[e.seq as int].deps[idx] {
            None => (true, false, false),
            Some(p) => {
                let n1 = n && !(!spec_logical_ready(uops, e.seq as int, idx, t, u) && data_ready_at(uops, p as int) > cycle);
                let s1 = s && !(pick_ready_at(uops, p as int) > cycle);
                let w1 = if !(n1 || s1) {
                    spec_uses_qtag_wakeup(uops, e.seq as int, idx)
                } else {
                    w
                };
                (n1, s1, w1)
            },
        }
    }
}

fn revoke_stale_iq_source_state(
    cycle: u64,
    entry: &mut IqEntry,
    idx: usize,
    ready_table_t: &BTreeSet<usize>,
    ready_table_u: &BTreeSet<usize>,
    uops: &Vec<CycleUop>,
)
    requires
        old(entry).seq < uops@.len(),
        idx < 2,
        uops_wf(uops@),
    ensures
        entry_source_set(*old(entry), *final(entry), idx as int, revoke_state(uops@, *old(entry), idx as int, cycle, ready_table_t@, ready_table_u@)),
{
    let seq = entry.seq;
    assert(crate::model::uop_wf(uops@[seq as int], seq as int));
    let (mut n, mut s, mut w) = (entry.src_ready_nonspec[idx], entry.src_ready_spec[idx], entry.src_wait_qtag[idx]);
    if !entry.src_valid[idx] {
        set_source_state(entry, idx, (n, s, w));
        return;
    }
    let Some(producer) = uops[seq].deps[idx] else {
        set_source_state(entry, idx, (true, false, false));
        return;
    };
    let logical_ready = source_logical_ready(seq, idx, ready_table_t, ready_table_u, uops);
    if n && !logical_ready && dep_data_ready_cycle(producer, uops) > cycle {
        n = false;
    }
    if s && dep_pick_ready_cycle(producer, uops) > cycle {
        s = false;
    }
    if !(n || s) {
        w = source_uses_qtag_wakeup(seq, idx, uops);
    }
    set_source_state(entry, idx, (n, s, w));
}

/// The readiness of a source once the ready tables say its queue value exists.
pub open spec fn ready_table_wakeup_state(uops: Seq<CycleUop>, e: IqEntry, idx: int, t: Set<usize>, u: Set<usize>) -> (bool, bool, bool) {
    if !e.src_valid[idx] || e.src_ready_nonspec[idx] {
        src_state(e, idx)
    } else if spec_logical_ready(uops, e.seq as int, idx, t, u) {
        (true, false, false)
    } else {
        src_state(e, idx)
    }
}

fn apply_ready_table_wakeup(
    entry: &mut IqEntry,
    idx: usize,
    ready_table_t: &BTreeSet<usize>,
    ready_table_u: &BTreeSet<usize>,
    uops: &Vec<CycleUop>,
)
    requires
        old(entry).seq < uops@.len(),
        idx < 2,
    ensures
        entry_source_set(*old(entry), *final(entry), idx as int, ready_table_wakeup_state(uops@, *old(entry), idx as int, ready_table_t@, ready_table_u@)),
{
    let cur = (entry.src_ready_nonspec[idx], entry.src_ready_spec[idx], entry.src_wait_qtag[idx]);
    if !entry.src_valid[idx] || entry.src_ready_nonspec[idx] {
        set_source_state(entry, idx, cur);
        return;
    }
    if source_logical_ready(entry.seq, idx, ready_table_t, ready_table_u, uops) {
        set_source_state(entry, idx, (true, false, false));
    } else {
        set_source_state(entry, idx, cur);
    }
}

/// The per-cycle readiness update of one source: revoke, then ready-table wakeup.
pub open spec fn cycle_update_state(uops: Seq<CycleUop>, e: IqEntry, idx: int, cycle: u64, t: Set<usize>, u: Set<usize>) -> (bool, bool, bool) {
    if !e.src_valid[idx] {
        src_state(e, idx)
    } else {
        let r = revoke_state(uops, e, idx, cycle, t, u);
        if !e.src_valid[idx] || r.0 {
            r
        } else if spec_logical_ready(uops, e.seq as int, idx, t, u) {
            (true, false, false)
        } else {
            r
        }
    }
}

pub fn update_iq_entry_source_state(
    cycle: u64,
    entry: &mut IqEntry,
    ready_table_t: &BTreeSet<usize>,
    ready_table_u: &BTreeSet<usize>,
    uops: &Vec<CycleUop>,
)
    requires
        old(entry).seq < uops@.len(),
        uops_wf(uops@),
    ensures
        final(entry).seq == old(entry).seq,
        final(entry).phys_iq == old(entry).phys_iq,
        final(entry).inflight == old(entry).inflight,
        final(entry).src_valid == old(entry).src_valid,
        src_state(*final(entry), 0) == cycle_update_state(uops@, *old(entry), 0, cycle, ready_table_t@, ready_table_u@),
        src_state(*final(entry), 1) == cycle_update_state(uops@, *old(entry), 1, cycle, ready_table_t@, ready_table_u@),
{
    let ghost e0 = *entry;
    let mut idx: usize = 0;
    while idx < 2
        invariant
            idx <= 2,
            entry.seq == e0.seq,
            entry.seq < uops@.len(),
            uops_wf(uops@),
            entry.phys_iq == e0.phys_iq,
            entry.inflight == e0.inflight,
            entry.src_valid == e0.src_valid,
            forall|j: int| 0 <= j < idx ==> src_state(*entry, j) == cycle_update_state(uops@, e0, j, cycle, ready_table_t@, ready_table_u@),
            forall|j: int| idx <= j < 2 ==> src_state(*entry, j) == src_state(e0, j),
        decreases 2 - idx,
    {
        if entry.src_valid[idx] {
            revoke_stale_iq_source_state(cycle, entry, idx, ready_table_t, ready_table_u, uops);
            apply_ready_table_wakeup(entry, idx, ready_table_t, ready_table_u, uops);
        }
        idx += 1;
    }
}

} // verus!
