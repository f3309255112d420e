use vstd::prelude::*;
use std::collections::BTreeSet;
use crate::config::IQ_CAPACITY;
use crate::checkpoint::logical_tag_ready;
use crate::iq::{iq_owner_index, owner_pos, tags_in_range};
use crate::iq_state::{
    cycle_update_state, data_ready_at, dep_data_ready_cycle, dep_pick_ready_cycle, pick_ready_at,
    source_valid, spec_source_valid, src_state, tag_ready, update_iq_entry_source_state,
};
use crate::model::{
    CycleUop, IqEntry, IqWakeEvent, IqWakeKind, QTAG_SLOTS, QTag, qtag_slot, spec_qtag_slot,
    uop_wf, uops_wf,
};
use crate::seqmap::SeqMap;

verus! {

broadcast use vstd::std_specs::btree::group_btree_axioms;

// ---------------------------------------------------------------------------
// Queue-slot sources of a newly dispatched micro-op.
// ---------------------------------------------------------------------------

/// The queue slot that source `idx` of `seq` waits on, if it waits on one.
pub open spec fn annotate_state(uops: Seq<CycleUop>, seq: int, idx: int, tags: Map<usize, QTag>, t: Set<usize>, u: Set<usize>) -> Option<QTag> {
    let me = uops[seq];
    match me.src_queue_kinds[idx] {
        None => None,
        Some(kind) => match me.src_logical_tags[idx] {
            None => None,
            Some(lt) => if tag_ready(lt, t, u) {
                None
            } else {
                match me.deps[idx] {
                    None => None,
                    Some(p) => if uops[p as int].dst_queue_kind != Some(kind) {
                        None
                    } else if uops[p as int].dst_logical_tag != Some(lt) {
                        None
                    } else {
                        match uops[p as int].dst_qtag {
                            Some(q) => Some(q),
                            None => if tags.contains_key(p) {
                                Some(tags[p])
                            } else {
                                None
                            },
                        }
                    },
                }
            },
        },
    }
}

pub open spec fn with_src_qtags(u: CycleUop, q0: Option<QTag>, q1: Option<QTag>) -> CycleUop {
    CycleUop { src_qtags: [q0, q1], ..u }
}

fn annotate_one(
    seq: usize,
    idx: usize,
    iq_tags: &SeqMap<QTag>,
    ready_table_t: &BTreeSet<usize>,
    ready_table_u: &BTreeSet<usize>,
    uops: &Vec<CycleUop>,
) -> (r: Option<QTag>)
    requires
        seq < uops@.len(),
        idx < 2,
        uops_wf(uops@),
    ensures
        r == annotate_state(uops@, seq as int, idx as int, iq_tags@, ready_table_t@, ready_table_u@),
{
    assert(uop_wf(uops@[seq as int], seq as int));
    let Some(kind) = uops[seq].src_queue_kinds[idx] else {
        return None;
    };
    let Some(logical_tag) = uops[seq].src_logical_tags[idx] else {
        return None;
    };
    if logical_tag_ready(logical_tag, ready_table_t, ready_table_u) {
        return None;
    }
    let Some(producer) = uops[seq].deps[idx] else {
        return None;
    };
    if uops[producer].dst_queue_kind != Some(kind) {
        return None;
    }
    if uops[producer].dst_logical_tag != Some(logical_tag) {
        return None;
    }
    match uops[producer].dst_qtag {
        Some(q) => Some(q),
        None => iq_tags.get(producer),
    }
}

/// Records, for each queue source of `seq` whose value is not ready yet, the
/// queue slot of its producer.
pub fn annotate_qtag_sources(
    seq: usize,
    iq_tags: &SeqMap<QTag>,
    ready_table_t: &BTreeSet<usize>,
    ready_table_u: &BTreeSet<usize>,
    uops: &mut Vec<CycleUop>,
)
    requires
        seq < old(uops)@.len(),
        uops_wf(old(uops)@),
        tags_in_range(iq_tags@),
    ensures
        final(uops)@ == old(uops)@.update(
            seq as int,
            with_src_qtags(
                old(uops)@[seq as int],
                annotate_state(old(uops)@, seq as int, 0, iq_tags@, ready_table_t@, ready_table_u@),
                annotate_state(old(uops)@, seq as int, 1, iq_tags@, ready_table_t@, ready_table_u@),
            ),
        ),
        uops_wf(final(uops)@),
{
    let q0 = annotate_one(seq, 0, iq_tags, ready_table_t, ready_table_u, uops);
    let q1 = annotate_one(seq, 1, iq_tags, ready_table_t, ready_table_u, uops);
    assert(uop_wf(old(uops)@[seq as int], seq as int));
    uops[seq].src_qtags = [q0, q1];
    proof {
        assert(uops@ =~= old(uops)@.update(seq as int, with_src_qtags(old(uops)@[seq as int], q0, q1)));
        assert forall|s: int| 0 <= s < uops@.len() implies uop_wf(#[trigger] uops@[s], s) by {
            if s == seq {
                let u = uops@[s];
                assert forall|i: int| 0 <= i < 2 implies (#[trigger] u.src_qtags[i] matches Some(q) ==> q.entry_id < IQ_CAPACITY) by {
                    let p = old(uops)@[seq as int].deps[i];
                }
            } else {
                assert(uops@[s] == old(uops)@[s]);
            }
        }
    }
}

// ---------------------------------------------------------------------------
// Wakeup broadcast.
// ---------------------------------------------------------------------------

pub open spec fn sat_dec(c: u64) -> u64 {
    if c == 0 {
        0
    } else {
        (c - 1) as u64
    }
}

pub open spec fn publishes_spec_wakeup(uops: Seq<CycleUop>, p: int, cycle: u64) -> bool {
    uops[p].is_load && (uops[p].e1_cycle == Some(sat_dec(cycle)) || pick_ready_at(uops, p) == cycle)
}

pub open spec fn publishes_nonspec_wakeup(uops: Seq<CycleUop>, p: int, cycle: u64) -> bool {
    (if uops[p].is_load {
        uops[p].e4_cycle == Some(sat_dec(cycle))
    } else {
        uops[p].w1_cycle == Some(sat_dec(cycle))
    }) || data_ready_at(uops, p) == cycle
}

fn producer_publishes_spec_wakeup(cycle: u64, producer: usize, uops: &Vec<CycleUop>) -> (r: bool)
    requires
        producer < uops@.len(),
    ensures
        r == publishes_spec_wakeup(uops@, producer as int, cycle),
{
    let uop = &uops[producer];
    if !uop.is_load {
        return false;
    }
    if uop.e1_cycle == Some(cycle.saturating_sub(1)) {
        return true;
    }
    dep_pick_ready_cycle(producer, uops) == cycle
}

fn producer_publishes_nonspec_wakeup(cycle: u64, producer: usize, uops: &Vec<CycleUop>) -> (r: bool)
    requires
        producer < uops@.len(),
    ensures
        r == publishes_nonspec_wakeup(uops@, producer as int, cycle),
{
    let uop = &uops[producer];
    if uop.is_load {
        if uop.e4_cycle == Some(cycle.saturating_sub(1)) {
            return true;
        }
    } else if uop.w1_cycle == Some(cycle.saturating_sub(1)) {
        return true;
    }
    dep_data_ready_cycle(producer, uops) == cycle
}

pub open spec fn wake_event_of(uops: Seq<CycleUop>, p: int, cycle: u64) -> Option<IqWakeEvent> {
    let u = uops[p];
    if publishes_nonspec_wakeup(uops, p, cycle) {
        Some(IqWakeEvent { producer: p as usize, wake_kind: IqWakeKind::Nonspec, queue_kind: u.dst_queue_kind, logical_tag: u.dst_logical_tag, qtag: u.dst_qtag })
    } else if publishes_spec_wakeup(uops, p, cycle) {
        Some(IqWakeEvent { producer: p as usize, wake_kind: IqWakeKind::Spec, queue_kind: u.dst_queue_kind, logical_tag: u.dst_logical_tag, qtag: u.dst_qtag })
    } else {
        None
    }
}

/// The wakeups that the first `k` micro-ops broadcast in `cycle`, in order.
pub open spec fn wake_events(uops: Seq<CycleUop>, cycle: u64, k: int) -> Seq<IqWakeEvent>
    decreases k,
{
    if k <= 0 {
        Seq::empty()
    } else {
        let prev = wake_events(uops, cycle, k - 1);
        match wake_event_of(uops, k - 1, cycle) {
            Some(e) => prev.push(e),
            None => prev,
        }
    }
}

/// The wakeups broadcast this cycle: final ones from producers whose result
/// became visible, speculative ones from loads whose hit is taken for granted.
pub fn collect_iq_wake_events(cycle: u64, uops: &Vec<CycleUop>) -> (r: Vec<IqWakeEvent>)
    ensures
        r@ == wake_events(uops@, cycle, uops@.len() as int),
{
    let mut out: Vec<IqWakeEvent> = Vec::new();
    let mut producer: usize = 0;
    while producer < uops.len()
        invariant
            producer <= uops@.len(),
            out@ == wake_events(uops@, cycle, producer as int),
        decreases uops@.len() - producer,
    {
        let uop = &uops[producer];
        let queue_kind = uop.dst_queue_kind;
        let logical_tag = uop.dst_logical_tag;
        let qtag = uop.dst_qtag;
        if producer_publishes_nonspec_wakeup(cycle, producer, uops) {
            out.push(IqWakeEvent { producer, wake_kind: IqWakeKind::Nonspec, queue_kind, logical_tag, qtag });
        } else if producer_publishes_spec_wakeup(cycle, producer, uops) {
            out.push(IqWakeEvent { producer, wake_kind: IqWakeKind::Spec, queue_kind, logical_tag, qtag });
        }
        producer += 1;
    }
    out
}

/// Whether source `idx` of `seq` is the consumer a wakeup is meant for.
pub open spec fn source_matches(uops: Seq<CycleUop>, seq: int, idx: int, event: IqWakeEvent) -> bool {
    let u = uops[seq];
    &&& spec_source_valid(u.commit, idx)
    &&& u.deps[idx] == Some(event.producer)
    &&& match u.src_queue_kinds[idx] {
        Some(k) => Some(k) == event.queue_kind && u.src_logical_tags[idx] == event.logical_tag
            && u.src_qtags[idx] is Some && u.src_qtags[idx] == event.qtag,
        None => true,
    }
}

fn iq_source_matches_wake_event(seq: usize, idx: usize, event: IqWakeEvent, uops: &Vec<CycleUop>) -> (r: bool)
    requires
        seq < uops@.len(),
        idx < 2,
    ensures
        r == source_matches(uops@, seq as int, idx as int, event),
{
    if !source_valid(&uops[seq].commit, idx) || uops[seq].deps[idx] != Some(event.producer) {
        return false;
    }
    match uops[seq].src_queue_kinds[idx] {
        Some(queue_kind) => Some(queue_kind) == event.queue_kind && uops[seq].src_logical_tags[idx]
            == event.logical_tag && uops[seq].src_qtags[idx].is_some() && uops[seq].src_qtags[idx] == event.qtag,
        None => true,
    }
}

/// The readiness a matching source takes from a wakeup.
pub open spec fn wake_state(st: (bool, bool, bool), kind: IqWakeKind) -> (bool, bool, bool) {
    match kind {
        IqWakeKind::Nonspec => (true, false, false),
        IqWakeKind::Spec => if !st.0 {
            (st.0, true, false)
        } else {
            st
        },
    }
}

pub open spec fn same_identity(a: IqEntry, b: IqEntry) -> bool {
    a.seq == b.seq && a.phys_iq == b.phys_iq && a.inflight == b.inflight && a.src_valid == b.src_valid
}

fn publish_wake_into_entry_source(entry: &mut IqEntry, idx: usize, event: IqWakeEvent, uops: &Vec<CycleUop>)
    requires
        old(entry).seq < uops@.len(),
        idx < 2,
    ensures
        same_identity(*old(entry), *final(entry)),
        src_state(*final(entry), idx as int) == (if source_matches(uops@, old(entry).seq as int, idx as int, event) {
            wake_state(src_state(*old(entry), idx as int), event.wake_kind)
        } else {
            src_state(*old(entry), idx as int)
        }),
        src_state(*final(entry), 1 - idx) == src_state(*old(entry), 1 - idx),
{
    if !iq_source_matches_wake_event(entry.seq, idx, event, uops) {
        return;
    }
    match event.wake_kind {
        IqWakeKind::Nonspec => {
            entry.src_ready_nonspec[idx] = true;
            entry.src_ready_spec[idx] = false;
            entry.src_wait_qtag[idx] = false;
        },
        IqWakeKind::Spec => {
            if !entry.src_ready_nonspec[idx] {
                entry.src_ready_spec[idx] = true;
                entry.src_wait_qtag[idx] = false;
            }
        },
    }
}

pub open spec fn event_is_queue_routed(event: IqWakeEvent) -> bool {
    event.queue_kind is Some && event.logical_tag is Some && event.qtag is Some
}

/// Some of the first `n` waiters is source `idx` of `seq`, and `found`
/// holds (the slot table leads to the entry).
pub open spec fn reached(ws: Seq<(usize, usize)>, n: int, seq: usize, idx: int, found: bool) -> bool {
    found && exists|m: int| 0 <= m < n && #[trigger] ws[m] == (seq, idx as usize)
}

/// Whether a wakeup reaches source `idx` of the entry at position `i`: a
/// broadcast reaches every source; a queue wakeup reaches register sources,
/// and queue sources listed under the producer's slot whose entry the slot
/// table finds.
pub open spec fn delivered(
    uops: Seq<CycleUop>,
    iq: Seq<IqEntry>,
    table: Seq<Option<usize>>,
    tags: Map<usize, QTag>,
    waits: Seq<Vec<(usize, usize)>>,
    event: IqWakeEvent,
    i: int,
    idx: int,
) -> bool {
    match event.qtag {
        Some(q) => !event_is_queue_routed(event) || uops[iq[i].seq as int].src_queue_kinds[idx] is None || reached(
            waits[spec_qtag_slot(q)]@,
            waits[spec_qtag_slot(q)]@.len() as int,
            iq[i].seq,
            idx,
            owner_pos(iq, table, tags, iq[i].seq) == Some(i as usize),
        ),
        None => true,
    }
}

/// The readiness of a source after one wakeup: woken when it is hit.
pub open spec fn step_state(st: (bool, bool, bool), hit: bool, kind: IqWakeKind) -> (bool, bool, bool) {
    if hit {
        wake_state(st, kind)
    } else {
        st
    }
}

pub open spec fn publish_post(
    uops: Seq<CycleUop>,
    old_iq: Seq<IqEntry>,
    new_iq: Seq<IqEntry>,
    event: IqWakeEvent,
    table: Seq<Option<usize>>,
    tags: Map<usize, QTag>,
    waits: Seq<Vec<(usize, usize)>>,
) -> bool {
    &&& new_iq.len() == old_iq.len()
    &&& forall|i: int| 0 <= i < old_iq.len() ==> {
        &&& same_identity(#[trigger] old_iq[i], new_iq[i])
        &&& src_state(new_iq[i], 0) == step_state(
            src_state(old_iq[i], 0),
            source_matches(uops, old_iq[i].seq as int, 0, event) && delivered(uops, old_iq, table, tags, waits, event, i, 0),
            event.wake_kind,
        )
        &&& src_state(new_iq[i], 1) == step_state(
            src_state(old_iq[i], 1),
            source_matches(uops, old_iq[i].seq as int, 1, event) && delivered(uops, old_iq, table, tags, waits, event, i, 1),
            event.wake_kind,
        )
    }
}

proof fn lemma_wake_idempotent(st: (bool, bool, bool), k: IqWakeKind)
    ensures
        wake_state(wake_state(st, k), k) == wake_state(st, k),
{
}

/// Entries with the same seqs at the same positions have the same owners.
proof fn lemma_owner_pos_same_seqs(a: Seq<IqEntry>, b: Seq<IqEntry>, table: Seq<Option<usize>>, tags: Map<usize, QTag>)
    requires
        a.len() == b.len(),
        forall|i: int| 0 <= i < a.len() ==> (#[trigger] a[i]).seq == b[i].seq,
    ensures
        forall|s: usize| #[trigger] owner_pos(a, table, tags, s) == owner_pos(b, table, tags, s),
{
    assert forall|s: usize| #[trigger] owner_pos(a, table, tags, s) == owner_pos(b, table, tags, s) by {
        if tags.contains_key(s) {
            if let Some(i) = table[spec_qtag_slot(tags[s])] {
                if (i as int) < a.len() {
                    assert(a[i as int].seq == b[i as int].seq);
                }
            }
        }
    }
}

/// One step of the waiter walk: after waiter `n`, exactly the sources among
/// the first `n + 1` waiters are reached.
proof fn lemma_reached_step(ws: Seq<(usize, usize)>, n: int, seq: usize, idx: int, found: bool)
    requires
        0 <= n < ws.len(),
    ensures
        reached(ws, n + 1, seq, idx, found) == (reached(ws, n, seq, idx, found) || (found && ws[n] == (seq, idx as usize))),
{
    if reached(ws, n + 1, seq, idx, found) && !(found && ws[n] == (seq, idx as usize)) {
        let m = choose|m: int| 0 <= m < n + 1 && #[trigger] ws[m] == (seq, idx as usize);
        assert(m < n);
    }
    if found && ws[n] == (seq, idx as usize) {
        assert(ws[n] == (seq, idx as usize));
    }
}

/// One waiter visit, seen from one source: the source is woken exactly when
/// the visit hits it, and waking twice is waking once.
proof fn lemma_waiter_source(
    st0: (bool, bool, bool),
    before: (bool, bool, bool),
    after: (bool, bool, bool),
    m: bool,
    r_old: bool,
    r_new: bool,
    kind: IqWakeKind,
    hit: bool,
)
    requires
        before == step_state(st0, m && r_old, kind),
        after == (if hit && m { wake_state(before, kind) } else { before }),
        r_new == (r_old || hit),
    ensures
        after == step_state(st0, m && r_new, kind),
{
    lemma_wake_idempotent(st0, kind);
}

/// Delivers one wakeup to the issue queue: through the waiter list of the
/// producer's slot for queue sources, and to every matching register source.
pub fn publish_iq_wake_event(
    event: IqWakeEvent,
    iq: &mut Vec<IqEntry>,
    iq_owner_table: &Vec<Option<usize>>,
    iq_tags: &SeqMap<QTag>,
    qtag_wait_table: &Vec<Vec<(usize, usize)>>,
    uops: &Vec<CycleUop>,
)
    requires
        forall|i: int| 0 <= i < old(iq)@.len() ==> (#[trigger] old(iq)@[i]).seq < uops@.len(),
        iq_owner_table@.len() == QTAG_SLOTS,
        qtag_wait_table@.len() == QTAG_SLOTS,
        forall|s: int, j: int| 0 <= s < QTAG_SLOTS && 0 <= j < qtag_wait_table@[s]@.len() ==> (#[trigger] qtag_wait_table@[s]@[j]).1 < 2,
        tags_in_range(iq_tags@),
        event.qtag matches Some(q) ==> q.entry_id < IQ_CAPACITY,
    ensures
        publish_post(uops@, old(iq)@, final(iq)@, event, iq_owner_table@, iq_tags@, qtag_wait_table@),
{
    let ghost iq0 = iq@;
    if let (Some(_queue_kind), Some(_logical_tag), Some(qtag)) = (event.queue_kind, event.logical_tag, event.qtag) {
        let slot = qtag_slot(qtag);
        let waiters = &qtag_wait_table[slot];
        let ghost ws = waiters@;
        let len0 = iq.len();
        let mut w: usize = 0;
        while w < waiters.len()
            invariant
                iq0.len() == len0,
                w <= waiters@.len(),
                waiters@ == qtag_wait_table@[slot as int]@,
                ws == waiters@,
                slot < QTAG_SLOTS,
                slot == spec_qtag_slot(qtag),
                event.qtag == Some(qtag),
                forall|j: int| 0 <= j < waiters@.len() ==> (#[trigger] waiters@[j]).1 < 2,
                iq_owner_table@.len() == QTAG_SLOTS,
                tags_in_range(iq_tags@),
                event_is_queue_routed(event),
                iq@.len() == iq0.len(),
                forall|i: int| 0 <= i < iq0.len() ==> (#[trigger] iq0[i]).seq < uops@.len(),
                forall|i: int| 0 <= i < iq@.len() ==> (#[trigger] iq@[i]).seq == iq0[i].seq,
                forall|i: int| 0 <= i < iq0.len() ==> {
                    &&& same_identity(#[trigger] iq0[i], iq@[i])
                    &&& src_state(iq@[i], 0) == step_state(
                        src_state(iq0[i], 0),
                        source_matches(uops@, iq0[i].seq as int, 0, event)
                            && reached(ws, w as int, iq0[i].seq, 0, owner_pos(iq0, iq_owner_table@, iq_tags@, iq0[i].seq) == Some(i as usize)),
                        event.wake_kind,
                    )
                    &&& src_state(iq@[i], 1) == step_state(
                        src_state(iq0[i], 1),
                        source_matches(uops@, iq0[i].seq as int, 1, event)
                            && reached(ws, w as int, iq0[i].seq, 1, owner_pos(iq0, iq_owner_table@, iq_tags@, iq0[i].seq) == Some(i as usize)),
                        event.wake_kind,
                    )
                },
            decreases waiters@.len() - w,
        {
            assert(qtag_wait_table@[slot as int]@[w as int].1 < 2);
            let (seq, src_idx) = waiters[w];
            let ghost before = iq@;
            let found = iq_owner_index(seq, iq, iq_owner_table, iq_tags);
            proof {
                lemma_owner_pos_same_seqs(iq@, iq0, iq_owner_table@, iq_tags@);
            }
            if let Some(idx) = found {
                assert(iq@[idx as int].seq == iq0[idx as int].seq);
                publish_wake_into_entry_source(&mut iq[idx], src_idx, event, uops);
            }
            proof {
                assert forall|i: int| 0 <= i < iq0.len() implies {
                    &&& same_identity(#[trigger] iq0[i], iq@[i])
                    &&& src_state(iq@[i], 0) == step_state(
                        src_state(iq0[i], 0),
                        source_matches(uops@, iq0[i].seq as int, 0, event)
                            && reached(ws, w + 1, iq0[i].seq, 0, owner_pos(iq0, iq_owner_table@, iq_tags@, iq0[i].seq) == Some(i as usize)),
                        event.wake_kind,
                    )
                    &&& src_state(iq@[i], 1) == step_state(
                        src_state(iq0[i], 1),
                        source_matches(uops@, iq0[i].seq as int, 1, event)
                            && reached(ws, w + 1, iq0[i].seq, 1, owner_pos(iq0, iq_owner_table@, iq_tags@, iq0[i].seq) == Some(i as usize)),
                        event.wake_kind,
                    )
                } by {
                    let f = owner_pos(iq0, iq_owner_table@, iq_tags@, iq0[i].seq) == Some(i as usize);
                    lemma_reached_step(ws, w as int, iq0[i].seq, 0, f);
                    lemma_reached_step(ws, w as int, iq0[i].seq, 1, f);
                    assert(owner_pos(before, iq_owner_table@, iq_tags@, seq) == owner_pos(iq0, iq_owner_table@, iq_tags@, seq));
                    assert(ws[w as int] == (seq, src_idx));
                    let hit = found == Some(i as usize);
                    assert((i as usize) as int == i);
                    if hit {
                        assert(before[i].seq == iq0[i].seq);
                        assert(iq0[i].seq == seq);
                        assert(f);
                    }
                    if f && seq == iq0[i].seq {
                        assert(hit);
                    }
                    if !hit {
                        assert(iq@[i] == before[i]);
                    }
                    let m0 = source_matches(uops@, iq0[i].seq as int, 0, event);
                    let m1 = source_matches(uops@, iq0[i].seq as int, 1, event);
                    lemma_waiter_source(src_state(iq0[i], 0), src_state(before[i], 0), src_state(iq@[i], 0), m0,
                        reached(ws, w as int, iq0[i].seq, 0, f), reached(ws, w + 1, iq0[i].seq, 0, f), event.wake_kind, hit && src_idx == 0);
                    lemma_waiter_source(src_state(iq0[i], 1), src_state(before[i], 1), src_state(iq@[i], 1), m1,
                        reached(ws, w as int, iq0[i].seq, 1, f), reached(ws, w + 1, iq0[i].seq, 1, f), event.wake_kind, hit && src_idx == 1);
                }
            }
            w += 1;
        }
        let mut i: usize = 0;
        while i < iq.len()
            invariant
                i <= iq@.len(),
                event_is_queue_routed(event),
                event.qtag == Some(qtag),
                slot == spec_qtag_slot(qtag),
                ws == qtag_wait_table@[slot as int]@,
                iq@.len() == iq0.len(),
                forall|j: int| 0 <= j < iq0.len() ==> (#[trigger] iq0[j]).seq < uops@.len(),
                forall|j: int| 0 <= j < iq@.len() ==> (#[trigger] iq@[j]).seq == iq0[j].seq,
                forall|j: int| 0 <= j < iq0.len() ==> {
                    &&& same_identity(#[trigger] iq0[j], iq@[j])
                    &&& src_state(iq@[j], 0) == step_state(
                        src_state(iq0[j], 0),
                        source_matches(uops@, iq0[j].seq as int, 0, event) && ((j < i && uops@[iq0[j].seq as int].src_queue_kinds[0] is None)
                            || reached(ws, ws.len() as int, iq0[j].seq, 0, owner_pos(iq0, iq_owner_table@, iq_tags@, iq0[j].seq) == Some(j as usize))),
                        event.wake_kind,
                    )
                    &&& src_state(iq@[j], 1) == step_state(
                        src_state(iq0[j], 1),
                        source_matches(uops@, iq0[j].seq as int, 1, event) && ((j < i && uops@[iq0[j].seq as int].src_queue_kinds[1] is None)
                            || reached(ws, ws.len() as int, iq0[j].seq, 1, owner_pos(iq0, iq_owner_table@, iq_tags@, iq0[j].seq) == Some(j as usize))),
                        event.wake_kind,
                    )
                },
            decreases iq@.len() - i,
        {
            let seq = iq[i].seq;
            assert(iq@[i as int].seq == iq0[i as int].seq);
            proof {
                lemma_wake_idempotent(src_state(iq0[i as int], 0), event.wake_kind);
                lemma_wake_idempotent(src_state(iq0[i as int], 1), event.wake_kind);
            }
            if uops[seq].src_queue_kinds[0].is_none() {
                publish_wake_into_entry_source(&mut iq[i], 0, event, uops);
            }
            if uops[seq].src_queue_kinds[1].is_none() {
                publish_wake_into_entry_source(&mut iq[i], 1, event, uops);
            }
            i += 1;
        }
    } else {
        let mut i: usize = 0;
        while i < iq.len()
            invariant
                i <= iq@.len(),
                !event_is_queue_routed(event),
                iq@.len() == iq0.len(),
                forall|j: int| 0 <= j < iq0.len() ==> (#[trigger] iq0[j]).seq < uops@.len(),
                forall|j: int| 0 <= j < iq@.len() ==> (#[trigger] iq@[j]).seq == iq0[j].seq,
                forall|j: int| i <= j < iq0.len() ==> #[trigger] iq@[j] == iq0[j],
                forall|j: int| 0 <= j < i ==> {
                    &&& same_identity(#[trigger] iq0[j], iq@[j])
                    &&& src_state(iq@[j], 0) == step_state(src_state(iq0[j], 0), source_matches(uops@, iq0[j].seq as int, 0, event), event.wake_kind)
                    &&& src_state(iq@[j], 1) == step_state(src_state(iq0[j], 1), source_matches(uops@, iq0[j].seq as int, 1, event), event.wake_kind)
                },
            decreases iq@.len() - i,
        {
            publish_wake_into_entry_source(&mut iq[i], 0, event, uops);
            publish_wake_into_entry_source(&mut iq[i], 1, event, uops);
            i += 1;
        }
    }
}

/// The readiness of source `idx` of the entry at position `j` after the
/// first `k` wakeups of `events`, starting from `st`.
pub open spec fn wake_fold(
    uops: Seq<CycleUop>,
    events: Seq<IqWakeEvent>,
    k: int,
    iq: Seq<IqEntry>,
    table: Seq<Option<usize>>,
    tags: Map<usize, QTag>,
    waits: Seq<Vec<(usize, usize)>>,
    j: int,
    idx: int,
    st: (bool, bool, bool),
) -> (bool, bool, bool)
    decreases k,
{
    if k <= 0 {
        st
    } else {
        let ev = events[k - 1];
        step_state(
            wake_fold(uops, events, k - 1, iq, table, tags, waits, j, idx, st),
            source_matches(uops, iq[j].seq as int, idx, ev) && delivered(uops, iq, table, tags, waits, ev, j, idx),
            ev.wake_kind,
        )
    }
}

proof fn lemma_fold_untouched(
    uops: Seq<CycleUop>,
    events: Seq<IqWakeEvent>,
    k: int,
    iq: Seq<IqEntry>,
    table: Seq<Option<usize>>,
    tags: Map<usize, QTag>,
    waits: Seq<Vec<(usize, usize)>>,
    j: int,
    idx: int,
    st: (bool, bool, bool),
)
    requires
        k <= events.len(),
        forall|m: int| 0 <= m < k ==> !source_matches(uops, iq[j].seq as int, idx, #[trigger] events[m]),
    ensures
        wake_fold(uops, events, k, iq, table, tags, waits, j, idx, st) == st,
    decreases k,
{
    if k > 0 {
        assert(!source_matches(uops, iq[j].seq as int, idx, events[k - 1]));
        lemma_fold_untouched(uops, events, k - 1, iq, table, tags, waits, j, idx, st);
    }
}

/// No wakeup of the cycle is meant for source `idx` of `seq`.
pub open spec fn unwoken(uops: Seq<CycleUop>, cycle: u64, seq: int, idx: int) -> bool {
    let ev = wake_events(uops, cycle, uops.len() as int);
    forall|k: int| 0 <= k < ev.len() ==> !source_matches(uops, seq, idx, #[trigger] ev[k])
}

/// Unwoken sources end the cycle with the readiness of the per-cycle update.
pub open spec fn settled(uops: Seq<CycleUop>, cycle: u64, before: IqEntry, after: IqEntry, t: Set<usize>, u: Set<usize>) -> bool {
    &&& same_identity(before, after)
    &&& (unwoken(uops, cycle, before.seq as int, 0) ==> src_state(after, 0) == cycle_update_state(uops, before, 0, cycle, t, u))
    &&& (unwoken(uops, cycle, before.seq as int, 1) ==> src_state(after, 1) == cycle_update_state(uops, before, 1, cycle, t, u))
}

/// The state of a source at the end of the cycle: the per-cycle update, then
/// each of the cycle's wakeups in order.
pub open spec fn cycle_end_state(
    uops: Seq<CycleUop>,
    cycle: u64,
    iq: Seq<IqEntry>,
    table: Seq<Option<usize>>,
    tags: Map<usize, QTag>,
    waits: Seq<Vec<(usize, usize)>>,
    t: Set<usize>,
    u: Set<usize>,
    j: int,
    idx: int,
) -> (bool, bool, bool) {
    let ev = wake_events(uops, cycle, uops.len() as int);
    wake_fold(uops, ev, ev.len() as int, iq, table, tags, waits, j, idx, cycle_update_state(uops, iq[j], idx, cycle, t, u))
}

/// The per-cycle issue-queue update: revoke stale readiness, take ready-table
/// wakeups, then deliver this cycle's wakeup broadcast.
pub fn update_iq_entries_for_cycle(
    cycle: u64,
    iq: &mut Vec<IqEntry>,
    ready_table_t: &BTreeSet<usize>,
    ready_table_u: &BTreeSet<usize>,
    iq_owner_table: &Vec<Option<usize>>,
    iq_tags: &SeqMap<QTag>,
    qtag_wait_crossbar: &Vec<Vec<(usize, usize)>>,
    uops: &Vec<CycleUop>,
)
    requires
        forall|i: int| 0 <= i < old(iq)@.len() ==> (#[trigger] old(iq)@[i]).seq < uops@.len(),
        uops_wf(uops@),
        iq_owner_table@.len() == QTAG_SLOTS,
        qtag_wait_crossbar@.len() == QTAG_SLOTS,
        forall|s: int, j: int| 0 <= s < QTAG_SLOTS && 0 <= j < qtag_wait_crossbar@[s]@.len() ==> (#[trigger] qtag_wait_crossbar@[s]@[j]).1 < 2,
        tags_in_range(iq_tags@),
    ensures
        final(iq)@.len() == old(iq)@.len(),
        forall|i: int| 0 <= i < old(iq)@.len() ==> settled(uops@, cycle, #[trigger] old(iq)@[i], final(iq)@[i], ready_table_t@, ready_table_u@),
        forall|i: int| 0 <= i < old(iq)@.len() ==> {
            &&& src_state(#[trigger] final(iq)@[i], 0) == cycle_end_state(uops@, cycle, old(iq)@, iq_owner_table@, iq_tags@, qtag_wait_crossbar@, ready_table_t@, ready_table_u@, i, 0)
            &&& src_state(final(iq)@[i], 1) == cycle_end_state(uops@, cycle, old(iq)@, iq_owner_table@, iq_tags@, qtag_wait_crossbar@, ready_table_t@, ready_table_u@, i, 1)
        },
{
    let ghost iq0 = iq@;
    let mut i: usize = 0;
    while i < iq.len()
        invariant
            i <= iq@.len(),
            iq@.len() == iq0.len(),
            uops_wf(uops@),
            forall|j: int| 0 <= j < iq0.len() ==> (#[trigger] iq0[j]).seq < uops@.len(),
            forall|j: int| i <= j < iq0.len() ==> #[trigger] iq@[j] == iq0[j],
            forall|j: int| 0 <= j < i ==> same_identity(#[trigger] iq0[j], iq@[j])
                && src_state(iq@[j], 0) == cycle_update_state(uops@, iq0[j], 0, cycle, ready_table_t@, ready_table_u@)
                && src_state(iq@[j], 1) == cycle_update_state(uops@, iq0[j], 1, cycle, ready_table_t@, ready_table_u@),
        decreases iq@.len() - i,
    {
        update_iq_entry_source_state(cycle, &mut iq[i], ready_table_t, ready_table_u, uops);
        i += 1;
    }
    let ghost iq1 = iq@;
    assert forall|j: int| 0 <= j < iq@.len() implies (#[trigger] iq@[j]).seq < uops@.len() by {
        assert(same_identity(iq0[j], iq@[j]));
    }
    let events = collect_iq_wake_events(cycle, uops);
    let ghost table = iq_owner_table@;
    let ghost tags = iq_tags@;
    let ghost waits = qtag_wait_crossbar@;
    let mut k: usize = 0;
    while k < events.len()
        invariant
            k <= events@.len(),
            iq@.len() == iq0.len(),
            iq1.len() == iq0.len(),
            uops_wf(uops@),
            table == iq_owner_table@,
            tags == iq_tags@,
            waits == qtag_wait_crossbar@,
            iq_owner_table@.len() == QTAG_SLOTS,
            qtag_wait_crossbar@.len() == QTAG_SLOTS,
            forall|s: int, j: int| 0 <= s < QTAG_SLOTS && 0 <= j < qtag_wait_crossbar@[s]@.len() ==> (#[trigger] qtag_wait_crossbar@[s]@[j]).1 < 2,
            tags_in_range(iq_tags@),
            events@ == wake_events(uops@, cycle, uops@.len() as int),
            forall|j: int| 0 <= j < iq0.len() ==> (#[trigger] iq0[j]).seq < uops@.len(),
            forall|j: int| 0 <= j < iq@.len() ==> (#[trigger] iq@[j]).seq < uops@.len(),
            forall|j: int| 0 <= j < iq0.len() ==> same_identity(#[trigger] iq0[j], iq1[j])
                && src_state(iq1[j], 0) == cycle_update_state(uops@, iq0[j], 0, cycle, ready_table_t@, ready_table_u@)
                && src_state(iq1[j], 1) == cycle_update_state(uops@, iq0[j], 1, cycle, ready_table_t@, ready_table_u@),
            forall|j: int| 0 <= j < iq0.len() ==> {
                &&& same_identity(#[trigger] iq0[j], iq@[j])
                &&& src_state(iq@[j], 0) == wake_fold(uops@, events@, k as int, iq0, table, tags, waits, j, 0, src_state(iq1[j], 0))
                &&& src_state(iq@[j], 1) == wake_fold(uops@, events@, k as int, iq0, table, tags, waits, j, 1, src_state(iq1[j], 1))
            },
        decreases events@.len() - k,
    {
        let event = events[k];
        proof {
            lemma_wake_event_qtag(uops@, cycle, uops@.len() as int, k as int);
        }
        let ghost before = iq@;
        publish_iq_wake_event(event, iq, iq_owner_table, iq_tags, qtag_wait_crossbar, uops);
        proof {
            lemma_owner_pos_same_seqs(before, iq0, table, tags);
            assert forall|j: int| 0 <= j < iq@.len() implies (#[trigger] iq@[j]).seq < uops@.len() by {
                assert(same_identity(before[j], iq@[j]));
            }
            assert forall|j: int| 0 <= j < iq0.len() implies {
                &&& same_identity(#[trigger] iq0[j], iq@[j])
                &&& src_state(iq@[j], 0) == wake_fold(uops@, events@, k + 1, iq0, table, tags, waits, j, 0, src_state(iq1[j], 0))
                &&& src_state(iq@[j], 1) == wake_fold(uops@, events@, k + 1, iq0, table, tags, waits, j, 1, src_state(iq1[j], 1))
            } by {
                assert(same_identity(before[j], iq@[j]));
                assert(before[j].seq == iq0[j].seq);
                assert(owner_pos(before, table, tags, iq0[j].seq) == owner_pos(iq0, table, tags, iq0[j].seq));
                assert(delivered(uops@, before, table, tags, waits, event, j, 0) == delivered(uops@, iq0, table, tags, waits, event, j, 0));
                assert(delivered(uops@, before, table, tags, waits, event, j, 1) == delivered(uops@, iq0, table, tags, waits, event, j, 1));
            }
        }
        k += 1;
    }
    proof {
        assert forall|j: int| 0 <= j < iq0.len() implies settled(uops@, cycle, #[trigger] iq0[j], iq@[j], ready_table_t@, ready_table_u@) by {
            if unwoken(uops@, cycle, iq0[j].seq as int, 0) {
                lemma_fold_untouched(uops@, events@, events@.len() as int, iq0, table, tags, waits, j, 0, src_state(iq1[j], 0));
            }
            if unwoken(uops@, cycle, iq0[j].seq as int, 1) {
                lemma_fold_untouched(uops@, events@, events@.len() as int, iq0, table, tags, waits, j, 1, src_state(iq1[j], 1));
            }
        }
    }
}

proof fn lemma_wake_event_qtag(uops: Seq<CycleUop>, cycle: u64, n: int, k: int)
    requires
        uops_wf(uops),
        0 <= n <= uops.len(),
        0 <= k < wake_events(uops, cycle, n).len(),
    ensures
        wake_events(uops, cycle, n)[k].qtag matches Some(q) ==> q.entry_id < IQ_CAPACITY,
    decreases n,
{
    if n > 0 {
        let prev = wake_events(uops, cycle, n - 1);
        assert(uop_wf(uops[n - 1], n - 1));
        if k < prev.len() {
            lemma_wake_event_qtag(uops, cycle, n - 1, k);
        }
    }
}

} // verus!
