use vstd::prelude::*;
use crate::config::{IQ_CAPACITY, IQ_ENQUEUE_PORTS, PHYS_IQ_COUNT};
use crate::model::{
    CycleUop, IqEntry, PhysIq, QTag, QTAG_SLOTS, qtag_slot, spec_phys_iq_index, spec_qtag_slot,
};
use crate::seqmap::SeqMap;
use crate::text::text_is;

verus! {

// ---------------------------------------------------------------------------
// Queue routing.
// ---------------------------------------------------------------------------

pub open spec fn spec_issue_queue_candidates(g: Seq<char>) -> Seq<PhysIq> {
    if g == "ALU"@ {
        seq![PhysIq::AluIq0, PhysIq::SharedIq1]
    } else if g == "BRU"@ {
        seq![PhysIq::BruIq]
    } else if g == "LDA/BASE_IMM"@ || g == "LDA"@ || g == "AGU"@ {
        seq![PhysIq::AguIq0, PhysIq::AguIq1]
    } else if g == "STA/BASE_IMM"@ || g == "STA"@ || g == "STD"@ {
        seq![PhysIq::StdIq0, PhysIq::StdIq1]
    } else if g == "FSU"@ || g == "SYS"@ {
        seq![PhysIq::SharedIq1]
    } else if g == "CMD"@ || g == "BBD"@ {
        seq![PhysIq::CmdIq]
    } else {
        seq![PhysIq::SharedIq1]
    }
}

/// The physical queues a micro-op may enter, in order of preference.
pub fn issue_queue_candidates(uop: &CycleUop) -> (r: Vec<PhysIq>)
    ensures
        r@ == spec_issue_queue_candidates(uop.decoded@.uop_group),
{
    let g = &uop.decoded.uop_group;
    let r = if text_is(g, "ALU") {
        vec![PhysIq::AluIq0, PhysIq::SharedIq1]
    } else if text_is(g, "BRU") {
        vec![PhysIq::BruIq]
    } else if text_is(g, "LDA/BASE_IMM") || text_is(g, "LDA") || text_is(g, "AGU") {
        vec![PhysIq::AguIq0, PhysIq::AguIq1]
    } else if text_is(g, "STA/BASE_IMM") || text_is(g, "STA") || text_is(g, "STD") {
        vec![PhysIq::StdIq0, PhysIq::StdIq1]
    } else if text_is(g, "FSU") || text_is(g, "SYS") {
        vec![PhysIq::SharedIq1]
    } else if text_is(g, "CMD") || text_is(g, "BBD") {
        vec![PhysIq::CmdIq]
    } else {
        vec![PhysIq::SharedIq1]
    };
    assert(r@ =~= spec_issue_queue_candidates(uop.decoded@.uop_group));
    r
}

pub open spec fn occupancy(iq: Seq<IqEntry>, q: PhysIq) -> nat {
    iq.filter(|e: IqEntry| e.phys_iq == q).len()
}

/// No issue queue holds more entries than it has slots.
pub open spec fn within_capacity(iq: Seq<IqEntry>) -> bool {
    forall|q: PhysIq| #[trigger] occupancy(iq, q) <= IQ_CAPACITY
}

pub proof fn lemma_occupancy_push(iq: Seq<IqEntry>, e: IqEntry, q: PhysIq)
    ensures
        occupancy(iq.push(e), q) == occupancy(iq, q) + if e.phys_iq == q { 1int } else { 0int },
{
    iq.lemma_filter_len_push(|x: IqEntry| x.phys_iq == q, e);
}

/// Dropping entries never fills a queue.
pub proof fn lemma_occupancy_filter(iq: Seq<IqEntry>, p: spec_fn(IqEntry) -> bool, q: PhysIq)
    ensures
        occupancy(iq.filter(p), q) <= occupancy(iq, q),
    decreases iq.len(),
{
    if iq.len() > 0 {
        let rest = iq.drop_last();
        let x = iq.last();
        assert(iq == rest.push(x));
        lemma_occupancy_filter(rest, p, q);
        rest.lemma_filter_push(x, p);
        if p(x) {
            lemma_occupancy_push(rest.filter(p), x, q);
        }
        lemma_occupancy_push(rest, x, q);
    }
}

/// Entries that keep their queues keep every queue's occupancy.
pub proof fn lemma_occupancy_same_queues(a: Seq<IqEntry>, b: Seq<IqEntry>, q: PhysIq)
    requires
        a.len() == b.len(),
        forall|i: int| 0 <= i < a.len() ==> (#[trigger] a[i]).phys_iq == b[i].phys_iq,
    ensures
        occupancy(a, q) == occupancy(b, q),
    decreases a.len(),
{
    if a.len() > 0 {
        let ra = a.drop_last();
        let rb = b.drop_last();
        assert(a == ra.push(a.last()));
        assert(b == rb.push(b.last()));
        assert(forall|i: int| 0 <= i < ra.len() ==> (#[trigger] ra[i]).phys_iq == rb[i].phys_iq) by {
            assert forall|i: int| 0 <= i < ra.len() implies (#[trigger] ra[i]).phys_iq == rb[i].phys_iq by {
                assert(ra[i] == a[i] && rb[i] == b[i]);
            }
        }
        lemma_occupancy_same_queues(ra, rb, q);
        lemma_occupancy_push(ra, a.last(), q);
        lemma_occupancy_push(rb, b.last(), q);
    }
}

/// Number of entries of queue `phys_iq`.
pub fn iq_occupancy(iq: &Vec<IqEntry>, phys_iq: PhysIq) -> (r: usize)
    ensures
        r == occupancy(iq@, phys_iq),
{
    broadcast use vstd::seq_lib::group_seq_properties;
    let mut count: usize = 0;
    let mut i: usize = 0;
    while i < iq.len()
        invariant
            i <= iq@.len(),
            count == occupancy(iq@.take(i as int), phys_iq),
            count <= i,
        decreases iq@.len() - i,
    {
        proof {
            assert(iq@.take(i + 1) =~= iq@.take(i as int).push(iq@[i as int]));
            iq@.take(i as int).lemma_filter_len_push(|e: IqEntry| e.phys_iq == phys_iq, iq@[i as int]);
        }
        if iq[i].phys_iq == phys_iq {
            count += 1;
        }
        i += 1;
    }
    assert(iq@.take(iq@.len() as int) =~= iq@);
    count
}

/// A queue can take an entry this cycle: a free enqueue port and a free slot.
pub open spec fn queue_can_take(iq: Seq<IqEntry>, ports: [usize; PHYS_IQ_COUNT], q: PhysIq) -> bool {
    ports[spec_phys_iq_index(q) as int] < IQ_ENQUEUE_PORTS && occupancy(iq, q) < IQ_CAPACITY
}

/// The first candidate at index `i` or later that can take the micro-op.
pub open spec fn first_routable(c: Seq<PhysIq>, iq: Seq<IqEntry>, ports: [usize; PHYS_IQ_COUNT], i: int) -> Option<PhysIq>
    decreases c.len() - i,
{
    if i < 0 || i >= c.len() {
        None
    } else if queue_can_take(iq, ports, c[i]) {
        Some(c[i])
    } else {
        first_routable(c, iq, ports, i + 1)
    }
}

pub proof fn lemma_first_routable_can_take(c: Seq<PhysIq>, iq: Seq<IqEntry>, ports: [usize; PHYS_IQ_COUNT], i: int)
    ensures
        first_routable(c, iq, ports, i) matches Some(q) ==> queue_can_take(iq, ports, q),
    decreases c.len() - i,
{
    if 0 <= i < c.len() && !queue_can_take(iq, ports, c[i]) {
        lemma_first_routable_can_take(c, iq, ports, i + 1);
    }
}

/// The queue that micro-op `seq` enters: its first candidate with room.
pub fn route_phys_iq(
    seq: usize,
    iq: &Vec<IqEntry>,
    uops: &Vec<CycleUop>,
    enqueue_ports_used: &[usize; PHYS_IQ_COUNT],
) -> (r: Option<PhysIq>)
    requires
        seq < uops@.len(),
    ensures
        r == first_routable(spec_issue_queue_candidates(uops@[seq as int].decoded@.uop_group), iq@, *enqueue_ports_used, 0),
{
    let candidates = issue_queue_candidates(&uops[seq]);
    let mut i: usize = 0;
    while i < candidates.len()
        invariant
            i <= candidates@.len(),
            seq < uops@.len(),
            candidates@ == spec_issue_queue_candidates(uops@[seq as int].decoded@.uop_group),
            first_routable(candidates@, iq@, *enqueue_ports_used, i as int) == first_routable(
                candidates@,
                iq@,
                *enqueue_ports_used,
                0,
            ),
        decreases candidates@.len() - i,
    {
        let q = candidates[i];
        if enqueue_ports_used[q.index()] < IQ_ENQUEUE_PORTS && iq_occupancy(iq, q) < q.capacity() {
            return Some(q);
        }
        i += 1;
    }
    None
}

// ---------------------------------------------------------------------------
// Queue slot tags.
// ---------------------------------------------------------------------------

/// Whether some in-flight micro-op holds queue slot `q`.
pub open spec fn tag_in_use(tags: Map<usize, QTag>, q: QTag) -> bool {
    exists|k: usize| tags.contains_key(k) && tags[k] == q
}

/// No two micro-ops hold the same queue slot.
pub open spec fn tags_distinct(tags: Map<usize, QTag>) -> bool {
    forall|a: usize, b: usize| #[trigger] tags.contains_key(a) && #[trigger] tags.contains_key(b) && a != b ==> tags[a] != tags[b]
}

/// Law: once every holder of a queue slot has left the tag table, the slot
/// is free again for allocation.
pub proof fn law_released_slot_is_free(tags: Map<usize, QTag>, gone: Set<usize>, q: QTag)
    requires
        forall|k: usize| #[trigger] tags.contains_key(k) && tags[k] == q ==> gone.contains(k),
    ensures
        !tag_in_use(tags.remove_keys(gone), q),
{
}

/// Law: giving a micro-op a slot that is not in use keeps every slot held
/// by at most one micro-op.
pub proof fn law_fresh_slot_keeps_tags_distinct(tags: Map<usize, QTag>, seq: usize, q: QTag)
    requires
        tags_distinct(tags),
        !tag_in_use(tags, q),
    ensures
        tags_distinct(tags.insert(seq, q)),
{
    let t = tags.insert(seq, q);
    assert forall|a: usize, b: usize| #[trigger] t.contains_key(a) && #[trigger] t.contains_key(b) && a != b implies t[a]
        != t[b] by {
        if a == seq {
            assert(tags.contains_key(b) && t[b] == tags[b]);
        } else if b == seq {
            assert(tags.contains_key(a) && t[a] == tags[a]);
        }
    }
}

/// The lowest free slot of `phys_iq` from entry `e` on.
pub open spec fn first_free_slot(tags: Map<usize, QTag>, phys_iq: PhysIq, e: int) -> Option<QTag>
    decreases IQ_CAPACITY - e,
{
    if e < 0 || e >= IQ_CAPACITY {
        None
    } else if !tag_in_use(tags, QTag { phys_iq, entry_id: e as usize }) {
        Some(QTag { phys_iq, entry_id: e as usize })
    } else {
        first_free_slot(tags, phys_iq, e + 1)
    }
}

fn slot_in_use(iq_tags: &SeqMap<QTag>, q: QTag) -> (r: bool)
    ensures
        r == tag_in_use(iq_tags@, q),
{
    let n = iq_tags.slot_count();
    proof {
        iq_tags.lemma_keys_below_slot_count();
    }
    let mut k: usize = 0;
    while k < n
        invariant
            k <= n,
            n == iq_tags.spec_slot_count(),
            forall|j: usize| j < k && #[trigger] iq_tags@.contains_key(j) ==> iq_tags@[j] != q,
        decreases n - k,
    {
        if let Some(t) = iq_tags.get(k) {
            if t == q {
                return true;
            }
        }
        k += 1;
    }
    proof {
        assert forall|j: usize| #[trigger] iq_tags@.contains_key(j) implies iq_tags@[j] != q by {
            assert((j as int) < iq_tags.spec_slot_count());
        }
    }
    false
}

/// The lowest free slot of `phys_iq`, if it has one.
pub fn allocate_qtag(iq_tags: &SeqMap<QTag>, phys_iq: PhysIq) -> (r: Option<QTag>)
    ensures
        r == first_free_slot(iq_tags@, phys_iq, 0),
        r matches Some(q) ==> q.phys_iq == phys_iq && q.entry_id < IQ_CAPACITY && !tag_in_use(iq_tags@, q),
{
    proof {
        lemma_first_free_slot(iq_tags@, phys_iq, 0);
    }
    let mut entry_id: usize = 0;
    while entry_id < phys_iq.capacity()
        invariant
            entry_id <= IQ_CAPACITY,
            first_free_slot(iq_tags@, phys_iq, entry_id as int) == first_free_slot(iq_tags@, phys_iq, 0),
        decreases IQ_CAPACITY - entry_id,
    {
        let q = QTag { phys_iq, entry_id };
        if !slot_in_use(iq_tags, q) {
            return Some(q);
        }
        entry_id += 1;
    }
    None
}

proof fn lemma_first_free_slot(tags: Map<usize, QTag>, phys_iq: PhysIq, e: int)
    ensures
        first_free_slot(tags, phys_iq, e) matches Some(q) ==> q.phys_iq == phys_iq && q.entry_id < IQ_CAPACITY
            && !tag_in_use(tags, q),
    decreases IQ_CAPACITY - e,
{
    if 0 <= e < IQ_CAPACITY {
        lemma_first_free_slot(tags, phys_iq, e + 1);
    }
}

// ---------------------------------------------------------------------------
// The per-slot owner table and the wakeup crossbar.
// ---------------------------------------------------------------------------

/// The last issue-queue position before `upto` whose micro-op holds slot `s`.
pub open spec fn owner_of(iq: Seq<IqEntry>, tags: Map<usize, QTag>, s: int, upto: int) -> Option<usize>
    decreases upto,
{
    if upto <= 0 {
        None
    } else if tags.contains_key(iq[upto - 1].seq) && spec_qtag_slot(tags[iq[upto - 1].seq]) == s {
        Some((upto - 1) as usize)
    } else {
        owner_of(iq, tags, s, upto - 1)
    }
}

pub open spec fn tags_in_range(tags: Map<usize, QTag>) -> bool {
    forall|k: usize| #[trigger] tags.contains_key(k) ==> tags[k].entry_id < IQ_CAPACITY
}

proof fn lemma_owner_of_bound(iq: Seq<IqEntry>, tags: Map<usize, QTag>, s: int, upto: int)
    ensures
        owner_of(iq, tags, s, upto) matches Some(i) ==> (i as int) < upto,
    decreases upto,
{
    if upto > 0 {
        lemma_owner_of_bound(iq, tags, s, upto - 1);
    }
}

/// Rebuilds, for each queue slot, which issue-queue position owns it.
pub fn rebuild_iq_owner_table(iq_owner_table: &mut Vec<Option<usize>>, iq: &Vec<IqEntry>, iq_tags: &SeqMap<QTag>)
    requires
        old(iq_owner_table)@.len() == QTAG_SLOTS,
        tags_in_range(iq_tags@),
    ensures
        final(iq_owner_table)@.len() == QTAG_SLOTS,
        forall|s: int| 0 <= s < QTAG_SLOTS ==> final(iq_owner_table)@[s] == owner_of(iq@, iq_tags@, s, iq@.len() as int),
{
    let mut s: usize = 0;
    while s < QTAG_SLOTS
        invariant
            s <= QTAG_SLOTS,
            iq_owner_table@.len() == QTAG_SLOTS,
            forall|j: int| 0 <= j < s ==> iq_owner_table@[j] is None,
        decreases QTAG_SLOTS - s,
    {
        iq_owner_table.set(s, None);
        s += 1;
    }
    let mut idx: usize = 0;
    while idx < iq.len()
        invariant
            idx <= iq@.len(),
            iq_owner_table@.len() == QTAG_SLOTS,
            tags_in_range(iq_tags@),
            forall|j: int| 0 <= j < QTAG_SLOTS ==> iq_owner_table@[j] == owner_of(iq@, iq_tags@, j, idx as int),
        decreases iq@.len() - idx,
    {
        if let Some(qtag) = iq_tags.get(iq[idx].seq) {
            let slot = qtag_slot(qtag);
            iq_owner_table.set(slot, Some(idx));
        }
        idx += 1;
    }
}

/// The issue-queue position that the slot table gives for `seq`, if the
/// entry there is `seq`'s.
pub open spec fn owner_pos(iq: Seq<IqEntry>, table: Seq<Option<usize>>, tags: Map<usize, QTag>, seq: usize) -> Option<usize> {
    if tags.contains_key(seq) {
        match table[spec_qtag_slot(tags[seq])] {
            Some(i) => if (i as int) < iq.len() && iq[i as int].seq == seq { Some(i) } else { None },
            None => None,
        }
    } else {
        None
    }
}

/// The issue-queue position of micro-op `seq`, found through its slot.
pub fn iq_owner_index(seq: usize, iq: &Vec<IqEntry>, iq_owner_table: &Vec<Option<usize>>, iq_tags: &SeqMap<QTag>) -> (r: Option<usize>)
    requires
        iq_owner_table@.len() == QTAG_SLOTS,
        tags_in_range(iq_tags@),
    ensures
        r matches Some(i) ==> i < iq@.len() && iq@[i as int].seq == seq,
        r == owner_pos(iq@, iq_owner_table@, iq_tags@, seq),
{
    let qtag = iq_tags.get(seq)?;
    let idx = iq_owner_table[qtag_slot(qtag)]?;
    if idx < iq.len() && iq[idx].seq == seq {
        Some(idx)
    } else {
        None
    }
}

pub open spec fn waiters_register(w: Seq<(usize, usize)>, seq: usize, src_idx: usize, q: Option<QTag>, s: int) -> Seq<(usize, usize)> {
    match q {
        Some(qt) => if spec_qtag_slot(qt) == s && !w.contains((seq, src_idx)) {
            w.push((seq, src_idx))
        } else {
            w
        },
        None => w,
    }
}

pub open spec fn crossbar_view(c: Seq<Vec<(usize, usize)>>) -> Seq<Seq<(usize, usize)>> {
    c.map_values(|v: Vec<(usize, usize)>| v@)
}

fn pair_listed(w: &Vec<(usize, usize)>, p: (usize, usize)) -> (r: bool)
    ensures
        r == w@.contains(p),
{
    let mut i: usize = 0;
    while i < w.len()
        invariant
            i <= w@.len(),
            forall|j: int| 0 <= j < i ==> w@[j] != p,
        decreases w@.len() - i,
    {
        if w[i].0 == p.0 && w[i].1 == p.1 {
            return true;
        }
        i += 1;
    }
    false
}

/// Records that the sources of `uop` which wait on a queue slot wait there.
pub fn register_iq_wait_crossbar_entry(qtag_wait_crossbar: &mut Vec<Vec<(usize, usize)>>, seq: usize, uop: &CycleUop)
    requires
        old(qtag_wait_crossbar)@.len() == QTAG_SLOTS,
        forall|i: int| 0 <= i < 2 ==> (#[trigger] uop.src_qtags[i] matches Some(q) ==> q.entry_id < IQ_CAPACITY),
    ensures
        final(qtag_wait_crossbar)@.len() == QTAG_SLOTS,
        forall|s: int| 0 <= s < QTAG_SLOTS ==> (#[trigger] final(qtag_wait_crossbar)@[s])@ == waiters_register(
            waiters_register(old(qtag_wait_crossbar)@[s]@, seq, 0, uop.src_qtags[0], s),
            seq,
            1,
            uop.src_qtags[1],
            s,
        ),
{
    let ghost mid = crossbar_view(qtag_wait_crossbar@);
    let mut src_idx: usize = 0;
    while src_idx < 2
        invariant
            src_idx <= 2,
            qtag_wait_crossbar@.len() == QTAG_SLOTS,
            forall|i: int| 0 <= i < 2 ==> (#[trigger] uop.src_qtags[i] matches Some(q) ==> q.entry_id < IQ_CAPACITY),
            forall|s: int| 0 <= s < QTAG_SLOTS ==> (#[trigger] qtag_wait_crossbar@[s])@ == (if src_idx == 0 {
                old(qtag_wait_crossbar)@[s]@
            } else if src_idx == 1 {
                waiters_register(old(qtag_wait_crossbar)@[s]@, seq, 0, uop.src_qtags[0], s)
            } else {
                waiters_register(
                    waiters_register(old(qtag_wait_crossbar)@[s]@, seq, 0, uop.src_qtags[0], s),
                    seq,
                    1,
                    uop.src_qtags[1],
                    s,
                )
            }),
        decreases 2 - src_idx,
    {
        if let Some(qtag) = uop.src_qtags[src_idx] {
            let slot = qtag_slot(qtag);
            if !pair_listed(&qtag_wait_crossbar[slot], (seq, src_idx)) {
                qtag_wait_crossbar[slot].push((seq, src_idx));
            }
        }
        src_idx += 1;
    }
}

fn retain_waiters(w: &mut Vec<(usize, usize)>, seq: usize, upto: bool)
    ensures
        upto ==> final(w)@ == old(w)@.filter(|p: (usize, usize)| p.0 <= seq),
        !upto ==> final(w)@ == old(w)@.filter(|p: (usize, usize)| p.0 != seq),
{
    broadcast use vstd::seq_lib::group_seq_properties;
    let ghost pred = if upto {
        |p: (usize, usize)| p.0 <= seq
    } else {
        |p: (usize, usize)| p.0 != seq
    };
    let mut out: Vec<(usize, usize)> = Vec::new();
    let mut i: usize = 0;
    while i < w.len()
        invariant
            i <= w@.len(),
            pred == (if upto {
                |p: (usize, usize)| p.0 <= seq
            } else {
                |p: (usize, usize)| p.0 != seq
            }),
            out@ == w@.take(i as int).filter(pred),
        decreases w@.len() - i,
    {
        let p = w[i];
        proof {
            assert(w@.take(i + 1) =~= w@.take(i as int).push(p));
            w@.take(i as int).lemma_filter_len_push(pred, p);
            assert(w@.take(i as int).push(p).filter(pred) == if pred(p) {
                w@.take(i as int).filter(pred).push(p)
            } else {
                w@.take(i as int).filter(pred)
            }) by {
                reveal_with_fuel(Seq::filter, 2);
                assert(w@.take(i as int).push(p).drop_last() =~= w@.take(i as int));
            }
        }
        if (upto && p.0 <= seq) || (!upto && p.0 != seq) {
            out.push(p);
        }
        i += 1;
    }
    assert(w@.take(w@.len() as int) =~= w@);
    *w = out;
}

/// Removes micro-op `seq` from every waiter list.
pub fn unregister_iq_wait_crossbar_seq(qtag_wait_crossbar: &mut Vec<Vec<(usize, usize)>>, seq: usize)
    ensures
        final(qtag_wait_crossbar)@.len() == old(qtag_wait_crossbar)@.len(),
        forall|s: int| 0 <= s < old(qtag_wait_crossbar)@.len() ==> (#[trigger] final(qtag_wait_crossbar)@[s])@
            == old(qtag_wait_crossbar)@[s]@.filter(|p: (usize, usize)| p.0 != seq),
{
    let mut s: usize = 0;
    while s < qtag_wait_crossbar.len()
        invariant
            s <= qtag_wait_crossbar@.len(),
            qtag_wait_crossbar@.len() == old(qtag_wait_crossbar)@.len(),
            forall|j: int| 0 <= j < s ==> (#[trigger] qtag_wait_crossbar@[j])@ == old(qtag_wait_crossbar)@[j]@.filter(
                |p: (usize, usize)| p.0 != seq,
            ),
            forall|j: int| s <= j < qtag_wait_crossbar@.len() ==> #[trigger] qtag_wait_crossbar@[j] == old(qtag_wait_crossbar)@[j],
        decreases qtag_wait_crossbar@.len() - s,
    {
        retain_waiters(&mut qtag_wait_crossbar[s], seq, false);
        s += 1;
    }
}

/// Drops every waiter younger than `flush_seq`.
pub fn prune_iq_wait_crossbar_on_redirect(qtag_wait_crossbar: &mut Vec<Vec<(usize, usize)>>, flush_seq: usize)
    ensures
        final(qtag_wait_crossbar)@.len() == old(qtag_wait_crossbar)@.len(),
        forall|s: int| 0 <= s < old(qtag_wait_crossbar)@.len() ==> (#[trigger] final(qtag_wait_crossbar)@[s])@
            == old(qtag_wait_crossbar)@[s]@.filter(|p: (usize, usize)| p.0 <= flush_seq),
{
    let mut s: usize = 0;
    while s < qtag_wait_crossbar.len()
        invariant
            s <= qtag_wait_crossbar@.len(),
            qtag_wait_crossbar@.len() == old(qtag_wait_crossbar)@.len(),
            forall|j: int| 0 <= j < s ==> (#[trigger] qtag_wait_crossbar@[j])@ == old(qtag_wait_crossbar)@[j]@.filter(
                |p: (usize, usize)| p.0 <= flush_seq,
            ),
            forall|j: int| s <= j < qtag_wait_crossbar@.len() ==> #[trigger] qtag_wait_crossbar@[j] == old(qtag_wait_crossbar)@[j],
        decreases qtag_wait_crossbar@.len() - s,
    {
        retain_waiters(&mut qtag_wait_crossbar[s], flush_seq, true);
        s += 1;
    }
}

} // verus!
