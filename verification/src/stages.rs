use vstd::prelude::*;
use std::collections::VecDeque;
use crate::config::{DISPATCH_WIDTH, FRONTEND_STAGE_COUNT, ROB_CAPACITY};
use crate::model::StageQueues;

verus! {

broadcast use vstd::seq_lib::group_seq_properties;

/// How many entries move from a source of length `src_len` into a
/// destination of length `dst_len` that holds at most `cap`.
pub open spec fn spec_moved(dst_len: int, src_len: int, cap: int) -> int {
    if dst_len >= cap {
        0
    } else if cap - dst_len < src_len {
        cap - dst_len
    } else {
        src_len
    }
}

/// Whether `seq` is in the queue.
pub fn queue_contains(queue: &VecDeque<usize>, seq: usize) -> (r: bool)
    ensures
        r == queue@.contains(seq),
{
    let mut i: usize = 0;
    while i < queue.len()
        invariant
            i <= queue@.len(),
            forall|j: int| 0 <= j < i ==> queue@[j] != seq,
        decreases queue@.len() - i,
    {
        if queue[i] == seq {
            return true;
        }
        i += 1;
    }
    false
}

/// Moves entries from the front of `src` to the back of `dst` while `dst`
/// holds fewer than `capacity`.
pub fn advance_simple(dst: &mut VecDeque<usize>, src: &mut VecDeque<usize>, capacity: usize)
    ensures
        ({
            let k = spec_moved(old(dst)@.len() as int, old(src)@.len() as int, capacity as int);
            &&& final(dst)@ == old(dst)@ + old(src)@.take(k)
            &&& final(src)@ == old(src)@.skip(k)
        }),
{
    let ghost k = spec_moved(old(dst)@.len() as int, old(src)@.len() as int, capacity as int);
    let ghost n: int = 0;
    while dst.len() < capacity
        invariant
            0 <= n <= k,
            dst@ == old(dst)@ + old(src)@.take(n),
            src@ == old(src)@.skip(n),
            k == spec_moved(old(dst)@.len() as int, old(src)@.len() as int, capacity as int),
        ensures
            dst@ == old(dst)@ + old(src)@.take(k),
            src@ == old(src)@.skip(k),
        decreases capacity - dst@.len(),
    {
        let Some(seq) = src.pop_front() else {
            break;
        };
        proof {
            assert(old(src)@.take(n + 1) =~= old(src)@.take(n).push(seq));
            n = n + 1;
            assert(old(src)@.skip(n) =~= old(src)@.skip(n - 1).drop_first());
        }
        dst.push_back(seq);
    }
}

/// The elements of `prev` that the ROB takes in, in order, skipping those it holds.
pub open spec fn rob_intake(rob: Seq<usize>, prev: Seq<usize>) -> Seq<usize>
    decreases prev.len(),
{
    if prev.len() == 0 {
        rob
    } else {
        let r = rob_intake(rob, prev.drop_last());
        if r.contains(prev.last()) {
            r
        } else {
            r.push(prev.last())
        }
    }
}

pub open spec fn not_in(rob: Seq<usize>) -> spec_fn(usize) -> bool {
    |s: usize| !rob.contains(s)
}

/// One frontend stage transfer: up to `DISPATCH_WIDTH` micro-ops move from
/// stage `idx - 1` into stage `idx`. The transfer into D2 also allocates the
/// micro-ops in the ROB, and does not happen when the ROB could not take them.
pub open spec fn frontend_step(fe: Seq<Seq<usize>>, rob: Seq<usize>, idx: int) -> (
    Seq<Seq<usize>>,
    Seq<usize>,
) {
    let prev = fe[idx - 1];
    let dst = fe[idx];
    let k = spec_moved(dst.len() as int, prev.len() as int, DISPATCH_WIDTH as int);
    if idx == 7 && rob.len() + prev.filter(not_in(rob)).len() > ROB_CAPACITY {
        (fe, rob)
    } else {
        let fe2 = fe.update(idx, dst + prev.take(k)).update(idx - 1, prev.skip(k));
        if idx == 7 {
            (fe2, rob_intake(rob, prev))
        } else {
            (fe2, rob)
        }
    }
}

/// The transfers into stages `idx`, `idx - 1`, ..., 1, in that order.
pub open spec fn frontend_steps(fe: Seq<Seq<usize>>, rob: Seq<usize>, idx: int) -> (
    Seq<Seq<usize>>,
    Seq<usize>,
)
    decreases idx,
{
    if idx < 1 {
        (fe, rob)
    } else {
        let (fe2, rob2) = frontend_step(fe, rob, idx);
        frontend_steps(fe2, rob2, idx - 1)
    }
}

impl StageQueues {
    pub open spec fn frontend_view(&self) -> Seq<Seq<usize>> {
        self.frontend@.map_values(|q: VecDeque<usize>| q@)
    }
}

/// The frontend stages read from the back (S2 first) down to F0.
pub open spec fn stages_in_age_order(fe: Seq<Seq<usize>>, upto: int) -> Seq<usize>
    decreases upto,
{
    if upto <= 0 {
        Seq::empty()
    } else {
        stages_in_age_order(fe, upto - 1) + fe[FRONTEND_STAGE_COUNT - upto]
    }
}

/// Admits the uops of `prev` into the ROB, skipping those already present.
fn rob_allocate(rob: &mut VecDeque<usize>, prev: &VecDeque<usize>)
    ensures
        final(rob)@ == rob_intake(old(rob)@, prev@),
{
    let mut i: usize = 0;
    while i < prev.len()
        invariant
            i <= prev@.len(),
            rob@ == rob_intake(old(rob)@, prev@.take(i as int)),
        decreases prev@.len() - i,
    {
        let seq = prev[i];
        proof {
            assert(prev@.take(i + 1).drop_last() =~= prev@.take(i as int));
        }
        if !queue_contains(rob, seq) {
            rob.push_back(seq);
        }
        i += 1;
    }
    assert(prev@.take(prev@.len() as int) =~= prev@);
}

/// How many of `prev` the ROB does not hold yet.
fn rob_needed(rob: &VecDeque<usize>, prev: &VecDeque<usize>) -> (r: usize)
    ensures
        r == prev@.filter(not_in(rob@)).len(),
{
    let mut count: usize = 0;
    let mut i: usize = 0;
    while i < prev.len()
        invariant
            i <= prev@.len(),
            count == prev@.take(i as int).filter(not_in(rob@)).len(),
            count <= i,
        decreases prev@.len() - i,
    {
        let seq = prev[i];
        proof {
            assert(prev@.take(i + 1) =~= prev@.take(i as int).push(seq));
            prev@.take(i as int).lemma_filter_len_push(not_in(rob@), seq);
        }
        if !queue_contains(rob, seq) {
            count += 1;
        }
        i += 1;
    }
    assert(prev@.take(prev@.len() as int) =~= prev@);
    count
}

/// What the frontend transfers do to the pipeline and the ROB.
pub open spec fn frontend_post(p_old: StageQueues, rob_old: Seq<usize>, p_new: StageQueues, rob_new: Seq<usize>) -> bool {
    &&& p_new.frontend@.len() == FRONTEND_STAGE_COUNT
    &&& (p_new.frontend_view(), rob_new) == frontend_steps(
        p_old.frontend_view(),
        rob_old,
        (FRONTEND_STAGE_COUNT - 1) as int,
    )
    &&& p_new.lsid_issue_ptr == p_old.lsid_issue_ptr
    &&& p_new == (StageQueues { frontend: p_new.frontend, ..p_old })
}

/// Shifts the frontend by one cycle, from S2 back to F0; micro-ops enter the
/// ROB when they move from D1 to D2, and stay in D1 while the ROB could not
/// take them all.
pub fn advance_frontend(pipeline: &mut StageQueues, rob: &mut VecDeque<usize>)
    requires
        old(pipeline).frontend@.len() == FRONTEND_STAGE_COUNT,
    ensures
        frontend_post(*old(pipeline), old(rob)@, *final(pipeline), final(rob)@),
{
    let ghost target = frontend_steps(old(pipeline).frontend_view(), old(rob)@, 10);
    let mut idx: usize = FRONTEND_STAGE_COUNT - 1;
    while idx >= 1
        invariant
            idx <= 10,
            pipeline.frontend@.len() == FRONTEND_STAGE_COUNT,
            frontend_steps(pipeline.frontend_view(), rob@, idx as int) == target,
            pipeline.lsid_issue_ptr == old(pipeline).lsid_issue_ptr,
            *pipeline == (StageQueues { frontend: pipeline.frontend, ..*old(pipeline) }),
        decreases idx,
    {
        let ghost fe0 = pipeline.frontend_view();
        let ghost rob0 = rob@;
        let mut prev: VecDeque<usize> = VecDeque::new();
        std::mem::swap(&mut prev, &mut pipeline.frontend[idx - 1]);
        if idx == 7 {
            let needed_rob = rob_needed(rob, &prev);
            if needed_rob > ROB_CAPACITY || rob.len() > ROB_CAPACITY - needed_rob {
                std::mem::swap(&mut prev, &mut pipeline.frontend[idx - 1]);
                proof {
                    assert(pipeline.frontend_view() =~= fe0);
                }
                idx -= 1;
                continue;
            }
            rob_allocate(rob, &prev);
        }
        let mut dst: VecDeque<usize> = VecDeque::new();
        std::mem::swap(&mut dst, &mut pipeline.frontend[idx]);
        advance_simple(&mut dst, &mut prev, DISPATCH_WIDTH);
        std::mem::swap(&mut dst, &mut pipeline.frontend[idx]);
        std::mem::swap(&mut prev, &mut pipeline.frontend[idx - 1]);
        proof {
            let st = frontend_step(fe0, rob0, idx as int);
            assert(pipeline.frontend_view() =~= st.0);
            assert(rob@ == st.1);
        }
        idx -= 1;
    }
}

} // verus!

verus! {

/// Every stage of `fe` holds only micro-ops below `n`.
pub open spec fn stages_below(fe: Seq<Seq<usize>>, n: nat) -> bool {
    forall|i: int| 0 <= i < fe.len() ==> crate::model::seqs_below(#[trigger] fe[i], n)
}

/// The frontend transfers only move micro-ops between stages and into the
/// ROB: none below `n` turns into one that is not.
pub proof fn lemma_frontend_steps_below(fe: Seq<Seq<usize>>, rob: Seq<usize>, idx: int, n: nat)
    requires
        stages_below(fe, n),
        crate::model::seqs_below(rob, n),
        idx < fe.len(),
    ensures
        frontend_steps(fe, rob, idx).0.len() == fe.len(),
        stages_below(frontend_steps(fe, rob, idx).0, n),
        crate::model::seqs_below(frontend_steps(fe, rob, idx).1, n),
    decreases idx,
{
    if idx >= 1 {
        let prev = fe[idx - 1];
        let dst = fe[idx];
        let k = spec_moved(dst.len() as int, prev.len() as int, DISPATCH_WIDTH as int);
        let (fe2, rob2) = frontend_step(fe, rob, idx);
        assert(crate::model::seqs_below(prev, n));
        assert(crate::model::seqs_below(dst, n));
        if !(idx == 7 && rob.len() + prev.filter(not_in(rob)).len() > ROB_CAPACITY) {
            let a = dst + prev.take(k);
            let b = prev.skip(k);
            assert(crate::model::seqs_below(a, n)) by {
                assert forall|j: int| 0 <= j < a.len() implies (a[j] as int) < n by {
                    if j >= dst.len() {
                        assert(a[j] == prev[j - dst.len()]);
                    }
                }
            }
            assert(crate::model::seqs_below(b, n)) by {
                assert forall|j: int| 0 <= j < b.len() implies (b[j] as int) < n by {
                    assert(b[j] == prev[j + k]);
                }
            }
            assert(stages_below(fe2, n)) by {
                assert forall|i: int| 0 <= i < fe2.len() implies crate::model::seqs_below(#[trigger] fe2[i], n) by {
                    if i != idx && i != idx - 1 {
                        assert(fe2[i] == fe[i]);
                    }
                }
            }
            if idx == 7 {
                lemma_rob_intake_extends(rob, prev);
                let r = rob_intake(rob, prev);
                assert forall|j: int| 0 <= j < r.len() implies (r[j] as int) < n by {
                    assert(r.contains(r[j]));
                    if rob.contains(r[j]) {
                        let m = choose|m: int| 0 <= m < rob.len() && rob[m] == r[j];
                    } else {
                        let m = choose|m: int| 0 <= m < prev.len() && prev[m] == r[j];
                    }
                }
            }
        }
        lemma_frontend_steps_below(fe2, rob2, idx - 1, n);
    }
}

proof fn lemma_rob_intake_extends(rob: Seq<usize>, prev: Seq<usize>)
    ensures
        rob_intake(rob, prev).len() >= rob.len(),
        rob_intake(rob, prev).subrange(0, rob.len() as int) == rob,
        rob_intake(rob, prev).len() <= rob.len() + prev.filter(not_in(rob)).len(),
        forall|s: usize| #[trigger] rob_intake(rob, prev).contains(s) ==> rob.contains(s) || prev.contains(s),
    decreases prev.len(),
{
    if prev.len() > 0 {
        let p = prev.drop_last();
        lemma_rob_intake_extends(rob, p);
        let r = rob_intake(rob, p);
        assert(prev =~= p.push(prev.last()));
        p.lemma_filter_len_push(not_in(rob), prev.last());
        if !r.contains(prev.last()) {
            assert(r.push(prev.last()).subrange(0, rob.len() as int) =~= r.subrange(0, rob.len() as int));
            if rob.contains(prev.last()) {
                let j = choose|j: int| 0 <= j < rob.len() && rob[j] == prev.last();
                assert(r[j] == rob[j]);
            }
        }
        assert forall|s: usize| #[trigger] rob_intake(rob, prev).contains(s) implies rob.contains(s)
            || prev.contains(s) by {
            if r.contains(s) {
                if p.contains(s) {
                    let j = choose|j: int| 0 <= j < p.len() && p[j] == s;
                    assert(prev[j] == s);
                }
            } else {
                assert(s == prev.last());
                assert(prev[prev.len() - 1] == s);
            }
        }
    } else {
        assert(rob.subrange(0, rob.len() as int) =~= rob);
    }
}

proof fn lemma_age_order_two_slots(fe: Seq<Seq<usize>>, fe2: Seq<Seq<usize>>, idx: int, upto: int)
    requires
        fe.len() == FRONTEND_STAGE_COUNT,
        fe2.len() == FRONTEND_STAGE_COUNT,
        1 <= idx < FRONTEND_STAGE_COUNT,
        0 <= upto <= FRONTEND_STAGE_COUNT,
        forall|i: int| 0 <= i < FRONTEND_STAGE_COUNT && i != idx && i != idx - 1 ==> fe2[i] == fe[i],
        fe2[idx] + fe2[idx - 1] == fe[idx] + fe[idx - 1],
    ensures
        upto != FRONTEND_STAGE_COUNT - idx ==> stages_in_age_order(fe2, upto) == stages_in_age_order(fe, upto),
        upto == FRONTEND_STAGE_COUNT - idx ==> stages_in_age_order(fe2, upto) + fe2[idx - 1]
            == stages_in_age_order(fe, upto) + fe[idx - 1],
    decreases upto,
{
    if upto > 0 {
        lemma_age_order_two_slots(fe, fe2, idx, upto - 1);
        let a = stages_in_age_order(fe, upto - 1);
        let a2 = stages_in_age_order(fe2, upto - 1);
        if upto == FRONTEND_STAGE_COUNT - idx {
            assert(a2 == a);
            assert(a2 + fe2[idx] + fe2[idx - 1] =~= a2 + (fe2[idx] + fe2[idx - 1]));
            assert(a + fe[idx] + fe[idx - 1] =~= a + (fe[idx] + fe[idx - 1]));
        } else if upto == FRONTEND_STAGE_COUNT - idx + 1 {
            assert(a2 + fe2[idx - 1] == a + fe[idx - 1]);
        } else {
            assert(a2 == a);
        }
    }
}

/// Law: a frontend transfer neither loses nor reorders micro-ops (read from
/// S2 back to F0, the stages spell the same sequence before and after), and
/// it never grows the ROB past its capacity.
pub proof fn lemma_frontend_step_conserves(fe: Seq<Seq<usize>>, rob: Seq<usize>, idx: int)
    requires
        fe.len() == FRONTEND_STAGE_COUNT,
        1 <= idx < FRONTEND_STAGE_COUNT,
    ensures
        frontend_step(fe, rob, idx).0.len() == FRONTEND_STAGE_COUNT,
        stages_in_age_order(frontend_step(fe, rob, idx).0, FRONTEND_STAGE_COUNT as int)
            == stages_in_age_order(fe, FRONTEND_STAGE_COUNT as int),
        rob.len() <= ROB_CAPACITY ==> frontend_step(fe, rob, idx).1.len() <= ROB_CAPACITY,
        frontend_step(fe, rob, idx).1.len() >= rob.len(),
        frontend_step(fe, rob, idx).1.subrange(0, rob.len() as int) == rob,
{
    let st = frontend_step(fe, rob, idx);
    let prev = fe[idx - 1];
    let dst = fe[idx];
    let k = spec_moved(dst.len() as int, prev.len() as int, DISPATCH_WIDTH as int);
    lemma_rob_intake_extends(rob, prev);
    if st.0 != fe {
        assert(dst + prev.take(k) + prev.skip(k) =~= dst + prev);
        lemma_age_order_two_slots(fe, st.0, idx, FRONTEND_STAGE_COUNT as int);
    }
    assert(rob.subrange(0, rob.len() as int) =~= rob);
}

/// Law: the whole frontend shift of a cycle conserves the micro-ops in flight
/// and keeps the ROB within capacity.
pub proof fn law_frontend_shift_conserves(fe: Seq<Seq<usize>>, rob: Seq<usize>, idx: int)
    requires
        fe.len() == FRONTEND_STAGE_COUNT,
        0 <= idx < FRONTEND_STAGE_COUNT,
    ensures
        frontend_steps(fe, rob, idx).0.len() == FRONTEND_STAGE_COUNT,
        stages_in_age_order(frontend_steps(fe, rob, idx).0, FRONTEND_STAGE_COUNT as int)
            == stages_in_age_order(fe, FRONTEND_STAGE_COUNT as int),
        rob.len() <= ROB_CAPACITY ==> frontend_steps(fe, rob, idx).1.len() <= ROB_CAPACITY,
        frontend_steps(fe, rob, idx).1.len() >= rob.len(),
        frontend_steps(fe, rob, idx).1.subrange(0, rob.len() as int) == rob,
    decreases idx,
{
    if idx >= 1 {
        lemma_frontend_step_conserves(fe, rob, idx);
        let st = frontend_step(fe, rob, idx);
        law_frontend_shift_conserves(st.0, st.1, idx - 1);
        let fin = frontend_steps(fe, rob, idx).1;
        assert(fin.subrange(0, rob.len() as int) =~= fin.subrange(0, st.1.len() as int).subrange(
            0,
            rob.len() as int,
        ));
    } else {
        assert(rob.subrange(0, rob.len() as int) =~= rob);
    }
}

} // verus!

verus! {

/// Whether `seq` is in the list.
pub fn queue_contains_vec(v: &Vec<usize>, seq: usize) -> (r: bool)
    ensures
        r == v@.contains(seq),
{
    let mut i: usize = 0;
    while i < v.len()
        invariant
            i <= v@.len(),
            forall|j: int| 0 <= j < i ==> v@[j] != seq,
        decreases v@.len() - i,
    {
        if v[i] == seq {
            return true;
        }
        i += 1;
    }
    false
}

} // verus!

verus! {

/// No stage of `fe2` is longer than the same stage of `fe`, or than
/// `DISPATCH_WIDTH` if that is more.
pub open spec fn stages_bounded_by(fe2: Seq<Seq<usize>>, fe: Seq<Seq<usize>>) -> bool {
    &&& fe2.len() == fe.len()
    &&& forall|j: int| 0 <= j < fe.len() ==> (#[trigger] fe2[j]).len() <= fe[j].len() || fe2[j].len() <= DISPATCH_WIDTH
}

proof fn lemma_step_bounded(fe: Seq<Seq<usize>>, fe1: Seq<Seq<usize>>, rob: Seq<usize>, idx: int)
    requires
        stages_bounded_by(fe1, fe),
        1 <= idx < fe1.len(),
    ensures
        stages_bounded_by(frontend_step(fe1, rob, idx).0, fe),
{
    let st = frontend_step(fe1, rob, idx).0;
    assert forall|j: int| 0 <= j < fe.len() implies (#[trigger] st[j]).len() <= fe[j].len() || st[j].len() <= DISPATCH_WIDTH by {
        assert(fe1[j].len() <= fe[j].len() || fe1[j].len() <= DISPATCH_WIDTH);
    }
}

proof fn lemma_steps_bounded(fe: Seq<Seq<usize>>, fe1: Seq<Seq<usize>>, rob: Seq<usize>, idx: int)
    requires
        stages_bounded_by(fe1, fe),
        idx < fe1.len(),
    ensures
        stages_bounded_by(frontend_steps(fe1, rob, idx).0, fe),
    decreases idx,
{
    if idx >= 1 {
        lemma_step_bounded(fe, fe1, rob, idx);
        let st = frontend_step(fe1, rob, idx);
        lemma_steps_bounded(fe, st.0, st.1, idx - 1);
    }
}

/// Law: the frontend shift of a cycle grows no stage past its old length or
/// `DISPATCH_WIDTH`, whichever is more.
pub proof fn law_frontend_shift_bounded(fe: Seq<Seq<usize>>, rob: Seq<usize>)
    requires
        fe.len() == FRONTEND_STAGE_COUNT,
    ensures
        stages_bounded_by(frontend_steps(fe, rob, (FRONTEND_STAGE_COUNT - 1) as int).0, fe),
{
    lemma_steps_bounded(fe, fe, rob, (FRONTEND_STAGE_COUNT - 1) as int);
}

} // verus!

verus! {

proof fn lemma_low_steps_keep_rob(fe: Seq<Seq<usize>>, rob: Seq<usize>, idx: int)
    requires
        fe.len() == FRONTEND_STAGE_COUNT,
        idx <= 6,
    ensures
        frontend_steps(fe, rob, idx).1 == rob,
        frontend_steps(fe, rob, idx).0.len() == FRONTEND_STAGE_COUNT,
        frontend_steps(fe, rob, idx).0[6].len() >= fe[6].len(),
        frontend_steps(fe, rob, idx).0[6].take(fe[6].len() as int) == fe[6],
    decreases idx,
{
    if idx >= 1 {
        let st = frontend_step(fe, rob, idx);
        assert(st.1 == rob);
        assert(st.0[6].take(fe[6].len() as int) =~= fe[6]);
        lemma_low_steps_keep_rob(st.0, st.1, idx - 1);
        let fin = frontend_steps(st.0, st.1, idx - 1).0[6];
        assert(fin.take(fe[6].len() as int) =~= fin.take(st.0[6].len() as int).take(fe[6].len() as int));
    } else {
        assert(fe[6].take(fe[6].len() as int) =~= fe[6]);
    }
}

/// Law: the frontend shift of a cycle takes micro-ops into the ROB only from
/// D1, all at once: when the ROB has room for those of D1 it does not hold
/// yet, they join its tail in D1's order (skipping any it holds); otherwise
/// the ROB is unchanged and D1 keeps every micro-op it had, at its head.
pub proof fn law_frontend_rob_intake(fe: Seq<Seq<usize>>, rob: Seq<usize>)
    requires
        fe.len() == FRONTEND_STAGE_COUNT,
    ensures
        ({
            let fin = frontend_steps(fe, rob, (FRONTEND_STAGE_COUNT - 1) as int);
            if rob.len() + fe[6].filter(not_in(rob)).len() <= ROB_CAPACITY {
                fin.1 == rob_intake(rob, fe[6])
            } else {
                &&& fin.1 == rob
                &&& fin.0[6].len() >= fe[6].len()
                &&& fin.0[6].take(fe[6].len() as int) == fe[6]
            }
        }),
{
    let s10 = frontend_step(fe, rob, 10);
    let s9 = frontend_step(s10.0, s10.1, 9);
    let s8 = frontend_step(s9.0, s9.1, 8);
    assert(s10.1 == rob && s10.0[6] == fe[6]);
    assert(s9.1 == rob && s9.0[6] == fe[6]);
    assert(s8.1 == rob && s8.0[6] == fe[6]);
    assert(frontend_steps(fe, rob, 10) == frontend_steps(s10.0, s10.1, 9));
    assert(frontend_steps(s10.0, s10.1, 9) == frontend_steps(s9.0, s9.1, 8));
    assert(frontend_steps(s9.0, s9.1, 8) == frontend_steps(s8.0, s8.1, 7));
    let s7 = frontend_step(s8.0, s8.1, 7);
    assert(frontend_steps(s8.0, s8.1, 7) == frontend_steps(s7.0, s7.1, 6));
    lemma_low_steps_keep_rob(s7.0, s7.1, 6);
    if rob.len() + fe[6].filter(not_in(rob)).len() <= ROB_CAPACITY {
        assert(s7.1 == rob_intake(rob, fe[6]));
    } else {
        assert(s7 == (s8.0, s8.1));
    }
}

} // verus!
