use vstd::prelude::*;
use std::collections::VecDeque;
use crate::blocks::{legal_redirect_restart_seq, spec_legal_redirect_restart_seq};
use crate::config::{
    FRONTEND_REDIRECT_RESTART_DELAY, TRAP_BRU_RECOVERY_NOT_BSTART, TRAP_DYNAMIC_TARGET_MISSING,
    TRAP_DYNAMIC_TARGET_NOT_BSTART, TRAP_DYNAMIC_TARGET_STALE,
};
use crate::decode::{
    deferred_bru_correction_target, fallthrough_pc, is_boundary_redirect_owner, spec_deferred_bru_correction_target,
    spec_fallthrough, spec_is_boundary_redirect_owner,
};
use crate::model::{
    BranchOwnerContext, BranchOwnerKind, BruCorrectionState, CycleUop, FrontendRedirectState, IqEntry,
    PendingFlushState, PendingTrapState, StageQueues,
};
use crate::owner::{
    branch_context_for_seq, is_dynamic_kind, live_boundary_target_for_seq, live_branch_kind_for_seq,
    live_rob_checkpoint_id_for_seq, map_get, recovery_checkpoint_id_for_seq, recovery_epoch_for_seq,
    spec_branch_context, spec_live_boundary_target, spec_live_branch_kind, spec_live_rob_checkpoint_id,
    spec_recovery_checkpoint_id, spec_recovery_epoch,
};
use crate::text::text_is;

verus! {

// ---------------------------------------------------------------------------
// When redirects resolve.
// ---------------------------------------------------------------------------

/// The cycle a micro-op's result becomes visible: its W1 cycle, else the
/// cycle it completed.
pub open spec fn visible_cycle(u: CycleUop) -> Option<u64> {
    match u.w1_cycle {
        Some(c) => Some(c),
        None => u.done_cycle,
    }
}

pub open spec fn spec_redirect_resolve_cycle(u: CycleUop) -> Option<u64> {
    if u.redirect_target is Some { visible_cycle(u) } else { None }
}

/// The cycle a redirecting micro-op resolves; none for one that does not redirect.
pub fn redirect_resolve_cycle(uop: &CycleUop) -> (r: Option<u64>)
    ensures
        r == spec_redirect_resolve_cycle(*uop),
{
    if uop.redirect_target.is_some() {
        match uop.w1_cycle {
            Some(c) => Some(c),
            None => uop.done_cycle,
        }
    } else {
        None
    }
}

pub open spec fn unresolved_redirect(u: CycleUop) -> bool {
    u.redirect_target is Some && spec_redirect_resolve_cycle(u) is None
}

/// The oldest micro-op in `[i, n)` whose redirect has not resolved.
pub open spec fn first_unresolved_from(uops: Seq<CycleUop>, n: int, i: int) -> Option<int>
    decreases n - i,
{
    if i < 0 || i >= n || i >= uops.len() {
        None
    } else if unresolved_redirect(uops[i]) {
        Some(i)
    } else {
        first_unresolved_from(uops, n, i + 1)
    }
}

/// The oldest micro-op fetched so far (below `next_fetch_seq`) whose
/// redirect has not resolved: fetch may not run past it.
pub fn unresolved_redirect_barrier(next_fetch_seq: usize, uops: &Vec<CycleUop>) -> (r: Option<usize>)
    requires
        next_fetch_seq <= uops@.len(),
    ensures
        match r {
            Some(s) => first_unresolved_from(uops@, next_fetch_seq as int, 0) == Some(s as int),
            None => first_unresolved_from(uops@, next_fetch_seq as int, 0) is None,
        },
{
    let mut s: usize = 0;
    while s < next_fetch_seq
        invariant
            s <= next_fetch_seq <= uops@.len(),
            first_unresolved_from(uops@, next_fetch_seq as int, 0) == first_unresolved_from(uops@, next_fetch_seq as int, s as int),
        decreases next_fetch_seq - s,
    {
        if uops[s].redirect_target.is_some() && redirect_resolve_cycle(&uops[s]).is_none() {
            return Some(s);
        }
        s += 1;
    }
    None
}

pub open spec fn spec_boundary_resolve_cycle(u: CycleUop) -> Option<u64> {
    if spec_is_boundary_redirect_owner(u.decoded@.mnemonic) { visible_cycle(u) } else { None }
}

/// The cycle a block boundary resolves; none for other micro-ops.
pub fn boundary_resolve_cycle(uop: &CycleUop) -> (r: Option<u64>)
    ensures
        r == spec_boundary_resolve_cycle(*uop),
{
    if is_boundary_redirect_owner(&uop.decoded) {
        match uop.w1_cycle {
            Some(c) => Some(c),
            None => uop.done_cycle,
        }
    } else {
        None
    }
}

pub open spec fn resolves_in(u: CycleUop, cycle: u64) -> bool {
    spec_boundary_resolve_cycle(u) == Some(cycle)
}

/// The oldest block boundary at or after `i` that resolves in `cycle`.
pub open spec fn first_resolving_from(uops: Seq<CycleUop>, cycle: u64, i: int) -> Option<int>
    decreases uops.len() - i,
{
    if i < 0 || i >= uops.len() {
        None
    } else if resolves_in(uops[i], cycle) {
        Some(i)
    } else {
        first_resolving_from(uops, cycle, i + 1)
    }
}

pub open spec fn spec_resolved_boundary_seq(uops: Seq<CycleUop>, cycle: u64) -> Option<int> {
    first_resolving_from(uops, cycle, 0)
}

/// The oldest block boundary that resolves in `cycle`.
pub fn resolved_boundary_seq(cycle: u64, uops: &Vec<CycleUop>) -> (r: Option<usize>)
    ensures
        match r {
            Some(s) => spec_resolved_boundary_seq(uops@, cycle) == Some(s as int) && s < uops@.len(),
            None => spec_resolved_boundary_seq(uops@, cycle) is None,
        },
{
    let mut s: usize = 0;
    while s < uops.len()
        invariant
            s <= uops@.len(),
            spec_resolved_boundary_seq(uops@, cycle) == first_resolving_from(uops@, cycle, s as int),
        decreases uops@.len() - s,
    {
        if boundary_resolve_cycle(&uops[s]) == Some(cycle) {
            return Some(s);
        }
        s += 1;
    }
    None
}

} // verus!

verus! {

// ---------------------------------------------------------------------------
// The redirect that a resolving block boundary makes.
// ---------------------------------------------------------------------------

#[derive(Clone, Copy, Debug, PartialEq, Eq, Structural)]
pub struct ResolvedFrontendRedirect {
    pub source_seq: usize,
    pub target_pc: u64,
    pub checkpoint_id: u8,
    pub from_correction: bool,
}

pub open spec fn spec_resolved_frontend_redirect(cycle: u64, p: StageQueues, uops: Seq<CycleUop>) -> Option<ResolvedFrontendRedirect> {
    match spec_resolved_boundary_seq(uops, cycle) {
        None => None,
        Some(s) => {
            let source_seq = s as usize;
            if p.pending_trap matches Some(t) && t.seq == source_seq && t.visible_cycle <= cycle {
                None
            } else {
                let epoch = spec_recovery_epoch(p, uops, source_seq);
                if p.pending_bru_correction matches Some(c) && c.source_seq < source_seq && c.epoch == epoch {
                    let c = p.pending_bru_correction->0;
                    Some(ResolvedFrontendRedirect {
                        source_seq,
                        target_pc: if c.actual_take { c.target_pc } else { spec_fallthrough(uops[s].commit) },
                        checkpoint_id: c.checkpoint_id,
                        from_correction: true,
                    })
                } else {
                    match spec_live_boundary_target(p, uops, source_seq) {
                        Some(t) => Some(ResolvedFrontendRedirect {
                            source_seq,
                            target_pc: t,
                            checkpoint_id: spec_live_rob_checkpoint_id(p, uops, source_seq),
                            from_correction: false,
                        }),
                        None => None,
                    }
                }
            }
        },
    }
}

/// The redirect of the oldest block boundary that resolves in `cycle`,
/// unless a trap on it is already visible: to the target of a pending
/// branch-unit correction of its own block (or its fall-through when that
/// correction is not taken), else to the boundary's own target when known.
pub fn resolved_frontend_redirect(cycle: u64, pipeline: &StageQueues, uops: &Vec<CycleUop>) -> (r: Option<ResolvedFrontendRedirect>)
    ensures
        r == spec_resolved_frontend_redirect(cycle, *pipeline, uops@),
{
    let source_seq = match resolved_boundary_seq(cycle, uops) {
        Some(s) => s,
        None => return None,
    };
    if let Some(t) = pipeline.pending_trap {
        if t.seq == source_seq && t.visible_cycle <= cycle {
            return None;
        }
    }
    let epoch = recovery_epoch_for_seq(source_seq, pipeline, uops);
    if let Some(c) = pipeline.pending_bru_correction {
        if c.source_seq < source_seq && c.epoch == epoch {
            return Some(ResolvedFrontendRedirect {
                source_seq,
                target_pc: if c.actual_take { c.target_pc } else { fallthrough_pc(&uops[source_seq].commit) },
                checkpoint_id: c.checkpoint_id,
                from_correction: true,
            });
        }
    }
    match live_boundary_target_for_seq(source_seq, pipeline, uops) {
        Some(t) => Some(ResolvedFrontendRedirect {
            source_seq,
            target_pc: t,
            checkpoint_id: live_rob_checkpoint_id_for_seq(source_seq, pipeline, uops),
            from_correction: false,
        }),
        None => None,
    }
}

pub open spec fn spec_active_flush(cycle: u64, p: StageQueues, uops: Seq<CycleUop>) -> Option<PendingFlushState> {
    if p.pending_flush matches Some(f) && f.apply_cycle <= cycle {
        p.pending_flush
    } else {
        match spec_resolved_frontend_redirect(cycle, p, uops) {
            Some(r) => Some(PendingFlushState { flush_seq: r.source_seq, checkpoint_id: r.checkpoint_id, apply_cycle: cycle }),
            None => None,
        }
    }
}

/// The flush that takes effect in `cycle`: a pending one that is due, else
/// the one a boundary resolving now makes.
pub fn active_flush(cycle: u64, pipeline: &StageQueues, uops: &Vec<CycleUop>) -> (r: Option<PendingFlushState>)
    ensures
        r == spec_active_flush(cycle, *pipeline, uops@),
{
    if let Some(f) = pipeline.pending_flush {
        if f.apply_cycle <= cycle {
            return Some(f);
        }
    }
    match resolved_frontend_redirect(cycle, pipeline, uops) {
        Some(r) => Some(PendingFlushState { flush_seq: r.source_seq, checkpoint_id: r.checkpoint_id, apply_cycle: cycle }),
        None => None,
    }
}

// ---------------------------------------------------------------------------
// Dynamic block targets that cannot be followed.
// ---------------------------------------------------------------------------

pub open spec fn spec_dynamic_boundary_target_fault(seq: usize, cycle: u64, p: StageQueues, uops: Seq<CycleUop>) -> Option<PendingTrapState> {
    if seq >= uops.len() {
        None
    } else {
        let u = uops[seq as int];
        if spec_boundary_resolve_cycle(u) != Some(cycle) {
            None
        } else {
            match spec_live_branch_kind(p, uops, seq) {
                None => None,
                Some(kind) => if !is_dynamic_kind(kind) {
                    None
                } else {
                    let target = spec_live_boundary_target(p, uops, seq);
                    let setup = map_get(p.seq_boundary_target_setup_epochs@, seq);
                    let epoch = spec_recovery_epoch(p, uops, seq);
                    let cause: Option<u64> = match target {
                        None => Some(TRAP_DYNAMIC_TARGET_MISSING),
                        Some(t) => if setup matches Some(e) && e != epoch {
                            Some(TRAP_DYNAMIC_TARGET_STALE)
                        } else if spec_legal_redirect_restart_seq(uops, seq, t) is None {
                            Some(TRAP_DYNAMIC_TARGET_NOT_BSTART)
                        } else {
                            None
                        },
                    };
                    match cause {
                        None => None,
                        Some(c) => Some(PendingTrapState {
                            seq,
                            cause: c,
                            traparg0: u.commit.pc,
                            checkpoint_id: spec_live_rob_checkpoint_id(p, uops, seq),
                            visible_cycle: cycle,
                        }),
                    }
                },
            }
        }
    }
}

/// The trap of a return or indirect block boundary resolving in `cycle`
/// whose dynamic target is missing, was set up in another block, or does
/// not land on a block start.
pub fn dynamic_boundary_target_fault(seq: usize, cycle: u64, pipeline: &StageQueues, uops: &Vec<CycleUop>) -> (r: Option<PendingTrapState>)
    ensures
        r == spec_dynamic_boundary_target_fault(seq, cycle, *pipeline, uops@),
{
    if seq >= uops.len() {
        return None;
    }
    let uop = &uops[seq];
    if boundary_resolve_cycle(uop) != Some(cycle) {
        return None;
    }
    let kind = match live_branch_kind_for_seq(seq, pipeline, uops) {
        Some(k) => k,
        None => return None,
    };
    match kind {
        BranchOwnerKind::Ret | BranchOwnerKind::Ind | BranchOwnerKind::ICall => {},
        _ => return None,
    }
    let target = live_boundary_target_for_seq(seq, pipeline, uops);
    let setup = pipeline.seq_boundary_target_setup_epochs.get(seq);
    let epoch = recovery_epoch_for_seq(seq, pipeline, uops);
    let cause = match target {
        None => TRAP_DYNAMIC_TARGET_MISSING,
        Some(t) => {
            if setup.is_some() && setup.unwrap() != epoch {
                TRAP_DYNAMIC_TARGET_STALE
            } else if legal_redirect_restart_seq(seq, t, uops).is_none() {
                TRAP_DYNAMIC_TARGET_NOT_BSTART
            } else {
                return None;
            }
        },
    };
    Some(PendingTrapState {
        seq,
        cause,
        traparg0: uop.commit.pc,
        checkpoint_id: live_rob_checkpoint_id_for_seq(seq, pipeline, uops),
        visible_cycle: cycle,
    })
}

// ---------------------------------------------------------------------------
// Branch-unit corrections inside a block.
// ---------------------------------------------------------------------------

pub open spec fn spec_bru_actual_take(u: CycleUop) -> Option<bool> {
    if u.commit.trap_valid == 0 && u.decoded@.uop_group == "BRU"@ && !spec_is_boundary_redirect_owner(u.decoded@.mnemonic) {
        Some(u.commit.next_pc != spec_fallthrough(u.commit))
    } else {
        None
    }
}

/// Whether a branch-unit micro-op inside a block (that did not trap) left
/// its fall-through path.
pub fn bru_actual_take(uop: &CycleUop) -> (r: Option<bool>)
    ensures
        r == spec_bru_actual_take(*uop),
{
    if uop.commit.trap_valid == 0 && text_is(&uop.decoded.uop_group, "BRU") && !is_boundary_redirect_owner(&uop.decoded) {
        Some(uop.commit.next_pc != fallthrough_pc(&uop.commit))
    } else {
        None
    }
}

pub open spec fn spec_bru_target_pc(u: CycleUop, ctx: BranchOwnerContext, actual_take: bool, has_live: bool) -> Option<u64> {
    if ctx.kind != BranchOwnerKind::NoBranch {
        Some(ctx.target_pc)
    } else if has_live {
        None
    } else if actual_take {
        spec_deferred_bru_correction_target(u.commit, u.decoded@)
    } else {
        None
    }
}

/// The target a correction by `uop` goes to: that of the block's branch, or,
/// outside any recorded block, where a taken branch went.
pub fn bru_target_pc(uop: &CycleUop, branch_context: BranchOwnerContext, actual_take: bool, has_live_branch_context: bool) -> (r: Option<u64>)
    ensures
        r == spec_bru_target_pc(*uop, branch_context, actual_take, has_live_branch_context),
{
    if branch_context.kind != BranchOwnerKind::NoBranch {
        return Some(branch_context.target_pc);
    }
    if has_live_branch_context {
        return None;
    }
    if actual_take {
        deferred_bru_correction_target(&uop.commit, &uop.decoded)
    } else {
        None
    }
}

#[derive(Clone, Copy, Debug, PartialEq, Eq, Structural)]
pub struct BruCorrectionCandidate {
    pub source_seq: usize,
    pub epoch: u16,
    pub actual_take: bool,
    pub target_pc: u64,
    pub checkpoint_id: u8,
    pub visible_cycle: u64,
}

pub open spec fn spec_bru_correction_candidate(seq: usize, cycle: u64, p: StageQueues, uops: Seq<CycleUop>) -> Option<BruCorrectionCandidate> {
    if seq >= uops.len() {
        None
    } else {
        let u = uops[seq as int];
        if visible_cycle(u) != Some(cycle) {
            None
        } else {
            let has_live = p.seq_branch_contexts@.contains_key(seq);
            let ctx = spec_branch_context(p, uops, seq);
            match spec_bru_actual_take(u) {
                None => None,
                Some(take) => match spec_bru_target_pc(u, ctx, take, has_live) {
                    None => None,
                    Some(t) => {
                        let mismatch = if ctx.kind == BranchOwnerKind::Cond || ctx.kind == BranchOwnerKind::Ret {
                            take != ctx.pred_take
                        } else if has_live {
                            false
                        } else {
                            take
                        };
                        if mismatch {
                            Some(BruCorrectionCandidate {
                                source_seq: seq,
                                epoch: spec_recovery_epoch(p, uops, seq),
                                actual_take: take,
                                target_pc: t,
                                checkpoint_id: spec_recovery_checkpoint_id(p, uops, seq),
                                visible_cycle: cycle,
                            })
                        } else {
                            None
                        }
                    },
                },
            }
        }
    }
}

/// The correction that branch-unit micro-op `seq`, visible in `cycle`,
/// asks for when its outcome differs from what its block predicted.
pub fn bru_correction_candidate(seq: usize, cycle: u64, pipeline: &StageQueues, uops: &Vec<CycleUop>) -> (r: Option<BruCorrectionCandidate>)
    ensures
        r == spec_bru_correction_candidate(seq, cycle, *pipeline, uops@),
{
    if seq >= uops.len() {
        return None;
    }
    let uop = &uops[seq];
    let vis = match uop.w1_cycle {
        Some(c) => Some(c),
        None => uop.done_cycle,
    };
    if vis != Some(cycle) {
        return None;
    }
    let has_live = pipeline.seq_branch_contexts.get(seq).is_some();
    let ctx = branch_context_for_seq(seq, pipeline, uops);
    let take = match bru_actual_take(uop) {
        Some(t) => t,
        None => return None,
    };
    let target = match bru_target_pc(uop, ctx, take, has_live) {
        Some(t) => t,
        None => return None,
    };
    let mismatch = match ctx.kind {
        BranchOwnerKind::Cond | BranchOwnerKind::Ret => take != ctx.pred_take,
        _ => if has_live { false } else { take },
    };
    if mismatch {
        Some(BruCorrectionCandidate {
            source_seq: seq,
            epoch: recovery_epoch_for_seq(seq, pipeline, uops),
            actual_take: take,
            target_pc: target,
            checkpoint_id: recovery_checkpoint_id_for_seq(seq, pipeline, uops),
            visible_cycle: cycle,
        })
    } else {
        None
    }
}

} // verus!

verus! {

// ---------------------------------------------------------------------------
// Publishing corrections and traps.
// ---------------------------------------------------------------------------

/// A new trap replaces the pending one unless the pending one is older.
pub open spec fn merged_trap(active: Option<PendingTrapState>, fault: PendingTrapState) -> PendingTrapState {
    match active {
        Some(a) => if a.seq < fault.seq { a } else { fault },
        None => fault,
    }
}

fn merge_trap(active: Option<PendingTrapState>, fault: PendingTrapState) -> (r: PendingTrapState)
    ensures
        r == merged_trap(active, fault),
{
    match active {
        Some(a) => if a.seq < fault.seq { a } else { fault },
        None => fault,
    }
}

pub open spec fn spec_bru_fault(seq: usize, cycle: u64, p: StageQueues, uops: Seq<CycleUop>) -> Option<PendingTrapState> {
    match spec_bru_correction_candidate(seq, cycle, p, uops) {
        Some(c) => if c.actual_take && spec_legal_redirect_restart_seq(uops, seq, c.target_pc) is None {
            Some(PendingTrapState {
                seq,
                cause: TRAP_BRU_RECOVERY_NOT_BSTART,
                traparg0: uops[seq as int].commit.pc,
                checkpoint_id: c.checkpoint_id,
                visible_cycle: cycle,
            })
        } else {
            None
        },
        None => None,
    }
}

/// The first micro-op at or after `i` whose correction is taken to a target
/// where fetch cannot restart, as a trap.
pub open spec fn first_bru_fault_from(i: int, cycle: u64, p: StageQueues, uops: Seq<CycleUop>) -> Option<PendingTrapState>
    decreases uops.len() - i,
{
    if i < 0 || i >= uops.len() {
        None
    } else {
        match spec_bru_fault(i as usize, cycle, p, uops) {
            Some(t) => Some(t),
            None => first_bru_fault_from(i + 1, cycle, p, uops),
        }
    }
}

pub open spec fn correction_state(c: BruCorrectionCandidate) -> BruCorrectionState {
    BruCorrectionState {
        source_seq: c.source_seq,
        epoch: c.epoch,
        actual_take: c.actual_take,
        target_pc: c.target_pc,
        checkpoint_id: c.checkpoint_id,
        visible_cycle: c.visible_cycle,
    }
}

/// Whether `c` ranks at least as high as `b` by (epoch, source).
pub open spec fn ranks_above(c: BruCorrectionState, b: BruCorrectionState) -> bool {
    c.epoch > b.epoch || (c.epoch == b.epoch && c.source_seq >= b.source_seq)
}

/// Among the corrections of the micro-ops below `k`, the one of the
/// youngest epoch (and, within it, the youngest micro-op).
pub open spec fn best_correction(k: int, cycle: u64, p: StageQueues, uops: Seq<CycleUop>) -> Option<BruCorrectionState>
    decreases k,
{
    if k <= 0 {
        None
    } else {
        let prev = best_correction(k - 1, cycle, p, uops);
        match spec_bru_correction_candidate((k - 1) as usize, cycle, p, uops) {
            None => prev,
            Some(c) => match prev {
                None => Some(correction_state(c)),
                Some(b) => if ranks_above(correction_state(c), b) { Some(correction_state(c)) } else { Some(b) },
            },
        }
    }
}

/// What publishing this cycle's branch outcomes does to the pipeline.
pub open spec fn bru_publish_post(cycle: u64, p_old: StageQueues, uops: Seq<CycleUop>, p_new: StageQueues) -> bool {
    &&& ({
        let o = p_old;
        match first_bru_fault_from(0, cycle, o, uops) {
            Some(fault) => {
                &&& p_new.pending_trap == Some(merged_trap(o.pending_trap, fault))
                &&& p_new.pending_bru_correction == o.pending_bru_correction
            },
            None => {
                &&& p_new.pending_trap == o.pending_trap
                &&& p_new.pending_bru_correction == match best_correction(uops.len() as int, cycle, o, uops) {
                    None => o.pending_bru_correction,
                    Some(next) => Some(match o.pending_bru_correction {
                        Some(a) => if a.source_seq > next.source_seq { a } else { next },
                        None => next,
                    }),
                }
            },
        }
    })
    &&& p_new.pending_flush == p_old.pending_flush
    &&& p_new.frontend_redirect == p_old.frontend_redirect
    &&& p_new.same_dispatch_marks(&p_old)
    &&& p_new.same_call_state(&p_old)
    &&& p_new.same_target_records(&p_old)
    &&& p_new.iq_tags == p_old.iq_tags
    &&& p_new == (StageQueues {
        pending_trap: p_new.pending_trap,
        pending_bru_correction: p_new.pending_bru_correction,
        ..p_old
    })
    &&& (p_old.pending_trap matches Some(t) ==> t.seq < uops.len())
        ==> (p_new.pending_trap matches Some(t) ==> t.seq < uops.len())
}

/// Publishes the branch-unit outcomes that became visible in `cycle`: the
/// oldest one whose taken target is no block start becomes a trap (unless
/// an older trap is pending); otherwise the correction of the youngest
/// epoch becomes pending, unless a younger one already is.
pub fn publish_bru_correction_state(cycle: u64, pipeline: &mut StageQueues, uops: &Vec<CycleUop>)
    ensures
        bru_publish_post(cycle, *old(pipeline), uops@, *final(pipeline)),
{
    let mut s: usize = 0;
    while s < uops.len()
        invariant
            s <= uops@.len(),
            first_bru_fault_from(0, cycle, *pipeline, uops@) == first_bru_fault_from(s as int, cycle, *pipeline, uops@),
            *pipeline == *old(pipeline),
        ensures
            first_bru_fault_from(0, cycle, *pipeline, uops@) is None,
        decreases uops@.len() - s,
    {
        if let Some(c) = bru_correction_candidate(s, cycle, pipeline, uops) {
            if c.actual_take && legal_redirect_restart_seq(s, c.target_pc, uops).is_none() {
                let fault = PendingTrapState {
                    seq: s,
                    cause: TRAP_BRU_RECOVERY_NOT_BSTART,
                    traparg0: uops[s].commit.pc,
                    checkpoint_id: c.checkpoint_id,
                    visible_cycle: cycle,
                };
                let merged = merge_trap(pipeline.pending_trap, fault);
                pipeline.pending_trap = Some(merged);
                return;
            }
        }
        s += 1;
    }
    let mut best: Option<BruCorrectionState> = None;
    let mut k: usize = 0;
    while k < uops.len()
        invariant
            k <= uops@.len(),
            best == best_correction(k as int, cycle, *pipeline, uops@),
            *pipeline == *old(pipeline),
        decreases uops@.len() - k,
    {
        if let Some(c) = bru_correction_candidate(k, cycle, pipeline, uops) {
            let st = BruCorrectionState {
                source_seq: c.source_seq,
                epoch: c.epoch,
                actual_take: c.actual_take,
                target_pc: c.target_pc,
                checkpoint_id: c.checkpoint_id,
                visible_cycle: c.visible_cycle,
            };
            best = match best {
                None => Some(st),
                Some(b) => if st.epoch > b.epoch || (st.epoch == b.epoch && st.source_seq >= b.source_seq) {
                    Some(st)
                } else {
                    Some(b)
                },
            };
        }
        k += 1;
    }
    if let Some(next) = best {
        let chosen = match pipeline.pending_bru_correction {
            Some(a) => if a.source_seq > next.source_seq { a } else { next },
            None => next,
        };
        pipeline.pending_bru_correction = Some(chosen);
    }
}

/// The first boundary at or after `i` whose dynamic target cannot be followed.
pub open spec fn first_dynamic_fault_from(i: int, cycle: u64, p: StageQueues, uops: Seq<CycleUop>) -> Option<PendingTrapState>
    decreases uops.len() - i,
{
    if i < 0 || i >= uops.len() {
        None
    } else {
        match spec_dynamic_boundary_target_fault(i as usize, cycle, p, uops) {
            Some(t) => Some(t),
            None => first_dynamic_fault_from(i + 1, cycle, p, uops),
        }
    }
}

/// What publishing this cycle's dynamic-target faults does to the pipeline.
pub open spec fn dynamic_fault_publish_post(cycle: u64, p_old: StageQueues, uops: Seq<CycleUop>, p_new: StageQueues) -> bool {
    &&& p_new.pending_trap == match first_dynamic_fault_from(0, cycle, p_old, uops) {
        Some(fault) => Some(merged_trap(p_old.pending_trap, fault)),
        None => p_old.pending_trap,
    }
    &&& p_new.pending_bru_correction == p_old.pending_bru_correction
    &&& p_new.pending_flush == p_old.pending_flush
    &&& p_new.frontend_redirect == p_old.frontend_redirect
    &&& p_new.same_dispatch_marks(&p_old)
    &&& p_new.same_call_state(&p_old)
    &&& p_new.same_target_records(&p_old)
    &&& p_new.iq_tags == p_old.iq_tags
    &&& p_new == (StageQueues { pending_trap: p_new.pending_trap, ..p_old })
    &&& (p_old.pending_trap matches Some(t) ==> t.seq < uops.len())
        ==> (p_new.pending_trap matches Some(t) ==> t.seq < uops.len())
}

/// Publishes the oldest dynamic-target trap of the boundaries resolving in
/// `cycle`, unless an older trap is pending.
pub fn publish_dynamic_boundary_target_fault_state(cycle: u64, pipeline: &mut StageQueues, uops: &Vec<CycleUop>)
    ensures
        dynamic_fault_publish_post(cycle, *old(pipeline), uops@, *final(pipeline)),
{
    let mut s: usize = 0;
    while s < uops.len()
        invariant
            s <= uops@.len(),
            first_dynamic_fault_from(0, cycle, *pipeline, uops@) == first_dynamic_fault_from(s as int, cycle, *pipeline, uops@),
            *pipeline == *old(pipeline),
        decreases uops@.len() - s,
    {
        if let Some(fault) = dynamic_boundary_target_fault(s, cycle, pipeline, uops) {
            let merged = merge_trap(pipeline.pending_trap, fault);
            pipeline.pending_trap = Some(merged);
            return;
        }
        s += 1;
    }
}

pub open spec fn spec_call_header_fault(seq: usize, cycle: u64, p: StageQueues, uops: Seq<CycleUop>) -> Option<PendingTrapState> {
    match map_get(p.seq_call_header_faults@, seq) {
        None => None,
        Some(cause) => if seq < uops.len() && visible_cycle(uops[seq as int]) == Some(cycle) {
            Some(PendingTrapState {
                seq,
                cause,
                traparg0: uops[seq as int].commit.pc,
                checkpoint_id: spec_recovery_checkpoint_id(p, uops, seq),
                visible_cycle: cycle,
            })
        } else {
            None
        },
    }
}

/// The first micro-op at or after `i` with a recorded call fault that
/// becomes visible in `cycle`, as a trap.
pub open spec fn first_call_fault_from(i: int, cycle: u64, p: StageQueues, uops: Seq<CycleUop>) -> Option<PendingTrapState>
    decreases uops.len() - i,
{
    if i < 0 || i >= uops.len() {
        None
    } else {
        match spec_call_header_fault(i as usize, cycle, p, uops) {
            Some(t) => Some(t),
            None => first_call_fault_from(i + 1, cycle, p, uops),
        }
    }
}

/// What publishing this cycle's call-header faults does to the pipeline.
pub open spec fn call_fault_publish_post(cycle: u64, p_old: StageQueues, uops: Seq<CycleUop>, p_new: StageQueues) -> bool {
    &&& p_new.pending_trap == match first_call_fault_from(0, cycle, p_old, uops) {
        Some(fault) => Some(merged_trap(p_old.pending_trap, fault)),
        None => p_old.pending_trap,
    }
    &&& p_new.pending_bru_correction == p_old.pending_bru_correction
    &&& p_new.pending_flush == p_old.pending_flush
    &&& p_new.frontend_redirect == p_old.frontend_redirect
    &&& p_new.same_dispatch_marks(&p_old)
    &&& p_new.same_call_state(&p_old)
    &&& p_new.same_target_records(&p_old)
    &&& p_new.iq_tags == p_old.iq_tags
    &&& p_new == (StageQueues { pending_trap: p_new.pending_trap, ..p_old })
    &&& (p_old.pending_trap matches Some(t) ==> t.seq < uops.len())
        ==> (p_new.pending_trap matches Some(t) ==> t.seq < uops.len())
}

/// Publishes the oldest call-header fault that becomes visible in `cycle`,
/// unless an older trap is pending.
pub fn publish_call_header_fault_state(cycle: u64, pipeline: &mut StageQueues, uops: &Vec<CycleUop>)
    ensures
        call_fault_publish_post(cycle, *old(pipeline), uops@, *final(pipeline)),
{
    let mut s: usize = 0;
    while s < uops.len()
        invariant
            s <= uops@.len(),
            first_call_fault_from(0, cycle, *pipeline, uops@) == first_call_fault_from(s as int, cycle, *pipeline, uops@),
            *pipeline == *old(pipeline),
        decreases uops@.len() - s,
    {
        if let Some(cause) = pipeline.seq_call_header_faults.get(s) {
            let uop = &uops[s];
            let vis = match uop.w1_cycle {
                Some(c) => Some(c),
                None => uop.done_cycle,
            };
            if vis == Some(cycle) {
                let fault = PendingTrapState {
                    seq: s,
                    cause,
                    traparg0: uop.commit.pc,
                    checkpoint_id: recovery_checkpoint_id_for_seq(s, pipeline, uops),
                    visible_cycle: cycle,
                };
                let merged = merge_trap(pipeline.pending_trap, fault);
                pipeline.pending_trap = Some(merged);
                return;
            }
        }
        s += 1;
    }
}

} // verus!

verus! {

// ---------------------------------------------------------------------------
// Flushing everything younger than a redirecting micro-op.
// ---------------------------------------------------------------------------

/// Records that belong to one micro-op.
pub trait Sequenced: Copy {
    spec fn seq_spec(&self) -> usize;

    fn seq_of(&self) -> (r: usize)
        ensures
            r == self.seq_spec(),
    ;
}

impl Sequenced for crate::model::LiqEntry {
    open spec fn seq_spec(&self) -> usize {
        self.seq
    }

    fn seq_of(&self) -> (r: usize) {
        self.seq
    }
}

impl Sequenced for crate::model::MdbEntry {
    open spec fn seq_spec(&self) -> usize {
        self.seq
    }

    fn seq_of(&self) -> (r: usize) {
        self.seq
    }
}

impl Sequenced for crate::model::ScbEntry {
    open spec fn seq_spec(&self) -> usize {
        self.seq
    }

    fn seq_of(&self) -> (r: usize) {
        self.seq
    }
}

impl Sequenced for crate::model::L1dEntry {
    open spec fn seq_spec(&self) -> usize {
        self.seq
    }

    fn seq_of(&self) -> (r: usize) {
        self.seq
    }
}

impl Sequenced for IqEntry {
    open spec fn seq_spec(&self) -> usize {
        self.seq
    }

    fn seq_of(&self) -> (r: usize) {
        self.seq
    }
}

pub open spec fn owned_upto<T: Sequenced>(b: usize) -> spec_fn(T) -> bool {
    |e: T| e.seq_spec() <= b
}

/// Keeps, in order, the records of micro-ops up to `bound`.
pub fn retain_records_upto<T: Sequenced>(q: &mut VecDeque<T>, bound: usize)
    ensures
        final(q)@ == old(q)@.filter(owned_upto::<T>(bound)),
{
    let ghost pred = owned_upto::<T>(bound);
    let mut out: VecDeque<T> = VecDeque::new();
    let mut i: usize = 0;
    while i < q.len()
        invariant
            i <= q@.len(),
            pred == owned_upto::<T>(bound),
            out@ == q@.take(i as int).filter(pred),
        decreases q@.len() - i,
    {
        let e = q[i];
        proof {
            assert(q@.take(i + 1) =~= q@.take(i as int).push(e));
            assert(q@.take(i as int).push(e).filter(pred) == if pred(e) {
                q@.take(i as int).filter(pred).push(e)
            } else {
                q@.take(i as int).filter(pred)
            }) by {
                reveal_with_fuel(Seq::filter, 2);
                assert(q@.take(i as int).push(e).drop_last() =~= q@.take(i as int));
            }
        }
        if e.seq_of() <= bound {
            out.push_back(e);
        }
        i += 1;
    }
    assert(q@.take(q@.len() as int) =~= q@);
    *q = out;
}

/// Keeps, in order, the issue-queue entries of micro-ops up to `bound`.
pub fn retain_iq_upto(iq: &mut Vec<IqEntry>, bound: usize)
    ensures
        final(iq)@ == old(iq)@.filter(owned_upto::<IqEntry>(bound)),
{
    let ghost pred = owned_upto::<IqEntry>(bound);
    let mut out: Vec<IqEntry> = Vec::new();
    let mut i: usize = 0;
    while i < iq.len()
        invariant
            i <= iq@.len(),
            pred == owned_upto::<IqEntry>(bound),
            out@ == iq@.take(i as int).filter(pred),
        decreases iq@.len() - i,
    {
        let e = iq[i];
        proof {
            assert(iq@.take(i + 1) =~= iq@.take(i as int).push(e));
            assert(iq@.take(i as int).push(e).filter(pred) == if pred(e) {
                iq@.take(i as int).filter(pred).push(e)
            } else {
                iq@.take(i as int).filter(pred)
            }) by {
                reveal_with_fuel(Seq::filter, 2);
                assert(iq@.take(i as int).push(e).drop_last() =~= iq@.take(i as int));
            }
        }
        if e.seq <= bound {
            out.push(e);
        }
        i += 1;
    }
    assert(iq@.take(iq@.len() as int) =~= iq@);
    *iq = out;
}

pub open spec fn keys_upto<V>(m: Map<usize, V>, b: usize) -> Map<usize, V> {
    m.restrict(Set::new(crate::lsu_queues::at_most(b)))
}

pub open spec fn kept_upto(q: Seq<usize>, b: usize) -> Seq<usize> {
    q.filter(crate::lsu_queues::at_most(b))
}

/// The state after flushing every micro-op younger than `f` from the
/// frontend, issue and execute stages, the ROB, the issue queue and every
/// per-micro-op record.
pub open spec fn pruned_after(o: StageQueues, n: StageQueues, f: usize) -> bool {
    &&& n.frontend@.len() == o.frontend@.len()
    &&& forall|i: int| 0 <= i < o.frontend@.len() ==> (#[trigger] n.frontend@[i])@ == kept_upto(o.frontend@[i]@, f)
    &&& n.p1@ == kept_upto(o.p1@, f)
    &&& n.i1@ == kept_upto(o.i1@, f)
    &&& n.i2@ == kept_upto(o.i2@, f)
    &&& n.e1@ == kept_upto(o.e1@, f)
    &&& n.e2@ == kept_upto(o.e2@, f)
    &&& n.e3@ == kept_upto(o.e3@, f)
    &&& n.e4@ == kept_upto(o.e4@, f)
    &&& n.w1@ == kept_upto(o.w1@, f)
    &&& n.w2@ == kept_upto(o.w2@, f)
    &&& n.iq_tags@ == keys_upto(o.iq_tags@, f)
    &&& n.seq_checkpoint_ids@ == keys_upto(o.seq_checkpoint_ids@, f)
    &&& n.seq_rob_checkpoint_ids@ == keys_upto(o.seq_rob_checkpoint_ids@, f)
    &&& n.seq_recovery_checkpoint_ids@ == keys_upto(o.seq_recovery_checkpoint_ids@, f)
    &&& n.seq_recovery_epochs@ == keys_upto(o.seq_recovery_epochs@, f)
    &&& n.seq_branch_contexts == o.seq_branch_contexts
    &&& n.seq_dynamic_target_pcs@ == keys_upto(o.seq_dynamic_target_pcs@, f)
    &&& n.seq_boundary_target_pcs@ == keys_upto(o.seq_boundary_target_pcs@, f)
    &&& n.seq_boundary_target_owner_seqs@ == keys_upto(o.seq_boundary_target_owner_seqs@, f)
    &&& n.seq_boundary_target_producer_kinds@ == keys_upto(o.seq_boundary_target_producer_kinds@, f)
    &&& n.seq_boundary_target_setup_epochs@ == keys_upto(o.seq_boundary_target_setup_epochs@, f)
    &&& n.seq_boundary_target_source_owner_seqs@ == keys_upto(o.seq_boundary_target_source_owner_seqs@, f)
    &&& n.seq_boundary_target_source_epochs@ == keys_upto(o.seq_boundary_target_source_epochs@, f)
    &&& n.seq_boundary_target_source_kinds@ == keys_upto(o.seq_boundary_target_source_kinds@, f)
    &&& n.seq_return_consumer_kinds@ == keys_upto(o.seq_return_consumer_kinds@, f)
    &&& n.seq_call_return_target_pcs@ == keys_upto(o.seq_call_return_target_pcs@, f)
    &&& n.seq_call_return_target_owner_seqs@ == keys_upto(o.seq_call_return_target_owner_seqs@, f)
    &&& n.seq_call_return_target_epochs@ == keys_upto(o.seq_call_return_target_epochs@, f)
    &&& n.seq_call_materialization_kinds@ == keys_upto(o.seq_call_materialization_kinds@, f)
    &&& n.seq_call_header_faults@ == keys_upto(o.seq_call_header_faults@, f)
    &&& n.qtag_wait_crossbar@.len() == o.qtag_wait_crossbar@.len()
    &&& forall|s: int| 0 <= s < o.qtag_wait_crossbar@.len() ==> (#[trigger] n.qtag_wait_crossbar@[s])@
        == o.qtag_wait_crossbar@[s]@.filter(|p: (usize, usize)| p.0 <= f)
}

} // verus!

verus! {

/// `n` differs from `o` at most in what a flush prunes.
pub open spec fn same_outside_flush(o: StageQueues, n: StageQueues) -> bool {
    &&& n.frontend_redirect == o.frontend_redirect
    &&& n.pending_flush == o.pending_flush
    &&& n.flush_checkpoint_id == o.flush_checkpoint_id
    &&& n.seq_branch_contexts == o.seq_branch_contexts
    &&& n.active_recovery_checkpoint_id == o.active_recovery_checkpoint_id
    &&& n.active_recovery_epoch == o.active_recovery_epoch
    &&& n.active_block_head == o.active_block_head
    &&& n.active_branch_context == o.active_branch_context
    &&& n.active_dynamic_target_pc == o.active_dynamic_target_pc
    &&& n.active_dynamic_target_owner_seq == o.active_dynamic_target_owner_seq
    &&& n.active_dynamic_target_producer_kind == o.active_dynamic_target_producer_kind
    &&& n.active_dynamic_target_setup_epoch == o.active_dynamic_target_setup_epoch
    &&& n.active_dynamic_target_owner_kind == o.active_dynamic_target_owner_kind
    &&& n.active_dynamic_target_source_owner_seq == o.active_dynamic_target_source_owner_seq
    &&& n.active_dynamic_target_source_epoch == o.active_dynamic_target_source_epoch
    &&& n.active_dynamic_target_source_kind == o.active_dynamic_target_source_kind
    &&& n.active_dynamic_target_call_materialization_kind == o.active_dynamic_target_call_materialization_kind
    &&& n.active_call_header_seq == o.active_call_header_seq
    &&& n.active_call_return_target_pc == o.active_call_return_target_pc
    &&& n.active_call_return_target_owner_seq == o.active_call_return_target_owner_seq
    &&& n.active_call_return_target_epoch == o.active_call_return_target_epoch
    &&& n.active_call_return_materialization_kind == o.active_call_return_materialization_kind
    &&& n.ready_table_checkpoints == o.ready_table_checkpoints
    &&& n.pending_bru_correction == o.pending_bru_correction
    &&& n.pending_trap == o.pending_trap
    &&& n.ready_table_t == o.ready_table_t
    &&& n.ready_table_u == o.ready_table_u
    &&& n.liq == o.liq
    &&& n.lhq == o.lhq
    &&& n.mdb == o.mdb
    &&& n.stq == o.stq
    &&& n.scb == o.scb
    &&& n.l1d == o.l1d
    &&& n.lsid_issue_ptr == o.lsid_issue_ptr
    &&& n.lsid_complete_ptr == o.lsid_complete_ptr
    &&& n.lsid_cache_ptr == o.lsid_cache_ptr
}

proof fn lemma_tags_restrict(tags: Map<usize, crate::model::QTag>, f: usize)
    requires
        crate::iq::tags_in_range(tags),
    ensures
        crate::iq::tags_in_range(keys_upto(tags, f)),
{
}

/// When a flush is active in `cycle`, drops every micro-op younger than the
/// flushing one from the frontend, issue and execute stages, the issue
/// queue and the ROB, and forgets everything recorded about them.
pub fn prune_speculative_state_on_redirect(
    cycle: u64,
    pipeline: &mut StageQueues,
    iq: &mut Vec<IqEntry>,
    rob: &mut VecDeque<usize>,
    uops: &Vec<CycleUop>,
)
    requires
        old(pipeline).iq_owner_table@.len() == crate::model::QTAG_SLOTS,
        crate::iq::tags_in_range(old(pipeline).iq_tags@),
    ensures
        match spec_active_flush(cycle, *old(pipeline), uops@) {
            None => {
                &&& *final(pipeline) == *old(pipeline)
                &&& final(iq)@ == old(iq)@
                &&& final(rob)@ == old(rob)@
            },
            Some(fl) => {
                &&& pruned_after(*old(pipeline), *final(pipeline), fl.flush_seq)
                &&& same_outside_flush(*old(pipeline), *final(pipeline))
                &&& final(iq)@ == old(iq)@.filter(owned_upto::<IqEntry>(fl.flush_seq))
                &&& final(rob)@ == kept_upto(old(rob)@, fl.flush_seq)
                &&& forall|s: int| 0 <= s < crate::model::QTAG_SLOTS ==> final(pipeline).iq_owner_table@[s]
                    == crate::iq::owner_of(final(iq)@, final(pipeline).iq_tags@, s, final(iq)@.len() as int)
            },
        },
        final(pipeline).iq_owner_table@.len() == crate::model::QTAG_SLOTS,
        crate::iq::tags_in_range(final(pipeline).iq_tags@),
{
    let flush_seq = match active_flush(cycle, pipeline, uops) {
        Some(f) => f.flush_seq,
        None => return,
    };
    let ghost o = *pipeline;
    let mut i: usize = 0;
    while i < pipeline.frontend.len()
        invariant
            i <= pipeline.frontend@.len(),
            pipeline.frontend@.len() == o.frontend@.len(),
            forall|j: int| 0 <= j < i ==> (#[trigger] pipeline.frontend@[j])@ == kept_upto(o.frontend@[j]@, flush_seq),
            forall|j: int| i <= j < pipeline.frontend@.len() ==> #[trigger] pipeline.frontend@[j] == o.frontend@[j],
            pipeline.iq_owner_table == o.iq_owner_table,
            pipeline.iq_tags == o.iq_tags,
            pipeline.p1 == o.p1 && pipeline.i1 == o.i1 && pipeline.i2 == o.i2,
            pipeline.e1 == o.e1 && pipeline.e2 == o.e2 && pipeline.e3 == o.e3 && pipeline.e4 == o.e4,
            pipeline.w1 == o.w1 && pipeline.w2 == o.w2,
            pipeline.qtag_wait_crossbar == o.qtag_wait_crossbar,
            same_outside_flush(o, *pipeline),
            pipeline.seq_checkpoint_ids == o.seq_checkpoint_ids,
            pipeline.seq_rob_checkpoint_ids == o.seq_rob_checkpoint_ids,
            pipeline.seq_recovery_checkpoint_ids == o.seq_recovery_checkpoint_ids,
            pipeline.seq_recovery_epochs == o.seq_recovery_epochs,
            pipeline.seq_dynamic_target_pcs == o.seq_dynamic_target_pcs,
            pipeline.seq_boundary_target_pcs == o.seq_boundary_target_pcs,
            pipeline.seq_boundary_target_owner_seqs == o.seq_boundary_target_owner_seqs,
            pipeline.seq_boundary_target_producer_kinds == o.seq_boundary_target_producer_kinds,
            pipeline.seq_boundary_target_setup_epochs == o.seq_boundary_target_setup_epochs,
            pipeline.seq_boundary_target_source_owner_seqs == o.seq_boundary_target_source_owner_seqs,
            pipeline.seq_boundary_target_source_epochs == o.seq_boundary_target_source_epochs,
            pipeline.seq_boundary_target_source_kinds == o.seq_boundary_target_source_kinds,
            pipeline.seq_return_consumer_kinds == o.seq_return_consumer_kinds,
            pipeline.seq_call_return_target_pcs == o.seq_call_return_target_pcs,
            pipeline.seq_call_return_target_owner_seqs == o.seq_call_return_target_owner_seqs,
            pipeline.seq_call_return_target_epochs == o.seq_call_return_target_epochs,
            pipeline.seq_call_materialization_kinds == o.seq_call_materialization_kinds,
            pipeline.seq_call_header_faults == o.seq_call_header_faults,
        decreases pipeline.frontend@.len() - i,
    {
        crate::lsu_queues::retain_seqs(&mut pipeline.frontend[i], flush_seq, true);
        i += 1;
    }
    crate::lsu_queues::retain_seqs(&mut pipeline.p1, flush_seq, true);
    crate::lsu_queues::retain_seqs(&mut pipeline.i1, flush_seq, true);
    crate::lsu_queues::retain_seqs(&mut pipeline.i2, flush_seq, true);
    crate::lsu_queues::retain_seqs(&mut pipeline.e1, flush_seq, true);
    crate::lsu_queues::retain_seqs(&mut pipeline.e2, flush_seq, true);
    crate::lsu_queues::retain_seqs(&mut pipeline.e3, flush_seq, true);
    crate::lsu_queues::retain_seqs(&mut pipeline.e4, flush_seq, true);
    crate::lsu_queues::retain_seqs(&mut pipeline.w1, flush_seq, true);
    crate::lsu_queues::retain_seqs(&mut pipeline.w2, flush_seq, true);
    pipeline.seq_checkpoint_ids.retain_upto(flush_seq);
    pipeline.seq_rob_checkpoint_ids.retain_upto(flush_seq);
    pipeline.seq_recovery_checkpoint_ids.retain_upto(flush_seq);
    pipeline.seq_recovery_epochs.retain_upto(flush_seq);
    pipeline.seq_dynamic_target_pcs.retain_upto(flush_seq);
    pipeline.seq_boundary_target_pcs.retain_upto(flush_seq);
    pipeline.seq_boundary_target_owner_seqs.retain_upto(flush_seq);
    pipeline.seq_boundary_target_producer_kinds.retain_upto(flush_seq);
    pipeline.seq_boundary_target_setup_epochs.retain_upto(flush_seq);
    pipeline.seq_boundary_target_source_owner_seqs.retain_upto(flush_seq);
    pipeline.seq_boundary_target_source_epochs.retain_upto(flush_seq);
    pipeline.seq_boundary_target_source_kinds.retain_upto(flush_seq);
    pipeline.seq_return_consumer_kinds.retain_upto(flush_seq);
    pipeline.seq_call_return_target_pcs.retain_upto(flush_seq);
    pipeline.seq_call_return_target_owner_seqs.retain_upto(flush_seq);
    pipeline.seq_call_return_target_epochs.retain_upto(flush_seq);
    pipeline.seq_call_materialization_kinds.retain_upto(flush_seq);
    pipeline.seq_call_header_faults.retain_upto(flush_seq);
    pipeline.iq_tags.retain_upto(flush_seq);
    crate::iq::prune_iq_wait_crossbar_on_redirect(&mut pipeline.qtag_wait_crossbar, flush_seq);
    retain_iq_upto(iq, flush_seq);
    proof {
        lemma_tags_restrict(o.iq_tags@, flush_seq);
    }
    crate::iq::rebuild_iq_owner_table(&mut pipeline.iq_owner_table, iq, &pipeline.iq_tags);
    crate::lsu_queues::retain_seqs(rob, flush_seq, true);
}

/// When a flush is active in `cycle`, drops the memory-side records of
/// every micro-op younger than the flushing one.
pub fn prune_memory_owner_state_on_redirect(cycle: u64, pipeline: &mut StageQueues, uops: &Vec<CycleUop>)
    ensures
        match spec_active_flush(cycle, *old(pipeline), uops@) {
            None => *final(pipeline) == *old(pipeline),
            Some(fl) => {
                &&& final(pipeline).stq@ == kept_upto(old(pipeline).stq@, fl.flush_seq)
                &&& final(pipeline).lhq@ == kept_upto(old(pipeline).lhq@, fl.flush_seq)
                &&& final(pipeline).liq@ == old(pipeline).liq@.filter(owned_upto::<crate::model::LiqEntry>(fl.flush_seq))
                &&& final(pipeline).mdb@ == old(pipeline).mdb@.filter(owned_upto::<crate::model::MdbEntry>(fl.flush_seq))
                &&& final(pipeline).scb@ == old(pipeline).scb@.filter(owned_upto::<crate::model::ScbEntry>(fl.flush_seq))
                &&& final(pipeline).l1d@ == old(pipeline).l1d@.filter(owned_upto::<crate::model::L1dEntry>(fl.flush_seq))
                &&& final(pipeline).same_front_and_issue(&*old(pipeline))
                &&& final(pipeline).e1 == old(pipeline).e1 && final(pipeline).e2 == old(pipeline).e2
                &&& final(pipeline).e3 == old(pipeline).e3 && final(pipeline).e4 == old(pipeline).e4
                &&& final(pipeline).w1 == old(pipeline).w1 && final(pipeline).w2 == old(pipeline).w2
                &&& final(pipeline).lsid_cache_ptr == old(pipeline).lsid_cache_ptr
            },
        },
{
    let flush_seq = match active_flush(cycle, pipeline, uops) {
        Some(f) => f.flush_seq,
        None => return,
    };
    crate::lsu_queues::retain_seqs(&mut pipeline.stq, flush_seq, true);
    crate::lsu_queues::retain_seqs(&mut pipeline.lhq, flush_seq, true);
    retain_records_upto(&mut pipeline.liq, flush_seq);
    retain_records_upto(&mut pipeline.mdb, flush_seq);
    retain_records_upto(&mut pipeline.scb, flush_seq);
    retain_records_upto(&mut pipeline.l1d, flush_seq);
}

} // verus!

verus! {

// ---------------------------------------------------------------------------
// Scheduling the redirect of a resolving boundary.
// ---------------------------------------------------------------------------

pub open spec fn spec_restart_seq(uops: Seq<CycleUop>, r: ResolvedFrontendRedirect) -> usize {
    match spec_legal_redirect_restart_seq(uops, r.source_seq, r.target_pc) {
        Some(s) => s as usize,
        None => r.source_seq.saturating_add(1),
    }
}

/// What scheduling a frontend redirect does to the pipeline.
pub open spec fn redirect_schedule_post(cycle: u64, p_old: StageQueues, uops: Seq<CycleUop>, p_new: StageQueues) -> bool {
    &&& match spec_resolved_frontend_redirect(cycle, p_old, uops) {
        None => p_new == p_old,
        Some(r) => {
            let resume = cycle.saturating_add(FRONTEND_REDIRECT_RESTART_DELAY);
            let next = FrontendRedirectState {
                source_seq: r.source_seq,
                target_pc: r.target_pc,
                restart_seq: spec_restart_seq(uops, r),
                checkpoint_id: r.checkpoint_id,
                from_correction: r.from_correction,
                resume_cycle: resume,
            };
            &&& p_new.frontend_redirect == Some(match p_old.frontend_redirect {
                Some(a) => if a.resume_cycle >= resume { a } else { next },
                None => next,
            })
            &&& p_new.flush_checkpoint_id == Some(r.checkpoint_id)
            &&& p_new.pending_flush == Some(match p_old.pending_flush {
                Some(a) => if a.apply_cycle <= resume {
                    a
                } else {
                    PendingFlushState { flush_seq: r.source_seq, checkpoint_id: r.checkpoint_id, apply_cycle: resume }
                },
                None => PendingFlushState { flush_seq: r.source_seq, checkpoint_id: r.checkpoint_id, apply_cycle: resume },
            })
            &&& p_new.pending_bru_correction == if r.from_correction {
                None
            } else if p_old.pending_bru_correction matches Some(c) && c.epoch < spec_recovery_epoch(
                p_old,
                uops,
                r.source_seq,
            ) {
                None
            } else {
                p_old.pending_bru_correction
            }
            &&& p_new.same_queues_but_recovery(&p_old)
        },
    }
}

/// When a boundary resolves with a redirect in `cycle`, schedules fetch to
/// restart (at the first legal block start at the target, else right after
/// the boundary) one cycle later, unless a later restart is already
/// scheduled; schedules the flush of everything younger for the same cycle,
/// unless one is already due by then; and drops a pending branch-unit
/// correction that the redirect consumed or made stale.
pub fn schedule_frontend_redirect_recovery(cycle: u64, pipeline: &mut StageQueues, uops: &Vec<CycleUop>)
    ensures
        redirect_schedule_post(cycle, *old(pipeline), uops@, *final(pipeline)),
{
    let r = match resolved_frontend_redirect(cycle, pipeline, uops) {
        Some(r) => r,
        None => return,
    };
    let restart_seq = match legal_redirect_restart_seq(r.source_seq, r.target_pc, uops) {
        Some(s) => s,
        None => r.source_seq.saturating_add(1),
    };
    let resume = cycle.saturating_add(FRONTEND_REDIRECT_RESTART_DELAY);
    let next = FrontendRedirectState {
        source_seq: r.source_seq,
        target_pc: r.target_pc,
        restart_seq,
        checkpoint_id: r.checkpoint_id,
        from_correction: r.from_correction,
        resume_cycle: resume,
    };
    let chosen = match pipeline.frontend_redirect {
        Some(a) => if a.resume_cycle >= resume { a } else { next },
        None => next,
    };
    pipeline.frontend_redirect = Some(chosen);
    pipeline.flush_checkpoint_id = Some(r.checkpoint_id);
    let flush = match pipeline.pending_flush {
        Some(a) => if a.apply_cycle <= resume {
            a
        } else {
            PendingFlushState { flush_seq: r.source_seq, checkpoint_id: r.checkpoint_id, apply_cycle: resume }
        },
        None => PendingFlushState { flush_seq: r.source_seq, checkpoint_id: r.checkpoint_id, apply_cycle: resume },
    };
    pipeline.pending_flush = Some(flush);
    if r.from_correction {
        pipeline.pending_bru_correction = None;
    } else if let Some(c) = pipeline.pending_bru_correction {
        if c.epoch < recovery_epoch_for_seq(r.source_seq, pipeline, uops) {
            pipeline.pending_bru_correction = None;
        }
    }
}

} // verus!

verus! {

// ---------------------------------------------------------------------------
// Load/store order after a flush.
// ---------------------------------------------------------------------------

/// `s` is still before issue: in the ROB, the issue queue, a frontend
/// stage or the pick and issue stages.
pub open spec fn in_front(p: StageQueues, iq: Seq<IqEntry>, rob: Seq<usize>, s: usize) -> bool {
    ||| rob.contains(s)
    ||| exists|i: int| 0 <= i < iq.len() && (#[trigger] iq[i]).seq == s
    ||| exists|i: int| 0 <= i < p.frontend@.len() && (#[trigger] p.frontend@[i])@.contains(s)
    ||| p.p1@.contains(s)
    ||| p.i1@.contains(s)
    ||| p.i2@.contains(s)
}

/// `s` has issued: it is in an execute or writeback stage or holds an LSU
/// or cache record.
pub open spec fn in_issued(p: StageQueues, s: usize) -> bool {
    ||| p.e1@.contains(s)
    ||| p.e2@.contains(s)
    ||| p.e3@.contains(s)
    ||| p.e4@.contains(s)
    ||| p.w1@.contains(s)
    ||| p.w2@.contains(s)
    ||| exists|i: int| 0 <= i < p.liq@.len() && (#[trigger] p.liq@[i]).seq == s
    ||| p.lhq@.contains(s)
    ||| exists|i: int| 0 <= i < p.mdb@.len() && (#[trigger] p.mdb@[i]).seq == s
    ||| p.stq@.contains(s)
    ||| exists|i: int| 0 <= i < p.scb@.len() && (#[trigger] p.scb@[i]).seq == s
    ||| exists|i: int| 0 <= i < p.l1d@.len() && (#[trigger] p.l1d@[i]).seq == s
}

pub proof fn lemma_push_contains<A>(a: Seq<A>, v: A)
    ensures
        forall|x: A| #[trigger] a.push(v).contains(x) <==> (a.contains(x) || x == v),
{
    assert forall|x: A| #[trigger] a.push(v).contains(x) <==> (a.contains(x) || x == v) by {
        if a.push(v).contains(x) {
            let j = choose|j: int| 0 <= j < a.push(v).len() && a.push(v)[j] == x;
            if j < a.len() {
                assert(a[j] == x);
            }
        }
        if a.contains(x) {
            let j = choose|j: int| 0 <= j < a.len() && a[j] == x;
            assert(a.push(v)[j] == x);
        }
        if x == v {
            assert(a.push(v)[a.len() as int] == x);
        }
    }
}

fn append_seqs(out: &mut Vec<usize>, q: &VecDeque<usize>)
    ensures
        forall|x: usize| #[trigger] final(out)@.contains(x) <==> (old(out)@.contains(x) || q@.contains(x)),
{
    let ghost o = out@;
    let mut i: usize = 0;
    while i < q.len()
        invariant
            i <= q@.len(),
            forall|x: usize| #[trigger] out@.contains(x) <==> (o.contains(x) || q@.take(i as int).contains(x)),
        decreases q@.len() - i,
    {
        let s = q[i];
        let ghost before = out@;
        out.push(s);
        proof {
            lemma_push_contains(before, s);
            lemma_push_contains(q@.take(i as int), s);
            assert(q@.take(i + 1) == q@.take(i as int).push(s));
            assert forall|x: usize| #[trigger] out@.contains(x) <==> (o.contains(x) || q@.take(i + 1).contains(x)) by {
                if out@.contains(x) && x != s {
                    let j = choose|j: int| 0 <= j < out@.len() && out@[j] == x;
                    assert(before[j] == x);
                }
                if q@.take(i + 1).contains(x) && x != s {
                    let j = choose|j: int| 0 <= j < i + 1 && #[trigger] q@.take(i + 1)[j] == x;
                    assert(q@.take(i as int)[j] == x);
                }
                if o.contains(x) || q@.take(i as int).contains(x) {
                    assert(before.contains(x));
                    let j = choose|j: int| 0 <= j < before.len() && before[j] == x;
                    assert(out@[j] == x);
                }
            }
        }
        i += 1;
    }
    assert(q@.take(q@.len() as int) == q@);
}

fn append_record_seqs<T: Sequenced>(out: &mut Vec<usize>, q: &VecDeque<T>)
    ensures
        forall|x: usize| #[trigger] final(out)@.contains(x) <==> (old(out)@.contains(x)
            || exists|i: int| 0 <= i < q@.len() && (#[trigger] q@[i]).seq_spec() == x),
{
    let ghost o = out@;
    let mut i: usize = 0;
    while i < q.len()
        invariant
            i <= q@.len(),
            forall|x: usize| #[trigger] out@.contains(x) <==> (o.contains(x)
                || exists|k: int| 0 <= k < i && (#[trigger] q@[k]).seq_spec() == x),
        decreases q@.len() - i,
    {
        let s = q[i].seq_of();
        let ghost before = out@;
        out.push(s);
        proof {
            lemma_push_contains(before, s);
            assert forall|x: usize| #[trigger] out@.contains(x) <==> (o.contains(x)
                || exists|k: int| 0 <= k < i + 1 && (#[trigger] q@[k]).seq_spec() == x) by {
                if out@.contains(x) && x != s {
                    let j = choose|j: int| 0 <= j < out@.len() && out@[j] == x;
                    assert(before[j] == x);
                }
                if x == s {
                    assert(q@[i as int].seq_spec() == x);
                }
                if o.contains(x) || (exists|k: int| 0 <= k < i && (#[trigger] q@[k]).seq_spec() == x) {
                    assert(before.contains(x));
                    let j = choose|j: int| 0 <= j < before.len() && before[j] == x;
                    assert(out@[j] == x);
                }
                if exists|k: int| 0 <= k < i + 1 && (#[trigger] q@[k]).seq_spec() == x {
                    let k = choose|k: int| 0 <= k < i + 1 && (#[trigger] q@[k]).seq_spec() == x;
                    if k < i {
                        assert(exists|k: int| 0 <= k < i && (#[trigger] q@[k]).seq_spec() == x);
                    }
                }
            }
        }
        i += 1;
    }
}

/// The micro-ops that have issued, each at least once.
pub fn issued_memory_seqs(pipeline: &StageQueues) -> (r: Vec<usize>)
    ensures
        forall|x: usize| #[trigger] r@.contains(x) <==> in_issued(*pipeline, x),
{
    let mut out: Vec<usize> = Vec::new();
    append_seqs(&mut out, &pipeline.e1);
    append_seqs(&mut out, &pipeline.e2);
    append_seqs(&mut out, &pipeline.e3);
    append_seqs(&mut out, &pipeline.e4);
    append_seqs(&mut out, &pipeline.w1);
    append_seqs(&mut out, &pipeline.w2);
    append_record_seqs(&mut out, &pipeline.liq);
    append_seqs(&mut out, &pipeline.lhq);
    append_record_seqs(&mut out, &pipeline.mdb);
    append_seqs(&mut out, &pipeline.stq);
    append_record_seqs(&mut out, &pipeline.scb);
    append_record_seqs(&mut out, &pipeline.l1d);
    out
}

fn front_seqs(pipeline: &StageQueues, iq: &Vec<IqEntry>, rob: &VecDeque<usize>) -> (r: Vec<usize>)
    ensures
        forall|x: usize| #[trigger] r@.contains(x) <==> in_front(*pipeline, iq@, rob@, x),
{
    let mut out: Vec<usize> = Vec::new();
    append_seqs(&mut out, rob);
    let ghost after_rob = out@;
    let mut i: usize = 0;
    while i < iq.len()
        invariant
            i <= iq@.len(),
            forall|x: usize| #[trigger] out@.contains(x) <==> (after_rob.contains(x)
                || exists|k: int| 0 <= k < i && (#[trigger] iq@[k]).seq == x),
        decreases iq@.len() - i,
    {
        let s = iq[i].seq;
        let ghost before = out@;
        out.push(s);
        proof {
            lemma_push_contains(before, s);
            assert forall|x: usize| #[trigger] out@.contains(x) <==> (after_rob.contains(x)
                || exists|k: int| 0 <= k < i + 1 && (#[trigger] iq@[k]).seq == x) by {
                if out@.contains(x) && x != s {
                    let j = choose|j: int| 0 <= j < out@.len() && out@[j] == x;
                    assert(before[j] == x);
                }
                if x == s {
                    assert(iq@[i as int].seq == x);
                }
                if after_rob.contains(x) || (exists|k: int| 0 <= k < i && (#[trigger] iq@[k]).seq == x) {
                    assert(before.contains(x));
                    let j = choose|j: int| 0 <= j < before.len() && before[j] == x;
                    assert(out@[j] == x);
                }
                if exists|k: int| 0 <= k < i + 1 && (#[trigger] iq@[k]).seq == x {
                    let k = choose|k: int| 0 <= k < i + 1 && (#[trigger] iq@[k]).seq == x;
                    if k < i {
                        assert(exists|k: int| 0 <= k < i && (#[trigger] iq@[k]).seq == x);
                    }
                }
            }
        }
        i += 1;
    }
    let ghost after_iq = out@;
    let mut f: usize = 0;
    while f < pipeline.frontend.len()
        invariant
            f <= pipeline.frontend@.len(),
            forall|x: usize| #[trigger] out@.contains(x) <==> (after_iq.contains(x)
                || exists|k: int| 0 <= k < f && (#[trigger] pipeline.frontend@[k])@.contains(x)),
        decreases pipeline.frontend@.len() - f,
    {
        let ghost before = out@;
        append_seqs(&mut out, &pipeline.frontend[f]);
        proof {
            assert forall|x: usize| #[trigger] out@.contains(x) <==> (after_iq.contains(x)
                || exists|k: int| 0 <= k < f + 1 && (#[trigger] pipeline.frontend@[k])@.contains(x)) by {
                if exists|k: int| 0 <= k < f + 1 && (#[trigger] pipeline.frontend@[k])@.contains(x) {
                    let k = choose|k: int| 0 <= k < f + 1 && (#[trigger] pipeline.frontend@[k])@.contains(x);
                    if k < f {
                        assert(exists|k: int| 0 <= k < f && (#[trigger] pipeline.frontend@[k])@.contains(x));
                    }
                }
                if pipeline.frontend@[f as int]@.contains(x) {
                    assert(exists|k: int| 0 <= k < f + 1 && (#[trigger] pipeline.frontend@[k])@.contains(x));
                }
            }
        }
        f += 1;
    }
    append_seqs(&mut out, &pipeline.p1);
    append_seqs(&mut out, &pipeline.i1);
    append_seqs(&mut out, &pipeline.i2);
    out
}

/// The micro-ops still in flight: before issue or issued.
pub fn active_memory_seqs(pipeline: &StageQueues, iq: &Vec<IqEntry>, rob: &VecDeque<usize>) -> (r: Vec<usize>)
    ensures
        forall|x: usize| #[trigger] r@.contains(x) <==> (in_front(*pipeline, iq@, rob@, x) || in_issued(*pipeline, x)),
{
    let mut out = front_seqs(pipeline, iq, rob);
    let issued = issued_memory_seqs(pipeline);
    let ghost o = out@;
    let mut i: usize = 0;
    while i < issued.len()
        invariant
            i <= issued@.len(),
            forall|x: usize| #[trigger] out@.contains(x) <==> (o.contains(x) || issued@.take(i as int).contains(x)),
        decreases issued@.len() - i,
    {
        let s = issued[i];
        let ghost before = out@;
        out.push(s);
        proof {
            lemma_push_contains(before, s);
            lemma_push_contains(issued@.take(i as int), s);
            assert(issued@.take(i + 1) == issued@.take(i as int).push(s));
            assert forall|x: usize| #[trigger] out@.contains(x) <==> (o.contains(x) || issued@.take(i + 1).contains(x)) by {
                if out@.contains(x) && x != s {
                    let j = choose|j: int| 0 <= j < out@.len() && out@[j] == x;
                    assert(before[j] == x);
                }
                if issued@.take(i + 1).contains(x) && x != s {
                    let j = choose|j: int| 0 <= j < i + 1 && #[trigger] issued@.take(i + 1)[j] == x;
                    assert(issued@.take(i as int)[j] == x);
                }
                if o.contains(x) || issued@.take(i as int).contains(x) {
                    assert(before.contains(x));
                    let j = choose|j: int| 0 <= j < before.len() && before[j] == x;
                    assert(out@[j] == x);
                }
            }
        }
        i += 1;
    }
    assert(issued@.take(issued@.len() as int) == issued@);
    out
}

/// The micro-ops before issue that have not issued already.
pub fn active_unissued_memory_seqs(pipeline: &StageQueues, iq: &Vec<IqEntry>, rob: &VecDeque<usize>) -> (r: Vec<usize>)
    ensures
        forall|x: usize| #[trigger] r@.contains(x) <==> (in_front(*pipeline, iq@, rob@, x) && !in_issued(*pipeline, x)),
{
    let front = front_seqs(pipeline, iq, rob);
    let issued = issued_memory_seqs(pipeline);
    let mut out: Vec<usize> = Vec::new();
    let mut i: usize = 0;
    while i < front.len()
        invariant
            i <= front@.len(),
            forall|x: usize| #[trigger] out@.contains(x) <==> (front@.take(i as int).contains(x) && !issued@.contains(x)),
        decreases front@.len() - i,
    {
        let s = front[i];
        let ghost before = out@;
        let is_issued = crate::stages::queue_contains_vec(&issued, s);
        if !is_issued {
            out.push(s);
        }
        proof {
            lemma_push_contains(before, s);
            lemma_push_contains(front@.take(i as int), s);
            assert(front@.take(i + 1) == front@.take(i as int).push(s));
            assert forall|x: usize| #[trigger] out@.contains(x) <==> (front@.take(i + 1).contains(x) && !issued@.contains(x)) by {
                if out@.contains(x) && x != s {
                    let j = choose|j: int| 0 <= j < out@.len() && out@[j] == x;
                    assert(before[j] == x);
                }
                if front@.take(i + 1).contains(x) && x != s {
                    let j = choose|j: int| 0 <= j < i + 1 && #[trigger] front@.take(i + 1)[j] == x;
                    assert(front@.take(i as int)[j] == x);
                }
                if front@.take(i as int).contains(x) && !issued@.contains(x) {
                    assert(before.contains(x));
                    let j = choose|j: int| 0 <= j < before.len() && before[j] == x;
                    assert(out@[j] == x);
                }
            }
        }
        i += 1;
    }
    assert(front@.take(front@.len() as int) == front@);
    out
}

} // verus!

verus! {

/// `h` is the least load/store id of the micro-ops that `member` accepts.
pub open spec fn is_min_lsid(member: spec_fn(usize) -> bool, uops: Seq<CycleUop>, h: usize) -> bool {
    &&& exists|s: usize| #[trigger] member(s) && (s as int) < uops.len() && uops[s as int].load_store_id == Some(h)
    &&& forall|s: usize| #[trigger] member(s) && (s as int) < uops.len() && uops[s as int].load_store_id is Some
        ==> h <= uops[s as int].load_store_id->0
}

pub open spec fn has_lsid(member: spec_fn(usize) -> bool, uops: Seq<CycleUop>) -> bool {
    exists|s: usize| #[trigger] member(s) && (s as int) < uops.len() && uops[s as int].load_store_id is Some
}

/// The least load/store id among `seqs`.
fn min_lsid_of(seqs: &Vec<usize>, uops: &Vec<CycleUop>) -> (r: Option<usize>)
    ensures
        match r {
            Some(h) => is_min_lsid(|s: usize| seqs@.contains(s), uops@, h),
            None => !has_lsid(|s: usize| seqs@.contains(s), uops@),
        },
{
    let ghost member = |s: usize| seqs@.contains(s);
    let mut best: Option<usize> = None;
    let mut i: usize = 0;
    while i < seqs.len()
        invariant
            i <= seqs@.len(),
            member == |s: usize| seqs@.contains(s),
            match best {
                Some(h) => {
                    &&& exists|k: int| 0 <= k < i && (seqs@[k] as int) < uops@.len() && #[trigger] uops@[seqs@[k] as int].load_store_id == Some(h)
                    &&& forall|k: int| 0 <= k < i && (seqs@[k] as int) < uops@.len() && (#[trigger] uops@[seqs@[k] as int]).load_store_id is Some
                        ==> h <= uops@[seqs@[k] as int].load_store_id->0
                },
                None => forall|k: int| 0 <= k < i && (seqs@[k] as int) < uops@.len() ==> (#[trigger] uops@[seqs@[k] as int]).load_store_id is None,
            },
        decreases seqs@.len() - i,
    {
        let s = seqs[i];
        if s < uops.len() {
            if let Some(id) = uops[s].load_store_id {
                best = match best {
                    Some(h) => if id < h { Some(id) } else { Some(h) },
                    None => Some(id),
                };
            }
        }
        i += 1;
    }
    proof {
        match best {
            Some(h) => {
                let k = choose|k: int| 0 <= k < seqs@.len() && (seqs@[k] as int) < uops@.len() && #[trigger] uops@[seqs@[k] as int].load_store_id == Some(h);
                assert(member(seqs@[k]));
                assert forall|s: usize| #[trigger] member(s) && (s as int) < uops@.len() && uops@[s as int].load_store_id is Some
                    implies h <= uops@[s as int].load_store_id->0 by {
                    let j = choose|j: int| 0 <= j < seqs@.len() && seqs@[j] == s;
                    assert(uops@[seqs@[j] as int].load_store_id is Some);
                }
            },
            None => {
                assert forall|s: usize| #[trigger] member(s) && (s as int) < uops@.len() implies uops@[s as int].load_store_id is None by {
                    let j = choose|j: int| 0 <= j < seqs@.len() && seqs@[j] == s;
                    assert(uops@[seqs@[j] as int].load_store_id is None);
                }
            },
        }
    }
    best
}

pub open spec fn unissued_member(p: StageQueues, iq: Seq<IqEntry>, rob: Seq<usize>) -> spec_fn(usize) -> bool {
    |s: usize| in_front(p, iq, rob, s) && !in_issued(p, s)
}

pub open spec fn active_member(p: StageQueues, iq: Seq<IqEntry>, rob: Seq<usize>) -> spec_fn(usize) -> bool {
    |s: usize| in_front(p, iq, rob, s) || in_issued(p, s)
}

/// The least load/store id of the micro-ops still waiting to issue.
pub fn surviving_unissued_lsid_head(pipeline: &StageQueues, iq: &Vec<IqEntry>, rob: &VecDeque<usize>, uops: &Vec<CycleUop>) -> (r: Option<usize>)
    ensures
        match r {
            Some(h) => is_min_lsid(unissued_member(*pipeline, iq@, rob@), uops@, h),
            None => !has_lsid(unissued_member(*pipeline, iq@, rob@), uops@),
        },
{
    let seqs = active_unissued_memory_seqs(pipeline, iq, rob);
    let r = min_lsid_of(&seqs, uops);
    proof {
        let m1 = |s: usize| seqs@.contains(s);
        let m2 = unissued_member(*pipeline, iq@, rob@);
        assert(forall|s: usize| #[trigger] m1(s) == m2(s));
        assert(m1 == m2);
    }
    r
}

/// The least load/store id of the micro-ops still in flight.
pub fn surviving_active_lsid_head(pipeline: &StageQueues, iq: &Vec<IqEntry>, rob: &VecDeque<usize>, uops: &Vec<CycleUop>) -> (r: Option<usize>)
    ensures
        match r {
            Some(h) => is_min_lsid(active_member(*pipeline, iq@, rob@), uops@, h),
            None => !has_lsid(active_member(*pipeline, iq@, rob@), uops@),
        },
{
    let seqs = active_memory_seqs(pipeline, iq, rob);
    let r = min_lsid_of(&seqs, uops);
    proof {
        let m1 = |s: usize| seqs@.contains(s);
        let m2 = active_member(*pipeline, iq@, rob@);
        assert(forall|s: usize| #[trigger] m1(s) == m2(s));
        assert(m1 == m2);
    }
    r
}

/// On a flush in `cycle`, the issue and completion pointers move to the
/// oldest load/store id still waiting to issue, and the cache pointer to the
/// oldest one still in flight (each only when there is one).
pub fn rebase_lsid_on_redirect(cycle: u64, pipeline: &mut StageQueues, iq: &Vec<IqEntry>, rob: &VecDeque<usize>, uops: &Vec<CycleUop>)
    ensures
        spec_active_flush(cycle, *old(pipeline), uops@) is None ==> *final(pipeline) == *old(pipeline),
        spec_active_flush(cycle, *old(pipeline), uops@) is Some ==> {
            let o = *old(pipeline);
            &&& (has_lsid(unissued_member(o, iq@, rob@), uops@) ==> {
                &&& is_min_lsid(unissued_member(o, iq@, rob@), uops@, final(pipeline).lsid_issue_ptr)
                &&& final(pipeline).lsid_complete_ptr == final(pipeline).lsid_issue_ptr
            })
            &&& (!has_lsid(unissued_member(o, iq@, rob@), uops@) ==> {
                &&& final(pipeline).lsid_issue_ptr == o.lsid_issue_ptr
                &&& final(pipeline).lsid_complete_ptr == o.lsid_complete_ptr
            })
            &&& (has_lsid(active_member(o, iq@, rob@), uops@) ==> is_min_lsid(active_member(o, iq@, rob@), uops@, final(pipeline).lsid_cache_ptr))
            &&& (!has_lsid(active_member(o, iq@, rob@), uops@) ==> final(pipeline).lsid_cache_ptr == o.lsid_cache_ptr)
        },
        final(pipeline).same_front_and_issue_but_lsid(&*old(pipeline)),
{
    if active_flush(cycle, pipeline, uops).is_none() {
        return;
    }
    let ghost o = *pipeline;
    let unissued = surviving_unissued_lsid_head(pipeline, iq, rob, uops);
    let active = surviving_active_lsid_head(pipeline, iq, rob, uops);
    if let Some(h) = unissued {
        pipeline.lsid_issue_ptr = h;
        pipeline.lsid_complete_ptr = h;
    }
    if let Some(h) = active {
        pipeline.lsid_cache_ptr = h;
    }
}

} // verus!

verus! {

proof fn lemma_members_frame(a: StageQueues, b: StageQueues, iq: Seq<IqEntry>, rob: Seq<usize>)
    requires
        a.frontend == b.frontend,
        a.p1 == b.p1 && a.i1 == b.i1 && a.i2 == b.i2,
        a.e1 == b.e1 && a.e2 == b.e2 && a.e3 == b.e3 && a.e4 == b.e4,
        a.w1 == b.w1 && a.w2 == b.w2,
        a.liq == b.liq && a.lhq == b.lhq && a.mdb == b.mdb && a.stq == b.stq && a.scb == b.scb && a.l1d == b.l1d,
    ensures
        unissued_member(a, iq, rob) =~= unissued_member(b, iq, rob),
        active_member(a, iq, rob) =~= active_member(b, iq, rob),
{
    assert forall|x: usize| in_front(a, iq, rob, x) == in_front(b, iq, rob, x) && in_issued(a, x) == in_issued(b, x) by {
        if exists|i: int| 0 <= i < a.frontend@.len() && (#[trigger] a.frontend@[i])@.contains(x) {
            let i = choose|i: int| 0 <= i < a.frontend@.len() && (#[trigger] a.frontend@[i])@.contains(x);
            assert(b.frontend@[i]@.contains(x));
        }
        if exists|i: int| 0 <= i < b.frontend@.len() && (#[trigger] b.frontend@[i])@.contains(x) {
            let i = choose|i: int| 0 <= i < b.frontend@.len() && (#[trigger] b.frontend@[i])@.contains(x);
            assert(a.frontend@[i]@.contains(x));
        }
        if exists|i: int| 0 <= i < a.liq@.len() && (#[trigger] a.liq@[i]).seq == x {
            let i = choose|i: int| 0 <= i < a.liq@.len() && (#[trigger] a.liq@[i]).seq == x;
            assert(b.liq@[i].seq == x);
        }
        if exists|i: int| 0 <= i < b.liq@.len() && (#[trigger] b.liq@[i]).seq == x {
            let i = choose|i: int| 0 <= i < b.liq@.len() && (#[trigger] b.liq@[i]).seq == x;
            assert(a.liq@[i].seq == x);
        }
        if exists|i: int| 0 <= i < a.mdb@.len() && (#[trigger] a.mdb@[i]).seq == x {
            let i = choose|i: int| 0 <= i < a.mdb@.len() && (#[trigger] a.mdb@[i]).seq == x;
            assert(b.mdb@[i].seq == x);
        }
        if exists|i: int| 0 <= i < b.mdb@.len() && (#[trigger] b.mdb@[i]).seq == x {
            let i = choose|i: int| 0 <= i < b.mdb@.len() && (#[trigger] b.mdb@[i]).seq == x;
            assert(a.mdb@[i].seq == x);
        }
        if exists|i: int| 0 <= i < a.scb@.len() && (#[trigger] a.scb@[i]).seq == x {
            let i = choose|i: int| 0 <= i < a.scb@.len() && (#[trigger] a.scb@[i]).seq == x;
            assert(b.scb@[i].seq == x);
        }
        if exists|i: int| 0 <= i < b.scb@.len() && (#[trigger] b.scb@[i]).seq == x {
            let i = choose|i: int| 0 <= i < b.scb@.len() && (#[trigger] b.scb@[i]).seq == x;
            assert(a.scb@[i].seq == x);
        }
        if exists|i: int| 0 <= i < a.l1d@.len() && (#[trigger] a.l1d@[i]).seq == x {
            let i = choose|i: int| 0 <= i < a.l1d@.len() && (#[trigger] a.l1d@[i]).seq == x;
            assert(b.l1d@[i].seq == x);
        }
        if exists|i: int| 0 <= i < b.l1d@.len() && (#[trigger] b.l1d@[i]).seq == x {
            let i = choose|i: int| 0 <= i < b.l1d@.len() && (#[trigger] b.l1d@[i]).seq == x;
            assert(a.l1d@[i].seq == x);
        }
    }
}

/// What applying a due flush does to the pipeline, the issue queue and the
/// ROB.
pub open spec fn flush_post(cycle: u64, p_old: StageQueues, iq_old: Seq<IqEntry>, rob_old: Seq<usize>, uops: Seq<CycleUop>, p_new: StageQueues, iq_new: Seq<IqEntry>, rob_new: Seq<usize>) -> bool {
    &&& match p_old.pending_flush {
        Some(pf) => if pf.apply_cycle <= cycle {
            let o = p_old;
            let f = p_new;
            &&& f.pending_flush is None
            &&& (o.checkpoint_slots()[pf.checkpoint_id as int] matches Some(c) ==> f.active_view() == c)
            &&& (o.checkpoint_slots()[pf.checkpoint_id as int] is None ==> f.active_view() == o.active_view())
            &&& f.active_recovery_checkpoint_id == pf.checkpoint_id
            &&& forall|s: int| 0 <= s < crate::model::QTAG_SLOTS ==> f.iq_owner_table@[s]
                == crate::iq::owner_of(iq_new, f.iq_tags@, s, iq_new.len() as int)
            &&& pruned_after(o, f, pf.flush_seq)
            &&& iq_new == iq_old.filter(owned_upto::<IqEntry>(pf.flush_seq))
            &&& rob_new == kept_upto(rob_old, pf.flush_seq)
            &&& f.stq@ == kept_upto(o.stq@, pf.flush_seq)
            &&& f.lhq@ == kept_upto(o.lhq@, pf.flush_seq)
            &&& f.liq@ == o.liq@.filter(owned_upto::<crate::model::LiqEntry>(pf.flush_seq))
            &&& f.mdb@ == o.mdb@.filter(owned_upto::<crate::model::MdbEntry>(pf.flush_seq))
            &&& f.scb@ == o.scb@.filter(owned_upto::<crate::model::ScbEntry>(pf.flush_seq))
            &&& f.l1d@ == o.l1d@.filter(owned_upto::<crate::model::L1dEntry>(pf.flush_seq))
            &&& (has_lsid(unissued_member(f, iq_new, rob_new), uops) ==> {
                &&& is_min_lsid(unissued_member(f, iq_new, rob_new), uops, f.lsid_issue_ptr)
                &&& f.lsid_complete_ptr == f.lsid_issue_ptr
            })
            &&& (!has_lsid(unissued_member(f, iq_new, rob_new), uops) ==> {
                &&& f.lsid_issue_ptr == o.lsid_issue_ptr
                &&& f.lsid_complete_ptr == o.lsid_complete_ptr
            })
            &&& (has_lsid(active_member(f, iq_new, rob_new), uops) ==> is_min_lsid(
                active_member(f, iq_new, rob_new),
                uops,
                f.lsid_cache_ptr,
            ))
            &&& (!has_lsid(active_member(f, iq_new, rob_new), uops) ==> f.lsid_cache_ptr == o.lsid_cache_ptr)
            &&& f.frontend_redirect == o.frontend_redirect
            &&& f.flush_checkpoint_id == o.flush_checkpoint_id
            &&& f.pending_bru_correction == o.pending_bru_correction
            &&& f.pending_trap == o.pending_trap
            &&& f.checkpoint_slots() == o.checkpoint_slots()
        } else {
            &&& p_new == p_old
            &&& iq_new == iq_old
            &&& rob_new == rob_old
        },
        None => {
            &&& p_new == p_old
            &&& iq_new == iq_old
            &&& rob_new == rob_old
        },
    }
    &&& p_new.ready_table_checkpoints@.len() == 256
    &&& p_new.iq_owner_table@.len() == crate::model::QTAG_SLOTS
    &&& crate::iq::tags_in_range(p_new.iq_tags@)
}

/// Applies a pending flush that is due in `cycle`: restores the dispatch
/// state saved at its checkpoint, prunes every younger micro-op from the
/// pipeline, the issue queue, the ROB and the memory side, rebases the
/// load/store-order pointers on the survivors, and clears the request.
pub fn apply_pending_flush(
    cycle: u64,
    pipeline: &mut StageQueues,
    iq: &mut Vec<IqEntry>,
    rob: &mut VecDeque<usize>,
    uops: &Vec<CycleUop>,
)
    requires
        old(pipeline).ready_table_checkpoints@.len() == 256,
        old(pipeline).iq_owner_table@.len() == crate::model::QTAG_SLOTS,
        crate::iq::tags_in_range(old(pipeline).iq_tags@),
    ensures
        flush_post(cycle, *old(pipeline), old(iq)@, old(rob)@, uops@, *final(pipeline), final(iq)@, final(rob)@),
{
    let pf = match pipeline.pending_flush {
        Some(pf) => pf,
        None => return,
    };
    if pf.apply_cycle > cycle {
        return;
    }
    crate::checkpoint::restore_ready_tables_for_checkpoint(pipeline, pf.checkpoint_id);
    pipeline.active_recovery_checkpoint_id = pf.checkpoint_id;
    let ghost mid = *pipeline;
    assert(spec_active_flush(cycle, mid, uops@) == Some(pf));
    prune_speculative_state_on_redirect(cycle, pipeline, iq, rob, uops);
    let ghost after_prune = *pipeline;
    assert(spec_active_flush(cycle, after_prune, uops@) == Some(pf));
    prune_memory_owner_state_on_redirect(cycle, pipeline, uops);
    let ghost after_memory = *pipeline;
    assert(spec_active_flush(cycle, after_memory, uops@) == Some(pf));
    rebase_lsid_on_redirect(cycle, pipeline, iq, rob, uops);
    pipeline.pending_flush = None;
    proof {
        let f = *pipeline;
        lemma_members_frame(f, after_memory, iq@, rob@);
    }
}

} // verus!

verus! {

pub proof fn lemma_first_resolving_bound(uops: Seq<CycleUop>, cycle: u64, i: int)
    ensures
        first_resolving_from(uops, cycle, i) matches Some(s) ==> i <= s < uops.len(),
    decreases uops.len() - i,
{
    if 0 <= i < uops.len() {
        lemma_first_resolving_bound(uops, cycle, i + 1);
    }
}

} // verus!

verus! {

/// Every micro-op of `q` is `f` or older.
pub open spec fn seqs_upto(q: Seq<usize>, f: usize) -> bool {
    forall|i: int| 0 <= i < q.len() ==> #[trigger] q[i] <= f
}

/// Every record of `q` belongs to `f` or an older micro-op.
pub open spec fn records_upto<T: Sequenced>(q: Seq<T>, f: usize) -> bool {
    forall|i: int| 0 <= i < q.len() ==> (#[trigger] q[i]).seq_spec() <= f
}

proof fn lemma_kept_upto(q: Seq<usize>, f: usize)
    ensures
        seqs_upto(kept_upto(q, f), f),
{
    assert forall|i: int| 0 <= i < kept_upto(q, f).len() implies #[trigger] kept_upto(q, f)[i] <= f by {
        q.lemma_filter_pred(crate::lsu_queues::at_most(f), i);
    }
}

proof fn lemma_owned_upto<T: Sequenced>(q: Seq<T>, f: usize)
    ensures
        records_upto(q.filter(owned_upto::<T>(f)), f),
{
    assert forall|i: int| 0 <= i < q.filter(owned_upto::<T>(f)).len() implies (#[trigger] q.filter(owned_upto::<T>(f))[i]).seq_spec() <= f by {
        q.lemma_filter_pred(owned_upto::<T>(f), i);
    }
}

/// Law: applying a flush that has fallen due leaves no micro-op younger than
/// the flush anywhere: not in the ROB, the issue queue, a frontend, issue or
/// execute stage, nor a memory queue; the flush is done and its checkpoint
/// becomes the active one. A flush not yet due changes nothing.
pub proof fn law_flush_leaves_nothing_younger(
    cycle: u64,
    p_old: StageQueues,
    iq_old: Seq<IqEntry>,
    rob_old: Seq<usize>,
    uops: Seq<CycleUop>,
    p_new: StageQueues,
    iq_new: Seq<IqEntry>,
    rob_new: Seq<usize>,
)
    requires
        flush_post(cycle, p_old, iq_old, rob_old, uops, p_new, iq_new, rob_new),
    ensures
        match p_old.pending_flush {
            Some(pf) => if pf.apply_cycle <= cycle {
                let f = pf.flush_seq;
                &&& p_new.pending_flush is None
                &&& p_new.active_recovery_checkpoint_id == pf.checkpoint_id
                &&& seqs_upto(rob_new, f)
                &&& records_upto(iq_new, f)
                &&& forall|i: int| 0 <= i < p_new.frontend@.len() ==> seqs_upto(#[trigger] p_new.frontend@[i]@, f)
                &&& seqs_upto(p_new.p1@, f) && seqs_upto(p_new.i1@, f) && seqs_upto(p_new.i2@, f)
                &&& seqs_upto(p_new.e1@, f) && seqs_upto(p_new.e2@, f) && seqs_upto(p_new.e3@, f)
                &&& seqs_upto(p_new.e4@, f) && seqs_upto(p_new.w1@, f) && seqs_upto(p_new.w2@, f)
                &&& seqs_upto(p_new.stq@, f) && seqs_upto(p_new.lhq@, f)
                &&& records_upto(p_new.liq@, f) && records_upto(p_new.mdb@, f)
                &&& records_upto(p_new.scb@, f) && records_upto(p_new.l1d@, f)
            } else {
                p_new == p_old && iq_new == iq_old && rob_new == rob_old
            },
            None => p_new == p_old && iq_new == iq_old && rob_new == rob_old,
        },
{
    match p_old.pending_flush {
        Some(pf) => if pf.apply_cycle <= cycle {
            let f = pf.flush_seq;
            let o = p_old;
            lemma_kept_upto(rob_old, f);
            lemma_owned_upto(iq_old, f);
            assert forall|i: int| 0 <= i < p_new.frontend@.len() implies seqs_upto(#[trigger] p_new.frontend@[i]@, f) by {
                lemma_kept_upto(o.frontend@[i]@, f);
            }
            lemma_kept_upto(o.p1@, f);
            lemma_kept_upto(o.i1@, f);
            lemma_kept_upto(o.i2@, f);
            lemma_kept_upto(o.e1@, f);
            lemma_kept_upto(o.e2@, f);
            lemma_kept_upto(o.e3@, f);
            lemma_kept_upto(o.e4@, f);
            lemma_kept_upto(o.w1@, f);
            lemma_kept_upto(o.w2@, f);
            lemma_kept_upto(o.stq@, f);
            lemma_kept_upto(o.lhq@, f);
            lemma_owned_upto(o.liq@, f);
            lemma_owned_upto(o.mdb@, f);
            lemma_owned_upto(o.scb@, f);
            lemma_owned_upto(o.l1d@, f);
        },
        None => {},
    }
}

} // verus!
