use vstd::prelude::*;
use crate::blocks::{block_epoch_for_seq, spec_block_epoch_for_seq};
use crate::decode::{is_bstart, is_setret, spec_is_bstart, spec_is_setret};
use crate::model::{
    BranchOwnerContext, BranchOwnerKind, CallMaterializationKind, CycleUop, DynamicTargetSourceKind,
    ReturnConsumerKind, StageQueues,
};
use crate::record::DecodedInstruction;
use crate::seqmap::SeqMap;
use crate::text::{contains_chars, literal_chars, occurs, text_is, to_upper_chars, uppered};

verus! {

/// The value of `m` at `k`, if any.
pub open spec fn map_get<V>(m: Map<usize, V>, k: usize) -> Option<V> {
    if m.contains_key(k) { Some(m[k]) } else { None }
}

// ---------------------------------------------------------------------------
// Decoded fields.
// ---------------------------------------------------------------------------

/// The value of the first field named `name`, from position `i` on.
pub open spec fn spec_decoded_field_from(fields: Seq<(Seq<char>, u64)>, name: Seq<char>, i: int) -> Option<u64>
    decreases fields.len() - i,
{
    if i < 0 || i >= fields.len() {
        None
    } else if fields[i].0 == name {
        Some(fields[i].1)
    } else {
        spec_decoded_field_from(fields, name, i + 1)
    }
}

pub open spec fn spec_decoded_field(fields: Seq<(Seq<char>, u64)>, name: Seq<char>) -> Option<u64> {
    spec_decoded_field_from(fields, name, 0)
}

/// The value of the first decoded field called `name`.
pub fn decoded_field_u64(decoded: &DecodedInstruction, name: &str) -> (r: Option<u64>)
    ensures
        r == spec_decoded_field(decoded@.fields, name@),
{
    let mut i: usize = 0;
    while i < decoded.fields.len()
        invariant
            i <= decoded.fields@.len(),
            decoded@.fields.len() == decoded.fields@.len(),
            spec_decoded_field(decoded@.fields, name@) == spec_decoded_field_from(decoded@.fields, name@, i as int),
        decreases decoded.fields@.len() - i,
    {
        assert(decoded@.fields[i as int] == decoded.fields@[i as int]@);
        if text_is(&decoded.fields[i].name, name) {
            return Some(decoded.fields[i].value_u64);
        }
        i += 1;
    }
    None
}

// ---------------------------------------------------------------------------
// Branch ownership of a block header.
// ---------------------------------------------------------------------------

pub open spec fn spec_is_fret(m: Seq<char>) -> bool {
    m == "FRET.RA"@ || m == "FRET.STK"@
}

pub open spec fn brtype_kind(v: Option<u64>) -> BranchOwnerKind {
    match v {
        Some(1) => BranchOwnerKind::Fall,
        Some(2) => BranchOwnerKind::Direct,
        Some(3) => BranchOwnerKind::Cond,
        Some(4) => BranchOwnerKind::Call,
        Some(5) => BranchOwnerKind::Ind,
        Some(6) => BranchOwnerKind::ICall,
        Some(7) => BranchOwnerKind::Ret,
        _ => BranchOwnerKind::NoBranch,
    }
}

/// The kind of control transfer that a block header announces, read from
/// its mnemonic, then from the words of its assembly text, then (for the
/// compressed standard header) from its `BrType` field.
pub open spec fn spec_branch_owner_kind(d: crate::record::DecodedView) -> BranchOwnerKind {
    let m = d.mnemonic;
    let a = uppered(d.assembly);
    if spec_is_fret(m) {
        BranchOwnerKind::Ret
    } else if m == "BSTART CALL"@ || m == "HL.BSTART CALL"@ {
        BranchOwnerKind::Call
    } else if occurs(a, " COND"@) {
        BranchOwnerKind::Cond
    } else if occurs(a, " CALL"@) {
        BranchOwnerKind::Call
    } else if occurs(a, " RET"@) {
        BranchOwnerKind::Ret
    } else if occurs(a, " DIRECT"@) {
        BranchOwnerKind::Direct
    } else if occurs(a, " ICALL"@) {
        BranchOwnerKind::ICall
    } else if occurs(a, " IND"@) {
        BranchOwnerKind::Ind
    } else if occurs(a, " FALL"@) {
        BranchOwnerKind::Fall
    } else if m == "C.BSTART.STD"@ {
        brtype_kind(spec_decoded_field(d.fields, "BrType"@))
    } else {
        BranchOwnerKind::NoBranch
    }
}

/// The kind of control transfer announced by `uop`.
pub fn branch_owner_kind_for_uop(uop: &CycleUop) -> (r: BranchOwnerKind)
    ensures
        r == spec_branch_owner_kind(uop.decoded@),
{
    let m = &uop.decoded.mnemonic;
    if text_is(m, "FRET.RA") || text_is(m, "FRET.STK") {
        return BranchOwnerKind::Ret;
    }
    if text_is(m, "BSTART CALL") || text_is(m, "HL.BSTART CALL") {
        return BranchOwnerKind::Call;
    }
    let upper = to_upper_chars(&uop.decoded.assembly);
    if contains_chars(&upper, &literal_chars(" COND")) {
        return BranchOwnerKind::Cond;
    }
    if contains_chars(&upper, &literal_chars(" CALL")) {
        return BranchOwnerKind::Call;
    }
    if contains_chars(&upper, &literal_chars(" RET")) {
        return BranchOwnerKind::Ret;
    }
    if contains_chars(&upper, &literal_chars(" DIRECT")) {
        return BranchOwnerKind::Direct;
    }
    if contains_chars(&upper, &literal_chars(" ICALL")) {
        return BranchOwnerKind::ICall;
    }
    if contains_chars(&upper, &literal_chars(" IND")) {
        return BranchOwnerKind::Ind;
    }
    if contains_chars(&upper, &literal_chars(" FALL")) {
        return BranchOwnerKind::Fall;
    }
    if text_is(m, "C.BSTART.STD") {
        return match decoded_field_u64(&uop.decoded, "BrType") {
            Some(1) => BranchOwnerKind::Fall,
            Some(2) => BranchOwnerKind::Direct,
            Some(3) => BranchOwnerKind::Cond,
            Some(4) => BranchOwnerKind::Call,
            Some(5) => BranchOwnerKind::Ind,
            Some(6) => BranchOwnerKind::ICall,
            Some(7) => BranchOwnerKind::Ret,
            _ => BranchOwnerKind::NoBranch,
        };
    }
    BranchOwnerKind::NoBranch
}

pub open spec fn is_dynamic_kind(k: BranchOwnerKind) -> bool {
    k == BranchOwnerKind::Ret || k == BranchOwnerKind::Ind || k == BranchOwnerKind::ICall
}

pub open spec fn spec_boundary_target_pc(seq: usize, u: CycleUop, p: StageQueues, kind: BranchOwnerKind) -> Option<u64> {
    if is_dynamic_kind(kind) {
        match map_get(p.seq_boundary_target_pcs@, seq) {
            Some(t) => Some(t),
            None => match map_get(p.seq_dynamic_target_pcs@, seq) {
                Some(t) => Some(t),
                None => match p.active_dynamic_target_pc {
                    Some(t) => Some(t),
                    None => u.redirect_target,
                },
            },
        }
    } else if kind == BranchOwnerKind::NoBranch {
        None
    } else {
        u.redirect_target
    }
}

/// Where the block headed by `seq` transfers control: a dynamic target
/// (recorded for the header, or the one set up last) for returns and
/// indirect transfers, the static redirect target otherwise.
pub fn boundary_target_pc(seq: usize, uop: &CycleUop, pipeline: &StageQueues, kind: BranchOwnerKind) -> (r: Option<u64>)
    ensures
        r == spec_boundary_target_pc(seq, *uop, *pipeline, kind),
{
    match kind {
        BranchOwnerKind::Ret | BranchOwnerKind::Ind | BranchOwnerKind::ICall => {
            if let Some(t) = pipeline.seq_boundary_target_pcs.get(seq) {
                Some(t)
            } else if let Some(t) = pipeline.seq_dynamic_target_pcs.get(seq) {
                Some(t)
            } else if let Some(t) = pipeline.active_dynamic_target_pc {
                Some(t)
            } else {
                uop.redirect_target
            }
        },
        BranchOwnerKind::NoBranch => None,
        _ => uop.redirect_target,
    }
}

pub open spec fn spec_boundary_context(seq: usize, u: CycleUop, p: StageQueues) -> Option<BranchOwnerContext> {
    let kind = spec_branch_owner_kind(u.decoded@);
    if kind == BranchOwnerKind::NoBranch {
        None
    } else {
        let t = match spec_boundary_target_pc(seq, u, p, kind) {
            Some(t) => t,
            None => 0,
        };
        let e = match map_get(p.seq_recovery_epochs@, seq) {
            Some(e) => e,
            None => 0,
        };
        Some(BranchOwnerContext {
            kind,
            base_pc: u.commit.pc,
            target_pc: t,
            off: if t == 0 { 0 } else { t.wrapping_sub(u.commit.pc) },
            pred_take: kind == BranchOwnerKind::Cond && t != 0 && t < u.commit.pc,
            epoch: e.wrapping_add(1),
        })
    }
}

/// The branch context that block header `seq` opens: its kind, its pc, its
/// target (0 when unknown) and offset, the static prediction (a backward
/// conditional is predicted taken) and the epoch after its own.
pub fn boundary_context_from_uop(seq: usize, uop: &CycleUop, pipeline: &StageQueues) -> (r: Option<BranchOwnerContext>)
    ensures
        r == spec_boundary_context(seq, *uop, *pipeline),
{
    let kind = branch_owner_kind_for_uop(uop);
    if kind == BranchOwnerKind::NoBranch {
        return None;
    }
    let target_pc = match boundary_target_pc(seq, uop, pipeline, kind) {
        Some(t) => t,
        None => 0,
    };
    let epoch = match pipeline.seq_recovery_epochs.get(seq) {
        Some(e) => e,
        None => 0,
    };
    Some(BranchOwnerContext {
        kind,
        base_pc: uop.commit.pc,
        target_pc,
        off: if target_pc == 0 { 0 } else { target_pc.wrapping_sub(uop.commit.pc) },
        pred_take: match kind {
            BranchOwnerKind::Cond => target_pc != 0 && target_pc < uop.commit.pc,
            _ => false,
        },
        epoch: epoch.wrapping_add(1),
    })
}

pub open spec fn spec_is_call_header(u: CycleUop) -> bool {
    spec_is_bstart(u.decoded@.mnemonic) && spec_branch_owner_kind(u.decoded@) == BranchOwnerKind::Call
}

/// A block header that announces a call.
pub fn is_call_header_uop(uop: &CycleUop) -> (r: bool)
    ensures
        r == spec_is_call_header(*uop),
{
    is_bstart(&uop.decoded) && branch_owner_kind_for_uop(uop) == BranchOwnerKind::Call
}

pub open spec fn spec_call_return_target(u: CycleUop) -> Option<u64> {
    if (spec_is_call_header(u) || spec_is_setret(u.decoded@.mnemonic)) && u.commit.wb_valid != 0 && u.commit.wb_rd == 10 {
        Some(u.commit.wb_data)
    } else {
        None
    }
}

/// The return address that a call header or SETRET writes to the link
/// register, if it writes one.
pub fn call_return_target_pc(uop: &CycleUop) -> (r: Option<u64>)
    ensures
        r == spec_call_return_target(*uop),
{
    if (is_call_header_uop(uop) || is_setret(&uop.decoded)) && uop.commit.wb_valid != 0 && uop.commit.wb_rd == 10 {
        Some(uop.commit.wb_data)
    } else {
        None
    }
}

pub open spec fn spec_recovery_epoch(p: StageQueues, uops: Seq<CycleUop>, seq: usize) -> u16 {
    match map_get(p.seq_recovery_epochs@, seq) {
        Some(e) => e,
        None => spec_block_epoch_for_seq(uops, seq as int),
    }
}

/// The recovery epoch of `seq`: the one recorded at dispatch, else the one
/// its position in the program gives.
pub fn recovery_epoch_for_seq(seq: usize, pipeline: &StageQueues, uops: &Vec<CycleUop>) -> (r: u16)
    ensures
        r == spec_recovery_epoch(*pipeline, uops@, seq),
{
    match pipeline.seq_recovery_epochs.get(seq) {
        Some(e) => e,
        None => block_epoch_for_seq(seq, uops),
    }
}

pub open spec fn spec_source_kind_of_call(k: CallMaterializationKind) -> DynamicTargetSourceKind {
    match k {
        CallMaterializationKind::FusedCall => DynamicTargetSourceKind::CallReturnFused,
        CallMaterializationKind::AdjacentSetret => DynamicTargetSourceKind::CallReturnAdjacentSetret,
    }
}

/// A dynamic target taken from a call's return address keeps the way that
/// address was produced.
pub fn dynamic_target_source_kind_from_call_materialization(kind: CallMaterializationKind) -> (r: DynamicTargetSourceKind)
    ensures
        r == spec_source_kind_of_call(kind),
{
    match kind {
        CallMaterializationKind::FusedCall => DynamicTargetSourceKind::CallReturnFused,
        CallMaterializationKind::AdjacentSetret => DynamicTargetSourceKind::CallReturnAdjacentSetret,
    }
}

} // verus!

verus! {

// ---------------------------------------------------------------------------
// Dynamic block targets: SETC.TGT sets one up; returns and indirect block
// ends record which setup they consume.
// ---------------------------------------------------------------------------

pub open spec fn spec_is_setc_tgt(m: Seq<char>) -> bool {
    m == "SETC.TGT"@ || m == "C.SETC.TGT"@
}

/// The dynamic target that `u` names, if any: the source register of a
/// SETC.TGT, the redirect of an FRET, or, at a block stop, the target set up
/// last.
pub open spec fn spec_dyn_target_pc(u: CycleUop, p: StageQueues) -> Option<u64> {
    let m = u.decoded@.mnemonic;
    if spec_is_setc_tgt(m) && u.commit.src0_valid != 0 {
        Some(u.commit.src0_data)
    } else if spec_is_fret(m) {
        u.redirect_target
    } else if crate::decode::spec_is_bstop(m) {
        p.active_dynamic_target_pc
    } else {
        None
    }
}

/// The dynamic-target state of the block being dispatched.
pub struct DynState {
    pub pc: Option<u64>,
    pub owner_seq: Option<usize>,
    pub producer_kind: Option<ReturnConsumerKind>,
    pub setup_epoch: Option<u16>,
    pub owner_kind: Option<ReturnConsumerKind>,
    pub source_owner_seq: Option<usize>,
    pub source_epoch: Option<u16>,
    pub source_kind: Option<DynamicTargetSourceKind>,
    pub call_materialization_kind: Option<CallMaterializationKind>,
    pub branch_context: BranchOwnerContext,
}

pub open spec fn dyn_state_of(p: StageQueues) -> DynState {
    DynState {
        pc: p.active_dynamic_target_pc,
        owner_seq: p.active_dynamic_target_owner_seq,
        producer_kind: p.active_dynamic_target_producer_kind,
        setup_epoch: p.active_dynamic_target_setup_epoch,
        owner_kind: p.active_dynamic_target_owner_kind,
        source_owner_seq: p.active_dynamic_target_source_owner_seq,
        source_epoch: p.active_dynamic_target_source_epoch,
        source_kind: p.active_dynamic_target_source_kind,
        call_materialization_kind: p.active_dynamic_target_call_materialization_kind,
        branch_context: p.active_branch_context,
    }
}

/// A SETC.TGT reads the link register and that holds the return address
/// that the last call produced.
pub open spec fn setc_from_call(u: CycleUop, p: StageQueues, t: Option<u64>) -> bool {
    t is Some && u.commit.src0_reg == 10 && p.active_call_return_target_pc == t
}

/// The dynamic-target state after SETC.TGT `seq` with target `t` and
/// recovery epoch `ep`.
pub open spec fn spec_setc_state(seq: usize, u: CycleUop, p: StageQueues, t: Option<u64>, ep: u16) -> DynState {
    let fc = setc_from_call(u, p, t);
    let ctx = p.active_branch_context;
    DynState {
        pc: t,
        owner_seq: if t is Some { Some(seq) } else { None },
        producer_kind: if t is Some { Some(ReturnConsumerKind::SetcTgt) } else { None },
        setup_epoch: if t is Some { Some(ep) } else { None },
        owner_kind: if t is Some { Some(ReturnConsumerKind::SetcTgt) } else { None },
        source_owner_seq: if t is Some {
            Some(if fc { p.active_call_return_target_owner_seq.unwrap_or(seq) } else { seq })
        } else {
            None
        },
        source_epoch: if t is Some {
            Some(if fc { p.active_call_return_target_epoch.unwrap_or(ep) } else { ep })
        } else {
            None
        },
        source_kind: if t is Some {
            Some(
                if fc {
                    match p.active_call_return_materialization_kind {
                        Some(k) => spec_source_kind_of_call(k),
                        None => DynamicTargetSourceKind::ArchTargetSetup,
                    }
                } else {
                    DynamicTargetSourceKind::ArchTargetSetup
                },
            )
        } else {
            None
        },
        call_materialization_kind: if fc { p.active_call_return_materialization_kind } else { None },
        branch_context: if is_dynamic_kind(ctx.kind) {
            BranchOwnerContext {
                target_pc: match t { Some(tp) => tp, None => 0 },
                off: match t { Some(tp) => tp.wrapping_sub(ctx.base_pc), None => 0 },
                ..ctx
            }
        } else {
            ctx
        },
    }
}

/// What a block end records about the dynamic target it consumes.
#[derive(Clone, Copy)]
pub struct BoundaryOwner {
    pub target_pc: u64,
    pub owner_seq: usize,
    pub producer_kind: Option<ReturnConsumerKind>,
    pub setup_epoch: Option<u16>,
    pub return_kind: Option<ReturnConsumerKind>,
    pub source_owner_seq: Option<usize>,
    pub source_epoch: Option<u16>,
    pub call_materialization_kind: Option<CallMaterializationKind>,
    pub source_kind: Option<DynamicTargetSourceKind>,
}

/// The record that the active setup gives when all of its parts are known;
/// `ret` says whether the consumer is a return (which keeps the owner kind).
pub open spec fn active_setup_owner(p: StageQueues, ret: bool) -> Option<BoundaryOwner> {
    if p.active_dynamic_target_pc is Some && p.active_dynamic_target_owner_seq is Some
        && (ret ==> p.active_dynamic_target_owner_kind is Some) && p.active_dynamic_target_producer_kind is Some
        && p.active_dynamic_target_setup_epoch is Some && p.active_dynamic_target_source_owner_seq is Some
        && p.active_dynamic_target_source_epoch is Some {
        Some(BoundaryOwner {
            target_pc: p.active_dynamic_target_pc->0,
            owner_seq: p.active_dynamic_target_owner_seq->0,
            producer_kind: p.active_dynamic_target_producer_kind,
            setup_epoch: p.active_dynamic_target_setup_epoch,
            return_kind: if ret { p.active_dynamic_target_owner_kind } else { None },
            source_owner_seq: p.active_dynamic_target_source_owner_seq,
            source_epoch: p.active_dynamic_target_source_epoch,
            call_materialization_kind: p.active_dynamic_target_call_materialization_kind,
            source_kind: p.active_dynamic_target_source_kind,
        })
    } else {
        None
    }
}

/// The record block end `seq` makes, read from the dispatch state `p` that
/// holds after its own target setup; `t` is its dynamic target and `ep` its
/// recovery epoch.
pub open spec fn spec_boundary_owner(seq: usize, u: CycleUop, p: StageQueues, t: Option<u64>, ep: u16) -> Option<BoundaryOwner> {
    let m = u.decoded@.mnemonic;
    let bk = spec_branch_owner_kind(u.decoded@);
    if m == "FRET.RA"@ {
        match t {
            None => None,
            Some(tp) => {
                let fc = p.active_call_return_target_pc == Some(tp);
                let owner = if fc { p.active_call_return_target_owner_seq.unwrap_or(seq) } else { seq };
                Some(BoundaryOwner {
                    target_pc: tp,
                    owner_seq: owner,
                    producer_kind: Some(ReturnConsumerKind::FretRa),
                    setup_epoch: Some(ep),
                    return_kind: Some(ReturnConsumerKind::FretRa),
                    source_owner_seq: Some(owner),
                    source_epoch: Some(if fc { p.active_call_return_target_epoch.unwrap_or(ep) } else { ep }),
                    call_materialization_kind: if fc { p.active_call_return_materialization_kind } else { None },
                    source_kind: if fc {
                        match p.active_call_return_materialization_kind {
                            Some(k) => Some(spec_source_kind_of_call(k)),
                            None => None,
                        }
                    } else {
                        None
                    },
                })
            },
        }
    } else if m == "FRET.STK"@ {
        match t {
            None => None,
            Some(tp) => Some(BoundaryOwner {
                target_pc: tp,
                owner_seq: seq,
                producer_kind: Some(ReturnConsumerKind::FretStk),
                setup_epoch: Some(ep),
                return_kind: Some(ReturnConsumerKind::FretStk),
                source_owner_seq: Some(seq),
                source_epoch: Some(ep),
                call_materialization_kind: None,
                source_kind: None,
            }),
        }
    } else if crate::decode::spec_is_bstop(m) && is_dynamic_kind(p.active_branch_context.kind) {
        active_setup_owner(p, p.active_branch_context.kind == BranchOwnerKind::Ret)
    } else if bk == BranchOwnerKind::Ret {
        active_setup_owner(p, true)
    } else if bk == BranchOwnerKind::Ind || bk == BranchOwnerKind::ICall {
        active_setup_owner(p, false)
    } else {
        None
    }
}

fn active_setup_owner_exec(pipeline: &StageQueues, ret: bool) -> (r: Option<BoundaryOwner>)
    ensures
        r == active_setup_owner(*pipeline, ret),
{
    match (
        pipeline.active_dynamic_target_pc,
        pipeline.active_dynamic_target_owner_seq,
        pipeline.active_dynamic_target_producer_kind,
        pipeline.active_dynamic_target_setup_epoch,
        pipeline.active_dynamic_target_source_owner_seq,
        pipeline.active_dynamic_target_source_epoch,
    ) {
        (Some(target_pc), Some(owner_seq), Some(producer_kind), Some(setup_epoch), Some(source_owner_seq), Some(source_epoch)) => {
            if ret && pipeline.active_dynamic_target_owner_kind.is_none() {
                return None;
            }
            Some(BoundaryOwner {
                target_pc,
                owner_seq,
                producer_kind: Some(producer_kind),
                setup_epoch: Some(setup_epoch),
                return_kind: if ret { pipeline.active_dynamic_target_owner_kind } else { None },
                source_owner_seq: Some(source_owner_seq),
                source_epoch: Some(source_epoch),
                call_materialization_kind: pipeline.active_dynamic_target_call_materialization_kind,
                source_kind: pipeline.active_dynamic_target_source_kind,
            })
        },
        _ => None,
    }
}

fn boundary_owner_for(seq: usize, uop: &CycleUop, pipeline: &StageQueues, target_pc: Option<u64>, ep: u16) -> (r: Option<BoundaryOwner>)
    ensures
        r == spec_boundary_owner(seq, *uop, *pipeline, target_pc, ep),
{
    let m = &uop.decoded.mnemonic;
    let bk = branch_owner_kind_for_uop(uop);
    if text_is(m, "FRET.RA") {
        match target_pc {
            None => None,
            Some(tp) => {
                let fc = pipeline.active_call_return_target_pc == Some(tp);
                let owner = if fc {
                    match pipeline.active_call_return_target_owner_seq {
                        Some(o) => o,
                        None => seq,
                    }
                } else {
                    seq
                };
                let source_epoch = if fc {
                    match pipeline.active_call_return_target_epoch {
                        Some(e) => e,
                        None => ep,
                    }
                } else {
                    ep
                };
                Some(BoundaryOwner {
                    target_pc: tp,
                    owner_seq: owner,
                    producer_kind: Some(ReturnConsumerKind::FretRa),
                    setup_epoch: Some(ep),
                    return_kind: Some(ReturnConsumerKind::FretRa),
                    source_owner_seq: Some(owner),
                    source_epoch: Some(source_epoch),
                    call_materialization_kind: if fc { pipeline.active_call_return_materialization_kind } else { None },
                    source_kind: if fc {
                        match pipeline.active_call_return_materialization_kind {
                            Some(k) => Some(dynamic_target_source_kind_from_call_materialization(k)),
                            None => None,
                        }
                    } else {
                        None
                    },
                })
            },
        }
    } else if text_is(m, "FRET.STK") {
        match target_pc {
            None => None,
            Some(tp) => Some(BoundaryOwner {
                target_pc: tp,
                owner_seq: seq,
                producer_kind: Some(ReturnConsumerKind::FretStk),
                setup_epoch: Some(ep),
                return_kind: Some(ReturnConsumerKind::FretStk),
                source_owner_seq: Some(seq),
                source_epoch: Some(ep),
                call_materialization_kind: None,
                source_kind: None,
            }),
        }
    } else if crate::decode::is_bstop(&uop.decoded) && match pipeline.active_branch_context.kind {
        BranchOwnerKind::Ret | BranchOwnerKind::Ind | BranchOwnerKind::ICall => true,
        _ => false,
    } {
        active_setup_owner_exec(pipeline, pipeline.active_branch_context.kind == BranchOwnerKind::Ret)
    } else if bk == BranchOwnerKind::Ret {
        active_setup_owner_exec(pipeline, true)
    } else if bk == BranchOwnerKind::Ind || bk == BranchOwnerKind::ICall {
        active_setup_owner_exec(pipeline, false)
    } else {
        None
    }
}

} // verus!

verus! {

/// `m` with `k` mapped to the value in `v`, if there is one.
pub open spec fn opt_insert<V>(m: Map<usize, V>, k: usize, v: Option<V>) -> Map<usize, V> {
    match v {
        Some(x) => m.insert(k, x),
        None => m,
    }
}

fn seqmap_insert_opt<V: Copy>(m: &mut SeqMap<V>, k: usize, v: Option<V>)
    requires
        k < usize::MAX,
    ensures
        final(m)@ == opt_insert(old(m)@, k, v),
{
    if let Some(x) = v {
        m.insert(k, x);
    }
}

/// What dispatching micro-op `seq` does to the dynamic-target state, from
/// `o` to `f`.
pub open spec fn dyn_owner_post(seq: usize, uops: Seq<CycleUop>, o: StageQueues, f: StageQueues) -> bool {
    &&& {
        let u = uops[seq as int];
        let t = spec_dyn_target_pc(u, o);
        let ep = spec_recovery_epoch(o, uops, seq);
        let bo = spec_boundary_owner(seq, u, f, t, ep);
        &&& f.seq_dynamic_target_pcs@ == opt_insert(o.seq_dynamic_target_pcs@, seq, t)
        &&& dyn_state_of(f) == if spec_is_setc_tgt(u.decoded@.mnemonic) {
            spec_setc_state(seq, u, o, t, ep)
        } else {
            dyn_state_of(o)
        }
        &&& match bo {
            None => {
                &&& f.seq_boundary_target_pcs == o.seq_boundary_target_pcs
                &&& f.seq_boundary_target_owner_seqs == o.seq_boundary_target_owner_seqs
                &&& f.seq_boundary_target_producer_kinds == o.seq_boundary_target_producer_kinds
                &&& f.seq_boundary_target_setup_epochs == o.seq_boundary_target_setup_epochs
                &&& f.seq_boundary_target_source_owner_seqs == o.seq_boundary_target_source_owner_seqs
                &&& f.seq_boundary_target_source_epochs == o.seq_boundary_target_source_epochs
                &&& f.seq_boundary_target_source_kinds == o.seq_boundary_target_source_kinds
                &&& f.seq_return_consumer_kinds == o.seq_return_consumer_kinds
                &&& f.seq_call_materialization_kinds == o.seq_call_materialization_kinds
            },
            Some(rec) => {
                &&& f.seq_boundary_target_pcs@ == o.seq_boundary_target_pcs@.insert(seq, rec.target_pc)
                &&& f.seq_boundary_target_owner_seqs@ == o.seq_boundary_target_owner_seqs@.insert(seq, rec.owner_seq)
                &&& f.seq_boundary_target_producer_kinds@ == opt_insert(o.seq_boundary_target_producer_kinds@, seq, rec.producer_kind)
                &&& f.seq_boundary_target_setup_epochs@ == opt_insert(o.seq_boundary_target_setup_epochs@, seq, rec.setup_epoch)
                &&& f.seq_boundary_target_source_owner_seqs@ == opt_insert(o.seq_boundary_target_source_owner_seqs@, seq, rec.source_owner_seq)
                &&& f.seq_boundary_target_source_epochs@ == opt_insert(o.seq_boundary_target_source_epochs@, seq, rec.source_epoch)
                &&& f.seq_boundary_target_source_kinds@ == opt_insert(o.seq_boundary_target_source_kinds@, seq, rec.source_kind)
                &&& f.seq_return_consumer_kinds@ == opt_insert(o.seq_return_consumer_kinds@, seq, rec.return_kind)
                &&& f.seq_call_materialization_kinds@ == opt_insert(o.seq_call_materialization_kinds@, seq, rec.call_materialization_kind)
            },
        }
    }
    &&& f.same_queues(&o)
    &&& f.same_call_state(&o)
    &&& f.same_dispatch_marks(&o)
}

/// Records what micro-op `seq` does to the dynamic block target at dispatch:
/// a SETC.TGT sets up a new target for the block being dispatched (and
/// fills it into a return or indirect branch context); a return, indirect
/// transfer or block stop that consumes a target records, for itself, the
/// target and where it came from.
pub fn update_dynamic_target_owner(seq: usize, pipeline: &mut StageQueues, uops: &Vec<CycleUop>)
    requires
        seq < uops@.len(),
    ensures
        dyn_owner_post(seq, uops@, *old(pipeline), *final(pipeline)),
{
    let total = uops.len();
    assert(seq < usize::MAX) by {
        assert(seq < total);
    }
    let uop = &uops[seq];
    let m = &uop.decoded.mnemonic;
    let is_setc = text_is(m, "SETC.TGT") || text_is(m, "C.SETC.TGT");
    let target_pc = if is_setc && uop.commit.src0_valid != 0 {
        Some(uop.commit.src0_data)
    } else if text_is(m, "FRET.RA") || text_is(m, "FRET.STK") {
        uop.redirect_target
    } else if crate::decode::is_bstop(&uop.decoded) {
        pipeline.active_dynamic_target_pc
    } else {
        None
    };
    let ep = recovery_epoch_for_seq(seq, pipeline, uops);
    seqmap_insert_opt(&mut pipeline.seq_dynamic_target_pcs, seq, target_pc);
    if is_setc {
        let fc = target_pc.is_some() && uop.commit.src0_reg == 10 && pipeline.active_call_return_target_pc == target_pc;
        let has = target_pc.is_some();
        let source_owner = if fc {
            match pipeline.active_call_return_target_owner_seq {
                Some(o) => o,
                None => seq,
            }
        } else {
            seq
        };
        let source_epoch = if fc {
            match pipeline.active_call_return_target_epoch {
                Some(e) => e,
                None => ep,
            }
        } else {
            ep
        };
        let source_kind = if fc {
            match pipeline.active_call_return_materialization_kind {
                Some(k) => dynamic_target_source_kind_from_call_materialization(k),
                None => DynamicTargetSourceKind::ArchTargetSetup,
            }
        } else {
            DynamicTargetSourceKind::ArchTargetSetup
        };
        let call_kind = if fc { pipeline.active_call_return_materialization_kind } else { None };
        pipeline.active_dynamic_target_pc = target_pc;
        pipeline.active_dynamic_target_owner_seq = if has { Some(seq) } else { None };
        pipeline.active_dynamic_target_producer_kind = if has { Some(ReturnConsumerKind::SetcTgt) } else { None };
        pipeline.active_dynamic_target_setup_epoch = if has { Some(ep) } else { None };
        pipeline.active_dynamic_target_owner_kind = if has { Some(ReturnConsumerKind::SetcTgt) } else { None };
        pipeline.active_dynamic_target_source_owner_seq = if has { Some(source_owner) } else { None };
        pipeline.active_dynamic_target_source_epoch = if has { Some(source_epoch) } else { None };
        pipeline.active_dynamic_target_call_materialization_kind = call_kind;
        pipeline.active_dynamic_target_source_kind = if has { Some(source_kind) } else { None };
        match pipeline.active_branch_context.kind {
            BranchOwnerKind::Ret | BranchOwnerKind::Ind | BranchOwnerKind::ICall => {
                let base = pipeline.active_branch_context.base_pc;
                pipeline.active_branch_context.target_pc = match target_pc {
                    Some(tp) => tp,
                    None => 0,
                };
                pipeline.active_branch_context.off = match target_pc {
                    Some(tp) => tp.wrapping_sub(base),
                    None => 0,
                };
            },
            _ => {},
        }
    }
    let owner = boundary_owner_for(seq, uop, pipeline, target_pc, ep);
    if let Some(o) = owner {
        pipeline.seq_boundary_target_pcs.insert(seq, o.target_pc);
        pipeline.seq_boundary_target_owner_seqs.insert(seq, o.owner_seq);
        seqmap_insert_opt(&mut pipeline.seq_boundary_target_producer_kinds, seq, o.producer_kind);
        seqmap_insert_opt(&mut pipeline.seq_boundary_target_setup_epochs, seq, o.setup_epoch);
        seqmap_insert_opt(&mut pipeline.seq_boundary_target_source_owner_seqs, seq, o.source_owner_seq);
        seqmap_insert_opt(&mut pipeline.seq_boundary_target_source_epochs, seq, o.source_epoch);
        seqmap_insert_opt(&mut pipeline.seq_boundary_target_source_kinds, seq, o.source_kind);
        seqmap_insert_opt(&mut pipeline.seq_return_consumer_kinds, seq, o.return_kind);
        seqmap_insert_opt(&mut pipeline.seq_call_materialization_kinds, seq, o.call_materialization_kind);
    }
}

} // verus!

verus! {

// ---------------------------------------------------------------------------
// Call headers and the return addresses they produce.
// ---------------------------------------------------------------------------

/// What micro-op `seq` does to the call-return state.
pub enum CallEvent {
    /// Neither a call header nor a SETRET.
    Unrelated,
    /// A call header that does not write the return address itself.
    HeaderOpen,
    /// A call header that writes the return address itself.
    Fused(u64),
    /// A SETRET right after the open call header `0`, writing address `1`.
    Adjacent(usize, u64),
    /// A SETRET right after the open call header that writes no address.
    AdjacentSilent,
    /// A SETRET with no call header right before it.
    Orphan,
}

pub open spec fn spec_call_event(seq: usize, u: CycleUop, p: StageQueues) -> CallEvent {
    let t = spec_call_return_target(u);
    if spec_is_call_header(u) {
        match t {
            Some(tp) => CallEvent::Fused(tp),
            None => CallEvent::HeaderOpen,
        }
    } else if spec_is_setret(u.decoded@.mnemonic) {
        match p.active_call_header_seq {
            Some(h) => if seq == h.saturating_add(1) {
                match t {
                    Some(tp) => CallEvent::Adjacent(h, tp),
                    None => CallEvent::AdjacentSilent,
                }
            } else {
                CallEvent::Orphan
            },
            None => CallEvent::Orphan,
        }
    } else {
        CallEvent::Unrelated
    }
}

/// The active return address is `tp`, produced by `seq` in epoch `ep` in the
/// way `kind` says.
pub open spec fn active_return_is(p: StageQueues, tp: u64, seq: usize, ep: u16, kind: CallMaterializationKind) -> bool {
    &&& p.active_call_return_target_pc == Some(tp)
    &&& p.active_call_return_target_owner_seq == Some(seq)
    &&& p.active_call_return_target_epoch == Some(ep)
    &&& p.active_call_return_materialization_kind == Some(kind)
}

pub open spec fn same_active_return(a: StageQueues, b: StageQueues) -> bool {
    &&& a.active_call_return_target_pc == b.active_call_return_target_pc
    &&& a.active_call_return_target_owner_seq == b.active_call_return_target_owner_seq
    &&& a.active_call_return_target_epoch == b.active_call_return_target_epoch
    &&& a.active_call_return_materialization_kind == b.active_call_return_materialization_kind
}

pub open spec fn same_call_records(a: StageQueues, b: StageQueues) -> bool {
    &&& a.seq_call_return_target_pcs == b.seq_call_return_target_pcs
    &&& a.seq_call_return_target_owner_seqs == b.seq_call_return_target_owner_seqs
    &&& a.seq_call_return_target_epochs == b.seq_call_return_target_epochs
    &&& a.seq_call_materialization_kinds == b.seq_call_materialization_kinds
    &&& a.seq_call_header_faults == b.seq_call_header_faults
}

/// What dispatching micro-op `seq` does to the call-return state, from `o`
/// to `f`.
pub open spec fn call_owner_post(seq: usize, uops: Seq<CycleUop>, o: StageQueues, f: StageQueues) -> bool {
    &&& {
        let u = uops[seq as int];
        let ep = spec_recovery_epoch(o, uops, seq);
        match spec_call_event(seq, u, o) {
            CallEvent::Unrelated | CallEvent::AdjacentSilent => {
                &&& f.active_call_header_seq is None
                &&& same_active_return(f, o)
                &&& same_call_records(f, o)
            },
            CallEvent::HeaderOpen => {
                &&& f.active_call_header_seq == Some(seq)
                &&& same_active_return(f, o)
                &&& same_call_records(f, o)
            },
            CallEvent::Fused(tp) => {
                &&& f.active_call_header_seq is None
                &&& active_return_is(f, tp, seq, ep, CallMaterializationKind::FusedCall)
                &&& f.seq_call_return_target_pcs@ == o.seq_call_return_target_pcs@.insert(seq, tp)
                &&& f.seq_call_return_target_owner_seqs@ == o.seq_call_return_target_owner_seqs@.insert(seq, seq)
                &&& f.seq_call_return_target_epochs@ == o.seq_call_return_target_epochs@.insert(seq, ep)
                &&& f.seq_call_materialization_kinds@ == o.seq_call_materialization_kinds@.insert(seq, CallMaterializationKind::FusedCall)
                &&& f.seq_call_header_faults == o.seq_call_header_faults
            },
            CallEvent::Adjacent(h, tp) => {
                &&& f.active_call_header_seq is None
                &&& active_return_is(f, tp, seq, ep, CallMaterializationKind::AdjacentSetret)
                &&& f.seq_call_return_target_pcs@ == o.seq_call_return_target_pcs@.insert(h, tp).insert(seq, tp)
                &&& f.seq_call_return_target_owner_seqs@ == o.seq_call_return_target_owner_seqs@.insert(h, seq).insert(seq, seq)
                &&& f.seq_call_return_target_epochs@ == o.seq_call_return_target_epochs@.insert(h, ep).insert(seq, ep)
                &&& f.seq_call_materialization_kinds@ == o.seq_call_materialization_kinds@.insert(
                    h,
                    CallMaterializationKind::AdjacentSetret,
                ).insert(seq, CallMaterializationKind::AdjacentSetret)
                &&& f.seq_call_header_faults == o.seq_call_header_faults
            },
            CallEvent::Orphan => {
                &&& f.active_call_header_seq is None
                &&& same_active_return(f, o)
                &&& f.seq_call_return_target_pcs == o.seq_call_return_target_pcs
                &&& f.seq_call_return_target_owner_seqs == o.seq_call_return_target_owner_seqs
                &&& f.seq_call_return_target_epochs == o.seq_call_return_target_epochs
                &&& f.seq_call_materialization_kinds@ == o.seq_call_materialization_kinds@.insert(seq, CallMaterializationKind::AdjacentSetret)
                &&& f.seq_call_header_faults@ == o.seq_call_header_faults@.insert(seq, crate::config::TRAP_SETRET_NOT_ADJACENT)
            },
        }
    }
    &&& f.same_queues(&o)
    &&& f.same_dispatch_marks(&o)
    &&& dyn_state_of(f) == dyn_state_of(o)
    &&& f.seq_dynamic_target_pcs == o.seq_dynamic_target_pcs
    &&& f.seq_boundary_target_pcs == o.seq_boundary_target_pcs
    &&& f.seq_boundary_target_owner_seqs == o.seq_boundary_target_owner_seqs
    &&& f.seq_boundary_target_producer_kinds == o.seq_boundary_target_producer_kinds
    &&& f.seq_boundary_target_setup_epochs == o.seq_boundary_target_setup_epochs
    &&& f.seq_boundary_target_source_owner_seqs == o.seq_boundary_target_source_owner_seqs
    &&& f.seq_boundary_target_source_epochs == o.seq_boundary_target_source_epochs
    &&& f.seq_boundary_target_source_kinds == o.seq_boundary_target_source_kinds
    &&& f.seq_return_consumer_kinds == o.seq_return_consumer_kinds
}

/// Tracks calls at dispatch. A call header that writes its own return
/// address records it (fused); one that does not opens a window for a
/// SETRET in the very next micro-op, which then records the address for
/// both (adjacent). A SETRET anywhere else is marked with a fault. Any other
/// micro-op closes the window.
pub fn update_call_header_owner(seq: usize, pipeline: &mut StageQueues, uops: &Vec<CycleUop>)
    requires
        seq < uops@.len(),
    ensures
        call_owner_post(seq, uops@, *old(pipeline), *final(pipeline)),
{
    let total = uops.len();
    assert(seq < usize::MAX) by {
        assert(seq < total);
    }
    let uop = &uops[seq];
    let is_call_header = is_call_header_uop(uop);
    let is_setret = is_setret(&uop.decoded);
    if let Some(h) = pipeline.active_call_header_seq {
        if seq != h.saturating_add(1) || !is_setret {
            pipeline.active_call_header_seq = None;
        }
    }
    if is_call_header {
        pipeline.active_call_header_seq = None;
        if let Some(target_pc) = call_return_target_pc(uop) {
            let target_epoch = recovery_epoch_for_seq(seq, pipeline, uops);
            pipeline.seq_call_return_target_pcs.insert(seq, target_pc);
            pipeline.seq_call_return_target_owner_seqs.insert(seq, seq);
            pipeline.seq_call_return_target_epochs.insert(seq, target_epoch);
            pipeline.seq_call_materialization_kinds.insert(seq, CallMaterializationKind::FusedCall);
            pipeline.active_call_return_target_pc = Some(target_pc);
            pipeline.active_call_return_target_owner_seq = Some(seq);
            pipeline.active_call_return_target_epoch = Some(target_epoch);
            pipeline.active_call_return_materialization_kind = Some(CallMaterializationKind::FusedCall);
        } else {
            pipeline.active_call_header_seq = Some(seq);
        }
        return;
    }
    if is_setret {
        let adjacent = match pipeline.active_call_header_seq {
            Some(h) => seq == h.saturating_add(1),
            None => false,
        };
        if adjacent {
            let h = pipeline.active_call_header_seq.unwrap();
            if let Some(target_pc) = call_return_target_pc(uop) {
                let target_epoch = recovery_epoch_for_seq(seq, pipeline, uops);
                pipeline.seq_call_return_target_pcs.insert(h, target_pc);
                pipeline.seq_call_return_target_owner_seqs.insert(h, seq);
                pipeline.seq_call_return_target_epochs.insert(h, target_epoch);
                pipeline.seq_call_materialization_kinds.insert(h, CallMaterializationKind::AdjacentSetret);
                pipeline.seq_call_return_target_pcs.insert(seq, target_pc);
                pipeline.seq_call_return_target_owner_seqs.insert(seq, seq);
                pipeline.seq_call_return_target_epochs.insert(seq, target_epoch);
                pipeline.seq_call_materialization_kinds.insert(seq, CallMaterializationKind::AdjacentSetret);
                pipeline.active_call_return_target_pc = Some(target_pc);
                pipeline.active_call_return_target_owner_seq = Some(seq);
                pipeline.active_call_return_target_epoch = Some(target_epoch);
                pipeline.active_call_return_materialization_kind = Some(CallMaterializationKind::AdjacentSetret);
            }
            pipeline.active_call_header_seq = None;
        } else {
            pipeline.seq_call_materialization_kinds.insert(seq, CallMaterializationKind::AdjacentSetret);
            pipeline.seq_call_header_faults.insert(seq, crate::config::TRAP_SETRET_NOT_ADJACENT);
            pipeline.active_call_header_seq = None;
        }
    }
}

} // verus!

verus! {

// ---------------------------------------------------------------------------
// What the pipeline knows, per micro-op, of checkpoints, epochs and branch
// ownership: the value recorded at dispatch, else the one the program gives.
// ---------------------------------------------------------------------------

pub open spec fn spec_live_checkpoint_id(p: StageQueues, uops: Seq<CycleUop>, seq: usize) -> u8 {
    match map_get(p.seq_checkpoint_ids@, seq) {
        Some(c) => c,
        None => crate::blocks::spec_checkpoint_id_for_seq(uops, seq as int),
    }
}

/// The fetch checkpoint of `seq`: the one assigned at fetch, else the one of
/// its packet.
pub fn live_checkpoint_id_for_seq(seq: usize, pipeline: &StageQueues, uops: &Vec<CycleUop>) -> (r: u8)
    ensures
        r == spec_live_checkpoint_id(*pipeline, uops@, seq),
{
    match pipeline.seq_checkpoint_ids.get(seq) {
        Some(c) => c,
        None => crate::blocks::checkpoint_id_for_seq(seq, uops),
    }
}

pub open spec fn spec_live_rob_checkpoint_id(p: StageQueues, uops: Seq<CycleUop>, seq: usize) -> u8 {
    match map_get(p.seq_rob_checkpoint_ids@, seq) {
        Some(c) => c,
        None => if !crate::decode::spec_is_start_marker(uops[seq as int].decoded@.mnemonic) {
            0
        } else {
            let st = crate::blocks::spec_checkpoint_id_for_seq(uops, seq as int);
            let live = spec_live_checkpoint_id(p, uops, seq);
            let off = crate::blocks::spec_rob_checkpoint_id_for_seq(uops, seq as int).wrapping_sub(st) & 0x3f;
            live.wrapping_add(off) & 0x3f
        },
    }
}

/// The checkpoint that block start `seq` allocates: the recorded one, else
/// its static id moved by the same amount as its packet's live fetch id.
pub fn live_rob_checkpoint_id_for_seq(seq: usize, pipeline: &StageQueues, uops: &Vec<CycleUop>) -> (r: u8)
    requires
        seq < uops@.len(),
    ensures
        r == spec_live_rob_checkpoint_id(*pipeline, uops@, seq),
{
    if let Some(c) = pipeline.seq_rob_checkpoint_ids.get(seq) {
        return c;
    }
    if !crate::decode::is_start_marker(&uops[seq].decoded) {
        return 0;
    }
    let st = crate::blocks::checkpoint_id_for_seq(seq, uops);
    let live = live_checkpoint_id_for_seq(seq, pipeline, uops);
    let off = crate::blocks::rob_checkpoint_id_for_seq(seq, uops).wrapping_sub(st) & 0x3f;
    live.wrapping_add(off) & 0x3f
}

/// The last block-start marker before position `i` (exclusive), searching down.
pub open spec fn last_start_marker_before(uops: Seq<CycleUop>, i: int) -> Option<int>
    decreases i,
{
    if i <= 0 {
        None
    } else if crate::decode::spec_is_start_marker(uops[i - 1].decoded@.mnemonic) {
        Some(i - 1)
    } else {
        last_start_marker_before(uops, i - 1)
    }
}

pub open spec fn spec_recovery_checkpoint_id(p: StageQueues, uops: Seq<CycleUop>, seq: usize) -> u8 {
    match map_get(p.seq_recovery_checkpoint_ids@, seq) {
        Some(c) => c,
        None => if crate::decode::spec_is_start_marker(uops[seq as int].decoded@.mnemonic) {
            spec_live_rob_checkpoint_id(p, uops, seq)
        } else {
            match last_start_marker_before(uops, seq as int) {
                Some(c) => spec_live_rob_checkpoint_id(p, uops, c as usize),
                None => 0,
            }
        },
    }
}

/// The checkpoint a flush at `seq` restores: the recorded one, else that of
/// the block start that opens its block.
pub fn recovery_checkpoint_id_for_seq(seq: usize, pipeline: &StageQueues, uops: &Vec<CycleUop>) -> (r: u8)
    requires
        seq < uops@.len(),
    ensures
        r == spec_recovery_checkpoint_id(*pipeline, uops@, seq),
{
    if let Some(c) = pipeline.seq_recovery_checkpoint_ids.get(seq) {
        return c;
    }
    if crate::decode::is_start_marker(&uops[seq].decoded) {
        return live_rob_checkpoint_id_for_seq(seq, pipeline, uops);
    }
    let mut i: usize = seq;
    while i > 0
        invariant
            i <= seq < uops@.len(),
            last_start_marker_before(uops@, seq as int) == last_start_marker_before(uops@, i as int),
            !crate::decode::spec_is_start_marker(uops@[seq as int].decoded@.mnemonic),
            !pipeline.seq_recovery_checkpoint_ids@.contains_key(seq),
        decreases i,
    {
        if crate::decode::is_start_marker(&uops[i - 1].decoded) {
            assert(last_start_marker_before(uops@, i as int) == Some((i - 1) as int));
            return live_rob_checkpoint_id_for_seq(i - 1, pipeline, uops);
        }
        i -= 1;
    }
    0
}

/// The branch context of the last block header before position `i`
/// (exclusive) that opens one, searching down.
pub open spec fn fallback_context_before(p: StageQueues, uops: Seq<CycleUop>, i: int) -> Option<BranchOwnerContext>
    decreases i,
{
    if i <= 0 {
        None
    } else {
        match spec_boundary_context((i - 1) as usize, uops[i - 1], p) {
            Some(c) => Some(c),
            None => fallback_context_before(p, uops, i - 1),
        }
    }
}

/// The branch context of the nearest older block header that opens one.
pub fn fallback_branch_context_for_seq(seq: usize, pipeline: &StageQueues, uops: &Vec<CycleUop>) -> (r: Option<BranchOwnerContext>)
    requires
        seq <= uops@.len(),
    ensures
        r == fallback_context_before(*pipeline, uops@, seq as int),
{
    let mut i: usize = seq;
    while i > 0
        invariant
            i <= seq <= uops@.len(),
            fallback_context_before(*pipeline, uops@, seq as int) == fallback_context_before(*pipeline, uops@, i as int),
        decreases i,
    {
        if let Some(c) = boundary_context_from_uop(i - 1, &uops[i - 1], pipeline) {
            return Some(c);
        }
        i -= 1;
    }
    None
}

pub open spec fn spec_branch_context(p: StageQueues, uops: Seq<CycleUop>, seq: usize) -> BranchOwnerContext {
    match map_get(p.seq_branch_contexts@, seq) {
        Some(c) => c,
        None => match fallback_context_before(p, uops, seq as int) {
            Some(c) => c,
            None => crate::model::spec_default_branch_context(),
        },
    }
}

/// The branch context `seq` was dispatched under: the recorded one, else
/// that of the nearest older block header, else the empty context.
pub fn branch_context_for_seq(seq: usize, pipeline: &StageQueues, uops: &Vec<CycleUop>) -> (r: BranchOwnerContext)
    requires
        seq <= uops@.len(),
    ensures
        r == spec_branch_context(*pipeline, uops@, seq),
{
    if let Some(c) = pipeline.seq_branch_contexts.get(seq) {
        return c;
    }
    match fallback_branch_context_for_seq(seq, pipeline, uops) {
        Some(c) => c,
        None => BranchOwnerContext::default(),
    }
}

/// `Some(x)` unless `x` is zero.
pub open spec fn nonzero(x: u64) -> Option<u64> {
    if x != 0 { Some(x) } else { None }
}

pub open spec fn spec_live_boundary_target(p: StageQueues, uops: Seq<CycleUop>, seq: usize) -> Option<u64> {
    if seq >= uops.len() {
        None
    } else {
        let u = uops[seq as int];
        let recorded = match map_get(p.seq_branch_contexts@, seq) {
            Some(c) => nonzero(c.target_pc),
            None => None,
        };
        if crate::decode::spec_is_boundary_redirect_owner(u.decoded@.mnemonic) {
            let own = match spec_boundary_context(seq, u, p) {
                Some(c) => nonzero(c.target_pc),
                None => None,
            };
            if own is Some {
                own
            } else if recorded is Some {
                recorded
            } else {
                u.redirect_target
            }
        } else {
            recorded
        }
    }
}

/// The nonzero target that block boundary `seq` transfers to, as far as it
/// is known now.
pub fn live_boundary_target_for_seq(seq: usize, pipeline: &StageQueues, uops: &Vec<CycleUop>) -> (r: Option<u64>)
    ensures
        r == spec_live_boundary_target(*pipeline, uops@, seq),
{
    if seq >= uops.len() {
        return None;
    }
    let uop = &uops[seq];
    let recorded = match pipeline.seq_branch_contexts.get(seq) {
        Some(c) => if c.target_pc != 0 { Some(c.target_pc) } else { None },
        None => None,
    };
    if crate::decode::is_boundary_redirect_owner(&uop.decoded) {
        let own = match boundary_context_from_uop(seq, uop, pipeline) {
            Some(c) => if c.target_pc != 0 { Some(c.target_pc) } else { None },
            None => None,
        };
        if own.is_some() {
            own
        } else if recorded.is_some() {
            recorded
        } else {
            uop.redirect_target
        }
    } else {
        recorded
    }
}

pub open spec fn some_kind(k: BranchOwnerKind) -> Option<BranchOwnerKind> {
    if k != BranchOwnerKind::NoBranch { Some(k) } else { None }
}

pub open spec fn spec_live_branch_kind(p: StageQueues, uops: Seq<CycleUop>, seq: usize) -> Option<BranchOwnerKind> {
    if seq >= uops.len() {
        None
    } else {
        let u = uops[seq as int];
        if crate::decode::spec_is_boundary_redirect_owner(u.decoded@.mnemonic) {
            let own = match spec_boundary_context(seq, u, p) {
                Some(c) => some_kind(c.kind),
                None => None,
            };
            if own is Some {
                own
            } else {
                match map_get(p.seq_branch_contexts@, seq) {
                    Some(c) => some_kind(c.kind),
                    None => None,
                }
            }
        } else {
            some_kind(spec_branch_context(p, uops, seq).kind)
        }
    }
}

/// The kind of control transfer that `seq` owns or belongs to, if any.
pub fn live_branch_kind_for_seq(seq: usize, pipeline: &StageQueues, uops: &Vec<CycleUop>) -> (r: Option<BranchOwnerKind>)
    ensures
        r == spec_live_branch_kind(*pipeline, uops@, seq),
{
    if seq >= uops.len() {
        return None;
    }
    let uop = &uops[seq];
    if crate::decode::is_boundary_redirect_owner(&uop.decoded) {
        let own = match boundary_context_from_uop(seq, uop, pipeline) {
            Some(c) => if c.kind != BranchOwnerKind::NoBranch { Some(c.kind) } else { None },
            None => None,
        };
        if own.is_some() {
            return own;
        }
        return match pipeline.seq_branch_contexts.get(seq) {
            Some(c) => if c.kind != BranchOwnerKind::NoBranch { Some(c.kind) } else { None },
            None => None,
        };
    }
    let kind = branch_context_for_seq(seq, pipeline, uops).kind;
    if kind != BranchOwnerKind::NoBranch { Some(kind) } else { None }
}

/// The recovery epoch of a micro-op that owns or belongs to a control transfer.
pub fn live_boundary_epoch_for_seq(seq: usize, pipeline: &StageQueues, uops: &Vec<CycleUop>) -> (r: Option<u16>)
    ensures
        r == (if spec_live_branch_kind(*pipeline, uops@, seq) is Some {
            Some(spec_recovery_epoch(*pipeline, uops@, seq))
        } else {
            None
        }),
{
    match live_branch_kind_for_seq(seq, pipeline, uops) {
        Some(_) => Some(recovery_epoch_for_seq(seq, pipeline, uops)),
        None => None,
    }
}

pub open spec fn spec_live_return_consumer_kind(p: StageQueues, uops: Seq<CycleUop>, seq: usize) -> Option<ReturnConsumerKind> {
    match map_get(p.seq_return_consumer_kinds@, seq) {
        Some(k) => Some(k),
        None => if seq >= uops.len() {
            None
        } else if uops[seq as int].decoded@.mnemonic == "FRET.RA"@ {
            Some(ReturnConsumerKind::FretRa)
        } else if uops[seq as int].decoded@.mnemonic == "FRET.STK"@ {
            Some(ReturnConsumerKind::FretStk)
        } else {
            None
        },
    }
}

/// How `seq` consumes a return target: recorded at dispatch, else by its mnemonic.
pub fn live_return_consumer_kind_for_seq(seq: usize, pipeline: &StageQueues, uops: &Vec<CycleUop>) -> (r: Option<ReturnConsumerKind>)
    ensures
        r == spec_live_return_consumer_kind(*pipeline, uops@, seq),
{
    if let Some(k) = pipeline.seq_return_consumer_kinds.get(seq) {
        return Some(k);
    }
    if seq >= uops.len() {
        return None;
    }
    let m = &uops[seq].decoded.mnemonic;
    if text_is(m, "FRET.RA") {
        Some(ReturnConsumerKind::FretRa)
    } else if text_is(m, "FRET.STK") {
        Some(ReturnConsumerKind::FretStk)
    } else {
        None
    }
}

pub open spec fn spec_live_call_materialization_kind(p: StageQueues, uops: Seq<CycleUop>, seq: usize) -> Option<CallMaterializationKind> {
    match map_get(p.seq_call_materialization_kinds@, seq) {
        Some(k) => Some(k),
        None => if seq >= uops.len() {
            None
        } else if spec_is_setret(uops[seq as int].decoded@.mnemonic) {
            Some(CallMaterializationKind::AdjacentSetret)
        } else if spec_is_call_header(uops[seq as int]) && spec_call_return_target(uops[seq as int]) is Some {
            Some(CallMaterializationKind::FusedCall)
        } else {
            None
        },
    }
}

/// How the return address that `seq` takes part in came about: recorded at
/// dispatch, else a SETRET is adjacent and a call header that writes the
/// link register itself is fused.
pub fn live_call_materialization_kind_for_seq(seq: usize, pipeline: &StageQueues, uops: &Vec<CycleUop>) -> (r: Option<CallMaterializationKind>)
    ensures
        r == spec_live_call_materialization_kind(*pipeline, uops@, seq),
{
    if let Some(k) = pipeline.seq_call_materialization_kinds.get(seq) {
        return Some(k);
    }
    if seq >= uops.len() {
        return None;
    }
    let uop = &uops[seq];
    if is_setret(&uop.decoded) {
        return Some(CallMaterializationKind::AdjacentSetret);
    }
    if is_call_header_uop(uop) && call_return_target_pc(uop).is_some() {
        Some(CallMaterializationKind::FusedCall)
    } else {
        None
    }
}

/// Where the dynamic target consumed by block end `seq` came from.
pub fn live_dynamic_target_source_kind_for_seq(seq: usize, pipeline: &StageQueues, uops: &Vec<CycleUop>) -> (r: Option<DynamicTargetSourceKind>)
    ensures
        r == map_get(pipeline.seq_boundary_target_source_kinds@, seq),
{
    pipeline.seq_boundary_target_source_kinds.get(seq)
}

/// The epoch in which the dynamic target consumed by `seq` was set up.
pub fn live_dynamic_target_setup_epoch_for_seq(seq: usize, pipeline: &StageQueues, uops: &Vec<CycleUop>) -> (r: Option<u16>)
    ensures
        r == map_get(pipeline.seq_boundary_target_setup_epochs@, seq),
{
    pipeline.seq_boundary_target_setup_epochs.get(seq)
}

/// The epoch of the micro-op that produced the dynamic target consumed by `seq`.
pub fn live_dynamic_target_source_epoch_for_seq(seq: usize, pipeline: &StageQueues, uops: &Vec<CycleUop>) -> (r: Option<u16>)
    ensures
        r == map_get(pipeline.seq_boundary_target_source_epochs@, seq),
{
    pipeline.seq_boundary_target_source_epochs.get(seq)
}

/// The kind of micro-op that set up the dynamic target consumed by `seq`.
pub fn live_dynamic_target_producer_kind_for_seq(seq: usize, pipeline: &StageQueues, uops: &Vec<CycleUop>) -> (r: Option<ReturnConsumerKind>)
    ensures
        r == map_get(pipeline.seq_boundary_target_producer_kinds@, seq),
{
    pipeline.seq_boundary_target_producer_kinds.get(seq)
}

} // verus!

verus! {

// ---------------------------------------------------------------------------
// Names in traces.
// ---------------------------------------------------------------------------

pub open spec fn spec_branch_kind_label(k: BranchOwnerKind) -> Option<Seq<char>> {
    match k {
        BranchOwnerKind::NoBranch => None,
        BranchOwnerKind::Fall => Some("fall"@),
        BranchOwnerKind::Cond => Some("cond"@),
        BranchOwnerKind::Call => Some("call"@),
        BranchOwnerKind::Ret => Some("ret"@),
        BranchOwnerKind::Direct => Some("direct"@),
        BranchOwnerKind::Ind => Some("ind"@),
        BranchOwnerKind::ICall => Some("icall"@),
    }
}

/// The trace name of a branch kind; none for "no branch".
pub fn branch_kind_label(kind: BranchOwnerKind) -> (r: Option<&'static str>)
    ensures
        match r {
            Some(s) => spec_branch_kind_label(kind) == Some(s@),
            None => spec_branch_kind_label(kind) is None,
        },
{
    match kind {
        BranchOwnerKind::NoBranch => None,
        BranchOwnerKind::Fall => Some("fall"),
        BranchOwnerKind::Cond => Some("cond"),
        BranchOwnerKind::Call => Some("call"),
        BranchOwnerKind::Ret => Some("ret"),
        BranchOwnerKind::Direct => Some("direct"),
        BranchOwnerKind::Ind => Some("ind"),
        BranchOwnerKind::ICall => Some("icall"),
    }
}

pub open spec fn spec_return_consumer_kind_label(k: ReturnConsumerKind) -> Seq<char> {
    match k {
        ReturnConsumerKind::SetcTgt => "setc_tgt"@,
        ReturnConsumerKind::FretRa => "fret_ra"@,
        ReturnConsumerKind::FretStk => "fret_stk"@,
    }
}

/// The trace name of a return-target consumer kind.
pub fn return_consumer_kind_label(kind: ReturnConsumerKind) -> (r: &'static str)
    ensures
        r@ == spec_return_consumer_kind_label(kind),
{
    match kind {
        ReturnConsumerKind::SetcTgt => "setc_tgt",
        ReturnConsumerKind::FretRa => "fret_ra",
        ReturnConsumerKind::FretStk => "fret_stk",
    }
}

pub open spec fn spec_call_materialization_kind_label(k: CallMaterializationKind) -> Seq<char> {
    match k {
        CallMaterializationKind::FusedCall => "fused_call"@,
        CallMaterializationKind::AdjacentSetret => "adjacent_setret"@,
    }
}

/// The trace name of a call materialization kind.
pub fn call_materialization_kind_label(kind: CallMaterializationKind) -> (r: &'static str)
    ensures
        r@ == spec_call_materialization_kind_label(kind),
{
    match kind {
        CallMaterializationKind::FusedCall => "fused_call",
        CallMaterializationKind::AdjacentSetret => "adjacent_setret",
    }
}

pub open spec fn spec_dynamic_target_source_kind_label(k: DynamicTargetSourceKind) -> Seq<char> {
    match k {
        DynamicTargetSourceKind::ArchTargetSetup => "arch_target_setup"@,
        DynamicTargetSourceKind::CallReturnFused => "call_return_fused"@,
        DynamicTargetSourceKind::CallReturnAdjacentSetret => "call_return_adjacent_setret"@,
    }
}

/// The trace name of a dynamic-target source kind.
pub fn dynamic_target_source_kind_label(kind: DynamicTargetSourceKind) -> (r: &'static str)
    ensures
        r@ == spec_dynamic_target_source_kind_label(kind),
{
    match kind {
        DynamicTargetSourceKind::ArchTargetSetup => "arch_target_setup",
        DynamicTargetSourceKind::CallReturnFused => "call_return_fused",
        DynamicTargetSourceKind::CallReturnAdjacentSetret => "call_return_adjacent_setret",
    }
}

pub open spec fn row_id_text(seq: usize) -> Seq<char> {
    "uop"@ + crate::text::decimal_text(seq as nat)
}

/// The trace row of the micro-op that produced the dynamic target consumed by `seq`.
pub fn live_dynamic_target_source_owner_row_id_for_seq(seq: usize, pipeline: &StageQueues, uops: &Vec<CycleUop>) -> (r: Option<String>)
    ensures
        match r {
            Some(s) => map_get(pipeline.seq_boundary_target_source_owner_seqs@, seq) matches Some(o) && s@ == row_id_text(o),
            None => map_get(pipeline.seq_boundary_target_source_owner_seqs@, seq) is None,
        },
{
    match pipeline.seq_boundary_target_source_owner_seqs.get(seq) {
        Some(o) => Some(crate::text::uop_row_id(o)),
        None => None,
    }
}

pub open spec fn spec_control_target_owner(p: StageQueues, uops: Seq<CycleUop>, seq: usize) -> Option<usize> {
    match map_get(p.seq_boundary_target_owner_seqs@, seq) {
        Some(o) => Some(o),
        None => match map_get(p.seq_call_return_target_owner_seqs@, seq) {
            Some(o) => Some(o),
            None => if seq < uops.len() && (spec_is_setret(uops[seq as int].decoded@.mnemonic) || spec_is_fret(
                uops[seq as int].decoded@.mnemonic,
            )) {
                Some(seq)
            } else {
                None
            },
        },
    }
}

/// The trace row of the micro-op that owns the control target `seq` uses:
/// the recorded target or return-address owner, else `seq` itself when it
/// produces or consumes a return address.
pub fn live_control_target_owner_row_id_for_seq(seq: usize, pipeline: &StageQueues, uops: &Vec<CycleUop>) -> (r: Option<String>)
    ensures
        match r {
            Some(s) => spec_control_target_owner(*pipeline, uops@, seq) matches Some(o) && s@ == row_id_text(o),
            None => spec_control_target_owner(*pipeline, uops@, seq) is None,
        },
{
    if let Some(o) = pipeline.seq_boundary_target_owner_seqs.get(seq) {
        return Some(crate::text::uop_row_id(o));
    }
    if let Some(o) = pipeline.seq_call_return_target_owner_seqs.get(seq) {
        return Some(crate::text::uop_row_id(o));
    }
    if seq >= uops.len() {
        return None;
    }
    let d = &uops[seq].decoded;
    if is_setret(d) || text_is(&d.mnemonic, "FRET.RA") || text_is(&d.mnemonic, "FRET.STK") {
        Some(crate::text::uop_row_id(seq))
    } else {
        None
    }
}

} // verus!

verus! {

/// `b` is `a` but possibly at key `k`, where an entry may be added or
/// overwritten and none is removed.
pub open spec fn changed_only_at<V>(a: Map<usize, V>, b: Map<usize, V>, k: usize) -> bool {
    &&& forall|j: usize| j != k ==> (#[trigger] b.contains_key(j) <==> a.contains_key(j))
    &&& forall|j: usize| j != k && #[trigger] b.contains_key(j) ==> b[j] == a[j]
    &&& a.contains_key(k) ==> b.contains_key(k)
}

proof fn lemma_opt_insert_only_at<V>(a: Map<usize, V>, k: usize, v: Option<V>)
    ensures
        changed_only_at(a, opt_insert(a, k, v), k),
{
}

proof fn lemma_insert_only_at<V>(a: Map<usize, V>, k: usize, v: V)
    ensures
        changed_only_at(a, a.insert(k, v), k),
{
}

proof fn lemma_same_only_at<V>(a: Map<usize, V>, k: usize)
    ensures
        changed_only_at(a, a, k),
{
}

/// Law: recording what micro-op `seq` does to the dynamic block target
/// changes the per-micro-op target records only at `seq` (adding or
/// overwriting, never removing), and leaves the queues, the tables of the
/// issue queues, the ready tables, the recovery records and the call-return
/// state as they were.
pub proof fn law_owner_update_touches_only_seq(seq: usize, uops: Seq<CycleUop>, o: StageQueues, f: StageQueues)
    requires
        dyn_owner_post(seq, uops, o, f),
    ensures
        changed_only_at(o.seq_dynamic_target_pcs@, f.seq_dynamic_target_pcs@, seq),
        changed_only_at(o.seq_boundary_target_pcs@, f.seq_boundary_target_pcs@, seq),
        changed_only_at(o.seq_boundary_target_owner_seqs@, f.seq_boundary_target_owner_seqs@, seq),
        changed_only_at(o.seq_boundary_target_producer_kinds@, f.seq_boundary_target_producer_kinds@, seq),
        changed_only_at(o.seq_boundary_target_setup_epochs@, f.seq_boundary_target_setup_epochs@, seq),
        changed_only_at(o.seq_boundary_target_source_owner_seqs@, f.seq_boundary_target_source_owner_seqs@, seq),
        changed_only_at(o.seq_boundary_target_source_epochs@, f.seq_boundary_target_source_epochs@, seq),
        changed_only_at(o.seq_boundary_target_source_kinds@, f.seq_boundary_target_source_kinds@, seq),
        changed_only_at(o.seq_return_consumer_kinds@, f.seq_return_consumer_kinds@, seq),
        changed_only_at(o.seq_call_materialization_kinds@, f.seq_call_materialization_kinds@, seq),
        f.same_queues(&o),
        f.same_call_state(&o),
        f.same_dispatch_marks(&o),
{
    let u = uops[seq as int];
    let t = spec_dyn_target_pc(u, o);
    let ep = spec_recovery_epoch(o, uops, seq);
    let bo = spec_boundary_owner(seq, u, f, t, ep);
    lemma_opt_insert_only_at(o.seq_dynamic_target_pcs@, seq, t);
    match bo {
        None => {
            lemma_same_only_at(o.seq_boundary_target_pcs@, seq);
            lemma_same_only_at(o.seq_boundary_target_owner_seqs@, seq);
            lemma_same_only_at(o.seq_boundary_target_producer_kinds@, seq);
            lemma_same_only_at(o.seq_boundary_target_setup_epochs@, seq);
            lemma_same_only_at(o.seq_boundary_target_source_owner_seqs@, seq);
            lemma_same_only_at(o.seq_boundary_target_source_epochs@, seq);
            lemma_same_only_at(o.seq_boundary_target_source_kinds@, seq);
            lemma_same_only_at(o.seq_return_consumer_kinds@, seq);
            lemma_same_only_at(o.seq_call_materialization_kinds@, seq);
        },
        Some(rec) => {
            lemma_insert_only_at(o.seq_boundary_target_pcs@, seq, rec.target_pc);
            lemma_insert_only_at(o.seq_boundary_target_owner_seqs@, seq, rec.owner_seq);
            lemma_opt_insert_only_at(o.seq_boundary_target_producer_kinds@, seq, rec.producer_kind);
            lemma_opt_insert_only_at(o.seq_boundary_target_setup_epochs@, seq, rec.setup_epoch);
            lemma_opt_insert_only_at(o.seq_boundary_target_source_owner_seqs@, seq, rec.source_owner_seq);
            lemma_opt_insert_only_at(o.seq_boundary_target_source_epochs@, seq, rec.source_epoch);
            lemma_opt_insert_only_at(o.seq_boundary_target_source_kinds@, seq, rec.source_kind);
            lemma_opt_insert_only_at(o.seq_return_consumer_kinds@, seq, rec.return_kind);
            lemma_opt_insert_only_at(o.seq_call_materialization_kinds@, seq, rec.call_materialization_kind);
        },
    }
}

} // verus!
