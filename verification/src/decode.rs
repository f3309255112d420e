use vstd::prelude::*;
use crate::config::{REG_T1, REG_U1};
use crate::model::{CycleUop, LogicalQueueTag, QueueWakeKind, uops_wf};
use crate::record::{CommitRecord, DecodedInstruction, DecodedView};
use crate::text::{
    contains_chars, find_chars, first_occurrence, literal_chars, lowered, occurs, parse_digits,
    spec_parse_digits, text_is, to_lower_chars,
};

verus! {

// ---------------------------------------------------------------------------
// Instruction classes, by mnemonic.
// ---------------------------------------------------------------------------

pub open spec fn spec_is_bstart(m: Seq<char>) -> bool {
    ||| m == "BSTART"@
    ||| m == "BSTART.ACCCVT"@
    ||| m == "BSTART.CALL"@
    ||| m == "BSTART.CUBE"@
    ||| m == "BSTART.FIXP"@
    ||| m == "BSTART.FP"@
    ||| m == "BSTART.MPAR"@
    ||| m == "BSTART.MSEQ"@
    ||| m == "BSTART.PAR"@
    ||| m == "BSTART.STD"@
    ||| m == "BSTART.SYS"@
    ||| m == "BSTART.TEPL"@
    ||| m == "BSTART.TLOAD"@
    ||| m == "BSTART.TMA"@
    ||| m == "BSTART.TMATMUL"@
    ||| m == "BSTART.TMATMUL.ACC"@
    ||| m == "BSTART.TMOV"@
    ||| m == "BSTART.TSTORE"@
    ||| m == "BSTART.VPAR"@
    ||| m == "BSTART.VSEQ"@
    ||| m == "C.BSTART"@
    ||| m == "C.BSTART.STD"@
    ||| m == "C.BSTART.SYS"@
    ||| m == "C.BSTART.VPAR"@
    ||| m == "C.BSTART.VSEQ"@
    ||| m == "HL.BSTART CALL"@
    ||| m == "HL.BSTART.FP"@
    ||| m == "HL.BSTART.STD"@
    ||| m == "HL.BSTART.SYS"@
}

pub open spec fn spec_is_bstop(m: Seq<char>) -> bool {
    m == "BSTOP"@ || m == "C.BSTOP"@
}

pub open spec fn spec_is_macro_boundary(m: Seq<char>) -> bool {
    m == "FENTRY"@ || m == "FEXIT"@ || m == "FRET.RA"@ || m == "FRET.STK"@
}

pub open spec fn spec_is_start_marker(m: Seq<char>) -> bool {
    spec_is_bstart(m) || spec_is_macro_boundary(m)
}

pub open spec fn spec_is_boundary_redirect_owner(m: Seq<char>) -> bool {
    spec_is_bstart(m) || spec_is_bstop(m) || spec_is_macro_boundary(m)
}

pub open spec fn spec_is_setret(m: Seq<char>) -> bool {
    m == "SETRET"@ || m == "C.SETRET"@ || m == "HL.SETRET"@
}

/// Block-start headers.
pub fn is_bstart(decoded: &DecodedInstruction) -> (r: bool)
    ensures
        r == spec_is_bstart(decoded@.mnemonic),
{
    let m = &decoded.mnemonic;
    text_is(m, "BSTART") || text_is(m, "BSTART.ACCCVT") || text_is(m, "BSTART.CALL") || text_is(
        m,
        "BSTART.CUBE",
    ) || text_is(m, "BSTART.FIXP") || text_is(m, "BSTART.FP") || text_is(m, "BSTART.MPAR")
        || text_is(m, "BSTART.MSEQ") || text_is(m, "BSTART.PAR") || text_is(m, "BSTART.STD")
        || text_is(m, "BSTART.SYS") || text_is(m, "BSTART.TEPL") || text_is(m, "BSTART.TLOAD")
        || text_is(m, "BSTART.TMA") || text_is(m, "BSTART.TMATMUL") || text_is(
        m,
        "BSTART.TMATMUL.ACC",
    ) || text_is(m, "BSTART.TMOV") || text_is(m, "BSTART.TSTORE") || text_is(m, "BSTART.VPAR")
        || text_is(m, "BSTART.VSEQ") || text_is(m, "C.BSTART") || text_is(m, "C.BSTART.STD")
        || text_is(m, "C.BSTART.SYS") || text_is(m, "C.BSTART.VPAR") || text_is(m, "C.BSTART.VSEQ")
        || text_is(m, "HL.BSTART CALL") || text_is(m, "HL.BSTART.FP") || text_is(m, "HL.BSTART.STD")
        || text_is(m, "HL.BSTART.SYS")
}

/// Block-stop markers.
pub fn is_bstop(decoded: &DecodedInstruction) -> (r: bool)
    ensures
        r == spec_is_bstop(decoded@.mnemonic),
{
    text_is(&decoded.mnemonic, "BSTOP") || text_is(&decoded.mnemonic, "C.BSTOP")
}

/// Function entry/exit/return macro instructions, which also delimit blocks.
pub fn is_macro_boundary(decoded: &DecodedInstruction) -> (r: bool)
    ensures
        r == spec_is_macro_boundary(decoded@.mnemonic),
{
    let m = &decoded.mnemonic;
    text_is(m, "FENTRY") || text_is(m, "FEXIT") || text_is(m, "FRET.RA") || text_is(m, "FRET.STK")
}

/// Instructions that open a block (and so take a recovery checkpoint).
pub fn is_start_marker(decoded: &DecodedInstruction) -> (r: bool)
    ensures
        r == spec_is_start_marker(decoded@.mnemonic),
{
    is_bstart(decoded) || is_macro_boundary(decoded)
}

/// Instructions whose redirect is resolved at the block boundary.
pub fn is_boundary_redirect_owner(decoded: &DecodedInstruction) -> (r: bool)
    ensures
        r == spec_is_boundary_redirect_owner(decoded@.mnemonic),
{
    is_bstart(decoded) || is_bstop(decoded) || is_macro_boundary(decoded)
}

/// Instructions at which fetch may legally restart after a redirect.
pub fn is_legal_redirect_restart(decoded: &DecodedInstruction) -> (r: bool)
    ensures
        r == spec_is_start_marker(decoded@.mnemonic),
{
    is_bstart(decoded) || is_macro_boundary(decoded)
}

/// Return-address setup instructions.
pub fn is_setret(decoded: &DecodedInstruction) -> (r: bool)
    ensures
        r == spec_is_setret(decoded@.mnemonic),
{
    text_is(&decoded.mnemonic, "SETRET") || text_is(&decoded.mnemonic, "C.SETRET") || text_is(
        &decoded.mnemonic,
        "HL.SETRET",
    )
}

// ---------------------------------------------------------------------------
// Implicit-queue operands.
// ---------------------------------------------------------------------------

pub open spec fn spec_src_reg(c: CommitRecord, idx: int) -> Option<u8> {
    if idx == 0 && c.src0_valid != 0 {
        Some(c.src0_reg)
    } else if idx == 1 && c.src1_valid != 0 {
        Some(c.src1_reg)
    } else {
        None
    }
}

pub open spec fn spec_queue_src_kind(c: CommitRecord, d: DecodedView, idx: int) -> Option<QueueWakeKind> {
    match spec_src_reg(c, idx) {
        Some(reg) => if reg == REG_T1 && occurs(lowered(d.assembly), "t#"@) {
            Some(QueueWakeKind::T)
        } else if reg == REG_U1 && occurs(lowered(d.assembly), "u#"@) {
            Some(QueueWakeKind::U)
        } else {
            None
        },
        None => None,
    }
}

pub open spec fn spec_parse_queue_relative(text: Seq<char>, prefix: Seq<char>) -> Option<usize> {
    match first_occurrence(text, prefix) {
        Some(start) => spec_parse_digits(text, start + prefix.len()),
        None => None,
    }
}

pub open spec fn queue_prefix(kind: QueueWakeKind) -> Seq<char> {
    match kind {
        QueueWakeKind::T => "t#"@,
        QueueWakeKind::U => "u#"@,
    }
}

pub open spec fn spec_queue_src_rel(c: CommitRecord, d: DecodedView, idx: int) -> Option<usize> {
    match spec_queue_src_kind(c, d, idx) {
        Some(kind) => spec_parse_queue_relative(lowered(d.assembly), queue_prefix(kind)),
        None => None,
    }
}

pub open spec fn spec_queue_dst_kind(c: CommitRecord, d: DecodedView) -> Option<QueueWakeKind> {
    if c.wb_valid == 0 {
        None
    } else if c.wb_rd == REG_T1 && occurs(lowered(d.assembly), "->t"@) {
        Some(QueueWakeKind::T)
    } else if c.wb_rd == REG_U1 && occurs(lowered(d.assembly), "->u"@) {
        Some(QueueWakeKind::U)
    } else {
        None
    }
}

fn queue_src_kind(commit: &CommitRecord, decoded: &DecodedInstruction, idx: usize) -> (r: Option<
    QueueWakeKind,
>)
    ensures
        r == spec_queue_src_kind(*commit, decoded@, idx as int),
{
    let reg = if idx == 0 && commit.src0_valid != 0 {
        commit.src0_reg
    } else if idx == 1 && commit.src1_valid != 0 {
        commit.src1_reg
    } else {
        return None;
    };
    let text = to_lower_chars(&decoded.assembly);
    if reg == REG_T1 && contains_chars(&text, &literal_chars("t#")) {
        Some(QueueWakeKind::T)
    } else if reg == REG_U1 && contains_chars(&text, &literal_chars("u#")) {
        Some(QueueWakeKind::U)
    } else {
        None
    }
}

/// The queue distance written after `prefix` in `text` (as in `t#2`).
pub fn parse_queue_relative(text: &Vec<char>, prefix: &Vec<char>) -> (r: Option<usize>)
    ensures
        r == spec_parse_queue_relative(text@, prefix@),
{
    match find_chars(text, prefix) {
        Some(start) => {
            if start > text.len() || prefix.len() > text.len() - start {
                None
            } else {
                parse_digits(text, start + prefix.len())
            }
        },
        None => None,
    }
}

fn queue_src_rel(commit: &CommitRecord, decoded: &DecodedInstruction, idx: usize) -> (r: Option<usize>)
    ensures
        r == spec_queue_src_rel(*commit, decoded@, idx as int),
{
    let kind = queue_src_kind(commit, decoded, idx)?;
    let text = to_lower_chars(&decoded.assembly);
    let prefix = match kind {
        QueueWakeKind::T => literal_chars("t#"),
        QueueWakeKind::U => literal_chars("u#"),
    };
    parse_queue_relative(&text, &prefix)
}

fn queue_dst_kind(commit: &CommitRecord, decoded: &DecodedInstruction) -> (r: Option<QueueWakeKind>)
    ensures
        r == spec_queue_dst_kind(*commit, decoded@),
{
    if commit.wb_valid == 0 {
        return None;
    }
    let text = to_lower_chars(&decoded.assembly);
    if commit.wb_rd == REG_T1 && contains_chars(&text, &literal_chars("->t")) {
        Some(QueueWakeKind::T)
    } else if commit.wb_rd == REG_U1 && contains_chars(&text, &literal_chars("->u")) {
        Some(QueueWakeKind::U)
    } else {
        None
    }
}

} // verus!

verus! {

// ---------------------------------------------------------------------------
// Redirect targets.
// ---------------------------------------------------------------------------

pub open spec fn spec_fallthrough(c: CommitRecord) -> u64 {
    if c.pc + c.len > u64::MAX {
        u64::MAX
    } else {
        (c.pc + c.len) as u64
    }
}

pub fn fallthrough_pc(commit: &CommitRecord) -> (r: u64)
    ensures
        r == spec_fallthrough(*commit),
{
    commit.pc.saturating_add(commit.len as u64)
}

pub open spec fn spec_architectural_redirect_target(c: CommitRecord, d: DecodedView) -> Option<u64> {
    if c.trap_valid == 0 && c.next_pc != spec_fallthrough(c) && spec_is_boundary_redirect_owner(
        d.mnemonic,
    ) {
        Some(c.next_pc)
    } else {
        None
    }
}

/// The redirect a block boundary takes, if it does not fall through.
pub fn architectural_redirect_target(commit: &CommitRecord, decoded: &DecodedInstruction) -> (r:
    Option<u64>)
    ensures
        r == spec_architectural_redirect_target(*commit, decoded@),
{
    let fallthrough = fallthrough_pc(commit);
    if commit.trap_valid == 0 && commit.next_pc != fallthrough && is_boundary_redirect_owner(
        decoded,
    ) {
        Some(commit.next_pc)
    } else {
        None
    }
}

pub open spec fn spec_deferred_bru_correction_target(c: CommitRecord, d: DecodedView) -> Option<u64> {
    if c.trap_valid == 0 && c.next_pc != spec_fallthrough(c) && d.uop_group == "BRU"@
        && !spec_is_boundary_redirect_owner(d.mnemonic) {
        Some(c.next_pc)
    } else {
        None
    }
}

/// The target a taken branch-unit instruction inside a block corrects to.
pub fn deferred_bru_correction_target(commit: &CommitRecord, decoded: &DecodedInstruction) -> (r:
    Option<u64>)
    ensures
        r == spec_deferred_bru_correction_target(*commit, decoded@),
{
    let fallthrough = fallthrough_pc(commit);
    if commit.trap_valid == 0 && commit.next_pc != fallthrough && text_is(&decoded.uop_group, "BRU")
        && !is_boundary_redirect_owner(decoded) {
        Some(commit.next_pc)
    } else {
        None
    }
}

pub open spec fn spec_d2_bypass(d: DecodedView) -> bool {
    spec_is_setret(d.mnemonic) || d.uop_group == "BBD"@
}

/// Micro-ops that complete in D2 without entering an issue queue.
pub fn d2_bypass(decoded: &DecodedInstruction) -> (r: bool)
    ensures
        r == spec_d2_bypass(decoded@),
{
    is_setret(decoded) || text_is(&decoded.uop_group, "BBD")
}

// ---------------------------------------------------------------------------
// Logical queue tags.
// ---------------------------------------------------------------------------

/// Hands out the next tag of the queue that `kind` names.
pub fn allocate_logical_queue_tag(
    kind: Option<QueueWakeKind>,
    next_t_tag: &mut usize,
    next_u_tag: &mut usize,
) -> (r: Option<LogicalQueueTag>)
    requires
        kind == Some(QueueWakeKind::T) ==> *old(next_t_tag) < usize::MAX,
        kind == Some(QueueWakeKind::U) ==> *old(next_u_tag) < usize::MAX,
    ensures
        kind is None ==> r is None && *final(next_t_tag) == *old(next_t_tag) && *final(next_u_tag)
            == *old(next_u_tag),
        kind == Some(QueueWakeKind::T) ==> r == Some(
            LogicalQueueTag { kind: QueueWakeKind::T, tag: *old(next_t_tag) },
        ) && *final(next_t_tag) == *old(next_t_tag) + 1 && *final(next_u_tag) == *old(next_u_tag),
        kind == Some(QueueWakeKind::U) ==> r == Some(
            LogicalQueueTag { kind: QueueWakeKind::U, tag: *old(next_u_tag) },
        ) && *final(next_u_tag) == *old(next_u_tag) + 1 && *final(next_t_tag) == *old(next_t_tag),
{
    match kind {
        Some(QueueWakeKind::T) => {
            let tag = LogicalQueueTag { kind: QueueWakeKind::T, tag: *next_t_tag };
            *next_t_tag += 1;
            Some(tag)
        },
        Some(QueueWakeKind::U) => {
            let tag = LogicalQueueTag { kind: QueueWakeKind::U, tag: *next_u_tag };
            *next_u_tag += 1;
            Some(tag)
        },
        None => None,
    }
}

/// The `rel`-th most recent entry of a queue history (`rel` counts from 1).
pub open spec fn spec_nth_from_back<T>(h: Seq<T>, rel: usize) -> Option<T> {
    if rel == 0 || rel > h.len() {
        None
    } else {
        Some(h[h.len() - rel])
    }
}

/// Resolves a relative queue operand against the producers seen so far.
pub fn resolve_logical_queue_src(
    kind: QueueWakeKind,
    rel: usize,
    t_history: &Vec<(usize, LogicalQueueTag)>,
    u_history: &Vec<(usize, LogicalQueueTag)>,
) -> (r: Option<(usize, LogicalQueueTag)>)
    ensures
        r == spec_nth_from_back(
            match kind {
                QueueWakeKind::T => t_history@,
                QueueWakeKind::U => u_history@,
            },
            rel,
        ),
{
    if rel == 0 {
        return None;
    }
    let h = match kind {
        QueueWakeKind::T => t_history,
        QueueWakeKind::U => u_history,
    };
    if rel > h.len() {
        None
    } else {
        Some(h[h.len() - rel])
    }
}

/// The first producer, from position `i` on, of a queue history that carries `tag`.
pub open spec fn spec_first_with_tag_from(h: Seq<(usize, LogicalQueueTag)>, tag: LogicalQueueTag, i: int) -> Option<usize>
    decreases h.len() - i,
{
    if i < 0 || i >= h.len() {
        None
    } else if h[i].1 == tag {
        Some(h[i].0)
    } else {
        spec_first_with_tag_from(h, tag, i + 1)
    }
}

pub open spec fn spec_first_with_tag(h: Seq<(usize, LogicalQueueTag)>, tag: LogicalQueueTag) -> Option<usize> {
    spec_first_with_tag_from(h, tag, 0)
}

/// The micro-op that produced the queue value `tag`.
pub fn logical_tag_producer(
    tag: LogicalQueueTag,
    t_history: &Vec<(usize, LogicalQueueTag)>,
    u_history: &Vec<(usize, LogicalQueueTag)>,
) -> (r: Option<usize>)
    ensures
        r == spec_first_with_tag(
            match tag.kind {
                QueueWakeKind::T => t_history@,
                QueueWakeKind::U => u_history@,
            },
            tag,
        ),
{
    let h = match tag.kind {
        QueueWakeKind::T => t_history,
        QueueWakeKind::U => u_history,
    };
    let ghost hs = match tag.kind {
        QueueWakeKind::T => t_history@,
        QueueWakeKind::U => u_history@,
    };
    assert(h@ == hs);
    let mut i: usize = 0;
    while i < h.len()
        invariant
            i <= h@.len(),
            h@ == hs,
            hs == (match tag.kind {
                QueueWakeKind::T => t_history@,
                QueueWakeKind::U => u_history@,
            }),
            spec_first_with_tag(hs, tag) == spec_first_with_tag_from(hs, tag, i as int),
        decreases h@.len() - i,
    {
        if h[i].1 == tag {
            return Some(h[i].0);
        }
        i += 1;
    }
    None
}

} // verus!

verus! {

// ---------------------------------------------------------------------------
// Building the micro-op list of a run.
// ---------------------------------------------------------------------------

/// The micro-ops before `s` that write the queue `kind`, oldest first.
pub open spec fn kind_producers(
    cs: Seq<CommitRecord>,
    ds: Seq<DecodedView>,
    kind: QueueWakeKind,
    s: int,
) -> Seq<usize>
    decreases s,
{
    if s <= 0 {
        Seq::empty()
    } else {
        let p = kind_producers(cs, ds, kind, s - 1);
        if spec_queue_dst_kind(cs[s - 1], ds[s - 1]) == Some(kind) {
            p.push((s - 1) as usize)
        } else {
            p
        }
    }
}

/// The producers of queue `kind` before `s`, each with its logical tag.
pub open spec fn queue_history(
    cs: Seq<CommitRecord>,
    ds: Seq<DecodedView>,
    kind: QueueWakeKind,
    s: int,
) -> Seq<(usize, LogicalQueueTag)> {
    let p = kind_producers(cs, ds, kind, s);
    Seq::new(p.len(), |i: int| (p[i], LogicalQueueTag { kind, tag: i as usize }))
}

/// The most recent micro-op before `s` that writes register `reg`.
pub open spec fn last_writer(cs: Seq<CommitRecord>, reg: u8, s: int) -> Option<usize>
    decreases s,
{
    if s <= 0 {
        None
    } else if cs[s - 1].wb_valid != 0 && cs[s - 1].wb_rd != 0 && cs[s - 1].wb_rd == reg {
        Some((s - 1) as usize)
    } else {
        last_writer(cs, reg, s - 1)
    }
}

/// The logical queue value that source `idx` of micro-op `s` reads.
pub open spec fn spec_src_tag(cs: Seq<CommitRecord>, ds: Seq<DecodedView>, s: int, idx: int) -> Option<
    LogicalQueueTag,
> {
    match spec_queue_src_kind(cs[s], ds[s], idx) {
        Some(kind) => match spec_queue_src_rel(cs[s], ds[s], idx) {
            Some(rel) => match spec_nth_from_back(queue_history(cs, ds, kind, s), rel) {
                Some(e) => Some(e.1),
                None => None,
            },
            None => None,
        },
        None => None,
    }
}

/// The producer that source `idx` of micro-op `s` depends on: the queue
/// producer it names, or else the last writer of its register.
pub open spec fn spec_dep(cs: Seq<CommitRecord>, ds: Seq<DecodedView>, s: int, idx: int) -> Option<usize> {
    match spec_src_tag(cs, ds, s, idx) {
        Some(t) => Some(kind_producers(cs, ds, t.kind, s)[t.tag as int]),
        None => match spec_src_reg(cs[s], idx) {
            Some(reg) => if reg != 0 {
                last_writer(cs, reg, s)
            } else {
                None
            },
            None => None,
        },
    }
}

/// The logical queue value micro-op `s` writes.
pub open spec fn spec_dst_tag(cs: Seq<CommitRecord>, ds: Seq<DecodedView>, s: int) -> Option<LogicalQueueTag> {
    match spec_queue_dst_kind(cs[s], ds[s]) {
        Some(kind) => Some(LogicalQueueTag { kind, tag: kind_producers(cs, ds, kind, s).len() as usize }),
        None => None,
    }
}

pub open spec fn spec_is_load(c: CommitRecord) -> bool {
    c.mem_valid != 0 && c.mem_is_store == 0
}

pub open spec fn spec_is_store(c: CommitRecord) -> bool {
    c.mem_valid != 0 && c.mem_is_store != 0
}

/// Number of loads before `s`.
pub open spec fn loads_before(cs: Seq<CommitRecord>, s: int) -> nat
    decreases s,
{
    if s <= 0 {
        0
    } else {
        loads_before(cs, s - 1) + if spec_is_load(cs[s - 1]) {
            1nat
        } else {
            0nat
        }
    }
}

/// Number of memory operations before `s`.
pub open spec fn mem_ops_before(cs: Seq<CommitRecord>, s: int) -> nat
    decreases s,
{
    if s <= 0 {
        0
    } else {
        mem_ops_before(cs, s - 1) + if cs[s - 1].mem_valid != 0 {
            1nat
        } else {
            0nat
        }
    }
}

/// Micro-op `u` is the one built for position `s` of the run.
pub open spec fn built_uop(u: CycleUop, cs: Seq<CommitRecord>, ds: Seq<DecodedView>, s: int) -> bool {
    &&& u.decoded@ == ds[s]
    &&& u.commit == cs[s]
    &&& u.deps[0] == spec_dep(cs, ds, s, 0)
    &&& u.deps[1] == spec_dep(cs, ds, s, 1)
    &&& u.src_queue_kinds[0] == spec_queue_src_kind(cs[s], ds[s], 0)
    &&& u.src_queue_kinds[1] == spec_queue_src_kind(cs[s], ds[s], 1)
    &&& u.src_logical_tags[0] == spec_src_tag(cs, ds, s, 0)
    &&& u.src_logical_tags[1] == spec_src_tag(cs, ds, s, 1)
    &&& u.src_qtags[0] is None
    &&& u.src_qtags[1] is None
    &&& u.dst_queue_kind == spec_queue_dst_kind(cs[s], ds[s])
    &&& u.dst_logical_tag == spec_dst_tag(cs, ds, s)
    &&& u.dst_qtag is None
    &&& u.bypass_d2 == spec_d2_bypass(ds[s])
    &&& u.is_load == spec_is_load(cs[s])
    &&& u.is_store == spec_is_store(cs[s])
    &&& u.load_ordinal == (if spec_is_load(cs[s]) {
        Some(loads_before(cs, s) as usize)
    } else {
        None
    })
    &&& u.load_store_id == (if cs[s].mem_valid != 0 {
        Some(mem_ops_before(cs, s) as usize)
    } else {
        None
    })
    &&& !u.miss_injected
    &&& u.redirect_target == spec_architectural_redirect_target(cs[s], ds[s])
    &&& u.phys_iq is None
    &&& u.pick_wakeup_visible is None
    &&& u.data_ready_visible is None
    &&& u.miss_pending_until is None
    &&& u.e1_cycle is None
    &&& u.e4_cycle is None
    &&& u.w1_cycle is None
    &&& u.done_cycle is None
}

pub open spec fn decoded_views(decoded: Seq<DecodedInstruction>) -> Seq<DecodedView> {
    decoded.map_values(|d: DecodedInstruction| d@)
}

/// The register operands of micro-op `s` that the model looks up index a
/// table of 32 registers: the register written, and each source register
/// read when no queue value resolved the source.
#[verifier::opaque]
pub open spec fn registers_at(cs: Seq<CommitRecord>, ds: Seq<DecodedView>, s: int) -> bool {
    &&& (spec_src_tag(cs, ds, s, 0) is None && cs[s].src0_valid != 0 && cs[s].src0_reg != 0 ==> cs[s].src0_reg < 32)
    &&& (spec_src_tag(cs, ds, s, 1) is None && cs[s].src1_valid != 0 && cs[s].src1_reg != 0 ==> cs[s].src1_reg < 32)
    &&& (cs[s].wb_valid != 0 && cs[s].wb_rd != 0 ==> cs[s].wb_rd < 32)
}

/// `registers_at` holds of every micro-op the records describe.
#[verifier::opaque]
pub open spec fn registers_in_range(cs: Seq<CommitRecord>, ds: Seq<DecodedView>) -> bool {
    forall|s: int| 0 <= s < ds.len() && s < cs.len() ==> #[trigger] registers_at(cs, ds, s)
}

proof fn lemma_registers_at(cs: Seq<CommitRecord>, ds: Seq<DecodedView>, s: int)
    requires
        registers_in_range(cs, ds),
        0 <= s < ds.len(),
        s < cs.len(),
    ensures
        spec_src_tag(cs, ds, s, 0) is None && cs[s].src0_valid != 0 && cs[s].src0_reg != 0 ==> cs[s].src0_reg < 32,
        spec_src_tag(cs, ds, s, 1) is None && cs[s].src1_valid != 0 && cs[s].src1_reg != 0 ==> cs[s].src1_reg < 32,
        cs[s].wb_valid != 0 && cs[s].wb_rd != 0 ==> cs[s].wb_rd < 32,
{
    reveal(registers_in_range);
    assert(registers_at(cs, ds, s));
    reveal(registers_at);
}

proof fn lemma_kind_producers_bounds(cs: Seq<CommitRecord>, ds: Seq<DecodedView>, kind: QueueWakeKind, s: int)
    requires
        s >= 0,
    ensures
        kind_producers(cs, ds, kind, s).len() <= s,
        forall|i: int|
            0 <= i < kind_producers(cs, ds, kind, s).len() ==> (#[trigger] kind_producers(
                cs,
                ds,
                kind,
                s,
            )[i] as int) < s,
    decreases s,
{
    if s > 0 {
        lemma_kind_producers_bounds(cs, ds, kind, s - 1);
    }
}

proof fn lemma_last_writer_bound(cs: Seq<CommitRecord>, reg: u8, s: int)
    ensures
        last_writer(cs, reg, s) matches Some(p) ==> (p as int) < s,
    decreases s,
{
    if s > 0 {
        lemma_last_writer_bound(cs, reg, s - 1);
    }
}

proof fn lemma_counts_bound(cs: Seq<CommitRecord>, s: int)
    requires
        s >= 0,
    ensures
        loads_before(cs, s) <= s,
        mem_ops_before(cs, s) <= s,
    decreases s,
{
    if s > 0 {
        lemma_counts_bound(cs, s - 1);
    }
}

/// Whether the records meet what `build_uops` needs of their register
/// operands (`registers_in_range`).
pub fn registers_fit(commits: &Vec<CommitRecord>, decoded: &Vec<DecodedInstruction>) -> (r: bool)
    ensures
        r == registers_in_range(commits@, decoded_views(decoded@)),
{
    let ghost cs = commits@;
    let ghost ds = decoded_views(decoded@);
    let n: usize = if commits.len() < decoded.len() {
        commits.len()
    } else {
        decoded.len()
    };
    let mut t_history: Vec<(usize, LogicalQueueTag)> = Vec::new();
    let mut u_history: Vec<(usize, LogicalQueueTag)> = Vec::new();
    let mut next_t_tag: usize = 0;
    let mut next_u_tag: usize = 0;
    let mut seq: usize = 0;
    assert(t_history@ =~= queue_history(cs, ds, QueueWakeKind::T, 0));
    assert(u_history@ =~= queue_history(cs, ds, QueueWakeKind::U, 0));
    while seq < n
        invariant
            cs == commits@,
            ds == decoded_views(decoded@),
            ds.len() == decoded@.len(),
            n <= cs.len(),
            n <= ds.len(),
            n == cs.len() || n == ds.len(),
            seq <= n,
            forall|p: int| 0 <= p < seq ==> #[trigger] registers_at(cs, ds, p),
            t_history@ == queue_history(cs, ds, QueueWakeKind::T, seq as int),
            u_history@ == queue_history(cs, ds, QueueWakeKind::U, seq as int),
            next_t_tag == kind_producers(cs, ds, QueueWakeKind::T, seq as int).len(),
            next_u_tag == kind_producers(cs, ds, QueueWakeKind::U, seq as int).len(),
        decreases n - seq,
    {
        let commit = &commits[seq];
        let dec = &decoded[seq];
        proof {
            lemma_kind_producers_bounds(cs, ds, QueueWakeKind::T, seq as int);
            lemma_kind_producers_bounds(cs, ds, QueueWakeKind::U, seq as int);
            assert(ds[seq as int] == dec@);
        }
        let tag0 = source_tag(commit, dec, 0, &t_history, &u_history, Ghost(cs), Ghost(ds), Ghost(seq as int));
        let tag1 = source_tag(commit, dec, 1, &t_history, &u_history, Ghost(cs), Ghost(ds), Ghost(seq as int));
        let bad0 = tag0.is_none() && commit.src0_valid != 0 && commit.src0_reg != 0 && commit.src0_reg >= 32;
        let bad1 = tag1.is_none() && commit.src1_valid != 0 && commit.src1_reg != 0 && commit.src1_reg >= 32;
        let bad_wb = commit.wb_valid != 0 && commit.wb_rd != 0 && commit.wb_rd >= 32;
        if bad0 || bad1 || bad_wb {
            proof {
                reveal(registers_in_range);
                assert(!registers_at(cs, ds, seq as int)) by {
                    reveal(registers_at);
                }
            }
            return false;
        }
        assert(registers_at(cs, ds, seq as int)) by {
            reveal(registers_at);
        }
        let dst_kind = queue_dst_kind(commit, dec);
        let allocated = allocate_logical_queue_tag(dst_kind, &mut next_t_tag, &mut next_u_tag);
        if let Some(tag) = allocated {
            match tag.kind {
                QueueWakeKind::T => t_history.push((seq, tag)),
                QueueWakeKind::U => u_history.push((seq, tag)),
            }
        }
        proof {
            lemma_history_step(cs, ds, QueueWakeKind::T, seq as int);
            lemma_history_step(cs, ds, QueueWakeKind::U, seq as int);
        }
        seq += 1;
    }
    proof {
        reveal(registers_in_range);
    }
    true
}

/// Builds the micro-op list of a run from its commit stream and the decoded
/// instructions, resolving register and queue dependencies.
pub fn build_uops(commits: &Vec<CommitRecord>, decoded: &Vec<DecodedInstruction>) -> (r: Vec<CycleUop>)
    requires
        registers_in_range(commits@, decoded_views(decoded@)),
    ensures
        r@.len() == (if commits@.len() < decoded@.len() {
            commits@.len()
        } else {
            decoded@.len()
        }),
        forall|s: int| 0 <= s < r@.len() ==> built_uop(#[trigger] r@[s], commits@, decoded_views(decoded@), s),
        uops_wf(r@),
        forall|s: int| 0 <= s < r@.len() ==> ((#[trigger] r@[s]).load_store_id matches Some(id) ==> id <= s),
{
    let ghost cs = commits@;
    let ghost ds = decoded_views(decoded@);
    let n: usize = if commits.len() < decoded.len() {
        commits.len()
    } else {
        decoded.len()
    };
    let mut last_writer_table: Vec<Option<usize>> = Vec::new();
    while last_writer_table.len() < 32
        invariant
            last_writer_table@.len() <= 32,
            forall|r: int| 0 <= r < last_writer_table@.len() ==> last_writer_table@[r] is None,
        decreases 32 - last_writer_table@.len(),
    {
        last_writer_table.push(None);
    }
    let mut t_history: Vec<(usize, LogicalQueueTag)> = Vec::new();
    let mut u_history: Vec<(usize, LogicalQueueTag)> = Vec::new();
    let mut next_t_tag: usize = 0;
    let mut next_u_tag: usize = 0;
    let mut load_ordinal: usize = 0;
    let mut load_store_id: usize = 0;
    let mut out: Vec<CycleUop> = Vec::new();
    let mut seq: usize = 0;
    assert(t_history@ =~= queue_history(cs, ds, QueueWakeKind::T, 0));
    assert(u_history@ =~= queue_history(cs, ds, QueueWakeKind::U, 0));
    while seq < n
        invariant
            cs == commits@,
            ds == decoded_views(decoded@),
            ds.len() == decoded@.len(),
            n <= cs.len(),
            n <= ds.len(),
            n == cs.len() || n == ds.len(),
            seq <= n,
            registers_in_range(cs, ds),
            out@.len() == seq,
            forall|p: int| 0 <= p < seq ==> built_uop(#[trigger] out@[p], cs, ds, p),
            forall|p: int| 0 <= p < seq ==> uop_wf_at(#[trigger] out@[p], p),
            t_history@ == queue_history(cs, ds, QueueWakeKind::T, seq as int),
            u_history@ == queue_history(cs, ds, QueueWakeKind::U, seq as int),
            next_t_tag == kind_producers(cs, ds, QueueWakeKind::T, seq as int).len(),
            next_u_tag == kind_producers(cs, ds, QueueWakeKind::U, seq as int).len(),
            last_writer_table@.len() == 32,
            forall|r: int| 1 <= r < 32 ==> last_writer_table@[r] == last_writer(cs, r as u8, seq as int),
            load_ordinal == loads_before(cs, seq as int),
            load_store_id == mem_ops_before(cs, seq as int),
        decreases n - seq,
    {
        let commit = &commits[seq];
        let dec = &decoded[seq];
        proof {
            lemma_kind_producers_bounds(cs, ds, QueueWakeKind::T, seq as int);
            lemma_kind_producers_bounds(cs, ds, QueueWakeKind::U, seq as int);
            lemma_counts_bound(cs, seq as int);
            lemma_registers_at(cs, ds, seq as int);
            assert(ds[seq as int] == dec@);
        }
        let uop = uop_for(
            commit,
            dec,
            seq,
            &t_history,
            &u_history,
            &last_writer_table,
            next_t_tag,
            next_u_tag,
            load_ordinal,
            load_store_id,
            Ghost(cs),
            Ghost(ds),
        );
        let dst_logical_tag = uop.dst_logical_tag;
        if uop.is_load {
            load_ordinal += 1;
        }
        if uop.is_load || uop.is_store {
            load_store_id += 1;
        }
        let allocated = allocate_logical_queue_tag(uop.dst_queue_kind, &mut next_t_tag, &mut next_u_tag);
        assert(allocated == dst_logical_tag);
        let ghost prev_out = out@;
        out.push(uop);
        if commit.wb_valid != 0 && commit.wb_rd != 0 {
            last_writer_table.set(commit.wb_rd as usize, Some(seq));
        }
        if let Some(tag) = dst_logical_tag {
            match tag.kind {
                QueueWakeKind::T => t_history.push((seq, tag)),
                QueueWakeKind::U => u_history.push((seq, tag)),
            }
        }
        proof {
            let s1 = (seq + 1) as int;
            lemma_history_step(cs, ds, QueueWakeKind::T, seq as int);
            lemma_history_step(cs, ds, QueueWakeKind::U, seq as int);
            assert(forall|p: int| 0 <= p < seq ==> out@[p] == prev_out[p]);
        }
        seq += 1;
    }
    proof {
        assert forall|s: int| 0 <= s < out@.len() implies ((#[trigger] out@[s]).load_store_id matches Some(id) ==> id <= s) by {
            lemma_counts_bound(cs, s);
        }
    }
    out
}

proof fn lemma_mem_ops_grow(cs: Seq<CommitRecord>, s: int, t: int)
    requires
        0 <= s < t,
        cs[s].mem_valid != 0,
    ensures
        mem_ops_before(cs, s) < mem_ops_before(cs, t),
    decreases t - s,
{
    if t > s + 1 {
        lemma_mem_ops_grow(cs, s, t - 1);
    }
}

/// Law: the load/store ids `build_uops` hands out grow strictly in program
/// order: of two memory operations, the older has the smaller id.
pub proof fn law_load_store_ids_increase(
    u: Seq<CycleUop>,
    cs: Seq<CommitRecord>,
    ds: Seq<DecodedView>,
    s: int,
    t: int,
)
    requires
        0 <= s < t < cs.len(),
        cs.len() <= usize::MAX,
        built_uop(u[s], cs, ds, s),
        built_uop(u[t], cs, ds, t),
        u[s].load_store_id is Some,
        u[t].load_store_id is Some,
    ensures
        u[s].load_store_id->0 < u[t].load_store_id->0,
{
    lemma_mem_ops_grow(cs, s, t);
    lemma_counts_bound(cs, t);
}

spec fn uop_wf_at(u: CycleUop, s: int) -> bool {
    crate::model::uop_wf(u, s)
}

proof fn lemma_history_step(cs: Seq<CommitRecord>, ds: Seq<DecodedView>, kind: QueueWakeKind, s: int)
    requires
        0 <= s,
    ensures
        queue_history(cs, ds, kind, s + 1) == (if spec_queue_dst_kind(cs[s], ds[s]) == Some(kind) {
            queue_history(cs, ds, kind, s).push(
                (s as usize, LogicalQueueTag { kind, tag: kind_producers(cs, ds, kind, s).len() as usize }),
            )
        } else {
            queue_history(cs, ds, kind, s)
        }),
{
    let a = queue_history(cs, ds, kind, s + 1);
    let b = queue_history(cs, ds, kind, s);
    if spec_queue_dst_kind(cs[s], ds[s]) == Some(kind) {
        assert(a =~= b.push(
            (s as usize, LogicalQueueTag { kind, tag: kind_producers(cs, ds, kind, s).len() as usize }),
        ));
    } else {
        assert(a =~= b);
    }
}

/// The micro-op for position `s`, given the bookkeeping of the positions before it.
fn uop_for(
    commit: &CommitRecord,
    dec: &DecodedInstruction,
    seq: usize,
    t_history: &Vec<(usize, LogicalQueueTag)>,
    u_history: &Vec<(usize, LogicalQueueTag)>,
    last_writer_table: &Vec<Option<usize>>,
    next_t_tag: usize,
    next_u_tag: usize,
    load_ordinal: usize,
    load_store_id: usize,
    Ghost(cs): Ghost<Seq<CommitRecord>>,
    Ghost(ds): Ghost<Seq<DecodedView>>,
) -> (u: CycleUop)
    requires
        seq < cs.len(),
        seq < ds.len(),
        cs[seq as int] == *commit,
        ds[seq as int] == dec@,
        registers_in_range(cs, ds),
        t_history@ == queue_history(cs, ds, QueueWakeKind::T, seq as int),
        u_history@ == queue_history(cs, ds, QueueWakeKind::U, seq as int),
        next_t_tag == kind_producers(cs, ds, QueueWakeKind::T, seq as int).len(),
        next_u_tag == kind_producers(cs, ds, QueueWakeKind::U, seq as int).len(),
        last_writer_table@.len() == 32,
        forall|r: int| 1 <= r < 32 ==> last_writer_table@[r] == last_writer(cs, r as u8, seq as int),
        load_ordinal == loads_before(cs, seq as int),
        load_store_id == mem_ops_before(cs, seq as int),
    ensures
        built_uop(u, cs, ds, seq as int),
        crate::model::uop_wf(u, seq as int),
{
    let src_kinds = [queue_src_kind(commit, dec, 0), queue_src_kind(commit, dec, 1)];
    let src_tag0 = source_tag(commit, dec, 0, t_history, u_history, Ghost(cs), Ghost(ds), Ghost(seq as int));
    let src_tag1 = source_tag(commit, dec, 1, t_history, u_history, Ghost(cs), Ghost(ds), Ghost(seq as int));
    let dep0 = source_dep(commit, 0, src_tag0, t_history, u_history, last_writer_table, Ghost(cs), Ghost(ds), Ghost(seq as int));
    let dep1 = source_dep(commit, 1, src_tag1, t_history, u_history, last_writer_table, Ghost(cs), Ghost(ds), Ghost(seq as int));
    let dst_kind = queue_dst_kind(commit, dec);
    let dst_logical_tag = match dst_kind {
        Some(QueueWakeKind::T) => Some(LogicalQueueTag { kind: QueueWakeKind::T, tag: next_t_tag }),
        Some(QueueWakeKind::U) => Some(LogicalQueueTag { kind: QueueWakeKind::U, tag: next_u_tag }),
        None => None,
    };
    let is_load = commit.mem_valid != 0 && commit.mem_is_store == 0;
    let is_store = commit.mem_valid != 0 && commit.mem_is_store != 0;
    CycleUop {
        bypass_d2: d2_bypass(dec),
        src_queue_kinds: src_kinds,
        src_logical_tags: [src_tag0, src_tag1],
        src_qtags: [None, None],
        dst_queue_kind: dst_kind,
        dst_logical_tag,
        dst_qtag: None,
        is_load,
        is_store,
        load_ordinal: if is_load {
            Some(load_ordinal)
        } else {
            None
        },
        load_store_id: if is_load || is_store {
            Some(load_store_id)
        } else {
            None
        },
        miss_injected: false,
        decoded: dec.clone(),
        commit: *commit,
        deps: [dep0, dep1],
        phys_iq: None,
        pick_wakeup_visible: None,
        data_ready_visible: None,
        miss_pending_until: None,
        redirect_target: architectural_redirect_target(commit, dec),
        e1_cycle: None,
        e4_cycle: None,
        w1_cycle: None,
        done_cycle: None,
    }
}

/// The logical queue value that source `idx` reads, resolved against the
/// producers seen so far.
fn source_tag(
    commit: &CommitRecord,
    dec: &DecodedInstruction,
    idx: usize,
    t_history: &Vec<(usize, LogicalQueueTag)>,
    u_history: &Vec<(usize, LogicalQueueTag)>,
    Ghost(cs): Ghost<Seq<CommitRecord>>,
    Ghost(ds): Ghost<Seq<DecodedView>>,
    Ghost(s): Ghost<int>,
) -> (r: Option<LogicalQueueTag>)
    requires
        0 <= s < cs.len(),
        s < ds.len(),
        cs[s] == *commit,
        ds[s] == dec@,
        idx < 2,
        t_history@ == queue_history(cs, ds, QueueWakeKind::T, s),
        u_history@ == queue_history(cs, ds, QueueWakeKind::U, s),
    ensures
        r == spec_src_tag(cs, ds, s, idx as int),
{
    let kind = queue_src_kind(commit, dec, idx);
    match kind {
        Some(k) => match queue_src_rel(commit, dec, idx) {
            Some(rel) => match resolve_logical_queue_src(k, rel, t_history, u_history) {
                Some(e) => Some(e.1),
                None => None,
            },
            None => None,
        },
        None => None,
    }
}

pub open spec fn tagged_history(p: Seq<usize>, kind: QueueWakeKind) -> Seq<(usize, LogicalQueueTag)> {
    Seq::new(p.len(), |i: int| (p[i], LogicalQueueTag { kind, tag: i as usize }))
}

proof fn lemma_history_tag_from(p: Seq<usize>, kind: QueueWakeKind, i: int, j: int)
    requires
        0 <= i <= j < p.len(),
        j <= usize::MAX,
    ensures
        spec_first_with_tag_from(tagged_history(p, kind), LogicalQueueTag { kind, tag: j as usize }, i)
            == Some(p[j]),
    decreases j - i,
{
    if i < j {
        lemma_history_tag_from(p, kind, i + 1, j);
    }
}

/// The producer that source `idx` depends on.
fn source_dep(
    commit: &CommitRecord,
    idx: usize,
    tag: Option<LogicalQueueTag>,
    t_history: &Vec<(usize, LogicalQueueTag)>,
    u_history: &Vec<(usize, LogicalQueueTag)>,
    last_writer_table: &Vec<Option<usize>>,
    Ghost(cs): Ghost<Seq<CommitRecord>>,
    Ghost(ds): Ghost<Seq<DecodedView>>,
    Ghost(s): Ghost<int>,
) -> (r: Option<usize>)
    requires
        0 <= s < cs.len(),
        s < ds.len(),
        s <= usize::MAX,
        cs[s] == *commit,
        idx < 2,
        tag == spec_src_tag(cs, ds, s, idx as int),
        registers_in_range(cs, ds),
        t_history@ == queue_history(cs, ds, QueueWakeKind::T, s),
        u_history@ == queue_history(cs, ds, QueueWakeKind::U, s),
        last_writer_table@.len() == 32,
        forall|r: int| 1 <= r < 32 ==> last_writer_table@[r] == last_writer(cs, r as u8, s),
    ensures
        r == spec_dep(cs, ds, s, idx as int),
        r matches Some(p) ==> (p as int) < s,
{
    proof {
        lemma_registers_at(cs, ds, s);
    }
    if let Some(t) = tag {
        proof {
            let k = spec_queue_src_kind(cs[s], ds[s], idx as int)->0;
            let rel = spec_queue_src_rel(cs[s], ds[s], idx as int)->0;
            let pk = kind_producers(cs, ds, k, s);
            let h = queue_history(cs, ds, k, s);
            assert(h == tagged_history(pk, k));
            let j = h.len() - rel;
            lemma_kind_producers_bounds(cs, ds, k, s);
            assert(t == LogicalQueueTag { kind: k, tag: j as usize });
            lemma_history_tag_from(pk, k, 0, j);
            lemma_kind_producers_bounds(cs, ds, k, s);
            assert(pk[j] < s);
        }
        let p = logical_tag_producer(t, t_history, u_history);
        if p.is_some() {
            return p;
        }
    }
    let (valid, reg) = if idx == 0 {
        (commit.src0_valid != 0, commit.src0_reg)
    } else {
        (commit.src1_valid != 0, commit.src1_reg)
    };
    proof {
        lemma_last_writer_bound(cs, reg, s);
    }
    if valid && reg != 0 {
        last_writer_table[reg as usize]
    } else {
        None
    }
}

} // verus!

verus! {

proof fn lemma_last_writer_is_latest(cs: Seq<CommitRecord>, reg: u8, s: int)
    requires
        0 <= s <= cs.len(),
        s <= usize::MAX,
    ensures
        last_writer(cs, reg, s) is Some <==> exists|p: int|
            0 <= p < s && (#[trigger] cs[p]).wb_valid != 0 && cs[p].wb_rd != 0 && cs[p].wb_rd == reg,
        last_writer(cs, reg, s) matches Some(p) ==> {
            &&& (p as int) < s
            &&& reg != 0
            &&& cs[p as int].wb_valid != 0 && cs[p as int].wb_rd == reg
            &&& forall|q: int| p < q < s ==> !((#[trigger] cs[q]).wb_valid != 0 && cs[q].wb_rd == reg)
        },
    decreases s,
{
    if s > 0 {
        lemma_last_writer_is_latest(cs, reg, s - 1);
        if !(cs[s - 1].wb_valid != 0 && cs[s - 1].wb_rd != 0 && cs[s - 1].wb_rd == reg) {
            assert(last_writer(cs, reg, s) == last_writer(cs, reg, s - 1));
            if let Some(p) = last_writer(cs, reg, s - 1) {
                assert forall|q: int| p < q < s implies !((#[trigger] cs[q]).wb_valid != 0 && cs[q].wb_rd == reg) by {
                    if q < s - 1 {
                    } else {
                        assert(q == s - 1);
                    }
                }
            }
            if exists|p: int| 0 <= p < s && (#[trigger] cs[p]).wb_valid != 0 && cs[p].wb_rd != 0 && cs[p].wb_rd == reg {
                let p = choose|p: int| 0 <= p < s && (#[trigger] cs[p]).wb_valid != 0 && cs[p].wb_rd != 0 && cs[p].wb_rd == reg;
                assert(p < s - 1);
            }
        }
    }
}

/// Law: a register source of a built micro-op that reads no queue value
/// depends on the latest earlier commit that writes that register (any
/// commit with a register write, loads included), and on nothing when no
/// earlier commit writes it, when the source is register zero, or when the
/// micro-op has no such source.
pub proof fn law_register_sources_wait_for_latest_writer(
    u: CycleUop,
    cs: Seq<CommitRecord>,
    ds: Seq<DecodedView>,
    s: int,
)
    requires
        0 <= s < cs.len(),
        s < ds.len(),
        cs.len() <= usize::MAX,
        built_uop(u, cs, ds, s),
    ensures
        cs[s].src0_valid == 0 ==> u.deps[0] is None,
        cs[s].src1_valid == 0 ==> u.deps[1] is None,
        cs[s].src0_valid != 0 && cs[s].src0_reg == 0 && spec_src_tag(cs, ds, s, 0) is None ==> u.deps[0] is None,
        cs[s].src1_valid != 0 && cs[s].src1_reg == 0 && spec_src_tag(cs, ds, s, 1) is None ==> u.deps[1] is None,
        cs[s].src0_valid != 0 && cs[s].src0_reg != 0 && spec_src_tag(cs, ds, s, 0) is None ==> {
            let reg = cs[s].src0_reg;
            &&& (u.deps[0] is Some <==> exists|p: int|
                0 <= p < s && (#[trigger] cs[p]).wb_valid != 0 && cs[p].wb_rd == reg)
            &&& (u.deps[0] matches Some(p) ==> {
                &&& (p as int) < s
                &&& cs[p as int].wb_valid != 0 && cs[p as int].wb_rd == reg
                &&& forall|q: int| p < q < s ==> !((#[trigger] cs[q]).wb_valid != 0 && cs[q].wb_rd == reg)
            })
        },
        cs[s].src1_valid != 0 && cs[s].src1_reg != 0 && spec_src_tag(cs, ds, s, 1) is None ==> {
            let reg = cs[s].src1_reg;
            &&& (u.deps[1] is Some <==> exists|p: int|
                0 <= p < s && (#[trigger] cs[p]).wb_valid != 0 && cs[p].wb_rd == reg)
            &&& (u.deps[1] matches Some(p) ==> {
                &&& (p as int) < s
                &&& cs[p as int].wb_valid != 0 && cs[p as int].wb_rd == reg
                &&& forall|q: int| p < q < s ==> !((#[trigger] cs[q]).wb_valid != 0 && cs[q].wb_rd == reg)
            })
        },
{
    lemma_last_writer_is_latest(cs, cs[s].src0_reg, s);
    lemma_last_writer_is_latest(cs, cs[s].src1_reg, s);
}

} // verus!

verus! {

proof fn lemma_mem_ops_flat(cs: Seq<CommitRecord>, a: int, b: int)
    requires
        0 <= a <= b,
        forall|q: int| a <= q < b ==> (#[trigger] cs[q]).mem_valid == 0,
    ensures
        mem_ops_before(cs, b) == mem_ops_before(cs, a),
    decreases b - a,
{
    if a < b {
        lemma_mem_ops_flat(cs, a, b - 1);
    }
}

proof fn lemma_loads_flat(cs: Seq<CommitRecord>, a: int, b: int)
    requires
        0 <= a <= b,
        forall|q: int| a <= q < b ==> !((#[trigger] cs[q]).mem_valid != 0 && cs[q].mem_is_store == 0),
    ensures
        loads_before(cs, b) == loads_before(cs, a),
    decreases b - a,
{
    if a < b {
        lemma_loads_flat(cs, a, b - 1);
    }
}

/// Law: a built micro-op is a load exactly when its commit accesses memory
/// without storing, and a store when it stores; exactly the memory
/// operations get a load/store id and exactly the loads a load ordinal.
pub proof fn law_memory_kinds_follow_commits(u: CycleUop, cs: Seq<CommitRecord>, ds: Seq<DecodedView>, s: int)
    requires
        0 <= s < cs.len(),
        built_uop(u, cs, ds, s),
    ensures
        u.commit == cs[s],
        u.is_load <==> (cs[s].mem_valid != 0 && cs[s].mem_is_store == 0),
        u.is_store <==> (cs[s].mem_valid != 0 && cs[s].mem_is_store != 0),
        u.load_store_id is Some <==> cs[s].mem_valid != 0,
        u.load_ordinal is Some <==> (cs[s].mem_valid != 0 && cs[s].mem_is_store == 0),
{
}

proof fn lemma_ids_of(u: CycleUop, cs: Seq<CommitRecord>, ds: Seq<DecodedView>, s: int)
    requires
        0 <= s < cs.len(),
        built_uop(u, cs, ds, s),
    ensures
        u.load_store_id == (if cs[s].mem_valid != 0 { Some(mem_ops_before(cs, s) as usize) } else { None }),
        u.load_ordinal == (if cs[s].mem_valid != 0 && cs[s].mem_is_store == 0 {
            Some(loads_before(cs, s) as usize)
        } else {
            None
        }),
{
}

/// Law: load/store ids are handed out densely in program order: the first
/// memory operation gets id 0, and each next one the id after the one
/// before it.
pub proof fn law_load_store_ids_are_dense(us: CycleUop, ut: CycleUop, cs: Seq<CommitRecord>, ds: Seq<DecodedView>, s: int, t: int)
    requires
        0 <= s < t < cs.len(),
        cs.len() <= usize::MAX,
        built_uop(us, cs, ds, s),
        built_uop(ut, cs, ds, t),
    ensures
        (forall|q: int| 0 <= q < t ==> (#[trigger] cs[q]).mem_valid == 0) && cs[t].mem_valid != 0
            ==> ut.load_store_id == Some(0usize),
        cs[s].mem_valid != 0 && cs[t].mem_valid != 0 && (forall|q: int| s < q < t ==> (#[trigger] cs[q]).mem_valid == 0)
            ==> ut.load_store_id->0 == us.load_store_id->0 + 1,
{
    lemma_ids_of(us, cs, ds, s);
    lemma_ids_of(ut, cs, ds, t);
    lemma_counts_bound(cs, t);
    lemma_counts_bound(cs, s + 1);
    if forall|q: int| 0 <= q < t ==> (#[trigger] cs[q]).mem_valid == 0 {
        lemma_mem_ops_flat(cs, 0, t);
    }
    if forall|q: int| s < q < t ==> (#[trigger] cs[q]).mem_valid == 0 {
        lemma_mem_ops_flat(cs, s + 1, t);
    }
}

/// Law: load ordinals count the loads densely in program order: the first
/// load gets ordinal 0, and each next load the ordinal after the one before
/// it.
pub proof fn law_load_ordinals_are_dense(us: CycleUop, ut: CycleUop, cs: Seq<CommitRecord>, ds: Seq<DecodedView>, s: int, t: int)
    requires
        0 <= s < t < cs.len(),
        cs.len() <= usize::MAX,
        built_uop(us, cs, ds, s),
        built_uop(ut, cs, ds, t),
    ensures
        (forall|q: int| 0 <= q < t ==> !((#[trigger] cs[q]).mem_valid != 0 && cs[q].mem_is_store == 0))
            && cs[t].mem_valid != 0 && cs[t].mem_is_store == 0 ==> ut.load_ordinal == Some(0usize),
        (cs[s].mem_valid != 0 && cs[s].mem_is_store == 0) && (cs[t].mem_valid != 0 && cs[t].mem_is_store == 0)
            && (forall|q: int| s < q < t ==> !((#[trigger] cs[q]).mem_valid != 0 && cs[q].mem_is_store == 0))
            ==> ut.load_ordinal->0 == us.load_ordinal->0 + 1,
{
    lemma_ids_of(us, cs, ds, s);
    lemma_ids_of(ut, cs, ds, t);
    lemma_counts_bound(cs, t);
    lemma_counts_bound(cs, s + 1);
    if forall|q: int| 0 <= q < t ==> !((#[trigger] cs[q]).mem_valid != 0 && cs[q].mem_is_store == 0) {
        lemma_loads_flat(cs, 0, t);
    }
    if forall|q: int| s < q < t ==> !((#[trigger] cs[q]).mem_valid != 0 && cs[q].mem_is_store == 0) {
        lemma_loads_flat(cs, s + 1, t);
    }
}

} // verus!
