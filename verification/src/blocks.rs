use vstd::prelude::*;
use crate::config::FETCH_WIDTH;
use crate::decode::{
    is_bstart, is_bstop, is_legal_redirect_restart, is_macro_boundary, is_start_marker,
    spec_is_bstart, spec_is_bstop, spec_is_macro_boundary, spec_is_start_marker,
};
use crate::model::CycleUop;

verus! {

// ---------------------------------------------------------------------------
// Fetch packets: up to FETCH_WIDTH consecutive micro-ops, ending early at a
// micro-op that redirects.
// ---------------------------------------------------------------------------

/// The last position of the packet that starts at `head`, scanning from `e`.
pub open spec fn packet_end_from(uops: Seq<CycleUop>, head: int, e: int) -> int
    decreases uops.len() - e,
{
    if e + 1 < uops.len() && e - head + 1 < FETCH_WIDTH && uops[e].redirect_target is None {
        packet_end_from(uops, head, e + 1)
    } else {
        e
    }
}

pub open spec fn packet_end(uops: Seq<CycleUop>, head: int) -> int {
    packet_end_from(uops, head, head)
}

/// The head of the fetch packet holding `seq`, scanning packets from `head`.
pub open spec fn packet_head_from(uops: Seq<CycleUop>, head: int, seq: int) -> Option<int>
    decreases uops.len() - head,
{
    if head < 0 || head >= uops.len() {
        None
    } else {
        let e = packet_end(uops, head);
        if head <= seq && seq <= e {
            Some(head)
        } else if head < e + 1 && e < uops.len() {
            packet_head_from(uops, e + 1, seq)
        } else {
            None
        }
    }
}

pub open spec fn spec_fetch_packet_head(uops: Seq<CycleUop>, seq: int) -> Option<int> {
    packet_head_from(uops, 0, seq)
}

proof fn lemma_packet_end_bounds(uops: Seq<CycleUop>, head: int, e: int)
    requires
        0 <= head <= e < uops.len(),
    ensures
        e <= packet_end_from(uops, head, e) < uops.len(),
    decreases uops.len() - e,
{
    if e + 1 < uops.len() && e - head + 1 < FETCH_WIDTH && uops[e].redirect_target is None {
        lemma_packet_end_bounds(uops, head, e + 1);
    }
}

proof fn lemma_packet_end_width(uops: Seq<CycleUop>, head: int, e: int)
    requires
        0 <= head <= e,
        e - head < FETCH_WIDTH,
    ensures
        packet_end_from(uops, head, e) - head < FETCH_WIDTH,
        e <= packet_end_from(uops, head, e),
    decreases uops.len() - e,
{
    if e + 1 < uops.len() && e - head + 1 < FETCH_WIDTH && uops[e].redirect_target is None {
        lemma_packet_end_width(uops, head, e + 1);
    }
}

proof fn lemma_packet_head_from(uops: Seq<CycleUop>, head: int, seq: int)
    ensures
        packet_head_from(uops, head, seq) matches Some(h) ==> h <= seq && seq < h + FETCH_WIDTH && 0 <= h < uops.len(),
    decreases uops.len() - head,
{
    if 0 <= head < uops.len() {
        let e = packet_end(uops, head);
        lemma_packet_end_width(uops, head, head);
        if !(head <= seq && seq <= e) && head < e + 1 && e < uops.len() {
            lemma_packet_head_from(uops, e + 1, seq);
        }
    }
}

fn packet_end_exec(uops: &Vec<CycleUop>, head: usize) -> (e: usize)
    requires
        head < uops@.len(),
    ensures
        e == packet_end(uops@, head as int),
        head <= e < uops@.len(),
{
    proof {
        lemma_packet_end_bounds(uops@, head as int, head as int);
    }
    let len = uops.len();
    let mut end = head;
    while end + 1 < len && (end - head + 1) < FETCH_WIDTH
        invariant
            len == uops@.len(),
            head <= end < uops@.len(),
            packet_end_from(uops@, head as int, end as int) == packet_end(uops@, head as int),
        ensures
            head <= end < uops@.len(),
            packet_end_from(uops@, head as int, end as int) == end,
            packet_end_from(uops@, head as int, end as int) == packet_end(uops@, head as int),
        decreases uops@.len() - end,
    {
        if uops[end].redirect_target.is_some() {
            break;
        }
        end += 1;
    }
    end
}

/// The first micro-op of the fetch packet that holds `seq`.
pub fn fetch_packet_head_seq(seq: usize, uops: &Vec<CycleUop>) -> (r: Option<usize>)
    ensures
        r matches Some(h) ==> spec_fetch_packet_head(uops@, seq as int) == Some(h as int),
        r is None ==> spec_fetch_packet_head(uops@, seq as int) is None,
        r matches Some(h) ==> h <= seq && seq < h + FETCH_WIDTH && h < uops@.len(),
{
    let mut head: usize = 0;
    proof {
        lemma_packet_head_from(uops@, 0, seq as int);
    }
    while head < uops.len()
        invariant
            packet_head_from(uops@, head as int, seq as int) == spec_fetch_packet_head(uops@, seq as int),
        decreases uops@.len() - head,
    {
        let end = packet_end_exec(uops, head);
        if seq >= head && seq <= end {
            proof {
                lemma_packet_head_from(uops@, head as int, seq as int);
            }
            return Some(head);
        }
        head = end + 1;
    }
    None
}

fn packet_slot_for_seq(seq: usize, uops: &Vec<CycleUop>) -> (r: Option<usize>)
    ensures
        r == (match spec_fetch_packet_head(uops@, seq as int) {
            Some(h) => Some((seq - h) as usize),
            None => None::<usize>,
        }),
        r matches Some(s) ==> s < FETCH_WIDTH,
{
    let head = fetch_packet_head_seq(seq, uops)?;
    Some(seq - head)
}

pub open spec fn spec_packet_checkpoint_id(pc: u64) -> u8 {
    ((pc >> 2u64) & 0x3fu64) as u8
}

/// The recovery checkpoint id of a fetch packet, from the pc of its head.
pub fn packet_checkpoint_id(packet_head_pc: u64) -> (r: u8)
    ensures
        r == spec_packet_checkpoint_id(packet_head_pc),
        r < 64,
{
    let v = (packet_head_pc >> 2) & 0x3f;
    assert(v < 64) by (bit_vector)
        requires
            v == (packet_head_pc >> 2u64) & 0x3fu64,
    ;
    v as u8
}

pub open spec fn spec_checkpoint_id_for_seq(uops: Seq<CycleUop>, seq: int) -> u8 {
    match spec_fetch_packet_head(uops, seq) {
        Some(h) => spec_packet_checkpoint_id(uops[h].commit.pc),
        None => 0,
    }
}

/// The checkpoint id of the packet that `seq` is fetched in.
pub fn checkpoint_id_for_seq(seq: usize, uops: &Vec<CycleUop>) -> (r: u8)
    ensures
        r == spec_checkpoint_id_for_seq(uops@, seq as int),
        r < 64,
{
    let Some(packet_head_seq) = fetch_packet_head_seq(seq, uops) else {
        return 0;
    };
    packet_checkpoint_id(uops[packet_head_seq].commit.pc)
}

pub open spec fn spec_rob_checkpoint_id_for_seq(uops: Seq<CycleUop>, seq: int) -> u8 {
    if !spec_is_start_marker(uops[seq].decoded@.mnemonic) {
        0
    } else {
        let slot: u8 = match spec_fetch_packet_head(uops, seq) {
            Some(h) => (seq - h) as u8,
            None => 0,
        };
        ((spec_checkpoint_id_for_seq(uops, seq) as int + slot as int) % 64) as u8
    }
}

/// The checkpoint id a block-start marker allocates: its packet's id offset by
/// its slot in the packet.
pub fn rob_checkpoint_id_for_seq(seq: usize, uops: &Vec<CycleUop>) -> (r: u8)
    requires
        seq < uops@.len(),
    ensures
        r == spec_rob_checkpoint_id_for_seq(uops@, seq as int),
        r < 64,
{
    if !is_start_marker(&uops[seq].decoded) {
        return 0;
    }
    let packet_checkpoint = checkpoint_id_for_seq(seq, uops);
    proof {
        lemma_packet_head_from(uops@, 0, seq as int);
    }
    let slot: u8 = match packet_slot_for_seq(seq, uops) {
        Some(s) => s as u8,
        None => 0,
    };
    assert(slot == (match spec_fetch_packet_head(uops@, seq as int) {
        Some(h) => (seq - h) as u8,
        None => 0u8,
    }));
    ((packet_checkpoint as u16 + slot as u16) % 64) as u8
}

// ---------------------------------------------------------------------------
// Block epochs: the count of block boundaries crossed so far.
// ---------------------------------------------------------------------------

pub open spec fn wrapping_inc16(e: u16) -> u16 {
    if e == u16::MAX {
        0
    } else {
        (e + 1) as u16
    }
}

pub fn wrapping_inc(e: u16) -> (r: u16)
    ensures
        r == wrapping_inc16(e),
{
    if e == u16::MAX {
        0
    } else {
        e + 1
    }
}

/// The (epoch, at-block-head) state after the first `k` micro-ops.
pub open spec fn epoch_state(uops: Seq<CycleUop>, k: int) -> (u16, bool)
    decreases k,
{
    if k <= 0 {
        (0, true)
    } else {
        let (epoch, head) = epoch_state(uops, k - 1);
        let m = uops[k - 1].decoded@.mnemonic;
        let bstart_head = spec_is_bstart(m) && head;
        let bstart_mid = spec_is_bstart(m) && !head;
        let boundary = bstart_mid || spec_is_bstop(m) || spec_is_macro_boundary(m);
        let head1 = if bstart_head {
            false
        } else if boundary {
            true
        } else {
            head
        };
        let epoch1 = if boundary || bstart_head {
            wrapping_inc16(epoch)
        } else {
            epoch
        };
        (epoch1, head1)
    }
}

pub open spec fn spec_block_epoch_for_seq(uops: Seq<CycleUop>, seq: int) -> u16 {
    epoch_state(uops, if seq < uops.len() { seq } else { uops.len() as int }).0
}

/// The block epoch in which `seq` is dispatched, counted from the start.
pub fn block_epoch_for_seq(seq: usize, uops: &Vec<CycleUop>) -> (r: u16)
    ensures
        r == spec_block_epoch_for_seq(uops@, seq as int),
{
    let mut epoch: u16 = 0;
    let mut block_head = true;
    let mut idx: usize = 0;
    while idx < uops.len()
        invariant
            idx <= uops@.len(),
            idx <= seq,
            (epoch, block_head) == epoch_state(uops@, idx as int),
        decreases uops@.len() - idx,
    {
        if idx == seq {
            return epoch;
        }
        let d = &uops[idx].decoded;
        let bstart = is_bstart(d);
        let is_bstart_head = bstart && block_head;
        let is_bstart_mid = bstart && !block_head;
        let is_boundary = is_bstart_mid || is_bstop(d) || is_macro_boundary(d);
        if is_boundary {
            block_head = true;
        }
        if is_bstart_head {
            block_head = false;
        }
        if is_boundary || is_bstart_head {
            epoch = wrapping_inc(epoch);
        }
        idx += 1;
    }
    epoch
}

// ---------------------------------------------------------------------------
// Redirect restart points.
// ---------------------------------------------------------------------------

/// The first position from `i` on where fetch may restart at `target_pc`.
pub open spec fn restart_from(uops: Seq<CycleUop>, target_pc: u64, i: int) -> Option<int>
    decreases uops.len() - i,
{
    if i < 0 || i >= uops.len() {
        None
    } else if uops[i].commit.pc == target_pc && spec_is_start_marker(uops[i].decoded@.mnemonic) {
        Some(i)
    } else {
        restart_from(uops, target_pc, i + 1)
    }
}

pub open spec fn spec_legal_redirect_restart_seq(uops: Seq<CycleUop>, source_seq: usize, target_pc: u64) -> Option<int> {
    if source_seq == usize::MAX {
        restart_from(uops, target_pc, usize::MAX as int)
    } else {
        restart_from(uops, target_pc, source_seq + 1)
    }
}

proof fn lemma_restart_from_bound(uops: Seq<CycleUop>, target_pc: u64, i: int)
    ensures
        restart_from(uops, target_pc, i) matches Some(r) ==> i <= r < uops.len(),
    decreases uops.len() - i,
{
    if 0 <= i < uops.len() {
        lemma_restart_from_bound(uops, target_pc, i + 1);
    }
}

/// The first younger micro-op at `target_pc` that starts a block: where fetch
/// restarts after a redirect from `source_seq`.
pub fn legal_redirect_restart_seq(source_seq: usize, target_pc: u64, uops: &Vec<CycleUop>) -> (r: Option<usize>)
    ensures
        r matches Some(s) ==> spec_legal_redirect_restart_seq(uops@, source_seq, target_pc) == Some(s as int),
        r is None ==> spec_legal_redirect_restart_seq(uops@, source_seq, target_pc) is None,
        r matches Some(s) ==> source_seq < s && s < uops@.len(),
{
    let start = source_seq.saturating_add(1);
    proof {
        lemma_restart_from_bound(uops@, target_pc, start as int);
    }
    let mut i = start;
    while i < uops.len()
        invariant
            start <= i,
            start == source_seq || start == source_seq + 1,
            source_seq < usize::MAX ==> start == source_seq + 1,
            restart_from(uops@, target_pc, i as int) == restart_from(uops@, target_pc, start as int),
        decreases uops@.len() - i,
    {
        if uops[i].commit.pc == target_pc && is_legal_redirect_restart(&uops[i].decoded) {
            return Some(i);
        }
        i += 1;
    }
    None
}

} // verus!
