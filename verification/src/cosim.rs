use vstd::prelude::*;
use crate::record::CommitRecord;
use crate::text::{decimal_string, decimal_text};

verus! {

/// One message of the commit stream a reference emulator sends: the start
/// of a run, one retired instruction, or the end of the run.
#[derive(Debug, Clone)]
pub enum M1Message {
    Start { boot_pc: u64, trigger_pc: u64, terminate_pc: u64, snapshot_path: String, seq_base: u64 },
    Commit { seq: u64, commit: CommitRecord },
    End { reason: String },
}

/// The first disagreement between two commit streams.
#[derive(Debug, Clone, PartialEq, Eq)]
pub struct CosimMismatch {
    pub index: usize,
    pub field: String,
    pub expected: String,
    pub actual: String,
}

/// The outcome of comparing two commit streams.
#[derive(Debug, Clone, PartialEq, Eq)]
pub struct CosimReport {
    pub matched_commits: usize,
    pub mismatch: Option<CosimMismatch>,
}

pub struct MismatchView {
    pub index: usize,
    pub field: Seq<char>,
    pub expected: Seq<char>,
    pub actual: Seq<char>,
}

impl View for CosimMismatch {
    type V = MismatchView;

    open spec fn view(&self) -> MismatchView {
        MismatchView { index: self.index, field: self.field@, expected: self.expected@, actual: self.actual@ }
    }
}

pub struct ReportView {
    pub matched_commits: usize,
    pub mismatch: Option<MismatchView>,
}

impl View for CosimReport {
    type V = ReportView;

    open spec fn view(&self) -> ReportView {
        ReportView {
            matched_commits: self.matched_commits,
            mismatch: match self.mismatch {
                Some(m) => Some(m@),
                None => None,
            },
        }
    }
}

/// The first compared field on which two commits differ, with both values,
/// in the order pc, insn, len, wb_valid, mem_valid, trap_valid, next_pc.
pub open spec fn first_field_difference(l: CommitRecord, r: CommitRecord) -> Option<(Seq<char>, u64, u64)> {
    if l.pc != r.pc {
        Some(("pc"@, l.pc, r.pc))
    } else if l.insn != r.insn {
        Some(("insn"@, l.insn, r.insn))
    } else if l.len != r.len {
        Some(("len"@, l.len as u64, r.len as u64))
    } else if l.wb_valid != r.wb_valid {
        Some(("wb_valid"@, l.wb_valid as u64, r.wb_valid as u64))
    } else if l.mem_valid != r.mem_valid {
        Some(("mem_valid"@, l.mem_valid as u64, r.mem_valid as u64))
    } else if l.trap_valid != r.trap_valid {
        Some(("trap_valid"@, l.trap_valid as u64, r.trap_valid as u64))
    } else if l.next_pc != r.next_pc {
        Some(("next_pc"@, l.next_pc, r.next_pc))
    } else {
        None
    }
}

/// The first position at or after `i`, within both streams, where the
/// commits differ.
pub open spec fn first_difference_from(e: Seq<CommitRecord>, a: Seq<CommitRecord>, i: int) -> Option<int>
    decreases e.len() - i,
{
    if i < 0 || i >= e.len() || i >= a.len() {
        None
    } else if first_field_difference(e[i], a[i]) is Some {
        Some(i)
    } else {
        first_difference_from(e, a, i + 1)
    }
}

pub open spec fn mismatch_view(index: usize, field: Seq<char>, expected: u64, actual: u64) -> ReportView {
    ReportView {
        matched_commits: index,
        mismatch: Some(MismatchView {
            index,
            field,
            expected: decimal_text(expected as nat),
            actual: decimal_text(actual as nat),
        }),
    }
}

/// What comparing `e` (the reference) with `a` reports: the first commit
/// and field that differ, with both values in decimal; else, when one
/// stream is longer, the commit counts; else how many commits matched.
pub open spec fn spec_compare(e: Seq<CommitRecord>, a: Seq<CommitRecord>) -> ReportView {
    let count = if e.len() <= a.len() { e.len() } else { a.len() };
    match first_difference_from(e, a, 0) {
        Some(i) => {
            let d = first_field_difference(e[i], a[i])->0;
            mismatch_view(i as usize, d.0, d.1, d.2)
        },
        None => if e.len() != a.len() {
            mismatch_view(count as usize, "commit_count"@, e.len() as u64, a.len() as u64)
        } else {
            ReportView { matched_commits: count as usize, mismatch: None }
        },
    }
}

/// A report of a mismatch at commit `index` in `field`.
pub fn mismatch(index: usize, field: &str, expected: u64, actual: u64) -> (r: CosimReport)
    ensures
        r@ == mismatch_view(index, field@, expected, actual),
{
    CosimReport {
        matched_commits: index,
        mismatch: Some(CosimMismatch {
            index,
            field: String::from_str(field),
            expected: decimal_string(expected),
            actual: decimal_string(actual),
        }),
    }
}

fn compare_commits(idx: usize, lhs: &CommitRecord, rhs: &CommitRecord) -> (r: Option<CosimReport>)
    ensures
        match first_field_difference(*lhs, *rhs) {
            Some(d) => r matches Some(rep) && rep@ == mismatch_view(idx, d.0, d.1, d.2),
            None => r is None,
        },
{
    if lhs.pc != rhs.pc {
        return Some(mismatch(idx, "pc", lhs.pc, rhs.pc));
    }
    if lhs.insn != rhs.insn {
        return Some(mismatch(idx, "insn", lhs.insn, rhs.insn));
    }
    if lhs.len != rhs.len {
        return Some(mismatch(idx, "len", lhs.len as u64, rhs.len as u64));
    }
    if lhs.wb_valid != rhs.wb_valid {
        return Some(mismatch(idx, "wb_valid", lhs.wb_valid as u64, rhs.wb_valid as u64));
    }
    if lhs.mem_valid != rhs.mem_valid {
        return Some(mismatch(idx, "mem_valid", lhs.mem_valid as u64, rhs.mem_valid as u64));
    }
    if lhs.trap_valid != rhs.trap_valid {
        return Some(mismatch(idx, "trap_valid", lhs.trap_valid as u64, rhs.trap_valid as u64));
    }
    if lhs.next_pc != rhs.next_pc {
        return Some(mismatch(idx, "next_pc", lhs.next_pc, rhs.next_pc));
    }
    None
}

/// Compares a commit stream against the reference one, commit by commit.
pub fn compare_commit_streams(expected: &[CommitRecord], actual: &[CommitRecord]) -> (r: CosimReport)
    ensures
        r@ == spec_compare(expected@, actual@),
{
    let count = if expected.len() <= actual.len() { expected.len() } else { actual.len() };
    let mut idx: usize = 0;
    while idx < count
        invariant
            idx <= count,
            count == if expected@.len() <= actual@.len() { expected@.len() } else { actual@.len() },
            first_difference_from(expected@, actual@, 0) == first_difference_from(expected@, actual@, idx as int),
        decreases count - idx,
    {
        if let Some(rep) = compare_commits(idx, &expected[idx], &actual[idx]) {
            return rep;
        }
        idx += 1;
    }
    if expected.len() != actual.len() {
        return mismatch(count, "commit_count", expected.len() as u64, actual.len() as u64);
    }
    CosimReport { matched_commits: count, mismatch: None }
}

proof fn lemma_first_difference_iff(e: Seq<CommitRecord>, a: Seq<CommitRecord>, i: int)
    requires
        0 <= i,
    ensures
        first_difference_from(e, a, i) is Some <==> exists|j: int|
            i <= j < e.len() && j < a.len() && (#[trigger] first_field_difference(e[j], a[j])) is Some,
        first_difference_from(e, a, i) matches Some(j) ==> i <= j < e.len() && j < a.len(),
    decreases e.len() - i,
{
    if i < e.len() && i < a.len() {
        lemma_first_difference_iff(e, a, i + 1);
        if first_field_difference(e[i], a[i]) is None {
            if exists|j: int| i <= j < e.len() && j < a.len() && (#[trigger] first_field_difference(e[j], a[j])) is Some {
                let j = choose|j: int| i <= j < e.len() && j < a.len() && (#[trigger] first_field_difference(e[j], a[j])) is Some;
                assert(j != i);
            }
        }
    }
}

/// Law: a commit stream compared with itself matches in full.
pub proof fn law_self_comparison_matches(s: Seq<CommitRecord>)
    requires
        s.len() <= usize::MAX,
    ensures
        spec_compare(s, s) == (ReportView { matched_commits: s.len() as usize, mismatch: None }),
{
    lemma_first_difference_iff(s, s, 0);
    assert(first_difference_from(s, s, 0) is None);
}

/// Law: the comparison reports a mismatch exactly when the streams differ in
/// length or some pair of commits at the same position differs in a compared
/// field (pc, insn, len, wb_valid, mem_valid, trap_valid or next_pc).
pub proof fn law_mismatch_iff_difference(e: Seq<CommitRecord>, a: Seq<CommitRecord>)
    ensures
        spec_compare(e, a).mismatch is Some <==> (e.len() != a.len() || exists|j: int|
            0 <= j < e.len() && j < a.len() && (#[trigger] first_field_difference(e[j], a[j])) is Some),
{
    lemma_first_difference_iff(e, a, 0);
}

/// Law: when the reference is checked against a stream that holds the same
/// instructions, the cycles they retired in, their operand values and their
/// trap details do not matter: only the compared fields do.
pub proof fn law_comparison_ignores_uncompared_fields(e: Seq<CommitRecord>, a: Seq<CommitRecord>, b: Seq<CommitRecord>)
    requires
        a.len() == b.len(),
        forall|i: int| 0 <= i < a.len() ==> (#[trigger] a[i]).pc == b[i].pc && a[i].insn == b[i].insn && a[i].len
            == b[i].len && a[i].wb_valid == b[i].wb_valid && a[i].mem_valid == b[i].mem_valid && a[i].trap_valid
            == b[i].trap_valid && a[i].next_pc == b[i].next_pc,
    ensures
        spec_compare(e, a) == spec_compare(e, b),
{
    assert forall|j: int| 0 <= j < e.len() && j < a.len() implies first_field_difference(e[j], a[j])
        == first_field_difference(e[j], b[j]) by {
        assert(a[j].pc == b[j].pc);
    }
    lemma_same_differences(e, a, b, 0);
    lemma_first_difference_iff(e, a, 0);
    if let Some(i) = first_difference_from(e, a, 0) {
        assert(first_field_difference(e[i], a[i]) == first_field_difference(e[i], b[i]));
    }
}

proof fn lemma_same_differences(e: Seq<CommitRecord>, a: Seq<CommitRecord>, b: Seq<CommitRecord>, i: int)
    requires
        a.len() == b.len(),
        forall|j: int| 0 <= j < e.len() && j < a.len() ==> first_field_difference(e[j], a[j])
            == first_field_difference(e[j], b[j]),
    ensures
        first_difference_from(e, a, i) == first_difference_from(e, b, i),
    decreases e.len() - i,
{
    if 0 <= i < e.len() && i < a.len() {
        lemma_same_differences(e, a, b, i + 1);
    }
}

} // verus!

verus! {

pub open spec fn spec_mismatch_message(m: MismatchView) -> Seq<char> {
    "cosim mismatch at commit "@ + decimal_text(m.index as nat) + " field "@ + m.field + ": expected="@ + m.expected
        + " actual="@ + m.actual
}

/// The text that reports a mismatch.
pub fn cosim_mismatch_message(mismatch: &CosimMismatch) -> (r: String)
    ensures
        r@ == spec_mismatch_message(mismatch@),
{
    let s = crate::text::prefixed_decimal("cosim mismatch at commit ", mismatch.index as u64);
    let s = s.concat(" field ");
    let s = s.concat(mismatch.field.as_str());
    let s = s.concat(": expected=");
    let s = s.concat(mismatch.expected.as_str());
    let s = s.concat(" actual=");
    s.concat(mismatch.actual.as_str())
}

/// Fails exactly when the report holds a mismatch, and then with the text
/// that reports it.
pub fn require_cosim_match(report: &CosimReport) -> (r: Result<(), String>)
    ensures
        match r {
            Ok(()) => report.mismatch is None,
            Err(text) => report.mismatch matches Some(m) && text@ == spec_mismatch_message(m@),
        },
{
    match &report.mismatch {
        Some(m) => Err(cosim_mismatch_message(m)),
        None => Ok(()),
    }
}

} // verus!

verus! {

/// Compared field `k` of a commit, in the order the comparison reports
/// them: pc, insn, len, wb_valid, mem_valid, trap_valid, next_pc.
pub open spec fn compared_value(c: CommitRecord, k: int) -> u64 {
    if k == 0 {
        c.pc
    } else if k == 1 {
        c.insn
    } else if k == 2 {
        c.len as u64
    } else if k == 3 {
        c.wb_valid as u64
    } else if k == 4 {
        c.mem_valid as u64
    } else if k == 5 {
        c.trap_valid as u64
    } else {
        c.next_pc
    }
}

/// The name of compared field `k`.
pub open spec fn compared_name(k: int) -> Seq<char> {
    if k == 0 {
        "pc"@
    } else if k == 1 {
        "insn"@
    } else if k == 2 {
        "len"@
    } else if k == 3 {
        "wb_valid"@
    } else if k == 4 {
        "mem_valid"@
    } else if k == 5 {
        "trap_valid"@
    } else {
        "next_pc"@
    }
}

/// The two commits agree on every compared field.
pub open spec fn commits_agree(l: CommitRecord, r: CommitRecord) -> bool {
    &&& l.pc == r.pc
    &&& l.insn == r.insn
    &&& l.len == r.len
    &&& l.wb_valid == r.wb_valid
    &&& l.mem_valid == r.mem_valid
    &&& l.trap_valid == r.trap_valid
    &&& l.next_pc == r.next_pc
}

proof fn lemma_field_difference_none(l: CommitRecord, r: CommitRecord)
    ensures
        first_field_difference(l, r) is None <==> commits_agree(l, r),
{
}

proof fn lemma_field_difference_first(l: CommitRecord, r: CommitRecord, k: int)
    requires
        0 <= k < 7,
        forall|k2: int| 0 <= k2 < k ==> compared_value(l, k2) == compared_value(r, k2),
        compared_value(l, k) != compared_value(r, k),
    ensures
        first_field_difference(l, r) == Some((compared_name(k), compared_value(l, k), compared_value(r, k))),
{
    if 0 < k {
        assert(compared_value(l, 0) == compared_value(r, 0));
    }
    if 1 < k {
        assert(compared_value(l, 1) == compared_value(r, 1));
    }
    if 2 < k {
        assert(compared_value(l, 2) == compared_value(r, 2));
        assert(l.len == r.len);
    }
    if 3 < k {
        assert(compared_value(l, 3) == compared_value(r, 3));
        assert(l.wb_valid == r.wb_valid);
    }
    if 4 < k {
        assert(compared_value(l, 4) == compared_value(r, 4));
        assert(l.mem_valid == r.mem_valid);
    }
    if 5 < k {
        assert(compared_value(l, 5) == compared_value(r, 5));
        assert(l.trap_valid == r.trap_valid);
    }
    if k == 2 {
        assert(l.len != r.len);
    } else if k == 3 {
        assert(l.wb_valid != r.wb_valid);
    } else if k == 4 {
        assert(l.mem_valid != r.mem_valid);
    } else if k == 5 {
        assert(l.trap_valid != r.trap_valid);
    }
}

proof fn lemma_first_difference_at(e: Seq<CommitRecord>, a: Seq<CommitRecord>, i: int, j: int)
    requires
        0 <= i <= j,
        j < e.len(),
        j < a.len(),
        !commits_agree(e[j], a[j]),
        forall|j2: int| i <= j2 < j ==> commits_agree(#[trigger] e[j2], a[j2]),
    ensures
        first_difference_from(e, a, i) == Some(j),
    decreases j - i,
{
    lemma_field_difference_none(e[i], a[i]);
    if i < j {
        assert(commits_agree(e[i], a[i]));
        lemma_first_difference_at(e, a, i + 1, j);
    }
}

/// Law: the report names the first commit, and within it the first field
/// in the order pc, insn, len, wb_valid, mem_valid, trap_valid, next_pc,
/// on which the two streams disagree, with both values in decimal; the
/// commits before it are counted as matched.
pub proof fn law_compare_reports_first_differing_field(e: Seq<CommitRecord>, a: Seq<CommitRecord>, j: int, k: int)
    requires
        0 <= j < e.len(),
        j < a.len(),
        0 <= k < 7,
        forall|j2: int, k2: int| 0 <= j2 < j && 0 <= k2 < 7 ==> #[trigger] compared_value(e[j2], k2) == compared_value(a[j2], k2),
        forall|k2: int| 0 <= k2 < k ==> compared_value(e[j], k2) == compared_value(a[j], k2),
        compared_value(e[j], k) != compared_value(a[j], k),
    ensures
        spec_compare(e, a) == mismatch_view(j as usize, compared_name(k), compared_value(e[j], k), compared_value(a[j], k)),
{
    assert forall|j2: int| 0 <= j2 < j implies commits_agree(#[trigger] e[j2], a[j2]) by {
        assert(compared_value(e[j2], 0) == compared_value(a[j2], 0));
        assert(compared_value(e[j2], 1) == compared_value(a[j2], 1));
        assert(compared_value(e[j2], 2) == compared_value(a[j2], 2));
        assert(compared_value(e[j2], 3) == compared_value(a[j2], 3));
        assert(compared_value(e[j2], 4) == compared_value(a[j2], 4));
        assert(compared_value(e[j2], 5) == compared_value(a[j2], 5));
        assert(compared_value(e[j2], 6) == compared_value(a[j2], 6));
    }
    lemma_field_difference_first(e[j], a[j], k);
    lemma_field_difference_none(e[j], a[j]);
    lemma_first_difference_at(e, a, 0, j);
}

/// Law: whenever two streams disagree, at some commit both hold, on pc,
/// insn, len, wb_valid, mem_valid, trap_valid or next_pc, the report holds
/// a mismatch at that commit or an earlier one, and counts fewer matched
/// commits than that position.
pub proof fn law_compare_flags_any_difference(e: Seq<CommitRecord>, a: Seq<CommitRecord>, i: int)
    requires
        0 <= i < e.len(),
        i < a.len(),
        e.len() <= usize::MAX,
        e[i].pc != a[i].pc || e[i].insn != a[i].insn || e[i].len != a[i].len || e[i].wb_valid != a[i].wb_valid
            || e[i].mem_valid != a[i].mem_valid || e[i].trap_valid != a[i].trap_valid || e[i].next_pc != a[i].next_pc,
    ensures
        spec_compare(e, a).mismatch matches Some(m) && (m.index as int) <= i,
        spec_compare(e, a).matched_commits as int <= i,
{
    lemma_field_difference_none(e[i], a[i]);
    lemma_first_difference_iff(e, a, 0);
    assert(first_field_difference(e[i], a[i]) is Some);
    let j = first_difference_from(e, a, 0)->0;
    if j > i {
        lemma_first_difference_at_least(e, a, 0, i);
    }
}

proof fn lemma_first_difference_at_least(e: Seq<CommitRecord>, a: Seq<CommitRecord>, i: int, j: int)
    requires
        0 <= i <= j,
        j < e.len(),
        j < a.len(),
        first_field_difference(e[j], a[j]) is Some,
    ensures
        first_difference_from(e, a, i) matches Some(x) && x <= j,
    decreases j - i,
{
    if first_field_difference(e[i], a[i]) is None {
        lemma_first_difference_at_least(e, a, i + 1, j);
    }
}

/// Law: when the streams agree on every compared field of every commit
/// both hold, the report has no field mismatch: all commits match if the
/// streams are as long as each other, else the commit counts differ.
pub proof fn law_compare_agreeing_streams(e: Seq<CommitRecord>, a: Seq<CommitRecord>)
    requires
        forall|j: int| 0 <= j < e.len() && j < a.len() ==> commits_agree(#[trigger] e[j], a[j]),
    ensures
        e.len() == a.len() ==> spec_compare(e, a) == (ReportView { matched_commits: e.len() as usize, mismatch: None }),
        e.len() != a.len() ==> spec_compare(e, a) == mismatch_view(
            (if e.len() <= a.len() { e.len() } else { a.len() }) as usize,
            "commit_count"@,
            e.len() as u64,
            a.len() as u64,
        ),
{
    lemma_first_difference_iff(e, a, 0);
    if first_difference_from(e, a, 0) is Some {
        let j = choose|j: int| 0 <= j < e.len() && j < a.len() && (#[trigger] first_field_difference(e[j], a[j])) is Some;
        lemma_field_difference_none(e[j], a[j]);
        assert(commits_agree(e[j], a[j]));
    }
}

} // verus!
