use vstd::prelude::*;
use crate::record::{EngineKind, RunMetrics};

verus! {

/// A design-space sweep: the cases to run.
#[derive(Debug, Clone)]
pub struct SweepSpec {
    pub cases: Vec<SweepCase>,
}

/// One sweep case: an image, the engine to run it on, and how often.
#[derive(Debug, Clone)]
pub struct SweepCase {
    pub name: String,
    pub engine: EngineKind,
    pub elf: String,
    pub iterations: usize,
}

/// What the runs of one case measured, one entry per run.
#[derive(Debug, Clone)]
pub struct SweepCaseReport {
    pub name: String,
    pub engine: EngineKind,
    pub iterations: usize,
    pub cycles: Vec<u64>,
    pub commits: Vec<u64>,
    pub exit_reason: String,
}

/// The reports of every case of a sweep, in case order.
#[derive(Debug, Clone)]
pub struct SweepReport {
    pub cases: Vec<SweepCaseReport>,
}

/// The exit reason a case reports: that of its last run, or nothing when it
/// did not run.
pub open spec fn last_exit_reason(runs: Seq<RunMetrics>) -> Seq<char> {
    if runs.len() == 0 {
        Seq::empty()
    } else {
        runs.last().exit_reason@
    }
}

/// The report of `case` from the metrics of its runs, in run order.
pub fn summarize_case(case: &SweepCase, runs: &Vec<RunMetrics>) -> (r: SweepCaseReport)
    ensures
        r.name@ == case.name@,
        r.engine == case.engine,
        r.iterations == case.iterations,
        r.cycles@.len() == runs@.len(),
        r.commits@.len() == runs@.len(),
        forall|i: int| 0 <= i < runs@.len() ==> r.cycles@[i] == (#[trigger] runs@[i]).cycles && r.commits@[i]
            == runs@[i].commits,
        r.exit_reason@ == last_exit_reason(runs@),
{
    let mut cycles: Vec<u64> = Vec::new();
    let mut commits: Vec<u64> = Vec::new();
    let mut exit_reason = String::new();
    let mut i: usize = 0;
    while i < runs.len()
        invariant
            i <= runs@.len(),
            cycles@.len() == i,
            commits@.len() == i,
            forall|j: int| 0 <= j < i ==> cycles@[j] == (#[trigger] runs@[j]).cycles && commits@[j] == runs@[j].commits,
            exit_reason@ == last_exit_reason(runs@.take(i as int)),
        decreases runs@.len() - i,
    {
        cycles.push(runs[i].cycles);
        commits.push(runs[i].commits);
        exit_reason = runs[i].exit_reason.clone();
        proof {
            assert(runs@.take(i + 1).last() == runs@[i as int]);
        }
        i += 1;
    }
    proof {
        assert(runs@.take(runs@.len() as int) =~= runs@);
    }
    SweepCaseReport {
        name: case.name.clone(),
        engine: case.engine,
        iterations: case.iterations,
        cycles,
        commits,
        exit_reason,
    }
}

} // verus!
