use camodel::config::ROB_CAPACITY;
use camodel::issue::{advance_i1_to_i2, advance_p1_to_i1};
use camodel::model::{IqEntry, PhysIq, StageQueues};
use camodel::stages::advance_frontend;
use std::collections::VecDeque;

fn entry(seq: usize, phys_iq: PhysIq) -> IqEntry {
    IqEntry {
        seq,
        phys_iq,
        inflight: true,
        src_valid: [false; 2],
        src_ready_nonspec: [false; 2],
        src_ready_spec: [false; 2],
        src_wait_qtag: [false; 2],
    }
}

#[test]
fn advance_frontend_preserves_overflowing_uops() {
    let mut pipeline = StageQueues::default();
    pipeline.frontend[8].extend([10, 11, 12, 13, 14]);
    pipeline.frontend[9].extend([20, 21, 22]);
    let mut rob = VecDeque::new();

    advance_frontend(&mut pipeline, &mut rob);

    assert_eq!(pipeline.frontend[10].iter().copied().collect::<Vec<_>>(), vec![20, 21, 22]);
    assert_eq!(pipeline.frontend[9].iter().copied().collect::<Vec<_>>(), vec![10, 11, 12, 13]);
    assert_eq!(pipeline.frontend[8].iter().copied().collect::<Vec<_>>(), vec![14]);
}

#[test]
fn i1_to_i2_limits_one_admit_per_physical_iq() {
    let mut pipeline = StageQueues::default();
    pipeline.i1 = VecDeque::from([0usize, 1, 2]);
    let mut iq = vec![entry(0, PhysIq::AluIq0), entry(1, PhysIq::AluIq0), entry(2, PhysIq::BruIq)];

    advance_i1_to_i2(&mut pipeline, &mut iq);

    assert_eq!(pipeline.i2.iter().copied().collect::<Vec<_>>(), vec![0, 2]);
    assert_eq!(pipeline.i1.iter().copied().collect::<Vec<_>>(), vec![1]);
    assert_eq!(iq.iter().map(|entry| entry.seq).collect::<Vec<_>>(), vec![1]);
}

#[test]
fn p1_winners_stay_live_when_i1_is_full() {
    let mut i1 = VecDeque::from([10usize, 11, 12, 13]);
    let mut admitted_i1 = VecDeque::from([20usize, 21]);
    let mut p1 = VecDeque::new();

    advance_p1_to_i1(&mut i1, &mut admitted_i1, &mut p1);

    assert_eq!(i1.iter().copied().collect::<Vec<_>>(), vec![10, 11, 12, 13]);
    assert!(admitted_i1.is_empty());
    assert_eq!(p1.iter().copied().collect::<Vec<_>>(), vec![20, 21]);
}

#[test]
fn d1_stalls_when_rob_group_would_overflow() {
    let mut pipeline = StageQueues::default();
    pipeline.frontend[6].push_back(200);
    pipeline.frontend[6].push_back(201);
    let mut rob = (0..(ROB_CAPACITY - 1)).map(|idx| idx + 1000).collect::<VecDeque<_>>();

    advance_frontend(&mut pipeline, &mut rob);

    assert_eq!(pipeline.frontend[6].iter().copied().collect::<Vec<_>>(), vec![200, 201]);
    assert_eq!(pipeline.frontend[7].len(), 0);
    assert_eq!(rob.len(), ROB_CAPACITY - 1);
}

#[test]
fn d1_uops_join_the_rob_tail_skipping_held_ones() {
    let mut pipeline = StageQueues::default();
    pipeline.frontend[6].extend([5, 6, 7]);
    let mut rob = VecDeque::from([3usize, 6]);

    advance_frontend(&mut pipeline, &mut rob);

    assert_eq!(rob.iter().copied().collect::<Vec<_>>(), vec![3, 6, 5, 7]);
    assert_eq!(pipeline.frontend[7].iter().copied().collect::<Vec<_>>(), vec![5, 6, 7]);
    assert!(pipeline.frontend[6].is_empty());
}
