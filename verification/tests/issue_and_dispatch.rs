use camodel::config::IQ_CAPACITY;
use camodel::dispatch::dispatch_to_iq_and_bypass;
use camodel::issue::{advance_i1_to_i2, arbitrate_i1, pick_from_iq};
use camodel::model::{CycleUop, IqEntry, PhysIq, QTag, StageQueues};
use camodel::record::{CommitRecord, DecodedInstruction};
use camodel::recovery::prune_speculative_state_on_redirect;
use camodel::trace::emit_stage_events;
use std::collections::VecDeque;

fn decoded(mnemonic: &str, uop_group: &str) -> DecodedInstruction {
    DecodedInstruction {
        mnemonic: mnemonic.to_string(),
        assembly: mnemonic.to_lowercase(),
        uop_group: uop_group.to_string(),
        fields: Vec::new(),
    }
}

fn addi() -> DecodedInstruction {
    decoded("ADDI", "ALU")
}

fn record(pc: u64) -> CommitRecord {
    CommitRecord {
        cycle: 0,
        pc,
        insn: 0,
        len: 4,
        next_pc: pc + 4,
        src0_valid: 0,
        src0_reg: 0,
        src0_data: 0,
        src1_valid: 0,
        src1_reg: 0,
        src1_data: 0,
        wb_valid: 0,
        wb_rd: 0,
        wb_data: 0,
        mem_valid: 0,
        mem_is_store: 0,
        mem_addr: 0,
        mem_size: 0,
        trap_valid: 0,
        trap_cause: 0,
        traparg0: 0,
    }
}

fn uop(decoded: DecodedInstruction, commit: CommitRecord, phys_iq: Option<PhysIq>) -> CycleUop {
    CycleUop {
        decoded,
        commit,
        deps: [None, None],
        src_queue_kinds: [None, None],
        src_logical_tags: [None, None],
        src_qtags: [None, None],
        dst_queue_kind: None,
        dst_logical_tag: None,
        dst_qtag: None,
        bypass_d2: false,
        is_load: false,
        is_store: false,
        load_ordinal: None,
        load_store_id: None,
        miss_injected: false,
        redirect_target: None,
        phys_iq,
        pick_wakeup_visible: None,
        data_ready_visible: None,
        miss_pending_until: None,
        e1_cycle: None,
        e4_cycle: None,
        w1_cycle: None,
        done_cycle: None,
    }
}

fn entry(seq: usize, phys_iq: PhysIq, inflight: bool) -> IqEntry {
    IqEntry {
        seq,
        phys_iq,
        inflight,
        src_valid: [false; 2],
        src_ready_nonspec: [false; 2],
        src_ready_spec: [false; 2],
        src_wait_qtag: [false; 2],
    }
}

/// The issue-queue position that owns slot `entry_id` of `phys_iq`.
fn owner(pipeline: &StageQueues, phys_iq: PhysIq, entry_id: usize) -> Option<usize> {
    pipeline.iq_owner_table[phys_iq.index() * IQ_CAPACITY + entry_id]
}

/// The keys of the queue-slot table, in order.
fn tagged_seqs(pipeline: &StageQueues) -> Vec<usize> {
    (0..pipeline.iq_tags.slot_count()).filter(|k| pipeline.iq_tags.contains_key(*k)).collect()
}

#[test]
fn iq_entry_remains_inflight_until_i2_dealloc() {
    let uops = vec![uop(addi(), record(0x1000), Some(PhysIq::AluIq0))];
    let mut iq = vec![entry(0, PhysIq::AluIq0, true)];
    let mut p1 = VecDeque::from([0usize]);
    let rob = VecDeque::from([0usize]);
    let admitted = arbitrate_i1(0, &mut p1, &mut iq, &uops, &rob);

    assert_eq!(admitted.iter().copied().collect::<Vec<_>>(), vec![0]);
    assert_eq!(iq.len(), 1);
    assert!(iq[0].inflight);

    let mut pipeline = StageQueues::default();
    pipeline.i1 = admitted;
    advance_i1_to_i2(&mut pipeline, &mut iq);

    assert_eq!(pipeline.i2.iter().copied().collect::<Vec<_>>(), vec![0]);
    assert!(iq.is_empty());
}

#[test]
fn pick_uses_oldest_ready_rob_order() {
    let uops = [PhysIq::BruIq, PhysIq::AluIq0, PhysIq::SharedIq1]
        .into_iter()
        .map(|phys_iq| uop(addi(), record(0x1000), Some(phys_iq)))
        .collect::<Vec<_>>();
    let mut iq = vec![
        entry(2, PhysIq::SharedIq1, false),
        entry(0, PhysIq::BruIq, false),
        entry(1, PhysIq::AluIq0, false),
    ];
    let rob = VecDeque::from([0usize, 1, 2]);
    let mut p1 = VecDeque::new();

    pick_from_iq(0, 0, &mut iq, &uops, &mut p1, &rob);

    assert_eq!(p1.iter().copied().collect::<Vec<_>>(), vec![0, 1, 2]);
    assert!(iq.iter().all(|entry| entry.inflight));
}

#[test]
fn pick_limits_to_one_winner_per_physical_iq() {
    let uops = (0..3).map(|_| uop(addi(), record(0x1000), Some(PhysIq::AluIq0))).collect::<Vec<_>>();
    let mut iq = vec![
        entry(2, PhysIq::AluIq0, false),
        entry(0, PhysIq::AluIq0, false),
        entry(1, PhysIq::AluIq0, false),
    ];
    let rob = VecDeque::from([0usize, 1, 2]);
    let mut p1 = VecDeque::new();

    pick_from_iq(0, 0, &mut iq, &uops, &mut p1, &rob);

    assert_eq!(p1.iter().copied().collect::<Vec<_>>(), vec![0]);
    assert!(iq.iter().find(|entry| entry.seq == 0).unwrap().inflight);
    assert!(!iq.iter().find(|entry| entry.seq == 1).unwrap().inflight);
    assert!(!iq.iter().find(|entry| entry.seq == 2).unwrap().inflight);
}

#[test]
fn emit_stage_events_reports_ready_vs_wait_iq_age_per_queue() {
    let uops = vec![
        uop(addi(), record(0x1000), Some(PhysIq::AluIq0)),
        uop(addi(), record(0x1004), Some(PhysIq::AluIq0)),
    ];
    let pipeline = StageQueues::default();
    let iq = vec![entry(1, PhysIq::AluIq0, false), entry(0, PhysIq::AluIq0, false)];
    let rob = VecDeque::from([0usize, 1]);
    let mut out = Vec::new();

    emit_stage_events(0, &"lane0".to_string(), &pipeline, &iq, &rob, &uops, &mut out);

    assert!(out.iter().any(|event| event.stage_id == "IQ" && event.row_id == "uop0" && event.cause == "ready"));
    assert!(out.iter().any(|event| event.stage_id == "IQ" && event.row_id == "uop1" && event.cause == "wait_iq_age"));
}

#[test]
fn i1_arbitration_uses_oldest_first_read_port_policy() {
    let uops = (0..3u64)
        .map(|seq| {
            let commit = CommitRecord {
                src0_valid: 1,
                src0_reg: 1,
                src0_data: 1,
                src1_valid: 1,
                src1_reg: 2,
                src1_data: 2,
                ..record(0x1000 + seq * 4)
            };
            uop(addi(), commit, Some(PhysIq::AluIq0))
        })
        .collect::<Vec<_>>();
    let mut iq = vec![
        entry(2, PhysIq::AluIq0, true),
        entry(0, PhysIq::AluIq0, true),
        entry(1, PhysIq::AluIq0, true),
    ];
    let mut p1 = VecDeque::from([2usize, 0, 1]);
    let rob = VecDeque::from([0usize, 1, 2]);

    let admitted = arbitrate_i1(0, &mut p1, &mut iq, &uops, &rob);

    assert_eq!(admitted.iter().copied().collect::<Vec<_>>(), vec![0]);
    assert!(!iq.iter().find(|entry| entry.seq == 1).unwrap().inflight);
    assert!(!iq.iter().find(|entry| entry.seq == 2).unwrap().inflight);
}

#[test]
fn s2_stalls_when_iq_is_full() {
    let mut pipeline = StageQueues::default();
    pipeline.frontend[10].push_back(0);
    let mut iq = (0..IQ_CAPACITY)
        .map(|seq| entry(seq, PhysIq::AluIq0, false))
        .chain((IQ_CAPACITY..(IQ_CAPACITY * 2)).map(|seq| entry(seq, PhysIq::SharedIq1, false)))
        .collect::<Vec<_>>();
    let mut rob = VecDeque::new();
    let mut uops = vec![uop(addi(), record(0x1000), None)];

    dispatch_to_iq_and_bypass(0, &mut pipeline, &mut iq, &mut rob, &mut uops);

    assert_eq!(pipeline.frontend[10].iter().copied().collect::<Vec<_>>(), vec![0]);
    assert_eq!(iq.len(), IQ_CAPACITY * 2);
}

#[test]
fn s2_spills_third_same_cycle_alu_enqueue_to_shared_iq() {
    let mut pipeline = StageQueues::default();
    pipeline.frontend[10].extend([0, 1, 2]);
    let mut iq = Vec::new();
    let mut rob = VecDeque::new();
    let mut uops = (0..3).map(|_| uop(addi(), record(0x1000), None)).collect::<Vec<_>>();

    dispatch_to_iq_and_bypass(0, &mut pipeline, &mut iq, &mut rob, &mut uops);

    assert!(pipeline.frontend[10].is_empty());
    assert_eq!(
        iq.iter().map(|entry| (entry.seq, entry.phys_iq)).collect::<Vec<_>>(),
        vec![(0, PhysIq::AluIq0), (1, PhysIq::AluIq0), (2, PhysIq::SharedIq1)]
    );
}

#[test]
fn s2_shared_only_enqueue_keeps_oldest_two_when_ports_exhausted() {
    let mut pipeline = StageQueues::default();
    pipeline.frontend[10].extend([0, 1, 2]);
    let mut iq = Vec::new();
    let mut rob = VecDeque::new();
    let mut uops = (0..3).map(|_| uop(decoded("ADDI", "SYS"), record(0x1000), None)).collect::<Vec<_>>();

    dispatch_to_iq_and_bypass(0, &mut pipeline, &mut iq, &mut rob, &mut uops);

    assert_eq!(
        iq.iter().map(|entry| (entry.seq, entry.phys_iq)).collect::<Vec<_>>(),
        vec![(0, PhysIq::SharedIq1), (1, PhysIq::SharedIq1)]
    );
    assert_eq!(pipeline.frontend[10].iter().copied().collect::<Vec<_>>(), vec![2]);
}

#[test]
fn s2_allocates_distinct_qtags_within_one_physical_iq() {
    let mut pipeline = StageQueues::default();
    pipeline.frontend[10].extend([0, 1]);
    let mut iq = Vec::new();
    let mut rob = VecDeque::new();
    let mut uops = (0..2).map(|_| uop(addi(), record(0x1000), None)).collect::<Vec<_>>();

    dispatch_to_iq_and_bypass(0, &mut pipeline, &mut iq, &mut rob, &mut uops);

    assert_eq!(pipeline.iq_tags.get(0), Some(QTag { phys_iq: PhysIq::AluIq0, entry_id: 0 }));
    assert_eq!(pipeline.iq_tags.get(1), Some(QTag { phys_iq: PhysIq::AluIq0, entry_id: 1 }));
    assert_eq!(owner(&pipeline, PhysIq::AluIq0, 0), Some(0));
    assert_eq!(owner(&pipeline, PhysIq::AluIq0, 1), Some(1));
}

#[test]
fn i2_deallocation_releases_qtag_for_reuse() {
    let mut pipeline = StageQueues::default();
    pipeline.i1 = VecDeque::from([0usize]);
    pipeline.iq_tags.insert(0, QTag { phys_iq: PhysIq::AluIq0, entry_id: 0 });
    let mut iq = vec![entry(0, PhysIq::AluIq0, true)];

    advance_i1_to_i2(&mut pipeline, &mut iq);

    assert!(pipeline.iq_tags.is_empty());
    assert_eq!(owner(&pipeline, PhysIq::AluIq0, 0), None);

    pipeline.frontend[10].push_back(1);
    let mut rob = VecDeque::new();
    let mut uops = vec![uop(addi(), record(0x1000), None), uop(addi(), record(0x1004), None)];

    dispatch_to_iq_and_bypass(1, &mut pipeline, &mut iq, &mut rob, &mut uops);

    assert_eq!(pipeline.iq_tags.get(1), Some(QTag { phys_iq: PhysIq::AluIq0, entry_id: 0 }));
    assert_eq!(owner(&pipeline, PhysIq::AluIq0, 0), Some(0));
}

#[test]
fn redirect_flush_prunes_younger_qtags() {
    let mut pipeline = StageQueues::default();
    pipeline.iq_tags.insert(1, QTag { phys_iq: PhysIq::AluIq0, entry_id: 0 });
    pipeline.iq_tags.insert(2, QTag { phys_iq: PhysIq::SharedIq1, entry_id: 0 });
    let mut iq = vec![entry(1, PhysIq::AluIq0, false), entry(2, PhysIq::SharedIq1, false)];
    let mut rob = VecDeque::from([1usize, 2]);
    let uops = vec![
        uop(addi(), record(0x0ffc), None),
        CycleUop {
            redirect_target: Some(0x2000),
            w1_cycle: Some(7),
            ..uop(decoded("C.BSTART.STD", "BRU"), CommitRecord { cycle: 4, ..record(0x1000) }, Some(PhysIq::BruIq))
        },
        uop(addi(), CommitRecord { cycle: 4, ..record(0x1004) }, Some(PhysIq::SharedIq1)),
    ];

    prune_speculative_state_on_redirect(7, &mut pipeline, &mut iq, &mut rob, &uops);

    assert_eq!(tagged_seqs(&pipeline), vec![1]);
    assert_eq!(pipeline.iq_tags.get(1), Some(QTag { phys_iq: PhysIq::AluIq0, entry_id: 0 }));
    assert_eq!(iq.iter().map(|entry| entry.seq).collect::<Vec<_>>(), vec![1]);
    assert_eq!(owner(&pipeline, PhysIq::AluIq0, 0), Some(0));
    assert_eq!(owner(&pipeline, PhysIq::SharedIq1, 0), None);
}
