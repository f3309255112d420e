use camodel::issue::{pick_from_iq, ready_iq_winners};
use camodel::model::{CycleUop, IqEntry, PhysIq};
use camodel::record::{CommitRecord, DecodedInstruction};
use std::collections::VecDeque;

fn decoded(mnemonic: &str, uop_group: &str) -> DecodedInstruction {
    DecodedInstruction {
        mnemonic: mnemonic.to_string(),
        assembly: mnemonic.to_lowercase(),
        uop_group: uop_group.to_string(),
        fields: Vec::new(),
    }
}

fn addi() -> DecodedInstruction {
    decoded("ADDI", "ALU")
}

fn record(pc: u64) -> CommitRecord {
    CommitRecord {
        cycle: 0,
        pc,
        insn: 0,
        len: 4,
        next_pc: pc + 4,
        src0_valid: 0,
        src0_reg: 0,
        src0_data: 0,
        src1_valid: 0,
        src1_reg: 0,
        src1_data: 0,
        wb_valid: 0,
        wb_rd: 0,
        wb_data: 0,
        mem_valid: 0,
        mem_is_store: 0,
        mem_addr: 0,
        mem_size: 0,
        trap_valid: 0,
        trap_cause: 0,
        traparg0: 0,
    }
}

fn uop(decoded: DecodedInstruction, commit: CommitRecord, phys_iq: Option<PhysIq>) -> CycleUop {
    CycleUop {
        decoded,
        commit,
        deps: [None, None],
        src_queue_kinds: [None, None],
        src_logical_tags: [None, None],
        src_qtags: [None, None],
        dst_queue_kind: None,
        dst_logical_tag: None,
        dst_qtag: None,
        bypass_d2: false,
        is_load: false,
        is_store: false,
        load_ordinal: None,
        load_store_id: None,
        miss_injected: false,
        redirect_target: None,
        phys_iq,
        pick_wakeup_visible: None,
        data_ready_visible: None,
        miss_pending_until: None,
        e1_cycle: None,
        e4_cycle: None,
        w1_cycle: None,
        done_cycle: None,
    }
}

fn entry(seq: usize, phys_iq: PhysIq, inflight: bool) -> IqEntry {
    IqEntry {
        seq,
        phys_iq,
        inflight,
        src_valid: [false; 2],
        src_ready_nonspec: [false; 2],
        src_ready_spec: [false; 2],
        src_wait_qtag: [false; 2],
    }
}

#[test]
fn winners_come_in_queue_order_one_per_queue() {
    let uops = [PhysIq::BruIq, PhysIq::AluIq0, PhysIq::SharedIq1, PhysIq::AluIq0]
        .into_iter()
        .map(|phys_iq| uop(addi(), record(0x1000), Some(phys_iq)))
        .collect::<Vec<_>>();
    let iq = vec![
        entry(0, PhysIq::BruIq, false),
        entry(3, PhysIq::AluIq0, false),
        entry(2, PhysIq::SharedIq1, false),
        entry(1, PhysIq::AluIq0, false),
    ];
    let rob = VecDeque::from([0usize, 1, 2, 3]);

    let winners = ready_iq_winners(0, 0, &iq, &uops, &rob);

    assert_eq!(
        winners,
        vec![(3, 1, PhysIq::AluIq0), (2, 2, PhysIq::SharedIq1), (0, 0, PhysIq::BruIq)]
    );
    assert_eq!(winners, ready_iq_winners(0, 0, &iq, &uops, &rob));
}

#[test]
fn pick_fills_only_the_room_left_in_p1() {
    let uops = [PhysIq::BruIq, PhysIq::AluIq0, PhysIq::SharedIq1]
        .into_iter()
        .map(|phys_iq| uop(addi(), record(0x1000), Some(phys_iq)))
        .collect::<Vec<_>>();
    let mut iq = vec![
        entry(2, PhysIq::SharedIq1, false),
        entry(1, PhysIq::AluIq0, false),
        entry(0, PhysIq::BruIq, false),
    ];
    let rob = VecDeque::from([0usize, 1, 2]);
    let mut p1 = VecDeque::from([7usize, 8, 9]);

    pick_from_iq(0, 0, &mut iq, &uops, &mut p1, &rob);

    assert_eq!(p1.iter().copied().collect::<Vec<_>>(), vec![7, 8, 9, 0]);
    assert!(iq[2].inflight);
    assert!(!iq[0].inflight);
    assert!(!iq[1].inflight);
}

#[test]
fn pick_leaves_a_full_p1_alone() {
    let uops = vec![uop(addi(), record(0x1000), Some(PhysIq::AluIq0))];
    let mut iq = vec![entry(0, PhysIq::AluIq0, false)];
    let rob = VecDeque::from([0usize]);
    let mut p1 = VecDeque::from([4usize, 5, 6, 7]);

    pick_from_iq(0, 0, &mut iq, &uops, &mut p1, &rob);

    assert_eq!(p1.iter().copied().collect::<Vec<_>>(), vec![4, 5, 6, 7]);
    assert!(!iq[0].inflight);
}
