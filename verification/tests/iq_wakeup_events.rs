use camodel::config::{LD_GEN_E1, LD_GEN_E2, LD_GEN_E3, REG_T1};
use camodel::iq::{rebuild_iq_owner_table, register_iq_wait_crossbar_entry};
use camodel::iq_state::make_iq_entry;
use camodel::iq_wake::update_iq_entries_for_cycle;
use camodel::issue::iq_entry_wait_cause_from_state;
use camodel::model::{
    CycleUop, IqEntry, LogicalQueueTag, PhysIq, QTag, QueueWakeKind, empty_iq_owner_table, empty_qtag_wait_crossbar,
};
use camodel::record::{CommitRecord, DecodedInstruction};
use camodel::select::dep_load_gen_vec;
use camodel::seqmap::SeqMap;
use std::collections::BTreeSet;

fn decoded(mnemonic: &str, assembly: &str, uop_group: &str) -> DecodedInstruction {
    DecodedInstruction {
        mnemonic: mnemonic.to_string(),
        assembly: assembly.to_string(),
        uop_group: uop_group.to_string(),
        fields: Vec::new(),
    }
}

fn addi() -> DecodedInstruction {
    decoded("ADDI", "addi x2, x0, 1", "ALU")
}

fn record(pc: u64) -> CommitRecord {
    CommitRecord {
        cycle: 0,
        pc,
        insn: 0,
        len: 4,
        next_pc: pc + 4,
        src0_valid: 0,
        src0_reg: 0,
        src0_data: 0,
        src1_valid: 0,
        src1_reg: 0,
        src1_data: 0,
        wb_valid: 0,
        wb_rd: 0,
        wb_data: 0,
        mem_valid: 0,
        mem_is_store: 0,
        mem_addr: 0,
        mem_size: 0,
        trap_valid: 0,
        trap_cause: 0,
        traparg0: 0,
    }
}

fn reads(reg: u8, pc: u64) -> CommitRecord {
    CommitRecord { src0_valid: 1, src0_reg: reg, ..record(pc) }
}

fn writes(reg: u8, pc: u64) -> CommitRecord {
    CommitRecord { wb_valid: 1, wb_rd: reg, ..record(pc) }
}

fn uop(decoded: DecodedInstruction, commit: CommitRecord, phys_iq: PhysIq) -> CycleUop {
    CycleUop {
        decoded,
        commit,
        deps: [None, None],
        src_queue_kinds: [None, None],
        src_logical_tags: [None, None],
        src_qtags: [None, None],
        dst_queue_kind: None,
        dst_logical_tag: None,
        dst_qtag: None,
        bypass_d2: false,
        is_load: false,
        is_store: false,
        load_ordinal: None,
        load_store_id: None,
        miss_injected: false,
        redirect_target: None,
        phys_iq: Some(phys_iq),
        pick_wakeup_visible: None,
        data_ready_visible: None,
        miss_pending_until: None,
        e1_cycle: None,
        e4_cycle: None,
        w1_cycle: None,
        done_cycle: None,
    }
}

fn t_tag() -> LogicalQueueTag {
    LogicalQueueTag { kind: QueueWakeKind::T, tag: 0 }
}

/// A consumer of the `t` entry written by micro-op 0, waiting on `qtag`.
fn t_consumer(pc: u64, qtag: QTag, phys_iq: PhysIq) -> CycleUop {
    CycleUop {
        deps: [Some(0), None],
        src_queue_kinds: [Some(QueueWakeKind::T), None],
        src_logical_tags: [Some(t_tag()), None],
        src_qtags: [Some(qtag), None],
        ..uop(addi(), reads(REG_T1, pc), phys_iq)
    }
}

/// Queue slots numbered in order within each physical queue.
fn slot_tags(iq: &[IqEntry]) -> SeqMap<QTag> {
    let mut next = [0usize; 8];
    let mut out = SeqMap::new();
    for e in iq {
        let entry_id = next[e.phys_iq.index()];
        next[e.phys_iq.index()] += 1;
        out.insert(e.seq, QTag { phys_iq: e.phys_iq, entry_id });
    }
    out
}

fn owner_table(iq: &Vec<IqEntry>, tags: &SeqMap<QTag>) -> Vec<Option<usize>> {
    let mut t = empty_iq_owner_table();
    rebuild_iq_owner_table(&mut t, iq, tags);
    t
}

fn crossbar(iq: &[IqEntry], uops: &[CycleUop]) -> Vec<Vec<(usize, usize)>> {
    let mut c = empty_qtag_wait_crossbar();
    for e in iq {
        register_iq_wait_crossbar_entry(&mut c, e.seq, &uops[e.seq]);
    }
    c
}

fn update(cycle: u64, iq: &mut Vec<IqEntry>, uops: &Vec<CycleUop>) {
    let tags = slot_tags(iq);
    let owners = owner_table(iq, &tags);
    let waits = crossbar(iq, uops);
    update_iq_entries_for_cycle(cycle, iq, &BTreeSet::new(), &BTreeSet::new(), &owners, &tags, &waits, uops);
}

fn load_then_consumer(pick: Option<u64>, data: Option<u64>, e1: Option<u64>, miss: bool) -> Vec<CycleUop> {
    vec![
        CycleUop {
            is_load: true,
            load_ordinal: Some(0),
            load_store_id: Some(0),
            miss_injected: miss,
            pick_wakeup_visible: pick,
            data_ready_visible: data,
            e1_cycle: e1,
            ..uop(addi(), record(0x1000), PhysIq::AguIq0)
        },
        CycleUop { deps: [Some(0), None], ..uop(addi(), reads(2, 0x1004), PhysIq::AluIq0) },
    ]
}

#[test]
fn iq_spec_ready_revokes_on_replay_reset_and_rewakes_later() {
    let mut uops = load_then_consumer(Some(5), Some(8), Some(4), true);
    let mut iq = vec![make_iq_entry(5, 1, PhysIq::AluIq0, &BTreeSet::new(), &BTreeSet::new(), &uops)];

    assert!(iq[0].src_ready_spec[0]);
    assert!(!iq[0].src_ready_nonspec[0]);

    uops[0].pick_wakeup_visible = None;
    uops[0].data_ready_visible = None;
    uops[0].e1_cycle = None;
    uops[0].miss_pending_until = Some(12);
    update(6, &mut iq, &uops);

    assert!(!iq[0].src_ready_spec[0]);
    assert!(!iq[0].src_ready_nonspec[0]);
    assert_eq!(iq_entry_wait_cause_from_state(&iq[0], 6, 0, &uops), Some("wait_miss"));

    uops[0].miss_pending_until = None;
    uops[0].pick_wakeup_visible = Some(9);
    update(9, &mut iq, &uops);

    assert!(iq[0].src_ready_spec[0]);
    assert!(!iq[0].src_ready_nonspec[0]);
}

#[test]
fn iq_load_spec_wakeup_can_come_from_prior_e1_stage() {
    let uops = load_then_consumer(None, None, Some(4), false);
    let mut iq = vec![make_iq_entry(4, 1, PhysIq::AluIq0, &BTreeSet::new(), &BTreeSet::new(), &uops)];

    assert!(!iq[0].src_ready_spec[0]);
    update(5, &mut iq, &uops);
    assert!(iq[0].src_ready_spec[0]);
    assert!(!iq[0].src_ready_nonspec[0]);
}

#[test]
fn iq_nonspec_wakeup_can_come_from_prior_w1_stage() {
    let uops = vec![
        CycleUop { w1_cycle: Some(4), ..uop(addi(), record(0x1000), PhysIq::AluIq0) },
        CycleUop { deps: [Some(0), None], ..uop(addi(), reads(2, 0x1004), PhysIq::AluIq0) },
    ];
    let mut iq = vec![make_iq_entry(4, 1, PhysIq::AluIq0, &BTreeSet::new(), &BTreeSet::new(), &uops)];

    assert!(!iq[0].src_ready_nonspec[0]);
    update(5, &mut iq, &uops);
    assert!(iq[0].src_ready_nonspec[0]);
    assert!(!iq[0].src_ready_spec[0]);
}

#[test]
fn qtag_wakeup_fanout_only_wakes_matching_queue_consumer() {
    let slot = QTag { phys_iq: PhysIq::AluIq0, entry_id: 3 };
    let uops = vec![
        CycleUop {
            dst_queue_kind: Some(QueueWakeKind::T),
            dst_logical_tag: Some(t_tag()),
            dst_qtag: Some(slot),
            w1_cycle: Some(4),
            ..uop(addi(), writes(REG_T1, 0x1000), PhysIq::AluIq0)
        },
        t_consumer(0x1004, slot, PhysIq::AluIq0),
        t_consumer(0x1008, QTag { phys_iq: PhysIq::SharedIq1, entry_id: 3 }, PhysIq::AluIq0),
        t_consumer(0x100c, QTag { phys_iq: PhysIq::AluIq0, entry_id: 2 }, PhysIq::AluIq0),
    ];
    let mut iq = vec![
        make_iq_entry(4, 1, PhysIq::AluIq0, &BTreeSet::new(), &BTreeSet::new(), &uops),
        make_iq_entry(4, 2, PhysIq::AluIq0, &BTreeSet::new(), &BTreeSet::new(), &uops),
        make_iq_entry(4, 3, PhysIq::AluIq0, &BTreeSet::new(), &BTreeSet::new(), &uops),
    ];

    update(5, &mut iq, &uops);

    assert!(iq[0].src_ready_nonspec[0]);
    assert!(!iq[1].src_ready_nonspec[0]);
    assert!(!iq[2].src_ready_nonspec[0]);
    assert_eq!(iq_entry_wait_cause_from_state(&iq[0], 5, 0, &uops), None);
    assert_eq!(iq_entry_wait_cause_from_state(&iq[1], 5, 0, &uops), Some("wait_qtag"));
    assert_eq!(iq_entry_wait_cause_from_state(&iq[2], 5, 0, &uops), Some("wait_qtag"));
}

#[test]
fn queue_wakeup_keeps_nonqueue_dependents_alive() {
    let slot = QTag { phys_iq: PhysIq::AguIq0, entry_id: 1 };
    let uops = vec![
        CycleUop {
            dst_queue_kind: Some(QueueWakeKind::T),
            dst_logical_tag: Some(t_tag()),
            dst_qtag: Some(slot),
            w1_cycle: Some(4),
            ..uop(decoded("LDI", "ldi [sp, 0] ->t", "LDA"), writes(2, 0x1000), PhysIq::AguIq0)
        },
        CycleUop {
            decoded: decoded("C.SDI", "c.sdi t#1, [sp, 8]", "STA"),
            commit: CommitRecord { len: 2, ..reads(REG_T1, 0x1004) },
            ..t_consumer(0x1004, slot, PhysIq::StdIq0)
        },
        CycleUop { deps: [Some(0), None], ..uop(addi(), reads(2, 0x1008), PhysIq::AluIq0) },
    ];
    let mut iq = vec![
        make_iq_entry(4, 1, PhysIq::StdIq0, &BTreeSet::new(), &BTreeSet::new(), &uops),
        make_iq_entry(4, 2, PhysIq::AluIq0, &BTreeSet::new(), &BTreeSet::new(), &uops),
    ];

    update(5, &mut iq, &uops);

    assert!(iq[0].src_ready_nonspec[0]);
    assert!(iq[1].src_ready_nonspec[0]);
    assert_eq!(iq_entry_wait_cause_from_state(&iq[0], 5, 0, &uops), None);
    assert_eq!(iq_entry_wait_cause_from_state(&iq[1], 5, 0, &uops), None);
}

#[test]
fn ld_gen_vec_propagates_through_dependency_chain() {
    let uops = vec![
        CycleUop {
            is_load: true,
            load_ordinal: Some(0),
            load_store_id: Some(0),
            pick_wakeup_visible: Some(5),
            data_ready_visible: Some(8),
            e1_cycle: Some(4),
            ..uop(addi(), record(0x1000), PhysIq::AguIq0)
        },
        CycleUop { deps: [Some(0), None], ..uop(addi(), record(0x1004), PhysIq::AluIq0) },
        CycleUop { deps: [Some(1), None], ..uop(addi(), record(0x1008), PhysIq::AluIq0) },
    ];

    assert_eq!(dep_load_gen_vec(2, 4, &uops), LD_GEN_E1);
    assert_eq!(dep_load_gen_vec(2, 5, &uops), LD_GEN_E2);
    assert_eq!(dep_load_gen_vec(2, 6, &uops), LD_GEN_E3);
}
