use camodel::config::{LD_GEN_E4, REG_T1};
use camodel::decode::build_uops;
use camodel::dispatch::dispatch_to_iq_and_bypass;
use camodel::issue::{advance_i2, iq_entry_ready, iq_entry_wait_cause};
use camodel::iq_wake::annotate_qtag_sources;
use camodel::model::{CycleUop, LogicalQueueTag, PhysIq, QTag, QueueWakeKind, StageQueues};
use camodel::record::{CommitRecord, DecodedInstruction};
use camodel::select::{dep_load_gen_vec, i2_ready, miss_pending_active, read_ports_needed};
use camodel::seqmap::SeqMap;
use std::collections::{BTreeSet, VecDeque};

fn decoded(mnemonic: &str, assembly: &str, uop_group: &str) -> DecodedInstruction {
    DecodedInstruction {
        mnemonic: mnemonic.to_string(),
        assembly: assembly.to_string(),
        uop_group: uop_group.to_string(),
        fields: Vec::new(),
    }
}

fn addi() -> DecodedInstruction {
    decoded("ADDI", "addi x2, x0, 1", "ALU")
}

/// A load that writes the `t` queue.
fn t_producer_load() -> DecodedInstruction {
    decoded("C.LDI", "c.ldi [sp, 0] ->t", "LDA")
}

/// A store that reads the `t` queue entry pushed just before.
fn t_consumer_store() -> DecodedInstruction {
    decoded("C.SDI", "c.sdi t#1, [sp, 8]", "STA")
}

fn record(pc: u64) -> CommitRecord {
    CommitRecord {
        cycle: 0,
        pc,
        insn: 0,
        len: 4,
        next_pc: pc + 4,
        src0_valid: 0,
        src0_reg: 0,
        src0_data: 0,
        src1_valid: 0,
        src1_reg: 0,
        src1_data: 0,
        wb_valid: 0,
        wb_rd: 0,
        wb_data: 0,
        mem_valid: 0,
        mem_is_store: 0,
        mem_addr: 0,
        mem_size: 0,
        trap_valid: 0,
        trap_cause: 0,
        traparg0: 0,
    }
}

fn uop(decoded: DecodedInstruction, commit: CommitRecord) -> CycleUop {
    CycleUop {
        decoded,
        commit,
        deps: [None, None],
        src_queue_kinds: [None, None],
        src_logical_tags: [None, None],
        src_qtags: [None, None],
        dst_queue_kind: None,
        dst_logical_tag: None,
        dst_qtag: None,
        bypass_d2: false,
        is_load: false,
        is_store: false,
        load_ordinal: None,
        load_store_id: None,
        miss_injected: false,
        redirect_target: None,
        phys_iq: None,
        pick_wakeup_visible: None,
        data_ready_visible: None,
        miss_pending_until: None,
        e1_cycle: None,
        e4_cycle: None,
        w1_cycle: None,
        done_cycle: None,
    }
}

fn t_tag(tag: usize) -> LogicalQueueTag {
    LogicalQueueTag { kind: QueueWakeKind::T, tag }
}

/// A consumer of `t` entry `tag`, produced by micro-op 0, reading it as its first source.
fn t_consumer(decoded: DecodedInstruction, commit: CommitRecord, tag: usize) -> CycleUop {
    CycleUop {
        deps: [Some(0), None],
        src_queue_kinds: [Some(QueueWakeKind::T), None],
        src_logical_tags: [Some(t_tag(tag)), None],
        ..uop(decoded, CommitRecord { src0_valid: 1, src0_reg: REG_T1, ..commit })
    }
}

/// An ALU producer of `t` entry 0 in the first queue slot of ALU queue 0 and its consumer.
fn alu_t_pair() -> Vec<CycleUop> {
    vec![
        CycleUop {
            dst_queue_kind: Some(QueueWakeKind::T),
            dst_logical_tag: Some(t_tag(0)),
            phys_iq: Some(PhysIq::AluIq0),
            pick_wakeup_visible: Some(6),
            data_ready_visible: Some(6),
            ..uop(addi(), CommitRecord { wb_valid: 1, wb_rd: REG_T1, ..record(0x1000) })
        },
        CycleUop {
            src_qtags: [Some(QTag { phys_iq: PhysIq::AluIq0, entry_id: 0 }), None],
            phys_iq: Some(PhysIq::AluIq0),
            ..t_consumer(addi(), record(0x1004), 0)
        },
    ]
}

/// A load that missed, in flight, and an ALU op that reads its result.
fn load_and_consumer(data_ready: u64) -> Vec<CycleUop> {
    vec![
        CycleUop {
            is_load: true,
            load_ordinal: Some(0),
            load_store_id: Some(0),
            miss_injected: true,
            phys_iq: Some(PhysIq::AguIq0),
            pick_wakeup_visible: Some(5),
            data_ready_visible: Some(data_ready),
            e1_cycle: Some(4),
            ..uop(addi(), record(0x1000))
        },
        CycleUop {
            deps: [Some(0), None],
            phys_iq: Some(PhysIq::AluIq0),
            ..uop(addi(), CommitRecord { src0_valid: 1, src0_reg: 2, ..record(0x1004) })
        },
    ]
}

#[test]
fn s2_captures_qtag_for_implicit_t_consumer() {
    let mut pipeline = StageQueues::default();
    pipeline.frontend[10].extend([0, 1]);
    let mut iq = Vec::new();
    let mut rob = VecDeque::new();
    let mut uops = vec![
        CycleUop {
            dst_queue_kind: Some(QueueWakeKind::T),
            dst_logical_tag: Some(t_tag(0)),
            redirect_target: Some(0x2000),
            ..uop(decoded("ADDI", "addi x31, x0, 5", "ALU"), record(0x1000))
        },
        t_consumer(decoded("ADDI", "addi x2, t#1, 6", "ALU"), record(0x1004), 0),
    ];

    dispatch_to_iq_and_bypass(0, &mut pipeline, &mut iq, &mut rob, &mut uops);

    assert_eq!(uops[1].src_qtags[0], Some(QTag { phys_iq: PhysIq::AluIq0, entry_id: 0 }));
}

#[test]
fn later_implicit_t_consumer_captures_persistent_producer_qtag() {
    let mut uops = vec![
        CycleUop {
            dst_queue_kind: Some(QueueWakeKind::T),
            dst_logical_tag: Some(t_tag(1)),
            dst_qtag: Some(QTag { phys_iq: PhysIq::AluIq0, entry_id: 1 }),
            phys_iq: Some(PhysIq::AluIq0),
            pick_wakeup_visible: Some(4),
            data_ready_visible: Some(4),
            done_cycle: Some(5),
            ..uop(decoded("ADDI", "addi x31, x0, 5", "ALU"), record(0x1000))
        },
        t_consumer(decoded("ADDI", "addi x2, t#1, 6", "ALU"), record(0x1004), 1),
    ];

    annotate_qtag_sources(1, &SeqMap::new(), &BTreeSet::new(), &BTreeSet::new(), &mut uops);

    assert_eq!(uops[1].src_qtags[0], Some(QTag { phys_iq: PhysIq::AluIq0, entry_id: 1 }));
}

#[test]
fn build_uops_resolves_t_rel_to_latest_logical_t_tag() {
    let commits = vec![
        CommitRecord { wb_valid: 1, wb_rd: REG_T1, mem_valid: 1, mem_is_store: 0, ..record(0x1000) },
        CommitRecord { wb_valid: 1, wb_rd: REG_T1, mem_valid: 1, mem_is_store: 0, ..record(0x1002) },
        CommitRecord { src0_valid: 1, src0_reg: REG_T1, mem_valid: 1, mem_is_store: 1, ..record(0x1004) },
    ];
    let decoded = vec![t_producer_load(), t_producer_load(), t_consumer_store()];

    let uops = build_uops(&commits, &decoded);

    assert_eq!(uops[0].dst_logical_tag, Some(t_tag(0)));
    assert_eq!(uops[1].dst_logical_tag, Some(t_tag(1)));
    assert_eq!(uops[2].src_logical_tags[0], Some(t_tag(1)));
    assert_eq!(uops[2].deps[0], Some(1));
}

#[test]
fn ready_table_t_makes_late_consumer_ready_without_qtag() {
    let mut uops = vec![
        CycleUop {
            dst_queue_kind: Some(QueueWakeKind::T),
            dst_logical_tag: Some(t_tag(0)),
            dst_qtag: Some(QTag { phys_iq: PhysIq::AguIq0, entry_id: 3 }),
            is_load: true,
            load_ordinal: Some(0),
            load_store_id: Some(0),
            phys_iq: Some(PhysIq::AguIq0),
            pick_wakeup_visible: Some(4),
            data_ready_visible: Some(4),
            e1_cycle: Some(2),
            e4_cycle: Some(3),
            w1_cycle: Some(3),
            done_cycle: Some(4),
            ..uop(
                t_producer_load(),
                CommitRecord { wb_valid: 1, wb_rd: REG_T1, mem_valid: 1, mem_is_store: 0, ..record(0x1000) },
            )
        },
        CycleUop {
            is_store: true,
            load_store_id: Some(1),
            ..t_consumer(t_consumer_store(), CommitRecord { mem_valid: 1, mem_is_store: 1, ..record(0x1002) }, 0)
        },
    ];
    let mut ready_table_t = BTreeSet::new();
    ready_table_t.insert(0);

    annotate_qtag_sources(1, &SeqMap::new(), &ready_table_t, &BTreeSet::new(), &mut uops);

    assert_eq!(uops[1].src_qtags[0], None);
    assert_eq!(iq_entry_wait_cause(1, 5, 1, &uops), None);
}

#[test]
fn implicit_t_consumer_needs_no_rf_read_ports() {
    let uops = alu_t_pair();
    assert_eq!(read_ports_needed(1, 5, &uops), 0);
}

#[test]
fn iq_wait_cause_reports_wait_qtag_for_implicit_t_dependency() {
    let uops = alu_t_pair();
    assert_eq!(iq_entry_wait_cause(1, 5, 0, &uops), Some("wait_qtag"));
    assert_eq!(iq_entry_wait_cause(1, 6, 0, &uops), None);
}

#[test]
fn load_spec_ready_source_skips_rf_read_ports() {
    let uops = load_and_consumer(8);

    assert_eq!(read_ports_needed(1, 5, &uops), 0);
    assert!(iq_entry_ready(1, 5, 0, &uops));
    assert!(!i2_ready(1, 5, &uops));
    assert!(i2_ready(1, 8, &uops));
}

#[test]
fn load_consumer_waits_in_i2_for_e4_forward() {
    let uops = load_and_consumer(8);
    let mut i2 = VecDeque::from([1usize]);
    let mut e1 = VecDeque::new();
    let mut lhq = VecDeque::new();
    let mut stq = VecDeque::new();
    let mut lsid_issue_ptr = 0usize;
    let mut lsid_complete_ptr = 0usize;

    advance_i2(5, &mut i2, &mut e1, &mut lhq, &mut stq, &mut lsid_issue_ptr, &mut lsid_complete_ptr, &uops);
    assert_eq!(i2.iter().copied().collect::<Vec<_>>(), vec![1]);
    assert!(e1.is_empty());

    advance_i2(8, &mut i2, &mut e1, &mut lhq, &mut stq, &mut lsid_issue_ptr, &mut lsid_complete_ptr, &uops);
    assert!(i2.is_empty());
    assert_eq!(e1.iter().copied().collect::<Vec<_>>(), vec![1]);
    assert!(lhq.is_empty());
}

#[test]
fn miss_pending_suppresses_ld_e4_dependent_pick() {
    let mut uops = load_and_consumer(12);
    uops[0].miss_pending_until = Some(12);
    uops[0].e4_cycle = Some(7);

    assert!(miss_pending_active(8, &uops));
    assert_eq!(dep_load_gen_vec(0, 8, &uops), LD_GEN_E4);
    assert!(!iq_entry_ready(1, 8, 0, &uops));

    let mut replayed = uops.clone();
    replayed[0].miss_pending_until = None;
    replayed[0].e1_cycle = Some(12);
    replayed[0].e4_cycle = None;
    replayed[0].pick_wakeup_visible = Some(13);
    replayed[0].data_ready_visible = Some(16);
    assert!(iq_entry_ready(1, 13, 0, &replayed));
}
