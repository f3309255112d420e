use camodel::commit::retire_ready;
use camodel::config::CycleRunOptions;
use camodel::decode::build_uops;
use camodel::issue::advance_i2;
use camodel::lsu::{advance_execute, advance_l1d, advance_liq, advance_scb};
use camodel::model::{CycleUop, IqEntry, L1dEntry, L1dTxnKind, LiqEntry, MdbEntry, PhysIq, ScbEntry, StageQueues};
use camodel::record::{CommitRecord, DecodedInstruction};
use camodel::recovery::{prune_memory_owner_state_on_redirect, prune_speculative_state_on_redirect, rebase_lsid_on_redirect};
use camodel::select::i2_waits_on_lsid;
use camodel::trace::emit_stage_events;
use std::collections::VecDeque;

fn addi() -> DecodedInstruction {
    DecodedInstruction {
        mnemonic: "ADDI".to_string(),
        assembly: "addi x2, x0, 1".to_string(),
        uop_group: "ALU".to_string(),
        fields: Vec::new(),
    }
}

fn block_start() -> DecodedInstruction {
    DecodedInstruction {
        mnemonic: "C.BSTART.STD".to_string(),
        assembly: "c.bstart.std".to_string(),
        uop_group: "BRU".to_string(),
        fields: Vec::new(),
    }
}

fn record(pc: u64) -> CommitRecord {
    CommitRecord {
        cycle: 0,
        pc,
        insn: 0,
        len: 4,
        next_pc: pc + 4,
        src0_valid: 0,
        src0_reg: 0,
        src0_data: 0,
        src1_valid: 0,
        src1_reg: 0,
        src1_data: 0,
        wb_valid: 0,
        wb_rd: 0,
        wb_data: 0,
        mem_valid: 0,
        mem_is_store: 0,
        mem_addr: 0,
        mem_size: 0,
        trap_valid: 0,
        trap_cause: 0,
        traparg0: 0,
    }
}

fn memory_record(pc: u64, is_store: bool, addr: u64) -> CommitRecord {
    CommitRecord { mem_valid: 1, mem_is_store: if is_store { 1 } else { 0 }, mem_addr: addr, mem_size: 8, ..record(pc) }
}

fn uop(decoded: DecodedInstruction, commit: CommitRecord) -> CycleUop {
    CycleUop {
        decoded,
        commit,
        deps: [None, None],
        src_queue_kinds: [None, None],
        src_logical_tags: [None, None],
        src_qtags: [None, None],
        dst_queue_kind: None,
        dst_logical_tag: None,
        dst_qtag: None,
        bypass_d2: false,
        is_load: false,
        is_store: false,
        load_ordinal: None,
        load_store_id: None,
        miss_injected: false,
        redirect_target: None,
        phys_iq: None,
        pick_wakeup_visible: None,
        data_ready_visible: None,
        miss_pending_until: None,
        e1_cycle: None,
        e4_cycle: None,
        w1_cycle: None,
        done_cycle: None,
    }
}

fn load(pc: u64, addr: u64, ordinal: usize, lsid: usize) -> CycleUop {
    CycleUop {
        is_load: true,
        load_ordinal: Some(ordinal),
        load_store_id: Some(lsid),
        phys_iq: Some(PhysIq::AguIq0),
        ..uop(addi(), memory_record(pc, false, addr))
    }
}

fn store(pc: u64, addr: u64, lsid: usize) -> CycleUop {
    CycleUop {
        is_store: true,
        load_store_id: Some(lsid),
        phys_iq: Some(PhysIq::StdIq0),
        ..uop(addi(), memory_record(pc, true, addr))
    }
}

fn idle_entry(seq: usize, phys_iq: PhysIq, inflight: bool) -> IqEntry {
    IqEntry {
        seq,
        phys_iq,
        inflight,
        src_valid: [false; 2],
        src_ready_nonspec: [false; 2],
        src_ready_spec: [false; 2],
        src_wait_qtag: [false; 2],
    }
}

fn lane() -> String {
    "lane0".to_string()
}

#[test]
fn advance_execute_injects_configured_load_miss() {
    let mut pipeline = StageQueues::default();
    pipeline.e4.push_back(0);
    pipeline.lhq.push_back(0);
    let mut uops = vec![CycleUop {
        pick_wakeup_visible: Some(5),
        data_ready_visible: Some(8),
        e1_cycle: Some(4),
        e4_cycle: Some(7),
        ..load(0x1000, 0, 0, 0)
    }];

    advance_execute(
        9,
        &mut pipeline,
        &mut uops,
        &CycleRunOptions { max_cycles: 32, load_miss_every: Some(1), load_miss_penalty: 4 },
    );

    assert!(pipeline.w1.is_empty());
    assert_eq!(pipeline.liq.len(), 1);
    assert_eq!(pipeline.liq[0].seq, 0);
    assert_eq!(pipeline.liq[0].refill_ready_cycle, 13);
    assert_eq!(pipeline.mdb.len(), 1);
    assert_eq!(pipeline.mdb[0].seq, 0);
    assert!(pipeline.lhq.is_empty());
    assert!(uops[0].miss_injected);
    assert_eq!(uops[0].miss_pending_until, Some(13));
    assert_eq!(uops[0].pick_wakeup_visible, None);
    assert_eq!(uops[0].data_ready_visible, None);
    assert_eq!(uops[0].e1_cycle, None);
    assert_eq!(uops[0].e4_cycle, None);
}

#[test]
fn advance_liq_requeues_oldest_ready_load_into_e1() {
    let mut pipeline = StageQueues::default();
    pipeline.liq = VecDeque::from([
        LiqEntry { seq: 1, refill_ready_cycle: 11 },
        LiqEntry { seq: 0, refill_ready_cycle: 11 },
    ]);
    pipeline.mdb = VecDeque::from([
        MdbEntry { seq: 1, refill_ready_cycle: 11 },
        MdbEntry { seq: 0, refill_ready_cycle: 11 },
    ]);
    let mut uops = vec![
        CycleUop { miss_injected: true, miss_pending_until: Some(11), ..load(0x1000, 0, 0, 0) },
        CycleUop { miss_injected: true, miss_pending_until: Some(11), ..load(0x1004, 0, 1, 1) },
    ];
    let rob = VecDeque::from([0usize, 1]);

    advance_liq(11, &mut pipeline, &mut uops, &rob);

    assert_eq!(pipeline.e1.iter().copied().collect::<Vec<_>>(), vec![0]);
    assert_eq!(pipeline.liq.iter().map(|entry| entry.seq).collect::<Vec<_>>(), vec![1]);
    assert_eq!(pipeline.mdb.iter().map(|entry| entry.seq).collect::<Vec<_>>(), vec![1]);
    assert_eq!(pipeline.lhq.iter().copied().collect::<Vec<_>>(), vec![0]);
    assert_eq!(uops[0].miss_pending_until, None);
    assert_eq!(uops[1].miss_pending_until, Some(11));
}

#[test]
fn emit_stage_events_reports_liq_lhq_and_mdb() {
    let uops = vec![CycleUop { miss_injected: true, miss_pending_until: Some(12), ..load(0x1000, 0, 0, 0) }];
    let mut pipeline = StageQueues::default();
    pipeline.liq.push_back(LiqEntry { seq: 0, refill_ready_cycle: 12 });
    pipeline.lhq.push_back(0);
    pipeline.mdb.push_back(MdbEntry { seq: 0, refill_ready_cycle: 12 });
    let mut out = Vec::new();

    emit_stage_events(10, &lane(), &pipeline, &Vec::new(), &VecDeque::new(), &uops, &mut out);

    assert!(out.iter().any(|event| event.stage_id == "LIQ"));
    assert!(out.iter().any(|event| event.stage_id == "LHQ"));
    assert!(out.iter().any(|event| event.stage_id == "MDB"));
}

#[test]
fn build_uops_assigns_monotonic_load_store_ids() {
    let commits = vec![
        memory_record(0x1000, true, 0x2000),
        record(0x1004),
        memory_record(0x1008, false, 0x2008),
    ];
    let decoded = vec![addi(), addi(), addi()];

    let uops = build_uops(&commits, &decoded);

    assert_eq!(uops[0].load_store_id, Some(0));
    assert_eq!(uops[1].load_store_id, None);
    assert_eq!(uops[2].load_store_id, Some(1));
}

#[test]
fn redirect_rebases_lsid_to_oldest_surviving_unissued_memory_uop() {
    let mut pipeline = StageQueues::default();
    pipeline.lsid_issue_ptr = 9;
    pipeline.lsid_complete_ptr = 9;
    pipeline.lsid_cache_ptr = 9;
    pipeline.frontend[0].push_back(2);
    pipeline.i2.push_back(3);
    pipeline.e1.push_back(0);
    let iq = vec![idle_entry(1, PhysIq::AguIq0, false)];
    let rob = VecDeque::from([0usize, 1, 2, 3]);
    let uops = vec![
        CycleUop {
            pick_wakeup_visible: Some(4),
            data_ready_visible: Some(4),
            e1_cycle: Some(4),
            ..load(0x1000, 0x1000, 0, 0)
        },
        CycleUop { pick_wakeup_visible: Some(4), data_ready_visible: Some(4), ..load(0x1004, 0x1008, 1, 1) },
        CycleUop {
            redirect_target: Some(0x2000),
            phys_iq: Some(PhysIq::BruIq),
            pick_wakeup_visible: Some(4),
            data_ready_visible: Some(4),
            w1_cycle: Some(5),
            done_cycle: Some(5),
            ..uop(block_start(), record(0x1008))
        },
        CycleUop { pick_wakeup_visible: Some(4), data_ready_visible: Some(4), ..store(0x100c, 0x1010, 2) },
    ];

    rebase_lsid_on_redirect(5, &mut pipeline, &iq, &rob, &uops);

    assert_eq!(pipeline.lsid_issue_ptr, 1);
    assert_eq!(pipeline.lsid_complete_ptr, 1);
    assert_eq!(pipeline.lsid_cache_ptr, 0);
}

#[test]
fn redirect_rebase_ignores_non_redirect_cycles() {
    let mut pipeline = StageQueues::default();
    pipeline.lsid_issue_ptr = 4;
    pipeline.lsid_complete_ptr = 4;
    pipeline.lsid_cache_ptr = 4;
    pipeline.i2.push_back(0);
    let iq = Vec::new();
    let rob = VecDeque::from([0usize]);
    let uops = vec![CycleUop { pick_wakeup_visible: Some(0), data_ready_visible: Some(0), ..load(0x1000, 0x4000, 0, 0) }];

    rebase_lsid_on_redirect(7, &mut pipeline, &iq, &rob, &uops);

    assert_eq!(pipeline.lsid_issue_ptr, 4);
    assert_eq!(pipeline.lsid_complete_ptr, 4);
    assert_eq!(pipeline.lsid_cache_ptr, 4);
}

#[test]
fn redirect_prunes_younger_memory_owner_state() {
    let mut pipeline = StageQueues::default();
    pipeline.stq.extend([0usize, 3]);
    pipeline.lhq.extend([1usize, 4]);
    pipeline.liq.push_back(LiqEntry { seq: 0, refill_ready_cycle: 9 });
    pipeline.liq.push_back(LiqEntry { seq: 3, refill_ready_cycle: 9 });
    pipeline.mdb.push_back(MdbEntry { seq: 1, refill_ready_cycle: 9 });
    pipeline.mdb.push_back(MdbEntry { seq: 4, refill_ready_cycle: 9 });
    pipeline.scb.push_back(ScbEntry { seq: 2, enqueue_cycle: 4 });
    pipeline.scb.push_back(ScbEntry { seq: 5, enqueue_cycle: 4 });
    pipeline.l1d.push_back(L1dEntry { seq: 1, kind: L1dTxnKind::LoadHit, ready_cycle: 6 });
    pipeline.l1d.push_back(L1dEntry { seq: 4, kind: L1dTxnKind::StoreDrain, ready_cycle: 6 });
    let uops = vec![
        CycleUop { pick_wakeup_visible: Some(4), data_ready_visible: Some(4), ..store(0x1000, 0x1000, 0) },
        CycleUop { pick_wakeup_visible: Some(4), data_ready_visible: Some(4), ..load(0x1004, 0x1008, 0, 1) },
        CycleUop {
            redirect_target: Some(0x2000),
            phys_iq: Some(PhysIq::BruIq),
            pick_wakeup_visible: Some(4),
            data_ready_visible: Some(4),
            w1_cycle: Some(5),
            done_cycle: Some(5),
            ..uop(block_start(), record(0x1008))
        },
        CycleUop { pick_wakeup_visible: Some(4), data_ready_visible: Some(4), ..store(0x100c, 0x1010, 2) },
        CycleUop { pick_wakeup_visible: Some(4), data_ready_visible: Some(4), ..load(0x1010, 0x1018, 1, 3) },
        CycleUop { pick_wakeup_visible: Some(4), data_ready_visible: Some(4), ..store(0x1014, 0x1020, 4) },
    ];

    prune_memory_owner_state_on_redirect(5, &mut pipeline, &uops);

    assert_eq!(pipeline.stq.iter().copied().collect::<Vec<_>>(), vec![0]);
    assert_eq!(pipeline.lhq.iter().copied().collect::<Vec<_>>(), vec![1]);
    assert_eq!(pipeline.liq.iter().map(|entry| entry.seq).collect::<Vec<_>>(), vec![0]);
    assert_eq!(pipeline.mdb.iter().map(|entry| entry.seq).collect::<Vec<_>>(), vec![1]);
    assert_eq!(pipeline.scb.iter().map(|entry| entry.seq).collect::<Vec<_>>(), vec![2]);
    assert_eq!(pipeline.l1d.iter().map(|entry| entry.seq).collect::<Vec<_>>(), vec![1]);
}

#[test]
fn redirect_prunes_younger_frontend_iq_backend_and_rob_state() {
    let mut pipeline = StageQueues::default();
    pipeline.frontend[0].extend([1usize, 4]);
    pipeline.frontend[7].extend([2usize, 5]);
    pipeline.p1.extend([1usize, 4]);
    pipeline.i1.extend([2usize, 5]);
    pipeline.i2.extend([1usize, 6]);
    pipeline.e1.extend([0usize, 4]);
    pipeline.e2.extend([1usize, 5]);
    pipeline.e3.extend([2usize, 6]);
    pipeline.e4.extend([1usize, 7]);
    pipeline.w1.extend([2usize, 8]);
    pipeline.w2.extend([0usize, 9]);
    let mut iq = vec![idle_entry(1, PhysIq::AluIq0, false), idle_entry(6, PhysIq::AguIq0, true)];
    let mut rob = VecDeque::from([0usize, 1, 2, 6]);
    let alu = |pc: u64, q: PhysIq| CycleUop {
        phys_iq: Some(q),
        pick_wakeup_visible: Some(4),
        data_ready_visible: Some(4),
        ..uop(addi(), record(pc))
    };
    let uops = vec![
        alu(0x1000, PhysIq::AluIq0),
        alu(0x1004, PhysIq::AluIq0),
        CycleUop {
            redirect_target: Some(0x2000),
            phys_iq: Some(PhysIq::BruIq),
            pick_wakeup_visible: Some(4),
            data_ready_visible: Some(4),
            w1_cycle: Some(5),
            done_cycle: Some(5),
            ..uop(block_start(), record(0x1008))
        },
        alu(0x100c, PhysIq::AluIq0),
        alu(0x1010, PhysIq::AluIq0),
        alu(0x1014, PhysIq::AluIq0),
        alu(0x1018, PhysIq::AguIq0),
        alu(0x101c, PhysIq::AguIq0),
        alu(0x1020, PhysIq::AguIq0),
        alu(0x1024, PhysIq::AguIq0),
    ];

    prune_speculative_state_on_redirect(5, &mut pipeline, &mut iq, &mut rob, &uops);

    assert_eq!(pipeline.frontend[0].iter().copied().collect::<Vec<_>>(), vec![1]);
    assert_eq!(pipeline.frontend[7].iter().copied().collect::<Vec<_>>(), vec![2]);
    assert_eq!(pipeline.p1.iter().copied().collect::<Vec<_>>(), vec![1]);
    assert_eq!(pipeline.i1.iter().copied().collect::<Vec<_>>(), vec![2]);
    assert_eq!(pipeline.i2.iter().copied().collect::<Vec<_>>(), vec![1]);
    assert_eq!(pipeline.e1.iter().copied().collect::<Vec<_>>(), vec![0]);
    assert_eq!(pipeline.e2.iter().copied().collect::<Vec<_>>(), vec![1]);
    assert_eq!(pipeline.e3.iter().copied().collect::<Vec<_>>(), vec![2]);
    assert_eq!(pipeline.e4.iter().copied().collect::<Vec<_>>(), vec![1]);
    assert_eq!(pipeline.w1.iter().copied().collect::<Vec<_>>(), vec![2]);
    assert_eq!(pipeline.w2.iter().copied().collect::<Vec<_>>(), vec![0]);
    assert_eq!(iq.iter().map(|entry| entry.seq).collect::<Vec<_>>(), vec![1]);
    assert_eq!(rob.iter().copied().collect::<Vec<_>>(), vec![0, 1, 2]);
}

#[test]
fn i2_waits_for_matching_lsid_before_memory_issue() {
    let uops = vec![CycleUop { pick_wakeup_visible: Some(5), data_ready_visible: Some(5), ..load(0x1000, 0x5000, 0, 1) }];
    let mut i2 = VecDeque::from([0usize]);
    let mut e1 = VecDeque::new();
    let mut lhq = VecDeque::new();
    let mut stq = VecDeque::new();
    let mut lsid_issue_ptr = 0usize;
    let mut lsid_complete_ptr = 0usize;

    assert!(i2_waits_on_lsid(0, 5, lsid_issue_ptr, &uops));
    advance_i2(5, &mut i2, &mut e1, &mut lhq, &mut stq, &mut lsid_issue_ptr, &mut lsid_complete_ptr, &uops);

    assert_eq!(i2.iter().copied().collect::<Vec<_>>(), vec![0]);
    assert!(e1.is_empty());
    assert_eq!(lsid_issue_ptr, 0);
    assert_eq!(lsid_complete_ptr, 0);

    lsid_issue_ptr = 1;
    lsid_complete_ptr = 1;
    advance_i2(5, &mut i2, &mut e1, &mut lhq, &mut stq, &mut lsid_issue_ptr, &mut lsid_complete_ptr, &uops);

    assert!(i2.is_empty());
    assert_eq!(e1.iter().copied().collect::<Vec<_>>(), vec![0]);
    assert_eq!(lhq.iter().copied().collect::<Vec<_>>(), vec![0]);
    assert_eq!(lsid_issue_ptr, 2);
    assert_eq!(lsid_complete_ptr, 2);
}

#[test]
fn store_enters_stq_at_i2_confirmation() {
    let uops = vec![CycleUop { pick_wakeup_visible: Some(5), data_ready_visible: Some(5), ..store(0x1000, 0x2000, 0) }];
    let mut i2 = VecDeque::from([0usize]);
    let mut e1 = VecDeque::new();
    let mut lhq = VecDeque::new();
    let mut stq = VecDeque::new();
    let mut lsid_issue_ptr = 0usize;
    let mut lsid_complete_ptr = 0usize;

    advance_i2(5, &mut i2, &mut e1, &mut lhq, &mut stq, &mut lsid_issue_ptr, &mut lsid_complete_ptr, &uops);

    assert!(i2.is_empty());
    assert_eq!(e1.iter().copied().collect::<Vec<_>>(), vec![0]);
    assert!(lhq.is_empty());
    assert_eq!(stq.iter().copied().collect::<Vec<_>>(), vec![0]);
    assert_eq!(lsid_issue_ptr, 1);
    assert_eq!(lsid_complete_ptr, 1);
}

#[test]
fn retired_store_moves_from_stq_to_scb() {
    let mut rob = VecDeque::from([0usize]);
    let mut committed = Vec::new();
    let mut retired_seqs = Vec::new();
    let mut stage_events = Vec::new();
    let mut pipeline = StageQueues::default();
    pipeline.stq.push_back(0);
    let uops = vec![CycleUop { w1_cycle: Some(7), done_cycle: Some(8), ..store(0x1000, 0x2000, 0) }];

    retire_ready(9, &lane(), &mut rob, &mut committed, &mut retired_seqs, &mut pipeline, &uops, &mut stage_events);

    assert!(pipeline.stq.is_empty());
    assert_eq!(pipeline.scb.len(), 1);
    assert_eq!(pipeline.scb[0].seq, 0);
    assert_eq!(pipeline.scb[0].enqueue_cycle, 9);
}

#[test]
fn emit_stage_events_marks_store_forwarded_loads() {
    let uops = vec![
        store(0x1000, 0x3000, 0),
        CycleUop { data_ready_visible: Some(10), e4_cycle: Some(9), ..load(0x1004, 0x3000, 0, 1) },
    ];
    let mut pipeline = StageQueues::default();
    pipeline.stq.push_back(0);
    pipeline.e4.push_back(1);
    let mut out = Vec::new();

    emit_stage_events(9, &lane(), &pipeline, &Vec::new(), &VecDeque::new(), &uops, &mut out);

    assert!(out.iter().any(|event| event.stage_id == "STQ" && event.row_id == "uop0"));
    assert!(out
        .iter()
        .any(|event| event.stage_id == "E4" && event.row_id == "uop1" && event.cause == "ld_store_forward"));
}

#[test]
fn load_hit_transitions_through_l1d_before_w1() {
    let mut uops = vec![CycleUop {
        pick_wakeup_visible: Some(6),
        data_ready_visible: Some(9),
        e1_cycle: Some(6),
        e4_cycle: Some(8),
        ..load(0x1000, 0x4000, 0, 0)
    }];
    let mut pipeline = StageQueues::default();
    pipeline.e4.push_back(0);
    pipeline.lhq.push_back(0);

    advance_execute(8, &mut pipeline, &mut uops, &CycleRunOptions::default());
    assert!(pipeline.e4.is_empty());
    assert!(pipeline.w1.is_empty());
    assert_eq!(pipeline.lhq.iter().copied().collect::<Vec<_>>(), vec![0]);
    assert_eq!(pipeline.l1d.len(), 1);
    assert_eq!(pipeline.l1d[0].seq, 0);
    assert_eq!(pipeline.l1d[0].kind, L1dTxnKind::LoadHit);
    assert_eq!(pipeline.l1d[0].ready_cycle, 9);
    assert_eq!(pipeline.lsid_cache_ptr, 0);

    advance_l1d(8, &mut pipeline);
    assert!(pipeline.w1.is_empty());
    assert_eq!(pipeline.lhq.iter().copied().collect::<Vec<_>>(), vec![0]);
    assert_eq!(pipeline.lsid_cache_ptr, 0);

    advance_l1d(9, &mut pipeline);
    assert_eq!(pipeline.w1.iter().copied().collect::<Vec<_>>(), vec![0]);
    assert!(pipeline.l1d.is_empty());
    assert!(pipeline.lhq.is_empty());
    assert_eq!(pipeline.lsid_cache_ptr, 1);
}

#[test]
fn scb_ready_entry_moves_through_l1d_drain() {
    let mut pipeline = StageQueues::default();
    let uops = vec![CycleUop {
        pick_wakeup_visible: Some(8),
        data_ready_visible: Some(8),
        e1_cycle: Some(8),
        ..store(0x1000, 0x4000, 0)
    }];
    pipeline.scb.push_back(ScbEntry { seq: 3, enqueue_cycle: 9 });
    pipeline.scb.clear();
    pipeline.scb.push_back(ScbEntry { seq: 0, enqueue_cycle: 9 });

    advance_scb(10, &mut pipeline, &uops);
    assert!(pipeline.scb.is_empty());
    assert_eq!(pipeline.l1d.len(), 1);
    assert_eq!(pipeline.l1d[0].seq, 0);
    assert_eq!(pipeline.l1d[0].kind, L1dTxnKind::StoreDrain);
    assert_eq!(pipeline.l1d[0].ready_cycle, 11);

    advance_l1d(10, &mut pipeline);
    assert_eq!(pipeline.l1d.len(), 1);
    assert_eq!(pipeline.lsid_cache_ptr, 0);

    advance_l1d(11, &mut pipeline);
    assert!(pipeline.l1d.is_empty());
    assert_eq!(pipeline.lsid_cache_ptr, 1);
}

#[test]
fn load_hit_waits_for_cache_owner_turn() {
    let mut uops = vec![CycleUop {
        pick_wakeup_visible: Some(6),
        data_ready_visible: Some(9),
        e1_cycle: Some(6),
        e4_cycle: Some(8),
        ..load(0x1000, 0x4100, 1, 1)
    }];
    let mut pipeline = StageQueues::default();
    pipeline.e4.push_back(0);
    pipeline.lhq.push_back(0);
    pipeline.lsid_cache_ptr = 0;

    advance_execute(8, &mut pipeline, &mut uops, &CycleRunOptions::default());
    assert_eq!(pipeline.e4.iter().copied().collect::<Vec<_>>(), vec![0]);
    assert!(pipeline.l1d.is_empty());

    pipeline.lsid_cache_ptr = 1;
    advance_execute(8, &mut pipeline, &mut uops, &CycleRunOptions::default());
    assert!(pipeline.e4.is_empty());
    assert_eq!(pipeline.l1d.len(), 1);
    assert_eq!(pipeline.l1d[0].seq, 0);
}

#[test]
fn scb_drain_waits_for_cache_owner_turn() {
    let uops = vec![CycleUop {
        pick_wakeup_visible: Some(8),
        data_ready_visible: Some(8),
        e1_cycle: Some(8),
        ..store(0x1000, 0x4200, 1)
    }];
    let mut pipeline = StageQueues::default();
    pipeline.scb.push_back(ScbEntry { seq: 0, enqueue_cycle: 9 });
    pipeline.lsid_cache_ptr = 0;

    advance_scb(10, &mut pipeline, &uops);
    assert_eq!(pipeline.scb.len(), 1);
    assert!(pipeline.l1d.is_empty());

    pipeline.lsid_cache_ptr = 1;
    advance_scb(10, &mut pipeline, &uops);
    assert!(pipeline.scb.is_empty());
    assert_eq!(pipeline.l1d.len(), 1);
    assert_eq!(pipeline.l1d[0].seq, 0);
}

#[test]
fn emit_stage_events_includes_l1d_transactions() {
    let uops = vec![CycleUop {
        pick_wakeup_visible: Some(6),
        data_ready_visible: Some(9),
        e1_cycle: Some(6),
        e4_cycle: Some(8),
        ..load(0x1000, 0x4000, 0, 0)
    }];
    let mut pipeline = StageQueues::default();
    pipeline.l1d.push_back(L1dEntry { seq: 0, kind: L1dTxnKind::LoadHit, ready_cycle: 9 });
    let mut out = Vec::new();

    emit_stage_events(9, &lane(), &pipeline, &Vec::new(), &VecDeque::new(), &uops, &mut out);

    assert!(out
        .iter()
        .any(|event| event.stage_id == "L1D" && event.row_id == "uop0" && event.cause == "load_hit_resp"));
}

#[test]
fn advance_i2_respects_single_load_slot() {
    let uops = vec![
        CycleUop {
            pick_wakeup_visible: Some(5),
            data_ready_visible: Some(8),
            e1_cycle: Some(4),
            ..CycleUop { commit: record(0x1000), ..load(0x1000, 0, 0, 0) }
        },
        CycleUop {
            pick_wakeup_visible: Some(5),
            data_ready_visible: Some(8),
            ..CycleUop { commit: record(0x1004), ..load(0x1004, 0, 1, 1) }
        },
    ];
    let mut i2 = VecDeque::from([1usize]);
    let mut e1 = VecDeque::from([0usize]);
    let mut lhq = VecDeque::from([0usize]);
    let mut stq = VecDeque::new();
    let mut lsid_issue_ptr = 0usize;
    let mut lsid_complete_ptr = 0usize;

    advance_i2(8, &mut i2, &mut e1, &mut lhq, &mut stq, &mut lsid_issue_ptr, &mut lsid_complete_ptr, &uops);

    assert_eq!(e1.iter().copied().collect::<Vec<_>>(), vec![0]);
    assert_eq!(i2.iter().copied().collect::<Vec<_>>(), vec![1]);
    assert_eq!(lhq.iter().copied().collect::<Vec<_>>(), vec![0]);
}
