use camodel::blocks::checkpoint_id_for_seq;
use camodel::decode::build_uops;
use camodel::dispatch::fill_fetch;
use camodel::iq::rebuild_iq_owner_table;
use camodel::model::{CycleUop, FrontendRedirectState, IqEntry, PendingFlushState, PhysIq, QTag, StageQueues};
use camodel::owner::live_checkpoint_id_for_seq;
use camodel::record::{CommitRecord, DecodedInstruction};
use camodel::recovery::{apply_pending_flush, schedule_frontend_redirect_recovery};
use std::collections::VecDeque;

fn addi() -> DecodedInstruction {
    DecodedInstruction {
        mnemonic: "ADDI".to_string(),
        assembly: "addi x2, x0, 1".to_string(),
        uop_group: "ALU".to_string(),
        fields: Vec::new(),
    }
}

fn block_start() -> DecodedInstruction {
    DecodedInstruction {
        mnemonic: "C.BSTART.STD".to_string(),
        assembly: "c.bstart.std".to_string(),
        uop_group: "BRU".to_string(),
        fields: Vec::new(),
    }
}

fn record(pc: u64, len: u8, next_pc: u64) -> CommitRecord {
    CommitRecord {
        cycle: 0,
        pc,
        insn: 0,
        len,
        next_pc,
        src0_valid: 0,
        src0_reg: 0,
        src0_data: 0,
        src1_valid: 0,
        src1_reg: 0,
        src1_data: 0,
        wb_valid: 0,
        wb_rd: 0,
        wb_data: 0,
        mem_valid: 0,
        mem_is_store: 0,
        mem_addr: 0,
        mem_size: 0,
        trap_valid: 0,
        trap_cause: 0,
        traparg0: 0,
    }
}

fn uop(decoded: DecodedInstruction, commit: CommitRecord) -> CycleUop {
    CycleUop {
        decoded,
        commit,
        deps: [None, None],
        src_queue_kinds: [None, None],
        src_logical_tags: [None, None],
        src_qtags: [None, None],
        dst_queue_kind: None,
        dst_logical_tag: None,
        dst_qtag: None,
        bypass_d2: false,
        is_load: false,
        is_store: false,
        load_ordinal: None,
        load_store_id: None,
        miss_injected: false,
        redirect_target: None,
        phys_iq: None,
        pick_wakeup_visible: None,
        data_ready_visible: None,
        miss_pending_until: None,
        e1_cycle: None,
        e4_cycle: None,
        w1_cycle: None,
        done_cycle: None,
    }
}

/// A block start at 0x1000 that jumps to 0x1100, then the instruction there.
fn jump_then_addi() -> Vec<CycleUop> {
    let commits = vec![record(0x1000, 4, 0x1100), record(0x1100, 4, 0x1104)];
    let decoded = vec![block_start(), addi()];
    build_uops(&commits, &decoded)
}

#[test]
fn fetch_serializes_at_unresolved_redirects() {
    let mut uops = jump_then_addi();
    let mut pipeline = StageQueues::default();
    let mut next_fetch_seq = 0usize;

    fill_fetch(0, &mut pipeline, &mut next_fetch_seq, &uops);
    assert_eq!(pipeline.frontend[0].iter().copied().collect::<Vec<_>>(), vec![0]);

    pipeline.frontend[0].clear();
    fill_fetch(1, &mut pipeline, &mut next_fetch_seq, &uops);
    assert!(pipeline.frontend[0].is_empty());

    uops[0].w1_cycle = Some(4);
    fill_fetch(4, &mut pipeline, &mut next_fetch_seq, &uops);
    assert_eq!(pipeline.frontend[0].iter().copied().collect::<Vec<_>>(), vec![1]);
}

#[test]
fn fill_fetch_assigns_packet_checkpoint_from_head_pc() {
    let uops = (0..5u64)
        .map(|idx| {
            let commit = CommitRecord { wb_valid: 1, wb_rd: 2, wb_data: 1, ..record(0x1000 + idx * 4, 4, 0x1004 + idx * 4) };
            uop(addi(), commit)
        })
        .collect::<Vec<_>>();
    let mut pipeline = StageQueues::default();
    let mut next_fetch_seq = 0usize;

    fill_fetch(0, &mut pipeline, &mut next_fetch_seq, &uops);
    assert_eq!(pipeline.seq_checkpoint_ids.get(0), Some(0));
    assert_eq!(pipeline.seq_checkpoint_ids.get(1), Some(0));
    assert_eq!(pipeline.seq_checkpoint_ids.get(2), Some(0));
    assert_eq!(pipeline.seq_checkpoint_ids.get(3), Some(0));

    pipeline.frontend[0].clear();
    fill_fetch(1, &mut pipeline, &mut next_fetch_seq, &uops);
    assert_eq!(pipeline.seq_checkpoint_ids.get(4), Some(4));
    assert_eq!(live_checkpoint_id_for_seq(4, &pipeline, &uops), 4);
}

#[test]
fn frontend_redirect_restart_waits_until_next_cycle() {
    let mut uops = jump_then_addi();
    let mut pipeline = StageQueues::default();
    let mut iq = Vec::new();
    let mut rob = VecDeque::new();
    let mut next_fetch_seq = 1usize;

    uops[0].w1_cycle = Some(7);
    schedule_frontend_redirect_recovery(7, &mut pipeline, &uops);
    assert_eq!(
        pipeline.frontend_redirect,
        Some(FrontendRedirectState {
            source_seq: 0,
            target_pc: 0x1100,
            restart_seq: 1,
            checkpoint_id: checkpoint_id_for_seq(0, &uops),
            from_correction: false,
            resume_cycle: 8,
        }),
        "redirect restart should be delayed to the next cycle"
    );
    assert_eq!(pipeline.flush_checkpoint_id, Some(checkpoint_id_for_seq(0, &uops)));
    assert_eq!(
        pipeline.pending_flush,
        Some(PendingFlushState { flush_seq: 0, checkpoint_id: checkpoint_id_for_seq(0, &uops), apply_cycle: 8 })
    );

    fill_fetch(7, &mut pipeline, &mut next_fetch_seq, &uops);
    assert!(pipeline.frontend[0].is_empty());

    apply_pending_flush(7, &mut pipeline, &mut iq, &mut rob, &uops);
    assert_eq!(
        pipeline.pending_flush,
        Some(PendingFlushState { flush_seq: 0, checkpoint_id: checkpoint_id_for_seq(0, &uops), apply_cycle: 8 })
    );
    apply_pending_flush(8, &mut pipeline, &mut iq, &mut rob, &uops);
    assert_eq!(pipeline.pending_flush, None);
    fill_fetch(8, &mut pipeline, &mut next_fetch_seq, &uops);
    assert_eq!(pipeline.frontend[0].iter().copied().collect::<Vec<_>>(), vec![1]);
}

#[test]
fn pending_flush_prunes_speculative_state_on_registered_cycle() {
    let uops = vec![
        CycleUop {
            redirect_target: Some(0x1100),
            phys_iq: Some(PhysIq::BruIq),
            w1_cycle: Some(7),
            ..uop(block_start(), CommitRecord { insn: 2048, ..record(0x1000, 2, 0x1100) })
        },
        CycleUop { phys_iq: Some(PhysIq::SharedIq1), ..uop(addi(), record(0x1002, 4, 0x1006)) },
    ];
    let mut pipeline = StageQueues::default();
    let mut iq = vec![IqEntry {
        seq: 1,
        phys_iq: PhysIq::SharedIq1,
        inflight: false,
        src_valid: [false, false],
        src_ready_nonspec: [false, false],
        src_ready_spec: [false, false],
        src_wait_qtag: [false, false],
    }];
    let mut rob = VecDeque::from([0usize, 1usize]);
    pipeline.frontend[0].push_back(1);
    pipeline.iq_tags.insert(1, QTag { phys_iq: PhysIq::SharedIq1, entry_id: 0 });
    rebuild_iq_owner_table(&mut pipeline.iq_owner_table, &iq, &pipeline.iq_tags);

    schedule_frontend_redirect_recovery(7, &mut pipeline, &uops);
    assert_eq!(pipeline.frontend[0].iter().copied().collect::<Vec<_>>(), vec![1]);
    assert_eq!(iq.iter().map(|entry| entry.seq).collect::<Vec<_>>(), vec![1]);
    assert_eq!(rob.iter().copied().collect::<Vec<_>>(), vec![0, 1]);

    apply_pending_flush(7, &mut pipeline, &mut iq, &mut rob, &uops);
    assert_eq!(pipeline.frontend[0].iter().copied().collect::<Vec<_>>(), vec![1]);
    assert_eq!(iq.iter().map(|entry| entry.seq).collect::<Vec<_>>(), vec![1]);
    assert_eq!(rob.iter().copied().collect::<Vec<_>>(), vec![0, 1]);

    apply_pending_flush(8, &mut pipeline, &mut iq, &mut rob, &uops);
    assert!(pipeline.frontend[0].is_empty());
    assert!(iq.is_empty());
    assert_eq!(rob.iter().copied().collect::<Vec<_>>(), vec![0]);
    assert_eq!(pipeline.pending_flush, None);
}
