use camodel::blocks::checkpoint_id_for_seq;
use camodel::commit::retire_ready;
use camodel::config::{
    TRAP_BRU_RECOVERY_NOT_BSTART, TRAP_DYNAMIC_TARGET_MISSING, TRAP_DYNAMIC_TARGET_NOT_BSTART, TRAP_DYNAMIC_TARGET_STALE, TRAP_SETRET_NOT_ADJACENT,
};
use camodel::decode::{build_uops, d2_bypass, registers_fit};
use camodel::dispatch::{dispatch_to_iq_and_bypass, fill_fetch};
use camodel::model::{
    BranchOwnerContext, BranchOwnerKind, BruCorrectionState, CallMaterializationKind, CycleUop, DynamicTargetSourceKind,
    FrontendRedirectState, PendingFlushState, PendingTrapState, PhysIq, ReadyTableCheckpoint, ReturnConsumerKind,
    StageQueues,
};
use camodel::owner::{live_rob_checkpoint_id_for_seq, recovery_checkpoint_id_for_seq};
use camodel::recovery::{
    apply_pending_flush, publish_bru_correction_state, publish_call_header_fault_state, publish_dynamic_boundary_target_fault_state, schedule_frontend_redirect_recovery,
};
use camodel::record::{CommitRecord, DecodedField, DecodedInstruction};
use camodel::trace::emit_stage_events;
use std::collections::{BTreeSet, VecDeque};

fn decoded(mnemonic: &str, assembly: &str, uop_group: &str, fields: &[(&str, u64)]) -> DecodedInstruction {
    DecodedInstruction {
        mnemonic: mnemonic.to_string(),
        assembly: assembly.to_string(),
        uop_group: uop_group.to_string(),
        fields: fields.iter().map(|(n, v)| DecodedField { name: n.to_string(), value_u64: *v }).collect(),
    }
}

fn addi() -> DecodedInstruction {
    decoded("ADDI", "addi x2, x0, 1", "ALU", &[])
}

fn cmp_nei() -> DecodedInstruction {
    decoded("CMP.NEI", "cmp.nei x2, x2, 1", "BRU", &[])
}

/// The compact standard block start whose `BrType` field (the bits above
/// bit 10 of `insn`) names the kind of branch that ends the block.
fn c_bstart_std(insn: u64) -> DecodedInstruction {
    decoded("C.BSTART.STD", "C.BSTART.STD", "BRU", &[("BrType", insn >> 11)])
}

fn bstart_ret() -> DecodedInstruction {
    c_bstart_std(14336)
}

fn call_header() -> DecodedInstruction {
    decoded("BSTART.STD", "BSTART.STD CALL, 0x2000", "BRU", &[])
}

fn block_start() -> DecodedInstruction {
    c_bstart_std(2048)
}

fn c_bstart_cond() -> DecodedInstruction {
    decoded("C.BSTART", "C.BSTART COND, 0x100", "BRU", &[])
}

fn setc_tgt_ra() -> DecodedInstruction {
    decoded("C.SETC.TGT", "C.SETC.TGT ra", "CMD", &[])
}

fn bstop() -> DecodedInstruction {
    decoded("C.BSTOP", "C.BSTOP", "BRU", &[])
}

fn c_setret() -> DecodedInstruction {
    decoded("C.SETRET", "C.SETRET 0x4", "BBD", &[])
}

fn fret_ra() -> DecodedInstruction {
    decoded("FRET.RA", "FRET.RA [x10], sp!, 16", "CMD", &[])
}

fn fret_stk() -> DecodedInstruction {
    decoded("FRET.STK", "FRET.STK [x10], sp!, 16", "CMD", &[])
}

fn record(pc: u64, insn: u64, len: u8) -> CommitRecord {
    CommitRecord {
        cycle: 0,
        pc,
        insn,
        len,
        next_pc: pc + len as u64,
        src0_valid: 0,
        src0_reg: 0,
        src0_data: 0,
        src1_valid: 0,
        src1_reg: 0,
        src1_data: 0,
        wb_valid: 0,
        wb_rd: 0,
        wb_data: 0,
        mem_valid: 0,
        mem_is_store: 0,
        mem_addr: 0,
        mem_size: 0,
        trap_valid: 0,
        trap_cause: 0,
        traparg0: 0,
    }
}

/// A record with its own retire cycle and next pc.
fn step(cycle: u64, pc: u64, insn: u64, len: u8, next_pc: u64) -> CommitRecord {
    CommitRecord { cycle, next_pc, ..record(pc, insn, len) }
}

/// `r` writing `data` to register `rd`.
fn writing(r: CommitRecord, rd: u8, data: u64) -> CommitRecord {
    CommitRecord { wb_valid: 1, wb_rd: rd, wb_data: data, ..r }
}

/// `r` reading `data` from register `reg` as its first source.
fn reading(r: CommitRecord, reg: u8, data: u64) -> CommitRecord {
    CommitRecord { src0_valid: 1, src0_reg: reg, src0_data: data, ..r }
}

/// S2 holding micro-ops `0..n`, all in checkpoint 0.
fn s2_pipeline(n: usize) -> StageQueues {
    let mut pipeline = StageQueues::default();
    for seq in 0..n {
        pipeline.frontend[10].push_back(seq);
        pipeline.seq_checkpoint_ids.insert(seq, 0);
    }
    pipeline
}

fn uop(decoded: DecodedInstruction, commit: CommitRecord) -> CycleUop {
    CycleUop {
        decoded,
        commit,
        deps: [None, None],
        src_queue_kinds: [None, None],
        src_logical_tags: [None, None],
        src_qtags: [None, None],
        dst_queue_kind: None,
        dst_logical_tag: None,
        dst_qtag: None,
        bypass_d2: false,
        is_load: false,
        is_store: false,
        load_ordinal: None,
        load_store_id: None,
        miss_injected: false,
        redirect_target: None,
        phys_iq: None,
        pick_wakeup_visible: None,
        data_ready_visible: None,
        miss_pending_until: None,
        e1_cycle: None,
        e4_cycle: None,
        w1_cycle: None,
        done_cycle: None,
    }
}

/// A micro-op that finished in cycle 3.
fn done(decoded: DecodedInstruction, commit: CommitRecord, redirect_target: Option<u64>) -> CycleUop {
    CycleUop { redirect_target, w1_cycle: Some(3), done_cycle: Some(3), ..uop(decoded, commit) }
}

fn lane() -> String {
    "scalar0".to_string()
}

fn context(kind: BranchOwnerKind, base_pc: u64, target_pc: u64, off: u64, pred_take: bool) -> BranchOwnerContext {
    BranchOwnerContext { kind, base_pc, target_pc, off, pred_take, epoch: 1 }
}

#[test]
fn d2_bypass_matches_documented_immediate_only_path() {
    let setret = decoded("HL.SETRET", "HL.SETRET 0x10", "BBD", &[]);
    let fentry = decoded("FENTRY", "FENTRY [x10~x12], sp!, 16", "CMD", &[]);

    assert!(d2_bypass(&setret));
    assert!(!d2_bypass(&fentry));
}

#[test]
fn ret_start_marker_preserves_live_kind_before_target_setup() {
    let commits = vec![record(0x1000, 14336, 2), record(0x1002, 0, 4)];
    let decoded = vec![bstart_ret(), addi()];
    let mut uops = build_uops(&commits, &decoded);
    let mut pipeline = StageQueues::default();
    let mut iq = Vec::new();
    let mut rob = VecDeque::new();
    pipeline.frontend[10].extend([0, 1]);
    pipeline.seq_checkpoint_ids.insert(0, 0);
    pipeline.seq_checkpoint_ids.insert(1, 0);

    dispatch_to_iq_and_bypass(0, &mut pipeline, &mut iq, &mut rob, &mut uops);

    assert_eq!(pipeline.active_branch_context.kind, BranchOwnerKind::Ret);
    assert_eq!(
        pipeline.seq_branch_contexts.get(1),
        Some(BranchOwnerContext {
            kind: BranchOwnerKind::Ret,
            base_pc: 0x1000,
            target_pc: 0,
            off: 0,
            pred_take: false,
            epoch: 1,
        })
    );
}

#[test]
fn fret_ra_inherits_call_return_source_owner_and_materialization_kind() {
    let commits = vec![record(0x1000, 346369857, 4)];
    let mut uops = build_uops(&commits, &vec![fret_ra()]);
    uops[0].redirect_target = Some(0x2000);

    let mut pipeline = StageQueues::default();
    let mut iq = Vec::new();
    let mut rob = VecDeque::new();
    pipeline.frontend[10].push_back(0);
    pipeline.active_call_return_target_pc = Some(0x2000);
    pipeline.active_call_return_target_owner_seq = Some(7);
    pipeline.active_call_return_materialization_kind = Some(CallMaterializationKind::FusedCall);
    pipeline.active_branch_context = context(BranchOwnerKind::Ret, 0x1000, 0x2000, 0x1000, false);

    dispatch_to_iq_and_bypass(0, &mut pipeline, &mut iq, &mut rob, &mut uops);

    assert_eq!(pipeline.seq_boundary_target_pcs.get(0), Some(0x2000));
    assert_eq!(pipeline.seq_boundary_target_owner_seqs.get(0), Some(7));
    assert_eq!(pipeline.seq_return_consumer_kinds.get(0), Some(ReturnConsumerKind::FretRa));
    assert_eq!(pipeline.seq_call_materialization_kinds.get(0), Some(CallMaterializationKind::FusedCall));
    assert_eq!(pipeline.seq_boundary_target_source_kinds.get(0), Some(DynamicTargetSourceKind::CallReturnFused));
}

#[test]
fn retire_emits_live_branch_kind_on_cmt_event() {
    let uops = vec![done(cmp_nei(), record(0x1004, 30_478_677, 4), None)];
    let mut pipeline = StageQueues::default();
    let mut rob = VecDeque::from([0usize]);
    let mut committed = Vec::new();
    let mut retired = Vec::new();
    let mut stage_events = Vec::new();
    pipeline.seq_branch_contexts.insert(0, context(BranchOwnerKind::Cond, 0x1000, 0x0ff0, 0xfffffffffffffff0, true));

    let trap = retire_ready(3, &lane(), &mut rob, &mut committed, &mut retired, &mut pipeline, &uops, &mut stage_events);

    assert_eq!(trap, None);
    assert_eq!(committed.len(), 1);
    assert_eq!(stage_events.len(), 1);
    assert_eq!(stage_events[0].stage_id, "CMT");
    assert_eq!(stage_events[0].branch_kind.as_deref(), Some("cond"));
}

#[test]
fn retire_emits_distinct_return_kind_on_cmt_event() {
    let uops = vec![
        done(fret_ra(), record(0x1000, 0xfeed0001, 4), Some(0x2000)),
        done(fret_stk(), record(0x1004, 346370113, 4), Some(0x3000)),
    ];
    let mut pipeline = StageQueues::default();
    let mut rob = VecDeque::from([0usize, 1usize]);
    let mut committed = Vec::new();
    let mut retired = Vec::new();
    let mut stage_events = Vec::new();
    pipeline.seq_branch_contexts.insert(0, context(BranchOwnerKind::Ret, 0x1000, 0x2000, 0x1000, false));
    pipeline.seq_branch_contexts.insert(1, context(BranchOwnerKind::Ret, 0x1004, 0x3000, 0x1ffc, false));
    pipeline.seq_return_consumer_kinds.insert(0, ReturnConsumerKind::FretRa);
    pipeline.seq_return_consumer_kinds.insert(1, ReturnConsumerKind::FretStk);

    let trap = retire_ready(3, &lane(), &mut rob, &mut committed, &mut retired, &mut pipeline, &uops, &mut stage_events);

    assert_eq!(trap, None);
    assert_eq!(stage_events.len(), 2);
    assert_eq!(stage_events[0].return_kind.as_deref(), Some("fret_ra"));
    assert_eq!(stage_events[1].return_kind.as_deref(), Some("fret_stk"));
    assert_eq!(stage_events[0].target_owner_row_id.as_deref(), Some("uop0"));
    assert_eq!(stage_events[1].target_owner_row_id.as_deref(), Some("uop1"));
}

#[test]
fn retire_emits_call_header_target_owner_row_id_on_cmt_event() {
    let uops = vec![
        done(call_header(), record(0x1000, 1_589_249, 4), Some(0x3000)),
        done(c_setret(), record(0x1004, 0x5056, 2), None),
    ];
    let mut pipeline = StageQueues::default();
    pipeline.seq_branch_contexts.insert(0, context(BranchOwnerKind::Call, 0x1000, 0x3000, 0x2000, false));
    pipeline.seq_call_return_target_owner_seqs.insert(0, 1);
    pipeline.seq_call_return_target_owner_seqs.insert(1, 1);
    pipeline.seq_call_materialization_kinds.insert(0, CallMaterializationKind::AdjacentSetret);
    pipeline.seq_call_materialization_kinds.insert(1, CallMaterializationKind::AdjacentSetret);
    let mut rob = VecDeque::from([0usize, 1usize]);
    let mut committed = Vec::new();
    let mut retired = Vec::new();
    let mut stage_events = Vec::new();

    let trap = retire_ready(3, &lane(), &mut rob, &mut committed, &mut retired, &mut pipeline, &uops, &mut stage_events);

    assert_eq!(trap, None);
    assert_eq!(stage_events.len(), 2);
    assert_eq!(stage_events[0].branch_kind.as_deref(), Some("call"));
    assert_eq!(stage_events[0].target_owner_row_id.as_deref(), Some("uop1"));
    assert_eq!(stage_events[1].target_owner_row_id.as_deref(), Some("uop1"));
    assert_eq!(stage_events[0].call_materialization_kind.as_deref(), Some("adjacent_setret"));
    assert_eq!(stage_events[1].call_materialization_kind.as_deref(), Some("adjacent_setret"));
}

#[test]
fn fused_bstart_call_materializes_return_target_without_setret() {
    let commits = vec![
        writing(step(0, 0x1000, 1_589_249, 4, 0x3000), 10, 0x2000),
        record(0x2000, 2048, 2),
    ];
    let mut uops = build_uops(&commits, &vec![call_header(), block_start()]);
    let mut pipeline = s2_pipeline(2);
    let mut iq = Vec::new();
    let mut rob = VecDeque::new();

    dispatch_to_iq_and_bypass(0, &mut pipeline, &mut iq, &mut rob, &mut uops);

    assert_eq!(pipeline.seq_call_return_target_pcs.get(0), Some(0x2000));
    assert_eq!(pipeline.seq_call_return_target_owner_seqs.get(0), Some(0));
    assert_eq!(pipeline.active_call_header_seq, None);
    assert_eq!(pipeline.active_call_return_target_pc, Some(0x2000));
    assert_eq!(pipeline.active_call_return_target_owner_seq, Some(0));
    assert_eq!(pipeline.active_call_return_materialization_kind, Some(CallMaterializationKind::FusedCall));
    assert!(pipeline.seq_call_header_faults.is_empty());
}

#[test]
fn call_header_without_setret_stays_non_returning() {
    let commits = vec![
        step(0, 0x1000, 1_589_249, 4, 0x3000),
        writing(step(1, 0x1004, 0, 4, 0x1008), 2, 1),
    ];
    let mut uops = build_uops(&commits, &vec![call_header(), addi()]);
    let mut pipeline = s2_pipeline(2);
    let mut iq = Vec::new();
    let mut rob = VecDeque::new();

    dispatch_to_iq_and_bypass(0, &mut pipeline, &mut iq, &mut rob, &mut uops);

    assert_eq!(pipeline.seq_call_return_target_pcs.get(0), None);
    assert_eq!(pipeline.seq_call_return_target_owner_seqs.get(0), None);
    assert_eq!(pipeline.active_call_header_seq, None);
    assert_eq!(pipeline.active_call_return_target_pc, None);
    assert_eq!(pipeline.active_call_return_target_owner_seq, None);
    assert!(pipeline.seq_call_header_faults.is_empty());
}

#[test]
fn adjacent_setret_materializes_call_header_owner_seq() {
    let commits = vec![
        step(0, 0x1000, 1_589_249, 4, 0x3000),
        writing(step(1, 0x1004, 0x5056, 2, 0x1006), 10, 0x2000),
    ];
    let mut uops = build_uops(&commits, &vec![call_header(), c_setret()]);
    let mut pipeline = s2_pipeline(2);
    let mut iq = Vec::new();
    let mut rob = VecDeque::new();

    dispatch_to_iq_and_bypass(0, &mut pipeline, &mut iq, &mut rob, &mut uops);

    assert_eq!(pipeline.seq_call_return_target_pcs.get(0), Some(0x2000));
    assert_eq!(pipeline.seq_call_return_target_owner_seqs.get(0), Some(1));
    assert_eq!(pipeline.seq_call_return_target_owner_seqs.get(1), Some(1));
    assert_eq!(pipeline.active_call_return_target_pc, Some(0x2000));
    assert_eq!(pipeline.active_call_return_target_owner_seq, Some(1));
    assert_eq!(pipeline.active_call_return_materialization_kind, Some(CallMaterializationKind::AdjacentSetret));
    assert!(pipeline.seq_call_header_faults.is_empty());
}

#[test]
fn non_adjacent_setret_raises_precise_call_header_trap() {
    let commits = vec![
        step(0, 0x1000, 1_589_249, 4, 0x3000),
        writing(step(1, 0x1004, 0, 4, 0x1008), 2, 1),
        writing(step(2, 0x1008, 0x5056, 2, 0x100a), 10, 0x2000),
    ];
    let mut uops = build_uops(&commits, &vec![call_header(), addi(), c_setret()]);
    let mut pipeline = s2_pipeline(3);
    let mut iq = Vec::new();
    let mut rob = VecDeque::new();

    dispatch_to_iq_and_bypass(0, &mut pipeline, &mut iq, &mut rob, &mut uops);
    assert_eq!(pipeline.seq_call_header_faults.get(2), Some(TRAP_SETRET_NOT_ADJACENT));

    uops[2].w1_cycle = Some(7);
    publish_call_header_fault_state(7, &mut pipeline, &uops);

    assert_eq!(
        pipeline.pending_trap,
        Some(PendingTrapState { seq: 2, cause: TRAP_SETRET_NOT_ADJACENT, traparg0: 0x1008, checkpoint_id: 0, visible_cycle: 7 })
    );
}

#[test]
fn ret_block_redirect_uses_live_setc_tgt_owner_not_row_surrogate() {
    let commits = vec![
        record(0x1000, 14336, 2),
        reading(step(1, 0x1002, 0x029c, 2, 0x1004), 10, 0x2000),
        step(2, 0x1004, 0, 2, 0x2000),
        record(0x2000, 2048, 2),
    ];
    let mut uops = build_uops(&commits, &vec![bstart_ret(), setc_tgt_ra(), bstop(), block_start()]);
    let mut pipeline = s2_pipeline(3);
    let mut iq = Vec::new();
    let mut rob = VecDeque::new();

    dispatch_to_iq_and_bypass(0, &mut pipeline, &mut iq, &mut rob, &mut uops);

    assert_eq!(pipeline.seq_dynamic_target_pcs.get(1), Some(0x2000));
    assert_eq!(pipeline.seq_boundary_target_pcs.get(2), Some(0x2000));
    assert_eq!(pipeline.seq_boundary_target_owner_seqs.get(2), Some(1));
    assert_eq!(
        pipeline.seq_branch_contexts.get(2),
        Some(BranchOwnerContext { kind: BranchOwnerKind::Ret, base_pc: 0x1000, target_pc: 0x2000, off: 0x1000, pred_take: false, epoch: 1 })
    );

    pipeline.active_dynamic_target_pc = Some(0x3333);
    pipeline.active_dynamic_target_owner_seq = Some(99);
    uops[2].redirect_target = None;
    uops[2].w1_cycle = Some(7);

    schedule_frontend_redirect_recovery(7, &mut pipeline, &uops);

    assert_eq!(
        pipeline.frontend_redirect,
        Some(FrontendRedirectState {
            source_seq: 2,
            target_pc: 0x2000,
            restart_seq: 3,
            checkpoint_id: 0,
            from_correction: false,
            resume_cycle: 8,
        })
    );
}

#[test]
fn ret_block_missing_setc_tgt_raises_precise_dynamic_target_trap() {
    let commits = vec![record(0x1000, 14336, 2), step(1, 0x1002, 0, 2, 0x2000), record(0x2000, 2048, 2)];
    let mut uops = build_uops(&commits, &vec![bstart_ret(), bstop(), block_start()]);
    let mut pipeline = s2_pipeline(2);
    let mut iq = Vec::new();
    let mut rob = VecDeque::new();

    dispatch_to_iq_and_bypass(0, &mut pipeline, &mut iq, &mut rob, &mut uops);
    assert_eq!(pipeline.seq_dynamic_target_pcs.get(1), None);

    uops[1].redirect_target = None;
    uops[1].w1_cycle = Some(7);

    publish_dynamic_boundary_target_fault_state(7, &mut pipeline, &uops);
    assert_eq!(
        pipeline.pending_trap,
        Some(PendingTrapState { seq: 1, cause: TRAP_DYNAMIC_TARGET_MISSING, traparg0: 0x1002, checkpoint_id: 0, visible_cycle: 7 })
    );

    schedule_frontend_redirect_recovery(7, &mut pipeline, &uops);
    assert_eq!(pipeline.frontend_redirect, None);
}

#[test]
fn ret_block_non_block_target_raises_precise_dynamic_target_trap() {
    let commits = vec![
        record(0x1000, 14336, 2),
        reading(step(1, 0x1002, 0x029c, 2, 0x1004), 10, 0x2000),
        step(2, 0x1004, 0, 2, 0x2000),
        record(0x2000, 0, 4),
    ];
    let mut uops = build_uops(&commits, &vec![bstart_ret(), setc_tgt_ra(), bstop(), addi()]);
    let mut pipeline = s2_pipeline(3);
    let mut iq = Vec::new();
    let mut rob = VecDeque::new();

    dispatch_to_iq_and_bypass(0, &mut pipeline, &mut iq, &mut rob, &mut uops);
    uops[2].redirect_target = None;
    uops[2].w1_cycle = Some(7);

    publish_dynamic_boundary_target_fault_state(7, &mut pipeline, &uops);
    assert_eq!(
        pipeline.pending_trap,
        Some(PendingTrapState { seq: 2, cause: TRAP_DYNAMIC_TARGET_NOT_BSTART, traparg0: 0x1004, checkpoint_id: 0, visible_cycle: 7 })
    );

    schedule_frontend_redirect_recovery(7, &mut pipeline, &uops);
    assert_eq!(pipeline.frontend_redirect, None);
}

#[test]
fn ret_block_stale_setc_tgt_epoch_raises_precise_dynamic_target_trap() {
    let commits = vec![record(0x1004, 0, 2)];
    let mut uops = build_uops(&commits, &vec![bstop()]);
    uops[0].redirect_target = Some(0x2000);
    uops[0].w1_cycle = Some(7);

    let mut pipeline = StageQueues::default();
    pipeline.seq_branch_contexts.insert(
        0,
        BranchOwnerContext { kind: BranchOwnerKind::Ret, base_pc: 0x1004, target_pc: 0x2000, off: 0x0ffc, pred_take: false, epoch: 2 },
    );
    pipeline.seq_recovery_epochs.insert(0, 2);
    pipeline.seq_boundary_target_pcs.insert(0, 0x2000);
    pipeline.seq_boundary_target_owner_seqs.insert(0, 3);
    pipeline.seq_boundary_target_producer_kinds.insert(0, ReturnConsumerKind::SetcTgt);
    pipeline.seq_boundary_target_setup_epochs.insert(0, 1);
    pipeline.seq_boundary_target_source_owner_seqs.insert(0, 3);
    pipeline.seq_boundary_target_source_epochs.insert(0, 1);
    pipeline.seq_boundary_target_source_kinds.insert(0, DynamicTargetSourceKind::ArchTargetSetup);

    publish_dynamic_boundary_target_fault_state(7, &mut pipeline, &uops);
    assert_eq!(
        pipeline.pending_trap,
        Some(PendingTrapState { seq: 0, cause: TRAP_DYNAMIC_TARGET_STALE, traparg0: 0x1004, checkpoint_id: 0, visible_cycle: 7 })
    );
}

#[test]
fn start_marker_dispatch_snapshots_ready_tables_for_checkpoint() {
    let mut uops = vec![uop(block_start(), record(0x1000, 2048, 2))];
    let mut pipeline = StageQueues::default();
    let mut iq = Vec::new();
    let mut rob = VecDeque::new();
    pipeline.frontend[10].push_back(0);
    pipeline.seq_checkpoint_ids.insert(0, 5);
    pipeline.ready_table_t.extend([1, 3]);
    pipeline.ready_table_u.insert(2);

    dispatch_to_iq_and_bypass(0, &mut pipeline, &mut iq, &mut rob, &mut uops);

    let saved = pipeline.ready_table_checkpoints[5].as_ref().expect("checkpoint 5 saved");
    assert_eq!(saved.ready_table_t, BTreeSet::from([1, 3]));
    assert_eq!(saved.ready_table_u, BTreeSet::from([2]));
    assert_eq!(saved.recovery_epoch, 0);
    assert!(saved.block_head);
    assert_eq!(saved.branch_context, BranchOwnerContext::default());
    assert_eq!(saved.dynamic_target_pc, None);
    assert_eq!(saved.dynamic_target_owner_seq, None);
    assert_eq!(saved.dynamic_target_producer_kind, None);
    assert_eq!(saved.dynamic_target_setup_epoch, None);
    assert_eq!(saved.dynamic_target_owner_kind, None);
    assert_eq!(saved.dynamic_target_source_owner_seq, None);
    assert_eq!(saved.dynamic_target_source_epoch, None);
    assert_eq!(saved.dynamic_target_source_kind, None);
    assert_eq!(saved.dynamic_target_call_materialization_kind, None);
    assert_eq!(saved.call_header_seq, None);
    assert_eq!(saved.call_return_target_pc, None);
    assert_eq!(saved.call_return_target_owner_seq, None);
    assert_eq!(saved.call_return_target_epoch, None);
    assert_eq!(saved.call_return_materialization_kind, None);
}

#[test]
fn start_marker_rob_checkpoint_id_uses_packet_slot_offset() {
    let mut uops = vec![uop(addi(), record(0x1000, 0, 4)), uop(block_start(), step(1, 0x1004, 2048, 2, 0x2000))];
    let mut pipeline = s2_pipeline(2);
    let mut iq = Vec::new();
    let mut rob = VecDeque::new();

    dispatch_to_iq_and_bypass(0, &mut pipeline, &mut iq, &mut rob, &mut uops);

    assert_eq!(pipeline.seq_rob_checkpoint_ids.get(1), Some(1));
    assert_eq!(live_rob_checkpoint_id_for_seq(1, &pipeline, &uops), 1);
}

#[test]
fn dispatch_assigns_bru_recovery_checkpoint_from_backend_context() {
    let mut uops = vec![
        uop(addi(), record(0x1000, 0, 4)),
        CycleUop { redirect_target: Some(0x2000), ..uop(block_start(), step(1, 0x1004, 2048, 2, 0x2000)) },
        CycleUop {
            w1_cycle: Some(5),
            ..uop(cmp_nei(), writing(reading(step(2, 0x1006, 30_478_677, 4, 0x2000), 2, 1), 2, 1))
        },
        uop(block_start(), record(0x2000, 2048, 2)),
    ];
    let mut pipeline = s2_pipeline(3);
    let mut iq = Vec::new();
    let mut rob = VecDeque::new();

    dispatch_to_iq_and_bypass(0, &mut pipeline, &mut iq, &mut rob, &mut uops);

    publish_bru_correction_state(5, &mut pipeline, &uops);

    assert_eq!(pipeline.seq_rob_checkpoint_ids.get(1), Some(1));
    assert_eq!(pipeline.seq_recovery_checkpoint_ids.get(2), Some(1));
    assert_eq!(pipeline.seq_recovery_epochs.get(1), Some(0));
    assert_eq!(pipeline.seq_recovery_epochs.get(2), Some(1));
    assert_eq!(
        pipeline.seq_branch_contexts.get(2),
        Some(BranchOwnerContext { kind: BranchOwnerKind::Fall, base_pc: 0x1004, target_pc: 0x2000, off: 0xffc, pred_take: false, epoch: 1 })
    );
    assert_eq!(recovery_checkpoint_id_for_seq(2, &pipeline, &uops), 1);
    assert_eq!(
        pipeline.pending_bru_correction, None,
        "matching actual_take/pred_take should not publish a deferred correction"
    );
}

/// Dispatches a block start at `pc` whose block ends at `target_pc`, then an
/// `addi`, and returns the branch context the `addi` is dispatched under.
fn dispatched_context(start: DecodedInstruction, insn: u64, pc: u64, target_pc: u64) -> Option<BranchOwnerContext> {
    let mut uops = vec![
        CycleUop { redirect_target: Some(target_pc), ..uop(start, step(0, pc, insn, 2, target_pc)) },
        uop(addi(), record(pc.wrapping_add(2), 0, 4)),
    ];
    let mut pipeline = s2_pipeline(2);
    let mut iq = Vec::new();
    let mut rob = VecDeque::new();

    dispatch_to_iq_and_bypass(0, &mut pipeline, &mut iq, &mut rob, &mut uops);

    pipeline.seq_branch_contexts.get(1)
}

#[test]
fn dispatch_assigns_cond_boundary_prediction_from_target_direction() {
    for (pc, target_pc, expected_pred_take) in [(0x1000u64, 0x1100u64, false), (0x1100, 0x1000, true)] {
        assert_eq!(
            dispatched_context(c_bstart_cond(), 4, pc, target_pc),
            Some(BranchOwnerContext {
                kind: BranchOwnerKind::Cond,
                base_pc: pc,
                target_pc,
                off: target_pc.wrapping_sub(pc),
                pred_take: expected_pred_take,
                epoch: 1,
            })
        );
    }
}

#[test]
fn dispatch_maps_c_bstart_std_brtype_to_full_boundary_kind_taxonomy() {
    let cases = [
        (2048u64, 0x1010u64, BranchOwnerKind::Fall),
        (4096, 0x1010, BranchOwnerKind::Direct),
        (6144, 0x0ff0, BranchOwnerKind::Cond),
        (8192, 0x1010, BranchOwnerKind::Call),
        (10240, 0x1010, BranchOwnerKind::Ind),
        (12288, 0x1010, BranchOwnerKind::ICall),
        (14336, 0x1010, BranchOwnerKind::Ret),
    ];
    for (insn, target_pc, expected_kind) in cases {
        assert_eq!(
            dispatched_context(c_bstart_std(insn), insn, 0x1000, target_pc),
            Some(BranchOwnerContext {
                kind: expected_kind,
                base_pc: 0x1000,
                target_pc,
                off: target_pc.wrapping_sub(0x1000),
                pred_take: matches!(expected_kind, BranchOwnerKind::Cond) && target_pc < 0x1000,
                epoch: 1,
            })
        );
    }
}

/// A taken branch-unit compare at 0x1000 that leaves for `next_pc`.
fn taken_compare(next_pc: u64) -> CommitRecord {
    writing(reading(step(0, 0x1000, 0, 4, next_pc), 2, 1), 2, 1)
}

#[test]
fn fetch_does_not_serialize_on_bru_correction_before_boundary() {
    let commits = vec![
        writing(reading(step(0, 0x1000, 0, 4, 0x2000), 2, 1), 2, 1),
        step(1, 0x1004, 2048, 2, 0x2000),
        record(0x2000, 0, 4),
    ];
    let mut uops = build_uops(&commits, &vec![cmp_nei(), block_start(), addi()]);
    let mut pipeline = StageQueues::default();
    let mut next_fetch_seq = 0usize;

    assert_eq!(uops[0].redirect_target, None);
    assert_eq!(uops[1].redirect_target, Some(0x2000));

    fill_fetch(0, &mut pipeline, &mut next_fetch_seq, &uops);
    assert_eq!(pipeline.frontend[0].iter().copied().collect::<Vec<_>>(), vec![0, 1]);

    uops[0].w1_cycle = Some(7);
    uops[1].w1_cycle = Some(7);
    let mut out = Vec::new();
    emit_stage_events(7, &lane(), &StageQueues::default(), &Vec::new(), &VecDeque::new(), &uops, &mut out);
    assert!(!out.iter().any(|event| event.row_id == "uop0" && event.stage_id == "FLS"));
    assert!(out.iter().any(|event| event.row_id == "uop1" && event.stage_id == "FLS"));
}

#[test]
fn boundary_consumes_pending_bru_correction_before_local_target() {
    let commits = vec![taken_compare(0x2000), step(1, 0x1004, 0, 2, 0x1006), record(0x2000, 0, 4)];
    let mut uops = build_uops(&commits, &vec![cmp_nei(), bstop(), block_start()]);
    let mut pipeline = StageQueues::default();

    uops[0].w1_cycle = Some(5);
    uops[1].w1_cycle = Some(7);
    publish_bru_correction_state(5, &mut pipeline, &uops);
    assert_eq!(
        pipeline.pending_bru_correction,
        Some(BruCorrectionState {
            source_seq: 0,
            epoch: 0,
            actual_take: true,
            target_pc: 0x2000,
            checkpoint_id: checkpoint_id_for_seq(0, &uops),
            visible_cycle: 5,
        })
    );

    schedule_frontend_redirect_recovery(7, &mut pipeline, &uops);
    assert_eq!(
        pipeline.frontend_redirect,
        Some(FrontendRedirectState {
            source_seq: 1,
            target_pc: 0x2000,
            restart_seq: 2,
            checkpoint_id: checkpoint_id_for_seq(0, &uops),
            from_correction: true,
            resume_cycle: 8,
        })
    );
    assert_eq!(pipeline.flush_checkpoint_id, Some(checkpoint_id_for_seq(0, &uops)));
    assert_eq!(pipeline.pending_bru_correction, None);
}

#[test]
fn boundary_consumes_not_taken_bru_correction_to_fallthrough() {
    let mut uops = vec![
        CycleUop { redirect_target: Some(0x0ff0), ..uop(c_bstart_cond(), step(0, 0x1000, 4, 2, 0x0ff0)) },
        CycleUop {
            w1_cycle: Some(5),
            ..uop(cmp_nei(), writing(reading(step(1, 0x1002, 30_478_677, 4, 0x1006), 2, 0), 2, 0))
        },
        CycleUop { w1_cycle: Some(7), ..uop(bstop(), step(2, 0x1006, 0, 2, 0x1008)) },
        uop(block_start(), record(0x2000, 2048, 2)),
    ];
    let mut pipeline = s2_pipeline(3);
    let mut iq = Vec::new();
    let mut rob = VecDeque::new();

    dispatch_to_iq_and_bypass(0, &mut pipeline, &mut iq, &mut rob, &mut uops);
    assert_eq!(
        pipeline.seq_branch_contexts.get(1),
        Some(BranchOwnerContext {
            kind: BranchOwnerKind::Cond,
            base_pc: 0x1000,
            target_pc: 0x0ff0,
            off: 0xfffffffffffffff0,
            pred_take: true,
            epoch: 1,
        })
    );
    publish_bru_correction_state(5, &mut pipeline, &uops);

    assert_eq!(
        pipeline.pending_bru_correction,
        Some(BruCorrectionState { source_seq: 1, epoch: 1, actual_take: false, target_pc: 0x0ff0, checkpoint_id: 0, visible_cycle: 5 })
    );

    schedule_frontend_redirect_recovery(7, &mut pipeline, &uops);
    assert_eq!(
        pipeline.frontend_redirect,
        Some(FrontendRedirectState {
            source_seq: 2,
            target_pc: 0x1008,
            restart_seq: 3,
            checkpoint_id: 0,
            from_correction: true,
            resume_cycle: 8,
        })
    );
    assert_eq!(pipeline.pending_bru_correction, None);
}

#[test]
fn later_boundary_epoch_does_not_consume_stale_bru_correction() {
    let commits = vec![
        taken_compare(0x3000),
        step(1, 0x1004, 0, 2, 0x1006),
        record(0x2000, 0, 2),
        step(3, 0x2002, 0, 2, 0x4000),
        record(0x4000, 0, 2),
        record(0x3000, 0, 2),
    ];
    let decoded = vec![cmp_nei(), bstop(), block_start(), bstop(), block_start(), block_start()];
    let mut uops = build_uops(&commits, &decoded);
    let mut pipeline = StageQueues::default();

    uops[0].w1_cycle = Some(5);
    uops[3].w1_cycle = Some(9);
    publish_bru_correction_state(5, &mut pipeline, &uops);
    assert_eq!(
        pipeline.pending_bru_correction,
        Some(BruCorrectionState {
            source_seq: 0,
            epoch: 0,
            actual_take: true,
            target_pc: 0x3000,
            checkpoint_id: checkpoint_id_for_seq(0, &uops),
            visible_cycle: 5,
        })
    );

    schedule_frontend_redirect_recovery(9, &mut pipeline, &uops);
    assert_eq!(
        pipeline.frontend_redirect,
        Some(FrontendRedirectState {
            source_seq: 3,
            target_pc: 0x4000,
            restart_seq: 4,
            checkpoint_id: checkpoint_id_for_seq(3, &uops),
            from_correction: false,
            resume_cycle: 10,
        })
    );
    assert_eq!(pipeline.flush_checkpoint_id, Some(checkpoint_id_for_seq(3, &uops)));
    assert_eq!(pipeline.pending_bru_correction, None);
}

#[test]
fn invalid_bru_recovery_target_raises_pending_precise_trap() {
    let commits = vec![taken_compare(0x3000), step(1, 0x1004, 0, 2, 0x1006)];
    let mut uops = build_uops(&commits, &vec![cmp_nei(), bstop()]);
    let mut pipeline = StageQueues::default();

    uops[0].w1_cycle = Some(5);
    publish_bru_correction_state(5, &mut pipeline, &uops);

    assert_eq!(pipeline.pending_bru_correction, None);
    assert_eq!(
        pipeline.pending_trap,
        Some(PendingTrapState {
            seq: 0,
            cause: TRAP_BRU_RECOVERY_NOT_BSTART,
            traparg0: 0x1000,
            checkpoint_id: checkpoint_id_for_seq(0, &uops),
            visible_cycle: 5,
        })
    );
}

#[test]
fn retire_ready_attaches_bru_recovery_trap_to_offending_uop() {
    let mut pipeline = StageQueues::default();
    pipeline.pending_trap = Some(PendingTrapState {
        seq: 0,
        cause: TRAP_BRU_RECOVERY_NOT_BSTART,
        traparg0: 0x1000,
        checkpoint_id: 0,
        visible_cycle: 3,
    });
    let mut committed = Vec::new();
    let mut retired = Vec::new();
    let mut stage_events = Vec::new();
    let mut rob = VecDeque::from([0usize]);
    let uops = vec![done(addi(), record(0x1000, 0, 0), None)];

    let trap = retire_ready(3, &lane(), &mut rob, &mut committed, &mut retired, &mut pipeline, &uops, &mut stage_events);

    assert_eq!(trap, Some(TRAP_BRU_RECOVERY_NOT_BSTART));
    assert_eq!(committed.len(), 1);
    assert_eq!(committed[0].trap_valid, 1);
    assert_eq!(committed[0].trap_cause, TRAP_BRU_RECOVERY_NOT_BSTART);
    assert_eq!(committed[0].traparg0, 0x1000);
    assert_eq!(stage_events.len(), 1);
    assert_eq!(stage_events[0].checkpoint_id, Some(0));
    assert_eq!(stage_events[0].trap_cause, Some(TRAP_BRU_RECOVERY_NOT_BSTART));
    assert_eq!(stage_events[0].traparg0, Some(0x1000));
    assert_eq!(pipeline.pending_trap, None);
}

#[test]
fn pending_flush_restores_ready_tables_from_checkpoint_snapshot() {
    let uops = vec![
        CycleUop {
            redirect_target: Some(0x1100),
            phys_iq: Some(PhysIq::BruIq),
            w1_cycle: Some(7),
            ..uop(block_start(), step(0, 0x1000, 2048, 2, 0x1100))
        },
        uop(addi(), record(0x1002, 0, 4)),
    ];
    let mut pipeline = StageQueues::default();
    let mut iq = Vec::new();
    let mut rob = VecDeque::from([0usize]);
    pipeline.ready_table_t = BTreeSet::from([1, 3]);
    pipeline.ready_table_u = BTreeSet::from([2]);
    pipeline.ready_table_checkpoints[5] = Some(ReadyTableCheckpoint {
        ready_table_t: pipeline.ready_table_t.clone(),
        ready_table_u: pipeline.ready_table_u.clone(),
        recovery_epoch: 7,
        block_head: false,
        branch_context: BranchOwnerContext {
            kind: BranchOwnerKind::Cond,
            base_pc: 0x1000,
            target_pc: 0x2000,
            off: 0x1000,
            pred_take: true,
            epoch: 7,
        },
        dynamic_target_pc: Some(0x2222),
        dynamic_target_owner_seq: Some(6),
        dynamic_target_producer_kind: Some(ReturnConsumerKind::SetcTgt),
        dynamic_target_setup_epoch: Some(7),
        dynamic_target_owner_kind: Some(ReturnConsumerKind::SetcTgt),
        dynamic_target_source_owner_seq: Some(4),
        dynamic_target_source_epoch: Some(6),
        dynamic_target_source_kind: Some(DynamicTargetSourceKind::ArchTargetSetup),
        dynamic_target_call_materialization_kind: Some(CallMaterializationKind::AdjacentSetret),
        call_header_seq: Some(11),
        call_return_target_pc: Some(0x3333),
        call_return_target_owner_seq: Some(12),
        call_return_target_epoch: Some(6),
        call_return_materialization_kind: Some(CallMaterializationKind::AdjacentSetret),
    });
    pipeline.ready_table_t.insert(9);
    pipeline.ready_table_u.insert(10);
    pipeline.active_recovery_epoch = 12;
    pipeline.active_block_head = true;
    pipeline.active_branch_context = BranchOwnerContext {
        kind: BranchOwnerKind::Ret,
        base_pc: 0x3000,
        target_pc: 0x3010,
        off: 0x10,
        pred_take: true,
        epoch: 12,
    };
    pipeline.active_dynamic_target_pc = Some(0x9999);
    pipeline.active_dynamic_target_owner_seq = Some(23);
    pipeline.active_dynamic_target_producer_kind = Some(ReturnConsumerKind::SetcTgt);
    pipeline.active_dynamic_target_setup_epoch = Some(12);
    pipeline.active_dynamic_target_owner_kind = Some(ReturnConsumerKind::FretStk);
    pipeline.active_dynamic_target_source_owner_seq = Some(21);
    pipeline.active_dynamic_target_source_epoch = Some(11);
    pipeline.active_dynamic_target_source_kind = Some(DynamicTargetSourceKind::ArchTargetSetup);
    pipeline.active_dynamic_target_call_materialization_kind = Some(CallMaterializationKind::FusedCall);
    pipeline.active_call_header_seq = Some(22);
    pipeline.active_call_return_target_pc = Some(0x4444);
    pipeline.active_call_return_target_owner_seq = Some(24);
    pipeline.active_call_return_target_epoch = Some(11);
    pipeline.active_call_return_materialization_kind = Some(CallMaterializationKind::FusedCall);
    pipeline.pending_flush = Some(PendingFlushState { flush_seq: 0, checkpoint_id: 5, apply_cycle: 8 });

    apply_pending_flush(8, &mut pipeline, &mut iq, &mut rob, &uops);

    assert_eq!(pipeline.ready_table_t, BTreeSet::from([1, 3]));
    assert_eq!(pipeline.ready_table_u, BTreeSet::from([2]));
    assert_eq!(pipeline.active_recovery_epoch, 7);
    assert!(!pipeline.active_block_head);
    assert_eq!(
        pipeline.active_branch_context,
        BranchOwnerContext { kind: BranchOwnerKind::Cond, base_pc: 0x1000, target_pc: 0x2000, off: 0x1000, pred_take: true, epoch: 7 }
    );
    assert_eq!(pipeline.active_dynamic_target_pc, Some(0x2222));
    assert_eq!(pipeline.active_dynamic_target_owner_seq, Some(6));
    assert_eq!(pipeline.active_dynamic_target_producer_kind, Some(ReturnConsumerKind::SetcTgt));
    assert_eq!(pipeline.active_dynamic_target_setup_epoch, Some(7));
    assert_eq!(pipeline.active_dynamic_target_owner_kind, Some(ReturnConsumerKind::SetcTgt));
    assert_eq!(pipeline.active_dynamic_target_source_owner_seq, Some(4));
    assert_eq!(pipeline.active_dynamic_target_source_epoch, Some(6));
    assert_eq!(pipeline.active_dynamic_target_source_kind, Some(DynamicTargetSourceKind::ArchTargetSetup));
    assert_eq!(pipeline.active_dynamic_target_call_materialization_kind, Some(CallMaterializationKind::AdjacentSetret));
    assert_eq!(pipeline.active_call_header_seq, Some(11));
    assert_eq!(pipeline.active_call_return_target_pc, Some(0x3333));
    assert_eq!(pipeline.active_call_return_target_owner_seq, Some(12));
    assert_eq!(pipeline.active_call_return_target_epoch, Some(6));
    assert_eq!(pipeline.active_call_return_materialization_kind, Some(CallMaterializationKind::AdjacentSetret));
    assert_eq!(pipeline.pending_flush, None);
}

#[test]
fn frontend_redirect_restart_uses_legal_block_start_target_seq() {
    let uops = vec![
        CycleUop {
            redirect_target: Some(0x2000),
            phys_iq: Some(PhysIq::CmdIq),
            w1_cycle: Some(5),
            ..uop(block_start(), step(0, 0x1000, 2048, 2, 0x2000))
        },
        uop(addi(), record(0x1002, 0, 4)),
        uop(block_start(), record(0x2000, 2048, 2)),
        uop(decoded("ADDI", "addi x3, x0, 2", "ALU", &[]), record(0x2002, 0, 4)),
    ];
    let mut pipeline = StageQueues::default();
    let mut next_fetch_seq = 4usize;

    schedule_frontend_redirect_recovery(5, &mut pipeline, &uops);
    assert_eq!(
        pipeline.frontend_redirect,
        Some(FrontendRedirectState {
            source_seq: 0,
            target_pc: 0x2000,
            restart_seq: 2,
            checkpoint_id: checkpoint_id_for_seq(0, &uops),
            from_correction: false,
            resume_cycle: 6,
        })
    );
    assert_eq!(pipeline.flush_checkpoint_id, Some(checkpoint_id_for_seq(0, &uops)));

    fill_fetch(6, &mut pipeline, &mut next_fetch_seq, &uops);
    assert_eq!(next_fetch_seq, 4);
    assert_eq!(pipeline.frontend[0].iter().copied().collect::<Vec<_>>(), vec![2, 3]);
}

/// The stage events of cycle 7 for `uops` in `pipeline`, with no issue-queue
/// entry and an empty ROB.
fn cycle7_events(pipeline: &StageQueues, uops: &Vec<CycleUop>) -> Vec<camodel::record::StageTraceEvent> {
    let mut out = Vec::new();
    emit_stage_events(7, &lane(), pipeline, &Vec::new(), &VecDeque::new(), uops, &mut out);
    out
}

#[test]
fn call_header_fault_flush_emits_attempted_owner_row_id() {
    let commits = vec![
        step(0, 0x1000, 1_589_249, 4, 0x3000),
        writing(step(1, 0x1004, 0, 4, 0x1008), 2, 1),
        writing(step(2, 0x1008, 0x5056, 2, 0x100a), 10, 0x2000),
    ];
    let mut uops = build_uops(&commits, &vec![call_header(), addi(), c_setret()]);
    let mut pipeline = s2_pipeline(3);
    let mut iq = Vec::new();
    let mut rob = VecDeque::new();

    dispatch_to_iq_and_bypass(0, &mut pipeline, &mut iq, &mut rob, &mut uops);
    uops[2].w1_cycle = Some(7);
    publish_call_header_fault_state(7, &mut pipeline, &uops);

    let mut out = Vec::new();
    emit_stage_events(7, &lane(), &pipeline, &iq, &rob, &uops, &mut out);

    assert!(out.iter().any(|event| {
        event.stage_id == "FLS"
            && event.row_id == "uop2"
            && event.cause == "call_header_fault"
            && event.trap_cause == Some(TRAP_SETRET_NOT_ADJACENT)
            && event.traparg0 == Some(0x1008)
            && event.branch_kind.as_deref() == Some("call")
            && event.target_owner_row_id.as_deref() == Some("uop2")
            && event.call_materialization_kind.as_deref() == Some("adjacent_setret")
    }));
}

#[test]
fn redirecting_fused_call_emits_call_materialization_kind_on_fls() {
    let uops = vec![CycleUop {
        redirect_target: Some(0x3000),
        phys_iq: Some(PhysIq::CmdIq),
        w1_cycle: Some(7),
        ..uop(call_header(), writing(step(0, 0x1000, 1_589_249, 4, 0x3000), 10, 0x2000))
    }];
    let mut pipeline = StageQueues::default();
    pipeline.seq_call_materialization_kinds.insert(0, CallMaterializationKind::FusedCall);

    let out = cycle7_events(&pipeline, &uops);

    assert!(out.iter().any(|event| {
        event.stage_id == "FLS"
            && event.row_id == "uop0"
            && event.branch_kind.as_deref() == Some("call")
            && event.call_materialization_kind.as_deref() == Some("fused_call")
    }));
}

#[test]
fn redirecting_control_emits_flush_stage() {
    let uops = vec![CycleUop {
        redirect_target: Some(0x1010),
        phys_iq: Some(PhysIq::CmdIq),
        w1_cycle: Some(7),
        ..uop(block_start(), step(0, 0x1000, 2048, 2, 0x1010))
    }];

    let out = cycle7_events(&StageQueues::default(), &uops);
    assert!(out.iter().any(|event| {
        event.stage_id == "FLS" && event.cause == "redirect_boundary" && event.branch_kind.as_deref() == Some("fall")
    }));
}

#[test]
fn ret_dynamic_target_fault_emits_precise_flush_cause_and_return_kind() {
    let uops = vec![CycleUop { w1_cycle: Some(7), ..uop(fret_stk(), record(0x1000, 346370113, 4)) }];
    let mut pipeline = StageQueues::default();
    pipeline.seq_branch_contexts.insert(0, context(BranchOwnerKind::Ret, 0x1000, 0x2000, 0x1000, false));
    pipeline.seq_return_consumer_kinds.insert(0, ReturnConsumerKind::FretStk);
    pipeline.pending_trap = Some(PendingTrapState {
        seq: 0,
        cause: TRAP_DYNAMIC_TARGET_MISSING,
        traparg0: 0x1000,
        checkpoint_id: 3,
        visible_cycle: 7,
    });

    let out = cycle7_events(&pipeline, &uops);

    assert!(out.iter().any(|event| {
        event.stage_id == "FLS"
            && event.row_id == "uop0"
            && event.cause == "dynamic_target_missing"
            && event.trap_cause == Some(TRAP_DYNAMIC_TARGET_MISSING)
            && event.traparg0 == Some(0x1000)
            && event.branch_kind.as_deref() == Some("ret")
            && event.return_kind.as_deref() == Some("fret_stk")
    }));
}

#[test]
fn ret_fault_emits_call_materialization_kind_from_live_return_source() {
    let uops = vec![CycleUop {
        redirect_target: Some(0x2000),
        w1_cycle: Some(7),
        ..uop(fret_ra(), record(0x1000, 346369857, 4))
    }];
    let mut pipeline = StageQueues::default();
    pipeline.seq_branch_contexts.insert(0, context(BranchOwnerKind::Ret, 0x1000, 0x2000, 0x1000, false));
    pipeline.seq_return_consumer_kinds.insert(0, ReturnConsumerKind::FretRa);
    pipeline.seq_call_materialization_kinds.insert(0, CallMaterializationKind::AdjacentSetret);
    pipeline.seq_boundary_target_source_kinds.insert(0, DynamicTargetSourceKind::CallReturnAdjacentSetret);
    pipeline.pending_trap = Some(PendingTrapState {
        seq: 0,
        cause: TRAP_DYNAMIC_TARGET_MISSING,
        traparg0: 0x1000,
        checkpoint_id: 3,
        visible_cycle: 7,
    });

    let out = cycle7_events(&pipeline, &uops);

    assert!(out.iter().any(|event| {
        event.stage_id == "FLS"
            && event.row_id == "uop0"
            && event.cause == "dynamic_target_missing"
            && event.branch_kind.as_deref() == Some("ret")
            && event.return_kind.as_deref() == Some("fret_ra")
            && event.call_materialization_kind.as_deref() == Some("adjacent_setret")
            && event.target_source_kind.as_deref() == Some("call_return_adjacent_setret")
    }));
}

#[test]
fn ret_fault_emits_stale_dynamic_target_cause_and_setup_provenance() {
    let uops = vec![CycleUop { redirect_target: Some(0x2000), w1_cycle: Some(7), ..uop(bstop(), record(0x1004, 0, 2)) }];
    let mut pipeline = StageQueues::default();
    pipeline.seq_branch_contexts.insert(
        0,
        BranchOwnerContext { kind: BranchOwnerKind::Ret, base_pc: 0x1004, target_pc: 0x2000, off: 0x0ffc, pred_take: false, epoch: 2 },
    );
    pipeline.seq_recovery_epochs.insert(0, 2);
    pipeline.seq_boundary_target_owner_seqs.insert(0, 3);
    pipeline.seq_boundary_target_producer_kinds.insert(0, ReturnConsumerKind::SetcTgt);
    pipeline.seq_boundary_target_setup_epochs.insert(0, 1);
    pipeline.seq_boundary_target_source_owner_seqs.insert(0, 3);
    pipeline.seq_boundary_target_source_epochs.insert(0, 1);
    pipeline.seq_boundary_target_source_kinds.insert(0, DynamicTargetSourceKind::ArchTargetSetup);
    pipeline.pending_trap = Some(PendingTrapState {
        seq: 0,
        cause: TRAP_DYNAMIC_TARGET_STALE,
        traparg0: 0x1004,
        checkpoint_id: 0,
        visible_cycle: 7,
    });

    let out = cycle7_events(&pipeline, &uops);

    let event = out
        .iter()
        .find(|event| event.stage_id == "FLS" && event.row_id == "uop0" && event.cause == "dynamic_target_stale_setup")
        .expect("missing stale setup FLS event");
    assert_eq!(event.target_owner_row_id.as_deref(), Some("uop3"));
    assert_eq!(event.target_producer_kind.as_deref(), Some("setc_tgt"));
    assert_eq!(event.branch_kind.as_deref(), Some("ret"));
    assert_eq!(event.target_setup_epoch, Some(1));
    assert_eq!(event.boundary_epoch, Some(2));
    assert_eq!(event.target_source_owner_row_id.as_deref(), Some("uop3"));
    assert_eq!(event.target_source_epoch, Some(1));
    assert_eq!(event.target_source_kind.as_deref(), Some("arch_target_setup"));
}

#[test]
fn ind_fault_emits_stale_return_dynamic_target_cause_and_provenance() {
    let uops = vec![CycleUop { redirect_target: Some(0x2000), w1_cycle: Some(7), ..uop(bstop(), record(0x1006, 0, 2)) }];
    let mut pipeline = StageQueues::default();
    pipeline.seq_branch_contexts.insert(
        0,
        BranchOwnerContext { kind: BranchOwnerKind::Ind, base_pc: 0x1006, target_pc: 0x2000, off: 0x0ffa, pred_take: false, epoch: 2 },
    );
    pipeline.seq_recovery_epochs.insert(0, 2);
    pipeline.seq_boundary_target_owner_seqs.insert(0, 4);
    pipeline.seq_boundary_target_producer_kinds.insert(0, ReturnConsumerKind::SetcTgt);
    pipeline.seq_boundary_target_setup_epochs.insert(0, 1);
    pipeline.seq_boundary_target_source_owner_seqs.insert(0, 9);
    pipeline.seq_boundary_target_source_epochs.insert(0, 0);
    pipeline.seq_boundary_target_source_kinds.insert(0, DynamicTargetSourceKind::CallReturnFused);
    pipeline.seq_call_materialization_kinds.insert(0, CallMaterializationKind::FusedCall);
    pipeline.pending_trap = Some(PendingTrapState {
        seq: 0,
        cause: TRAP_DYNAMIC_TARGET_STALE,
        traparg0: 0x1006,
        checkpoint_id: 0,
        visible_cycle: 7,
    });

    let out = cycle7_events(&pipeline, &uops);

    assert!(out.iter().any(|event| {
        event.stage_id == "FLS"
            && event.row_id == "uop0"
            && event.cause == "dynamic_target_stale_return"
            && event.target_owner_row_id.as_deref() == Some("uop4")
            && event.target_producer_kind.as_deref() == Some("setc_tgt")
            && event.branch_kind.as_deref() == Some("ind")
            && event.target_setup_epoch == Some(1)
            && event.boundary_epoch == Some(2)
            && event.target_source_owner_row_id.as_deref() == Some("uop9")
            && event.target_source_epoch == Some(0)
            && event.call_materialization_kind.as_deref() == Some("fused_call")
            && event.target_source_kind.as_deref() == Some("call_return_fused")
    }));
}

/// A `c.setc.tgt` done in cycle 6, then a `c.bstop` that redirects to 0x2000
/// in cycle 7.
fn setup_then_stop() -> Vec<CycleUop> {
    vec![
        CycleUop { w1_cycle: Some(6), ..uop(setc_tgt_ra(), record(0x1000, 0x029c, 2)) },
        CycleUop { redirect_target: Some(0x2000), w1_cycle: Some(7), ..uop(bstop(), record(0x1002, 0, 2)) },
    ]
}

#[test]
fn ret_boundary_flush_emits_dynamic_target_owner_row_id() {
    let uops = setup_then_stop();
    let mut pipeline = StageQueues::default();
    pipeline.seq_branch_contexts.insert(1, context(BranchOwnerKind::Ret, 0x1002, 0x2000, 0x0ffe, false));
    pipeline.seq_boundary_target_pcs.insert(1, 0x2000);
    pipeline.seq_boundary_target_owner_seqs.insert(1, 0);
    pipeline.seq_boundary_target_source_kinds.insert(1, DynamicTargetSourceKind::ArchTargetSetup);
    pipeline.seq_return_consumer_kinds.insert(1, ReturnConsumerKind::SetcTgt);

    let out = cycle7_events(&pipeline, &uops);

    assert!(out.iter().any(|event| {
        event.stage_id == "FLS"
            && event.row_id == "uop1"
            && event.cause == "redirect_boundary"
            && event.target_owner_row_id.as_deref() == Some("uop0")
            && event.branch_kind.as_deref() == Some("ret")
            && event.return_kind.as_deref() == Some("setc_tgt")
            && event.target_source_kind.as_deref() == Some("arch_target_setup")
    }));
}

#[test]
fn ind_boundary_preserves_call_return_target_source_kind_via_setc_tgt() {
    let commits = vec![
        writing(step(0, 0x1000, 1_589_249, 4, 0x3000), 10, 0x2000),
        reading(step(1, 0x1004, 0x029c, 2, 0x1006), 10, 0x2000),
        step(2, 0x1006, 0, 2, 0x1008),
    ];
    let mut uops = build_uops(&commits, &vec![call_header(), setc_tgt_ra(), bstop()]);
    let mut pipeline = s2_pipeline(2);
    pipeline.seq_checkpoint_ids.insert(2, 0);
    let mut iq = Vec::new();
    let mut rob = VecDeque::new();

    dispatch_to_iq_and_bypass(0, &mut pipeline, &mut iq, &mut rob, &mut uops);
    pipeline.frontend[10].push_back(2);
    pipeline.active_branch_context =
        BranchOwnerContext { kind: BranchOwnerKind::Ind, base_pc: 0x1006, target_pc: 0x2000, off: 0x0ffa, pred_take: false, epoch: 1 };
    dispatch_to_iq_and_bypass(1, &mut pipeline, &mut iq, &mut rob, &mut uops);

    assert_eq!(pipeline.seq_boundary_target_owner_seqs.get(2), Some(1));
    assert_eq!(pipeline.seq_boundary_target_producer_kinds.get(2), Some(ReturnConsumerKind::SetcTgt));
    assert_eq!(pipeline.seq_boundary_target_source_kinds.get(2), Some(DynamicTargetSourceKind::CallReturnFused));
    assert_eq!(pipeline.seq_boundary_target_source_owner_seqs.get(2), Some(0));
    assert_eq!(pipeline.seq_boundary_target_source_epochs.get(2), Some(0));
    assert_eq!(pipeline.seq_call_materialization_kinds.get(2), Some(CallMaterializationKind::FusedCall));
}

#[test]
fn ind_boundary_flush_emits_call_materialization_kind_from_dynamic_target_source() {
    let uops = setup_then_stop();
    let mut pipeline = StageQueues::default();
    pipeline.seq_branch_contexts.insert(1, context(BranchOwnerKind::Ind, 0x1002, 0x2000, 0x0ffe, false));
    pipeline.seq_boundary_target_pcs.insert(1, 0x2000);
    pipeline.seq_boundary_target_owner_seqs.insert(1, 0);
    pipeline.seq_boundary_target_producer_kinds.insert(1, ReturnConsumerKind::SetcTgt);
    pipeline.seq_boundary_target_source_owner_seqs.insert(1, 0);
    pipeline.seq_boundary_target_source_epochs.insert(1, 0);
    pipeline.seq_boundary_target_source_kinds.insert(1, DynamicTargetSourceKind::CallReturnFused);
    pipeline.seq_call_materialization_kinds.insert(1, CallMaterializationKind::FusedCall);

    let out = cycle7_events(&pipeline, &uops);

    assert!(out.iter().any(|event| {
        event.stage_id == "FLS"
            && event.row_id == "uop1"
            && event.cause == "redirect_boundary"
            && event.target_owner_row_id.as_deref() == Some("uop0")
            && event.target_producer_kind.as_deref() == Some("setc_tgt")
            && event.branch_kind.as_deref() == Some("ind")
            && event.target_source_owner_row_id.as_deref() == Some("uop0")
            && event.target_source_epoch == Some(0)
            && event.call_materialization_kind.as_deref() == Some("fused_call")
            && event.target_source_kind.as_deref() == Some("call_return_fused")
    }));
}

#[test]
fn register_operands_must_fit_the_register_table() {
    let ok = vec![reading(record(0x1000, 0, 4), 31, 0), writing(record(0x1004, 0, 4), 31, 0)];
    assert!(registers_fit(&ok, &vec![addi(), addi()]));

    let wide_source = vec![reading(record(0x1000, 0, 4), 40, 0)];
    assert!(!registers_fit(&wide_source, &vec![addi()]));

    let wide_dest = vec![writing(record(0x1000, 0, 4), 32, 0)];
    assert!(!registers_fit(&wide_dest, &vec![addi()]));

    // Only the records that have a decoded instruction are looked at.
    assert!(registers_fit(&wide_dest, &Vec::new()));
}
