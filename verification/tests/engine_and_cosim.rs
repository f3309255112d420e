use camodel::config::{CycleEngine, CycleRunOptions};
use camodel::cosim::{compare_commit_streams, cosim_mismatch_message, require_cosim_match};
use camodel::elf::{load_static_elf_bytes, ElfLoadError, LoadedElf, SegmentImage};
use camodel::engine::{functional_step_limit, trap_exit_text};
use camodel::record::{CommitRecord, DecodedInstruction, EngineKind, RunMetrics, RunResult};
use camodel::text::uop_row_id;

fn enc_addi(rd: u32, rs1: u32, imm: u32) -> u32 {
    ((imm & 0x0fff) << 20) | (rs1 << 15) | (rd << 7) | 0x15
}

fn enc_acrc(rst_type: u32) -> u32 {
    ((rst_type & 0xf) << 20) | 0x302b
}

fn record(pc: u64, insn: u64) -> CommitRecord {
    CommitRecord {
        cycle: 0,
        pc,
        insn,
        len: 4,
        next_pc: pc + 4,
        src0_valid: 0,
        src0_reg: 0,
        src0_data: 0,
        src1_valid: 0,
        src1_reg: 0,
        src1_data: 0,
        wb_valid: 0,
        wb_rd: 0,
        wb_data: 0,
        mem_valid: 0,
        mem_is_store: 0,
        mem_addr: 0,
        mem_size: 0,
        trap_valid: 0,
        trap_cause: 0,
        traparg0: 0,
    }
}

/// One `addi rd, rs1, imm` at position `i` of a program starting at 0x1000.
fn addi_commit(i: u64, rd: u8, rs1: u8, imm: u64, value: u64) -> (CommitRecord, DecodedInstruction) {
    let pc = 0x1000 + 4 * i;
    let commit = CommitRecord {
        src0_valid: if rs1 != 0 { 1 } else { 0 },
        src0_reg: rs1,
        src0_data: value - imm,
        wb_valid: 1,
        wb_rd: rd,
        wb_data: value,
        ..record(pc, enc_addi(rd as u32, rs1 as u32, imm as u32) as u64)
    };
    let decoded = DecodedInstruction {
        mnemonic: "ADDI".to_string(),
        assembly: format!("addi x{}, x{}, {}", rd, rs1, imm),
        uop_group: "ALU".to_string(),
        fields: Vec::new(),
    };
    (commit, decoded)
}

fn acrc_commit(i: u64) -> (CommitRecord, DecodedInstruction) {
    let pc = 0x1000 + 4 * i;
    let decoded = DecodedInstruction {
        mnemonic: "ACRC".to_string(),
        assembly: "acrc 1".to_string(),
        uop_group: "SYS".to_string(),
        fields: Vec::new(),
    };
    (record(pc, enc_acrc(1) as u64), decoded)
}

fn functional_run(steps: Vec<(CommitRecord, DecodedInstruction)>) -> RunResult {
    let mut commits = Vec::new();
    let mut decoded = Vec::new();
    for (c, d) in steps {
        commits.push(c);
        decoded.push(d);
    }
    RunResult {
        image_name: "sample.elf".to_string(),
        entry_pc: 0x1000,
        metrics: RunMetrics {
            engine: EngineKind::Func,
            cycles: commits.len() as u64,
            commits: commits.len() as u64,
            exit_reason: "guest_exit(1)".to_string(),
        },
        commits,
        decoded,
    }
}

#[test]
fn cycle_engine_retires_multiple_uops() {
    let func = functional_run(vec![
        addi_commit(0, 2, 0, 1, 1),
        addi_commit(1, 3, 0, 2, 2),
        addi_commit(2, 4, 0, 3, 3),
        addi_commit(3, 5, 0, 4, 4),
        addi_commit(4, 9, 0, 93, 93),
        acrc_commit(5),
    ]);
    let bundle = CycleEngine.run(
        "sample.elf".to_string(),
        0x1000,
        &"lane0".to_string(),
        &func,
        &CycleRunOptions { max_cycles: 64, ..CycleRunOptions::default() },
    );
    assert_eq!(bundle.result.metrics.exit_reason, "guest_exit(1)");
    assert_eq!(bundle.result.commits.len(), 6);
    assert!(bundle.stage_events.iter().any(|event| event.stage_id == "IQ"));
    assert!(bundle.stage_events.iter().any(|event| event.stage_id == "ROB"));
    assert!(bundle.stage_events.iter().filter(|event| event.stage_id == "CMT").count() > 0);
}

#[test]
fn dependent_uop_picks_after_producer_wakeup_window() {
    let func = functional_run(vec![
        addi_commit(0, 2, 0, 5, 5),
        addi_commit(1, 3, 2, 6, 11),
        addi_commit(2, 9, 0, 93, 93),
        acrc_commit(3),
    ]);
    let bundle = CycleEngine.run(
        "sample.elf".to_string(),
        0x1000,
        &"lane0".to_string(),
        &func,
        &CycleRunOptions { max_cycles: 64, ..CycleRunOptions::default() },
    );

    let mut first_w1 = None;
    let mut second_p1 = None;
    for event in &bundle.stage_events {
        if event.row_id == "uop0" && event.stage_id == "W1" && first_w1.is_none() {
            first_w1 = Some(event.cycle);
        }
        if event.row_id == "uop1" && event.stage_id == "P1" && second_p1.is_none() {
            second_p1 = Some(event.cycle);
        }
    }

    assert!(first_w1.is_some());
    assert!(second_p1.is_some());
    assert!(second_p1.unwrap() > first_w1.unwrap());
}

#[test]
fn completed_uops_leave_iq_and_w2() {
    let func = functional_run(vec![
        addi_commit(0, 2, 0, 1, 1),
        addi_commit(1, 3, 2, 2, 3),
        addi_commit(2, 9, 0, 93, 93),
        acrc_commit(3),
    ]);
    let bundle = CycleEngine.run(
        "sample.elf".to_string(),
        0x1000,
        &"lane0".to_string(),
        &func,
        &CycleRunOptions { max_cycles: 64, ..CycleRunOptions::default() },
    );

    let retire_cycle = bundle
        .stage_events
        .iter()
        .find(|event| event.row_id == "uop0" && event.stage_id == "CMT")
        .map(|event| event.cycle)
        .expect("expected retirement");

    assert!(!bundle
        .stage_events
        .iter()
        .any(|event| event.row_id == "uop0" && event.stage_id == "IQ" && event.cycle > retire_cycle));
    assert_eq!(
        bundle.stage_events.iter().filter(|event| event.row_id == "uop0" && event.stage_id == "W2").count(),
        1
    );
}

#[test]
fn cycle_limit_reports_requested_cycle_budget() {
    let mut steps = Vec::new();
    let mut value = 0u64;
    for i in 0..11u64 {
        let rd = (i + 2) as u8;
        let rs1 = if i == 0 { 0 } else { (i + 1) as u8 };
        value += i + 1;
        steps.push(addi_commit(i, rd, rs1, i + 1, value));
    }
    steps.push(acrc_commit(11));
    let func = functional_run(steps);
    let bundle = CycleEngine.run(
        "sample.elf".to_string(),
        0x1000,
        &"lane0".to_string(),
        &func,
        &CycleRunOptions { max_cycles: 4, ..CycleRunOptions::default() },
    );

    assert_eq!(bundle.result.metrics.exit_reason, "cycle_limit");
    assert_eq!(bundle.result.metrics.cycles, 4);
}

#[test]
fn cycle_run_of_an_empty_stream_reports_nothing() {
    let func = functional_run(Vec::new());
    let bundle = CycleEngine.run(
        "empty.elf".to_string(),
        0x2000,
        &"lane0".to_string(),
        &func,
        &CycleRunOptions::default(),
    );
    assert_eq!(bundle.result.image_name, "empty.elf");
    assert_eq!(bundle.result.entry_pc, 0x2000);
    assert_eq!(bundle.result.metrics.engine, EngineKind::Cycle);
    assert_eq!(bundle.result.metrics.cycles, 0);
    assert_eq!(bundle.result.metrics.commits, 0);
    assert_eq!(bundle.result.metrics.exit_reason, "guest_exit(1)");
    assert!(bundle.result.commits.is_empty());
    assert!(bundle.stage_events.is_empty());
}

#[test]
fn cycle_run_retires_the_functional_stream_in_order() {
    let func = functional_run(vec![
        addi_commit(0, 2, 0, 1, 1),
        addi_commit(1, 3, 2, 2, 3),
        acrc_commit(2),
    ]);
    let bundle = CycleEngine.run(
        "sample.elf".to_string(),
        0x1000,
        &"lane0".to_string(),
        &func,
        &CycleRunOptions { max_cycles: 64, ..CycleRunOptions::default() },
    );
    assert_eq!(bundle.result.commits.len(), 3);
    assert_eq!(bundle.result.decoded.len(), 3);
    assert_eq!(bundle.result.metrics.commits, 3);
    let pcs = bundle.result.commits.iter().map(|c| c.pc).collect::<Vec<_>>();
    assert_eq!(pcs, vec![0x1000, 0x1004, 0x1008]);
    let last = bundle.result.commits[2].cycle;
    assert_eq!(bundle.result.metrics.cycles, last + 1);
    assert!(bundle.result.commits.windows(2).all(|w| w[0].cycle <= w[1].cycle));
    let report = compare_commit_streams(&func.commits, &bundle.result.commits);
    assert!(report.mismatch.is_none());
    assert_eq!(report.matched_commits, 3);
}

#[test]
fn functional_budget_is_commit_width_per_cycle() {
    assert_eq!(functional_step_limit(0), 1);
    assert_eq!(functional_step_limit(1), 4);
    assert_eq!(functional_step_limit(256), 1024);
    assert_eq!(functional_step_limit(u64::MAX), u64::MAX);
}

#[test]
fn trap_exit_reason_shows_the_cause_in_hex() {
    assert_eq!(trap_exit_text(0x4001), "trap(0x00004001)");
    assert_eq!(trap_exit_text(0xdeadbeef1), "trap(0xdeadbeef1)");
    assert_eq!(trap_exit_text(0), "trap(0x00000000)");
}

#[test]
fn trap_exit_reason_handles_the_widest_cause() {
    assert_eq!(trap_exit_text(u64::MAX), "trap(0xffffffffffffffff)");
    assert_eq!(trap_exit_text(0xabcdef), "trap(0x00abcdef)");
    assert_eq!(trap_exit_text(0x12345678), "trap(0x12345678)");
}

#[test]
fn comparison_finds_pc_mismatch() {
    let lhs = record(1, 2);
    let rhs = record(3, 2);
    let report = compare_commit_streams(&[lhs], &[rhs]);
    assert_eq!(report.mismatch.unwrap().field, "pc");
}

#[test]
fn comparison_of_a_stream_with_itself_matches() {
    let stream = vec![record(0x1000, 1), record(0x1004, 2)];
    let report = compare_commit_streams(&stream, &stream);
    assert_eq!(report.matched_commits, 2);
    assert!(report.mismatch.is_none());
    assert!(require_cosim_match(&report).is_ok());
}

#[test]
fn comparison_ignores_retire_cycles() {
    let expected = vec![record(0x1000, 1), record(0x1004, 2)];
    let actual = vec![CommitRecord { cycle: 7, ..expected[0] }, CommitRecord { cycle: 9, ..expected[1] }];
    let report = compare_commit_streams(&expected, &actual);
    assert!(report.mismatch.is_none());
}

#[test]
fn comparison_reports_a_short_stream_by_commit_count() {
    let expected = vec![record(0x1000, 1), record(0x1004, 2)];
    let actual = vec![record(0x1000, 1)];
    let report = compare_commit_streams(&expected, &actual);
    let mismatch = report.mismatch.unwrap();
    assert_eq!(report.matched_commits, 1);
    assert_eq!(mismatch.index, 1);
    assert_eq!(mismatch.field, "commit_count");
    assert_eq!(mismatch.expected, "2");
    assert_eq!(mismatch.actual, "1");
}

#[test]
fn cosim_mismatch_fails_with_its_text() {
    let expected = vec![record(0x1000, 1)];
    let actual = vec![CommitRecord { next_pc: 0x2000, ..expected[0] }];
    let report = compare_commit_streams(&expected, &actual);
    let mismatch = report.mismatch.clone().unwrap();
    assert_eq!(mismatch.field, "next_pc");
    assert_eq!(
        cosim_mismatch_message(&mismatch),
        "cosim mismatch at commit 0 field next_pc: expected=4100 actual=8192"
    );
    let err = require_cosim_match(&report).unwrap_err();
    assert_eq!(err.to_string(), "cosim mismatch at commit 0 field next_pc: expected=4100 actual=8192");
}

#[test]
fn row_ids_name_the_micro_op() {
    assert_eq!(uop_row_id(0), "uop0");
    assert_eq!(uop_row_id(1234), "uop1234");
    assert_eq!(uop_row_id(9), "uop9");
    assert_eq!(uop_row_id(10), "uop10");
    assert_eq!(uop_row_id(4_294_967_295), "uop4294967295");
}

fn le16(v: u16) -> Vec<u8> {
    v.to_le_bytes().to_vec()
}

fn le32(v: u32) -> Vec<u8> {
    v.to_le_bytes().to_vec()
}

fn le64(v: u64) -> Vec<u8> {
    v.to_le_bytes().to_vec()
}

/// A 64-bit little-endian executable with one program header of type
/// `p_type` whose file bytes are `payload` (or `filesz` of them).
fn tiny_elf(p_type: u32, filesz: u64, payload: &[u8]) -> Vec<u8> {
    let mut b = vec![0x7f, b'E', b'L', b'F', 2, 1, 1, 0, 0, 0, 0, 0, 0, 0, 0, 0];
    b.extend(le16(2));
    b.extend(le16(243));
    b.extend(le32(1));
    b.extend(le64(0x1000));
    b.extend(le64(64));
    b.extend(le64(0));
    b.extend(le32(0));
    b.extend(le16(64));
    b.extend(le16(56));
    b.extend(le16(1));
    b.extend(le16(64));
    b.extend(le16(0));
    b.extend(le16(0));
    assert_eq!(b.len(), 64);
    b.extend(le32(p_type));
    b.extend(le32(5));
    b.extend(le64(120));
    b.extend(le64(0x1000));
    b.extend(le64(0x1000));
    b.extend(le64(filesz));
    b.extend(le64(8));
    b.extend(le64(0x1000));
    assert_eq!(b.len(), 120);
    b.extend_from_slice(payload);
    b
}

#[test]
fn static_elf_loads_its_segment_bytes() {
    let bytes = tiny_elf(1, 4, &[1, 2, 3, 4]);
    let loaded = load_static_elf_bytes("images/tiny.elf".to_string(), &bytes).unwrap();
    assert_eq!(loaded.entry, 0x1000);
    assert_eq!(loaded.bits, 64);
    assert!(loaded.little_endian);
    assert_eq!(loaded.machine, 243);
    assert_eq!(loaded.segments.len(), 1);
    assert_eq!(loaded.segments[0].vaddr, 0x1000);
    assert_eq!(loaded.segments[0].file_size, 4);
    assert_eq!(loaded.segments[0].mem_size, 8);
    assert_eq!(loaded.segments[0].flags, 5);
    assert_eq!(loaded.segments[0].data, vec![1, 2, 3, 4]);
    assert_eq!(loaded.image_name(), "tiny.elf");
}

#[test]
fn static_elf_rejects_a_segment_past_the_file() {
    let bytes = tiny_elf(1, 100, &[1, 2, 3, 4]);
    assert_eq!(load_static_elf_bytes("tiny.elf".to_string(), &bytes), Err(ElfLoadError::SegmentOutsideImage));
}

#[test]
fn static_elf_rejects_a_dynamic_interpreter() {
    let bytes = tiny_elf(3, 4, &[1, 2, 3, 4]);
    assert_eq!(load_static_elf_bytes("tiny.elf".to_string(), &bytes), Err(ElfLoadError::DynamicInterpreter));
}

#[test]
fn static_elf_needs_a_load_segment() {
    let bytes = tiny_elf(4, 4, &[1, 2, 3, 4]);
    assert_eq!(load_static_elf_bytes("tiny.elf".to_string(), &bytes), Err(ElfLoadError::NoLoadSegments));
}

#[test]
fn unparsable_bytes_are_a_parse_error() {
    let result = load_static_elf_bytes("junk.bin".to_string(), &vec![0u8; 8]);
    assert!(matches!(result, Err(ElfLoadError::Parse(_))));
}

#[test]
fn image_name_falls_back_to_a_out() {
    let image = LoadedElf {
        path: "/".to_string(),
        entry: 0,
        little_endian: true,
        bits: 64,
        machine: 0,
        segments: vec![SegmentImage { vaddr: 0, mem_size: 0, file_size: 0, flags: 0, data: Vec::new() }],
    };
    assert_eq!(image.image_name(), "a.out");
    let named = LoadedElf { path: "build/prog.elf".to_string(), ..image };
    assert_eq!(named.image_name(), "prog.elf");
}
