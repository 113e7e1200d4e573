use stepdb::pager::Pager;
use stepdb::types::{Record, Value};
use stepdb::vdbe::{Insn, Program, ProgramBuilder, ProgramState, ProgramType, StepResult};

const PAGE_SIZE: usize = 512;

/// Build a leaf table page holding the given (rowid, text) rows.
fn leaf_page(rows: &[(i64, &str)]) -> Vec<u8> {
    let mut page = vec![0u8; PAGE_SIZE];
    page[0] = 0x0d;
    let ncells = rows.len();
    page[3] = (ncells >> 8) as u8;
    page[4] = (ncells & 0xff) as u8;
    let mut off = 100usize;
    for (k, (rowid, text)) in rows.iter().enumerate() {
        // cell pointer
        page[8 + 2 * k] = (off >> 8) as u8;
        page[8 + 2 * k + 1] = (off & 0xff) as u8;
        // cell: payload-length varint, rowid varint, record payload
        let body = text.as_bytes();
        let serial = 13 + 2 * body.len() as u8;
        let payload_len = 2 + body.len();
        assert!(*rowid >= 0 && *rowid < 128 && payload_len < 128);
        page[off] = payload_len as u8;
        page[off + 1] = *rowid as u8;
        page[off + 2] = 2; // record header length, including itself
        page[off + 3] = serial;
        page[off + 4..off + 4 + body.len()].copy_from_slice(body);
        off += 4 + body.len();
    }
    page
}

/// Build an interior table page whose only child is `child` (held in the
/// right-most pointer; no cells).
fn interior_page(child: u32) -> Vec<u8> {
    let mut page = vec![0u8; PAGE_SIZE];
    page[0] = 0x05;
    page[8..12].copy_from_slice(&child.to_be_bytes());
    page
}

/// The canonical table-scan program: open cursor 0 on root page 2, rewind,
/// project one column per row, halt. `project_rowid` swaps the `Column`
/// for a `RowId`.
fn scan_program(project_rowid: bool) -> Program {
    let read = if project_rowid {
        Insn::RowId { cursor_id: 0, dest: 0 }
    } else {
        Insn::Column { cursor_id: 0, column: 0, dest: 0 }
    };
    Program {
        max_registers: 1,
        insns: vec![
            Insn::Init { target_pc: 1 },
            Insn::Transaction,
            Insn::OpenReadAsync { cursor_id: 0, root_page: 2 },
            Insn::OpenReadAwait,
            Insn::RewindAsync { cursor_id: 0 },
            Insn::RewindAwait { cursor_id: 0, pc_if_empty: 10 },
            read,
            Insn::ResultRow { register_start: 0, register_end: 1 },
            Insn::NextAsync { cursor_id: 0 },
            Insn::NextAwait { cursor_id: 0, pc_if_next: 6 },
            Insn::Halt,
        ],
        program_type: ProgramType::Default,
    }
}

/// Drive a program to completion, feeding pending pages from `db`
/// (1-indexed pages) whenever `step` yields with pending I/O. Returns the
/// emitted rows and the number of `IO` yields.
fn run(program: &Program, state: &mut ProgramState, pager: &mut Pager, db: &[Vec<u8>]) -> (Vec<Record>, usize) {
    let mut rows = Vec::new();
    let mut ios = 0usize;
    loop {
        match program.step(state, pager).unwrap() {
            StepResult::Row(rec) => rows.push(rec),
            StepResult::IO => {
                ios += 1;
                for idx in pager.pending_pages() {
                    pager.complete_page(idx, db[idx - 1].clone());
                }
            },
            StepResult::Done => return (rows, ios),
        }
    }
}

fn as_int(v: &Value) -> i64 {
    match v {
        Value::Integer(n) => *n,
        other => panic!("expected an integer, got {:?}", other),
    }
}

fn as_text(v: &Value) -> &str {
    match v {
        Value::Text(s) => s.as_str(),
        other => panic!("expected text, got {:?}", other),
    }
}

#[test]
fn empty_table_scan_yields_done_without_rows() {
    let db = vec![vec![0u8; PAGE_SIZE], leaf_page(&[])];
    let program = scan_program(false);
    assert!(program.validate());
    let mut state = ProgramState::new(program.max_registers);
    let mut pager = Pager::new(PAGE_SIZE);
    let (rows, _) = run(&program, &mut state, &mut pager, &db);
    assert_eq!(rows.len(), 0);
}

#[test]
fn two_row_projection_yields_each_name() {
    let db = vec![vec![0u8; PAGE_SIZE], leaf_page(&[(1, "a"), (2, "b")])];
    let program = scan_program(false);
    let mut state = ProgramState::new(program.max_registers);
    let mut pager = Pager::new(PAGE_SIZE);
    let (rows, _) = run(&program, &mut state, &mut pager, &db);
    assert_eq!(rows.len(), 2);
    assert_eq!(as_text(&rows[0].values[0]), "a");
    assert_eq!(as_text(&rows[1].values[0]), "b");
}

#[test]
fn counter_loop_counts_down_and_halts() {
    let program = Program {
        max_registers: 1,
        insns: vec![
            Insn::Integer { value: 3, dest: 0 },
            Insn::DecrJumpZero { reg: 0, target_pc: 4 },
            Insn::ResultRow { register_start: 0, register_end: 1 },
            Insn::Goto { target_pc: 1 },
            Insn::Halt,
        ],
        program_type: ProgramType::Default,
    };
    assert!(program.validate());
    let mut state = ProgramState::new(1);
    let mut pager = Pager::new(PAGE_SIZE);
    let (rows, _) = run(&program, &mut state, &mut pager, &[]);
    let got: Vec<i64> = rows.iter().map(|r| as_int(&r.values[0])).collect();
    assert_eq!(got, vec![2, 1, 0]);
}

#[test]
fn io_suspension_on_cold_pager_still_yields_every_row() {
    // two-page table: interior root on page 2, rows on page 3
    let db = vec![
        vec![0u8; PAGE_SIZE],
        interior_page(3),
        leaf_page(&[(1, "x"), (2, "y")]),
    ];
    let program = scan_program(false);
    let mut state = ProgramState::new(1);
    let mut pager = Pager::new(PAGE_SIZE);
    // the first step must suspend: the cache is cold
    match program.step(&mut state, &mut pager).unwrap() {
        StepResult::IO => {},
        other => panic!("expected an IO suspension, got {:?}", fmt_result(&other)),
    }
    for idx in pager.pending_pages() {
        pager.complete_page(idx, db[idx - 1].clone());
    }
    let (rows, _) = run(&program, &mut state, &mut pager, &db);
    assert_eq!(rows.len(), 2);
    assert_eq!(as_text(&rows[0].values[0]), "x");
    assert_eq!(as_text(&rows[1].values[0]), "y");
}

fn fmt_result(r: &StepResult) -> &'static str {
    match r {
        StepResult::Done => "Done",
        StepResult::IO => "IO",
        StepResult::Row(_) => "Row",
    }
}

#[test]
fn branch_on_empty_skips_projection_loop() {
    let db = vec![vec![0u8; PAGE_SIZE], leaf_page(&[])];
    let program = scan_program(false);
    let mut state = ProgramState::new(1);
    let mut pager = Pager::new(PAGE_SIZE);
    let (rows, _) = run(&program, &mut state, &mut pager, &db);
    assert_eq!(rows.len(), 0);
    // halted at the instruction past the projection loop
    assert_eq!(state.pc, 10);
}

#[test]
fn rowid_projection_yields_integer_rowids() {
    let db = vec![vec![0u8; PAGE_SIZE], leaf_page(&[(1, "a"), (2, "b")])];
    let program = scan_program(true);
    let mut state = ProgramState::new(1);
    let mut pager = Pager::new(PAGE_SIZE);
    let (rows, _) = run(&program, &mut state, &mut pager, &db);
    let got: Vec<i64> = rows.iter().map(|r| as_int(&r.values[0])).collect();
    assert_eq!(got, vec![1, 2]);
}

#[test]
fn determinism_cold_and_warm_runs_agree() {
    let db = vec![vec![0u8; PAGE_SIZE], leaf_page(&[(1, "a"), (2, "b")])];
    let program = scan_program(false);

    // cold: pages arrive only after IO suspensions
    let mut state1 = ProgramState::new(1);
    let mut pager1 = Pager::new(PAGE_SIZE);
    let (rows1, ios1) = run(&program, &mut state1, &mut pager1, &db);
    assert!(ios1 > 0);

    // warm: every page resident before the first step
    let mut state2 = ProgramState::new(1);
    let mut pager2 = Pager::new(PAGE_SIZE);
    for idx in 1..=db.len() {
        if !pager2.request_page(idx) {
            pager2.complete_page(idx, db[idx - 1].clone());
        }
    }
    let (rows2, ios2) = run(&program, &mut state2, &mut pager2, &db);
    assert_eq!(ios2, 0);

    let t1: Vec<&str> = rows1.iter().map(|r| as_text(&r.values[0])).collect();
    let t2: Vec<&str> = rows2.iter().map(|r| as_text(&r.values[0])).collect();
    assert_eq!(t1, t2);
}

#[test]
fn io_retry_reexecutes_same_instruction_without_skipping() {
    // pump exactly one page per IO: each retry must pick up where it left off
    let db = vec![
        vec![0u8; PAGE_SIZE],
        interior_page(3),
        leaf_page(&[(1, "p"), (2, "q")]),
    ];
    let program = scan_program(false);
    let mut state = ProgramState::new(1);
    let mut pager = Pager::new(PAGE_SIZE);
    let mut rows: Vec<Record> = Vec::new();
    loop {
        match program.step(&mut state, &mut pager).unwrap() {
            StepResult::Row(rec) => rows.push(rec),
            StepResult::IO => {
                let pending = pager.pending_pages();
                let idx = pending[0];
                pager.complete_page(idx, db[idx - 1].clone());
            },
            StepResult::Done => break,
        }
    }
    assert_eq!(rows.len(), 2);
    assert_eq!(as_text(&rows[0].values[0]), "p");
    assert_eq!(as_text(&rows[1].values[0]), "q");
}

#[test]
fn decr_jump_zero_on_zero_branches_without_decrement() {
    let program = Program {
        max_registers: 1,
        insns: vec![
            Insn::Integer { value: 0, dest: 0 },
            Insn::DecrJumpZero { reg: 0, target_pc: 3 },
            Insn::Halt,
            Insn::ResultRow { register_start: 0, register_end: 1 },
            Insn::Halt,
        ],
        program_type: ProgramType::Default,
    };
    let mut state = ProgramState::new(1);
    let mut pager = Pager::new(PAGE_SIZE);
    let (rows, _) = run(&program, &mut state, &mut pager, &[]);
    // the jump was taken and the register still holds zero, undecremented
    assert_eq!(rows.len(), 1);
    assert_eq!(as_int(&rows[0].values[0]), 0);
}

#[test]
fn decr_jump_zero_on_negative_branches_without_decrement() {
    let program = Program {
        max_registers: 1,
        insns: vec![
            Insn::Integer { value: -5, dest: 0 },
            Insn::DecrJumpZero { reg: 0, target_pc: 3 },
            Insn::Halt,
            Insn::ResultRow { register_start: 0, register_end: 1 },
            Insn::Halt,
        ],
        program_type: ProgramType::Default,
    };
    let mut state = ProgramState::new(1);
    let mut pager = Pager::new(PAGE_SIZE);
    let (rows, _) = run(&program, &mut state, &mut pager, &[]);
    assert_eq!(rows.len(), 1);
    assert_eq!(as_int(&rows[0].values[0]), -5);
}

#[test]
fn decr_jump_zero_on_text_is_an_internal_error() {
    let program = Program {
        max_registers: 1,
        insns: vec![
            Insn::String8 { value: String::from("nope"), dest: 0 },
            Insn::DecrJumpZero { reg: 0, target_pc: 2 },
            Insn::Halt,
        ],
        program_type: ProgramType::Default,
    };
    let mut state = ProgramState::new(1);
    let mut pager = Pager::new(PAGE_SIZE);
    let err = program.step(&mut state, &mut pager).unwrap_err();
    assert_eq!(err, stepdb::errors::DbError::Internal);
}

#[test]
fn unopened_cursor_is_an_internal_error() {
    let program = Program {
        max_registers: 1,
        insns: vec![Insn::RewindAsync { cursor_id: 0 }, Insn::Halt],
        program_type: ProgramType::Default,
    };
    let mut state = ProgramState::new(1);
    let mut pager = Pager::new(PAGE_SIZE);
    let err = program.step(&mut state, &mut pager).unwrap_err();
    assert_eq!(err, stepdb::errors::DbError::Internal);
}

#[test]
fn string8_writes_text_register() {
    let program = Program {
        max_registers: 2,
        insns: vec![
            Insn::String8 { value: String::from("hello"), dest: 0 },
            Insn::Integer { value: 42, dest: 1 },
            Insn::ResultRow { register_start: 0, register_end: 2 },
            Insn::Halt,
        ],
        program_type: ProgramType::Default,
    };
    let mut state = ProgramState::new(2);
    let mut pager = Pager::new(PAGE_SIZE);
    let (rows, _) = run(&program, &mut state, &mut pager, &[]);
    assert_eq!(rows.len(), 1);
    assert_eq!(as_text(&rows[0].values[0]), "hello");
    assert_eq!(as_int(&rows[0].values[1]), 42);
}

#[test]
fn builder_allocates_dense_ids_and_fixes_up_placeholders() {
    let mut b = ProgramBuilder::new();
    let r0 = b.alloc_register();
    assert_eq!(r0, 0);
    assert_eq!(b.next_free_register(), 1);
    let c0 = b.alloc_cursor_id();
    let c1 = b.alloc_cursor_id();
    assert_eq!((c0, c1), (0, 1));
    let ph = b.emit_placeholder();
    assert_eq!(ph, 0);
    b.emit_insn(Insn::Transaction);
    b.emit_insn(Insn::Integer { value: 9, dest: r0 });
    b.emit_insn(Insn::ResultRow { register_start: 0, register_end: 1 });
    b.emit_insn(Insn::Halt);
    let end = b.offset();
    assert_eq!(end, 5);
    b.fixup_insn(ph, Insn::Init { target_pc: 1 });
    let program = b.build();
    assert!(program.validate());
    assert_eq!(program.max_registers, 1);
    let mut state = ProgramState::new(program.max_registers);
    let mut pager = Pager::new(PAGE_SIZE);
    let (rows, _) = run(&program, &mut state, &mut pager, &[]);
    assert_eq!(rows.len(), 1);
    assert_eq!(as_int(&rows[0].values[0]), 9);
}

#[test]
fn build_pragma_change_keeps_name_and_value() {
    let mut b = ProgramBuilder::new();
    b.emit_insn(Insn::Halt);
    let program = b.build_pragma_change(String::from("page_size"), 4096);
    match &program.program_type {
        ProgramType::PragmaChange(name, value) => {
            assert_eq!(name, "page_size");
            assert_eq!(*value, 4096);
        },
        _ => panic!("expected a pragma-change program"),
    }
}

#[test]
fn validate_rejects_out_of_range_registers_and_targets() {
    let bad_reg = Program {
        max_registers: 1,
        insns: vec![Insn::Integer { value: 1, dest: 3 }, Insn::Halt],
        program_type: ProgramType::Default,
    };
    assert!(!bad_reg.validate());
    let bad_target = Program {
        max_registers: 1,
        insns: vec![Insn::Goto { target_pc: 9 }, Insn::Halt],
        program_type: ProgramType::Default,
    };
    assert!(!bad_target.validate());
    assert!(scan_program(false).validate());
}

#[test]
fn program_state_reports_columns() {
    let mut state = ProgramState::new(3);
    assert_eq!(state.column_count(), 3);
    let rendered = state.column(0).unwrap();
    assert!(rendered.contains("Null"));
    state.registers[1] = Value::Integer(7);
    let rendered = state.column(1).unwrap();
    assert!(rendered.contains("7"));
}

/// Build an interior page with one cell child and a right-most child.
fn interior_page_two_children(first: u32, rightmost: u32) -> Vec<u8> {
    let mut page = vec![0u8; PAGE_SIZE];
    page[0] = 0x05;
    page[4] = 1; // one cell
    page[8..12].copy_from_slice(&rightmost.to_be_bytes());
    page[12] = 0;
    page[13] = 100; // cell pointer
    page[100..104].copy_from_slice(&first.to_be_bytes());
    page[104] = 2; // divider rowid varint
    page
}

#[test]
fn scan_crosses_leaf_boundaries_in_order() {
    let db = vec![
        vec![0u8; PAGE_SIZE],
        interior_page_two_children(3, 4),
        leaf_page(&[(1, "a"), (2, "b")]),
        leaf_page(&[(3, "c")]),
    ];
    let program = scan_program(false);
    let mut state = ProgramState::new(1);
    let mut pager = Pager::new(PAGE_SIZE);
    let (rows, _) = run(&program, &mut state, &mut pager, &db);
    let got: Vec<&str> = rows.iter().map(|r| as_text(&r.values[0])).collect();
    assert_eq!(got, vec!["a", "b", "c"]);
}

#[test]
fn scan_of_corrupt_page_type_reports_corrupt() {
    let mut bad = vec![0u8; PAGE_SIZE];
    bad[0] = 0x77; // neither leaf nor interior
    let db = vec![vec![0u8; PAGE_SIZE], bad];
    let program = scan_program(false);
    let mut state = ProgramState::new(1);
    let mut pager = Pager::new(PAGE_SIZE);
    loop {
        match program.step(&mut state, &mut pager) {
            Ok(StepResult::IO) => {
                for idx in pager.pending_pages() {
                    pager.complete_page(idx, db[idx - 1].clone());
                }
            },
            Ok(other) => panic!("expected an error, got {:?}", other),
            Err(e) => {
                assert_eq!(e, stepdb::errors::DbError::Corrupt);
                break;
            },
        }
    }
}

#[test]
fn reset_clears_registers_cursors_and_pc() {
    let db = vec![vec![0u8; PAGE_SIZE], leaf_page(&[(1, "a")])];
    let program = scan_program(false);
    let mut state = ProgramState::new(1);
    let mut pager = Pager::new(PAGE_SIZE);
    let (rows, _) = run(&program, &mut state, &mut pager, &db);
    assert_eq!(rows.len(), 1);
    assert!(state.pc != 0);
    state.reset();
    assert_eq!(state.pc, 0);
    assert_eq!(state.column_count(), 1);
    assert!(matches!(state.registers[0], Value::Null));
    assert!(state.cursors.is_empty());
    // the same state drives a fresh run to the same rows
    let (rows2, _) = run(&program, &mut state, &mut pager, &db);
    assert_eq!(rows2.len(), 1);
    assert_eq!(as_text(&rows2[0].values[0]), "a");
}

#[test]
fn column_count_reports_first_row_width() {
    // two registers, but the result row projects only the first
    let program = Program {
        max_registers: 2,
        insns: vec![
            Insn::Integer { value: 7, dest: 0 },
            Insn::Integer { value: 8, dest: 1 },
            Insn::ResultRow { register_start: 0, register_end: 1 },
            Insn::Halt,
        ],
        program_type: ProgramType::Default,
    };
    let mut state = ProgramState::new(2);
    // before any row: the register-file width
    assert_eq!(state.column_count(), 2);
    let mut pager = Pager::new(PAGE_SIZE);
    let (rows, _) = run(&program, &mut state, &mut pager, &[]);
    assert_eq!(rows.len(), 1);
    assert_eq!(rows[0].values.len(), 1);
    // after the first row: that row's width
    assert_eq!(state.column_count(), 1);
}
