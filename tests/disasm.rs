use wasmdbg::debugger::{Action, DebugState, WasmDebugger};
use wasmdbg::disasm::{DisasmError, FunctionName, ModuleDisasm};
use wasmdbg::lines::{LineRow, LineTable};

fn add_body() -> Vec<(usize, String)> {
    vec![
        (0x2A, "LocalGet { local_index: 0 }".to_string()),
        (0x2C, "LocalGet { local_index: 1 }".to_string()),
        (0x2E, "I32Add".to_string()),
        (0x2F, "End".to_string()),
    ]
}

fn names() -> Vec<FunctionName> {
    vec![FunctionName { index: 1, name: "add".to_string() }]
}

#[test]
fn disassembly_with_source_line() {
    let mut m = ModuleDisasm::from_bodies(1, &vec![add_body()], &names(), 0x40).unwrap();
    let rows = vec![LineRow { address: 0x2A, directory: None, file: "src/lib.c".to_string(), line: 7, end_sequence: false }];
    m.lines = Some(LineTable::from_rows(&rows));
    let text = m.print_function("add").unwrap();
    assert_eq!(
        text,
        "Disassembly of add (index 1):\n\
         \x20 0x002A: LocalGet { local_index: 0 }    ; src/lib.c:7\n\
         \x20 0x002C: LocalGet { local_index: 1 }\n\
         \x20 0x002E: I32Add\n\
         \x20 0x002F: End\n"
    );
    assert_eq!(m.print_function("ADD").unwrap(), text);
    assert_eq!(m.print_function("0").unwrap(), text);
    assert_eq!(m.print_function("3"), Err(DisasmError::FunctionNotFound("3".to_string())));
    assert_eq!(m.print_function("sub"), Err(DisasmError::FunctionNotFound("sub".to_string())));
}

#[test]
fn offsets_must_increase_inside_the_module() {
    let bad = vec![vec![(5usize, "Nop".to_string()), (5usize, "End".to_string())]];
    assert!(matches!(ModuleDisasm::from_bodies(0, &bad, &vec![], 10), Err(DisasmError::MalformedModule)));
    let outside = vec![vec![(12usize, "End".to_string())]];
    assert!(matches!(ModuleDisasm::from_bodies(0, &outside, &vec![], 10), Err(DisasmError::MalformedModule)));
    let m = ModuleDisasm::from_bodies(2, &vec![add_body(), vec![(0x30, "End".to_string())]], &names(), 0x40).unwrap();
    assert_eq!(m.functions[0].name, "func_2");
    assert_eq!(m.functions[1].name, "func_3");
    assert_eq!(m.func_len(0), Some(4));
    assert_eq!(m.func_len(1), Some(1));
    assert_eq!(m.func_len(2), None);
    assert_eq!(m.get_instr(0, 2), Some((0x2E, "I32Add".to_string())));
    assert_eq!(m.get_instr(0, 4), None);
    assert_eq!(m.find_function_index_by_name("FUNC_3"), Some(1));
    assert!(m.disassemble_function("func_2").is_some());
}

#[test]
fn module_bytes_are_disassembled() {
    let module: Vec<u8> = vec![
        0x00, 0x61, 0x73, 0x6d, 0x01, 0x00, 0x00, 0x00, // header
        0x01, 0x04, 0x01, 0x60, 0x00, 0x00, // type section: () -> ()
        0x03, 0x02, 0x01, 0x00, // function section
        0x0a, 0x04, 0x01, 0x02, 0x00, 0x0b, // code section: one body, `end`
    ];
    let m = ModuleDisasm::from_wasm(&module, &vec![]).unwrap();
    assert_eq!(m.functions.len(), 1);
    assert_eq!(m.functions[0].name, "func_0");
    assert_eq!(m.functions[0].instrs, vec![(23usize, "End".to_string())]);
    assert!(matches!(ModuleDisasm::from_wasm(&[0, 1, 2, 3, 4, 5, 6, 7], &vec![]), Err(DisasmError::ParseError(_))));
}

#[test]
fn break_then_run_halts_at_function_start() {
    let m = ModuleDisasm::from_bodies(0, &vec![vec![(0x10, "End".to_string())], add_body()], &vec![FunctionName { index: 1, name: "add".to_string() }], 0x40).unwrap();
    let mut dbg = WasmDebugger::new(m);
    dbg.set_breakpoint("add");
    assert_eq!(dbg.run(), Action::CallInitSequence);
    assert_eq!(dbg.state, DebugState::AtBreakpoint);
    assert_eq!(dbg.disasm.functions[dbg.current_func as usize].name, "add");
    assert_eq!(dbg.current_instr, 0);
}

#[test]
fn stepping_moves_through_functions() {
    let m = ModuleDisasm::from_bodies(0, &vec![vec![(0x10, "End".to_string())], add_body()], &vec![], 0x40).unwrap();
    let mut dbg = WasmDebugger::new(m);
    assert!(dbg.step().is_none());
    assert_eq!(dbg.state, DebugState::Idle);
    assert_eq!(dbg.run(), Action::CallInitSequence);
    assert_eq!(dbg.state, DebugState::Running);
    assert_eq!(dbg.step_action(), Action::StepInstruction);
    let r = dbg.step().unwrap();
    assert_eq!(r.instr, (0x10, "End".to_string()));
    assert_eq!(dbg.state, DebugState::Stepping);
    assert!(dbg.step().is_none());
    assert_eq!((dbg.current_func, dbg.current_instr), (1, 0));
    let r = dbg.step().unwrap();
    assert_eq!(r.func_name, "func_1");
    assert_eq!(r.instr.0, 0x2A);
    dbg.continue_exec();
    assert_eq!(dbg.state, DebugState::Terminated);
}

#[test]
fn continue_stops_at_next_breakpoint() {
    let bodies = vec![vec![(1, "End".to_string())], vec![(2, "End".to_string())], vec![(3, "End".to_string())]];
    let m = ModuleDisasm::from_bodies(0, &bodies, &vec![], 0x40).unwrap();
    let mut dbg = WasmDebugger::new(m);
    dbg.set_breakpoint("func_2");
    dbg.set_breakpoint("func_2");
    assert_eq!(dbg.breakpoints.len(), 1);
    dbg.run();
    assert_eq!(dbg.state, DebugState::AtBreakpoint);
    assert_eq!(dbg.current_func, 2);
    dbg.terminate();
    assert_eq!(dbg.state, DebugState::Terminated);
}

#[test]
fn line_table_keeps_one_position_per_address() {
    let rows = vec![
        LineRow { address: 4, directory: Some("src".to_string()), file: "a.c".to_string(), line: 1, end_sequence: false },
        LineRow { address: 8, directory: Some(String::new()), file: "b.c".to_string(), line: 2, end_sequence: false },
        LineRow { address: 4, directory: None, file: "c.c".to_string(), line: 3, end_sequence: false },
        LineRow { address: 8, directory: None, file: "z.c".to_string(), line: 9, end_sequence: true },
    ];
    let t = LineTable::from_rows(&rows);
    assert_eq!(t.lookup(4), Some(("c.c".to_string(), 3)));
    assert_eq!(t.lookup(8), Some(("b.c".to_string(), 2)));
    assert_eq!(t.lookup(5), None);
    let t2 = LineTable::from_rows(&rows[..1].to_vec());
    assert_eq!(t2.lookup(4), Some(("src/a.c".to_string(), 1)));
}

#[test]
fn imported_functions_shift_indices() {
    let module: Vec<u8> = vec![
        0x00, 0x61, 0x73, 0x6d, 0x01, 0x00, 0x00, 0x00, // header
        0x01, 0x04, 0x01, 0x60, 0x00, 0x00, // type section: () -> ()
        0x02, 0x09, 0x01, 0x03, b'e', b'n', b'v', 0x01, b'f', 0x00, 0x00, // import env.f
        0x03, 0x02, 0x01, 0x00, // function section
        0x0a, 0x04, 0x01, 0x02, 0x00, 0x0b, // code section
    ];
    let m = ModuleDisasm::from_wasm(&module, &vec![FunctionName { index: 1, name: "body".to_string() }]).unwrap();
    assert_eq!(m.functions.len(), 1);
    assert_eq!(m.functions[0].func_index, 1);
    assert_eq!(m.functions[0].name, "body");
    assert_eq!(m.functions[0].instrs, vec![(34usize, "End".to_string())]);
}
