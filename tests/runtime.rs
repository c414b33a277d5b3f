use wasmdbg::errors::RuntimeError;
use wasmdbg::hexdump::{memdump, wasm_to_hex};
use wasmdbg::runtime::{
    advance_fallback_pc, check_access, default_memory, global_as_i32, global_as_i64, global_line,
    init_sequence, partition_exports, resolve_symbol_address, snapshot_memory, step_target,
    ExportEntry, ExportKind, GlobalValue,
};
use wasmdbg::symbols::{SymbolTable, SymbolType};
use wasmdbg::toolchain::{CheckStatus, Toolcheck, ToolchainReport};
use wasmdbg::types::VariableInfo;

fn export(name: &str, kind: ExportKind) -> ExportEntry {
    ExportEntry { name: name.to_string(), kind }
}

#[test]
fn global_counter_prints_as_i32() {
    let v = global_as_i32(GlobalValue::I32(1)).unwrap();
    assert_eq!(global_line("GLOBAL_COUNTER", v), "GLOBAL_COUNTER = 1 (global i32)");
    assert_eq!(global_line("g", -42), "g = -42 (global i32)");
    assert_eq!(
        global_as_i32(GlobalValue::I64(5)),
        Err(RuntimeError::TypeMismatch { expected: "i32".to_string(), found: "i64".to_string() })
    );
    assert_eq!(global_as_i64(GlobalValue::I64(5)), Ok(5));
}

#[test]
fn two_byte_buffer_dump() {
    let mut mem = vec![0u8; 0x500];
    mem[0x400] = 1;
    assert_eq!(memdump(&mem, 0x400, 2).unwrap(), "0x0400: 01 00  |..|\n");
    assert_eq!(memdump(&mem, 0x500, 2), Err(RuntimeError::InvalidMemoryAccess));
    let tail = memdump(&mem, 0x4FF, 64).unwrap();
    assert_eq!(tail, "0x04FF: 00  |.|\n");
}

#[test]
fn dump_lines_of_sixteen() {
    let bytes: Vec<u8> = (0x40u8..0x52).collect();
    let d = memdump(&bytes, 0, 18).unwrap();
    assert_eq!(
        d,
        "0x0000: 40 41 42 43 44 45 46 47 48 49 4A 4B 4C 4D 4E 4F  |@ABCDEFGHIJKLMNO|\n0x0010: 50 51  |PQ|\n"
    );
    let h = wasm_to_hex(&[0x00, 0x61, 0x73]);
    assert_eq!(h, format!("0000: 00 61 73 {} |.as|\n", " ".repeat(39)));
}

#[test]
fn exports_memory_and_entry_points() {
    let ex = vec![
        export("mem0", ExportKind::Memory),
        export("_step", ExportKind::Function),
        export("memory", ExportKind::Memory),
        export("init", ExportKind::Function),
        export("G", ExportKind::Global),
        export("_start", ExportKind::Function),
    ];
    assert_eq!(default_memory(&ex), Ok(2));
    assert_eq!(default_memory(&ex[..2].to_vec()), Ok(0));
    assert!(matches!(default_memory(&ex[1..2].to_vec()), Err(RuntimeError::MemoryNotFound(_))));
    let t = partition_exports(&ex);
    assert_eq!(t.functions, vec!["_step", "init", "_start"]);
    assert_eq!(t.memories, vec!["mem0", "memory"]);
    assert_eq!(t.globals, vec!["G"]);
    assert_eq!(init_sequence(&t.functions), vec!["_start", "init"]);
    assert_eq!(step_target(&t.functions), Some("_step".to_string()));
    assert_eq!(step_target(&vec!["main".to_string(), "step".to_string()]), Some("step".to_string()));
    assert_eq!(step_target(&vec![]), None);
    assert_eq!(advance_fallback_pc(3), 4);
}

#[test]
fn memory_access_bounds_and_snapshots() {
    assert_eq!(check_access(16, 12, 4), Ok(()));
    assert_eq!(check_access(16, 13, 4), Err(RuntimeError::InvalidMemoryAccess));
    let mem = vec![1u8, 2, 3];
    assert_eq!(snapshot_memory(&mem), snapshot_memory(&mem));
    assert_eq!(resolve_symbol_address(Some(7), Some(GlobalValue::I32(9))), Some(7));
    assert_eq!(resolve_symbol_address(None, Some(GlobalValue::I32(0x400))), Some(0x400));
    assert_eq!(resolve_symbol_address(None, Some(GlobalValue::I64(1))), None);
}

#[test]
fn symbol_table_from_exports_and_variables() {
    let mut t = SymbolTable::new();
    t.add_export("GLOBAL_COUNTER", SymbolType::Global);
    t.add_export("_step", SymbolType::Function);
    t.add_export("MEMORY_BUFFER", SymbolType::Global);
    t.load_variables(&vec![VariableInfo { name: "MEMORY_BUFFER".to_string(), address: 0x400, ty_name: "u8[8]".to_string(), size: 8 }]);
    assert_eq!(t.get_symbol_info("MEMORY_BUFFER").unwrap().address, 0x400);
    assert_eq!(t.resolve_address(0x403).unwrap().name, "MEMORY_BUFFER");
    assert!(t.resolve_address(0x408).is_none());
    assert_eq!(t.filter("buffer"), vec![2]);
    assert_eq!(t.filter("_"), vec![0, 1, 2]);
    assert!(t.get_symbol_info("nope").is_none());
}

#[test]
fn toolchain_summary() {
    let c = |name: &str, status| Toolcheck { name: name.to_string(), status, details: "d".to_string(), fix: None };
    let r = ToolchainReport { checks: vec![c("a", CheckStatus::Good), c("b", CheckStatus::Warn), c("c", CheckStatus::Good), c("d", CheckStatus::Skip)] };
    assert_eq!(r.summary_counts(), (2, 1, 0, 1));
    let text = r.to_text();
    assert!(text.starts_with("Toolchain checks: \u{2705} 2  \u{26a0}\u{fe0f} 1  \u{274c} 0  \u{23ed} 1 \n"));
    assert!(text.contains("\u{2705} a: d\n"));
}

#[test]
fn last_variable_of_a_name_gives_the_address() {
    let mut t = SymbolTable::new();
    t.add_export("x", SymbolType::Global);
    t.add_export("y", SymbolType::Function);
    let v = |a: u64| VariableInfo { name: "x".to_string(), address: a, ty_name: "int".to_string(), size: 4 };
    t.load_variables(&vec![v(0x10), v(0x20)]);
    assert_eq!(t.get_symbol_info("x").unwrap().address, 0x20);
    assert_eq!(t.get_symbol_info("y").unwrap().address, 0);
}
