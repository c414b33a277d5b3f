use vstd::prelude::*;
use crate::errors::RuntimeError;
use crate::fmt::{dec_digits, push_decimal};
use crate::memlayout::first_index;

verus! {

broadcast use vstd::std_specs::vec::group_vec_axioms;

/// The kind of an export of an instantiated module.
#[derive(Debug, Clone, Copy, PartialEq, Eq, Structural)]
pub enum ExportKind {
    Function,
    Global,
    Table,
    Memory,
    Tag,
}

/// An export: its name and kind.
#[derive(Debug, Clone)]
pub struct ExportEntry {
    pub name: String,
    pub kind: ExportKind,
}

/// The value of a global, typed by its declared type. Floats are kept as their bits.
#[derive(Debug, Clone, Copy, PartialEq, Eq, Structural)]
pub enum GlobalValue {
    I32(i32),
    I64(i64),
    F32(u32),
    F64(u64),
    Reference,
}

/// The names of the exports of each kind, in export order.
#[derive(Debug)]
pub struct ExportTables {
    pub functions: Vec<String>,
    pub globals: Vec<String>,
    pub tables: Vec<String>,
    pub memories: Vec<String>,
}

/// The names of the exports of kind `k`, in order.
pub open spec fn names_of_kind(exports: Seq<ExportEntry>, k: ExportKind) -> Seq<Seq<char>>
    decreases exports.len(),
{
    if exports.len() == 0 {
        Seq::empty()
    } else {
        names_of_kind(exports.drop_last(), k) + if exports.last().kind == k {
            seq![exports.last().name@]
        } else {
            Seq::empty()
        }
    }
}

pub open spec fn names_view(v: Seq<String>) -> Seq<Seq<char>> {
    v.map_values(|s: String| s@)
}

/// Sorts the exports into the four kinds; tags are left out.
pub fn partition_exports(exports: &Vec<ExportEntry>) -> (r: ExportTables)
    ensures
        names_view(r.functions@) == names_of_kind(exports@, ExportKind::Function),
        names_view(r.globals@) == names_of_kind(exports@, ExportKind::Global),
        names_view(r.tables@) == names_of_kind(exports@, ExportKind::Table),
        names_view(r.memories@) == names_of_kind(exports@, ExportKind::Memory),
{
    let mut t = ExportTables {
        functions: Vec::new(),
        globals: Vec::new(),
        tables: Vec::new(),
        memories: Vec::new(),
    };
    let mut i: usize = 0;
    proof {
        assert(names_view(t.functions@) =~= Seq::empty());
        assert(names_view(t.globals@) =~= Seq::empty());
        assert(names_view(t.tables@) =~= Seq::empty());
        assert(names_view(t.memories@) =~= Seq::empty());
    }
    while i < exports.len()
        invariant
            i <= exports@.len(),
            names_view(t.functions@) == names_of_kind(exports@.subrange(0, i as int), ExportKind::Function),
            names_view(t.globals@) == names_of_kind(exports@.subrange(0, i as int), ExportKind::Global),
            names_view(t.tables@) == names_of_kind(exports@.subrange(0, i as int), ExportKind::Table),
            names_view(t.memories@) == names_of_kind(exports@.subrange(0, i as int), ExportKind::Memory),
        decreases exports@.len() - i,
    {
        let e = &exports[i];
        let ghost pre = exports@.subrange(0, i as int);
        proof {
            assert(exports@.subrange(0, i + 1).drop_last() =~= pre);
        }
        match e.kind {
            ExportKind::Function => t.functions.push(e.name.clone()),
            ExportKind::Global => t.globals.push(e.name.clone()),
            ExportKind::Table => t.tables.push(e.name.clone()),
            ExportKind::Memory => t.memories.push(e.name.clone()),
            ExportKind::Tag => {},
        }
        proof {
            let s = exports@.subrange(0, i + 1);
            assert(names_view(t.functions@) =~= names_of_kind(s, ExportKind::Function));
            assert(names_view(t.globals@) =~= names_of_kind(s, ExportKind::Global));
            assert(names_view(t.tables@) =~= names_of_kind(s, ExportKind::Table));
            assert(names_view(t.memories@) =~= names_of_kind(s, ExportKind::Memory));
        }
        i = i + 1;
    }
    proof {
        assert(exports@.subrange(0, exports@.len() as int) =~= exports@);
    }
    t
}

pub open spec fn memory_named(name: Seq<char>) -> spec_fn(ExportEntry) -> bool {
    |e: ExportEntry| e.kind == ExportKind::Memory && e.name@ == name
}

pub open spec fn any_memory() -> spec_fn(ExportEntry) -> bool {
    |e: ExportEntry| e.kind == ExportKind::Memory
}

pub open spec fn memory_word() -> Seq<char> {
    seq!['m', 'e', 'm', 'o', 'r', 'y']
}

/// The position of the first memory export named `memory` (`named`), or of the first memory
/// export at all.
fn position_of(exports: &Vec<ExportEntry>, named: bool) -> (r: Option<usize>)
    ensures
        match first_index(exports@, if named { memory_named(memory_word()) } else { any_memory() }) {
            Some(k) => r matches Some(j) && j == k,
            None => r is None,
        },
{
    let ghost p = if named { memory_named(memory_word()) } else { any_memory() };
    proof {
        reveal_strlit("memory");
        crate::memlayout::lemma_first_index(exports@, p);
    }
    let word = "memory";
    let mut i: usize = 0;
    while i < exports.len()
        invariant
            i <= exports@.len(),
            word@ == memory_word(),
            p == (if named { memory_named(memory_word()) } else { any_memory() }),
            match first_index(exports@, p) {
                Some(k) => 0 <= k < exports@.len() && p(exports@[k]) && forall|j: int| 0 <= j < k ==> !p(#[trigger] exports@[j]),
                None => forall|j: int| 0 <= j < exports@.len() ==> !p(#[trigger] exports@[j]),
            },
            forall|j: int| 0 <= j < i ==> !p(#[trigger] exports@[j]),
        decreases exports@.len() - i,
    {
        let e = &exports[i];
        let hit = e.kind == ExportKind::Memory && (!named || e.name.as_str().unicode_len() == 6 && str_eq(e.name.as_str(), word));
        proof {
            assert(hit == p(exports@[i as int]));
        }
        if hit {
            return Some(i);
        }
        i = i + 1;
    }
    None
}

/// Two texts are equal.
pub fn str_eq(a: &str, b: &str) -> (r: bool)
    ensures
        r == (a@ == b@),
{
    let n = a.unicode_len();
    if n != b.unicode_len() {
        return false;
    }
    let mut i: usize = 0;
    while i < n
        invariant
            n == a@.len(),
            n == b@.len(),
            i <= n,
            forall|k: int| 0 <= k < i ==> a@[k] == b@[k],
        decreases n - i,
    {
        if a.get_char(i) != b.get_char(i) {
            return false;
        }
        i = i + 1;
    }
    proof {
        assert(a@ =~= b@);
    }
    true
}

/// The default linear memory: the memory export named `memory`, else the first memory export.
pub fn default_memory(exports: &Vec<ExportEntry>) -> (r: Result<usize, RuntimeError>)
    ensures
        match first_index(exports@, memory_named(memory_word())) {
            Some(k) => r matches Ok(j) && j == k,
            None => match first_index(exports@, any_memory()) {
                Some(k) => r matches Ok(j) && j == k,
                None => r matches Err(RuntimeError::MemoryNotFound(_)),
            },
        },
{
    match position_of(exports, true) {
        Some(k) => Ok(k),
        None => match position_of(exports, false) {
            Some(k) => Ok(k),
            None => {
                let mut msg = String::new();
                proof {
                    reveal_strlit("no exported memory found");
                }
                msg.append("no exported memory found");
                Err(RuntimeError::MemoryNotFound(msg))
            },
        },
    }
}

/// `name` is among `names`.
pub open spec fn listed(names: Seq<String>, name: Seq<char>) -> bool {
    exists|i: int| 0 <= i < names.len() && #[trigger] names[i]@ == name
}

fn contains_name(names: &Vec<String>, name: &str) -> (r: bool)
    ensures
        r == listed(names@, name@),
{
    let mut i: usize = 0;
    while i < names.len()
        invariant
            i <= names@.len(),
            forall|j: int| 0 <= j < i ==> #[trigger] names@[j]@ != name@,
        decreases names@.len() - i,
    {
        if str_eq(names[i].as_str(), name) {
            return true;
        }
        i = i + 1;
    }
    false
}

/// The initialisation exports, in the order they are tried.
pub open spec fn init_names() -> Seq<Seq<char>> {
    seq![
        seq!['_', 's', 't', 'a', 'r', 't'],
        seq!['_', '_', 'w', 'a', 's', 'm', '_', 'c', 'a', 'l', 'l', '_', 'c', 't', 'o', 'r', 's'],
        seq!['i', 'n', 'i', 't'],
        seq!['i', 'n', 'i', 't', 'i', 'a', 'l', 'i', 'z', 'e'],
    ]
}

/// The step-like exports, in order of preference.
pub open spec fn step_names() -> Seq<Seq<char>> {
    seq![seq!['_', 's', 't', 'e', 'p'], seq!['s', 't', 'e', 'p'], seq!['m', 'a', 'i', 'n']]
}

/// The members of `candidates` that `functions` exports, in the candidates' order.
pub open spec fn present(candidates: Seq<Seq<char>>, functions: Seq<String>) -> Seq<Seq<char>>
    decreases candidates.len(),
{
    if candidates.len() == 0 {
        Seq::empty()
    } else {
        present(candidates.drop_last(), functions) + if listed(functions, candidates.last()) {
            seq![candidates.last()]
        } else {
            Seq::empty()
        }
    }
}

fn candidates(init: bool) -> (r: Vec<&'static str>)
    ensures
        r@.len() == (if init { 4int } else { 3int }),
        forall|i: int| 0 <= i < r@.len() ==> #[trigger] r@[i]@ == (if init { init_names() } else { step_names() })[i],
{
    proof {
        reveal_strlit("_start");
        reveal_strlit("__wasm_call_ctors");
        reveal_strlit("init");
        reveal_strlit("initialize");
        reveal_strlit("_step");
        reveal_strlit("step");
        reveal_strlit("main");
    }
    let r = if init {
        vec!["_start", "__wasm_call_ctors", "init", "initialize"]
    } else {
        vec!["_step", "step", "main"]
    };
    proof {
        if init {
            assert(r@[0]@ =~= init_names()[0]);
            assert(r@[1]@ =~= init_names()[1]);
            assert(r@[2]@ =~= init_names()[2]);
            assert(r@[3]@ =~= init_names()[3]);
        } else {
            assert(r@[0]@ =~= step_names()[0]);
            assert(r@[1]@ =~= step_names()[1]);
            assert(r@[2]@ =~= step_names()[2]);
        }
    }
    r
}

/// The exported candidates, in order.
fn present_candidates(functions: &Vec<String>, init: bool) -> (r: Vec<String>)
    ensures
        names_view(r@) == present(if init { init_names() } else { step_names() }, functions@),
{
    let cs = candidates(init);
    let ghost all = if init { init_names() } else { step_names() };
    let mut out: Vec<String> = Vec::new();
    let mut i: usize = 0;
    proof {
        assert(names_view(out@) =~= Seq::empty());
        assert(all.subrange(0, 0) =~= Seq::<Seq<char>>::empty());
    }
    while i < cs.len()
        invariant
            i <= cs@.len(),
            cs@.len() == all.len(),
            all == (if init { init_names() } else { step_names() }),
            forall|k: int| 0 <= k < cs@.len() ==> #[trigger] cs@[k]@ == all[k],
            names_view(out@) == present(all.subrange(0, i as int), functions@),
        decreases cs@.len() - i,
    {
        let c = cs[i];
        let ghost before = out@;
        if contains_name(functions, c) {
            out.push(c.to_owned());
        }
        proof {
            assert(all.subrange(0, i + 1).drop_last() =~= all.subrange(0, i as int));
            assert(names_view(out@) =~= present(all.subrange(0, i + 1), functions@));
        }
        i = i + 1;
    }
    proof {
        assert(all.subrange(0, cs@.len() as int) =~= all);
    }
    out
}

/// The initialisation exports to call, in order: those of `_start`, `__wasm_call_ctors`,
/// `init`, `initialize` that the module exports as functions.
pub fn init_sequence(functions: &Vec<String>) -> (r: Vec<String>)
    ensures
        names_view(r@) == present(init_names(), functions@),
{
    present_candidates(functions, true)
}

/// The export a step calls: the first of `_step`, `step`, `main` that the module exports,
/// or `None`, in which case the fallback counter advances.
pub fn step_target(functions: &Vec<String>) -> (r: Option<String>)
    ensures
        match r {
            Some(n) => present(step_names(), functions@).len() > 0 && n@ == present(step_names(), functions@)[0],
            None => present(step_names(), functions@).len() == 0,
        },
{
    let v = present_candidates(functions, false);
    if v.len() == 0 {
        None
    } else {
        Some(v[0].clone())
    }
}

/// The fallback program counter after a step with no step-like export.
pub fn advance_fallback_pc(pc: usize) -> (r: usize)
    ensures
        r == (if pc == usize::MAX { 0 } else { pc + 1 }),
{
    if pc == usize::MAX {
        0
    } else {
        pc + 1
    }
}

/// A read or write of `length` bytes at `address` fits in a memory of `size` bytes.
pub fn check_access(size: usize, address: u64, length: usize) -> (r: Result<(), RuntimeError>)
    ensures
        r is Ok <==> address + length <= size,
        r is Err ==> r == Err::<(), RuntimeError>(RuntimeError::InvalidMemoryAccess),
{
    if address > size as u64 || length as u64 > size as u64 - address {
        Err(RuntimeError::InvalidMemoryAccess)
    } else {
        Ok(())
    }
}

/// The name of a global's type, as the type checks report it.
pub open spec fn value_type_name(v: GlobalValue) -> Seq<char> {
    match v {
        GlobalValue::I32(_) => seq!['i', '3', '2'],
        GlobalValue::I64(_) => seq!['i', '6', '4'],
        GlobalValue::F32(_) => seq!['f', '3', '2'],
        GlobalValue::F64(_) => seq!['f', '6', '4'],
        GlobalValue::Reference => seq!['r', 'e', 'f'],
    }
}

fn type_name_string(v: GlobalValue) -> (r: String)
    ensures
        r@ == value_type_name(v),
{
    proof {
        reveal_strlit("i32");
        reveal_strlit("i64");
        reveal_strlit("f32");
        reveal_strlit("f64");
        reveal_strlit("ref");
    }
    let s = match v {
        GlobalValue::I32(_) => "i32",
        GlobalValue::I64(_) => "i64",
        GlobalValue::F32(_) => "f32",
        GlobalValue::F64(_) => "f64",
        GlobalValue::Reference => "ref",
    };
    let mut r = String::new();
    r.append(s);
    proof {
        assert(r@ =~= value_type_name(v));
    }
    r
}

/// A global read as `i32`; any other declared type is a mismatch.
pub fn global_as_i32(v: GlobalValue) -> (r: Result<i32, RuntimeError>)
    ensures
        match v {
            GlobalValue::I32(x) => r == Ok::<i32, RuntimeError>(x),
            _ => r matches Err(RuntimeError::TypeMismatch { expected, found }) && expected@
                == seq!['i', '3', '2'] && found@ == value_type_name(v),
        },
{
    match v {
        GlobalValue::I32(x) => Ok(x),
        _ => {
            let expected = type_name_string(GlobalValue::I32(0));
            Err(RuntimeError::TypeMismatch { expected, found: type_name_string(v) })
        },
    }
}

/// A global read as `i64`; any other declared type is a mismatch.
pub fn global_as_i64(v: GlobalValue) -> (r: Result<i64, RuntimeError>)
    ensures
        match v {
            GlobalValue::I64(x) => r == Ok::<i64, RuntimeError>(x),
            _ => r matches Err(RuntimeError::TypeMismatch { expected, found }) && expected@
                == seq!['i', '6', '4'] && found@ == value_type_name(v),
        },
{
    match v {
        GlobalValue::I64(x) => Ok(x),
        _ => {
            let expected = type_name_string(GlobalValue::I64(0));
            Err(RuntimeError::TypeMismatch { expected, found: type_name_string(v) })
        },
    }
}

/// The decimal text of a signed integer.
pub open spec fn signed_digits(v: int) -> Seq<char> {
    if v < 0 {
        seq!['-'] + dec_digits((-v) as nat)
    } else {
        dec_digits(v as nat)
    }
}

/// The line `print` shows for a global: `<name> = <value> (global i32)`.
pub fn global_line(name: &str, value: i32) -> (r: String)
    ensures
        r@ == name@ + seq![' ', '=', ' '] + signed_digits(value as int) + seq![
            ' ',
            '(',
            'g',
            'l',
            'o',
            'b',
            'a',
            'l',
            ' ',
            'i',
            '3',
            '2',
            ')',
        ],
{
    let mut s = String::new();
    proof {
        reveal_strlit(" = ");
        reveal_strlit("-");
        reveal_strlit(" (global i32)");
    }
    s.append(name);
    s.append(" = ");
    if value < 0 {
        s.append("-");
        push_decimal(&mut s, (-(value as i64)) as u64);
    } else {
        push_decimal(&mut s, value as u64);
    }
    s.append(" (global i32)");
    proof {
        assert(s@ =~= name@ + seq![' ', '=', ' '] + signed_digits(value as int) + seq![
            ' ',
            '(',
            'g',
            'l',
            'o',
            'b',
            'a',
            'l',
            ' ',
            'i',
            '3',
            '2',
            ')',
        ]);
    }
    s
}

/// Where a symbol lives: the address the debug information gives it, else the value of an
/// `i32` global of that name read as an address.
pub fn resolve_symbol_address(dwarf_address: Option<u64>, global: Option<GlobalValue>) -> (r: Option<u64>)
    ensures
        r == match dwarf_address {
            Some(a) => Some(a),
            None => match global {
                Some(GlobalValue::I32(v)) => Some(v as u64),
                _ => None,
            },
        },
{
    match dwarf_address {
        Some(a) => Some(a),
        None => match global {
            Some(GlobalValue::I32(v)) => Some(v as u64),
            _ => None,
        },
    }
}

/// A copy of linear memory taken at one instant.
pub fn snapshot_memory(memory: &[u8]) -> (r: Vec<u8>)
    ensures
        r@ == memory@,
{
    let mut out: Vec<u8> = Vec::new();
    let mut i: usize = 0;
    while i < memory.len()
        invariant
            i <= memory@.len(),
            out@ == memory@.subrange(0, i as int),
        decreases memory@.len() - i,
    {
        out.push(memory[i]);
        i = i + 1;
        assert(out@ =~= memory@.subrange(0, i as int));
    }
    assert(out@ =~= memory@);
    out
}

/// Two snapshots of the same memory, with no engine call between them, are equal.
pub proof fn lemma_snapshot_idempotent(memory: Seq<u8>, first: Seq<u8>, second: Seq<u8>)
    requires
        first == memory,
        second == memory,
    ensures
        first == second,
{
}

} // verus!
