use vstd::prelude::*;
use crate::types::VariableInfo;

verus! {

broadcast use vstd::std_specs::vec::group_vec_axioms;

/// Where a symbol comes from.
#[derive(Debug, Clone, Copy, PartialEq, Eq, Structural)]
pub enum SymbolType {
    Function,
    Global,
    Table,
    Memory,
}

/// What the debug information adds to a symbol.
#[derive(Debug, Clone)]
pub struct DwarfSymbolInfo {
    pub file: String,
    pub line: u32,
    pub ty_name: String,
}

/// A named export, with the address and size the debug information gives it.
#[derive(Debug, Clone)]
pub struct SymbolInfo {
    pub name: String,
    pub address: u64,
    pub size: u64,
    pub symbol_type: SymbolType,
    pub dwarf_info: Option<DwarfSymbolInfo>,
}

/// Symbols by name; at most one per name.
pub struct SymbolTable {
    pub symbols: Vec<SymbolInfo>,
}

/// The position of the symbol named `name`.
pub open spec fn symbol_pos(syms: Seq<SymbolInfo>, name: Seq<char>) -> Option<int> {
    crate::memlayout::first_index(syms, |s: SymbolInfo| s.name@ == name)
}

/// The position of the last variable named `name`.
pub open spec fn last_var(vars: Seq<VariableInfo>, name: Seq<char>) -> Option<int>
    decreases vars.len(),
{
    if vars.len() == 0 {
        None
    } else if vars.last().name@ == name {
        Some(vars.len() - 1)
    } else {
        last_var(vars.drop_last(), name)
    }
}

proof fn lemma_last_var_range(vars: Seq<VariableInfo>, name: Seq<char>)
    ensures
        last_var(vars, name) matches Some(j) ==> 0 <= j < vars.len(),
    decreases vars.len(),
{
    if vars.len() > 0 {
        lemma_last_var_range(vars.drop_last(), name);
    }
}

fn find_last_var(vars: &Vec<VariableInfo>, name: &str) -> (r: Option<usize>)
    ensures
        match last_var(vars@, name@) {
            Some(j) => r matches Some(k) && k == j && k < vars@.len(),
            None => r is None,
        },
{
    let mut found: Option<usize> = None;
    let mut j: usize = 0;
    while j < vars.len()
        invariant
            j <= vars@.len(),
            match last_var(vars@.subrange(0, j as int), name@) {
                Some(x) => found matches Some(k) && k == x && k < j,
                None => found is None,
            },
        decreases vars@.len() - j,
    {
        proof {
            assert(vars@.subrange(0, j + 1).drop_last() =~= vars@.subrange(0, j as int));
        }
        if crate::runtime::str_eq(vars[j].name.as_str(), name) {
            found = Some(j);
        }
        j = j + 1;
    }
    proof {
        assert(vars@.subrange(0, vars@.len() as int) =~= vars@);
    }
    found
}

impl SymbolTable {
    /// No name appears twice.
    pub open spec fn wf(&self) -> bool {
        forall|a: int, b: int|
            0 <= a < b < self.symbols@.len() ==> #[trigger] self.symbols@[a].name@
                != #[trigger] self.symbols@[b].name@
    }

    pub fn new() -> (r: Self)
        ensures
            r.wf(),
            r.symbols@.len() == 0,
    {
        SymbolTable { symbols: Vec::new() }
    }

    fn position(&self, name: &str) -> (r: Option<usize>)
        ensures
            match r {
                Some(i) => i < self.symbols@.len() && self.symbols@[i as int].name@ == name@,
                None => forall|i: int| 0 <= i < self.symbols@.len() ==> #[trigger] self.symbols@[i].name@ != name@,
            },
    {
        let mut i: usize = 0;
        while i < self.symbols.len()
            invariant
                i <= self.symbols@.len(),
                forall|j: int| 0 <= j < i ==> #[trigger] self.symbols@[j].name@ != name@,
            decreases self.symbols@.len() - i,
        {
            if crate::runtime::str_eq(self.symbols[i].name.as_str(), name) {
                return Some(i);
            }
            i = i + 1;
        }
        None
    }

    /// Adds an export with no address yet, replacing a symbol of the same name.
    pub fn add_export(&mut self, name: &str, symbol_type: SymbolType)
        requires
            old(self).wf(),
        ensures
            final(self).wf(),
            exists|i: int|
                0 <= i < final(self).symbols@.len() && final(self).symbols@[i].name@ == name@
                    && final(self).symbols@[i].symbol_type == symbol_type
                    && final(self).symbols@[i].address == 0 && final(self).symbols@[i].size == 0,
            forall|i: int|
                0 <= i < final(self).symbols@.len() && (#[trigger] final(self).symbols@[i]).name@ != name@
                    ==> exists|j: int| 0 <= j < old(self).symbols@.len() && old(self).symbols@[j] == final(self).symbols@[i],
    {
        let s = SymbolInfo { name: name.to_owned(), address: 0, size: 0, symbol_type, dwarf_info: None };
        match self.position(name) {
            Some(i) => {
                let ghost before = self.symbols@;
                self.symbols.set(i, s);
                proof {
                    assert(self.symbols@ == before.update(i as int, s));
                    assert forall|a: int, b: int| 0 <= a < b < self.symbols@.len() implies #[trigger] self.symbols@[a].name@ != #[trigger] self.symbols@[b].name@ by {
                        assert(before[a].name@ != before[b].name@);
                        if a != i && b != i {
                            assert(self.symbols@[a] == before[a] && self.symbols@[b] == before[b]);
                        } else if a == i {
                            assert(self.symbols@[b] == before[b]);
                        } else {
                            assert(self.symbols@[a] == before[a]);
                        }
                    }
                    assert forall|k: int| 0 <= k < self.symbols@.len() && (#[trigger] self.symbols@[k]).name@ != name@ implies exists|j: int| 0 <= j < before.len() && before[j] == self.symbols@[k] by {
                        assert(before[k] == self.symbols@[k]);
                    }
                    assert(self.symbols@[i as int].name@ == name@);
                }
            },
            None => {
                let ghost before = self.symbols@;
                self.symbols.push(s);
                proof {
                    let n = before.len() as int;
                    assert(self.symbols@[n].name@ == name@);
                    assert forall|a: int, b: int| 0 <= a < b < self.symbols@.len() implies #[trigger] self.symbols@[a].name@ != #[trigger] self.symbols@[b].name@ by {
                        if b == n {
                            assert(self.symbols@[a] == before[a]);
                        } else {
                            assert(self.symbols@[a] == before[a] && self.symbols@[b] == before[b]);
                        }
                    }
                    assert forall|k: int| 0 <= k < self.symbols@.len() && (#[trigger] self.symbols@[k]).name@ != name@ implies exists|j: int| 0 <= j < before.len() && before[j] == self.symbols@[k] by {
                        assert(before[k] == self.symbols@[k]);
                    }
                }
            },
        }
    }

    /// Gives each symbol that a variable names the address and size of the last variable of
    /// that name; other symbols stay as they were.
    pub fn load_variables(&mut self, vars: &Vec<VariableInfo>)
        requires
            old(self).wf(),
        ensures
            final(self).wf(),
            final(self).symbols@.len() == old(self).symbols@.len(),
            forall|i: int|
                0 <= i < final(self).symbols@.len() ==> {
                    let s = #[trigger] final(self).symbols@[i];
                    let o = old(self).symbols@[i];
                    match last_var(vars@, o.name@) {
                        Some(j) => s.name == o.name && s.symbol_type == o.symbol_type && s.dwarf_info
                            == o.dwarf_info && s.address == vars@[j].address && s.size == vars@[j].size,
                        None => s == o,
                    }
                },
    {
        let mut i: usize = 0;
        while i < self.symbols.len()
            invariant
                i <= self.symbols@.len(),
                self.symbols@.len() == old(self).symbols@.len(),
                forall|k: int| i <= k < self.symbols@.len() ==> #[trigger] self.symbols@[k] == old(self).symbols@[k],
                forall|k: int|
                    0 <= k < i ==> {
                        let s = #[trigger] self.symbols@[k];
                        let o = old(self).symbols@[k];
                        match last_var(vars@, o.name@) {
                            Some(j) => s.name == o.name && s.symbol_type == o.symbol_type && s.dwarf_info
                                == o.dwarf_info && s.address == vars@[j].address && s.size == vars@[j].size,
                            None => s == o,
                        }
                    },
            decreases self.symbols@.len() - i,
        {
            match find_last_var(vars, self.symbols[i].name.as_str()) {
                Some(j) => {
                    let ghost before = self.symbols@;
                    let mut sym = self.symbols.remove(i);
                    sym.address = vars[j].address;
                    sym.size = vars[j].size;
                    self.symbols.insert(i, sym);
                    proof {
                        assert(self.symbols@ =~= before.update(i as int, self.symbols@[i as int]));
                    }
                },
                None => {},
            }
            i = i + 1;
        }
        proof {
            assert forall|a: int, b: int| 0 <= a < b < self.symbols@.len() implies #[trigger] self.symbols@[a].name@ != #[trigger] self.symbols@[b].name@ by {
                assert(old(self).symbols@[a].name@ != old(self).symbols@[b].name@);
            }
        }
    }

    /// The symbol named `name`.
    pub fn get_symbol_info(&self, name: &str) -> (r: Option<&SymbolInfo>)
        ensures
            match r {
                Some(s) => exists|i: int| 0 <= i < self.symbols@.len() && self.symbols@[i] == *s && s.name@ == name@,
                None => forall|i: int| 0 <= i < self.symbols@.len() ==> #[trigger] self.symbols@[i].name@ != name@,
            },
    {
        match self.position(name) {
            Some(i) => Some(&self.symbols[i]),
            None => None,
        }
    }

    /// The first symbol whose range `[address, address + size)` holds `address`.
    pub fn resolve_address(&self, address: u64) -> (r: Option<&SymbolInfo>)
        ensures
            match r {
                Some(s) => exists|i: int| 0 <= i < self.symbols@.len() && self.symbols@[i] == *s
                    && s.address <= address < s.address + s.size && forall|j: int| 0 <= j < i ==> !(#[trigger] self.symbols@[j].address <= address < self.symbols@[j].address + self.symbols@[j].size),
                None => forall|j: int| 0 <= j < self.symbols@.len() ==> !(#[trigger] self.symbols@[j].address <= address < self.symbols@[j].address + self.symbols@[j].size),
            },
    {
        let mut i: usize = 0;
        while i < self.symbols.len()
            invariant
                i <= self.symbols@.len(),
                forall|j: int| 0 <= j < i ==> !(#[trigger] self.symbols@[j].address <= address < self.symbols@[j].address + self.symbols@[j].size),
            decreases self.symbols@.len() - i,
        {
            let s = &self.symbols[i];
            if s.address <= address && (address - s.address) < s.size {
                return Some(s);
            }
            i = i + 1;
        }
        None
    }

    /// The positions of the symbols whose names contain `query`, without ASCII case, in table order.
    pub fn filter(&self, query: &str) -> (r: Vec<usize>)
        ensures
            r@.map_values(|x: usize| x as int) == matching(self.symbols@, lower_all(query@)),
    {
        let q = lower_string(query);
        let mut out: Vec<usize> = Vec::new();
        let mut i: usize = 0;
        proof {
            assert(out@.map_values(|x: usize| x as int) =~= matching(self.symbols@.subrange(0, 0), q@));
        }
        while i < self.symbols.len()
            invariant
                i <= self.symbols@.len(),
                q@ == lower_all(query@),
                out@.map_values(|x: usize| x as int) == matching(self.symbols@.subrange(0, i as int), q@),
            decreases self.symbols@.len() - i,
        {
            let l = lower_string(self.symbols[i].name.as_str());
            proof {
                assert(self.symbols@.subrange(0, i + 1).drop_last() =~= self.symbols@.subrange(0, i as int));
            }
            if crate::text::str_contains(l.as_str(), q.as_str()) {
                out.push(i);
            }
            proof {
                assert(out@.map_values(|x: usize| x as int) =~= matching(self.symbols@.subrange(0, i + 1), q@));
            }
            i = i + 1;
        }
        proof {
            assert(self.symbols@.subrange(0, self.symbols@.len() as int) =~= self.symbols@);
        }
        out
    }
}

/// The positions of the symbols whose lower-cased names contain `q`, in order.
pub open spec fn matching(syms: Seq<SymbolInfo>, q: Seq<char>) -> Seq<int>
    decreases syms.len(),
{
    if syms.len() == 0 {
        Seq::empty()
    } else {
        matching(syms.drop_last(), q) + if crate::text::contains(lower_all(syms.last().name@), q) {
            seq![syms.len() - 1]
        } else {
            Seq::empty()
        }
    }
}

/// A text with its ASCII letters in lower case.
pub open spec fn lower_all(s: Seq<char>) -> Seq<char> {
    Seq::new(s.len(), |i: int| crate::disasm::ascii_lower(s[i]))
}

fn lower_char_str(c: char) -> (r: String)
    ensures
        r@ == seq![crate::disasm::ascii_lower(c)],
{
    let l = if 'A' <= c && c <= 'Z' {
        (((c as u32) + 32) as u8) as char
    } else {
        c
    };
    let mut buf = String::new();
    let s = char_str(l);
    buf.append(s.as_str());
    proof {
        assert(buf@ =~= seq![crate::disasm::ascii_lower(c)]);
    }
    buf
}

/// Relies on `char::to_string`: the one-character string of `c`.
#[verifier::external_body]
fn char_str(c: char) -> (r: String)
    ensures
        r@ == seq![c],
{
    c.to_string()
}

/// The text with its ASCII letters in lower case.
pub fn lower_string(s: &str) -> (r: String)
    ensures
        r@ == lower_all(s@),
{
    let n = s.unicode_len();
    let mut out = String::new();
    let mut i: usize = 0;
    while i < n
        invariant
            n == s@.len(),
            i <= n,
            out@ == lower_all(s@.subrange(0, i as int)),
        decreases n - i,
    {
        let part = lower_char_str(s.get_char(i));
        out.append(part.as_str());
        proof {
            assert(out@ =~= lower_all(s@.subrange(0, i + 1)));
        }
        i = i + 1;
    }
    proof {
        assert(s@.subrange(0, n as int) =~= s@);
    }
    out
}

} // verus!
