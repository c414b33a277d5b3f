use vstd::prelude::*;
use crate::fmt::{dec_digits, hex_digits, push_decimal, push_hex};
use crate::lines::LineTable;

verus! {

#[verifier::external_type_specification]
#[verifier::external_body]
pub struct ExPayload<'a>(wasmparser::Payload<'a>);

#[verifier::external_type_specification]
#[verifier::external_body]
pub struct ExFunctionBody<'a>(wasmparser::FunctionBody<'a>);

#[verifier::external_type_specification]
#[verifier::external_body]
pub struct ExImports<'a>(wasmparser::Imports<'a>);

#[verifier::external_type_specification]
#[verifier::external_body]
#[verifier::reject_recursive_types(T)]
pub struct ExSectionLimited<'a, T>(wasmparser::SectionLimited<'a, T>);

/// One instruction: its byte offset in the module and its textual form.
pub type Instr = (usize, String);

/// One payload of the module framing.
pub enum PayloadKind {
    /// A custom section: its name and bytes.
    Custom { name: String, data: Vec<u8> },
    /// An import section: for each import, whether it imports a function.
    Imports { is_function: Vec<bool> },
    /// One function body of the code section, as (offset, operator text) pairs.
    Code { instrs: Vec<Instr> },
    /// The end of the module.
    End,
    /// Any other section.
    Other,
}

/// Errors of the disassembler.
#[derive(Debug, Clone, PartialEq, Eq)]
pub enum DisasmError {
    ParseError(String),
    MalformedModule,
    FunctionNotFound(String),
}

/// The model of a payload: plain values only.
pub enum PayloadView {
    Custom { name: Seq<char>, data: Seq<u8> },
    Imports { is_function: Seq<bool> },
    Code { instrs: Seq<(usize, Seq<char>)> },
    End,
    Other,
}

/// An instruction list with its operator texts as character sequences.
pub open spec fn instrs_view(s: Seq<Instr>) -> Seq<(usize, Seq<char>)> {
    s.map_values(|x: Instr| (x.0, x.1@))
}

pub open spec fn payload_view(p: PayloadKind) -> PayloadView {
    match p {
        PayloadKind::Custom { name, data } => PayloadView::Custom { name: name@, data: data@ },
        PayloadKind::Imports { is_function } => PayloadView::Imports { is_function: is_function@ },
        PayloadKind::Code { instrs } => PayloadView::Code { instrs: instrs_view(instrs@) },
        PayloadKind::End => PayloadView::End,
        PayloadKind::Other => PayloadView::Other,
    }
}

pub open spec fn payloads_view(v: Seq<PayloadKind>) -> Seq<PayloadView> {
    v.map_values(|p: PayloadKind| payload_view(p))
}

/// The payloads wasmparser frames a module into, in order; `None` when the bytes do not frame.
pub uninterp spec fn payloads_of(bytes: Seq<u8>) -> Option<Seq<PayloadView>>;

/// Relies on wasmparser's `Parser::parse_all` from offset 0: the payloads of the module in
/// order, or the first framing error. The payloads depend on the bytes alone.
#[verifier::external_body]
pub(crate) fn module_payloads(bytes: &[u8]) -> (r: Result<Vec<PayloadKind>, String>)
    ensures
        match r {
            Ok(v) => payloads_of(bytes@) == Some(payloads_view(v@)),
            Err(_) => payloads_of(bytes@) is None,
        },
{
    wasmparser::Parser::new(0)
        .parse_all(bytes)
        .map(|p| p.map_err(|e| e.to_string()).and_then(payload_kind))
        .collect()
}

/// The number of `true` flags.
pub open spec fn count_true(s: Seq<bool>) -> nat
    decreases s.len(),
{
    if s.len() == 0 {
        0
    } else {
        count_true(s.drop_last()) + if s.last() {
            1nat
        } else {
            0nat
        }
    }
}

/// The number of imported functions among the payloads.
pub open spec fn import_count(ps: Seq<PayloadView>) -> nat
    decreases ps.len(),
{
    if ps.len() == 0 {
        0
    } else {
        import_count(ps.drop_last()) + match ps.last() {
            PayloadView::Imports { is_function } => count_true(is_function),
            _ => 0,
        }
    }
}

/// The function bodies among the payloads, in order.
pub open spec fn bodies(ps: Seq<PayloadView>) -> Seq<Seq<(usize, Seq<char>)>>
    decreases ps.len(),
{
    if ps.len() == 0 {
        Seq::empty()
    } else {
        bodies(ps.drop_last()) + match ps.last() {
            PayloadView::Code { instrs } => seq![instrs],
            _ => Seq::empty(),
        }
    }
}

proof fn lemma_import_count_grows(ps: Seq<PayloadView>, k: int)
    requires
        0 <= k <= ps.len(),
    ensures
        import_count(ps.subrange(0, k)) <= import_count(ps),
    decreases ps.len() - k,
{
    if k < ps.len() {
        lemma_import_count_grows(ps, k + 1);
        assert(ps.subrange(0, k + 1).drop_last() =~= ps.subrange(0, k));
    } else {
        assert(ps.subrange(0, k) =~= ps);
    }
}

proof fn lemma_count_true_grows(s: Seq<bool>, k: int)
    requires
        0 <= k <= s.len(),
    ensures
        count_true(s.subrange(0, k)) <= count_true(s),
    decreases s.len() - k,
{
    if k < s.len() {
        lemma_count_true_grows(s, k + 1);
        assert(s.subrange(0, k + 1).drop_last() =~= s.subrange(0, k));
    } else {
        assert(s.subrange(0, k) =~= s);
    }
}

/// Relies on wasmparser's payload variants: custom sections, import sections, function
/// bodies and the end of the module are told apart; everything else is `Other`.
#[verifier::external_body]
fn payload_kind(payload: wasmparser::Payload) -> Result<PayloadKind, String> {
    Ok(match payload {
        wasmparser::Payload::CustomSection(c) => PayloadKind::Custom { name: c.name().to_string(), data: c.data().to_vec() },
        wasmparser::Payload::ImportSection(r) => PayloadKind::Imports { is_function: import_flags(r)? },
        wasmparser::Payload::CodeSectionEntry(b) => PayloadKind::Code { instrs: body_instrs(b)? },
        wasmparser::Payload::End(_) => PayloadKind::End,
        _ => PayloadKind::Other,
    })
}

/// Relies on wasmparser's `SectionLimited::into_imports`: for each import, whether it is a function.
#[verifier::external_body]
fn import_flags(r: wasmparser::SectionLimited<wasmparser::Imports>) -> Result<Vec<bool>, String> {
    r.into_imports()
        .map(|i| i.map(|i| matches!(i.ty, wasmparser::TypeRef::Func(_) | wasmparser::TypeRef::FuncExact(_))))
        .collect::<Result<Vec<bool>, _>>()
        .map_err(|e| e.to_string())
}

/// Relies on wasmparser's `OperatorsReader::into_iter_with_offsets`: each operator of a body
/// with the module offset the reader reports, in debug form.
#[verifier::external_body]
fn body_instrs(b: wasmparser::FunctionBody) -> Result<Vec<Instr>, String> {
    let ops = b.get_operators_reader().map_err(|e| e.to_string())?;
    ops.into_iter_with_offsets()
        .map(|o| o.map(|(op, off)| (off as usize, format!("{:?}", op))))
        .collect::<Result<Vec<Instr>, _>>()
        .map_err(|e| e.to_string())
}

/// A name that the debug information gives to a function index.
#[derive(Debug, Clone)]
pub struct FunctionName {
    pub index: u32,
    pub name: String,
}

/// The disassembly of one function.
#[derive(Debug)]
pub struct FunctionDisasm {
    pub func_index: u32,
    pub name: String,
    pub instrs: Vec<Instr>,
}

/// The disassembly of a module, with an optional line table for source annotations.
pub struct ModuleDisasm {
    pub functions: Vec<FunctionDisasm>,
    pub module_len: usize,
    pub lines: Option<LineTable>,
}

/// Offsets strictly increase and the last one lies inside the module.
pub open spec fn instrs_ok(instrs: Seq<Instr>, module_len: nat) -> bool {
    &&& forall|i: int, j: int| 0 <= i < j < instrs.len() ==> #[trigger] instrs[i].0 < #[trigger] instrs[j].0
    &&& instrs.len() > 0 ==> instrs.last().0 < module_len
}

/// `instrs_ok` on the model of an instruction list.
pub open spec fn offsets_ok(instrs: Seq<(usize, Seq<char>)>, module_len: nat) -> bool {
    &&& forall|i: int, j: int| 0 <= i < j < instrs.len() ==> #[trigger] instrs[i].0 < #[trigger] instrs[j].0
    &&& instrs.len() > 0 ==> instrs.last().0 < module_len
}

proof fn lemma_offsets_view(s: Seq<Instr>, n: nat)
    ensures
        instrs_ok(s, n) == offsets_ok(instrs_view(s), n),
{
    let v = instrs_view(s);
    assert(v.len() == s.len());
    assert forall|i: int| 0 <= i < s.len() implies #[trigger] v[i].0 == s[i].0 by {}
    if s.len() > 0 {
        assert(v.last().0 == s.last().0);
    }
    if instrs_ok(s, n) {
        assert forall|i: int, j: int| 0 <= i < j < v.len() implies #[trigger] v[i].0 < #[trigger] v[j].0 by {
            assert(s[i].0 < s[j].0);
        }
    }
    if offsets_ok(v, n) {
        assert forall|i: int, j: int| 0 <= i < j < s.len() implies #[trigger] s[i].0 < #[trigger] s[j].0 by {
            assert(v[i].0 < v[j].0);
        }
    }
}

/// The name of function `index`: the first name the debug information gives it, else `func_<index>`.
pub open spec fn function_name(names: Seq<FunctionName>, index: u32) -> Seq<char> {
    if exists|k: int| 0 <= k < names.len() && names[k].index == index {
        names[first_name(names, index)].name@
    } else {
        seq!['f', 'u', 'n', 'c', '_'] + dec_digits(index as nat)
    }
}

/// The position of the first name given to `index`.
pub open spec fn first_name(names: Seq<FunctionName>, index: u32) -> int
    decreases names.len(),
{
    if names.len() == 0 {
        0
    } else if names[0].index == index {
        0
    } else {
        1 + first_name(names.drop_first(), index)
    }
}

proof fn lemma_first_name(names: Seq<FunctionName>, index: u32)
    requires
        exists|k: int| 0 <= k < names.len() && names[k].index == index,
    ensures
        0 <= first_name(names, index) < names.len(),
        names[first_name(names, index)].index == index,
        forall|j: int| 0 <= j < first_name(names, index) ==> #[trigger] names[j].index != index,
    decreases names.len(),
{
    if names[0].index != index {
        let k = choose|k: int| 0 <= k < names.len() && names[k].index == index;
        assert(names.drop_first()[k - 1].index == index);
        lemma_first_name(names.drop_first(), index);
        assert forall|j: int| 0 <= j < first_name(names, index) implies #[trigger] names[j].index
            != index by {
            if j > 0 {
                assert(names[j] == names.drop_first()[j - 1]);
            }
        }
    }
}

/// Looks up the name of function `index`.
pub fn name_of(names: &Vec<FunctionName>, index: u32) -> (r: String)
    ensures
        r@ == function_name(names@, index),
{
    let mut k: usize = 0;
    while k < names.len()
        invariant
            k <= names@.len(),
            forall|j: int| 0 <= j < k ==> #[trigger] names@[j].index != index,
        decreases names@.len() - k,
    {
        if names[k].index == index {
            proof {
                lemma_first_name(names@, index);
            }
            return names[k].name.clone();
        }
        k = k + 1;
    }
    let mut s = String::new();
    proof {
        reveal_strlit("func_");
    }
    s.append("func_");
    push_decimal(&mut s, index as u64);
    proof {
        assert(s@ =~= seq!['f', 'u', 'n', 'c', '_'] + dec_digits(index as nat));
    }
    s
}

/// ASCII upper-case letters map to lower case; other characters stay.
pub open spec fn ascii_lower(c: char) -> char {
    if 'A' <= c && c <= 'Z' {
        ((c as u32) + 32) as char
    } else {
        c
    }
}

/// The two texts are equal when ASCII letters are compared without case.
pub open spec fn same_ignoring_ascii_case(a: Seq<char>, b: Seq<char>) -> bool {
    a.len() == b.len() && forall|i: int| 0 <= i < a.len() ==> ascii_lower(#[trigger] a[i]) == ascii_lower(b[i])
}

fn lower_char(c: char) -> (r: char)
    ensures
        r == ascii_lower(c),
{
    if 'A' <= c && c <= 'Z' {
        (((c as u32) + 32) as u8) as char
    } else {
        c
    }
}

/// Compares two texts without case for ASCII letters.
pub fn eq_ignore_ascii_case(a: &str, b: &str) -> (r: bool)
    ensures
        r == same_ignoring_ascii_case(a@, b@),
{
    let n = a.unicode_len();
    if n != b.unicode_len() {
        return false;
    }
    let mut i: usize = 0;
    while i < n
        invariant
            n == a@.len(),
            n == b@.len(),
            i <= n,
            forall|k: int| 0 <= k < i ==> ascii_lower(#[trigger] a@[k]) == ascii_lower(b@[k]),
        decreases n - i,
    {
        if lower_char(a.get_char(i)) != lower_char(b.get_char(i)) {
            return false;
        }
        i = i + 1;
    }
    true
}

/// The value of a non-empty string of decimal digits.
pub open spec fn digits_value(s: Seq<char>) -> nat
    decreases s.len(),
{
    if s.len() == 0 {
        0
    } else {
        digits_value(s.drop_last()) * 10 + ((s.last() as u32) - 48) as nat
    }
}

pub open spec fn all_digits(s: Seq<char>) -> bool {
    s.len() > 0 && forall|i: int| 0 <= i < s.len() ==> '0' <= #[trigger] s[i] && s[i] <= '9'
}

/// Reads a decimal index; `None` unless the text is all digits and the value fits.
pub fn parse_index(s: &str) -> (r: Option<usize>)
    ensures
        match r {
            Some(v) => all_digits(s@) && v == digits_value(s@),
            None => !all_digits(s@) || digits_value(s@) > usize::MAX,
        },
{
    let n = s.unicode_len();
    if n == 0 {
        return None;
    }
    let mut v: usize = 0;
    let mut i: usize = 0;
    while i < n
        invariant
            n == s@.len(),
            i <= n,
            v == digits_value(s@.subrange(0, i as int)),
            forall|k: int| 0 <= k < i ==> '0' <= #[trigger] s@[k] && s@[k] <= '9',
        decreases n - i,
    {
        let c = s.get_char(i);
        if !('0' <= c && c <= '9') {
            return None;
        }
        let d = (c as u32 - 48) as usize;
        proof {
            assert(s@.subrange(0, i + 1).drop_last() =~= s@.subrange(0, i as int));
        }
        if v > (usize::MAX - d) / 10 {
            proof {
                let m = usize::MAX as int;
                assert((v as int) * 10 + (d as int) > m) by (nonlinear_arith)
                    requires
                        (v as int) > (m - (d as int)) / 10,
                        0 <= (d as int) <= 9,
                        m > 9,
                ;
                if all_digits(s@) {
                    lemma_digits_grow(s@, i as int + 1);
                }
            }
            return None;
        }
        v = v * 10 + d;
        i = i + 1;
    }
    proof {
        assert(s@.subrange(0, n as int) =~= s@);
    }
    Some(v)
}

/// A longer prefix of digits never has a smaller value.
proof fn lemma_digits_grow(s: Seq<char>, k: int)
    requires
        0 <= k <= s.len(),
        forall|i: int| 0 <= i < s.len() ==> '0' <= #[trigger] s[i] && s[i] <= '9',
    ensures
        digits_value(s.subrange(0, k)) <= digits_value(s),
    decreases s.len() - k,
{
    if k < s.len() {
        lemma_digits_grow(s, k + 1);
        assert(s.subrange(0, k + 1).drop_last() =~= s.subrange(0, k));
    } else {
        assert(s.subrange(0, k) =~= s);
    }
}

/// The listing line of one instruction, with its source position when the table has one.
pub open spec fn instr_line(ins: Instr, lines: Option<Map<u64, (Seq<char>, u64)>>) -> Seq<char> {
    let base = seq![' ', ' ', '0', 'x'] + hex_digits(ins.0 as nat, 4) + seq![':', ' '] + ins.1@;
    let note = match lines {
        Some(m) => if m.contains_key(ins.0 as u64) {
            seq![' ', ' ', ' ', ' ', ';', ' '] + m[ins.0 as u64].0 + seq![':'] + dec_digits(
                m[ins.0 as u64].1 as nat,
            )
        } else {
            Seq::empty()
        },
        None => Seq::empty(),
    };
    base + note + seq!['\n']
}

/// The listing lines of the first `n` instructions.
pub open spec fn instr_lines(instrs: Seq<Instr>, n: int, lines: Option<Map<u64, (Seq<char>, u64)>>) -> Seq<char>
    decreases n,
{
    if n <= 0 {
        Seq::empty()
    } else {
        instr_lines(instrs, n - 1, lines) + instr_line(instrs[n - 1], lines)
    }
}

/// The listing of a function: a header, then one line per instruction.
pub open spec fn listing(f: FunctionDisasm, lines: Option<Map<u64, (Seq<char>, u64)>>) -> Seq<char> {
    seq!['D', 'i', 's', 'a', 's', 's', 'e', 'm', 'b', 'l', 'y', ' ', 'o', 'f', ' '] + f.name@ + seq![
        ' ',
        '(',
        'i',
        'n',
        'd',
        'e',
        'x',
        ' ',
    ] + dec_digits(f.func_index as nat) + seq![')', ':', '\n'] + instr_lines(
        f.instrs@,
        f.instrs@.len() as int,
        lines,
    )
}

/// A function name that equals the query without ASCII case.
pub open spec fn name_like(q: Seq<char>) -> spec_fn(FunctionDisasm) -> bool {
    |f: FunctionDisasm| same_ignoring_ascii_case(f.name@, q)
}

/// The position a query names: the first function whose name equals it without ASCII case,
/// else the decimal position it spells when that is below the number of functions.
pub open spec fn query_target(fs: Seq<FunctionDisasm>, q: Seq<char>) -> Option<int> {
    match crate::memlayout::first_index(fs, name_like(q)) {
        Some(k) => Some(k),
        None => if all_digits(q) && digits_value(q) < fs.len() {
            Some(digits_value(q) as int)
        } else {
            None
        },
    }
}

impl ModuleDisasm {
    /// Every function's offsets strictly increase and stay inside the module.
    pub open spec fn wf(&self) -> bool {
        &&& forall|k: int|
            0 <= k < self.functions@.len() ==> instrs_ok(
                #[trigger] self.functions@[k].instrs@,
                self.module_len as nat,
            )
        &&& self.lines matches Some(t) ==> t.wf()
    }

    pub open spec fn lines_map(&self) -> Option<Map<u64, (Seq<char>, u64)>> {
        match self.lines {
            Some(t) => Some(t@),
            None => None,
        }
    }

    /// Builds the disassembly from decoded function bodies. Function `k` of the code section
    /// gets index `import_count + k` and the name the debug information gives it.
    pub fn from_bodies(
        import_count: u32,
        bodies: &Vec<Vec<Instr>>,
        names: &Vec<FunctionName>,
        module_len: usize,
    ) -> (r: Result<ModuleDisasm, DisasmError>)
        ensures
            r is Ok <==> (import_count + bodies@.len() <= u32::MAX + 1 && forall|k: int|
                0 <= k < bodies@.len() ==> instrs_ok(#[trigger] bodies@[k]@, module_len as nat)),
            r is Err ==> r == Err::<ModuleDisasm, DisasmError>(DisasmError::MalformedModule),
            r matches Ok(m) ==> {
                &&& m.wf()
                &&& m.module_len == module_len
                &&& m.lines is None
                &&& m.functions@.len() == bodies@.len()
                &&& forall|k: int|
                    0 <= k < bodies@.len() ==> {
                        let f = #[trigger] m.functions@[k];
                        &&& f.func_index == import_count + k
                        &&& f.name@ == function_name(names@, f.func_index)
                        &&& f.instrs@ == bodies@[k]@
                    }
            },
    {
        let mut functions: Vec<FunctionDisasm> = Vec::new();
        let mut k: usize = 0;
        while k < bodies.len()
            invariant
                k <= bodies@.len(),
                import_count + k <= u32::MAX + 1,
                functions@.len() == k,
                forall|j: int| 0 <= j < k ==> instrs_ok(#[trigger] bodies@[j]@, module_len as nat),
                forall|j: int|
                    0 <= j < k ==> {
                        let f = #[trigger] functions@[j];
                        &&& f.func_index == import_count + j
                        &&& f.name@ == function_name(names@, f.func_index)
                        &&& f.instrs@ == bodies@[j]@
                    },
            decreases bodies@.len() - k,
        {
            if import_count as u64 + k as u64 > u32::MAX as u64 {
                return Err(DisasmError::MalformedModule);
            }
            let idx = import_count + k as u32;
            let body = &bodies[k];
            if !check_instrs(body, module_len) {
                return Err(DisasmError::MalformedModule);
            }
            let instrs = copy_instrs(body);
            let name = name_of(names, idx);
            functions.push(FunctionDisasm { func_index: idx, name, instrs });
            k = k + 1;
        }
        Ok(ModuleDisasm { functions, module_len, lines: None })
    }

    /// Disassembles a module: frames it, counts imported functions and decodes each body.
    /// Function `k` of the code section gets index `imports + k`.
    pub fn from_wasm(bytes: &[u8], names: &Vec<FunctionName>) -> (r: Result<ModuleDisasm, DisasmError>)
        ensures
            match payloads_of(bytes@) {
                None => r matches Err(DisasmError::ParseError(_)),
                Some(ps) => {
                    let k = import_count(ps);
                    let bs = bodies(ps);
                    if k <= u32::MAX && k + bs.len() <= u32::MAX + 1 && forall|j: int|
                        0 <= j < bs.len() ==> offsets_ok(#[trigger] bs[j], bytes@.len() as nat) {
                        r matches Ok(m) && {
                            &&& m.wf()
                            &&& m.module_len == bytes@.len()
                            &&& m.lines is None
                            &&& m.functions@.len() == bs.len()
                            &&& forall|j: int|
                                0 <= j < bs.len() ==> {
                                    let f = #[trigger] m.functions@[j];
                                    &&& f.func_index == k + j
                                    &&& f.name@ == function_name(names@, f.func_index)
                                    &&& instrs_view(f.instrs@) == bs[j]
                                }
                        }
                    } else {
                        r == Err::<ModuleDisasm, DisasmError>(DisasmError::MalformedModule)
                    }
                },
            },
    {
        let ps = match module_payloads(bytes) {
            Ok(v) => v,
            Err(e) => return Err(DisasmError::ParseError(e)),
        };
        let ghost pv = payloads_view(ps@);
        let mut imports: u32 = 0;
        let mut bods: Vec<Vec<Instr>> = Vec::new();
        let mut i: usize = 0;
        proof {
            assert(bods@.map_values(|b: Vec<Instr>| instrs_view(b@)) =~= bodies(pv.subrange(0, 0)));
        }
        while i < ps.len()
            invariant
                i <= ps@.len(),
                pv == payloads_view(ps@),
                payloads_of(bytes@) == Some(pv),
                imports == import_count(pv.subrange(0, i as int)),
                bods@.map_values(|b: Vec<Instr>| instrs_view(b@)) == bodies(pv.subrange(0, i as int)),
            decreases ps@.len() - i,
        {
            proof {
                assert(pv.subrange(0, i + 1).drop_last() =~= pv.subrange(0, i as int));
                assert(pv.subrange(0, i + 1).last() == payload_view(ps@[i as int]));
            }
            match &ps[i] {
                PayloadKind::Imports { is_function } => {
                    let mut j: usize = 0;
                    let ghost base = imports;
                    proof {
                        assert(import_count(pv.subrange(0, i + 1)) == base + count_true(is_function@));
                    }
                    while j < is_function.len()
                        invariant
                            j <= is_function@.len(),
                            i < ps@.len(),
                            pv == payloads_view(ps@),
                            payloads_of(bytes@) == Some(pv),
                            import_count(pv.subrange(0, i + 1)) == base + count_true(is_function@),
                            imports == base + count_true(is_function@.subrange(0, j as int)),
                        decreases is_function@.len() - j,
                    {
                        proof {
                            assert(is_function@.subrange(0, j + 1).drop_last() =~= is_function@.subrange(0, j as int));
                        }
                        if is_function[j] {
                            if imports == u32::MAX {
                                proof {
                                    lemma_count_true_grows(is_function@, j + 1);
                                    assert(import_count(pv.subrange(0, i + 1)) > u32::MAX);
                                    lemma_import_count_grows(pv, i + 1);
                                    assert(pv.subrange(0, i + 1).subrange(0, i + 1) =~= pv.subrange(0, i + 1));
                                }
                                return Err(DisasmError::MalformedModule);
                            }
                            imports = imports + 1;
                        }
                        j = j + 1;
                    }
                    proof {
                        assert(is_function@.subrange(0, is_function@.len() as int) =~= is_function@);
                    }
                },
                PayloadKind::Code { instrs } => {
                    let c = copy_instrs(instrs);
                    bods.push(c);
                },
                _ => {},
            }
            proof {
                assert(bods@.map_values(|b: Vec<Instr>| instrs_view(b@)) =~= bodies(pv.subrange(0, i + 1)));
            }
            i = i + 1;
        }
        proof {
            assert(pv.subrange(0, ps@.len() as int) =~= pv);
            assert forall|j: int| 0 <= j < bods@.len() implies instrs_ok(#[trigger] bods@[j]@, bytes@.len() as nat) == offsets_ok(bodies(pv)[j], bytes@.len() as nat) by {
                assert(bodies(pv)[j] == instrs_view(bods@[j]@));
                lemma_offsets_view(bods@[j]@, bytes@.len() as nat);
            }
        }
        let r = Self::from_bodies(imports, &bods, names, bytes.len());
        proof {
            match &r {
                Ok(m) => {
                    assert forall|j: int| 0 <= j < bods@.len() implies instrs_view((#[trigger] m.functions@[j]).instrs@) == bodies(pv)[j] by {
                        assert(bodies(pv)[j] == instrs_view(bods@[j]@));
                    }
                },
                Err(_) => {
                    if forall|j: int| 0 <= j < bodies(pv).len() ==> offsets_ok(#[trigger] bodies(pv)[j], bytes@.len() as nat) {
                        assert forall|j: int| 0 <= j < bods@.len() implies instrs_ok(#[trigger] bods@[j]@, bytes@.len() as nat) by {
                            assert(offsets_ok(bodies(pv)[j], bytes@.len() as nat));
                            assert(bodies(pv)[j] == instrs_view(bods@[j]@));
                            lemma_offsets_view(bods@[j]@, bytes@.len() as nat);
                        }
                    }
                },
            }
        }
        r
    }

    /// The first function named exactly `func_name`.
    pub fn disassemble_function(&self, func_name: &str) -> (r: Option<&FunctionDisasm>)
        ensures
            match r {
                Some(f) => exists|k: int|
                    0 <= k < self.functions@.len() && self.functions@[k] == *f && f.name@
                        == func_name@ && forall|j: int|
                        0 <= j < k ==> #[trigger] self.functions@[j].name@ != func_name@,
                None => forall|k: int|
                    0 <= k < self.functions@.len() ==> #[trigger] self.functions@[k].name@
                        != func_name@,
            },
    {
        let key = func_name.to_owned();
        let mut k: usize = 0;
        while k < self.functions.len()
            invariant
                k <= self.functions@.len(),
                key@ == func_name@,
                forall|j: int| 0 <= j < k ==> #[trigger] self.functions@[j].name@ != func_name@,
            decreases self.functions@.len() - k,
        {
            if self.functions[k].name == key {
                return Some(&self.functions[k]);
            }
            k = k + 1;
        }
        None
    }

    /// The position of the first function whose name equals `func_name` without ASCII case.
    pub fn find_function_index_by_name(&self, func_name: &str) -> (r: Option<usize>)
        ensures
            match r {
                Some(k) => k < self.functions@.len() && same_ignoring_ascii_case(
                    self.functions@[k as int].name@,
                    func_name@,
                ) && forall|j: int|
                    0 <= j < k ==> !same_ignoring_ascii_case(
                        #[trigger] self.functions@[j].name@,
                        func_name@,
                    ),
                None => forall|j: int|
                    0 <= j < self.functions@.len() ==> !same_ignoring_ascii_case(
                        #[trigger] self.functions@[j].name@,
                        func_name@,
                    ),
            },
    {
        let mut k: usize = 0;
        while k < self.functions.len()
            invariant
                k <= self.functions@.len(),
                forall|j: int|
                    0 <= j < k ==> !same_ignoring_ascii_case(
                        #[trigger] self.functions@[j].name@,
                        func_name@,
                    ),
            decreases self.functions@.len() - k,
        {
            if eq_ignore_ascii_case(self.functions[k].name.as_str(), func_name) {
                return Some(k);
            }
            k = k + 1;
        }
        None
    }

    /// Instruction `instr_index` of the function at position `func_index`.
    pub fn get_instr(&self, func_index: usize, instr_index: usize) -> (r: Option<Instr>)
        ensures
            match r {
                Some(ins) => func_index < self.functions@.len() && instr_index
                    < self.functions@[func_index as int].instrs@.len() && ins
                    == self.functions@[func_index as int].instrs@[instr_index as int],
                None => func_index >= self.functions@.len() || instr_index
                    >= self.functions@[func_index as int].instrs@.len(),
            },
    {
        if func_index >= self.functions.len() {
            return None;
        }
        let f = &self.functions[func_index];
        if instr_index >= f.instrs.len() {
            return None;
        }
        let ins = &f.instrs[instr_index];
        Some((ins.0, ins.1.clone()))
    }

    /// The number of instructions of the function at position `func_index`.
    pub fn func_len(&self, func_index: u32) -> (r: Option<usize>)
        ensures
            match r {
                Some(n) => func_index < self.functions@.len() && n
                    == self.functions@[func_index as int].instrs@.len(),
                None => func_index >= self.functions@.len(),
            },
    {
        if func_index as usize >= self.functions.len() {
            return None;
        }
        Some(self.functions[func_index as usize].instrs.len())
    }

    /// The position that a query names: the first function whose name equals it without ASCII
    /// case, else a decimal position below the number of functions.
    pub fn resolve_query(&self, query: &str) -> (r: Result<usize, DisasmError>)
        ensures
            match query_target(self.functions@, query@) {
                Some(k) => r matches Ok(j) && j == k && j < self.functions@.len(),
                None => r matches Err(DisasmError::FunctionNotFound(q)) && q@ == query@,
            },
    {
        proof {
            crate::memlayout::lemma_first_index(self.functions@, name_like(query@));
            assert forall|j: int| 0 <= j < self.functions@.len() implies #[trigger] name_like(query@)(self.functions@[j]) == same_ignoring_ascii_case(self.functions@[j].name@, query@) by {}
        }
        match self.find_function_index_by_name(query) {
            Some(k) => {
                proof {
                    let f = crate::memlayout::first_index(self.functions@, name_like(query@));
                    assert(name_like(query@)(self.functions@[k as int]));
                    assert(f is Some);
                    let j = f->Some_0;
                    assert(name_like(query@)(self.functions@[j]));
                    if j < k {
                        assert(!same_ignoring_ascii_case(self.functions@[j].name@, query@));
                    }
                    if j > k {
                        assert(!name_like(query@)(self.functions@[k as int]));
                    }
                    assert(j == k);
                }
                Ok(k)
            },
            None => {
                let len = self.functions.len();
                proof {
                    let f = crate::memlayout::first_index(self.functions@, name_like(query@));
                    if f is Some {
                        let j = f->Some_0;
                        assert(name_like(query@)(self.functions@[j]));
                    }
                }
                match parse_index(query) {
                    Some(n) => if n < self.functions.len() {
                        Ok(n)
                    } else {
                        Err(DisasmError::FunctionNotFound(query.to_owned()))
                    },
                    None => Err(DisasmError::FunctionNotFound(query.to_owned())),
                }
            },
        }
    }

    /// The listing of the function a query names, each line annotated with its source
    /// position when the line table has one.
    pub fn print_function(&self, query: &str) -> (r: Result<String, DisasmError>)
        requires
            self.wf(),
        ensures
            match query_target(self.functions@, query@) {
                Some(k) => r matches Ok(s) && s@ == listing(self.functions@[k], self.lines_map()),
                None => r matches Err(DisasmError::FunctionNotFound(q)) && q@ == query@,
            },
    {
        let k = match self.resolve_query(query) {
            Ok(k) => k,
            Err(e) => return Err(e),
        };
        let f = &self.functions[k];
        let mut out = String::new();
        proof {
            reveal_strlit("Disassembly of ");
            reveal_strlit(" (index ");
            reveal_strlit("):\n");
        }
        out.append("Disassembly of ");
        out.append(f.name.as_str());
        out.append(" (index ");
        push_decimal(&mut out, f.func_index as u64);
        out.append("):\n");
        let ghost head = out@;
        let mut i: usize = 0;
        while i < f.instrs.len()
            invariant
                i <= f.instrs@.len(),
                self.wf(),
                out@ == head + instr_lines(f.instrs@, i as int, self.lines_map()),
            decreases f.instrs@.len() - i,
        {
            self.push_instr_line(&mut out, &f.instrs[i]);
            i = i + 1;
        }
        proof {
            assert(out@ =~= listing(*f, self.lines_map()));
        }
        Ok(out)
    }

    fn push_instr_line(&self, out: &mut String, ins: &Instr)
        requires
            self.wf(),
        ensures
            final(out)@ == old(out)@ + instr_line(*ins, self.lines_map()),
    {
        let ghost start = out@;
        proof {
            reveal_strlit("  0x");
            reveal_strlit(": ");
            reveal_strlit("    ; ");
            reveal_strlit(":");
            reveal_strlit("\n");
        }
        out.append("  0x");
        push_hex(out, ins.0 as u64, 4);
        out.append(": ");
        out.append(ins.1.as_str());
        let ghost base = out@;
        match &self.lines {
            Some(t) => match t.lookup(ins.0 as u64) {
                Some((file, line)) => {
                    out.append("    ; ");
                    out.append(file.as_str());
                    out.append(":");
                    push_decimal(out, line);
                },
                None => {},
            },
            None => {},
        }
        out.append("\n");
        proof {
            assert(out@ =~= start + instr_line(*ins, self.lines_map()));
        }
    }
}

/// Checks that offsets strictly increase and stay below `module_len`.
fn check_instrs(instrs: &Vec<Instr>, module_len: usize) -> (r: bool)
    ensures
        r == instrs_ok(instrs@, module_len as nat),
{
    let n = instrs.len();
    if n == 0 {
        return true;
    }
    let mut i: usize = 1;
    while i < n
        invariant
            n == instrs@.len(),
            1 <= i <= n,
            forall|a: int, b: int| 0 <= a < b < i ==> #[trigger] instrs@[a].0 < #[trigger] instrs@[b].0,
        decreases n - i,
    {
        if instrs[i - 1].0 >= instrs[i].0 {
            return false;
        }
        i = i + 1;
    }
    instrs[n - 1].0 < module_len
}

fn copy_instrs(instrs: &Vec<Instr>) -> (r: Vec<Instr>)
    ensures
        r@ == instrs@,
{
    let mut out: Vec<Instr> = Vec::new();
    let mut i: usize = 0;
    while i < instrs.len()
        invariant
            i <= instrs@.len(),
            out@ == instrs@.subrange(0, i as int),
        decreases instrs@.len() - i,
    {
        let ins = &instrs[i];
        out.push((ins.0, ins.1.clone()));
        i = i + 1;
        assert(out@ =~= instrs@.subrange(0, i as int));
    }
    assert(out@ =~= instrs@);
    out
}

} // verus!
