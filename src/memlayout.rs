use vstd::prelude::*;
use vstd::arithmetic::power2::{pow2, lemma2_to64, lemma2_to64_rest};
use byteorder::ByteOrder;
use crate::types::{
    size_of, DwarfData, FieldInfo, NamedType, PrimitiveKind, TypeInfo, TypeKind, TypedValue,
    ValueModel, VariableInfo, VariableValue,
};
use crate::errors::MemoryError;
use crate::fmt::{dec_digits, hex_digits, push_decimal, push_hex};
use crate::text::{contains, str_contains};

verus! {

broadcast use vstd::std_specs::vec::group_vec_axioms;

/// The unsigned value of `b` read least significant byte first.
pub open spec fn le_value(b: Seq<u8>) -> nat
    decreases b.len(),
{
    if b.len() == 0 {
        0
    } else {
        b[0] as nat + 256 * le_value(b.drop_first())
    }
}

/// The integer that `b` encodes: plain binary, or two's complement when `signed`.
pub open spec fn decode_int(b: Seq<u8>, signed: bool) -> int {
    if signed && b.len() > 0 && le_value(b) >= pow2((8 * b.len() - 1) as nat) {
        le_value(b) - pow2((8 * b.len()) as nat)
    } else {
        le_value(b) as int
    }
}

/// How an integer is held in an `i64`: values above `i64::MAX` (unsigned 64-bit) wrap.
pub open spec fn as_i64(v: int) -> i64 {
    if v > i64::MAX {
        (v - pow2(64)) as i64
    } else {
        v as i64
    }
}

/// Integer widths the reader supports.
pub open spec fn int_size_ok(size: u64) -> bool {
    size == 1 || size == 2 || size == 4 || size == 8
}

/// The bytes `[addr, addr + n)` of `m`, or the access error.
pub open spec fn bytes_at(m: Seq<u8>, addr: u64, n: u64) -> Result<Seq<u8>, MemoryError> {
    if addr as int + n as int > m.len() {
        Err(MemoryError::InvalidAccess { address: addr })
    } else {
        Ok(m.subrange(addr as int, addr as int + n as int))
    }
}

/// Reading an integer of `size` bytes at `addr`.
pub open spec fn int_at(m: Seq<u8>, addr: u64, size: u64, signed: bool) -> Result<i64, MemoryError> {
    if !int_size_ok(size) {
        Err(MemoryError::UnsupportedSize { size: size as usize })
    } else {
        match bytes_at(m, addr, size) {
            Ok(b) => Ok(as_i64(decode_int(b, signed))),
            Err(e) => Err(e),
        }
    }
}

pub open spec fn decode_primitive(m: Seq<u8>, addr: u64, size: u64, kind: PrimitiveKind) -> Result<
    ValueModel,
    MemoryError,
> {
    match kind {
        PrimitiveKind::Int { signed } => match int_at(m, addr, size, signed) {
            Ok(v) => Ok(ValueModel::Int(v)),
            Err(e) => Err(e),
        },
        PrimitiveKind::Float | PrimitiveKind::Double => if size == 4 {
            match bytes_at(m, addr, 4) {
                Ok(b) => Ok(ValueModel::Float32(le_value(b) as u32)),
                Err(e) => Err(e),
            }
        } else if size == 8 {
            match bytes_at(m, addr, 8) {
                Ok(b) => Ok(ValueModel::Float64(le_value(b) as u64)),
                Err(e) => Err(e),
            }
        } else {
            Err(MemoryError::UnsupportedSize { size: size as usize })
        },
        PrimitiveKind::Bool => match int_at(m, addr, 1, false) {
            Ok(v) => Ok(ValueModel::Bool(v != 0)),
            Err(e) => Err(e),
        },
        PrimitiveKind::Char => match int_at(m, addr, 1, false) {
            Ok(v) => Ok(ValueModel::Char((v as u8) as char)),
            Err(e) => Err(e),
        },
        PrimitiveKind::Address => match int_at(m, addr, size, false) {
            Ok(v) => Ok(ValueModel::Pointer(v as u64)),
            Err(e) => Err(e),
        },
        PrimitiveKind::Void => Ok(ValueModel::Void),
    }
}

/// The value that a descriptor gives to the bytes of `m` at `addr`.
pub open spec fn decode(m: Seq<u8>, addr: u64, t: TypeInfo) -> Result<ValueModel, MemoryError>
    decreases t, 0int,
{
    match t {
        TypeInfo::Primitive { size, kind } => decode_primitive(m, addr, size, kind),
        TypeInfo::Struct { fields, .. } => {
            match decode_fields(m, addr, fields@, fields@.len() as int) {
                Ok(vs) => Ok(ValueModel::Struct(vs)),
                Err(e) => Err(e),
            }
        },
        TypeInfo::Array { element_type, count, .. } => {
            match decode_elements(m, addr, *element_type, count as int) {
                Ok(vs) => Ok(ValueModel::Array(vs)),
                Err(e) => Err(e),
            }
        },
        TypeInfo::Pointer { size, .. } => match int_at(m, addr, size, false) {
            Ok(v) => Ok(ValueModel::Pointer(v as u64)),
            Err(e) => Err(e),
        },
        TypeInfo::Union { .. } => Err(MemoryError::UnsupportedType(TypeKind::Union)),
        TypeInfo::Enum { .. } => Err(MemoryError::UnsupportedType(TypeKind::Enum)),
        TypeInfo::Function { .. } => Ok(ValueModel::Unknown),
        TypeInfo::Void => Ok(ValueModel::Void),
        TypeInfo::Unknown => Ok(ValueModel::Unknown),
    }
}

/// The first `n` fields of a structure at `addr`, in order; the first failing field's error.
pub open spec fn decode_fields(m: Seq<u8>, addr: u64, fs: Seq<FieldInfo>, n: int) -> Result<
    Seq<(Seq<char>, ValueModel)>,
    MemoryError,
>
    decreases fs, n,
{
    if n <= 0 || n > fs.len() {
        Ok(Seq::empty())
    } else {
        match decode_fields(m, addr, fs, n - 1) {
            Err(e) => Err(e),
            Ok(pre) => {
                let f = fs[n - 1];
                if addr as int + f.offset as int > u64::MAX {
                    Err(MemoryError::InvalidAccess { address: addr })
                } else {
                    match decode(m, (addr + f.offset) as u64, f.type_info) {
                        Err(e) => Err(e),
                        Ok(v) => Ok(pre.push((f.name@, v))),
                    }
                }
            },
        }
    }
}

/// The first `n` elements of an array at `addr`; the first failing element's error.
pub open spec fn decode_elements(m: Seq<u8>, addr: u64, et: TypeInfo, n: int) -> Result<
    Seq<ValueModel>,
    MemoryError,
>
    decreases et, n,
{
    if n <= 0 {
        Ok(Seq::empty())
    } else {
        match decode_elements(m, addr, et, n - 1) {
            Err(e) => Err(e),
            Ok(pre) => {
                let a = addr as int + (n - 1) * size_of(et) as int;
                if a > u64::MAX {
                    Err(MemoryError::InvalidAccess { address: addr })
                } else {
                    match decode(m, a as u64, et) {
                        Err(e) => Err(e),
                        Ok(v) => Ok(pre.push(v)),
                    }
                }
            },
        }
    }
}

/// The model of a list of decoded fields.
pub open spec fn fields_model(fs: Seq<(String, TypedValue)>) -> Seq<(Seq<char>, ValueModel)> {
    Seq::new(fs.len(), |i: int| (fs[i].0@, fs[i].1@))
}

/// The model of a list of decoded elements.
pub open spec fn elements_model(es: Seq<TypedValue>) -> Seq<ValueModel> {
    Seq::new(es.len(), |i: int| es[i]@)
}

/// Relies on byteorder's `LittleEndian::read_u16`: the first two bytes, least significant first.
#[verifier::external_body]
fn le_u16(b: &[u8]) -> (r: u16)
    requires
        b@.len() >= 2,
    ensures
        r as nat == le_value(b@.subrange(0, 2)),
{
    byteorder::LittleEndian::read_u16(b)
}

/// Relies on byteorder's `LittleEndian::read_u32`: the first four bytes, least significant first.
#[verifier::external_body]
fn le_u32(b: &[u8]) -> (r: u32)
    requires
        b@.len() >= 4,
    ensures
        r as nat == le_value(b@.subrange(0, 4)),
{
    byteorder::LittleEndian::read_u32(b)
}

/// Relies on byteorder's `LittleEndian::read_u64`: the first eight bytes, least significant first.
#[verifier::external_body]
fn le_u64(b: &[u8]) -> (r: u64)
    requires
        b@.len() >= 8,
    ensures
        r as nat == le_value(b@.subrange(0, 8)),
{
    byteorder::LittleEndian::read_u64(b)
}

proof fn lemma_le_value_one(b: Seq<u8>)
    requires
        b.len() == 1,
    ensures
        le_value(b) == b[0] as nat,
{
    reveal_with_fuel(le_value, 2);
}

pub proof fn lemma_le_value_bound(b: Seq<u8>)
    ensures
        le_value(b) < pow2((8 * b.len()) as nat),
    decreases b.len(),
{
    if b.len() > 0 {
        lemma_le_value_bound(b.drop_first());
        let k = (8 * (b.len() - 1)) as nat;
        vstd::arithmetic::power2::lemma_pow2_adds(k, 8);
        lemma2_to64();
        assert(le_value(b.drop_first()) + 1 <= pow2(k));
        assert(256 * (le_value(b.drop_first()) + 1) <= 256 * pow2(k)) by (nonlinear_arith)
            requires
                le_value(b.drop_first()) + 1 <= pow2(k),
        ;
        assert((8 * b.len()) as nat == k + 8);
    } else {
        vstd::arithmetic::power2::lemma_pow2_pos(0);
    }
}

/// `r` is the executable form of the decoding result `d`.
pub open spec fn agrees(r: Result<TypedValue, MemoryError>, d: Result<ValueModel, MemoryError>) -> bool {
    match r {
        Ok(v) => d == Ok::<ValueModel, MemoryError>(v@),
        Err(e) => d == Err::<ValueModel, MemoryError>(e),
    }
}

/// Once a field fails, the structure's decoding keeps that error.
proof fn lemma_fields_err_stays(m: Seq<u8>, addr: u64, fs: Seq<FieldInfo>, k: int, n: int)
    requires
        0 <= k <= n <= fs.len(),
        decode_fields(m, addr, fs, k) is Err,
    ensures
        decode_fields(m, addr, fs, n) == decode_fields(m, addr, fs, k),
    decreases n - k,
{
    if n > k {
        lemma_fields_err_stays(m, addr, fs, k, n - 1);
    }
}

/// Once an element fails, the array's decoding keeps that error.
proof fn lemma_elements_err_stays(m: Seq<u8>, addr: u64, et: TypeInfo, k: int, n: int)
    requires
        0 <= k <= n,
        decode_elements(m, addr, et, k) is Err,
    ensures
        decode_elements(m, addr, et, n) == decode_elements(m, addr, et, k),
    decreases n - k,
{
    if n > k {
        lemma_elements_err_stays(m, addr, et, k, n - 1);
    }
}

/// Copies `n` bytes of `mem` starting at `start`.
fn copy_bytes(mem: &Vec<u8>, start: usize, n: usize) -> (r: Vec<u8>)
    requires
        start + n <= mem@.len(),
    ensures
        r@ == mem@.subrange(start as int, start + n),
{
    let len = mem.len();
    let mut out: Vec<u8> = Vec::with_capacity(n);
    let mut i: usize = 0;
    while i < n
        invariant
            i <= n,
            len == mem@.len(),
            start + n <= len,
            out@ == mem@.subrange(start as int, start + i),
        decreases n - i,
    {
        out.push(mem[start + i]);
        i = i + 1;
        assert(out@ =~= mem@.subrange(start as int, start + i));
    }
    out
}

/// Maps a variable to a segment of the memory picture.
#[derive(Debug, Clone)]
pub struct MemorySegment {
    pub start: u64,
    pub size: u64,
    pub name: String,
    pub segment_type: SegmentType,
    pub signed: bool,
}

#[derive(Debug, Clone, Copy, PartialEq, Eq, Structural)]
pub enum SegmentType {
    GlobalVariable,
    StackFrame,
    HeapAllocation,
    StaticData,
    Function,
}

/// One bar of the memory picture: a variable, where it lies, its class and colour.
#[derive(Debug, Clone)]
pub struct VisualizationSegment {
    pub name: String,
    pub address: u64,
    pub size: u64,
    pub segment_type: String,
    pub color: String,
}

/// The memory picture: one segment per variable and the size of memory.
#[derive(Debug)]
pub struct Visualization {
    pub segments: Vec<VisualizationSegment>,
    pub total_size: usize,
}

/// The class and colour of a variable by its type's name: the first rule whose word the
/// name contains decides.
pub open spec fn segment_class(ty: Seq<char>) -> (Seq<char>, Seq<char>) {
    if contains(ty, seq!['i', 'n', 't']) {
        (seq!['i', 'n', 't', 'e', 'g', 'e', 'r'], seq!['#', 'F', 'F', '6', 'B', '6', 'B'])
    } else if contains(ty, seq!['f', 'l', 'o', 'a', 't']) {
        (seq!['f', 'l', 'o', 'a', 't'], seq!['#', '4', 'E', 'C', 'D', 'C', '4'])
    } else if contains(ty, seq!['d', 'o', 'u', 'b', 'l', 'e']) {
        (seq!['d', 'o', 'u', 'b', 'l', 'e'], seq!['#', '4', '5', 'B', '7', 'D', '1'])
    } else if contains(ty, seq!['c', 'h', 'a', 'r']) {
        (seq!['c', 'h', 'a', 'r'], seq!['#', '9', '6', 'C', 'E', 'B', '4'])
    } else if contains(ty, seq!['b', 'o', 'o', 'l']) {
        (seq!['b', 'o', 'o', 'l', 'e', 'a', 'n'], seq!['#', 'F', 'E', 'C', 'A', '5', '7'])
    } else {
        (seq!['u', 'n', 'k', 'n', 'o', 'w', 'n'], seq!['#', '7', '7', '8', 'C', 'A', '3'])
    }
}

fn owned(s: &str) -> (r: String)
    ensures
        r@ == s@,
{
    let mut r = String::new();
    r.append(s);
    proof {
        assert(r@ =~= s@);
    }
    r
}

fn classify(ty: &str) -> (r: (String, String))
    ensures
        (r.0@, r.1@) == segment_class(ty@),
{
    proof {
        reveal_strlit("int");
        reveal_strlit("float");
        reveal_strlit("double");
        reveal_strlit("char");
        reveal_strlit("bool");
        reveal_strlit("integer");
        reveal_strlit("boolean");
        reveal_strlit("unknown");
        reveal_strlit("#FF6B6B");
        reveal_strlit("#4ECDC4");
        reveal_strlit("#45B7D1");
        reveal_strlit("#96CEB4");
        reveal_strlit("#FECA57");
        reveal_strlit("#778CA3");
        assert("int"@ =~= seq!['i', 'n', 't']);
        assert("float"@ =~= seq!['f', 'l', 'o', 'a', 't']);
        assert("double"@ =~= seq!['d', 'o', 'u', 'b', 'l', 'e']);
        assert("char"@ =~= seq!['c', 'h', 'a', 'r']);
        assert("bool"@ =~= seq!['b', 'o', 'o', 'l']);
        assert("integer"@ =~= seq!['i', 'n', 't', 'e', 'g', 'e', 'r']);
        assert("boolean"@ =~= seq!['b', 'o', 'o', 'l', 'e', 'a', 'n']);
        assert("unknown"@ =~= seq!['u', 'n', 'k', 'n', 'o', 'w', 'n']);
        assert("#FF6B6B"@ =~= seq!['#', 'F', 'F', '6', 'B', '6', 'B']);
        assert("#4ECDC4"@ =~= seq!['#', '4', 'E', 'C', 'D', 'C', '4']);
        assert("#45B7D1"@ =~= seq!['#', '4', '5', 'B', '7', 'D', '1']);
        assert("#96CEB4"@ =~= seq!['#', '9', '6', 'C', 'E', 'B', '4']);
        assert("#FECA57"@ =~= seq!['#', 'F', 'E', 'C', 'A', '5', '7']);
        assert("#778CA3"@ =~= seq!['#', '7', '7', '8', 'C', 'A', '3']);
    }
    if str_contains(ty, "int") {
        (owned("integer"), owned("#FF6B6B"))
    } else if str_contains(ty, "float") {
        (owned("float"), owned("#4ECDC4"))
    } else if str_contains(ty, "double") {
        (owned("double"), owned("#45B7D1"))
    } else if str_contains(ty, "char") {
        (owned("char"), owned("#96CEB4"))
    } else if str_contains(ty, "bool") {
        (owned("boolean"), owned("#FECA57"))
    } else {
        (owned("unknown"), owned("#778CA3"))
    }
}

/// One table row of the rendered picture.
pub open spec fn html_row(s: VisualizationSegment) -> Seq<char> {
    seq!['<', 't', 'r', ' ', 'c', 'l', 'a', 's', 's', '=', '\'', 's', 'e', 'g', 'm', 'e', 'n', 't', '\'', ' ', 's', 't', 'y', 'l', 'e', '=', '\'', 'b', 'a', 'c', 'k', 'g', 'r', 'o', 'u', 'n', 'd', '-', 'c', 'o', 'l', 'o', 'r', ':']
        + s.color@ + seq!['\'', '>', '<', 't', 'd', '>'] + s.name@ + seq!['<', '/', 't', 'd', '>', '<', 't', 'd', '>', '0', 'x']
        + hex_digits(s.address as nat, 1) + seq!['<', '/', 't', 'd', '>', '<', 't', 'd', '>'] + dec_digits(s.size as nat)
        + seq![' ', 'b', 'y', 't', 'e', 's', '<', '/', 't', 'd', '>', '<', 't', 'd', '>'] + s.segment_type@
        + seq!['<', '/', 't', 'd', '>', '<', '/', 't', 'r', '>', '\n']
}

/// The rows of the first `n` segments.
pub open spec fn html_rows(segs: Seq<VisualizationSegment>, n: int) -> Seq<char>
    decreases n,
{
    if n <= 0 {
        Seq::empty()
    } else {
        html_rows(segs, n - 1) + html_row(segs[n - 1])
    }
}

fn push_row(html: &mut String, seg: &VisualizationSegment)
    ensures
        final(html)@ == old(html)@ + html_row(*seg),
{
    proof {
        reveal_strlit("<tr class='segment' style='background-color:");
        reveal_strlit("'><td>");
        reveal_strlit("</td><td>0x");
        reveal_strlit("</td><td>");
        reveal_strlit(" bytes</td><td>");
        reveal_strlit("</td></tr>\n");
    }
    html.append("<tr class='segment' style='background-color:");
    html.append(seg.color.as_str());
    html.append("'><td>");
    html.append(seg.name.as_str());
    html.append("</td><td>0x");
    push_hex(html, seg.address, 1);
    html.append("</td><td>");
    push_decimal(html, seg.size);
    html.append(" bytes</td><td>");
    html.append(seg.segment_type.as_str());
    html.append("</td></tr>\n");
    proof {
        assert(final(html)@ =~= old(html)@ + html_row(*seg));
    }
}

impl Visualization {
    /// The picture as an HTML page with one table row per segment.
    pub fn render_html(&self) -> (r: String)
        ensures
            r@ == "<!DOCTYPE html>\n<html>\n<head>\n<title>Memory Visualization</title>\n"@
                + "<style>.segment { padding: 4px; color: #fff; }</style>\n"@ + "</head>\n<body>\n"@
                + "<h1>Memory Visualization</h1>\n"@ + "<p>Total Size: "@ + dec_digits(
                self.total_size as nat,
            ) + " bytes</p>\n"@
                + "<table border=\"1\" cellspacing=\"0\" cellpadding=\"4\">\n"@
                + "<tr><th>Name</th><th>Address</th><th>Size</th><th>Type</th></tr>\n"@ + html_rows(
                self.segments@,
                self.segments@.len() as int,
            ) + "</table>\n</body>\n</html>\n"@,
    {
        let mut html = String::new();
        html.append("<!DOCTYPE html>\n<html>\n<head>\n<title>Memory Visualization</title>\n");
        html.append("<style>.segment { padding: 4px; color: #fff; }</style>\n");
        html.append("</head>\n<body>\n");
        html.append("<h1>Memory Visualization</h1>\n");
        html.append("<p>Total Size: ");
        push_decimal(&mut html, self.total_size as u64);
        html.append(" bytes</p>\n");
        html.append("<table border=\"1\" cellspacing=\"0\" cellpadding=\"4\">\n");
        html.append("<tr><th>Name</th><th>Address</th><th>Size</th><th>Type</th></tr>\n");
        let ghost before = html@;
        let mut i: usize = 0;
        while i < self.segments.len()
            invariant
                i <= self.segments@.len(),
                html@ == before + html_rows(self.segments@, i as int),
            decreases self.segments@.len() - i,
        {
            push_row(&mut html, &self.segments[i]);
            proof {
                assert(html@ =~= before + html_rows(self.segments@, i + 1));
            }
            i = i + 1;
        }
        proof {
            reveal_strlit("</table>\n</body>\n</html>\n");
        }
        html.append("</table>\n</body>\n</html>\n");
        proof {
            assert(html@ =~= "<!DOCTYPE html>\n<html>\n<head>\n<title>Memory Visualization</title>\n"@
                + "<style>.segment { padding: 4px; color: #fff; }</style>\n"@ + "</head>\n<body>\n"@
                + "<h1>Memory Visualization</h1>\n"@ + "<p>Total Size: "@ + dec_digits(
                self.total_size as nat,
            ) + " bytes</p>\n"@
                + "<table border=\"1\" cellspacing=\"0\" cellpadding=\"4\">\n"@
                + "<tr><th>Name</th><th>Address</th><th>Size</th><th>Type</th></tr>\n"@ + html_rows(
                self.segments@,
                self.segments@.len() as int,
            ) + "</table>\n</body>\n</html>\n"@);
        }
        html
    }
}

/// A snapshot of linear memory together with the variables and types that describe it.
pub struct MemoryLayout {
    segments: Vec<MemorySegment>,
    memory: Vec<u8>,
    pub dwarf_data: DwarfData,
}

/// The index of the first element of `s` that satisfies `p`.
pub open spec fn first_index<T>(s: Seq<T>, p: spec_fn(T) -> bool) -> Option<int>
    decreases s.len(),
{
    if s.len() == 0 {
        None
    } else {
        match first_index(s.drop_last(), p) {
            Some(i) => Some(i),
            None => if p(s.last()) {
                Some(s.len() - 1)
            } else {
                None
            },
        }
    }
}

/// `first_index` finds the least index whose element satisfies `p`, or reports that none does.
pub proof fn lemma_first_index<T>(s: Seq<T>, p: spec_fn(T) -> bool)
    ensures
        match first_index(s, p) {
            Some(i) => 0 <= i < s.len() && p(s[i]) && forall|j: int| 0 <= j < i ==> !p(#[trigger] s[j]),
            None => forall|j: int| 0 <= j < s.len() ==> !p(#[trigger] s[j]),
        },
    decreases s.len(),
{
    if s.len() > 0 {
        lemma_first_index(s.drop_last(), p);
        assert forall|j: int| 0 <= j < s.len() - 1 implies s.drop_last()[j] == s[j] by {}
    }
}

/// The first variable of `vars` named `name`.
pub open spec fn find_variable(vars: Seq<VariableInfo>, name: Seq<char>) -> Option<int> {
    first_index(vars, var_named(name))
}

pub open spec fn var_named(name: Seq<char>) -> spec_fn(VariableInfo) -> bool {
    |v: VariableInfo| v.name@ == name
}

pub open spec fn type_named(name: Seq<char>) -> spec_fn(NamedType) -> bool {
    |t: NamedType| t.name@ == name
}

/// The first catalog entry named `name`.
pub open spec fn find_type(types: Seq<NamedType>, name: Seq<char>) -> Option<int> {
    first_index(types, type_named(name))
}

pub(crate) proof fn lemma_find_variable(vars: Seq<VariableInfo>, name: Seq<char>)
    ensures
        match find_variable(vars, name) {
            Some(i) => 0 <= i < vars.len() && vars[i].name@ == name && forall|j: int|
                0 <= j < i ==> #[trigger] vars[j].name@ != name,
            None => forall|j: int| 0 <= j < vars.len() ==> #[trigger] vars[j].name@ != name,
        },
{
    let p = var_named(name);
    lemma_first_index(vars, p);
    assert forall|j: int| 0 <= j < vars.len() implies p(vars[j]) == (vars[j].name@ == name) by {}
}

pub(crate) proof fn lemma_find_type(types: Seq<NamedType>, name: Seq<char>)
    ensures
        match find_type(types, name) {
            Some(i) => 0 <= i < types.len() && types[i].name@ == name && forall|j: int|
                0 <= j < i ==> #[trigger] types[j].name@ != name,
            None => forall|j: int| 0 <= j < types.len() ==> #[trigger] types[j].name@ != name,
        },
{
    let p = type_named(name);
    lemma_first_index(types, p);
    assert forall|j: int| 0 <= j < types.len() implies p(types[j]) == (types[j].name@ == name) by {}
}

impl MemoryLayout {
    /// The memory snapshot the layout reads from.
    pub closed spec fn mem(&self) -> Seq<u8> {
        self.memory@
    }

    /// The segments recorded for the variables, in the variables' order.
    pub closed spec fn segs(&self) -> Seq<MemorySegment> {
        self.segments@
    }

    /// The variables and types the layout was built with.
    pub closed spec fn data(&self) -> DwarfData {
        self.dwarf_data
    }

    pub fn new(wasm_memory: &[u8], dwarf_data: DwarfData) -> (r: Self)
        ensures
            r.mem() == wasm_memory@,
            r.data() == dwarf_data,
            r.segs().len() == dwarf_data.variables@.len(),
            forall|i: int|
                0 <= i < r.segs().len() ==> {
                    let s = #[trigger] r.segs()[i];
                    let v = dwarf_data.variables@[i];
                    &&& s.start == v.address
                    &&& s.size == v.size
                    &&& s.name@ == v.name@
                    &&& s.segment_type == SegmentType::GlobalVariable
                    &&& !s.signed
                },
    {
        let mut segments: Vec<MemorySegment> = Vec::new();
        let mut i: usize = 0;
        while i < dwarf_data.variables.len()
            invariant
                i <= dwarf_data.variables@.len(),
                segments@.len() == i,
                forall|k: int|
                    0 <= k < i ==> {
                        let s = #[trigger] segments@[k];
                        let v = dwarf_data.variables@[k];
                        &&& s.start == v.address
                        &&& s.size == v.size
                        &&& s.name@ == v.name@
                        &&& s.segment_type == SegmentType::GlobalVariable
                        &&& !s.signed
                    },
            decreases dwarf_data.variables@.len() - i,
        {
            let var = &dwarf_data.variables[i];
            segments.push(
                MemorySegment {
                    start: var.address,
                    size: var.size,
                    name: var.name.clone(),
                    segment_type: SegmentType::GlobalVariable,
                    signed: false,
                },
            );
            i = i + 1;
        }
        let memory = copy_slice(wasm_memory);
        MemoryLayout { segments, memory, dwarf_data }
    }

    /// Replaces the memory snapshot; variables and types stay.
    pub fn refresh(&mut self, wasm_memory: &[u8])
        ensures
            final(self).mem() == wasm_memory@,
            final(self).data() == old(self).data(),
            final(self).segs() == old(self).segs(),
    {
        self.memory = copy_slice(wasm_memory);
    }

    /// The index of the first variable named `name`.
    pub fn get_variable(&self, name: &str) -> (r: Result<usize, MemoryError>)
        ensures
            match find_variable(self.data().variables@, name@) {
                Some(i) => r matches Ok(k) && k == i,
                None => r matches Err(MemoryError::VariableNotFound(n)) && n@ == name@,
            },
    {
        let key = name.to_owned();
        let mut i: usize = 0;
        while i < self.dwarf_data.variables.len()
            invariant
                i <= self.dwarf_data.variables@.len(),
                key@ == name@,
                forall|j: int| 0 <= j < i ==> self.dwarf_data.variables@[j].name@ != name@,
            decreases self.dwarf_data.variables@.len() - i,
        {
            if self.dwarf_data.variables[i].name == key {
                proof {
                    lemma_find_variable(self.dwarf_data.variables@, name@);
                }
                return Ok(i);
            }
            i = i + 1;
        }
        proof {
            lemma_find_variable(self.dwarf_data.variables@, name@);
        }
        Err(MemoryError::VariableNotFound(key))
    }

    /// The index of the first catalog entry named `name`.
    pub fn get_type(&self, name: &String) -> (r: Option<usize>)
        ensures
            match find_type(self.data().types@, name@) {
                Some(i) => r matches Some(k) && k == i,
                None => r is None,
            },
    {
        let mut i: usize = 0;
        while i < self.dwarf_data.types.len()
            invariant
                i <= self.dwarf_data.types@.len(),
                forall|j: int| 0 <= j < i ==> self.dwarf_data.types@[j].name@ != name@,
            decreases self.dwarf_data.types@.len() - i,
        {
            if self.dwarf_data.types[i].name == *name {
                proof {
                    lemma_find_type(self.dwarf_data.types@, name@);
                }
                return Some(i);
            }
            i = i + 1;
        }
        proof {
            lemma_find_type(self.dwarf_data.types@, name@);
        }
        None
    }

    /// The bytes `[address, address + size)` of the snapshot.
    pub fn read_bytes(&self, address: u64, size: usize) -> (r: Result<Vec<u8>, MemoryError>)
        ensures
            match bytes_at(self.mem(), address, size as u64) {
                Ok(b) => r matches Ok(v) && v@ == b,
                Err(e) => r == Err::<Vec<u8>, MemoryError>(e),
            },
    {
        let len = self.memory.len();
        if address > len as u64 || size as u64 > len as u64 - address {
            return Err(MemoryError::InvalidAccess { address });
        }
        Ok(copy_bytes(&self.memory, address as usize, size))
    }

    /// The bytes `[address, address + size)` of the snapshot, for a 64-bit size.
    fn read_range(&self, address: u64, size: u64) -> (r: Result<Vec<u8>, MemoryError>)
        ensures
            match bytes_at(self.mem(), address, size) {
                Ok(b) => r matches Ok(v) && v@ == b,
                Err(e) => r == Err::<Vec<u8>, MemoryError>(e),
            },
    {
        let len = self.memory.len();
        if address > len as u64 || size > len as u64 - address {
            return Err(MemoryError::InvalidAccess { address });
        }
        Ok(copy_bytes(&self.memory, address as usize, size as usize))
    }

    fn read_primitive(&self, address: u64, size: u64, kind: PrimitiveKind) -> (r: Result<
        TypedValue,
        MemoryError,
    >)
        ensures
            agrees(r, decode_primitive(self.mem(), address, size, kind)),
    {
        match kind {
            PrimitiveKind::Int { signed } => match self.read_int(address, size, signed) {
                Ok(v) => Ok(TypedValue::Int(v)),
                Err(e) => Err(e),
            },
            PrimitiveKind::Float | PrimitiveKind::Double => {
                if size == 4 {
                    match self.read_range(address, 4) {
                        Ok(b) => {
                            let bits = le_u32(b.as_slice());
                            proof {
                                assert(b@.subrange(0, 4) =~= b@);
                            }
                            Ok(TypedValue::Float32(bits))
                        },
                        Err(e) => Err(e),
                    }
                } else if size == 8 {
                    match self.read_range(address, 8) {
                        Ok(b) => {
                            let bits = le_u64(b.as_slice());
                            proof {
                                assert(b@.subrange(0, 8) =~= b@);
                            }
                            Ok(TypedValue::Float64(bits))
                        },
                        Err(e) => Err(e),
                    }
                } else {
                    Err(MemoryError::UnsupportedSize { size: #[verifier::truncate] (size as usize) })
                }
            },
            PrimitiveKind::Bool => match self.read_int(address, 1, false) {
                Ok(v) => Ok(TypedValue::Bool(v != 0)),
                Err(e) => Err(e),
            },
            PrimitiveKind::Char => match self.read_int(address, 1, false) {
                Ok(v) => Ok(TypedValue::Char(#[verifier::truncate] (v as u8) as char)),
                Err(e) => Err(e),
            },
            PrimitiveKind::Address => match self.read_int(address, size, false) {
                Ok(v) => Ok(TypedValue::Pointer(#[verifier::truncate] (v as u64))),
                Err(e) => Err(e),
            },
            PrimitiveKind::Void => Ok(TypedValue::Void),
        }
    }

    /// Decodes the value that `type_info` describes at `address`.
    pub fn read_typed_value(&self, address: u64, type_info: &TypeInfo) -> (r: Result<
        TypedValue,
        MemoryError,
    >)
        ensures
            agrees(r, decode(self.mem(), address, *type_info)),
        decreases type_info,
    {
        match type_info {
            TypeInfo::Primitive { size, kind } => self.read_primitive(address, *size, *kind),
            TypeInfo::Struct { fields, .. } => {
                let mut out: Vec<(String, TypedValue)> = Vec::new();
                let mut i: usize = 0;
                proof {
                    assert(fields_model(out@) =~= Seq::empty());
                }
                while i < fields.len()
                    invariant
                        i <= fields@.len(),
                        out@.len() == i,
                        type_info is Struct,
                        type_info->Struct_fields == *fields,
                        decode_fields(self.mem(), address, fields@, i as int) == Ok::<
                            Seq<(Seq<char>, ValueModel)>,
                            MemoryError,
                        >(fields_model(out@)),
                    decreases fields@.len() - i,
                {
                    let f = &fields[i];
                    proof {
                        assert(decreases_to!(*type_info => *fields));
                        assert(decreases_to!(*fields => fields@[i as int]));
                        assert(decreases_to!(fields@[i as int] => fields@[i as int].type_info));
                    }
                    if f.offset > u64::MAX - address {
                        proof {
                            assert(decode_fields(self.mem(), address, fields@, i + 1) == Err::<
                                Seq<(Seq<char>, ValueModel)>,
                                MemoryError,
                            >(MemoryError::InvalidAccess { address }));
                            lemma_fields_err_stays(
                                self.mem(),
                                address,
                                fields@,
                                i + 1,
                                fields@.len() as int,
                            );
                            assert(decode(self.mem(), address, *type_info) == Err::<ValueModel, MemoryError>(
                                MemoryError::InvalidAccess { address },
                            ));
                        }
                        return Err(MemoryError::InvalidAccess { address });
                    }
                    match self.read_typed_value(address + f.offset, &f.type_info) {
                        Err(e) => {
                            proof {
                                lemma_fields_err_stays(
                                    self.mem(),
                                    address,
                                    fields@,
                                    i + 1,
                                    fields@.len() as int,
                                );
                            }
                            return Err(e);
                        },
                        Ok(v) => {
                            let ghost pre = out@;
                            out.push((f.name.clone(), v));
                            proof {
                                assert(fields_model(out@) =~= fields_model(pre).push(
                                    (f.name@, out@[i as int].1@),
                                ));
                            }
                        },
                    }
                    i = i + 1;
                }
                let r = TypedValue::Struct(out);
                proof {
                    assert(fields_model(out@) =~= Seq::new(
                        out@.len(),
                        |k: int|
                            if 0 <= k < out@.len() {
                                (out@[k].0@, out@[k].1@)
                            } else {
                                (Seq::<char>::empty(), ValueModel::Unknown)
                            },
                    ));
                    assert(r@->Struct_0 =~= fields_model(out@));
                    assert(r@ == ValueModel::Struct(fields_model(out@)));
                    assert(decode(self.mem(), address, *type_info) == Ok::<ValueModel, MemoryError>(r@));
                }
                Ok(r)
            },
            TypeInfo::Array { element_type, count, .. } => {
                let esize = element_type.get_size();
                let mut out: Vec<TypedValue> = Vec::new();
                let mut i: u32 = 0;
                proof {
                    assert(elements_model(out@) =~= Seq::empty());
                    assert(decreases_to!(*type_info => **element_type));
                }
                while i < *count
                    invariant
                        i <= *count,
                        out@.len() == i,
                        type_info is Array,
                        type_info->Array_element_type == *element_type,
                        type_info->Array_count == *count,
                        decreases_to!(*type_info => **element_type),
                        esize == size_of(**element_type),
                        decode_elements(self.mem(), address, **element_type, i as int) == Ok::<
                            Seq<ValueModel>,
                            MemoryError,
                        >(elements_model(out@)),
                    decreases *count - i,
                {
                    proof {
                        assert((i as int) * (esize as int) <= 0xffff_ffff * 0xffff_ffff_ffff_ffff)
                            by (nonlinear_arith)
                            requires
                                i <= 0xffff_ffffu32,
                                esize <= 0xffff_ffff_ffff_ffffu64,
                        ;
                    }
                    let wide: u128 = (i as u128) * (esize as u128);
                    let a: u128 = address as u128 + wide;
                    if a > u64::MAX as u128 {
                        proof {
                            assert(decode_elements(self.mem(), address, **element_type, i + 1)
                                == Err::<Seq<ValueModel>, MemoryError>(
                                MemoryError::InvalidAccess { address },
                            ));
                            lemma_elements_err_stays(
                                self.mem(),
                                address,
                                **element_type,
                                i + 1,
                                *count as int,
                            );
                        }
                        return Err(MemoryError::InvalidAccess { address });
                    }
                    match self.read_typed_value(a as u64, &**element_type) {
                        Err(e) => {
                            proof {
                                lemma_elements_err_stays(
                                    self.mem(),
                                    address,
                                    **element_type,
                                    i + 1,
                                    *count as int,
                                );
                            }
                            return Err(e);
                        },
                        Ok(v) => {
                            let ghost pre = out@;
                            out.push(v);
                            proof {
                                assert(elements_model(out@) =~= elements_model(pre).push(out@[i as int]@));
                            }
                        },
                    }
                    i = i + 1;
                }
                let r = TypedValue::Array(out);
                proof {
                    assert(elements_model(out@) =~= Seq::new(
                        out@.len(),
                        |k: int|
                            if 0 <= k < out@.len() {
                                out@[k]@
                            } else {
                                ValueModel::Unknown
                            },
                    ));
                    assert(r@->Array_0 =~= elements_model(out@));
                    assert(r@ == ValueModel::Array(elements_model(out@)));
                    assert(decode(self.mem(), address, *type_info) == Ok::<ValueModel, MemoryError>(r@));
                }
                Ok(r)
            },
            TypeInfo::Pointer { size, .. } => match self.read_int(address, *size, false) {
                Ok(v) => Ok(TypedValue::Pointer(#[verifier::truncate] (v as u64))),
                Err(e) => Err(e),
            },
            TypeInfo::Union { .. } => Err(MemoryError::UnsupportedType(TypeKind::Union)),
            TypeInfo::Enum { .. } => Err(MemoryError::UnsupportedType(TypeKind::Enum)),
            TypeInfo::Function { .. } => Ok(TypedValue::Unknown),
            TypeInfo::Void => Ok(TypedValue::Void),
            TypeInfo::Unknown => Ok(TypedValue::Unknown),
        }
    }

    /// The memory picture: a segment per variable, classed and coloured by its type's name.
    pub fn generate_visualization(&self) -> (r: Visualization)
        ensures
            r.total_size == self.mem().len(),
            r.segments@.len() == self.data().variables@.len(),
            forall|i: int|
                0 <= i < r.segments@.len() ==> {
                    let s = #[trigger] r.segments@[i];
                    let v = self.data().variables@[i];
                    &&& s.name@ == v.name@
                    &&& s.address == v.address
                    &&& s.size == v.size
                    &&& (s.segment_type@, s.color@) == segment_class(v.ty_name@)
                },
    {
        let vars = &self.dwarf_data.variables;
        let mut segments: Vec<VisualizationSegment> = Vec::new();
        let mut i: usize = 0;
        while i < vars.len()
            invariant
                i <= vars@.len(),
                *vars == self.data().variables,
                segments@.len() == i,
                forall|k: int|
                    0 <= k < i ==> {
                        let s = #[trigger] segments@[k];
                        let v = vars@[k];
                        &&& s.name@ == v.name@
                        &&& s.address == v.address
                        &&& s.size == v.size
                        &&& (s.segment_type@, s.color@) == segment_class(v.ty_name@)
                    },
            decreases vars@.len() - i,
        {
            let v = &vars[i];
            let (segment_type, color) = classify(v.ty_name.as_str());
            segments.push(
                VisualizationSegment {
                    name: v.name.clone(),
                    address: v.address,
                    size: v.size,
                    segment_type,
                    color,
                },
            );
            i = i + 1;
        }
        Visualization { segments, total_size: self.memory.len() }
    }

    /// Reads the variable named `name`: its value by its type, and its raw bytes.
    #[verifier::rlimit(40)]
    pub fn read_variable(&self, name: &str) -> (r: Result<VariableValue, MemoryError>)
        ensures
            match find_variable(self.data().variables@, name@) {
                None => r matches Err(MemoryError::VariableNotFound(n)) && n@ == name@,
                Some(i) => {
                    let var = self.data().variables@[i];
                    match find_type(self.data().types@, var.ty_name@) {
                        None => r matches Err(MemoryError::InvalidTypeInfo(n)) && n@
                            == var.ty_name@,
                        Some(j) => match decode(
                            self.mem(),
                            var.address,
                            self.data().types@[j].type_info,
                        ) {
                            Err(e) => r == Err::<VariableValue, MemoryError>(e),
                            Ok(val) => match bytes_at(self.mem(), var.address, var.size) {
                                Err(e) => r == Err::<VariableValue, MemoryError>(e),
                                Ok(raw) => r matches Ok(vv) && vv.name@ == name@ && vv.address
                                    == var.address && vv.ty_name@ == var.ty_name@ && vv.value@
                                    == val && vv.size == var.size && vv.raw_bytes@ == raw,
                            },
                        },
                    }
                },
            },
    {
        proof {
            lemma_find_variable(self.dwarf_data.variables@, name@);
        }
        let i = match self.get_variable(name) {
            Ok(i) => i,
            Err(e) => return Err(e),
        };
        let var = &self.dwarf_data.variables[i];
        proof {
            lemma_find_type(self.dwarf_data.types@, var.ty_name@);
        }
        let j = match self.get_type(&var.ty_name) {
            Some(j) => j,
            None => return Err(MemoryError::InvalidTypeInfo(var.ty_name.clone())),
        };
        let value = match self.read_typed_value(var.address, &self.dwarf_data.types[j].type_info) {
            Ok(v) => v,
            Err(e) => return Err(e),
        };
        let raw_bytes = match self.read_range(var.address, var.size) {
            Ok(b) => b,
            Err(e) => return Err(e),
        };
        Ok(
            VariableValue {
                name: name.to_owned(),
                address: var.address,
                ty_name: var.ty_name.clone(),
                value,
                size: var.size,
                raw_bytes,
            },
        )
    }

    /// An integer of `size` bytes at `addr`, little-endian, signed or not.
    pub fn read_int(&self, addr: u64, size: u64, signed: bool) -> (r: Result<i64, MemoryError>)
        ensures
            r == int_at(self.mem(), addr, size, signed),
    {
        if !(size == 1 || size == 2 || size == 4 || size == 8) {
            return Err(MemoryError::UnsupportedSize { size: #[verifier::truncate] (size as usize) });
        }
        let len = self.memory.len();
        if addr > len as u64 || size > len as u64 - addr {
            return Err(MemoryError::InvalidAccess { address: addr });
        }
        let b = copy_bytes(&self.memory, addr as usize, size as usize);
        proof {
            lemma2_to64();
            lemma2_to64_rest();
            lemma_le_value_bound(b@);
            assert(b@.subrange(0, size as int) =~= b@);
            assert(bytes_at(self.mem(), addr, size) == Ok::<Seq<u8>, MemoryError>(b@));
        }
        if size == 1 {
            let v = b[0];
            proof {
                lemma_le_value_one(b@);
                assert((8 * b@.len() - 1) as nat == 7 && (8 * b@.len()) as nat == 8);
            }
            if signed && v >= 128 {
                Ok(v as i64 - 256)
            } else {
                Ok(v as i64)
            }
        } else if size == 2 {
            let v = le_u16(b.as_slice());
            proof {
                assert((8 * b@.len() - 1) as nat == 15 && (8 * b@.len()) as nat == 16);
            }
            if signed && v >= 0x8000 {
                Ok(v as i64 - 0x1_0000)
            } else {
                Ok(v as i64)
            }
        } else if size == 4 {
            let v = le_u32(b.as_slice());
            proof {
                assert((8 * b@.len() - 1) as nat == 31 && (8 * b@.len()) as nat == 32);
            }
            if signed && v >= 0x8000_0000 {
                Ok(v as i64 - 0x1_0000_0000)
            } else {
                Ok(v as i64)
            }
        } else {
            let v = le_u64(b.as_slice());
            proof {
                assert((8 * b@.len() - 1) as nat == 63 && (8 * b@.len()) as nat == 64);
            }
            if v >= 0x8000_0000_0000_0000 {
                Ok((v - 0x8000_0000_0000_0000) as i64 - 0x7fff_ffff_ffff_ffff - 1)
            } else {
                Ok(v as i64)
            }
        }
    }
}

/// Copies a slice into a vector.
pub(crate) fn copy_slice(s: &[u8]) -> (r: Vec<u8>)
    ensures
        r@ == s@,
{
    let mut out: Vec<u8> = Vec::with_capacity(s.len());
    let mut i: usize = 0;
    while i < s.len()
        invariant
            i <= s@.len(),
            out@ == s@.subrange(0, i as int),
        decreases s@.len() - i,
    {
        out.push(s[i]);
        i = i + 1;
        assert(out@ =~= s@.subrange(0, i as int));
    }
    assert(out@ =~= s@);
    out
}


/// The `n` bytes of `u` modulo `2^(8n)`, least significant first.
pub open spec fn le_bytes(u: nat, n: nat) -> Seq<u8>
    decreases n,
{
    if n == 0 {
        Seq::empty()
    } else {
        seq![(u % 256) as u8] + le_bytes(u / 256, (n - 1) as nat)
    }
}

/// The `n`-byte little-endian two's-complement encoding of `v`.
pub open spec fn encode_int(v: int, n: nat) -> Seq<u8> {
    if v < 0 {
        le_bytes((v + pow2(8 * n)) as nat, n)
    } else {
        le_bytes(v as nat, n)
    }
}

/// `v` fits in `n` bytes, as a signed or as an unsigned integer.
pub open spec fn representable(v: int, n: nat, signed: bool) -> bool {
    if signed {
        n > 0 && -(pow2((8 * n - 1) as nat) as int) <= v < pow2((8 * n - 1) as nat)
    } else {
        0 <= v < pow2(8 * n)
    }
}

proof fn lemma_le_bytes(u: nat, n: nat)
    ensures
        le_bytes(u, n).len() == n,
        le_value(le_bytes(u, n)) == u % pow2(8 * n),
    decreases n,
{
    if n == 0 {
        vstd::arithmetic::power2::lemma_pow2_pos(0);
        lemma2_to64();
    } else {
        lemma_le_bytes(u / 256, (n - 1) as nat);
        let b = le_bytes(u, n);
        assert(b.drop_first() =~= le_bytes(u / 256, (n - 1) as nat));
        let p = pow2(8 * (n - 1) as nat);
        vstd::arithmetic::power2::lemma_pow2_adds(8, 8 * (n - 1) as nat);
        lemma2_to64();
        assert(pow2(8 * n) == 256 * p) by {
            assert(8 + 8 * (n - 1) as nat == 8 * n);
        }
        vstd::arithmetic::power2::lemma_pow2_pos(8 * (n - 1) as nat);
        vstd::arithmetic::div_mod::lemma_mod_breakdown(u as int, 256, p as int);
        vstd::arithmetic::div_mod::lemma_mod_bound(u as int, 256);
        assert(b[0] as nat == u % 256);
    }
}

/// Writing a representable integer as `n` little-endian bytes and decoding them gives it back.
pub proof fn lemma_int_round_trip(v: int, n: nat, signed: bool)
    requires
        n > 0,
        representable(v, n, signed),
    ensures
        encode_int(v, n).len() == n,
        decode_int(encode_int(v, n), signed) == v,
{
    let bits = 8 * n;
    vstd::arithmetic::power2::lemma_pow2_adds(1, (bits - 1) as nat);
    lemma2_to64();
    assert(1 + (bits - 1) as nat == bits);
    let h = pow2((bits - 1) as nat);
    assert(pow2(bits) == 2 * h);
    if v < 0 {
        lemma_le_bytes((v + pow2(bits)) as nat, n);
        vstd::arithmetic::div_mod::lemma_small_mod((v + pow2(bits)) as nat, pow2(bits));
    } else {
        lemma_le_bytes(v as nat, n);
        vstd::arithmetic::div_mod::lemma_small_mod(v as nat, pow2(bits));
    }
}

/// Memory that holds the encoding of a representable integer reads back as that integer.
pub proof fn lemma_read_written_int(m: Seq<u8>, addr: u64, v: int, size: u64, signed: bool)
    requires
        int_size_ok(size),
        representable(v, size as nat, signed),
        v <= i64::MAX,
        addr + size <= m.len(),
        m.subrange(addr as int, addr + size) == encode_int(v, size as nat),
    ensures
        int_at(m, addr, size, signed) == Ok::<i64, MemoryError>(v as i64),
        (v as i64) as int == v,
{
    lemma_int_round_trip(v, size as nat, signed);
    lemma2_to64();
    lemma2_to64_rest();
    assert((8 * size - 1) as nat <= 63);
    if signed {
        vstd::arithmetic::power2::lemma_pow2_strictly_increases((8 * size - 1) as nat, 64);
        if size < 8 {
            vstd::arithmetic::power2::lemma_pow2_strictly_increases((8 * size - 1) as nat, 63);
        }
        assert(pow2((8 * size - 1) as nat) <= pow2(63));
    }
}

/// Reading an integer of a supported width at the end of memory fails with
/// `InvalidAccess`; reading it so that it ends at the end of memory succeeds.
pub proof fn lemma_read_at_memory_end(m: Seq<u8>, size: u64, signed: bool)
    requires
        int_size_ok(size),
        size <= m.len() <= u64::MAX,
    ensures
        decode(m, m.len() as u64, TypeInfo::Primitive { size, kind: PrimitiveKind::Int { signed } })
            == Err::<ValueModel, MemoryError>(MemoryError::InvalidAccess { address: m.len() as u64 }),
        decode(
            m,
            (m.len() - size) as u64,
            TypeInfo::Primitive { size, kind: PrimitiveKind::Int { signed } },
        ) is Ok,
{
}

/// The same boundary for raw byte reads of a non-empty range.
pub proof fn lemma_bytes_at_memory_end(m: Seq<u8>, size: u64)
    requires
        0 < size <= m.len() <= u64::MAX,
    ensures
        bytes_at(m, m.len() as u64, size) == Err::<Seq<u8>, MemoryError>(
            MemoryError::InvalidAccess { address: m.len() as u64 },
        ),
        bytes_at(m, (m.len() - size) as u64, size) is Ok,
{
}

/// An integer whose width is not 1, 2, 4 or 8 bytes is refused with `UnsupportedSize`,
/// wherever it lies and whatever memory holds.
pub proof fn lemma_unsupported_int_size(m: Seq<u8>, addr: u64, size: u64, signed: bool)
    requires
        !int_size_ok(size),
    ensures
        decode(m, addr, TypeInfo::Primitive { size, kind: PrimitiveKind::Int { signed } })
            == Err::<ValueModel, MemoryError>(
            MemoryError::UnsupportedSize { size: size as usize },
        ),
{
}


/// Every part of the descriptor lies inside its declared size: struct fields end within the
/// struct, array elements within the array, and one-byte scalars have a size of at least one.
pub open spec fn within(t: TypeInfo) -> bool
    decreases t,
{
    match t {
        TypeInfo::Primitive { size, kind } => match kind {
            PrimitiveKind::Bool | PrimitiveKind::Char => size >= 1,
            _ => true,
        },
        TypeInfo::Struct { size, fields, .. } => forall|i: int|
            0 <= i < fields@.len() ==> fields@[i].offset + size_of(fields@[i].type_info) <= size
                && within(#[trigger] fields@[i].type_info),
        TypeInfo::Array { element_type, count, size } => count * size_of(*element_type) <= size
            && within(*element_type),
        _ => true,
    }
}

/// Two memories that agree on a window agree on every part of it.
proof fn lemma_subwindow(m1: Seq<u8>, m2: Seq<u8>, a: int, n: int, off: int, k: int)
    requires
        0 <= a,
        0 <= off,
        0 <= k,
        off + k <= n,
        a + n <= m1.len(),
        a + n <= m2.len(),
        m1.subrange(a, a + n) == m2.subrange(a, a + n),
    ensures
        m1.subrange(a + off, a + off + k) == m2.subrange(a + off, a + off + k),
{
    assert(m1.subrange(a + off, a + off + k) =~= m1.subrange(a, a + n).subrange(off, off + k));
    assert(m2.subrange(a + off, a + off + k) =~= m2.subrange(a, a + n).subrange(off, off + k));
}

/// Decoding a descriptor whose parts lie inside its size reads only the bytes
/// `[addr, addr + size_of(t))`: two memories that agree there give the same result.
pub proof fn lemma_decode_window(m1: Seq<u8>, m2: Seq<u8>, addr: u64, t: TypeInfo)
    requires
        within(t),
        addr + size_of(t) <= m1.len(),
        addr + size_of(t) <= m2.len(),
        addr + size_of(t) <= u64::MAX,
        m1.subrange(addr as int, addr + size_of(t)) == m2.subrange(addr as int, addr + size_of(t)),
    ensures
        decode(m1, addr, t) == decode(m2, addr, t),
    decreases t, 0int,
{
    match t {
        TypeInfo::Primitive { size, kind } => {
            match kind {
                PrimitiveKind::Bool | PrimitiveKind::Char => {
                    lemma_subwindow(m1, m2, addr as int, size as int, 0, 1);
                },
                _ => {},
            }
        },
        TypeInfo::Struct { size, fields, .. } => {
            lemma_fields_window(m1, m2, addr, size, fields@, fields@.len() as int);
        },
        TypeInfo::Array { element_type, count, size } => {
            lemma_elements_window(m1, m2, addr, *element_type, count as int, size, count as int);
        },
        _ => {},
    }
}

proof fn lemma_fields_window(m1: Seq<u8>, m2: Seq<u8>, addr: u64, size: u64, fs: Seq<FieldInfo>, n: int)
    requires
        0 <= n <= fs.len(),
        forall|i: int|
            0 <= i < fs.len() ==> fs[i].offset + size_of(fs[i].type_info) <= size && within(
                #[trigger] fs[i].type_info,
            ),
        addr + size <= m1.len(),
        addr + size <= m2.len(),
        addr + size <= u64::MAX,
        m1.subrange(addr as int, addr + size) == m2.subrange(addr as int, addr + size),
    ensures
        decode_fields(m1, addr, fs, n) == decode_fields(m2, addr, fs, n),
    decreases fs, n,
{
    if n > 0 {
        lemma_fields_window(m1, m2, addr, size, fs, n - 1);
        let f = fs[n - 1];
        assert(within(f.type_info));
        lemma_subwindow(m1, m2, addr as int, size as int, f.offset as int, size_of(f.type_info) as int);
        lemma_decode_window(m1, m2, (addr + f.offset) as u64, f.type_info);
    }
}

proof fn lemma_elements_window(
    m1: Seq<u8>,
    m2: Seq<u8>,
    addr: u64,
    et: TypeInfo,
    count: int,
    size: u64,
    n: int,
)
    requires
        0 <= n <= count,
        count * size_of(et) <= size,
        within(et),
        addr + size <= m1.len(),
        addr + size <= m2.len(),
        addr + size <= u64::MAX,
        m1.subrange(addr as int, addr + size) == m2.subrange(addr as int, addr + size),
    ensures
        decode_elements(m1, addr, et, n) == decode_elements(m2, addr, et, n),
    decreases et, n,
{
    if n > 0 {
        lemma_elements_window(m1, m2, addr, et, count, size, n - 1);
        let es = size_of(et) as int;
        assert((n - 1) * es + es <= count * es) by (nonlinear_arith)
            requires
                n <= count,
                es >= 0,
        ;
        lemma_subwindow(m1, m2, addr as int, size as int, (n - 1) * es, es);
        assert((n - 1) * es >= 0) by (nonlinear_arith)
            requires
                n >= 1,
                es >= 0,
        ;
        lemma_decode_window(m1, m2, (addr + (n - 1) * es) as u64, et);
    }
}

/// A structure decodes field by field whatever size it declares: a field that ends past the
/// declared size is read like any other, as long as it lies inside memory.
pub proof fn lemma_struct_ignores_declared_size(
    m: Seq<u8>,
    addr: u64,
    a: TypeInfo,
    b: TypeInfo,
)
    requires
        a is Struct,
        b is Struct,
        a->Struct_fields == b->Struct_fields,
    ensures
        decode(m, addr, a) == decode(m, addr, b),
{
}

/// A variable that reads successfully lies inside memory: its address plus its size is at
/// most the size of the snapshot.
pub proof fn lemma_read_variable_in_bounds(m: Seq<u8>, var: VariableInfo)
    requires
        bytes_at(m, var.address, var.size) is Ok,
    ensures
        var.address + var.size <= m.len(),
{
}

} // verus!
