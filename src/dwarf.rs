use vstd::prelude::*;
use crate::disasm::{FunctionName, module_payloads, payload_view, payloads_of, payloads_view, PayloadKind, PayloadView};
use crate::errors::DwarfError;
use crate::memlayout::{le_value, lemma_le_value_bound};
use crate::types::{NamedType, PrimitiveKind, TypeInfo, VariableInfo};
use vstd::arithmetic::power2::pow2;

verus! {

broadcast use vstd::std_specs::vec::group_vec_axioms;

/// The debug sections the analyzer reads.
#[derive(Debug, Clone, Copy, PartialEq, Eq, Structural)]
pub enum DebugSection {
    Abbrev,
    Info,
    Str,
    Line,
    Loc,
    Ranges,
    StrOffsets,
    Types,
}

/// The section a custom-section name denotes.
pub open spec fn section_of(name: Seq<char>) -> Option<DebugSection> {
    if name == seq!['.', 'd', 'e', 'b', 'u', 'g', '_', 'a', 'b', 'b', 'r', 'e', 'v'] {
        Some(DebugSection::Abbrev)
    } else if name == seq!['.', 'd', 'e', 'b', 'u', 'g', '_', 'i', 'n', 'f', 'o'] {
        Some(DebugSection::Info)
    } else if name == seq!['.', 'd', 'e', 'b', 'u', 'g', '_', 's', 't', 'r'] {
        Some(DebugSection::Str)
    } else if name == seq!['.', 'd', 'e', 'b', 'u', 'g', '_', 'l', 'i', 'n', 'e'] {
        Some(DebugSection::Line)
    } else if name == seq!['.', 'd', 'e', 'b', 'u', 'g', '_', 'l', 'o', 'c'] {
        Some(DebugSection::Loc)
    } else if name == seq!['.', 'd', 'e', 'b', 'u', 'g', '_', 'r', 'a', 'n', 'g', 'e', 's'] {
        Some(DebugSection::Ranges)
    } else if name == seq![
        '.',
        'd',
        'e',
        'b',
        'u',
        'g',
        '_',
        's',
        't',
        'r',
        '_',
        'o',
        'f',
        'f',
        's',
        'e',
        't',
        's',
    ] {
        Some(DebugSection::StrOffsets)
    } else if name == seq!['.', 'd', 'e', 'b', 'u', 'g', '_', 't', 'y', 'p', 'e', 's'] {
        Some(DebugSection::Types)
    } else {
        None
    }
}

/// The section a custom-section name denotes, if it is one of the vocabulary.
pub fn section_id_from_name(name: &str) -> (r: Option<DebugSection>)
    ensures
        r == section_of(name@),
{
    proof {
        reveal_strlit(".debug_abbrev");
        reveal_strlit(".debug_info");
        reveal_strlit(".debug_str");
        reveal_strlit(".debug_line");
        reveal_strlit(".debug_loc");
        reveal_strlit(".debug_ranges");
        reveal_strlit(".debug_str_offsets");
        reveal_strlit(".debug_types");
    }
    if crate::runtime::str_eq(name, ".debug_abbrev") {
        proof {
            assert(".debug_abbrev"@ =~= seq!['.', 'd', 'e', 'b', 'u', 'g', '_', 'a', 'b', 'b', 'r', 'e', 'v']);
        }
        return Some(DebugSection::Abbrev);
    }
    if crate::runtime::str_eq(name, ".debug_info") {
        proof {
            assert(".debug_info"@ =~= seq!['.', 'd', 'e', 'b', 'u', 'g', '_', 'i', 'n', 'f', 'o']);
        }
        return Some(DebugSection::Info);
    }
    if crate::runtime::str_eq(name, ".debug_str") {
        proof {
            assert(".debug_str"@ =~= seq!['.', 'd', 'e', 'b', 'u', 'g', '_', 's', 't', 'r']);
        }
        return Some(DebugSection::Str);
    }
    if crate::runtime::str_eq(name, ".debug_line") {
        proof {
            assert(".debug_line"@ =~= seq!['.', 'd', 'e', 'b', 'u', 'g', '_', 'l', 'i', 'n', 'e']);
        }
        return Some(DebugSection::Line);
    }
    if crate::runtime::str_eq(name, ".debug_loc") {
        proof {
            assert(".debug_loc"@ =~= seq!['.', 'd', 'e', 'b', 'u', 'g', '_', 'l', 'o', 'c']);
        }
        return Some(DebugSection::Loc);
    }
    if crate::runtime::str_eq(name, ".debug_ranges") {
        proof {
            assert(".debug_ranges"@ =~= seq!['.', 'd', 'e', 'b', 'u', 'g', '_', 'r', 'a', 'n', 'g', 'e', 's']);
        }
        return Some(DebugSection::Ranges);
    }
    if crate::runtime::str_eq(name, ".debug_str_offsets") {
        proof {
            assert(".debug_str_offsets"@ =~= seq!['.', 'd', 'e', 'b', 'u', 'g', '_', 's', 't', 'r', '_', 'o', 'f', 'f', 's', 'e', 't', 's']);
        }
        return Some(DebugSection::StrOffsets);
    }
    if crate::runtime::str_eq(name, ".debug_types") {
        proof {
            assert(".debug_types"@ =~= seq!['.', 'd', 'e', 'b', 'u', 'g', '_', 't', 'y', 'p', 'e', 's']);
        }
        return Some(DebugSection::Types);
    }
    proof {
        assert(".debug_abbrev"@ =~= seq!['.', 'd', 'e', 'b', 'u', 'g', '_', 'a', 'b', 'b', 'r', 'e', 'v']);
        assert(".debug_info"@ =~= seq!['.', 'd', 'e', 'b', 'u', 'g', '_', 'i', 'n', 'f', 'o']);
        assert(".debug_str"@ =~= seq!['.', 'd', 'e', 'b', 'u', 'g', '_', 's', 't', 'r']);
        assert(".debug_line"@ =~= seq!['.', 'd', 'e', 'b', 'u', 'g', '_', 'l', 'i', 'n', 'e']);
        assert(".debug_loc"@ =~= seq!['.', 'd', 'e', 'b', 'u', 'g', '_', 'l', 'o', 'c']);
        assert(".debug_ranges"@ =~= seq!['.', 'd', 'e', 'b', 'u', 'g', '_', 'r', 'a', 'n', 'g', 'e', 's']);
        assert(".debug_str_offsets"@ =~= seq!['.', 'd', 'e', 'b', 'u', 'g', '_', 's', 't', 'r', '_', 'o', 'f', 'f', 's', 'e', 't', 's']);
        assert(".debug_types"@ =~= seq!['.', 'd', 'e', 'b', 'u', 'g', '_', 't', 'y', 'p', 'e', 's']);
    }
    None
}

/// The bytes of the last custom section whose name denotes `id`, among the payloads.
pub open spec fn last_section(ps: Seq<PayloadView>, id: DebugSection) -> Option<Seq<u8>>
    decreases ps.len(),
{
    if ps.len() == 0 {
        None
    } else {
        match last_section(ps.drop_first(), id) {
            Some(d) => Some(d),
            None => match ps[0] {
                PayloadView::Custom { name, data } => if section_of(name) == Some(id) {
                    Some(data)
                } else {
                    None
                },
                _ => None,
            },
        }
    }
}

/// The bytes that a section list holds for `id`: those of its first entry with that id.
pub open spec fn find_section(v: Seq<(DebugSection, Vec<u8>)>, id: DebugSection) -> Option<Seq<u8>>
    decreases v.len(),
{
    if v.len() == 0 {
        None
    } else if v[0].0 == id {
        Some(v[0].1@)
    } else {
        find_section(v.drop_first(), id)
    }
}

proof fn lemma_find_section_push(v: Seq<(DebugSection, Vec<u8>)>, x: (DebugSection, Vec<u8>), id: DebugSection)
    ensures
        find_section(v.push(x), id) == match find_section(v, id) {
            Some(d) => Some(d),
            None => if x.0 == id {
                Some(x.1@)
            } else {
                None
            },
        },
    decreases v.len(),
{
    if v.len() > 0 {
        assert(v.push(x)[0] == v[0]);
        assert(v.push(x).drop_first() =~= v.drop_first().push(x));
        lemma_find_section_push(v.drop_first(), x, id);
        if v[0].0 != id {
            assert(find_section(v, id) == find_section(v.drop_first(), id));
            assert(find_section(v.push(x), id) == find_section(v.drop_first().push(x), id));
        }
    } else {
        assert(v.push(x)[0] == x);
        assert(v.push(x).drop_first() =~= Seq::<(DebugSection, Vec<u8>)>::empty());
        assert(find_section(v.push(x).drop_first(), id) is None);
    }
}

fn has_section(v: &Vec<(DebugSection, Vec<u8>)>, id: DebugSection) -> (r: bool)
    ensures
        r == find_section(v@, id) is Some,
{
    let mut k: usize = 0;
    proof {
        assert(v@.subrange(0, v@.len() as int) =~= v@);
    }
    while k < v.len()
        invariant
            k <= v@.len(),
            find_section(v@, id) == find_section(v@.subrange(k as int, v@.len() as int), id),
        decreases v@.len() - k,
    {
        proof {
            assert(v@.subrange(k as int, v@.len() as int).drop_first() =~= v@.subrange(k + 1, v@.len() as int));
        }
        if v[k].0 == id {
            return true;
        }
        k = k + 1;
    }
    false
}

/// The debug sections of a module: for each section of the vocabulary, the bytes of the last
/// custom section of that name.
pub fn extract_debug_sections(bytes: &[u8]) -> (r: Result<Vec<(DebugSection, Vec<u8>)>, DwarfError>)
    ensures
        match payloads_of(bytes@) {
            None => r matches Err(DwarfError::ParseError(_)),
            Some(ps) => r matches Ok(v) && forall|id: DebugSection| #[trigger] find_section(v@, id) == last_section(ps, id),
        },
{
    let ps = match module_payloads(bytes) {
        Ok(v) => v,
        Err(e) => return Err(DwarfError::ParseError(e)),
    };
    let ghost pv = payloads_view(ps@);
    let n = ps.len();
    let mut out: Vec<(DebugSection, Vec<u8>)> = Vec::new();
    let mut i: usize = n;
    proof {
        assert forall|id: DebugSection| #[trigger] find_section(out@, id) == last_section(pv.subrange(n as int, n as int), id) by {
            assert(pv.subrange(n as int, n as int) =~= Seq::<PayloadView>::empty());
        }
    }
    while i > 0
        invariant
            i <= n,
            n == ps@.len(),
            pv == payloads_view(ps@),
            forall|id: DebugSection| #[trigger] find_section(out@, id) == last_section(pv.subrange(i as int, n as int), id),
        decreases i,
    {
        proof {
            assert(pv.subrange(i - 1, n as int).drop_first() =~= pv.subrange(i as int, n as int));
            assert(pv.subrange(i - 1, n as int)[0] == payload_view(ps@[i - 1]));
        }
        match &ps[i - 1] {
            PayloadKind::Custom { name, data } => {
                match section_id_from_name(name.as_str()) {
                    Some(id) => {
                        if !has_section(&out, id) {
                            let ghost before = out@;
                            let d = crate::memlayout::copy_slice(data.as_slice());
                            out.push((id, d));
                            proof {
                                assert forall|id2: DebugSection| #[trigger] find_section(out@, id2) == last_section(pv.subrange(i - 1, n as int), id2) by {
                                    lemma_find_section_push(before, out@.last(), id2);
                                    assert(out@ == before.push(out@.last()));
                                }
                            }
                        }
                    },
                    None => {},
                }
            },
            _ => {},
        }
        i = i - 1;
    }
    proof {
        assert(pv.subrange(0, n as int) =~= pv);
    }
    Ok(out)
}

/// DWARF base-type encodings (`DW_ATE_*`) that the catalog distinguishes.
pub const ATE_BOOLEAN: u8 = 0x02;
pub const ATE_FLOAT: u8 = 0x04;
pub const ATE_SIGNED: u8 = 0x05;
pub const ATE_SIGNED_CHAR: u8 = 0x06;
pub const ATE_UNSIGNED: u8 = 0x07;
pub const ATE_UNSIGNED_CHAR: u8 = 0x08;

/// The primitive kind of a base-type encoding; an absent encoding counts as signed.
pub open spec fn kind_of_encoding(enc: Option<u8>) -> PrimitiveKind {
    match enc {
        Some(e) => if e == ATE_SIGNED || e == ATE_SIGNED_CHAR {
            PrimitiveKind::Int { signed: true }
        } else if e == ATE_UNSIGNED || e == ATE_UNSIGNED_CHAR {
            PrimitiveKind::Int { signed: false }
        } else if e == ATE_FLOAT {
            PrimitiveKind::Float
        } else if e == ATE_BOOLEAN {
            PrimitiveKind::Bool
        } else {
            PrimitiveKind::Int { signed: true }
        },
        None => PrimitiveKind::Int { signed: true },
    }
}

pub fn primitive_kind(enc: Option<u8>) -> (r: PrimitiveKind)
    ensures
        r == kind_of_encoding(enc),
{
    match enc {
        Some(e) => if e == ATE_SIGNED || e == ATE_SIGNED_CHAR {
            PrimitiveKind::Int { signed: true }
        } else if e == ATE_UNSIGNED || e == ATE_UNSIGNED_CHAR {
            PrimitiveKind::Int { signed: false }
        } else if e == ATE_FLOAT {
            PrimitiveKind::Float
        } else if e == ATE_BOOLEAN {
            PrimitiveKind::Bool
        } else {
            PrimitiveKind::Int { signed: true }
        },
        None => PrimitiveKind::Int { signed: true },
    }
}

/// What a location-expression evaluation asks for before it can go on.
#[derive(Debug, Clone, Copy, PartialEq, Eq, Structural)]
pub enum EvalRequest {
    Register(u16),
    FrameBase,
    RelocatedAddress(u64),
    Memory { address: u64, size: u8 },
    EntryValue,
    Tls(u64),
    Other,
}

/// The value handed back for a request: no registers, frame base or thread-local storage
/// exist, relocation is the identity, and memory reads pack bytes little-endian.
/// `None` where the request is refused.
pub open spec fn request_value(req: EvalRequest, memory: Seq<u8>) -> Option<u64> {
    match req {
        EvalRequest::Register(_) => Some(0),
        EvalRequest::FrameBase => Some(0),
        EvalRequest::RelocatedAddress(off) => Some(off),
        EvalRequest::Tls(_) => Some(0),
        EvalRequest::Memory { address, size } => if size > 8 || address as int + size as int
            > memory.len() {
            None
        } else {
            Some(le_value(memory.subrange(address as int, address + size)) as u64)
        },
        EvalRequest::EntryValue => None,
        EvalRequest::Other => None,
    }
}

/// Answers one request of a location-expression evaluation.
pub fn resolve_request(req: EvalRequest, memory: &[u8]) -> (r: Result<u64, DwarfError>)
    ensures
        match request_value(req, memory@) {
            Some(v) => r == Ok::<u64, DwarfError>(v),
            None => match req {
                EvalRequest::Memory { address, size } => r matches Err(
                    DwarfError::MemoryReadError(a, n, _),
                ) && a == address && n == size as u64,
                _ => r matches Err(DwarfError::UnsupportedExpression(_)),
            },
        },
{
    proof {
        reveal_strlit("out of bounds");
        reveal_strlit("entry values are not supported");
        reveal_strlit("unsupported evaluation request");
    }
    match req {
        EvalRequest::Register(_) => Ok(0),
        EvalRequest::FrameBase => Ok(0),
        EvalRequest::RelocatedAddress(off) => Ok(off),
        EvalRequest::Tls(_) => Ok(0),
        EvalRequest::Memory { address, size } => {
            let len = memory.len();
            if size > 8 || address > len as u64 || size as u64 > len as u64 - address {
                let mut m = String::new();
                m.append("out of bounds");
                return Err(DwarfError::MemoryReadError(address, size as u64, m));
            }
            let start = address as usize;
            let n = size as usize;
            let mut v: u64 = 0;
            let mut i: usize = n;
            while i > 0
                invariant
                    i <= n,
                    len == memory@.len(),
                    n <= 8,
                    start + n <= memory@.len(),
                    v as nat == le_value(memory@.subrange(start + i, start + n)),
                decreases i,
            {
                proof {
                    let s = memory@.subrange(start + i - 1, start + n);
                    assert(s.drop_first() =~= memory@.subrange(start + i, start + n));
                    lemma_le_value_bound(s);
                    vstd::arithmetic::power2::lemma_pow2_strictly_increases(
                        (8 * s.len()) as nat,
                        65,
                    );
                    vstd::arithmetic::power2::lemma2_to64();
                    if s.len() < 8 {
                        vstd::arithmetic::power2::lemma_pow2_strictly_increases(
                            (8 * s.len()) as nat,
                            64,
                        );
                    }
                    assert(pow2((8 * s.len()) as nat) <= pow2(64)) by {
                        if s.len() < 8 {
                        } else {
                            assert((8 * s.len()) as nat == 64);
                        }
                    }
                }
                v = v * 256 + memory[start + i - 1] as u64;
                i = i - 1;
            }
            Ok(v)
        },
        EvalRequest::EntryValue => {
            let mut m = String::new();
            m.append("entry values are not supported");
            Err(DwarfError::UnsupportedExpression(m))
        },
        EvalRequest::Other => {
            let mut m = String::new();
            m.append("unsupported evaluation request");
            Err(DwarfError::UnsupportedExpression(m))
        },
    }
}

/// Where one piece of an evaluated location lies.
#[derive(Debug, Clone, Copy, PartialEq, Eq, Structural)]
pub enum PieceLocation {
    Address(u64),
    Other,
}

/// The first piece located at an address gives the variable's address.
pub open spec fn piece_address(pieces: Seq<PieceLocation>) -> Option<u64>
    decreases pieces.len(),
{
    if pieces.len() == 0 {
        None
    } else {
        match pieces[0] {
            PieceLocation::Address(a) => Some(a),
            PieceLocation::Other => piece_address(pieces.drop_first()),
        }
    }
}

/// The address of an evaluated location: the first address-valued piece.
pub fn address_from_pieces(pieces: &Vec<PieceLocation>) -> (r: Result<u64, DwarfError>)
    ensures
        match piece_address(pieces@) {
            Some(a) => r == Ok::<u64, DwarfError>(a),
            None => r matches Err(DwarfError::UnsupportedLocation(_)),
        },
{
    let mut i: usize = 0;
    proof {
        assert(pieces@.subrange(0, pieces@.len() as int) =~= pieces@);
    }
    while i < pieces.len()
        invariant
            i <= pieces@.len(),
            piece_address(pieces@) == piece_address(pieces@.subrange(i as int, pieces@.len() as int)),
        decreases pieces@.len() - i,
    {
        proof {
            assert(pieces@.subrange(i as int, pieces@.len() as int).drop_first() =~= pieces@.subrange(
                i + 1,
                pieces@.len() as int,
            ));
        }
        match pieces[i] {
            PieceLocation::Address(a) => {
                return Ok(a);
            },
            PieceLocation::Other => {},
        }
        i = i + 1;
    }
    let mut m = String::new();
    proof {
        reveal_strlit("no piece of the location is an address");
    }
    m.append("no piece of the location is an address");
    Err(DwarfError::UnsupportedLocation(m))
}


/// The tags of debugging-information entries that the analyzer handles.
#[derive(Debug, Clone, Copy, PartialEq, Eq, Structural)]
pub enum DieTag {
    Variable,
    StructureType,
    Member,
    BaseType,
    Subprogram,
    Other,
}

/// A type reference resolved to the referenced entry's name and byte size.
#[derive(Debug, Clone)]
pub struct TypeRef {
    pub name: Option<String>,
    pub size: u64,
}

/// A debugging-information entry as the analyzer reads it, in depth-first order.
/// `location` is the evaluated location expression, when the entry has one.
#[derive(Debug)]
pub struct DieRecord {
    pub depth: u32,
    pub tag: DieTag,
    pub name: Option<String>,
    pub byte_size: Option<u64>,
    pub encoding: Option<u8>,
    pub type_ref: Option<TypeRef>,
    pub member_offset: Option<u64>,
    pub location: Option<Result<u64, DwarfError>>,
}

/// The address a variable gets: its evaluated location, or 0 when it has none or it
/// could not be evaluated.
pub open spec fn location_address(loc: Option<Result<u64, DwarfError>>) -> u64 {
    match loc {
        Some(Ok(a)) => a,
        _ => 0,
    }
}

/// The name of a referenced type; `<unnamed>` when the referenced entry has none.
pub open spec fn ref_name(t: TypeRef) -> Seq<char> {
    match t.name {
        Some(n) => n@,
        None => "<unnamed>"@,
    }
}

fn ref_name_string(t: &TypeRef) -> (r: String)
    ensures
        r@ == ref_name(*t),
{
    match &t.name {
        Some(n) => n.clone(),
        None => {
            let mut u = String::new();
            u.append("<unnamed>");
            u
        },
    }
}

pub open spec fn unknown_name() -> Seq<char> {
    seq!['<', 'u', 'n', 'k', 'n', 'o', 'w', 'n', '>']
}

/// The variable an entry describes; entries without a name are skipped.
pub fn process_variable(rec: &DieRecord) -> (r: Option<VariableInfo>)
    ensures
        rec.name is None ==> r is None,
        rec.name matches Some(n) ==> (r matches Some(v) && v.name@ == n@ && v.address
            == location_address(rec.location) && match rec.type_ref {
            Some(t) => v.ty_name@ == ref_name(t) && v.size == t.size,
            None => v.ty_name@ == unknown_name() && v.size == 0,
        }),
{
    let name = match &rec.name {
        Some(n) => n.clone(),
        None => return None,
    };
    let address = match &rec.location {
        Some(Ok(a)) => *a,
        _ => 0,
    };
    let (ty_name, size) = match &rec.type_ref {
        Some(t) => (ref_name_string(t), t.size),
        None => {
            let mut u = String::new();
            proof {
                reveal_strlit("<unknown>");
            }
            u.append("<unknown>");
            proof {
                assert(u@ =~= unknown_name());
            }
            (u, 0)
        },
    };
    Some(VariableInfo { name, address, ty_name, size })
}

/// The base type an entry describes; entries without a name are skipped.
pub fn process_base_type(rec: &DieRecord) -> (r: Option<NamedType>)
    ensures
        rec.name is None ==> r is None,
        rec.name matches Some(n) ==> (r matches Some(t) && t.name@ == n@ && t.type_info
            == (TypeInfo::Primitive {
            size: match rec.byte_size {
                Some(s) => s,
                None => 0,
            },
            kind: kind_of_encoding(rec.encoding),
        })),
{
    let name = match &rec.name {
        Some(n) => n.clone(),
        None => return None,
    };
    let size = match rec.byte_size {
        Some(s) => s,
        None => 0,
    };
    Some(NamedType { name, type_info: TypeInfo::Primitive { size, kind: primitive_kind(rec.encoding) } })
}

/// A copy of a catalog type for use as a field's type: scalar types are copied whole,
/// a pointer keeps its size, and aggregates become `Unknown`.
pub open spec fn field_type(t: TypeInfo) -> TypeInfo {
    match t {
        TypeInfo::Primitive { size, kind } => TypeInfo::Primitive { size, kind },
        TypeInfo::Pointer { size, .. } => TypeInfo::Pointer {
            pointed_type: Box::new(TypeInfo::Unknown),
            size,
        },
        TypeInfo::Void => TypeInfo::Void,
        _ => TypeInfo::Unknown,
    }
}

fn copy_field_type(t: &TypeInfo) -> (r: TypeInfo)
    ensures
        r == field_type(*t),
{
    match t {
        TypeInfo::Primitive { size, kind } => TypeInfo::Primitive { size: *size, kind: *kind },
        TypeInfo::Pointer { size, .. } => TypeInfo::Pointer {
            pointed_type: Box::new(TypeInfo::Unknown),
            size: *size,
        },
        TypeInfo::Void => TypeInfo::Void,
        _ => TypeInfo::Unknown,
    }
}

/// The type a member's reference names in the catalog, as a field type; `Unknown` when the
/// catalog has no such name yet.
pub open spec fn member_type(types: Seq<NamedType>, rec: DieRecord) -> TypeInfo {
    match rec.type_ref {
        Some(t) => match crate::memlayout::find_type(types, ref_name(t)) {
            Some(i) => field_type(types[i].type_info),
            None => TypeInfo::Unknown,
        },
        None => TypeInfo::Unknown,
    }
}

/// `f` is the field that member entry `rec` describes.
pub open spec fn member_field(rec: DieRecord, f: crate::types::FieldInfo, types: Seq<NamedType>) -> bool {
    rec.tag == DieTag::Member && match rec.name {
        Some(m) => f.name@ == m@ && f.offset == match rec.member_offset {
            Some(o) => o,
            None => 0,
        } && f.type_info == member_type(types, rec),
        None => false,
    }
}

/// The positions, from `j` on, of the named member entries that are direct children of entry
/// `k`; the children end at the first entry that is not deeper than `k`.
pub open spec fn child_members(records: Seq<DieRecord>, k: int, j: int) -> Seq<int>
    decreases records.len() - j,
{
    if j >= records.len() || j <= k || k < 0 || records[j].depth <= records[k].depth {
        Seq::empty()
    } else {
        (if records[j].depth == records[k].depth + 1 && records[j].tag == DieTag::Member
            && records[j].name is Some {
            seq![j]
        } else {
            Seq::empty()
        }) + child_members(records, k, j + 1)
    }
}

/// The structure entry at `k` with the members among its direct children, in order; members
/// without a name are skipped, a missing offset counts as 0. Entries without a name are skipped.
pub fn process_struct(records: &Vec<DieRecord>, k: usize, types: &Vec<NamedType>) -> (r: Option<NamedType>)
    requires
        k < records@.len(),
    ensures
        records@[k as int].name is None ==> r is None,
        records@[k as int].name matches Some(n) ==> (r matches Some(t) && t.name@ == n@ && (t.type_info matches TypeInfo::Struct { size, fields, name } && name@ == n@ && size == match records@[k as int].byte_size {
            Some(s) => s,
            None => 0,
        } && fields@.len() == child_members(records@, k as int, k + 1).len() && forall|i: int| 0 <= i < fields@.len() ==> member_field(records@[child_members(records@, k as int, k + 1)[i]], #[trigger] fields@[i], types@))),
{
    let rec = &records[k];
    let name = match &rec.name {
        Some(n) => n.clone(),
        None => return None,
    };
    let size = match rec.byte_size {
        Some(s) => s,
        None => 0,
    };
    let depth = rec.depth;
    let total = records.len();
    let mut fields: Vec<crate::types::FieldInfo> = Vec::new();
    let ghost mut from: Seq<int> = Seq::empty();
    let mut j = k + 1;
    while j < records.len()
        invariant
            k < j <= records@.len(),
            depth == records@[k as int].depth,
            records@[k as int].name matches Some(nn) && name@ == nn@,
            size == match records@[k as int].byte_size {
                Some(s) => s,
                None => 0,
            },
            from.len() == fields@.len(),
            from + child_members(records@, k as int, j as int) == child_members(records@, k as int, k + 1),
            forall|i: int| 0 <= i < fields@.len() ==> 0 <= #[trigger] from[i] < records@.len() && member_field(records@[from[i]], fields@[i], types@),
        ensures
            records@[k as int].name matches Some(nn) && name@ == nn@,
            size == match records@[k as int].byte_size {
                Some(s) => s,
                None => 0,
            },
            from.len() == fields@.len(),
            from == child_members(records@, k as int, k + 1),
            forall|i: int| 0 <= i < fields@.len() ==> 0 <= #[trigger] from[i] < records@.len() && member_field(records@[from[i]], fields@[i], types@),
        decreases records@.len() - j,
    {
        let c = &records[j];
        let ghost here = child_members(records@, k as int, j as int);
        if c.depth <= depth {
            proof {
                assert(here =~= Seq::<int>::empty());
                assert(from =~= from + here);
            }
            break;
        }
        proof {
            assert(here == (if records@[j as int].depth == depth + 1 && records@[j as int].tag == DieTag::Member && records@[j as int].name is Some {
                seq![j as int]
            } else {
                Seq::<int>::empty()
            }) + child_members(records@, k as int, j + 1));
        }
        if depth < u32::MAX && c.depth == depth + 1 && c.tag == DieTag::Member {
            match &c.name {
                Some(m) => {
                    let offset = match c.member_offset {
                        Some(o) => o,
                        None => 0,
                    };
                    let ty = match &c.type_ref {
                        Some(t) => {
                            let tn = ref_name_string(t);
                            proof {
                                crate::memlayout::lemma_find_type(types@, tn@);
                            }
                            match find_named(types, &tn) {
                                Some(i) => copy_field_type(&types[i].type_info),
                                None => TypeInfo::Unknown,
                            }
                        },
                        None => TypeInfo::Unknown,
                    };
                    let ghost jj = j as int;
                    fields.push(crate::types::FieldInfo { name: m.clone(), offset, type_info: ty });
                    proof {
                        assert(from.push(jj) + child_members(records@, k as int, j + 1) =~= from + here);
                        from = from.push(jj);
                        assert(member_field(records@[jj], fields@[fields@.len() - 1], types@));
                    }
                },
                None => {},
            }
        }
        j = j + 1;
    }
    let nt = NamedType { name: name.clone(), type_info: TypeInfo::Struct { size, fields, name } };
    proof {
    }
    Some(nt)
}

/// The position of the first catalog entry named `name`.
pub fn find_named(types: &Vec<NamedType>, name: &String) -> (r: Option<usize>)
    ensures
        match crate::memlayout::find_type(types@, name@) {
            Some(i) => r matches Some(k) && k == i,
            None => r is None,
        },
{
    let mut i: usize = 0;
    while i < types.len()
        invariant
            i <= types@.len(),
            forall|j: int| 0 <= j < i ==> #[trigger] types@[j].name@ != name@,
        decreases types@.len() - i,
    {
        if types[i].name == *name {
            proof {
                crate::memlayout::lemma_find_type(types@, name@);
            }
            return Some(i);
        }
        i = i + 1;
    }
    proof {
        crate::memlayout::lemma_find_type(types@, name@);
    }
    None
}

/// The names of the catalog's entries, in order.
pub open spec fn type_names(types: Seq<NamedType>) -> Seq<Seq<char>> {
    types.map_values(|t: NamedType| t.name@)
}

/// The names that named base-type and structure entries give the catalog, each at the place
/// of its first definition.
pub open spec fn catalog_names(records: Seq<DieRecord>) -> Seq<Seq<char>>
    decreases records.len(),
{
    if records.len() == 0 {
        Seq::empty()
    } else {
        let pre = catalog_names(records.drop_last());
        let r = records.last();
        if (r.tag == DieTag::BaseType || r.tag == DieTag::StructureType) && r.name is Some {
            if pre.contains(r.name->Some_0@) {
                pre
            } else {
                pre.push(r.name->Some_0@)
            }
        } else {
            pre
        }
    }
}

/// Registers `t` in the catalog, replacing an entry of the same name.
pub fn insert_type(types: &mut Vec<NamedType>, t: NamedType)
    requires
        forall|a: int, b: int| 0 <= a < b < old(types)@.len() ==> #[trigger] old(types)@[a].name@ != #[trigger] old(types)@[b].name@,
    ensures
        forall|a: int, b: int| 0 <= a < b < final(types)@.len() ==> #[trigger] final(types)@[a].name@ != #[trigger] final(types)@[b].name@,
        crate::memlayout::find_type(final(types)@, t.name@) matches Some(i) && final(types)@[i] == t,
        type_names(final(types)@) == (if type_names(old(types)@).contains(t.name@) {
            type_names(old(types)@)
        } else {
            type_names(old(types)@).push(t.name@)
        }),
        forall|j: int| 0 <= j < old(types)@.len() && old(types)@[j].name@ != t.name@ ==> #[trigger] final(types)@[j] == old(types)@[j],
{
    let ghost tv = t;
    proof {
        crate::memlayout::lemma_find_type(types@, t.name@);
    }
    match find_named(types, &t.name) {
        Some(i) => {
            let ghost before = types@;
            types.set(i, t);
            proof {
                assert(types@ == before.update(i as int, tv));
                assert(type_names(before)[i as int] == tv.name@);
                assert(type_names(types@) =~= type_names(before));
                assert forall|a: int, b: int| 0 <= a < b < types@.len() implies #[trigger] types@[a].name@ != #[trigger] types@[b].name@ by {
                    assert(before[a].name@ != before[b].name@);
                    if a != i && b != i {
                        assert(types@[a] == before[a] && types@[b] == before[b]);
                    } else if a == i {
                        assert(types@[b] == before[b]);
                    } else {
                        assert(types@[a] == before[a]);
                    }
                }
                crate::memlayout::lemma_find_type(types@, tv.name@);
                let f = crate::memlayout::find_type(types@, tv.name@);
                if f != Some(i as int) {
                    assert(types@[i as int].name@ == tv.name@);
                }
            }
        },
        None => {
            let ghost before = types@;
            types.push(t);
            proof {
                assert forall|j: int| 0 <= j < type_names(before).len() implies type_names(before)[j] != tv.name@ by {
                    assert(before[j].name@ != tv.name@);
                }
                assert(!type_names(before).contains(tv.name@));
                assert(type_names(types@) =~= type_names(before).push(tv.name@));
                let n = types@.len() - 1;
                crate::memlayout::lemma_find_type(types@, tv.name@);
                assert(types@[n].name@ == tv.name@);
                assert forall|a: int, b: int| 0 <= a < b < types@.len() implies #[trigger] types@[a].name@ != #[trigger] types@[b].name@ by {
                    if b == n {
                        assert(types@[a] == old(types)@[a]);
                    } else {
                        assert(types@[a] == old(types)@[a] && types@[b] == old(types)@[b]);
                    }
                }
            }
        },
    }
}

/// The variable a named variable entry gives: name, address, type name and size.
pub open spec fn variable_model(r: DieRecord) -> (Seq<char>, u64, Seq<char>, u64) {
    (r.name->Some_0@, location_address(r.location), match r.type_ref {
        Some(t) => ref_name(t),
        None => unknown_name(),
    }, match r.type_ref {
        Some(t) => t.size,
        None => 0,
    })
}

/// Entry `r` defines a catalog type named `n`.
pub open spec fn defines(r: DieRecord, n: Seq<char>) -> bool {
    (r.tag == DieTag::BaseType || r.tag == DieTag::StructureType) && (r.name matches Some(m) && m@ == n)
}

/// The position of the last entry that defines the type named `n`.
pub open spec fn last_def(records: Seq<DieRecord>, n: Seq<char>) -> Option<int>
    decreases records.len(),
{
    if records.len() == 0 {
        None
    } else if defines(records.last(), n) {
        Some(records.len() - 1)
    } else {
        last_def(records.drop_last(), n)
    }
}

/// The catalog type `t` is what its defining entry `r` gives: a primitive by size and
/// encoding, or a structure of that name and size.
pub open spec fn type_from_entry(r: DieRecord, t: TypeInfo) -> bool {
    let size = match r.byte_size {
        Some(s) => s,
        None => 0,
    };
    if r.tag == DieTag::BaseType {
        t == TypeInfo::Primitive { size, kind: kind_of_encoding(r.encoding) }
    } else {
        t matches TypeInfo::Struct { size: s2, name, .. } && s2 == size && name@ == r.name->Some_0@
    }
}

/// Every catalog entry is what the last entry defining its name gives, among the first `k`.
pub open spec fn catalog_from(records: Seq<DieRecord>, k: int, types: Seq<NamedType>) -> bool {
    forall|i: int| 0 <= i < types.len() ==> match last_def(records.subrange(0, k), (#[trigger] types[i]).name@) {
        Some(x) => 0 <= x < k && type_from_entry(records[x], types[i].type_info),
        None => false,
    }
}

proof fn lemma_catalog_skip(records: Seq<DieRecord>, k: int, types: Seq<NamedType>)
    requires
        0 <= k < records.len(),
        catalog_from(records, k, types),
        !(records[k].tag == DieTag::BaseType || records[k].tag == DieTag::StructureType) || records[k].name is None,
    ensures
        catalog_from(records, k + 1, types),
{
    assert(records.subrange(0, k + 1).drop_last() =~= records.subrange(0, k));
    assert forall|i: int| 0 <= i < types.len() implies last_def(records.subrange(0, k + 1), (#[trigger] types[i]).name@) == last_def(records.subrange(0, k), types[i].name@) by {
        assert(!defines(records.subrange(0, k + 1).last(), types[i].name@));
    }
}

proof fn lemma_catalog_insert(records: Seq<DieRecord>, k: int, before: Seq<NamedType>, after: Seq<NamedType>, t: NamedType)
    requires
        0 <= k < records.len(),
        catalog_from(records, k, before),
        defines(records[k], t.name@),
        type_from_entry(records[k], t.type_info),
        forall|a: int, b: int| 0 <= a < b < after.len() ==> #[trigger] after[a].name@ != #[trigger] after[b].name@,
        crate::memlayout::find_type(after, t.name@) matches Some(i) && after[i] == t,
        type_names(after) == (if type_names(before).contains(t.name@) {
            type_names(before)
        } else {
            type_names(before).push(t.name@)
        }),
        forall|j: int| 0 <= j < before.len() && before[j].name@ != t.name@ ==> #[trigger] after[j] == before[j],
    ensures
        catalog_from(records, k + 1, after),
{
    assert(records.subrange(0, k + 1).drop_last() =~= records.subrange(0, k));
    assert(records.subrange(0, k + 1).last() == records[k]);
    crate::memlayout::lemma_find_type(after, t.name@);
    let p = crate::memlayout::find_type(after, t.name@)->Some_0;
    assert forall|i: int| 0 <= i < after.len() implies match last_def(records.subrange(0, k + 1), (#[trigger] after[i]).name@) {
        Some(x) => 0 <= x < k + 1 && type_from_entry(records[x], after[i].type_info),
        None => false,
    } by {
        let n = after[i].name@;
        assert(type_names(after)[i] == n);
        if n == t.name@ {
            assert(i == p);
            assert(last_def(records.subrange(0, k + 1), n) == Some(k));
        } else {
            assert(!defines(records[k], n));
            assert(last_def(records.subrange(0, k + 1), n) == last_def(records.subrange(0, k), n));
            if i >= before.len() {
                if type_names(before).contains(t.name@) {
                    assert(type_names(after).len() == after.len());
                    assert(type_names(after).len() == before.len());
                } else {
                    assert(type_names(after).len() == after.len());
                    assert(type_names(before).len() == before.len());
                    assert(type_names(after).len() == before.len() + 1);
                    assert(i == before.len());
                    assert(type_names(after)[i] == type_names(before).push(t.name@)[i]);
                }
                assert(type_names(after)[i] == t.name@);
            }
            assert(before[i].name@ == type_names(before)[i]);
            assert(type_names(before)[i] == type_names(after)[i]);
            assert(after[i] == before[i]);
        }
    }
}

/// The variables that a sequence of entries describes, in order.
pub open spec fn variables_of(records: Seq<DieRecord>) -> Seq<(Seq<char>, u64, Seq<char>, u64)>
    decreases records.len(),
{
    if records.len() == 0 {
        Seq::empty()
    } else {
        let r = records.last();
        variables_of(records.drop_last()) + if r.tag == DieTag::Variable && r.name is Some {
            seq![variable_model(r)]
        } else {
            Seq::empty()
        }
    }
}

/// Builds the variable list and the type catalog from the entries of all units, in order.
pub fn build_dwarf_data(records: &Vec<DieRecord>) -> (r: crate::types::DwarfData)
    ensures
        r.variables@.map_values(|v: VariableInfo| (v.name@, v.address, v.ty_name@, v.size)) == variables_of(records@),
        forall|a: int, b: int| 0 <= a < b < r.types@.len() ==> #[trigger] r.types@[a].name@ != #[trigger] r.types@[b].name@,
        type_names(r.types@) == catalog_names(records@),
        catalog_from(records@, records@.len() as int, r.types@),
{
    let mut variables: Vec<VariableInfo> = Vec::new();
    let mut types: Vec<NamedType> = Vec::new();
    let mut k: usize = 0;
    proof {
        assert(type_names(types@) =~= catalog_names(records@.subrange(0, 0)));
        assert(variables@.map_values(|v: VariableInfo| (v.name@, v.address, v.ty_name@, v.size)) =~= variables_of(records@.subrange(0, 0)));
    }
    while k < records.len()
        invariant
            k <= records@.len(),
            variables@.map_values(|v: VariableInfo| (v.name@, v.address, v.ty_name@, v.size)) == variables_of(records@.subrange(0, k as int)),
            forall|a: int, b: int| 0 <= a < b < types@.len() ==> #[trigger] types@[a].name@ != #[trigger] types@[b].name@,
            type_names(types@) == catalog_names(records@.subrange(0, k as int)),
            catalog_from(records@, k as int, types@),
        decreases records@.len() - k,
    {
        let rec = &records[k];
        let ghost before = variables@;
        let ghost tbefore = types@;
        proof {
            assert(records@.subrange(0, k + 1).drop_last() =~= records@.subrange(0, k as int));
        }
        match rec.tag {
            DieTag::Variable => {
                match process_variable(rec) {
                    Some(v) => variables.push(v),
                    None => {},
                }
                proof {
                    lemma_catalog_skip(records@, k as int, types@);
                }
            },
            DieTag::BaseType => {
                match process_base_type(rec) {
                    Some(t) => {
                        let ghost tv = t;
                        insert_type(&mut types, t);
                        proof {
                            lemma_catalog_insert(records@, k as int, tbefore, types@, tv);
                        }
                    },
                    None => {
                        proof {
                            lemma_catalog_skip(records@, k as int, types@);
                        }
                    },
                }
            },
            DieTag::StructureType => {
                match process_struct(records, k, &types) {
                    Some(t) => {
                        let ghost tv = t;
                        insert_type(&mut types, t);
                        proof {
                            lemma_catalog_insert(records@, k as int, tbefore, types@, tv);
                        }
                    },
                    None => {
                        proof {
                            lemma_catalog_skip(records@, k as int, types@);
                        }
                    },
                }
            },
            _ => {
                proof {
                    lemma_catalog_skip(records@, k as int, types@);
                }
            },
        }
        proof {
            assert(variables@.map_values(|v: VariableInfo| (v.name@, v.address, v.ty_name@, v.size)) =~= variables_of(records@.subrange(0, k + 1)));
            assert(records@.subrange(0, k + 1).last() == records@[k as int]);
        }
        k = k + 1;
    }
    proof {
        assert(records@.subrange(0, records@.len() as int) =~= records@);
    }
    crate::types::DwarfData { variables, types }
}

/// The function names that subprogram entries give: the `k`-th subprogram entry, counting
/// from zero, names function `k` when it has a name.
pub open spec fn subprogram_names(records: Seq<DieRecord>) -> Seq<(u32, Seq<char>)>
    decreases records.len(),
{
    if records.len() == 0 {
        Seq::empty()
    } else {
        let r = records.last();
        subprogram_names(records.drop_last()) + if r.tag == DieTag::Subprogram && r.name is Some {
            seq![(subprogram_count(records.drop_last()) as u32, r.name->Some_0@)]
        } else {
            Seq::empty()
        }
    }
}

/// The number of subprogram entries.
pub open spec fn subprogram_count(records: Seq<DieRecord>) -> nat
    decreases records.len(),
{
    if records.len() == 0 {
        0
    } else {
        subprogram_count(records.drop_last()) + if records.last().tag == DieTag::Subprogram {
            1nat
        } else {
            0nat
        }
    }
}

/// The names of functions by subprogram position. Subprograms past `u32::MAX` are not named.
pub fn function_names(records: &Vec<DieRecord>) -> (r: Vec<FunctionName>)
    requires
        subprogram_count(records@) <= u32::MAX,
    ensures
        r@.map_values(|f: FunctionName| (f.index, f.name@)) == subprogram_names(records@),
{
    let mut out: Vec<FunctionName> = Vec::new();
    let mut count: u32 = 0;
    let mut k: usize = 0;
    proof {
        assert(out@.map_values(|f: FunctionName| (f.index, f.name@)) =~= subprogram_names(records@.subrange(0, 0)));
    }
    while k < records.len()
        invariant
            k <= records@.len(),
            subprogram_count(records@) <= u32::MAX,
            count == subprogram_count(records@.subrange(0, k as int)),
            out@.map_values(|f: FunctionName| (f.index, f.name@)) == subprogram_names(records@.subrange(0, k as int)),
        decreases records@.len() - k,
    {
        proof {
            assert(records@.subrange(0, k + 1).drop_last() =~= records@.subrange(0, k as int));
            lemma_subprogram_count_grows(records@, k + 1);
        }
        let rec = &records[k];
        if rec.tag == DieTag::Subprogram {
            match &rec.name {
                Some(n) => out.push(FunctionName { index: count, name: n.clone() }),
                None => {},
            }
            count = count + 1;
        }
        proof {
            assert(out@.map_values(|f: FunctionName| (f.index, f.name@)) =~= subprogram_names(records@.subrange(0, k + 1)));
        }
        k = k + 1;
    }
    proof {
        assert(records@.subrange(0, records@.len() as int) =~= records@);
    }
    out
}

proof fn lemma_subprogram_count_grows(records: Seq<DieRecord>, k: int)
    requires
        0 <= k <= records.len(),
    ensures
        subprogram_count(records.subrange(0, k)) <= subprogram_count(records),
    decreases records.len() - k,
{
    if k < records.len() {
        lemma_subprogram_count_grows(records, k + 1);
        assert(records.subrange(0, k + 1).drop_last() =~= records.subrange(0, k));
    } else {
        assert(records.subrange(0, k) =~= records);
    }
}

} // verus!
