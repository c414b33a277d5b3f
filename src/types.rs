use vstd::prelude::*;

verus! {

/// A program variable as found in the debug information.
#[derive(Debug, Clone)]
pub struct VariableInfo {
    pub name: String,
    pub address: u64,
    pub ty_name: String,
    pub size: u64,
}

/// The kind of a primitive (base) type.
#[derive(Debug, Clone, Copy, PartialEq, Eq, Structural)]
pub enum PrimitiveKind {
    Int { signed: bool },
    Char,
    Bool,
    Float,
    Double,
    Void,
    Address,
}

/// One member of a structure: its name, byte offset and type.
#[derive(Debug)]
pub struct FieldInfo {
    pub name: String,
    pub offset: u64,
    pub type_info: TypeInfo,
}

/// A named alternative of a union, or a named constant of an enumeration.
#[derive(Debug)]
pub struct UnionVariant {
    pub name: String,
    pub type_info: TypeInfo,
}

#[derive(Debug, Clone)]
pub struct EnumValue {
    pub name: String,
    pub value: i64,
}

/// A type descriptor. Struct fields keep the order in which they were recorded.
#[derive(Debug)]
pub enum TypeInfo {
    Primitive { size: u64, kind: PrimitiveKind },
    Struct { size: u64, fields: Vec<FieldInfo>, name: String },
    Array { element_type: Box<TypeInfo>, count: u32, size: u64 },
    Pointer { pointed_type: Box<TypeInfo>, size: u64 },
    Union { size: u64, variants: Vec<UnionVariant>, name: String },
    Enum { size: u64, base_type: Box<TypeInfo>, values: Vec<EnumValue>, name: String },
    Function { return_type: Box<TypeInfo>, parameters: Vec<TypeInfo> },
    Void,
    Unknown,
}

/// The shape of a descriptor, without its contents.
#[derive(Debug, Clone, Copy, PartialEq, Eq, Structural)]
pub enum TypeKind {
    Primitive(PrimitiveKind),
    Struct,
    Array,
    Pointer,
    Union,
    Enum,
    Function,
    Void,
    Unknown,
}

/// A named entry of the type catalog.
#[derive(Debug)]
pub struct NamedType {
    pub name: String,
    pub type_info: TypeInfo,
}

/// Variables and the type catalog extracted from the debug information.
#[derive(Debug)]
pub struct DwarfData {
    pub variables: Vec<VariableInfo>,
    pub types: Vec<NamedType>,
}

/// A variable read out of memory: where it is, its type's name, its value and raw bytes.
#[derive(Debug)]
pub struct VariableValue {
    pub name: String,
    pub address: u64,
    pub ty_name: String,
    pub value: TypedValue,
    pub size: u64,
    pub raw_bytes: Vec<u8>,
}

/// A decoded value. Floating-point values are kept as their IEEE-754 bits.
#[derive(Debug)]
pub enum TypedValue {
    Int(i64),
    Float32(u32),
    Float64(u64),
    Bool(bool),
    Char(char),
    Text(String),
    Struct(Vec<(String, TypedValue)>),
    Array(Vec<TypedValue>),
    Pointer(u64),
    Void,
    Unknown,
}

/// The mathematical model of a decoded value.
pub enum ValueModel {
    Int(i64),
    Float32(u32),
    Float64(u64),
    Bool(bool),
    Char(char),
    Text(Seq<char>),
    Struct(Seq<(Seq<char>, ValueModel)>),
    Array(Seq<ValueModel>),
    Pointer(u64),
    Void,
    Unknown,
}

impl TypedValue {
    pub open spec fn view(&self) -> ValueModel
        decreases self,
    {
        match self {
            TypedValue::Int(i) => ValueModel::Int(*i),
            TypedValue::Float32(b) => ValueModel::Float32(*b),
            TypedValue::Float64(b) => ValueModel::Float64(*b),
            TypedValue::Bool(b) => ValueModel::Bool(*b),
            TypedValue::Char(c) => ValueModel::Char(*c),
            TypedValue::Text(s) => ValueModel::Text(s@),
            TypedValue::Struct(fs) => ValueModel::Struct(
                Seq::new(
                    fs@.len(),
                    |i: int|
                        if 0 <= i < fs@.len() {
                            (fs@[i].0@, fs@[i].1.view())
                        } else {
                            (Seq::empty(), ValueModel::Unknown)
                        },
                ),
            ),
            TypedValue::Array(es) => ValueModel::Array(
                Seq::new(
                    es@.len(),
                    |i: int|
                        if 0 <= i < es@.len() {
                            es@[i].view()
                        } else {
                            ValueModel::Unknown
                        },
                ),
            ),
            TypedValue::Pointer(p) => ValueModel::Pointer(*p),
            TypedValue::Void => ValueModel::Void,
            TypedValue::Unknown => ValueModel::Unknown,
        }
    }
}

/// The byte size that a descriptor declares; zero where it declares none.
pub open spec fn size_of(t: TypeInfo) -> u64 {
    match t {
        TypeInfo::Primitive { size, .. } => size,
        TypeInfo::Struct { size, .. } => size,
        TypeInfo::Array { size, .. } => size,
        TypeInfo::Pointer { size, .. } => size,
        TypeInfo::Union { size, .. } => size,
        TypeInfo::Enum { size, .. } => size,
        TypeInfo::Function { .. } => 0,
        TypeInfo::Void => 0,
        TypeInfo::Unknown => 0,
    }
}

pub open spec fn kind_of(t: TypeInfo) -> TypeKind {
    match t {
        TypeInfo::Primitive { kind, .. } => TypeKind::Primitive(kind),
        TypeInfo::Struct { .. } => TypeKind::Struct,
        TypeInfo::Array { .. } => TypeKind::Array,
        TypeInfo::Pointer { .. } => TypeKind::Pointer,
        TypeInfo::Union { .. } => TypeKind::Union,
        TypeInfo::Enum { .. } => TypeKind::Enum,
        TypeInfo::Function { .. } => TypeKind::Function,
        TypeInfo::Void => TypeKind::Void,
        TypeInfo::Unknown => TypeKind::Unknown,
    }
}

/// The byte width of a pointer in the linear memory of a 32-bit module.
pub const POINTER_SIZE: u64 = 4;

impl TypeInfo {
    pub fn new_primitive(size: u64, kind: PrimitiveKind) -> (r: Self)
        ensures
            r == (TypeInfo::Primitive { size, kind }),
    {
        TypeInfo::Primitive { size, kind }
    }

    pub fn new_struct(name: String, size: u64, fields: Vec<FieldInfo>) -> (r: Self)
        ensures
            r == (TypeInfo::Struct { size, fields, name }),
    {
        TypeInfo::Struct { name, size, fields }
    }

    pub fn is_primitive(&self) -> (r: bool)
        ensures
            r == (self is Primitive),
    {
        match self {
            TypeInfo::Primitive { .. } => true,
            _ => false,
        }
    }

    pub fn is_struct(&self) -> (r: bool)
        ensures
            r == (self is Struct),
    {
        match self {
            TypeInfo::Struct { .. } => true,
            _ => false,
        }
    }

    pub fn get_size(&self) -> (r: u64)
        ensures
            r == size_of(*self),
    {
        match self {
            TypeInfo::Primitive { size, .. } => *size,
            TypeInfo::Struct { size, .. } => *size,
            TypeInfo::Array { size, .. } => *size,
            TypeInfo::Pointer { size, .. } => *size,
            TypeInfo::Union { size, .. } => *size,
            TypeInfo::Enum { size, .. } => *size,
            TypeInfo::Void => 0,
            TypeInfo::Unknown => 0,
            TypeInfo::Function { .. } => 0,
        }
    }

    pub fn get_kind(&self) -> (r: TypeKind)
        ensures
            r == kind_of(*self),
    {
        match self {
            TypeInfo::Primitive { kind, .. } => TypeKind::Primitive(*kind),
            TypeInfo::Struct { .. } => TypeKind::Struct,
            TypeInfo::Array { .. } => TypeKind::Array,
            TypeInfo::Pointer { .. } => TypeKind::Pointer,
            TypeInfo::Union { .. } => TypeKind::Union,
            TypeInfo::Enum { .. } => TypeKind::Enum,
            TypeInfo::Function { .. } => TypeKind::Function,
            TypeInfo::Void => TypeKind::Void,
            TypeInfo::Unknown => TypeKind::Unknown,
        }
    }

    pub fn int8() -> (r: Self)
        ensures
            r == (TypeInfo::Primitive { size: 1, kind: PrimitiveKind::Int { signed: true } }),
    {
        TypeInfo::new_primitive(1, PrimitiveKind::Int { signed: true })
    }

    pub fn uint8() -> (r: Self)
        ensures
            r == (TypeInfo::Primitive { size: 1, kind: PrimitiveKind::Int { signed: false } }),
    {
        TypeInfo::new_primitive(1, PrimitiveKind::Int { signed: false })
    }

    pub fn int16() -> (r: Self)
        ensures
            r == (TypeInfo::Primitive { size: 2, kind: PrimitiveKind::Int { signed: true } }),
    {
        TypeInfo::new_primitive(2, PrimitiveKind::Int { signed: true })
    }

    pub fn uint16() -> (r: Self)
        ensures
            r == (TypeInfo::Primitive { size: 2, kind: PrimitiveKind::Int { signed: false } }),
    {
        TypeInfo::new_primitive(2, PrimitiveKind::Int { signed: false })
    }

    pub fn int32() -> (r: Self)
        ensures
            r == (TypeInfo::Primitive { size: 4, kind: PrimitiveKind::Int { signed: true } }),
    {
        TypeInfo::new_primitive(4, PrimitiveKind::Int { signed: true })
    }

    pub fn uint32() -> (r: Self)
        ensures
            r == (TypeInfo::Primitive { size: 4, kind: PrimitiveKind::Int { signed: false } }),
    {
        TypeInfo::new_primitive(4, PrimitiveKind::Int { signed: false })
    }

    pub fn int64() -> (r: Self)
        ensures
            r == (TypeInfo::Primitive { size: 8, kind: PrimitiveKind::Int { signed: true } }),
    {
        TypeInfo::new_primitive(8, PrimitiveKind::Int { signed: true })
    }

    pub fn uint64() -> (r: Self)
        ensures
            r == (TypeInfo::Primitive { size: 8, kind: PrimitiveKind::Int { signed: false } }),
    {
        TypeInfo::new_primitive(8, PrimitiveKind::Int { signed: false })
    }

    pub fn float() -> (r: Self)
        ensures
            r == (TypeInfo::Primitive { size: 4, kind: PrimitiveKind::Float }),
    {
        TypeInfo::new_primitive(4, PrimitiveKind::Float)
    }

    pub fn double() -> (r: Self)
        ensures
            r == (TypeInfo::Primitive { size: 8, kind: PrimitiveKind::Double }),
    {
        TypeInfo::new_primitive(8, PrimitiveKind::Double)
    }

    pub fn bool() -> (r: Self)
        ensures
            r == (TypeInfo::Primitive { size: 1, kind: PrimitiveKind::Bool }),
    {
        TypeInfo::new_primitive(1, PrimitiveKind::Bool)
    }

    pub fn char() -> (r: Self)
        ensures
            r == (TypeInfo::Primitive { size: 1, kind: PrimitiveKind::Char }),
    {
        TypeInfo::new_primitive(1, PrimitiveKind::Char)
    }

    pub fn void() -> (r: Self)
        ensures
            r == TypeInfo::Void,
    {
        TypeInfo::Void
    }

    /// A pointer to `pointed_type`, sized for the module's 32-bit linear memory.
    pub fn pointer_to(pointed_type: TypeInfo) -> (r: Self)
        ensures
            r == (TypeInfo::Pointer { pointed_type: Box::new(pointed_type), size: POINTER_SIZE }),
    {
        TypeInfo::Pointer { pointed_type: Box::new(pointed_type), size: POINTER_SIZE }
    }
}

} // verus!
