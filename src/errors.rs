use vstd::prelude::*;
use crate::types::TypeKind;

verus! {

/// Errors of the typed memory reader.
#[derive(Debug, Clone, PartialEq, Eq)]
pub enum MemoryError {
    InvalidAccess { address: u64 },
    UnsupportedSize { size: usize },
    VariableNotFound(String),
    TypeMismatch { expected: String, found: String },
    InvalidTypeInfo(String),
    MemoryNotInitialized,
    WasmRuntimeError(String),
    Unknown(String),
    UnsupportedType(TypeKind),
    ParseError(String),
}

/// Errors of the runtime adapter.
#[derive(Debug, Clone, PartialEq, Eq)]
pub enum RuntimeError {
    InstanceCreation(String),
    MemoryNotFound(String),
    FunctionNotFound(String),
    FunctionCall(String, String),
    GlobalNotFound(String),
    GlobalSetFailed(String, String),
    TableNotFound(String),
    TableAccessFailed(String, String),
    TypeMismatch { expected: String, found: String },
    InvalidMemoryAccess,
    Unknown(String),
}

/// Errors of the debug-information analyzer and of location evaluation.
#[derive(Debug, Clone, PartialEq, Eq)]
pub enum DwarfError {
    ParseError(String),
    InvalidSection(String),
    MissingInfo(String),
    UnsupportedVersion(u16),
    RegisterUnavailable(u16, String),
    FrameBaseUnavailable(String),
    RelocationError(u64, String),
    UnsupportedExpression(String),
    UnsupportedLocation(String),
    MemoryReadError(u64, u64, String),
    TlsUnavailable(String),
    EntryValueEvaluationError(String),
    InvalidLocation,
    TypeResolutionFailed(String),
    Unknown(String),
}

} // verus!
