//! Numeric kinds: the tags stored with serialized tensors and the kinds the
//! runtime computes with.

use vstd::prelude::*;

verus! {

/// `safetensors::Dtype`, the numeric-kind tag that a serialized tensor
/// carries. The type is declared with its variants, which are read from the
/// crate itself, so that a tag can be matched on.
#[verifier::external_type_specification]
pub struct ExDtype(safetensors::Dtype);

/// The numeric kind of a tensor held by the runtime.
#[derive(Clone, Copy, Debug, PartialEq, Eq, Structural)]
pub enum Kind {
    Bool,
    Uint8,
    Int8,
    Int16,
    Int,
    Int64,
    BFloat16,
    Half,
    Float,
    Double,
}

/// The runtime kind that a stored tag stands for, or `None` for a tag the
/// runtime has no kind for.
pub open spec fn dtype_kind(dtype: safetensors::Dtype) -> Option<Kind> {
    match dtype {
        safetensors::Dtype::BOOL => Some(Kind::Bool),
        safetensors::Dtype::U8 => Some(Kind::Uint8),
        safetensors::Dtype::I8 => Some(Kind::Int8),
        safetensors::Dtype::I16 => Some(Kind::Int16),
        safetensors::Dtype::I32 => Some(Kind::Int),
        safetensors::Dtype::I64 => Some(Kind::Int64),
        safetensors::Dtype::BF16 => Some(Kind::BFloat16),
        safetensors::Dtype::F16 => Some(Kind::Half),
        safetensors::Dtype::F32 => Some(Kind::Float),
        safetensors::Dtype::F64 => Some(Kind::Double),
        _ => None,
    }
}

/// Whether the runtime has a kind for a stored tag.
pub fn is_supported(dtype: safetensors::Dtype) -> (r: bool)
    ensures
        r == dtype_kind(dtype) is Some,
{
    match dtype {
        safetensors::Dtype::BOOL
        | safetensors::Dtype::U8
        | safetensors::Dtype::I8
        | safetensors::Dtype::I16
        | safetensors::Dtype::I32
        | safetensors::Dtype::I64
        | safetensors::Dtype::BF16
        | safetensors::Dtype::F16
        | safetensors::Dtype::F32
        | safetensors::Dtype::F64 => true,
        _ => false,
    }
}

/// Maps a stored tag to its runtime kind, or `None` where there is none.
pub fn checked_kind_from_dt(dtype: safetensors::Dtype) -> (r: Option<Kind>)
    ensures
        r == dtype_kind(dtype),
{
    if is_supported(dtype) {
        Some(kind_from_dt(dtype))
    } else {
        None
    }
}

/// Maps a stored tag to its runtime kind. A tag without a kind is a
/// compatibility fault of the weight set, not data to be defaulted: callers
/// rule it out beforehand.
pub fn kind_from_dt(dtype: safetensors::Dtype) -> (kind: Kind)
    requires
        dtype_kind(dtype) is Some,
    ensures
        dtype_kind(dtype) == Some(kind),
{
    match dtype {
        safetensors::Dtype::BOOL => Kind::Bool,
        safetensors::Dtype::U8 => Kind::Uint8,
        safetensors::Dtype::I8 => Kind::Int8,
        safetensors::Dtype::I16 => Kind::Int16,
        safetensors::Dtype::I32 => Kind::Int,
        safetensors::Dtype::I64 => Kind::Int64,
        safetensors::Dtype::BF16 => Kind::BFloat16,
        safetensors::Dtype::F16 => Kind::Half,
        safetensors::Dtype::F32 => Kind::Float,
        safetensors::Dtype::F64 => Kind::Double,
        _ => vstd::pervasive::unreached(),
    }
}

} // verus!
