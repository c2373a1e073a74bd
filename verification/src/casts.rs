//! The instruction an `expr as T` cast compiles to, chosen from the shape of
//! the compiled value and of the target's LLVM type.
use vstd::prelude::*;
use crate::ast::Type;

verus! {

/// What the cast needs to know of an LLVM value or type.
#[derive(Clone, Copy, PartialEq, Eq, Structural, Debug)]
pub enum ValueShape {
    /// An integer of the given bit width.
    Int { bits: u32 },
    /// A floating-point value; `double` is set for `f64`.
    Float { double: bool },
    Pointer,
    /// Anything else (a struct, an array, a vector).
    Other,
}

/// The LLVM instruction a cast emits; `Keep` emits none and reuses the value.
#[derive(Clone, Copy, PartialEq, Eq, Structural, Debug)]
pub enum CastOp {
    SignExtend,
    Truncate,
    Keep,
    FloatExtend,
    FloatTruncate,
    SignedToFloat,
    FloatToUnsigned,
    FloatToSigned,
    PointerCast,
    IntToPointer,
    PointerToInt,
}

/// Whether `t` is one of the unsigned integer types.
pub open spec fn is_unsigned_int(t: Type) -> bool {
    t is U8 || t is U16 || t is U32 || t is U64 || t is U128
}

/// The cast from a value of shape `source` to the target shape `target`:
/// integers widen by sign extension, narrow by truncation and keep their
/// bits at equal width; floats extend from single to double and truncate
/// the other way; integers become floats as signed; floats become integers
/// as unsigned exactly when the target type is unsigned; pointers convert
/// to pointers and to and from integers. Any other pair is unsupported.
pub open spec fn cast_for(source: ValueShape, target: ValueShape, unsigned_target: bool) -> Option<CastOp> {
    match (source, target) {
        (ValueShape::Int { bits: s }, ValueShape::Int { bits: t }) => Some(
            if s < t { CastOp::SignExtend } else if s > t { CastOp::Truncate } else { CastOp::Keep },
        ),
        (ValueShape::Float { double: s }, ValueShape::Float { double: t }) => Some(
            if !s && t { CastOp::FloatExtend } else if s && !t { CastOp::FloatTruncate } else { CastOp::Keep },
        ),
        (ValueShape::Int { .. }, ValueShape::Float { .. }) => Some(CastOp::SignedToFloat),
        (ValueShape::Float { .. }, ValueShape::Int { .. }) => Some(
            if unsigned_target { CastOp::FloatToUnsigned } else { CastOp::FloatToSigned },
        ),
        (ValueShape::Pointer, ValueShape::Pointer) => Some(CastOp::PointerCast),
        (ValueShape::Int { .. }, ValueShape::Pointer) => Some(CastOp::IntToPointer),
        (ValueShape::Pointer, ValueShape::Int { .. }) => Some(CastOp::PointerToInt),
        _ => None,
    }
}

/// Chooses the instruction for casting a value of shape `source` to
/// `target_type`, whose LLVM type has shape `target`. `None` means the cast
/// is unsupported.
pub fn select_cast(source: ValueShape, target: ValueShape, target_type: &Type) -> (r: Option<CastOp>)
    ensures
        r == cast_for(source, target, is_unsigned_int(*target_type)),
{
    let unsigned_target = match target_type {
        Type::U8 | Type::U16 | Type::U32 | Type::U64 | Type::U128 => true,
        _ => false,
    };
    match (source, target) {
        (ValueShape::Int { bits: s }, ValueShape::Int { bits: t }) => {
            if s < t {
                Some(CastOp::SignExtend)
            } else if s > t {
                Some(CastOp::Truncate)
            } else {
                Some(CastOp::Keep)
            }
        },
        (ValueShape::Float { double: s }, ValueShape::Float { double: t }) => {
            if !s && t {
                Some(CastOp::FloatExtend)
            } else if s && !t {
                Some(CastOp::FloatTruncate)
            } else {
                Some(CastOp::Keep)
            }
        },
        (ValueShape::Int { .. }, ValueShape::Float { .. }) => Some(CastOp::SignedToFloat),
        (ValueShape::Float { .. }, ValueShape::Int { .. }) => {
            if unsigned_target {
                Some(CastOp::FloatToUnsigned)
            } else {
                Some(CastOp::FloatToSigned)
            }
        },
        (ValueShape::Pointer, ValueShape::Pointer) => Some(CastOp::PointerCast),
        (ValueShape::Int { .. }, ValueShape::Pointer) => Some(CastOp::IntToPointer),
        (ValueShape::Pointer, ValueShape::Int { .. }) => Some(CastOp::PointerToInt),
        _ => None,
    }
}

/// How two values are compared for equality in a pattern.
#[derive(Clone, Copy, PartialEq, Eq, Structural, Debug)]
pub enum EqualityPlan {
    /// An integer comparison, after sign-extending the narrower side (at
    /// most one side is extended).
    Int { extend_left: bool, extend_right: bool },
    /// An ordered floating-point comparison.
    Float,
}

/// The comparison for values of shapes `left` and `right`: two integers are
/// compared at the wider width, two floats directly; other pairs are a type
/// mismatch.
pub open spec fn equality_for(left: ValueShape, right: ValueShape) -> Option<EqualityPlan> {
    match (left, right) {
        (ValueShape::Int { bits: l }, ValueShape::Int { bits: r }) => Some(EqualityPlan::Int { extend_left: r > l, extend_right: l > r }),
        (ValueShape::Float { .. }, ValueShape::Float { .. }) => Some(EqualityPlan::Float),
        _ => None,
    }
}

/// Chooses how to compare two values for equality; `None` means the shapes
/// do not match.
pub fn select_equality(left: ValueShape, right: ValueShape) -> (r: Option<EqualityPlan>)
    ensures
        r == equality_for(left, right),
{
    match (left, right) {
        (ValueShape::Int { bits: l }, ValueShape::Int { bits: r }) => Some(EqualityPlan::Int { extend_left: r > l, extend_right: l > r }),
        (ValueShape::Float { .. }, ValueShape::Float { .. }) => Some(EqualityPlan::Float),
        _ => None,
    }
}

} // verus!
