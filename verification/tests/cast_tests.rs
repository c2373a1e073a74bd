use vex_codegen::ast::Type;
use vex_codegen::casts::{select_cast, select_equality, CastOp, EqualityPlan, ValueShape};

const I32: ValueShape = ValueShape::Int { bits: 32 };
const I64: ValueShape = ValueShape::Int { bits: 64 };
const F32: ValueShape = ValueShape::Float { double: false };
const F64: ValueShape = ValueShape::Float { double: true };

#[test]
fn integer_casts_follow_widths() {
    assert_eq!(select_cast(I32, I64, &Type::I64), Some(CastOp::SignExtend));
    assert_eq!(select_cast(I64, I32, &Type::I32), Some(CastOp::Truncate));
    assert_eq!(select_cast(I32, I32, &Type::U32), Some(CastOp::Keep));
}

#[test]
fn float_casts_follow_precision() {
    assert_eq!(select_cast(F32, F64, &Type::F64), Some(CastOp::FloatExtend));
    assert_eq!(select_cast(F64, F32, &Type::F32), Some(CastOp::FloatTruncate));
    assert_eq!(select_cast(F64, F64, &Type::F64), Some(CastOp::Keep));
}

#[test]
fn int_float_conversions() {
    assert_eq!(select_cast(I32, F64, &Type::F64), Some(CastOp::SignedToFloat));
    assert_eq!(select_cast(F64, I32, &Type::U32), Some(CastOp::FloatToUnsigned));
    assert_eq!(select_cast(F64, ValueShape::Int { bits: 128 }, &Type::U128), Some(CastOp::FloatToUnsigned));
    assert_eq!(select_cast(F64, I32, &Type::I32), Some(CastOp::FloatToSigned));
}

#[test]
fn pointer_casts() {
    let target = Type::RawPtr { inner: Box::new(Type::U8), is_const: false };
    assert_eq!(select_cast(ValueShape::Pointer, ValueShape::Pointer, &target), Some(CastOp::PointerCast));
    assert_eq!(select_cast(I64, ValueShape::Pointer, &target), Some(CastOp::IntToPointer));
    assert_eq!(select_cast(ValueShape::Pointer, I64, &Type::I64), Some(CastOp::PointerToInt));
}

#[test]
fn unsupported_casts() {
    assert_eq!(select_cast(ValueShape::Other, I32, &Type::I32), None);
    assert_eq!(select_cast(F32, ValueShape::Pointer, &Type::Named("P".to_string())), None);
    assert_eq!(select_cast(ValueShape::Pointer, F64, &Type::F64), None);
}

#[test]
fn equality_extends_the_narrower_integer() {
    assert_eq!(select_equality(I32, I64), Some(EqualityPlan::Int { extend_left: true, extend_right: false }));
    assert_eq!(select_equality(I64, I32), Some(EqualityPlan::Int { extend_left: false, extend_right: true }));
    assert_eq!(select_equality(I32, I32), Some(EqualityPlan::Int { extend_left: false, extend_right: false }));
    assert_eq!(select_equality(F32, F64), Some(EqualityPlan::Float));
    assert_eq!(select_equality(I32, F64), None);
    assert_eq!(select_equality(ValueShape::Pointer, ValueShape::Pointer), None);
}
