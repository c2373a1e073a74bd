use vex_codegen::ast::{PostfixOp, UnaryOp};
use vex_codegen::casts::ValueShape;
use vex_codegen::unary::{select_postfix, select_unary, UnaryInstr};

const INT: ValueShape = ValueShape::Int { bits: 32 };
const FLOAT: ValueShape = ValueShape::Float { double: true };

#[test]
fn negation_by_operand_kind() {
    assert_eq!(select_unary(&UnaryOp::Neg, false, INT), Ok(UnaryInstr::IntNeg));
    assert_eq!(select_unary(&UnaryOp::Neg, false, FLOAT), Ok(UnaryInstr::FloatNeg));
    assert_eq!(
        select_unary(&UnaryOp::Neg, false, ValueShape::Pointer),
        Err("Cannot negate non-numeric value".to_string())
    );
}

#[test]
fn logical_and_bitwise_not_need_integers() {
    assert_eq!(select_unary(&UnaryOp::Not, false, ValueShape::Int { bits: 1 }), Ok(UnaryInstr::IsZero));
    assert_eq!(select_unary(&UnaryOp::Not, false, FLOAT), Err("Cannot apply ! to non-integer value".to_string()));
    assert_eq!(select_unary(&UnaryOp::BitNot, false, INT), Ok(UnaryInstr::BitNot));
    assert_eq!(
        select_unary(&UnaryOp::BitNot, false, ValueShape::Other),
        Err("Cannot apply ~ to non-integer value".to_string())
    );
}

#[test]
fn prefix_increments_need_integer_variables() {
    assert_eq!(select_unary(&UnaryOp::PreInc, true, INT), Ok(UnaryInstr::Increment));
    assert_eq!(select_unary(&UnaryOp::PreDec, true, INT), Ok(UnaryInstr::Decrement));
    assert_eq!(select_unary(&UnaryOp::PreInc, false, INT), Err("Can only pre-increment variables".to_string()));
    assert_eq!(select_unary(&UnaryOp::PreDec, false, INT), Err("Can only pre-decrement variables".to_string()));
    assert_eq!(select_unary(&UnaryOp::PreInc, true, FLOAT), Err("Can only pre-increment integers".to_string()));
    assert_eq!(select_unary(&UnaryOp::PreDec, true, FLOAT), Err("Can only pre-decrement integers".to_string()));
}

#[test]
fn postfix_increments_need_integer_variables() {
    assert_eq!(select_postfix(&PostfixOp::PostInc, true, INT), Ok(UnaryInstr::Increment));
    assert_eq!(select_postfix(&PostfixOp::PostDec, true, INT), Ok(UnaryInstr::Decrement));
    assert_eq!(
        select_postfix(&PostfixOp::PostInc, false, INT),
        Err("Can only increment/decrement variables".to_string())
    );
    assert_eq!(
        select_postfix(&PostfixOp::PostDec, true, FLOAT),
        Err("Can only increment/decrement integers".to_string())
    );
}
