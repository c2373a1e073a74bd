//! The instruction a built-in unary or postfix operator compiles to,
//! chosen from the operator and the shape of its operand.
use vstd::prelude::*;
use crate::ast::{PostfixOp, UnaryOp};
use crate::casts::ValueShape;

verus! {

/// The LLVM instruction a built-in unary operator emits.
#[derive(Clone, Copy, PartialEq, Eq, Structural, Debug)]
pub enum UnaryInstr {
    /// `0 - x` on an integer.
    IntNeg,
    /// `-x` on a float.
    FloatNeg,
    /// `x == 0`, the logical not of an integer.
    IsZero,
    /// The bitwise complement.
    BitNot,
    /// Add one and store back.
    Increment,
    /// Subtract one and store back.
    Decrement,
}

/// What a built-in unary operator does to an operand of shape `operand`;
/// `is_variable` says whether the operand is a plain variable, which
/// pre-increment and pre-decrement need (their operand is the variable's
/// loaded value). Negation takes integers and floats, `!` and `~` take
/// integers, and the increments take integer variables; anything else is
/// refused with a message.
pub open spec fn unary_for(op: UnaryOp, is_variable: bool, operand: ValueShape) -> Result<UnaryInstr, Seq<char>> {
    match op {
        UnaryOp::Neg => match operand {
            ValueShape::Int { .. } => Ok(UnaryInstr::IntNeg),
            ValueShape::Float { .. } => Ok(UnaryInstr::FloatNeg),
            _ => Err("Cannot negate non-numeric value"@),
        },
        UnaryOp::Not => if operand is Int { Ok(UnaryInstr::IsZero) } else { Err("Cannot apply ! to non-integer value"@) },
        UnaryOp::BitNot => if operand is Int { Ok(UnaryInstr::BitNot) } else { Err("Cannot apply ~ to non-integer value"@) },
        UnaryOp::PreInc => if !is_variable {
            Err("Can only pre-increment variables"@)
        } else if operand is Int {
            Ok(UnaryInstr::Increment)
        } else {
            Err("Can only pre-increment integers"@)
        },
        UnaryOp::PreDec => if !is_variable {
            Err("Can only pre-decrement variables"@)
        } else if operand is Int {
            Ok(UnaryInstr::Decrement)
        } else {
            Err("Can only pre-decrement integers"@)
        },
    }
}

/// What a postfix `++` or `--` does to a variable's loaded value of shape
/// `operand`: it increments or decrements integer variables (the
/// expression's value is the value before the change); anything else is
/// refused with a message.
pub open spec fn postfix_for(op: PostfixOp, is_variable: bool, operand: ValueShape) -> Result<UnaryInstr, Seq<char>> {
    if !is_variable {
        Err("Can only increment/decrement variables"@)
    } else if !(operand is Int) {
        Err("Can only increment/decrement integers"@)
    } else {
        match op {
            PostfixOp::PostInc => Ok(UnaryInstr::Increment),
            PostfixOp::PostDec => Ok(UnaryInstr::Decrement),
        }
    }
}

/// Chooses the instruction for the built-in unary operator `op`.
pub fn select_unary(op: &UnaryOp, is_variable: bool, operand: ValueShape) -> (r: Result<UnaryInstr, String>)
    ensures
        match unary_for(*op, is_variable, operand) {
            Ok(i) => r == Ok::<UnaryInstr, String>(i),
            Err(m) => r matches Err(e) && e@ == m,
        },
{
    let is_int = match operand {
        ValueShape::Int { .. } => true,
        _ => false,
    };
    match op {
        UnaryOp::Neg => match operand {
            ValueShape::Int { .. } => Ok(UnaryInstr::IntNeg),
            ValueShape::Float { .. } => Ok(UnaryInstr::FloatNeg),
            _ => Err("Cannot negate non-numeric value".to_string()),
        },
        UnaryOp::Not => if is_int {
            Ok(UnaryInstr::IsZero)
        } else {
            Err("Cannot apply ! to non-integer value".to_string())
        },
        UnaryOp::BitNot => if is_int {
            Ok(UnaryInstr::BitNot)
        } else {
            Err("Cannot apply ~ to non-integer value".to_string())
        },
        UnaryOp::PreInc => if !is_variable {
            Err("Can only pre-increment variables".to_string())
        } else if is_int {
            Ok(UnaryInstr::Increment)
        } else {
            Err("Can only pre-increment integers".to_string())
        },
        UnaryOp::PreDec => if !is_variable {
            Err("Can only pre-decrement variables".to_string())
        } else if is_int {
            Ok(UnaryInstr::Decrement)
        } else {
            Err("Can only pre-decrement integers".to_string())
        },
    }
}

/// Chooses the instruction for the postfix operator `op`.
pub fn select_postfix(op: &PostfixOp, is_variable: bool, operand: ValueShape) -> (r: Result<UnaryInstr, String>)
    ensures
        match postfix_for(*op, is_variable, operand) {
            Ok(i) => r == Ok::<UnaryInstr, String>(i),
            Err(m) => r matches Err(e) && e@ == m,
        },
{
    if !is_variable {
        return Err("Can only increment/decrement variables".to_string());
    }
    match operand {
        ValueShape::Int { .. } => {},
        _ => {
            return Err("Can only increment/decrement integers".to_string());
        },
    }
    match op {
        PostfixOp::PostInc => Ok(UnaryInstr::Increment),
        PostfixOp::PostDec => Ok(UnaryInstr::Decrement),
    }
}

} // verus!
