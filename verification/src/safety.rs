//! Checked LLVM building: which checks are switched on, and the size limit
//! that a stack allocation must respect.
use vstd::prelude::*;
use crate::mangle::{decimal, push_decimal};

verus! {

/// Which run-time checks the generated code carries.
pub struct SafetyConfig {
    pub null_checks: bool,
    pub bounds_checks: bool,
    pub overflow_checks: bool,
    pub alignment_checks: bool,
}

/// The message for an allocation of `size` bytes over the limit `max_size`.
pub open spec fn too_large_message(size: nat, max_size: nat) -> Seq<char> {
    "Allocation too large: "@ + decimal(size) + " > "@ + decimal(max_size)
}

/// Checks a stack allocation of `size` bytes against the limit `max_size`:
/// an allocation larger than the limit is refused.
pub fn check_alloca_size(size: usize, max_size: usize) -> (r: Result<(), String>)
    ensures
        size <= max_size ==> r is Ok,
        size > max_size ==> (r matches Err(e) && e@ == too_large_message(size as nat, max_size as nat)),
{
    if size > max_size {
        let mut e = "Allocation too large: ".to_owned();
        push_decimal(&mut e, size);
        e.append(" > ");
        push_decimal(&mut e, max_size);
        proof {
            reveal_strlit("Allocation too large: ");
            reveal_strlit(" > ");
        }
        assert(e@ =~= too_large_message(size as nat, max_size as nat));
        return Err(e);
    }
    Ok(())
}


/// The kind of an LLVM value type, as far as its alignment depends on it.
pub enum LlvmTypeKind {
    Int { bit_width: u32 },
    Float { is_f32: bool },
    Pointer,
    Array,
    Struct,
    Vector,
    ScalableVector,
}

/// The alignment in bytes of a value of an LLVM type kind: integers by
/// their width (1, 2, 4, then 8, and 8 for a width of 0), `f32` 4 and other
/// floats 8, pointers, arrays and structs 8, vectors 16.
pub open spec fn alignment_of(kind: LlvmTypeKind) -> u32 {
    match kind {
        LlvmTypeKind::Int { bit_width } => if 1 <= bit_width <= 8 {
            1
        } else if 9 <= bit_width <= 16 {
            2
        } else if 17 <= bit_width <= 32 {
            4
        } else {
            8
        },
        LlvmTypeKind::Float { is_f32 } => if is_f32 { 4 } else { 8 },
        LlvmTypeKind::Pointer | LlvmTypeKind::Array | LlvmTypeKind::Struct => 8,
        LlvmTypeKind::Vector | LlvmTypeKind::ScalableVector => 16,
    }
}

/// The alignment used for loads, stores and allocations of a type (see
/// `alignment_of`).
pub fn get_type_alignment(kind: &LlvmTypeKind) -> (r: u32)
    ensures
        r == alignment_of(*kind),
{
    match kind {
        LlvmTypeKind::Int { bit_width } => {
            let w = *bit_width;
            if 1 <= w && w <= 8 {
                1
            } else if 9 <= w && w <= 16 {
                2
            } else if 17 <= w && w <= 32 {
                4
            } else {
                8
            }
        }
        LlvmTypeKind::Float { is_f32 } => if *is_f32 { 4 } else { 8 },
        LlvmTypeKind::Pointer | LlvmTypeKind::Array | LlvmTypeKind::Struct => 8,
        LlvmTypeKind::Vector | LlvmTypeKind::ScalableVector => 16,
    }
}
} // verus!
