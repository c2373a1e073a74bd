//! Foreign function declarations: the C-compatible LLVM type each Vex type
//! is passed as, and the signature of an `extern "C"` function.
use vstd::prelude::*;
use crate::ast::{ExternFunction, Param, Type, TypeView};
use crate::type_text::{type_text, type_text_spec};
use crate::text::concat_str;

verus! {

/// An LLVM type as the C ABI sees it.
pub enum FfiType {
    /// An integer of the given width (`i1` for `bool`).
    Int { bits: u32 },
    Half,
    Float,
    Double,
    /// An opaque pointer.
    Pointer,
    /// `{ ptr, i64 }`: a pointer with a length.
    FatPointer,
    /// `[n x T]`.
    Array(Box<FfiType>, usize),
}

/// The C type a Vex type is passed as: integers by width (unsigned as
/// signed, `byte` and `nil` as `i8`, `error` as `i32`, `bool` as `i1`),
/// floats by width, raw pointers, references and named types as pointers,
/// strings and slices as a pointer with a length, arrays element-wise, and
/// unit as `i8`. Function, generic, tuple, union and inferred types are
/// refused with a message of their own; any other type is refused as
/// unsupported, with its text (see `type_text_spec`).
pub open spec fn ffi_mapping(t: TypeView) -> Result<FfiType, Seq<char>>
    decreases t,
{
    match t {
        TypeView::I8 | TypeView::U8 | TypeView::Byte | TypeView::Nil | TypeView::Unit => Ok(FfiType::Int { bits: 8 }),
        TypeView::I16 | TypeView::U16 => Ok(FfiType::Int { bits: 16 }),
        TypeView::I32 | TypeView::U32 | TypeView::Error => Ok(FfiType::Int { bits: 32 }),
        TypeView::I64 | TypeView::U64 => Ok(FfiType::Int { bits: 64 }),
        TypeView::I128 | TypeView::U128 => Ok(FfiType::Int { bits: 128 }),
        TypeView::Bool => Ok(FfiType::Int { bits: 1 }),
        TypeView::F16 => Ok(FfiType::Half),
        TypeView::F32 => Ok(FfiType::Float),
        TypeView::F64 => Ok(FfiType::Double),
        TypeView::RawPtr { .. } | TypeView::Reference(..) | TypeView::Named(_) => Ok(FfiType::Pointer),
        TypeView::String | TypeView::Slice(..) => Ok(FfiType::FatPointer),
        TypeView::Array(inner, n) => match ffi_mapping(*inner) {
            Ok(e) => Ok(FfiType::Array(Box::new(e), n as usize)),
            Err(m) => Err(m),
        },
        TypeView::Function { .. } => Err("Function types not supported in FFI (use function pointers instead)"@),
        TypeView::Generic { .. } => Err("Generic types must be monomorphized before FFI"@),
        TypeView::Tuple(_) => Err("Tuple types not supported in FFI (use struct instead)"@),
        TypeView::Union(_) => Err("Union types not yet implemented in FFI"@),
        TypeView::Infer(_) => Err("Type inference failed - cannot generate FFI declaration"@),
        _ => Err(unsupported_prefix() + type_text_spec(t)),
    }
}

/// The start of the message for a type the bridge does not support.
pub open spec fn unsupported_prefix() -> Seq<char> {
    "Unsupported type for FFI: "@
}

/// The C type a Vex type is passed as (see `ffi_mapping`).
pub fn vex_type_to_ffi(ty: &Type) -> (r: Result<FfiType, String>)
    ensures
        match ffi_mapping(ty@) {
            Ok(f) => r matches Ok(g) && g == f,
            Err(m) => r matches Err(e) && e@ == m,
        },
    decreases *ty,
{
    match ty {
        Type::I8 | Type::U8 | Type::Byte | Type::Nil | Type::Unit => Ok(FfiType::Int { bits: 8 }),
        Type::I16 | Type::U16 => Ok(FfiType::Int { bits: 16 }),
        Type::I32 | Type::U32 | Type::Error => Ok(FfiType::Int { bits: 32 }),
        Type::I64 | Type::U64 => Ok(FfiType::Int { bits: 64 }),
        Type::I128 | Type::U128 => Ok(FfiType::Int { bits: 128 }),
        Type::Bool => Ok(FfiType::Int { bits: 1 }),
        Type::F16 => Ok(FfiType::Half),
        Type::F32 => Ok(FfiType::Float),
        Type::F64 => Ok(FfiType::Double),
        Type::RawPtr { .. } | Type::Reference(..) | Type::Named(_) => Ok(FfiType::Pointer),
        Type::String | Type::Slice(..) => Ok(FfiType::FatPointer),
        Type::Array(inner, size) => match vex_type_to_ffi(inner) {
            Ok(e) => Ok(FfiType::Array(Box::new(e), *size)),
            Err(m) => Err(m),
        },
        Type::Function { .. } => Err("Function types not supported in FFI (use function pointers instead)".to_owned()),
        Type::Generic { .. } => Err("Generic types must be monomorphized before FFI".to_owned()),
        Type::Tuple(_) => Err("Tuple types not supported in FFI (use struct instead)".to_owned()),
        Type::Union(_) => Err("Union types not yet implemented in FFI".to_owned()),
        Type::Infer(_) => Err("Type inference failed - cannot generate FFI declaration".to_owned()),
        _ => {
            let text = type_text(ty);
            Err(concat_str("Unsupported type for FFI: ", text.as_str()))
        }
    }
}

/// The C signature of an extern function: its parameter types, in order,
/// and its return type (`None` for a function without one, which returns
/// `void`); or the error of the first parameter type, then of the return
/// type, that cannot be passed.
pub open spec fn extern_signature(params: Seq<Param>, ret: Option<Type>) -> Result<(Seq<FfiType>, Option<FfiType>), Seq<char>>
    decreases params.len(),
{
    if params.len() == 0 {
        match ret {
            None => Ok((Seq::empty(), None)),
            Some(t) => match ffi_mapping(t@) {
                Ok(f) => Ok((Seq::empty(), Some(f))),
                Err(m) => Err(m),
            },
        }
    } else {
        match ffi_mapping(params[0].ty@) {
            Err(m) => Err(m),
            Ok(f) => match extern_signature(params.drop_first(), ret) {
                Ok((ps, r)) => Ok((seq![f] + ps, r)),
                Err(m) => Err(m),
            },
        }
    }
}

/// The C signature of an extern function (see `extern_signature`); the
/// caller declares it in the module, variadic when the function is.
pub fn extern_declaration_signature(func: &ExternFunction) -> (r: Result<(Vec<FfiType>, Option<FfiType>), String>)
    ensures
        match extern_signature(func.params@, func.return_type) {
            Ok((ps, rt)) => r matches Ok(v) && v.0@ == ps && v.1 == rt,
            Err(m) => r matches Err(e) && e@ == m,
        },
{
    let ghost ps = func.params@;
    let mut types: Vec<FfiType> = Vec::new();
    let mut i: usize = 0;
    proof {
        assert(ps.subrange(0, ps.len() as int) =~= ps);
        match extern_signature(ps, func.return_type) {
            Ok((rest, rt)) => {
                assert(types@ + rest =~= rest);
            }
            Err(_) => {}
        }
    }
    while i < func.params.len()
        invariant
            ps == func.params@,
            i <= ps.len(),
            forall|l: int| 0 <= l < i ==> ffi_mapping(#[trigger] ps[l].ty@) is Ok,
            types@.len() == i,
            forall|l: int| 0 <= l < i ==> ffi_mapping(ps[l].ty@) == Ok::<FfiType, Seq<char>>(#[trigger] types@[l]),
            extern_signature(ps, func.return_type) == match extern_signature(ps.subrange(i as int, ps.len() as int), func.return_type) {
                Ok((rest, rt)) => Ok((types@ + rest, rt)),
                Err(m) => Err(m),
            },
        decreases ps.len() - i,
    {
        let t = vex_type_to_ffi(&func.params[i].ty);
        let ghost tail = ps.subrange(i as int, ps.len() as int);
        proof {
            assert(tail[0] == ps[i as int]);
            assert(tail.drop_first() =~= ps.subrange(i + 1, ps.len() as int));
        }
        match t {
            Ok(f) => {
                let ghost before = types@;
                types.push(f);
                proof {
                    assert(types@ == before.push(f));
                    match extern_signature(ps.subrange(i + 1, ps.len() as int), func.return_type) {
                        Ok((rest, rt)) => {
                            assert(before + (seq![f] + rest) =~= types@ + rest);
                        }
                        Err(_) => {}
                    }
                }
            }
            Err(e) => {
                return Err(e);
            }
        }
        i = i + 1;
    }
    proof {
        assert(ps.subrange(i as int, ps.len() as int) =~= Seq::<Param>::empty());
        assert(types@ + Seq::<FfiType>::empty() =~= types@);
    }
    match &func.return_type {
        None => Ok((types, None)),
        Some(t) => match vex_type_to_ffi(t) {
            Ok(f) => Ok((types, Some(f))),
            Err(e) => Err(e),
        },
    }
}

} // verus!
