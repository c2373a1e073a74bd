//! The text of a type, in Vex notation, as error messages show it.
use vstd::prelude::*;
use crate::ast::{type_views, Type, TypeView};
use crate::mangle::{decimal, push_decimal};

verus! {

/// The text of a type: primitive types by their keyword, named types by
/// name, `Name<A, B>` for generic types and the built-in containers, `&T`
/// and `&T!` for references, `[T; n]` for arrays, `&[T]` and `&[T]!` for
/// slices, `(A, B)` for tuples, `fn(A, B): R` for functions, `A | B` and
/// `A & B` for unions and intersections, `*T` and `*T!` for raw pointers,
/// `S::Name` for associated types.
pub open spec fn type_text_spec(t: TypeView) -> Seq<char>
    decreases t,
{
    match t {
        TypeView::Unknown => "unknown"@,
        TypeView::I8 => "i8"@,
        TypeView::I16 => "i16"@,
        TypeView::I32 => "i32"@,
        TypeView::I64 => "i64"@,
        TypeView::I128 => "i128"@,
        TypeView::U8 => "u8"@,
        TypeView::U16 => "u16"@,
        TypeView::U32 => "u32"@,
        TypeView::U64 => "u64"@,
        TypeView::U128 => "u128"@,
        TypeView::F16 => "f16"@,
        TypeView::F32 => "f32"@,
        TypeView::F64 => "f64"@,
        TypeView::Bool => "bool"@,
        TypeView::String => "string"@,
        TypeView::Byte => "byte"@,
        TypeView::Named(n) => n,
        TypeView::Generic { name, type_args } => name + "<"@ + types_text_spec(type_args, ", "@) + ">"@,
        TypeView::Reference(inner, m) => "&"@ + type_text_spec(*inner) + if m { "!"@ } else { ""@ },
        TypeView::Array(inner, n) => "["@ + type_text_spec(*inner) + "; "@ + decimal(n) + "]"@,
        TypeView::ConstArray { elem_type, size_param } => "["@ + type_text_spec(*elem_type) + "; "@ + size_param + "]"@,
        TypeView::Slice(inner, m) => "&["@ + type_text_spec(*inner) + "]"@ + if m { "!"@ } else { ""@ },
        TypeView::Tuple(ts) => "("@ + types_text_spec(ts, ", "@) + ")"@,
        TypeView::Function { params, return_type } => "fn("@ + types_text_spec(params, ", "@) + "): "@
            + type_text_spec(*return_type),
        TypeView::Union(ts) => types_text_spec(ts, " | "@),
        TypeView::Intersection(ts) => types_text_spec(ts, " & "@),
        TypeView::RawPtr { inner, is_const } => "*"@ + type_text_spec(*inner) + if is_const { ""@ } else { "!"@ },
        TypeView::Option(inner) => "Option<"@ + type_text_spec(*inner) + ">"@,
        TypeView::Result(ok, err) => "Result<"@ + type_text_spec(*ok) + ", "@ + type_text_spec(*err) + ">"@,
        TypeView::Vec(inner) => "Vec<"@ + type_text_spec(*inner) + ">"@,
        TypeView::Box(inner) => "Box<"@ + type_text_spec(*inner) + ">"@,
        TypeView::Channel(inner) => "Channel<"@ + type_text_spec(*inner) + ">"@,
        TypeView::Future(inner) => "Future<"@ + type_text_spec(*inner) + ">"@,
        TypeView::Unit => "()"@,
        TypeView::Never => "!"@,
        TypeView::Any => "any"@,
        TypeView::SelfType => "Self"@,
        TypeView::Error => "error"@,
        TypeView::Nil => "nil"@,
        TypeView::AssociatedType { self_type, name } => type_text_spec(*self_type) + "::"@ + name,
        TypeView::Conditional { check_type, extends_type, true_type, false_type } => type_text_spec(*check_type)
            + " extends "@ + type_text_spec(*extends_type) + " ? "@ + type_text_spec(*true_type) + " : "@
            + type_text_spec(*false_type),
        TypeView::Infer(n) => "infer "@ + n,
        TypeView::Typeof(n) => "typeof "@ + n,
    }
}

/// The texts of types, separated by `sep`.
pub open spec fn types_text_spec(ts: Seq<TypeView>, sep: Seq<char>) -> Seq<char>
    decreases ts,
{
    if ts.len() == 0 {
        Seq::empty()
    } else if ts.len() == 1 {
        type_text_spec(ts[0])
    } else {
        types_text_spec(ts.drop_last(), sep) + sep + type_text_spec(ts.last())
    }
}

fn append(s: &mut String, t: &str)
    ensures
        final(s)@ == old(s)@ + t@,
{
    s.append(t);
}

fn types_text(ts: &Vec<Type>, sep: &str) -> (r: String)
    ensures
        r@ == types_text_spec(type_views(ts@), sep@),
    decreases ts@,
{
    let mut r = String::new();
    let mut i: usize = 0;
    proof {
        assert(ts@.take(0) =~= Seq::<Type>::empty());
    }
    while i < ts.len()
        invariant
            i <= ts@.len(),
            r@ == types_text_spec(type_views(ts@.take(i as int)), sep@),
        decreases ts@.len() - i,
    {
        proof {
            crate::ast::lemma_type_views_len(ts@.take(i + 1));
            assert(ts@.take(i + 1).drop_last() =~= ts@.take(i as int));
            assert(type_views(ts@.take(i + 1)).drop_last() =~= type_views(ts@.take(i as int)));
            assert(type_views(ts@.take(i + 1)).last() == ts@[i as int]@);
        }
        if i > 0 {
            append(&mut r, sep);
        } else {
            assert(r@ =~= Seq::<char>::empty());
            assert(type_views(ts@.take(1))[0] == type_views(ts@.take(1)).last());
        }
        let x = type_text(&ts[i]);
        append(&mut r, x.as_str());
        i = i + 1;
    }
    assert(ts@.take(ts@.len() as int) =~= ts@);
    r
}

/// The text of a type (see `type_text_spec`).
pub fn type_text(ty: &Type) -> (r: String)
    ensures
        r@ == type_text_spec(ty@),
    decreases ty,
{
    proof {
        reveal_strlit("!");
        reveal_strlit("");
    }
    match ty {
        Type::Unknown => "unknown".to_owned(),
        Type::I8 => "i8".to_owned(),
        Type::I16 => "i16".to_owned(),
        Type::I32 => "i32".to_owned(),
        Type::I64 => "i64".to_owned(),
        Type::I128 => "i128".to_owned(),
        Type::U8 => "u8".to_owned(),
        Type::U16 => "u16".to_owned(),
        Type::U32 => "u32".to_owned(),
        Type::U64 => "u64".to_owned(),
        Type::U128 => "u128".to_owned(),
        Type::F16 => "f16".to_owned(),
        Type::F32 => "f32".to_owned(),
        Type::F64 => "f64".to_owned(),
        Type::Bool => "bool".to_owned(),
        Type::String => "string".to_owned(),
        Type::Byte => "byte".to_owned(),
        Type::Named(n) => n.clone(),
        Type::Generic { name, type_args } => {
            let mut r = name.clone();
            append(&mut r, "<");
            let x = types_text(type_args, ", ");
            append(&mut r, x.as_str());
            append(&mut r, ">");
            r
        },
        Type::Reference(inner, m) => {
            let mut r = "&".to_owned();
            let x = type_text(inner);
            append(&mut r, x.as_str());
            append(&mut r, "");
            if *m {
                append(&mut r, "!");
            } else {
                assert(r@ + ""@ =~= r@);
            }
            r
        },
        Type::Array(inner, n) => {
            let mut r = "[".to_owned();
            let x = type_text(inner);
            append(&mut r, x.as_str());
            append(&mut r, "; ");
            push_decimal(&mut r, *n);
            append(&mut r, "]");
            r
        },
        Type::ConstArray { elem_type, size_param } => {
            let mut r = "[".to_owned();
            let x = type_text(elem_type);
            append(&mut r, x.as_str());
            append(&mut r, "; ");
            append(&mut r, size_param.as_str());
            append(&mut r, "]");
            r
        },
        Type::Slice(inner, m) => {
            let mut r = "&[".to_owned();
            let x = type_text(inner);
            append(&mut r, x.as_str());
            append(&mut r, "]");
            if *m {
                append(&mut r, "!");
            } else {
                assert(r@ + ""@ =~= r@);
            }
            r
        },
        Type::Tuple(ts) => {
            let mut r = "(".to_owned();
            let x = types_text(ts, ", ");
            append(&mut r, x.as_str());
            append(&mut r, ")");
            r
        },
        Type::Function { params, return_type } => {
            let mut r = "fn(".to_owned();
            let x = types_text(params, ", ");
            append(&mut r, x.as_str());
            append(&mut r, "): ");
            let y = type_text(return_type);
            append(&mut r, y.as_str());
            r
        },
        Type::Union(ts) => types_text(ts, " | "),
        Type::Intersection(ts) => types_text(ts, " & "),
        Type::RawPtr { inner, is_const } => {
            let mut r = "*".to_owned();
            let x = type_text(inner);
            append(&mut r, x.as_str());
            append(&mut r, "");
            if !*is_const {
                append(&mut r, "!");
            } else {
                assert(r@ + ""@ =~= r@);
            }
            r
        },
        Type::Option(inner) => {
            let mut r = "Option<".to_owned();
            let x = type_text(inner);
            append(&mut r, x.as_str());
            append(&mut r, ">");
            r
        },
        Type::Result(ok, err) => {
            let mut r = "Result<".to_owned();
            let x = type_text(ok);
            append(&mut r, x.as_str());
            append(&mut r, ", ");
            let y = type_text(err);
            append(&mut r, y.as_str());
            append(&mut r, ">");
            r
        },
        Type::Vec(inner) => {
            let mut r = "Vec<".to_owned();
            let x = type_text(inner);
            append(&mut r, x.as_str());
            append(&mut r, ">");
            r
        },
        Type::Box(inner) => {
            let mut r = "Box<".to_owned();
            let x = type_text(inner);
            append(&mut r, x.as_str());
            append(&mut r, ">");
            r
        },
        Type::Channel(inner) => {
            let mut r = "Channel<".to_owned();
            let x = type_text(inner);
            append(&mut r, x.as_str());
            append(&mut r, ">");
            r
        },
        Type::Future(inner) => {
            let mut r = "Future<".to_owned();
            let x = type_text(inner);
            append(&mut r, x.as_str());
            append(&mut r, ">");
            r
        },
        Type::Unit => "()".to_owned(),
        Type::Never => "!".to_owned(),
        Type::Any => "any".to_owned(),
        Type::SelfType => "Self".to_owned(),
        Type::Error => "error".to_owned(),
        Type::Nil => "nil".to_owned(),
        Type::AssociatedType { self_type, name } => {
            let mut r = type_text(self_type);
            append(&mut r, "::");
            append(&mut r, name.as_str());
            r
        },
        Type::Conditional { check_type, extends_type, true_type, false_type } => {
            let mut r = type_text(check_type);
            append(&mut r, " extends ");
            let x = type_text(extends_type);
            append(&mut r, x.as_str());
            append(&mut r, " ? ");
            let y = type_text(true_type);
            append(&mut r, y.as_str());
            append(&mut r, " : ");
            let z = type_text(false_type);
            append(&mut r, z.as_str());
            r
        },
        Type::Infer(n) => {
            let mut r = "infer ".to_owned();
            append(&mut r, n.as_str());
            r
        },
        Type::Typeof(n) => {
            let mut r = "typeof ".to_owned();
            append(&mut r, n.as_str());
            r
        },
    }
}

} // verus!
