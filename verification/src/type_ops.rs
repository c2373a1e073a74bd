//! Operations on types: copying and comparing them, replacing `Self`,
//! reading receiver and argument types, and inferring type arguments.
use vstd::prelude::*;
use crate::ast::{lemma_type_views_len, type_view, type_views, Function, Param, Type, TypeParam, TypeView};
use crate::text::concat_str;
use crate::strmap::StrMap;
use crate::text::{char_is_uppercase, is_uppercase_char, str_eq};
use vstd::string::*;

verus! {

fn copy_string(s: &String) -> (r: String)
    ensures
        r == *s,
{
    s.clone()
}

fn copy_types(v: &Vec<Type>) -> (r: Vec<Type>)
    ensures
        type_views(r@) == type_views(v@),
    decreases v@,
{
    let mut r: Vec<Type> = Vec::new();
    let mut i: usize = 0;
    while i < v.len()
        invariant
            i <= v@.len(),
            type_views(r@) == type_views(v@.take(i as int)),
        decreases v@.len() - i,
    {
        let x = copy_type(&v[i]);
        let ghost before = r@;
        r.push(x);
        proof {
            assert(r@.drop_last() =~= before);
            assert(v@.take(i + 1).drop_last() =~= v@.take(i as int));
        }
        i = i + 1;
    }
    assert(v@.take(v@.len() as int) =~= v@);
    r
}

/// A copy of a type.
pub fn copy_type(t: &Type) -> (r: Type)
    ensures
        r@ == t@,
    decreases *t,
{
    match t {
        Type::Unknown => Type::Unknown,
        Type::I8 => Type::I8,
        Type::I16 => Type::I16,
        Type::I32 => Type::I32,
        Type::I64 => Type::I64,
        Type::I128 => Type::I128,
        Type::U8 => Type::U8,
        Type::U16 => Type::U16,
        Type::U32 => Type::U32,
        Type::U64 => Type::U64,
        Type::U128 => Type::U128,
        Type::F16 => Type::F16,
        Type::F32 => Type::F32,
        Type::F64 => Type::F64,
        Type::Bool => Type::Bool,
        Type::String => Type::String,
        Type::Byte => Type::Byte,
        Type::Named(n) => Type::Named(copy_string(n)),
        Type::Generic { name, type_args } => Type::Generic { name: copy_string(name), type_args: copy_types(type_args) },
        Type::Reference(inner, m) => Type::Reference(Box::new(copy_type(inner)), *m),
        Type::Array(inner, n) => Type::Array(Box::new(copy_type(inner)), *n),
        Type::ConstArray { elem_type, size_param } => Type::ConstArray {
            elem_type: Box::new(copy_type(elem_type)),
            size_param: copy_string(size_param),
        },
        Type::Slice(inner, m) => Type::Slice(Box::new(copy_type(inner)), *m),
        Type::Tuple(ts) => Type::Tuple(copy_types(ts)),
        Type::Function { params, return_type } => Type::Function {
            params: copy_types(params),
            return_type: Box::new(copy_type(return_type)),
        },
        Type::Union(ts) => Type::Union(copy_types(ts)),
        Type::Intersection(ts) => Type::Intersection(copy_types(ts)),
        Type::RawPtr { inner, is_const } => Type::RawPtr { inner: Box::new(copy_type(inner)), is_const: *is_const },
        Type::Option(inner) => Type::Option(Box::new(copy_type(inner))),
        Type::Result(ok, err) => Type::Result(Box::new(copy_type(ok)), Box::new(copy_type(err))),
        Type::Vec(inner) => Type::Vec(Box::new(copy_type(inner))),
        Type::Box(inner) => Type::Box(Box::new(copy_type(inner))),
        Type::Channel(inner) => Type::Channel(Box::new(copy_type(inner))),
        Type::Future(inner) => Type::Future(Box::new(copy_type(inner))),
        Type::Unit => Type::Unit,
        Type::Never => Type::Never,
        Type::Any => Type::Any,
        Type::SelfType => Type::SelfType,
        Type::Error => Type::Error,
        Type::Nil => Type::Nil,
        Type::AssociatedType { self_type, name } => Type::AssociatedType {
            self_type: Box::new(copy_type(self_type)),
            name: copy_string(name),
        },
        Type::Conditional { check_type, extends_type, true_type, false_type } => Type::Conditional {
            check_type: Box::new(copy_type(check_type)),
            extends_type: Box::new(copy_type(extends_type)),
            true_type: Box::new(copy_type(true_type)),
            false_type: Box::new(copy_type(false_type)),
        },
        Type::Infer(n) => Type::Infer(copy_string(n)),
        Type::Typeof(n) => Type::Typeof(copy_string(n)),
    }
}

} // verus!

verus! {

} // verus!

verus! {

// ---------------------------------------------------------------------------
// Replacing `Self`
// ---------------------------------------------------------------------------

/// `ty` with `Self` (the name `Self` or the `Self` type) replaced by the
/// named type `concrete`, at any depth: inside every type that holds other
/// types. Everything else is kept as it is.
pub open spec fn self_replaced(ty: TypeView, concrete: Seq<char>) -> TypeView
    decreases ty,
{
    match ty {
        TypeView::Named(name) => if name == "Self"@ { TypeView::Named(concrete) } else { ty },
        TypeView::SelfType => TypeView::Named(concrete),
        TypeView::Reference(inner, m) => TypeView::Reference(Box::new(self_replaced(*inner, concrete)), m),
        TypeView::Generic { name, type_args } => TypeView::Generic {
            name: if name == "Self"@ { concrete } else { name },
            type_args: self_replaced_all(type_args, concrete),
        },
        TypeView::Array(inner, n) => TypeView::Array(Box::new(self_replaced(*inner, concrete)), n),
        TypeView::Slice(inner, m) => TypeView::Slice(Box::new(self_replaced(*inner, concrete)), m),
        TypeView::Union(ts) => TypeView::Union(self_replaced_all(ts, concrete)),
        TypeView::Intersection(ts) => TypeView::Intersection(self_replaced_all(ts, concrete)),
        TypeView::ConstArray { elem_type, size_param } => TypeView::ConstArray {
            elem_type: Box::new(self_replaced(*elem_type, concrete)),
            size_param,
        },
        TypeView::Tuple(ts) => TypeView::Tuple(self_replaced_all(ts, concrete)),
        TypeView::Function { params, return_type } => TypeView::Function {
            params: self_replaced_all(params, concrete),
            return_type: Box::new(self_replaced(*return_type, concrete)),
        },
        TypeView::RawPtr { inner, is_const } => TypeView::RawPtr { inner: Box::new(self_replaced(*inner, concrete)), is_const },
        TypeView::Option(inner) => TypeView::Option(Box::new(self_replaced(*inner, concrete))),
        TypeView::Result(ok, err) => TypeView::Result(
            Box::new(self_replaced(*ok, concrete)),
            Box::new(self_replaced(*err, concrete)),
        ),
        TypeView::Vec(inner) => TypeView::Vec(Box::new(self_replaced(*inner, concrete))),
        TypeView::Box(inner) => TypeView::Box(Box::new(self_replaced(*inner, concrete))),
        TypeView::Channel(inner) => TypeView::Channel(Box::new(self_replaced(*inner, concrete))),
        TypeView::Future(inner) => TypeView::Future(Box::new(self_replaced(*inner, concrete))),
        TypeView::AssociatedType { self_type, name } => TypeView::AssociatedType {
            self_type: Box::new(self_replaced(*self_type, concrete)),
            name,
        },
        TypeView::Conditional { check_type, extends_type, true_type, false_type } => TypeView::Conditional {
            check_type: Box::new(self_replaced(*check_type, concrete)),
            extends_type: Box::new(self_replaced(*extends_type, concrete)),
            true_type: Box::new(self_replaced(*true_type, concrete)),
            false_type: Box::new(self_replaced(*false_type, concrete)),
        },
        _ => ty,
    }
}

pub open spec fn self_replaced_all(ts: Seq<TypeView>, concrete: Seq<char>) -> Seq<TypeView>
    decreases ts,
{
    if ts.len() == 0 {
        Seq::empty()
    } else {
        self_replaced_all(ts.drop_last(), concrete).push(self_replaced(ts.last(), concrete))
    }
}

fn replace_self_in_all(ts: &Vec<Type>, concrete_type: &str) -> (r: Vec<Type>)
    ensures
        type_views(r@) == self_replaced_all(type_views(ts@), concrete_type@),
    decreases ts@,
{
    let mut r: Vec<Type> = Vec::new();
    let mut i: usize = 0;
    while i < ts.len()
        invariant
            i <= ts@.len(),
            type_views(r@) == self_replaced_all(type_views(ts@.take(i as int)), concrete_type@),
        decreases ts@.len() - i,
    {
        let x = replace_self_in_type(&ts[i], concrete_type);
        let ghost before = r@;
        r.push(x);
        proof {
            assert(r@.drop_last() =~= before);
            assert(ts@.take(i + 1).drop_last() =~= ts@.take(i as int));
            assert(type_views(ts@.take(i + 1)).drop_last() =~= type_views(ts@.take(i as int)));
        }
        i = i + 1;
    }
    assert(ts@.take(ts@.len() as int) =~= ts@);
    r
}

/// Replaces `Self` with the concrete struct name `concrete_type` (see
/// `self_replaced`).
pub fn replace_self_in_type(ty: &Type, concrete_type: &str) -> (r: Type)
    ensures
        r@ == self_replaced(ty@, concrete_type@),
    decreases *ty,
{
    match ty {
        Type::Named(name) => {
            if str_eq(name.as_str(), "Self") {
                Type::Named(concrete_type.to_owned())
            } else {
                copy_type(ty)
            }
        }
        Type::SelfType => Type::Named(concrete_type.to_owned()),
        Type::Reference(inner, is_mut) => Type::Reference(Box::new(replace_self_in_type(inner, concrete_type)), *is_mut),
        Type::Generic { name, type_args } => {
            let new_name = if str_eq(name.as_str(), "Self") { concrete_type.to_owned() } else { name.clone() };
            Type::Generic { name: new_name, type_args: replace_self_in_all(type_args, concrete_type) }
        }
        Type::Array(inner, size) => Type::Array(Box::new(replace_self_in_type(inner, concrete_type)), *size),
        Type::Slice(inner, is_mut) => Type::Slice(Box::new(replace_self_in_type(inner, concrete_type)), *is_mut),
        Type::Union(types) => Type::Union(replace_self_in_all(types, concrete_type)),
        Type::Intersection(types) => Type::Intersection(replace_self_in_all(types, concrete_type)),
        Type::ConstArray { elem_type, size_param } => Type::ConstArray {
            elem_type: Box::new(replace_self_in_type(elem_type, concrete_type)),
            size_param: size_param.clone(),
        },
        Type::Tuple(types) => Type::Tuple(replace_self_in_all(types, concrete_type)),
        Type::Function { params, return_type } => Type::Function {
            params: replace_self_in_all(params, concrete_type),
            return_type: Box::new(replace_self_in_type(return_type, concrete_type)),
        },
        Type::RawPtr { inner, is_const } => Type::RawPtr {
            inner: Box::new(replace_self_in_type(inner, concrete_type)),
            is_const: *is_const,
        },
        Type::Option(inner) => Type::Option(Box::new(replace_self_in_type(inner, concrete_type))),
        Type::Result(ok, err) => Type::Result(
            Box::new(replace_self_in_type(ok, concrete_type)),
            Box::new(replace_self_in_type(err, concrete_type)),
        ),
        Type::Vec(inner) => Type::Vec(Box::new(replace_self_in_type(inner, concrete_type))),
        Type::Box(inner) => Type::Box(Box::new(replace_self_in_type(inner, concrete_type))),
        Type::Channel(inner) => Type::Channel(Box::new(replace_self_in_type(inner, concrete_type))),
        Type::Future(inner) => Type::Future(Box::new(replace_self_in_type(inner, concrete_type))),
        Type::AssociatedType { self_type, name } => Type::AssociatedType {
            self_type: Box::new(replace_self_in_type(self_type, concrete_type)),
            name: name.clone(),
        },
        Type::Conditional { check_type, extends_type, true_type, false_type } => Type::Conditional {
            check_type: Box::new(replace_self_in_type(check_type, concrete_type)),
            extends_type: Box::new(replace_self_in_type(extends_type, concrete_type)),
            true_type: Box::new(replace_self_in_type(true_type, concrete_type)),
            false_type: Box::new(replace_self_in_type(false_type, concrete_type)),
        },
        _ => copy_type(ty),
    }
}

// ---------------------------------------------------------------------------
// Reading receiver and argument types
// ---------------------------------------------------------------------------

/// The struct a method receiver type belongs to: through references, the
/// name of a named or generic type, or `Vec`, `Box`, `Option`, `Result`.
pub open spec fn receiver_struct_name(ty: TypeView) -> Option<Seq<char>>
    decreases ty,
{
    match ty {
        TypeView::Reference(inner, _) => receiver_struct_name(*inner),
        TypeView::Named(name) => Some(name),
        TypeView::Generic { name, .. } => Some(name),
        TypeView::Vec(_) => Some("Vec"@),
        TypeView::Box(_) => Some("Box"@),
        TypeView::Option(_) => Some("Option"@),
        TypeView::Result(_, _) => Some("Result"@),
        _ => None,
    }
}

/// The struct name of a receiver type (see `receiver_struct_name`).
pub fn extract_struct_name_from_receiver(ty: &Type) -> (r: Option<String>)
    ensures
        match r {
            Some(s) => receiver_struct_name(ty@) == Some(s@),
            None => receiver_struct_name(ty@) is None,
        },
    decreases *ty,
{
    match ty {
        Type::Reference(inner, _) => extract_struct_name_from_receiver(inner),
        Type::Named(name) => Some(name.clone()),
        Type::Generic { name, .. } => Some(name.clone()),
        Type::Vec(_) => Some("Vec".to_owned()),
        Type::Box(_) => Some("Box".to_owned()),
        Type::Option(_) => Some("Option".to_owned()),
        Type::Result(_, _) => Some("Result".to_owned()),
        _ => None,
    }
}

/// The type arguments a type carries, through references: the element of
/// `Vec`, `Box` and `Option`, the two of `Result`, those of a generic type;
/// none for any other type.
pub open spec fn carried_type_args(ty: TypeView) -> Seq<TypeView>
    decreases ty,
{
    match ty {
        TypeView::Reference(inner, _) => carried_type_args(*inner),
        TypeView::Vec(e) => seq![*e],
        TypeView::Box(e) => seq![*e],
        TypeView::Option(e) => seq![*e],
        TypeView::Result(ok, err) => seq![*ok, *err],
        TypeView::Generic { type_args, .. } => type_args,
        _ => Seq::empty(),
    }
}

/// The type arguments of a type (see `carried_type_args`); never an error.
pub fn extract_type_args_from_type(ty: &Type) -> (r: Result<Vec<Type>, String>)
    ensures
        r matches Ok(v) && type_views(v@) == carried_type_args(ty@),
    decreases *ty,
{
    let r = match ty {
        Type::Reference(inner, _) => {
            return extract_type_args_from_type(inner);
        }
        Type::Vec(e) => vec![copy_type(e)],
        Type::Box(e) => vec![copy_type(e)],
        Type::Option(e) => vec![copy_type(e)],
        Type::Result(ok, err) => vec![copy_type(ok), copy_type(err)],
        Type::Generic { type_args, .. } => copy_types(type_args),
        _ => Vec::new(),
    };
    proof {
        lemma_type_views_len(r@);
        match ty {
            Type::Vec(e) => { assert(type_views(r@) =~= seq![type_view(**e)]); }
            Type::Box(e) => { assert(type_views(r@) =~= seq![type_view(**e)]); }
            Type::Option(e) => { assert(type_views(r@) =~= seq![type_view(**e)]); }
            Type::Result(ok, err) => { assert(type_views(r@) =~= seq![type_view(**ok), type_view(**err)]); }
            Type::Generic { .. } => {}
            _ => { assert(type_views(r@) =~= Seq::<TypeView>::empty()); }
        }
    }
    Ok(r)
}

/// The type a part of a mangled name stands for: a primitive type's name,
/// or else a named type.
pub open spec fn mangled_part_type(part: Seq<char>) -> TypeView {
    if part == "i8"@ { TypeView::I8 }
    else if part == "i16"@ { TypeView::I16 }
    else if part == "i32"@ { TypeView::I32 }
    else if part == "i64"@ { TypeView::I64 }
    else if part == "u8"@ { TypeView::U8 }
    else if part == "u16"@ { TypeView::U16 }
    else if part == "u32"@ { TypeView::U32 }
    else if part == "u64"@ { TypeView::U64 }
    else if part == "f32"@ { TypeView::F32 }
    else if part == "f64"@ { TypeView::F64 }
    else if part == "bool"@ { TypeView::Bool }
    else if part == "string"@ { TypeView::String }
    else { TypeView::Named(part) }
}

fn part_type(part: &str) -> (r: Type)
    ensures
        r@ == mangled_part_type(part@),
{
    if str_eq(part, "i8") { Type::I8 }
    else if str_eq(part, "i16") { Type::I16 }
    else if str_eq(part, "i32") { Type::I32 }
    else if str_eq(part, "i64") { Type::I64 }
    else if str_eq(part, "u8") { Type::U8 }
    else if str_eq(part, "u16") { Type::U16 }
    else if str_eq(part, "u32") { Type::U32 }
    else if str_eq(part, "u64") { Type::U64 }
    else if str_eq(part, "f32") { Type::F32 }
    else if str_eq(part, "f64") { Type::F64 }
    else if str_eq(part, "bool") { Type::Bool }
    else if str_eq(part, "string") { Type::String }
    else { Type::Named(part.to_owned()) }
}

/// The types that the parts of a mangled name stand for.
pub open spec fn mangled_parts_types(parts: Seq<&str>) -> Seq<TypeView> {
    parts.map_values(|p: &str| mangled_part_type(p@))
}

pub open spec fn no_type_args_message() -> Seq<char> {
    "No type arguments could be parsed from mangled name"@
}

/// Reads type arguments from the parts of a mangled name, one type per
/// part; an error when there are no parts.
pub fn parse_type_args_from_mangled_name(parts: &[&str]) -> (r: Result<Vec<Type>, String>)
    ensures
        parts@.len() == 0 ==> (r matches Err(e) && e@ == no_type_args_message()),
        parts@.len() > 0 ==> (r matches Ok(v) && type_views(v@) == mangled_parts_types(parts@)),
{
    let mut type_args: Vec<Type> = Vec::new();
    let mut i: usize = 0;
    while i < parts.len()
        invariant
            i <= parts@.len(),
            type_views(type_args@) == mangled_parts_types(parts@).take(i as int),
        decreases parts@.len() - i,
    {
        let t = part_type(parts[i]);
        let ghost before = type_args@;
        type_args.push(t);
        proof {
            assert(type_args@.drop_last() =~= before);
            assert(mangled_parts_types(parts@).take(i + 1) =~= mangled_parts_types(parts@).take(i as int).push(t@));
        }
        i = i + 1;
    }
    if type_args.len() == 0 {
        return Err("No type arguments could be parsed from mangled name".to_owned());
    }
    assert(mangled_parts_types(parts@).take(parts@.len() as int) =~= mangled_parts_types(parts@));
    Ok(type_args)
}

} // verus!

verus! {

// ---------------------------------------------------------------------------
// Inferring type arguments
// ---------------------------------------------------------------------------

/// A name that is taken for a type parameter: one starting with an
/// uppercase letter.
pub open spec fn is_type_param_name(n: Seq<char>) -> bool {
    n.len() > 0 && is_uppercase_char(n[0])
}

/// The values of a map of types.
pub open spec fn types_map(m: Map<Seq<char>, Type>) -> Map<Seq<char>, TypeView> {
    m.map_values(|t: Type| t@)
}

/// Matches a parameter type against an argument type, recording what each
/// type parameter stands for: a type-parameter name takes the whole
/// argument type; tuples, references, `Option`, `Result`, `Vec` and
/// generic types with the same name are matched component by component
/// when the argument has the same shape; anything else records nothing.
pub open spec fn match_params(p: TypeView, a: TypeView, m: Map<Seq<char>, TypeView>) -> Map<Seq<char>, TypeView>
    decreases p, 0int,
{
    match p {
        TypeView::Named(name) => if is_type_param_name(name) { m.insert(name, a) } else { m },
        TypeView::Tuple(ps) => match a {
            TypeView::Tuple(args) => match_list(ps, args, 0, m),
            _ => m,
        },
        TypeView::Reference(ip, _) => match a {
            TypeView::Reference(ia, _) => match_params(*ip, *ia, m),
            _ => m,
        },
        TypeView::Option(ip) => match a {
            TypeView::Option(ia) => match_params(*ip, *ia, m),
            _ => m,
        },
        TypeView::Result(okp, errp) => match a {
            TypeView::Result(oka, erra) => match_params(*errp, *erra, match_params(*okp, *oka, m)),
            _ => m,
        },
        TypeView::Vec(ip) => match a {
            TypeView::Vec(ia) => match_params(*ip, *ia, m),
            _ => m,
        },
        TypeView::Generic { name, type_args } => match a {
            TypeView::Generic { name: arg_name, type_args: arg_args } =>
                if name == arg_name { match_list(type_args, arg_args, 0, m) } else { m },
            _ => m,
        },
        _ => m,
    }
}

/// Matches `ps[i..]` against `args[i..]` pairwise, as far as both go.
pub open spec fn match_list(ps: Seq<TypeView>, args: Seq<TypeView>, i: int, m: Map<Seq<char>, TypeView>) -> Map<Seq<char>, TypeView>
    decreases ps, ps.len() - i,
{
    if i < 0 || i >= ps.len() || i >= args.len() {
        m
    } else {
        match_list(ps, args, i + 1, match_params(ps[i], args[i], m))
    }
}

fn match_type_list(ps: &Vec<Type>, args: &Vec<Type>, map: &mut StrMap<Type>)
    ensures
        types_map(final(map).view()) == match_list(type_views(ps@), type_views(args@), 0, types_map(old(map).view())),
    decreases ps@,
{
    let ghost pv = type_views(ps@);
    let ghost av = type_views(args@);
    proof {
        lemma_type_views_len(ps@);
        lemma_type_views_len(args@);
    }
    let mut i: usize = 0;
    while i < ps.len() && i < args.len()
        invariant
            pv == type_views(ps@),
            av == type_views(args@),
            pv.len() == ps@.len(),
            av.len() == args@.len(),
            forall|j: int| #![trigger pv[j]] 0 <= j < ps@.len() ==> pv[j] == type_view(ps@[j]),
            forall|j: int| #![trigger av[j]] 0 <= j < args@.len() ==> av[j] == type_view(args@[j]),
            i <= ps@.len(),
            match_list(pv, av, 0, types_map(old(map).view())) == match_list(pv, av, i as int, types_map(map.view())),
        decreases ps@.len() - i,
    {
        assert(pv[i as int] == type_view(ps@[i as int]));
        assert(av[i as int] == type_view(args@[i as int]));
        match_type_param(&ps[i], &args[i], map);
        i = i + 1;
    }
}

/// Matches a parameter type against an argument type (see
/// `match_params`), recording into `type_param_map`.
pub fn match_type_param(param_ty: &Type, arg_ty: &Type, type_param_map: &mut StrMap<Type>)
    ensures
        types_map(final(type_param_map).view()) == match_params(param_ty@, arg_ty@, types_map(old(type_param_map).view())),
    decreases *param_ty, 0int,
{
    match param_ty {
        Type::Named(name) => {
            if name.as_str().unicode_len() > 0 && char_is_uppercase(name.as_str().get_char(0)) {
                let t = copy_type(arg_ty);
                let ghost t_view = t@;
                type_param_map.insert(name.clone(), t);
                assert(types_map(type_param_map.view()) =~= types_map(old(type_param_map).view()).insert(name@, t_view));
            }
        }
        Type::Tuple(param_types) => {
            if let Type::Tuple(arg_types) = arg_ty {
                match_type_list(param_types, arg_types, type_param_map);
            }
        }
        Type::Reference(inner_param, _) => {
            if let Type::Reference(inner_arg, _) = arg_ty {
                match_type_param(inner_param, inner_arg, type_param_map);
            }
        }
        Type::Option(inner_param) => {
            if let Type::Option(inner_arg) = arg_ty {
                match_type_param(inner_param, inner_arg, type_param_map);
            }
        }
        Type::Result(ok_param, err_param) => {
            if let Type::Result(ok_arg, err_arg) = arg_ty {
                match_type_param(ok_param, ok_arg, type_param_map);
                match_type_param(err_param, err_arg, type_param_map);
            }
        }
        Type::Vec(inner_param) => {
            if let Type::Vec(inner_arg) = arg_ty {
                match_type_param(inner_param, inner_arg, type_param_map);
            }
        }
        Type::Generic { name, type_args } => {
            if let Type::Generic { name: arg_name, type_args: arg_type_args } = arg_ty {
                if str_eq(name.as_str(), arg_name.as_str()) {
                    match_type_list(type_args, arg_type_args, type_param_map);
                }
            }
        }
        _ => {}
    }
}

/// The parameter types of a parameter list, as values.
pub open spec fn param_type_views(ps: Seq<Param>) -> Seq<TypeView> {
    ps.map_values(|p: Param| p.ty@)
}

pub open spec fn cannot_infer_message(param: Seq<char>, func: Seq<char>) -> Seq<char> {
    "Cannot infer type parameter '"@ + param + "' for function '"@ + func + "'"@
}

/// The type arguments for `tps[i..]`, in order, from what matching
/// recorded; an error naming the first type parameter nothing was recorded
/// for.
pub open spec fn type_args_in_order(
    tps: Seq<TypeParam>,
    i: int,
    m: Map<Seq<char>, TypeView>,
    func: Seq<char>,
) -> Result<Seq<TypeView>, Seq<char>>
    decreases tps.len() - i,
{
    if i < 0 || i >= tps.len() {
        Ok(Seq::empty())
    } else if !m.dom().contains(tps[i].name@) {
        Err(cannot_infer_message(tps[i].name@, func))
    } else {
        match type_args_in_order(tps, i + 1, m, func) {
            Ok(rest) => Ok(seq![m[tps[i].name@]] + rest),
            Err(e) => Err(e),
        }
    }
}

/// The type arguments inferred for a call of `f` whose arguments have the
/// types `arg_types`: no type parameters give no type arguments; otherwise
/// each parameter type is matched against its argument type (as far as
/// there are arguments), and each type parameter takes what was recorded
/// for it.
pub open spec fn inferred_type_args(f: Function, arg_types: Seq<TypeView>) -> Result<Seq<TypeView>, Seq<char>> {
    if f.type_params@.len() == 0 {
        Ok(Seq::empty())
    } else {
        type_args_in_order(
            f.type_params@,
            0,
            match_list(param_type_views(f.params@), arg_types, 0, Map::empty()),
            f.name@,
        )
    }
}

/// Infers the type arguments of a call of the generic function `func_def`
/// from the types of its arguments (see `inferred_type_args`).
pub fn infer_type_args_from_call(func_def: &Function, arg_types: &[Type]) -> (r: Result<Vec<Type>, String>)
    ensures
        match inferred_type_args(*func_def, type_views(arg_types@)) {
            Ok(ts) => r matches Ok(v) && type_views(v@) == ts,
            Err(m) => r matches Err(e) && e@ == m,
        },
{
    if func_def.type_params.len() == 0 {
        let v: Vec<Type> = Vec::new();
        assert(type_views(v@) =~= Seq::<TypeView>::empty());
        return Ok(v);
    }
    let ghost pv = param_type_views(func_def.params@);
    let ghost av = type_views(arg_types@);
    proof { lemma_type_views_len(arg_types@); }
    let mut map: StrMap<Type> = StrMap::new();
    assert(types_map(map.view()) =~= Map::<Seq<char>, TypeView>::empty());
    let mut i: usize = 0;
    while i < func_def.params.len() && i < arg_types.len()
        invariant
            pv == param_type_views(func_def.params@),
            av == type_views(arg_types@),
            av.len() == arg_types@.len(),
            forall|j: int| #![trigger av[j]] 0 <= j < arg_types@.len() ==> av[j] == type_view(arg_types@[j]),
            i <= func_def.params@.len(),
            match_list(pv, av, 0, Map::empty()) == match_list(pv, av, i as int, types_map(map.view())),
        decreases func_def.params@.len() - i,
    {
        assert(pv[i as int] == func_def.params@[i as int].ty@);
        assert(av[i as int] == type_view(arg_types@[i as int]));
        match_type_param(&func_def.params[i].ty, &arg_types[i], &mut map);
        i = i + 1;
    }
    assert(match_list(pv, av, i as int, types_map(map.view())) == types_map(map.view()));
    let ghost m = types_map(map.view());
    let mut type_args: Vec<Type> = Vec::new();
    assert(type_views(type_args@) + Seq::<TypeView>::empty() =~= Seq::<TypeView>::empty());
    let mut j: usize = 0;
    while j < func_def.type_params.len()
        invariant
            m == types_map(map.view()),
            m == match_list(pv, av, 0, Map::empty()),
            pv == param_type_views(func_def.params@),
            av == type_views(arg_types@),
            func_def.type_params@.len() > 0,
            j <= func_def.type_params@.len(),
            type_args_in_order(func_def.type_params@, 0, m, func_def.name@)
                == match type_args_in_order(func_def.type_params@, j as int, m, func_def.name@) {
                    Ok(rest) => Ok(type_views(type_args@) + rest),
                    Err(e) => Err(e),
                },
        decreases func_def.type_params@.len() - j,
    {
        let tp = &func_def.type_params[j];
        match map.get(tp.name.as_str()) {
            Some(t) => {
                let c = copy_type(t);
                let ghost before = type_args@;
                type_args.push(c);
                proof {
                    assert(type_args@.drop_last() =~= before);
                    match type_args_in_order(func_def.type_params@, j + 1, m, func_def.name@) {
                        Ok(rest) => {
                            assert(type_views(before) + (seq![c@] + rest) =~= type_views(type_args@) + rest);
                        }
                        Err(_) => {}
                    }
                }
            }
            None => {
                let msg = concat_str(concat_str(concat_str(concat_str("Cannot infer type parameter '", tp.name.as_str()).as_str(), "' for function '").as_str(), func_def.name.as_str()).as_str(), "'");
                assert(msg@ =~= cannot_infer_message(tp.name@, func_def.name@));
                return Err(msg);
            }
        }
        j = j + 1;
    }
    assert(type_views(type_args@) + Seq::<TypeView>::empty() =~= type_views(type_args@));
    Ok(type_args)
}

// ---------------------------------------------------------------------------
// Comparing types
// ---------------------------------------------------------------------------

/// Whether two types are the same.
pub fn types_equal(a: &Type, b: &Type) -> (r: bool)
    ensures
        r == (a@ == b@),
    decreases *a,
{
    match (a, b) {
        (Type::Named(x), Type::Named(y)) => str_eq(x.as_str(), y.as_str()),
        (Type::Generic { name: n1, type_args: a1 }, Type::Generic { name: n2, type_args: a2 }) => {
            str_eq(n1.as_str(), n2.as_str()) && type_lists_equal(a1, a2)
        }
        (Type::Reference(i1, m1), Type::Reference(i2, m2)) => *m1 == *m2 && types_equal(i1, i2),
        (Type::Array(i1, n1), Type::Array(i2, n2)) => *n1 == *n2 && types_equal(i1, i2),
        (Type::ConstArray { elem_type: e1, size_param: s1 }, Type::ConstArray { elem_type: e2, size_param: s2 }) => {
            str_eq(s1.as_str(), s2.as_str()) && types_equal(e1, e2)
        }
        (Type::Slice(i1, m1), Type::Slice(i2, m2)) => *m1 == *m2 && types_equal(i1, i2),
        (Type::Tuple(x), Type::Tuple(y)) => type_lists_equal(x, y),
        (Type::Function { params: p1, return_type: r1 }, Type::Function { params: p2, return_type: r2 }) => {
            type_lists_equal(p1, p2) && types_equal(r1, r2)
        }
        (Type::Union(x), Type::Union(y)) => type_lists_equal(x, y),
        (Type::Intersection(x), Type::Intersection(y)) => type_lists_equal(x, y),
        (Type::RawPtr { inner: i1, is_const: c1 }, Type::RawPtr { inner: i2, is_const: c2 }) => {
            *c1 == *c2 && types_equal(i1, i2)
        }
        (Type::Option(x), Type::Option(y)) => types_equal(x, y),
        (Type::Result(o1, e1), Type::Result(o2, e2)) => types_equal(o1, o2) && types_equal(e1, e2),
        (Type::Vec(x), Type::Vec(y)) => types_equal(x, y),
        (Type::Box(x), Type::Box(y)) => types_equal(x, y),
        (Type::Channel(x), Type::Channel(y)) => types_equal(x, y),
        (Type::Future(x), Type::Future(y)) => types_equal(x, y),
        (Type::AssociatedType { self_type: t1, name: n1 }, Type::AssociatedType { self_type: t2, name: n2 }) => {
            str_eq(n1.as_str(), n2.as_str()) && types_equal(t1, t2)
        }
        (
            Type::Conditional { check_type: c1, extends_type: x1, true_type: t1, false_type: f1 },
            Type::Conditional { check_type: c2, extends_type: x2, true_type: t2, false_type: f2 },
        ) => types_equal(c1, c2) && types_equal(x1, x2) && types_equal(t1, t2) && types_equal(f1, f2),
        (Type::Infer(x), Type::Infer(y)) => str_eq(x.as_str(), y.as_str()),
        (Type::Typeof(x), Type::Typeof(y)) => str_eq(x.as_str(), y.as_str()),
        (Type::Unknown, Type::Unknown) | (Type::I8, Type::I8) | (Type::I16, Type::I16) | (Type::I32, Type::I32)
        | (Type::I64, Type::I64) | (Type::I128, Type::I128) | (Type::U8, Type::U8) | (Type::U16, Type::U16)
        | (Type::U32, Type::U32) | (Type::U64, Type::U64) | (Type::U128, Type::U128) | (Type::F16, Type::F16)
        | (Type::F32, Type::F32) | (Type::F64, Type::F64) | (Type::Bool, Type::Bool) | (Type::String, Type::String)
        | (Type::Byte, Type::Byte) | (Type::Unit, Type::Unit) | (Type::Never, Type::Never) | (Type::Any, Type::Any)
        | (Type::SelfType, Type::SelfType) | (Type::Error, Type::Error) | (Type::Nil, Type::Nil) => true,
        _ => false,
    }
}

/// Whether two lists of types are the same.
pub fn type_lists_equal(a: &Vec<Type>, b: &Vec<Type>) -> (r: bool)
    ensures
        r == (type_views(a@) == type_views(b@)),
    decreases a@,
{
    proof {
        lemma_type_views_len(a@);
        lemma_type_views_len(b@);
    }
    if a.len() != b.len() {
        return false;
    }
    let mut i: usize = 0;
    while i < a.len()
        invariant
            a@.len() == b@.len(),
            type_views(a@).len() == a@.len(),
            type_views(b@).len() == b@.len(),
            forall|k: int| #![trigger type_views(a@)[k]] 0 <= k < a@.len() ==> type_views(a@)[k] == type_view(a@[k]),
            forall|k: int| #![trigger type_views(b@)[k]] 0 <= k < b@.len() ==> type_views(b@)[k] == type_view(b@[k]),
            i <= a@.len(),
            forall|k: int| 0 <= k < i ==> type_views(a@)[k] == type_views(b@)[k],
        decreases a@.len() - i,
    {
        proof {
            vstd::std_specs::vec::axiom_vec_index_decreases(*a, i as int);
        }
        if !types_equal(&a[i], &b[i]) {
            assert(type_views(a@)[i as int] != type_views(b@)[i as int]);
            return false;
        }
        i = i + 1;
    }
    assert(type_views(a@) =~= type_views(b@));
    true
}

} // verus!

verus! {

// ---------------------------------------------------------------------------
// Generic nesting depth
// ---------------------------------------------------------------------------

/// The largest generic nesting depth that instantiation accepts.
pub const MAX_GENERIC_DEPTH: usize = 64;

/// How deeply generic types nest in a type: a generic type, or one of the
/// generic containers `Vec`, `Box`, `Option`, `Result`, `Channel` and
/// `Future`, is one level deeper than the deepest of its type arguments;
/// other compound types are as deep as their deepest component; other
/// types have depth 0.
pub open spec fn generic_depth(t: TypeView) -> nat
    decreases t,
{
    match t {
        TypeView::Generic { type_args, .. } => 1 + generic_depth_max(type_args),
        TypeView::Vec(i) => 1 + generic_depth(*i),
        TypeView::Box(i) => 1 + generic_depth(*i),
        TypeView::Option(i) => 1 + generic_depth(*i),
        TypeView::Channel(i) => 1 + generic_depth(*i),
        TypeView::Future(i) => 1 + generic_depth(*i),
        TypeView::Result(a, b) => 1 + nat_max(generic_depth(*a), generic_depth(*b)),
        TypeView::Reference(i, _) => generic_depth(*i),
        TypeView::Array(i, _) => generic_depth(*i),
        TypeView::Slice(i, _) => generic_depth(*i),
        TypeView::RawPtr { inner, .. } => generic_depth(*inner),
        TypeView::ConstArray { elem_type, .. } => generic_depth(*elem_type),
        TypeView::Tuple(ts) => generic_depth_max(ts),
        TypeView::Union(ts) => generic_depth_max(ts),
        TypeView::Intersection(ts) => generic_depth_max(ts),
        TypeView::Function { params, return_type } => nat_max(generic_depth_max(params), generic_depth(*return_type)),
        _ => 0,
    }
}

/// The deepest generic nesting among types (0 for none).
pub open spec fn generic_depth_max(ts: Seq<TypeView>) -> nat
    decreases ts,
{
    if ts.len() == 0 {
        0
    } else {
        nat_max(generic_depth_max(ts.drop_last()), generic_depth(ts.last()))
    }
}

pub open spec fn nat_max(a: nat, b: nat) -> nat {
    if a >= b { a } else { b }
}

/// A depth as a `usize`, saturating at `usize::MAX`.
pub open spec fn capped(n: nat) -> usize {
    if n <= usize::MAX { n as usize } else { usize::MAX }
}

fn one_deeper(d: usize, Ghost(n): Ghost<nat>) -> (r: usize)
    requires
        d == capped(n),
    ensures
        r == capped(n + 1),
{
    if d < usize::MAX { d + 1 } else { usize::MAX }
}

fn deeper_of(a: usize, b: usize, Ghost(m): Ghost<nat>, Ghost(n): Ghost<nat>) -> (r: usize)
    requires
        a == capped(m),
        b == capped(n),
    ensures
        r == capped(nat_max(m, n)),
{
    if a >= b { a } else { b }
}

fn generic_depth_of_all(ts: &Vec<Type>) -> (r: usize)
    ensures
        r == capped(generic_depth_max(type_views(ts@))),
    decreases ts@,
{
    let mut r: usize = 0;
    let mut i: usize = 0;
    proof {
        assert(ts@.take(0) =~= Seq::<Type>::empty());
    }
    while i < ts.len()
        invariant
            i <= ts@.len(),
            r == capped(generic_depth_max(type_views(ts@.take(i as int)))),
        decreases ts@.len() - i,
    {
        proof {
            lemma_type_views_len(ts@.take(i + 1));
            assert(ts@.take(i + 1).drop_last() =~= ts@.take(i as int));
            assert(type_views(ts@.take(i + 1)).drop_last() =~= type_views(ts@.take(i as int)));
            assert(type_views(ts@.take(i + 1)).last() == ts@[i as int]@);
        }
        let d = generic_depth_of(&ts[i]);
        r = deeper_of(r, d, Ghost(generic_depth_max(type_views(ts@.take(i as int)))), Ghost(generic_depth(ts@[i as int]@)));
        i = i + 1;
    }
    assert(ts@.take(ts@.len() as int) =~= ts@);
    r
}

/// The generic nesting depth of a type (see `generic_depth`), saturating
/// at `usize::MAX`.
pub fn generic_depth_of(ty: &Type) -> (r: usize)
    ensures
        r == capped(generic_depth(ty@)),
    decreases ty,
{
    match ty {
        Type::Generic { type_args, .. } => one_deeper(generic_depth_of_all(type_args), Ghost(generic_depth_max(type_views(type_args@)))),
        Type::Vec(i) => one_deeper(generic_depth_of(i), Ghost(generic_depth((**i)@))),
        Type::Box(i) => one_deeper(generic_depth_of(i), Ghost(generic_depth((**i)@))),
        Type::Option(i) => one_deeper(generic_depth_of(i), Ghost(generic_depth((**i)@))),
        Type::Channel(i) => one_deeper(generic_depth_of(i), Ghost(generic_depth((**i)@))),
        Type::Future(i) => one_deeper(generic_depth_of(i), Ghost(generic_depth((**i)@))),
        Type::Result(a, b) => {
            let x = generic_depth_of(a);
            let y = generic_depth_of(b);
            let ghost m = generic_depth((**a)@);
            let ghost n = generic_depth((**b)@);
            one_deeper(deeper_of(x, y, Ghost(m), Ghost(n)), Ghost(nat_max(m, n)))
        },
        Type::Reference(i, _) => generic_depth_of(i),
        Type::Array(i, _) => generic_depth_of(i),
        Type::Slice(i, _) => generic_depth_of(i),
        Type::RawPtr { inner, .. } => generic_depth_of(inner),
        Type::ConstArray { elem_type, .. } => generic_depth_of(elem_type),
        Type::Tuple(ts) => generic_depth_of_all(ts),
        Type::Union(ts) => generic_depth_of_all(ts),
        Type::Intersection(ts) => generic_depth_of_all(ts),
        Type::Function { params, return_type } => {
            let x = generic_depth_of_all(params);
            let y = generic_depth_of(return_type);
            deeper_of(x, y, Ghost(generic_depth_max(type_views(params@))), Ghost(generic_depth((**return_type)@)))
        },
        _ => 0,
    }
}

} // verus!
