//! Name mangling: type suffixes for overload resolution, mangled function
//! names, and operator method names that LLVM accepts.
use vstd::prelude::*;
use crate::ast::{Function, Param, Type};
use crate::text::{concat_str, push_char, starts_with, str_eq};
use vstd::string::*;

verus! {

/// The character of a decimal digit.
pub open spec fn digit_char(d: nat) -> char {
    (d + 48) as char
}

/// The decimal notation of a number.
pub open spec fn decimal(n: nat) -> Seq<char>
    decreases n,
{
    if n < 10 {
        seq![digit_char(n)]
    } else {
        decimal(n / 10) + seq![digit_char(n % 10)]
    }
}

/// Appends the decimal notation of `n`.
pub fn push_decimal(s: &mut String, n: usize)
    ensures
        final(s)@ == old(s)@ + decimal(n as nat),
    decreases n,
{
    if n >= 10 {
        push_decimal(s, n / 10);
    }
    let d: u8 = (n % 10) as u8;
    let c = (d + 48u8) as char;
    assert(c == digit_char((n % 10) as nat));
    push_char(s, c);
    assert(final(s)@ =~= old(s)@ + decimal(n as nat));
}

/// The mangling suffix of a type: a leading underscore and a name for each
/// type constructor, with the suffixes of its components after it.
pub open spec fn type_suffix(t: Type) -> Seq<char>
    decreases t,
{
    match t {
        Type::Unknown => "_unknown"@,
        Type::I8 => "_i8"@,
        Type::I16 => "_i16"@,
        Type::I32 => "_i32"@,
        Type::I64 => "_i64"@,
        Type::I128 => "_i128"@,
        Type::U8 => "_u8"@,
        Type::U16 => "_u16"@,
        Type::U32 => "_u32"@,
        Type::U64 => "_u64"@,
        Type::U128 => "_u128"@,
        Type::F16 => "_f16"@,
        Type::F32 => "_f32"@,
        Type::F64 => "_f64"@,
        Type::Bool => "_bool"@,
        Type::String => "_String"@,
        Type::Byte => "_byte"@,
        Type::Named(name) => "_"@ + name@,
        Type::Generic { name, type_args } => "_"@ + name@ + type_suffixes(type_args@),
        Type::Reference(inner, is_mutable) => (if is_mutable { "_refmut"@ } else { "_ref"@ }) + type_suffix(*inner),
        Type::Array(elem, size) => "_arr"@ + decimal(size as nat) + type_suffix(*elem),
        Type::ConstArray { elem_type, size_param } => "_arr"@ + size_param@ + type_suffix(*elem_type),
        Type::Slice(elem, is_mutable) => (if is_mutable { "_slicemut"@ } else { "_slice"@ }) + type_suffix(*elem),
        Type::Tuple(elements) => "_tuple"@ + type_suffixes(elements@),
        Type::Function { params, return_type } => "_fn"@ + type_suffixes(params@) + "_ret"@ + type_suffix(*return_type),
        Type::Union(types) => "_union"@ + type_suffixes(types@),
        Type::Intersection(types) => "_inter"@ + type_suffixes(types@),
        Type::RawPtr { inner, is_const } => (if is_const { "_constptr"@ } else { "_ptr"@ }) + type_suffix(*inner),
        Type::Option(inner) => "_Option"@ + type_suffix(*inner),
        Type::Result(ok, err) => "_Result"@ + type_suffix(*ok) + type_suffix(*err),
        Type::Vec(elem) => "_Vec"@ + type_suffix(*elem),
        Type::Box(inner) => "_Box"@ + type_suffix(*inner),
        Type::Channel(inner) => "_Channel"@ + type_suffix(*inner),
        Type::Future(inner) => "_Future"@ + type_suffix(*inner),
        Type::Unit => "_unit"@,
        Type::Never => "_never"@,
        Type::Any => "_any"@,
        Type::SelfType => "_Self"@,
        Type::Error => "_error"@,
        Type::Nil => "_nil"@,
        Type::AssociatedType { self_type, name } => type_suffix(*self_type) + "_"@ + name@,
        Type::Conditional { .. } => Seq::empty(),
        Type::Infer(_) => Seq::empty(),
        Type::Typeof(_) => Seq::empty(),
    }
}

/// The suffixes of a list of types, one after the other.
pub open spec fn type_suffixes(ts: Seq<Type>) -> Seq<char>
    decreases ts,
{
    if ts.len() == 0 {
        Seq::empty()
    } else {
        type_suffixes(ts.drop_last()) + type_suffix(ts.last())
    }
}

fn push_str(s: &mut String, t: &str)
    ensures
        final(s)@ == old(s)@ + t@,
{
    let r = concat_str(s.as_str(), t);
    *s = r;
}

fn push_suffixes(s: &mut String, ts: &Vec<Type>)
    ensures
        final(s)@ == old(s)@ + type_suffixes(ts@),
    decreases ts@,
{
    let mut i: usize = 0;
    while i < ts.len()
        invariant
            i <= ts@.len(),
            s@ == old(s)@ + type_suffixes(ts@.take(i as int)),
        decreases ts@.len() - i,
    {
        let x = generate_type_suffix(&ts[i]);
        push_str(s, x.as_str());
        assert(ts@.take(i + 1).drop_last() =~= ts@.take(i as int));
        assert(s@ =~= old(s)@ + type_suffixes(ts@.take(i + 1)));
        i = i + 1;
    }
    assert(ts@.take(ts@.len() as int) =~= ts@);
}

/// The mangling suffix of a type (see `type_suffix`).
pub fn generate_type_suffix(ty: &Type) -> (r: String)
    ensures
        r@ == type_suffix(*ty),
    decreases *ty,
{
    let r = match ty {
        Type::Unknown => "_unknown".to_owned(),
        Type::I8 => "_i8".to_owned(),
        Type::I16 => "_i16".to_owned(),
        Type::I32 => "_i32".to_owned(),
        Type::I64 => "_i64".to_owned(),
        Type::I128 => "_i128".to_owned(),
        Type::U8 => "_u8".to_owned(),
        Type::U16 => "_u16".to_owned(),
        Type::U32 => "_u32".to_owned(),
        Type::U64 => "_u64".to_owned(),
        Type::U128 => "_u128".to_owned(),
        Type::F16 => "_f16".to_owned(),
        Type::F32 => "_f32".to_owned(),
        Type::F64 => "_f64".to_owned(),
        Type::Bool => "_bool".to_owned(),
        Type::String => "_String".to_owned(),
        Type::Byte => "_byte".to_owned(),
        Type::Named(name) => concat_str("_", name.as_str()),
        Type::Generic { name, type_args } => {
            let mut s = concat_str("_", name.as_str());
            push_suffixes(&mut s, type_args);
            s
        }
        Type::Reference(inner, is_mutable) => {
            let mut s = if *is_mutable { "_refmut".to_owned() } else { "_ref".to_owned() };
            let x = generate_type_suffix(inner);
            push_str(&mut s, x.as_str());
            s
        }
        Type::Array(elem, size) => {
            let mut s = "_arr".to_owned();
            push_decimal(&mut s, *size);
            let x = generate_type_suffix(elem);
            push_str(&mut s, x.as_str());
            s
        }
        Type::ConstArray { elem_type, size_param } => {
            let mut s = "_arr".to_owned();
            push_str(&mut s, size_param.as_str());
            let x = generate_type_suffix(elem_type);
            push_str(&mut s, x.as_str());
            s
        }
        Type::Slice(elem, is_mutable) => {
            let mut s = if *is_mutable { "_slicemut".to_owned() } else { "_slice".to_owned() };
            let x = generate_type_suffix(elem);
            push_str(&mut s, x.as_str());
            s
        }
        Type::Tuple(elements) => {
            let mut s = "_tuple".to_owned();
            push_suffixes(&mut s, elements);
            s
        }
        Type::Function { params, return_type } => {
            let mut s = "_fn".to_owned();
            push_suffixes(&mut s, params);
            push_str(&mut s, "_ret");
            let x = generate_type_suffix(return_type);
            push_str(&mut s, x.as_str());
            s
        }
        Type::Union(types) => {
            let mut s = "_union".to_owned();
            push_suffixes(&mut s, types);
            s
        }
        Type::Intersection(types) => {
            let mut s = "_inter".to_owned();
            push_suffixes(&mut s, types);
            s
        }
        Type::RawPtr { inner, is_const } => {
            let mut s = if *is_const { "_constptr".to_owned() } else { "_ptr".to_owned() };
            let x = generate_type_suffix(inner);
            push_str(&mut s, x.as_str());
            s
        }
        Type::Option(inner) => {
            let x = generate_type_suffix(inner);
            concat_str("_Option", x.as_str())
        }
        Type::Result(ok, err) => {
            let mut s = "_Result".to_owned();
            let x = generate_type_suffix(ok);
            push_str(&mut s, x.as_str());
            let y = generate_type_suffix(err);
            push_str(&mut s, y.as_str());
            s
        }
        Type::Vec(elem) => {
            let x = generate_type_suffix(elem);
            concat_str("_Vec", x.as_str())
        }
        Type::Box(inner) => {
            let x = generate_type_suffix(inner);
            concat_str("_Box", x.as_str())
        }
        Type::Channel(inner) => {
            let x = generate_type_suffix(inner);
            concat_str("_Channel", x.as_str())
        }
        Type::Future(inner) => {
            let x = generate_type_suffix(inner);
            concat_str("_Future", x.as_str())
        }
        Type::Unit => "_unit".to_owned(),
        Type::Never => "_never".to_owned(),
        Type::Any => "_any".to_owned(),
        Type::SelfType => "_Self".to_owned(),
        Type::Error => "_error".to_owned(),
        Type::Nil => "_nil".to_owned(),
        Type::AssociatedType { self_type, name } => {
            let mut s = generate_type_suffix(self_type);
            push_str(&mut s, "_");
            push_str(&mut s, name.as_str());
            s
        }
        Type::Conditional { .. } => String::new(),
        Type::Infer(_) => String::new(),
        Type::Typeof(_) => String::new(),
    };
    assert(r@ =~= type_suffix(*ty));
    r
}

/// The types of a parameter list.
pub open spec fn param_types(ps: Seq<Param>) -> Seq<Type> {
    ps.map_values(|p: Param| p.ty)
}

/// The mangled name of a function: the base name, then the suffix of each
/// parameter type, then (if asked) an underscore and the parameter count.
/// A function without parameters keeps its base name.
pub open spec fn mangled_name(base: Seq<char>, params: Seq<Param>, include_param_count: bool) -> Seq<char> {
    if params.len() == 0 {
        base
    } else if include_param_count {
        base + type_suffixes(param_types(params)) + "_"@ + decimal(params.len())
    } else {
        base + type_suffixes(param_types(params))
    }
}

/// Mangles a function name from its parameter types (see `mangled_name`).
/// The parameter types are mangled as given.
pub fn mangle_function_name(base_name: &str, params: &[Param], include_param_count: bool) -> (r: String)
    ensures
        r@ == mangled_name(base_name@, params@, include_param_count),
{
    if params.len() == 0 {
        return base_name.to_owned();
    }
    let mut mangled = base_name.to_owned();
    let mut i: usize = 0;
    while i < params.len()
        invariant
            i <= params@.len(),
            mangled@ == base_name@ + type_suffixes(param_types(params@).take(i as int)),
        decreases params@.len() - i,
    {
        let x = generate_type_suffix(&params[i].ty);
        push_str(&mut mangled, x.as_str());
        assert(param_types(params@).take(i + 1).drop_last() =~= param_types(params@).take(i as int));
        assert(mangled@ =~= base_name@ + type_suffixes(param_types(params@).take(i + 1)));
        i = i + 1;
    }
    assert(param_types(params@).take(params@.len() as int) =~= param_types(params@));
    if include_param_count {
        push_str(&mut mangled, "_");
        push_decimal(&mut mangled, params.len());
    }
    assert(mangled@ =~= mangled_name(base_name@, params@, include_param_count));
    mangled
}

/// The LLVM-safe name of an operator method (`op+` is `opadd`, and so on);
/// any other name is kept.
pub open spec fn encoded_operator(name: Seq<char>) -> Seq<char> {
    if name == "op+"@ { "opadd"@ }
    else if name == "op-"@ { "opsub"@ }
    else if name == "op*"@ { "opmul"@ }
    else if name == "op/"@ { "opdiv"@ }
    else if name == "op%"@ { "opmod"@ }
    else if name == "op**"@ { "oppow"@ }
    else if name == "op=="@ { "opeq"@ }
    else if name == "op!="@ { "opne"@ }
    else if name == "op<"@ { "oplt"@ }
    else if name == "op<="@ { "ople"@ }
    else if name == "op>"@ { "opgt"@ }
    else if name == "op>="@ { "opge"@ }
    else if name == "op&"@ { "opbitand"@ }
    else if name == "op|"@ { "opbitor"@ }
    else if name == "op^"@ { "opbitxor"@ }
    else if name == "op<<"@ { "opshl"@ }
    else if name == "op>>"@ { "opshr"@ }
    else if name == "op!"@ { "opnot"@ }
    else if name == "op~"@ { "opbitnot"@ }
    else if name == "op++"@ { "opinc"@ }
    else if name == "op--"@ { "opdec"@ }
    else if name == "op[]"@ { "opindex"@ }
    else if name == "op[]="@ { "opindexset"@ }
    else { name }
}

/// Encodes operator method names for LLVM, which does not allow symbols
/// such as `+` or `*` in function names (see `encoded_operator`).
pub fn encode_operator_name(name: &str) -> (r: String)
    ensures
        r@ == encoded_operator(name@),
{
    if str_eq(name, "op+") { "opadd".to_owned() }
    else if str_eq(name, "op-") { "opsub".to_owned() }
    else if str_eq(name, "op*") { "opmul".to_owned() }
    else if str_eq(name, "op/") { "opdiv".to_owned() }
    else if str_eq(name, "op%") { "opmod".to_owned() }
    else if str_eq(name, "op**") { "oppow".to_owned() }
    else if str_eq(name, "op==") { "opeq".to_owned() }
    else if str_eq(name, "op!=") { "opne".to_owned() }
    else if str_eq(name, "op<") { "oplt".to_owned() }
    else if str_eq(name, "op<=") { "ople".to_owned() }
    else if str_eq(name, "op>") { "opgt".to_owned() }
    else if str_eq(name, "op>=") { "opge".to_owned() }
    else if str_eq(name, "op&") { "opbitand".to_owned() }
    else if str_eq(name, "op|") { "opbitor".to_owned() }
    else if str_eq(name, "op^") { "opbitxor".to_owned() }
    else if str_eq(name, "op<<") { "opshl".to_owned() }
    else if str_eq(name, "op>>") { "opshr".to_owned() }
    else if str_eq(name, "op!") { "opnot".to_owned() }
    else if str_eq(name, "op~") { "opbitnot".to_owned() }
    else if str_eq(name, "op++") { "opinc".to_owned() }
    else if str_eq(name, "op--") { "opdec".to_owned() }
    else if str_eq(name, "op[]") { "opindex".to_owned() }
    else if str_eq(name, "op[]=") { "opindexset".to_owned() }
    else { name.to_owned() }
}


/// The mangled name of a method declared outside its struct,
/// `fn (self: S) name(...)`: a name that already starts with `S_` is kept;
/// otherwise `S_`, the encoded method name, and, when there are parameters,
/// the suffix of the first parameter's type and the parameter count.
pub open spec fn receiver_method_name(struct_name: Seq<char>, name: Seq<char>, params: Seq<Param>) -> Seq<char> {
    let prefix = struct_name + "_"@;
    let base = struct_name + "_"@ + encoded_operator(name);
    if prefix.len() <= name.len() && name.subrange(0, prefix.len() as int) == prefix {
        name
    } else if params.len() > 0 {
        base + type_suffix(params[0].ty) + "_"@ + decimal(params.len())
    } else {
        base
    }
}

/// Mangles the name of a method declared outside its struct (see
/// `receiver_method_name`).
pub fn receiver_method_mangled_name(struct_name: &str, func: &Function) -> (r: String)
    ensures
        r@ == receiver_method_name(struct_name@, func.name@, func.params@),
{
    let mut prefix = struct_name.to_owned();
    prefix.append("_");
    if starts_with(func.name.as_str(), prefix.as_str()) {
        return func.name.clone();
    }
    let encoded = encode_operator_name(func.name.as_str());
    let mut base = struct_name.to_owned();
    base.append("_");
    base.append(encoded.as_str());
    if func.params.len() > 0 {
        let suffix = generate_type_suffix(&func.params[0].ty);
        if suffix.as_str().unicode_len() > 0 {
            base.append(suffix.as_str());
            base.append("_");
            push_decimal(&mut base, func.params.len());
        } else {
            base.append("_");
            push_decimal(&mut base, func.params.len());
            assert(suffix@ =~= Seq::<char>::empty());
        }
    }
    base
}
/// The names a static method `fn Type.method()` is stored under.
pub struct StaticMethodNames {
    /// `Type_method`, with the method name encoded.
    pub mangled: String,
    /// For a generic method, `Type_T1_..._Tn_method_count`: its type
    /// parameters and its parameter count.
    pub generic: Option<String>,
    /// `type_method`, with the type name in lowercase.
    pub lowercase: String,
}

/// `Type_method` for a static method.
pub open spec fn static_method_name(ty: Seq<char>, method: Seq<char>) -> Seq<char> {
    ty + "_"@ + encoded_operator(method)
}

/// `Type_T1_..._Tn_method_count` for a generic static method.
pub open spec fn generic_static_method_name(ty: Seq<char>, type_params: Seq<Seq<char>>, method: Seq<char>, count: nat) -> Seq<char> {
    ty + "_"@ + crate::struct_deps::joined(type_params, "_"@) + "_"@ + encoded_operator(method) + "_"@ + decimal(count)
}

/// The message for a static method without its type's name.
pub open spec fn static_missing_type_message(method: Seq<char>) -> Seq<char> {
    "Static method '"@ + method + "' missing type name"@
}

/// The names under which the static method `func` is stored; an error when
/// it does not name its type.
pub fn static_method_names(func: &Function) -> (r: Result<StaticMethodNames, String>)
    ensures
        match func.static_type {
            None => r matches Err(e) && e@ == static_missing_type_message(func.name@),
            Some(ty) => r matches Ok(n) && {
                &&& n.mangled@ == static_method_name(ty@, func.name@)
                &&& n.lowercase@ == crate::text::unicode_lowercase(ty@) + "_"@ + encoded_operator(func.name@)
                &&& func.type_params@.len() == 0 ==> n.generic is None
                &&& func.type_params@.len() > 0 ==> (n.generic matches Some(g) && g@ == generic_static_method_name(
                    ty@,
                    crate::codegen::type_param_names(func.type_params@),
                    func.name@,
                    func.params@.len(),
                ))
            },
        },
{
    let ty = match &func.static_type {
        Some(t) => t,
        None => {
            let mut e = "Static method '".to_owned();
            e.append(func.name.as_str());
            e.append("' missing type name");
            return Err(e);
        },
    };
    let encoded = encode_operator_name(func.name.as_str());
    let mut mangled = ty.clone();
    mangled.append("_");
    mangled.append(encoded.as_str());
    let generic = if func.type_params.len() > 0 {
        let names = crate::codegen::type_param_name_list(&func.type_params);
        let mut g = ty.clone();
        g.append("_");
        let joined = crate::struct_deps::join_names(&names, "_");
        g.append(joined.as_str());
        g.append("_");
        g.append(encoded.as_str());
        g.append("_");
        push_decimal(&mut g, func.params.len());
        Some(g)
    } else {
        None
    };
    let mut lowercase = crate::text::str_to_lowercase(ty.as_str());
    lowercase.append("_");
    lowercase.append(encoded.as_str());
    Ok(StaticMethodNames { mangled, generic, lowercase })
}

} // verus!
