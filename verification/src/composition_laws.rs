//! Properties that say how the result of an operation on a compound value
//! is made from its results on the parts: mangled suffixes of generic
//! types, struct dependencies through instances, arrays and references,
//! which relative imports are left alone, how suspension points of nested
//! statements are counted, and how matching recovers the type arguments
//! that a parameter type was instantiated with.
use vstd::prelude::*;
use crate::ast::{Block, Expression, Function, MatchArm, Param, SelectCase, Statement, Struct, SwitchCase, Type, TypeParam, TypeView};
use crate::generics::{subst_type, subst_type_list};
use crate::type_ops::{inferred_type_args, is_type_param_name, match_list, match_params, param_type_views, type_args_in_order};
use crate::await_scan::{awaits_in_arms, awaits_in_block, awaits_in_cases, awaits_in_elifs, awaits_in_expr, awaits_in_exprs, awaits_in_fields, awaits_in_opt, awaits_in_pairs, awaits_in_selects, awaits_in_stmt, awaits_in_stmts};
use crate::codegen::{dependency_graph, field_dependencies, struct_dependency};
use crate::imports::{occurs_in, resolves_import};
use crate::inline_optimizer::has_prefix;
use crate::mangle::{decimal, mangled_name, param_types, type_suffix, type_suffixes};
use crate::struct_deps::{edge, has_dependency_cycle, is_cycle, is_walk, succ};

verus! {

// ---------------------------------------------------------------------------
// Mangled suffixes
// ---------------------------------------------------------------------------

/// The suffix of a generic type is built from its name and its type
/// arguments: with no argument it is the suffix of the bare name, and one
/// more argument appends that argument's suffix. So the suffix of
/// `Vec<i32>` is the suffix of `Vec` followed by that of `i32`.
pub proof fn law_generic_suffix_appends_arguments(name: String, args: Vec<Type>, more: Vec<Type>, a: Type)
    requires
        more@ == args@.push(a),
    ensures
        args@.len() == 0 ==> type_suffix(Type::Generic { name, type_args: args }) == type_suffix(Type::Named(name)),
        type_suffix(Type::Generic { name, type_args: more })
            == type_suffix(Type::Generic { name, type_args: args }) + type_suffix(a),
{
    assert(more@.drop_last() =~= args@);
    assert(more@.last() == a);
    assert(type_suffixes(more@) == type_suffixes(args@) + type_suffix(a));
    if args@.len() == 0 {
        assert(type_suffixes(args@) =~= Seq::<char>::empty());
        assert(("_"@ + name@) + Seq::<char>::empty() =~= "_"@ + name@);
    }
    assert(("_"@ + name@) + (type_suffixes(args@) + type_suffix(a)) =~= (("_"@ + name@) + type_suffixes(args@)) + type_suffix(a));
}

/// A tuple's suffix is likewise built from its elements: one more element
/// appends that element's suffix.
pub proof fn law_tuple_suffix_appends_elements(elems: Vec<Type>, more: Vec<Type>, a: Type)
    requires
        more@ == elems@.push(a),
    ensures
        type_suffix(Type::Tuple(more)) == type_suffix(Type::Tuple(elems)) + type_suffix(a),
{
    assert(more@.drop_last() =~= elems@);
    assert(more@.last() == a);
    assert(type_suffixes(more@) == type_suffixes(elems@) + type_suffix(a));
    assert("_tuple"@ + (type_suffixes(elems@) + type_suffix(a)) =~= ("_tuple"@ + type_suffixes(elems@)) + type_suffix(a));
}

/// Two instances of one generic type whose argument lists differ only in
/// the last argument, where the two last arguments have suffixes of the
/// same length but different content, get different suffixes: `Vec<i32>`
/// and `Vec<f64>` are mangled apart.
pub proof fn law_generic_instances_mangled_apart(name: String, args: Vec<Type>, v1: Vec<Type>, v2: Vec<Type>, a: Type, b: Type)
    requires
        v1@ == args@.push(a),
        v2@ == args@.push(b),
        type_suffix(a).len() == type_suffix(b).len(),
        type_suffix(a) != type_suffix(b),
    ensures
        type_suffix(Type::Generic { name, type_args: v1 }) != type_suffix(Type::Generic { name, type_args: v2 }),
{
    law_generic_suffix_appends_arguments(name, args, v1, a);
    law_generic_suffix_appends_arguments(name, args, v2, b);
    let p = type_suffix(Type::Generic { name, type_args: args });
    let s1 = p + type_suffix(a);
    let s2 = p + type_suffix(b);
    if s1 == s2 {
        assert(s1.subrange(p.len() as int, s1.len() as int) =~= type_suffix(a));
        assert(s2.subrange(p.len() as int, s2.len() as int) =~= type_suffix(b));
    }
}

/// The suffix of a type that wraps another (a reference, an array, a
/// slice, a raw pointer, `Option`, `Vec`, `Box`, a channel, a future) ends
/// with the suffix of the wrapped type, after a marker of the wrapper; a
/// `Result` ends with the suffix of its `Ok` type followed by that of its
/// `Err` type. Different wrappers of one type get different suffixes.
pub proof fn law_wrapped_suffix_ends_with_inner(t: Type, e: Type, mu: bool, n: usize)
    ensures
        type_suffix(Type::Vec(Box::new(t))) == "_Vec"@ + type_suffix(t),
        type_suffix(Type::Option(Box::new(t))) == "_Option"@ + type_suffix(t),
        type_suffix(Type::Box(Box::new(t))) == "_Box"@ + type_suffix(t),
        type_suffix(Type::Channel(Box::new(t))) == "_Channel"@ + type_suffix(t),
        type_suffix(Type::Future(Box::new(t))) == "_Future"@ + type_suffix(t),
        type_suffix(Type::Reference(Box::new(t), mu)) == (if mu { "_refmut"@ } else { "_ref"@ }) + type_suffix(t),
        type_suffix(Type::Slice(Box::new(t), mu)) == (if mu { "_slicemut"@ } else { "_slice"@ }) + type_suffix(t),
        type_suffix(Type::RawPtr { inner: Box::new(t), is_const: mu }) == (if mu { "_constptr"@ } else { "_ptr"@ }) + type_suffix(t),
        type_suffix(Type::Array(Box::new(t), n)) == "_arr"@ + decimal(n as nat) + type_suffix(t),
        type_suffix(Type::Result(Box::new(t), Box::new(e))) == "_Result"@ + type_suffix(t) + type_suffix(e),
        type_suffix(Type::Vec(Box::new(t))) != type_suffix(Type::Option(Box::new(t))),
        type_suffix(Type::Vec(Box::new(t))) != type_suffix(Type::Box(Box::new(t))),
        type_suffix(Type::Reference(Box::new(t), false)) != type_suffix(Type::Reference(Box::new(t), true)),
{
    reveal_strlit("_Vec");
    reveal_strlit("_Option");
    reveal_strlit("_Box");
    reveal_strlit("_ref");
    reveal_strlit("_refmut");
    let v = "_Vec"@ + type_suffix(t);
    let o = "_Option"@ + type_suffix(t);
    let b = "_Box"@ + type_suffix(t);
    assert(v[1] == 'V' && o[1] == 'O' && b[1] == 'B');
    let r = "_ref"@ + type_suffix(t);
    let rm = "_refmut"@ + type_suffix(t);
    if r == rm {
        assert(r.len() == rm.len());
    }
}

/// A mangled name is the base name followed by the suffixes of the
/// parameter types in order: one more parameter appends the suffix of its
/// type (without the parameter count), so functions that differ in a
/// parameter's type are mangled apart as their suffixes are.
pub proof fn law_mangled_name_appends_parameters(base: Seq<char>, params: Seq<Param>, p: Param)
    requires
        params.len() > 0,
    ensures
        mangled_name(base, params.push(p), false) == mangled_name(base, params, false) + type_suffix(p.ty),
        mangled_name(base, seq![p], false) == base + type_suffix(p.ty),
{
    assert(param_types(params.push(p)).drop_last() =~= param_types(params));
    assert(param_types(params.push(p)).last() == p.ty);
    assert(base + (type_suffixes(param_types(params)) + type_suffix(p.ty)) =~= (base + type_suffixes(param_types(params))) + type_suffix(p.ty));
    assert(param_types(seq![p]).drop_last() =~= Seq::<Type>::empty());
    assert(param_types(seq![p]).last() == p.ty);
    assert(type_suffixes(Seq::<Type>::empty()) =~= Seq::<char>::empty());
    assert(Seq::<char>::empty() + type_suffix(p.ty) =~= type_suffix(p.ty));
}

// ---------------------------------------------------------------------------
// Struct dependencies
// ---------------------------------------------------------------------------

/// What a field depends on does not change by instantiating, wrapping in
/// an array or taking a reference: a generic instance of a name depends on
/// what the bare name does, and an array of or a reference to a type
/// depends on what the type does. A bare name depends on the struct of
/// that name exactly when it is registered.
pub proof fn law_dependency_through_instances(
    name: Seq<char>,
    args: Seq<TypeView>,
    t: TypeView,
    n: nat,
    mu: bool,
    known: Set<Seq<char>>,
)
    ensures
        struct_dependency(TypeView::Generic { name, type_args: args }, known) == struct_dependency(TypeView::Named(name), known),
        struct_dependency(TypeView::Array(Box::new(t), n), known) == struct_dependency(t, known),
        struct_dependency(TypeView::Reference(Box::new(t), mu), known) == struct_dependency(t, known),
        known.contains(name) ==> struct_dependency(TypeView::Named(name), known) == Some(name),
        !known.contains(name) ==> struct_dependency(TypeView::Named(name), known) is None,
{
}

proof fn lemma_field_dependencies_contain(fields: Seq<crate::ast::Field>, known: Set<Seq<char>>, k: int)
    requires
        0 <= k < fields.len(),
        struct_dependency(fields[k].ty@, known) is Some,
    ensures
        field_dependencies(fields, known).contains(struct_dependency(fields[k].ty@, known)->0),
    decreases fields.len(),
{
    let rest = field_dependencies(fields.drop_last(), known);
    if k == fields.len() - 1 {
        let n = struct_dependency(fields[k].ty@, known)->0;
        assert(field_dependencies(fields, known) == rest.push(n));
        assert(rest.push(n)[rest.len() as int] == n);
    } else {
        assert(fields.drop_last()[k] == fields[k]);
        lemma_field_dependencies_contain(fields.drop_last(), known, k);
        let n = struct_dependency(fields[k].ty@, known)->0;
        let j = choose|j: int| 0 <= j < rest.len() && rest[j] == n;
        match struct_dependency(fields.last().ty@, known) {
            Some(m) => {
                assert(field_dependencies(fields, known) == rest.push(m));
                assert(rest.push(m)[j] == n);
            },
            None => {},
        }
    }
}

proof fn lemma_graph_entry(structs: Seq<Struct>, known: Set<Seq<char>>, i: int)
    requires
        0 <= i < structs.len(),
        forall|j: int| i < j < structs.len() ==> structs[j].name@ != structs[i].name@,
    ensures
        dependency_graph(structs, known).dom().contains(structs[i].name@),
        dependency_graph(structs, known)[structs[i].name@] == field_dependencies(structs[i].fields@, known),
    decreases structs.len(),
{
    if i < structs.len() - 1 {
        let init = structs.drop_last();
        assert(init[i] == structs[i]);
        assert forall|j: int| i < j < init.len() implies init[j].name@ != init[i].name@ by {
            assert(init[j] == structs[j]);
        }
        lemma_graph_entry(init, known, i);
        assert(structs.last().name@ != structs[i].name@);
    }
}

/// In the dependency graph of a list of struct declarations, each struct
/// (as last declared) leads to every registered struct that one of its
/// fields holds: by name, as a generic instance, in an array or behind a
/// reference.
pub proof fn law_held_struct_is_dependency(structs: Seq<Struct>, known: Set<Seq<char>>, i: int, k: int)
    requires
        0 <= i < structs.len(),
        forall|j: int| i < j < structs.len() ==> structs[j].name@ != structs[i].name@,
        0 <= k < structs[i].fields@.len(),
        struct_dependency(structs[i].fields@[k].ty@, known) is Some,
    ensures
        edge(
            dependency_graph(structs, known),
            structs[i].name@,
            struct_dependency(structs[i].fields@[k].ty@, known)->0,
        ),
{
    lemma_graph_entry(structs, known, i);
    lemma_field_dependencies_contain(structs[i].fields@, known, k);
}

/// A registered struct with a field that holds the struct itself, by its
/// name or as an instance of it (`next: Node<T>` in `Node<T>`), is a
/// dependency cycle.
pub proof fn law_struct_holding_itself_is_cycle(structs: Seq<Struct>, known: Set<Seq<char>>, i: int, k: int)
    requires
        0 <= i < structs.len(),
        forall|j: int| i < j < structs.len() ==> structs[j].name@ != structs[i].name@,
        0 <= k < structs[i].fields@.len(),
        known.contains(structs[i].name@),
        structs[i].fields@[k].ty@ == TypeView::Named(structs[i].name@)
            || structs[i].fields@[k].ty@ is Generic && structs[i].fields@[k].ty@->Generic_name == structs[i].name@,
    ensures
        has_dependency_cycle(dependency_graph(structs, known)),
{
    let s = structs[i].name@;
    let g = dependency_graph(structs, known);
    assert(struct_dependency(structs[i].fields@[k].ty@, known) == Some(s));
    law_held_struct_is_dependency(structs, known, i, k);
    let w = seq![s, s];
    assert(w.drop_last() =~= seq![s]);
    assert(is_walk(g, seq![s]));
    assert(is_walk(g, w));
    assert(is_cycle(g, w));
}

// ---------------------------------------------------------------------------
// Which imports are resolved here
// ---------------------------------------------------------------------------

/// Outside the standard library, an import written relative to the
/// current file (`../m`, `./m`, `@relative:m`) is left alone, whatever
/// follows the prefix; inside the standard library every import is
/// resolved, and so is any import with none of these prefixes.
pub proof fn law_relative_imports_left_alone(source_file: Seq<char>, module: Seq<char>, rest: Seq<char>)
    ensures
        !occurs_in("vex-libs/std"@, source_file) ==> !resolves_import(source_file, "../"@ + rest),
        !occurs_in("vex-libs/std"@, source_file) ==> !resolves_import(source_file, "./"@ + rest),
        !occurs_in("vex-libs/std"@, source_file) ==> !resolves_import(source_file, "@relative:"@ + rest),
        occurs_in("vex-libs/std"@, source_file) ==> resolves_import(source_file, module),
        !has_prefix(module, "../"@) && !has_prefix(module, "./"@) && !has_prefix(module, "@relative:"@)
            ==> resolves_import(source_file, module),
{
    reveal_strlit("../");
    reveal_strlit("./");
    reveal_strlit("@relative:");
    assert(("../"@ + rest).subrange(0, 3) =~= "../"@);
    assert(("./"@ + rest).subrange(0, 2) =~= "./"@);
    assert(("@relative:"@ + rest).subrange(0, 10) =~= "@relative:"@);
}


// ---------------------------------------------------------------------------
// Suspension points of nested statements
// ---------------------------------------------------------------------------

/// Whether `t` is one of the statements directly inside `s`: a statement of
/// one of its blocks (the branches of an `if`, the body of a loop, a
/// `switch` or `select` case or default, an `unsafe` block), the deferred
/// statement, or the initialiser or step of a `for`.
pub open spec fn nested_in(s: Statement, t: Statement) -> bool {
    match s {
        Statement::If { then_block, elif_branches, else_block, .. } => {
            ||| then_block.statements@.contains(t)
            ||| exists|j: int| 0 <= j < elif_branches@.len() && (#[trigger] elif_branches@[j]).1.statements@.contains(t)
            ||| else_block matches Some(b) && b.statements@.contains(t)
        },
        Statement::While { body, .. } => body.statements@.contains(t),
        Statement::For { init, post, body, .. } => {
            ||| body.statements@.contains(t)
            ||| init matches Some(x) && *x == t
            ||| post matches Some(x) && *x == t
        },
        Statement::ForIn { body, .. } => body.statements@.contains(t),
        Statement::Defer(x) => *x == t,
        Statement::Loop { body, .. } => body.statements@.contains(t),
        Statement::Switch { cases, default_case, .. } => {
            ||| exists|j: int| 0 <= j < cases@.len() && (#[trigger] cases@[j]).body.statements@.contains(t)
            ||| default_case matches Some(b) && b.statements@.contains(t)
        },
        Statement::Select { cases, .. } => exists|j: int| 0 <= j < cases@.len() && (#[trigger] cases@[j]).body.statements@.contains(t),
        Statement::Unsafe { block, .. } => block.statements@.contains(t),
        _ => false,
    }
}

proof fn lemma_stmts_hold(ss: Seq<Statement>, t: Statement)
    requires
        ss.contains(t),
    ensures
        awaits_in_stmts(ss) >= awaits_in_stmt(t),
    decreases ss.len(),
{
    if ss.last() != t {
        let j = choose|j: int| 0 <= j < ss.len() && ss[j] == t;
        assert(ss.drop_last()[j] == t);
        lemma_stmts_hold(ss.drop_last(), t);
    }
}

proof fn lemma_elifs_hold(es: Seq<(Expression, Block)>, t: Statement, j: int)
    requires
        0 <= j < es.len(),
        es[j].1.statements@.contains(t),
    ensures
        awaits_in_elifs(es) >= awaits_in_stmt(t),
    decreases es.len(),
{
    if j == es.len() - 1 {
        lemma_stmts_hold(es[j].1.statements@, t);
    } else {
        assert(es.drop_last()[j] == es[j]);
        lemma_elifs_hold(es.drop_last(), t, j);
    }
}

proof fn lemma_cases_hold(cs: Seq<SwitchCase>, t: Statement, j: int)
    requires
        0 <= j < cs.len(),
        cs[j].body.statements@.contains(t),
    ensures
        awaits_in_cases(cs) >= awaits_in_stmt(t),
    decreases cs.len(),
{
    if j == cs.len() - 1 {
        lemma_stmts_hold(cs[j].body.statements@, t);
    } else {
        assert(cs.drop_last()[j] == cs[j]);
        lemma_cases_hold(cs.drop_last(), t, j);
    }
}

proof fn lemma_selects_hold(cs: Seq<SelectCase>, t: Statement, j: int)
    requires
        0 <= j < cs.len(),
        cs[j].body.statements@.contains(t),
    ensures
        awaits_in_selects(cs) >= awaits_in_stmt(t),
    decreases cs.len(),
{
    if j == cs.len() - 1 {
        lemma_stmts_hold(cs[j].body.statements@, t);
    } else {
        assert(cs.drop_last()[j] == cs[j]);
        lemma_selects_hold(cs.drop_last(), t, j);
    }
}

/// No suspension point inside a statement is lost: a statement has at
/// least as many as any statement nested directly in it (in a branch, a
/// loop body, a case, a deferred statement, an `unsafe` block).
pub proof fn law_nested_awaits_counted(s: Statement, t: Statement)
    requires
        nested_in(s, t),
    ensures
        awaits_in_stmt(s) >= awaits_in_stmt(t),
{
    match s {
        Statement::If { then_block, elif_branches, else_block, .. } => {
            if then_block.statements@.contains(t) {
                lemma_stmts_hold(then_block.statements@, t);
            } else if exists|j: int| 0 <= j < elif_branches@.len() && (#[trigger] elif_branches@[j]).1.statements@.contains(t) {
                let j = choose|j: int| 0 <= j < elif_branches@.len() && (#[trigger] elif_branches@[j]).1.statements@.contains(t);
                lemma_elifs_hold(elif_branches@, t, j);
            } else {
                lemma_stmts_hold(else_block->0.statements@, t);
            }
        },
        Statement::While { body, .. } => lemma_stmts_hold(body.statements@, t),
        Statement::For { init, post, body, .. } => {
            if body.statements@.contains(t) {
                lemma_stmts_hold(body.statements@, t);
            }
        },
        Statement::ForIn { body, .. } => lemma_stmts_hold(body.statements@, t),
        Statement::Loop { body, .. } => lemma_stmts_hold(body.statements@, t),
        Statement::Switch { cases, default_case, .. } => {
            if exists|j: int| 0 <= j < cases@.len() && (#[trigger] cases@[j]).body.statements@.contains(t) {
                let j = choose|j: int| 0 <= j < cases@.len() && (#[trigger] cases@[j]).body.statements@.contains(t);
                lemma_cases_hold(cases@, t, j);
            } else {
                lemma_stmts_hold(default_case->0.statements@, t);
            }
        },
        Statement::Select { cases, .. } => {
            let j = choose|j: int| 0 <= j < cases@.len() && (#[trigger] cases@[j]).body.statements@.contains(t);
            lemma_selects_hold(cases@, t, j);
        },
        Statement::Unsafe { block, .. } => lemma_stmts_hold(block.statements@, t),
        _ => {},
    }
}

/// A `for x in e { .. }` has the suspension points of evaluating `e` as a
/// statement and of running its body as a `loop`; a `while c { .. }`
/// likewise has those of `c` and of the body run as a `loop`; a `loop` and
/// an `unsafe` block have those of their block.
pub proof fn law_loop_awaits_compose(span_id: Option<usize>, variable: String, e: Expression, body: Block)
    ensures
        awaits_in_stmt(Statement::ForIn { span_id, variable, iterable: e, body })
            == awaits_in_stmt(Statement::Expression(e)) + awaits_in_stmt(Statement::Loop { span_id, body }),
        awaits_in_stmt(Statement::While { span_id, condition: e, body })
            == awaits_in_stmt(Statement::Expression(e)) + awaits_in_stmt(Statement::Loop { span_id, body }),
        awaits_in_stmt(Statement::Loop { span_id, body }) == awaits_in_block(body),
        awaits_in_stmt(Statement::Unsafe { span_id, block: body }) == awaits_in_block(body),
{
}


// ---------------------------------------------------------------------------
// Inferring type arguments
// ---------------------------------------------------------------------------

/// The type parameters (names starting with an uppercase letter) that a
/// parameter type holds where matching looks: at the top, inside tuples,
/// references, `Option`, `Result`, `Vec` and the arguments of generic types.
pub open spec fn matched_names(p: TypeView) -> Set<Seq<char>>
    decreases p, 0int,
{
    match p {
        TypeView::Named(n) => if is_type_param_name(n) { set![n] } else { Set::empty() },
        TypeView::Tuple(ps) => matched_names_list(ps, 0),
        TypeView::Reference(ip, _) => matched_names(*ip),
        TypeView::Option(ip) => matched_names(*ip),
        TypeView::Result(okp, errp) => matched_names(*okp).union(matched_names(*errp)),
        TypeView::Vec(ip) => matched_names(*ip),
        TypeView::Generic { type_args, .. } => matched_names_list(type_args, 0),
        _ => Set::empty(),
    }
}

/// The names `matched_names` finds in `ps[i..]`.
pub open spec fn matched_names_list(ps: Seq<TypeView>, i: int) -> Set<Seq<char>>
    decreases ps, ps.len() - i,
{
    if i < 0 || i >= ps.len() {
        Set::empty()
    } else {
        matched_names(ps[i]).union(matched_names_list(ps, i + 1))
    }
}

proof fn lemma_subst_list_at(ts: Seq<TypeView>, m: Map<Seq<char>, TypeView>)
    ensures
        subst_type_list(ts, m).len() == ts.len(),
        forall|i: int| 0 <= i < ts.len() ==> #[trigger] subst_type_list(ts, m)[i] == subst_type(ts[i], m),
    decreases ts.len(),
{
    if ts.len() > 0 {
        lemma_subst_list_at(ts.drop_last(), m);
        assert forall|i: int| 0 <= i < ts.len() implies #[trigger] subst_type_list(ts, m)[i] == subst_type(ts[i], m) by {
            if i < ts.len() - 1 {
                assert(ts.drop_last()[i] == ts[i]);
            }
        }
    }
}

/// What matching an instance records: the image of every matched type
/// parameter that `sigma` maps, and every other name as before.
pub open spec fn recovers(
    r: Map<Seq<char>, TypeView>,
    names: Set<Seq<char>>,
    sigma: Map<Seq<char>, TypeView>,
    m: Map<Seq<char>, TypeView>,
) -> bool {
    &&& forall|t: Seq<char>| #[trigger] names.contains(t) && sigma.dom().contains(t) ==> r.dom().contains(t) && r[t] == sigma[t]
    &&& forall|t: Seq<char>| !(#[trigger] names.contains(t)) ==> (r.dom().contains(t) == m.dom().contains(t)
        && (m.dom().contains(t) ==> r[t] == m[t]))
}

proof fn lemma_match_recovers(p: TypeView, sigma: Map<Seq<char>, TypeView>, m: Map<Seq<char>, TypeView>)
    ensures
        recovers(match_params(p, subst_type(p, sigma), m), matched_names(p), sigma, m),
    decreases p, 0int,
{
    match p {
        TypeView::Named(n) => {
            let r = match_params(p, subst_type(p, sigma), m);
            if is_type_param_name(n) {
                assert(matched_names(p) =~= set![n]);
                assert(r == m.insert(n, subst_type(p, sigma)));
            } else {
                assert(matched_names(p) =~= Set::<Seq<char>>::empty());
            }
        },
        TypeView::Tuple(ps) => {
            lemma_subst_list_at(ps, sigma);
            lemma_match_list_recovers(ps, sigma, m, 0);
        },
        TypeView::Reference(ip, _) => lemma_match_recovers(*ip, sigma, m),
        TypeView::Option(ip) => lemma_match_recovers(*ip, sigma, m),
        TypeView::Result(okp, errp) => {
            lemma_match_recovers(*okp, sigma, m);
            let m1 = match_params(*okp, subst_type(*okp, sigma), m);
            lemma_match_recovers(*errp, sigma, m1);
            let r = match_params(p, subst_type(p, sigma), m);
            assert(r == match_params(*errp, subst_type(*errp, sigma), m1));
            let here = matched_names(*okp);
            let later = matched_names(*errp);
            assert forall|t: Seq<char>| #[trigger] matched_names(p).contains(t) && sigma.dom().contains(t)
                implies r.dom().contains(t) && r[t] == sigma[t] by {
                if later.contains(t) {
                } else {
                    assert(here.contains(t));
                }
            }
            assert forall|t: Seq<char>| !(#[trigger] matched_names(p).contains(t))
                implies (r.dom().contains(t) == m.dom().contains(t) && (m.dom().contains(t) ==> r[t] == m[t])) by {
                assert(!later.contains(t));
                assert(!here.contains(t));
            }
        },
        TypeView::Vec(ip) => lemma_match_recovers(*ip, sigma, m),
        TypeView::Generic { name, type_args } => {
            lemma_subst_list_at(type_args, sigma);
            lemma_match_list_recovers(type_args, sigma, m, 0);
        },
        _ => {},
    }
}

proof fn lemma_match_list_recovers(ps: Seq<TypeView>, sigma: Map<Seq<char>, TypeView>, m: Map<Seq<char>, TypeView>, i: int)
    requires
        0 <= i,
    ensures
        recovers(match_list(ps, subst_type_list(ps, sigma), i, m), matched_names_list(ps, i), sigma, m),
    decreases ps, ps.len() - i,
{
    lemma_subst_list_at(ps, sigma);
    if i < ps.len() {
        let args = subst_type_list(ps, sigma);
        assert(args[i] == subst_type(ps[i], sigma));
        lemma_match_recovers(ps[i], sigma, m);
        let m1 = match_params(ps[i], args[i], m);
        lemma_match_list_recovers(ps, sigma, m1, i + 1);
        let r = match_list(ps, args, i, m);
        assert(r == match_list(ps, args, i + 1, m1));
        let here = matched_names(ps[i]);
        let later = matched_names_list(ps, i + 1);
        assert(matched_names_list(ps, i) == here.union(later));
        assert forall|t: Seq<char>| #[trigger] matched_names_list(ps, i).contains(t) && sigma.dom().contains(t)
            implies r.dom().contains(t) && r[t] == sigma[t] by {
            if later.contains(t) {
            } else {
                assert(here.contains(t));
            }
        }
        assert forall|t: Seq<char>| !(#[trigger] matched_names_list(ps, i).contains(t))
            implies (r.dom().contains(t) == m.dom().contains(t) && (m.dom().contains(t) ==> r[t] == m[t])) by {
            assert(!later.contains(t));
            assert(!here.contains(t));
        }
    } else {
        assert(matched_names_list(ps, i) =~= Set::<Seq<char>>::empty());
    }
}

/// Matching undoes instantiation: matching a parameter type against the
/// type it becomes under a substitution `sigma` records, for every type
/// parameter it holds where matching looks and that `sigma` maps, exactly
/// `sigma`'s image (so `Vec<T>` against `Vec<i32>` records `T` as `i32`);
/// every other name keeps what it had.
pub proof fn law_matching_undoes_instantiation(
    p: TypeView,
    sigma: Map<Seq<char>, TypeView>,
    m: Map<Seq<char>, TypeView>,
    t: Seq<char>,
)
    ensures
        matched_names(p).contains(t) && sigma.dom().contains(t) ==> match_params(p, subst_type(p, sigma), m).dom().contains(t)
            && match_params(p, subst_type(p, sigma), m)[t] == sigma[t],
        !matched_names(p).contains(t) ==> (match_params(p, subst_type(p, sigma), m).dom().contains(t) == m.dom().contains(t)
            && (m.dom().contains(t) ==> match_params(p, subst_type(p, sigma), m)[t] == m[t])),
{
    lemma_match_recovers(p, sigma, m);
}

proof fn lemma_args_in_order(
    tps: Seq<TypeParam>,
    i: int,
    r: Map<Seq<char>, TypeView>,
    func: Seq<char>,
    sigma: Map<Seq<char>, TypeView>,
)
    requires
        0 <= i <= tps.len(),
        forall|k: int| i <= k < tps.len() ==> r.dom().contains(#[trigger] tps[k].name@) && r[tps[k].name@] == sigma[tps[k].name@],
    ensures
        type_args_in_order(tps, i, r, func) == Ok::<Seq<TypeView>, Seq<char>>(
            tps.subrange(i, tps.len() as int).map_values(|tp: TypeParam| sigma[tp.name@]),
        ),
    decreases tps.len() - i,
{
    if i < tps.len() {
        lemma_args_in_order(tps, i + 1, r, func, sigma);
        assert(seq![r[tps[i].name@]] + tps.subrange(i + 1, tps.len() as int).map_values(|tp: TypeParam| sigma[tp.name@])
            =~= tps.subrange(i, tps.len() as int).map_values(|tp: TypeParam| sigma[tp.name@]));
    } else {
        assert(tps.subrange(i, tps.len() as int).map_values(|tp: TypeParam| sigma[tp.name@]) =~= Seq::<TypeView>::empty());
    }
}

/// Inference undoes instantiation: when a generic function is called with
/// arguments whose types are its parameter types under a substitution
/// `sigma`, and every type parameter occurs in a parameter type where
/// matching looks and is mapped by `sigma`, the inferred type arguments
/// are `sigma`'s images of the type parameters, in order. (A call of
/// `sum<T>(xs: Vec<T>)` on a `Vec<i32>` infers `[i32]`.)
pub proof fn law_inference_undoes_instantiation(f: Function, sigma: Map<Seq<char>, TypeView>)
    requires
        forall|k: int| 0 <= k < f.type_params@.len() ==> sigma.dom().contains(#[trigger] f.type_params@[k].name@)
            && matched_names_list(param_type_views(f.params@), 0).contains(f.type_params@[k].name@),
    ensures
        inferred_type_args(f, subst_type_list(param_type_views(f.params@), sigma)) == Ok::<Seq<TypeView>, Seq<char>>(
            f.type_params@.map_values(|tp: TypeParam| sigma[tp.name@]),
        ),
{
    let tps = f.type_params@;
    let pv = param_type_views(f.params@);
    lemma_subst_list_at(pv, sigma);
    lemma_match_list_recovers(pv, sigma, Map::empty(), 0);
    let r = match_list(pv, subst_type_list(pv, sigma), 0, Map::empty());
    assert forall|k: int| 0 <= k < tps.len() implies r.dom().contains(#[trigger] tps[k].name@) && r[tps[k].name@] == sigma[tps[k].name@] by {
        assert(matched_names_list(pv, 0).contains(tps[k].name@));
    }
    lemma_args_in_order(tps, 0, r, f.name@, sigma);
    assert(tps.subrange(0, tps.len() as int) =~= tps);
    if tps.len() == 0 {
        assert(tps.map_values(|tp: TypeParam| sigma[tp.name@]) =~= Seq::<TypeView>::empty());
    }
}

/// Matching looks inside the types it knows: a `Vec`, an `Option` or a
/// reference (of either mutability) against the same kind of type
/// records what matching their contents records, a `Result` what matching
/// the `Ok` and then the `Err` types records, and a one-element tuple or a
/// one-argument instance of a generic type against one of the same
/// generic type what matching the element records. A type parameter
/// records the argument type itself.
pub proof fn law_matching_looks_inside(
    p: TypeView,
    a: TypeView,
    p2: TypeView,
    a2: TypeView,
    m: Map<Seq<char>, TypeView>,
    mu: bool,
    mu2: bool,
    name: Seq<char>,
)
    ensures
        match_params(TypeView::Vec(Box::new(p)), TypeView::Vec(Box::new(a)), m) == match_params(p, a, m),
        match_params(TypeView::Option(Box::new(p)), TypeView::Option(Box::new(a)), m) == match_params(p, a, m),
        match_params(TypeView::Reference(Box::new(p), mu), TypeView::Reference(Box::new(a), mu2), m) == match_params(p, a, m),
        match_params(TypeView::Result(Box::new(p), Box::new(p2)), TypeView::Result(Box::new(a), Box::new(a2)), m)
            == match_params(p2, a2, match_params(p, a, m)),
        match_params(TypeView::Tuple(seq![p]), TypeView::Tuple(seq![a]), m) == match_params(p, a, m),
        match_params(
            TypeView::Generic { name, type_args: seq![p] },
            TypeView::Generic { name, type_args: seq![a] },
            m,
        ) == match_params(p, a, m),
        is_type_param_name(name) ==> match_params(TypeView::Named(name), a, m) == m.insert(name, a),
{
    let ps = seq![p];
    let args = seq![a];
    assert(ps[0] == p && args[0] == a);
    assert(match_list(ps, args, 1, match_params(p, a, m)) == match_params(p, a, m));
    assert(match_list(ps, args, 0, m) == match_list(ps, args, 1, match_params(ps[0], args[0], m)));
}


/// Whether `x` is one of the expressions directly inside `e`.
pub open spec fn sub_expr_of(e: Expression, x: Expression) -> bool {
    match e {
        Expression::Await(i) => *i == x,
        Expression::Binary { left, right, .. } => *left == x || *right == x,
        Expression::Unary { expr, .. } => *expr == x,
        Expression::Deref(i) => *i == x,
        Expression::Reference { expr, .. } => *expr == x,
        Expression::Call { func, args, .. } => *func == x || args@.contains(x),
        Expression::MethodCall { receiver, args, .. } => *receiver == x || args@.contains(x),
        Expression::FieldAccess { object, .. } => *object == x,
        Expression::Index { object, index } => *object == x || *index == x,
        Expression::Array(es) => es@.contains(x),
        Expression::ArrayRepeat(v, c) => *v == x || *c == x,
        Expression::MapLiteral(ps) => exists|j: int| 0 <= j < ps@.len() && ((#[trigger] ps@[j]).0 == x || ps@[j].1 == x),
        Expression::TupleLiteral(es) => es@.contains(x),
        Expression::StructLiteral { fields, .. } => exists|j: int| 0 <= j < fields@.len() && (#[trigger] fields@[j]).1 == x,
        Expression::EnumLiteral { data, .. } => data@.contains(x),
        Expression::Range { start, end } => (start matches Some(b) && *b == x) || (end matches Some(b) && *b == x),
        Expression::RangeInclusive { start, end } => (start matches Some(b) && *b == x) || (end matches Some(b) && *b == x),
        Expression::Match { value, arms } => *value == x || exists|j: int| 0 <= j < arms@.len()
            && ((#[trigger] arms@[j]).body == x || arms@[j].guard == Some(x)),
        Expression::Block { return_expr, .. } => return_expr matches Some(b) && *b == x,
        Expression::AsyncBlock { return_expr, .. } => return_expr matches Some(b) && *b == x,
        Expression::Cast { expr, .. } => *expr == x,
        Expression::TryOp { expr } => *expr == x,
        Expression::Typeof(i) => *i == x,
        Expression::PostfixOp { expr, .. } => *expr == x,
        Expression::ErrorNew(i) => *i == x,
        Expression::New(i) => *i == x,
        Expression::Make { size, .. } => *size == x,
        Expression::Launch { grid, args, .. } => grid@.contains(x) || args@.contains(x),
        Expression::Closure { body, .. } => *body == x,
        Expression::ChannelReceive(i) => *i == x,
        Expression::TypeConstructor { args, .. } => args@.contains(x),
        _ => false,
    }
}

proof fn lemma_exprs_hold(es: Seq<Expression>, x: Expression)
    requires
        es.contains(x),
    ensures
        awaits_in_exprs(es) >= awaits_in_expr(x),
    decreases es.len(),
{
    if es.last() != x {
        let j = choose|j: int| 0 <= j < es.len() && es[j] == x;
        assert(es.drop_last()[j] == x);
        lemma_exprs_hold(es.drop_last(), x);
    }
}

proof fn lemma_pairs_hold(ps: Seq<(Expression, Expression)>, x: Expression, j: int)
    requires
        0 <= j < ps.len(),
        ps[j].0 == x || ps[j].1 == x,
    ensures
        awaits_in_pairs(ps) >= awaits_in_expr(x),
    decreases ps.len(),
{
    if j < ps.len() - 1 {
        assert(ps.drop_last()[j] == ps[j]);
        lemma_pairs_hold(ps.drop_last(), x, j);
    }
}

proof fn lemma_fields_hold(fs: Seq<(String, Expression)>, x: Expression, j: int)
    requires
        0 <= j < fs.len(),
        fs[j].1 == x,
    ensures
        awaits_in_fields(fs) >= awaits_in_expr(x),
    decreases fs.len(),
{
    if j < fs.len() - 1 {
        assert(fs.drop_last()[j] == fs[j]);
        lemma_fields_hold(fs.drop_last(), x, j);
    }
}

proof fn lemma_arms_hold(arms: Seq<MatchArm>, x: Expression, j: int)
    requires
        0 <= j < arms.len(),
        arms[j].body == x || arms[j].guard == Some(x),
    ensures
        awaits_in_arms(arms) >= awaits_in_expr(x),
    decreases arms.len(),
{
    if j < arms.len() - 1 {
        assert(arms.drop_last()[j] == arms[j]);
        lemma_arms_hold(arms.drop_last(), x, j);
    }
}

/// No suspension point inside an expression is lost: an expression has at
/// least as many as each expression directly inside it, and a block
/// expression at least as many as each of its statements. An `await`
/// counts one more than its operand.
pub proof fn law_nested_expression_awaits_counted(e: Expression, x: Expression, t: Statement)
    ensures
        sub_expr_of(e, x) ==> awaits_in_expr(e) >= awaits_in_expr(x),
        (e matches Expression::Block { statements, .. } && statements@.contains(t)) ==> awaits_in_expr(e) >= awaits_in_stmt(t),
        (e matches Expression::AsyncBlock { statements, .. } && statements@.contains(t)) ==> awaits_in_expr(e) >= awaits_in_stmt(t),
        awaits_in_expr(Expression::Await(Box::new(x))) == awaits_in_expr(x) + 1,
{
    if sub_expr_of(e, x) {
        match e {
            Expression::Call { func, args, .. } => {
                if args@.contains(x) {
                    lemma_exprs_hold(args@, x);
                }
            },
            Expression::MethodCall { receiver, args, .. } => {
                if args@.contains(x) {
                    lemma_exprs_hold(args@, x);
                }
            },
            Expression::Array(es) => lemma_exprs_hold(es@, x),
            Expression::TupleLiteral(es) => lemma_exprs_hold(es@, x),
            Expression::EnumLiteral { data, .. } => lemma_exprs_hold(data@, x),
            Expression::TypeConstructor { args, .. } => lemma_exprs_hold(args@, x),
            Expression::Launch { grid, args, .. } => {
                if grid@.contains(x) {
                    lemma_exprs_hold(grid@, x);
                } else {
                    lemma_exprs_hold(args@, x);
                }
            },
            Expression::MapLiteral(ps) => {
                let j = choose|j: int| 0 <= j < ps@.len() && ((#[trigger] ps@[j]).0 == x || ps@[j].1 == x);
                lemma_pairs_hold(ps@, x, j);
            },
            Expression::StructLiteral { fields, .. } => {
                let j = choose|j: int| 0 <= j < fields@.len() && (#[trigger] fields@[j]).1 == x;
                lemma_fields_hold(fields@, x, j);
            },
            Expression::Match { value, arms } => {
                if *value != x {
                    let j = choose|j: int| 0 <= j < arms@.len() && ((#[trigger] arms@[j]).body == x || arms@[j].guard == Some(x));
                    lemma_arms_hold(arms@, x, j);
                }
            },
            Expression::Block { return_expr, .. } => {
                assert(awaits_in_opt(return_expr) == awaits_in_expr(x));
            },
            Expression::AsyncBlock { return_expr, .. } => {
                assert(awaits_in_opt(return_expr) == awaits_in_expr(x));
            },
            Expression::Range { start, end } => {
                if start matches Some(b) && *b == x {
                    assert(awaits_in_opt(start) == awaits_in_expr(x));
                } else {
                    assert(awaits_in_opt(end) == awaits_in_expr(x));
                }
            },
            Expression::RangeInclusive { start, end } => {
                if start matches Some(b) && *b == x {
                    assert(awaits_in_opt(start) == awaits_in_expr(x));
                } else {
                    assert(awaits_in_opt(end) == awaits_in_expr(x));
                }
            },
            _ => {},
        }
    }
    match e {
        Expression::Block { statements, .. } => {
            if statements@.contains(t) {
                lemma_stmts_hold(statements@, t);
            }
        },
        Expression::AsyncBlock { statements, .. } => {
            if statements@.contains(t) {
                lemma_stmts_hold(statements@, t);
            }
        },
        _ => {},
    }
}

/// Whether `x` is one of the expressions a statement evaluates itself
/// (not inside a nested block): a value, a target, a condition, an
/// iterable, a `switch` value or case pattern, a spawned expression.
pub open spec fn expr_of_stmt(s: Statement, x: Expression) -> bool {
    match s {
        Statement::Let { value, .. } => value == x,
        Statement::LetPattern { value, .. } => value == x,
        Statement::Assign { target, value, .. } => target == x || value == x,
        Statement::CompoundAssign { target, value, .. } => target == x || value == x,
        Statement::Return { value, .. } => value == Some(x),
        Statement::Expression(v) => v == x,
        Statement::If { condition, elif_branches, .. } => condition == x
            || exists|j: int| 0 <= j < elif_branches@.len() && (#[trigger] elif_branches@[j]).0 == x,
        Statement::While { condition, .. } => condition == x,
        Statement::For { condition, .. } => condition == Some(x),
        Statement::ForIn { iterable, .. } => iterable == x,
        Statement::Switch { value, cases, .. } => value == Some(x)
            || exists|j: int| 0 <= j < cases@.len() && (#[trigger] cases@[j]).patterns@.contains(x),
        Statement::Go { expr, .. } => expr == x,
        _ => false,
    }
}

proof fn lemma_elif_conditions_hold(es: Seq<(Expression, Block)>, x: Expression, j: int)
    requires
        0 <= j < es.len(),
        es[j].0 == x,
    ensures
        awaits_in_elifs(es) >= awaits_in_expr(x),
    decreases es.len(),
{
    if j < es.len() - 1 {
        assert(es.drop_last()[j] == es[j]);
        lemma_elif_conditions_hold(es.drop_last(), x, j);
    }
}

proof fn lemma_case_patterns_hold(cs: Seq<SwitchCase>, x: Expression, j: int)
    requires
        0 <= j < cs.len(),
        cs[j].patterns@.contains(x),
    ensures
        awaits_in_cases(cs) >= awaits_in_expr(x),
    decreases cs.len(),
{
    if j == cs.len() - 1 {
        lemma_exprs_hold(cs[j].patterns@, x);
    } else {
        assert(cs.drop_last()[j] == cs[j]);
        lemma_case_patterns_hold(cs.drop_last(), x, j);
    }
}

/// A statement has at least as many suspension points as each expression
/// it evaluates itself.
pub proof fn law_statement_expressions_counted(s: Statement, x: Expression)
    requires
        expr_of_stmt(s, x),
    ensures
        awaits_in_stmt(s) >= awaits_in_expr(x),
{
    match s {
        Statement::If { condition, elif_branches, .. } => {
            if condition != x {
                let j = choose|j: int| 0 <= j < elif_branches@.len() && (#[trigger] elif_branches@[j]).0 == x;
                lemma_elif_conditions_hold(elif_branches@, x, j);
            }
        },
        Statement::Switch { value, cases, .. } => {
            if value != Some(x) {
                let j = choose|j: int| 0 <= j < cases@.len() && (#[trigger] cases@[j]).patterns@.contains(x);
                lemma_case_patterns_hold(cases@, x, j);
            }
        },
        _ => {},
    }
}


proof fn lemma_match_records_only_matched(p: TypeView, a: TypeView, m: Map<Seq<char>, TypeView>)
    ensures
        forall|t: Seq<char>| #[trigger] match_params(p, a, m).dom().contains(t) ==> m.dom().contains(t) || matched_names(p).contains(t),
    decreases p, 0int,
{
    match p {
        TypeView::Tuple(ps) => match a {
            TypeView::Tuple(args) => {
                lemma_match_list_records_only_matched(ps, args, m, 0);
                let r = match_params(p, a, m);
                assert(r == match_list(ps, args, 0, m));
                assert(matched_names(p) == matched_names_list(ps, 0));
                assert forall|t: Seq<char>| #[trigger] r.dom().contains(t) implies m.dom().contains(t) || matched_names(p).contains(t) by {
                    assert(match_list(ps, args, 0, m).dom().contains(t));
                }
            },
            _ => {
                assert(match_params(p, a, m) == m);
            },
        },
        TypeView::Reference(ip, _) => match a {
            TypeView::Reference(ia, _) => {
                lemma_match_records_only_matched(*ip, *ia, m);
                assert(match_params(p, a, m) == match_params(*ip, *ia, m));
                assert(matched_names(p) == matched_names(*ip));
            },
            _ => {},
        },
        TypeView::Option(ip) => match a {
            TypeView::Option(ia) => {
                lemma_match_records_only_matched(*ip, *ia, m);
                assert(match_params(p, a, m) == match_params(*ip, *ia, m));
                assert(matched_names(p) == matched_names(*ip));
            },
            _ => {},
        },
        TypeView::Result(okp, errp) => match a {
            TypeView::Result(oka, erra) => {
                lemma_match_records_only_matched(*okp, *oka, m);
                let m1 = match_params(*okp, *oka, m);
                lemma_match_records_only_matched(*errp, *erra, m1);
                let r = match_params(p, a, m);
                assert(r == match_params(*errp, *erra, m1));
                assert forall|t: Seq<char>| #[trigger] r.dom().contains(t) implies m.dom().contains(t) || matched_names(p).contains(t) by {
                    if !matched_names(*errp).contains(t) {
                        assert(m1.dom().contains(t));
                    }
                }
            },
            _ => {},
        },
        TypeView::Vec(ip) => match a {
            TypeView::Vec(ia) => {
                lemma_match_records_only_matched(*ip, *ia, m);
                assert(match_params(p, a, m) == match_params(*ip, *ia, m));
                assert(matched_names(p) == matched_names(*ip));
            },
            _ => {},
        },
        TypeView::Generic { name, type_args } => match a {
            TypeView::Generic { name: arg_name, type_args: arg_args } => {
                if name == arg_name {
                    lemma_match_list_records_only_matched(type_args, arg_args, m, 0);
                    assert(match_params(p, a, m) == match_list(type_args, arg_args, 0, m));
                    assert(matched_names(p) == matched_names_list(type_args, 0));
                }
            },
            _ => {},
        },
        TypeView::Named(n) => {
            if is_type_param_name(n) {
                assert(matched_names(p) =~= set![n]);
                assert(match_params(p, a, m) == m.insert(n, a));
            } else {
                assert(match_params(p, a, m) == m);
            }
        },
        _ => {
            assert(match_params(p, a, m) == m);
        },
    }
}

proof fn lemma_match_list_records_only_matched(ps: Seq<TypeView>, args: Seq<TypeView>, m: Map<Seq<char>, TypeView>, i: int)
    ensures
        forall|t: Seq<char>| #[trigger] match_list(ps, args, i, m).dom().contains(t)
            ==> m.dom().contains(t) || matched_names_list(ps, i).contains(t),
    decreases ps, ps.len() - i,
{
    if !(i < 0 || i >= ps.len() || i >= args.len()) {
        lemma_match_records_only_matched(ps[i], args[i], m);
        let m1 = match_params(ps[i], args[i], m);
        lemma_match_list_records_only_matched(ps, args, m1, i + 1);
        let r = match_list(ps, args, i, m);
        assert(r == match_list(ps, args, i + 1, m1));
        assert(matched_names_list(ps, i) == matched_names(ps[i]).union(matched_names_list(ps, i + 1)));
        assert forall|t: Seq<char>| #[trigger] r.dom().contains(t) implies m.dom().contains(t) || matched_names_list(ps, i).contains(t) by {
            if !matched_names_list(ps, i + 1).contains(t) {
                assert(m1.dom().contains(t));
            }
        }
    }
}

proof fn lemma_missing_arg_fails(tps: Seq<TypeParam>, i: int, r: Map<Seq<char>, TypeView>, func: Seq<char>, k: int)
    requires
        0 <= i <= k < tps.len(),
        !r.dom().contains(tps[k].name@),
    ensures
        type_args_in_order(tps, i, r, func) is Err,
    decreases k - i,
{
    if r.dom().contains(tps[i].name@) {
        lemma_missing_arg_fails(tps, i + 1, r, func, k);
    }
}

/// Inference only finds what the parameter types hold: a type parameter
/// that no parameter type holds where matching looks is never inferred,
/// whatever the argument types, and the call's type arguments cannot be
/// inferred.
pub proof fn law_unmatched_type_param_fails(f: Function, arg_types: Seq<TypeView>, k: int)
    requires
        0 <= k < f.type_params@.len(),
        !matched_names_list(param_type_views(f.params@), 0).contains(f.type_params@[k].name@),
    ensures
        inferred_type_args(f, arg_types) is Err,
{
    let pv = param_type_views(f.params@);
    lemma_match_list_records_only_matched(pv, arg_types, Map::empty(), 0);
    let r = match_list(pv, arg_types, 0, Map::empty());
    assert(!r.dom().contains(f.type_params@[k].name@));
    lemma_missing_arg_fails(f.type_params@, 0, r, f.name@, k);
}

} // verus!
