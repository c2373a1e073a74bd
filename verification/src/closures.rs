//! What the code generator reads off a closure before compiling it: the
//! local variables it captures, and the types of its parameters and result
//! when they are not written down.
use vstd::prelude::*;
use crate::ast::{BinaryOp, Expression, MatchArm, Param, Statement, Type, TypeView};
use crate::codegen::{seqs_of, ASTCodeGen};
use crate::strmap::StrMap;
use crate::text::str_eq;
use crate::type_ops::copy_type;

verus! {

// ---------------------------------------------------------------------------
// Captured variables
// ---------------------------------------------------------------------------

/// The names of a list of parameters.
pub open spec fn param_names(ps: Seq<Param>) -> Seq<Seq<char>> {
    ps.map_values(|p: Param| p.name@)
}

/// The identifiers a closure body uses that are local variables of the
/// enclosing function and not parameters of the closure, in the order the
/// body is read: operands left to right, a call's function before its
/// arguments, a method call's receiver before its arguments, an index's
/// object before the index, struct literal fields in order, a match's
/// value and then each arm's guard before its body, and a block's result.
/// Other expressions (and a block's statements) are not looked into.
pub open spec fn captured_in(e: Expression, params: Seq<Seq<char>>, locals: Set<Seq<char>>) -> Seq<Seq<char>>
    decreases e,
{
    match e {
        Expression::Ident(name) => if !params.contains(name@) && locals.contains(name@) {
            seq![name@]
        } else {
            Seq::empty()
        },
        Expression::Binary { left, right, .. } => captured_in(*left, params, locals) + captured_in(*right, params, locals),
        Expression::Unary { expr, .. } => captured_in(*expr, params, locals),
        Expression::Call { func, args, .. } => captured_in(*func, params, locals) + captured_in_list(args@, params, locals),
        Expression::MethodCall { receiver, args, .. } => captured_in(*receiver, params, locals)
            + captured_in_list(args@, params, locals),
        Expression::FieldAccess { object, .. } => captured_in(*object, params, locals),
        Expression::Index { object, index } => captured_in(*object, params, locals) + captured_in(*index, params, locals),
        Expression::Array(es) => captured_in_list(es@, params, locals),
        Expression::TupleLiteral(es) => captured_in_list(es@, params, locals),
        Expression::StructLiteral { fields, .. } => captured_in_fields(fields@, params, locals),
        Expression::Match { value, arms } => captured_in(*value, params, locals) + captured_in_arms(arms@, params, locals),
        Expression::Block { return_expr, .. } => match return_expr {
            Some(r) => captured_in(*r, params, locals),
            None => Seq::empty(),
        },
        _ => Seq::empty(),
    }
}

pub open spec fn captured_in_list(es: Seq<Expression>, params: Seq<Seq<char>>, locals: Set<Seq<char>>) -> Seq<Seq<char>>
    decreases es,
{
    if es.len() == 0 {
        Seq::empty()
    } else {
        captured_in_list(es.drop_last(), params, locals) + captured_in(es.last(), params, locals)
    }
}

pub open spec fn captured_in_fields(
    fs: Seq<(String, Expression)>,
    params: Seq<Seq<char>>,
    locals: Set<Seq<char>>,
) -> Seq<Seq<char>>
    decreases fs,
{
    if fs.len() == 0 {
        Seq::empty()
    } else {
        captured_in_fields(fs.drop_last(), params, locals) + captured_in(fs.last().1, params, locals)
    }
}

pub open spec fn captured_in_arms(arms: Seq<MatchArm>, params: Seq<Seq<char>>, locals: Set<Seq<char>>) -> Seq<Seq<char>>
    decreases arms,
{
    if arms.len() == 0 {
        Seq::empty()
    } else {
        let arm = arms.last();
        captured_in_arms(arms.drop_last(), params, locals) + captured_in_opt(arm.guard, params, locals)
            + captured_in(arm.body, params, locals)
    }
}

pub open spec fn captured_in_opt(o: Option<Expression>, params: Seq<Seq<char>>, locals: Set<Seq<char>>) -> Seq<Seq<char>>
    decreases o,
{
    match o {
        Some(g) => captured_in(g, params, locals),
        None => Seq::empty(),
    }
}

/// `acc` followed by the names of `s` it does not hold yet, each once, in
/// the order of their first occurrence.
pub open spec fn add_new(acc: Seq<Seq<char>>, s: Seq<Seq<char>>) -> Seq<Seq<char>>
    decreases s.len(),
{
    if s.len() == 0 {
        acc
    } else {
        let r = add_new(acc, s.drop_last());
        if r.contains(s.last()) { r } else { r.push(s.last()) }
    }
}

/// Adding two lists of names one after the other adds their concatenation.
pub proof fn lemma_add_new_concat(acc: Seq<Seq<char>>, s1: Seq<Seq<char>>, s2: Seq<Seq<char>>)
    ensures
        add_new(add_new(acc, s1), s2) == add_new(acc, s1 + s2),
    decreases s2.len(),
{
    if s2.len() == 0 {
        assert(s1 + s2 =~= s1);
    } else {
        lemma_add_new_concat(acc, s1, s2.drop_last());
        assert((s1 + s2).drop_last() =~= s1 + s2.drop_last());
        assert((s1 + s2).last() == s2.last());
    }
}

/// Whether `name` is among `names`.
fn contains_str(names: &Vec<String>, name: &str) -> (r: bool)
    ensures
        r == seqs_of(names@).contains(name@),
{
    let ghost s = seqs_of(names@);
    let mut i: usize = 0;
    while i < names.len()
        invariant
            s == seqs_of(names@),
            i <= names@.len(),
            forall|j: int| 0 <= j < i ==> s[j] != name@,
        decreases names@.len() - i,
    {
        if str_eq(names[i].as_str(), name) {
            assert(s[i as int] == name@);
            return true;
        }
        i = i + 1;
    }
    false
}

/// Whether a parameter is named `name`.
fn is_param(params: &[Param], name: &str) -> (r: bool)
    ensures
        r == param_names(params@).contains(name@),
{
    let ghost s = param_names(params@);
    let mut i: usize = 0;
    while i < params.len()
        invariant
            s == param_names(params@),
            i <= params@.len(),
            forall|j: int| 0 <= j < i ==> s[j] != name@,
        decreases params@.len() - i,
    {
        if str_eq(params[i].name.as_str(), name) {
            assert(s[i as int] == name@);
            return true;
        }
        i = i + 1;
    }
    false
}

impl ASTCodeGen {
    /// The variables a closure body captures: the local variables of the
    /// enclosing function (`locals`) that it uses and that are not among
    /// its parameters, each once, in the order of first use.
    pub fn find_free_variables(&self, expr: &Expression, params: &[Param], locals: &StrMap<()>) -> (r: Vec<String>)
        ensures
            seqs_of(r@) == add_new(Seq::empty(), captured_in(*expr, param_names(params@), locals.view().dom())),
    {
        let mut free_vars: Vec<String> = Vec::new();
        assert(seqs_of(free_vars@) =~= Seq::<Seq<char>>::empty());
        self.collect_variables(expr, params, locals, &mut free_vars);
        free_vars
    }

    /// Adds to `free_vars` the variables `expr` captures that it does not
    /// hold yet.
    fn collect_variables(&self, expr: &Expression, params: &[Param], locals: &StrMap<()>, free_vars: &mut Vec<String>)
        ensures
            seqs_of(final(free_vars)@) == add_new(
                seqs_of(old(free_vars)@),
                captured_in(*expr, param_names(params@), locals.view().dom()),
            ),
        decreases *expr,
    {
        let ghost ps = param_names(params@);
        let ghost ls = locals.view().dom();
        match expr {
            Expression::Ident(name) => {
                if !is_param(params, name.as_str()) && !contains_str(free_vars, name.as_str()) {
                    if locals.contains_key(name.as_str()) {
                        free_vars.push(name.clone());
                        assert(seqs_of(free_vars@) =~= seqs_of(old(free_vars)@).push(name@));
                    }
                }
                proof {
                    let s = captured_in(*expr, ps, ls);
                    let acc = seqs_of(old(free_vars)@);
                    assert(add_new(acc, Seq::empty()) == acc);
                    if !ps.contains(name@) && ls.contains(name@) {
                        assert(s == seq![name@]);
                        assert(s.drop_last() =~= Seq::<Seq<char>>::empty());
                        assert(add_new(acc, s.drop_last()) == acc);
                        assert(s.last() == name@);
                    } else {
                        assert(s =~= Seq::<Seq<char>>::empty());
                        assert(seqs_of(free_vars@) =~= acc);
                    }
                }
            }
            Expression::Binary { left, right, .. } => {
                self.collect_variables(left, params, locals, free_vars);
                self.collect_variables(right, params, locals, free_vars);
                proof {
                    lemma_add_new_concat(seqs_of(old(free_vars)@), captured_in(**left, ps, ls), captured_in(**right, ps, ls));
                }
            }
            Expression::Unary { expr, .. } => {
                self.collect_variables(expr, params, locals, free_vars);
            }
            Expression::Call { func, args, .. } => {
                self.collect_variables(func, params, locals, free_vars);
                self.collect_variables_in_list(args, params, locals, free_vars);
                proof {
                    lemma_add_new_concat(seqs_of(old(free_vars)@), captured_in(**func, ps, ls), captured_in_list(args@, ps, ls));
                }
            }
            Expression::MethodCall { receiver, args, .. } => {
                self.collect_variables(receiver, params, locals, free_vars);
                self.collect_variables_in_list(args, params, locals, free_vars);
                proof {
                    lemma_add_new_concat(seqs_of(old(free_vars)@), captured_in(**receiver, ps, ls), captured_in_list(args@, ps, ls));
                }
            }
            Expression::FieldAccess { object, .. } => {
                self.collect_variables(object, params, locals, free_vars);
            }
            Expression::Index { object, index } => {
                self.collect_variables(object, params, locals, free_vars);
                self.collect_variables(index, params, locals, free_vars);
                proof {
                    lemma_add_new_concat(seqs_of(old(free_vars)@), captured_in(**object, ps, ls), captured_in(**index, ps, ls));
                }
            }
            Expression::Array(elements) => {
                self.collect_variables_in_list(elements, params, locals, free_vars);
            }
            Expression::TupleLiteral(elements) => {
                self.collect_variables_in_list(elements, params, locals, free_vars);
            }
            Expression::StructLiteral { fields, .. } => {
                self.collect_variables_in_fields(fields, params, locals, free_vars);
            }
            Expression::Match { value, arms } => {
                self.collect_variables(value, params, locals, free_vars);
                self.collect_variables_in_arms(arms, params, locals, free_vars);
                proof {
                    lemma_add_new_concat(seqs_of(old(free_vars)@), captured_in(**value, ps, ls), captured_in_arms(arms@, ps, ls));
                }
            }
            Expression::Block { return_expr, .. } => {
                match return_expr {
                    Some(ret) => {
                        self.collect_variables(ret, params, locals, free_vars);
                    }
                    None => {}
                }
            }
            _ => {}
        }
    }

    fn collect_variables_in_list(&self, es: &Vec<Expression>, params: &[Param], locals: &StrMap<()>, free_vars: &mut Vec<String>)
        ensures
            seqs_of(final(free_vars)@) == add_new(
                seqs_of(old(free_vars)@),
                captured_in_list(es@, param_names(params@), locals.view().dom()),
            ),
        decreases es,
    {
        let ghost ps = param_names(params@);
        let ghost ls = locals.view().dom();
        let mut i: usize = 0;
        while i < es.len()
            invariant
                ps == param_names(params@),
                ls == locals.view().dom(),
                i <= es@.len(),
                seqs_of(free_vars@) == add_new(seqs_of(old(free_vars)@), captured_in_list(es@.take(i as int), ps, ls)),
            decreases es@.len() - i,
        {
            proof {
                vstd::std_specs::vec::axiom_vec_index_decreases(*es, i as int);
            }
            let ghost before = seqs_of(free_vars@);
            self.collect_variables(&es[i], params, locals, free_vars);
            proof {
                assert(es@.take(i + 1).drop_last() =~= es@.take(i as int));
                lemma_add_new_concat(seqs_of(old(free_vars)@), captured_in_list(es@.take(i as int), ps, ls), captured_in(es@[i as int], ps, ls));
            }
            i = i + 1;
        }
        assert(es@.take(i as int) =~= es@);
    }

    fn collect_variables_in_fields(
        &self,
        fs: &Vec<(String, Expression)>,
        params: &[Param],
        locals: &StrMap<()>,
        free_vars: &mut Vec<String>,
    )
        ensures
            seqs_of(final(free_vars)@) == add_new(
                seqs_of(old(free_vars)@),
                captured_in_fields(fs@, param_names(params@), locals.view().dom()),
            ),
        decreases fs,
    {
        let ghost ps = param_names(params@);
        let ghost ls = locals.view().dom();
        let mut i: usize = 0;
        while i < fs.len()
            invariant
                ps == param_names(params@),
                ls == locals.view().dom(),
                i <= fs@.len(),
                seqs_of(free_vars@) == add_new(seqs_of(old(free_vars)@), captured_in_fields(fs@.take(i as int), ps, ls)),
            decreases fs@.len() - i,
        {
            proof {
                vstd::std_specs::vec::axiom_vec_index_decreases(*fs, i as int);
            }
            self.collect_variables(&fs[i].1, params, locals, free_vars);
            proof {
                assert(fs@.take(i + 1).drop_last() =~= fs@.take(i as int));
                lemma_add_new_concat(seqs_of(old(free_vars)@), captured_in_fields(fs@.take(i as int), ps, ls), captured_in(fs@[i as int].1, ps, ls));
            }
            i = i + 1;
        }
        assert(fs@.take(i as int) =~= fs@);
    }

    fn collect_variables_in_arms(&self, arms: &Vec<MatchArm>, params: &[Param], locals: &StrMap<()>, free_vars: &mut Vec<String>)
        ensures
            seqs_of(final(free_vars)@) == add_new(
                seqs_of(old(free_vars)@),
                captured_in_arms(arms@, param_names(params@), locals.view().dom()),
            ),
        decreases arms,
    {
        let ghost ps = param_names(params@);
        let ghost ls = locals.view().dom();
        let mut i: usize = 0;
        while i < arms.len()
            invariant
                ps == param_names(params@),
                ls == locals.view().dom(),
                i <= arms@.len(),
                seqs_of(free_vars@) == add_new(seqs_of(old(free_vars)@), captured_in_arms(arms@.take(i as int), ps, ls)),
            decreases arms@.len() - i,
        {
            proof {
                vstd::std_specs::vec::axiom_vec_index_decreases(*arms, i as int);
            }
            let arm = &arms[i];
            let ghost g = captured_in_opt(arm.guard, ps, ls);
            let ghost before = seqs_of(free_vars@);
            match &arm.guard {
                Some(guard) => {
                    self.collect_variables(guard, params, locals, free_vars);
                }
                None => {
                    assert(add_new(before, g) == before);
                }
            }
            self.collect_variables(&arm.body, params, locals, free_vars);
            proof {
                assert(arms@.take(i + 1).drop_last() =~= arms@.take(i as int));
                let prev = captured_in_arms(arms@.take(i as int), ps, ls);
                lemma_add_new_concat(seqs_of(old(free_vars)@), prev, g);
                lemma_add_new_concat(seqs_of(old(free_vars)@), prev + g, captured_in(arm.body, ps, ls));
            }
            i = i + 1;
        }
        assert(arms@.take(i as int) =~= arms@);
    }
}

// ---------------------------------------------------------------------------
// Parameter and result types
// ---------------------------------------------------------------------------

/// The value of an optional type.
pub open spec fn opt_type_view(t: Option<Type>) -> Option<TypeView> {
    match t {
        Some(x) => Some(x@),
        None => None,
    }
}

/// The arithmetic operators, whose result has the type of their operands.
pub open spec fn is_arithmetic(op: BinaryOp) -> bool {
    op is Add || op is Sub || op is Mul || op is Div || op is Mod || op is Pow
}

/// The comparison and logical operators, whose result is a `bool`.
pub open spec fn is_boolean_op(op: BinaryOp) -> bool {
    op is Eq || op is NotEq || op is Lt || op is LtEq || op is Gt || op is GtEq || op is And || op is Or
}

/// The built-in conversions to `string`.
pub open spec fn is_to_string_builtin(name: Seq<char>) -> bool {
    name == "i32_to_string"@ || name == "f64_to_string"@ || name == "bool_to_string"@
}

/// The type an expression evidently has, from its form alone: `i32`,
/// `f64`, `bool` and `string` literals; an arithmetic operation has the
/// type of its left operand, or else of its right one; comparisons and
/// logical operations are `bool`; the built-in conversions to string give
/// `string`; a block has the type of its last statement when that is an
/// expression. Anything else (a variable among them) gives no type.
pub open spec fn expr_type_guess(e: Expression) -> Option<TypeView>
    decreases e,
{
    match e {
        Expression::IntLiteral(_) => Some(TypeView::I32),
        Expression::FloatLiteral(_) => Some(TypeView::F64),
        Expression::BoolLiteral(_) => Some(TypeView::Bool),
        Expression::StringLiteral(_) => Some(TypeView::String),
        Expression::Binary { left, right, op, .. } => if is_arithmetic(op) {
            match expr_type_guess(*left) {
                Some(t) => Some(t),
                None => expr_type_guess(*right),
            }
        } else if is_boolean_op(op) {
            Some(TypeView::Bool)
        } else {
            None
        },
        Expression::Call { func, .. } => match *func {
            Expression::Ident(name) => if is_to_string_builtin(name@) { Some(TypeView::String) } else { None },
            _ => None,
        },
        Expression::Block { statements, .. } => if statements@.len() > 0 {
            match statements@[statements@.len() - 1] {
                Statement::Expression(x) => expr_type_guess(x),
                _ => None,
            }
        } else {
            None
        },
        _ => None,
    }
}

/// The type of the parameter `p` evident from how the body uses it: when
/// it is an operand of a binary operation, the type of the other operand;
/// otherwise what the two operands show, left first; in a call, what the
/// first argument that shows anything shows, else what the called
/// expression shows; in a block, what its last statement shows when that
/// is an expression.
pub open spec fn param_type_guess(p: Seq<char>, e: Expression) -> Option<TypeView>
    decreases e,
{
    match e {
        Expression::Binary { left, right, .. } => if (*left matches Expression::Ident(n) && n@ == p) {
            expr_type_guess(*right)
        } else if (*right matches Expression::Ident(n) && n@ == p) {
            expr_type_guess(*left)
        } else {
            match param_type_guess(p, *left) {
                Some(t) => Some(t),
                None => param_type_guess(p, *right),
            }
        },
        Expression::Call { func, args, .. } => match param_type_in_args(p, args@) {
            Some(t) => Some(t),
            None => param_type_guess(p, *func),
        },
        Expression::Block { statements, .. } => if statements@.len() > 0 {
            match statements@[statements@.len() - 1] {
                Statement::Expression(x) => param_type_guess(p, x),
                _ => None,
            }
        } else {
            None
        },
        _ => None,
    }
}

/// What the first of `args` that shows the type of `p` shows.
pub open spec fn param_type_in_args(p: Seq<char>, args: Seq<Expression>) -> Option<TypeView>
    decreases args,
{
    if args.len() == 0 {
        None
    } else {
        match param_type_guess(p, args[0]) {
            Some(t) => Some(t),
            None => param_type_in_args(p, args.drop_first()),
        }
    }
}

fn is_arithmetic_op(op: &BinaryOp) -> (r: bool)
    ensures
        r == is_arithmetic(*op),
{
    match op {
        BinaryOp::Add | BinaryOp::Sub | BinaryOp::Mul | BinaryOp::Div | BinaryOp::Mod | BinaryOp::Pow => true,
        _ => false,
    }
}

fn is_boolean_operator(op: &BinaryOp) -> (r: bool)
    ensures
        r == is_boolean_op(*op),
{
    match op {
        BinaryOp::Eq | BinaryOp::NotEq | BinaryOp::Lt | BinaryOp::LtEq | BinaryOp::Gt | BinaryOp::GtEq
        | BinaryOp::And | BinaryOp::Or => true,
        _ => false,
    }
}

fn is_ident_named(e: &Expression, name: &str) -> (r: bool)
    ensures
        r == (*e matches Expression::Ident(n) && n@ == name@),
{
    match e {
        Expression::Ident(n) => str_eq(n.as_str(), name),
        _ => false,
    }
}

impl ASTCodeGen {
    /// The type an expression evidently has (see `expr_type_guess`).
    fn infer_expr_type(&self, expr: &Expression) -> (r: Option<Type>)
        ensures
            opt_type_view(r) == expr_type_guess(*expr),
        decreases *expr,
    {
        match expr {
            Expression::IntLiteral(_) => Some(Type::I32),
            Expression::FloatLiteral(_) => Some(Type::F64),
            Expression::BoolLiteral(_) => Some(Type::Bool),
            Expression::StringLiteral(_) => Some(Type::String),
            Expression::Binary { left, right, op, .. } => {
                if is_arithmetic_op(op) {
                    match self.infer_expr_type(left) {
                        Some(t) => Some(t),
                        None => self.infer_expr_type(right),
                    }
                } else if is_boolean_operator(op) {
                    Some(Type::Bool)
                } else {
                    None
                }
            }
            Expression::Call { func, .. } => match &**func {
                Expression::Ident(fn_name) => {
                    let n = fn_name.as_str();
                    if str_eq(n, "i32_to_string") || str_eq(n, "f64_to_string") || str_eq(n, "bool_to_string") {
                        Some(Type::String)
                    } else {
                        None
                    }
                }
                _ => None,
            },
            Expression::Block { statements, .. } => {
                if statements.len() > 0 {
                    let k = statements.len() - 1;
                    proof {
                        vstd::std_specs::vec::axiom_vec_index_decreases(*statements, k as int);
                    }
                    match &statements[k] {
                        Statement::Expression(e) => self.infer_expr_type(e),
                        _ => None,
                    }
                } else {
                    None
                }
            }
            _ => None,
        }
    }

    /// The type of the closure parameter `param_name` evident from its use
    /// in `body` (see `param_type_guess`).
    #[verifier::loop_isolation(false)]
    pub fn infer_param_type_from_body(&self, param_name: &str, body: &Expression) -> (r: Option<Type>)
        ensures
            opt_type_view(r) == param_type_guess(param_name@, *body),
        decreases *body,
    {
        match body {
            Expression::Binary { left, right, .. } => {
                if is_ident_named(left, param_name) {
                    return self.infer_expr_type(right);
                }
                if is_ident_named(right, param_name) {
                    return self.infer_expr_type(left);
                }
                match self.infer_param_type_from_body(param_name, left) {
                    Some(t) => Some(t),
                    None => self.infer_param_type_from_body(param_name, right),
                }
            }
            Expression::Call { func, args, .. } => {
                let mut i: usize = 0;
                assert(args@.subrange(0, args@.len() as int) =~= args@);
                while i < args.len()
                    invariant
                        i <= args@.len(),
                        param_type_in_args(param_name@, args@) == param_type_in_args(
                            param_name@,
                            args@.subrange(i as int, args@.len() as int),
                        ),
                    decreases args@.len() - i,
                {
                    proof {
                        vstd::std_specs::vec::axiom_vec_index_decreases(*args, i as int);
                        let rest = args@.subrange(i as int, args@.len() as int);
                        assert(rest[0] == args@[i as int]);
                        assert(rest.drop_first() =~= args@.subrange(i + 1, args@.len() as int));
                    }
                    match self.infer_param_type_from_body(param_name, &args[i]) {
                        Some(ty) => {
                            assert(param_type_in_args(param_name@, args@.subrange(i as int, args@.len() as int)) == Some(ty@));
                            return Some(ty);
                        }
                        None => {}
                    }
                    i = i + 1;
                }
                assert(args@.subrange(i as int, args@.len() as int) =~= Seq::<Expression>::empty());
                self.infer_param_type_from_body(param_name, func)
            }
            Expression::Block { statements, .. } => {
                if statements.len() > 0 {
                    let k = statements.len() - 1;
                    proof {
                        vstd::std_specs::vec::axiom_vec_index_decreases(*statements, k as int);
                    }
                    match &statements[k] {
                        Statement::Expression(e) => self.infer_param_type_from_body(param_name, e),
                        _ => None,
                    }
                } else {
                    None
                }
            }
            _ => None,
        }
    }

    /// The result type of a closure evident from its body: that of the
    /// block's last statement when it is an expression, or that of the body
    /// expression.
    pub fn infer_return_type_from_body(&self, body: &Expression) -> (r: Option<Type>)
        ensures
            opt_type_view(r) == expr_type_guess(*body),
    {
        match body {
            Expression::Block { statements, .. } => {
                if statements.len() > 0 {
                    match &statements[statements.len() - 1] {
                        Statement::Expression(e) => self.infer_expr_type(e),
                        _ => None,
                    }
                } else {
                    None
                }
            }
            _ => self.infer_expr_type(body),
        }
    }
}

} // verus!
