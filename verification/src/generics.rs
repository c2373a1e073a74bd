//! Specializing generic code: substituting concrete types for type
//! parameters in types, expressions, statements, functions and methods.
use vstd::prelude::*;
use crate::ast::{type_views, Block, Expression, Function, Param, Receiver, Statement, Type, TypeParam, TypeView};
use crate::codegen::{seqs_of, ASTCodeGen};
use crate::strmap::StrMap;
use crate::struct_deps::{join_names, joined};
use crate::text::{starts_with, str_eq};
use crate::type_ops::{copy_type, types_map};
use crate::inline_optimizer::has_prefix;
use vstd::string::*;

verus! {

// ---------------------------------------------------------------------------
// Types
// ---------------------------------------------------------------------------

/// `t` with every named type that `m` maps replaced by its image, in every
/// component of a compound type.
pub open spec fn subst_type(t: TypeView, m: Map<Seq<char>, TypeView>) -> TypeView
    decreases t,
{
    match t {
        TypeView::Named(n) => if m.dom().contains(n) { m[n] } else { t },
        TypeView::Generic { name, type_args } => TypeView::Generic { name, type_args: subst_type_list(type_args, m) },
        TypeView::Reference(inner, mu) => TypeView::Reference(Box::new(subst_type(*inner, m)), mu),
        TypeView::Array(inner, n) => TypeView::Array(Box::new(subst_type(*inner, m)), n),
        TypeView::ConstArray { elem_type, size_param } => TypeView::ConstArray {
            elem_type: Box::new(subst_type(*elem_type, m)),
            size_param,
        },
        TypeView::Slice(inner, mu) => TypeView::Slice(Box::new(subst_type(*inner, m)), mu),
        TypeView::Tuple(ts) => TypeView::Tuple(subst_type_list(ts, m)),
        TypeView::Function { params, return_type } => TypeView::Function {
            params: subst_type_list(params, m),
            return_type: Box::new(subst_type(*return_type, m)),
        },
        TypeView::Union(ts) => TypeView::Union(subst_type_list(ts, m)),
        TypeView::Intersection(ts) => TypeView::Intersection(subst_type_list(ts, m)),
        TypeView::RawPtr { inner, is_const } => TypeView::RawPtr { inner: Box::new(subst_type(*inner, m)), is_const },
        TypeView::Option(inner) => TypeView::Option(Box::new(subst_type(*inner, m))),
        TypeView::Result(ok, err) => TypeView::Result(Box::new(subst_type(*ok, m)), Box::new(subst_type(*err, m))),
        TypeView::Vec(inner) => TypeView::Vec(Box::new(subst_type(*inner, m))),
        TypeView::Box(inner) => TypeView::Box(Box::new(subst_type(*inner, m))),
        TypeView::Channel(inner) => TypeView::Channel(Box::new(subst_type(*inner, m))),
        TypeView::Future(inner) => TypeView::Future(Box::new(subst_type(*inner, m))),
        TypeView::AssociatedType { self_type, name } => TypeView::AssociatedType {
            self_type: Box::new(subst_type(*self_type, m)),
            name,
        },
        TypeView::Conditional { check_type, extends_type, true_type, false_type } => TypeView::Conditional {
            check_type: Box::new(subst_type(*check_type, m)),
            extends_type: Box::new(subst_type(*extends_type, m)),
            true_type: Box::new(subst_type(*true_type, m)),
            false_type: Box::new(subst_type(*false_type, m)),
        },
        _ => t,
    }
}

/// `subst_type` on each type of a list.
pub open spec fn subst_type_list(ts: Seq<TypeView>, m: Map<Seq<char>, TypeView>) -> Seq<TypeView>
    decreases ts,
{
    if ts.len() == 0 {
        Seq::empty()
    } else {
        subst_type_list(ts.drop_last(), m).push(subst_type(ts.last(), m))
    }
}

fn substitute_type_list(ts: &Vec<Type>, type_subst: &StrMap<Type>) -> (r: Vec<Type>)
    ensures
        type_views(r@) == subst_type_list(type_views(ts@), types_map(type_subst.view())),
    decreases ts@,
{
    let ghost m = types_map(type_subst.view());
    let mut r: Vec<Type> = Vec::new();
    let mut i: usize = 0;
    while i < ts.len()
        invariant
            m == types_map(type_subst.view()),
            i <= ts@.len(),
            type_views(r@) == subst_type_list(type_views(ts@.take(i as int)), m),
        decreases ts@.len() - i,
    {
        let x = substitute_type(&ts[i], type_subst);
        let ghost before = r@;
        r.push(x);
        proof {
            assert(r@.drop_last() =~= before);
            assert(ts@.take(i + 1).drop_last() =~= ts@.take(i as int));
            assert(type_views(ts@.take(i + 1)).drop_last() =~= type_views(ts@.take(i as int)));
        }
        i = i + 1;
    }
    assert(ts@.take(ts@.len() as int) =~= ts@);
    r
}

/// `ty` with the type parameters that `type_subst` maps replaced by their
/// concrete types (see `subst_type`).
pub fn substitute_type(ty: &Type, type_subst: &StrMap<Type>) -> (r: Type)
    ensures
        r@ == subst_type(ty@, types_map(type_subst.view())),
    decreases *ty,
{
    match ty {
        Type::Named(name) => match type_subst.get(name.as_str()) {
            Some(t) => copy_type(t),
            None => copy_type(ty),
        },
        Type::Generic { name, type_args } => Type::Generic {
            name: name.clone(),
            type_args: substitute_type_list(type_args, type_subst),
        },
        Type::Reference(inner, mu) => Type::Reference(Box::new(substitute_type(inner, type_subst)), *mu),
        Type::Array(inner, n) => Type::Array(Box::new(substitute_type(inner, type_subst)), *n),
        Type::ConstArray { elem_type, size_param } => Type::ConstArray {
            elem_type: Box::new(substitute_type(elem_type, type_subst)),
            size_param: size_param.clone(),
        },
        Type::Slice(inner, mu) => Type::Slice(Box::new(substitute_type(inner, type_subst)), *mu),
        Type::Tuple(ts) => Type::Tuple(substitute_type_list(ts, type_subst)),
        Type::Function { params, return_type } => Type::Function {
            params: substitute_type_list(params, type_subst),
            return_type: Box::new(substitute_type(return_type, type_subst)),
        },
        Type::Union(ts) => Type::Union(substitute_type_list(ts, type_subst)),
        Type::Intersection(ts) => Type::Intersection(substitute_type_list(ts, type_subst)),
        Type::RawPtr { inner, is_const } => Type::RawPtr {
            inner: Box::new(substitute_type(inner, type_subst)),
            is_const: *is_const,
        },
        Type::Option(inner) => Type::Option(Box::new(substitute_type(inner, type_subst))),
        Type::Result(ok, err) => Type::Result(
            Box::new(substitute_type(ok, type_subst)),
            Box::new(substitute_type(err, type_subst)),
        ),
        Type::Vec(inner) => Type::Vec(Box::new(substitute_type(inner, type_subst))),
        Type::Box(inner) => Type::Box(Box::new(substitute_type(inner, type_subst))),
        Type::Channel(inner) => Type::Channel(Box::new(substitute_type(inner, type_subst))),
        Type::Future(inner) => Type::Future(Box::new(substitute_type(inner, type_subst))),
        Type::AssociatedType { self_type, name } => Type::AssociatedType {
            self_type: Box::new(substitute_type(self_type, type_subst)),
            name: name.clone(),
        },
        Type::Conditional { check_type, extends_type, true_type, false_type } => Type::Conditional {
            check_type: Box::new(substitute_type(check_type, type_subst)),
            extends_type: Box::new(substitute_type(extends_type, type_subst)),
            true_type: Box::new(substitute_type(true_type, type_subst)),
            false_type: Box::new(substitute_type(false_type, type_subst)),
        },
        _ => copy_type(ty),
    }
}


// ---------------------------------------------------------------------------
// Expressions and statements
// ---------------------------------------------------------------------------

/// An optional type after substitution.
pub open spec fn opt_type_subst(a: Option<Type>, b: Option<Type>, m: Map<Seq<char>, TypeView>) -> bool {
    match a {
        Some(t) => b matches Some(u) && u@ == subst_type(t@, m),
        None => b is None,
    }
}

/// `b` is `a` with the types it carries substituted: the type arguments of
/// struct literals, calls and method calls and the target of casts, inside
/// struct literals, binary and unary operations, calls, method calls,
/// indexing, casts, tuples, arrays, field accesses, references,
/// dereferences and blocks. Any other expression is kept as it is, with
/// what is inside it.
pub open spec fn expr_subst(a: Expression, b: Expression, m: Map<Seq<char>, TypeView>) -> bool
    decreases a,
{
    match a {
        Expression::StructLiteral { name, type_args, fields } => b matches Expression::StructLiteral {
            name: n2,
            type_args: t2,
            fields: f2,
        } && n2 == name && type_views(t2@) == subst_type_list(type_views(type_args@), m) && fields_subst(fields@, f2@, m),
        Expression::Binary { span_id, left, op, right } => b matches Expression::Binary {
            span_id: s2,
            left: l2,
            op: o2,
            right: r2,
        } && s2 == span_id && o2 == op && expr_subst(*left, *l2, m) && expr_subst(*right, *r2, m),
        Expression::Unary { span_id, op, expr } => b matches Expression::Unary { span_id: s2, op: o2, expr: e2 }
            && s2 == span_id && o2 == op && expr_subst(*expr, *e2, m),
        Expression::Call { span_id, func, type_args, args } => b matches Expression::Call {
            span_id: s2,
            func: f2,
            type_args: t2,
            args: a2,
        } && s2 == span_id && expr_subst(*func, *f2, m) && type_views(t2@) == subst_type_list(type_views(type_args@), m)
            && exprs_subst(args@, a2@, m),
        Expression::MethodCall { receiver, method, type_args, args, is_mutable_call } => b matches Expression::MethodCall {
            receiver: r2,
            method: m2,
            type_args: t2,
            args: a2,
            is_mutable_call: c2,
        } && m2 == method && c2 == is_mutable_call && expr_subst(*receiver, *r2, m)
            && type_views(t2@) == subst_type_list(type_views(type_args@), m) && exprs_subst(args@, a2@, m),
        Expression::Index { object, index } => b matches Expression::Index { object: o2, index: i2 }
            && expr_subst(*object, *o2, m) && expr_subst(*index, *i2, m),
        Expression::Cast { expr, target_type } => b matches Expression::Cast { expr: e2, target_type: t2 }
            && expr_subst(*expr, *e2, m) && t2@ == subst_type(target_type@, m),
        Expression::TupleLiteral(es) => b matches Expression::TupleLiteral(e2) && exprs_subst(es@, e2@, m),
        Expression::Array(es) => b matches Expression::Array(e2) && exprs_subst(es@, e2@, m),
        Expression::FieldAccess { object, field } => b matches Expression::FieldAccess { object: o2, field: f2 }
            && f2 == field && expr_subst(*object, *o2, m),
        Expression::Reference { is_mutable, expr } => b matches Expression::Reference { is_mutable: mu2, expr: e2 }
            && mu2 == is_mutable && expr_subst(*expr, *e2, m),
        Expression::Deref(expr) => b matches Expression::Deref(e2) && expr_subst(*expr, *e2, m),
        Expression::Block { statements, return_expr } => b matches Expression::Block {
            statements: s2,
            return_expr: r2,
        } && stmts_subst(statements@, s2@, m) && match return_expr {
            Some(e) => r2 matches Some(e2) && expr_subst(*e, *e2, m),
            None => r2 is None,
        },
        _ => b == a,
    }
}

/// Pointwise `expr_subst`.
pub open spec fn exprs_subst(a: Seq<Expression>, b: Seq<Expression>, m: Map<Seq<char>, TypeView>) -> bool
    decreases a,
{
    a.len() == b.len() && forall|i: int| 0 <= i < a.len() ==> expr_subst(#[trigger] a[i], b[i], m)
}

/// Struct literal fields: same names, substituted values.
pub open spec fn fields_subst(
    a: Seq<(String, Expression)>,
    b: Seq<(String, Expression)>,
    m: Map<Seq<char>, TypeView>,
) -> bool
    decreases a,
{
    a.len() == b.len() && forall|i: int| 0 <= i < a.len() ==> b[i].0 == a[i].0 && expr_subst(#[trigger] a[i].1, b[i].1, m)
}

/// `b` is `a` with its types substituted: the declared types of `let`s, in
/// the expressions and blocks of `return`, `if`, `let`, expression
/// statements, `while`, `for`, `for ... in`, assignments and pattern
/// `let`s. Any other statement is kept as it is.
pub open spec fn stmt_subst(a: Statement, b: Statement, m: Map<Seq<char>, TypeView>) -> bool
    decreases a,
{
    match a {
        Statement::Return { span_id, value } => b matches Statement::Return { span_id: s2, value: v2 } && s2 == span_id
            && match value {
            Some(e) => v2 matches Some(e2) && expr_subst(e, e2, m),
            None => v2 is None,
        },
        Statement::If { span_id, condition, then_block, elif_branches, else_block } => b matches Statement::If {
            span_id: s2,
            condition: c2,
            then_block: t2,
            elif_branches: e2,
            else_block: x2,
        } && s2 == span_id && expr_subst(condition, c2, m) && block_subst(then_block, t2, m)
            && elifs_subst(elif_branches@, e2@, m) && match else_block {
            Some(blk) => x2 matches Some(b2) && block_subst(blk, b2, m),
            None => x2 is None,
        },
        Statement::Let { name, ty, value, is_mutable } => b matches Statement::Let {
            name: n2,
            ty: t2,
            value: v2,
            is_mutable: mu2,
        } && n2 == name && mu2 == is_mutable && opt_type_subst(ty, t2, m) && expr_subst(value, v2, m),
        Statement::Expression(e) => b matches Statement::Expression(e2) && expr_subst(e, e2, m),
        Statement::While { span_id, condition, body } => b matches Statement::While {
            span_id: s2,
            condition: c2,
            body: b2,
        } && s2 == span_id && expr_subst(condition, c2, m) && block_subst(body, b2, m),
        Statement::For { span_id, init, condition, post, body } => b matches Statement::For {
            span_id: s2,
            init: i2,
            condition: c2,
            post: p2,
            body: b2,
        } && s2 == span_id && block_subst(body, b2, m) && match init {
            Some(st) => i2 matches Some(st2) && stmt_subst(*st, *st2, m),
            None => i2 is None,
        } && match condition {
            Some(c) => c2 matches Some(cc) && expr_subst(c, cc, m),
            None => c2 is None,
        } && match post {
            Some(st) => p2 matches Some(st2) && stmt_subst(*st, *st2, m),
            None => p2 is None,
        },
        Statement::ForIn { span_id, variable, iterable, body } => b matches Statement::ForIn {
            span_id: s2,
            variable: v2,
            iterable: it2,
            body: b2,
        } && s2 == span_id && v2 == variable && expr_subst(iterable, it2, m) && block_subst(body, b2, m),
        Statement::Assign { span_id, target, value } => b matches Statement::Assign { span_id: s2, target: t2, value: v2 }
            && s2 == span_id && expr_subst(target, t2, m) && expr_subst(value, v2, m),
        Statement::LetPattern { is_mutable, pattern, ty, value } => b matches Statement::LetPattern {
            is_mutable: mu2,
            pattern: p2,
            ty: t2,
            value: v2,
        } && mu2 == is_mutable && p2 == pattern && opt_type_subst(ty, t2, m) && expr_subst(value, v2, m),
        _ => b == a,
    }
}

/// Pointwise `stmt_subst`.
pub open spec fn stmts_subst(a: Seq<Statement>, b: Seq<Statement>, m: Map<Seq<char>, TypeView>) -> bool
    decreases a,
{
    a.len() == b.len() && forall|i: int| 0 <= i < a.len() ==> stmt_subst(#[trigger] a[i], b[i], m)
}

/// `else if` branches: substituted conditions and blocks.
pub open spec fn elifs_subst(a: Seq<(Expression, Block)>, b: Seq<(Expression, Block)>, m: Map<Seq<char>, TypeView>) -> bool
    decreases a,
{
    a.len() == b.len() && forall|i: int| 0 <= i < a.len() ==> expr_subst(#[trigger] a[i].0, b[i].0, m)
        && block_subst(a[i].1, b[i].1, m)
}

/// A block with its statements substituted.
pub open spec fn block_subst(a: Block, b: Block, m: Map<Seq<char>, TypeView>) -> bool
    decreases a,
{
    stmts_subst(a.statements@, b.statements@, m)
}

/// Whether a substitution changes no type: each type parameter it maps
/// stands for itself (the empty substitution is one).
pub open spec fn changes_no_type(m: Map<Seq<char>, TypeView>) -> bool {
    forall|k: Seq<char>| #[trigger] m.dom().contains(k) ==> m[k] == TypeView::Named(k)
}

fn is_identity_substitution(type_subst: &StrMap<Type>) -> (r: bool)
    ensures
        r == changes_no_type(types_map(type_subst.view())),
{
    let n = type_subst.len();
    let ghost m = types_map(type_subst.view());
    let mut i: usize = 0;
    while i < n
        invariant
            n == type_subst.entries().len(),
            m == types_map(type_subst.view()),
            i <= n,
            forall|l: int| #![trigger type_subst.entries()[l]] 0 <= l < n ==>
                type_subst.view().dom().contains(type_subst.entries()[l].0@)
                && type_subst.view()[type_subst.entries()[l].0@] == type_subst.entries()[l].1,
            forall|k: Seq<char>| #[trigger] type_subst.view().dom().contains(k) <==> type_subst.key_order().contains(k),
            forall|l: int| 0 <= l < i ==> #[trigger] m[type_subst.entries()[l].0@] == TypeView::Named(type_subst.entries()[l].0@),
        decreases n - i,
    {
        let (k, t) = type_subst.entry_at(i);
        let ghost e = type_subst.entries()[i as int];
        assert(m[k@] == t@);
        let ok = match t {
            Type::Named(name) => str_eq(name.as_str(), k.as_str()),
            _ => false,
        };
        if !ok {
            assert(m[k@] != TypeView::Named(k@));
            assert(m.dom().contains(k@));
            return false;
        }
        i = i + 1;
    }
    assert forall|k: Seq<char>| #[trigger] m.dom().contains(k) implies m[k] == TypeView::Named(k) by {
        assert(type_subst.key_order().contains(k));
        let l = choose|l: int| 0 <= l < type_subst.key_order().len() && type_subst.key_order()[l] == k;
        assert(type_subst.key_order()[l] == type_subst.entries()[l].0@);
    }
    true
}

impl ASTCodeGen {
    /// Substitutes concrete types in an expression (see `expr_subst`). A
    /// substitution that changes no type gives back the expression itself.
    pub fn substitute_types_in_expression(&self, expr: Expression, type_subst: &StrMap<Type>) -> (r: Expression)
        ensures
            expr_subst(expr, r, types_map(type_subst.view())),
            changes_no_type(types_map(type_subst.view())) ==> r == expr,
    {
        if is_identity_substitution(type_subst) {
            proof {
                crate::laws::law_subst_nothing_in_expression(expr, types_map(type_subst.view()));
            }
            return expr;
        }
        self.subst_expression(expr, type_subst)
    }

    /// Substitutes concrete types in a statement (see `stmt_subst`). A
    /// substitution that changes no type gives back the statement itself.
    pub fn substitute_types_in_statement(&self, stmt: Statement, type_subst: &StrMap<Type>) -> (r: Statement)
        ensures
            stmt_subst(stmt, r, types_map(type_subst.view())),
            changes_no_type(types_map(type_subst.view())) ==> r == stmt,
    {
        if is_identity_substitution(type_subst) {
            proof {
                crate::laws::lemma_stmt_subst_nothing(stmt, types_map(type_subst.view()));
            }
            return stmt;
        }
        self.subst_statement(stmt, type_subst)
    }

    /// Substitutes concrete types in a block (see `block_subst`). A
    /// substitution that changes no type gives back the block itself.
    pub fn substitute_types_in_block(&self, block: Block, type_subst: &StrMap<Type>) -> (r: Block)
        ensures
            block_subst(block, r, types_map(type_subst.view())),
            changes_no_type(types_map(type_subst.view())) ==> r == block,
    {
        if is_identity_substitution(type_subst) {
            proof {
                crate::laws::lemma_block_subst_nothing(block, types_map(type_subst.view()));
            }
            return block;
        }
        self.subst_block(block, type_subst)
    }
}

impl ASTCodeGen {
    /// Substitutes concrete types in an expression (see `expr_subst`).
    fn subst_expression(&self, expr: Expression, type_subst: &StrMap<Type>) -> (r: Expression)
        ensures
            expr_subst(expr, r, types_map(type_subst.view())),
        decreases expr,
    {
        match expr {
            Expression::StructLiteral { name, type_args, fields } => Expression::StructLiteral {
                name,
                type_args: substitute_type_list(&type_args, type_subst),
                fields: self.substitute_field_list(fields, type_subst),
            },
            Expression::Binary { span_id, left, op, right } => Expression::Binary {
                span_id,
                left: Box::new(self.subst_expression(*left, type_subst)),
                op,
                right: Box::new(self.subst_expression(*right, type_subst)),
            },
            Expression::Unary { span_id, op, expr } => Expression::Unary {
                span_id,
                op,
                expr: Box::new(self.subst_expression(*expr, type_subst)),
            },
            Expression::Call { span_id, func, type_args, args } => Expression::Call {
                span_id,
                func: Box::new(self.subst_expression(*func, type_subst)),
                type_args: substitute_type_list(&type_args, type_subst),
                args: self.substitute_expr_list(args, type_subst),
            },
            Expression::MethodCall { receiver, method, type_args, args, is_mutable_call } => Expression::MethodCall {
                receiver: Box::new(self.subst_expression(*receiver, type_subst)),
                method,
                type_args: substitute_type_list(&type_args, type_subst),
                args: self.substitute_expr_list(args, type_subst),
                is_mutable_call,
            },
            Expression::Index { object, index } => Expression::Index {
                object: Box::new(self.subst_expression(*object, type_subst)),
                index: Box::new(self.subst_expression(*index, type_subst)),
            },
            Expression::Cast { expr, target_type } => Expression::Cast {
                expr: Box::new(self.subst_expression(*expr, type_subst)),
                target_type: substitute_type(&target_type, type_subst),
            },
            Expression::TupleLiteral(elements) => Expression::TupleLiteral(self.substitute_expr_list(elements, type_subst)),
            Expression::Array(elements) => Expression::Array(self.substitute_expr_list(elements, type_subst)),
            Expression::FieldAccess { object, field } => Expression::FieldAccess {
                object: Box::new(self.subst_expression(*object, type_subst)),
                field,
            },
            Expression::Reference { is_mutable, expr } => Expression::Reference {
                is_mutable,
                expr: Box::new(self.subst_expression(*expr, type_subst)),
            },
            Expression::Deref(expr) => Expression::Deref(Box::new(self.subst_expression(*expr, type_subst))),
            Expression::Block { statements, return_expr } => {
                let statements = self.substitute_stmt_list(statements, type_subst);
                let return_expr = match return_expr {
                    Some(e) => Some(Box::new(self.subst_expression(*e, type_subst))),
                    None => None,
                };
                Expression::Block { statements, return_expr }
            }
            other => other,
        }
    }

    #[verifier::loop_isolation(false)]
    fn substitute_expr_list(&self, es: Vec<Expression>, type_subst: &StrMap<Type>) -> (r: Vec<Expression>)
        ensures
            exprs_subst(es@, r@, types_map(type_subst.view())),
        decreases es,
    {
        let ghost orig = es;
        let ghost m = types_map(type_subst.view());
        let mut rest = es;
        let mut out: Vec<Expression> = Vec::new();
        while rest.len() > 0
            invariant
                m == types_map(type_subst.view()),
                out@.len() + rest@.len() == orig@.len(),
                rest@ == orig@.subrange(out@.len() as int, orig@.len() as int),
                forall|i: int| 0 <= i < out@.len() ==> expr_subst(#[trigger] orig@[i], out@[i], m),
            decreases rest@.len(),
        {
            let ghost k = out@.len() as int;
            let x = rest.remove(0);
            proof {
                assert(x == orig@[k]);
                vstd::std_specs::vec::axiom_vec_index_decreases(orig, k);
            }
            let y = self.subst_expression(x, type_subst);
            out.push(y);
            proof {
                assert(rest@ =~= orig@.subrange(out@.len() as int, orig@.len() as int));
                assert(expr_subst(orig@[k], out@[k], m));
            }
        }
        out
    }

    #[verifier::loop_isolation(false)]
    fn substitute_field_list(&self, fs: Vec<(String, Expression)>, type_subst: &StrMap<Type>) -> (r: Vec<(String, Expression)>)
        ensures
            fields_subst(fs@, r@, types_map(type_subst.view())),
        decreases fs,
    {
        let ghost orig = fs;
        let ghost m = types_map(type_subst.view());
        let mut rest = fs;
        let mut out: Vec<(String, Expression)> = Vec::new();
        while rest.len() > 0
            invariant
                m == types_map(type_subst.view()),
                out@.len() + rest@.len() == orig@.len(),
                rest@ == orig@.subrange(out@.len() as int, orig@.len() as int),
                forall|i: int| 0 <= i < out@.len() ==> #[trigger] out@[i].0 == orig@[i].0,
                forall|i: int| 0 <= i < out@.len() ==> expr_subst(#[trigger] orig@[i].1, out@[i].1, m),
            decreases rest@.len(),
        {
            let ghost k = out@.len() as int;
            let pair = rest.remove(0);
            let ghost gp = pair;
            let (name, x) = pair;
            proof {
                assert(gp == orig@[k]);
                assert(x == orig@[k].1);
                assert(name == orig@[k].0);
                vstd::std_specs::vec::axiom_vec_index_decreases(orig, k);
            }
            let y = self.subst_expression(x, type_subst);
            let ghost before = out@;
            out.push((name, y));
            proof {
                assert forall|i: int| 0 <= i < out@.len() implies out@[i].0 == orig@[i].0 && expr_subst(#[trigger] orig@[i].1, out@[i].1, m) by {
                    if i < k {
                        assert(out@[i] == before[i]);
                        assert(expr_subst(orig@[i].1, before[i].1, m));
                        assert(before[i].0 == orig@[i].0);
                    } else {
                        assert(out@[i] == (name, y));
                    }
                }
                assert(rest@ =~= orig@.subrange(out@.len() as int, orig@.len() as int));
            }
        }
        out
    }

    #[verifier::loop_isolation(false)]
    fn substitute_stmt_list(&self, ss: Vec<Statement>, type_subst: &StrMap<Type>) -> (r: Vec<Statement>)
        ensures
            stmts_subst(ss@, r@, types_map(type_subst.view())),
        decreases ss,
    {
        let ghost orig = ss;
        let ghost m = types_map(type_subst.view());
        let mut rest = ss;
        let mut out: Vec<Statement> = Vec::new();
        while rest.len() > 0
            invariant
                m == types_map(type_subst.view()),
                out@.len() + rest@.len() == orig@.len(),
                rest@ == orig@.subrange(out@.len() as int, orig@.len() as int),
                forall|i: int| 0 <= i < out@.len() ==> stmt_subst(#[trigger] orig@[i], out@[i], m),
            decreases rest@.len(),
        {
            let ghost k = out@.len() as int;
            let x = rest.remove(0);
            proof {
                assert(x == orig@[k]);
                vstd::std_specs::vec::axiom_vec_index_decreases(orig, k);
            }
            let y = self.subst_statement(x, type_subst);
            out.push(y);
            proof {
                assert(rest@ =~= orig@.subrange(out@.len() as int, orig@.len() as int));
                assert(stmt_subst(orig@[k], out@[k], m));
            }
        }
        out
    }

    #[verifier::loop_isolation(false)]
    fn substitute_elif_list(&self, bs: Vec<(Expression, Block)>, type_subst: &StrMap<Type>) -> (r: Vec<(Expression, Block)>)
        ensures
            elifs_subst(bs@, r@, types_map(type_subst.view())),
        decreases bs,
    {
        let ghost orig = bs;
        let ghost m = types_map(type_subst.view());
        let mut rest = bs;
        let mut out: Vec<(Expression, Block)> = Vec::new();
        while rest.len() > 0
            invariant
                m == types_map(type_subst.view()),
                out@.len() + rest@.len() == orig@.len(),
                rest@ == orig@.subrange(out@.len() as int, orig@.len() as int),
                forall|i: int| 0 <= i < out@.len() ==> expr_subst(#[trigger] orig@[i].0, out@[i].0, m)
                    && block_subst(orig@[i].1, out@[i].1, m),
            decreases rest@.len(),
        {
            let ghost k = out@.len() as int;
            let pair = rest.remove(0);
            let ghost gp = pair;
            let (c, b) = pair;
            proof {
                assert(gp == orig@[k]);
                assert(c == orig@[k].0);
                assert(b == orig@[k].1);
                vstd::std_specs::vec::axiom_vec_index_decreases(orig, k);
            }
            let c2 = self.subst_expression(c, type_subst);
            let b2 = self.subst_block(b, type_subst);
            out.push((c2, b2));
            proof {
                assert(rest@ =~= orig@.subrange(out@.len() as int, orig@.len() as int));
                assert(expr_subst(orig@[k].0, out@[k].0, m));
            }
        }
        out
    }

    /// Substitutes concrete types in a block (see `block_subst`).
    fn subst_block(&self, block: Block, type_subst: &StrMap<Type>) -> (r: Block)
        ensures
            block_subst(block, r, types_map(type_subst.view())),
        decreases block,
    {
        Block { statements: self.substitute_stmt_list(block.statements, type_subst) }
    }

    /// Substitutes concrete types in a statement (see `stmt_subst`).
    fn subst_statement(&self, stmt: Statement, type_subst: &StrMap<Type>) -> (r: Statement)
        ensures
            stmt_subst(stmt, r, types_map(type_subst.view())),
        decreases stmt,
    {
        match stmt {
            Statement::Return { span_id, value } => {
                let value = match value {
                    Some(e) => Some(self.subst_expression(e, type_subst)),
                    None => None,
                };
                Statement::Return { span_id, value }
            }
            Statement::If { span_id, condition, then_block, elif_branches, else_block } => {
                let condition = self.subst_expression(condition, type_subst);
                let then_block = self.subst_block(then_block, type_subst);
                let elif_branches = self.substitute_elif_list(elif_branches, type_subst);
                let else_block = match else_block {
                    Some(b) => Some(self.subst_block(b, type_subst)),
                    None => None,
                };
                Statement::If { span_id, condition, then_block, elif_branches, else_block }
            }
            Statement::Let { name, ty, value, is_mutable } => {
                let ty = match ty {
                    Some(t) => Some(substitute_type(&t, type_subst)),
                    None => None,
                };
                Statement::Let { name, ty, value: self.subst_expression(value, type_subst), is_mutable }
            }
            Statement::Expression(e) => Statement::Expression(self.subst_expression(e, type_subst)),
            Statement::While { span_id, condition, body } => {
                let condition = self.subst_expression(condition, type_subst);
                let body = self.subst_block(body, type_subst);
                Statement::While { span_id, condition, body }
            }
            Statement::For { span_id, init, condition, post, body } => {
                let init = match init {
                    Some(st) => Some(Box::new(self.subst_statement(*st, type_subst))),
                    None => None,
                };
                let condition = match condition {
                    Some(c) => Some(self.subst_expression(c, type_subst)),
                    None => None,
                };
                let post = match post {
                    Some(st) => Some(Box::new(self.subst_statement(*st, type_subst))),
                    None => None,
                };
                let body = self.subst_block(body, type_subst);
                Statement::For { span_id, init, condition, post, body }
            }
            Statement::ForIn { span_id, variable, iterable, body } => {
                let iterable = self.subst_expression(iterable, type_subst);
                let body = self.subst_block(body, type_subst);
                Statement::ForIn { span_id, variable, iterable, body }
            }
            Statement::Assign { span_id, target, value } => {
                let target = self.subst_expression(target, type_subst);
                let value = self.subst_expression(value, type_subst);
                Statement::Assign { span_id, target, value }
            }
            Statement::LetPattern { is_mutable, pattern, ty, value } => {
                let ty = match ty {
                    Some(t) => Some(substitute_type(&t, type_subst)),
                    None => None,
                };
                Statement::LetPattern { is_mutable, pattern, ty, value: self.subst_expression(value, type_subst) }
            }
            other => other,
        }
    }
}

// ---------------------------------------------------------------------------
// Functions and methods
// ---------------------------------------------------------------------------

/// Parameters with their types substituted and their names kept.
pub open spec fn params_subst(a: Seq<Param>, b: Seq<Param>, m: Map<Seq<char>, TypeView>) -> bool {
    a.len() == b.len() && forall|i: int| 0 <= i < a.len() ==> #[trigger] b[i].name == a[i].name
        && b[i].ty@ == subst_type(a[i].ty@, m)
}

/// The name of a specialized function: the generic name, `_`, and the
/// names of the substituted types joined by `_`.
pub open spec fn specialized_function_name(name: Seq<char>, type_names: Seq<Seq<char>>) -> Seq<char> {
    name + "_"@ + joined(type_names, "_"@)
}

fn substitute_param_list(ps: Vec<Param>, type_subst: &StrMap<Type>) -> (r: Vec<Param>)
    ensures
        params_subst(ps@, r@, types_map(type_subst.view())),
{
    let ghost orig = ps@;
    let ghost m = types_map(type_subst.view());
    let mut rest = ps;
    let mut out: Vec<Param> = Vec::new();
    while rest.len() > 0
        invariant
            m == types_map(type_subst.view()),
            out@.len() + rest@.len() == orig.len(),
            rest@ == orig.subrange(out@.len() as int, orig.len() as int),
            forall|i: int| 0 <= i < out@.len() ==> #[trigger] out@[i].name == orig[i].name
                && out@[i].ty@ == subst_type(orig[i].ty@, m),
        decreases rest@.len(),
    {
        let ghost k = out@.len() as int;
        let p = rest.remove(0);
        assert(p == orig[k]);
        let Param { name, ty } = p;
        let ty = substitute_type(&ty, type_subst);
        out.push(Param { name, ty });
        assert(rest@ =~= orig.subrange(out@.len() as int, orig.len() as int));
    }
    out
}

/// The receiver type of a specialized method: a reference to a named or
/// generic type becomes a reference to the specialized struct.
pub open spec fn specialized_receiver_type(t: TypeView, mangled: Seq<char>) -> TypeView {
    match t {
        TypeView::Reference(inner, mu) => match *inner {
            TypeView::Named(_) | TypeView::Generic { .. } => TypeView::Reference(Box::new(TypeView::Named(mangled)), mu),
            _ => t,
        },
        _ => t,
    }
}

/// A parameter type of a specialized method: a reference to a named or
/// generic type becomes a reference to the specialized struct, and a named
/// type becomes the specialized struct.
pub open spec fn specialized_param_type(t: TypeView, mangled: Seq<char>) -> TypeView {
    match t {
        TypeView::Named(_) => TypeView::Named(mangled),
        _ => specialized_receiver_type(t, mangled),
    }
}

/// The method part of a method's name: what follows `struct_name_` when
/// the name starts with it, else the whole name.
pub open spec fn method_suffix(name: Seq<char>, struct_name: Seq<char>) -> Seq<char> {
    let prefix = struct_name + "_"@;
    if has_prefix(name, prefix) { name.subrange(prefix.len() as int, name.len() as int) } else { name }
}

fn specialize_receiver_type(t: Type, mangled_struct_name: &str) -> (r: Type)
    ensures
        r@ == specialized_receiver_type(t@, mangled_struct_name@),
{
    match t {
        Type::Reference(inner, mu) => {
            let ghost iv = inner@;
            match *inner {
                Type::Named(_) | Type::Generic { .. } => {
                    assert(iv is Named || iv is Generic);
                    let nt = Type::Named(mangled_struct_name.to_owned());
                    assert(nt@ == TypeView::Named(mangled_struct_name@));
                    let r = Type::Reference(Box::new(nt), mu);
                    assert(r@ == TypeView::Reference(Box::new(TypeView::Named(mangled_struct_name@)), mu));
                    assert(t@ == TypeView::Reference(Box::new(iv), mu));
                    r
                }
                other => {
                    assert(other@ == iv);
                    assert(!(iv is Named || iv is Generic));
                    Type::Reference(Box::new(other), mu)
                }
            }
        }
        other => other,
    }
}

/// The texts of the types a substitution maps to, in its order.
pub open spec fn subst_type_names(entries: Seq<(String, Type)>) -> Seq<Seq<char>> {
    entries.map_values(|e: (String, Type)| crate::type_text::type_text_spec(e.1@))
}

fn substitution_type_names(type_subst: &StrMap<Type>) -> (r: Vec<String>)
    ensures
        seqs_of(r@) == subst_type_names(type_subst.entries()),
{
    let n = type_subst.len();
    let ghost es = type_subst.entries();
    let mut r: Vec<String> = Vec::new();
    let mut i: usize = 0;
    while i < n
        invariant
            n == es.len(),
            es == type_subst.entries(),
            i <= n,
            seqs_of(r@) == subst_type_names(es).take(i as int),
        decreases n - i,
    {
        let (_, t) = type_subst.entry_at(i);
        let x = crate::type_text::type_text(t);
        let ghost before = r@;
        r.push(x);
        assert(r@ =~= before.push(x));
        assert(seqs_of(r@) =~= seqs_of(before).push(x@));
        assert(subst_type_names(es).take(i + 1) =~= subst_type_names(es).take(i as int).push(
            crate::type_text::type_text_spec(es[i as int].1@),
        ));
        i = i + 1;
    }
    assert(subst_type_names(es).take(n as int) =~= subst_type_names(es));
    r
}

impl ASTCodeGen {
    /// Specializes a generic function: clears its type parameters,
    /// substitutes the concrete types in its receiver, parameters, return
    /// type and body, and names it after the generic name and the texts of
    /// the substitution's types, in the substitution's order (see
    /// `subst_type_names`).
    pub fn substitute_types_in_function(
        &self,
        func: Function,
        type_subst: &StrMap<Type>,
    ) -> (r: Result<Function, String>)
        ensures
            r matches Ok(f) && {
                let m = types_map(type_subst.view());
                &&& f.name@ == specialized_function_name(func.name@, subst_type_names(type_subst.entries()))
                &&& f.type_params@.len() == 0
                &&& match func.receiver {
                    Some(rc) => f.receiver matches Some(rc2) && rc2.ty@ == subst_type(rc.ty@, m),
                    None => f.receiver is None,
                }
                &&& params_subst(func.params@, f.params@, m)
                &&& opt_type_subst(func.return_type, f.return_type, m)
                &&& block_subst(func.body, f.body, m)
                &&& f.is_mutable == func.is_mutable
                &&& f.is_static == func.is_static
                &&& f.static_type == func.static_type
            },
    {
        let Function { name, type_params: _, params, return_type, receiver, body, is_mutable, is_static, static_type } = func;
        let receiver = match receiver {
            Some(rc) => Some(Receiver { ty: substitute_type(&rc.ty, type_subst) }),
            None => None,
        };
        let params = substitute_param_list(params, type_subst);
        let return_type = match return_type {
            Some(t) => Some(substitute_type(&t, type_subst)),
            None => None,
        };
        let body = self.subst_block(body, type_subst);
        let type_names = substitution_type_names(type_subst);
        let mut new_name = name;
        new_name.append("_");
        let suffix = join_names(&type_names, "_");
        new_name.append(suffix.as_str());
        Ok(Function { name: new_name, type_params: Vec::new(), params, return_type, receiver, body, is_mutable, is_static, static_type })
    }

    /// Specializes a method of a generic struct for the specialized struct
    /// `mangled_struct_name`: clears its type parameters, substitutes the
    /// concrete types in its receiver, parameters and return type, points
    /// its receiver and struct parameters at the specialized struct (see
    /// `specialized_receiver_type` and `specialized_param_type`), and names
    /// it `mangled_struct_name_method`. The body is kept as it is.
    pub fn substitute_types_in_method(
        &self,
        func: Function,
        type_subst: &StrMap<Type>,
        struct_name: &str,
        mangled_struct_name: &str,
    ) -> (r: Result<Function, String>)
        ensures
            r matches Ok(f) && {
                let m = types_map(type_subst.view());
                &&& f.name@ == mangled_struct_name@ + "_"@ + method_suffix(func.name@, struct_name@)
                &&& f.type_params@.len() == 0
                &&& match func.receiver {
                    Some(rc) => f.receiver matches Some(rc2)
                        && rc2.ty@ == specialized_receiver_type(subst_type(rc.ty@, m), mangled_struct_name@),
                    None => f.receiver is None,
                }
                &&& f.params@.len() == func.params@.len()
                &&& forall|i: int| 0 <= i < func.params@.len() ==> #[trigger] f.params@[i].name == func.params@[i].name
                    && f.params@[i].ty@ == specialized_param_type(subst_type(func.params@[i].ty@, m), mangled_struct_name@)
                &&& opt_type_subst(func.return_type, f.return_type, m)
                &&& f.body == func.body
                &&& f.is_mutable == func.is_mutable
                &&& f.is_static == func.is_static
                &&& f.static_type == func.static_type
            },
    {
        let ghost m = types_map(type_subst.view());
        let ghost old_name = func.name@;
        let Function { name, type_params: _, params, return_type, receiver, body, is_mutable, is_static, static_type } = func;
        let receiver = match receiver {
            Some(rc) => Some(Receiver { ty: specialize_receiver_type(substitute_type(&rc.ty, type_subst), mangled_struct_name) }),
            None => None,
        };
        let ghost orig = params@;
        let mut rest = params;
        let mut new_params: Vec<Param> = Vec::new();
        while rest.len() > 0
            invariant
                m == types_map(type_subst.view()),
                new_params@.len() + rest@.len() == orig.len(),
                rest@ == orig.subrange(new_params@.len() as int, orig.len() as int),
                forall|i: int| 0 <= i < new_params@.len() ==> #[trigger] new_params@[i].name == orig[i].name
                    && new_params@[i].ty@ == specialized_param_type(subst_type(orig[i].ty@, m), mangled_struct_name@),
            decreases rest@.len(),
        {
            let ghost k = new_params@.len() as int;
            let p = rest.remove(0);
            assert(p == orig[k]);
            let Param { name: pname, ty } = p;
            let ty = substitute_type(&ty, type_subst);
            let ty = match ty {
                Type::Named(_) => Type::Named(mangled_struct_name.to_owned()),
                other => specialize_receiver_type(other, mangled_struct_name),
            };
            new_params.push(Param { name: pname, ty });
            assert(rest@ =~= orig.subrange(new_params@.len() as int, orig.len() as int));
        }
        let return_type = match return_type {
            Some(t) => Some(substitute_type(&t, type_subst)),
            None => None,
        };
        let mut prefix = struct_name.to_owned();
        prefix.append("_");
        let n = name.as_str().unicode_len();
        let p = prefix.as_str().unicode_len();
        let mut new_name = mangled_struct_name.to_owned();
        new_name.append("_");
        if starts_with(name.as_str(), prefix.as_str()) {
            let suffix = name.as_str().substring_char(p, n);
            new_name.append(suffix);
        } else {
            new_name.append(name.as_str());
        }
        assert(new_name@ =~= mangled_struct_name@ + "_"@ + method_suffix(old_name, struct_name@));
        Ok(Function { name: new_name, type_params: Vec::new(), params: new_params, return_type, receiver, body, is_mutable, is_static, static_type })
    }
}

// ---------------------------------------------------------------------------
// Type arguments of an instantiation
// ---------------------------------------------------------------------------

/// The error for a type parameter that gets no type.
pub open spec fn missing_type_arg_message(param: Seq<char>, func: Seq<char>) -> Seq<char> {
    "Missing type argument for parameter '"@ + param + "' in function '"@ + func + "'"@
}

/// What each type parameter of `tps` stands for when a function is
/// instantiated with `args`: the argument at its position, or else its
/// default type; the first parameter with neither gives an error. A later
/// parameter of the same name replaces an earlier one.
pub open spec fn type_substitution(
    tps: Seq<TypeParam>,
    args: Seq<TypeView>,
    func: Seq<char>,
) -> Result<Map<Seq<char>, TypeView>, Seq<char>>
    decreases tps.len(),
{
    if tps.len() == 0 {
        Ok(Map::empty())
    } else {
        match type_substitution(tps.drop_last(), args, func) {
            Err(e) => Err(e),
            Ok(m) => {
                let i = tps.len() - 1;
                let tp = tps.last();
                if i < args.len() {
                    Ok(m.insert(tp.name@, args[i]))
                } else {
                    match tp.default_type {
                        Some(d) => Ok(m.insert(tp.name@, d@)),
                        None => Err(missing_type_arg_message(tp.name@, func)),
                    }
                }
            }
        }
    }
}

proof fn lemma_type_substitution_err(tps: Seq<TypeParam>, args: Seq<TypeView>, func: Seq<char>, k: int)
    requires
        0 <= k < tps.len(),
        type_substitution(tps.take(k + 1), args, func) is Err,
    ensures
        type_substitution(tps, args, func) == type_substitution(tps.take(k + 1), args, func),
    decreases tps.len(),
{
    if tps.len() > k + 1 {
        assert(tps.drop_last().take(k + 1) =~= tps.take(k + 1));
        lemma_type_substitution_err(tps.drop_last(), args, func, k);
    } else {
        assert(tps.take(k + 1) =~= tps);
    }
}

/// The type substitution for instantiating `func_def` with `type_args`
/// (see `type_substitution`).
pub fn build_type_substitution(func_def: &Function, type_args: &[Type]) -> (r: Result<StrMap<Type>, String>)
    ensures
        match type_substitution(func_def.type_params@, type_views(type_args@), func_def.name@) {
            Ok(m) => r matches Ok(s) && types_map(s.view()) == m,
            Err(msg) => r matches Err(e) && e@ == msg,
        },
{
    proof {
        crate::ast::lemma_type_views_len(type_args@);
    }
    let ghost tps = func_def.type_params@;
    let ghost args = type_views(type_args@);
    let mut subst: StrMap<Type> = StrMap::new();
    assert(types_map(subst.view()) =~= Map::<Seq<char>, TypeView>::empty());
    let mut i: usize = 0;
    while i < func_def.type_params.len()
        invariant
            tps == func_def.type_params@,
            args == type_views(type_args@),
            args.len() == type_args@.len(),
            forall|k: int| #![trigger args[k]] 0 <= k < args.len() ==> args[k] == type_args@[k]@,
            i <= tps.len(),
            type_substitution(tps.take(i as int), args, func_def.name@) == Ok::<Map<Seq<char>, TypeView>, Seq<char>>(types_map(subst.view())),
        decreases tps.len() - i,
    {
        let tp = &func_def.type_params[i];
        proof {
            assert(tps.take(i + 1).drop_last() =~= tps.take(i as int));
            assert(tps.take(i + 1).last() == *tp);
        }
        let ghost before = types_map(subst.view());
        if i < type_args.len() {
            assert(args[i as int] == type_args@[i as int]@);
            subst.insert(tp.name.clone(), copy_type(&type_args[i]));
        } else {
            match &tp.default_type {
                Some(d) => {
                    subst.insert(tp.name.clone(), copy_type(d));
                }
                None => {
                    let mut e = "Missing type argument for parameter '".to_owned();
                    e.append(tp.name.as_str());
                    e.append("' in function '");
                    e.append(func_def.name.as_str());
                    e.append("'");
                    proof {
                        lemma_type_substitution_err(tps, args, func_def.name@, i as int);
                    }
                    return Err(e);
                }
            }
        }
        assert(types_map(subst.view()) =~= before.insert(tp.name@, types_map(subst.view())[tp.name@]));
        i = i + 1;
    }
    assert(tps.take(i as int) =~= tps);
    Ok(subst)
}

/// The name of a generic method instantiated for a struct's type
/// arguments: `Struct_method` with no arguments, else
/// `Struct_T1_..._Tn_method`, from the arguments' type names.
pub open spec fn method_instance_name(struct_name: Seq<char>, type_names: Seq<Seq<char>>, method_name: Seq<char>) -> Seq<char> {
    if type_names.len() == 0 {
        struct_name + "_"@ + method_name
    } else {
        struct_name + "_"@ + joined(type_names, "_"@) + "_"@ + method_name
    }
}

/// The mangled name under which a generic method is instantiated for the
/// struct type arguments whose type names are `type_names`.
pub fn generic_method_instance_name(struct_name: &str, type_names: &Vec<String>, method_name: &str) -> (r: String)
    ensures
        r@ == method_instance_name(struct_name@, seqs_of(type_names@), method_name@),
{
    let mut name = struct_name.to_owned();
    name.append("_");
    if type_names.len() > 0 {
        let args = join_names(type_names, "_");
        name.append(args.as_str());
        name.append("_");
    }
    name.append(method_name);
    name
}

/// Whether the registered function `name` (defined as `func`) is a method
/// of the generic struct `struct_name` still to be instantiated: its name
/// starts with `Struct_`, carries none of the instantiated markers `_str_`,
/// `_i32_` and `_i64_`, and it takes a receiver (a receiver of its own, or
/// a first parameter named `self`).
pub open spec fn method_to_instantiate(struct_name: Seq<char>, name: Seq<char>, func: Function) -> bool {
    &&& has_prefix(name, struct_name + "_"@)
    &&& !crate::imports::occurs_in("_str_"@, name)
    &&& !crate::imports::occurs_in("_i32_"@, name)
    &&& !crate::imports::occurs_in("_i64_"@, name)
    &&& (func.receiver is Some || (func.params@.len() > 0 && func.params@[0].name@ == "self"@))
}

/// Decides whether a registered function is a method of a generic struct
/// that its instantiation must specialize (see `method_to_instantiate`).
pub fn is_method_to_instantiate(struct_name: &str, name: &str, func: &Function) -> (r: bool)
    ensures
        r == method_to_instantiate(struct_name@, name@, *func),
{
    let mut prefix = struct_name.to_owned();
    prefix.append("_");
    if !starts_with(name, prefix.as_str()) {
        return false;
    }
    if crate::imports::str_contains(name, "_str_") || crate::imports::str_contains(name, "_i32_")
        || crate::imports::str_contains(name, "_i64_") {
        return false;
    }
    match &func.receiver {
        Some(_) => true,
        None => func.params.len() > 0 && str_eq(func.params[0].name.as_str(), "self"),
    }
}

} // verus!
