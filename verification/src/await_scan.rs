//! Counting the suspension points of an async function body before code
//! generation, so that its state machine can reserve one resume case per
//! point.
use vstd::prelude::*;
use crate::ast::{Block, Expression, MatchArm, SelectCase, Statement, SwitchCase};
use crate::text::str_eq;

verus! {

/// The number of suspension points in an expression: every `await`, plus
/// every direct call of `async_sleep`.
pub open spec fn awaits_in_expr(e: Expression) -> nat
    decreases e,
{
    match e {
        Expression::Await(inner) => 1 + awaits_in_expr(*inner),
        Expression::IntLiteral(_) | Expression::TypedIntLiteral { .. } | Expression::BigIntLiteral(_)
        | Expression::TypedBigIntLiteral { .. } | Expression::FloatLiteral(_) | Expression::StringLiteral(_)
        | Expression::FStringLiteral(_) | Expression::BoolLiteral(_) | Expression::Nil | Expression::Ident(_) => 0,
        Expression::Binary { left, right, .. } => awaits_in_expr(*left) + awaits_in_expr(*right),
        Expression::Unary { expr, .. } => awaits_in_expr(*expr),
        Expression::Deref(expr) => awaits_in_expr(*expr),
        Expression::Reference { expr, .. } => awaits_in_expr(*expr),
        Expression::Call { func, args, .. } => (if is_sleep_call(*func) { 1nat } else { 0nat })
            + awaits_in_expr(*func) + awaits_in_exprs(args@),
        Expression::MethodCall { receiver, args, .. } => awaits_in_expr(*receiver) + awaits_in_exprs(args@),
        Expression::FieldAccess { object, .. } => awaits_in_expr(*object),
        Expression::Index { object, index } => awaits_in_expr(*object) + awaits_in_expr(*index),
        Expression::Array(elements) => awaits_in_exprs(elements@),
        Expression::ArrayRepeat(value, count) => awaits_in_expr(*value) + awaits_in_expr(*count),
        Expression::MapLiteral(pairs) => awaits_in_pairs(pairs@),
        Expression::TupleLiteral(elements) => awaits_in_exprs(elements@),
        Expression::StructLiteral { fields, .. } => awaits_in_fields(fields@),
        Expression::EnumLiteral { data, .. } => awaits_in_exprs(data@),
        Expression::Range { start, end } => awaits_in_opt(start) + awaits_in_opt(end),
        Expression::RangeInclusive { start, end } => awaits_in_opt(start) + awaits_in_opt(end),
        Expression::Match { value, arms } => awaits_in_expr(*value) + awaits_in_arms(arms@),
        Expression::Block { statements, return_expr } => awaits_in_stmts(statements@) + awaits_in_opt(return_expr),
        Expression::AsyncBlock { statements, return_expr } => awaits_in_stmts(statements@) + awaits_in_opt(return_expr),
        Expression::Cast { expr, .. } => awaits_in_expr(*expr),
        Expression::TryOp { expr } => awaits_in_expr(*expr),
        Expression::Typeof(expr) => awaits_in_expr(*expr),
        Expression::PostfixOp { expr, .. } => awaits_in_expr(*expr),
        Expression::ErrorNew(expr) => awaits_in_expr(*expr),
        Expression::New(expr) => awaits_in_expr(*expr),
        Expression::Make { size, .. } => awaits_in_expr(*size),
        Expression::Launch { grid, args, .. } => awaits_in_exprs(grid@) + awaits_in_exprs(args@),
        Expression::Closure { body, .. } => awaits_in_expr(*body),
        Expression::ChannelReceive(expr) => awaits_in_expr(*expr),
        Expression::TypeConstructor { args, .. } => awaits_in_exprs(args@),
    }
}

/// Whether a called expression is the name `async_sleep`.
pub open spec fn is_sleep_call(func: Expression) -> bool {
    func matches Expression::Ident(name) && name@ == "async_sleep"@
}

pub open spec fn awaits_in_opt(e: Option<Box<Expression>>) -> nat
    decreases e,
{
    match e {
        Some(x) => awaits_in_expr(*x),
        None => 0,
    }
}

pub open spec fn awaits_in_exprs(s: Seq<Expression>) -> nat
    decreases s,
{
    if s.len() == 0 { 0 } else { awaits_in_exprs(s.drop_last()) + awaits_in_expr(s.last()) }
}

pub open spec fn awaits_in_pairs(s: Seq<(Expression, Expression)>) -> nat
    decreases s,
{
    if s.len() == 0 {
        0
    } else {
        awaits_in_pairs(s.drop_last()) + awaits_in_expr(s.last().0) + awaits_in_expr(s.last().1)
    }
}

pub open spec fn awaits_in_fields(s: Seq<(String, Expression)>) -> nat
    decreases s,
{
    if s.len() == 0 { 0 } else { awaits_in_fields(s.drop_last()) + awaits_in_expr(s.last().1) }
}

/// An arm counts its body, then its guard.
pub open spec fn awaits_in_arms(s: Seq<MatchArm>) -> nat
    decreases s,
{
    if s.len() == 0 {
        0
    } else {
        awaits_in_arms(s.drop_last()) + awaits_in_expr(s.last().body) + match s.last().guard {
            Some(g) => awaits_in_expr(g),
            None => 0,
        }
    }
}

/// The number of suspension points in a statement.
pub open spec fn awaits_in_stmt(s: Statement) -> nat
    decreases s,
{
    match s {
        Statement::Let { value, .. } => awaits_in_expr(value),
        Statement::LetPattern { value, .. } => awaits_in_expr(value),
        Statement::Assign { target, value, .. } => awaits_in_expr(target) + awaits_in_expr(value),
        Statement::CompoundAssign { target, value, .. } => awaits_in_expr(target) + awaits_in_expr(value),
        Statement::Return { value, .. } => match value {
            Some(e) => awaits_in_expr(e),
            None => 0,
        },
        Statement::Break { .. } | Statement::Continue { .. } => 0,
        Statement::Expression(e) => awaits_in_expr(e),
        Statement::If { condition, then_block, elif_branches, else_block, .. } => awaits_in_expr(condition)
            + awaits_in_stmts(then_block.statements@) + awaits_in_elifs(elif_branches@) + match else_block {
            Some(b) => awaits_in_stmts(b.statements@),
            None => 0,
        },
        Statement::While { condition, body, .. } => awaits_in_expr(condition) + awaits_in_stmts(body.statements@),
        Statement::For { init, condition, post, body, .. } => (match init {
            Some(st) => awaits_in_stmt(*st),
            None => 0,
        }) + (match condition {
            Some(c) => awaits_in_expr(c),
            None => 0,
        }) + (match post {
            Some(st) => awaits_in_stmt(*st),
            None => 0,
        }) + awaits_in_stmts(body.statements@),
        Statement::ForIn { iterable, body, .. } => awaits_in_expr(iterable) + awaits_in_stmts(body.statements@),
        Statement::Defer(st) => awaits_in_stmt(*st),
        Statement::Loop { body, .. } => awaits_in_stmts(body.statements@),
        Statement::Switch { value, cases, default_case, .. } => (match value {
            Some(v) => awaits_in_expr(v),
            None => 0,
        }) + awaits_in_cases(cases@) + match default_case {
            Some(b) => awaits_in_stmts(b.statements@),
            None => 0,
        },
        Statement::Select { cases, .. } => awaits_in_selects(cases@),
        Statement::Go { expr, .. } => awaits_in_expr(expr),
        Statement::Unsafe { block, .. } => awaits_in_stmts(block.statements@),
    }
}

pub open spec fn awaits_in_stmts(s: Seq<Statement>) -> nat
    decreases s,
{
    if s.len() == 0 { 0 } else { awaits_in_stmts(s.drop_last()) + awaits_in_stmt(s.last()) }
}

pub open spec fn awaits_in_elifs(s: Seq<(Expression, Block)>) -> nat
    decreases s,
{
    if s.len() == 0 {
        0
    } else {
        awaits_in_elifs(s.drop_last()) + awaits_in_expr(s.last().0) + awaits_in_stmts(s.last().1.statements@)
    }
}

pub open spec fn awaits_in_cases(s: Seq<SwitchCase>) -> nat
    decreases s,
{
    if s.len() == 0 {
        0
    } else {
        awaits_in_cases(s.drop_last()) + awaits_in_exprs(s.last().patterns@) + awaits_in_stmts(s.last().body.statements@)
    }
}

pub open spec fn awaits_in_selects(s: Seq<SelectCase>) -> nat
    decreases s,
{
    if s.len() == 0 { 0 } else { awaits_in_selects(s.drop_last()) + awaits_in_stmts(s.last().body.statements@) }
}

/// The number of suspension points in a block.
pub open spec fn awaits_in_block(b: Block) -> nat {
    awaits_in_stmts(b.statements@)
}

} // verus!

verus! {

/// Counts the suspension points of a block.
pub fn count_await_points(block: &Block) -> (r: usize)
    requires
        awaits_in_block(*block) <= usize::MAX,
    ensures
        r == awaits_in_block(*block),
{
    count_in_statements(&block.statements)
}

fn count_in_opt(e: &Option<Box<Expression>>) -> (r: usize)
    requires
        awaits_in_opt(*e) <= usize::MAX,
    ensures
        r == awaits_in_opt(*e),
    decreases *e,
{
    match e {
        Some(x) => count_await_in_expression(x),
        None => 0,
    }
}

fn count_in_expressions(v: &Vec<Expression>) -> (r: usize)
    requires
        awaits_in_exprs(v@) <= usize::MAX,
    ensures
        r == awaits_in_exprs(v@),
    decreases v@,
{
    let mut total: usize = 0;
    let mut i: usize = 0;
    while i < v.len()
        invariant
            i <= v@.len(),
            awaits_in_exprs(v@) <= usize::MAX,
            total == awaits_in_exprs(v@.take(i as int)),
        decreases v@.len() - i,
    {
        proof { lemma_exprs_prefix(v@, i as int + 1); }
        assert(v@.take(i + 1).drop_last() =~= v@.take(i as int));
        let c = count_await_in_expression(&v[i]);
        total = total + c;
        i = i + 1;
    }
    assert(v@.take(v@.len() as int) =~= v@);
    total
}

proof fn lemma_exprs_prefix(s: Seq<Expression>, n: int)
    requires
        0 <= n <= s.len(),
    ensures
        awaits_in_exprs(s.take(n)) <= awaits_in_exprs(s),
        n > 0 ==> awaits_in_expr(s[n - 1]) <= awaits_in_exprs(s),
    decreases s.len(),
{
    if n < s.len() {
        assert(s.drop_last().take(n) =~= s.take(n));
        lemma_exprs_prefix(s.drop_last(), n);
        if n > 0 {
            assert(s.drop_last()[n - 1] == s[n - 1]);
        }
    } else if n > 0 {
        assert(s.take(n) =~= s);
        assert(s.last() == s[n - 1]);
    } else {
        assert(s.take(n) =~= Seq::<Expression>::empty());
    }
}

fn count_in_pairs(v: &Vec<(Expression, Expression)>) -> (r: usize)
    requires
        awaits_in_pairs(v@) <= usize::MAX,
    ensures
        r == awaits_in_pairs(v@),
    decreases v@,
{
    let mut total: usize = 0;
    let mut i: usize = 0;
    while i < v.len()
        invariant
            i <= v@.len(),
            awaits_in_pairs(v@) <= usize::MAX,
            total == awaits_in_pairs(v@.take(i as int)),
        decreases v@.len() - i,
    {
        proof { lemma_pairs_prefix(v@, i as int + 1); }
        assert(v@.take(i + 1).drop_last() =~= v@.take(i as int));
        let a = count_await_in_expression(&v[i].0);
        let b = count_await_in_expression(&v[i].1);
        total = total + a + b;
        i = i + 1;
    }
    assert(v@.take(v@.len() as int) =~= v@);
    total
}

proof fn lemma_pairs_prefix(s: Seq<(Expression, Expression)>, n: int)
    requires
        0 <= n <= s.len(),
    ensures
        n > 0 ==> awaits_in_pairs(s.take(n - 1)) + awaits_in_expr(s[n - 1].0) + awaits_in_expr(s[n - 1].1) <= awaits_in_pairs(s),
    decreases s.len(),
{
    if n < s.len() {
        if n > 0 { assert(s.drop_last().take(n - 1) =~= s.take(n - 1)); }
        lemma_pairs_prefix(s.drop_last(), n);
        if n > 0 {
            assert(s.drop_last()[n - 1] == s[n - 1]);
        }
    } else if n > 0 {
        assert(s.take(n - 1) =~= s.drop_last());
        assert(s.last() == s[n - 1]);
    }
}

fn count_in_fields(v: &Vec<(String, Expression)>) -> (r: usize)
    requires
        awaits_in_fields(v@) <= usize::MAX,
    ensures
        r == awaits_in_fields(v@),
    decreases v@,
{
    let mut total: usize = 0;
    let mut i: usize = 0;
    while i < v.len()
        invariant
            i <= v@.len(),
            awaits_in_fields(v@) <= usize::MAX,
            total == awaits_in_fields(v@.take(i as int)),
        decreases v@.len() - i,
    {
        proof { lemma_fields_prefix(v@, i as int + 1); }
        assert(v@.take(i + 1).drop_last() =~= v@.take(i as int));
        let a = count_await_in_expression(&v[i].1);
        total = total + a;
        i = i + 1;
    }
    assert(v@.take(v@.len() as int) =~= v@);
    total
}

proof fn lemma_fields_prefix(s: Seq<(String, Expression)>, n: int)
    requires
        0 <= n <= s.len(),
    ensures
        n > 0 ==> awaits_in_fields(s.take(n - 1)) + awaits_in_expr(s[n - 1].1) <= awaits_in_fields(s),
    decreases s.len(),
{
    if n < s.len() {
        if n > 0 { assert(s.drop_last().take(n - 1) =~= s.take(n - 1)); }
        lemma_fields_prefix(s.drop_last(), n);
        if n > 0 {
            assert(s.drop_last()[n - 1] == s[n - 1]);
        }
    } else if n > 0 {
        assert(s.take(n - 1) =~= s.drop_last());
        assert(s.last() == s[n - 1]);
    }
}

fn count_in_arms(v: &Vec<MatchArm>) -> (r: usize)
    requires
        awaits_in_arms(v@) <= usize::MAX,
    ensures
        r == awaits_in_arms(v@),
    decreases v@,
{
    let mut total: usize = 0;
    let mut i: usize = 0;
    while i < v.len()
        invariant
            i <= v@.len(),
            awaits_in_arms(v@) <= usize::MAX,
            total == awaits_in_arms(v@.take(i as int)),
        decreases v@.len() - i,
    {
        proof { lemma_arms_prefix(v@, i as int + 1); }
        assert(v@.take(i + 1).drop_last() =~= v@.take(i as int));
        let arm = &v[i];
        let a = count_await_in_expression(&arm.body);
        let g = match &arm.guard {
            Some(guard) => count_await_in_expression(guard),
            None => 0,
        };
        total = total + a + g;
        i = i + 1;
    }
    assert(v@.take(v@.len() as int) =~= v@);
    total
}

pub open spec fn awaits_in_arm(a: MatchArm) -> nat {
    awaits_in_expr(a.body) + match a.guard {
        Some(g) => awaits_in_expr(g),
        None => 0,
    }
}

proof fn lemma_arms_prefix(s: Seq<MatchArm>, n: int)
    requires
        0 <= n <= s.len(),
    ensures
        n > 0 ==> awaits_in_arms(s.take(n - 1)) + awaits_in_arm(s[n - 1]) <= awaits_in_arms(s),
    decreases s.len(),
{
    if n < s.len() {
        if n > 0 { assert(s.drop_last().take(n - 1) =~= s.take(n - 1)); }
        lemma_arms_prefix(s.drop_last(), n);
        if n > 0 {
            assert(s.drop_last()[n - 1] == s[n - 1]);
        }
    } else if n > 0 {
        assert(s.take(n - 1) =~= s.drop_last());
        assert(s.last() == s[n - 1]);
    }
}

/// Counts the suspension points of an expression.
pub fn count_await_in_expression(expr: &Expression) -> (r: usize)
    requires
        awaits_in_expr(*expr) <= usize::MAX,
    ensures
        r == awaits_in_expr(*expr),
    decreases *expr,
{
    match expr {
        Expression::Await(inner) => 1 + count_await_in_expression(inner),
        Expression::IntLiteral(_) | Expression::TypedIntLiteral { .. } | Expression::BigIntLiteral(_)
        | Expression::TypedBigIntLiteral { .. } | Expression::FloatLiteral(_) | Expression::StringLiteral(_)
        | Expression::FStringLiteral(_) | Expression::BoolLiteral(_) | Expression::Nil | Expression::Ident(_) => 0,
        Expression::Binary { left, right, .. } => count_await_in_expression(left) + count_await_in_expression(right),
        Expression::Unary { expr, .. } => count_await_in_expression(expr),
        Expression::Deref(expr) => count_await_in_expression(expr),
        Expression::Reference { expr, .. } => count_await_in_expression(expr),
        Expression::Call { func, args, .. } => {
            let sleep: usize = match &**func {
                Expression::Ident(name) => if str_eq(name.as_str(), "async_sleep") { 1 } else { 0 },
                _ => 0,
            };
            sleep + count_await_in_expression(func) + count_in_expressions(args)
        }
        Expression::MethodCall { receiver, args, .. } => count_await_in_expression(receiver) + count_in_expressions(args),
        Expression::FieldAccess { object, .. } => count_await_in_expression(object),
        Expression::Index { object, index } => count_await_in_expression(object) + count_await_in_expression(index),
        Expression::Array(elements) => count_in_expressions(elements),
        Expression::ArrayRepeat(value, count) => count_await_in_expression(value) + count_await_in_expression(count),
        Expression::MapLiteral(pairs) => count_in_pairs(pairs),
        Expression::TupleLiteral(elements) => count_in_expressions(elements),
        Expression::StructLiteral { fields, .. } => count_in_fields(fields),
        Expression::EnumLiteral { data, .. } => count_in_expressions(data),
        Expression::Range { start, end } => count_in_opt(start) + count_in_opt(end),
        Expression::RangeInclusive { start, end } => count_in_opt(start) + count_in_opt(end),
        Expression::Match { value, arms } => count_await_in_expression(value) + count_in_arms(arms),
        Expression::Block { statements, return_expr } => count_in_statements(statements) + count_in_opt(return_expr),
        Expression::AsyncBlock { statements, return_expr } => count_in_statements(statements) + count_in_opt(return_expr),
        Expression::Cast { expr, .. } => count_await_in_expression(expr),
        Expression::TryOp { expr } => count_await_in_expression(expr),
        Expression::Typeof(expr) => count_await_in_expression(expr),
        Expression::PostfixOp { expr, .. } => count_await_in_expression(expr),
        Expression::ErrorNew(expr) => count_await_in_expression(expr),
        Expression::New(expr) => count_await_in_expression(expr),
        Expression::Make { size, .. } => count_await_in_expression(size),
        Expression::Launch { grid, args, .. } => count_in_expressions(grid) + count_in_expressions(args),
        Expression::Closure { body, .. } => count_await_in_expression(body),
        Expression::ChannelReceive(expr) => count_await_in_expression(expr),
        Expression::TypeConstructor { args, .. } => count_in_expressions(args),
    }
}

fn count_in_statements(v: &Vec<Statement>) -> (r: usize)
    requires
        awaits_in_stmts(v@) <= usize::MAX,
    ensures
        r == awaits_in_stmts(v@),
    decreases v@,
{
    let mut total: usize = 0;
    let mut i: usize = 0;
    while i < v.len()
        invariant
            i <= v@.len(),
            awaits_in_stmts(v@) <= usize::MAX,
            total == awaits_in_stmts(v@.take(i as int)),
        decreases v@.len() - i,
    {
        proof { lemma_stmts_prefix(v@, i as int + 1); }
        assert(v@.take(i + 1).drop_last() =~= v@.take(i as int));
        let c = count_await_in_statement(&v[i]);
        total = total + c;
        i = i + 1;
    }
    assert(v@.take(v@.len() as int) =~= v@);
    total
}

proof fn lemma_stmts_prefix(s: Seq<Statement>, n: int)
    requires
        0 <= n <= s.len(),
    ensures
        n > 0 ==> awaits_in_stmts(s.take(n - 1)) + awaits_in_stmt(s[n - 1]) <= awaits_in_stmts(s),
    decreases s.len(),
{
    if n < s.len() {
        if n > 0 { assert(s.drop_last().take(n - 1) =~= s.take(n - 1)); }
        lemma_stmts_prefix(s.drop_last(), n);
        if n > 0 {
            assert(s.drop_last()[n - 1] == s[n - 1]);
        }
    } else if n > 0 {
        assert(s.take(n - 1) =~= s.drop_last());
        assert(s.last() == s[n - 1]);
    }
}

fn count_in_elifs(v: &Vec<(Expression, Block)>) -> (r: usize)
    requires
        awaits_in_elifs(v@) <= usize::MAX,
    ensures
        r == awaits_in_elifs(v@),
    decreases v@,
{
    let mut total: usize = 0;
    let mut i: usize = 0;
    while i < v.len()
        invariant
            i <= v@.len(),
            awaits_in_elifs(v@) <= usize::MAX,
            total == awaits_in_elifs(v@.take(i as int)),
        decreases v@.len() - i,
    {
        proof { lemma_elifs_prefix(v@, i as int + 1); }
        assert(v@.take(i + 1).drop_last() =~= v@.take(i as int));
        let a = count_await_in_expression(&v[i].0);
        let b = count_in_statements(&v[i].1.statements);
        total = total + a + b;
        i = i + 1;
    }
    assert(v@.take(v@.len() as int) =~= v@);
    total
}

proof fn lemma_elifs_prefix(s: Seq<(Expression, Block)>, n: int)
    requires
        0 <= n <= s.len(),
    ensures
        n > 0 ==> awaits_in_elifs(s.take(n - 1)) + awaits_in_expr(s[n - 1].0) + awaits_in_stmts(s[n - 1].1.statements@) <= awaits_in_elifs(s),
    decreases s.len(),
{
    if n < s.len() {
        if n > 0 { assert(s.drop_last().take(n - 1) =~= s.take(n - 1)); }
        lemma_elifs_prefix(s.drop_last(), n);
        if n > 0 {
            assert(s.drop_last()[n - 1] == s[n - 1]);
        }
    } else if n > 0 {
        assert(s.take(n - 1) =~= s.drop_last());
        assert(s.last() == s[n - 1]);
    }
}

fn count_in_cases(v: &Vec<SwitchCase>) -> (r: usize)
    requires
        awaits_in_cases(v@) <= usize::MAX,
    ensures
        r == awaits_in_cases(v@),
    decreases v@,
{
    let mut total: usize = 0;
    let mut i: usize = 0;
    while i < v.len()
        invariant
            i <= v@.len(),
            awaits_in_cases(v@) <= usize::MAX,
            total == awaits_in_cases(v@.take(i as int)),
        decreases v@.len() - i,
    {
        proof { lemma_cases_prefix(v@, i as int + 1); }
        assert(v@.take(i + 1).drop_last() =~= v@.take(i as int));
        let a = count_in_expressions(&v[i].patterns);
        let b = count_in_statements(&v[i].body.statements);
        total = total + a + b;
        i = i + 1;
    }
    assert(v@.take(v@.len() as int) =~= v@);
    total
}

proof fn lemma_cases_prefix(s: Seq<SwitchCase>, n: int)
    requires
        0 <= n <= s.len(),
    ensures
        n > 0 ==> awaits_in_cases(s.take(n - 1)) + awaits_in_exprs(s[n - 1].patterns@) + awaits_in_stmts(s[n - 1].body.statements@) <= awaits_in_cases(s),
    decreases s.len(),
{
    if n < s.len() {
        if n > 0 { assert(s.drop_last().take(n - 1) =~= s.take(n - 1)); }
        lemma_cases_prefix(s.drop_last(), n);
        if n > 0 {
            assert(s.drop_last()[n - 1] == s[n - 1]);
        }
    } else if n > 0 {
        assert(s.take(n - 1) =~= s.drop_last());
        assert(s.last() == s[n - 1]);
    }
}

fn count_in_selects(v: &Vec<SelectCase>) -> (r: usize)
    requires
        awaits_in_selects(v@) <= usize::MAX,
    ensures
        r == awaits_in_selects(v@),
    decreases v@,
{
    let mut total: usize = 0;
    let mut i: usize = 0;
    while i < v.len()
        invariant
            i <= v@.len(),
            awaits_in_selects(v@) <= usize::MAX,
            total == awaits_in_selects(v@.take(i as int)),
        decreases v@.len() - i,
    {
        proof { lemma_selects_prefix(v@, i as int + 1); }
        assert(v@.take(i + 1).drop_last() =~= v@.take(i as int));
        let b = count_in_statements(&v[i].body.statements);
        total = total + b;
        i = i + 1;
    }
    assert(v@.take(v@.len() as int) =~= v@);
    total
}

proof fn lemma_selects_prefix(s: Seq<SelectCase>, n: int)
    requires
        0 <= n <= s.len(),
    ensures
        n > 0 ==> awaits_in_selects(s.take(n - 1)) + awaits_in_stmts(s[n - 1].body.statements@) <= awaits_in_selects(s),
    decreases s.len(),
{
    if n < s.len() {
        if n > 0 { assert(s.drop_last().take(n - 1) =~= s.take(n - 1)); }
        lemma_selects_prefix(s.drop_last(), n);
        if n > 0 {
            assert(s.drop_last()[n - 1] == s[n - 1]);
        }
    } else if n > 0 {
        assert(s.take(n - 1) =~= s.drop_last());
        assert(s.last() == s[n - 1]);
    }
}

/// Counts the suspension points of a statement.
pub fn count_await_in_statement(stmt: &Statement) -> (r: usize)
    requires
        awaits_in_stmt(*stmt) <= usize::MAX,
    ensures
        r == awaits_in_stmt(*stmt),
    decreases *stmt,
{
    match stmt {
        Statement::Let { value, .. } => count_await_in_expression(value),
        Statement::LetPattern { value, .. } => count_await_in_expression(value),
        Statement::Assign { target, value, .. } => count_await_in_expression(target) + count_await_in_expression(value),
        Statement::CompoundAssign { target, value, .. } => count_await_in_expression(target) + count_await_in_expression(value),
        Statement::Return { value, .. } => match value {
            Some(e) => count_await_in_expression(e),
            None => 0,
        },
        Statement::Break { .. } | Statement::Continue { .. } => 0,
        Statement::Expression(e) => count_await_in_expression(e),
        Statement::If { condition, then_block, elif_branches, else_block, .. } => {
            let a = count_await_in_expression(condition);
            let b = count_in_statements(&then_block.statements);
            let c = count_in_elifs(elif_branches);
            let d = match else_block {
                Some(bl) => count_in_statements(&bl.statements),
                None => 0,
            };
            a + b + c + d
        }
        Statement::While { condition, body, .. } => count_await_in_expression(condition) + count_in_statements(&body.statements),
        Statement::For { init, condition, post, body, .. } => {
            let a = match init {
                Some(st) => count_await_in_statement(st),
                None => 0,
            };
            let b = match condition {
                Some(c) => count_await_in_expression(c),
                None => 0,
            };
            let c = match post {
                Some(st) => count_await_in_statement(st),
                None => 0,
            };
            let d = count_in_statements(&body.statements);
            a + b + c + d
        }
        Statement::ForIn { iterable, body, .. } => count_await_in_expression(iterable) + count_in_statements(&body.statements),
        Statement::Defer(st) => count_await_in_statement(st),
        Statement::Loop { body, .. } => count_in_statements(&body.statements),
        Statement::Switch { value, cases, default_case, .. } => {
            let a = match value {
                Some(v) => count_await_in_expression(v),
                None => 0,
            };
            let b = count_in_cases(cases);
            let c = match default_case {
                Some(bl) => count_in_statements(&bl.statements),
                None => 0,
            };
            a + b + c
        }
        Statement::Select { cases, .. } => count_in_selects(cases),
        Statement::Go { expr, .. } => count_await_in_expression(expr),
        Statement::Unsafe { block, .. } => count_in_statements(&block.statements),
    }
}

} // verus!
