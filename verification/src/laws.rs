//! Properties that hold across the library's operations, stated over the
//! specifications its functions are proved against.
use vstd::prelude::*;
use crate::ast::{type_views, Block, Expression, Field, Import, ImportKind, Statement, Struct, TypeParam, TypeView};
use crate::imports::{may_import, with_namespace_imports};
use crate::await_scan::{awaits_in_block, awaits_in_stmt, awaits_in_stmts};
use crate::codegen::{
    cleanup_actions, field_index_in, first_enum_with_variant, first_index_of, layout_names, lemma_first_index_none, subst_layout,
};
use crate::generics::{
    block_subst, changes_no_type, expr_subst, stmt_subst, subst_type, subst_type_list, type_substitution,
};
use crate::inline_optimizer::{is_wrapper_name, must_inline, true_count, wrapper_count, FunctionFacts};
use crate::metadata::{
    lemma_parse_written, merge_conflicts, metadata_entries, metadata_map, pairs_consistent, unique_pair_keys,
    writable_key, written,
};
use crate::policy::{
    circular_message, field_entries, fold_inline, hierarchy_field_meta, lemma_no_conflicts,
    lemma_hierarchy_unique, lemma_no_conflicts_with_empty, merge_field, resolve_hierarchy, resolve_parents,
    struct_metadata_of, unique_names, Policy,
};
use crate::struct_deps::{edge, has_dependency_cycle, is_cycle, is_walk};
use crate::type_ops::{self_replaced, self_replaced_all};
use crate::mangle::encoded_operator;
use crate::inline_optimizer::has_prefix;

verus! {

// ---------------------------------------------------------------------------
// Metadata
// ---------------------------------------------------------------------------

/// Merging with empty metadata, on either side, gives the other metadata
/// unchanged and reports no conflict.
pub proof fn law_merge_with_empty(
    m: Map<Seq<char>, Seq<char>>,
    ps: Seq<(Seq<char>, Seq<char>)>,
    empty_pairs: Seq<(Seq<char>, Seq<char>)>,
)
    requires
        pairs_consistent(Map::empty(), empty_pairs),
    ensures
        m.union_prefer_right(Map::empty()) == m,
        Map::<Seq<char>, Seq<char>>::empty().union_prefer_right(m) == m,
        merge_conflicts(m, empty_pairs) == Seq::<(Seq<char>, Seq<char>, Seq<char>)>::empty(),
        merge_conflicts(Map::empty(), ps) == Seq::<(Seq<char>, Seq<char>, Seq<char>)>::empty(),
{
    assert(m.union_prefer_right(Map::empty()) =~= m);
    assert(Map::<Seq<char>, Seq<char>>::empty().union_prefer_right(m) =~= m);
    if empty_pairs.len() > 0 {
        assert(Map::<Seq<char>, Seq<char>>::empty().dom().contains(empty_pairs[0].0));
    }
    assert(empty_pairs =~= Seq::<(Seq<char>, Seq<char>)>::empty());
    lemma_no_conflicts_with_empty(ps);
}

/// Merging metadata into itself leaves it as it is and reports no
/// conflict.
pub proof fn law_merge_idempotent(m: Map<Seq<char>, Seq<char>>, ps: Seq<(Seq<char>, Seq<char>)>)
    requires
        pairs_consistent(m, ps),
    ensures
        m.union_prefer_right(m) == m,
        merge_conflicts(m, ps) == Seq::<(Seq<char>, Seq<char>, Seq<char>)>::empty(),
{
    assert(m.union_prefer_right(m) =~= m);
    lemma_no_conflicts(m, m, ps);
}

/// Writing metadata and reading it back gives it back: entries written as
/// `key:"value"` (a backslash before each backslash and double quote of the
/// value), separated by single spaces, parse to the same entries in the
/// same order, and so, keys being distinct, to a map holding each key with
/// its value and nothing else. Keys are made of key characters (letters,
/// digits and `_`).
pub proof fn law_written_metadata_reads_back(ps: Seq<(Seq<char>, Seq<char>)>)
    requires
        forall|l: int| 0 <= l < ps.len() ==> writable_key(#[trigger] ps[l].0),
        unique_pair_keys(ps),
    ensures
        metadata_entries(written(ps)) == Ok::<Seq<(Seq<char>, Seq<char>)>, Seq<char>>(ps),
        pairs_consistent(metadata_map(ps), ps),
{
    let s = written(ps);
    assert(s.subrange(0, s.len() as int) =~= s);
    lemma_parse_written(s, 0, ps);
    lemma_map_of_unique_pairs(ps);
}

proof fn lemma_map_of_unique_pairs(ps: Seq<(Seq<char>, Seq<char>)>)
    requires
        unique_pair_keys(ps),
    ensures
        pairs_consistent(metadata_map(ps), ps),
    decreases ps.len(),
{
    if ps.len() == 0 {
        assert(metadata_map(ps).dom() =~= Set::<Seq<char>>::empty());
    } else {
        let q = ps.drop_last();
        assert(unique_pair_keys(q)) by {
            assert forall|i: int, j: int| 0 <= i < q.len() && 0 <= j < q.len() && i != j implies #[trigger] q[i].0 != #[trigger] q[j].0 by {
                assert(q[i] == ps[i] && q[j] == ps[j]);
            }
        }
        lemma_map_of_unique_pairs(q);
        let m = metadata_map(ps);
        let last = ps.len() - 1;
        assert forall|i: int| #![trigger ps[i]] 0 <= i < ps.len() implies m.dom().contains(ps[i].0) && m[ps[i].0] == ps[i].1 by {
            if i < last {
                assert(q[i] == ps[i]);
                assert(ps[i].0 != ps[last].0);
            }
        }
        assert forall|k: Seq<char>| #[trigger] m.dom().contains(k) implies exists|i: int| 0 <= i < ps.len() && ps[i].0 == k by {
            if k != ps[last].0 {
                let i = choose|i: int| 0 <= i < q.len() && q[i].0 == k;
                assert(ps[i] == q[i]);
            } else {
                assert(ps[last].0 == k);
            }
        }
    }
}

/// In a merge the new values win: every key of the new metadata has its new
/// value, every other key of the old metadata keeps its value, and nothing
/// else is present. A conflict is reported exactly for each key that both
/// hold with different values, with the old and the new value.
pub proof fn law_merge_new_wins(
    old: Map<Seq<char>, Seq<char>>,
    new: Map<Seq<char>, Seq<char>>,
    ps: Seq<(Seq<char>, Seq<char>)>,
)
    requires
        pairs_consistent(new, ps),
    ensures
        ({
            let merged = old.union_prefer_right(new);
            &&& merged.dom() == old.dom().union(new.dom())
            &&& forall|k: Seq<char>| #[trigger] new.dom().contains(k) ==> merged[k] == new[k]
            &&& forall|k: Seq<char>| old.dom().contains(k) && !new.dom().contains(k) ==> #[trigger] merged[k] == old[k]
        }),
        forall|i: int| #![trigger merge_conflicts(old, ps)[i]] 0 <= i < merge_conflicts(old, ps).len() ==> {
            let c = merge_conflicts(old, ps)[i];
            &&& old.dom().contains(c.0) && new.dom().contains(c.0)
            &&& c.1 == old[c.0] && c.2 == new[c.0] && c.1 != c.2
        },
        forall|k: Seq<char>| old.dom().contains(k) && #[trigger] new.dom().contains(k) && old[k] != new[k]
            ==> exists|i: int| 0 <= i < merge_conflicts(old, ps).len() && merge_conflicts(old, ps)[i].0 == k,
{
    assert(old.union_prefer_right(new).dom() =~= old.dom().union(new.dom()));
    lemma_conflicts_sound(old, new, ps);
    assert forall|k: Seq<char>| old.dom().contains(k) && #[trigger] new.dom().contains(k) && old[k] != new[k]
        implies exists|i: int| 0 <= i < merge_conflicts(old, ps).len() && merge_conflicts(old, ps)[i].0 == k by {
        let j = choose|j: int| 0 <= j < ps.len() && ps[j].0 == k;
        assert(ps[j].1 == new[k]);
        lemma_conflicts_complete(old, ps, j);
    }
}

proof fn lemma_conflicts_sound(old: Map<Seq<char>, Seq<char>>, new: Map<Seq<char>, Seq<char>>, ps: Seq<(Seq<char>, Seq<char>)>)
    requires
        forall|i: int| #![trigger ps[i]] 0 <= i < ps.len() ==> new.dom().contains(ps[i].0) && new[ps[i].0] == ps[i].1,
    ensures
        forall|i: int| #![trigger merge_conflicts(old, ps)[i]] 0 <= i < merge_conflicts(old, ps).len() ==> {
            let c = merge_conflicts(old, ps)[i];
            &&& old.dom().contains(c.0) && new.dom().contains(c.0)
            &&& c.1 == old[c.0] && c.2 == new[c.0] && c.1 != c.2
        },
    decreases ps.len(),
{
    if ps.len() > 0 {
        let qs = ps.drop_last();
        assert forall|i: int| #![trigger qs[i]] 0 <= i < qs.len() implies new.dom().contains(qs[i].0) && new[qs[i].0] == qs[i].1 by {
            assert(qs[i] == ps[i]);
        }
        lemma_conflicts_sound(old, new, qs);
        assert(ps.last() == ps[ps.len() - 1]);
        let prev = merge_conflicts(old, qs);
        let cs = merge_conflicts(old, ps);
        assert forall|i: int| #![trigger cs[i]] 0 <= i < cs.len() implies {
            let c = cs[i];
            &&& old.dom().contains(c.0) && new.dom().contains(c.0)
            &&& c.1 == old[c.0] && c.2 == new[c.0] && c.1 != c.2
        } by {
            if i < prev.len() {
                assert(cs[i] == prev[i]);
            }
        }
    }
}

proof fn lemma_conflicts_complete(old: Map<Seq<char>, Seq<char>>, ps: Seq<(Seq<char>, Seq<char>)>, j: int)
    requires
        0 <= j < ps.len(),
        old.dom().contains(ps[j].0),
        old[ps[j].0] != ps[j].1,
    ensures
        exists|i: int| 0 <= i < merge_conflicts(old, ps).len() && merge_conflicts(old, ps)[i].0 == ps[j].0,
    decreases ps.len(),
{
    let prev = merge_conflicts(old, ps.drop_last());
    if j < ps.len() - 1 {
        assert(ps.drop_last()[j] == ps[j]);
        lemma_conflicts_complete(old, ps.drop_last(), j);
        let i = choose|i: int| 0 <= i < prev.len() && prev[i].0 == ps[j].0;
        assert(merge_conflicts(old, ps)[i] == prev[i]);
    } else {
        assert(merge_conflicts(old, ps)[prev.len() as int].0 == ps[j].0);
    }
}

// ---------------------------------------------------------------------------
// Policies
// ---------------------------------------------------------------------------

/// A resolved policy hierarchy ends with the policy itself, after its
/// ancestors.
pub proof fn law_policy_comes_last(p: Policy, all: Map<Seq<char>, Policy>)
    requires
        all.dom().finite(),
        resolve_hierarchy(p, all, Set::empty()) is Ok,
    ensures
        resolve_hierarchy(p, all, Set::empty())->Ok_0.len() > 0,
        resolve_hierarchy(p, all, Set::empty())->Ok_0.last() == p,
{
}

/// A resolved policy hierarchy lists each policy once: no two of its
/// policies share a name.
pub proof fn law_hierarchy_names_unique(p: Policy, all: Map<Seq<char>, Policy>)
    requires
        all.dom().finite(),
        resolve_hierarchy(p, all, Set::empty()) is Ok,
    ensures
        unique_names(resolve_hierarchy(p, all, Set::empty())->Ok_0),
{
    lemma_hierarchy_unique(p, all, Set::empty());
}

/// A policy that names itself as its first parent is refused as circular.
pub proof fn law_self_parent_is_circular(p: Policy, all: Map<Seq<char>, Policy>)
    requires
        all.dom().finite(),
        p.parent_policies@.len() > 0,
        p.parent_policies@[0]@ == p.name@,
        all.dom().contains(p.name@),
        all[p.name@].name@ == p.name@,
    ensures
        resolve_hierarchy(p, all, Set::empty()) == Err::<Seq<Policy>, Seq<char>>(circular_message(p.name@)),
{
    let v = Set::<Seq<char>>::empty().insert(p.name@);
    assert(resolve_hierarchy(all[p.name@], all, v) == Err::<Seq<Policy>, Seq<char>>(circular_message(p.name@)));
    assert(resolve_parents(p.parent_policies@, 0, all, v, Seq::empty()) == Err::<Seq<Policy>, Seq<char>>(circular_message(p.name@)));
}

/// A child policy overrides its ancestors: every key that the last policy
/// of a hierarchy gives a field has, in the field's metadata, the value the
/// last policy gives it.
pub proof fn law_child_policy_wins(h: Seq<Policy>, f: Seq<char>)
    requires
        h.len() > 0,
    ensures
        forall|k: Seq<char>| #[trigger] metadata_map(field_entries(h.last(), f)).dom().contains(k) ==> {
            &&& hierarchy_field_meta(h, f).dom().contains(k)
            &&& hierarchy_field_meta(h, f)[k] == metadata_map(field_entries(h.last(), f))[k]
        },
{
}

/// A field's own metadata overrides what its struct's policies give it:
/// when the last field of a name carries metadata that parses, every key
/// of it has, in the struct's metadata for that field, the field's value.
pub proof fn law_inline_metadata_wins(s: Struct, all: Map<Seq<char>, Policy>, i: int, ps: Seq<(Seq<char>, Seq<char>)>)
    requires
        struct_metadata_of(s, all) is Ok,
        0 <= i < s.fields@.len(),
        s.fields@[i].metadata matches Some(raw) && metadata_entries(raw@) == Ok::<Seq<(Seq<char>, Seq<char>)>, Seq<char>>(ps),
        forall|j: int| i < j < s.fields@.len() ==> #[trigger] s.fields@[j].name@ != s.fields@[i].name@,
    ensures
        ({
            let fm = struct_metadata_of(s, all)->Ok_0;
            let f = s.fields@[i].name@;
            &&& fm.dom().contains(f)
            &&& forall|k: Seq<char>| #[trigger] metadata_map(ps).dom().contains(k) ==> fm[f][k] == metadata_map(ps)[k]
        }),
{
    let acc = match crate::policy::policies_metadata(
        crate::policy::strings_view(s.policies@),
        all,
        crate::policy::field_name_views(s.fields@),
    ) {
        Ok(a) => a,
        Err(_) => Map::empty(),
    };
    lemma_fold_inline_keeps(acc, s.fields@, i, ps);
}

proof fn lemma_fold_inline_keeps(
    acc: Map<Seq<char>, Map<Seq<char>, Seq<char>>>,
    fields: Seq<Field>,
    i: int,
    ps: Seq<(Seq<char>, Seq<char>)>,
)
    requires
        0 <= i < fields.len(),
        fields[i].metadata matches Some(raw) && metadata_entries(raw@) == Ok::<Seq<(Seq<char>, Seq<char>)>, Seq<char>>(ps),
        forall|j: int| i < j < fields.len() ==> #[trigger] fields[j].name@ != fields[i].name@,
    ensures
        fold_inline(acc, fields).dom().contains(fields[i].name@),
        forall|k: Seq<char>| #[trigger] metadata_map(ps).dom().contains(k) ==>
            fold_inline(acc, fields)[fields[i].name@][k] == metadata_map(ps)[k],
    decreases fields.len(),
{
    let f = fields[i].name@;
    if i < fields.len() - 1 {
        let fs = fields.drop_last();
        assert(fs[i] == fields[i]);
        assert forall|j: int| i < j < fs.len() implies #[trigger] fs[j].name@ != fs[i].name@ by {
            assert(fs[j] == fields[j]);
        }
        lemma_fold_inline_keeps(acc, fs, i, ps);
        assert(fields.last().name@ != f) by {
            assert(fields[fields.len() - 1].name@ != fields[i].name@);
        }
    } else {
        let a = fold_inline(acc, fields.drop_last());
        assert(fields.last() == fields[i]);
        let merged = merge_field(a, f, metadata_map(ps));
        assert(fold_inline(acc, fields) == a.insert(f, merged));
    }
}

// ---------------------------------------------------------------------------
// Cleanup scopes and deferred statements
// ---------------------------------------------------------------------------

/// Opening a scope and closing it at once leaves the scopes as they were
/// and emits no cleanup.
pub proof fn law_push_then_pop(scopes: Seq<Seq<(Seq<char>, Seq<char>)>>, dtors: Map<Seq<char>, Seq<char>>)
    ensures
        scopes.push(Seq::empty()).drop_last() == scopes,
        cleanup_actions(scopes.push(Seq::empty()).last(), dtors) == Seq::<(Seq<char>, Seq<char>, Seq<char>)>::empty(),
{
    assert(scopes.push(Seq::empty()).drop_last() =~= scopes);
}

/// Cleanup goes in reverse order of registration: a variable registered
/// last whose type has a destructor is cleaned up first, before the
/// variables registered earlier.
pub proof fn law_cleanup_last_first(
    vars: Seq<(Seq<char>, Seq<char>)>,
    v: (Seq<char>, Seq<char>),
    dtors: Map<Seq<char>, Seq<char>>,
)
    requires
        dtors.dom().contains(v.1),
    ensures
        cleanup_actions(vars.push(v), dtors).len() == cleanup_actions(vars, dtors).len() + 1,
        cleanup_actions(vars.push(v), dtors)[0] == (v.0, v.1, dtors[v.1]),
        cleanup_actions(vars.push(v), dtors).drop_first() == cleanup_actions(vars, dtors),
{
    assert(vars.push(v).drop_last() =~= vars);
    assert(cleanup_actions(vars.push(v), dtors).drop_first() =~= cleanup_actions(vars, dtors));
}

/// Deferred statements run last deferred first: after deferring `a` and
/// then `b`, the exit order starts with `b`, then `a`.
pub proof fn law_deferred_reverse(deferred: Seq<Statement>, a: Statement, b: Statement)
    ensures
        ({
            let d = deferred.push(a).push(b);
            &&& d[d.len() - 1 - 0] == b
            &&& d[d.len() - 1 - 1] == a
        }),
{
}

// ---------------------------------------------------------------------------
// Suspension points
// ---------------------------------------------------------------------------

/// Suspension points add up over consecutive statements.
pub proof fn law_awaits_add_up(s1: Seq<Statement>, s2: Seq<Statement>)
    ensures
        awaits_in_stmts(s1 + s2) == awaits_in_stmts(s1) + awaits_in_stmts(s2),
    decreases s2.len(),
{
    if s2.len() == 0 {
        assert(s1 + s2 =~= s1);
    } else {
        law_awaits_add_up(s1, s2.drop_last());
        assert((s1 + s2).drop_last() =~= s1 + s2.drop_last());
        assert((s1 + s2).last() == s2.last());
    }
}

/// A block whose statements are those of two blocks one after the other
/// has as many suspension points as the two together, and an empty block
/// has none.
pub proof fn law_block_awaits_add_up(b: Block, b1: Block, b2: Block)
    requires
        b.statements@ == b1.statements@ + b2.statements@,
    ensures
        awaits_in_block(b) == awaits_in_block(b1) + awaits_in_block(b2),
        b.statements@.len() == 0 ==> awaits_in_block(b) == 0,
{
    law_awaits_add_up(b1.statements@, b2.statements@);
}

// ---------------------------------------------------------------------------
// Types
// ---------------------------------------------------------------------------

/// Replacing `Self` by a concrete name twice is replacing it once.
pub proof fn law_replace_self_idempotent(t: TypeView, concrete: Seq<char>)
    requires
        concrete != "Self"@,
    ensures
        self_replaced(self_replaced(t, concrete), concrete) == self_replaced(t, concrete),
    decreases t,
{
    match t {
        TypeView::Reference(inner, _) => law_replace_self_idempotent(*inner, concrete),
        TypeView::Generic { type_args, .. } => lemma_replace_self_all_idempotent(type_args, concrete),
        TypeView::Array(inner, _) => law_replace_self_idempotent(*inner, concrete),
        TypeView::Slice(inner, _) => law_replace_self_idempotent(*inner, concrete),
        TypeView::Union(ts) => lemma_replace_self_all_idempotent(ts, concrete),
        TypeView::Intersection(ts) => lemma_replace_self_all_idempotent(ts, concrete),
        TypeView::ConstArray { elem_type, .. } => law_replace_self_idempotent(*elem_type, concrete),
        TypeView::Tuple(ts) => lemma_replace_self_all_idempotent(ts, concrete),
        TypeView::Function { params, return_type } => {
            lemma_replace_self_all_idempotent(params, concrete);
            law_replace_self_idempotent(*return_type, concrete);
        },
        TypeView::RawPtr { inner, .. } => law_replace_self_idempotent(*inner, concrete),
        TypeView::Option(inner) => law_replace_self_idempotent(*inner, concrete),
        TypeView::Result(ok, err) => {
            law_replace_self_idempotent(*ok, concrete);
            law_replace_self_idempotent(*err, concrete);
        },
        TypeView::Vec(inner) => law_replace_self_idempotent(*inner, concrete),
        TypeView::Box(inner) => law_replace_self_idempotent(*inner, concrete),
        TypeView::Channel(inner) => law_replace_self_idempotent(*inner, concrete),
        TypeView::Future(inner) => law_replace_self_idempotent(*inner, concrete),
        TypeView::AssociatedType { self_type, .. } => law_replace_self_idempotent(*self_type, concrete),
        TypeView::Conditional { check_type, extends_type, true_type, false_type } => {
            law_replace_self_idempotent(*check_type, concrete);
            law_replace_self_idempotent(*extends_type, concrete);
            law_replace_self_idempotent(*true_type, concrete);
            law_replace_self_idempotent(*false_type, concrete);
        },
        _ => {}
    }
}

proof fn lemma_replace_self_all_idempotent(ts: Seq<TypeView>, concrete: Seq<char>)
    requires
        concrete != "Self"@,
    ensures
        self_replaced_all(self_replaced_all(ts, concrete), concrete) == self_replaced_all(ts, concrete),
    decreases ts,
{
    if ts.len() > 0 {
        lemma_replace_self_all_idempotent(ts.drop_last(), concrete);
        law_replace_self_idempotent(ts.last(), concrete);
        let r = self_replaced_all(ts, concrete);
        assert(r.drop_last() == self_replaced_all(ts.drop_last(), concrete));
        assert(r.last() == self_replaced(ts.last(), concrete));
    }
}

/// Substituting with a map that changes no type (each type parameter it
/// maps stands for itself; the empty map is one) leaves a type as it is.
pub proof fn law_subst_nothing(t: TypeView, m: Map<Seq<char>, TypeView>)
    requires
        changes_no_type(m),
    ensures
        subst_type(t, m) == t,
    decreases t,
{
    match t {
        TypeView::Generic { type_args, .. } => lemma_subst_list_nothing(type_args, m),
        TypeView::Reference(inner, _) => law_subst_nothing(*inner, m),
        TypeView::Array(inner, _) => law_subst_nothing(*inner, m),
        TypeView::ConstArray { elem_type, .. } => law_subst_nothing(*elem_type, m),
        TypeView::Slice(inner, _) => law_subst_nothing(*inner, m),
        TypeView::Tuple(ts) => lemma_subst_list_nothing(ts, m),
        TypeView::Function { params, return_type } => {
            lemma_subst_list_nothing(params, m);
            law_subst_nothing(*return_type, m);
        }
        TypeView::Union(ts) => lemma_subst_list_nothing(ts, m),
        TypeView::Intersection(ts) => lemma_subst_list_nothing(ts, m),
        TypeView::RawPtr { inner, .. } => law_subst_nothing(*inner, m),
        TypeView::Option(inner) => law_subst_nothing(*inner, m),
        TypeView::Result(ok, err) => {
            law_subst_nothing(*ok, m);
            law_subst_nothing(*err, m);
        }
        TypeView::Vec(inner) => law_subst_nothing(*inner, m),
        TypeView::Box(inner) => law_subst_nothing(*inner, m),
        TypeView::Channel(inner) => law_subst_nothing(*inner, m),
        TypeView::Future(inner) => law_subst_nothing(*inner, m),
        TypeView::AssociatedType { self_type, .. } => law_subst_nothing(*self_type, m),
        TypeView::Conditional { check_type, extends_type, true_type, false_type } => {
            law_subst_nothing(*check_type, m);
            law_subst_nothing(*extends_type, m);
            law_subst_nothing(*true_type, m);
            law_subst_nothing(*false_type, m);
        }
        _ => {}
    }
}

proof fn lemma_subst_list_nothing(ts: Seq<TypeView>, m: Map<Seq<char>, TypeView>)
    requires
        changes_no_type(m),
    ensures
        subst_type_list(ts, m) == ts,
    decreases ts,
{
    if ts.len() > 0 {
        lemma_subst_list_nothing(ts.drop_last(), m);
        law_subst_nothing(ts.last(), m);
        assert(subst_type_list(ts, m) =~= ts);
    }
}

/// Substituting with a map that changes no type leaves an expression as it
/// is: the expression itself is its substitution, every type it carries
/// keeping its value (see also `substitute_types_in_expression`, which
/// then gives back the expression itself).
pub proof fn law_subst_nothing_in_expression(e: Expression, m: Map<Seq<char>, TypeView>)
    requires
        changes_no_type(m),
    ensures
        expr_subst(e, e, m),
    decreases e,
{
    match e {
        Expression::StructLiteral { name, type_args, fields } => {
            lemma_subst_list_nothing(type_views(type_args@), m);
            assert forall|i: int| 0 <= i < fields@.len() implies expr_subst(#[trigger] fields@[i].1, fields@[i].1, m) by {
                vstd::std_specs::vec::axiom_vec_index_decreases(fields, i);
                law_subst_nothing_in_expression(fields@[i].1, m);
            }
            assert(crate::generics::fields_subst(fields@, fields@, m));
        },
        Expression::Binary { left, right, .. } => {
            law_subst_nothing_in_expression(*left, m);
            law_subst_nothing_in_expression(*right, m);
        },
        Expression::Unary { expr, .. } => law_subst_nothing_in_expression(*expr, m),
        Expression::Call { func, type_args, args, .. } => {
            law_subst_nothing_in_expression(*func, m);
            lemma_subst_list_nothing(type_views(type_args@), m);
            lemma_exprs_subst_nothing(args, m);
        },
        Expression::MethodCall { receiver, type_args, args, .. } => {
            law_subst_nothing_in_expression(*receiver, m);
            lemma_subst_list_nothing(type_views(type_args@), m);
            lemma_exprs_subst_nothing(args, m);
        },
        Expression::Index { object, index } => {
            law_subst_nothing_in_expression(*object, m);
            law_subst_nothing_in_expression(*index, m);
        },
        Expression::Cast { expr, target_type } => {
            law_subst_nothing_in_expression(*expr, m);
            law_subst_nothing(target_type@, m);
        },
        Expression::TupleLiteral(es) => lemma_exprs_subst_nothing(es, m),
        Expression::Array(es) => lemma_exprs_subst_nothing(es, m),
        Expression::FieldAccess { object, .. } => law_subst_nothing_in_expression(*object, m),
        Expression::Reference { expr, .. } => law_subst_nothing_in_expression(*expr, m),
        Expression::Deref(expr) => law_subst_nothing_in_expression(*expr, m),
        Expression::Block { statements, return_expr } => {
            lemma_stmts_subst_nothing(statements, m);
            match return_expr {
                Some(r) => law_subst_nothing_in_expression(*r, m),
                None => {},
            }
        },
        _ => {},
    }
}

proof fn lemma_exprs_subst_nothing(es: Vec<Expression>, m: Map<Seq<char>, TypeView>)
    requires
        changes_no_type(m),
    ensures
        crate::generics::exprs_subst(es@, es@, m),
    decreases es, 0int,
{
    assert forall|i: int| 0 <= i < es@.len() implies expr_subst(#[trigger] es@[i], es@[i], m) by {
        vstd::std_specs::vec::axiom_vec_index_decreases(es, i);
        law_subst_nothing_in_expression(es@[i], m);
    }
}

proof fn lemma_stmts_subst_nothing(ss: Vec<Statement>, m: Map<Seq<char>, TypeView>)
    requires
        changes_no_type(m),
    ensures
        crate::generics::stmts_subst(ss@, ss@, m),
    decreases ss, 0int,
{
    assert forall|i: int| 0 <= i < ss@.len() implies stmt_subst(#[trigger] ss@[i], ss@[i], m) by {
        vstd::std_specs::vec::axiom_vec_index_decreases(ss, i);
        lemma_stmt_subst_nothing(ss@[i], m);
    }
}

/// Substituting with a map that changes no type leaves a block as it is.
pub proof fn lemma_block_subst_nothing(b: Block, m: Map<Seq<char>, TypeView>)
    requires
        changes_no_type(m),
    ensures
        block_subst(b, b, m),
    decreases b,
{
    lemma_stmts_subst_nothing(b.statements, m);
}

proof fn lemma_opt_type_subst_nothing(t: Option<crate::ast::Type>, m: Map<Seq<char>, TypeView>)
    requires
        changes_no_type(m),
    ensures
        crate::generics::opt_type_subst(t, t, m),
{
    if let Some(x) = t {
        law_subst_nothing(x@, m);
    }
}

/// Substituting with a map that changes no type leaves a statement as it
/// is.
pub proof fn lemma_stmt_subst_nothing(s: Statement, m: Map<Seq<char>, TypeView>)
    requires
        changes_no_type(m),
    ensures
        stmt_subst(s, s, m),
    decreases s,
{
    match s {
        Statement::Return { value, .. } => {
            if let Some(e) = value {
                law_subst_nothing_in_expression(e, m);
            }
        },
        Statement::If { condition, then_block, elif_branches, else_block, .. } => {
            law_subst_nothing_in_expression(condition, m);
            lemma_block_subst_nothing(then_block, m);
            assert forall|i: int| 0 <= i < elif_branches@.len() implies expr_subst(#[trigger] elif_branches@[i].0, elif_branches@[i].0, m)
                && block_subst(elif_branches@[i].1, elif_branches@[i].1, m) by {
                vstd::std_specs::vec::axiom_vec_index_decreases(elif_branches, i);
                law_subst_nothing_in_expression(elif_branches@[i].0, m);
                lemma_block_subst_nothing(elif_branches@[i].1, m);
            }
            assert(crate::generics::elifs_subst(elif_branches@, elif_branches@, m));
            if let Some(b) = else_block {
                lemma_block_subst_nothing(b, m);
            }
        },
        Statement::Let { ty, value, .. } => {
            lemma_opt_type_subst_nothing(ty, m);
            law_subst_nothing_in_expression(value, m);
        },
        Statement::Expression(e) => law_subst_nothing_in_expression(e, m),
        Statement::While { condition, body, .. } => {
            law_subst_nothing_in_expression(condition, m);
            lemma_block_subst_nothing(body, m);
        },
        Statement::For { init, condition, post, body, .. } => {
            lemma_block_subst_nothing(body, m);
            if let Some(st) = init {
                lemma_stmt_subst_nothing(*st, m);
            }
            if let Some(c) = condition {
                law_subst_nothing_in_expression(c, m);
            }
            if let Some(st) = post {
                lemma_stmt_subst_nothing(*st, m);
            }
        },
        Statement::ForIn { iterable, body, .. } => {
            law_subst_nothing_in_expression(iterable, m);
            lemma_block_subst_nothing(body, m);
        },
        Statement::Assign { target, value, .. } => {
            law_subst_nothing_in_expression(target, m);
            law_subst_nothing_in_expression(value, m);
        },
        Statement::LetPattern { ty, value, .. } => {
            lemma_opt_type_subst_nothing(ty, m);
            law_subst_nothing_in_expression(value, m);
        },
        _ => {},
    }
}

/// When every type parameter has an argument, the substitution is found,
/// and each parameter (the last of its name) stands for the argument at
/// its position.
pub proof fn law_type_args_given(tps: Seq<TypeParam>, args: Seq<TypeView>, func: Seq<char>)
    requires
        tps.len() <= args.len(),
    ensures
        type_substitution(tps, args, func) is Ok,
        forall|i: int| 0 <= i < tps.len() && (forall|j: int| i < j < tps.len() ==> #[trigger] tps[j].name@ != tps[i].name@)
            ==> type_substitution(tps, args, func)->Ok_0.dom().contains(#[trigger] tps[i].name@)
                && type_substitution(tps, args, func)->Ok_0[tps[i].name@] == args[i],
    decreases tps.len(),
{
    if tps.len() > 0 {
        let qs = tps.drop_last();
        law_type_args_given(qs, args, func);
        assert forall|i: int| 0 <= i < tps.len() && (forall|j: int| i < j < tps.len() ==> #[trigger] tps[j].name@ != tps[i].name@)
            implies type_substitution(tps, args, func)->Ok_0.dom().contains(#[trigger] tps[i].name@)
                && type_substitution(tps, args, func)->Ok_0[tps[i].name@] == args[i] by {
            if i < tps.len() - 1 {
                assert(qs[i] == tps[i]);
                assert forall|j: int| i < j < qs.len() implies #[trigger] qs[j].name@ != qs[i].name@ by {
                    assert(qs[j] == tps[j]);
                }
                assert(tps[tps.len() - 1].name@ != tps[i].name@);
            }
        }
    }
}

// ---------------------------------------------------------------------------
// Dependencies
// ---------------------------------------------------------------------------

/// A struct that depends on itself (a field of its own type, directly, in
/// an array or behind a reference) is a dependency cycle.
pub proof fn law_self_dependency_is_cycle(g: Map<Seq<char>, Seq<Seq<char>>>, s: Seq<char>)
    requires
        edge(g, s, s),
    ensures
        has_dependency_cycle(g),
{
    let w = seq![s, s];
    assert(w.drop_last() =~= seq![s]);
    assert(is_walk(g, seq![s]));
    assert(w[0] == s && w[1] == s);
    assert(is_walk(g, w));
    assert(is_cycle(g, w));
}

// ---------------------------------------------------------------------------
// Inlining
// ---------------------------------------------------------------------------

/// Once every function that must be inlined is marked, at least as many
/// functions are marked as there are standard-library wrappers, so the
/// statistics are acceptable.
pub proof fn law_marked_wrappers_acceptable(fs: Seq<FunctionFacts>, flags: Seq<bool>)
    requires
        flags.len() == fs.len(),
        forall|i: int| 0 <= i < fs.len() && must_inline(#[trigger] fs[i].name@, fs[i].block_sizes@) ==> flags[i],
    ensures
        true_count(flags) >= wrapper_count(fs),
    decreases fs.len(),
{
    if fs.len() > 0 {
        let gs = fs.drop_last();
        let hs = flags.drop_last();
        assert forall|i: int| 0 <= i < gs.len() && must_inline(#[trigger] gs[i].name@, gs[i].block_sizes@) implies hs[i] by {
            assert(gs[i] == fs[i]);
        }
        law_marked_wrappers_acceptable(gs, hs);
        let last = fs.len() - 1;
        if is_wrapper_name(fs.last().name@) {
            assert(must_inline(fs[last].name@, fs[last].block_sizes@));
        }
    }
}


// ---------------------------------------------------------------------------
// Names
// ---------------------------------------------------------------------------

/// Only operator method names are encoded: a name that does not begin with
/// `op` is kept as it is.
pub proof fn law_plain_names_kept(name: Seq<char>)
    requires
        !has_prefix(name, "op"@),
    ensures
        encoded_operator(name) == name,
{
    reveal_strlit("op");
    reveal_strlit("op+");
    reveal_strlit("op-");
    reveal_strlit("op*");
    reveal_strlit("op/");
    reveal_strlit("op%");
    reveal_strlit("op**");
    reveal_strlit("op==");
    reveal_strlit("op!=");
    reveal_strlit("op<");
    reveal_strlit("op<=");
    reveal_strlit("op>");
    reveal_strlit("op>=");
    reveal_strlit("op&");
    reveal_strlit("op|");
    reveal_strlit("op^");
    reveal_strlit("op<<");
    reveal_strlit("op>>");
    reveal_strlit("op!");
    reveal_strlit("op~");
    reveal_strlit("op++");
    reveal_strlit("op--");
    reveal_strlit("op[]");
    reveal_strlit("op[]=");
    if encoded_operator(name) != name {
        assert(name.subrange(0, 2) =~= "op"@);
    }
}


// ---------------------------------------------------------------------------
// Registries
// ---------------------------------------------------------------------------

/// A variant of a newly registered enum is found in that enum, at its
/// first position, when no enum registered before it has a variant of that
/// name.
pub proof fn law_registered_variant_found(
    order: Seq<Seq<char>>,
    variants: Map<Seq<char>, Seq<Seq<char>>>,
    e: Seq<char>,
    vs: Seq<Seq<char>>,
    name: Seq<char>,
)
    requires
        !order.contains(e),
        forall|j: int| 0 <= j < order.len() ==> variants.dom().contains(#[trigger] order[j]) && !variants[order[j]].contains(name),
        first_index_of(vs, name) is Some,
    ensures
        first_enum_with_variant(order.push(e), variants.insert(e, vs), 0, name)
            == Some((e, first_index_of(vs, name)->Some_0)),
{
    lemma_variant_found_from(order, variants, e, vs, name, 0);
}

proof fn lemma_variant_found_from(
    order: Seq<Seq<char>>,
    variants: Map<Seq<char>, Seq<Seq<char>>>,
    e: Seq<char>,
    vs: Seq<Seq<char>>,
    name: Seq<char>,
    k: int,
)
    requires
        0 <= k <= order.len(),
        !order.contains(e),
        forall|j: int| 0 <= j < order.len() ==> variants.dom().contains(#[trigger] order[j]) && !variants[order[j]].contains(name),
        first_index_of(vs, name) is Some,
    ensures
        first_enum_with_variant(order.push(e), variants.insert(e, vs), k, name)
            == Some((e, first_index_of(vs, name)->Some_0)),
    decreases order.len() - k,
{
    let o2 = order.push(e);
    let v2 = variants.insert(e, vs);
    if k < order.len() {
        assert(o2[k] == order[k]);
        assert(order[k] != e);
        assert(v2[o2[k]] == variants[order[k]]);
        lemma_first_index_none(variants[order[k]], name);
        lemma_variant_found_from(order, variants, e, vs, name, k + 1);
    } else {
        assert(o2[k] == e);
    }
}

/// A function registered under a mangled name is found under that name.
pub proof fn law_registered_function_found(names: Set<Seq<char>>, base: Seq<char>, mangled: Seq<char>)
    ensures
        names.insert(mangled).contains(mangled),
        names.insert(mangled).insert(base).contains(mangled),
        names.insert(mangled).insert(base).contains(base),
{
}

/// An instantiated struct keeps its base struct's field positions: a field
/// is found in the instance's layout exactly where it stands among the base
/// struct's fields, whatever the substitution.
pub proof fn law_instance_fields_keep_positions(
    layouts: Map<Seq<char>, Seq<(Seq<char>, TypeView)>>,
    instance: Seq<char>,
    base_fields: Seq<(Seq<char>, TypeView)>,
    m: Map<Seq<char>, TypeView>,
    field: Seq<char>,
)
    ensures
        field_index_in(layouts.insert(instance, subst_layout(base_fields, m)), instance, field) == match first_index_of(
            layout_names(base_fields),
            field,
        ) {
            Some(i) => Ok::<nat, Seq<char>>(i),
            None => Err("Field '"@ + field + "' not found in struct '"@ + instance + "'"@),
        },
{
    assert(layout_names(subst_layout(base_fields, m)) =~= layout_names(base_fields));
}

/// A generic struct instantiation is remembered: once made, the struct and
/// its type argument names are among the instantiations, so asking again
/// is answered with the same name and changes nothing.
pub proof fn law_instantiation_remembered(
    instances: Seq<(Seq<char>, Seq<Seq<char>>)>,
    struct_name: Seq<char>,
    type_names: Seq<Seq<char>>,
)
    ensures
        instances.push((struct_name, type_names)).contains((struct_name, type_names)),
{
    assert(instances.push((struct_name, type_names))[instances.len() as int] == (struct_name, type_names));
}

// ---------------------------------------------------------------------------
// Imports
// ---------------------------------------------------------------------------

/// A module that exports nothing explicitly exports everything: a module
/// or namespace import, or a named import without a list, takes any name
/// of it. A named import with a list takes only listed names.
pub proof fn law_imports_by_exports(import: Import, exported: Set<Seq<char>>, name: Seq<char>)
    ensures
        exported == Set::<Seq<char>>::empty() && (!(import.kind is Named) || import.items@.len() == 0)
            ==> may_import(import, exported, name),
        import.kind is Named && import.items@.len() > 0 && may_import(import, exported, name)
            ==> exists|i: int| 0 <= i < import.items@.len() && import.items@[i].name@ == name,
{
}

/// Whether an import is a namespace import under `alias`.
pub open spec fn imports_as_namespace(import: Import, alias: Seq<char>) -> bool {
    match import.kind {
        ImportKind::Namespace(a) => a@ == alias,
        _ => false,
    }
}

/// After namespace imports are registered, an alias refers to the module
/// of the last import under that alias; an alias that none of them uses
/// refers to what it referred to before, if anything.
pub proof fn law_last_namespace_import_wins(m: Map<Seq<char>, Seq<char>>, imports: Seq<Import>, alias: Seq<char>)
    ensures
        forall|j: int|
            0 <= j < imports.len() && #[trigger] imports_as_namespace(imports[j], alias)
                && (forall|k: int| j < k < imports.len() ==> !imports_as_namespace(imports[k], alias))
                ==> with_namespace_imports(m, imports).dom().contains(alias)
                    && with_namespace_imports(m, imports)[alias] == imports[j].module@,
        (forall|k: int| 0 <= k < imports.len() ==> !imports_as_namespace(imports[k], alias))
            ==> (with_namespace_imports(m, imports).dom().contains(alias) == m.dom().contains(alias)
                && (m.dom().contains(alias) ==> with_namespace_imports(m, imports)[alias] == m[alias])),
    decreases imports.len(),
{
    if imports.len() > 0 {
        let init = imports.drop_last();
        let n = imports.len() - 1;
        law_last_namespace_import_wins(m, init, alias);
        assert forall|j: int|
            0 <= j < imports.len() && #[trigger] imports_as_namespace(imports[j], alias)
                && (forall|k: int| j < k < imports.len() ==> !imports_as_namespace(imports[k], alias))
            implies with_namespace_imports(m, imports).dom().contains(alias)
                && with_namespace_imports(m, imports)[alias] == imports[j].module@ by {
            if j < n {
                assert(!imports_as_namespace(imports[n], alias));
                assert(init[j] == imports[j]);
                assert(imports_as_namespace(init[j], alias));
                assert forall|k: int| j < k < init.len() implies !imports_as_namespace(init[k], alias) by {
                    assert(init[k] == imports[k]);
                }
            }
        }
        if forall|k: int| 0 <= k < imports.len() ==> !imports_as_namespace(imports[k], alias) {
            assert(!imports_as_namespace(imports[n], alias));
            assert forall|k: int| 0 <= k < init.len() implies !imports_as_namespace(init[k], alias) by {
                assert(init[k] == imports[k]);
            }
        }
    }
}
} // verus!
