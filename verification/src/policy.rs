//! Policies: named metadata templates for struct fields, with parent
//! policies whose metadata a child inherits and overrides.
use vstd::prelude::*;
use vstd::set_lib::*;
use crate::metadata::{
    merge_conflicts, merge_metadata, metadata_entries, metadata_map, metadata_pairs, parse_metadata,
    triples_view, Metadata,
};
use crate::strmap::StrMap;
use crate::ast::{Field, Struct};
use crate::text::{clone_strings, concat_str, str_eq};

verus! {

/// One field entry of a policy: a field name and its metadata string.
#[derive(Debug)]
pub struct PolicyField {
    pub name: String,
    pub metadata: String,
}

/// A policy declaration.
#[derive(Debug)]
pub struct Policy {
    pub name: String,
    pub fields: Vec<PolicyField>,
    pub parent_policies: Vec<String>,
}

/// The parsed metadata entries of each policy field, by field name. A field
/// whose metadata does not parse is left out; a later field with the same
/// name replaces an earlier one.
pub open spec fn policy_field_map(fields: Seq<PolicyField>) -> Map<Seq<char>, Seq<(Seq<char>, Seq<char>)>>
    decreases fields.len(),
{
    if fields.len() == 0 {
        Map::empty()
    } else {
        let prev = policy_field_map(fields.drop_last());
        let f = fields.last();
        match metadata_entries(f.metadata@) {
            Ok(ps) => prev.insert(f.name@, ps),
            Err(_) => prev,
        }
    }
}

/// The metadata entries policy `q` gives field `f` (none when it names no
/// such field).
pub open spec fn field_entries(q: Policy, f: Seq<char>) -> Seq<(Seq<char>, Seq<char>)> {
    let m = policy_field_map(q.fields@);
    if m.dom().contains(f) {
        m[f]
    } else {
        Seq::empty()
    }
}

/// Applies one policy to struct fields by name: for each field name, in
/// order, the field name, the metadata the policy gives it (empty when the
/// policy does not name it) and an empty warning list.
pub fn apply_policy_to_fields(policy: &Policy, field_names: &[String]) -> (r: Vec<(String, Metadata, Vec<String>)>)
    ensures
        r@.len() == field_names@.len(),
        forall|i: int| #![trigger r@[i]] 0 <= i < r@.len() ==> {
            &&& r@[i].0@ == field_names@[i]@
            &&& r@[i].1@ == metadata_map(field_entries(*policy, field_names@[i]@))
            &&& r@[i].1.pairs() == metadata_pairs(field_entries(*policy, field_names@[i]@))
            &&& r@[i].2@.len() == 0
        },
{
    let mut policy_map: StrMap<Metadata> = StrMap::new();
    let mut j: usize = 0;
    while j < policy.fields.len()
        invariant
            j <= policy.fields@.len(),
            policy_map.view().dom() == policy_field_map(policy.fields@.take(j as int)).dom(),
            forall|k: Seq<char>| #[trigger] policy_map.view().dom().contains(k) ==> {
                &&& policy_map.view()[k]@ == metadata_map(policy_field_map(policy.fields@.take(j as int))[k])
                &&& policy_map.view()[k].pairs() == metadata_pairs(policy_field_map(policy.fields@.take(j as int))[k])
            },
        decreases policy.fields@.len() - j,
    {
        let field = &policy.fields[j];
        assert(policy.fields@.take(j + 1).drop_last() =~= policy.fields@.take(j as int));
        assert(policy.fields@.take(j + 1).last() == policy.fields@[j as int]);
        match parse_metadata(field.metadata.as_str()) {
            Ok(m) => {
                policy_map.insert(field.name.clone(), m);
            }
            Err(_) => {}
        }
        j = j + 1;
    }
    assert(policy.fields@.take(policy.fields@.len() as int) =~= policy.fields@);
    let mut results: Vec<(String, Metadata, Vec<String>)> = Vec::new();
    let mut i: usize = 0;
    while i < field_names.len()
        invariant
            i <= field_names@.len(),
            results@.len() == i,
            policy_map.view().dom() == policy_field_map(policy.fields@).dom(),
            forall|k: Seq<char>| #[trigger] policy_map.view().dom().contains(k) ==> {
                &&& policy_map.view()[k]@ == metadata_map(policy_field_map(policy.fields@)[k])
                &&& policy_map.view()[k].pairs() == metadata_pairs(policy_field_map(policy.fields@)[k])
            },
            forall|t: int| #![trigger results@[t]] 0 <= t < i ==> {
                &&& results@[t].0@ == field_names@[t]@
                &&& results@[t].1@ == metadata_map(field_entries(*policy, field_names@[t]@))
                &&& results@[t].1.pairs() == metadata_pairs(field_entries(*policy, field_names@[t]@))
                &&& results@[t].2@.len() == 0
            },
        decreases field_names@.len() - i,
    {
        let name = &field_names[i];
        let metadata = match policy_map.get(name.as_str()) {
            Some(m) => m.duplicate(),
            None => Metadata::new(),
        };
        results.push((name.clone(), metadata, Vec::new()));
        i = i + 1;
    }
    results
}

} // verus!

verus! {

// ---------------------------------------------------------------------------
// Resolving a policy together with its parents
// ---------------------------------------------------------------------------

/// The names of the policies stored in `all`.
pub open spec fn policy_names(all: Map<Seq<char>, Policy>) -> Set<Seq<char>> {
    all.dom().map(|k: Seq<char>| all[k].name@)
}

/// The names of a list of policies.
pub open spec fn names_of(h: Seq<Policy>) -> Set<Seq<char>> {
    Set::new(|n: Seq<char>| has_name(h, n))
}

/// Whether some policy of `h` has name `n`.
pub open spec fn has_name(h: Seq<Policy>, n: Seq<char>) -> bool {
    exists|i: int| 0 <= i < h.len() && h[i].name@ == n
}

/// `acc` followed by the policies of `h` whose names are not yet listed.
pub open spec fn dedup_append(acc: Seq<Policy>, h: Seq<Policy>) -> Seq<Policy>
    decreases h.len(),
{
    if h.len() == 0 {
        acc
    } else {
        let next = if has_name(acc, h[0].name@) { acc } else { acc.push(h[0]) };
        dedup_append(next, h.drop_first())
    }
}

pub open spec fn circular_message(name: Seq<char>) -> Seq<char> {
    "Circular policy dependency detected: '"@ + name + "'"@
}

pub open spec fn parent_not_found_message(name: Seq<char>) -> Seq<char> {
    "Parent policy '"@ + name + "' not found"@
}

/// How far a resolution from `name` with `visited` may still go: twice the
/// number of stored policy names not yet visited, plus one when `name` is
/// not a stored policy's name.
pub open spec fn resolve_measure(all: Map<Seq<char>, Policy>, name: Seq<char>, visited: Set<Seq<char>>) -> int {
    2 * policy_names(all).difference(visited).len() + if policy_names(all).contains(name) { 0int } else { 1int }
}

pub proof fn lemma_policy_names_finite(all: Map<Seq<char>, Policy>)
    requires
        all.dom().finite(),
    ensures
        policy_names(all).finite(),
{
    all.dom().lemma_map_finite(|k: Seq<char>| all[k].name@);
}

/// Resolves `p` with all its ancestors, depth first, parents in declaration
/// order: ancestors first, `p` last, each name listed once (an ancestor
/// shared by several parents is listed where it first appears). `path`
/// holds the names being resolved, from the root down to `p`'s child;
/// meeting one of them again is a circular dependency, and a parent name
/// that `all` lacks is an error.
pub open spec fn resolve_hierarchy(p: Policy, all: Map<Seq<char>, Policy>, path: Set<Seq<char>>) -> Result<Seq<Policy>, Seq<char>>
    decreases resolve_measure(all, p.name@, path), 1int, 0int
    when all.dom().finite()
{
    if path.contains(p.name@) {
        Err(circular_message(p.name@))
    } else {
        proof {
            lemma_policy_names_finite(all);
            let n = policy_names(all);
            if n.contains(p.name@) {
                n.lemma_set_insert_diff_decreases(path, p.name@);
            } else {
                assert(n.difference(path.insert(p.name@)) =~= n.difference(path));
            }
        }
        match resolve_parents(p.parent_policies@, 0, all, path.insert(p.name@), Seq::empty()) {
            Ok(h) => Ok(h.push(p)),
            Err(e) => Err(e),
        }
    }
}

/// Resolves the parents `parents[j..]` in order, each with the same `path`,
/// appending each one's hierarchy to `acc` without repeating names.
pub open spec fn resolve_parents(
    parents: Seq<String>,
    j: int,
    all: Map<Seq<char>, Policy>,
    path: Set<Seq<char>>,
    acc: Seq<Policy>,
) -> Result<Seq<Policy>, Seq<char>>
    decreases 2 * policy_names(all).difference(path).len() + 1, 0int, parents.len() - j
    when all.dom().finite()
{
    if j < 0 || j >= parents.len() {
        Ok(acc)
    } else if !all.dom().contains(parents[j]@) {
        Err(parent_not_found_message(parents[j]@))
    } else {
        let parent = all[parents[j]@];
        proof {
            lemma_policy_names_finite(all);
            assert(policy_names(all).contains(parent.name@));
        }
        match resolve_hierarchy(parent, all, path) {
            Err(e) => Err(e),
            Ok(h) => resolve_parents(parents, j + 1, all, path, dedup_append(acc, h)),
        }
    }
}

} // verus!

verus! {

/// The names of a list with one more policy.
pub proof fn lemma_names_push(h: Seq<Policy>, p: Policy)
    ensures
        names_of(h.push(p)) == names_of(h).insert(p.name@),
{
    assert forall|x: Seq<char>| names_of(h.push(p)).contains(x) <==> names_of(h).insert(p.name@).contains(x) by {
        if has_name(h.push(p), x) {
            let i = choose|i: int| 0 <= i < h.push(p).len() && h.push(p)[i].name@ == x;
            if i < h.len() {
                assert(h[i].name@ == x);
            }
        }
        if has_name(h, x) {
            let i = choose|i: int| 0 <= i < h.len() && h[i].name@ == x;
            assert(h.push(p)[i].name@ == x);
        }
        if x == p.name@ {
            assert(h.push(p)[h.len() as int].name@ == x);
        }
    }
    assert(names_of(h.push(p)) =~= names_of(h).insert(p.name@));
}

/// Appending without repeats lists exactly the names of both lists.
pub proof fn lemma_dedup_append_names(acc: Seq<Policy>, h: Seq<Policy>)
    ensures
        names_of(dedup_append(acc, h)) == names_of(acc).union(names_of(h)),
    decreases h.len(),
{
    if h.len() > 0 {
        let next = if has_name(acc, h[0].name@) { acc } else { acc.push(h[0]) };
        lemma_dedup_append_names(next, h.drop_first());
        lemma_names_push(acc, h[0]);
        assert(names_of(next) =~= names_of(acc).insert(h[0].name@));
        assert forall|x: Seq<char>| has_name(h, x) <==> (has_name(h.drop_first(), x) || x == h[0].name@) by {
            if has_name(h, x) {
                let i = choose|i: int| 0 <= i < h.len() && h[i].name@ == x;
                if i > 0 {
                    assert(h.drop_first()[i - 1].name@ == x);
                }
            }
            if has_name(h.drop_first(), x) {
                let i = choose|i: int| 0 <= i < h.drop_first().len() && h.drop_first()[i].name@ == x;
                assert(h[i + 1].name@ == x);
            }
        }
        assert(names_of(dedup_append(acc, h)) =~= names_of(acc).union(names_of(h)));
    } else {
        assert(names_of(dedup_append(acc, h)) =~= names_of(acc).union(names_of(h)));
    }
}

/// The policies a list of references points to.
pub open spec fn deref_policies(h: Seq<&Policy>) -> Seq<Policy> {
    h.map_values(|q: &Policy| *q)
}

fn contains_policy_name(h: &Vec<&Policy>, name: &String) -> (r: bool)
    ensures
        r == has_name(deref_policies(h@), name@),
{
    let mut i: usize = 0;
    while i < h.len()
        invariant
            i <= h@.len(),
            forall|t: int| 0 <= t < i ==> h@[t].name@ != name@,
        decreases h@.len() - i,
    {
        if str_eq(h[i].name.as_str(), name.as_str()) {
            assert(deref_policies(h@)[i as int].name@ == name@);
            return true;
        }
        i = i + 1;
    }
    proof {
        if has_name(deref_policies(h@), name@) {
            let t = choose|t: int| 0 <= t < deref_policies(h@).len() && deref_policies(h@)[t].name@ == name@;
            assert(h@[t].name@ == name@);
        }
    }
    false
}

/// Appends to `hierarchy` the policies of `more` whose names it does not
/// list yet.
fn append_new_policies<'a>(hierarchy: &mut Vec<&'a Policy>, more: &Vec<&'a Policy>)
    ensures
        deref_policies(final(hierarchy)@) == dedup_append(deref_policies(old(hierarchy)@), deref_policies(more@)),
{
    let ghost whole = deref_policies(more@);
    assert(whole.subrange(0, whole.len() as int) =~= whole);
    let mut t: usize = 0;
    while t < more.len()
        invariant
            t <= more@.len(),
            whole == deref_policies(more@),
            dedup_append(deref_policies(old(hierarchy)@), whole)
                == dedup_append(deref_policies(hierarchy@), whole.subrange(t as int, whole.len() as int)),
        decreases more@.len() - t,
    {
        let p = more[t];
        let ghost before = deref_policies(hierarchy@);
        let ghost rest = whole.subrange(t as int, whole.len() as int);
        assert(rest.drop_first() =~= whole.subrange(t + 1, whole.len() as int));
        assert(rest[0] == *p);
        if !contains_policy_name(hierarchy, &p.name) {
            hierarchy.push(p);
            assert(deref_policies(hierarchy@) =~= before.push(*p));
        }
        t = t + 1;
    }
    assert(whole.subrange(whole.len() as int, whole.len() as int) =~= Seq::<Policy>::empty());
}

/// Resolves `policy` along the path `path` (see `resolve_hierarchy`),
/// adding to `entered` the name of every policy whose resolution starts.
fn resolve_along<'a>(
    policy: &'a Policy,
    all_policies: &'a StrMap<Policy>,
    path: &mut StrMap<()>,
    entered: &mut StrMap<()>,
) -> (r: Result<Vec<&'a Policy>, String>)
    ensures
        match resolve_hierarchy(*policy, all_policies.view(), old(path).view().dom()) {
            Ok(h) => r matches Ok(v) && deref_policies(v@) == h
                && final(entered).view().dom() == old(entered).view().dom().union(names_of(h)),
            Err(m) => r matches Err(e) && e@ == m,
        },
        final(path).view().dom() == old(path).view().dom(),
        old(entered).view().dom().subset_of(final(entered).view().dom()),
    decreases resolve_measure(all_policies.view(), policy.name@, old(path).view().dom()),
{
    let _ = all_policies.len();
    let ghost all = all_policies.view();
    let ghost v0 = path.view().dom();
    let ghost n0 = entered.view().dom();
    proof { lemma_policy_names_finite(all); }
    if path.contains_key(policy.name.as_str()) {
        return Err(concat_str(concat_str("Circular policy dependency detected: '", policy.name.as_str()).as_str(), "'"));
    }
    path.insert(policy.name.clone(), ());
    entered.insert(policy.name.clone(), ());
    let ghost v1 = path.view().dom();
    let ghost n1 = entered.view().dom();
    proof {
        assert(v1 =~= v0.insert(policy.name@));
        assert(v1.remove(policy.name@) =~= v0);
        assert(n1 =~= n0.insert(policy.name@));
        let n = policy_names(all);
        if n.contains(policy.name@) {
            n.lemma_set_insert_diff_decreases(v0, policy.name@);
        } else {
            assert(n.difference(v1) =~= n.difference(v0));
        }
    }
    let mut hierarchy: Vec<&'a Policy> = Vec::new();
    assert(deref_policies(hierarchy@) =~= Seq::<Policy>::empty());
    assert(names_of(Seq::<Policy>::empty()) =~= Set::<Seq<char>>::empty());
    assert(n1.union(Set::<Seq<char>>::empty()) =~= n1);
    let mut j: usize = 0;
    while j < policy.parent_policies.len()
        invariant
            v0 == old(path).view().dom(),
            n0 == old(entered).view().dom(),
            v1 == v0.insert(policy.name@),
            v1.remove(policy.name@) == v0,
            n1 == n0.insert(policy.name@),
            path.view().dom() == v1,
            n0.subset_of(entered.view().dom()),
            entered.view().dom() == n1.union(names_of(deref_policies(hierarchy@))),
            all == all_policies.view(),
            all.dom().finite(),
            policy_names(all).finite(),
            j <= policy.parent_policies@.len(),
            2 * policy_names(all).difference(v1).len() + 1 <= resolve_measure(all, policy.name@, v0),
            resolve_parents(policy.parent_policies@, 0, all, v1, Seq::empty())
                == resolve_parents(policy.parent_policies@, j as int, all, v1, deref_policies(hierarchy@)),
        decreases policy.parent_policies@.len() - j,
    {
        let pname = &policy.parent_policies[j];
        let parent = match all_policies.get(pname.as_str()) {
            Some(p) => p,
            None => {
                path.remove(policy.name.as_str());
                return Err(concat_str(concat_str("Parent policy '", pname.as_str()).as_str(), "' not found"));
            }
        };
        proof {
            assert(policy_names(all).contains(parent.name@));
        }
        let ghost before_entered = entered.view().dom();
        let parent_hierarchy = match resolve_along(parent, all_policies, path, entered) {
            Ok(h) => h,
            Err(e) => {
                path.remove(policy.name.as_str());
                return Err(e);
            }
        };
        let ghost acc = deref_policies(hierarchy@);
        append_new_policies(&mut hierarchy, &parent_hierarchy);
        proof {
            lemma_dedup_append_names(acc, deref_policies(parent_hierarchy@));
            assert(entered.view().dom() =~= n1.union(names_of(deref_policies(hierarchy@))));
        }
        j = j + 1;
    }
    let ghost before = deref_policies(hierarchy@);
    hierarchy.push(policy);
    assert(deref_policies(hierarchy@) =~= before.push(*policy));
    proof {
        lemma_names_push(before, *policy);
        assert(entered.view().dom() =~= n0.union(names_of(deref_policies(hierarchy@))));
    }
    path.remove(policy.name.as_str());
    Ok(hierarchy)
}

fn copy_name_set(set: &StrMap<()>) -> (r: StrMap<()>)
    ensures
        r.view().dom() == set.view().dom(),
{
    let n = set.len();
    let mut r: StrMap<()> = StrMap::new();
    let mut i: usize = 0;
    while i < n
        invariant
            n == set.entries().len(),
            i <= n,
            forall|k: Seq<char>| #[trigger] set.view().dom().contains(k) <==> set.key_order().contains(k),
            forall|l: int| 0 <= l < n ==> #[trigger] set.key_order()[l] == set.entries()[l].0@,
            set.key_order().len() == n,
            forall|k: Seq<char>| #[trigger] r.view().dom().contains(k) <==> exists|l: int| 0 <= l < i && set.key_order()[l] == k,
        decreases n - i,
    {
        let (k, _) = set.entry_at(i);
        let ghost before = r.view().dom();
        r.insert(k.clone(), ());
        proof {
            assert forall|x: Seq<char>| #[trigger] r.view().dom().contains(x) <==> exists|l: int| 0 <= l < i + 1 && set.key_order()[l] == x by {
                if x == k@ {
                    assert(set.key_order()[i as int] == x);
                }
                if exists|l: int| 0 <= l < i + 1 && set.key_order()[l] == x {
                    let l = choose|l: int| 0 <= l < i + 1 && set.key_order()[l] == x;
                    if l < i {
                        assert(before.contains(x));
                    }
                }
            }
        }
        i = i + 1;
    }
    assert forall|x: Seq<char>| #[trigger] r.view().dom().contains(x) <==> set.view().dom().contains(x) by {
        if set.view().dom().contains(x) {
            let l = choose|l: int| 0 <= l < set.key_order().len() && set.key_order()[l] == x;
        }
    }
    assert(r.view().dom() =~= set.view().dom());
    r
}

/// Resolves `policy` with all its ancestors, depth first: each parent's
/// hierarchy in declaration order, then `policy` itself, each name once
/// (an ancestor shared by several parents is listed where it first
/// appears). A policy whose name `visited` already holds, or that is met
/// again below itself, is reported as a circular dependency; a parent that
/// `all_policies` lacks is reported as not found. The name of every policy
/// whose resolution starts is added to `visited`; after a success that is
/// exactly the names of the hierarchy.
pub fn resolve_policy_hierarchy<'a>(
    policy: &'a Policy,
    all_policies: &'a StrMap<Policy>,
    visited: &mut StrMap<()>,
) -> (r: Result<Vec<&'a Policy>, String>)
    ensures
        match resolve_hierarchy(*policy, all_policies.view(), old(visited).view().dom()) {
            Ok(h) => r matches Ok(v) && deref_policies(v@) == h
                && final(visited).view().dom() == old(visited).view().dom().union(names_of(h)),
            Err(m) => r matches Err(e) && e@ == m,
        },
        old(visited).view().dom().subset_of(final(visited).view().dom()),
{
    let mut path = copy_name_set(visited);
    resolve_along(policy, all_policies, &mut path, visited)
}

} // verus!

verus! {

// ---------------------------------------------------------------------------
// Applying a policy hierarchy to struct fields
// ---------------------------------------------------------------------------

/// The metadata the policies of `h` give field `f`, later policies
/// overriding earlier ones key by key.
pub open spec fn hierarchy_field_meta(h: Seq<Policy>, f: Seq<char>) -> Map<Seq<char>, Seq<char>>
    decreases h.len(),
{
    if h.len() == 0 {
        Map::empty()
    } else {
        hierarchy_field_meta(h.drop_last(), f).union_prefer_right(metadata_map(field_entries(h.last(), f)))
    }
}

/// The warning for one overridden key.
pub open spec fn override_message(policy_name: Seq<char>, c: (Seq<char>, Seq<char>, Seq<char>)) -> Seq<char> {
    "Policy '"@ + policy_name + "' overrides '"@ + c.0 + "': '"@ + c.1 + "' → '"@ + c.2 + "'"@
}

/// The warnings for the keys a policy overrides.
pub open spec fn override_messages(policy_name: Seq<char>, cs: Seq<(Seq<char>, Seq<char>, Seq<char>)>) -> Seq<Seq<char>> {
    cs.map_values(|c: (Seq<char>, Seq<char>, Seq<char>)| override_message(policy_name, c))
}

/// The warnings gathered for field `f` while applying the policies of `h`
/// in order: one per key a policy gives a value different from the one
/// the earlier policies gave.
pub open spec fn hierarchy_field_warnings(h: Seq<Policy>, f: Seq<char>) -> Seq<Seq<char>>
    decreases h.len(),
{
    if h.len() == 0 {
        Seq::empty()
    } else {
        hierarchy_field_warnings(h.drop_last(), f) + override_messages(
            h.last().name@,
            merge_conflicts(hierarchy_field_meta(h.drop_last(), f), metadata_pairs(field_entries(h.last(), f))),
        )
    }
}

pub open spec fn policy_not_found_message(name: Seq<char>) -> Seq<char> {
    "Policy '"@ + name + "' not found"@
}

/// Whether some string of `names` holds `f`.
pub open spec fn listed(names: Seq<String>, f: Seq<char>) -> bool {
    exists|j: int| 0 <= j < names.len() && names[j]@ == f
}

/// The character sequences of a list of strings.
pub open spec fn strings_view(v: Seq<String>) -> Seq<Seq<char>> {
    v.map_values(|s: String| s@)
}

/// No pair disagrees with `old`, when the pairs agree with a map that `old`
/// agrees with on its keys.
pub proof fn lemma_no_conflicts(old: Map<Seq<char>, Seq<char>>, m: Map<Seq<char>, Seq<char>>, ps: Seq<(Seq<char>, Seq<char>)>)
    requires
        forall|i: int| #![trigger ps[i]] 0 <= i < ps.len() ==> m.dom().contains(ps[i].0) && m[ps[i].0] == ps[i].1,
        forall|k: Seq<char>| #[trigger] m.dom().contains(k) ==> old.dom().contains(k) && old[k] == m[k],
    ensures
        merge_conflicts(old, ps) == Seq::<(Seq<char>, Seq<char>, Seq<char>)>::empty(),
    decreases ps.len(),
{
    if ps.len() > 0 {
        let qs = ps.drop_last();
        assert forall|i: int| #![trigger qs[i]] 0 <= i < qs.len() implies m.dom().contains(qs[i].0) && m[qs[i].0] == qs[i].1 by {
            assert(qs[i] == ps[i]);
        }
        lemma_no_conflicts(old, m, qs);
        assert(ps.last() == ps[ps.len() - 1]);
    }
}

/// Nothing conflicts with empty metadata.
pub proof fn lemma_no_conflicts_with_empty(ps: Seq<(Seq<char>, Seq<char>)>)
    ensures
        merge_conflicts(Map::empty(), ps) == Seq::<(Seq<char>, Seq<char>, Seq<char>)>::empty(),
    decreases ps.len(),
{
    if ps.len() > 0 {
        lemma_no_conflicts_with_empty(ps.drop_last());
    }
}

/// The per-field state after applying the policies `h[..t]` to all field
/// names and `h[t]` to the names `names[..i]`.
pub open spec fn fields_state(
    fm: Map<Seq<char>, Metadata>,
    wm: Map<Seq<char>, Vec<String>>,
    h: Seq<Policy>,
    names: Seq<String>,
    t: int,
    i: int,
) -> bool {
    &&& wm.dom() == fm.dom()
    &&& forall|f: Seq<char>| #[trigger] fm.dom().contains(f) <==> (listed(names.take(i), f) || (t > 0 && listed(names, f)))
    &&& forall|f: Seq<char>| #[trigger] fm.dom().contains(f) ==> {
        let lvl = if listed(names.take(i), f) { t + 1 } else { t };
        &&& fm[f]@ == hierarchy_field_meta(h.take(lvl), f)
        &&& strings_view(wm[f]@) == hierarchy_field_warnings(h.take(lvl), f)
    }
}

fn override_warning(policy_name: &String, c: &(String, String, String)) -> (r: String)
    ensures
        r@ == override_message(policy_name@, (c.0@, c.1@, c.2@)),
{
    let s = concat_str("Policy '", policy_name.as_str());
    let s = concat_str(s.as_str(), "' overrides '");
    let s = concat_str(s.as_str(), c.0.as_str());
    let s = concat_str(s.as_str(), "': '");
    let s = concat_str(s.as_str(), c.1.as_str());
    let s = concat_str(s.as_str(), "' → '");
    let s = concat_str(s.as_str(), c.2.as_str());
    let s = concat_str(s.as_str(), "'");
    assert(s@ =~= override_message(policy_name@, (c.0@, c.1@, c.2@)));
    s
}

/// Applies `policy` (the policy at position `t` of `h`) to every field name.
fn apply_one_policy(
    fm: &mut StrMap<Metadata>,
    wm: &mut StrMap<Vec<String>>,
    Ghost(h): Ghost<Seq<Policy>>,
    t: usize,
    policy: &Policy,
    field_names: &[String],
)
    requires
        t < h.len(),
        h[t as int] == *policy,
        fields_state(old(fm).view(), old(wm).view(), h, field_names@, t as int, 0),
    ensures
        fields_state(final(fm).view(), final(wm).view(), h, field_names@, t + 1, 0),
{
    let field_results = apply_policy_to_fields(policy, field_names);
    let ghost names = field_names@;
    assert(h.take(t + 1).drop_last() =~= h.take(t as int));
    assert(h.take(t + 1).last() == *policy);
    let mut i: usize = 0;
    while i < field_results.len()
        invariant
            names == field_names@,
            field_results@.len() == names.len(),
            t < h.len(),
            h[t as int] == *policy,
            h.take(t + 1).drop_last() == h.take(t as int),
            h.take(t + 1).last() == *policy,
            i <= names.len(),
            forall|j: int| #![trigger field_results@[j]] 0 <= j < field_results@.len() ==> {
                &&& field_results@[j].0@ == names[j]@
                &&& field_results@[j].1@ == metadata_map(field_entries(*policy, names[j]@))
                &&& field_results@[j].1.pairs() == metadata_pairs(field_entries(*policy, names[j]@))
                &&& field_results@[j].2@.len() == 0
            },
            fields_state(fm.view(), wm.view(), h, names, t as int, i as int),
        decreases names.len() - i,
    {
        let field_name = &field_results[i].0;
        let field_meta = &field_results[i].1;
        let ghost f = field_name@;
        let ghost seen = listed(names.take(i as int), f);
        let ghost lvl_before = if seen { t + 1 } else { t as int };
        proof {
            let n1 = names.take(i + 1);
            let n0 = names.take(i as int);
            assert forall|g: Seq<char>| listed(n1, g) <==> (listed(n0, g) || g == f) by {
                if listed(n1, g) {
                    let j = choose|j: int| 0 <= j < n1.len() && n1[j]@ == g;
                    if j < i {
                        assert(n0[j]@ == g);
                    }
                }
                if listed(n0, g) {
                    let j = choose|j: int| 0 <= j < n0.len() && n0[j]@ == g;
                    assert(n1[j]@ == g);
                }
                if g == f {
                    assert(n1[i as int]@ == g);
                }
            }
            assert(listed(names, f)) by {
                assert(names[i as int]@ == f);
            }
        }
        let _ = field_meta.len();
        let (merged, warnings) = match fm.get(field_name.as_str()) {
            Some(existing) => {
                let (merged, conflicts) = merge_metadata(existing, field_meta);
                let mut w = match wm.get(field_name.as_str()) {
                    Some(ws) => clone_strings(ws),
                    None => Vec::new(),
                };
                let ghost w0 = w@;
                let mut c: usize = 0;
                while c < conflicts.len()
                    invariant
                        c <= conflicts@.len(),
                        strings_view(w@) == strings_view(w0) + override_messages(policy.name@, triples_view(conflicts@).take(c as int)),
                    decreases conflicts@.len() - c,
                {
                    let ghost before = w@;
                    let msg = override_warning(&policy.name, &conflicts[c]);
                    w.push(msg);
                    assert(triples_view(conflicts@).take(c + 1) =~= triples_view(conflicts@).take(c as int).push(triples_view(conflicts@)[c as int]));
                    assert(strings_view(w@) =~= strings_view(before).push(msg@));
                    assert(override_messages(policy.name@, triples_view(conflicts@).take(c + 1))
                        =~= override_messages(policy.name@, triples_view(conflicts@).take(c as int)).push(msg@));
                    c = c + 1;
                }
                assert(triples_view(conflicts@).take(conflicts@.len() as int) =~= triples_view(conflicts@));
                proof {
                    let e = existing@;
                    let m = field_meta@;
                    if seen {
                        lemma_no_conflicts(e, m, field_meta.pairs());
                        assert(merged@ =~= e);
                        assert(override_messages(policy.name@, Seq::empty()) =~= Seq::<Seq<char>>::empty());
                        assert(strings_view(w@) =~= strings_view(w0));
                    }
                }
                (merged, w)
            }
            None => {
                proof {
                    assert(!seen);
                    assert(t == 0);
                    lemma_no_conflicts_with_empty(field_meta.pairs());
                    assert(h.take(0) =~= Seq::<Policy>::empty());
                    assert(metadata_map(field_entries(*policy, f)) =~= Map::<Seq<char>, Seq<char>>::empty().union_prefer_right(metadata_map(field_entries(*policy, f))));
                }
                let w: Vec<String> = Vec::new();
                proof {
                    assert(h.take(t + 1).drop_last() =~= Seq::<Policy>::empty());
                    assert(hierarchy_field_meta(Seq::<Policy>::empty(), f) == Map::<Seq<char>, Seq<char>>::empty());
                    assert(override_messages(policy.name@, Seq::empty()) =~= Seq::<Seq<char>>::empty());
                    assert(hierarchy_field_warnings(Seq::<Policy>::empty(), f) == Seq::<Seq<char>>::empty());
                }
                assert(strings_view(w@) =~= hierarchy_field_warnings(h.take(t + 1), f));
                (field_meta.duplicate(), w)
            }
        };
        fm.insert(field_name.clone(), merged);
        wm.insert(field_name.clone(), warnings);
        proof {
            assert(wm.view().dom() =~= fm.view().dom());
            assert forall|g: Seq<char>| #[trigger] fm.view().dom().contains(g) <==>
                (listed(names.take(i + 1), g) || (t > 0 && listed(names, g))) by {}
        }
        i = i + 1;
    }
    proof {
        assert(names.take(names.len() as int) =~= names);
        assert(names.take(0) =~= Seq::<String>::empty());
        assert forall|g: Seq<char>| !listed(names.take(0), g) by {}
    }
}

} // verus!

verus! {

/// Applies the policy named `policy_name`, with all its ancestors, to struct
/// fields: for each field name, in order, the metadata the hierarchy gives
/// it (children overriding parents) and the warnings for overridden keys.
pub fn apply_policy_hierarchy_to_fields(
    policy_name: &str,
    all_policies: &StrMap<Policy>,
    field_names: &[String],
) -> (r: Result<Vec<(String, Metadata, Vec<String>)>, String>)
    ensures
        !all_policies.view().dom().contains(policy_name@) ==> (r matches Err(e) && e@ == policy_not_found_message(policy_name@)),
        all_policies.view().dom().contains(policy_name@) ==> match resolve_hierarchy(
            all_policies.view()[policy_name@],
            all_policies.view(),
            Set::empty(),
        ) {
            Err(m) => r matches Err(e) && e@ == m,
            Ok(h) => r matches Ok(v) && v@.len() == field_names@.len() && forall|i: int| #![trigger v@[i]] 0 <= i < v@.len() ==> {
                &&& v@[i].0@ == field_names@[i]@
                &&& v@[i].1@ == hierarchy_field_meta(h, field_names@[i]@)
                &&& strings_view(v@[i].2@) == hierarchy_field_warnings(h, field_names@[i]@)
            },
        },
{
    let policy = match all_policies.get(policy_name) {
        Some(p) => p,
        None => {
            return Err(concat_str(concat_str("Policy '", policy_name).as_str(), "' not found"));
        }
    };
    let mut visited: StrMap<()> = StrMap::new();
    assert(visited.view().dom() =~= Set::<Seq<char>>::empty());
    let hierarchy = match resolve_policy_hierarchy(policy, all_policies, &mut visited) {
        Ok(h) => h,
        Err(e) => {
            return Err(e);
        }
    };
    let ghost h = deref_policies(hierarchy@);
    let mut fm: StrMap<Metadata> = StrMap::new();
    let mut wm: StrMap<Vec<String>> = StrMap::new();
    proof {
        assert(fm.view().dom() =~= wm.view().dom());
        assert forall|g: Seq<char>| !listed(field_names@.take(0), g) by {}
    }
    let mut t: usize = 0;
    while t < hierarchy.len()
        invariant
            h == deref_policies(hierarchy@),
            t <= h.len(),
            fields_state(fm.view(), wm.view(), h, field_names@, t as int, 0),
        decreases h.len() - t,
    {
        apply_one_policy(&mut fm, &mut wm, Ghost(h), t, hierarchy[t], field_names);
        t = t + 1;
    }
    assert(h.take(h.len() as int) =~= h);
    let mut results: Vec<(String, Metadata, Vec<String>)> = Vec::new();
    let mut i: usize = 0;
    while i < field_names.len()
        invariant
            h == deref_policies(hierarchy@),
            h.take(h.len() as int) == h,
            fields_state(fm.view(), wm.view(), h, field_names@, h.len() as int, 0),
            i <= field_names@.len(),
            results@.len() == i,
            forall|j: int| #![trigger results@[j]] 0 <= j < i ==> {
                &&& results@[j].0@ == field_names@[j]@
                &&& results@[j].1@ == hierarchy_field_meta(h, field_names@[j]@)
                &&& strings_view(results@[j].2@) == hierarchy_field_warnings(h, field_names@[j]@)
            },
        decreases field_names@.len() - i,
    {
        let name = &field_names[i];
        proof {
            assert(listed(field_names@, name@)) by {
                assert(field_names@[i as int]@ == name@);
            }
            assert(!listed(field_names@.take(0), name@));
        }
        let metadata = match fm.get(name.as_str()) {
            Some(m) => m.duplicate(),
            None => {
                proof {
                    assert(h.len() == 0);
                    assert(hierarchy_field_meta(h, name@) == Map::<Seq<char>, Seq<char>>::empty());
                }
                Metadata::new()
            }
        };
        let warnings = match wm.get(name.as_str()) {
            Some(w) => clone_strings(w),
            None => {
                proof {
                    assert(h.len() == 0);
                    assert(hierarchy_field_warnings(h, name@) == Seq::<Seq<char>>::empty());
                }
                let w: Vec<String> = Vec::new();
                assert(strings_view(w@) =~= Seq::<Seq<char>>::empty());
                w
            }
        };
        results.push((name.clone(), metadata, warnings));
        i = i + 1;
    }
    Ok(results)
}

} // verus!

verus! {

// ---------------------------------------------------------------------------
// Struct metadata
// ---------------------------------------------------------------------------

/// `m` merged into what `acc` holds for the field `f` (`m` wins), or `m`
/// alone when `acc` holds nothing for it.
pub open spec fn merge_field(
    acc: Map<Seq<char>, Map<Seq<char>, Seq<char>>>,
    f: Seq<char>,
    m: Map<Seq<char>, Seq<char>>,
) -> Map<Seq<char>, Seq<char>> {
    if acc.dom().contains(f) { acc[f].union_prefer_right(m) } else { m }
}

/// The field metadata after one policy hierarchy `h` is applied to the
/// fields, in order: each field's merged metadata is kept when it is not
/// empty.
pub open spec fn fold_policy_fields(
    acc: Map<Seq<char>, Map<Seq<char>, Seq<char>>>,
    h: Seq<Policy>,
    fields: Seq<Seq<char>>,
) -> Map<Seq<char>, Map<Seq<char>, Seq<char>>>
    decreases fields.len(),
{
    if fields.len() == 0 {
        acc
    } else {
        let a = fold_policy_fields(acc, h, fields.drop_last());
        let f = fields.last();
        let merged = merge_field(a, f, hierarchy_field_meta(h, f));
        if merged.dom().len() > 0 { a.insert(f, merged) } else { a }
    }
}

/// The field metadata given by the struct's policies, applied in order
/// with their hierarchies, or the error of the first policy that is not
/// found or whose hierarchy cannot be resolved.
pub open spec fn policies_metadata(
    ps: Seq<Seq<char>>,
    all: Map<Seq<char>, Policy>,
    fields: Seq<Seq<char>>,
) -> Result<Map<Seq<char>, Map<Seq<char>, Seq<char>>>, Seq<char>>
    decreases ps.len(),
{
    if ps.len() == 0 {
        Ok(Map::empty())
    } else {
        match policies_metadata(ps.drop_last(), all, fields) {
            Err(e) => Err(e),
            Ok(acc) => {
                let p = ps.last();
                if !all.dom().contains(p) {
                    Err(policy_not_found_message(p))
                } else {
                    match resolve_hierarchy(all[p], all, Set::empty()) {
                        Err(m) => Err(m),
                        Ok(h) => Ok(fold_policy_fields(acc, h, fields)),
                    }
                }
            }
        }
    }
}

/// The field metadata after the fields' own metadata strings are applied,
/// in order, over what the policies gave (the field's own keys win). A
/// string that does not parse is skipped.
pub open spec fn fold_inline(
    acc: Map<Seq<char>, Map<Seq<char>, Seq<char>>>,
    fields: Seq<Field>,
) -> Map<Seq<char>, Map<Seq<char>, Seq<char>>>
    decreases fields.len(),
{
    if fields.len() == 0 {
        acc
    } else {
        let a = fold_inline(acc, fields.drop_last());
        let fd = fields.last();
        match fd.metadata {
            Some(raw) => match metadata_entries(raw@) {
                Ok(ps) => a.insert(fd.name@, merge_field(a, fd.name@, metadata_map(ps))),
                Err(_) => a,
            },
            None => a,
        }
    }
}

/// The names of a list of fields.
pub open spec fn field_name_views(fields: Seq<Field>) -> Seq<Seq<char>> {
    fields.map_values(|f: Field| f.name@)
}

/// The metadata of a struct's fields: its policies' metadata, then its
/// fields' own metadata over it.
pub open spec fn struct_metadata_of(
    s: Struct,
    all: Map<Seq<char>, Policy>,
) -> Result<Map<Seq<char>, Map<Seq<char>, Seq<char>>>, Seq<char>> {
    match policies_metadata(strings_view(s.policies@), all, field_name_views(s.fields@)) {
        Err(e) => Err(e),
        Ok(acc) => Ok(fold_inline(acc, s.fields@)),
    }
}

/// The metadata maps of a map of field metadata.
pub open spec fn metadata_maps(m: StrMap<Metadata>) -> Map<Seq<char>, Map<Seq<char>, Seq<char>>> {
    m.view().map_values(|md: Metadata| md@)
}

/// Sets the metadata of field `f` to `m` merged over what it has.
fn merge_into(acc: &mut StrMap<Metadata>, f: &String, m: &Metadata, keep_empty: bool)
    ensures
        ({
            let merged = merge_field(metadata_maps(*old(acc)), f@, m@);
            metadata_maps(*final(acc)) == if keep_empty || merged.dom().len() > 0 {
                metadata_maps(*old(acc)).insert(f@, merged)
            } else {
                metadata_maps(*old(acc))
            }
        }),
{
    let merged = match acc.get(f.as_str()) {
        Some(existing) => {
            let (merged, _conflicts) = merge_metadata(existing, m);
            merged
        }
        None => m.duplicate(),
    };
    if keep_empty || merged.len() > 0 {
        let ghost before = metadata_maps(*acc);
        acc.insert(f.clone(), merged);
        assert(metadata_maps(*acc) =~= before.insert(f@, merge_field(before, f@, m@)));
    }
}

/// The metadata of a struct's fields (see `struct_metadata_of`): the
/// struct's policies applied in order, each with its parents, and then each
/// field's own metadata string over them. Fails with the error of the
/// first policy that is not found or whose hierarchy is circular.
pub fn struct_field_metadata(struct_def: &Struct, all_policies: &StrMap<Policy>) -> (r: Result<StrMap<Metadata>, String>)
    ensures
        match struct_metadata_of(*struct_def, all_policies.view()) {
            Ok(fm) => r matches Ok(m) && metadata_maps(m) == fm,
            Err(msg) => r matches Err(e) && e@ == msg,
        },
{
    let ghost all = all_policies.view();
    let ghost fnames = field_name_views(struct_def.fields@);
    let mut field_names: Vec<String> = Vec::new();
    let mut j: usize = 0;
    while j < struct_def.fields.len()
        invariant
            j <= struct_def.fields@.len(),
            field_names@.len() == j,
            forall|k: int| 0 <= k < j ==> #[trigger] field_names@[k]@ == struct_def.fields@[k].name@,
        decreases struct_def.fields@.len() - j,
    {
        field_names.push(struct_def.fields[j].name.clone());
        j = j + 1;
    }
    let mut acc: StrMap<Metadata> = StrMap::new();
    assert(metadata_maps(acc) =~= Map::<Seq<char>, Map<Seq<char>, Seq<char>>>::empty());
    let ghost pnames = strings_view(struct_def.policies@);
    let mut p: usize = 0;
    while p < struct_def.policies.len()
        invariant
            all == all_policies.view(),
            fnames == field_name_views(struct_def.fields@),
            pnames == strings_view(struct_def.policies@),
            field_names@.len() == fnames.len(),
            forall|k: int| 0 <= k < fnames.len() ==> #[trigger] field_names@[k]@ == fnames[k],
            p <= pnames.len(),
            policies_metadata(pnames.take(p as int), all, fnames) == Ok::<Map<Seq<char>, Map<Seq<char>, Seq<char>>>, Seq<char>>(metadata_maps(acc)),
        decreases pnames.len() - p,
    {
        let policy_name = struct_def.policies[p].as_str();
        proof {
            assert(pnames.take(p + 1).drop_last() =~= pnames.take(p as int));
            assert(pnames.take(p + 1).last() == policy_name@);
        }
        let field_results = match apply_policy_hierarchy_to_fields(policy_name, all_policies, field_names.as_slice()) {
            Ok(v) => v,
            Err(e) => {
                proof {
                    lemma_policies_metadata_err(pnames, all, fnames, p as int);
                }
                return Err(e);
            }
        };
        let ghost h = resolve_hierarchy(all[policy_name@], all, Set::empty())->Ok_0;
        let ghost acc0 = metadata_maps(acc);
        let mut i: usize = 0;
        while i < field_results.len()
            invariant
                all == all_policies.view(),
                field_results@.len() == fnames.len(),
                field_names@.len() == fnames.len(),
                forall|k: int| 0 <= k < fnames.len() ==> #[trigger] field_names@[k]@ == fnames[k],
                forall|k: int| #![trigger field_results@[k]] 0 <= k < field_results@.len() ==> {
                    &&& field_results@[k].0@ == fnames[k]
                    &&& field_results@[k].1@ == hierarchy_field_meta(h, fnames[k])
                },
                i <= fnames.len(),
                metadata_maps(acc) == fold_policy_fields(acc0, h, fnames.take(i as int)),
            decreases fnames.len() - i,
        {
            proof {
                assert(fnames.take(i + 1).drop_last() =~= fnames.take(i as int));
                assert(fnames.take(i + 1).last() == fnames[i as int]);
            }
            merge_into(&mut acc, &field_results[i].0, &field_results[i].1, false);
            i = i + 1;
        }
        proof {
            assert(fnames.take(fnames.len() as int) =~= fnames);
        }
        p = p + 1;
    }
    proof {
        assert(pnames.take(pnames.len() as int) =~= pnames);
    }
    let ghost acc1 = metadata_maps(acc);
    let mut i: usize = 0;
    while i < struct_def.fields.len()
        invariant
            i <= struct_def.fields@.len(),
            metadata_maps(acc) == fold_inline(acc1, struct_def.fields@.take(i as int)),
        decreases struct_def.fields@.len() - i,
    {
        let field = &struct_def.fields[i];
        proof {
            assert(struct_def.fields@.take(i + 1).drop_last() =~= struct_def.fields@.take(i as int));
            assert(struct_def.fields@.take(i + 1).last() == *field);
        }
        match &field.metadata {
            Some(raw) => {
                match parse_metadata(raw.as_str()) {
                    Ok(inline_meta) => {
                        merge_into(&mut acc, &field.name, &inline_meta, true);
                    }
                    Err(_) => {}
                }
            }
            None => {}
        }
        i = i + 1;
    }
    proof {
        assert(struct_def.fields@.take(i as int) =~= struct_def.fields@);
    }
    Ok(acc)
}

proof fn lemma_policies_metadata_err(ps: Seq<Seq<char>>, all: Map<Seq<char>, Policy>, fields: Seq<Seq<char>>, p: int)
    requires
        0 <= p < ps.len(),
        policies_metadata(ps.take(p + 1), all, fields) is Err,
    ensures
        policies_metadata(ps, all, fields) == policies_metadata(ps.take(p + 1), all, fields),
    decreases ps.len(),
{
    if ps.len() > p + 1 {
        assert(ps.drop_last().take(p + 1) =~= ps.take(p + 1));
        lemma_policies_metadata_err(ps.drop_last(), all, fields, p);
    } else {
        assert(ps.take(p + 1) =~= ps);
    }
}

} // verus!

verus! {

// ---------------------------------------------------------------------------
// Hierarchies list each policy once
// ---------------------------------------------------------------------------

/// No two policies of `h` share a name.
pub open spec fn unique_names(h: Seq<Policy>) -> bool {
    forall|i: int, j: int| 0 <= i < h.len() && 0 <= j < h.len() && i != j ==> #[trigger] h[i].name@ != #[trigger] h[j].name@
}

proof fn lemma_dedup_unique(acc: Seq<Policy>, h: Seq<Policy>)
    requires
        unique_names(acc),
    ensures
        unique_names(dedup_append(acc, h)),
    decreases h.len(),
{
    if h.len() > 0 {
        let next = if has_name(acc, h[0].name@) { acc } else { acc.push(h[0]) };
        if !has_name(acc, h[0].name@) {
            assert(unique_names(acc.push(h[0]))) by {
                let a = acc.push(h[0]);
                assert forall|i: int, j: int| 0 <= i < a.len() && 0 <= j < a.len() && i != j implies #[trigger] a[i].name@ != #[trigger] a[j].name@ by {
                    if i < acc.len() && j < acc.len() {
                        assert(a[i] == acc[i] && a[j] == acc[j]);
                    } else if i < acc.len() {
                        assert(a[i] == acc[i]);
                    } else {
                        assert(a[j] == acc[j]);
                    }
                }
            }
        }
        lemma_dedup_unique(next, h.drop_first());
    }
}

/// A resolved hierarchy lists each policy name once, and none of the names
/// on the path it was resolved from.
pub proof fn lemma_hierarchy_unique(p: Policy, all: Map<Seq<char>, Policy>, path: Set<Seq<char>>)
    requires
        all.dom().finite(),
        resolve_hierarchy(p, all, path) is Ok,
    ensures
        unique_names(resolve_hierarchy(p, all, path)->Ok_0),
        forall|n: Seq<char>| #[trigger] names_of(resolve_hierarchy(p, all, path)->Ok_0).contains(n) ==> !path.contains(n),
    decreases resolve_measure(all, p.name@, path), 1int, 0int,
{
    let v1 = path.insert(p.name@);
    lemma_policy_names_finite(all);
    let n = policy_names(all);
    if n.contains(p.name@) {
        n.lemma_set_insert_diff_decreases(path, p.name@);
    } else {
        assert(n.difference(v1) =~= n.difference(path));
    }
    assert(names_of(Seq::<Policy>::empty()) =~= Set::<Seq<char>>::empty());
    lemma_parents_unique(p.parent_policies@, 0, all, v1, Seq::empty());
    let hp = resolve_parents(p.parent_policies@, 0, all, v1, Seq::empty())->Ok_0;
    let h = hp.push(p);
    assert(resolve_hierarchy(p, all, path)->Ok_0 == h);
    lemma_names_push(hp, p);
    assert(!has_name(hp, p.name@)) by {
        if has_name(hp, p.name@) {
            assert(names_of(hp).contains(p.name@));
        }
    }
    assert(unique_names(h)) by {
        assert forall|i: int, j: int| 0 <= i < h.len() && 0 <= j < h.len() && i != j implies #[trigger] h[i].name@ != #[trigger] h[j].name@ by {
            if i < hp.len() && j < hp.len() {
                assert(h[i] == hp[i] && h[j] == hp[j]);
            } else if i < hp.len() {
                assert(h[i] == hp[i]);
                assert(h[j] == p);
                if hp[i].name@ == p.name@ {
                    assert(has_name(hp, p.name@));
                }
            } else {
                assert(h[j] == hp[j]);
                assert(h[i] == p);
                if hp[j].name@ == p.name@ {
                    assert(has_name(hp, p.name@));
                }
            }
        }
    }
}

proof fn lemma_parents_unique(
    parents: Seq<String>,
    j: int,
    all: Map<Seq<char>, Policy>,
    path: Set<Seq<char>>,
    acc: Seq<Policy>,
)
    requires
        all.dom().finite(),
        resolve_parents(parents, j, all, path, acc) is Ok,
        unique_names(acc),
        forall|n: Seq<char>| #[trigger] names_of(acc).contains(n) ==> !path.contains(n),
    ensures
        unique_names(resolve_parents(parents, j, all, path, acc)->Ok_0),
        forall|n: Seq<char>| #[trigger] names_of(resolve_parents(parents, j, all, path, acc)->Ok_0).contains(n) ==> !path.contains(n),
    decreases 2 * policy_names(all).difference(path).len() + 1, 0int, parents.len() - j,
{
    if j < 0 || j >= parents.len() {
    } else {
        let parent = all[parents[j]@];
        lemma_policy_names_finite(all);
        assert(policy_names(all).contains(parent.name@));
        lemma_hierarchy_unique(parent, all, path);
        let h1 = resolve_hierarchy(parent, all, path)->Ok_0;
        let next = dedup_append(acc, h1);
        lemma_dedup_unique(acc, h1);
        lemma_dedup_append_names(acc, h1);
        assert forall|n: Seq<char>| #[trigger] names_of(next).contains(n) implies !path.contains(n) by {
            assert(names_of(acc).union(names_of(h1)).contains(n));
        }
        lemma_parents_unique(parents, j + 1, all, path, next);
    }
}

} // verus!
