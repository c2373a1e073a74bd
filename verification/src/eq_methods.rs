//! Which types get an `op!=` generated from their `op==`: a type that
//! implements `Eq` with an `op==` but no `op!=`, declared inside a struct,
//! in an `impl Eq for T` block, or as a method outside its struct.
use vstd::prelude::*;
use crate::ast::{Function, Item, Type, TypeView};
use crate::text::str_eq;

verus! {

/// Whether some function of the list is named `name`.
pub open spec fn has_method(ms: Seq<Function>, name: Seq<char>) -> bool {
    exists|i: int| 0 <= i < ms.len() && ms[i].name@ == name
}

/// The type a method outside its struct belongs to: the named receiver
/// type, directly or behind a reference.
pub open spec fn receiver_type_name(t: TypeView) -> Option<Seq<char>> {
    match t {
        TypeView::Named(n) => Some(n),
        TypeView::Reference(inner, _) => match *inner {
            TypeView::Named(n) => Some(n),
            _ => None,
        },
        _ => None,
    }
}

/// The type an outside method `name` belongs to, if the item is one.
pub open spec fn outside_method_type(it: Item, name: Seq<char>) -> Option<Seq<char>> {
    match it {
        Item::Function(f) => if f.name@ == name {
            match f.receiver {
                Some(rc) => receiver_type_name(rc.ty@),
                None => None,
            }
        } else {
            None
        },
        _ => None,
    }
}

/// Whether the program declares `op!=` outside the struct `t`.
pub open spec fn has_outside_ne(items: Seq<Item>, t: Seq<char>) -> bool {
    exists|j: int| 0 <= j < items.len() && outside_method_type(items[j], "op!="@) == Some(t)
}

/// Whether the list already names the type `t`.
pub open spec fn listed_type(acc: Seq<(Seq<char>, bool)>, t: Seq<char>) -> bool {
    exists|i: int| 0 <= i < acc.len() && acc[i].0 == t
}

/// The types of `items[..n]` (read in order) that need `op!=`, each with
/// whether its `op==` is a method outside the struct; `all` is the whole
/// program, in which an outside `op!=` is looked for.
pub open spec fn types_needing_ne_upto(all: Seq<Item>, n: int) -> Seq<(Seq<char>, bool)>
    decreases n,
{
    if n <= 0 || n > all.len() {
        Seq::empty()
    } else {
        let acc = types_needing_ne_upto(all, n - 1);
        match all[n - 1] {
            Item::Struct(s) => if (exists|i: int| 0 <= i < s.impl_traits@.len() && s.impl_traits@[i].name@ == "Eq"@)
                && has_method(s.methods@, "op=="@) && !has_method(s.methods@, "op!="@)
            {
                acc.push((s.name@, false))
            } else {
                acc
            },
            Item::Function(_) => match outside_method_type(all[n - 1], "op=="@) {
                Some(t) => if !has_outside_ne(all, t) && !listed_type(acc, t) { acc.push((t, true)) } else { acc },
                None => acc,
            },
            Item::TraitImpl(ti) => if ti.trait_name@ == "Eq"@ && has_method(ti.methods@, "op=="@)
                && !has_method(ti.methods@, "op!="@)
            {
                match ti.for_type@ {
                    TypeView::Named(t) => acc.push((t, false)),
                    _ => acc,
                }
            } else {
                acc
            },
            _ => acc,
        }
    }
}

fn has_method_named(ms: &Vec<Function>, name: &str) -> (r: bool)
    ensures
        r == has_method(ms@, name@),
{
    let mut i: usize = 0;
    while i < ms.len()
        invariant
            i <= ms@.len(),
            forall|l: int| 0 <= l < i ==> ms@[l].name@ != name@,
        decreases ms@.len() - i,
    {
        if str_eq(ms[i].name.as_str(), name) {
            return true;
        }
        i = i + 1;
    }
    false
}

fn receiver_type_of(t: &Type) -> (r: Option<&String>)
    ensures
        match receiver_type_name(t@) {
            Some(n) => r matches Some(s) && s@ == n,
            None => r is None,
        },
{
    match t {
        Type::Named(n) => {
            assert(t@ == TypeView::Named(n@));
            Some(n)
        }
        Type::Reference(inner, _) => match &**inner {
            Type::Named(n) => {
                assert(inner@ == TypeView::Named(n@));
                Some(n)
            }
            _ => None,
        },
        _ => None,
    }
}

fn outside_method_type_of<'a>(it: &'a Item, name: &str) -> (r: Option<&'a String>)
    ensures
        match outside_method_type(*it, name@) {
            Some(n) => r matches Some(s) && s@ == n,
            None => r is None,
        },
{
    match it {
        Item::Function(f) => {
            if str_eq(f.name.as_str(), name) {
                match &f.receiver {
                    Some(rc) => receiver_type_of(&rc.ty),
                    None => None,
                }
            } else {
                None
            }
        }
        _ => None,
    }
}

fn has_outside_ne_for(items: &[Item], t: &str) -> (r: bool)
    ensures
        r == has_outside_ne(items@, t@),
{
    let mut j: usize = 0;
    while j < items.len()
        invariant
            j <= items@.len(),
            forall|l: int| 0 <= l < j ==> outside_method_type(#[trigger] items@[l], "op!="@) != Some(t@),
        decreases items@.len() - j,
    {
        match outside_method_type_of(&items[j], "op!=") {
            Some(n) => {
                if str_eq(n.as_str(), t) {
                    return true;
                }
            }
            None => {}
        }
        j = j + 1;
    }
    false
}

fn is_listed(acc: &Vec<(String, bool)>, t: &str) -> (r: bool)
    ensures
        r == listed_type(acc@.map_values(|p: (String, bool)| (p.0@, p.1)), t@),
{
    let ghost v = acc@.map_values(|p: (String, bool)| (p.0@, p.1));
    let mut i: usize = 0;
    while i < acc.len()
        invariant
            v == acc@.map_values(|p: (String, bool)| (p.0@, p.1)),
            i <= acc@.len(),
            forall|l: int| 0 <= l < i ==> v[l].0 != t@,
        decreases acc@.len() - i,
    {
        if str_eq(acc[i].0.as_str(), t) {
            assert(v[i as int].0 == t@);
            return true;
        }
        i = i + 1;
    }
    false
}

/// The types that need `op!=` generated from their `op==`, in program
/// order, each with whether its `op==` is a method outside the struct
/// (see `types_needing_ne_upto`).
pub fn types_needing_ne(items: &[Item]) -> (r: Vec<(String, bool)>)
    ensures
        r@.map_values(|p: (String, bool)| (p.0@, p.1)) == types_needing_ne_upto(items@, items@.len() as int),
{
    let ghost all = items@;
    let mut acc: Vec<(String, bool)> = Vec::new();
    let mut j: usize = 0;
    assert(acc@.map_values(|p: (String, bool)| (p.0@, p.1)) =~= Seq::<(Seq<char>, bool)>::empty());
    while j < items.len()
        invariant
            all == items@,
            j <= all.len(),
            acc@.map_values(|p: (String, bool)| (p.0@, p.1)) == types_needing_ne_upto(all, j as int),
        decreases all.len() - j,
    {
        let ghost before = acc@;
        match &items[j] {
            Item::Struct(s) => {
                let mut implements_eq = false;
                let mut i: usize = 0;
                while i < s.impl_traits.len()
                    invariant
                        i <= s.impl_traits@.len(),
                        implements_eq == exists|l: int| 0 <= l < i && s.impl_traits@[l].name@ == "Eq"@,
                    decreases s.impl_traits@.len() - i,
                {
                    if str_eq(s.impl_traits[i].name.as_str(), "Eq") {
                        implements_eq = true;
                    }
                    i = i + 1;
                }
                if implements_eq && has_method_named(&s.methods, "op==") && !has_method_named(&s.methods, "op!=") {
                    acc.push((s.name.clone(), false));
                }
            }
            Item::Function(_) => {
                match outside_method_type_of(&items[j], "op==") {
                    Some(t) => {
                        if !has_outside_ne_for(items, t.as_str()) && !is_listed(&acc, t.as_str()) {
                            acc.push((t.clone(), true));
                        }
                    }
                    None => {}
                }
            }
            Item::TraitImpl(ti) => {
                if str_eq(ti.trait_name.as_str(), "Eq") && has_method_named(&ti.methods, "op==")
                    && !has_method_named(&ti.methods, "op!=")
                {
                    match &ti.for_type {
                        Type::Named(t) => {
                            acc.push((t.clone(), false));
                        }
                        _ => {}
                    }
                }
            }
            _ => {}
        }
        assert(acc@.map_values(|p: (String, bool)| (p.0@, p.1)) =~= types_needing_ne_upto(all, j + 1));
        j = j + 1;
    }
    acc
}

} // verus!
