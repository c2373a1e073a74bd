//! Merging imported modules: which names a module exports, and which of its
//! items (and of the items it re-exports) an import brings into the
//! program, under which names. Finding and loading the modules is the
//! caller's part; from the loaded items the library draws up the plan of
//! what to take, which the caller then carries out.
use vstd::prelude::*;
use crate::ast::{Export, ExportItem, Import, ImportItem, ImportKind, Item};
use crate::inline_optimizer::has_prefix;
use crate::strmap::StrMap;
use crate::text::{starts_with, str_eq};
use vstd::string::*;
use crate::type_ops::{extract_struct_name_from_receiver, receiver_struct_name};

verus! {

// ---------------------------------------------------------------------------
// Exports
// ---------------------------------------------------------------------------

/// The name of a function, constant, struct, enum or trait item.
pub open spec fn item_name(it: Item) -> Option<Seq<char>> {
    match it {
        Item::Function(f) => Some(f.name@),
        Item::Const(c) => Some(c.name@),
        Item::Struct(s) => Some(s.name@),
        Item::Enum(e) => Some(e.name@),
        Item::Contract(t) => Some(t.name@),
        _ => None,
    }
}

/// The name an export list entry is exported under.
pub open spec fn exported_as(x: ExportItem) -> Seq<char> {
    match x.alias {
        Some(a) => a@,
        None => x.name@,
    }
}

/// The names an export list exports.
pub open spec fn export_list_names(xs: Seq<ExportItem>) -> Set<Seq<char>> {
    Set::new(|n: Seq<char>| exists|i: int| 0 <= i < xs.len() && exported_as(xs[i]) == n)
}

/// Whether an item is a function, constant or struct whose name starts
/// with `export `.
pub open spec fn export_prefixed(it: Item) -> bool {
    match it {
        Item::Function(f) => has_prefix(f.name@, "export "@),
        Item::Const(c) => has_prefix(c.name@, "export "@),
        Item::Struct(s) => has_prefix(s.name@, "export "@),
        _ => false,
    }
}

/// The names a module's own items declare exported: the entries of its
/// export lists (a wildcard re-export lists none), and the functions,
/// constants and structs whose name starts with `export `.
pub open spec fn declared_exports(items: Seq<Item>) -> Set<Seq<char>>
    decreases items.len(),
{
    if items.len() == 0 {
        Set::empty()
    } else {
        let prev = declared_exports(items.drop_last());
        let it = items.last();
        match it {
            Item::Export(e) => if e.from_module is Some && e.is_wildcard {
                prev
            } else {
                prev.union(export_list_names(e.items@))
            },
            _ => if export_prefixed(it) { prev.insert(item_name(it)->Some_0) } else { prev },
        }
    }
}

/// The re-exports of a module (`export ... from "m"`), in order.
pub open spec fn reexports(items: Seq<Item>) -> Seq<Export>
    decreases items.len(),
{
    if items.len() == 0 {
        Seq::empty()
    } else {
        let prev = reexports(items.drop_last());
        match items.last() {
            Item::Export(e) => if e.from_module is Some { prev.push(e) } else { prev },
            _ => prev,
        }
    }
}

// ---------------------------------------------------------------------------
// The plan
// ---------------------------------------------------------------------------

/// One item to bring in: the item at `index` of the imported module
/// (`reexport` is `None`) or of the module of its `k`-th re-export
/// (`Some(k)`), renamed to `new_name` and, for a static method, with its
/// type renamed to `new_static_type` (nothing is renamed where these are
/// `None`).
pub struct ImportedItem {
    pub reexport: Option<usize>,
    pub index: usize,
    pub new_name: Option<String>,
    pub new_static_type: Option<String>,
}

/// The value of a plan entry.
pub ghost struct PlanEntry {
    pub reexport: Option<nat>,
    pub index: nat,
    pub new_name: Option<Seq<char>>,
    pub new_static_type: Option<Seq<char>>,
}

pub open spec fn opt_str(o: Option<String>) -> Option<Seq<char>> {
    match o {
        Some(s) => Some(s@),
        None => None,
    }
}

pub open spec fn entry_view(e: ImportedItem) -> PlanEntry {
    PlanEntry {
        reexport: match e.reexport {
            Some(k) => Some(k as nat),
            None => None,
        },
        index: e.index as nat,
        new_name: opt_str(e.new_name),
        new_static_type: opt_str(e.new_static_type),
    }
}

pub open spec fn plan_view(v: Seq<ImportedItem>) -> Seq<PlanEntry> {
    v.map_values(|e: ImportedItem| entry_view(e))
}

/// The position of the first item of `items` named `name`.
pub open spec fn first_named(items: Seq<Item>, name: Seq<char>) -> Option<nat>
    decreases items.len(),
{
    if items.len() == 0 {
        None
    } else if item_name(items[0]) == Some(name) {
        Some(0)
    } else {
        match first_named(items.drop_first(), name) {
            Some(j) => Some(j + 1),
            None => None,
        }
    }
}

/// What `export * from "m"` brings in: every named item of `m`, in order.
pub open spec fn wildcard_plan(k: nat, items: Seq<Item>) -> Seq<PlanEntry>
    decreases items.len(),
{
    if items.len() == 0 {
        Seq::empty()
    } else {
        let prev = wildcard_plan(k, items.drop_last());
        if item_name(items.last()) is Some {
            prev.push(PlanEntry { reexport: Some(k), index: (items.len() - 1) as nat, new_name: None, new_static_type: None })
        } else {
            prev
        }
    }
}

/// The names of the named items of a module.
pub open spec fn item_names(items: Seq<Item>) -> Set<Seq<char>> {
    Set::new(|n: Seq<char>| exists|j: int| 0 <= j < items.len() && item_name(items[j]) == Some(n))
}

/// What `export { x, y as z } from "m"` brings in: for each entry, in
/// order, the first item of `m` with its name, renamed to its alias.
pub open spec fn named_plan(k: nat, xs: Seq<ExportItem>, items: Seq<Item>) -> Seq<PlanEntry>
    decreases xs.len(),
{
    if xs.len() == 0 {
        Seq::empty()
    } else {
        let prev = named_plan(k, xs.drop_last(), items);
        let x = xs.last();
        match first_named(items, x.name@) {
            Some(j) => prev.push(PlanEntry { reexport: Some(k), index: j, new_name: opt_str(x.alias), new_static_type: None }),
            None => prev,
        }
    }
}

/// The items of the `k`-th re-exported module, if it could be loaded.
pub open spec fn loaded_at(loaded: Seq<Option<Vec<Item>>>, k: int) -> Option<Seq<Item>> {
    if 0 <= k < loaded.len() {
        match loaded[k] {
            Some(v) => Some(v@),
            None => None,
        }
    } else {
        None
    }
}

/// What the re-exports bring in, in order; a module that could not be
/// loaded brings nothing.
pub open spec fn reexport_plan(res: Seq<Export>, loaded: Seq<Option<Vec<Item>>>) -> Seq<PlanEntry>
    decreases res.len(),
{
    if res.len() == 0 {
        Seq::empty()
    } else {
        let k = res.len() - 1;
        let prev = reexport_plan(res.drop_last(), loaded);
        match loaded_at(loaded, k) {
            None => prev,
            Some(items) => if res.last().is_wildcard {
                prev + wildcard_plan(k as nat, items)
            } else {
                prev + named_plan(k as nat, res.last().items@, items)
            },
        }
    }
}

/// The names that wildcard re-exports add to a module's exports.
pub open spec fn reexport_names(res: Seq<Export>, loaded: Seq<Option<Vec<Item>>>) -> Set<Seq<char>>
    decreases res.len(),
{
    if res.len() == 0 {
        Set::empty()
    } else {
        let k = res.len() - 1;
        let prev = reexport_names(res.drop_last(), loaded);
        match loaded_at(loaded, k) {
            Some(items) => if res.last().is_wildcard { prev.union(item_names(items)) } else { prev },
            None => prev,
        }
    }
}

/// Whether an import takes the name `name`: a module that exports nothing
/// explicitly exports everything; a named import with a list takes only
/// the listed names.
pub open spec fn may_import(import: Import, exported: Set<Seq<char>>, name: Seq<char>) -> bool {
    let visible = exported == Set::<Seq<char>>::empty() || exported.contains(name);
    match import.kind {
        ImportKind::Named => if import.items@.len() == 0 {
            visible
        } else {
            (exists|i: int| 0 <= i < import.items@.len() && import.items@[i].name@ == name) && visible
        },
        _ => visible,
    }
}

/// The first entry of an import list naming `name`.
pub open spec fn first_import_item(xs: Seq<ImportItem>, name: Seq<char>) -> Option<nat>
    decreases xs.len(),
{
    if xs.len() == 0 {
        None
    } else if xs[0].name@ == name {
        Some(0)
    } else {
        match first_import_item(xs.drop_first(), name) {
            Some(j) => Some(j + 1),
            None => None,
        }
    }
}

/// The alias a named import gives `name`, if any.
pub open spec fn import_alias(import: Import, name: Seq<char>) -> Option<Seq<char>> {
    match import.kind {
        ImportKind::Named => match first_import_item(import.items@, name) {
            Some(i) => opt_str(import.items@[i as int].alias),
            None => None,
        },
        _ => None,
    }
}

/// What an import takes of the module's item at position `j`: functions
/// and constants it may import (a static method also when it may import
/// the method's type), with the import's alias; a method declared outside
/// its struct under `Struct_name`; structs, enums and traits always, with
/// the import's alias; `extern` blocks always, as the module's own
/// dependencies. Export declarations and other items are not taken.
pub open spec fn module_entry(import: Import, exported: Set<Seq<char>>, j: nat, it: Item) -> Option<PlanEntry> {
    let plain = PlanEntry { reexport: None, index: j, new_name: None, new_static_type: None };
    match it {
        Item::Function(f) => {
            let wanted = may_import(import, exported, f.name@) || (f.is_static && (f.static_type matches Some(t)
                && may_import(import, exported, t@)));
            if !wanted {
                None
            } else if f.is_static {
                Some(PlanEntry {
                    new_static_type: match f.static_type {
                        Some(t) => import_alias(import, t@),
                        None => None,
                    },
                    ..plain
                })
            } else {
                match f.receiver {
                    Some(rc) => match receiver_struct_name(rc.ty@) {
                        Some(sn) => Some(PlanEntry { new_name: Some(sn + "_"@ + f.name@), ..plain }),
                        None => Some(plain),
                    },
                    None => Some(PlanEntry { new_name: import_alias(import, f.name@), ..plain }),
                }
            }
        },
        Item::Struct(s) => Some(PlanEntry { new_name: import_alias(import, s.name@), ..plain }),
        Item::Enum(e) => Some(PlanEntry { new_name: import_alias(import, e.name@), ..plain }),
        Item::Contract(t) => Some(PlanEntry { new_name: import_alias(import, t.name@), ..plain }),
        Item::Const(c) => if may_import(import, exported, c.name@) {
            Some(PlanEntry { new_name: import_alias(import, c.name@), ..plain })
        } else {
            None
        },
        Item::ExternBlock(_) => Some(plain),
        _ => None,
    }
}

/// What an import takes of the module's own items, in order.
pub open spec fn module_plan(import: Import, exported: Set<Seq<char>>, items: Seq<Item>) -> Seq<PlanEntry>
    decreases items.len(),
{
    if items.len() == 0 {
        Seq::empty()
    } else {
        let prev = module_plan(import, exported, items.drop_last());
        match module_entry(import, exported, (items.len() - 1) as nat, items.last()) {
            Some(e) => prev.push(e),
            None => prev,
        }
    }
}

/// Everything an import brings in: first what the module's re-exports
/// bring, then what it takes of the module's own items, given the names
/// the module exports (its own and those of its wildcard re-exports).
pub open spec fn import_plan(import: Import, items: Seq<Item>, loaded: Seq<Option<Vec<Item>>>) -> Seq<PlanEntry> {
    let res = reexports(items);
    let exported = declared_exports(items).union(reexport_names(res, loaded));
    reexport_plan(res, loaded) + module_plan(import, exported, items)
}

// ---------------------------------------------------------------------------
// Drawing up the plan
// ---------------------------------------------------------------------------

proof fn lemma_first_named(items: Seq<Item>, name: Seq<char>, i: int)
    requires
        0 <= i <= items.len(),
        forall|l: int| 0 <= l < i ==> item_name(#[trigger] items[l]) != Some(name),
    ensures
        i < items.len() && item_name(items[i]) == Some(name) ==> first_named(items, name) == Some(i as nat),
        i == items.len() ==> first_named(items, name) is None,
    decreases items.len(),
{
    if items.len() > 0 && i > 0 {
        assert forall|l: int| 0 <= l < i - 1 implies item_name(#[trigger] items.drop_first()[l]) != Some(name) by {
            assert(items.drop_first()[l] == items[l + 1]);
        }
        lemma_first_named(items.drop_first(), name, i - 1);
        if i < items.len() {
            assert(items.drop_first()[i - 1] == items[i]);
        }
    }
}

proof fn lemma_first_import_item(xs: Seq<ImportItem>, name: Seq<char>, i: int)
    requires
        0 <= i <= xs.len(),
        forall|l: int| 0 <= l < i ==> (#[trigger] xs[l]).name@ != name,
    ensures
        i < xs.len() && xs[i].name@ == name ==> first_import_item(xs, name) == Some(i as nat),
        i == xs.len() ==> first_import_item(xs, name) is None,
    decreases xs.len(),
{
    if xs.len() > 0 && i > 0 {
        assert forall|l: int| 0 <= l < i - 1 implies (#[trigger] xs.drop_first()[l]).name@ != name by {
            assert(xs.drop_first()[l] == xs[l + 1]);
        }
        lemma_first_import_item(xs.drop_first(), name, i - 1);
        if i < xs.len() {
            assert(xs.drop_first()[i - 1] == xs[i]);
        }
    }
}

fn copy_opt_string(o: &Option<String>) -> (r: Option<String>)
    ensures
        opt_str(r) == opt_str(*o),
{
    match o {
        Some(s) => Some(s.clone()),
        None => None,
    }
}

/// The name of a named item.
fn name_of_item(it: &Item) -> (r: Option<&String>)
    ensures
        match item_name(*it) {
            Some(n) => r matches Some(s) && s@ == n,
            None => r is None,
        },
{
    match it {
        Item::Function(f) => Some(&f.name),
        Item::Const(c) => Some(&c.name),
        Item::Struct(s) => Some(&s.name),
        Item::Enum(e) => Some(&e.name),
        Item::Contract(t) => Some(&t.name),
        _ => None,
    }
}

/// The position of the first item of `items` named `name`.
fn find_named(items: &Vec<Item>, name: &str) -> (r: Option<usize>)
    ensures
        match first_named(items@, name@) {
            Some(j) => r matches Some(i) && i == j,
            None => r is None,
        },
{
    let mut i: usize = 0;
    while i < items.len()
        invariant
            i <= items@.len(),
            forall|l: int| 0 <= l < i ==> item_name(#[trigger] items@[l]) != Some(name@),
        decreases items@.len() - i,
    {
        match name_of_item(&items[i]) {
            Some(n) => {
                if str_eq(n.as_str(), name) {
                    proof { lemma_first_named(items@, name@, i as int); }
                    return Some(i);
                }
            }
            None => {}
        }
        i = i + 1;
    }
    proof { lemma_first_named(items@, name@, i as int); }
    None
}

/// The from-modules of a module's re-exports, in order: the modules the
/// caller loads for `plan_import`.
pub fn reexport_sources(module_items: &[Item]) -> (r: Vec<String>)
    ensures
        r@.len() == reexports(module_items@).len(),
        forall|i: int| 0 <= i < r@.len() ==> #[trigger] r@[i]@ == reexports(module_items@)[i].from_module->Some_0@,
{
    let ghost items = module_items@;
    let mut r: Vec<String> = Vec::new();
    let mut j: usize = 0;
    while j < module_items.len()
        invariant
            items == module_items@,
            j <= items.len(),
            r@.len() == reexports(items.take(j as int)).len(),
            forall|i: int| 0 <= i < r@.len() ==> #[trigger] r@[i]@ == reexports(items.take(j as int))[i].from_module->Some_0@,
        decreases items.len() - j,
    {
        proof {
            assert(items.take(j + 1).drop_last() =~= items.take(j as int));
        }
        match &module_items[j] {
            Item::Export(e) => match &e.from_module {
                Some(m) => {
                    r.push(m.clone());
                }
                None => {}
            },
            _ => {}
        }
        j = j + 1;
    }
    assert(items.take(j as int) =~= items);
    r
}

/// Adds to `exported` the names that the module's own items declare
/// exported.
fn collect_declared_exports(module_items: &[Item], exported: &mut StrMap<()>)
    ensures
        final(exported).view().dom() == old(exported).view().dom().union(declared_exports(module_items@)),
{
    let ghost items = module_items@;
    let ghost start = exported.view().dom();
    let mut j: usize = 0;
    while j < module_items.len()
        invariant
            items == module_items@,
            j <= items.len(),
            exported.view().dom() == start.union(declared_exports(items.take(j as int))),
        decreases items.len() - j,
    {
        proof {
            assert(items.take(j + 1).drop_last() =~= items.take(j as int));
        }
        let ghost before = exported.view().dom();
        let it = &module_items[j];
        match it {
            Item::Export(e) => {
                let skip = match &e.from_module {
                    Some(_) => e.is_wildcard,
                    None => false,
                };
                if !skip {
                    let mut x: usize = 0;
                    while x < e.items.len()
                        invariant
                            x <= e.items@.len(),
                            exported.view().dom() == before.union(export_list_names(e.items@.take(x as int))),
                        decreases e.items@.len() - x,
                    {
                        let name = match &e.items[x].alias {
                            Some(a) => a.clone(),
                            None => e.items[x].name.clone(),
                        };
                        exported.insert(name, ());
                        proof {
                            let t1 = e.items@.take(x + 1);
                            let t0 = e.items@.take(x as int);
                            assert(export_list_names(t1) =~= export_list_names(t0).insert(exported_as(e.items@[x as int]))) by {
                                assert forall|n: Seq<char>| export_list_names(t1).contains(n) implies export_list_names(t0).insert(exported_as(e.items@[x as int])).contains(n) by {
                                    let i = choose|i: int| 0 <= i < t1.len() && exported_as(t1[i]) == n;
                                    if i < x {
                                        assert(t0[i] == t1[i]);
                                    }
                                }
                                assert forall|n: Seq<char>| export_list_names(t0).insert(exported_as(e.items@[x as int])).contains(n) implies export_list_names(t1).contains(n) by {
                                    if n == exported_as(e.items@[x as int]) {
                                        assert(t1[x as int] == e.items@[x as int]);
                                    } else {
                                        let i = choose|i: int| 0 <= i < t0.len() && exported_as(t0[i]) == n;
                                        assert(t1[i] == t0[i]);
                                    }
                                }
                            }
                            assert(exported.view().dom() =~= before.union(export_list_names(t1)));
                        }
                        x = x + 1;
                    }
                    assert(e.items@.take(x as int) =~= e.items@);
                }
                proof {
                    assert(exported.view().dom() =~= start.union(declared_exports(items.take(j + 1))));
                }
            }
            Item::Function(f) => {
                if starts_with(f.name.as_str(), "export ") {
                    exported.insert(f.name.clone(), ());
                }
                proof {
                    assert(exported.view().dom() =~= start.union(declared_exports(items.take(j + 1))));
                }
            }
            Item::Const(c) => {
                if starts_with(c.name.as_str(), "export ") {
                    exported.insert(c.name.clone(), ());
                }
                proof {
                    assert(exported.view().dom() =~= start.union(declared_exports(items.take(j + 1))));
                }
            }
            Item::Struct(s) => {
                if starts_with(s.name.as_str(), "export ") {
                    exported.insert(s.name.clone(), ());
                }
                proof {
                    assert(exported.view().dom() =~= start.union(declared_exports(items.take(j + 1))));
                }
            }
            _ => {
                proof {
                    assert(exported.view().dom() =~= start.union(declared_exports(items.take(j + 1))));
                }
            }
        }
        j = j + 1;
    }
    assert(items.take(j as int) =~= items);
}

/// Adds what `export * from "m"` brings in (the loaded items of `m`) to
/// the plan, and their names to the exports.
fn add_wildcard(k: usize, items: &Vec<Item>, plan: &mut Vec<ImportedItem>, exported: &mut StrMap<()>)
    ensures
        plan_view(final(plan)@) == plan_view(old(plan)@) + wildcard_plan(k as nat, items@),
        final(exported).view().dom() == old(exported).view().dom().union(item_names(items@)),
{
    let ghost p0 = plan_view(plan@);
    let ghost e0 = exported.view().dom();
    let mut j: usize = 0;
    while j < items.len()
        invariant
            j <= items@.len(),
            plan_view(plan@) == p0 + wildcard_plan(k as nat, items@.take(j as int)),
            exported.view().dom() == e0.union(item_names(items@.take(j as int))),
        decreases items@.len() - j,
    {
        let ghost pb = plan@;
        let ghost eb = exported.view().dom();
        let ghost t1 = items@.take(j + 1);
        let ghost t0 = items@.take(j as int);
        proof {
            assert(t1.drop_last() =~= t0);
            assert(t1.last() == items@[j as int]);
        }
        match name_of_item(&items[j]) {
            Some(n) => {
                exported.insert(n.clone(), ());
                plan.push(ImportedItem { reexport: Some(k), index: j, new_name: None, new_static_type: None });
                proof {
                    assert(plan_view(plan@) =~= plan_view(pb).push(entry_view(plan@.last())));
                    assert(item_names(t1) =~= item_names(t0).insert(n@)) by {
                        assert forall|x: Seq<char>| item_names(t1).contains(x) implies item_names(t0).insert(n@).contains(x) by {
                            let l = choose|l: int| 0 <= l < t1.len() && item_name(t1[l]) == Some(x);
                            if l < j {
                                assert(t0[l] == t1[l]);
                            }
                        }
                        assert forall|x: Seq<char>| item_names(t0).insert(n@).contains(x) implies item_names(t1).contains(x) by {
                            if x == n@ {
                                assert(item_name(t1[j as int]) == Some(x));
                            } else {
                                let l = choose|l: int| 0 <= l < t0.len() && item_name(t0[l]) == Some(x);
                                assert(t1[l] == t0[l]);
                            }
                        }
                    }
                    assert(exported.view().dom() =~= e0.union(item_names(t1)));
                }
            }
            None => {
                proof {
                    assert(item_names(t1) =~= item_names(t0)) by {
                        assert forall|x: Seq<char>| item_names(t1).contains(x) implies item_names(t0).contains(x) by {
                            let l = choose|l: int| 0 <= l < t1.len() && item_name(t1[l]) == Some(x);
                            if l < j {
                                assert(t0[l] == t1[l]);
                            }
                        }
                        assert forall|x: Seq<char>| item_names(t0).contains(x) implies item_names(t1).contains(x) by {
                            let l = choose|l: int| 0 <= l < t0.len() && item_name(t0[l]) == Some(x);
                            assert(t1[l] == t0[l]);
                        }
                    }
                }
            }
        }
        j = j + 1;
    }
    assert(items@.take(j as int) =~= items@);
}

/// Adds what `export { ... } from "m"` brings in (from the loaded items of
/// `m`) to the plan.
fn add_named(k: usize, xs: &Vec<ExportItem>, items: &Vec<Item>, plan: &mut Vec<ImportedItem>)
    ensures
        plan_view(final(plan)@) == plan_view(old(plan)@) + named_plan(k as nat, xs@, items@),
{
    let ghost p0 = plan_view(plan@);
    let mut x: usize = 0;
    while x < xs.len()
        invariant
            x <= xs@.len(),
            plan_view(plan@) == p0 + named_plan(k as nat, xs@.take(x as int), items@),
        decreases xs@.len() - x,
    {
        let ghost pb = plan@;
        proof {
            assert(xs@.take(x + 1).drop_last() =~= xs@.take(x as int));
            assert(xs@.take(x + 1).last() == xs@[x as int]);
        }
        match find_named(items, xs[x].name.as_str()) {
            Some(j) => {
                plan.push(ImportedItem { reexport: Some(k), index: j, new_name: copy_opt_string(&xs[x].alias), new_static_type: None });
                assert(plan_view(plan@) =~= plan_view(pb).push(entry_view(plan@.last())));
            }
            None => {}
        }
        x = x + 1;
    }
    assert(xs@.take(x as int) =~= xs@);
}

/// Whether some entry of the import list is named `name`.
fn is_requested(import: &Import, name: &str) -> (r: bool)
    ensures
        r == exists|i: int| 0 <= i < import.items@.len() && import.items@[i].name@ == name@,
{
    let mut i: usize = 0;
    while i < import.items.len()
        invariant
            i <= import.items@.len(),
            forall|l: int| 0 <= l < i ==> import.items@[l].name@ != name@,
        decreases import.items@.len() - i,
    {
        if str_eq(import.items[i].name.as_str(), name) {
            return true;
        }
        i = i + 1;
    }
    false
}

/// Whether the import takes `name` (see `may_import`).
fn may_import_name(import: &Import, exported: &StrMap<()>, export_all: bool, name: &str) -> (r: bool)
    requires
        export_all == (exported.view().dom() == Set::<Seq<char>>::empty()),
    ensures
        r == may_import(*import, exported.view().dom(), name@),
{
    let visible = export_all || exported.contains_key(name);
    match &import.kind {
        ImportKind::Named => {
            if import.items.len() == 0 {
                visible
            } else {
                is_requested(import, name) && visible
            }
        }
        _ => visible,
    }
}

/// The alias the import gives `name` (see `import_alias`).
fn import_alias_of(import: &Import, name: &str) -> (r: Option<String>)
    ensures
        opt_str(r) == import_alias(*import, name@),
{
    match &import.kind {
        ImportKind::Named => {
            let mut i: usize = 0;
            while i < import.items.len()
                invariant
                    import.kind is Named,
                    i <= import.items@.len(),
                    forall|l: int| 0 <= l < i ==> (#[trigger] import.items@[l]).name@ != name@,
                decreases import.items@.len() - i,
            {
                if str_eq(import.items[i].name.as_str(), name) {
                    proof { lemma_first_import_item(import.items@, name@, i as int); }
                    let r = copy_opt_string(&import.items[i].alias);
                    assert(first_import_item(import.items@, name@) == Some(i as nat));
                    assert(opt_str(r) == opt_str(import.items@[i as int].alias));
                    assert(import.kind is Named);
                    assert(import_alias(*import, name@) == opt_str(import.items@[i as int].alias));
                    return r;
                }
                i = i + 1;
            }
            proof { lemma_first_import_item(import.items@, name@, i as int); }
            None
        }
        _ => None,
    }
}

/// What the import takes of the module's item at position `j` (see
/// `module_entry`).
fn module_item_entry(import: &Import, exported: &StrMap<()>, export_all: bool, j: usize, it: &Item) -> (r: Option<ImportedItem>)
    requires
        export_all == (exported.view().dom() == Set::<Seq<char>>::empty()),
    ensures
        match module_entry(*import, exported.view().dom(), j as nat, *it) {
            Some(e) => r matches Some(x) && entry_view(x) == e,
            None => r is None,
        },
{
    match it {
        Item::Function(f) => {
            let mut wanted = may_import_name(import, exported, export_all, f.name.as_str());
            if !wanted && f.is_static {
                match &f.static_type {
                    Some(t) => {
                        wanted = may_import_name(import, exported, export_all, t.as_str());
                    }
                    None => {}
                }
            }
            if !wanted {
                return None;
            }
            if f.is_static {
                let new_static_type = match &f.static_type {
                    Some(t) => import_alias_of(import, t.as_str()),
                    None => None,
                };
                Some(ImportedItem { reexport: None, index: j, new_name: None, new_static_type })
            } else {
                match &f.receiver {
                    Some(rc) => match extract_struct_name_from_receiver(&rc.ty) {
                        Some(sn) => {
                            let mut n = sn;
                            n.append("_");
                            n.append(f.name.as_str());
                            Some(ImportedItem { reexport: None, index: j, new_name: Some(n), new_static_type: None })
                        }
                        None => Some(ImportedItem { reexport: None, index: j, new_name: None, new_static_type: None }),
                    },
                    None => Some(ImportedItem {
                        reexport: None,
                        index: j,
                        new_name: import_alias_of(import, f.name.as_str()),
                        new_static_type: None,
                    }),
                }
            }
        }
        Item::Struct(s) => Some(ImportedItem { reexport: None, index: j, new_name: import_alias_of(import, s.name.as_str()), new_static_type: None }),
        Item::Enum(e) => Some(ImportedItem { reexport: None, index: j, new_name: import_alias_of(import, e.name.as_str()), new_static_type: None }),
        Item::Contract(t) => Some(ImportedItem { reexport: None, index: j, new_name: import_alias_of(import, t.name.as_str()), new_static_type: None }),
        Item::Const(c) => {
            if may_import_name(import, exported, export_all, c.name.as_str()) {
                Some(ImportedItem { reexport: None, index: j, new_name: import_alias_of(import, c.name.as_str()), new_static_type: None })
            } else {
                None
            }
        }
        Item::ExternBlock(_) => Some(ImportedItem { reexport: None, index: j, new_name: None, new_static_type: None }),
        _ => None,
    }
}

/// Draws up what an import brings in from a loaded module (see
/// `import_plan`): `reexported[k]` holds the items of the module of the
/// module's `k`-th re-export (see `reexport_sources`), or nothing when it
/// could not be loaded.
pub fn plan_import(import: &Import, module_items: &[Item], reexported: &[Option<Vec<Item>>]) -> (r: Vec<ImportedItem>)
    ensures
        plan_view(r@) == import_plan(*import, module_items@, reexported@),
{
    let ghost items = module_items@;
    let ghost loaded = reexported@;
    let mut exported: StrMap<()> = StrMap::new();
    collect_declared_exports(module_items, &mut exported);
    assert(exported.view().dom() =~= declared_exports(items));
    let mut plan: Vec<ImportedItem> = Vec::new();
    let mut k: usize = 0;
    let mut j: usize = 0;
    while j < module_items.len()
        invariant
            items == module_items@,
            loaded == reexported@,
            j <= items.len(),
            k <= j,
            k == reexports(items.take(j as int)).len(),
            plan_view(plan@) == reexport_plan(reexports(items.take(j as int)), loaded),
            exported.view().dom() == declared_exports(items).union(reexport_names(reexports(items.take(j as int)), loaded)),
        decreases items.len() - j,
    {
        proof {
            assert(items.take(j + 1).drop_last() =~= items.take(j as int));
        }
        let ghost res0 = reexports(items.take(j as int));
        match &module_items[j] {
            Item::Export(e) => match &e.from_module {
                Some(_) => {
                    let ghost res1 = res0.push(*e);
                    assert(reexports(items.take(j + 1)) == res1);
                    assert(res1.drop_last() =~= res0);
                    if k < reexported.len() {
                        match &reexported[k] {
                            Some(loaded_items) => {
                                if e.is_wildcard {
                                    add_wildcard(k, loaded_items, &mut plan, &mut exported);
                                    assert(exported.view().dom() =~= declared_exports(items).union(reexport_names(res1, loaded)));
                                } else {
                                    add_named(k, &e.items, loaded_items, &mut plan);
                                }
                            }
                            None => {}
                        }
                    }
                    k = k + 1;
                }
                None => {}
            },
            _ => {}
        }
        j = j + 1;
    }
    proof {
        assert(items.take(j as int) =~= items);
    }
    let ghost exported_set = exported.view().dom();
    let ghost rp = plan_view(plan@);
    let n = exported.len();
    proof {
        vstd::set_lib::lemma_set_empty_equivalency_len(exported_set);
    }
    let export_all = n == 0;
    let mut j: usize = 0;
    while j < module_items.len()
        invariant
            items == module_items@,
            j <= items.len(),
            exported.view().dom() == exported_set,
            export_all == (exported_set == Set::<Seq<char>>::empty()),
            plan_view(plan@) == rp + module_plan(*import, exported_set, items.take(j as int)),
        decreases items.len() - j,
    {
        proof {
            assert(items.take(j + 1).drop_last() =~= items.take(j as int));
            assert(items.take(j + 1).last() == items[j as int]);
        }
        let ghost pb = plan@;
        match module_item_entry(import, &exported, export_all, j, &module_items[j]) {
            Some(entry) => {
                plan.push(entry);
                assert(plan_view(plan@) =~= plan_view(pb).push(entry_view(plan@.last())));
            }
            None => {}
        }
        j = j + 1;
    }
    proof {
        assert(items.take(j as int) =~= items);
    }
    plan
}

// ---------------------------------------------------------------------------
// Which imports to resolve
// ---------------------------------------------------------------------------

/// Whether `t` occurs in `s`.
pub open spec fn occurs_in(t: Seq<char>, s: Seq<char>) -> bool {
    exists|i: int| 0 <= i && i + t.len() <= s.len() && #[trigger] s.subrange(i, i + t.len()) == t
}

/// Whether `t` occurs in `s`.
pub(crate) fn str_contains(s: &str, t: &str) -> (r: bool)
    ensures
        r == occurs_in(t@, s@),
{
    let n = s.unicode_len();
    let m = t.unicode_len();
    if m > n {
        proof {
            if occurs_in(t@, s@) {
                let i = choose|i: int| 0 <= i && i + t@.len() <= s@.len() && #[trigger] s@.subrange(i, i + t@.len()) == t@;
            }
        }
        return false;
    }
    let last = n - m;
    let mut i: usize = 0;
    while i <= last
        invariant
            n == s@.len(),
            m == t@.len(),
            m <= n,
            last == n - m,
            i <= last,
            forall|l: int| 0 <= l < i ==> #[trigger] s@.subrange(l, l + m) != t@,
        ensures
            forall|l: int| 0 <= l <= last ==> #[trigger] s@.subrange(l, l + m) != t@,
        decreases last - i,
    {
        let part = s.substring_char(i, i + m);
        if str_eq(part, t) {
            return true;
        }
        if i == last {
            break;
        }
        i = i + 1;
    }
    proof {
        if occurs_in(t@, s@) {
            let l = choose|l: int| 0 <= l && l + t@.len() <= s@.len() && #[trigger] s@.subrange(l, l + t@.len()) == t@;
            assert(s@.subrange(l, l + m) != t@);
        }
    }
    false
}

/// Whether an import is resolved here: a relative import (`@relative:`,
/// `./`, `../`) is resolved by the caller already, except inside the
/// standard library (a source file under `vex-libs/std`).
pub open spec fn resolves_import(source_file: Seq<char>, module: Seq<char>) -> bool {
    let relative = has_prefix(module, "@relative:"@) || has_prefix(module, "./"@) || has_prefix(module, "../"@);
    occurs_in("vex-libs/std"@, source_file) || !relative
}

/// Whether the import of `module` from `source_file` is resolved here
/// (see `resolves_import`).
pub fn should_resolve_import(source_file: &str, module: &str) -> (r: bool)
    ensures
        r == resolves_import(source_file@, module@),
{
    let is_stdlib = str_contains(source_file, "vex-libs/std");
    let relative = starts_with(module, "@relative:") || starts_with(module, "./") || starts_with(module, "../");
    is_stdlib || !relative
}


// ---------------------------------------------------------------------------
// Merging
// ---------------------------------------------------------------------------

/// The program's items after a merge: the imported items come first, so
/// that the program's own items are not shadowed by them, then the
/// program's own items, each list in its order.
pub fn merge_imported_items(imported: Vec<Item>, own: Vec<Item>) -> (r: Vec<Item>)
    ensures
        r@ == imported@ + own@,
{
    let mut r = imported;
    let mut rest = own;
    r.append(&mut rest);
    r
}

/// The namespace aliases after registering the namespace imports
/// (`import * as alias from "m"`) of `imports` in order on top of `m`:
/// each alias refers to its module, and a later import of an alias
/// replaces an earlier one.
pub open spec fn with_namespace_imports(m: Map<Seq<char>, Seq<char>>, imports: Seq<Import>) -> Map<Seq<char>, Seq<char>>
    decreases imports.len(),
{
    if imports.len() == 0 {
        m
    } else {
        let before = with_namespace_imports(m, imports.drop_last());
        match imports.last().kind {
            ImportKind::Namespace(alias) => before.insert(alias@, imports.last().module@),
            _ => before,
        }
    }
}

} // verus!
