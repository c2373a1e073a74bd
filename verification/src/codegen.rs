//! The code generator's registries: the declarations it has seen (structs,
//! enums, traits, trait implementations, policies, functions) and the
//! scopes whose values need cleanup, with the lookups and decisions made on
//! them. The LLVM side of code generation reads these decisions.
use vstd::prelude::*;
use vstd::string::StringSliceAdditionalSpecFns;
use crate::ast::{BinaryOp, CaptureMode, Enum, Function, Import, ImportKind, Param, Pattern, Statement, Struct, Trait, TraitImpl, Type, TypeView};
use crate::metadata::Metadata;
use crate::policy::{metadata_maps, struct_field_metadata, struct_metadata_of, Policy};
use crate::strmap::StrMap;
use crate::imports::with_namespace_imports;
use crate::text::{clone_strings, concat_str, str_eq};
use crate::type_ops::{copy_type, types_equal, types_map};
use crate::mangle::{
    decimal, encode_operator_name, encoded_operator, generate_type_suffix, mangle_function_name, mangled_name, push_decimal,
    receiver_method_mangled_name, receiver_method_name, type_suffix,
};
use crate::inline_optimizer::has_prefix;
use crate::text::{replace_all, replaced, starts_with};
use crate::struct_deps::{check_dependency_cycles, cycle_message, graph_view, has_dependency_cycle, is_cycle_report, join_names};

verus! {

/// A registered variable as (variable name, type name).
pub open spec fn cleanup_var_view(c: CleanupVar) -> (Seq<char>, Seq<char>) {
    (c.var_name@, c.ty_name@)
}

/// A scope's registered variables as (variable name, type name) pairs.
pub open spec fn scope_view(s: Seq<CleanupVar>) -> Seq<(Seq<char>, Seq<char>)> {
    s.map_values(|c: CleanupVar| cleanup_var_view(c))
}

/// What the code generator keeps of an enum declaration.
pub struct EnumInfo {
    pub is_generic: bool,
    pub variants: Vec<String>,
}

/// What the code generator keeps of a trait a struct implements: the
/// trait's name and its type arguments.
pub struct TraitRefInfo {
    pub name: String,
    pub type_args: Vec<Type>,
}

/// What the code generator keeps of a struct declaration.
pub struct StructInfo {
    pub is_generic: bool,
    pub type_params: Vec<String>,
    pub fields: Vec<(String, Type)>,
    pub impl_traits: Vec<TraitRefInfo>,
    pub methods: Vec<MethodInfo>,
}

/// What the code generator keeps of a method: its name, its receiver's
/// type, its parameter types and its return type.
pub struct MethodInfo {
    pub name: String,
    pub receiver: Option<Type>,
    pub param_types: Vec<Type>,
    pub return_type: Option<Type>,
}

/// The value of a kept method.
pub ghost struct MethodView {
    pub name: Seq<char>,
    pub receiver: Option<TypeView>,
    pub param_types: Seq<TypeView>,
    pub return_type: Option<TypeView>,
}

pub open spec fn opt_view(t: Option<Type>) -> Option<TypeView> {
    match t {
        Some(x) => Some(x@),
        None => None,
    }
}

pub open spec fn method_info_view(m: MethodInfo) -> MethodView {
    MethodView {
        name: m.name@,
        receiver: opt_view(m.receiver),
        param_types: crate::ast::type_views(m.param_types@),
        return_type: opt_view(m.return_type),
    }
}

/// The kept form of a method declaration.
pub open spec fn method_decl_view(f: Function) -> MethodView {
    MethodView {
        name: f.name@,
        receiver: match f.receiver {
            Some(r) => Some(r.ty@),
            None => None,
        },
        param_types: f.params@.map_values(|p: crate::ast::Param| p.ty@),
        return_type: opt_view(f.return_type),
    }
}

/// The value of a struct's entry: whether it is generic, the names of its
/// type parameters, its fields with their types, the traits (with type
/// arguments) it implements, and its inline methods.
pub ghost struct StructView {
    pub is_generic: bool,
    pub type_params: Seq<Seq<char>>,
    pub fields: Seq<(Seq<char>, TypeView)>,
    pub impl_traits: Seq<(Seq<char>, Seq<TypeView>)>,
    pub methods: Seq<MethodView>,
}

pub open spec fn layout_views(fs: Seq<(String, Type)>) -> Seq<(Seq<char>, TypeView)> {
    fs.map_values(|f: (String, Type)| (f.0@, f.1@))
}

pub open spec fn trait_info_views(ts: Seq<TraitRefInfo>) -> Seq<(Seq<char>, Seq<TypeView>)> {
    ts.map_values(|t: TraitRefInfo| (t.name@, crate::ast::type_views(t.type_args@)))
}

pub open spec fn struct_view(s: StructInfo) -> StructView {
    StructView {
        is_generic: s.is_generic,
        type_params: seqs_of(s.type_params@),
        fields: layout_views(s.fields@),
        impl_traits: trait_info_views(s.impl_traits@),
        methods: s.methods@.map_values(|m: MethodInfo| method_info_view(m)),
    }
}

/// What the code generator keeps of a trait declaration.
pub struct TraitInfo {
    pub methods: Vec<String>,
}

/// A variable registered for cleanup at scope exit, with its type's name.
pub struct CleanupVar {
    pub var_name: String,
    pub ty_name: String,
}

/// A cleanup call to emit at scope exit: the variable, its type, and the
/// function that frees it.
pub struct CleanupAction {
    pub var_name: String,
    pub ty_name: String,
    pub cleanup_fn: String,
}

/// The character sequences of a list of strings.
pub open spec fn seqs_of(v: Seq<String>) -> Seq<Seq<char>> {
    v.map_values(|s: String| s@)
}

/// The code generator's registries.
pub struct ASTCodeGen {
    module_name: String,
    source_file: String,
    struct_ast_defs: StrMap<StructInfo>,
    struct_defs: StrMap<Vec<(String, Type)>>,
    enum_ast_defs: StrMap<EnumInfo>,
    trait_defs: StrMap<TraitInfo>,
    trait_impls: StrMap<StrMap<Vec<String>>>,
    policy_defs: StrMap<Policy>,
    destructor_impls: StrMap<String>,
    scope_stack: Vec<Vec<CleanupVar>>,
    deferred_statements: Vec<Statement>,
    function_name_to_mangled: StrMap<(String, usize)>,
    functions: StrMap<()>,
    module_namespaces: StrMap<Vec<String>>,
    namespace_imports: StrMap<String>,
    variable_struct_names: StrMap<String>,
    struct_metadata: StrMap<StrMap<Metadata>>,
    generic_instances: Vec<(String, Vec<String>)>,
}

impl ASTCodeGen {
    /// The module the generated code goes into.
    pub closed spec fn module_name_view(self) -> Seq<char> {
        self.module_name@
    }

    /// The source file being compiled.
    pub closed spec fn source_file_view(self) -> Seq<char> {
        self.source_file@
    }

    /// The registered structs, by name.
    pub closed spec fn structs(self) -> Map<Seq<char>, StructView> {
        self.struct_ast_defs.view().map_values(|s: StructInfo| struct_view(s))
    }

    /// The field layouts of the registered non-generic structs.
    pub closed spec fn struct_layouts(self) -> Map<Seq<char>, Seq<(Seq<char>, TypeView)>> {
        self.struct_defs.view().map_values(|v: Vec<(String, Type)>| layout_views(v@))
    }

    /// The registered enums, by name, with their variant names in order.
    pub closed spec fn enum_variants(self) -> Map<Seq<char>, Seq<Seq<char>>> {
        self.enum_ast_defs.view().map_values(|e: EnumInfo| seqs_of(e.variants@))
    }

    /// Whether each registered enum is generic.
    pub closed spec fn enum_generic(self) -> Map<Seq<char>, bool> {
        self.enum_ast_defs.view().map_values(|e: EnumInfo| e.is_generic)
    }

    /// The enum names in the order they were first registered.
    pub closed spec fn enum_order(self) -> Seq<Seq<char>> {
        self.enum_ast_defs.key_order()
    }

    /// The registered traits, by name, with their method names.
    pub closed spec fn trait_methods(self) -> Map<Seq<char>, Seq<Seq<char>>> {
        self.trait_defs.view().map_values(|t: TraitInfo| seqs_of(t.methods@))
    }

    /// The registered trait implementations: for a trait name and a type
    /// name, the names of the implementing methods.
    pub closed spec fn trait_impl_methods(self) -> Map<Seq<char>, Map<Seq<char>, Seq<Seq<char>>>> {
        self.trait_impls.view().map_values(|m: StrMap<Vec<String>>| m.view().map_values(|v: Vec<String>| seqs_of(v@)))
    }

    /// The registered policies, by name.
    pub closed spec fn policies(self) -> Map<Seq<char>, Policy> {
        self.policy_defs.view()
    }

    /// The types with a destructor, and the function that frees each.
    pub closed spec fn destructors(self) -> Map<Seq<char>, Seq<char>> {
        self.destructor_impls.view().map_values(|s: String| s@)
    }

    /// The open cleanup scopes, innermost last, each with its registered
    /// (variable, type) pairs in registration order.
    pub closed spec fn scopes(self) -> Seq<Seq<(Seq<char>, Seq<char>)>> {
        self.scope_stack@.map_values(|s: Vec<CleanupVar>| scope_view(s@))
    }

    /// For each base function name, the mangled name it refers to.
    pub closed spec fn base_to_mangled(self) -> Map<Seq<char>, Seq<char>> {
        self.function_name_to_mangled.view().map_values(|p: (String, usize)| p.0@)
    }

    /// For each base function name, the length in bytes of the mangled
    /// name it refers to.
    pub closed spec fn mangled_byte_len(self) -> Map<Seq<char>, nat> {
        self.function_name_to_mangled.view().map_values(|p: (String, usize)| p.1 as nat)
    }

    /// The deferred statements, in the order they were deferred.
    pub closed spec fn deferred(self) -> Seq<Statement> {
        self.deferred_statements@
    }

    /// The registered function names, in registration order.
    pub closed spec fn function_order(self) -> Seq<Seq<char>> {
        self.functions.key_order()
    }

    /// The names under which functions are registered.
    pub closed spec fn function_names(self) -> Set<Seq<char>> {
        self.functions.view().dom()
    }

    /// The generic struct instantiations made so far, as (struct name, type
    /// argument names), in order.
    pub closed spec fn struct_instances(self) -> Seq<(Seq<char>, Seq<Seq<char>>)> {
        self.generic_instances@.map_values(|k: (String, Vec<String>)| (k.0@, seqs_of(k.1@)))
    }

    /// For each struct with field metadata, the metadata of its fields.
    pub closed spec fn struct_metadata_view(self) -> Map<Seq<char>, Map<Seq<char>, Map<Seq<char>, Seq<char>>>> {
        self.struct_metadata.view().map_values(|m: StrMap<Metadata>| metadata_maps(m))
    }

    /// For each variable known to hold a struct, the struct's name.
    pub closed spec fn variable_structs(self) -> Map<Seq<char>, Seq<char>> {
        self.variable_struct_names.view().map_values(|s: String| s@)
    }

    /// The registered module namespaces and their function names.
    pub closed spec fn namespaces(self) -> Map<Seq<char>, Seq<Seq<char>>> {
        self.module_namespaces.view().map_values(|v: Vec<String>| seqs_of(v@))
    }

    /// The namespace aliases of the imports (`import * as alias from "m"`)
    /// and the module each refers to.
    pub closed spec fn namespace_aliases(self) -> Map<Seq<char>, Seq<char>> {
        self.namespace_imports.view().map_values(|s: String| s@)
    }

    /// Empty registries for the module `module_name`, compiled from the
    /// source file of the same name, with the built-in destructors
    /// registered.
    pub fn new(module_name: &str) -> (r: Self)
        ensures
            r.module_name_view() == module_name@,
            r.source_file_view() == module_name@,
            r.structs() == Map::<Seq<char>, StructView>::empty(),
            r.struct_layouts() == Map::<Seq<char>, Seq<(Seq<char>, TypeView)>>::empty(),
            r.enum_variants() == Map::<Seq<char>, Seq<Seq<char>>>::empty(),
            r.enum_order() == Seq::<Seq<char>>::empty(),
            r.trait_methods() == Map::<Seq<char>, Seq<Seq<char>>>::empty(),
            r.trait_impl_methods() == Map::<Seq<char>, Map<Seq<char>, Seq<Seq<char>>>>::empty(),
            r.policies() == Map::<Seq<char>, Policy>::empty(),
            r.destructors() == builtin_destructors(),
            r.scopes() == Seq::<Seq<(Seq<char>, Seq<char>)>>::empty(),
            r.deferred() == Seq::<Statement>::empty(),
            r.base_to_mangled() == Map::<Seq<char>, Seq<char>>::empty(),
            r.function_names() == Set::<Seq<char>>::empty(),
            r.namespaces() == Map::<Seq<char>, Seq<Seq<char>>>::empty(),
            r.namespace_aliases() == Map::<Seq<char>, Seq<char>>::empty(),
            r.variable_structs() == Map::<Seq<char>, Seq<char>>::empty(),
            r.struct_metadata_view() == Map::<Seq<char>, Map<Seq<char>, Map<Seq<char>, Seq<char>>>>::empty(),
            r.struct_instances() == Seq::<(Seq<char>, Seq<Seq<char>>)>::empty(),
    {
        Self::new_with_source_file(module_name, module_name)
    }

    /// Empty registries for the module `module_name`, compiled from
    /// `source_file`, with the built-in destructors registered.
    pub fn new_with_source_file(module_name: &str, source_file: &str) -> (r: Self)
        ensures
            r.module_name_view() == module_name@,
            r.source_file_view() == source_file@,
            r.structs() == Map::<Seq<char>, StructView>::empty(),
            r.struct_layouts() == Map::<Seq<char>, Seq<(Seq<char>, TypeView)>>::empty(),
            r.enum_variants() == Map::<Seq<char>, Seq<Seq<char>>>::empty(),
            r.enum_order() == Seq::<Seq<char>>::empty(),
            r.trait_methods() == Map::<Seq<char>, Seq<Seq<char>>>::empty(),
            r.trait_impl_methods() == Map::<Seq<char>, Map<Seq<char>, Seq<Seq<char>>>>::empty(),
            r.policies() == Map::<Seq<char>, Policy>::empty(),
            r.destructors() == builtin_destructors(),
            r.scopes() == Seq::<Seq<(Seq<char>, Seq<char>)>>::empty(),
            r.deferred() == Seq::<Statement>::empty(),
            r.base_to_mangled() == Map::<Seq<char>, Seq<char>>::empty(),
            r.function_names() == Set::<Seq<char>>::empty(),
            r.namespaces() == Map::<Seq<char>, Seq<Seq<char>>>::empty(),
            r.namespace_aliases() == Map::<Seq<char>, Seq<char>>::empty(),
            r.variable_structs() == Map::<Seq<char>, Seq<char>>::empty(),
            r.struct_metadata_view() == Map::<Seq<char>, Map<Seq<char>, Map<Seq<char>, Seq<char>>>>::empty(),
            r.struct_instances() == Seq::<(Seq<char>, Seq<Seq<char>>)>::empty(),
    {
        let mut r = ASTCodeGen {
            module_name: module_name.to_owned(),
            source_file: source_file.to_owned(),
            struct_ast_defs: StrMap::new(),
            struct_defs: StrMap::new(),
            enum_ast_defs: StrMap::new(),
            trait_defs: StrMap::new(),
            trait_impls: StrMap::new(),
            policy_defs: StrMap::new(),
            destructor_impls: StrMap::new(),
            scope_stack: Vec::new(),
            deferred_statements: Vec::new(),
            function_name_to_mangled: StrMap::new(),
            functions: StrMap::new(),
            module_namespaces: StrMap::new(),
            namespace_imports: StrMap::new(),
            variable_struct_names: StrMap::new(),
            struct_metadata: StrMap::new(),
            generic_instances: Vec::new(),
        };
        r.register_builtin_destructors();
        proof {
            assert(r.structs() =~= Map::<Seq<char>, StructView>::empty());
            assert(r.struct_layouts() =~= Map::<Seq<char>, Seq<(Seq<char>, TypeView)>>::empty());
            assert(r.enum_variants() =~= Map::<Seq<char>, Seq<Seq<char>>>::empty());
            assert(r.trait_methods() =~= Map::<Seq<char>, Seq<Seq<char>>>::empty());
            assert(r.trait_impl_methods() =~= Map::<Seq<char>, Map<Seq<char>, Seq<Seq<char>>>>::empty());
            assert(r.scopes() =~= Seq::<Seq<(Seq<char>, Seq<char>)>>::empty());
            assert(r.base_to_mangled() =~= Map::<Seq<char>, Seq<char>>::empty());
            assert(r.namespaces() =~= Map::<Seq<char>, Seq<Seq<char>>>::empty());
            assert(r.namespace_aliases() =~= Map::<Seq<char>, Seq<char>>::empty());
            assert(r.variable_structs() =~= Map::<Seq<char>, Seq<char>>::empty());
            assert(r.struct_metadata_view() =~= Map::<Seq<char>, Map<Seq<char>, Map<Seq<char>, Seq<char>>>>::empty());
            assert(r.struct_instances() =~= Seq::<(Seq<char>, Seq<Seq<char>>)>::empty());
        }
        r
    }

    /// Registers the built-in types that need cleanup at scope exit, with
    /// their cleanup functions.
    pub fn register_builtin_destructors(&mut self)
        ensures
            final(self).destructors() == old(self).destructors().union_prefer_right(builtin_destructors()),
            old(self).same_except(*final(self), Touched { destructors: true, ..touch_nothing() }),
    {
        self.destructor_impls.insert("Vec".to_owned(), "vec_free".to_owned());
        self.destructor_impls.insert("Box".to_owned(), "box_free".to_owned());
        self.destructor_impls.insert("String".to_owned(), "vex_string_free".to_owned());
        self.destructor_impls.insert("Map".to_owned(), "vex_map_free".to_owned());
        self.destructor_impls.insert("Set".to_owned(), "vex_map_free".to_owned());
        assert(self.destructors() =~= old(self).destructors().union_prefer_right(builtin_destructors()));
    }
}

/// The built-in types with a destructor: `Vec`, `Box`, `String`, `Map`
/// and `Set` (a `Set` is freed as a `Map`).
pub open spec fn builtin_destructors() -> Map<Seq<char>, Seq<char>> {
    map![
        "Vec"@ => "vec_free"@,
        "Box"@ => "box_free"@,
        "String"@ => "vex_string_free"@,
        "Map"@ => "vex_map_free"@,
        "Set"@ => "vex_map_free"@
    ]
}

} // verus!

verus! {

/// Which registries a change may touch; every other one stays the same.
pub struct Touched {
    pub structs: bool,
    pub enums: bool,
    pub traits: bool,
    pub impls: bool,
    pub policies: bool,
    pub destructors: bool,
    pub scopes: bool,
    pub functions: bool,
    pub namespaces: bool,
    pub variables: bool,
}

impl ASTCodeGen {
    /// `next` agrees with `self` on every registry that `t` does not name.
    pub open spec fn same_except(self, next: ASTCodeGen, t: Touched) -> bool {
        &&& next.module_name_view() == self.module_name_view()
        &&& next.source_file_view() == self.source_file_view()
        &&& !t.structs ==> next.structs() == self.structs() && next.struct_layouts() == self.struct_layouts()
            && next.struct_instances() == self.struct_instances()
        &&& !t.enums ==> next.enum_variants() == self.enum_variants() && next.enum_generic() == self.enum_generic()
            && next.enum_order() == self.enum_order()
        &&& !t.traits ==> next.trait_methods() == self.trait_methods()
        &&& !t.impls ==> next.trait_impl_methods() == self.trait_impl_methods()
        &&& !t.policies ==> next.policies() == self.policies()
        &&& !t.destructors ==> next.destructors() == self.destructors()
        &&& !t.scopes ==> next.scopes() == self.scopes()
        &&& !t.functions ==> next.base_to_mangled() == self.base_to_mangled() && next.function_names() == self.function_names()
            && next.mangled_byte_len() == self.mangled_byte_len()
        &&& !t.scopes ==> next.deferred() == self.deferred()
        &&& !t.namespaces ==> next.namespaces() == self.namespaces() && next.namespace_aliases() == self.namespace_aliases()
        &&& !t.variables ==> next.variable_structs() == self.variable_structs()
        &&& !t.policies ==> next.struct_metadata_view() == self.struct_metadata_view()
    }
}

pub open spec fn touch_nothing() -> Touched {
    Touched { structs: false, enums: false, traits: false, impls: false, policies: false, destructors: false, scopes: false, functions: false, namespaces: false, variables: false }
}

pub open spec fn touch_enums() -> Touched {
    Touched { enums: true, ..touch_nothing() }
}

pub open spec fn touch_traits() -> Touched {
    Touched { traits: true, ..touch_nothing() }
}

pub open spec fn touch_impls() -> Touched {
    Touched { impls: true, ..touch_nothing() }
}

pub open spec fn touch_policies() -> Touched {
    Touched { policies: true, ..touch_nothing() }
}

pub open spec fn touch_scopes() -> Touched {
    Touched { scopes: true, ..touch_nothing() }
}

pub open spec fn touch_functions() -> Touched {
    Touched { functions: true, ..touch_nothing() }
}

pub open spec fn touch_namespaces() -> Touched {
    Touched { namespaces: true, ..touch_nothing() }
}

/// The names of a list of variants.
pub open spec fn variant_names(e: Enum) -> Seq<Seq<char>> {
    e.variants@.map_values(|v: crate::ast::EnumVariant| v.name@)
}

/// The first position of `name` in `names`.
pub open spec fn first_index_of(names: Seq<Seq<char>>, name: Seq<char>) -> Option<nat>
    decreases names.len(),
{
    if names.len() == 0 {
        None
    } else if names[0] == name {
        Some(0)
    } else {
        match first_index_of(names.drop_first(), name) {
            Some(i) => Some(i + 1),
            None => None,
        }
    }
}

/// The first enum of `order[k..]` with a variant named `name`, and that
/// variant's first position.
pub open spec fn first_enum_with_variant(
    order: Seq<Seq<char>>,
    variants: Map<Seq<char>, Seq<Seq<char>>>,
    k: int,
    name: Seq<char>,
) -> Option<(Seq<char>, nat)>
    decreases order.len() - k,
{
    if k < 0 || k >= order.len() {
        None
    } else {
        match first_index_of(variants[order[k]], name) {
            Some(i) => Some((order[k], i)),
            None => first_enum_with_variant(order, variants, k + 1, name),
        }
    }
}

} // verus!

verus! {

/// The variant names of the built-in `Option` and `Result`.
pub open spec fn is_builtin_variant(name: Seq<char>) -> bool {
    name == "Some"@ || name == "None"@ || name == "Ok"@ || name == "Err"@
}

/// What the search over enums in order finds: an enum of `order` from
/// position `k` on with the variant at the position given, or, when it
/// finds nothing, that no such enum has the variant.
pub proof fn lemma_first_enum_with_variant(
    order: Seq<Seq<char>>,
    variants: Map<Seq<char>, Seq<Seq<char>>>,
    k: int,
    name: Seq<char>,
)
    requires
        0 <= k,
    ensures
        first_enum_with_variant(order, variants, k, name) matches Some((e, i)) ==> (exists|j: int| k <= j < order.len()
            && order[j] == e) && i < variants[e].len() && variants[e][i as int] == name,
        first_enum_with_variant(order, variants, k, name) is None ==> forall|j: int| k <= j < order.len()
            ==> !(#[trigger] variants[order[j]]).contains(name),
    decreases order.len() - k,
{
    if k < order.len() {
        lemma_first_index_some(variants[order[k]], name);
        lemma_first_index_none(variants[order[k]], name);
        lemma_first_enum_with_variant(order, variants, k + 1, name);
        if let Some((e, i)) = first_enum_with_variant(order, variants, k, name) {
            if first_index_of(variants[order[k]], name) is None {
                let j = choose|j: int| k + 1 <= j < order.len() && order[j] == e;
                assert(k <= j < order.len() && order[j] == e);
            }
        }
    }
}

pub proof fn lemma_first_index_of(names: Seq<Seq<char>>, name: Seq<char>, i: int)
    requires
        0 <= i <= names.len(),
        forall|j: int| 0 <= j < i ==> names[j] != name,
    ensures
        i < names.len() && names[i] == name ==> first_index_of(names, name) == Some(i as nat),
        i == names.len() ==> first_index_of(names, name) is None,
    decreases names.len(),
{
    if names.len() > 0 && i > 0 {
        lemma_first_index_of(names.drop_first(), name, i - 1);
    }
}

/// The first position of `name` in `names`.
pub fn position_of(names: &Vec<String>, name: &str) -> (r: Option<usize>)
    ensures
        match first_index_of(seqs_of(names@), name@) {
            Some(i) => i < names@.len() && (r matches Some(j) && j == i),
            None => r is None,
        },
{
    proof { lemma_first_index_some(seqs_of(names@), name@); }
    let ghost s = seqs_of(names@);
    let mut i: usize = 0;
    while i < names.len()
        invariant
            s == seqs_of(names@),
            i <= names@.len(),
            forall|j: int| 0 <= j < i ==> s[j] != name@,
        decreases names@.len() - i,
    {
        if str_eq(names[i].as_str(), name) {
            proof { lemma_first_index_of(s, name@, i as int); }
            return Some(i);
        }
        i = i + 1;
    }
    proof { lemma_first_index_of(s, name@, i as int); }
    None
}

fn variant_name_list(e: &Enum) -> (r: Vec<String>)
    ensures
        seqs_of(r@) == variant_names(*e),
{
    let mut r: Vec<String> = Vec::new();
    let mut i: usize = 0;
    while i < e.variants.len()
        invariant
            i <= e.variants@.len(),
            seqs_of(r@) == variant_names(*e).take(i as int),
        decreases e.variants@.len() - i,
    {
        let ghost before = r@;
        r.push(e.variants[i].name.clone());
        assert(r@ =~= before.push(e.variants@[i as int].name));
        assert(seqs_of(r@) =~= seqs_of(before).push(e.variants@[i as int].name@));
        assert(variant_names(*e).take(i + 1) =~= variant_names(*e).take(i as int).push(e.variants@[i as int].name@));
        i = i + 1;
    }
    assert(variant_names(*e).take(e.variants@.len() as int) =~= variant_names(*e));
    r
}

impl ASTCodeGen {
    /// Registers an enum declaration under its name (a later declaration
    /// with the same name replaces the earlier one).
    pub fn register_enum(&mut self, enum_def: &Enum) -> (r: Result<(), String>)
        ensures
            r is Ok,
            final(self).enum_variants() == old(self).enum_variants().insert(enum_def.name@, variant_names(*enum_def)),
            final(self).enum_generic() == old(self).enum_generic().insert(enum_def.name@, enum_def.type_params@.len() > 0),
            old(self).enum_variants().dom().contains(enum_def.name@) ==> final(self).enum_order() == old(self).enum_order(),
            !old(self).enum_variants().dom().contains(enum_def.name@) ==> final(self).enum_order() == old(self).enum_order().push(enum_def.name@),
            old(self).same_except(*final(self), touch_enums()),
    {
        let info = EnumInfo { is_generic: enum_def.type_params.len() > 0, variants: variant_name_list(enum_def) };
        let ghost iv = info;
        self.enum_ast_defs.insert(enum_def.name.clone(), info);
        proof {
            assert(self.enum_variants() =~= old(self).enum_variants().insert(enum_def.name@, variant_names(*enum_def)));
            assert(self.enum_generic() =~= old(self).enum_generic().insert(enum_def.name@, enum_def.type_params@.len() > 0));
        }
        Ok(())
    }

    /// Whether some registered enum has a variant named `name`.
    pub fn is_enum_variant(&self, name: &str) -> (r: bool)
        ensures
            r == exists|e: Seq<char>| #[trigger] self.enum_variants().dom().contains(e) && self.enum_variants()[e].contains(name@),
    {
        let n = self.enum_ast_defs.len();
        let mut i: usize = 0;
        while i < n
            invariant
                n == self.enum_ast_defs.entries().len(),
                i <= n,
                forall|j: int| 0 <= j < i ==> !seqs_of(#[trigger] self.enum_ast_defs.entries()[j].1.variants@).contains(name@),
            decreases n - i,
        {
            let _ = self.enum_ast_defs.len();
            let (_k, info) = self.enum_ast_defs.entry_at(i);
            let p = position_of(&info.variants, name);
            if p.is_some() {
                proof {
                    let k = self.enum_ast_defs.entries()[i as int].0@;
                    let vs = seqs_of(info.variants@);
                    lemma_first_index_some(vs, name@);
                    let fi = first_index_of(vs, name@);
                    assert(fi is Some);
                    let ii = fi->Some_0;
                    assert(vs[ii as int] == name@);
                    assert(vs.contains(name@));
                    assert(self.enum_variants().dom().contains(k));
                    assert(self.enum_variants()[k] == vs);
                }
                return true;
            }
            proof {
                lemma_first_index_none(seqs_of(info.variants@), name@);
            }
            i = i + 1;
        }
        let _ = self.enum_ast_defs.len();
        proof {
            assert forall|e: Seq<char>| #[trigger] self.enum_variants().dom().contains(e) implies !self.enum_variants()[e].contains(name@) by {
                assert(self.enum_ast_defs.key_order().contains(e));
                let j = choose|j: int| 0 <= j < self.enum_ast_defs.key_order().len() && self.enum_ast_defs.key_order()[j] == e;
                assert(self.enum_ast_defs.entries()[j].0@ == e);
            }
        }
        false
    }
}

pub proof fn lemma_first_index_some(names: Seq<Seq<char>>, name: Seq<char>)
    ensures
        first_index_of(names, name) matches Some(i) ==> i < names.len() && names[i as int] == name
            && forall|j: int| 0 <= j < i ==> names[j] != name,
    decreases names.len(),
{
    if names.len() > 0 && names[0] != name {
        lemma_first_index_some(names.drop_first(), name);
        if let Some(i) = first_index_of(names, name) {
            assert(first_index_of(names.drop_first(), name) == Some((i - 1) as nat));
            assert forall|j: int| 0 <= j < i implies names[j] != name by {
                if j > 0 {
                    assert(names.drop_first()[j - 1] == names[j]);
                }
            }
        }
    }
}

pub proof fn lemma_first_index_none(names: Seq<Seq<char>>, name: Seq<char>)
    ensures
        first_index_of(names, name) is None <==> !names.contains(name),
    decreases names.len(),
{
    if names.len() > 0 {
        lemma_first_index_none(names.drop_first(), name);
        if names[0] != name {
            assert(names.contains(name) ==> names.drop_first().contains(name)) by {
                if names.contains(name) {
                    let j = choose|j: int| 0 <= j < names.len() && names[j] == name;
                    assert(names.drop_first()[j - 1] == name);
                }
            }
            assert(names.drop_first().contains(name) ==> names.contains(name)) by {
                if names.drop_first().contains(name) {
                    let j = choose|j: int| 0 <= j < names.drop_first().len() && names.drop_first()[j] == name;
                    assert(names[j + 1] == name);
                }
            }
        } else {
            assert(names[0] == name);
        }
    }
}

} // verus!

verus! {

impl ASTCodeGen {
    /// The enum a variant name belongs to and the variant's position:
    /// `Some`/`None` are variants 0/1 of `Option`, `Ok`/`Err` variants 0/1
    /// of `Result`; any other name is looked up in the registered enums, in
    /// registration order.
    pub open spec fn enum_of_variant(self, name: Seq<char>) -> Option<(Seq<char>, nat)> {
        if name == "Some"@ {
            Some(("Option"@, 0))
        } else if name == "None"@ {
            Some(("Option"@, 1))
        } else if name == "Ok"@ {
            Some(("Result"@, 0))
        } else if name == "Err"@ {
            Some(("Result"@, 1))
        } else {
            first_enum_with_variant(self.enum_order(), self.enum_variants(), 0, name)
        }
    }

    /// Finds the enum and variant position of a variant name (see
    /// `enum_of_variant`).
    pub fn find_enum_and_variant_index(&self, variant_name: &str) -> (r: Option<(String, usize)>)
        ensures
            match self.enum_of_variant(variant_name@) {
                Some((e, i)) => r matches Some(p) && p.0@ == e && p.1 == i,
                None => r is None,
            },
            !is_builtin_variant(variant_name@) ==> match r {
                Some(p) => self.enum_variants().dom().contains(p.0@) && p.1 < self.enum_variants()[p.0@].len()
                    && self.enum_variants()[p.0@][p.1 as int] == variant_name@,
                None => forall|e: Seq<char>| #[trigger] self.enum_variants().dom().contains(e)
                    ==> !self.enum_variants()[e].contains(variant_name@),
            },
    {
        let _ = self.enum_ast_defs.len();
        proof {
            lemma_first_enum_with_variant(self.enum_order(), self.enum_variants(), 0, variant_name@);
            if !is_builtin_variant(variant_name@) {
                if let Some((e, i)) = self.enum_of_variant(variant_name@) {
                    let j = choose|j: int| 0 <= j < self.enum_order().len() && self.enum_order()[j] == e;
                    assert(self.enum_order().contains(e));
                    assert(self.enum_variants().dom().contains(e));
                } else {
                    assert forall|e: Seq<char>| #[trigger] self.enum_variants().dom().contains(e)
                        implies !self.enum_variants()[e].contains(variant_name@) by {
                        assert(self.enum_order().contains(e));
                        let j = choose|j: int| 0 <= j < self.enum_order().len() && self.enum_order()[j] == e;
                    }
                }
            }
        }
        if str_eq(variant_name, "Some") || str_eq(variant_name, "None") {
            return Some(("Option".to_owned(), if str_eq(variant_name, "Some") { 0 } else { 1 }));
        }
        if str_eq(variant_name, "Ok") || str_eq(variant_name, "Err") {
            return Some(("Result".to_owned(), if str_eq(variant_name, "Ok") { 0 } else { 1 }));
        }
        let n = self.enum_ast_defs.len();
        let mut k: usize = 0;
        while k < n
            invariant
                n == self.enum_ast_defs.entries().len(),
                k <= n,
                first_enum_with_variant(self.enum_order(), self.enum_variants(), 0, variant_name@)
                    == first_enum_with_variant(self.enum_order(), self.enum_variants(), k as int, variant_name@),
                variant_name@ != "Some"@ && variant_name@ != "None"@ && variant_name@ != "Ok"@ && variant_name@ != "Err"@,
                match self.enum_of_variant(variant_name@) {
                    Some((e, i)) => self.enum_variants().dom().contains(e) && i < self.enum_variants()[e].len()
                        && self.enum_variants()[e][i as int] == variant_name@,
                    None => forall|e: Seq<char>| #[trigger] self.enum_variants().dom().contains(e)
                        ==> !self.enum_variants()[e].contains(variant_name@),
                },
            decreases n - k,
        {
            let _ = self.enum_ast_defs.len();
            let (name, info) = self.enum_ast_defs.entry_at(k);
            proof {
                assert(self.enum_order()[k as int] == name@);
                assert(self.enum_variants()[name@] == seqs_of(info.variants@));
            }
            let pos = position_of(&info.variants, variant_name);
            match pos {
                Some(i) => {
                    proof {
                        let fi = first_index_of(seqs_of(info.variants@), variant_name@);
                        assert(fi is Some);
                        assert(fi->Some_0 == i as nat);
                        assert(k < self.enum_order().len());
                        assert(first_enum_with_variant(self.enum_order(), self.enum_variants(), k as int, variant_name@) == Some((name@, i as nat)));
                    }
                    let r = Some((name.clone(), i));
                    return r;
                }
                None => {}
            }
            k = k + 1;
        }
        None
    }

    /// Whether a name is one of the variants of the registered enums.
    pub open spec fn names_enum_variant(self, name: Seq<char>) -> bool {
        exists|e: Seq<char>| #[trigger] self.enum_variants().dom().contains(e) && self.enum_variants()[e].contains(name)
    }

    /// Whether a pattern matches every value: `_`, or an identifier that
    /// is not an enum variant.
    pub fn is_catch_all_pattern(&self, pattern: &Pattern) -> (r: bool)
        ensures
            r == match *pattern {
                Pattern::Wildcard => true,
                Pattern::Ident(name) => !self.names_enum_variant(name@),
                _ => false,
            },
    {
        match pattern {
            Pattern::Wildcard => true,
            Pattern::Ident(name) => !self.is_enum_variant(name.as_str()),
            _ => false,
        }
    }
}

/// The position of a variant of a built-in enum (`Option`: `Some` 0,
/// `None` 1; `Result`: `Ok` 0, `Err` 1).
pub open spec fn builtin_variant_index(e: Seq<char>, v: Seq<char>) -> Option<nat> {
    if e == "Option"@ && v == "Some"@ { Some(0) }
    else if e == "Option"@ && v == "None"@ { Some(1) }
    else if e == "Result"@ && v == "Ok"@ { Some(0) }
    else if e == "Result"@ && v == "Err"@ { Some(1) }
    else { None }
}

impl ASTCodeGen {
    /// The enum named `enum_name` (or, when it is empty, the enum found for
    /// the variant) and the position of `variant_name` in it, or the error
    /// message explaining why there is none.
    pub open spec fn enum_variant_index(self, enum_name: Seq<char>, variant_name: Seq<char>) -> Result<(Seq<char>, nat), Seq<char>> {
        let found = self.enum_of_variant(variant_name);
        if enum_name.len() == 0 && found is None {
            Err("Cannot find enum for variant '"@ + variant_name + "'"@)
        } else {
            let e = if enum_name.len() == 0 { found->Some_0.0 } else { enum_name };
            if e == "Option"@ || e == "Result"@ {
                match builtin_variant_index(e, variant_name) {
                    Some(i) => Ok((e, i)),
                    None => Err("Unknown variant '"@ + variant_name + "' for builtin enum '"@ + e + "'"@),
                }
            } else if !self.enum_variants().dom().contains(e) {
                Err("Enum '"@ + e + "' not found"@)
            } else {
                match first_index_of(self.enum_variants()[e], variant_name) {
                    Some(i) => Ok((e, i)),
                    None => Err("Variant '"@ + variant_name + "' not found in enum '"@ + e + "'"@),
                }
            }
        }
    }

    /// Finds the enum and variant position for a pattern such as
    /// `Color::Red` (see `enum_variant_index`).
    pub fn find_enum_and_variant_index_by_name(&self, enum_name: &str, variant_name: &str) -> (r: Result<(String, usize), String>)
        ensures
            match self.enum_variant_index(enum_name@, variant_name@) {
                Ok((e, i)) => r matches Ok(p) && p.0@ == e && p.1 == i,
                Err(m) => r matches Err(x) && x@ == m,
            },
    {
        let e_name: String = if enum_name.unicode_len() == 0 {
            match self.find_enum_and_variant_index(variant_name) {
                Some((e, _)) => e,
                None => {
                    let m = concat_str(concat_str("Cannot find enum for variant '", variant_name).as_str(), "'");
                    return Err(m);
                }
            }
        } else {
            enum_name.to_owned()
        };
        let is_builtin = str_eq(e_name.as_str(), "Option") || str_eq(e_name.as_str(), "Result");
        if is_builtin {
            let idx: Option<usize> = if str_eq(e_name.as_str(), "Option") && str_eq(variant_name, "Some") {
                Some(0)
            } else if str_eq(e_name.as_str(), "Option") && str_eq(variant_name, "None") {
                Some(1)
            } else if str_eq(e_name.as_str(), "Result") && str_eq(variant_name, "Ok") {
                Some(0)
            } else if str_eq(e_name.as_str(), "Result") && str_eq(variant_name, "Err") {
                Some(1)
            } else {
                None
            };
            match idx {
                Some(i) => Ok((e_name, i)),
                None => {
                    let m = concat_str(concat_str(concat_str(concat_str("Unknown variant '", variant_name).as_str(), "' for builtin enum '").as_str(), e_name.as_str()).as_str(), "'");
                    Err(m)
                }
            }
        } else {
            match self.enum_ast_defs.get(e_name.as_str()) {
                None => {
                    let m = concat_str(concat_str("Enum '", e_name.as_str()).as_str(), "' not found");
                    Err(m)
                }
                Some(info) => {
                    match position_of(&info.variants, variant_name) {
                        Some(i) => Ok((e_name, i)),
                        None => {
                            let m = concat_str(concat_str(concat_str(concat_str("Variant '", variant_name).as_str(), "' not found in enum '").as_str(), e_name.as_str()).as_str(), "'");
                            Err(m)
                        }
                    }
                }
            }
        }
    }
}

} // verus!

verus! {

/// The names of a struct's methods.
pub open spec fn method_names(fs: Seq<Function>) -> Seq<Seq<char>> {
    fs.map_values(|f: Function| f.name@)
}

pub open spec fn field_decl_views(fs: Seq<crate::ast::Field>) -> Seq<(Seq<char>, TypeView)> {
    fs.map_values(|f: crate::ast::Field| (f.name@, f.ty@))
}

pub open spec fn trait_ref_views(ts: Seq<crate::ast::TraitRef>) -> Seq<(Seq<char>, Seq<TypeView>)> {
    ts.map_values(|t: crate::ast::TraitRef| (t.name@, crate::ast::type_views(t.type_args@)))
}

pub open spec fn trait_ref_names(ts: Seq<crate::ast::TraitRef>) -> Seq<Seq<char>> {
    ts.map_values(|t: crate::ast::TraitRef| t.name@)
}

pub open spec fn trait_method_names(ms: Seq<crate::ast::TraitMethod>) -> Seq<Seq<char>> {
    ms.map_values(|m: crate::ast::TraitMethod| m.name@)
}

/// The names of type parameters, in order.
pub open spec fn type_param_names(tps: Seq<crate::ast::TypeParam>) -> Seq<Seq<char>> {
    tps.map_values(|t: crate::ast::TypeParam| t.name@)
}

pub(crate) fn type_param_name_list(tps: &Vec<crate::ast::TypeParam>) -> (r: Vec<String>)
    ensures
        seqs_of(r@) == type_param_names(tps@),
{
    let mut out: Vec<String> = Vec::new();
    let mut i: usize = 0;
    while i < tps.len()
        invariant
            i <= tps@.len(),
            seqs_of(out@) == type_param_names(tps@).take(i as int),
        decreases tps@.len() - i,
    {
        let ghost before = out@;
        let n = tps[i].name.clone();
        out.push(n);
        assert(out@ =~= before.push(n));
        assert(seqs_of(out@) =~= seqs_of(before).push(n@));
        assert(type_param_names(tps@).take(i + 1) =~= type_param_names(tps@).take(i as int).push(tps@[i as int].name@));
        i = i + 1;
    }
    proof {
        assert(type_param_names(tps@).take(tps@.len() as int) =~= type_param_names(tps@));
    }
    out
}

/// The value of a struct declaration's entry.
pub open spec fn struct_decl_view(s: Struct) -> StructView {
    StructView {
        is_generic: s.type_params@.len() > 0,
        type_params: type_param_names(s.type_params@),
        fields: field_decl_views(s.fields@),
        impl_traits: trait_ref_views(s.impl_traits@),
        methods: s.methods@.map_values(|f: Function| method_decl_view(f)),
    }
}

/// `impls` after recording, for each trait name of `traits` in order, that
/// type `ty` implements it with the methods `methods`.
pub open spec fn record_impls(
    impls: Map<Seq<char>, Map<Seq<char>, Seq<Seq<char>>>>,
    traits: Seq<Seq<char>>,
    ty: Seq<char>,
    methods: Seq<Seq<char>>,
) -> Map<Seq<char>, Map<Seq<char>, Seq<Seq<char>>>>
    decreases traits.len(),
{
    if traits.len() == 0 {
        impls
    } else {
        let prev = record_impls(impls, traits.drop_last(), ty, methods);
        record_impl(prev, traits.last(), ty, methods)
    }
}

/// `impls` after recording that type `ty` implements trait `tr` with the
/// methods `methods`.
pub open spec fn record_impl(
    impls: Map<Seq<char>, Map<Seq<char>, Seq<Seq<char>>>>,
    tr: Seq<char>,
    ty: Seq<char>,
    methods: Seq<Seq<char>>,
) -> Map<Seq<char>, Map<Seq<char>, Seq<Seq<char>>>> {
    let inner = if impls.dom().contains(tr) { impls[tr] } else { Map::empty() };
    impls.insert(tr, inner.insert(ty, methods))
}

fn copy_field_list(fields: &Vec<crate::ast::Field>) -> (r: Vec<(String, Type)>)
    ensures
        layout_views(r@) == field_decl_views(fields@),
{
    let mut r: Vec<(String, Type)> = Vec::new();
    let mut i: usize = 0;
    while i < fields.len()
        invariant
            i <= fields@.len(),
            layout_views(r@) == field_decl_views(fields@).take(i as int),
        decreases fields@.len() - i,
    {
        let ghost before = r@;
        let x = (fields[i].name.clone(), copy_type(&fields[i].ty));
        r.push(x);
        assert(r@ =~= before.push(x));
        assert(layout_views(r@) =~= layout_views(before).push((x.0@, x.1@)));
        assert(field_decl_views(fields@).take(i + 1) =~= field_decl_views(fields@).take(i as int).push((fields@[i as int].name@, fields@[i as int].ty@)));
        i = i + 1;
    }
    assert(field_decl_views(fields@).take(fields@.len() as int) =~= field_decl_views(fields@));
    r
}

fn copy_types_list(v: &Vec<Type>) -> (r: Vec<Type>)
    ensures
        crate::ast::type_views(r@) == crate::ast::type_views(v@),
{
    let mut r: Vec<Type> = Vec::new();
    let mut i: usize = 0;
    while i < v.len()
        invariant
            i <= v@.len(),
            crate::ast::type_views(r@) == crate::ast::type_views(v@.take(i as int)),
        decreases v@.len() - i,
    {
        let x = copy_type(&v[i]);
        let ghost before = r@;
        r.push(x);
        proof {
            assert(r@.drop_last() =~= before);
            assert(v@.take(i + 1).drop_last() =~= v@.take(i as int));
        }
        i = i + 1;
    }
    assert(v@.take(v@.len() as int) =~= v@);
    r
}

fn copy_trait_refs(ts: &Vec<crate::ast::TraitRef>) -> (r: Vec<TraitRefInfo>)
    ensures
        trait_info_views(r@) == trait_ref_views(ts@),
{
    let mut r: Vec<TraitRefInfo> = Vec::new();
    let mut i: usize = 0;
    while i < ts.len()
        invariant
            i <= ts@.len(),
            trait_info_views(r@) == trait_ref_views(ts@).take(i as int),
        decreases ts@.len() - i,
    {
        let ghost before = r@;
        let x = TraitRefInfo { name: ts[i].name.clone(), type_args: copy_types_list(&ts[i].type_args) };
        r.push(x);
        assert(r@ =~= before.push(x));
        assert(trait_info_views(r@) =~= trait_info_views(before).push((x.name@, crate::ast::type_views(x.type_args@))));
        assert(trait_ref_views(ts@).take(i + 1) =~= trait_ref_views(ts@).take(i as int).push(
            (ts@[i as int].name@, crate::ast::type_views(ts@[i as int].type_args@))));
        i = i + 1;
    }
    assert(trait_ref_views(ts@).take(ts@.len() as int) =~= trait_ref_views(ts@));
    r
}

fn subst_fields(fields: &Vec<(String, Type)>, type_subst: &StrMap<Type>) -> (r: Vec<(String, Type)>)
    ensures
        layout_views(r@) == subst_layout(layout_views(fields@), types_map(type_subst.view())),
{
    let ghost src = layout_views(fields@);
    let ghost m = types_map(type_subst.view());
    let mut out: Vec<(String, Type)> = Vec::new();
    let mut i: usize = 0;
    while i < fields.len()
        invariant
            i <= fields@.len(),
            src == layout_views(fields@),
            m == types_map(type_subst.view()),
            layout_views(out@) == subst_layout(src, m).take(i as int),
        decreases fields@.len() - i,
    {
        let ghost before = out@;
        let x = (fields[i].0.clone(), crate::generics::substitute_type(&fields[i].1, type_subst));
        out.push(x);
        assert(out@ =~= before.push(x));
        assert(layout_views(out@) =~= layout_views(before).push((x.0@, x.1@)));
        assert(subst_layout(src, m).take(i + 1) =~= subst_layout(src, m).take(i as int).push(
            (src[i as int].0, crate::generics::subst_type(src[i as int].1, m)),
        ));
        i = i + 1;
    }
    assert(subst_layout(src, m).take(fields@.len() as int) =~= subst_layout(src, m));
    out
}

fn string_lists_equal(a: &Vec<String>, b: &Vec<String>) -> (r: bool)
    ensures
        r == (seqs_of(a@) == seqs_of(b@)),
{
    if a.len() != b.len() {
        assert(seqs_of(a@).len() != seqs_of(b@).len());
        return false;
    }
    let mut i: usize = 0;
    while i < a.len()
        invariant
            a@.len() == b@.len(),
            i <= a@.len(),
            forall|j: int| 0 <= j < i ==> a@[j]@ == b@[j]@,
        decreases a@.len() - i,
    {
        if !str_eq(a[i].as_str(), b[i].as_str()) {
            assert(seqs_of(a@)[i as int] != seqs_of(b@)[i as int]);
            return false;
        }
        i = i + 1;
    }
    assert(seqs_of(a@) =~= seqs_of(b@));
    true
}

fn copy_opt_type(t: &Option<Type>) -> (r: Option<Type>)
    ensures
        opt_view(r) == opt_view(*t),
{
    match t {
        Some(x) => Some(copy_type(x)),
        None => None,
    }
}

fn copy_method_info(f: &Function) -> (r: MethodInfo)
    ensures
        method_info_view(r) == method_decl_view(*f),
{
    let mut param_types: Vec<Type> = Vec::new();
    let mut i: usize = 0;
    while i < f.params.len()
        invariant
            i <= f.params@.len(),
            crate::ast::type_views(param_types@) == f.params@.map_values(|p: crate::ast::Param| p.ty@).take(i as int),
        decreases f.params@.len() - i,
    {
        let ghost before = param_types@;
        let t = copy_type(&f.params[i].ty);
        param_types.push(t);
        assert(param_types@.drop_last() =~= before);
        assert(crate::ast::type_views(param_types@) == crate::ast::type_views(before).push(t@));
        assert(f.params@.map_values(|p: crate::ast::Param| p.ty@).take(i + 1)
            =~= f.params@.map_values(|p: crate::ast::Param| p.ty@).take(i as int).push(f.params@[i as int].ty@));
        i = i + 1;
    }
    assert(f.params@.map_values(|p: crate::ast::Param| p.ty@).take(f.params@.len() as int)
        =~= f.params@.map_values(|p: crate::ast::Param| p.ty@));
    let receiver = match &f.receiver {
        Some(rc) => Some(copy_type(&rc.ty)),
        None => None,
    };
    MethodInfo { name: f.name.clone(), receiver, param_types, return_type: copy_opt_type(&f.return_type) }
}

fn copy_method_list(fs: &Vec<Function>) -> (r: Vec<MethodInfo>)
    ensures
        r@.map_values(|m: MethodInfo| method_info_view(m)) == fs@.map_values(|f: Function| method_decl_view(f)),
{
    let mut r: Vec<MethodInfo> = Vec::new();
    let mut i: usize = 0;
    while i < fs.len()
        invariant
            i <= fs@.len(),
            r@.map_values(|m: MethodInfo| method_info_view(m)) == fs@.map_values(|f: Function| method_decl_view(f)).take(i as int),
        decreases fs@.len() - i,
    {
        let ghost before = r@;
        let x = copy_method_info(&fs[i]);
        r.push(x);
        assert(r@ =~= before.push(x));
        assert(r@.map_values(|m: MethodInfo| method_info_view(m))
            =~= before.map_values(|m: MethodInfo| method_info_view(m)).push(method_info_view(x)));
        assert(fs@.map_values(|f: Function| method_decl_view(f)).take(i + 1)
            =~= fs@.map_values(|f: Function| method_decl_view(f)).take(i as int).push(method_decl_view(fs@[i as int])));
        i = i + 1;
    }
    assert(fs@.map_values(|f: Function| method_decl_view(f)).take(fs@.len() as int) =~= fs@.map_values(|f: Function| method_decl_view(f)));
    r
}

fn function_name_list(fs: &Vec<Function>) -> (r: Vec<String>)
    ensures
        seqs_of(r@) == method_names(fs@),
{
    let mut r: Vec<String> = Vec::new();
    let mut i: usize = 0;
    while i < fs.len()
        invariant
            i <= fs@.len(),
            seqs_of(r@) == method_names(fs@).take(i as int),
        decreases fs@.len() - i,
    {
        let ghost before = r@;
        let x = fs[i].name.clone();
        r.push(x);
        assert(r@ =~= before.push(x));
        assert(seqs_of(r@) =~= seqs_of(before).push(x@));
        assert(method_names(fs@).take(i + 1) =~= method_names(fs@).take(i as int).push(fs@[i as int].name@));
        i = i + 1;
    }
    assert(method_names(fs@).take(fs@.len() as int) =~= method_names(fs@));
    r
}

impl ASTCodeGen {
    /// Records that type `ty` implements trait `tr` with the given methods.
    fn record_trait_impl(&mut self, tr: &String, ty: &String, methods: Vec<String>)
        ensures
            final(self).trait_impl_methods() == record_impl(old(self).trait_impl_methods(), tr@, ty@, seqs_of(methods@)),
            old(self).same_except(*final(self), touch_impls()),
    {
        let mut inner = match self.trait_impls.remove(tr.as_str()) {
            Some(m) => m,
            None => StrMap::new(),
        };
        let ghost mv = seqs_of(methods@);
        inner.insert(ty.clone(), methods);
        self.trait_impls.insert(tr.clone(), inner);
        proof {
            let old_i = old(self).trait_impl_methods();
            let inner_v = if old_i.dom().contains(tr@) { old_i[tr@] } else { Map::empty() };
            assert(inner.view().map_values(|v: Vec<String>| seqs_of(v@)) =~= inner_v.insert(ty@, mv));
            assert(self.trait_impl_methods() =~= record_impl(old_i, tr@, ty@, mv));
        }
    }

    /// Registers a struct declaration. A generic struct is only recorded;
    /// a non-generic one also gets its field layout, and each trait it
    /// declares is recorded as implemented by all of its methods.
    pub fn register_struct(&mut self, struct_def: &Struct) -> (r: Result<(), String>)
        ensures
            r is Ok,
            final(self).structs() == old(self).structs().insert(struct_def.name@, struct_decl_view(*struct_def)),
            struct_def.type_params@.len() > 0 ==> final(self).struct_layouts() == old(self).struct_layouts()
                && final(self).trait_impl_methods() == old(self).trait_impl_methods(),
            struct_def.type_params@.len() == 0 ==> final(self).struct_layouts() == old(self).struct_layouts().insert(
                struct_def.name@,
                struct_decl_view(*struct_def).fields,
            ) && final(self).trait_impl_methods() == record_impls(
                old(self).trait_impl_methods(),
                trait_ref_names(struct_def.impl_traits@),
                struct_def.name@,
                method_names(struct_def.methods@),
            ),
            old(self).same_except(*final(self), Touched { structs: true, impls: true, ..touch_nothing() }),
    {
        let info = StructInfo {
            is_generic: struct_def.type_params.len() > 0,
            type_params: type_param_name_list(&struct_def.type_params),
            fields: copy_field_list(&struct_def.fields),
            impl_traits: copy_trait_refs(&struct_def.impl_traits),
            methods: copy_method_list(&struct_def.methods),
        };
        let ghost iv = struct_view(info);
        self.struct_ast_defs.insert(struct_def.name.clone(), info);
        assert(self.structs() =~= old(self).structs().insert(struct_def.name@, struct_decl_view(*struct_def)));
        if struct_def.type_params.len() > 0 {
            return Ok(());
        }
        let fields = copy_field_list(&struct_def.fields);
        self.struct_defs.insert(struct_def.name.clone(), fields);
        assert(self.struct_layouts() =~= old(self).struct_layouts().insert(struct_def.name@, struct_decl_view(*struct_def).fields));
        let ghost traits = trait_ref_names(struct_def.impl_traits@);
        let ghost methods = method_names(struct_def.methods@);
        let ghost impls0 = old(self).trait_impl_methods();
        let mut i: usize = 0;
        while i < struct_def.impl_traits.len()
            invariant
                i <= struct_def.impl_traits@.len(),
                traits == trait_ref_names(struct_def.impl_traits@),
                methods == method_names(struct_def.methods@),
                self.trait_impl_methods() == record_impls(impls0, traits.take(i as int), struct_def.name@, methods),
                self.structs() == old(self).structs().insert(struct_def.name@, struct_decl_view(*struct_def)),
                self.struct_layouts() == old(self).struct_layouts().insert(struct_def.name@, struct_decl_view(*struct_def).fields),
                old(self).same_except(*self, Touched { structs: true, impls: true, ..touch_nothing() }),
            decreases struct_def.impl_traits@.len() - i,
        {
            let names = function_name_list(&struct_def.methods);
            self.record_trait_impl(&struct_def.impl_traits[i].name, &struct_def.name, names);
            assert(traits.take(i + 1).drop_last() =~= traits.take(i as int));
            i = i + 1;
        }
        assert(traits.take(traits.len() as int) =~= traits);
        Ok(())
    }

    /// Whether `struct_name` names a registered struct.
    pub fn has_struct(&self, struct_name: &str) -> (r: bool)
        ensures
            r == self.structs().dom().contains(struct_name@),
    {
        self.struct_ast_defs.contains_key(struct_name)
    }

    /// Registers a trait declaration under its name.
    pub fn register_trait(&mut self, trait_def: &Trait) -> (r: Result<(), String>)
        ensures
            r is Ok,
            final(self).trait_methods() == old(self).trait_methods().insert(
                trait_def.name@,
                trait_method_names(trait_def.methods@),
            ),
            old(self).same_except(*final(self), touch_traits()),
    {
        let mut names: Vec<String> = Vec::new();
        let mut i: usize = 0;
        while i < trait_def.methods.len()
            invariant
                i <= trait_def.methods@.len(),
                seqs_of(names@) == trait_method_names(trait_def.methods@).take(i as int),
            decreases trait_def.methods@.len() - i,
        {
            let ghost before = names@;
            let x = trait_def.methods[i].name.clone();
            names.push(x);
            assert(names@ =~= before.push(x));
            assert(seqs_of(names@) =~= seqs_of(before).push(x@));
            assert(trait_method_names(trait_def.methods@).take(i + 1)
                =~= trait_method_names(trait_def.methods@).take(i as int).push(trait_def.methods@[i as int].name@));
            i = i + 1;
        }
        assert(trait_method_names(trait_def.methods@).take(trait_def.methods@.len() as int)
            =~= trait_method_names(trait_def.methods@));
        let ghost nv = seqs_of(names@);
        self.trait_defs.insert(trait_def.name.clone(), TraitInfo { methods: names });
        assert(self.trait_methods() =~= old(self).trait_methods().insert(trait_def.name@, nv));
        Ok(())
    }

    /// The method implementing an operator trait for a type: the first
    /// method registered for the pair, if any.
    pub open spec fn operator_method(self, ty_name: Seq<char>, trait_name: Seq<char>) -> Option<Seq<char>> {
        if self.trait_impl_methods().dom().contains(trait_name)
            && self.trait_impl_methods()[trait_name].dom().contains(ty_name)
            && self.trait_impl_methods()[trait_name][ty_name].len() > 0
        {
            Some(self.trait_impl_methods()[trait_name][ty_name][0])
        } else {
            None
        }
    }

    /// The method name implementing trait `trait_name` for `ty_name`, if
    /// that implementation is registered with at least one method.
    pub fn has_operator_trait(&self, ty_name: &str, trait_name: &str) -> (r: Option<String>)
        ensures
            match self.operator_method(ty_name@, trait_name@) {
                Some(m) => r matches Some(s) && s@ == m,
                None => r is None,
            },
    {
        match self.trait_impls.get(trait_name) {
            None => None,
            Some(inner) => match inner.get(ty_name) {
                None => None,
                Some(methods) => {
                    if methods.len() > 0 {
                        Some(methods[0].clone())
                    } else {
                        None
                    }
                }
            },
        }
    }

    /// Checks that no policy has the name of a trait being registered.
    pub fn check_trait_policy_collision(&self, trait_name: &str) -> (r: Result<(), String>)
        ensures
            self.policies().dom().contains(trait_name@) ==> (r matches Err(e)
                && e@ == "Trait '"@ + trait_name@ + "' conflicts with existing policy of the same name"@),
            !self.policies().dom().contains(trait_name@) ==> r is Ok,
    {
        if self.policy_defs.contains_key(trait_name) {
            return Err(concat_str(concat_str("Trait '", trait_name).as_str(), "' conflicts with existing policy of the same name"));
        }
        Ok(())
    }

    /// Registers a policy, which the registry keeps. A policy may not
    /// share its name with a trait or an earlier policy.
    pub fn register_policy(&mut self, policy: Policy) -> (r: Result<(), String>)
        ensures
            old(self).trait_methods().dom().contains(policy.name@) ==> (r matches Err(e)
                && e@ == "Policy '"@ + policy.name@ + "' conflicts with existing trait of the same name"@
                && *final(self) == *old(self)),
            !old(self).trait_methods().dom().contains(policy.name@) && old(self).policies().dom().contains(policy.name@)
                ==> (r matches Err(e) && e@ == "Policy '"@ + policy.name@ + "' is already defined"@
                && *final(self) == *old(self)),
            !old(self).trait_methods().dom().contains(policy.name@) && !old(self).policies().dom().contains(policy.name@)
                ==> r is Ok && final(self).policies() == old(self).policies().insert(policy.name@, policy),
            old(self).same_except(*final(self), touch_policies()),
    {
        if self.trait_defs.contains_key(policy.name.as_str()) {
            return Err(concat_str(concat_str("Policy '", policy.name.as_str()).as_str(), "' conflicts with existing trait of the same name"));
        }
        if self.policy_defs.contains_key(policy.name.as_str()) {
            return Err(concat_str(concat_str("Policy '", policy.name.as_str()).as_str(), "' is already defined"));
        }
        let name = policy.name.clone();
        self.policy_defs.insert(name, policy);
        Ok(())
    }

    /// The registered policies.
    pub fn policy_defs(&self) -> (r: &StrMap<Policy>)
        ensures
            r.view() == self.policies(),
    {
        &self.policy_defs
    }

    /// Registers a module namespace with its function names.
    pub fn register_module_namespace(&mut self, module_name: String, functions: Vec<String>)
        ensures
            final(self).namespaces() == old(self).namespaces().insert(module_name@, seqs_of(functions@)),
            old(self).same_except(*final(self), touch_namespaces()),
    {
        let ghost fv = seqs_of(functions@);
        let ghost mv = module_name@;
        self.module_namespaces.insert(module_name, functions);
        assert(self.namespaces() =~= old(self).namespaces().insert(mv, fv));
    }

    /// Registers the namespace imports among `imports`, in order: each
    /// alias of an `import * as alias from "m"` refers to `m` from then on.
    pub fn register_namespace_imports(&mut self, imports: &[Import])
        ensures
            final(self).namespace_aliases() == with_namespace_imports(old(self).namespace_aliases(), imports@),
            old(self).same_except(*final(self), touch_namespaces()),
    {
        let mut i: usize = 0;
        while i < imports.len()
            invariant
                i <= imports@.len(),
                self.namespace_aliases() == with_namespace_imports(old(self).namespace_aliases(), imports@.take(i as int)),
                old(self).same_except(*self, touch_namespaces()),
            decreases imports@.len() - i,
        {
            proof {
                assert(imports@.take(i as int + 1).drop_last() =~= imports@.take(i as int));
            }
            let ghost before = self.namespace_aliases();
            match &imports[i].kind {
                ImportKind::Namespace(alias) => {
                    let a = alias.clone();
                    let m = imports[i].module.clone();
                    let ghost av = a@;
                    let ghost mv = m@;
                    self.namespace_imports.insert(a, m);
                    assert(self.namespace_aliases() =~= before.insert(av, mv));
                }
                _ => {}
            }
            i = i + 1;
        }
        assert(imports@.take(imports@.len() as int) =~= imports@);
    }

    /// The module that a namespace alias refers to, if it is registered.
    pub fn namespace_import(&self, alias: &str) -> (r: Option<&String>)
        ensures
            match r {
                Some(m) => self.namespace_aliases().dom().contains(alias@) && m@ == self.namespace_aliases()[alias@],
                None => !self.namespace_aliases().dom().contains(alias@),
            },
    {
        self.namespace_imports.get(alias)
    }

    /// The functions registered for a module namespace, if any.
    pub fn module_namespace(&self, module_name: &str) -> (r: Option<&Vec<String>>)
        ensures
            match r {
                Some(fs) => self.namespaces().dom().contains(module_name@) && seqs_of(fs@) == self.namespaces()[module_name@],
                None => !self.namespaces().dom().contains(module_name@),
            },
    {
        self.module_namespaces.get(module_name)
    }

    /// Whether calling a method needs a generic instantiation: the struct
    /// is registered as generic, or the method has type parameters.
    pub fn method_needs_instantiation(&self, method_def: &Function, struct_name: &str) -> (r: bool)
        ensures
            r == ((self.structs().dom().contains(struct_name@) && self.structs()[struct_name@].is_generic)
                || method_def.type_params@.len() > 0),
    {
        let struct_is_generic = match self.struct_ast_defs.get(struct_name) {
            Some(s) => s.is_generic,
            None => false,
        };
        struct_is_generic || method_def.type_params.len() > 0
    }

    /// Whether `func` is a method on a generic struct: its receiver's type
    /// names a struct (see `receiver_base_struct`) that is registered as
    /// generic. Such methods are instantiated when called, not declared up
    /// front.
    pub fn is_method_on_generic_struct(&self, func: &Function) -> (r: bool)
        ensures
            r == match func.receiver {
                Some(rc) => match receiver_base_struct(rc.ty@) {
                    Some(n) => self.structs().dom().contains(n) && self.structs()[n].is_generic,
                    None => false,
                },
                None => false,
            },
    {
        let rc = match &func.receiver {
            Some(rc) => rc,
            None => {
                return false;
            },
        };
        let name = match receiver_struct_name(&rc.ty) {
            Some(n) => n,
            None => {
                return false;
            },
        };
        match self.struct_ast_defs.get(name) {
            Some(info) => info.is_generic,
            None => false,
        }
    }

    /// Whether a function is declared in the declaration pass: it has no
    /// type parameters and is not a method on a generic struct.
    pub fn is_declared_up_front(&self, func: &Function) -> (r: bool)
        ensures
            r == (func.type_params@.len() == 0 && !(match func.receiver {
                Some(rc) => match receiver_base_struct(rc.ty@) {
                    Some(n) => self.structs().dom().contains(n) && self.structs()[n].is_generic,
                    None => false,
                },
                None => false,
            })),
    {
        func.type_params.len() == 0 && !self.is_method_on_generic_struct(func)
    }

    /// The declared function whose body `func` supplies: a method by its
    /// mangled name under the struct its receiver names (see
    /// `receiver_method_name`), a free function by its name. Errors: a
    /// receiver whose type names no struct, or a name that was never
    /// declared.
    pub fn compiled_function_name(&self, func: &Function) -> (r: Result<String, String>)
        ensures
            match func.receiver {
                Some(rc) => match receiver_base_struct(rc.ty@) {
                    Some(t) => {
                        let n = receiver_method_name(t, func.name@, func.params@);
                        if self.function_names().contains(n) {
                            r matches Ok(x) && x@ == n
                        } else {
                            r matches Err(e) && e@ == "Function "@ + n + " not declared"@
                        }
                    },
                    None => r matches Err(e) && e@ == receiver_type_error(rc.ty@),
                },
                None => if self.function_names().contains(func.name@) {
                    r matches Ok(x) && x@ == func.name@
                } else {
                    r matches Err(e) && e@ == "Function "@ + func.name@ + " not declared"@
                },
            },
    {
        let name = match &func.receiver {
            None => func.name.clone(),
            Some(rc) => match receiver_struct_name(&rc.ty) {
                Some(t) => receiver_method_mangled_name(t, func),
                None => {
                    let shown = receiver_text(&rc.ty);
                    let mut e = "Receiver must be a named type or reference to named type, got ".to_owned();
                    e.append(shown.as_str());
                    return Err(e);
                },
            },
        };
        if self.functions.contains_key(name.as_str()) {
            Ok(name)
        } else {
            let mut e = "Function ".to_owned();
            e.append(name.as_str());
            e.append(" not declared");
            Err(e)
        }
    }

    /// Instantiates the generic struct `struct_name` with the type arguments
    /// `type_args` under the name `Struct_T1_..._Tn`, from the texts of the
    /// arguments: its fields, with each type parameter replaced by its
    /// argument, become that name's layout, and the instantiation is
    /// remembered. An argument nested more than `MAX_GENERIC_DEPTH` generic
    /// levels deep is refused first. An instantiation made before is
    /// answered by its name with nothing changed. Errors otherwise: the
    /// struct is not registered, or the number of type arguments differs
    /// from its type parameters.
    pub fn instantiate_generic_struct(
        &mut self,
        struct_name: &str,
        type_args: &[Type],
    ) -> (r: Result<String, String>)
        ensures
            ({
                let args = crate::ast::type_views(type_args@);
                let key = (struct_name@, texts_of(args));
                let name = instance_name(struct_name@, texts_of(args));
                if too_deep_from(args, 0) is Some {
                    (r matches Err(e) && e@ == depth_message(args[too_deep_from(args, 0)->Some_0])) && *final(self) == *old(self)
                } else if old(self).struct_instances().contains(key) {
                    (r matches Ok(n) && n@ == name) && *final(self) == *old(self)
                } else if !old(self).structs().dom().contains(struct_name@) {
                    (r matches Err(e) && e@ == "Generic struct '"@ + struct_name@ + "' not found"@) && *final(self) == *old(self)
                } else if old(self).structs()[struct_name@].type_params.len() != type_args@.len() {
                    (r matches Err(e) && e@ == arity_message(
                        struct_name@,
                        old(self).structs()[struct_name@].type_params.len(),
                        type_args@.len(),
                    )) && *final(self) == *old(self)
                } else {
                    &&& r matches Ok(n) && n@ == name
                    &&& final(self).struct_layouts() == old(self).struct_layouts().insert(
                        name,
                        subst_layout(
                            old(self).structs()[struct_name@].fields,
                            struct_type_substitution(
                                old(self).structs()[struct_name@].type_params,
                                crate::ast::type_views(type_args@),
                            ),
                        ),
                    )
                    &&& final(self).struct_instances() == old(self).struct_instances().push(key)
                    &&& final(self).structs() == old(self).structs()
                }
            }),
            old(self).same_except(*final(self), Touched { structs: true, ..touch_nothing() }),
    {
        let ghost args = crate::ast::type_views(type_args@);
        proof {
            crate::ast::lemma_type_views_len(type_args@);
        }
        let mut d: usize = 0;
        while d < type_args.len()
            invariant
                args == crate::ast::type_views(type_args@),
                args.len() == type_args@.len(),
                forall|l: int| #![trigger args[l]] 0 <= l < args.len() ==> args[l] == type_args@[l]@,
                d <= args.len(),
                too_deep_from(args, 0) == too_deep_from(args, d as int),
            decreases args.len() - d,
        {
            let depth = crate::type_ops::generic_depth_of(&type_args[d]);
            assert(args[d as int] == type_args@[d as int]@);
            if depth > crate::type_ops::MAX_GENERIC_DEPTH {
                let mut e = "Generic type nesting too deep (depth ".to_owned();
                crate::mangle::push_decimal(&mut e, depth);
                e.append(", max 64): ");
                let text = crate::type_text::type_text(&type_args[d]);
                e.append(text.as_str());
                return Err(e);
            }
            d = d + 1;
        }
        assert(too_deep_from(args, 0) is None);
        let type_names = type_texts(type_args);
        let ghost key = (struct_name@, seqs_of(type_names@));
        let mut name = struct_name.to_owned();
        name.append("_");
        let joined_names = join_names(&type_names, "_");
        name.append(joined_names.as_str());
        let mut k: usize = 0;
        while k < self.generic_instances.len()
            invariant
                key == (struct_name@, seqs_of(type_names@)),
                name@ == instance_name(struct_name@, seqs_of(type_names@)),
                seqs_of(type_names@) == texts_of(crate::ast::type_views(type_args@)),
                too_deep_from(crate::ast::type_views(type_args@), 0) is None,
                *self == *old(self),
                k <= self.struct_instances().len(),
                self.struct_instances().len() == self.generic_instances@.len(),
                forall|j: int| 0 <= j < k ==> self.struct_instances()[j] != key,
            decreases self.generic_instances@.len() - k,
        {
            let entry = &self.generic_instances[k];
            assert(self.struct_instances()[k as int] == (entry.0@, seqs_of(entry.1@)));
            if str_eq(entry.0.as_str(), struct_name) && string_lists_equal(&entry.1, &type_names) {
                assert(self.struct_instances()[k as int] == key);
                return Ok(name);
            }
            k = k + 1;
        }
        assert(!self.struct_instances().contains(key));
        let tp_count = match self.struct_ast_defs.get(struct_name) {
            None => {
                let mut e = "Generic struct '".to_owned();
                e.append(struct_name);
                e.append("' not found");
                return Err(e);
            },
            Some(info) => info.type_params.len(),
        };
        if tp_count != type_args.len() {
            let mut e = "Struct '".to_owned();
            e.append(struct_name);
            e.append("' expects ");
            crate::mangle::push_decimal(&mut e, tp_count);
            e.append(" type parameters, got ");
            crate::mangle::push_decimal(&mut e, type_args.len());
            return Err(e);
        }
        let type_subst = self.struct_method_type_substitution(struct_name, type_args);
        let fields = match self.struct_ast_defs.get(struct_name) {
            Some(info) => subst_fields(&info.fields, &type_subst),
            None => Vec::new(),
        };
        let ghost layouts0 = self.struct_layouts();
        self.struct_defs.insert(name.clone(), fields);
        self.generic_instances.push((struct_name.to_owned(), clone_strings(&type_names)));
        assert(self.struct_instances() =~= old(self).struct_instances().push(key));
        assert(self.struct_layouts() =~= layouts0.insert(
            name@,
            subst_layout(
                old(self).structs()[struct_name@].fields,
                struct_type_substitution(old(self).structs()[struct_name@].type_params, crate::ast::type_views(type_args@)),
            ),
        ));
        Ok(name)
    }

    /// The field layout of a struct, if it has one.
    pub fn struct_fields(&self, struct_name: &str) -> (r: Option<&Vec<(String, Type)>>)
        ensures
            match r {
                Some(fs) => self.struct_layouts().dom().contains(struct_name@)
                    && layout_views(fs@) == self.struct_layouts()[struct_name@],
                None => !self.struct_layouts().dom().contains(struct_name@),
            },
    {
        self.struct_defs.get(struct_name)
    }

    /// The registered entry of a struct, if any.
    pub fn struct_info(&self, struct_name: &str) -> (r: Option<&StructInfo>)
        ensures
            match r {
                Some(info) => self.structs().dom().contains(struct_name@) && struct_view(*info) == self.structs()[struct_name@],
                None => !self.structs().dom().contains(struct_name@),
            },
    {
        self.struct_ast_defs.get(struct_name)
    }

    /// Registers the struct that stands for a closure: named after the
    /// closure with its first character in uppercase, with no fields, and
    /// implementing the trait of its capture mode through one method
    /// (`call`, `call_mut` or `call_once`) that takes the closure's
    /// parameters and return type and the struct by reference (mutable for
    /// a mutable capture). Only the struct entry changes; the closure struct
    /// gets no field layout.
    pub fn generate_closure_struct(
        &mut self,
        closure_name: &str,
        params: &[Param],
        return_type: &Option<Type>,
        capture_mode: &CaptureMode,
    ) -> (r: Result<(), String>)
        requires
            closure_name@.len() > 0,
            (closure_name@[0] as u32) < 128,
        ensures
            r is Ok,
            final(self).structs() == old(self).structs().insert(
                closure_struct_name(closure_name@),
                closure_struct_view(closure_name@, params@, opt_view(*return_type), *capture_mode),
            ),
            old(self).same_except(*final(self), Touched { structs: true, ..touch_nothing() }),
            final(self).struct_layouts() == old(self).struct_layouts(),
    {
        let (trait_name, method_name) = match capture_mode {
            CaptureMode::Immutable | CaptureMode::Infer => ("Callable", "call"),
            CaptureMode::Mutable => ("CallableMut", "call_mut"),
            CaptureMode::Once => ("CallableOnce", "call_once"),
        };
        let is_mutable = match capture_mode {
            CaptureMode::Mutable => true,
            _ => false,
        };
        let cs = crate::text::str_chars(closure_name);
        let mut struct_name = String::new();
        crate::text::push_char(&mut struct_name, crate::text::ascii_to_uppercase(cs[0]));
        let mut rest = String::new();
        let mut k: usize = 1;
        while k < cs.len()
            invariant
                cs@ == closure_name@,
                1 <= k <= cs@.len(),
                rest@ == cs@.subrange(1, k as int),
            decreases cs@.len() - k,
        {
            crate::text::push_char(&mut rest, cs[k]);
            assert(cs@.subrange(1, k + 1) =~= cs@.subrange(1, k as int).push(cs@[k as int]));
            k = k + 1;
        }
        assert(rest@ =~= closure_name@.drop_first());
        struct_name.append(rest.as_str());
        let mut param_types: Vec<Type> = Vec::new();
        let mut i: usize = 0;
        while i < params.len()
            invariant
                i <= params@.len(),
                crate::ast::type_views(param_types@) == params@.map_values(|p: Param| p.ty@).take(i as int),
            decreases params@.len() - i,
        {
            let ghost before = param_types@;
            let t = copy_type(&params[i].ty);
            param_types.push(t);
            assert(param_types@.drop_last() =~= before);
            assert(params@.map_values(|p: Param| p.ty@).take(i + 1)
                =~= params@.map_values(|p: Param| p.ty@).take(i as int).push(params@[i as int].ty@));
            i = i + 1;
        }
        assert(params@.map_values(|p: Param| p.ty@).take(params@.len() as int) =~= params@.map_values(|p: Param| p.ty@));
        proof {
            reveal_strlit("Callable");
            reveal_strlit("CallableMut");
            reveal_strlit("CallableOnce");
            reveal_strlit("call");
            reveal_strlit("call_mut");
            reveal_strlit("call_once");
        }
        assert(trait_name@ == closure_trait(*capture_mode).0 && method_name@ == closure_trait(*capture_mode).1);
        assert(is_mutable == (*capture_mode == CaptureMode::Mutable));
        assert(struct_name@ == closure_struct_name(closure_name@));
        let sn = struct_name.clone();
        assert(sn@ == struct_name@);
        let nt = Type::Named(sn);
        assert(nt@ == TypeView::Named(closure_struct_name(closure_name@)));
        let receiver = Type::Reference(Box::new(nt), is_mutable);
        assert(receiver@ == TypeView::Reference(Box::new(TypeView::Named(closure_struct_name(closure_name@))), is_mutable));
        let method = MethodInfo {
            name: method_name.to_owned(),
            receiver: Some(receiver),
            param_types,
            return_type: copy_opt_type(return_type),
        };
        let ghost mv = method_info_view(method);
        assert(mv == (MethodView {
            name: closure_trait(*capture_mode).1,
            receiver: Some(TypeView::Reference(Box::new(TypeView::Named(closure_struct_name(closure_name@))), *capture_mode == CaptureMode::Mutable)),
            param_types: params@.map_values(|p: Param| p.ty@),
            return_type: opt_view(*return_type),
        }));
        let mut methods: Vec<MethodInfo> = Vec::new();
        methods.push(method);
        assert(methods@ =~= seq![method]);
        let mut impl_traits: Vec<TraitRefInfo> = Vec::new();
        impl_traits.push(TraitRefInfo { name: trait_name.to_owned(), type_args: Vec::new() });
        let info = StructInfo {
            is_generic: false,
            type_params: Vec::new(),
            fields: Vec::new(),
            impl_traits,
            methods,
        };
        proof {
            let v = struct_view(info);
            let w = closure_struct_view(closure_name@, params@, opt_view(*return_type), *capture_mode);
            assert(v.type_params =~= w.type_params);
            assert(v.fields =~= w.fields);
            assert(crate::ast::type_views(Seq::<Type>::empty()) =~= Seq::<TypeView>::empty());
            assert(v.impl_traits =~= w.impl_traits);
            assert(method_info_view(info.methods@[0]) == w.methods[0]);
            assert(v.methods =~= w.methods);
        }
        self.struct_ast_defs.insert(struct_name, info);
        assert(self.structs() =~= old(self).structs().insert(
            closure_struct_name(closure_name@),
            closure_struct_view(closure_name@, params@, opt_view(*return_type), *capture_mode),
        ));
        Ok(())
    }

    /// The position of field `field_name` in the layout of `struct_name`
    /// (its first field of that name). Errors name the missing struct or
    /// field.
    pub fn struct_field_index(&self, struct_name: &str, field_name: &str) -> (r: Result<usize, String>)
        ensures
            match field_index_in(self.struct_layouts(), struct_name@, field_name@) {
                Ok(i) => r == Ok::<usize, String>(i as usize),
                Err(m) => r matches Err(e) && e@ == m,
            },
    {
        let fields = match self.struct_defs.get(struct_name) {
            Some(f) => f,
            None => {
                let mut e = "Struct '".to_owned();
                e.append(struct_name);
                e.append("' not found");
                return Err(e);
            },
        };
        let ghost names = layout_names(layout_views(fields@));
        assert(names == layout_names(self.struct_layouts()[struct_name@]));
        let mut i: usize = 0;
        while i < fields.len()
            invariant
                names == layout_names(layout_views(fields@)),
                names == layout_names(self.struct_layouts()[struct_name@]),
                self.struct_layouts().dom().contains(struct_name@),
                names.len() == fields@.len(),
                i <= fields@.len(),
                forall|j: int| 0 <= j < i ==> names[j] != field_name@,
            decreases fields@.len() - i,
        {
            assert(names[i as int] == fields@[i as int].0@);
            if str_eq(fields[i].0.as_str(), field_name) {
                proof { lemma_first_index_of(names, field_name@, i as int); }
                return Ok(i);
            }
            i = i + 1;
        }
        proof { lemma_first_index_of(names, field_name@, i as int); }
        let mut e = "Field '".to_owned();
        e.append(field_name);
        e.append("' not found in struct '");
        e.append(struct_name);
        e.append("'");
        Err(e)
    }

    /// Gives an instantiated struct (such as `Vec_i32`) a field layout, if it
    /// has none yet: the fields of its base struct (the name before the
    /// first `_`) with `type_subst` substituted in their types. Nothing
    /// changes when the layout exists or the base struct is not registered.
    pub fn register_instance_layout(&mut self, struct_name: &str, type_subst: &StrMap<Type>)
        ensures
            final(self).struct_layouts() == {
                let l = old(self).struct_layouts();
                let st = old(self).structs();
                let base = base_struct_name(struct_name@);
                if !l.dom().contains(struct_name@) && st.dom().contains(base) {
                    l.insert(struct_name@, subst_layout(st[base].fields, types_map(type_subst.view())))
                } else {
                    l
                }
            },
            final(self).structs() == old(self).structs(),
            old(self).same_except(*final(self), Touched { structs: true, ..touch_nothing() }),
    {
        if self.struct_defs.contains_key(struct_name) {
            return;
        }
        let base = base_name_of(struct_name);
        let ghost m = types_map(type_subst.view());
        let fields: Vec<(String, Type)> = match self.struct_ast_defs.get(base.as_str()) {
            None => {
                return;
            },
            Some(info) => subst_fields(&info.fields, type_subst),
        };
        self.struct_defs.insert(struct_name.to_owned(), fields);
        assert(self.struct_layouts() =~= old(self).struct_layouts().insert(
            struct_name@,
            subst_layout(old(self).structs()[base@].fields, m),
        ));
    }

    /// The struct-level part of instantiating a method of `struct_name` with
    /// the struct's type arguments `struct_type_args`: see
    /// `struct_type_substitution`; nothing when the struct is not
    /// registered.
    pub fn struct_method_type_substitution(&self, struct_name: &str, struct_type_args: &[Type]) -> (r: StrMap<Type>)
        ensures
            types_map(r.view()) == if self.structs().dom().contains(struct_name@) {
                struct_type_substitution(self.structs()[struct_name@].type_params, crate::ast::type_views(struct_type_args@))
            } else {
                Map::<Seq<char>, TypeView>::empty()
            },
    {
        proof {
            crate::ast::lemma_type_views_len(struct_type_args@);
        }
        let ghost args = crate::ast::type_views(struct_type_args@);
        let mut subst: StrMap<Type> = StrMap::new();
        assert(types_map(subst.view()) =~= Map::<Seq<char>, TypeView>::empty());
        let info = match self.struct_ast_defs.get(struct_name) {
            Some(info) => info,
            None => {
                return subst;
            },
        };
        let ghost tps = seqs_of(info.type_params@);
        assert(tps == self.structs()[struct_name@].type_params);
        let mut i: usize = 0;
        while i < info.type_params.len()
            invariant
                tps == seqs_of(info.type_params@),
                args == crate::ast::type_views(struct_type_args@),
                args.len() == struct_type_args@.len(),
                forall|k: int| #![trigger args[k]] 0 <= k < args.len() ==> args[k] == struct_type_args@[k]@,
                i <= tps.len(),
                struct_type_substitution(tps.take(i as int), args) == types_map(subst.view()),
            decreases tps.len() - i,
        {
            proof {
                assert(tps.take(i + 1).drop_last() =~= tps.take(i as int));
                assert(tps.take(i + 1).last() == info.type_params@[i as int]@);
            }
            let ghost before = types_map(subst.view());
            if struct_type_args.len() == 0 {
                subst.insert(info.type_params[i].clone(), Type::I32);
                assert(types_map(subst.view()) =~= before.insert(tps[i as int], TypeView::I32));
            } else if i < struct_type_args.len() {
                assert(args[i as int] == struct_type_args@[i as int]@);
                subst.insert(info.type_params[i].clone(), copy_type(&struct_type_args[i]));
                assert(types_map(subst.view()) =~= before.insert(tps[i as int], args[i as int]));
            }
            i = i + 1;
        }
        assert(tps.take(i as int) =~= tps);
        subst
    }
}

/// The struct a method's receiver type names: the type's own name for a
/// named or generic type, or for a reference to one, and the built-in
/// container's name for `Vec`, `Box`, `Option` and `Result`, directly or
/// behind a reference.
pub open spec fn receiver_base_struct(t: TypeView) -> Option<Seq<char>> {
    match t {
        TypeView::Named(n) => Some(n),
        TypeView::Generic { name, .. } => Some(name),
        TypeView::Reference(inner, _) => match *inner {
            TypeView::Named(n) => Some(n),
            TypeView::Generic { name, .. } => Some(name),
            TypeView::Vec(_) => Some("Vec"@),
            TypeView::Box(_) => Some("Box"@),
            TypeView::Option(_) => Some("Option"@),
            TypeView::Result(_, _) => Some("Result"@),
            _ => None,
        },
        TypeView::Vec(_) => Some("Vec"@),
        TypeView::Box(_) => Some("Box"@),
        TypeView::Option(_) => Some("Option"@),
        TypeView::Result(_, _) => Some("Result"@),
        _ => None,
    }
}

fn receiver_struct_name(ty: &Type) -> (r: Option<&str>)
    ensures
        match receiver_base_struct(ty@) {
            Some(n) => r matches Some(s) && s@ == n,
            None => r is None,
        },
{
    proof {
        reveal_strlit("Vec");
        reveal_strlit("Box");
        reveal_strlit("Option");
        reveal_strlit("Result");
    }
    match ty {
        Type::Named(n) => Some(n.as_str()),
        Type::Generic { name, .. } => Some(name.as_str()),
        Type::Reference(inner, mu) => {
            let ghost iv = (**inner)@;
            assert(ty@ == TypeView::Reference(Box::new(iv), *mu));
            match &**inner {
                Type::Named(n) => Some(n.as_str()),
                Type::Generic { name, .. } => Some(name.as_str()),
                Type::Vec(_) => Some("Vec"),
                Type::Box(_) => Some("Box"),
                Type::Option(_) => Some("Option"),
                Type::Result(_, _) => Some("Result"),
                _ => {
                    assert(!(iv is Named || iv is Generic || iv is Vec || iv is Box || iv is Option || iv is Result));
                    None
                },
            }
        },
        Type::Vec(_) => Some("Vec"),
        Type::Box(_) => Some("Box"),
        Type::Option(_) => Some("Option"),
        Type::Result(_, _) => Some("Result"),
        _ => None,
    }
}

/// `name` qualified by its type: kept as it is when it already starts with
/// `ty_`, else `ty_` followed by the name (operator names encoded when
/// `encode` is set).
pub open spec fn qualified_name(ty: Seq<char>, name: Seq<char>, encode: bool) -> Seq<char> {
    if has_prefix(name, ty + "_"@) {
        name
    } else {
        ty + "_"@ + if encode { encoded_operator(name) } else { name }
    }
}

/// The start of the message for a receiver whose type names no struct.
pub open spec fn receiver_type_error_prefix() -> Seq<char> {
    "Receiver must be a named type or reference to named type, got "@
}

/// The message for a receiver whose type names no struct: the type is shown
/// by its text, without the reference around it.
pub open spec fn receiver_type_error(t: TypeView) -> Seq<char> {
    receiver_type_error_prefix() + crate::type_text::type_text_spec(match t {
        TypeView::Reference(inner, _) => *inner,
        _ => t,
    })
}

fn receiver_text(ty: &Type) -> (r: String)
    ensures
        r@ == crate::type_text::type_text_spec(match ty@ {
            TypeView::Reference(inner, _) => *inner,
            _ => ty@,
        }),
{
    match ty {
        Type::Reference(inner, m) => {
            assert(ty@ == TypeView::Reference(Box::new((**inner)@), *m));
            crate::type_text::type_text(inner)
        },
        other => crate::type_text::type_text(other),
    }
}

fn qualify(ty: &str, name: &str, encode: bool) -> (r: String)
    ensures
        r@ == qualified_name(ty@, name@, encode),
{
    let mut prefix = ty.to_owned();
    prefix.append("_");
    if starts_with(name, prefix.as_str()) {
        return name.to_owned();
    }
    if encode {
        let e = encode_operator_name(name);
        prefix.append(e.as_str());
    } else {
        prefix.append(name);
    }
    prefix
}

/// The name a function is declared under in the LLVM module: a static
/// method is qualified by its type (operator names encoded), a method by
/// the struct its receiver names (see `receiver_base_struct`), and a free
/// function keeps its name. A name that already carries the qualification
/// is kept. A static method without its type, or a receiver whose type
/// names no struct, is an error.
pub fn declared_function_name(func: &Function) -> (r: Result<String, String>)
    ensures
        func.is_static ==> match func.static_type {
            None => r matches Err(e) && e@ == "Static method missing type name"@,
            Some(t) => r matches Ok(n) && n@ == qualified_name(t@, func.name@, true),
        },
        !func.is_static ==> match func.receiver {
            None => r matches Ok(n) && n@ == func.name@,
            Some(rc) => match receiver_base_struct(rc.ty@) {
                Some(t) => r matches Ok(n) && n@ == qualified_name(t, func.name@, false),
                None => r matches Err(e) && e@ == receiver_type_error(rc.ty@),
            },
        },
{
    if func.is_static {
        return match &func.static_type {
            None => Err("Static method missing type name".to_owned()),
            Some(t) => Ok(qualify(t.as_str(), func.name.as_str(), true)),
        };
    }
    let rc = match &func.receiver {
        None => {
            return Ok(func.name.clone());
        },
        Some(rc) => rc,
    };
    match receiver_struct_name(&rc.ty) {
        Some(t) => Ok(qualify(t, func.name.as_str(), false)),
        None => {
            let shown = receiver_text(&rc.ty);
            let mut e = "Receiver must be a named type or reference to named type, got ".to_owned();
            e.append(shown.as_str());
            Err(e)
        },
    }
}

/// The trait a closure implements and its method, by capture mode.
pub open spec fn closure_trait(mode: CaptureMode) -> (Seq<char>, Seq<char>) {
    match mode {
        CaptureMode::Immutable | CaptureMode::Infer => ("Callable"@, "call"@),
        CaptureMode::Mutable => ("CallableMut"@, "call_mut"@),
        CaptureMode::Once => ("CallableOnce"@, "call_once"@),
    }
}

/// The struct that stands for a closure: its name with the first
/// character (an ASCII one) in uppercase.
pub open spec fn closure_struct_name(closure: Seq<char>) -> Seq<char> {
    seq![crate::text::ascii_uppercase(closure[0])] + closure.drop_first()
}

/// The entry of a closure's struct.
pub open spec fn closure_struct_view(
    closure: Seq<char>,
    params: Seq<Param>,
    return_type: Option<TypeView>,
    mode: CaptureMode,
) -> StructView {
    let name = closure_struct_name(closure);
    StructView {
        is_generic: false,
        type_params: Seq::empty(),
        fields: Seq::empty(),
        impl_traits: seq![(closure_trait(mode).0, Seq::<TypeView>::empty())],
        methods: seq![MethodView {
            name: closure_trait(mode).1,
            receiver: Some(TypeView::Reference(Box::new(TypeView::Named(name)), mode == CaptureMode::Mutable)),
            param_types: params.map_values(|p: Param| p.ty@),
            return_type,
        }],
    }
}

/// The name of a struct instantiated with type arguments of the given
/// names: `Struct_T1_..._Tn`.
pub open spec fn instance_name(struct_name: Seq<char>, type_names: Seq<Seq<char>>) -> Seq<char> {
    struct_name + "_"@ + crate::struct_deps::joined(type_names, "_"@)
}

/// The texts of types, in order.
pub open spec fn texts_of(ts: Seq<TypeView>) -> Seq<Seq<char>> {
    ts.map_values(|t: TypeView| crate::type_text::type_text_spec(t))
}

/// The position of the first type of `ts` from `k` on that nests generics
/// more than `MAX_GENERIC_DEPTH` levels deep.
pub open spec fn too_deep_from(ts: Seq<TypeView>, k: int) -> Option<int>
    decreases ts.len() - k,
{
    if k < 0 || k >= ts.len() {
        None
    } else if crate::type_ops::generic_depth(ts[k]) > crate::type_ops::MAX_GENERIC_DEPTH {
        Some(k)
    } else {
        too_deep_from(ts, k + 1)
    }
}

/// The message for a type argument nested too deeply.
pub open spec fn depth_message(t: TypeView) -> Seq<char> {
    "Generic type nesting too deep (depth "@ + decimal(crate::type_ops::capped(crate::type_ops::generic_depth(t)) as nat)
        + ", max 64): "@ + crate::type_text::type_text_spec(t)
}

fn type_texts(ts: &[Type]) -> (r: Vec<String>)
    ensures
        seqs_of(r@) == texts_of(crate::ast::type_views(ts@)),
{
    proof {
        crate::ast::lemma_type_views_len(ts@);
    }
    let ghost args = crate::ast::type_views(ts@);
    let mut r: Vec<String> = Vec::new();
    let mut i: usize = 0;
    while i < ts.len()
        invariant
            args == crate::ast::type_views(ts@),
            args.len() == ts@.len(),
            forall|l: int| #![trigger args[l]] 0 <= l < args.len() ==> args[l] == ts@[l]@,
            i <= ts@.len(),
            seqs_of(r@) == texts_of(args).take(i as int),
        decreases ts@.len() - i,
    {
        let x = crate::type_text::type_text(&ts[i]);
        let ghost before = r@;
        r.push(x);
        assert(args[i as int] == ts@[i as int]@);
        assert(r@ =~= before.push(x));
        assert(seqs_of(r@) =~= seqs_of(before).push(x@));
        assert(texts_of(args).take(i + 1) =~= texts_of(args).take(i as int).push(crate::type_text::type_text_spec(args[i as int])));
        i = i + 1;
    }
    assert(texts_of(args).take(ts@.len() as int) =~= texts_of(args));
    r
}

/// The message for a struct given the wrong number of type arguments.
pub open spec fn arity_message(struct_name: Seq<char>, expected: nat, got: nat) -> Seq<char> {
    "Struct '"@ + struct_name + "' expects "@ + decimal(expected) + " type parameters, got "@ + decimal(got)
}

/// The field names of a layout, in order.
pub open spec fn layout_names(fields: Seq<(Seq<char>, TypeView)>) -> Seq<Seq<char>> {
    fields.map_values(|f: (Seq<char>, TypeView)| f.0)
}

/// The position of field `f` in the layout of struct `s`, or the message
/// for a struct without a layout or a field it lacks.
pub open spec fn field_index_in(layouts: Map<Seq<char>, Seq<(Seq<char>, TypeView)>>, s: Seq<char>, f: Seq<char>) -> Result<nat, Seq<char>> {
    if !layouts.dom().contains(s) {
        Err("Struct '"@ + s + "' not found"@)
    } else {
        match first_index_of(layout_names(layouts[s]), f) {
            Some(i) => Ok(i),
            None => Err("Field '"@ + f + "' not found in struct '"@ + s + "'"@),
        }
    }
}

/// The base name of an instantiated struct name: what comes before its
/// first `_` (the whole name when it has none).
pub open spec fn base_struct_name(s: Seq<char>) -> Seq<char>
    decreases s.len(),
{
    if s.len() == 0 {
        s
    } else if s[0] == '_' {
        Seq::empty()
    } else {
        seq![s[0]] + base_struct_name(s.drop_first())
    }
}

/// A field layout with `m` substituted in each field's type.
pub open spec fn subst_layout(fields: Seq<(Seq<char>, TypeView)>, m: Map<Seq<char>, TypeView>) -> Seq<(Seq<char>, TypeView)> {
    fields.map_values(|f: (Seq<char>, TypeView)| (f.0, crate::generics::subst_type(f.1, m)))
}

fn base_name_of(name: &str) -> (r: String)
    ensures
        r@ == base_struct_name(name@),
{
    let cs = crate::text::str_chars(name);
    let mut out = String::new();
    let mut i: usize = 0;
    assert(out@ =~= Seq::<char>::empty());
    assert(name@.subrange(0, name@.len() as int) =~= name@);
    assert(Seq::<char>::empty() + base_struct_name(name@) =~= base_struct_name(name@));
    while i < cs.len()
        invariant
            cs@ == name@,
            i <= cs@.len(),
            base_struct_name(name@) == out@ + base_struct_name(name@.subrange(i as int, name@.len() as int)),
        decreases cs@.len() - i,
    {
        let c = cs[i];
        let ghost rest = name@.subrange(i as int, name@.len() as int);
        assert(rest[0] == c);
        if c == '_' {
            assert(base_struct_name(rest) == Seq::<char>::empty());
            assert(out@ + Seq::<char>::empty() =~= out@);
            return out;
        }
        let ghost next = name@.subrange(i + 1, name@.len() as int);
        assert(rest.drop_first() =~= next);
        let ghost out_old = out@;
        crate::text::push_char(&mut out, c);
        assert(base_struct_name(rest) == seq![c] + base_struct_name(next));
        assert(out_old + (seq![c] + base_struct_name(next)) =~= out@ + base_struct_name(next));
        i = i + 1;
    }
    assert(out@ + base_struct_name(name@.subrange(i as int, name@.len() as int)) =~= out@);
    out
}

/// The struct-level type substitution for instantiating a method of a
/// struct with type parameters `tps` and type arguments `args`: each
/// parameter stands for the argument at its position (a parameter without
/// one stays unmapped), and with no arguments at all every parameter
/// defaults to `i32`. A repeated name takes its last binding.
pub open spec fn struct_type_substitution(tps: Seq<Seq<char>>, args: Seq<TypeView>) -> Map<Seq<char>, TypeView>
    decreases tps.len(),
{
    if tps.len() == 0 {
        Map::empty()
    } else {
        let m = struct_type_substitution(tps.drop_last(), args);
        let i = tps.len() - 1;
        if args.len() == 0 {
            m.insert(tps.last(), TypeView::I32)
        } else if i < args.len() {
            m.insert(tps.last(), args[i])
        } else {
            m
        }
    }
}

/// The operator trait and method of a binary operator; logical operators
/// have none (empty names).
pub open spec fn operator_trait_of(op: BinaryOp) -> (Seq<char>, Seq<char>) {
    match op {
        BinaryOp::Add => ("Add"@, "add"@),
        BinaryOp::Sub => ("Sub"@, "sub"@),
        BinaryOp::Mul => ("Mul"@, "mul"@),
        BinaryOp::Div => ("Div"@, "div"@),
        BinaryOp::Mod => ("Rem"@, "rem"@),
        BinaryOp::Eq => ("Eq"@, "eq"@),
        BinaryOp::NotEq => ("Ne"@, "ne"@),
        BinaryOp::Lt => ("Lt"@, "lt"@),
        BinaryOp::LtEq => ("Le"@, "le"@),
        BinaryOp::Gt => ("Gt"@, "gt"@),
        BinaryOp::GtEq => ("Ge"@, "ge"@),
        BinaryOp::BitAnd => ("BitAnd"@, "bitand"@),
        BinaryOp::BitOr => ("BitOr"@, "bitor"@),
        BinaryOp::BitXor => ("BitXor"@, "bitxor"@),
        BinaryOp::Shl => ("Shl"@, "shl"@),
        BinaryOp::Shr => ("Shr"@, "shr"@),
        _ => (""@, ""@),
    }
}

/// The operator trait and method name of a binary operator (see
/// `operator_trait_of`).
pub fn binary_op_to_trait(op: &BinaryOp) -> (r: (&'static str, &'static str))
    ensures
        (r.0@, r.1@) == operator_trait_of(*op),
{
    match op {
        BinaryOp::Add => ("Add", "add"),
        BinaryOp::Sub => ("Sub", "sub"),
        BinaryOp::Mul => ("Mul", "mul"),
        BinaryOp::Div => ("Div", "div"),
        BinaryOp::Mod => ("Rem", "rem"),
        BinaryOp::Eq => ("Eq", "eq"),
        BinaryOp::NotEq => ("Ne", "ne"),
        BinaryOp::Lt => ("Lt", "lt"),
        BinaryOp::LtEq => ("Le", "le"),
        BinaryOp::Gt => ("Gt", "gt"),
        BinaryOp::GtEq => ("Ge", "ge"),
        BinaryOp::BitAnd => ("BitAnd", "bitand"),
        BinaryOp::BitOr => ("BitOr", "bitor"),
        BinaryOp::BitXor => ("BitXor", "bitxor"),
        BinaryOp::Shl => ("Shl", "shl"),
        BinaryOp::Shr => ("Shr", "shr"),
        _ => ("", ""),
    }
}

} // verus!

verus! {

/// The name under which a trait implementation's method is declared:
/// `Type_Trait_method`.
pub open spec fn trait_impl_method_name(ty: Seq<char>, tr: Seq<char>, method: Seq<char>) -> Seq<char> {
    ty + "_"@ + tr + "_"@ + method
}

pub open spec fn trait_impl_named_type_prefix() -> Seq<char> {
    "Trait implementations currently only support named types, got: "@
}

impl ASTCodeGen {
    /// Registers `impl Trait for Type`: records the implementation with its
    /// method names and declares each method under `Type_Trait_method`.
    /// Only named types can implement traits.
    pub fn register_trait_impl(&mut self, trait_impl: &TraitImpl) -> (r: Result<(), String>)
        ensures
            match trait_impl.for_type@ {
                TypeView::Named(ty) => r is Ok
                    && final(self).trait_impl_methods() == record_impl(
                        old(self).trait_impl_methods(), trait_impl.trait_name@, ty, method_names(trait_impl.methods@))
                    && final(self).function_names() == old(self).function_names().union(
                        Set::new(|n: Seq<char>| exists|i: int| 0 <= i < trait_impl.methods@.len()
                            && n == trait_impl_method_name(ty, trait_impl.trait_name@, #[trigger] trait_impl.methods@[i].name@)))
                    && final(self).base_to_mangled() == old(self).base_to_mangled()
                    && final(self).mangled_byte_len() == old(self).mangled_byte_len(),
                _ => (r matches Err(e) && e@ == trait_impl_named_type_prefix()
                    + crate::type_text::type_text_spec(trait_impl.for_type@))
                    && *final(self) == *old(self),
            },
            old(self).same_except(*final(self), Touched { impls: true, functions: true, ..touch_nothing() }),
    {
        let ty_name = match &trait_impl.for_type {
            Type::Named(name) => name,
            _ => {
                let text = crate::type_text::type_text(&trait_impl.for_type);
                return Err(concat_str("Trait implementations currently only support named types, got: ", text.as_str()));
            }
        };
        let names = function_name_list(&trait_impl.methods);
        self.record_trait_impl(&trait_impl.trait_name, ty_name, names);
        let ghost ms = trait_impl.methods@;
        let ghost fns0 = self.function_names();
        let mut i: usize = 0;
        while i < trait_impl.methods.len()
            invariant
                i <= ms.len(),
                ms == trait_impl.methods@,
                self.function_names() == fns0.union(Set::new(|n: Seq<char>| exists|j: int| 0 <= j < i
                    && n == trait_impl_method_name(ty_name@, trait_impl.trait_name@, #[trigger] ms[j].name@))),
                old(self).same_except(*self, Touched { impls: true, functions: true, ..touch_nothing() }),
                self.base_to_mangled() == old(self).base_to_mangled(),
                self.mangled_byte_len() == old(self).mangled_byte_len(),
                self.trait_impl_methods() == record_impl(
                    old(self).trait_impl_methods(), trait_impl.trait_name@, ty_name@, method_names(trait_impl.methods@)),
            decreases ms.len() - i,
        {
            let mangled = concat_str(
                concat_str(concat_str(concat_str(ty_name.as_str(), "_").as_str(), trait_impl.trait_name.as_str()).as_str(), "_").as_str(),
                trait_impl.methods[i].name.as_str(),
            );
            let ghost mv = mangled@;
            self.functions.insert(mangled, ());
            proof {
                assert(mv =~= trait_impl_method_name(ty_name@, trait_impl.trait_name@, ms[i as int].name@));
                assert(self.function_names() =~= fns0.union(Set::new(|n: Seq<char>| exists|j: int| 0 <= j < i + 1
                    && n == trait_impl_method_name(ty_name@, trait_impl.trait_name@, #[trigger] ms[j].name@))));
            }
            i = i + 1;
        }
        proof {
            assert(fns0 == old(self).function_names());
        }
        Ok(())
    }

    /// Whether registering `mangled` for `base` also registers it under the
    /// base name: when the two differ, only if the base name has no mangled
    /// name yet or `mangled` is shorter (in bytes) than the one it has.
    pub open spec fn takes_base_name(self, base: Seq<char>, mangled: Seq<char>, mangled_bytes: usize) -> bool {
        mangled == base || !self.base_to_mangled().dom().contains(base) || mangled_bytes < self.mangled_byte_len()[base]
    }

    /// Registers a function under its mangled name, and under its base name
    /// too when `takes_base_name` says so, so that it is found both for
    /// typed calls and as a function value.
    pub fn register_function(&mut self, base_name: &str, mangled_name: &str)
        ensures
            old(self).takes_base_name(base_name@, mangled_name@, mangled_name.len()) ==> {
                &&& final(self).function_names() == old(self).function_names().insert(mangled_name@).insert(base_name@)
                &&& final(self).base_to_mangled() == old(self).base_to_mangled().insert(base_name@, mangled_name@)
                &&& final(self).mangled_byte_len() == old(self).mangled_byte_len().insert(base_name@, mangled_name.len() as nat)
            },
            !old(self).takes_base_name(base_name@, mangled_name@, mangled_name.len()) ==> {
                &&& final(self).function_names() == old(self).function_names().insert(mangled_name@)
                &&& final(self).base_to_mangled() == old(self).base_to_mangled()
                &&& final(self).mangled_byte_len() == old(self).mangled_byte_len()
            },
            old(self).same_except(*final(self), touch_functions()),
    {
        self.functions.insert(mangled_name.to_owned(), ());
        let mlen = mangled_name.len();
        let should_insert_base = if !str_eq(mangled_name, base_name) {
            match self.function_name_to_mangled.get(base_name) {
                Some(existing) => mlen < existing.1,
                None => true,
            }
        } else {
            true
        };
        if should_insert_base {
            self.functions.insert(base_name.to_owned(), ());
            self.function_name_to_mangled.insert(base_name.to_owned(), (mangled_name.to_owned(), mlen));
            proof {
                assert(self.base_to_mangled() =~= old(self).base_to_mangled().insert(base_name@, mangled_name@));
                assert(self.mangled_byte_len() =~= old(self).mangled_byte_len().insert(base_name@, mangled_name.len() as nat));
            }
        }
    }

    // -----------------------------------------------------------------------
    // Scopes and cleanup
    // -----------------------------------------------------------------------

    /// Opens a new cleanup scope.
    pub fn push_scope(&mut self)
        ensures
            final(self).scopes() == old(self).scopes().push(Seq::empty()),
            final(self).deferred() == old(self).deferred(),
            old(self).same_except(*final(self), touch_scopes()),
    {
        self.scope_stack.push(Vec::new());
        proof {
            assert(scope_view(Seq::<CleanupVar>::empty()) =~= Seq::empty());
            assert(self.scopes() =~= old(self).scopes().push(Seq::empty()));
        }
    }

    /// Registers a variable for cleanup in the innermost scope, when its
    /// type has a destructor and a scope is open.
    pub fn register_for_cleanup(&mut self, var_name: String, ty_name: String)
        ensures
            old(self).destructors().dom().contains(ty_name@) && old(self).scopes().len() > 0 ==>
                final(self).scopes() == old(self).scopes().update(
                    old(self).scopes().len() - 1,
                    old(self).scopes().last().push((var_name@, ty_name@)),
                ),
            !(old(self).destructors().dom().contains(ty_name@) && old(self).scopes().len() > 0) ==>
                final(self).scopes() == old(self).scopes(),
            final(self).deferred() == old(self).deferred(),
            old(self).same_except(*final(self), touch_scopes()),
    {
        if self.destructor_impls.contains_key(ty_name.as_str()) {
            match self.scope_stack.pop() {
                Some(mut current) => {
                    let ghost vv = (var_name@, ty_name@);
                    let ghost before = current@;
                    assert(before == old(self).scope_stack@.last()@);
                    current.push(CleanupVar { var_name, ty_name });
                    assert(scope_view(current@) =~= scope_view(before).push(vv));
                    self.scope_stack.push(current);
                    assert(self.scopes() =~= old(self).scopes().update(
                        old(self).scopes().len() - 1,
                        old(self).scopes().last().push(vv),
                    ));
                }
                None => {}
            }
        }
    }

    /// Closes the innermost scope, giving the cleanup calls to emit for it:
    /// its variables whose types have a destructor, last registered first.
    /// With no scope open, nothing happens.
    pub fn pop_scope(&mut self) -> (r: Vec<CleanupAction>)
        ensures
            old(self).scopes().len() > 0 ==> final(self).scopes() == old(self).scopes().drop_last()
                && actions_view(r@) == cleanup_actions(old(self).scopes().last(), old(self).destructors()),
            old(self).scopes().len() == 0 ==> final(self).scopes() == old(self).scopes() && r@.len() == 0,
            final(self).deferred() == old(self).deferred(),
            old(self).same_except(*final(self), touch_scopes()),
    {
        let mut actions: Vec<CleanupAction> = Vec::new();
        match self.scope_stack.pop() {
            None => {
                return actions;
            }
            Some(scope_vars) => {
                proof {
                    assert(self.scopes() =~= old(self).scopes().drop_last());
                }
                let ghost sv = scope_view(scope_vars@);
                assert(sv == old(self).scopes().last());
                let mut i: usize = scope_vars.len();
                assert(sv.take(i as int) =~= sv);
                assert(actions_view(actions@) + cleanup_actions(sv, self.destructors())
                    =~= cleanup_actions(sv, self.destructors()));
                while i > 0
                    invariant
                        i <= scope_vars@.len(),
                        sv == scope_view(scope_vars@),
                        cleanup_actions(sv, self.destructors()) == actions_view(actions@) + cleanup_actions(sv.take(i as int), self.destructors()),
                    decreases i,
                {
                    let v = &scope_vars[i - 1];
                    let ghost before = actions@;
                    assert(sv.take(i as int).drop_last() =~= sv.take(i - 1));
                    assert(sv.take(i as int).last() == sv[i - 1]);
                    match self.destructor_impls.get(v.ty_name.as_str()) {
                        Some(f) => {
                            let a = CleanupAction { var_name: v.var_name.clone(), ty_name: v.ty_name.clone(), cleanup_fn: f.clone() };
                            actions.push(a);
                            assert(actions_view(actions@) =~= actions_view(before).push((a.var_name@, a.ty_name@, a.cleanup_fn@)));
                            assert(actions_view(actions@) + cleanup_actions(sv.take(i - 1), self.destructors())
                                =~= actions_view(before) + cleanup_actions(sv.take(i as int), self.destructors()));
                        }
                        None => {
                            assert(cleanup_actions(sv.take(i as int), self.destructors()) == cleanup_actions(sv.take(i - 1), self.destructors()));
                        }
                    }
                    i = i - 1;
                }
                assert(sv.take(0) =~= Seq::<(Seq<char>, Seq<char>)>::empty());
                assert(actions_view(actions@) + Seq::empty() =~= actions_view(actions@));
                assert(sv.take(sv.len() as int) =~= sv);
                actions
            }
        }
    }

    /// Forgets the deferred statements (at a function boundary).
    pub fn clear_deferred_statements(&mut self)
        ensures
            final(self).deferred() == Seq::<Statement>::empty(),
            final(self).scopes() == old(self).scopes(),
            old(self).same_except(*final(self), touch_scopes()),
    {
        self.deferred_statements.clear();
    }

    /// Adds a statement to run when the function exits.
    pub fn defer_statement(&mut self, stmt: Statement)
        ensures
            final(self).deferred() == old(self).deferred().push(stmt),
            final(self).scopes() == old(self).scopes(),
            old(self).same_except(*final(self), touch_scopes()),
    {
        self.deferred_statements.push(stmt);
    }

    /// The deferred statements in the order they run: last deferred first.
    pub fn deferred_statements_in_exit_order(&self) -> (r: Vec<&Statement>)
        ensures
            r@.len() == self.deferred().len(),
            forall|i: int| 0 <= i < r@.len() ==> *#[trigger] r@[i] == self.deferred()[self.deferred().len() - 1 - i],
    {
        let mut r: Vec<&Statement> = Vec::new();
        let mut i: usize = self.deferred_statements.len();
        while i > 0
            invariant
                i <= self.deferred_statements@.len(),
                r@.len() == self.deferred_statements@.len() - i,
                forall|j: int| 0 <= j < r@.len() ==> *#[trigger] r@[j] == self.deferred_statements@[self.deferred_statements@.len() - 1 - j],
            decreases i,
        {
            r.push(&self.deferred_statements[i - 1]);
            i = i - 1;
        }
        r
    }
}

/// The cleanup calls for a scope's variables: those whose types have a
/// destructor, last registered first, each with its cleanup function.
pub open spec fn cleanup_actions(
    vars: Seq<(Seq<char>, Seq<char>)>,
    dtors: Map<Seq<char>, Seq<char>>,
) -> Seq<(Seq<char>, Seq<char>, Seq<char>)>
    decreases vars.len(),
{
    if vars.len() == 0 {
        Seq::empty()
    } else {
        let v = vars.last();
        let rest = cleanup_actions(vars.drop_last(), dtors);
        if dtors.dom().contains(v.1) {
            seq![(v.0, v.1, dtors[v.1])] + rest
        } else {
            rest
        }
    }
}

/// The character sequences of cleanup actions.
pub open spec fn actions_view(a: Seq<CleanupAction>) -> Seq<(Seq<char>, Seq<char>, Seq<char>)> {
    a.map_values(|c: CleanupAction| (c.var_name@, c.ty_name@, c.cleanup_fn@))
}


// ---------------------------------------------------------------------------
// Struct dependencies
// ---------------------------------------------------------------------------

/// The registered struct a field of type `t` holds: a struct named directly
/// or as a generic application, or one inside an array or behind a
/// reference.
pub open spec fn struct_dependency(t: TypeView, known: Set<Seq<char>>) -> Option<Seq<char>>
    decreases t,
{
    match t {
        TypeView::Named(n) => if known.contains(n) { Some(n) } else { None },
        TypeView::Generic { name, .. } => if known.contains(name) { Some(name) } else { None },
        TypeView::Array(inner, _) => struct_dependency(*inner, known),
        TypeView::Reference(inner, _) => struct_dependency(*inner, known),
        _ => None,
    }
}

/// The structs a list of fields depends on, in field order.
pub open spec fn field_dependencies(fields: Seq<crate::ast::Field>, known: Set<Seq<char>>) -> Seq<Seq<char>>
    decreases fields.len(),
{
    if fields.len() == 0 {
        Seq::empty()
    } else {
        let rest = field_dependencies(fields.drop_last(), known);
        match struct_dependency(fields.last().ty@, known) {
            Some(n) => rest.push(n),
            None => rest,
        }
    }
}

/// The dependency graph of a list of struct declarations: each struct's
/// name with the structs its fields depend on (a later declaration of the
/// same name replaces an earlier one).
pub open spec fn dependency_graph(structs: Seq<Struct>, known: Set<Seq<char>>) -> Map<Seq<char>, Seq<Seq<char>>>
    decreases structs.len(),
{
    if structs.len() == 0 {
        Map::empty()
    } else {
        dependency_graph(structs.drop_last(), known).insert(
            structs.last().name@,
            field_dependencies(structs.last().fields@, known),
        )
    }
}

impl ASTCodeGen {
    /// The registered struct that a field of type `ty` depends on, if any.
    pub fn extract_struct_dependency(&self, ty: &Type) -> (r: Option<String>)
        ensures
            match r {
                Some(n) => struct_dependency(ty@, self.structs().dom()) == Some(n@),
                None => struct_dependency(ty@, self.structs().dom()) is None,
            },
        decreases ty,
    {
        match ty {
            Type::Named(name) => {
                if self.struct_ast_defs.contains_key(name.as_str()) {
                    Some(name.clone())
                } else {
                    None
                }
            }
            Type::Generic { name, .. } => {
                if self.struct_ast_defs.contains_key(name.as_str()) {
                    Some(name.clone())
                } else {
                    None
                }
            }
            Type::Array(inner, _) => self.extract_struct_dependency(inner),
            Type::Reference(inner, _) => self.extract_struct_dependency(inner),
            _ => None,
        }
    }

    /// Checks that no struct among `structs` depends on itself through its
    /// fields: succeeds exactly when their dependency graph has no cycle,
    /// and otherwise names the path that closes one.
    pub fn check_circular_struct_dependencies(&self, structs: &[Struct]) -> (r: Result<(), String>)
        ensures
            r is Ok <==> !has_dependency_cycle(dependency_graph(structs@, self.structs().dom())),
            r matches Err(e) ==> exists|p: Seq<Seq<char>>|
                is_cycle_report(dependency_graph(structs@, self.structs().dom()), p) && e@ == cycle_message(p),
    {
        let ghost known = self.structs().dom();
        let mut dependencies: StrMap<Vec<String>> = StrMap::new();
        let mut i: usize = 0;
        while i < structs.len()
            invariant
                known == self.structs().dom(),
                i <= structs@.len(),
                graph_view(dependencies) == dependency_graph(structs@.take(i as int), known),
            decreases structs@.len() - i,
        {
            let fields = &structs[i].fields;
            let mut deps: Vec<String> = Vec::new();
            let mut j: usize = 0;
            while j < fields.len()
                invariant
                    known == self.structs().dom(),
                    j <= fields@.len(),
                    seqs_of(deps@) == field_dependencies(fields@.take(j as int), known),
                decreases fields@.len() - j,
            {
                let d = self.extract_struct_dependency(&fields[j].ty);
                proof {
                    assert(fields@.take(j + 1).drop_last() =~= fields@.take(j as int));
                }
                match d {
                    Some(dep_name) => {
                        deps.push(dep_name);
                        assert(seqs_of(deps@) =~= field_dependencies(fields@.take(j as int), known).push(deps@.last()@));
                    }
                    None => {}
                }
                j = j + 1;
            }
            proof {
                assert(fields@.take(j as int) =~= fields@);
                assert(structs@.take(i + 1).drop_last() =~= structs@.take(i as int));
            }
            let ghost before = graph_view(dependencies);
            dependencies.insert(structs[i].name.clone(), deps);
            proof {
                assert(graph_view(dependencies) =~= before.insert(structs@[i as int].name@, seqs_of(deps@)));
            }
            i = i + 1;
        }
        proof {
            assert(structs@.take(i as int) =~= structs@);
        }
        check_dependency_cycles(&dependencies)
    }
}

impl ASTCodeGen {
    /// Remembers which struct a parameter holds: a named type that is a
    /// registered non-generic struct, or a generic struct type, under the
    /// name `instantiated` that its instantiation was given (nothing when
    /// the instantiation failed). Other types are not remembered.
    pub fn track_param_struct_name(&mut self, param_name: &str, param_ty: &Type, instantiated: Option<&str>)
        ensures
            match param_ty@ {
                TypeView::Named(n) => final(self).variable_structs() == if old(self).struct_layouts().dom().contains(n) {
                    old(self).variable_structs().insert(param_name@, n)
                } else {
                    old(self).variable_structs()
                },
                TypeView::Generic { .. } => final(self).variable_structs() == match instantiated {
                    Some(m) => old(self).variable_structs().insert(param_name@, m@),
                    None => old(self).variable_structs(),
                },
                _ => final(self).variable_structs() == old(self).variable_structs(),
            },
            old(self).same_except(*final(self), Touched { variables: true, ..touch_nothing() }),
    {
        match param_ty {
            Type::Named(struct_name) => {
                if self.struct_defs.contains_key(struct_name.as_str()) {
                    self.variable_struct_names.insert(param_name.to_owned(), struct_name.clone());
                    assert(self.variable_structs() =~= old(self).variable_structs().insert(param_name@, struct_name@));
                }
            }
            Type::Generic { .. } => {
                match instantiated {
                    Some(mangled_name) => {
                        self.variable_struct_names.insert(param_name.to_owned(), mangled_name.to_owned());
                        assert(self.variable_structs() =~= old(self).variable_structs().insert(param_name@, mangled_name@));
                    }
                    None => {}
                }
            }
            _ => {}
        }
    }
}

impl ASTCodeGen {
    /// Works out the metadata of a struct's fields from its policies and
    /// its fields' own metadata (see `struct_metadata_of`), and stores it
    /// under the struct's name when any field has some. Fails, storing
    /// nothing, when a policy is not found or its hierarchy is circular.
    pub fn apply_policies_to_struct(&mut self, struct_def: &Struct) -> (r: Result<(), String>)
        ensures
            match struct_metadata_of(*struct_def, old(self).policies()) {
                Ok(fm) => r is Ok && final(self).struct_metadata_view() == if fm.dom().len() > 0 {
                    old(self).struct_metadata_view().insert(struct_def.name@, fm)
                } else {
                    old(self).struct_metadata_view()
                },
                Err(msg) => (r matches Err(e) && e@ == msg) && final(self).struct_metadata_view() == old(self).struct_metadata_view(),
            },
            old(self).same_except(*final(self), Touched { policies: true, ..touch_nothing() }),
            final(self).policies() == old(self).policies(),
    {
        let merged = match struct_field_metadata(struct_def, &self.policy_defs) {
            Ok(m) => m,
            Err(e) => {
                return Err(e);
            }
        };
        let n = merged.len();
        proof {
            assert(metadata_maps(merged).dom() =~= merged.view().dom());
        }
        if n > 0 {
            let ghost before = self.struct_metadata_view();
            let ghost fm = metadata_maps(merged);
            self.struct_metadata.insert(struct_def.name.clone(), merged);
            assert(self.struct_metadata_view() =~= before.insert(struct_def.name@, fm));
        }
        Ok(())
    }
}

/// Whether a trait that a struct implements (its name and type arguments)
/// declares the operator method `method` and accepts `first` as its
/// argument: its first type argument is `first`, or it has none (and so
/// stands for `Self`).
pub open spec fn trait_takes_operator(
    tr: (Seq<char>, Seq<TypeView>),
    traits: Map<Seq<char>, Seq<Seq<char>>>,
    method: Seq<char>,
    first: TypeView,
) -> bool {
    traits.dom().contains(tr.0) && traits[tr.0].contains(method) && (tr.1.len() == 0 || tr.1[0] == first)
}

/// The operators whose methods always carry their parameter count.
pub open spec fn is_counted_operator(name: Seq<char>) -> bool {
    name == "op-"@ || name == "op+"@ || name == "op*"@
}

impl ASTCodeGen {
    /// The mangled name of a method declared inside the struct
    /// `struct_name`: `struct_name_` and the encoded method name; an
    /// operator method whose first parameter type a trait of the struct
    /// takes (see `trait_takes_operator`) adds that type's suffix and the
    /// parameter count counting the receiver; `op+`, `op-` and `op*` add
    /// the count in any case.
    pub open spec fn struct_method_name(self, struct_name: Seq<char>, method: Function) -> Seq<char> {
        let base = struct_name + "_"@ + encoded_operator(method.name@);
        let count = decimal((method.params@.len() + 1) as nat);
        if has_prefix(method.name@, "op"@) && method.params@.len() > 0 && self.structs().dom().contains(struct_name)
            && exists|i: int| 0 <= i < self.structs()[struct_name].impl_traits.len()
                && trait_takes_operator(
                    #[trigger] self.structs()[struct_name].impl_traits[i],
                    self.trait_methods(),
                    method.name@,
                    method.params@[0].ty@,
                )
        {
            base + type_suffix(method.params@[0].ty) + "_"@ + count
        } else if is_counted_operator(method.name@) {
            base + "_"@ + count
        } else {
            base
        }
    }

    /// Whether the trait `tr` declares `method` and takes `first`.
    fn trait_takes(&self, tr: &TraitRefInfo, method: &str, first: &Type) -> (r: bool)
        ensures
            r == trait_takes_operator((tr.name@, crate::ast::type_views(tr.type_args@)), self.trait_methods(), method@, first@),
    {
        proof {
            crate::ast::lemma_type_views_len(tr.type_args@);
        }
        let declares = match self.trait_defs.get(tr.name.as_str()) {
            Some(info) => position_of(&info.methods, method).is_some(),
            None => false,
        };
        proof {
            if self.trait_defs.view().dom().contains(tr.name@) {
                let ms = seqs_of(self.trait_defs.view()[tr.name@].methods@);
                lemma_first_index_some(ms, method@);
                lemma_first_index_none(ms, method@);
                assert(self.trait_methods()[tr.name@] == ms);
            }
        }
        if !declares {
            return false;
        }
        if tr.type_args.len() > 0 {
            types_equal(first, &tr.type_args[0])
        } else {
            true
        }
    }

    /// Mangles the name of a method declared inside a struct (see
    /// `struct_method_name`); this is the name the method is declared and
    /// compiled under.
    pub fn struct_method_mangled_name(&self, struct_name: &str, method: &Function) -> (r: String)
        requires
            method.params@.len() < usize::MAX,
        ensures
            r@ == self.struct_method_name(struct_name@, *method),
    {
        let encoded = encode_operator_name(method.name.as_str());
        let param_count = method.params.len() + 1;
        let mut base = struct_name.to_owned();
        base.append("_");
        base.append(encoded.as_str());
        let ghost b = base@;
        let counted = str_eq(method.name.as_str(), "op-") || str_eq(method.name.as_str(), "op+")
            || str_eq(method.name.as_str(), "op*");
        let mut found = false;
        let ghost wanted = has_prefix(method.name@, "op"@) && method.params@.len() > 0
            && self.structs().dom().contains(struct_name@)
            && exists|j: int| 0 <= j < self.structs()[struct_name@].impl_traits.len()
                && trait_takes_operator(
                    #[trigger] self.structs()[struct_name@].impl_traits[j],
                    self.trait_methods(),
                    method.name@,
                    method.params@[0].ty@,
                );
        if starts_with(method.name.as_str(), "op") && method.params.len() > 0 {
            match self.struct_ast_defs.get(struct_name) {
                Some(info) => {
                    let ghost sv = self.structs()[struct_name@];
                    assert(sv == struct_view(*info));
                    let first = &method.params[0].ty;
                    let mut i: usize = 0;
                    while i < info.impl_traits.len() && !found
                        invariant
                            sv.impl_traits == trait_info_views(info.impl_traits@),
                            sv.impl_traits.len() == info.impl_traits@.len(),
                            i <= info.impl_traits@.len(),
                            !found ==> forall|j: int| 0 <= j < i ==> !trait_takes_operator(
                                #[trigger] sv.impl_traits[j],
                                self.trait_methods(),
                                method.name@,
                                first@,
                            ),
                            found ==> exists|j: int| 0 <= j < sv.impl_traits.len() && trait_takes_operator(
                                #[trigger] sv.impl_traits[j],
                                self.trait_methods(),
                                method.name@,
                                first@,
                            ),
                        decreases info.impl_traits@.len() - i,
                    {
                        if self.trait_takes(&info.impl_traits[i], method.name.as_str(), first) {
                            found = true;
                            assert(sv.impl_traits[i as int] == (info.impl_traits@[i as int].name@, crate::ast::type_views(info.impl_traits@[i as int].type_args@)));
                        }
                        i = i + 1;
                    }
                    if found {
                        let suffix = generate_type_suffix(first);
                        base.append(suffix.as_str());
                    }
                    assert(found == wanted);
                }
                None => {
                    assert(found == wanted);
                }
            }
        } else {
            assert(found == wanted);
        }
        if found || counted {
            base.append("_");
            push_decimal(&mut base, param_count);
        }
        base
    }
}

impl ASTCodeGen {
    /// The registered name under which a function called `name` is found:
    /// `name` itself when registered; otherwise, for a function with the
    /// definition `definition`, its mangled name (with parameter count)
    /// when that is registered.
    pub fn lookup_function_name(&self, name: &str, definition: Option<&Function>) -> (r: Option<String>)
        ensures
            self.function_names().contains(name@) ==> (r matches Some(n) && n@ == name@),
            !self.function_names().contains(name@) ==> match definition {
                Some(f) => if self.function_names().contains(mangled_name(name@, f.params@, true)) {
                    r matches Some(n) && n@ == mangled_name(name@, f.params@, true)
                } else {
                    r is None
                },
                None => r is None,
            },
    {
        if self.functions.contains_key(name) {
            return Some(name.to_owned());
        }
        match definition {
            Some(func_def) => {
                let mangled = mangle_function_name(name, func_def.params.as_slice(), true);
                if self.functions.contains_key(mangled.as_str()) {
                    Some(mangled)
                } else {
                    None
                }
            }
            None => None,
        }
    }
}

/// The first name of `names` that starts with `prefix`.
pub open spec fn first_with_prefix(names: Seq<Seq<char>>, prefix: Seq<char>) -> Option<Seq<char>>
    decreases names.len(),
{
    if names.len() == 0 {
        None
    } else if has_prefix(names[0], prefix) {
        Some(names[0])
    } else {
        first_with_prefix(names.drop_first(), prefix)
    }
}

proof fn lemma_first_with_prefix(names: Seq<Seq<char>>, prefix: Seq<char>, i: int)
    requires
        0 <= i <= names.len(),
        forall|l: int| 0 <= l < i ==> !has_prefix(#[trigger] names[l], prefix),
    ensures
        i < names.len() && has_prefix(names[i], prefix) ==> first_with_prefix(names, prefix) == Some(names[i]),
        i == names.len() ==> first_with_prefix(names, prefix) is None,
    decreases names.len(),
{
    if names.len() > 0 && i > 0 {
        assert forall|l: int| 0 <= l < i - 1 implies !has_prefix(#[trigger] names.drop_first()[l], prefix) by {
            assert(names.drop_first()[l] == names[l + 1]);
        }
        lemma_first_with_prefix(names.drop_first(), prefix, i - 1);
        if i < names.len() {
            assert(names.drop_first()[i - 1] == names[i]);
        }
    }
}

impl ASTCodeGen {
    /// The names of the `op==` method of a type and of the `op!=` generated
    /// from it. For an `op==` declared inside the struct (or its `Eq`
    /// implementation): `T_opeq_2` and `T_opne_2`. For one declared outside
    /// the struct: the first registered function whose name starts with
    /// `T_opeq` (else `T_opeq` itself), and that name with `_opeq`
    /// replaced by `_opne`.
    pub open spec fn eq_method_names(self, t: Seq<char>, is_external: bool) -> (Seq<char>, Seq<char>) {
        if is_external {
            let base = t + "_opeq"@;
            let eq = match first_with_prefix(self.function_order(), base) {
                Some(n) => n,
                None => base,
            };
            (eq, replaced(eq, "_opeq"@, "_opne"@))
        } else {
            (t + "_opeq_2"@, t + "_opne_2"@)
        }
    }

    /// The names of a type's `op==` method and of the `op!=` to generate
    /// from it (see `eq_method_names`).
    pub fn eq_and_ne_method_names(&self, ty_name: &str, is_external: bool) -> (r: (String, String))
        ensures
            (r.0@, r.1@) == self.eq_method_names(ty_name@, is_external),
    {
        if is_external {
            let mut base = ty_name.to_owned();
            base.append("_opeq");
            let n = self.functions.len();
            let ghost order = self.function_order();
            let mut found: Option<String> = None;
            let mut i: usize = 0;
            proof {
                if n == 0 {
                    lemma_first_with_prefix(order, base@, 0);
                }
            }
            while i < n
                invariant_except_break
                    found is None,
                invariant
                    order == self.function_order(),
                    n == order.len(),
                    i <= n,
                    forall|l: int| 0 <= l < i ==> !has_prefix(#[trigger] order[l], base@),
                    i == n ==> first_with_prefix(order, base@) is None,
                ensures
                    match found {
                        Some(nm) => first_with_prefix(order, base@) == Some(nm@),
                        None => first_with_prefix(order, base@) is None,
                    },
                decreases n - i,
            {
                let (name, _) = self.functions.entry_at(i);
                assert(order[i as int] == name@);
                if starts_with(name.as_str(), base.as_str()) {
                    found = Some(name.clone());
                    proof { lemma_first_with_prefix(order, base@, i as int); }
                    break;
                }
                i = i + 1;
                proof {
                    if i == n {
                        lemma_first_with_prefix(order, base@, i as int);
                    }
                }
            }
            let eq_name = match found {
                Some(name) => name,
                None => base,
            };
            proof { reveal_strlit("_opeq"); }
            let ne_name = replace_all(eq_name.as_str(), "_opeq", "_opne");
            (eq_name, ne_name)
        } else {
            let mut eq_name = ty_name.to_owned();
            eq_name.append("_opeq_2");
            let mut ne_name = ty_name.to_owned();
            ne_name.append("_opne_2");
            (eq_name, ne_name)
        }
    }
}

} // verus!
