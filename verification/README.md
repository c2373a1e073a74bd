# vex_codegen

The decisions of the Vex compiler's LLVM code generator, as a verified
library: everything the generator computes from the syntax tree and its own
registries, stated in `requires` / `ensures` contracts and proved by Verus.
Emitting LLVM IR is left to the caller.

## Layout

- `src/ast.rs` — the syntax tree the generator reads, with a view of types.
- `src/metadata.rs` — field metadata (`json:"id" db:"user_id"`): parsing and
  merging.
- `src/policy.rs` — policies: resolving their inheritance and the metadata
  they give a struct's fields.
- `src/codegen.rs` — the generator's registries (structs with their
  layouts and generic instantiations, closure structs, enums, traits,
  policies, functions, module namespaces, scopes with their cleanup,
  deferred statements) and the lookups and naming decisions over them.
- `src/mangle.rs`, `src/type_ops.rs`, `src/generics.rs` — name mangling,
  operations on types, and generic instantiation by substitution.
- `src/closures.rs` — free variables and type guesses for closures.
- `src/await_scan.rs` — counting suspension points of async code.
- `src/imports.rs`, `src/eq_methods.rs` — which items an import brings in
  and which types get generated equality methods.
- `src/struct_deps.rs` — cycle detection over struct dependencies.
- `src/inline_optimizer.rs`, `src/safety.rs`, `src/ffi.rs`, `src/casts.rs`,
  `src/unary.rs`, `src/loops.rs` — inlining choices and the zero-cost check,
  allocation checks and alignments, the C types of extern declarations, the
  instructions chosen for casts, comparisons and unary operators, and the
  targets of `break` and `continue`.
- `src/type_text.rs` — the text of a type, as error messages show it.
- `src/laws.rs` — properties that span several functions, proved.
- `app/` — the LLVM side (inkwell): it reads LLVM values into the plain
  facts the library decides on and emits what the library chose.
- `tests/` — tests on concrete values.
