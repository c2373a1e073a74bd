pub mod metadata;
pub mod policy;
pub mod strmap;
pub mod text;
pub mod ast;
pub mod await_scan;
pub mod mangle;
pub mod type_ops;
pub mod codegen;
pub mod inline_optimizer;
pub mod safety;
pub mod struct_deps;
pub mod generics;
pub mod closures;
pub mod laws;
pub mod imports;
pub mod eq_methods;
pub mod ffi;
pub mod casts;
pub mod unary;
pub mod type_text;
pub mod loops;
pub mod composition_laws;
