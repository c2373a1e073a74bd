use vex_codegen::ast::{ExternFunction, Param, Type};
use vex_codegen::ffi::{extern_declaration_signature, vex_type_to_ffi, FfiType};

fn bits(t: Type) -> Option<u32> {
    match vex_type_to_ffi(&t) {
        Ok(FfiType::Int { bits }) => Some(bits),
        _ => None,
    }
}

#[test]
fn integer_and_float_types() {
    assert_eq!(bits(Type::I8), Some(8));
    assert_eq!(bits(Type::U16), Some(16));
    assert_eq!(bits(Type::Error), Some(32));
    assert_eq!(bits(Type::U64), Some(64));
    assert_eq!(bits(Type::I128), Some(128));
    assert_eq!(bits(Type::Bool), Some(1));
    assert_eq!(bits(Type::Unit), Some(8));
    assert!(matches!(vex_type_to_ffi(&Type::F32), Ok(FfiType::Float)));
    assert!(matches!(vex_type_to_ffi(&Type::F64), Ok(FfiType::Double)));
    assert!(matches!(vex_type_to_ffi(&Type::F16), Ok(FfiType::Half)));
}

#[test]
fn pointers_and_aggregates() {
    assert!(matches!(vex_type_to_ffi(&Type::Named("Point".to_string())), Ok(FfiType::Pointer)));
    assert!(matches!(vex_type_to_ffi(&Type::Reference(Box::new(Type::I32), true)), Ok(FfiType::Pointer)));
    assert!(matches!(vex_type_to_ffi(&Type::String), Ok(FfiType::FatPointer)));
    assert!(matches!(vex_type_to_ffi(&Type::Slice(Box::new(Type::U8), false)), Ok(FfiType::FatPointer)));
    match vex_type_to_ffi(&Type::Array(Box::new(Type::I32), 4)).unwrap() {
        FfiType::Array(inner, 4) => assert!(matches!(*inner, FfiType::Int { bits: 32 })),
        _ => panic!("array expected"),
    }
}

#[test]
fn unsupported_types() {
    assert_eq!(
        vex_type_to_ffi(&Type::Tuple(vec![])).err().unwrap(),
        "Tuple types not supported in FFI (use struct instead)"
    );
    assert_eq!(
        vex_type_to_ffi(&Type::Generic { name: "Vec".to_string(), type_args: vec![] }).err().unwrap(),
        "Generic types must be monomorphized before FFI"
    );
    assert_eq!(
        vex_type_to_ffi(&Type::Array(Box::new(Type::Union(vec![])), 2)).err().unwrap(),
        "Union types not yet implemented in FFI"
    );
    assert_eq!(vex_type_to_ffi(&Type::Option(Box::new(Type::I32))).err().unwrap(), "Unsupported type for FFI: Option<i32>");
}

#[test]
fn extern_signatures() {
    let print = ExternFunction {
        name: "vex_print".to_string(),
        params: vec![
            Param { name: "ptr".to_string(), ty: Type::RawPtr { inner: Box::new(Type::U8), is_const: true } },
            Param { name: "len".to_string(), ty: Type::U64 },
        ],
        return_type: None,
        is_variadic: false,
    };
    let (ps, ret) = extern_declaration_signature(&print).unwrap();
    assert_eq!(ps.len(), 2);
    assert!(matches!(ps[0], FfiType::Pointer));
    assert!(matches!(ps[1], FfiType::Int { bits: 64 }));
    assert!(ret.is_none());
    let bad = ExternFunction {
        name: "f".to_string(),
        params: vec![Param { name: "t".to_string(), ty: Type::Tuple(vec![]) }],
        return_type: Some(Type::Infer("T".to_string())),
        is_variadic: true,
    };
    assert_eq!(extern_declaration_signature(&bad).err().unwrap(), "Tuple types not supported in FFI (use struct instead)");
    let ret_bad = ExternFunction { params: vec![], ..bad };
    assert_eq!(
        extern_declaration_signature(&ret_bad).err().unwrap(),
        "Type inference failed - cannot generate FFI declaration"
    );
}
