use ritual::conversion::{flat_signature_layout, select_conversion};
use ritual::cpp_path::{CppPath, CppPathItem, CppPointerLikeTypeKind, CppType};
use ritual::error::BindingError;
use ritual::rust_type::RustToCTypeConversion;

fn pointer_like(kind: CppPointerLikeTypeKind) -> CppType {
    CppType::PointerLike {
        kind,
        is_const: true,
        target: Box::new(CppType::Class(CppPath::from_good_str("QString"))),
    }
}

#[test]
fn each_type_gets_one_policy() {
    let int = CppType::BuiltIn { name: "int".to_string() };
    assert_eq!(select_conversion(&int), Ok(RustToCTypeConversion::Unchanged));
    assert_eq!(select_conversion(&CppType::Void), Ok(RustToCTypeConversion::Unchanged));
    let e = CppType::Enum { path: CppPath::from_good_str("Qt::Alignment") };
    assert_eq!(select_conversion(&e), Ok(RustToCTypeConversion::Unchanged));
    let class = CppType::Class(CppPath::from_good_str("QString"));
    assert_eq!(select_conversion(&class), Ok(RustToCTypeConversion::ValueToPtr));
    let flags = CppType::Class(CppPath::from_item(CppPathItem {
        name: "QFlags".to_string(),
        template_arguments: Some(vec![e]),
    }));
    assert_eq!(select_conversion(&flags), Ok(RustToCTypeConversion::QFlagsToUInt));
    assert_eq!(
        select_conversion(&pointer_like(CppPointerLikeTypeKind::Pointer)),
        Ok(RustToCTypeConversion::Unchanged)
    );
    assert_eq!(
        select_conversion(&pointer_like(CppPointerLikeTypeKind::Reference)),
        Ok(RustToCTypeConversion::RefToPtr)
    );
}

#[test]
fn unmappable_types_have_no_conversion() {
    assert_eq!(
        select_conversion(&pointer_like(CppPointerLikeTypeKind::RValueReference)),
        Err(BindingError::NoKnownConversion)
    );
    let param = CppType::TemplateParameter {
        nested_level: 0,
        index: 0,
        name: "T".to_string(),
    };
    assert_eq!(select_conversion(&param), Err(BindingError::NoKnownConversion));
}

#[test]
fn value_return_adds_trailing_slot() {
    assert_eq!(flat_signature_layout(2, RustToCTypeConversion::ValueToPtr), (3, Some(2)));
    assert_eq!(flat_signature_layout(0, RustToCTypeConversion::ValueToPtr), (1, Some(0)));
    assert_eq!(flat_signature_layout(2, RustToCTypeConversion::RefToPtr), (2, None));
    assert_eq!(flat_signature_layout(1, RustToCTypeConversion::Unchanged), (1, None));
}
