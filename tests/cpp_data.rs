use ritual::cpp_data::{
    CppClassField, CppEnumValue, CppTypeDeclaration, CppTypeDeclarationKind, CppVisibility,
};
use ritual::cpp_path::{CppPath, CppType};

fn check_unscoped(path: &str, result: &str) {
    let v = CppEnumValue {
        path: CppPath::from_good_str(path),
        value: 0,
        doc: None,
    };
    assert_eq!(v.unscoped_path(), CppPath::from_good_str(result));
}

#[test]
fn unscoped_path_should_work() {
    check_unscoped("A::B::C::D", "A::B::D");
    check_unscoped("A::B", "B");
}

#[test]
fn enum_values_same_ignores_doc() {
    let a = CppEnumValue {
        path: CppPath::from_good_str("Qt::AlignLeft"),
        value: 1,
        doc: Some("left".to_string()),
    };
    let b = CppEnumValue {
        path: CppPath::from_good_str("Qt::AlignLeft"),
        value: 1,
        doc: None,
    };
    let c = CppEnumValue {
        path: CppPath::from_good_str("Qt::AlignLeft"),
        value: 2,
        doc: None,
    };
    assert!(a.is_same(&b));
    assert!(!a.is_same(&c));
}

#[test]
fn field_short_text() {
    let f = CppClassField {
        path: CppPath::from_good_str("QPoint::xp"),
        field_type: CppType::BuiltIn { name: "int".to_string() },
        visibility: CppVisibility::Private,
        is_static: false,
        doc: None,
    };
    assert_eq!(f.short_text(), "private int QPoint::xp");
    let g = CppClassField {
        visibility: CppVisibility::Public,
        ..f.clone()
    };
    assert_eq!(g.short_text(), "int QPoint::xp");
    let h = CppClassField {
        visibility: CppVisibility::Protected,
        ..f.clone()
    };
    assert_eq!(h.short_text(), "protected int QPoint::xp");
    assert!(f.is_same(&f.clone()));
    assert!(!f.is_same(&g));
}

#[test]
fn declaration_kinds() {
    let class = CppTypeDeclarationKind::Class { is_movable: true };
    let en = CppTypeDeclarationKind::Enum;
    assert!(class.is_class());
    assert!(!class.is_enum());
    assert!(en.is_enum());
    assert!(!en.is_class());
    let d1 = CppTypeDeclaration {
        path: CppPath::from_good_str("ns::Widget"),
        kind: class,
        doc: None,
    };
    let d2 = CppTypeDeclaration {
        path: CppPath::from_good_str("ns::Widget"),
        kind: en,
        doc: None,
    };
    let d3 = CppTypeDeclaration {
        path: CppPath::from_good_str("ns::Other"),
        kind: en,
        doc: None,
    };
    assert!(d1.is_same(&d2));
    assert!(!d1.is_same(&d3));
}
