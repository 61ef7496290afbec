use ritual::cpp_path::{CppPath, CppPathItem, CppPointerLikeTypeKind, CppType};
use ritual::error::BindingError;

fn class(path: &str) -> CppType {
    CppType::Class(CppPath::from_good_str(path))
}

fn int_type() -> CppType {
    CppType::BuiltIn { name: "int".to_string() }
}

fn templated(name: &str, args: Vec<CppType>) -> CppPathItem {
    CppPathItem {
        name: name.to_string(),
        template_arguments: Some(args),
    }
}

#[test]
fn parse_then_render_reproduces_name() {
    for text in ["A", "A::B::C", "QObject::staticMetaObject", "a:::b", "ns::~Dtor"] {
        let p = CppPath::parse(text).unwrap();
        assert_eq!(p.to_cpp_pseudo_code(), text);
    }
}

#[test]
fn parse_splits_at_scope_separators() {
    let p = CppPath::parse("A::B::C").unwrap();
    let names: Vec<&str> = p.items().iter().map(|i| i.name.as_str()).collect();
    assert_eq!(names, vec!["A", "B", "C"]);
    assert!(p.items().iter().all(|i| i.template_arguments.is_none()));
    let q = CppPath::parse("a:::b").unwrap();
    let names: Vec<&str> = q.items().iter().map(|i| i.name.as_str()).collect();
    assert_eq!(names, vec!["a", ":b"]);
}

#[test]
fn parse_rejects_malformed_paths() {
    for text in ["", "A<int>", "A::B>", "A::::B", "::A", "A::"] {
        assert_eq!(CppPath::parse(text), Err(BindingError::MalformedPath), "{}", text);
    }
    assert_eq!(CppPathItem::parse("a<b"), Err(BindingError::MalformedPath));
    assert_eq!(CppPathItem::parse(""), Err(BindingError::MalformedPath));
    assert_eq!(CppPathItem::parse("name").unwrap().name, "name");
}

#[test]
fn parent_of_join_is_the_path() {
    let p = CppPath::from_good_str("A::B");
    let joined = p.join(CppPathItem::from_good_str("C"));
    assert_eq!(joined.to_cpp_pseudo_code(), "A::B::C");
    assert_eq!(joined.parent().unwrap(), p);
    assert!(joined.has_parent());
    assert_eq!(joined.last().name, "C");
}

#[test]
fn parent_of_single_item_fails() {
    let p = CppPath::from_good_str("A");
    assert!(!p.has_parent());
    assert_eq!(p.parent(), Err(BindingError::EmptyParent));
}

#[test]
fn items_round_trip() {
    let p = CppPath::from_items(vec![
        CppPathItem::from_good_str("x"),
        CppPathItem::from_good_str("y"),
    ]);
    assert_eq!(p.to_cpp_pseudo_code(), "x::y");
    let single = CppPath::from_item(CppPathItem::from_good_str("z"));
    assert_eq!(single.into_items().len(), 1);
    assert_eq!(p.clone().into_items().len(), 2);
}

#[test]
fn pseudo_code_with_templates_and_pointers() {
    let p = CppPath::from_items(vec![
        CppPathItem::from_good_str("std"),
        templated("map", vec![int_type(), class("QString")]),
    ]);
    assert_eq!(p.to_cpp_pseudo_code(), "std::map<int, QString>");
    let t = CppType::PointerLike {
        kind: CppPointerLikeTypeKind::Pointer,
        is_const: true,
        target: Box::new(int_type()),
    };
    assert_eq!(t.to_cpp_pseudo_code(), "const int*");
    let r = CppType::PointerLike {
        kind: CppPointerLikeTypeKind::RValueReference,
        is_const: false,
        target: Box::new(class("QString")),
    };
    assert_eq!(r.to_cpp_pseudo_code(), "QString&&");
    assert_eq!(CppType::Void.to_cpp_pseudo_code(), "void");
}

#[test]
fn ascii_caption_maps_characters() {
    assert_eq!(CppPath::from_good_str("ns::~QObject").ascii_caption(), "ns_dQObject");
    assert_eq!(CppPath::from_good_str("operator+=").ascii_caption(), "operator__");
    let p = CppPath::from_item(templated(
        "QList",
        vec![CppType::PointerLike {
            kind: CppPointerLikeTypeKind::Pointer,
            is_const: true,
            target: Box::new(class("QObject")),
        }],
    ));
    assert_eq!(p.ascii_caption(), "QList_const_QObject_ptr");
    let q = CppPath::from_item(templated("QHash", vec![int_type(), class("a::B")]));
    assert_eq!(q.ascii_caption(), "QHash_int_a_B");
}

#[test]
fn templateless_string_drops_arguments() {
    let p = CppPath::from_items(vec![
        CppPathItem::from_good_str("ns"),
        templated("QList", vec![int_type()]),
        CppPathItem::from_good_str("append"),
    ]);
    assert_eq!(p.to_templateless_string(), "ns::QList::append");
    assert_eq!(p.doc_id(), "ns::QList::append");
}

#[test]
fn deinstantiate_then_instantiate_restores_path() {
    let args = vec![class("QString"), int_type()];
    let p = CppPath::from_items(vec![
        CppPathItem::from_good_str("ns"),
        templated("QMap", args.clone()),
    ]);
    let d = p.deinstantiate();
    assert_eq!(d.to_cpp_pseudo_code(), "ns::QMap<T0_0, T0_1>");
    assert_eq!(d.instantiate(0, &args).unwrap(), p);
}

#[test]
fn deinstantiate_counts_levels_per_templated_item() {
    let p = CppPath::from_items(vec![
        templated("Outer", vec![int_type()]),
        CppPathItem::from_good_str("mid"),
        templated("Inner", vec![int_type(), int_type()]),
    ]);
    assert_eq!(p.deinstantiate().to_cpp_pseudo_code(), "Outer<T0_0>::mid::Inner<T1_0, T1_1>");
    let a = CppPath::from_item(templated("QList", vec![int_type()]));
    let b = CppPath::from_item(templated("QList", vec![class("QString")]));
    assert_eq!(a.deinstantiate(), b.deinstantiate());
}

#[test]
fn instantiate_replaces_nested_parameters() {
    let param = CppType::TemplateParameter {
        nested_level: 1,
        index: 0,
        name: "T".to_string(),
    };
    let inner = CppType::Class(CppPath::from_item(templated("QList", vec![param.clone()])));
    let p = CppPath::from_item(templated("QMap", vec![inner, param]));
    let r = p.instantiate(1, &[int_type()]).unwrap();
    assert_eq!(r.to_cpp_pseudo_code(), "QMap<QList<int>, int>");
    let untouched = p.instantiate(0, &[int_type()]).unwrap();
    assert_eq!(untouched, p);
    assert_eq!(p.instantiate(1, &[]), Err(BindingError::UnresolvedTemplateParameter));
}

#[test]
fn cpp_code_needs_concrete_arguments() {
    let p = CppPath::from_items(vec![
        CppPathItem::from_good_str("std"),
        templated("vector", vec![int_type(), class("QString")]),
    ]);
    assert_eq!(p.to_cpp_code().unwrap(), "std::vector< int, QString >");
    let q = CppPath::from_item(templated(
        "QList",
        vec![CppType::TemplateParameter {
            nested_level: 0,
            index: 0,
            name: "T".to_string(),
        }],
    ));
    assert_eq!(q.to_cpp_code(), Err(BindingError::UnresolvedTemplateParameter));
    let t = CppType::PointerLike {
        kind: CppPointerLikeTypeKind::Reference,
        is_const: true,
        target: Box::new(class("QString")),
    };
    assert_eq!(t.to_cpp_code().unwrap(), "const QString&");
}

#[test]
fn equality_is_structural() {
    let a = CppPath::from_item(templated("QList", vec![int_type()]));
    let b = CppPath::from_item(templated("QList", vec![int_type()]));
    let c = CppPath::from_item(templated("QList", vec![class("int")]));
    assert_eq!(a, b);
    assert_ne!(a, c);
    assert_ne!(CppPath::from_good_str("A::B"), CppPath::from_good_str("A"));
}

#[test]
fn last_mut_changes_last_item() {
    let mut p = CppPath::from_good_str("ns::QList");
    p.last_mut().template_arguments = Some(vec![int_type()]);
    assert_eq!(p.to_cpp_pseudo_code(), "ns::QList<int>");
    p.last_mut().name = "QVector".to_string();
    assert_eq!(p.to_cpp_pseudo_code(), "ns::QVector<int>");
}
