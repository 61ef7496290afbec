use ritual::runtime::{
    call_virtual, static_upcast, CastFrom, CastInto, CastTable, ClassHierarchy, CppIterator,
    ObjectStore, Ptr, Ref, VirtualMethod,
};

const BASE: usize = 0;
const MID: usize = 1;
const DERIVED: usize = 2;
const SIBLING: usize = 3;

fn hierarchy() -> ClassHierarchy {
    ClassHierarchy {
        bases: vec![vec![], vec![BASE], vec![MID], vec![BASE]],
    }
}

#[test]
fn dropping_boxes_runs_each_deleter_once() {
    let mut store = ObjectStore::new();
    let a = store.create(BASE);
    let b = store.create(MID);
    let c = store.create(DERIVED);
    assert!(store.is_live(0) && store.is_live(1) && store.is_live(2));
    store.delete(c);
    store.delete(a);
    assert_eq!(store.deleter_calls(0), 1);
    assert_eq!(store.deleter_calls(1), 0);
    assert_eq!(store.deleter_calls(2), 1);
    store.delete(b);
    for id in 0..3 {
        assert_eq!(store.deleter_calls(id), 1);
        assert!(!store.is_live(id));
    }
}

#[test]
fn ancestors_include_whole_chain() {
    let h = hierarchy();
    assert_eq!(h.ancestors_of(DERIVED), vec![true, true, true, false]);
    assert_eq!(h.ancestors_of(SIBLING), vec![true, false, false, true]);
    assert_eq!(h.ancestors_of(BASE), vec![true, false, false, false]);
}

#[test]
fn direct_upcast_equals_chained_upcasts() {
    let table = CastTable::new(hierarchy());
    let mut store = ObjectStore::new();
    let b = store.create(DERIVED);
    let r = store.as_ref(&b);
    assert!(table.can_upcast(DERIVED, BASE));
    assert!(table.can_upcast(DERIVED, MID));
    assert!(!table.can_upcast(DERIVED, SIBLING));
    assert!(!table.can_upcast(BASE, DERIVED));
    let direct = static_upcast(&table, r, BASE);
    let chained = static_upcast(&table, static_upcast(&table, r, MID), BASE);
    assert_eq!(direct, chained);
    assert_eq!(direct.class(), BASE);
    assert_eq!(direct.object_id(), r.object_id());
}

#[test]
fn dynamic_cast_follows_runtime_class() {
    let table = CastTable::new(hierarchy());
    let mut store = ObjectStore::new();
    let b = store.create(DERIVED);
    let base = static_upcast(&table, store.as_ref(&b), BASE);
    assert_eq!(store.dynamic_cast(&table, base, DERIVED).map(|r| r.class()), Some(DERIVED));
    assert_eq!(store.dynamic_cast(&table, base, MID).map(|r| r.class()), Some(MID));
    assert_eq!(store.dynamic_cast(&table, base, BASE).map(|r| r.class()), Some(BASE));
    assert!(store.dynamic_cast(&table, base, SIBLING).is_none());
    let plain = store.create(BASE);
    let p = store.as_ref(&plain);
    assert!(store.dynamic_cast(&table, p, DERIVED).is_none());
}

#[test]
fn virtual_call_through_base_reference_uses_override() {
    let table = CastTable::new(hierarchy());
    let method = VirtualMethod {
        results: vec![42, 43, 43, 44],
    };
    let mut store = ObjectStore::new();
    let derived = store.create(DERIVED);
    let r = store.as_ref(&derived);
    assert_eq!(call_virtual(&store, &method, r), 43);
    let base_ref = static_upcast(&table, r, BASE);
    assert_eq!(call_virtual(&store, &method, base_ref), 43);
    let base = store.create(BASE);
    assert_eq!(call_virtual(&store, &method, store.as_ref(&base)), 42);
    let sibling = store.create(SIBLING);
    let sref = static_upcast(&table, store.as_ref(&sibling), BASE);
    assert_eq!(call_virtual(&store, &method, sref), 44);
}

#[test]
fn nullable_and_non_null_handles() {
    let mut store = ObjectStore::new();
    let b = store.create(BASE);
    let null = Ptr::null(BASE);
    assert!(null.is_null());
    assert!(null.as_ref().is_none());
    let p = store.as_ptr(&b);
    assert!(!p.is_null());
    let r = Ref::from_ptr(p);
    assert_eq!(r, store.as_ref(&b));
    assert_eq!(p.as_ref(), Some(r));
}

#[test]
fn forward_and_reverse_iteration() {
    let mut it = CppIterator::new(vec![42u8, 46], 0, 2, true);
    assert_eq!(it.collect_forward(), vec![42, 46]);
    let mut back = CppIterator::new(vec![42u8, 46], 0, 2, true);
    assert_eq!(back.collect_backward(), vec![46, 42]);
    let mut steps = CppIterator::new(vec![42u8, 46], 0, 2, true);
    assert_eq!(steps.next(), Some(42));
    assert_eq!(steps.next_back(), Some(46));
    assert_eq!(steps.next(), None);
    assert_eq!(steps.next_back(), None);
}

#[test]
fn empty_range_yields_nothing() {
    let mut it = CppIterator::new(Vec::<i32>::new(), 0, 0, true);
    assert_eq!(it.next(), None);
    assert_eq!(it.next_back(), None);
    let mut f = CppIterator::new(vec![1, 2, 3], 1, 1, true);
    assert!(f.collect_forward().is_empty());
    let mut b = CppIterator::new(vec![1, 2, 3], 3, 3, true);
    assert!(b.collect_backward().is_empty());
}

#[test]
fn decrement_support_is_queryable() {
    let it = CppIterator::new(vec![1, 2], 0, 2, false);
    assert!(!it.supports_decrement());
    let mut sub = CppIterator::new(vec![1, 2, 3, 4], 1, 3, false);
    assert_eq!(sub.collect_forward(), vec![2, 3]);
}

#[test]
fn cast_traits_upcast_between_handle_kinds() {
    let table = CastTable::new(hierarchy());
    let mut store = ObjectStore::new();
    let b = store.create(DERIVED);
    let r = store.as_ref(&b);
    let as_base: Ref = r.cast_into(&table, BASE);
    assert_eq!(as_base, static_upcast(&table, r, BASE));
    let p: Ptr = Ptr::cast_from(&table, r, MID);
    assert_eq!(p.as_ref().map(|x| (x.object_id(), x.class())), Some((r.object_id(), MID)));
    let null: Ptr = Ptr::cast_from(&table, Ptr::null(DERIVED), BASE);
    assert!(null.is_null());
    let via_into: Ptr = p.cast_into(&table, BASE);
    assert_eq!(via_into.as_ref().map(|x| x.class()), Some(BASE));
}

#[test]
fn virtual_functions() {
    const BASE_CLASS1: usize = 0;
    const DERIVED_CLASS1: usize = 1;
    const DERIVED_CLASS2: usize = 2;
    let table = CastTable::new(ClassHierarchy {
        bases: vec![vec![], vec![BASE_CLASS1], vec![BASE_CLASS1]],
    });
    let virtual_function = VirtualMethod {
        results: vec![42, 43, 44],
    };
    let mut store = ObjectStore::new();

    let derived = store.create(DERIVED_CLASS1);
    let derived_ref = store.as_ref(&derived);
    assert_eq!(call_virtual(&store, &virtual_function, derived_ref), 43);
    let base = static_upcast(&table, derived_ref, BASE_CLASS1);
    assert_eq!(call_virtual(&store, &virtual_function, base), 43);

    let base_box = store.create(BASE_CLASS1);
    assert_eq!(call_virtual(&store, &virtual_function, store.as_ref(&base_box)), 42);

    let derived2 = store.create(DERIVED_CLASS2);
    let derived2_ref = store.as_ref(&derived2);
    assert_eq!(call_virtual(&store, &virtual_function, derived2_ref), 44);
    let base2 = static_upcast(&table, derived2_ref, BASE_CLASS1);
    assert_eq!(call_virtual(&store, &virtual_function, base2), 44);

    store.delete(derived2);
    store.delete(base_box);
    store.delete(derived);
    assert_eq!(
        (store.deleter_calls(0), store.deleter_calls(1), store.deleter_calls(2)),
        (1, 1, 1)
    );
}

#[test]
fn cast_bindings_cover_every_ancestor() {
    let table = CastTable::new(hierarchy());
    let names = vec![
        "Base".to_string(),
        "Mid".to_string(),
        "Derived".to_string(),
        "Sibling".to_string(),
    ];
    let binding = |d: &str, b: &str| {
        format!(
            "impl cpp_core::StaticUpcast<{b}> for {d} {{\n    unsafe fn static_upcast(ptr: cpp_core::Ptr<{d}>) -> cpp_core::Ptr<{b}> {{\n        cpp_core::Ptr::from_raw(::ffi::static_upcast_{d}_to_{b}(ptr.as_raw_ptr()))\n    }}\n}}\n\n",
            d = d,
            b = b
        )
    };
    let expected = [
        binding("Mid", "Base"),
        binding("Derived", "Base"),
        binding("Derived", "Mid"),
        binding("Sibling", "Base"),
    ]
    .concat();
    assert_eq!(table.cast_bindings(&names), expected);
    assert_eq!(table.class_count(), 4);
}
