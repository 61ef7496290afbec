use ritual::error::BindingError;
use ritual::rust_code_generator::{
    out_param_name, to_class_case, CppFfiMethodRef, FfiHeader, RustCodeGenerator, RustFFIArgument,
    RustFFIFunction, RustMethod, RustMethodArgument, RustMethodArguments,
    RustMethodArgumentsVariant, RustMethodScope,
};
use ritual::rust_module::{
    RustEnumValue, RustModule, RustTypeDeclaration, RustTypeDeclarationKind, RustTypeWrapperKind,
    TraitImpl, TraitName,
};
use ritual::rust_type::{
    rust_type_to_code, CompleteType, RustName, RustToCTypeConversion, RustType,
    RustTypeIndirection,
};

fn name(parts: &[&str]) -> RustName {
    RustName {
        parts: parts.iter().map(|p| p.to_string()).collect(),
    }
}

fn common(parts: &[&str], is_const: bool, indirection: RustTypeIndirection) -> RustType {
    RustType::Common {
        base: name(parts),
        generic_arguments: None,
        is_const,
        indirection,
    }
}

fn c_int() -> RustType {
    common(&["libc", "c_int"], false, RustTypeIndirection::Direct)
}

fn generator() -> RustCodeGenerator {
    RustCodeGenerator {
        crate_name: "qt_core".to_string(),
        c_lib_name: "qtcw".to_string(),
        cpp_lib_name: "Qt5Core".to_string(),
    }
}

fn plain_int_arg(arg_name: &str, index: i32) -> RustMethodArgument {
    RustMethodArgument {
        argument_type: CompleteType {
            rust_ffi_type: c_int(),
            rust_api_type: c_int(),
            rust_api_to_c_conversion: RustToCTypeConversion::Unchanged,
        },
        name: arg_name.to_string(),
        ffi_index: index,
    }
}

fn self_arg() -> RustMethodArgument {
    RustMethodArgument {
        argument_type: CompleteType {
            rust_ffi_type: common(&["qt_core", "QString"], true, RustTypeIndirection::Ptr),
            rust_api_type: common(
                &["qt_core", "QString"],
                true,
                RustTypeIndirection::Ref { lifetime: None },
            ),
            rust_api_to_c_conversion: RustToCTypeConversion::RefToPtr,
        },
        name: "self".to_string(),
        ffi_index: 0,
    }
}

fn qstring_by_value() -> CompleteType {
    CompleteType {
        rust_ffi_type: common(&["qt_core", "QString"], false, RustTypeIndirection::Ptr),
        rust_api_type: common(&["qt_core", "QString"], false, RustTypeIndirection::Direct),
        rust_api_to_c_conversion: RustToCTypeConversion::ValueToPtr,
    }
}

fn void_return() -> CompleteType {
    CompleteType {
        rust_ffi_type: RustType::Void,
        rust_api_type: RustType::Void,
        rust_api_to_c_conversion: RustToCTypeConversion::Unchanged,
    }
}

fn to_upper_variant() -> RustMethodArgumentsVariant {
    RustMethodArgumentsVariant {
        arguments: vec![self_arg()],
        cpp_method: CppFfiMethodRef {
            c_name: "QString_toUpper".to_string(),
            ffi_argument_count: 2,
        },
        return_type_ffi_index: Some(1),
    }
}

#[test]
fn type_code_forms() {
    assert_eq!(rust_type_to_code(&c_int(), "qt_core"), "::libc::c_int");
    assert_eq!(
        rust_type_to_code(&common(&["qt_core", "QString"], false, RustTypeIndirection::Ptr), "qt_core"),
        "*mut ::QString"
    );
    assert_eq!(
        rust_type_to_code(
            &common(&["qt_core", "QString"], true, RustTypeIndirection::Ref { lifetime: Some("a".to_string()) }),
            "qt_core"
        ),
        "&'a ::QString"
    );
    assert_eq!(
        rust_type_to_code(&common(&["qt_core", "QString"], true, RustTypeIndirection::PtrPtr), "qt_core"),
        "*const *const ::QString"
    );
    assert_eq!(rust_type_to_code(&common(&["i32"], false, RustTypeIndirection::Direct), "qt_core"), "i32");
    let vec_type = RustType::Common {
        base: name(&["std", "vec", "Vec"]),
        generic_arguments: Some(vec![c_int(), common(&["u8"], false, RustTypeIndirection::Direct)]),
        is_const: false,
        indirection: RustTypeIndirection::Direct,
    };
    assert_eq!(rust_type_to_code(&vec_type, "qt_core"), "::std::vec::Vec<::libc::c_int, u8>");
    let fp = RustType::FunctionPointer {
        return_type: Box::new(RustType::Void),
        arguments: vec![c_int()],
    };
    assert_eq!(rust_type_to_code(&fp, "qt_core"), "extern \"C\" fn(::libc::c_int)");
    let fp2 = RustType::FunctionPointer {
        return_type: Box::new(c_int()),
        arguments: vec![],
    };
    assert_eq!(rust_type_to_code(&fp2, "qt_core"), "extern \"C\" fn() -> ::libc::c_int");
}

#[test]
fn out_parameter_name_avoids_argument_names() {
    assert_eq!(out_param_name(&vec![], &vec![plain_int_arg("x", 0)]), "object");
    assert_eq!(out_param_name(&vec![], &vec![plain_int_arg("object", 0)]), "object2");
    assert_eq!(
        out_param_name(&vec![], &vec![plain_int_arg("object2", 0), plain_int_arg("object", 1)]),
        "object3"
    );
    assert_eq!(out_param_name(&vec![plain_int_arg("object", 0)], &vec![]), "object2");
    assert_eq!(
        out_param_name(&vec![plain_int_arg("object", 0)], &vec![plain_int_arg("object2", 1)]),
        "object3"
    );
}

#[test]
fn value_return_uses_trailing_out_pointer_without_copy() {
    let g = generator();
    let code = g
        .generate_ffi_call(&qstring_by_value(), &to_upper_variant(), &vec![])
        .unwrap();
    assert_eq!(
        code,
        "{\nlet mut object = unsafe { ::QString::new_uninitialized() };\nunsafe { ::ffi::QString_toUpper(self as *const ::QString, &mut object) }object\n}"
    );
    assert!(!code.contains("*ffi_result"));
}

#[test]
fn out_variable_avoids_shared_argument_names() {
    let g = generator();
    let variant = RustMethodArgumentsVariant {
        arguments: vec![],
        cpp_method: CppFfiMethodRef {
            c_name: "make".to_string(),
            ffi_argument_count: 2,
        },
        return_type_ffi_index: Some(1),
    };
    let code = g
        .generate_ffi_call(&qstring_by_value(), &variant, &vec![plain_int_arg("object", 0)])
        .unwrap();
    assert_eq!(
        code,
        "{\nlet mut object2 = unsafe { ::QString::new_uninitialized() };\nunsafe { ::ffi::make(object, &mut object2) }object2\n}"
    );
}

#[test]
fn ffi_call_marshals_each_policy() {
    let g = generator();
    let value_arg = RustMethodArgument {
        argument_type: CompleteType {
            rust_ffi_type: common(&["qt_core", "QString"], true, RustTypeIndirection::Ptr),
            rust_api_type: common(&["qt_core", "QString"], false, RustTypeIndirection::Direct),
            rust_api_to_c_conversion: RustToCTypeConversion::ValueToPtr,
        },
        name: "s".to_string(),
        ffi_index: 1,
    };
    let flags_arg = RustMethodArgument {
        argument_type: CompleteType {
            rust_ffi_type: common(&["libc", "c_uint"], false, RustTypeIndirection::Direct),
            rust_api_type: common(&["qt_core", "flags", "QFlags"], false, RustTypeIndirection::Direct),
            rust_api_to_c_conversion: RustToCTypeConversion::QFlagsToUInt,
        },
        name: "f".to_string(),
        ffi_index: 2,
    };
    let variant = RustMethodArgumentsVariant {
        arguments: vec![value_arg, flags_arg],
        cpp_method: CppFfiMethodRef {
            c_name: "f_call".to_string(),
            ffi_argument_count: 3,
        },
        return_type_ffi_index: None,
    };
    let code = g.generate_ffi_call(&void_return(), &variant, &vec![plain_int_arg("n", 0)]).unwrap();
    assert_eq!(
        code,
        "unsafe { ::ffi::f_call(n, &s as *const ::QString, f.to_int() as libc::c_uint) }"
    );
}

#[test]
fn ffi_call_converts_results() {
    let g = generator();
    let variant = RustMethodArgumentsVariant {
        arguments: vec![self_arg()],
        cpp_method: CppFfiMethodRef {
            c_name: "QString_data".to_string(),
            ffi_argument_count: 1,
        },
        return_type_ffi_index: None,
    };
    let by_ref = CompleteType {
        rust_ffi_type: common(&["qt_core", "QChar"], true, RustTypeIndirection::Ptr),
        rust_api_type: common(&["qt_core", "QChar"], true, RustTypeIndirection::Ref { lifetime: None }),
        rust_api_to_c_conversion: RustToCTypeConversion::RefToPtr,
    };
    assert_eq!(
        g.generate_ffi_call(&by_ref, &variant, &vec![]).unwrap(),
        "let ffi_result = unsafe { ::ffi::QString_data(self as *const ::QString) };\nunsafe { & *ffi_result }"
    );
    let flags = CompleteType {
        rust_ffi_type: common(&["libc", "c_uint"], false, RustTypeIndirection::Direct),
        rust_api_type: RustType::Common {
            base: name(&["qt_core", "flags", "QFlags"]),
            generic_arguments: Some(vec![common(&["qt_core", "Alignment"], false, RustTypeIndirection::Direct)]),
            is_const: false,
            indirection: RustTypeIndirection::Direct,
        },
        rust_api_to_c_conversion: RustToCTypeConversion::QFlagsToUInt,
    };
    assert_eq!(
        g.generate_ffi_call(&flags, &variant, &vec![]).unwrap(),
        "let ffi_result = unsafe { ::ffi::QString_data(self as *const ::QString) };\n::flags::QFlags::from_int(ffi_result as i32)"
    );
    let value_no_out = qstring_by_value();
    assert_eq!(
        g.generate_ffi_call(&value_no_out, &variant, &vec![]).unwrap(),
        "let ffi_result = unsafe { ::ffi::QString_data(self as *const ::QString) };\nunsafe { *ffi_result }"
    );
}

#[test]
fn ffi_call_with_missing_slot_fails() {
    let g = generator();
    let variant = RustMethodArgumentsVariant {
        arguments: vec![self_arg()],
        cpp_method: CppFfiMethodRef {
            c_name: "f".to_string(),
            ffi_argument_count: 2,
        },
        return_type_ffi_index: None,
    };
    assert_eq!(
        g.generate_ffi_call(&void_return(), &variant, &vec![]),
        Err(BindingError::GenerationInvariantViolation)
    );
    let out_of_range = RustMethodArgumentsVariant {
        arguments: vec![plain_int_arg("x", 5)],
        cpp_method: CppFfiMethodRef {
            c_name: "f".to_string(),
            ffi_argument_count: 1,
        },
        return_type_ffi_index: None,
    };
    assert_eq!(
        g.generate_ffi_call(&void_return(), &out_of_range, &vec![]),
        Err(BindingError::GenerationInvariantViolation)
    );
}

#[test]
fn ffi_declaration_text() {
    let g = generator();
    let f = RustFFIFunction {
        return_type: c_int(),
        name: "QString_size".to_string(),
        arguments: vec![RustFFIArgument {
            name: "this_ptr".to_string(),
            argument_type: common(&["qt_core", "QString"], true, RustTypeIndirection::Ptr),
        }],
    };
    assert_eq!(
        g.rust_ffi_function_to_code(&f),
        "  pub fn QString_size(this_ptr: *const ::QString) -> ::libc::c_int;\n"
    );
    let v = RustFFIFunction {
        return_type: RustType::Void,
        name: "QString_clear".to_string(),
        arguments: vec![],
    };
    assert_eq!(g.rust_ffi_function_to_code(&v), "  pub fn QString_clear();\n");
}

fn to_upper_method() -> RustMethod {
    RustMethod {
        scope: RustMethodScope::Impl,
        return_type: qstring_by_value(),
        name: name(&["qt_core", "QString", "to_upper"]),
        arguments: RustMethodArguments::SingleVariant(to_upper_variant()),
    }
}

#[test]
fn final_function_single_variant() {
    let g = generator();
    assert_eq!(
        g.generate_rust_final_function(&to_upper_method()).unwrap(),
        "pub fn to_upper(self: &::QString) -> ::QString {\n{\nlet mut object = unsafe { ::QString::new_uninitialized() };\nunsafe { ::ffi::QString_toUpper(self as *const ::QString, &mut object) }object\n}}\n\n"
    );
}

#[test]
fn final_function_multiple_variants() {
    let g = generator();
    let v0 = RustMethodArgumentsVariant {
        arguments: vec![],
        cpp_method: CppFfiMethodRef {
            c_name: "QString_resize0".to_string(),
            ffi_argument_count: 1,
        },
        return_type_ffi_index: None,
    };
    let v1 = RustMethodArgumentsVariant {
        arguments: vec![plain_int_arg("size", 1)],
        cpp_method: CppFfiMethodRef {
            c_name: "QString_resize1".to_string(),
            ffi_argument_count: 2,
        },
        return_type_ffi_index: None,
    };
    let method = RustMethod {
        scope: RustMethodScope::TraitImpl,
        return_type: void_return(),
        name: name(&["qt_core", "QString", "resize"]),
        arguments: RustMethodArguments::MultipleVariants {
            params_enum_name: "ResizeArgs".to_string(),
            params_trait_name: "IntoResizeArgs".to_string(),
            enum_has_lifetime: true,
            shared_arguments: vec![plain_int_arg("this_value", 0)],
            variant_argument_name: "resize_args".to_string(),
            variants: vec![v0, v1],
        },
    };
    assert_eq!(
        g.generate_rust_final_function(&method).unwrap(),
        "fn resize<'a, ResizeArgs: IntoResizeArgs<'a>>(this_value: ::libc::c_int, resize_args: ResizeArgs) {\nmatch resize_args.as_enum() {\nResizeArgs::Variant0 => { unsafe { ::ffi::QString_resize0(this_value) } },\nResizeArgs::Variant1(size) => { unsafe { ::ffi::QString_resize1(this_value, size) } },\n}}\n\n"
    );
}

#[test]
fn class_case_conversion() {
    assert_eq!(to_class_case("resize_args"), "ResizeArgs");
    assert_eq!(to_class_case("_a__b"), "AB");
    assert_eq!(to_class_case("x1_y"), "X1Y");
    assert_eq!(to_class_case(""), "");
}

#[test]
fn module_code_declares_types() {
    let g = generator();
    let enum_decl = RustTypeDeclaration {
        name: name(&["qt_core", "Alignment"]),
        kind: RustTypeDeclarationKind::CppTypeWrapper {
            kind: RustTypeWrapperKind::Enum {
                values: vec![
                    RustEnumValue { name: "Left".to_string(), value: 1 },
                    RustEnumValue { name: "Neg".to_string(), value: -2 },
                ],
                is_flaggable: true,
            },
            methods: vec![],
            traits: vec![],
        },
    };
    let struct_decl = RustTypeDeclaration {
        name: name(&["qt_core", "QString"]),
        kind: RustTypeDeclarationKind::CppTypeWrapper {
            kind: RustTypeWrapperKind::Struct { size: 8 },
            methods: vec![],
            traits: vec![TraitImpl {
                trait_name: TraitName::CppDeletable {
                    deleter_name: "QString_delete".to_string(),
                },
                methods: vec![],
            }],
        },
    };
    let m = RustModule {
        name: name(&["qt_core", "string"]),
        types: vec![enum_decl, struct_decl],
        functions: vec![],
        submodules: vec![],
    };
    assert_eq!(
        g.generate_module_code(&m).unwrap(),
        "#[allow(unused_imports)]\nuse {libc, cpp_box, std};\n\n\
#[derive(Debug, PartialEq, Eq, Clone)]\n#[repr(C)]\npub enum Alignment {\n  Left = 1, \n  Neg = -2\n}\n\n\
impl ::flags::FlaggableEnum for Alignment {\nfn to_int(self) -> libc::c_int { unsafe { std::mem::transmute(self) } }\nfn enum_name() -> &'static str { unimplemented!() }\n}\n\n\
#[repr(C)]\npub struct QString {\n  _buffer: [u8; 8],\n}\n\nimpl QString {\npub unsafe fn new_uninitialized() -> QString {\nQString { _buffer: std::mem::uninitialized() }\n}\n}\n\n\
impl cpp_box::CppDeletable for QString {\nfn deleter() -> cpp_box::Deleter<Self> {\n  ::ffi::QString_delete\n}\n}\n\n"
    );
}

#[test]
fn module_code_nests_submodules_and_parameter_types() {
    let g = generator();
    let params = RustTypeDeclaration {
        name: name(&["qt_core", "ResizeArgs"]),
        kind: RustTypeDeclarationKind::MethodParametersEnum {
            variants: vec![vec![], vec![c_int()], vec![c_int(), c_int()]],
            trait_name: name(&["qt_core", "IntoResizeArgs"]),
            enum_has_lifetime: false,
        },
    };
    let tr = RustTypeDeclaration {
        name: name(&["qt_core", "IntoResizeArgs"]),
        kind: RustTypeDeclarationKind::MethodParametersTrait {
            enum_name: name(&["qt_core", "ResizeArgs"]),
            enum_has_lifetime: false,
        },
    };
    let inner = RustModule {
        name: name(&["qt_core", "inner"]),
        types: vec![tr],
        functions: vec![],
        submodules: vec![],
    };
    let outer = RustModule {
        name: name(&["qt_core", "outer"]),
        types: vec![params],
        functions: vec![],
        submodules: vec![inner],
    };
    let header = "#[allow(unused_imports)]\nuse {libc, cpp_box, std};\n\n";
    let expected = format!(
        "{h}pub enum ResizeArgs {{\nVariant0,\nVariant1(::libc::c_int),\nVariant2(::libc::c_int,::libc::c_int),\n}}\n\n\
impl IntoResizeArgs for () {{\nfn as_enum(self) -> ResizeArgs {{\nResizeArgs::Variant0\n}}\n}}\n\n\
impl IntoResizeArgs for ::libc::c_int {{\nfn as_enum(self) -> ResizeArgs {{\nResizeArgs::Variant1(self)\n}}\n}}\n\n\
impl IntoResizeArgs for (::libc::c_int,::libc::c_int) {{\nfn as_enum(self) -> ResizeArgs {{\nResizeArgs::Variant2(self.0, self.1)\n}}\n}}\n\n\
pub mod inner {{\n{h}pub trait IntoResizeArgs {{\nfn as_enum(self) -> ResizeArgs;\n}}}}\n\n",
        h = header
    );
    assert_eq!(g.generate_module_code(&outer).unwrap(), expected);
}

#[test]
fn module_with_invalid_method_fails() {
    let g = generator();
    let bad = RustMethod {
        scope: RustMethodScope::Free,
        return_type: void_return(),
        name: name(&["qt_core", "f"]),
        arguments: RustMethodArguments::SingleVariant(RustMethodArgumentsVariant {
            arguments: vec![],
            cpp_method: CppFfiMethodRef {
                c_name: "f".to_string(),
                ffi_argument_count: 1,
            },
            return_type_ffi_index: None,
        }),
    };
    let m = RustModule {
        name: name(&["qt_core", "m"]),
        types: vec![],
        functions: vec![bad],
        submodules: vec![],
    };
    assert_eq!(g.generate_module_code(&m), Err(BindingError::GenerationInvariantViolation));
}

#[test]
fn lib_file_lists_modules() {
    let g = generator();
    assert_eq!(
        g.lib_file_content(&vec!["core".to_string(), "string".to_string()]),
        "#![allow(drop_with_repr_extern)]\n\npub extern crate libc;\npub extern crate cpp_box;\n\npub mod flags;\n\n#[allow(dead_code)]\npub mod ffi;\n\npub mod core;\npub mod string;\n"
    );
    assert!(g.has_module_name_conflict(&vec!["core".to_string(), "ffi".to_string()]));
    assert!(g.has_module_name_conflict(&vec!["flags".to_string()]));
    assert!(!g.has_module_name_conflict(&vec!["core".to_string(), "string".to_string()]));
}

#[test]
fn ffi_file_lists_headers() {
    let g = generator();
    let headers = vec![FfiHeader {
        include_file: "QString".to_string(),
        functions: vec![RustFFIFunction {
            return_type: RustType::Void,
            name: "QString_clear".to_string(),
            arguments: vec![],
        }],
    }];
    assert_eq!(
        g.ffi_file_content(&headers),
        "use libc;\n\n#[link(name = \"Qt5Core\")]\n#[link(name = \"stdc++\")]\n#[link(name = \"qtcw\", kind = \"static\")]\nextern \"C\" {\n  // Header: QString\n  pub fn QString_clear();\n\n}\n"
    );
}
