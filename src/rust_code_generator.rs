//! Text of the generated bindings: flat extern declarations, wrapper bodies
//! that marshal each argument, and the declarations of each module.
use crate::cpp_path::{append_joined, decimal, decimal_string, join, lemma_join_push, push_char};
use crate::error::BindingError;
use crate::rust_type::{
    full_name, indirection_prefix, is_codeable, join_from, names_of, rust_type_to_code, RustTypeIndirection,
    rust_type_to_code_without_generics, type_code, type_is_codeable, CompleteType, RustName, RustToCTypeConversion,
    RustType,
};
use vstd::prelude::*;

verus! {

/// An argument of a flat FFI function.
#[derive(Debug, PartialEq, Eq)]
pub struct RustFFIArgument {
    pub name: String,
    pub argument_type: RustType,
}

/// A flat FFI function as declared in the `extern` block.
#[derive(Debug, PartialEq, Eq)]
pub struct RustFFIFunction {
    pub return_type: RustType,
    pub name: String,
    pub arguments: Vec<RustFFIArgument>,
}

/// An argument of a generated wrapper method, with its slot in the flat call.
#[derive(Debug, PartialEq, Eq)]
pub struct RustMethodArgument {
    pub argument_type: CompleteType,
    pub name: String,
    pub ffi_index: i32,
}

/// The flat FFI function that one variant of a method calls.
#[derive(Debug, Clone, PartialEq, Eq)]
pub struct CppFfiMethodRef {
    /// Symbol of the flat function.
    pub c_name: String,
    /// Number of arguments of the flat function.
    pub ffi_argument_count: usize,
}

/// One concrete signature of a wrapper method.
#[derive(Debug, PartialEq, Eq)]
pub struct RustMethodArgumentsVariant {
    pub arguments: Vec<RustMethodArgument>,
    pub cpp_method: CppFfiMethodRef,
    /// Slot of the hidden out-pointer through which the value is returned, if any.
    pub return_type_ffi_index: Option<i32>,
}

/// Text of one argument in the flat call, as its conversion policy writes it.
pub open spec fn arg_code(arg: RustMethodArgument, crate_name: Seq<char>) -> Seq<char> {
    let ffi = arg.argument_type.rust_ffi_type;
    match arg.argument_type.rust_api_to_c_conversion {
        RustToCTypeConversion::Unchanged => arg.name@,
        RustToCTypeConversion::RefToPtr => arg.name@ + " as "@ + type_code(ffi, crate_name),
        RustToCTypeConversion::ValueToPtr => (if ffi is Common && ffi->Common_is_const {
            "&"@
        } else {
            "&mut "@
        }) + arg.name@ + " as "@ + type_code(ffi, crate_name),
        RustToCTypeConversion::QFlagsToUInt => arg.name@ + ".to_int() as libc::c_uint"@,
    }
}

/// An argument that the generator can place: its slot exists and its
/// conversion can be written.
pub open spec fn arg_placeable(arg: RustMethodArgument, n: int) -> bool {
    let ffi = arg.argument_type.rust_ffi_type;
    &&& 0 <= arg.ffi_index < n
    &&& match arg.argument_type.rust_api_to_c_conversion {
        RustToCTypeConversion::RefToPtr => is_codeable(ffi),
        RustToCTypeConversion::ValueToPtr => ffi is Common && is_codeable(ffi),
        _ => true,
    }
}

/// Index of the last of the first `k` arguments that goes to slot `j`.
pub open spec fn last_arg_for_slot(all: Seq<RustMethodArgument>, k: int, j: int) -> Option<int>
    decreases k,
{
    if k <= 0 || k > all.len() {
        None
    } else if all[k - 1].ffi_index == j {
        Some(k - 1)
    } else {
        last_arg_for_slot(all, k - 1, j)
    }
}

/// Candidate name number `k` for the out-parameter: `object`, `object2`, ...
pub open spec fn out_candidate(k: nat) -> Seq<char> {
    if k <= 1 {
        "object"@
    } else {
        "object"@ + decimal(k)
    }
}

pub open spec fn arg_names(args: Seq<RustMethodArgument>) -> Seq<Seq<char>> {
    args.map_values(|a: RustMethodArgument| a.name@)
}

/// The first candidate from number `k` on that no argument is named; among
/// `n + 1` candidates for `n` names one is free, so the search stops there.
pub open spec fn probe_out_name(names: Seq<Seq<char>>, k: nat) -> Seq<char>
    decreases names.len() + 1 - k,
{
    if k > names.len() || !names.contains(out_candidate(k)) {
        out_candidate(k)
    } else {
        probe_out_name(names, k + 1)
    }
}

/// Name of the out-parameter variable for a call with these arguments
/// (shared ones first, then the variant's own).
pub open spec fn out_name(args: Seq<RustMethodArgument>) -> Seq<char> {
    probe_out_name(arg_names(args), 1)
}

/// Text of slot `j` of the flat call: the out-pointer if it goes there, else
/// the last argument assigned to it.
pub open spec fn slot_code(
    all: Seq<RustMethodArgument>,
    out: Option<int>,
    name: Seq<char>,
    j: int,
    crate_name: Seq<char>,
) -> Option<Seq<char>> {
    if out == Some(j) {
        Some("&mut "@ + name)
    } else {
        match last_arg_for_slot(all, all.len() as int, j) {
            Some(k) => Some(arg_code(all[k], crate_name)),
            None => None,
        }
    }
}

/// Whether slot `j` receives the out-pointer or an argument.
pub open spec fn slot_filled(all: Seq<RustMethodArgument>, out: Option<int>, j: int) -> bool {
    out == Some(j) || last_arg_for_slot(all, all.len() as int, j) is Some
}

/// Whether each of the `n` slots is filled.
pub open spec fn all_slots_filled(all: Seq<RustMethodArgument>, out: Option<int>, n: int) -> bool {
    forall|j: int| 0 <= j < n ==> #[trigger] slot_filled(all, out, j)
}

/// The slot of the out-pointer, if the variant returns through one.
pub open spec fn out_slot(variant: RustMethodArgumentsVariant) -> Option<int> {
    match variant.return_type_ffi_index {
        Some(i) => Some(i as int),
        None => None,
    }
}

/// Texts of the first `n` slots; meaningful where each is filled.
pub open spec fn slot_codes(
    all: Seq<RustMethodArgument>,
    out: Option<int>,
    name: Seq<char>,
    n: int,
    crate_name: Seq<char>,
) -> Seq<Seq<char>> {
    Seq::new(n as nat, |j: int| slot_code(all, out, name, j, crate_name)->0)
}

/// Everything the generator needs to emit one flat call; anything else is a
/// defect of the generator.
#[verifier::opaque]
pub open spec fn ffi_call_valid(
    return_type: CompleteType,
    variant: RustMethodArgumentsVariant,
    shared: Seq<RustMethodArgument>,
) -> bool {
    let all = shared + variant.arguments@;
    let n = variant.cpp_method.ffi_argument_count as int;
    &&& forall|k: int| 0 <= k < all.len() ==> arg_placeable(#[trigger] all[k], n)
    &&& match variant.return_type_ffi_index {
        Some(i) => 0 <= i < n && is_codeable(return_type.rust_api_type),
        None => true,
    }
    &&& all_slots_filled(all, out_slot(variant), n)
    &&& match return_type.rust_api_to_c_conversion {
        RustToCTypeConversion::RefToPtr => return_type.rust_ffi_type is Common,
        RustToCTypeConversion::QFlagsToUInt => return_type.rust_api_type is Common,
        _ => true,
    }
}

/// The flat call with its out-parameter set-up, before the result is converted.
pub open spec fn raw_call_code(
    return_type: CompleteType,
    variant: RustMethodArgumentsVariant,
    shared: Seq<RustMethodArgument>,
    crate_name: Seq<char>,
) -> Seq<char> {
    let all = shared + variant.arguments@;
    let n = variant.cpp_method.ffi_argument_count as int;
    let name = out_name(shared + variant.arguments@);
    let out = out_slot(variant);
    let call = "unsafe { ::ffi::"@ + variant.cpp_method.c_name@ + "("@ + join(
        slot_codes(all, out, name, n, crate_name),
        ", "@,
    ) + ") }"@;
    match out {
        Some(_) => "{\nlet mut "@ + name + " = unsafe { "@ + type_code(return_type.rust_api_type, crate_name)
            + "::new_uninitialized() };\n"@ + call + name + "\n}"@,
        None => call,
    }
}

/// The wrapper body of one variant: the flat call, then the conversion of its
/// result back to the API type.
#[verifier::opaque]
pub open spec fn ffi_call_code(
    return_type: CompleteType,
    variant: RustMethodArgumentsVariant,
    shared: Seq<RustMethodArgument>,
    crate_name: Seq<char>,
) -> Seq<char> {
    let code = raw_call_code(return_type, variant, shared, crate_name);
    match return_type.rust_api_to_c_conversion {
        RustToCTypeConversion::Unchanged => code,
        RustToCTypeConversion::RefToPtr => "let ffi_result = "@ + code + ";\nunsafe { "@ + (if return_type.rust_ffi_type->Common_is_const {
            "& "@
        } else {
            "&mut "@
        }) + "*ffi_result }"@,
        RustToCTypeConversion::ValueToPtr => if variant.return_type_ffi_index is Some {
            code
        } else {
            "let ffi_result = "@ + code + ";\nunsafe { *ffi_result }"@
        },
        RustToCTypeConversion::QFlagsToUInt => "let ffi_result = "@ + code + ";\n"@ + match return_type.rust_api_type {
            RustType::Common { base, is_const, indirection, .. } => indirection_prefix(indirection, is_const)
                + full_name(base.parts@, crate_name),
            _ => Seq::empty(),
        } + "::from_int(ffi_result as i32)"@,
    }
}


/// Whether some argument is named `name`.
fn has_arg_named(args: &Vec<RustMethodArgument>, name: &String) -> (r: bool)
    ensures
        r == arg_names(args@).contains(name@),
{
    let mut i: usize = 0;
    while i < args.len()
        invariant
            i <= args@.len(),
            forall|j: int| 0 <= j < i ==> args@[j].name@ != name@,
        decreases args.len() - i,
    {
        if args[i].name.eq(name) {
            proof {
                assert(arg_names(args@)[i as int] == name@);
            }
            return true;
        }
        i = i + 1;
    }
    proof {
        if arg_names(args@).contains(name@) {
            let j = choose|j: int| 0 <= j < arg_names(args@).len() && arg_names(args@)[j] == name@;
            assert(args@[j].name@ == name@);
        }
    }
    false
}

fn out_candidate_string(k: usize) -> (r: String)
    ensures
        r@ == out_candidate(k as nat),
{
    let mut r = String::from_str("object");
    if k > 1 {
        let d = decimal_string(k as u64);
        r.append(d.as_str());
    }
    r
}

/// Whether some argument of `shared` or `own` is named `name`.
fn has_name_in(shared: &Vec<RustMethodArgument>, own: &Vec<RustMethodArgument>, name: &String) -> (r: bool)
    ensures
        r == arg_names(shared@ + own@).contains(name@),
{
    proof {
        assert(arg_names(shared@ + own@) =~= arg_names(shared@) + arg_names(own@));
    }
    let r = has_arg_named(shared, name) || has_arg_named(own, name);
    proof {
        let all = arg_names(shared@) + arg_names(own@);
        if all.contains(name@) {
            let j = choose|j: int| 0 <= j < all.len() && all[j] == name@;
            if j < arg_names(shared@).len() {
                assert(arg_names(shared@)[j] == name@);
            } else {
                assert(arg_names(own@)[j - arg_names(shared@).len()] == name@);
            }
        }
        if r {
            if arg_names(shared@).contains(name@) {
                let j = choose|j: int| 0 <= j < arg_names(shared@).len() && arg_names(shared@)[j] == name@;
                assert(all[j] == name@);
            } else {
                let j = choose|j: int| 0 <= j < arg_names(own@).len() && arg_names(own@)[j] == name@;
                assert(all[j + arg_names(shared@).len()] == name@);
            }
        }
    }
    r
}

/// Name for the variable that receives a returned value: the first of
/// `object`, `object2`, `object3`, ... that no argument of the call, shared
/// or the variant's own, is named.
pub fn out_param_name(shared: &Vec<RustMethodArgument>, own: &Vec<RustMethodArgument>) -> (r: String)
    requires
        shared@.len() + own@.len() < usize::MAX,
    ensures
        r@ == out_name(shared@ + own@),
{
    let ghost names = arg_names(shared@ + own@);
    let total = shared.len() + own.len();
    let mut k: usize = 1;
    let mut name = out_candidate_string(1);
    while k <= total && has_name_in(shared, own, &name)
        invariant
            total == shared@.len() + own@.len(),
            1 <= k <= total + 1,
            total < usize::MAX,
            names == arg_names(shared@ + own@),
            names.len() == total,
            name@ == out_candidate(k as nat),
            probe_out_name(names, 1) == probe_out_name(names, k as nat),
        decreases total + 1 - k,
    {
        k = k + 1;
        name = out_candidate_string(k);
    }
    name
}


/// Text of one argument in the flat call.
fn argument_code(arg: &RustMethodArgument, crate_name: &str) -> (r: String)
    requires
        arg_placeable(*arg, arg.ffi_index + 1),
    ensures
        r@ == arg_code(*arg, crate_name@),
{
    let ffi = &arg.argument_type.rust_ffi_type;
    let mut r = String::new();
    match arg.argument_type.rust_api_to_c_conversion {
        RustToCTypeConversion::Unchanged => {
            r.append(arg.name.as_str());
        },
        RustToCTypeConversion::RefToPtr => {
            r.append(arg.name.as_str());
            r.append(" as ");
            let t = rust_type_to_code(ffi, crate_name);
            r.append(t.as_str());
        },
        RustToCTypeConversion::ValueToPtr => {
            let is_const = match ffi {
                RustType::Common { is_const, .. } => *is_const,
                _ => false,
            };
            if is_const {
                r.append("&");
            } else {
                r.append("&mut ");
            }
            r.append(arg.name.as_str());
            r.append(" as ");
            let t = rust_type_to_code(ffi, crate_name);
            r.append(t.as_str());
        },
        RustToCTypeConversion::QFlagsToUInt => {
            r.append(arg.name.as_str());
            r.append(".to_int() as libc::c_uint");
        },
    }
    proof {
        assert(r@ =~= arg_code(*arg, crate_name@));
    }
    r
}

/// Checks that an argument can be placed among `n` slots.
fn argument_placeable(arg: &RustMethodArgument, n: usize) -> (r: bool)
    ensures
        r == arg_placeable(*arg, n as int),
{
    if arg.ffi_index < 0 || arg.ffi_index as usize >= n {
        return false;
    }
    match arg.argument_type.rust_api_to_c_conversion {
        RustToCTypeConversion::RefToPtr => type_is_codeable(&arg.argument_type.rust_ffi_type),
        RustToCTypeConversion::ValueToPtr => match &arg.argument_type.rust_ffi_type {
            RustType::Common { .. } => type_is_codeable(&arg.argument_type.rust_ffi_type),
            _ => false,
        },
        _ => true,
    }
}

/// The generator's settings that the emitted text depends on.
pub struct RustCodeGenerator {
    /// Name of the generated crate; its own names are written `::`-rooted.
    pub crate_name: String,
    /// Name of the native shim library.
    pub c_lib_name: String,
    /// Name of the wrapped native library.
    pub cpp_lib_name: String,
}

impl RustCodeGenerator {
    /// Body of a wrapper for one variant: fills each slot of the flat call
    /// from its argument, passes a fresh out-variable where the value is
    /// returned through storage, and converts the result back. Fails when the
    /// variant is inconsistent (a slot out of range or left empty).
    pub fn generate_ffi_call(
        &self,
        return_type: &CompleteType,
        variant: &RustMethodArgumentsVariant,
        shared_arguments: &Vec<RustMethodArgument>,
    ) -> (r: Result<String, BindingError>)
        requires
            shared_arguments@.len() + variant.arguments@.len() < usize::MAX,
        ensures
            match r {
                Ok(code) => ffi_call_valid(*return_type, *variant, shared_arguments@)
                    && code@ == ffi_call_code(*return_type, *variant, shared_arguments@, self.crate_name@),
                Err(e) => !ffi_call_valid(*return_type, *variant, shared_arguments@)
                    && e == BindingError::GenerationInvariantViolation,
            },
    {
        proof {
            reveal(ffi_call_valid);
            reveal(ffi_call_code);
        }
        let crate_name = self.crate_name.as_str();
        let ghost all = shared_arguments@ + variant.arguments@;
        let n = variant.cpp_method.ffi_argument_count;
        let ghost out: Option<int> = out_slot(*variant);
        let mut slots: Vec<Option<String>> = Vec::new();
        let mut j: usize = 0;
        while j < n
            invariant
                j <= n,
                slots@.len() == j,
                forall|m: int| 0 <= m < j ==> slots@[m] is None,
            decreases n - j,
        {
            slots.push(None);
            j = j + 1;
        }
        let s_len = shared_arguments.len();
        let total = s_len + variant.arguments.len();
        let mut k: usize = 0;
        while k < total
            invariant
                all == shared_arguments@ + variant.arguments@,
                s_len == shared_arguments@.len(),
                total == all.len(),
                n == variant.cpp_method.ffi_argument_count,
                k <= total,
                slots@.len() == n,
                forall|m: int| 0 <= m < k ==> arg_placeable(#[trigger] all[m], n as int),
                forall|m: int|
                    0 <= m < n ==> ((#[trigger] slots@[m]) is Some <==> last_arg_for_slot(all, k as int, m) is Some),
                forall|m: int|
                    0 <= m < n && (#[trigger] slots@[m]) is Some ==> slots@[m]->0@ == arg_code(
                        all[last_arg_for_slot(all, k as int, m)->0],
                        crate_name@,
                    ),
            decreases total - k,
        {
            let arg = if k < s_len {
                &shared_arguments[k]
            } else {
                &variant.arguments[k - s_len]
            };
            proof {
                assert(*arg == all[k as int]);
            }
            if !argument_placeable(arg, n) {
                proof {
                    reveal(ffi_call_valid);
                }
                return Err(BindingError::GenerationInvariantViolation);
            }
            let code = argument_code(arg, crate_name);
            let idx = arg.ffi_index as usize;
            slots.set(idx, Some(code));
            k = k + 1;
        }
        let mut prefix = String::new();
        let mut out_var: Option<String> = None;
        let ghost name = out_name(shared_arguments@ + variant.arguments@);
        match variant.return_type_ffi_index {
            Some(i) => {
                if i < 0 || i as usize >= n || !type_is_codeable(&return_type.rust_api_type) {
                    return Err(BindingError::GenerationInvariantViolation);
                }
                let var = out_param_name(shared_arguments, &variant.arguments);
                prefix.append("{\nlet mut ");
                prefix.append(var.as_str());
                prefix.append(" = unsafe { ");
                let t = rust_type_to_code(&return_type.rust_api_type, crate_name);
                prefix.append(t.as_str());
                prefix.append("::new_uninitialized() };\n");
                let mut slot = String::from_str("&mut ");
                slot.append(var.as_str());
                slots.set(i as usize, Some(slot));
                out_var = Some(var);
            },
            None => {},
        }
        proof {
            assert forall|m: int| 0 <= m < n implies ((#[trigger] slots@[m]) is Some <==> slot_filled(all, out, m))
                && (slots@[m] is Some ==> slots@[m]->0@ == slot_code(all, out, name, m, crate_name@)->0) by {}
        }
        let mut args_text = String::new();
        let mut j: usize = 0;
        while j < n
            invariant
                all == shared_arguments@ + variant.arguments@,
                n == variant.cpp_method.ffi_argument_count,
                out == out_slot(*variant),
                j <= n,
                slots@.len() == n,
                forall|m: int| 0 <= m < j ==> #[trigger] slot_filled(all, out, m),
                forall|m: int| 0 <= m < n ==> ((#[trigger] slots@[m]) is Some <==> slot_filled(all, out, m)),
                forall|m: int| 0 <= m < n && (#[trigger] slots@[m]) is Some ==> slots@[m]->0@ == slot_code(all, out, name, m, crate_name@)->0,
                args_text@ == join(slot_codes(all, out, name, n as int, crate_name@).subrange(0, j as int), ", "@),
            decreases n - j,
        {
            match &slots[j] {
                None => {
                    proof {
                        assert(slots@[j as int] is None);
                        assert(!slot_filled(all, out, j as int));
                        reveal(ffi_call_valid);
                    }
                    return Err(BindingError::GenerationInvariantViolation);
                },
                Some(text) => {
                    append_joined(&mut args_text, j == 0, ", ", text.as_str());
                    proof {
                        let sc = slot_codes(all, out, name, n as int, crate_name@);
                        assert(sc[j as int] == text@);
                        let prev = sc.subrange(0, j as int);
                        assert(sc.subrange(0, j + 1) =~= prev.push(text@));
                        if j > 0 {
                            lemma_join_push(prev, ", "@, text@);
                        } else {
                            assert(join(seq![text@], ", "@) == text@);
                        }
                    }
                },
            }
            j = j + 1;
        }
        match return_type.rust_api_to_c_conversion {
            RustToCTypeConversion::RefToPtr => match &return_type.rust_ffi_type {
                RustType::Common { .. } => {},
                _ => {
                    return Err(BindingError::GenerationInvariantViolation);
                },
            },
            RustToCTypeConversion::QFlagsToUInt => match &return_type.rust_api_type {
                RustType::Common { .. } => {},
                _ => {
                    return Err(BindingError::GenerationInvariantViolation);
                },
            },
            _ => {},
        }
        proof {
            assert(slot_codes(all, out, name, n as int, crate_name@).subrange(0, n as int) =~= slot_codes(all, out, name, n as int, crate_name@));
        }
        let mut code = prefix;
        code.append("unsafe { ::ffi::");
        code.append(variant.cpp_method.c_name.as_str());
        code.append("(");
        code.append(args_text.as_str());
        code.append(") }");
        match &out_var {
            Some(var) => {
                code.append(var.as_str());
                code.append("\n}");
            },
            None => {},
        }
        proof {
            assert(code@ =~= raw_call_code(*return_type, *variant, shared_arguments@, crate_name@));
        }
        let r = match return_type.rust_api_to_c_conversion {
            RustToCTypeConversion::Unchanged => code,
            RustToCTypeConversion::RefToPtr => {
                let is_const = match &return_type.rust_ffi_type {
                    RustType::Common { is_const, .. } => *is_const,
                    _ => false,
                };
                let mut r = String::from_str("let ffi_result = ");
                r.append(code.as_str());
                r.append(";\nunsafe { ");
                if is_const {
                    r.append("& ");
                } else {
                    r.append("&mut ");
                }
                r.append("*ffi_result }");
                r
            },
            RustToCTypeConversion::ValueToPtr => {
                if out_var.is_some() {
                    code
                } else {
                    let mut r = String::from_str("let ffi_result = ");
                    r.append(code.as_str());
                    r.append(";\nunsafe { *ffi_result }");
                    r
                }
            },
            RustToCTypeConversion::QFlagsToUInt => {
                let mut r = String::from_str("let ffi_result = ");
                r.append(code.as_str());
                r.append(";\n");
                let t = rust_type_to_code_without_generics(&return_type.rust_api_type, crate_name);
                r.append(t.as_str());
                r.append("::from_int(ffi_result as i32)");
                r
            },
        };
        proof {
            assert(r@ =~= ffi_call_code(*return_type, *variant, shared_arguments@, crate_name@));
        }
        Ok(r)
    }
}


/// `name: type` of one FFI argument.
pub open spec fn ffi_arg_text(arg: RustFFIArgument, crate_name: Seq<char>) -> Seq<char> {
    arg.name@ + ": "@ + type_code(arg.argument_type, crate_name)
}

/// Texts of the first `n` FFI arguments.
pub open spec fn ffi_arg_texts(args: Seq<RustFFIArgument>, n: int, crate_name: Seq<char>) -> Seq<Seq<char>> {
    Seq::new(n as nat, |i: int| ffi_arg_text(args[i], crate_name))
}

/// A flat function whose types can all be written.
pub open spec fn ffi_function_codeable(func: RustFFIFunction) -> bool {
    &&& (func.return_type is Void || is_codeable(func.return_type))
    &&& forall|i: int| 0 <= i < func.arguments@.len() ==> is_codeable(#[trigger] func.arguments@[i].argument_type)
}

/// The declaration of a flat function in the `extern` block.
pub open spec fn ffi_function_code(func: RustFFIFunction, crate_name: Seq<char>) -> Seq<char> {
    "  pub fn "@ + func.name@ + "("@ + join(
        ffi_arg_texts(func.arguments@, func.arguments@.len() as int, crate_name),
        ", "@,
    ) + ")"@ + (if func.return_type is Void {
        Seq::empty()
    } else {
        " -> "@ + type_code(func.return_type, crate_name)
    }) + ";\n"@
}

/// A value returned through caller storage comes back as the out-variable
/// itself: its slot holds `&mut` of the variable, the body ends with the
/// variable, and no result pointer is read. Where the out-slot is the last
/// one, the out-pointer is the trailing argument of the flat call.
pub proof fn law_value_return_without_copy(
    return_type: CompleteType,
    variant: RustMethodArgumentsVariant,
    shared: Seq<RustMethodArgument>,
    crate_name: Seq<char>,
)
    requires
        ffi_call_valid(return_type, variant, shared),
        return_type.rust_api_to_c_conversion == RustToCTypeConversion::ValueToPtr,
        variant.return_type_ffi_index is Some,
    ensures
        ({
            let n = variant.cpp_method.ffi_argument_count as int;
            let name = out_name(shared + variant.arguments@);
            let i = variant.return_type_ffi_index->0 as int;
            let slots = slot_codes(shared + variant.arguments@, out_slot(variant), name, n, crate_name);
            &&& ffi_call_code(return_type, variant, shared, crate_name) == raw_call_code(
                return_type,
                variant,
                shared,
                crate_name,
            )
            &&& slots[i] == "&mut "@ + name
            &&& i == n - 1 ==> slots.last() == "&mut "@ + name
            &&& raw_call_code(return_type, variant, shared, crate_name) == "{\nlet mut "@ + name
                + " = unsafe { "@ + type_code(return_type.rust_api_type, crate_name)
                + "::new_uninitialized() };\n"@ + "unsafe { ::ffi::"@ + variant.cpp_method.c_name@
                + "("@ + join(slots, ", "@) + ") }"@ + name + "\n}"@
        }),
{
    reveal(ffi_call_valid);
    reveal(ffi_call_code);
}

impl RustCodeGenerator {
    /// The declaration of a flat function in the `extern` block:
    /// `  pub fn name(arg: Type, ...) -> Ret;`.
    pub fn rust_ffi_function_to_code(&self, func: &RustFFIFunction) -> (r: String)
        requires
            ffi_function_codeable(*func),
        ensures
            r@ == ffi_function_code(*func, self.crate_name@),
    {
        let crate_name = self.crate_name.as_str();
        let ghost texts = ffi_arg_texts(func.arguments@, func.arguments@.len() as int, crate_name@);
        let mut args = String::new();
        let mut i: usize = 0;
        while i < func.arguments.len()
            invariant
                i <= func.arguments@.len(),
                ffi_function_codeable(*func),
                texts == ffi_arg_texts(func.arguments@, func.arguments@.len() as int, crate_name@),
                args@ == join(texts.subrange(0, i as int), ", "@),
            decreases func.arguments.len() - i,
        {
            let arg = &func.arguments[i];
            let mut t = arg.name.clone();
            t.append(": ");
            proof {
                assert(is_codeable(func.arguments@[i as int].argument_type));
            }
            let c = rust_type_to_code(&arg.argument_type, crate_name);
            t.append(c.as_str());
            append_joined(&mut args, i == 0, ", ", t.as_str());
            proof {
                let prev = texts.subrange(0, i as int);
                assert(t@ == texts[i as int]);
                assert(texts.subrange(0, i + 1) =~= prev.push(t@));
                if i > 0 {
                    lemma_join_push(prev, ", "@, t@);
                } else {
                    assert(join(seq![t@], ", "@) == t@);
                }
            }
            i = i + 1;
        }
        let mut r = String::from_str("  pub fn ");
        r.append(func.name.as_str());
        r.append("(");
        r.append(args.as_str());
        r.append(")");
        match &func.return_type {
            RustType::Void => {},
            rt => {
                r.append(" -> ");
                let c = rust_type_to_code(rt, crate_name);
                r.append(c.as_str());
            },
        }
        r.append(";\n");
        proof {
            assert(texts.subrange(0, texts.len() as int) =~= texts);
            assert(r@ =~= ffi_function_code(*func, crate_name@));
        }
        r
    }
}


/// Where a generated method stands.
#[derive(Debug, Clone, Copy, PartialEq, Eq, Structural)]
pub enum RustMethodScope {
    /// An inherent method of a type.
    Impl,
    /// A method of a trait implementation (no `pub`).
    TraitImpl,
    /// A free function of a module.
    Free,
}

/// The signatures of a generated method: one, or several collapsed into one
/// function that takes a variant selector.
#[derive(Debug, PartialEq, Eq)]
pub enum RustMethodArguments {
    SingleVariant(RustMethodArgumentsVariant),
    MultipleVariants {
        params_enum_name: String,
        params_trait_name: String,
        enum_has_lifetime: bool,
        shared_arguments: Vec<RustMethodArgument>,
        variant_argument_name: String,
        variants: Vec<RustMethodArgumentsVariant>,
    },
}

/// A generated wrapper method.
#[derive(Debug, PartialEq, Eq)]
pub struct RustMethod {
    pub scope: RustMethodScope,
    pub return_type: CompleteType,
    pub name: RustName,
    pub arguments: RustMethodArguments,
}

/// ASCII upper case of a letter; other characters stay.
pub open spec fn upper_char(c: char) -> char {
    if 'a' <= c && c <= 'z' {
        ((c as u32) - 32) as char
    } else {
        c
    }
}

/// `snake_case` to `ClassCase`: underscores dropped, the first letter of each
/// word upper-cased.
pub open spec fn class_case(s: Seq<char>) -> Seq<char>
    decreases s.len(),
{
    if s.len() == 0 {
        Seq::empty()
    } else {
        let c = s.last();
        let prev = class_case(s.drop_last());
        if c == '_' {
            prev
        } else if s.len() == 1 || s[s.len() - 2] == '_' {
            prev.push(upper_char(c))
        } else {
            prev.push(c)
        }
    }
}

fn upper_of(c: char) -> (r: char)
    ensures
        r == upper_char(c),
{
    if 'a' <= c && c <= 'z' {
        ((c as u8) - 32) as char
    } else {
        c
    }
}

/// `snake_case` to `ClassCase`.
pub fn to_class_case(s: &str) -> (r: String)
    ensures
        r@ == class_case(s@),
{
    let n = s.unicode_len();
    let mut r = String::new();
    let mut i: usize = 0;
    while i < n
        invariant
            n == s@.len(),
            i <= n,
            r@ == class_case(s@.subrange(0, i as int)),
        decreases n - i,
    {
        let c = s.get_char(i);
        let ghost pre = s@.subrange(0, i + 1);
        proof {
            assert(pre.drop_last() =~= s@.subrange(0, i as int));
            assert(pre.last() == c);
        }
        if c != '_' {
            if i == 0 || s.get_char(i - 1) == '_' {
                push_char(&mut r, upper_of(c));
            } else {
                push_char(&mut r, c);
            }
        }
        proof {
            if i > 0 {
                assert(pre[pre.len() - 2] == s@[i - 1]);
            }
        }
        i = i + 1;
    }
    proof {
        assert(s@.subrange(0, n as int) =~= s@);
    }
    r
}

/// `pub ` except in a trait implementation.
pub open spec fn pub_qualifier(scope: RustMethodScope) -> Seq<char> {
    match scope {
        RustMethodScope::TraitImpl => Seq::empty(),
        _ => "pub "@,
    }
}

/// ` -> Type` of the API return type, or nothing for `Void`.
pub open spec fn return_signature(rt: CompleteType, crate_name: Seq<char>) -> Seq<char> {
    match rt.rust_api_type {
        RustType::Void => Seq::empty(),
        _ => " -> "@ + type_code(rt.rust_api_type, crate_name),
    }
}

/// A by-value argument that the flat call takes by mutable address must be
/// declared `mut`.
pub open spec fn needs_mut(arg: RustMethodArgument) -> bool {
    &&& arg.argument_type.rust_api_type is Common
    &&& arg.argument_type.rust_api_type->Common_indirection == RustTypeIndirection::Direct
    &&& arg.argument_type.rust_api_to_c_conversion == RustToCTypeConversion::ValueToPtr
    &&& arg.argument_type.rust_ffi_type is Common
    &&& !arg.argument_type.rust_ffi_type->Common_is_const
}

/// `name: Type` of an argument in the wrapper's signature.
pub open spec fn api_arg_text(arg: RustMethodArgument, crate_name: Seq<char>) -> Seq<char> {
    (if needs_mut(arg) {
        "mut "@
    } else {
        Seq::empty()
    }) + arg.name@ + ": "@ + type_code(arg.argument_type.rust_api_type, crate_name)
}

pub open spec fn api_arg_texts(args: Seq<RustMethodArgument>, crate_name: Seq<char>) -> Seq<Seq<char>> {
    Seq::new(args.len(), |i: int| api_arg_text(args[i], crate_name))
}

/// The name a method is declared under: the last part of its path.
pub open spec fn last_name(name: RustName) -> Seq<char> {
    name.parts@.last()@
}

/// Everything a wrapper method needs: written types, a name, and a valid
/// flat call for each variant.
pub open spec fn final_function_valid(func: RustMethod) -> bool {
    &&& func.name.parts@.len() > 0
    &&& (func.return_type.rust_api_type is Void || is_codeable(func.return_type.rust_api_type))
    &&& match func.arguments {
        RustMethodArguments::SingleVariant(v) => {
            &&& forall|i: int| 0 <= i < v.arguments@.len() ==> is_codeable((#[trigger] v.arguments@[i]).argument_type.rust_api_type)
            &&& ffi_call_valid(func.return_type, v, Seq::empty())
        },
        RustMethodArguments::MultipleVariants { shared_arguments, variants, .. } => {
            &&& forall|i: int| 0 <= i < shared_arguments@.len() ==> is_codeable((#[trigger] shared_arguments@[i]).argument_type.rust_api_type)
            &&& forall|k: int| 0 <= k < variants@.len() ==> ffi_call_valid(func.return_type, #[trigger] variants@[k], shared_arguments@)
        },
    }
}

/// Names of a variant's own arguments, in parentheses, or nothing.
pub open spec fn variant_pattern(v: RustMethodArgumentsVariant) -> Seq<char> {
    if v.arguments@.len() == 0 {
        Seq::empty()
    } else {
        "("@ + join(arg_names(v.arguments@), ", "@) + ")"@
    }
}

/// One arm of the dispatch on the variant selector.
pub open spec fn variant_arm(
    func: RustMethod,
    enum_name: Seq<char>,
    num: nat,
    v: RustMethodArgumentsVariant,
    shared: Seq<RustMethodArgument>,
    crate_name: Seq<char>,
) -> Seq<char> {
    enum_name + "::Variant"@ + decimal(num) + variant_pattern(v) + " => { "@ + ffi_call_code(
        func.return_type,
        v,
        shared,
        crate_name,
    ) + " },"@
}

/// The complete text of a wrapper method.
pub open spec fn final_function_code(func: RustMethod, crate_name: Seq<char>) -> Seq<char> {
    let pubq = pub_qualifier(func.scope);
    let ret = return_signature(func.return_type, crate_name);
    let name = last_name(func.name);
    match func.arguments {
        RustMethodArguments::SingleVariant(v) => pubq + "fn "@ + name + "("@ + join(
            api_arg_texts(v.arguments@, crate_name),
            ", "@,
        ) + ")"@ + ret + " {\n"@ + ffi_call_code(func.return_type, v, Seq::empty(), crate_name) + "}\n\n"@,
        RustMethodArguments::MultipleVariants {
            params_enum_name,
            params_trait_name,
            enum_has_lifetime,
            shared_arguments,
            variant_argument_name,
            variants,
        } => {
            let tpl = class_case(variant_argument_name@);
            let args = api_arg_texts(shared_arguments@, crate_name).push(
                variant_argument_name@ + ": "@ + tpl,
            );
            let arms = Seq::new(
                variants@.len(),
                |k: int|
                    variant_arm(func, params_enum_name@, k as nat, variants@[k], shared_arguments@, crate_name),
            );
            let body = "match "@ + variant_argument_name@ + ".as_enum() {\n"@ + join(arms, "\n"@) + "\n}"@;
            pubq + "fn "@ + name + "<"@ + (if enum_has_lifetime {
                "'a, "@
            } else {
                Seq::empty()
            }) + tpl + ": "@ + params_trait_name@ + (if enum_has_lifetime {
                "<'a>"@
            } else {
                Seq::empty()
            }) + ">("@ + join(args, ", "@) + ")"@ + ret + " {\n"@ + body + "}\n\n"@
        },
    }
}


/// Argument counts small enough for the generator's indices.
pub open spec fn final_function_fits(func: RustMethod) -> bool {
    match func.arguments {
        RustMethodArguments::SingleVariant(v) => v.arguments@.len() < usize::MAX,
        RustMethodArguments::MultipleVariants { shared_arguments, variants, .. } => forall|k: int|
            0 <= k < variants@.len() ==> shared_arguments@.len() + (#[trigger] variants@[k]).arguments@.len()
                < usize::MAX,
    }
}

/// Joins the strings of `parts` with `sep`.
pub(crate) fn join_all(parts: &Vec<String>, sep: &str) -> (r: String)
    ensures
        r@ == join(names_of(parts@), sep@),
{
    let r = join_from(parts, 0, sep);
    proof {
        assert(names_of(parts@).subrange(0, parts@.len() as int) =~= names_of(parts@));
    }
    r
}

/// Whether the API types of all arguments can be written.
fn api_types_codeable(args: &Vec<RustMethodArgument>) -> (r: bool)
    ensures
        r == forall|i: int| 0 <= i < args@.len() ==> is_codeable((#[trigger] args@[i]).argument_type.rust_api_type),
{
    let mut i: usize = 0;
    while i < args.len()
        invariant
            i <= args@.len(),
            forall|k: int| 0 <= k < i ==> is_codeable((#[trigger] args@[k]).argument_type.rust_api_type),
        decreases args.len() - i,
    {
        if !type_is_codeable(&args[i].argument_type.rust_api_type) {
            return false;
        }
        i = i + 1;
    }
    true
}

/// `(a, b, c)` of a variant's argument names, or nothing when it has none.
fn variant_pattern_text(v: &RustMethodArgumentsVariant) -> (r: String)
    ensures
        r@ == variant_pattern(*v),
{
    if v.arguments.len() == 0 {
        return String::new();
    }
    let mut names: Vec<String> = Vec::new();
    let mut i: usize = 0;
    while i < v.arguments.len()
        invariant
            i <= v.arguments@.len(),
            names@.len() == i,
            forall|k: int| 0 <= k < i ==> (#[trigger] names@[k])@ == v.arguments@[k].name@,
        decreases v.arguments.len() - i,
    {
        names.push(v.arguments[i].name.clone());
        i = i + 1;
    }
    let j = join_all(&names, ", ");
    proof {
        assert(names_of(names@) =~= arg_names(v.arguments@));
    }
    let mut r = String::from_str("(");
    r.append(j.as_str());
    r.append(")");
    r
}

impl RustCodeGenerator {
    /// The dispatch arms of a method with several variants, in declaration order.
    fn variant_arms(
        &self,
        func: &RustMethod,
        params_enum_name: &String,
        shared_arguments: &Vec<RustMethodArgument>,
        variants: &Vec<RustMethodArgumentsVariant>,
    ) -> (r: Result<Vec<String>, BindingError>)
        requires
            forall|k: int| 0 <= k < variants@.len() ==> shared_arguments@.len() + (#[trigger] variants@[k]).arguments@.len() < usize::MAX,
        ensures
            match r {
                Ok(arms) => (forall|k: int| 0 <= k < variants@.len() ==> ffi_call_valid(func.return_type, #[trigger] variants@[k], shared_arguments@))
                    && names_of(arms@) == Seq::new(
                        variants@.len(),
                        |k: int| variant_arm(*func, params_enum_name@, k as nat, variants@[k], shared_arguments@, self.crate_name@),
                    ),
                Err(e) => !(forall|k: int| 0 <= k < variants@.len() ==> ffi_call_valid(func.return_type, #[trigger] variants@[k], shared_arguments@))
                    && e == BindingError::GenerationInvariantViolation,
            },
    {
        let ghost arms_spec = Seq::new(
            variants@.len(),
            |k: int| variant_arm(*func, params_enum_name@, k as nat, variants@[k], shared_arguments@, self.crate_name@),
        );
        let mut arms: Vec<String> = Vec::new();
        let mut k: usize = 0;
        while k < variants.len()
            invariant
                forall|m: int| 0 <= m < variants@.len() ==> shared_arguments@.len() + (#[trigger] variants@[m]).arguments@.len() < usize::MAX,
                arms_spec == Seq::new(
                    variants@.len(),
                    |k: int| variant_arm(*func, params_enum_name@, k as nat, variants@[k], shared_arguments@, self.crate_name@),
                ),
                k <= variants@.len(),
                arms@.len() == k,
                forall|m: int| 0 <= m < k ==> ffi_call_valid(func.return_type, #[trigger] variants@[m], shared_arguments@),
                forall|m: int| 0 <= m < k ==> (#[trigger] arms@[m])@ == arms_spec[m],
            decreases variants.len() - k,
        {
            let v = &variants[k];
            proof {
                assert(shared_arguments@.len() + variants@[k as int].arguments@.len() < usize::MAX);
            }
            let call = match self.generate_ffi_call(&func.return_type, v, shared_arguments) {
                Ok(c) => c,
                Err(e) => {
                    return Err(e);
                },
            };
            let mut arm = params_enum_name.clone();
            arm.append("::Variant");
            let num = decimal_string(k as u64);
            arm.append(num.as_str());
            let pat = variant_pattern_text(v);
            arm.append(pat.as_str());
            arm.append(" => { ");
            arm.append(call.as_str());
            arm.append(" },");
            proof {
                assert(arm@ =~= arms_spec[k as int]);
            }
            arms.push(arm);
            k = k + 1;
        }
        proof {
            assert(names_of(arms@) =~= arms_spec);
        }
        Ok(arms)
    }

    /// Texts `name: Type` of the wrapper's arguments.
    fn api_argument_texts(&self, args: &Vec<RustMethodArgument>) -> (r: Vec<String>)
        requires
            forall|i: int| 0 <= i < args@.len() ==> is_codeable((#[trigger] args@[i]).argument_type.rust_api_type),
        ensures
            names_of(r@) == api_arg_texts(args@, self.crate_name@),
    {
        let mut out: Vec<String> = Vec::new();
        let mut i: usize = 0;
        while i < args.len()
            invariant
                i <= args@.len(),
                forall|k: int| 0 <= k < args@.len() ==> is_codeable((#[trigger] args@[k]).argument_type.rust_api_type),
                out@.len() == i,
                forall|k: int| 0 <= k < i ==> (#[trigger] out@[k])@ == api_arg_text(args@[k], self.crate_name@),
            decreases args.len() - i,
        {
            let arg = &args[i];
            let mut t = String::new();
            let needs = match (&arg.argument_type.rust_api_type, &arg.argument_type.rust_ffi_type) {
                (RustType::Common { indirection: RustTypeIndirection::Direct, .. }, RustType::Common { is_const, .. }) => {
                    arg.argument_type.rust_api_to_c_conversion == RustToCTypeConversion::ValueToPtr && !*is_const
                },
                _ => false,
            };
            if needs {
                t.append("mut ");
            }
            t.append(arg.name.as_str());
            t.append(": ");
            proof {
                assert(is_codeable(args@[i as int].argument_type.rust_api_type));
            }
            let c = rust_type_to_code(&arg.argument_type.rust_api_type, self.crate_name.as_str());
            t.append(c.as_str());
            proof {
                assert(needs == needs_mut(*arg));
                assert(t@ =~= api_arg_text(*arg, self.crate_name@));
            }
            out.push(t);
            i = i + 1;
        }
        proof {
            assert(names_of(out@) =~= api_arg_texts(args@, self.crate_name@));
        }
        out
    }

    /// The complete text of a wrapper method: its signature from the API
    /// types, and a body that calls the flat function (through a dispatch on
    /// the variant selector where overloads were collapsed). Fails when a
    /// variant's flat call is inconsistent.
    #[verifier::rlimit(80)]
    pub fn generate_rust_final_function(&self, func: &RustMethod) -> (r: Result<String, BindingError>)
        requires
            final_function_fits(*func),
        ensures
            match r {
                Ok(code) => final_function_valid(*func) && code@ == final_function_code(*func, self.crate_name@),
                Err(e) => !final_function_valid(*func) && e == BindingError::GenerationInvariantViolation,
            },
    {
        let crate_name = self.crate_name.as_str();
        if func.name.parts.len() == 0 {
            return Err(BindingError::GenerationInvariantViolation);
        }
        let mut ret = String::new();
        match &func.return_type.rust_api_type {
            RustType::Void => {},
            t => {
                if !type_is_codeable(t) {
                    return Err(BindingError::GenerationInvariantViolation);
                }
                ret.append(" -> ");
                let c = rust_type_to_code(t, crate_name);
                ret.append(c.as_str());
            },
        }
        let mut r = String::new();
        match func.scope {
            RustMethodScope::TraitImpl => {},
            _ => r.append("pub "),
        }
        r.append("fn ");
        let name = &func.name.parts[func.name.parts.len() - 1];
        r.append(name.as_str());
        match &func.arguments {
            RustMethodArguments::SingleVariant(v) => {
                if !api_types_codeable(&v.arguments) {
                    return Err(BindingError::GenerationInvariantViolation);
                }
                let empty: Vec<RustMethodArgument> = Vec::new();
                let body = match self.generate_ffi_call(&func.return_type, v, &empty) {
                    Ok(b) => b,
                    Err(e) => {
                        proof {
                            assert(empty@ =~= Seq::<RustMethodArgument>::empty());
                        }
                        return Err(e);
                    },
                };
                let texts = self.api_argument_texts(&v.arguments);
                let args = join_all(&texts, ", ");
                r.append("(");
                r.append(args.as_str());
                r.append(")");
                r.append(ret.as_str());
                r.append(" {\n");
                r.append(body.as_str());
                r.append("}\n\n");
                proof {
                    assert(empty@ =~= Seq::<RustMethodArgument>::empty());
                    assert(r@ =~= final_function_code(*func, crate_name@));
                }
                Ok(r)
            },
            RustMethodArguments::MultipleVariants {
                params_enum_name,
                params_trait_name,
                enum_has_lifetime,
                shared_arguments,
                variant_argument_name,
                variants,
            } => {
                if !api_types_codeable(shared_arguments) {
                    return Err(BindingError::GenerationInvariantViolation);
                }
                let tpl = to_class_case(variant_argument_name.as_str());
                let arms = match self.variant_arms(func, params_enum_name, shared_arguments, variants) {
                    Ok(a) => a,
                    Err(e) => {
                        return Err(e);
                    },
                };
                let ghost arms_spec = Seq::new(
                    variants@.len(),
                    |k: int|
                        variant_arm(*func, params_enum_name@, k as nat, variants@[k], shared_arguments@, crate_name@),
                );
                let mut texts = self.api_argument_texts(shared_arguments);
                let mut last = variant_argument_name.clone();
                last.append(": ");
                last.append(tpl.as_str());
                let ghost before = texts@;
                texts.push(last);
                proof {
                    assert(names_of(texts@) =~= names_of(before).push(last@));
                }
                let args = join_all(&texts, ", ");
                let joined_arms = join_all(&arms, "\n");
                r.append("<");
                if *enum_has_lifetime {
                    r.append("'a, ");
                }
                r.append(tpl.as_str());
                r.append(": ");
                r.append(params_trait_name.as_str());
                if *enum_has_lifetime {
                    r.append("<'a>");
                }
                r.append(">(");
                r.append(args.as_str());
                r.append(")");
                r.append(ret.as_str());
                r.append(" {\n");
                r.append("match ");
                r.append(variant_argument_name.as_str());
                r.append(".as_enum() {\n");
                r.append(joined_arms.as_str());
                r.append("\n}");
                r.append("}\n\n");
                proof {
                    assert(r@ =~= final_function_code(*func, crate_name@));
                }
                Ok(r)
            },
        }
    }
}


/// The crate root: crate imports, the built-in modules, then each generated
/// module.
pub open spec fn lib_file_code(modules: Seq<String>) -> Seq<char> {
    "#![allow(drop_with_repr_extern)]\n\n"@ + "pub extern crate libc;\n"@ + "pub extern crate cpp_box;\n\n"@
        + "pub mod flags;\n\n"@ + "#[allow(dead_code)]\n"@ + "pub mod ffi;\n\n"@ + join(
        Seq::new(modules.len(), |i: int| "pub mod "@ + modules[i]@ + ";\n"@),
        ""@,
    )
}

/// A generated module that takes the name of a built-in one.
pub open spec fn module_name_conflict(modules: Seq<String>) -> bool {
    exists|i: int| 0 <= i < modules.len() && (modules[i]@ == "flags"@ || modules[i]@ == "ffi"@)
}

/// The `extern` block of one header's flat functions.
pub open spec fn ffi_header_code(header: Seq<char>, functions: Seq<RustFFIFunction>, crate_name: Seq<char>) -> Seq<char> {
    "  // Header: "@ + header + "\n"@ + join(
        Seq::new(functions.len(), |i: int| ffi_function_code(functions[i], crate_name)),
        ""@,
    ) + "\n"@
}

/// A group of flat functions declared by one header.
#[derive(Debug, PartialEq, Eq)]
pub struct FfiHeader {
    pub include_file: String,
    pub functions: Vec<RustFFIFunction>,
}

pub open spec fn ffi_headers_codeable(headers: Seq<FfiHeader>) -> bool {
    forall|h: int, i: int|
        0 <= h < headers.len() && 0 <= i < headers[h].functions@.len() ==> ffi_function_codeable(
            #[trigger] headers[h].functions@[i],
        )
}

impl RustCodeGenerator {
    /// The crate root of the generated crate; no generated module may take
    /// the name of a built-in one.
    pub fn lib_file_content(&self, modules: &Vec<String>) -> (r: String)
        requires
            !module_name_conflict(modules@),
        ensures
            r@ == lib_file_code(modules@),
    {
        let mut parts: Vec<String> = Vec::new();
        let mut i: usize = 0;
        while i < modules.len()
            invariant
                i <= modules@.len(),
                parts@.len() == i,
                forall|j: int| 0 <= j < i ==> (#[trigger] parts@[j])@ == "pub mod "@ + modules@[j]@ + ";\n"@,
            decreases modules.len() - i,
        {
            let mut t = String::from_str("pub mod ");
            t.append(modules[i].as_str());
            t.append(";\n");
            parts.push(t);
            i = i + 1;
        }
        let rest = join_all(&parts, "");
        proof {
            assert(names_of(parts@) =~= Seq::new(modules@.len(), |i: int| "pub mod "@ + modules@[i]@ + ";\n"@));
        }
        let mut r = String::from_str("#![allow(drop_with_repr_extern)]\n\n");
        r.append("pub extern crate libc;\n");
        r.append("pub extern crate cpp_box;\n\n");
        r.append("pub mod flags;\n\n");
        r.append("#[allow(dead_code)]\n");
        r.append("pub mod ffi;\n\n");
        r.append(rest.as_str());
        proof {
            assert(r@ =~= lib_file_code(modules@));
        }
        r
    }

    /// Whether a generated module takes the name of a built-in one.
    pub fn has_module_name_conflict(&self, modules: &Vec<String>) -> (r: bool)
        ensures
            r == module_name_conflict(modules@),
    {
        let flags = String::from_str("flags");
        let ffi = String::from_str("ffi");
        let mut i: usize = 0;
        while i < modules.len()
            invariant
                flags@ == "flags"@,
                ffi@ == "ffi"@,
                i <= modules@.len(),
                forall|j: int| 0 <= j < i ==> !(modules@[j]@ == "flags"@ || modules@[j]@ == "ffi"@),
            decreases modules.len() - i,
        {
            if modules[i].eq(&flags) || modules[i].eq(&ffi) {
                return true;
            }
            i = i + 1;
        }
        false
    }

    /// The `ffi` module: link attributes for the wrapped library, the C++
    /// runtime and the shim, then every flat function, header by header.
    pub fn ffi_file_content(&self, headers: &Vec<FfiHeader>) -> (r: String)
        requires
            ffi_headers_codeable(headers@),
        ensures
            r@ == "use libc;\n\n"@ + "#[link(name = \""@ + self.cpp_lib_name@ + "\")]\n"@
                + "#[link(name = \"stdc++\")]\n"@ + "#[link(name = \""@ + self.c_lib_name@
                + "\", kind = \"static\")]\n"@ + "extern \"C\" {\n"@ + join(
                Seq::new(
                    headers@.len(),
                    |h: int| ffi_header_code(headers@[h].include_file@, headers@[h].functions@, self.crate_name@),
                ),
                ""@,
            ) + "}\n"@,
    {
        let mut parts: Vec<String> = Vec::new();
        let mut h: usize = 0;
        while h < headers.len()
            invariant
                ffi_headers_codeable(headers@),
                h <= headers@.len(),
                parts@.len() == h,
                forall|j: int| 0 <= j < h ==> (#[trigger] parts@[j])@ == ffi_header_code(
                    headers@[j].include_file@,
                    headers@[j].functions@,
                    self.crate_name@,
                ),
            decreases headers.len() - h,
        {
            let header = &headers[h];
            let mut fns: Vec<String> = Vec::new();
            let mut i: usize = 0;
            while i < header.functions.len()
                invariant
                    ffi_headers_codeable(headers@),
                    h < headers@.len(),
                    *header == headers@[h as int],
                    i <= header.functions@.len(),
                    fns@.len() == i,
                    forall|j: int| 0 <= j < i ==> (#[trigger] fns@[j])@ == ffi_function_code(header.functions@[j], self.crate_name@),
                decreases header.functions.len() - i,
            {
                proof {
                    assert(ffi_function_codeable(headers@[h as int].functions@[i as int]));
                }
                let f = self.rust_ffi_function_to_code(&header.functions[i]);
                fns.push(f);
                i = i + 1;
            }
            let body = join_all(&fns, "");
            proof {
                assert(names_of(fns@) =~= Seq::new(header.functions@.len(), |i: int| ffi_function_code(header.functions@[i], self.crate_name@)));
            }
            let mut t = String::from_str("  // Header: ");
            t.append(header.include_file.as_str());
            t.append("\n");
            t.append(body.as_str());
            t.append("\n");
            proof {
                assert(t@ =~= ffi_header_code(header.include_file@, header.functions@, self.crate_name@));
            }
            parts.push(t);
            h = h + 1;
        }
        let all = join_all(&parts, "");
        proof {
            assert(names_of(parts@) =~= Seq::new(
                headers@.len(),
                |h: int| ffi_header_code(headers@[h].include_file@, headers@[h].functions@, self.crate_name@),
            ));
        }
        let mut r = String::from_str("use libc;\n\n");
        r.append("#[link(name = \"");
        r.append(self.cpp_lib_name.as_str());
        r.append("\")]\n");
        r.append("#[link(name = \"stdc++\")]\n");
        r.append("#[link(name = \"");
        r.append(self.c_lib_name.as_str());
        r.append("\", kind = \"static\")]\n");
        r.append("extern \"C\" {\n");
        r.append(all.as_str());
        r.append("}\n");
        r
    }
}

} // verus!
