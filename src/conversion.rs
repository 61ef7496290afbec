//! The conversion engine: which policy carries a native type across the flat
//! boundary, and where the slots of a flat signature go.
use crate::cpp_path::{
    lemma_item_view_name, lemma_type_view_shape, CppPath, CppPointerLikeTypeKind, CppType, ItemModel,
    TypeModel,
};
use crate::error::BindingError;
use crate::rust_type::RustToCTypeConversion;
use vstd::prelude::*;

verus! {

/// Name of the native flag-set wrapper template.
pub open spec fn flags_name() -> Seq<char> {
    "QFlags"@
}

/// A class path that names the native flag-set wrapper.
pub open spec fn is_flags_path(path: Seq<ItemModel>) -> bool {
    path.len() > 0 && path.last().name == flags_name()
}

/// The policy for a type in an argument or return position; `None` where no
/// policy applies.
pub open spec fn conversion_of(t: TypeModel) -> Option<RustToCTypeConversion> {
    match t {
        TypeModel::Void => Some(RustToCTypeConversion::Unchanged),
        TypeModel::BuiltIn { .. } => Some(RustToCTypeConversion::Unchanged),
        TypeModel::Enum { .. } => Some(RustToCTypeConversion::Unchanged),
        TypeModel::Class { path } => if is_flags_path(path) {
            Some(RustToCTypeConversion::QFlagsToUInt)
        } else {
            Some(RustToCTypeConversion::ValueToPtr)
        },
        TypeModel::TemplateParameter { .. } => None,
        TypeModel::PointerLike { kind, .. } => match kind {
            CppPointerLikeTypeKind::Pointer => Some(RustToCTypeConversion::Unchanged),
            CppPointerLikeTypeKind::Reference => Some(RustToCTypeConversion::RefToPtr),
            CppPointerLikeTypeKind::RValueReference => None,
        },
    }
}

/// Whether a path names the flag-set wrapper.
fn names_flags(path: &CppPath) -> (r: bool)
    ensures
        r == is_flags_path(path@),
{
    let last = path.last();
    proof {
        lemma_item_view_name(*last);
    }
    let flags = String::from_str("QFlags");
    last.name.eq(&flags)
}

/// Picks the one policy that carries a type across the boundary: plain
/// values and raw pointers unchanged, references as pointers, class values
/// through storage, flag sets as integers. Fails with `NoKnownConversion` on
/// a template parameter or an rvalue reference.
pub fn select_conversion(t: &CppType) -> (r: Result<RustToCTypeConversion, BindingError>)
    ensures
        match r {
            Ok(c) => conversion_of(t@) == Some(c),
            Err(e) => conversion_of(t@) is None && e == BindingError::NoKnownConversion,
        },
{
    proof {
        lemma_type_view_shape(*t);
    }
    match t {
        CppType::Void => Ok(RustToCTypeConversion::Unchanged),
        CppType::BuiltIn { .. } => Ok(RustToCTypeConversion::Unchanged),
        CppType::Enum { .. } => Ok(RustToCTypeConversion::Unchanged),
        CppType::Class(path) => {
            if names_flags(path) {
                Ok(RustToCTypeConversion::QFlagsToUInt)
            } else {
                Ok(RustToCTypeConversion::ValueToPtr)
            }
        },
        CppType::TemplateParameter { .. } => Err(BindingError::NoKnownConversion),
        CppType::PointerLike { kind, .. } => match kind {
            CppPointerLikeTypeKind::Pointer => Ok(RustToCTypeConversion::Unchanged),
            CppPointerLikeTypeKind::Reference => Ok(RustToCTypeConversion::RefToPtr),
            CppPointerLikeTypeKind::RValueReference => Err(BindingError::NoKnownConversion),
        },
    }
}

/// Slot count of a flat function with `n` arguments, and the slot of the
/// hidden out-pointer: a value returned through storage gets one more slot,
/// the last.
pub open spec fn flat_layout(n: nat, ret: RustToCTypeConversion) -> (nat, Option<nat>) {
    if ret == RustToCTypeConversion::ValueToPtr {
        (n + 1, Some(n))
    } else {
        (n, None)
    }
}

/// Lays out a flat signature: the arguments take slots `0..n` in order; a
/// value returned through storage adds a trailing out-pointer slot.
pub fn flat_signature_layout(argument_count: u32, return_conversion: RustToCTypeConversion) -> (r: (usize, Option<i32>))
    requires
        argument_count < i32::MAX,
    ensures
        r.0 == flat_layout(argument_count as nat, return_conversion).0,
        match r.1 {
            Some(i) => flat_layout(argument_count as nat, return_conversion).1 == Some(i as nat),
            None => flat_layout(argument_count as nat, return_conversion).1 is None,
        },
{
    let n = argument_count as usize;
    if return_conversion == RustToCTypeConversion::ValueToPtr {
        (n + 1, Some(argument_count as i32))
    } else {
        (n, None)
    }
}

/// A method that returns a class (other than a flag set) by value gets the
/// storage policy, and its flat signature ends with the out-pointer: the
/// last of its `n + 1` slots.
pub proof fn law_class_value_return_is_trailing_out_pointer(path: Seq<ItemModel>, n: nat)
    requires
        !is_flags_path(path),
    ensures
        conversion_of(TypeModel::Class { path }) == Some(RustToCTypeConversion::ValueToPtr),
        flat_layout(n, RustToCTypeConversion::ValueToPtr) == (n + 1, Some(n)),
{
}

} // verus!
