//! Rust-side types of the generated bindings, and how a value of each crosses
//! the boundary to the native shim.
use crate::cpp_path::{append_joined, join, lemma_join_push};
use vstd::prelude::*;

verus! {

/// A fully qualified Rust name; the first part is the crate.
#[derive(Debug, Clone, PartialEq, Eq, Hash)]
pub struct RustName {
    pub parts: Vec<String>,
}

/// How a Rust type refers to its base type.
#[derive(Debug, Clone, PartialEq, Eq, Hash)]
pub enum RustTypeIndirection {
    /// The base type itself.
    Direct,
    Ptr,
    Ref { lifetime: Option<String> },
    PtrPtr,
}

/// A Rust type as the generator writes it.
#[derive(Debug, PartialEq, Eq, Hash)]
pub enum RustType {
    Void,
    Common {
        base: RustName,
        generic_arguments: Option<Vec<RustType>>,
        is_const: bool,
        indirection: RustTypeIndirection,
    },
    FunctionPointer { return_type: Box<RustType>, arguments: Vec<RustType> },
}

/// How a value of the public API is turned into the value that the flat FFI
/// function takes, and back for a return value.
#[derive(Debug, Clone, Copy, PartialEq, Eq, Hash, Structural)]
pub enum RustToCTypeConversion {
    /// Same representation on both sides.
    Unchanged,
    /// A reference is passed as a raw pointer, constness kept.
    RefToPtr,
    /// A value is passed by address; a returned value is built in storage
    /// that the caller provides.
    ValueToPtr,
    /// A flag set is packed into a plain integer.
    QFlagsToUInt,
}

/// A type as seen by the public API and by the flat FFI function, with the
/// conversion between the two.
#[derive(Debug, PartialEq, Eq, Hash)]
pub struct CompleteType {
    pub rust_ffi_type: RustType,
    pub rust_api_type: RustType,
    pub rust_api_to_c_conversion: RustToCTypeConversion,
}

pub open spec fn names_of(parts: Seq<String>) -> Seq<Seq<char>> {
    parts.map_values(|p: String| p@)
}

/// A name as written from inside `crate_name`: `::`-rooted after the crate
/// when the name belongs to it, the bare name when it has one part, and
/// `::`-rooted in full otherwise.
pub open spec fn full_name(parts: Seq<String>, crate_name: Seq<char>) -> Seq<char> {
    let names = names_of(parts);
    if names.len() > 1 && names[0] == crate_name {
        "::"@ + join(names.drop_first(), "::"@)
    } else if names.len() == 1 {
        names[0]
    } else {
        "::"@ + join(names, "::"@)
    }
}

/// A type that can be written as code: `Void` stands only as the return type
/// of a function pointer.
pub open spec fn is_codeable(t: RustType) -> bool
    decreases t, 0int,
{
    match t {
        RustType::Void => false,
        RustType::Common { generic_arguments, .. } => match generic_arguments {
            None => true,
            Some(args) => all_codeable(args@, args@.len() as int),
        },
        RustType::FunctionPointer { return_type, arguments } => (match *return_type {
            RustType::Void => true,
            _ => is_codeable(*return_type),
        }) && all_codeable(arguments@, arguments@.len() as int),
    }
}

pub open spec fn all_codeable(ts: Seq<RustType>, n: int) -> bool
    decreases ts, n,
{
    if n <= 0 || n > ts.len() {
        true
    } else {
        all_codeable(ts, n - 1) && is_codeable(ts[n - 1])
    }
}

/// The text that the indirection and constness put before the base type.
pub open spec fn indirection_prefix(indirection: RustTypeIndirection, is_const: bool) -> Seq<char> {
    match indirection {
        RustTypeIndirection::Direct => Seq::empty(),
        RustTypeIndirection::Ref { lifetime } => "&"@ + (match lifetime {
            Some(l) => "'"@ + l@ + " "@,
            None => Seq::empty(),
        }) + if is_const {
            Seq::empty()
        } else {
            "mut "@
        },
        RustTypeIndirection::Ptr => if is_const {
            "*const "@
        } else {
            "*mut "@
        },
        RustTypeIndirection::PtrPtr => if is_const {
            "*const *const "@
        } else {
            "*mut *mut "@
        },
    }
}

/// Rust code of a type, written from inside `crate_name`.
pub open spec fn type_code(t: RustType, crate_name: Seq<char>) -> Seq<char>
    decreases t, 0int,
{
    match t {
        RustType::Void => Seq::empty(),
        RustType::Common { base, generic_arguments, is_const, indirection } => indirection_prefix(
            indirection,
            is_const,
        ) + full_name(base.parts@, crate_name) + match generic_arguments {
            None => Seq::empty(),
            Some(args) => "<"@ + join(types_code(args@, args@.len() as int, crate_name), ", "@)
                + ">"@,
        },
        RustType::FunctionPointer { return_type, arguments } => "extern \"C\" fn("@ + join(
            types_code(arguments@, arguments@.len() as int, crate_name),
            ", "@,
        ) + ")"@ + match *return_type {
            RustType::Void => Seq::empty(),
            _ => " -> "@ + type_code(*return_type, crate_name),
        },
    }
}

/// Code of the first `n` types of `ts`.
pub open spec fn types_code(ts: Seq<RustType>, n: int, crate_name: Seq<char>) -> Seq<Seq<char>>
    decreases ts, n,
{
    if n <= 0 || n > ts.len() {
        Seq::empty()
    } else {
        types_code(ts, n - 1, crate_name).push(type_code(ts[n - 1], crate_name))
    }
}


proof fn lemma_types_code(ts: Seq<RustType>, n: int, crate_name: Seq<char>)
    requires
        0 <= n <= ts.len(),
    ensures
        types_code(ts, n, crate_name).len() == n,
        forall|i: int| 0 <= i < n ==> #[trigger] types_code(ts, n, crate_name)[i] == type_code(ts[i], crate_name),
    decreases n,
{
    if n > 0 {
        lemma_types_code(ts, n - 1, crate_name);
    }
}

proof fn lemma_all_codeable(ts: Seq<RustType>, n: int)
    requires
        0 <= n <= ts.len(),
        all_codeable(ts, n),
    ensures
        forall|i: int| 0 <= i < n ==> is_codeable(#[trigger] ts[i]),
    decreases n,
{
    if n > 0 {
        lemma_all_codeable(ts, n - 1);
    }
}

/// Joins the strings of `parts` from index `from` on, with `sep` between them.
pub(crate) fn join_from(parts: &Vec<String>, from: usize, sep: &str) -> (r: String)
    requires
        from <= parts@.len(),
    ensures
        r@ == join(names_of(parts@).subrange(from as int, parts@.len() as int), sep@),
{
    let ghost names = names_of(parts@);
    let mut r = String::new();
    let mut i: usize = from;
    while i < parts.len()
        invariant
            from <= i <= parts@.len(),
            names == names_of(parts@),
            r@ == join(names.subrange(from as int, i as int), sep@),
        decreases parts.len() - i,
    {
        append_joined(&mut r, i == from, sep, parts[i].as_str());
        proof {
            let prev = names.subrange(from as int, i as int);
            assert(names.subrange(from as int, i + 1) =~= prev.push(parts@[i as int]@));
            if i > from {
                lemma_join_push(prev, sep@, parts@[i as int]@);
            } else {
                assert(join(seq![parts@[i as int]@], sep@) == parts@[i as int]@);
            }
        }
        i = i + 1;
    }
    r
}

impl RustName {
    /// This name as written from inside the crate `crate_name`.
    pub fn full_name(&self, crate_name: &str) -> (r: String)
        ensures
            r@ == full_name(self.parts@, crate_name@),
    {
        let ghost names = names_of(self.parts@);
        let own = String::from_str(crate_name);
        if self.parts.len() > 1 && self.parts[0].eq(&own) {
            let mut r = String::new();
            r.append("::");
            let rest = join_from(&self.parts, 1, "::");
            r.append(rest.as_str());
            proof {
                assert(names.subrange(1, names.len() as int) =~= names.drop_first());
            }
            r
        } else if self.parts.len() == 1 {
            self.parts[0].clone()
        } else {
            let mut r = String::new();
            r.append("::");
            let rest = join_from(&self.parts, 0, "::");
            r.append(rest.as_str());
            proof {
                assert(names.subrange(0, names.len() as int) =~= names);
            }
            r
        }
    }
}

/// Appends the indirection and constness prefix of a type.
fn append_indirection(r: &mut String, indirection: &RustTypeIndirection, is_const: bool)
    ensures
        final(r)@ == old(r)@ + indirection_prefix(*indirection, is_const),
{
    match indirection {
        RustTypeIndirection::Direct => {},
        RustTypeIndirection::Ref { lifetime } => {
            r.append("&");
            match lifetime {
                Some(l) => {
                    r.append("'");
                    r.append(l.as_str());
                    r.append(" ");
                },
                None => {},
            }
            if !is_const {
                r.append("mut ");
            }
        },
        RustTypeIndirection::Ptr => {
            if is_const {
                r.append("*const ");
            } else {
                r.append("*mut ");
            }
        },
        RustTypeIndirection::PtrPtr => {
            if is_const {
                r.append("*const *const ");
            } else {
                r.append("*mut *mut ");
            }
        },
    }
    proof {
        assert(final(r)@ =~= old(r)@ + indirection_prefix(*indirection, is_const));
    }
}

/// Code of a list of types, separated by `, `.
fn types_to_code(ts: &Vec<RustType>, crate_name: &str) -> (r: String)
    requires
        all_codeable(ts@, ts@.len() as int),
    ensures
        r@ == join(types_code(ts@, ts@.len() as int, crate_name@), ", "@),
    decreases ts, 1int,
{
    proof {
        lemma_all_codeable(ts@, ts@.len() as int);
        lemma_types_code(ts@, ts@.len() as int, crate_name@);
    }
    let mut r = String::new();
    let mut i: usize = 0;
    while i < ts.len()
        invariant
            i <= ts@.len(),
            forall|j: int| 0 <= j < ts@.len() ==> is_codeable(#[trigger] ts@[j]),
            r@ == join(types_code(ts@, i as int, crate_name@), ", "@),
        decreases ts.len() - i,
    {
        let t = rust_type_to_code(&ts[i], crate_name);
        append_joined(&mut r, i == 0, ", ", t.as_str());
        proof {
            lemma_types_code(ts@, i as int, crate_name@);
            if i > 0 {
                lemma_join_push(types_code(ts@, i as int, crate_name@), ", "@, type_code(ts@[i as int], crate_name@));
            } else {
                assert(types_code(ts@, 1, crate_name@) =~= seq![type_code(ts@[0], crate_name@)]);
            }
            assert(r@ =~= join(types_code(ts@, i + 1, crate_name@), ", "@));
        }
        i = i + 1;
    }
    r
}

/// Rust code of a type, written from inside the crate `crate_name`.
pub fn rust_type_to_code(t: &RustType, crate_name: &str) -> (r: String)
    requires
        is_codeable(*t),
    ensures
        r@ == type_code(*t, crate_name@),
    decreases t, 0int,
{
    match t {
        RustType::Void => String::new(),
        RustType::Common { base, generic_arguments, is_const, indirection } => {
            let mut r = String::new();
            append_indirection(&mut r, indirection, *is_const);
            let b = base.full_name(crate_name);
            r.append(b.as_str());
            match generic_arguments {
                None => {},
                Some(args) => {
                    r.append("<");
                    let a = types_to_code(args, crate_name);
                    r.append(a.as_str());
                    r.append(">");
                },
            }
            proof {
                assert(r@ =~= type_code(*t, crate_name@));
            }
            r
        },
        RustType::FunctionPointer { return_type, arguments } => {
            let mut r = String::new();
            r.append("extern \"C\" fn(");
            let a = types_to_code(arguments, crate_name);
            r.append(a.as_str());
            r.append(")");
            match &**return_type {
                RustType::Void => {},
                rt => {
                    r.append(" -> ");
                    let x = rust_type_to_code(rt, crate_name);
                    r.append(x.as_str());
                },
            }
            proof {
                assert(r@ =~= type_code(*t, crate_name@));
            }
            r
        },
    }
}

/// Code of a `Common` type with its generic arguments left out (a flags type
/// named without its enum parameter).
pub fn rust_type_to_code_without_generics(t: &RustType, crate_name: &str) -> (r: String)
    ensures
        r@ == match *t {
            RustType::Common { base, is_const, indirection, .. } => indirection_prefix(indirection, is_const)
                + full_name(base.parts@, crate_name@),
            _ => Seq::empty(),
        },
{
    match t {
        RustType::Common { base, is_const, indirection, .. } => {
            let mut r = String::new();
            append_indirection(&mut r, indirection, *is_const);
            let b = base.full_name(crate_name);
            r.append(b.as_str());
            r
        },
        _ => String::new(),
    }
}


proof fn lemma_all_codeable_mono(ts: Seq<RustType>, m: int, n: int)
    requires
        0 <= m <= n <= ts.len(),
        !all_codeable(ts, m),
    ensures
        !all_codeable(ts, n),
    decreases n - m,
{
    if m < n {
        lemma_all_codeable_mono(ts, m, n - 1);
    }
}

fn all_types_codeable(ts: &Vec<RustType>) -> (r: bool)
    ensures
        r == all_codeable(ts@, ts@.len() as int),
    decreases ts, 1int,
{
    let mut i: usize = 0;
    while i < ts.len()
        invariant
            i <= ts@.len(),
            all_codeable(ts@, i as int),
        decreases ts.len() - i,
    {
        if !type_is_codeable(&ts[i]) {
            proof {
                lemma_all_codeable_mono(ts@, i + 1, ts@.len() as int);
            }
            return false;
        }
        i = i + 1;
    }
    true
}

/// Whether a type can be written as code.
pub fn type_is_codeable(t: &RustType) -> (r: bool)
    ensures
        r == is_codeable(*t),
    decreases t, 0int,
{
    match t {
        RustType::Void => false,
        RustType::Common { generic_arguments, .. } => match generic_arguments {
            None => true,
            Some(args) => all_types_codeable(args),
        },
        RustType::FunctionPointer { return_type, arguments } => {
            let ret_ok = match &**return_type {
                RustType::Void => true,
                rt => type_is_codeable(rt),
            };
            ret_ok && all_types_codeable(arguments)
        },
    }
}


/// Code of the generic arguments of a type, `<...>`, or nothing.
pub open spec fn generics_code(generic_arguments: Option<Vec<RustType>>, crate_name: Seq<char>) -> Seq<char> {
    match generic_arguments {
        None => Seq::empty(),
        Some(args) => "<"@ + join(types_code(args@, args@.len() as int, crate_name), ", "@) + ">"@,
    }
}

/// Code of a type whose outer reference, if it is one, gets the lifetime `'a`.
pub open spec fn type_code_with_lifetime(t: RustType, crate_name: Seq<char>) -> Seq<char> {
    match t {
        RustType::Common { base, generic_arguments, is_const, indirection: RustTypeIndirection::Ref { .. } } => "&'a "@
            + (if is_const {
            Seq::empty()
        } else {
            "mut "@
        }) + full_name(base.parts@, crate_name) + generics_code(generic_arguments, crate_name),
        _ => type_code(t, crate_name),
    }
}

/// Code of a type whose outer reference, if it is one, gets the lifetime `'a`.
pub fn rust_type_to_code_with_lifetime(t: &RustType, crate_name: &str) -> (r: String)
    requires
        is_codeable(*t),
    ensures
        r@ == type_code_with_lifetime(*t, crate_name@),
{
    match t {
        RustType::Common { base, generic_arguments, is_const, indirection: RustTypeIndirection::Ref { .. } } => {
            let mut r = String::from_str("&'a ");
            if !*is_const {
                r.append("mut ");
            }
            let b = base.full_name(crate_name);
            r.append(b.as_str());
            match generic_arguments {
                None => {},
                Some(args) => {
                    r.append("<");
                    let a = types_to_code(args, crate_name);
                    r.append(a.as_str());
                    r.append(">");
                },
            }
            proof {
                assert(r@ =~= type_code_with_lifetime(*t, crate_name@));
            }
            r
        },
        _ => rust_type_to_code(t, crate_name),
    }
}

} // verus!
