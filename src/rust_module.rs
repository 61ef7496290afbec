//! Text of a whole generated module: its type declarations, trait
//! implementations, free functions and nested modules.
use crate::cpp_path::{decimal, decimal_string, join};
use crate::error::BindingError;
use crate::rust_code_generator::{
    join_all, final_function_code, final_function_fits, final_function_valid, last_name, RustCodeGenerator,
    RustMethodArguments,
    RustMethod,
};
use crate::rust_type::{
    is_codeable, join_from, names_of, rust_type_to_code, rust_type_to_code_with_lifetime,
    type_code, type_code_with_lifetime, type_is_codeable, RustName, RustType,
};
use vstd::prelude::*;

verus! {

/// One enumerator of a generated enum.
#[derive(Debug, Clone, PartialEq, Eq)]
pub struct RustEnumValue {
    pub name: String,
    pub value: i64,
}

/// How a native type is wrapped.
#[derive(Debug, PartialEq, Eq)]
pub enum RustTypeWrapperKind {
    /// An enum mirroring the native enumerators; a flaggable one can be
    /// combined into a flag set.
    Enum { values: Vec<RustEnumValue>, is_flaggable: bool },
    /// An opaque value: a byte buffer of the native size.
    Struct { size: u64 },
}

/// A trait that a wrapper type implements.
#[derive(Debug, PartialEq, Eq)]
pub enum TraitName {
    /// Deletion through the native deleter function of this name.
    CppDeletable { deleter_name: String },
    /// Another trait, implemented by generated methods.
    Other { name: String },
}

/// A trait implementation of a wrapper type.
#[derive(Debug, PartialEq, Eq)]
pub struct TraitImpl {
    pub trait_name: TraitName,
    pub methods: Vec<RustMethod>,
}

/// What a generated type declaration is.
#[derive(Debug, PartialEq, Eq)]
pub enum RustTypeDeclarationKind {
    /// A wrapper of a native type, with its methods and trait implementations.
    CppTypeWrapper { kind: RustTypeWrapperKind, methods: Vec<RustMethod>, traits: Vec<TraitImpl> },
    /// The selector enum of an overloaded method: one variant per signature,
    /// holding that signature's own argument types.
    MethodParametersEnum { variants: Vec<Vec<RustType>>, trait_name: RustName, enum_has_lifetime: bool },
    /// The trait that turns argument tuples into the selector enum.
    MethodParametersTrait { enum_name: RustName, enum_has_lifetime: bool },
}

/// A generated type declaration.
#[derive(Debug, PartialEq, Eq)]
pub struct RustTypeDeclaration {
    pub name: RustName,
    pub kind: RustTypeDeclarationKind,
}

/// A generated module.
#[derive(Debug, PartialEq, Eq)]
pub struct RustModule {
    pub name: RustName,
    pub types: Vec<RustTypeDeclaration>,
    pub functions: Vec<RustMethod>,
    pub submodules: Vec<RustModule>,
}

/// Decimal text of an integer, with a sign when negative.
pub open spec fn signed_decimal(v: int) -> Seq<char> {
    if v < 0 {
        "-"@ + decimal((-v) as nat)
    } else {
        decimal(v as nat)
    }
}

pub open spec fn enum_value_text(v: RustEnumValue) -> Seq<char> {
    "  "@ + v.name@ + " = "@ + signed_decimal(v.value as int)
}

/// Declaration of a wrapper enum, and its flag capability where it has one.
pub open spec fn enum_decl_code(name: Seq<char>, values: Seq<RustEnumValue>, is_flaggable: bool) -> Seq<char> {
    "#[derive(Debug, PartialEq, Eq, Clone)]\n#[repr(C)]\npub enum "@ + name + " {\n"@ + join(
        Seq::new(values.len(), |i: int| enum_value_text(values[i])),
        ", \n"@,
    ) + "\n}\n\n"@ + if is_flaggable {
        "impl ::flags::FlaggableEnum for "@ + name
            + " {\nfn to_int(self) -> libc::c_int { unsafe { std::mem::transmute(self) } }\nfn enum_name() -> &'static str { unimplemented!() }\n}\n\n"@
    } else {
        Seq::empty()
    }
}

/// Declaration of an opaque wrapper of `size` bytes, with storage that a
/// native constructor fills in place.
pub open spec fn struct_decl_code(name: Seq<char>, size: nat) -> Seq<char> {
    "#[repr(C)]\npub struct "@ + name + " {\n  _buffer: [u8; "@ + decimal(size) + "],\n}\n\nimpl "@ + name
        + " {\npub unsafe fn new_uninitialized() -> "@ + name + " {\n"@ + name
        + " { _buffer: std::mem::uninitialized() }\n}\n}\n\n"@
}

/// The methods of a list, each written out, all valid.
pub open spec fn methods_valid(methods: Seq<RustMethod>) -> bool {
    forall|i: int| 0 <= i < methods.len() ==> final_function_valid(#[trigger] methods[i])
}

pub open spec fn methods_fit(methods: Seq<RustMethod>) -> bool {
    forall|i: int| 0 <= i < methods.len() ==> final_function_fits(#[trigger] methods[i])
}

/// The texts of a list of methods, one after another.
pub open spec fn methods_code(methods: Seq<RustMethod>, crate_name: Seq<char>) -> Seq<char> {
    join(Seq::new(methods.len(), |i: int| final_function_code(methods[i], crate_name)), ""@)
}

/// The name a trait is implemented under.
pub open spec fn trait_text(t: TraitName) -> Seq<char> {
    match t {
        TraitName::CppDeletable { .. } => "cpp_box::CppDeletable"@,
        TraitName::Other { name } => name@,
    }
}

/// One trait implementation of a wrapper: the deleter binding, or methods.
pub open spec fn trait_impl_code(wrapper_name: Seq<char>, t: TraitImpl, crate_name: Seq<char>) -> Seq<char> {
    "impl "@ + trait_text(t.trait_name) + " for "@ + wrapper_name + " {\n"@ + match t.trait_name {
        TraitName::CppDeletable { deleter_name } => "fn deleter() -> cpp_box::Deleter<Self> {\n  ::ffi::"@
            + deleter_name@ + "\n}\n"@,
        TraitName::Other { .. } => methods_code(t.methods@, crate_name),
    } + "}\n\n"@
}

/// `<'a>` where the enum holds references.
pub open spec fn lifetime_params(has: bool) -> Seq<char> {
    if has {
        "<'a>"@
    } else {
        Seq::empty()
    }
}

/// Code of an argument type held by a selector variant.
pub open spec fn held_type_code(t: RustType, has_lifetime: bool, crate_name: Seq<char>) -> Seq<char> {
    if has_lifetime {
        type_code_with_lifetime(t, crate_name)
    } else {
        type_code(t, crate_name)
    }
}

pub open spec fn held_types_code(ts: Seq<RustType>, has_lifetime: bool, crate_name: Seq<char>) -> Seq<Seq<char>> {
    Seq::new(ts.len(), |i: int| held_type_code(ts[i], has_lifetime, crate_name))
}

/// `VariantN(T1,T2),` of the selector enum.
pub open spec fn variant_decl(num: nat, ts: Seq<RustType>, has_lifetime: bool, crate_name: Seq<char>) -> Seq<char> {
    "Variant"@ + decimal(num) + (if ts.len() == 0 {
        Seq::empty()
    } else {
        "("@ + join(held_types_code(ts, has_lifetime, crate_name), ","@) + ")"@
    }) + ","@
}

/// How a variant's value is built from the argument tuple.
pub open spec fn variant_value(n: nat) -> Seq<char> {
    if n == 0 {
        Seq::empty()
    } else if n == 1 {
        "(self)"@
    } else {
        "("@ + join(Seq::new(n, |i: int| "self."@ + decimal(i as nat)), ", "@) + ")"@
    }
}

/// The conversion of one argument tuple into its selector variant.
pub open spec fn variant_impl(
    enum_name: Seq<char>,
    trait_name: Seq<char>,
    num: nat,
    ts: Seq<RustType>,
    has_lifetime: bool,
    crate_name: Seq<char>,
) -> Seq<char> {
    let texts = held_types_code(ts, has_lifetime, crate_name);
    let lf = lifetime_params(has_lifetime);
    let type_text = if ts.len() == 1 {
        texts[0]
    } else {
        "("@ + join(texts, ","@) + ")"@
    };
    "impl"@ + lf + " "@ + trait_name + lf + " for "@ + type_text + " {\nfn as_enum(self) -> "@ + enum_name + lf
        + " {\n"@ + enum_name + "::Variant"@ + decimal(num) + variant_value(ts.len()) + "\n}\n}\n\n"@
}

/// Every type that a declaration writes can be written.
pub open spec fn declaration_valid(t: RustTypeDeclaration) -> bool {
    &&& t.name.parts@.len() > 0
    &&& match t.kind {
        RustTypeDeclarationKind::CppTypeWrapper { methods, traits, .. } => {
            &&& methods_valid(methods@)
            &&& forall|k: int| 0 <= k < traits@.len() ==> methods_valid((#[trigger] traits@[k]).methods@)
        },
        RustTypeDeclarationKind::MethodParametersEnum { variants, trait_name, .. } => {
            &&& trait_name.parts@.len() > 0
            &&& forall|k: int, i: int|
                0 <= k < variants@.len() && 0 <= i < variants@[k]@.len() ==> is_codeable(#[trigger] variants@[k]@[i])
        },
        RustTypeDeclarationKind::MethodParametersTrait { enum_name, .. } => enum_name.parts@.len() > 0,
    }
}

pub open spec fn declaration_fits(t: RustTypeDeclaration) -> bool {
    match t.kind {
        RustTypeDeclarationKind::CppTypeWrapper { methods, traits, .. } => {
            &&& methods_fit(methods@)
            &&& forall|k: int| 0 <= k < traits@.len() ==> methods_fit((#[trigger] traits@[k]).methods@)
        },
        _ => true,
    }
}

/// The text of one type declaration and everything attached to it.
pub open spec fn declaration_code(t: RustTypeDeclaration, crate_name: Seq<char>) -> Seq<char> {
    let name = last_name(t.name);
    match t.kind {
        RustTypeDeclarationKind::CppTypeWrapper { kind, methods, traits } => (match kind {
            RustTypeWrapperKind::Enum { values, is_flaggable } => enum_decl_code(name, values@, is_flaggable),
            RustTypeWrapperKind::Struct { size } => struct_decl_code(name, size as nat),
        }) + (if methods@.len() == 0 {
            Seq::empty()
        } else {
            "impl "@ + name + " {\n"@ + methods_code(methods@, crate_name) + "}\n\n"@
        }) + join(Seq::new(traits@.len(), |k: int| trait_impl_code(name, traits@[k], crate_name)), ""@),
        RustTypeDeclarationKind::MethodParametersEnum { variants, trait_name, enum_has_lifetime } => {
            let lf = lifetime_params(enum_has_lifetime);
            "pub enum "@ + name + lf + " {\n"@ + join(
                Seq::new(
                    variants@.len(),
                    |k: int| variant_decl(k as nat, variants@[k]@, enum_has_lifetime, crate_name),
                ),
                "\n"@,
            ) + "\n}\n\n"@ + join(
                Seq::new(
                    variants@.len(),
                    |k: int|
                        variant_impl(
                            name,
                            last_name(trait_name),
                            k as nat,
                            variants@[k]@,
                            enum_has_lifetime,
                            crate_name,
                        ),
                ),
                ""@,
            )
        },
        RustTypeDeclarationKind::MethodParametersTrait { enum_name, enum_has_lifetime } => {
            let lf = lifetime_params(enum_has_lifetime);
            "pub trait "@ + name + lf + " {\nfn as_enum(self) -> "@ + last_name(enum_name) + lf + ";\n}"@
        },
    }
}


fn signed_decimal_string(v: i64) -> (r: String)
    ensures
        r@ == signed_decimal(v as int),
{
    if v < 0 {
        let m: u64 = ((-(v + 1)) as u64) + 1;
        let mut r = String::from_str("-");
        let d = decimal_string(m);
        r.append(d.as_str());
        r
    } else {
        decimal_string(v as u64)
    }
}

/// The declared name of a path: its last part.
fn last_part(name: &RustName) -> (r: String)
    requires
        name.parts@.len() > 0,
    ensures
        r@ == last_name(*name),
{
    name.parts[name.parts.len() - 1].clone()
}

impl RustCodeGenerator {
    /// The texts of a list of methods, one after another.
    pub fn generate_methods(&self, methods: &Vec<RustMethod>) -> (r: Result<String, BindingError>)
        requires
            methods_fit(methods@),
        ensures
            match r {
                Ok(code) => methods_valid(methods@) && code@ == methods_code(methods@, self.crate_name@),
                Err(e) => !methods_valid(methods@) && e == BindingError::GenerationInvariantViolation,
            },
    {
        let ghost texts = Seq::new(methods@.len(), |i: int| final_function_code(methods@[i], self.crate_name@));
        let mut parts: Vec<String> = Vec::new();
        let mut i: usize = 0;
        while i < methods.len()
            invariant
                methods_fit(methods@),
                texts == Seq::new(methods@.len(), |i: int| final_function_code(methods@[i], self.crate_name@)),
                i <= methods@.len(),
                parts@.len() == i,
                forall|k: int| 0 <= k < i ==> final_function_valid(#[trigger] methods@[k]),
                forall|k: int| 0 <= k < i ==> (#[trigger] parts@[k])@ == texts[k],
            decreases methods.len() - i,
        {
            proof {
                assert(final_function_fits(methods@[i as int]));
            }
            match self.generate_rust_final_function(&methods[i]) {
                Ok(t) => {
                    parts.push(t);
                },
                Err(e) => {
                    return Err(e);
                },
            }
            i = i + 1;
        }
        let r = join_all(&parts, "");
        proof {
            assert(names_of(parts@) =~= texts);
        }
        Ok(r)
    }

    fn enum_declaration(&self, name: &String, values: &Vec<RustEnumValue>, is_flaggable: bool) -> (r: String)
        ensures
            r@ == enum_decl_code(name@, values@, is_flaggable),
    {
        let mut parts: Vec<String> = Vec::new();
        let mut i: usize = 0;
        while i < values.len()
            invariant
                i <= values@.len(),
                parts@.len() == i,
                forall|k: int| 0 <= k < i ==> (#[trigger] parts@[k])@ == enum_value_text(values@[k]),
            decreases values.len() - i,
        {
            let mut t = String::from_str("  ");
            t.append(values[i].name.as_str());
            t.append(" = ");
            let d = signed_decimal_string(values[i].value);
            t.append(d.as_str());
            parts.push(t);
            i = i + 1;
        }
        let body = join_all(&parts, ", \n");
        proof {
            assert(names_of(parts@) =~= Seq::new(values@.len(), |i: int| enum_value_text(values@[i])));
        }
        let mut r = String::from_str("#[derive(Debug, PartialEq, Eq, Clone)]\n#[repr(C)]\npub enum ");
        r.append(name.as_str());
        r.append(" {\n");
        r.append(body.as_str());
        r.append("\n}\n\n");
        if is_flaggable {
            r.append("impl ::flags::FlaggableEnum for ");
            r.append(name.as_str());
            r.append(" {\nfn to_int(self) -> libc::c_int { unsafe { std::mem::transmute(self) } }\nfn enum_name() -> &'static str { unimplemented!() }\n}\n\n");
        }
        proof {
            assert(r@ =~= enum_decl_code(name@, values@, is_flaggable));
        }
        r
    }

    fn struct_declaration(&self, name: &String, size: u64) -> (r: String)
        ensures
            r@ == struct_decl_code(name@, size as nat),
    {
        let mut r = String::from_str("#[repr(C)]\npub struct ");
        r.append(name.as_str());
        r.append(" {\n  _buffer: [u8; ");
        let d = decimal_string(size);
        r.append(d.as_str());
        r.append("],\n}\n\nimpl ");
        r.append(name.as_str());
        r.append(" {\npub unsafe fn new_uninitialized() -> ");
        r.append(name.as_str());
        r.append(" {\n");
        r.append(name.as_str());
        r.append(" { _buffer: std::mem::uninitialized() }\n}\n}\n\n");
        proof {
            assert(r@ =~= struct_decl_code(name@, size as nat));
        }
        r
    }

    fn trait_implementation(&self, wrapper_name: &String, t: &TraitImpl) -> (r: Result<String, BindingError>)
        requires
            methods_fit(t.methods@),
        ensures
            match r {
                Ok(code) => methods_valid(t.methods@) && code@ == trait_impl_code(wrapper_name@, *t, self.crate_name@),
                Err(e) => !methods_valid(t.methods@) && e == BindingError::GenerationInvariantViolation,
            },
    {
        let content = match &t.trait_name {
            TraitName::CppDeletable { deleter_name } => {
                let ok = self.generate_methods(&t.methods);
                if let Err(e) = ok {
                    return Err(e);
                }
                let mut c = String::from_str("fn deleter() -> cpp_box::Deleter<Self> {\n  ::ffi::");
                c.append(deleter_name.as_str());
                c.append("\n}\n");
                c
            },
            TraitName::Other { .. } => match self.generate_methods(&t.methods) {
                Ok(c) => c,
                Err(e) => {
                    return Err(e);
                },
            },
        };
        let mut r = String::from_str("impl ");
        match &t.trait_name {
            TraitName::CppDeletable { .. } => r.append("cpp_box::CppDeletable"),
            TraitName::Other { name } => r.append(name.as_str()),
        }
        r.append(" for ");
        r.append(wrapper_name.as_str());
        r.append(" {\n");
        r.append(content.as_str());
        r.append("}\n\n");
        proof {
            assert(r@ =~= trait_impl_code(wrapper_name@, *t, self.crate_name@));
        }
        Ok(r)
    }

    /// Codes of the argument types a selector variant holds.
    fn held_types(&self, ts: &Vec<RustType>, has_lifetime: bool) -> (r: Vec<String>)
        requires
            forall|i: int| 0 <= i < ts@.len() ==> is_codeable(#[trigger] ts@[i]),
        ensures
            names_of(r@) == held_types_code(ts@, has_lifetime, self.crate_name@),
    {
        let mut out: Vec<String> = Vec::new();
        let mut i: usize = 0;
        while i < ts.len()
            invariant
                forall|i: int| 0 <= i < ts@.len() ==> is_codeable(#[trigger] ts@[i]),
                i <= ts@.len(),
                out@.len() == i,
                forall|k: int| 0 <= k < i ==> (#[trigger] out@[k])@ == held_type_code(ts@[k], has_lifetime, self.crate_name@),
            decreases ts.len() - i,
        {
            proof {
                assert(is_codeable(ts@[i as int]));
            }
            let t = if has_lifetime {
                rust_type_to_code_with_lifetime(&ts[i], self.crate_name.as_str())
            } else {
                rust_type_to_code(&ts[i], self.crate_name.as_str())
            };
            out.push(t);
            i = i + 1;
        }
        proof {
            assert(names_of(out@) =~= held_types_code(ts@, has_lifetime, self.crate_name@));
        }
        out
    }

    fn variant_value_text(&self, n: usize) -> (r: String)
        ensures
            r@ == variant_value(n as nat),
    {
        if n == 0 {
            String::new()
        } else if n == 1 {
            String::from_str("(self)")
        } else {
            let mut parts: Vec<String> = Vec::new();
            let mut i: usize = 0;
            while i < n
                invariant
                    i <= n,
                    parts@.len() == i,
                    forall|k: int| 0 <= k < i ==> (#[trigger] parts@[k])@ == "self."@ + decimal(k as nat),
                decreases n - i,
            {
                let mut t = String::from_str("self.");
                let d = decimal_string(i as u64);
                t.append(d.as_str());
                parts.push(t);
                i = i + 1;
            }
            let j = join_all(&parts, ", ");
            proof {
                assert(names_of(parts@) =~= Seq::new(n as nat, |i: int| "self."@ + decimal(i as nat)));
            }
            let mut r = String::from_str("(");
            r.append(j.as_str());
            r.append(")");
            r
        }
    }

    fn lifetime_text(&self, has: bool) -> (r: String)
        ensures
            r@ == lifetime_params(has),
    {
        if has {
            String::from_str("<'a>")
        } else {
            String::new()
        }
    }

    fn variant_declaration(&self, k: usize, ts: &Vec<RustType>, has_lifetime: bool) -> (r: String)
        requires
            forall|i: int| 0 <= i < ts@.len() ==> is_codeable(#[trigger] ts@[i]),
        ensures
            r@ == variant_decl(k as nat, ts@, has_lifetime, self.crate_name@),
    {
        let texts = self.held_types(ts, has_lifetime);
        let num = decimal_string(k as u64);
        let mut d = String::from_str("Variant");
        d.append(num.as_str());
        if ts.len() > 0 {
            let tuple = join_all(&texts, ",");
            d.append("(");
            d.append(tuple.as_str());
            d.append(")");
        }
        d.append(",");
        proof {
            assert(d@ =~= variant_decl(k as nat, ts@, has_lifetime, self.crate_name@));
        }
        d
    }

    fn variant_implementation(
        &self,
        name: &String,
        trait_name: &String,
        k: usize,
        ts: &Vec<RustType>,
        has_lifetime: bool,
    ) -> (r: String)
        requires
            forall|i: int| 0 <= i < ts@.len() ==> is_codeable(#[trigger] ts@[i]),
        ensures
            r@ == variant_impl(name@, trait_name@, k as nat, ts@, has_lifetime, self.crate_name@),
    {
        let lf = self.lifetime_text(has_lifetime);
        let texts = self.held_types(ts, has_lifetime);
        let num = decimal_string(k as u64);
        proof {
            assert(names_of(texts@).len() == texts@.len());
            assert(held_types_code(ts@, has_lifetime, self.crate_name@).len() == ts@.len());
        }
        let mut im = String::from_str("impl");
        im.append(lf.as_str());
        im.append(" ");
        im.append(trait_name.as_str());
        im.append(lf.as_str());
        im.append(" for ");
        if ts.len() == 1 {
            im.append(texts[0].as_str());
        } else {
            let tuple = join_all(&texts, ",");
            im.append("(");
            im.append(tuple.as_str());
            im.append(")");
        }
        im.append(" {\nfn as_enum(self) -> ");
        im.append(name.as_str());
        im.append(lf.as_str());
        im.append(" {\n");
        im.append(name.as_str());
        im.append("::Variant");
        im.append(num.as_str());
        let vv = self.variant_value_text(ts.len());
        im.append(vv.as_str());
        im.append("\n}\n}\n\n");
        proof {
            if ts@.len() == 1 {
                assert(texts@[0]@ == names_of(texts@)[0]);
            }
            assert(im@ =~= variant_impl(name@, trait_name@, k as nat, ts@, has_lifetime, self.crate_name@));
        }
        im
    }

    /// The selector enum of an overloaded method and its conversions.
    fn parameters_enum(
        &self,
        name: &String,
        variants: &Vec<Vec<RustType>>,
        trait_name: &String,
        has_lifetime: bool,
    ) -> (r: String)
        requires
            forall|k: int, i: int|
                0 <= k < variants@.len() && 0 <= i < variants@[k]@.len() ==> is_codeable(#[trigger] variants@[k]@[i]),
        ensures
            r@ == "pub enum "@ + name@ + lifetime_params(has_lifetime) + " {\n"@ + join(
                Seq::new(variants@.len(), |k: int| variant_decl(k as nat, variants@[k]@, has_lifetime, self.crate_name@)),
                "\n"@,
            ) + "\n}\n\n"@ + join(
                Seq::new(
                    variants@.len(),
                    |k: int| variant_impl(name@, trait_name@, k as nat, variants@[k]@, has_lifetime, self.crate_name@),
                ),
                ""@,
            ),
    {
        let lf = self.lifetime_text(has_lifetime);
        let mut decls: Vec<String> = Vec::new();
        let mut impls: Vec<String> = Vec::new();
        let mut k: usize = 0;
        while k < variants.len()
            invariant
                forall|k: int, i: int|
                    0 <= k < variants@.len() && 0 <= i < variants@[k]@.len() ==> is_codeable(#[trigger] variants@[k]@[i]),
                lf@ == lifetime_params(has_lifetime),
                k <= variants@.len(),
                decls@.len() == k,
                impls@.len() == k,
                forall|m: int| 0 <= m < k ==> (#[trigger] decls@[m])@ == variant_decl(m as nat, variants@[m]@, has_lifetime, self.crate_name@),
                forall|m: int| 0 <= m < k ==> (#[trigger] impls@[m])@ == variant_impl(name@, trait_name@, m as nat, variants@[m]@, has_lifetime, self.crate_name@),
            decreases variants.len() - k,
        {
            let ts = &variants[k];
            proof {
                assert forall|i: int| 0 <= i < ts@.len() implies is_codeable(#[trigger] ts@[i]) by {
                    assert(is_codeable(variants@[k as int]@[i]));
                }
            }
            let d = self.variant_declaration(k, ts, has_lifetime);
            decls.push(d);
            let im = self.variant_implementation(name, trait_name, k, ts, has_lifetime);
            impls.push(im);
            k = k + 1;
        }
        let all_decls = join_all(&decls, "\n");
        let all_impls = join_all(&impls, "");
        proof {
            assert(names_of(decls@) =~= Seq::new(variants@.len(), |k: int| variant_decl(k as nat, variants@[k]@, has_lifetime, self.crate_name@)));
            assert(names_of(impls@) =~= Seq::new(
                variants@.len(),
                |k: int| variant_impl(name@, trait_name@, k as nat, variants@[k]@, has_lifetime, self.crate_name@),
            ));
        }
        let mut r = String::from_str("pub enum ");
        r.append(name.as_str());
        r.append(lf.as_str());
        r.append(" {\n");
        r.append(all_decls.as_str());
        r.append("\n}\n\n");
        r.append(all_impls.as_str());
        r
    }
}


/// The imports every generated module starts with.
pub open spec fn module_header() -> Seq<char> {
    "#[allow(unused_imports)]\nuse {libc, cpp_box, std};\n\n"@
}

/// Everything in a module, nested modules included, can be written.
pub open spec fn module_valid(m: RustModule) -> bool
    decreases m, 0int,
{
    &&& forall|k: int| 0 <= k < m.types@.len() ==> declaration_valid(#[trigger] m.types@[k])
    &&& methods_valid(m.functions@)
    &&& submodules_valid(m.submodules@, m.submodules@.len() as int)
}

/// The first `n` nested modules are named and valid.
pub open spec fn submodules_valid(ss: Seq<RustModule>, n: int) -> bool
    decreases ss, n,
{
    if n <= 0 || n > ss.len() {
        true
    } else {
        submodules_valid(ss, n - 1) && ss[n - 1].name.parts@.len() > 0 && module_valid(ss[n - 1])
    }
}

/// Argument counts small enough throughout a module.
pub open spec fn module_fits(m: RustModule) -> bool
    decreases m, 0int,
{
    &&& forall|k: int| 0 <= k < m.types@.len() ==> declaration_fits(#[trigger] m.types@[k])
    &&& methods_fit(m.functions@)
    &&& submodules_fit(m.submodules@, m.submodules@.len() as int)
}

pub open spec fn submodules_fit(ss: Seq<RustModule>, n: int) -> bool
    decreases ss, n,
{
    if n <= 0 || n > ss.len() {
        true
    } else {
        submodules_fit(ss, n - 1) && module_fits(ss[n - 1])
    }
}

/// The text of a module: imports, type declarations, free functions, then
/// each nested module inline.
pub open spec fn module_code(m: RustModule, crate_name: Seq<char>) -> Seq<char>
    decreases m, 0int,
{
    module_header() + join(
        Seq::new(m.types@.len(), |k: int| declaration_code(m.types@[k], crate_name)),
        ""@,
    ) + methods_code(m.functions@, crate_name) + join(
        submodules_code(m.submodules@, m.submodules@.len() as int, crate_name),
        ""@,
    )
}

/// `pub mod name { ... }` of the first `n` nested modules.
pub open spec fn submodules_code(ss: Seq<RustModule>, n: int, crate_name: Seq<char>) -> Seq<Seq<char>>
    decreases ss, n,
{
    if n <= 0 || n > ss.len() {
        Seq::empty()
    } else {
        submodules_code(ss, n - 1, crate_name).push(
            "pub mod "@ + last_name(ss[n - 1].name) + " {\n"@ + module_code(ss[n - 1], crate_name) + "}\n\n"@,
        )
    }
}

proof fn lemma_submodules(ss: Seq<RustModule>, n: int, crate_name: Seq<char>)
    requires
        0 <= n <= ss.len(),
    ensures
        submodules_code(ss, n, crate_name).len() == n,
        forall|i: int| 0 <= i < n ==> #[trigger] submodules_code(ss, n, crate_name)[i] == "pub mod "@ + last_name(ss[i].name)
            + " {\n"@ + module_code(ss[i], crate_name) + "}\n\n"@,
        submodules_valid(ss, n) <==> forall|i: int| 0 <= i < n ==> (#[trigger] ss[i]).name.parts@.len() > 0 && module_valid(ss[i]),
        submodules_fit(ss, n) <==> forall|i: int| 0 <= i < n ==> module_fits(#[trigger] ss[i]),
    decreases n,
{
    if n > 0 {
        lemma_submodules(ss, n - 1, crate_name);
    }
}

impl RustCodeGenerator {
    /// The text of one type declaration: a wrapper with its methods and trait
    /// implementations (the deleter binding among them), or the selector enum
    /// and trait of an overloaded method.
    #[verifier::rlimit(40)]
    pub fn generate_type_declaration(&self, t: &RustTypeDeclaration) -> (r: Result<String, BindingError>)
        requires
            declaration_fits(*t),
        ensures
            match r {
                Ok(code) => declaration_valid(*t) && code@ == declaration_code(*t, self.crate_name@),
                Err(e) => !declaration_valid(*t) && e == BindingError::GenerationInvariantViolation,
            },
    {
        if t.name.parts.len() == 0 {
            return Err(BindingError::GenerationInvariantViolation);
        }
        let name = last_part(&t.name);
        match &t.kind {
            RustTypeDeclarationKind::CppTypeWrapper { kind, methods, traits } => {
                let mut r = match kind {
                    RustTypeWrapperKind::Enum { values, is_flaggable } => self.enum_declaration(&name, values, *is_flaggable),
                    RustTypeWrapperKind::Struct { size } => self.struct_declaration(&name, *size),
                };
                let m = match self.generate_methods(methods) {
                    Ok(m) => m,
                    Err(e) => {
                        return Err(e);
                    },
                };
                if methods.len() > 0 {
                    r.append("impl ");
                    r.append(name.as_str());
                    r.append(" {\n");
                    r.append(m.as_str());
                    r.append("}\n\n");
                }
                let mut parts: Vec<String> = Vec::new();
                let mut k: usize = 0;
                while k < traits.len()
                    invariant
                        t.kind is CppTypeWrapper,
                        t.kind->CppTypeWrapper_traits == *traits,
                        forall|k: int| 0 <= k < traits@.len() ==> methods_fit((#[trigger] traits@[k]).methods@),
                        k <= traits@.len(),
                        parts@.len() == k,
                        forall|m: int| 0 <= m < k ==> methods_valid((#[trigger] traits@[m]).methods@),
                        forall|m: int| 0 <= m < k ==> (#[trigger] parts@[m])@ == trait_impl_code(name@, traits@[m], self.crate_name@),
                    decreases traits.len() - k,
                {
                    proof {
                        assert(methods_fit(traits@[k as int].methods@));
                    }
                    match self.trait_implementation(&name, &traits[k]) {
                        Ok(x) => {
                            parts.push(x);
                        },
                        Err(e) => {
                            return Err(e);
                        },
                    }
                    k = k + 1;
                }
                let all = join_all(&parts, "");
                r.append(all.as_str());
                proof {
                    assert(names_of(parts@) =~= Seq::new(traits@.len(), |k: int| trait_impl_code(name@, traits@[k], self.crate_name@)));
                    assert(r@ =~= declaration_code(*t, self.crate_name@));
                }
                Ok(r)
            },
            RustTypeDeclarationKind::MethodParametersEnum { variants, trait_name, enum_has_lifetime } => {
                if trait_name.parts.len() == 0 {
                    return Err(BindingError::GenerationInvariantViolation);
                }
                let mut k: usize = 0;
                while k < variants.len()
                    invariant
                        t.kind is MethodParametersEnum,
                        t.kind->MethodParametersEnum_variants == *variants,
                        k <= variants@.len(),
                        forall|m: int, i: int|
                            0 <= m < k && 0 <= i < variants@[m]@.len() ==> is_codeable(#[trigger] variants@[m]@[i]),
                    decreases variants.len() - k,
                {
                    let ts = &variants[k];
                    let mut i: usize = 0;
                    while i < ts.len()
                        invariant
                            t.kind is MethodParametersEnum,
                            t.kind->MethodParametersEnum_variants == *variants,
                            k < variants@.len(),
                            *ts == variants@[k as int],
                            i <= ts@.len(),
                            forall|m: int, j: int|
                                0 <= m < k && 0 <= j < variants@[m]@.len() ==> is_codeable(#[trigger] variants@[m]@[j]),
                            forall|j: int| 0 <= j < i ==> is_codeable(#[trigger] variants@[k as int]@[j]),
                        decreases ts.len() - i,
                    {
                        if !type_is_codeable(&ts[i]) {
                            proof {
                                assert(!is_codeable(variants@[k as int]@[i as int]));
                            }
                            return Err(BindingError::GenerationInvariantViolation);
                        }
                        i = i + 1;
                    }
                    k = k + 1;
                }
                let trait_last = last_part(trait_name);
                let r = self.parameters_enum(&name, variants, &trait_last, *enum_has_lifetime);
                proof {
                    assert(r@ =~= declaration_code(*t, self.crate_name@));
                }
                Ok(r)
            },
            RustTypeDeclarationKind::MethodParametersTrait { enum_name, enum_has_lifetime } => {
                if enum_name.parts.len() == 0 {
                    return Err(BindingError::GenerationInvariantViolation);
                }
                let lf = self.lifetime_text(*enum_has_lifetime);
                let mut r = String::from_str("pub trait ");
                r.append(name.as_str());
                r.append(lf.as_str());
                r.append(" {\nfn as_enum(self) -> ");
                let e = last_part(enum_name);
                r.append(e.as_str());
                r.append(lf.as_str());
                r.append(";\n}");
                proof {
                    assert(r@ =~= declaration_code(*t, self.crate_name@));
                }
                Ok(r)
            },
        }
    }

    /// The text of a module: imports, its type declarations, free functions,
    /// and nested modules written inline. Fails when anything in it cannot be
    /// written.
    #[verifier::rlimit(40)]
    pub fn generate_module_code(&self, data: &RustModule) -> (r: Result<String, BindingError>)
        requires
            module_fits(*data),
        ensures
            match r {
                Ok(code) => module_valid(*data) && code@ == module_code(*data, self.crate_name@),
                Err(e) => !module_valid(*data) && e == BindingError::GenerationInvariantViolation,
            },
        decreases data, 0int,
    {
        let mut r = String::from_str("#[allow(unused_imports)]\nuse {libc, cpp_box, std};\n\n");
        let mut decls: Vec<String> = Vec::new();
        let mut k: usize = 0;
        while k < data.types.len()
            invariant
                forall|k: int| 0 <= k < data.types@.len() ==> declaration_fits(#[trigger] data.types@[k]),
                k <= data.types@.len(),
                decls@.len() == k,
                forall|m: int| 0 <= m < k ==> declaration_valid(#[trigger] data.types@[m]),
                forall|m: int| 0 <= m < k ==> (#[trigger] decls@[m])@ == declaration_code(data.types@[m], self.crate_name@),
            decreases data.types.len() - k,
        {
            proof {
                assert(declaration_fits(data.types@[k as int]));
            }
            match self.generate_type_declaration(&data.types[k]) {
                Ok(x) => {
                    decls.push(x);
                },
                Err(e) => {
                    return Err(e);
                },
            }
            k = k + 1;
        }
        let all_decls = join_all(&decls, "");
        proof {
            assert(names_of(decls@) =~= Seq::new(data.types@.len(), |k: int| declaration_code(data.types@[k], self.crate_name@)));
        }
        r.append(all_decls.as_str());
        let functions = match self.generate_methods(&data.functions) {
            Ok(f) => f,
            Err(e) => {
                return Err(e);
            },
        };
        r.append(functions.as_str());
        let ghost ss = data.submodules@;
        proof {
            lemma_submodules(ss, ss.len() as int, self.crate_name@);
        }
        let mut subs: Vec<String> = Vec::new();
        let mut i: usize = 0;
        while i < data.submodules.len()
            invariant
                ss == data.submodules@,
                forall|j: int| 0 <= j < ss.len() ==> module_fits(#[trigger] ss[j]),
                i <= ss.len(),
                subs@.len() == i,
                forall|j: int| 0 <= j < i ==> (#[trigger] ss[j]).name.parts@.len() > 0 && module_valid(ss[j]),
                forall|j: int| 0 <= j < i ==> (#[trigger] subs@[j])@ == submodules_code(ss, ss.len() as int, self.crate_name@)[j],
                forall|j: int| 0 <= j < ss.len() ==> #[trigger] submodules_code(ss, ss.len() as int, self.crate_name@)[j] == "pub mod "@
                    + last_name(ss[j].name) + " {\n"@ + module_code(ss[j], self.crate_name@) + "}\n\n"@,
            decreases data.submodules.len() - i,
        {
            let sub = &data.submodules[i];
            proof {
                assert(module_fits(ss[i as int]));
            }
            if sub.name.parts.len() == 0 {
                proof {
                    lemma_submodules(ss, ss.len() as int, self.crate_name@);
                }
                return Err(BindingError::GenerationInvariantViolation);
            }
            let inner = match self.generate_module_code(sub) {
                Ok(c) => c,
                Err(e) => {
                    proof {
                        lemma_submodules(ss, ss.len() as int, self.crate_name@);
                    }
                    return Err(e);
                },
            };
            let mut t = String::from_str("pub mod ");
            let n = last_part(&sub.name);
            t.append(n.as_str());
            t.append(" {\n");
            t.append(inner.as_str());
            t.append("}\n\n");
            subs.push(t);
            i = i + 1;
        }
        let all_subs = join_all(&subs, "");
        proof {
            lemma_submodules(ss, ss.len() as int, self.crate_name@);
            assert(names_of(subs@) =~= submodules_code(ss, ss.len() as int, self.crate_name@));
        }
        r.append(all_subs.as_str());
        proof {
            assert(r@ =~= module_code(*data, self.crate_name@));
        }
        Ok(r)
    }
}


/// Whether the argument counts of a method fit the generator's indices.
fn method_fits(func: &RustMethod) -> (r: bool)
    ensures
        r == final_function_fits(*func),
{
    match &func.arguments {
        RustMethodArguments::SingleVariant(v) => v.arguments.len() < usize::MAX,
        RustMethodArguments::MultipleVariants { shared_arguments, variants, .. } => {
            let s = shared_arguments.len();
            let mut k: usize = 0;
            while k < variants.len()
                invariant
                    func.arguments is MultipleVariants,
                    func.arguments->MultipleVariants_variants == *variants,
                    func.arguments->MultipleVariants_shared_arguments == *shared_arguments,
                    s == shared_arguments@.len(),
                    k <= variants@.len(),
                    forall|m: int| 0 <= m < k ==> shared_arguments@.len() + (#[trigger] variants@[m]).arguments@.len() < usize::MAX,
                decreases variants.len() - k,
            {
                if variants[k].arguments.len() >= usize::MAX - s {
                    proof {
                        assert(!(shared_arguments@.len() + variants@[k as int].arguments@.len() < usize::MAX));
                    }
                    return false;
                }
                k = k + 1;
            }
            true
        },
    }
}

fn methods_fit_check(methods: &Vec<RustMethod>) -> (r: bool)
    ensures
        r == methods_fit(methods@),
{
    let mut i: usize = 0;
    while i < methods.len()
        invariant
            i <= methods@.len(),
            forall|k: int| 0 <= k < i ==> final_function_fits(#[trigger] methods@[k]),
        decreases methods.len() - i,
    {
        if !method_fits(&methods[i]) {
            return false;
        }
        i = i + 1;
    }
    true
}

fn declaration_fits_check(t: &RustTypeDeclaration) -> (r: bool)
    ensures
        r == declaration_fits(*t),
{
    match &t.kind {
        RustTypeDeclarationKind::CppTypeWrapper { methods, traits, .. } => {
            if !methods_fit_check(methods) {
                return false;
            }
            let mut k: usize = 0;
            while k < traits.len()
                invariant
                    t.kind is CppTypeWrapper,
                    t.kind->CppTypeWrapper_traits == *traits,
                    k <= traits@.len(),
                    forall|m: int| 0 <= m < k ==> methods_fit((#[trigger] traits@[m]).methods@),
                decreases traits.len() - k,
            {
                if !methods_fit_check(&traits[k].methods) {
                    return false;
                }
                k = k + 1;
            }
            true
        },
        _ => true,
    }
}

/// Whether the argument counts throughout a module fit the generator's
/// indices, which `generate_module_code` asks of its input.
pub fn module_fits_check(m: &RustModule) -> (r: bool)
    ensures
        r == module_fits(*m),
    decreases m, 0int,
{
    let mut k: usize = 0;
    while k < m.types.len()
        invariant
            k <= m.types@.len(),
            forall|j: int| 0 <= j < k ==> declaration_fits(#[trigger] m.types@[j]),
        decreases m.types.len() - k,
    {
        if !declaration_fits_check(&m.types[k]) {
            return false;
        }
        k = k + 1;
    }
    if !methods_fit_check(&m.functions) {
        return false;
    }
    let ghost ss = m.submodules@;
    proof {
        lemma_submodules(ss, ss.len() as int, Seq::empty());
    }
    let mut i: usize = 0;
    while i < m.submodules.len()
        invariant
            ss == m.submodules@,
            i <= ss.len(),
            forall|j: int| 0 <= j < i ==> module_fits(#[trigger] ss[j]),
        decreases m.submodules.len() - i,
    {
        if !module_fits_check(&m.submodules[i]) {
            proof {
                lemma_submodules(ss, ss.len() as int, Seq::empty());
            }
            return false;
        }
        i = i + 1;
    }
    proof {
        lemma_submodules(ss, ss.len() as int, Seq::empty());
    }
    true
}

} // verus!
