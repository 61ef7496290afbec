//! Records of a C++ library's API: enum values, fields, base classes, type
//! declarations.
use crate::cpp_path::{path_pseudo, type_pseudo, CppPath, CppType, ItemModel};
use vstd::prelude::*;

verus! {

/// One item of a C++ enum declaration.
#[derive(Debug, PartialEq, Eq, Clone)]
pub struct CppEnumValue {
    /// Full path: the enum's path and the variant name.
    pub path: CppPath,
    /// Numeric value of the variant.
    pub value: i64,
    /// Documentation of the item, in HTML.
    pub doc: Option<String>,
}

/// The path of an enum variant without the enum's own name: the item before
/// the last one is removed.
pub open spec fn unscoped_model(ms: Seq<ItemModel>) -> Seq<ItemModel> {
    ms.remove(ms.len() - 2)
}

impl CppEnumValue {
    /// Whether two enum values have the same path and value (documentation aside).
    pub fn is_same(&self, other: &CppEnumValue) -> (r: bool)
        ensures
            r == (self.path@ == other.path@ && self.value == other.value),
    {
        self.path.eq(&other.path) && self.value == other.value
    }

    /// The variant's path with the enum name left out (`A::B::C::D` gives
    /// `A::B::D`); the path must have at least two items.
    pub fn unscoped_path(&self) -> (r: CppPath)
        requires
            self.path@.len() >= 2,
        ensures
            r@ == unscoped_model(self.path@),
    {
        let mut items = self.path.clone().into_items();
        let n = items.len();
        let ghost before = items@;
        items.remove(n - 2);
        proof {
            assert forall|i: int| 0 <= i < items@.len() implies #[trigger] items@[i]@ == unscoped_model(self.path@)[i] by {
                if i < n - 2 {
                    assert(items@[i] == before[i]);
                } else {
                    assert(items@[i] == before[i + 1]);
                }
            }
        }
        let r = CppPath::from_items(items);
        proof {
            assert(r@ =~= unscoped_model(self.path@));
        }
        r
    }
}

/// Documentation attached to a class field (none is recorded).
pub type CppClassFieldDoc = ();

/// Visibility of a C++ entity; `Public` for entities that cannot have one.
#[derive(Debug, Clone, Copy, PartialEq, Eq, Hash, Structural)]
pub enum CppVisibility {
    Public,
    Protected,
    Private,
}

/// Member field of a C++ class declaration.
#[derive(Debug, PartialEq, Eq, Clone, Hash)]
pub struct CppClassField {
    pub path: CppPath,
    pub field_type: CppType,
    pub visibility: CppVisibility,
    pub is_static: bool,
    pub doc: Option<CppClassFieldDoc>,
}

/// The word that a visibility puts before a field's text.
pub open spec fn visibility_prefix(v: CppVisibility) -> Seq<char> {
    match v {
        CppVisibility::Public => Seq::empty(),
        CppVisibility::Protected => seq!['p', 'r', 'o', 't', 'e', 'c', 't', 'e', 'd', ' '],
        CppVisibility::Private => seq!['p', 'r', 'i', 'v', 'a', 't', 'e', ' '],
    }
}

impl CppClassField {
    /// Whether two fields agree on path, type, visibility and staticness.
    pub fn is_same(&self, other: &CppClassField) -> (r: bool)
        ensures
            r == (self.path@ == other.path@ && self.field_type@ == other.field_type@
                && self.visibility == other.visibility && self.is_static == other.is_static),
    {
        self.path.eq(&other.path) && self.field_type.eq(&other.field_type)
            && self.visibility == other.visibility && self.is_static == other.is_static
    }

    /// A one-line description: visibility (unless public), type, path.
    pub fn short_text(&self) -> (r: String)
        ensures
            r@ == visibility_prefix(self.visibility) + type_pseudo(self.field_type@) + seq![' ']
                + path_pseudo(self.path@),
    {
        let mut r = String::new();
        match self.visibility {
            CppVisibility::Public => {},
            CppVisibility::Protected => r.append("protected "),
            CppVisibility::Private => r.append("private "),
        }
        let t = self.field_type.to_cpp_pseudo_code();
        r.append(t.as_str());
        r.append(" ");
        let p = self.path.to_cpp_pseudo_code();
        r.append(p.as_str());
        proof {
            reveal_strlit("protected ");
            reveal_strlit("private ");
            reveal_strlit(" ");
            assert(r@ =~= visibility_prefix(self.visibility) + type_pseudo(self.field_type@) + seq![' ']
                + path_pseudo(self.path@));
        }
        r
    }
}

/// Item of the base class list of a class declaration.
#[derive(Debug, PartialEq, Eq, Clone, Hash)]
pub struct CppBaseSpecifier {
    /// Base class type (may carry template arguments).
    pub base_class_type: CppPath,
    /// Index of this base among the class's bases.
    pub base_index: usize,
    /// Whether the base is virtual.
    pub is_virtual: bool,
    /// Visibility of the inheritance.
    pub visibility: CppVisibility,
    /// The class that inherits this base.
    pub derived_class_type: CppPath,
}

/// Location of a type's definition in the headers.
#[derive(Debug, PartialEq, Eq, Clone, Hash)]
pub struct CppOriginLocation {
    /// Full path to the header.
    pub include_file_path: String,
    pub line: u32,
    pub column: u32,
}

/// Documentation of a type.
#[derive(Debug, PartialEq, Eq, Clone)]
pub struct CppTypeDoc {
    /// HTML content.
    pub html: String,
    /// Absolute URL of the documentation page.
    pub url: String,
    /// Absolute documentation URLs that the content refers to.
    pub cross_references: Vec<String>,
}

/// What kind of type a declaration introduces.
#[derive(Debug, PartialEq, Eq, Clone, Copy, Structural)]
pub enum CppTypeDeclarationKind {
    Enum,
    Class { is_movable: bool },
}

/// A C++ type declaration.
#[derive(Debug, PartialEq, Eq, Clone)]
pub struct CppTypeDeclaration {
    /// Identifier, namespaces and enclosing classes included.
    pub path: CppPath,
    pub kind: CppTypeDeclarationKind,
    pub doc: Option<CppTypeDoc>,
}

impl CppTypeDeclaration {
    /// Whether two declarations declare the same path.
    pub fn is_same(&self, other: &CppTypeDeclaration) -> (r: bool)
        ensures
            r == (self.path@ == other.path@),
    {
        self.path.eq(&other.path)
    }
}

impl CppTypeDeclarationKind {
    /// Whether the declaration is a class.
    pub fn is_class(&self) -> (r: bool)
        ensures
            r == (*self is Class),
    {
        match self {
            CppTypeDeclarationKind::Class { .. } => true,
            _ => false,
        }
    }

    /// Whether the declaration is an enum.
    pub fn is_enum(&self) -> (r: bool)
        ensures
            r == (*self is Enum),
    {
        match self {
            CppTypeDeclarationKind::Enum => true,
            _ => false,
        }
    }
}

} // verus!
