//! Qualified C++ names with optional template arguments, and the C++ types
//! that appear as template arguments.
use crate::error::BindingError;
use vstd::prelude::*;

verus! {

/// Kind of a pointer-like type.
#[derive(Debug, Clone, Copy, PartialEq, Eq, Hash, Structural)]
pub enum CppPointerLikeTypeKind {
    Pointer,
    Reference,
    RValueReference,
}

/// A C++ type as far as paths and templates need it.
#[derive(Debug, Eq, Hash)]
pub enum CppType {
    Void,
    /// A built-in type spelled by its name (`int`, `unsigned long`).
    BuiltIn { name: String },
    Enum { path: CppPath },
    Class(CppPath),
    /// Template parameter `index` of the template at depth `nested_level`.
    TemplateParameter { nested_level: usize, index: usize, name: String },
    PointerLike { kind: CppPointerLikeTypeKind, is_const: bool, target: Box<CppType> },
}

/// One segment of a qualified name.
#[derive(Debug, Eq, Hash)]
pub struct CppPathItem {
    pub name: String,
    pub template_arguments: Option<Vec<CppType>>,
}

/// A qualified name: never empty.
#[derive(Debug, Eq, Hash)]
pub struct CppPath {
    items: Vec<CppPathItem>,
}

impl CppPath {
    #[verifier::type_invariant]
    spec fn not_empty(&self) -> bool {
        self.items@.len() > 0
    }
}

/// Mathematical value of a `CppType`.
pub enum TypeModel {
    Void,
    BuiltIn { name: Seq<char> },
    Enum { path: Seq<ItemModel> },
    Class { path: Seq<ItemModel> },
    TemplateParameter { nested_level: nat, index: nat, name: Seq<char> },
    PointerLike { kind: CppPointerLikeTypeKind, is_const: bool, target: Box<TypeModel> },
}

/// Mathematical value of a `CppPathItem`.
pub struct ItemModel {
    pub name: Seq<char>,
    pub template_arguments: Option<Seq<TypeModel>>,
}

pub closed spec fn type_view(t: CppType) -> TypeModel
    decreases t, 0int,
{
    match t {
        CppType::Void => TypeModel::Void,
        CppType::BuiltIn { name } => TypeModel::BuiltIn { name: name@ },
        CppType::Enum { path } => TypeModel::Enum { path: items_view(path.items@, path.items@.len() as int) },
        CppType::Class(path) => TypeModel::Class { path: items_view(path.items@, path.items@.len() as int) },
        CppType::TemplateParameter { nested_level, index, name } => TypeModel::TemplateParameter {
            nested_level: nested_level as nat,
            index: index as nat,
            name: name@,
        },
        CppType::PointerLike { kind, is_const, target } => TypeModel::PointerLike {
            kind,
            is_const,
            target: Box::new(type_view(*target)),
        },
    }
}

pub closed spec fn types_view(ts: Seq<CppType>, n: int) -> Seq<TypeModel>
    decreases ts, n,
{
    if n <= 0 || n > ts.len() {
        Seq::empty()
    } else {
        types_view(ts, n - 1).push(type_view(ts[n - 1]))
    }
}

pub closed spec fn item_view(it: CppPathItem) -> ItemModel
    decreases it, 0int,
{
    ItemModel {
        name: it.name@,
        template_arguments: match it.template_arguments {
            None => None,
            Some(args) => Some(types_view(args@, args@.len() as int)),
        },
    }
}

pub closed spec fn items_view(items: Seq<CppPathItem>, n: int) -> Seq<ItemModel>
    decreases items, n,
{
    if n <= 0 || n > items.len() {
        Seq::empty()
    } else {
        items_view(items, n - 1).push(item_view(items[n - 1]))
    }
}


pub proof fn lemma_types_view(ts: Seq<CppType>, n: int)
    requires
        0 <= n <= ts.len(),
    ensures
        types_view(ts, n).len() == n,
        forall|i: int| 0 <= i < n ==> #[trigger] types_view(ts, n)[i] == type_view(ts[i]),
    decreases n,
{
    if n > 0 {
        lemma_types_view(ts, n - 1);
    }
}

pub proof fn lemma_items_view(items: Seq<CppPathItem>, n: int)
    requires
        0 <= n <= items.len(),
    ensures
        items_view(items, n).len() == n,
        forall|i: int| 0 <= i < n ==> #[trigger] items_view(items, n)[i] == item_view(items[i]),
    decreases n,
{
    if n > 0 {
        lemma_items_view(items, n - 1);
    }
}

pub broadcast proof fn lemma_items_view_update(items: Seq<CppPathItem>, k: int, x: CppPathItem)
    requires
        0 <= k < items.len(),
    ensures
        #[trigger] items_view(items.update(k, x), items.len() as int) == items_view(items, items.len() as int).update(
            k,
            item_view(x),
        ),
{
    lemma_items_view(items, items.len() as int);
    lemma_items_view(items.update(k, x), items.len() as int);
    assert(items_view(items.update(k, x), items.len() as int) =~= items_view(items, items.len() as int).update(
        k,
        item_view(x),
    ));
}

impl View for CppType {
    type V = TypeModel;

    closed spec fn view(&self) -> TypeModel {
        type_view(*self)
    }
}

impl View for CppPathItem {
    type V = ItemModel;

    closed spec fn view(&self) -> ItemModel {
        item_view(*self)
    }
}

impl View for CppPath {
    type V = Seq<ItemModel>;

    closed spec fn view(&self) -> Seq<ItemModel> {
        items_view(self.items@, self.items@.len() as int)
    }
}

/// The model of a type follows its variant.
pub proof fn lemma_type_view_shape(t: CppType)
    ensures
        match t {
            CppType::Void => t@ == TypeModel::Void,
            CppType::BuiltIn { name } => t@ == (TypeModel::BuiltIn { name: name@ }),
            CppType::Enum { path } => t@ == (TypeModel::Enum { path: path@ }),
            CppType::Class(path) => t@ == (TypeModel::Class { path: path@ }),
            CppType::TemplateParameter { nested_level, index, name } => t@ == (TypeModel::TemplateParameter {
                nested_level: nested_level as nat,
                index: index as nat,
                name: name@,
            }),
            CppType::PointerLike { kind, is_const, target } => t@ == (TypeModel::PointerLike {
                kind,
                is_const,
                target: Box::new((*target)@),
            }),
        },
{
}

/// The model of an item keeps its name.
pub proof fn lemma_item_view_name(it: CppPathItem)
    ensures
        it@.name == it.name@,
        it@.template_arguments is None <==> it.template_arguments is None,
{
}

/// Copies a list of types, keeping the model.
fn clone_types(ts: &Vec<CppType>) -> (r: Vec<CppType>)
    ensures
        types_view(r@, r@.len() as int) == types_view(ts@, ts@.len() as int),
    decreases ts, 1int,
{
    let mut r: Vec<CppType> = Vec::new();
    let mut i: usize = 0;
    while i < ts.len()
        invariant
            i <= ts.len(),
            r@.len() == i,
            forall|j: int| 0 <= j < i ==> #[trigger] type_view(r@[j]) == type_view(ts@[j]),
        decreases ts.len() - i,
    {
        let t = ts[i].clone();
        r.push(t);
        i = i + 1;
    }
    proof {
        lemma_types_view(r@, r@.len() as int);
        lemma_types_view(ts@, ts@.len() as int);
        assert(types_view(r@, r@.len() as int) =~= types_view(ts@, ts@.len() as int));
    }
    r
}

impl Clone for CppType {
    fn clone(&self) -> (r: Self)
        ensures
            r@ == self@,
        decreases self, 0int,
    {
        match self {
            CppType::Void => CppType::Void,
            CppType::BuiltIn { name } => CppType::BuiltIn { name: name.clone() },
            CppType::Enum { path } => CppType::Enum { path: path.clone() },
            CppType::Class(path) => CppType::Class(path.clone()),
            CppType::TemplateParameter { nested_level, index, name } => CppType::TemplateParameter {
                nested_level: *nested_level,
                index: *index,
                name: name.clone(),
            },
            CppType::PointerLike { kind, is_const, target } => {
                let t = (**target).clone();
                CppType::PointerLike { kind: *kind, is_const: *is_const, target: Box::new(t) }
            },
        }
    }
}

impl Clone for CppPathItem {
    fn clone(&self) -> (r: Self)
        ensures
            r@ == self@,
        decreases self, 0int,
    {
        let template_arguments = match &self.template_arguments {
            None => None,
            Some(args) => Some(clone_types(args)),
        };
        CppPathItem { name: self.name.clone(), template_arguments }
    }
}

impl Clone for CppPath {
    fn clone(&self) -> (r: Self)
        ensures
            r@ == self@,
        decreases self, 0int,
    {
        let mut items: Vec<CppPathItem> = Vec::new();
        let mut i: usize = 0;
        while i < self.items.len()
            invariant
                i <= self.items.len(),
                items@.len() == i,
                forall|j: int| 0 <= j < i ==> #[trigger] item_view(items@[j]) == item_view(self.items@[j]),
            decreases self.items.len() - i,
        {
            let it = self.items[i].clone();
            items.push(it);
            i = i + 1;
        }
        proof {
            use_type_invariant(self);
            lemma_items_view(items@, items@.len() as int);
            lemma_items_view(self.items@, self.items@.len() as int);
            assert(items_view(items@, items@.len() as int) =~= items_view(self.items@, self.items@.len() as int));
        }
        CppPath { items }
    }
}


/// Concatenation of `parts` with `sep` between neighbours.
pub open spec fn join(parts: Seq<Seq<char>>, sep: Seq<char>) -> Seq<char>
    decreases parts.len(),
{
    if parts.len() == 0 {
        Seq::empty()
    } else if parts.len() == 1 {
        parts[0]
    } else {
        parts[0] + sep + join(parts.drop_first(), sep)
    }
}

pub proof fn lemma_join_push(parts: Seq<Seq<char>>, sep: Seq<char>, x: Seq<char>)
    requires
        parts.len() > 0,
    ensures
        join(parts.push(x), sep) == join(parts, sep) + sep + x,
    decreases parts.len(),
{
    if parts.len() == 1 {
        assert(parts.push(x).drop_first() =~= seq![x]);
        assert(join(seq![x], sep) == x);
        assert(join(parts, sep) == parts[0]);
    } else {
        assert(parts.push(x).drop_first() =~= parts.drop_first().push(x));
        lemma_join_push(parts.drop_first(), sep, x);
        assert(parts[0] + sep + (join(parts.drop_first(), sep) + sep + x) =~= parts[0] + sep
            + join(parts.drop_first(), sep) + sep + x);
    }
}

/// `::`, the scope separator.
pub open spec fn scope_sep() -> Seq<char> {
    seq![':', ':']
}

/// `, `, the separator of template arguments in pseudo-code.
pub open spec fn comma_sep() -> Seq<char> {
    seq![',', ' ']
}

pub open spec fn void_text() -> Seq<char> {
    seq!['v', 'o', 'i', 'd']
}

pub open spec fn const_prefix() -> Seq<char> {
    seq!['c', 'o', 'n', 's', 't', ' ']
}

/// The declarator that a pointer-like kind adds after its target.
pub open spec fn kind_suffix(kind: CppPointerLikeTypeKind) -> Seq<char> {
    match kind {
        CppPointerLikeTypeKind::Pointer => seq!['*'],
        CppPointerLikeTypeKind::Reference => seq!['&'],
        CppPointerLikeTypeKind::RValueReference => seq!['&', '&'],
    }
}

/// Human-readable C++-like text of a type.
pub open spec fn type_pseudo(t: TypeModel) -> Seq<char>
    decreases t, 0int,
{
    match t {
        TypeModel::Void => void_text(),
        TypeModel::BuiltIn { name } => name,
        TypeModel::Enum { path } => join(items_pseudo(path, path.len() as int), scope_sep()),
        TypeModel::Class { path } => join(items_pseudo(path, path.len() as int), scope_sep()),
        TypeModel::TemplateParameter { name, .. } => name,
        TypeModel::PointerLike { kind, is_const, target } => (if is_const {
            const_prefix()
        } else {
            Seq::empty()
        }) + type_pseudo(*target) + kind_suffix(kind),
    }
}

/// Pseudo-code of the first `n` types of `ts`.
pub open spec fn types_pseudo(ts: Seq<TypeModel>, n: int) -> Seq<Seq<char>>
    decreases ts, n,
{
    if n <= 0 || n > ts.len() {
        Seq::empty()
    } else {
        types_pseudo(ts, n - 1).push(type_pseudo(ts[n - 1]))
    }
}

/// Pseudo-code of one path item: its name, then its template arguments in `<...>`.
pub open spec fn item_pseudo(it: ItemModel) -> Seq<char>
    decreases it, 0int,
{
    match it.template_arguments {
        None => it.name,
        Some(args) => it.name + seq!['<'] + join(types_pseudo(args, args.len() as int), comma_sep())
            + seq!['>'],
    }
}

/// Pseudo-code of the first `n` items of `ms`.
pub open spec fn items_pseudo(ms: Seq<ItemModel>, n: int) -> Seq<Seq<char>>
    decreases ms, n,
{
    if n <= 0 || n > ms.len() {
        Seq::empty()
    } else {
        items_pseudo(ms, n - 1).push(item_pseudo(ms[n - 1]))
    }
}

/// Pseudo-code of a path: its items joined by `::`.
pub open spec fn path_pseudo(ms: Seq<ItemModel>) -> Seq<char> {
    join(items_pseudo(ms, ms.len() as int), scope_sep())
}

/// Relies on String::push: appends one character.
#[verifier::external_body]
pub(crate) fn push_char(s: &mut String, c: char)
    ensures
        final(s)@ == old(s)@.push(c),
{
    s.push(c)
}

/// Appends `part` to `out`, after `sep` unless `first`.
pub(crate) fn append_joined(out: &mut String, first: bool, sep: &str, part: &str)
    ensures
        final(out)@ == if first {
            old(out)@ + part@
        } else {
            old(out)@ + sep@ + part@
        },
{
    if !first {
        out.append(sep);
    }
    out.append(part);
}

impl CppType {
    /// Human-readable C++-like text of this type.
    pub fn to_cpp_pseudo_code(&self) -> (r: String)
        ensures
            r@ == type_pseudo(self@),
        decreases self, 0int,
    {
        match self {
            CppType::Void => {
                proof {
                    reveal_strlit("void");
                }
                String::from_str("void")
            },
            CppType::BuiltIn { name } => name.clone(),
            CppType::Enum { path } => path.to_cpp_pseudo_code(),
            CppType::Class(path) => path.to_cpp_pseudo_code(),
            CppType::TemplateParameter { name, .. } => name.clone(),
            CppType::PointerLike { kind, is_const, target } => {
                let mut r = String::new();
                if *is_const {
                    r.append("const ");
                }
                let t = (**target).to_cpp_pseudo_code();
                r.append(t.as_str());
                match kind {
                    CppPointerLikeTypeKind::Pointer => r.append("*"),
                    CppPointerLikeTypeKind::Reference => r.append("&"),
                    CppPointerLikeTypeKind::RValueReference => r.append("&&"),
                }
                proof {
                    reveal_strlit("const ");
                    reveal_strlit("*");
                    reveal_strlit("&");
                    reveal_strlit("&&");
                    assert(r@ =~= type_pseudo(self@));
                }
                r
            },
        }
    }
}

impl CppPathItem {
    /// Human-readable text of this item: the name, then the template arguments in `<...>`.
    pub fn to_cpp_pseudo_code(&self) -> (r: String)
        ensures
            r@ == item_pseudo(self@),
        decreases self, 0int,
    {
        match &self.template_arguments {
            None => self.name.clone(),
            Some(args) => {
                let mut r = self.name.clone();
                r.append("<");
                let t = types_to_pseudo_code(args);
                r.append(t.as_str());
                r.append(">");
                proof {
                    reveal_strlit("<");
                    reveal_strlit(">");
                    let ms = types_view(args@, args@.len() as int);
                    lemma_types_view(args@, args@.len() as int);
                    assert(self@ == item_view(*self));
                    assert(self@.template_arguments == Some(ms));
                    assert(self@.name == self.name@);
                    assert(r@ =~= item_pseudo(self@));
                }
                r
            },
        }
    }
}

/// Pseudo-code of a list of template arguments, separated by `, `.
fn types_to_pseudo_code(args: &Vec<CppType>) -> (r: String)
    ensures
        r@ == join(types_pseudo(types_view(args@, args@.len() as int), args@.len() as int), comma_sep()),
    decreases args, 1int,
{
    let mut r = String::new();
    let mut i: usize = 0;
    let ghost ms = types_view(args@, args@.len() as int);
    proof {
        lemma_types_view(args@, args@.len() as int);
    }
    while i < args.len()
        invariant
            i <= args.len(),
            ms == types_view(args@, args@.len() as int),
            ms.len() == args@.len(),
            forall|j: int| 0 <= j < args@.len() ==> #[trigger] ms[j] == type_view(args@[j]),
            r@ == join(types_pseudo(ms, i as int), comma_sep()),
        decreases args.len() - i,
    {
        let t = args[i].to_cpp_pseudo_code();
        append_joined(&mut r, i == 0, ", ", t.as_str());
        proof {
            reveal_strlit(", ");
            let prev = types_pseudo(ms, i as int);
            if i > 0 {
                lemma_join_push(prev, comma_sep(), type_pseudo(ms[i as int]));
            } else {
                assert(types_pseudo(ms, 1) =~= seq![type_pseudo(ms[0])]);
            }
            assert(r@ =~= join(types_pseudo(ms, i + 1), comma_sep()));
        }
        i = i + 1;
    }
    r
}

impl CppPath {
    /// Human-readable text of this path: the items joined by `::`.
    pub fn to_cpp_pseudo_code(&self) -> (r: String)
        ensures
            r@ == path_pseudo(self@),
        decreases self, 0int,
    {
        let mut r = String::new();
        let mut i: usize = 0;
        proof {
            lemma_items_view(self.items@, self.items@.len() as int);
        }
        while i < self.items.len()
            invariant
                i <= self.items.len(),
                self@.len() == self.items@.len(),
                forall|j: int| 0 <= j < self.items@.len() ==> #[trigger] self@[j] == item_view(self.items@[j]),
                r@ == join(items_pseudo(self@, i as int), scope_sep()),
            decreases self.items.len() - i,
        {
            let t = self.items[i].to_cpp_pseudo_code();
            append_joined(&mut r, i == 0, "::", t.as_str());
            proof {
                reveal_strlit("::");
                let prev = items_pseudo(self@, i as int);
                if i > 0 {
                    lemma_join_push(prev, scope_sep(), item_pseudo(self@[i as int]));
                } else {
                    assert(items_pseudo(self@, 1) =~= seq![item_pseudo(self@[0])]);
                }
                assert(r@ =~= join(items_pseudo(self@, i + 1), scope_sep()));
            }
            i = i + 1;
        }
        r
    }
}


/// `s` has the scope separator `::` at index `i`.
pub open spec fn is_sep_at(s: Seq<char>, i: int) -> bool {
    0 <= i && i + 1 < s.len() && s[i] == ':' && s[i + 1] == ':'
}

/// Index of the first `::` in `s` at or after `i`, or -1.
pub open spec fn first_sep(s: Seq<char>, i: int) -> int
    decreases s.len() - i,
{
    if i < 0 || i + 1 >= s.len() {
        -1
    } else if is_sep_at(s, i) {
        i
    } else {
        first_sep(s, i + 1)
    }
}

/// The pieces of `s` between occurrences of `::`, scanned from the left.
pub open spec fn split_scopes(s: Seq<char>) -> Seq<Seq<char>>
    decreases s.len(),
{
    let k = first_sep(s, 0);
    if k < 0 || k + 2 > s.len() {
        seq![s]
    } else {
        seq![s.subrange(0, k)] + split_scopes(s.subrange(k + 2, s.len() as int))
    }
}

/// A name that parses as a template-free path: not empty, no `<` or `>`,
/// and no empty piece between separators.
pub open spec fn is_plain_path_text(s: Seq<char>) -> bool {
    &&& s.len() > 0
    &&& !s.contains('<')
    &&& !s.contains('>')
    &&& forall|i: int| 0 <= i < split_scopes(s).len() ==> #[trigger] split_scopes(s)[i].len() > 0
}

/// A path item with this name and no template arguments.
pub open spec fn plain_item(name: Seq<char>) -> ItemModel {
    ItemModel { name, template_arguments: None }
}

/// The path that a plain path text denotes.
pub open spec fn plain_path(s: Seq<char>) -> Seq<ItemModel> {
    split_scopes(s).map_values(|n: Seq<char>| plain_item(n))
}

/// A plain item name: not empty, no `<` or `>`.
pub open spec fn is_plain_item_text(s: Seq<char>) -> bool {
    s.len() > 0 && !s.contains('<') && !s.contains('>')
}

proof fn lemma_first_sep_skip(s: Seq<char>, a: int, b: int)
    requires
        0 <= a <= b,
        forall|j: int| a <= j < b ==> !is_sep_at(s, j),
    ensures
        first_sep(s, a) == first_sep(s, b),
    decreases b - a,
{
    if a < b {
        lemma_first_sep_skip(s, a + 1, b);
    }
}

proof fn lemma_split_scopes_len(s: Seq<char>)
    ensures
        split_scopes(s).len() >= 1,
    decreases s.len(),
{
    let k = first_sep(s, 0);
    if !(k < 0 || k + 2 > s.len()) {
        lemma_split_scopes_len(s.subrange(k + 2, s.len() as int));
    }
}

/// Whether `s` holds `c`, by a scan.
fn contains_char(s: &str, c: char) -> (r: bool)
    ensures
        r == s@.contains(c),
{
    let n = s.unicode_len();
    let mut i: usize = 0;
    while i < n
        invariant
            n == s@.len(),
            i <= n,
            forall|j: int| 0 <= j < i ==> s@[j] != c,
        decreases n - i,
    {
        if s.get_char(i) == c {
            return true;
        }
        i = i + 1;
    }
    false
}

/// Splits `s` at each `::`, from the left.
fn split_at_scopes(s: &str) -> (r: Vec<String>)
    ensures
        r@.len() == split_scopes(s@).len(),
        forall|i: int| 0 <= i < r@.len() ==> #[trigger] r@[i]@ == split_scopes(s@)[i],
{
    let n = s.unicode_len();
    let ghost t = s@;
    let mut pieces: Vec<String> = Vec::new();
    let mut cur = String::new();
    let mut start: usize = 0;
    let mut i: usize = 0;
    proof {
        assert(t.subrange(0, n as int) =~= t);
        assert(pieces@.map_values(|p: String| p@) + split_scopes(t) =~= split_scopes(t));
    }
    while i < n
        invariant
            n == t.len(),
            t == s@,
            start <= i <= n,
            cur@ == t.subrange(start as int, i as int),
            forall|j: int| start <= j < i ==> !is_sep_at(t, j),
            split_scopes(t) == pieces@.map_values(|p: String| p@) + split_scopes(t.subrange(start as int, n as int)),
        decreases n - i,
    {
        let c = s.get_char(i);
        if c == ':' && i + 1 < n && s.get_char(i + 1) == ':' {
            proof {
                let rest = t.subrange(start as int, n as int);
                let k = i - start;
                assert forall|j: int| 0 <= j < k implies !is_sep_at(rest, j) by {
                    assert(!is_sep_at(t, j + start));
                }
                assert(is_sep_at(rest, k as int));
                lemma_first_sep_skip(rest, 0, k as int);
                assert(split_scopes(rest) == seq![rest.subrange(0, k as int)] + split_scopes(
                    rest.subrange(k + 2, rest.len() as int),
                ));
                assert(rest.subrange(0, k as int) =~= cur@);
                assert(rest.subrange(k + 2, rest.len() as int) =~= t.subrange(i + 2, n as int));
            }
            let ghost old_pieces = pieces@;
            pieces.push(cur);
            cur = String::new();
            i = i + 2;
            start = i;
            proof {
                assert(pieces@.map_values(|p: String| p@) =~= old_pieces.map_values(|p: String| p@)
                    + seq![pieces@.last()@]);
                assert(cur@ =~= t.subrange(start as int, i as int));
            }
        } else {
            push_char(&mut cur, c);
            proof {
                assert(!is_sep_at(t, i as int));
                assert(cur@ =~= t.subrange(start as int, i + 1));
            }
            i = i + 1;
        }
    }
    proof {
        let rest = t.subrange(start as int, n as int);
        assert forall|j: int| 0 <= j < rest.len() implies !is_sep_at(rest, j) by {
            assert(!is_sep_at(t, j + start));
        }
        lemma_first_sep_skip(rest, 0, rest.len() as int);
        assert(split_scopes(rest) == seq![rest]);
    }
    let ghost old_pieces = pieces@;
    pieces.push(cur);
    proof {
        assert(pieces@.map_values(|p: String| p@) =~= old_pieces.map_values(|p: String| p@) + seq![
            pieces@.last()@,
        ]);
        assert(split_scopes(t) =~= pieces@.map_values(|p: String| p@));
        assert forall|i: int| 0 <= i < pieces@.len() implies #[trigger] pieces@[i]@ == split_scopes(
            s@,
        )[i] by {
            assert(pieces@.map_values(|p: String| p@)[i] == pieces@[i]@);
        }
    }
    pieces
}

impl CppPathItem {
    /// Parses a template-free item name.
    pub fn parse(name: &str) -> (r: Result<CppPathItem, BindingError>)
        ensures
            match r {
                Ok(it) => is_plain_item_text(name@) && it@ == plain_item(name@),
                Err(e) => !is_plain_item_text(name@) && e == BindingError::MalformedPath,
            },
    {
        if contains_char(name, '<') || contains_char(name, '>') || name.unicode_len() == 0 {
            return Err(BindingError::MalformedPath);
        }
        Ok(CppPathItem { name: String::from_str(name), template_arguments: None })
    }

    /// An item from a name known to be plain.
    pub fn from_good_str(name: &str) -> (r: CppPathItem)
        requires
            is_plain_item_text(name@),
        ensures
            r@ == plain_item(name@),
    {
        match CppPathItem::parse(name) {
            Ok(it) => it,
            Err(_) => CppPathItem { name: String::from_str(name), template_arguments: None },
        }
    }
}

impl CppPath {
    /// Parses a template-free qualified name such as `A::B::C`.
    pub fn parse(path: &str) -> (r: Result<CppPath, BindingError>)
        ensures
            match r {
                Ok(p) => is_plain_path_text(path@) && p@ == plain_path(path@),
                Err(e) => !is_plain_path_text(path@) && e == BindingError::MalformedPath,
            },
    {
        if contains_char(path, '<') || contains_char(path, '>') || path.unicode_len() == 0 {
            return Err(BindingError::MalformedPath);
        }
        let pieces = split_at_scopes(path);
        let ghost parts = split_scopes(path@);
        proof {
            lemma_split_scopes_len(path@);
        }
        let mut items: Vec<CppPathItem> = Vec::new();
        let mut i: usize = 0;
        while i < pieces.len()
            invariant
                pieces@.len() == parts.len(),
                parts == split_scopes(path@),
                forall|j: int| 0 <= j < pieces@.len() ==> #[trigger] pieces@[j]@ == parts[j],
                i <= pieces@.len(),
                items@.len() == i,
                forall|j: int| 0 <= j < i ==> #[trigger] item_view(items@[j]) == plain_item(parts[j]),
                forall|j: int| 0 <= j < i ==> parts[j].len() > 0,
            decreases pieces.len() - i,
        {
            if pieces[i].unicode_len() == 0 {
                proof {
                    assert(parts[i as int].len() == 0);
                }
                return Err(BindingError::MalformedPath);
            }
            items.push(CppPathItem { name: pieces[i].clone(), template_arguments: None });
            i = i + 1;
        }
        proof {
            lemma_items_view(items@, items@.len() as int);
            assert(items_view(items@, items@.len() as int) =~= plain_path(path@));
        }
        Ok(CppPath { items })
    }

    /// A path from a name known to be plain.
    pub fn from_good_str(path: &str) -> (r: CppPath)
        requires
            is_plain_path_text(path@),
        ensures
            r@ == plain_path(path@),
    {
        match CppPath::parse(path) {
            Ok(p) => p,
            Err(_) => CppPath { items: vec![CppPathItem { name: String::from_str(path), template_arguments: None }] },
        }
    }
}


impl std::str::FromStr for CppPath {
    type Err = BindingError;

    fn from_str(path: &str) -> (r: Result<CppPath, BindingError>)
        ensures
            match r {
                Ok(p) => is_plain_path_text(path@) && p@ == plain_path(path@),
                Err(e) => !is_plain_path_text(path@) && e == BindingError::MalformedPath,
            },
    {
        CppPath::parse(path)
    }
}

impl std::str::FromStr for CppPathItem {
    type Err = BindingError;

    fn from_str(name: &str) -> (r: Result<CppPathItem, BindingError>)
        ensures
            match r {
                Ok(it) => is_plain_item_text(name@) && it@ == plain_item(name@),
                Err(e) => !is_plain_item_text(name@) && e == BindingError::MalformedPath,
            },
    {
        CppPathItem::parse(name)
    }
}

proof fn lemma_first_sep_found(s: Seq<char>, i: int)
    ensures
        first_sep(s, i) >= 0 ==> is_sep_at(s, first_sep(s, i)) && first_sep(s, i) >= i,
    decreases s.len() - i,
{
    if !(i < 0 || i + 1 >= s.len()) && !is_sep_at(s, i) {
        lemma_first_sep_found(s, i + 1);
    }
}

proof fn lemma_join_split(s: Seq<char>)
    ensures
        join(split_scopes(s), scope_sep()) == s,
    decreases s.len(),
{
    let k = first_sep(s, 0);
    lemma_first_sep_found(s, 0);
    if !(k < 0 || k + 2 > s.len()) {
        let tail = s.subrange(k + 2, s.len() as int);
        lemma_join_split(tail);
        lemma_split_scopes_len(tail);
        let parts = split_scopes(s);
        assert(parts == seq![s.subrange(0, k)] + split_scopes(tail));
        assert(parts.drop_first() =~= split_scopes(tail));
        assert(join(parts, scope_sep()) == s.subrange(0, k) + scope_sep() + tail);
        assert(s.subrange(0, k) + scope_sep() + tail =~= s);
    }
}

proof fn lemma_items_pseudo(ms: Seq<ItemModel>, n: int)
    requires
        0 <= n <= ms.len(),
    ensures
        items_pseudo(ms, n).len() == n,
        forall|i: int| 0 <= i < n ==> #[trigger] items_pseudo(ms, n)[i] == item_pseudo(ms[i]),
    decreases n,
{
    if n > 0 {
        lemma_items_pseudo(ms, n - 1);
    }
}

/// Parsing a plain qualified name and rendering the path as pseudo-code gives
/// back the same text.
pub proof fn law_parse_then_render(s: Seq<char>)
    requires
        is_plain_path_text(s),
    ensures
        path_pseudo(plain_path(s)) == s,
{
    let ms = plain_path(s);
    lemma_items_pseudo(ms, ms.len() as int);
    assert(items_pseudo(ms, ms.len() as int) =~= split_scopes(s));
    lemma_join_split(s);
}

/// The path without its last item, where there is more than one.
pub open spec fn parent_model(ms: Seq<ItemModel>) -> Option<Seq<ItemModel>> {
    if ms.len() > 1 {
        Some(ms.drop_last())
    } else {
        None
    }
}

/// The parent of a path extended by one item is the path itself.
pub proof fn law_parent_of_join(p: Seq<ItemModel>, item: ItemModel)
    requires
        p.len() > 0,
    ensures
        parent_model(p.push(item)) == Some(p),
{
    assert(p.push(item).drop_last() =~= p);
}

impl CppPath {
    /// A path of one item.
    pub fn from_item(item: CppPathItem) -> (r: CppPath)
        ensures
            r@ == seq![item@],
    {
        let items = vec![item];
        proof {
            lemma_items_view(items@, 1);
            assert(items_view(items@, 1) =~= seq![item_view(items@[0])]);
        }
        CppPath { items }
    }

    /// A path of the given items; there must be at least one.
    pub fn from_items(items: Vec<CppPathItem>) -> (r: CppPath)
        requires
            items@.len() > 0,
        ensures
            r@.len() == items@.len(),
            forall|i: int| 0 <= i < items@.len() ==> #[trigger] r@[i] == items@[i]@,
    {
        proof {
            lemma_items_view(items@, items@.len() as int);
        }
        CppPath { items }
    }

    /// The items of this path.
    pub fn into_items(self) -> (r: Vec<CppPathItem>)
        ensures
            r@.len() == self@.len(),
            r@.len() > 0,
            forall|i: int| 0 <= i < r@.len() ==> #[trigger] r@[i]@ == self@[i],
    {
        proof {
            use_type_invariant(&self);
            lemma_items_view(self.items@, self.items@.len() as int);
        }
        self.items
    }

    /// The items of this path.
    pub fn items(&self) -> (r: &[CppPathItem])
        ensures
            r@.len() == self@.len(),
            forall|i: int| 0 <= i < r@.len() ==> #[trigger] r@[i]@ == self@[i],
    {
        proof {
            lemma_items_view(self.items@, self.items@.len() as int);
        }
        self.items.as_slice()
    }

    /// This path with `item` appended.
    pub fn join(&self, item: CppPathItem) -> (r: CppPath)
        ensures
            r@ == self@.push(item@),
    {
        let mut r = self.clone();
        proof {
            use_type_invariant(&r);
            lemma_items_view(r.items@, r.items@.len() as int);
        }
        let mut items = r.items;
        items.push(item);
        proof {
            lemma_items_view(items@, items@.len() as int);
            assert(items_view(items@, items@.len() as int) =~= self@.push(item@));
        }
        CppPath { items }
    }

    /// The last item of this path.
    pub fn last(&self) -> (r: &CppPathItem)
        ensures
            self@.len() > 0,
            r@ == self@.last(),
    {
        proof {
            use_type_invariant(self);
            lemma_items_view(self.items@, self.items@.len() as int);
        }
        &self.items[self.items.len() - 1]
    }

    /// The last item of this path, to be changed in place.
    pub fn last_mut(&mut self) -> (r: &mut CppPathItem)
        ensures
            old(self)@.len() > 0,
            r@ == old(self)@.last(),
            final(self)@ == old(self)@.update(old(self)@.len() - 1, final(r)@),
    {
        proof {
            use_type_invariant(&*self);
            lemma_items_view(self.items@, self.items@.len() as int);
        }
        broadcast use lemma_items_view_update;
        let n = self.items.len();
        &mut self.items[n - 1]
    }

    /// Whether this path has more than one item.
    pub fn has_parent(&self) -> (r: bool)
        ensures
            r == (self@.len() > 1),
    {
        proof {
            lemma_items_view(self.items@, self.items@.len() as int);
        }
        self.items.len() > 1
    }

    /// This path without its last item; fails on a path of one item.
    pub fn parent(&self) -> (r: Result<CppPath, BindingError>)
        ensures
            match r {
                Ok(p) => parent_model(self@) == Some(p@),
                Err(e) => parent_model(self@) is None && e == BindingError::EmptyParent,
            },
    {
        proof {
            lemma_items_view(self.items@, self.items@.len() as int);
        }
        if self.items.len() > 1 {
            let mut items: Vec<CppPathItem> = Vec::new();
            let mut i: usize = 0;
            while i + 1 < self.items.len()
                invariant
                    self.items@.len() > 1,
                    i + 1 <= self.items@.len(),
                    items@.len() == i,
                    forall|j: int| 0 <= j < i ==> #[trigger] item_view(items@[j]) == item_view(self.items@[j]),
                decreases self.items.len() - i,
            {
                items.push(self.items[i].clone());
                i = i + 1;
            }
            proof {
                lemma_items_view(items@, items@.len() as int);
                assert(items_view(items@, items@.len() as int) =~= self@.drop_last());
            }
            Ok(CppPath { items })
        } else {
            Err(BindingError::EmptyParent)
        }
    }
}


/// A character that may stand in a generated identifier as it is.
pub open spec fn is_ident_char(c: char) -> bool {
    ('0' <= c && c <= '9') || ('a' <= c && c <= 'z') || ('A' <= c && c <= 'Z') || c == '_'
}

/// How a character of a name appears in a caption: the destructor marker `~`
/// becomes `d`, any other character that cannot stand in an identifier `_`.
pub open spec fn caption_char(c: char) -> char {
    if c == '~' {
        'd'
    } else if is_ident_char(c) {
        c
    } else {
        '_'
    }
}

pub open spec fn name_caption(s: Seq<char>) -> Seq<char> {
    s.map_values(|c: char| caption_char(c))
}

pub open spec fn underscore() -> Seq<char> {
    seq!['_']
}

/// What a pointer-like kind adds at the end of a caption.
pub open spec fn kind_caption(kind: CppPointerLikeTypeKind) -> Seq<char> {
    match kind {
        CppPointerLikeTypeKind::Pointer => seq!['_', 'p', 't', 'r'],
        CppPointerLikeTypeKind::Reference => seq!['_', 'r', 'e', 'f'],
        CppPointerLikeTypeKind::RValueReference => seq!['_', 'r', 'r', 'e', 'f'],
    }
}

/// An identifier-safe caption of a type.
pub open spec fn type_caption(t: TypeModel) -> Seq<char>
    decreases t, 0int,
{
    match t {
        TypeModel::Void => void_text(),
        TypeModel::BuiltIn { name } => name_caption(name),
        TypeModel::Enum { path } => join(items_caption(path, path.len() as int), underscore()),
        TypeModel::Class { path } => join(items_caption(path, path.len() as int), underscore()),
        TypeModel::TemplateParameter { name, .. } => name_caption(name),
        TypeModel::PointerLike { kind, is_const, target } => (if is_const {
            seq!['c', 'o', 'n', 's', 't', '_']
        } else {
            Seq::empty()
        }) + type_caption(*target) + kind_caption(kind),
    }
}

/// Captions of the first `n` types of `ts`.
pub open spec fn types_caption(ts: Seq<TypeModel>, n: int) -> Seq<Seq<char>>
    decreases ts, n,
{
    if n <= 0 || n > ts.len() {
        Seq::empty()
    } else {
        types_caption(ts, n - 1).push(type_caption(ts[n - 1]))
    }
}

/// Caption of an item: its name, then `_` and the captions of its template
/// arguments joined by `_`.
pub open spec fn item_caption(it: ItemModel) -> Seq<char>
    decreases it, 0int,
{
    match it.template_arguments {
        None => name_caption(it.name),
        Some(args) => name_caption(it.name) + underscore() + join(
            types_caption(args, args.len() as int),
            underscore(),
        ),
    }
}

/// Captions of the first `n` items of `ms`.
pub open spec fn items_caption(ms: Seq<ItemModel>, n: int) -> Seq<Seq<char>>
    decreases ms, n,
{
    if n <= 0 || n > ms.len() {
        Seq::empty()
    } else {
        items_caption(ms, n - 1).push(item_caption(ms[n - 1]))
    }
}

/// Caption of a path: the captions of its items joined by `_`.
pub open spec fn path_caption(ms: Seq<ItemModel>) -> Seq<char> {
    join(items_caption(ms, ms.len() as int), underscore())
}

fn caption_of_char(c: char) -> (r: char)
    ensures
        r == caption_char(c),
{
    if c == '~' {
        'd'
    } else if ('0' <= c && c <= '9') || ('a' <= c && c <= 'z') || ('A' <= c && c <= 'Z') || c == '_' {
        c
    } else {
        '_'
    }
}

/// Caption of a name, character by character.
fn caption_of_name(name: &str) -> (r: String)
    ensures
        r@ == name_caption(name@),
{
    let n = name.unicode_len();
    let mut r = String::new();
    let mut i: usize = 0;
    while i < n
        invariant
            n == name@.len(),
            i <= n,
            r@ =~= name_caption(name@.subrange(0, i as int)),
        decreases n - i,
    {
        let c = caption_of_char(name.get_char(i));
        push_char(&mut r, c);
        i = i + 1;
        proof {
            assert(name_caption(name@.subrange(0, i as int)) =~= name_caption(
                name@.subrange(0, i - 1),
            ).push(caption_char(name@[i - 1])));
        }
    }
    proof {
        assert(name@.subrange(0, n as int) =~= name@);
    }
    r
}

proof fn lemma_types_caption(ts: Seq<TypeModel>, n: int)
    requires
        0 <= n <= ts.len(),
    ensures
        types_caption(ts, n).len() == n,
    decreases n,
{
    if n > 0 {
        lemma_types_caption(ts, n - 1);
    }
}

proof fn lemma_items_caption(ms: Seq<ItemModel>, n: int)
    requires
        0 <= n <= ms.len(),
    ensures
        items_caption(ms, n).len() == n,
    decreases n,
{
    if n > 0 {
        lemma_items_caption(ms, n - 1);
    }
}

impl CppType {
    /// An identifier-safe caption of this type.
    pub fn ascii_caption(&self) -> (r: String)
        ensures
            r@ == type_caption(self@),
        decreases self, 0int,
    {
        match self {
            CppType::Void => {
                proof {
                    reveal_strlit("void");
                }
                String::from_str("void")
            },
            CppType::BuiltIn { name } => caption_of_name(name.as_str()),
            CppType::Enum { path } => path.ascii_caption(),
            CppType::Class(path) => path.ascii_caption(),
            CppType::TemplateParameter { name, .. } => caption_of_name(name.as_str()),
            CppType::PointerLike { kind, is_const, target } => {
                let mut r = String::new();
                if *is_const {
                    r.append("const_");
                }
                let t = (**target).ascii_caption();
                r.append(t.as_str());
                match kind {
                    CppPointerLikeTypeKind::Pointer => r.append("_ptr"),
                    CppPointerLikeTypeKind::Reference => r.append("_ref"),
                    CppPointerLikeTypeKind::RValueReference => r.append("_rref"),
                }
                proof {
                    reveal_strlit("const_");
                    reveal_strlit("_ptr");
                    reveal_strlit("_ref");
                    reveal_strlit("_rref");
                    assert(r@ =~= type_caption(self@));
                }
                r
            },
        }
    }
}

/// Captions of a list of template arguments, joined by `_`.
fn types_to_caption(args: &Vec<CppType>) -> (r: String)
    ensures
        r@ == join(types_caption(types_view(args@, args@.len() as int), args@.len() as int), underscore()),
    decreases args, 1int,
{
    let mut r = String::new();
    let mut i: usize = 0;
    let ghost ms = types_view(args@, args@.len() as int);
    proof {
        lemma_types_view(args@, args@.len() as int);
    }
    while i < args.len()
        invariant
            i <= args.len(),
            ms == types_view(args@, args@.len() as int),
            ms.len() == args@.len(),
            forall|j: int| 0 <= j < args@.len() ==> #[trigger] ms[j] == type_view(args@[j]),
            r@ == join(types_caption(ms, i as int), underscore()),
        decreases args.len() - i,
    {
        let t = args[i].ascii_caption();
        append_joined(&mut r, i == 0, "_", t.as_str());
        proof {
            reveal_strlit("_");
            lemma_types_caption(ms, i as int);
            if i > 0 {
                lemma_join_push(types_caption(ms, i as int), underscore(), type_caption(ms[i as int]));
            } else {
                assert(types_caption(ms, 1) =~= seq![type_caption(ms[0])]);
            }
            assert(r@ =~= join(types_caption(ms, i + 1), underscore()));
        }
        i = i + 1;
    }
    r
}

impl CppPathItem {
    /// An identifier-safe caption of this item.
    pub fn ascii_caption(&self) -> (r: String)
        ensures
            r@ == item_caption(self@),
        decreases self, 0int,
    {
        let mut r = caption_of_name(self.name.as_str());
        match &self.template_arguments {
            None => {},
            Some(args) => {
                r.append("_");
                let t = types_to_caption(args);
                r.append(t.as_str());
                proof {
                    reveal_strlit("_");
                    lemma_types_view(args@, args@.len() as int);
                    assert(self@.template_arguments == Some(types_view(args@, args@.len() as int)));
                }
            },
        }
        proof {
            assert(self@.name == self.name@);
            assert(r@ =~= item_caption(self@));
        }
        r
    }
}

impl CppPath {
    /// An identifier-safe caption of this path: item captions joined by `_`,
    /// template arguments included.
    pub fn ascii_caption(&self) -> (r: String)
        ensures
            r@ == path_caption(self@),
        decreases self, 0int,
    {
        let mut r = String::new();
        let mut i: usize = 0;
        proof {
            lemma_items_view(self.items@, self.items@.len() as int);
        }
        while i < self.items.len()
            invariant
                i <= self.items.len(),
                self@.len() == self.items@.len(),
                forall|j: int| 0 <= j < self.items@.len() ==> #[trigger] self@[j] == item_view(self.items@[j]),
                r@ == join(items_caption(self@, i as int), underscore()),
            decreases self.items.len() - i,
        {
            let t = self.items[i].ascii_caption();
            append_joined(&mut r, i == 0, "_", t.as_str());
            proof {
                reveal_strlit("_");
                lemma_items_caption(self@, i as int);
                if i > 0 {
                    lemma_join_push(items_caption(self@, i as int), underscore(), item_caption(self@[i as int]));
                } else {
                    assert(items_caption(self@, 1) =~= seq![item_caption(self@[0])]);
                }
                assert(r@ =~= join(items_caption(self@, i + 1), underscore()));
            }
            i = i + 1;
        }
        r
    }

    /// The item names joined by `::`, template arguments left out.
    pub fn to_templateless_string(&self) -> (r: String)
        ensures
            r@ == join(self@.map_values(|it: ItemModel| it.name), scope_sep()),
    {
        let mut r = String::new();
        let mut i: usize = 0;
        proof {
            lemma_items_view(self.items@, self.items@.len() as int);
        }
        while i < self.items.len()
            invariant
                i <= self.items.len(),
                self@.len() == self.items@.len(),
                forall|j: int| 0 <= j < self.items@.len() ==> #[trigger] self@[j] == item_view(self.items@[j]),
                r@ == join(self@.subrange(0, i as int).map_values(|it: ItemModel| it.name), scope_sep()),
            decreases self.items.len() - i,
        {
            append_joined(&mut r, i == 0, "::", self.items[i].name.as_str());
            proof {
                reveal_strlit("::");
                let prev = self@.subrange(0, i as int).map_values(|it: ItemModel| it.name);
                assert(self@.subrange(0, i + 1).map_values(|it: ItemModel| it.name) =~= prev.push(
                    self@[i as int].name,
                ));
                if i > 0 {
                    lemma_join_push(prev, scope_sep(), self@[i as int].name);
                }
            }
            i = i + 1;
        }
        proof {
            assert(self@.subrange(0, self@.len() as int) =~= self@);
        }
        r
    }

    /// The identifier under which this entity is documented: the path
    /// without template arguments.
    pub fn doc_id(&self) -> (r: String)
        ensures
            r@ == join(self@.map_values(|it: ItemModel| it.name), scope_sep()),
    {
        self.to_templateless_string()
    }
}


pub open spec fn digit_char(d: nat) -> char {
    if d == 0 {
        '0'
    } else if d == 1 {
        '1'
    } else if d == 2 {
        '2'
    } else if d == 3 {
        '3'
    } else if d == 4 {
        '4'
    } else if d == 5 {
        '5'
    } else if d == 6 {
        '6'
    } else if d == 7 {
        '7'
    } else if d == 8 {
        '8'
    } else {
        '9'
    }
}

/// Decimal digits of `n`, most significant first.
pub open spec fn decimal(n: nat) -> Seq<char>
    decreases n,
{
    if n < 10 {
        seq![digit_char(n)]
    } else {
        decimal(n / 10).push(digit_char(n % 10))
    }
}

/// Name of a synthetic template parameter: `T<level>_<index>`.
pub open spec fn param_name(level: nat, index: nat) -> Seq<char> {
    seq!['T'] + decimal(level) + seq!['_'] + decimal(index)
}

/// The `n` synthetic parameters of the template at depth `level`.
pub open spec fn synthetic_params(level: nat, n: nat) -> Seq<TypeModel> {
    Seq::new(
        n,
        |i: int|
            TypeModel::TemplateParameter {
                nested_level: level,
                index: i as nat,
                name: param_name(level, i as nat),
            },
    )
}

/// Number of items before index `i` that carry template arguments.
pub open spec fn templated_before(ms: Seq<ItemModel>, i: int) -> nat
    decreases i,
{
    if i <= 0 || i > ms.len() {
        0
    } else {
        templated_before(ms, i - 1) + if ms[i - 1].template_arguments is Some {
            1nat
        } else {
            0nat
        }
    }
}

/// Every templated item with its arguments replaced by synthetic parameters,
/// one nesting level per templated item, counted from the left.
pub open spec fn deinstantiated(ms: Seq<ItemModel>) -> Seq<ItemModel> {
    Seq::new(
        ms.len(),
        |i: int|
            match ms[i].template_arguments {
                None => ms[i],
                Some(args) => ItemModel {
                    name: ms[i].name,
                    template_arguments: Some(synthetic_params(templated_before(ms, i), args.len())),
                },
            },
    )
}

fn digit_of(d: u64) -> (r: char)
    requires
        d < 10,
    ensures
        r == digit_char(d as nat),
{
    if d == 0 {
        '0'
    } else if d == 1 {
        '1'
    } else if d == 2 {
        '2'
    } else if d == 3 {
        '3'
    } else if d == 4 {
        '4'
    } else if d == 5 {
        '5'
    } else if d == 6 {
        '6'
    } else if d == 7 {
        '7'
    } else if d == 8 {
        '8'
    } else {
        '9'
    }
}

pub(crate) fn decimal_string(n: u64) -> (r: String)
    ensures
        r@ == decimal(n as nat),
    decreases n,
{
    if n < 10 {
        let mut r = String::new();
        push_char(&mut r, digit_of(n));
        proof {
            assert(r@ =~= decimal(n as nat));
        }
        r
    } else {
        let mut r = decimal_string(n / 10);
        push_char(&mut r, digit_of(n % 10));
        r
    }
}

fn synthetic_param_name(level: usize, index: usize) -> (r: String)
    ensures
        r@ == param_name(level as nat, index as nat),
{
    let mut r = String::new();
    push_char(&mut r, 'T');
    let l = decimal_string(level as u64);
    r.append(l.as_str());
    push_char(&mut r, '_');
    let x = decimal_string(index as u64);
    r.append(x.as_str());
    proof {
        assert(r@ =~= param_name(level as nat, index as nat));
    }
    r
}

impl CppPath {
    /// This path with the template arguments of each templated item replaced
    /// by synthetic parameters, the nesting level growing by one per templated
    /// item. Two instantiations of one template give the same result.
    pub fn deinstantiate(&self) -> (r: CppPath)
        ensures
            r@ == deinstantiated(self@),
    {
        proof {
            use_type_invariant(self);
            lemma_items_view(self.items@, self.items@.len() as int);
        }
        let mut items: Vec<CppPathItem> = Vec::new();
        let mut nested_level: usize = 0;
        let mut i: usize = 0;
        while i < self.items.len()
            invariant
                i <= self.items.len(),
                self@.len() == self.items@.len(),
                forall|j: int| 0 <= j < self.items@.len() ==> #[trigger] self@[j] == item_view(self.items@[j]),
                nested_level == templated_before(self@, i as int),
                nested_level <= i,
                items@.len() == i,
                forall|j: int| 0 <= j < i ==> #[trigger] item_view(items@[j]) == deinstantiated(self@)[j],
            decreases self.items.len() - i,
        {
            let item = &self.items[i];
            match &item.template_arguments {
                None => {
                    items.push(item.clone());
                },
                Some(args) => {
                    let mut params: Vec<CppType> = Vec::new();
                    let mut index: usize = 0;
                    while index < args.len()
                        invariant
                            index <= args.len(),
                            params@.len() == index,
                            forall|k: int| 0 <= k < index ==> #[trigger] type_view(params@[k]) == synthetic_params(nested_level as nat, args@.len() as nat)[k],
                        decreases args.len() - index,
                    {
                        let name = synthetic_param_name(nested_level, index);
                        params.push(CppType::TemplateParameter { nested_level, index, name });
                        index = index + 1;
                    }
                    proof {
                        lemma_types_view(params@, params@.len() as int);
                        lemma_types_view(args@, args@.len() as int);
                        assert(types_view(params@, params@.len() as int) =~= synthetic_params(nested_level as nat, args@.len() as nat));
                    }
                    let ghost pv = params@;
                    items.push(CppPathItem { name: item.name.clone(), template_arguments: Some(params) });
                    proof {
                        assert(item_view(items@[i as int]).template_arguments == Some(types_view(pv, pv.len() as int)));
                    }
                    nested_level = nested_level + 1;
                },
            }
            proof {
                assert(templated_before(self@, i + 1) == templated_before(self@, i as int) + if self@[i as int].template_arguments is Some { 1nat } else { 0nat });
                assert(item_view(items@[i as int]) == deinstantiated(self@)[i as int]);
            }
            i = i + 1;
        }
        proof {
            lemma_items_view(items@, items@.len() as int);
            assert(items_view(items@, items@.len() as int) =~= deinstantiated(self@));
        }
        CppPath { items }
    }
}


proof fn lemma_templated_before_bound(ms: Seq<ItemModel>, i: int)
    requires
        0 <= i,
    ensures
        templated_before(ms, i) <= i,
    decreases i,
{
    if i > 0 {
        lemma_templated_before_bound(ms, i - 1);
    }
}

/// A type with the template parameters of depth `level` replaced by `args`;
/// `None` where a parameter's index is not covered by `args`.
pub open spec fn type_inst(t: TypeModel, level: nat, args: Seq<TypeModel>) -> Option<TypeModel>
    decreases t, 0int,
{
    match t {
        TypeModel::TemplateParameter { nested_level, index, .. } => if nested_level == level {
            if index < args.len() {
                Some(args[index as int])
            } else {
                None
            }
        } else {
            Some(t)
        },
        TypeModel::Class { path } => match items_inst(path, path.len() as int, level, args) {
            Some(p) => Some(TypeModel::Class { path: p }),
            None => None,
        },
        TypeModel::PointerLike { kind, is_const, target } => match type_inst(*target, level, args) {
            Some(x) => Some(TypeModel::PointerLike { kind, is_const, target: Box::new(x) }),
            None => None,
        },
        _ => Some(t),
    }
}

/// `type_inst` on the first `n` types of `ts`.
pub open spec fn types_inst(ts: Seq<TypeModel>, n: int, level: nat, args: Seq<TypeModel>) -> Option<
    Seq<TypeModel>,
>
    decreases ts, n,
{
    if n <= 0 || n > ts.len() {
        Some(Seq::empty())
    } else {
        match types_inst(ts, n - 1, level, args) {
            Some(a) => match type_inst(ts[n - 1], level, args) {
                Some(b) => Some(a.push(b)),
                None => None,
            },
            None => None,
        }
    }
}

/// An item with its template arguments instantiated.
pub open spec fn item_inst(it: ItemModel, level: nat, args: Seq<TypeModel>) -> Option<ItemModel>
    decreases it, 0int,
{
    match it.template_arguments {
        None => Some(it),
        Some(a) => match types_inst(a, a.len() as int, level, args) {
            Some(b) => Some(ItemModel { name: it.name, template_arguments: Some(b) }),
            None => None,
        },
    }
}

/// `item_inst` on the first `n` items of `ms`.
pub open spec fn items_inst(ms: Seq<ItemModel>, n: int, level: nat, args: Seq<TypeModel>) -> Option<
    Seq<ItemModel>,
>
    decreases ms, n,
{
    if n <= 0 || n > ms.len() {
        Some(Seq::empty())
    } else {
        match items_inst(ms, n - 1, level, args) {
            Some(a) => match item_inst(ms[n - 1], level, args) {
                Some(b) => Some(a.push(b)),
                None => None,
            },
            None => None,
        }
    }
}

/// A path with the template parameters of depth `level` replaced by `args`.
pub open spec fn path_inst(ms: Seq<ItemModel>, level: nat, args: Seq<TypeModel>) -> Option<Seq<ItemModel>> {
    items_inst(ms, ms.len() as int, level, args)
}

impl CppType {
    /// This type with the template parameters of depth `nested_level` replaced
    /// by `template_arguments`.
    pub fn instantiate(&self, nested_level: usize, template_arguments: &[CppType]) -> (r: Result<CppType, BindingError>)
        ensures
            match r {
                Ok(t) => type_inst(self@, nested_level as nat, types_view(template_arguments@, template_arguments@.len() as int)) == Some(t@),
                Err(e) => type_inst(self@, nested_level as nat, types_view(template_arguments@, template_arguments@.len() as int)) is None
                    && e == BindingError::UnresolvedTemplateParameter,
            },
        decreases self, 0int,
    {
        proof {
            lemma_types_view(template_arguments@, template_arguments@.len() as int);
        }
        match self {
            CppType::TemplateParameter { nested_level: level, index, .. } => {
                if *level == nested_level {
                    if *index < template_arguments.len() {
                        Ok(template_arguments[*index].clone())
                    } else {
                        Err(BindingError::UnresolvedTemplateParameter)
                    }
                } else {
                    Ok(self.clone())
                }
            },
            CppType::Class(path) => {
                match path.instantiate(nested_level, template_arguments) {
                    Ok(p) => Ok(CppType::Class(p)),
                    Err(e) => Err(e),
                }
            },
            CppType::PointerLike { kind, is_const, target } => {
                match (**target).instantiate(nested_level, template_arguments) {
                    Ok(t) => Ok(CppType::PointerLike { kind: *kind, is_const: *is_const, target: Box::new(t) }),
                    Err(e) => Err(e),
                }
            },
            _ => Ok(self.clone()),
        }
    }
}

/// `CppType::instantiate` on each type of a list.
fn types_instantiate(ts: &Vec<CppType>, nested_level: usize, template_arguments: &[CppType]) -> (r: Result<Vec<CppType>, BindingError>)
    ensures
        match r {
            Ok(v) => types_inst(types_view(ts@, ts@.len() as int), ts@.len() as int, nested_level as nat, types_view(template_arguments@, template_arguments@.len() as int))
                == Some(types_view(v@, v@.len() as int)),
            Err(e) => types_inst(types_view(ts@, ts@.len() as int), ts@.len() as int, nested_level as nat, types_view(template_arguments@, template_arguments@.len() as int)) is None
                && e == BindingError::UnresolvedTemplateParameter,
        },
    decreases ts, 1int,
{
    let ghost ms = types_view(ts@, ts@.len() as int);
    let ghost av = types_view(template_arguments@, template_arguments@.len() as int);
    proof {
        lemma_types_view(ts@, ts@.len() as int);
    }
    let mut out: Vec<CppType> = Vec::new();
    let mut i: usize = 0;
    while i < ts.len()
        invariant
            i <= ts.len(),
            ms == types_view(ts@, ts@.len() as int),
            av == types_view(template_arguments@, template_arguments@.len() as int),
            ms.len() == ts@.len(),
            forall|j: int| 0 <= j < ts@.len() ==> #[trigger] ms[j] == type_view(ts@[j]),
            out@.len() == i,
            types_inst(ms, i as int, nested_level as nat, av) == Some(types_view(out@, i as int)),
        decreases ts.len() - i,
    {
        match ts[i].instantiate(nested_level, template_arguments) {
            Ok(t) => {
                let ghost before = out@;
                out.push(t);
                proof {
                    lemma_types_view(before, i as int);
                    lemma_types_view(out@, i + 1);
                    assert(types_view(out@, i + 1) =~= types_view(before, i as int).push(type_view(out@[i as int])));
                }
            },
            Err(e) => {
                proof {
                    lemma_types_inst_none(ms, i + 1, ts@.len() as int, nested_level as nat, av);
                }
                return Err(e);
            },
        }
        i = i + 1;
    }
    Ok(out)
}

impl CppPath {
    /// This path with the template parameters of depth `nested_level` replaced
    /// by `template_arguments`, inside the template arguments of each item.
    pub fn instantiate(&self, nested_level: usize, template_arguments: &[CppType]) -> (r: Result<CppPath, BindingError>)
        ensures
            match r {
                Ok(p) => path_inst(self@, nested_level as nat, types_view(template_arguments@, template_arguments@.len() as int)) == Some(p@),
                Err(e) => path_inst(self@, nested_level as nat, types_view(template_arguments@, template_arguments@.len() as int)) is None
                    && e == BindingError::UnresolvedTemplateParameter,
            },
        decreases self, 0int,
    {
        let ghost av = types_view(template_arguments@, template_arguments@.len() as int);
        proof {
            use_type_invariant(self);
            lemma_items_view(self.items@, self.items@.len() as int);
        }
        let mut out: Vec<CppPathItem> = Vec::new();
        let mut i: usize = 0;
        while i < self.items.len()
            invariant
                i <= self.items.len(),
                self.items@.len() > 0,
                av == types_view(template_arguments@, template_arguments@.len() as int),
                self@.len() == self.items@.len(),
                forall|j: int| 0 <= j < self.items@.len() ==> #[trigger] self@[j] == item_view(self.items@[j]),
                out@.len() == i,
                items_inst(self@, i as int, nested_level as nat, av) == Some(items_view(out@, i as int)),
            decreases self.items.len() - i,
        {
            let item = &self.items[i];
            let new_item = match &item.template_arguments {
                None => item.clone(),
                Some(args) => {
                    match types_instantiate(args, nested_level, template_arguments) {
                        Ok(v) => {
                            proof {
                                lemma_types_view(args@, args@.len() as int);
                                assert(item_view(*item).template_arguments == Some(types_view(args@, args@.len() as int)));
                            }
                            CppPathItem { name: item.name.clone(), template_arguments: Some(v) }
                        },
                        Err(e) => {
                            proof {
                                lemma_types_view(args@, args@.len() as int);
                                assert(item_view(*item).template_arguments == Some(types_view(args@, args@.len() as int)));
                                assert(item_inst(self@[i as int], nested_level as nat, av) is None);
                                lemma_items_inst_none(self@, i + 1, self@.len() as int, nested_level as nat, av);
                            }
                            return Err(e);
                        },
                    }
                },
            };
            proof {
                assert(item_inst(self@[i as int], nested_level as nat, av) == Some(item_view(new_item)));
            }
            let ghost before = out@;
            out.push(new_item);
            proof {
                lemma_items_view(before, i as int);
                lemma_items_view(out@, i + 1);
                assert(items_view(out@, i + 1) =~= items_view(before, i as int).push(item_view(out@[i as int])));
            }
            i = i + 1;
        }
        proof {
            lemma_items_view(out@, out@.len() as int);
        }
        Ok(CppPath { items: out })
    }
}

proof fn lemma_inst_synthetic(args: Seq<TypeModel>, n: int)
    requires
        0 <= n <= args.len(),
    ensures
        types_inst(synthetic_params(0, args.len()), n, 0, args) == Some(args.subrange(0, n)),
    decreases n,
{
    if n > 0 {
        lemma_inst_synthetic(args, n - 1);
        let p = synthetic_params(0, args.len());
        assert(p[n - 1] == TypeModel::TemplateParameter { nested_level: 0, index: (n - 1) as nat, name: param_name(0, (n - 1) as nat) });
        assert(type_inst(p[n - 1], 0, args) == Some(args[n - 1]));
        assert(args.subrange(0, n - 1).push(args[n - 1]) =~= args.subrange(0, n));
    } else {
        assert(args.subrange(0, 0) =~= Seq::<TypeModel>::empty());
    }
}

proof fn lemma_templated_before_zero(ms: Seq<ItemModel>, i: int)
    requires
        0 <= i <= ms.len(),
        forall|j: int| 0 <= j < i ==> (#[trigger] ms[j].template_arguments) is None,
    ensures
        templated_before(ms, i) == 0,
    decreases i,
{
    if i > 0 {
        lemma_templated_before_zero(ms, i - 1);
    }
}

/// Deinstantiating a path whose only templated item is at `k`, then
/// instantiating the result at nesting level 0 with that item's own
/// arguments, gives back the path it started from.
pub proof fn law_deinstantiate_then_instantiate(ms: Seq<ItemModel>, k: int)
    requires
        0 <= k < ms.len(),
        ms[k].template_arguments is Some,
        forall|j: int| 0 <= j < ms.len() && j != k ==> (#[trigger] ms[j].template_arguments) is None,
    ensures
        path_inst(deinstantiated(ms), 0, ms[k].template_arguments->0) == Some(ms),
{
    let d = deinstantiated(ms);
    let args = ms[k].template_arguments->0;
    lemma_templated_before_zero(ms, k);
    lemma_inst_synthetic(args, args.len() as int);
    assert(args.subrange(0, args.len() as int) =~= args);
    assert(item_inst(d[k], 0, args) == Some(ms[k]));
    assert forall|j: int| 0 <= j < ms.len() implies #[trigger] item_inst(d[j], 0, args) == Some(ms[j]) by {
        if j != k {
            assert(d[j] == ms[j]);
        }
    }
    lemma_items_inst_all(d, ms, args);
}

proof fn lemma_items_inst_all(d: Seq<ItemModel>, ms: Seq<ItemModel>, args: Seq<TypeModel>)
    requires
        d.len() == ms.len(),
        forall|j: int| 0 <= j < ms.len() ==> #[trigger] item_inst(d[j], 0, args) == Some(ms[j]),
    ensures
        items_inst(d, d.len() as int, 0, args) == Some(ms),
{
    lemma_items_inst_prefix(d, ms, args, d.len() as int);
    assert(ms.subrange(0, ms.len() as int) =~= ms);
}

proof fn lemma_items_inst_prefix(d: Seq<ItemModel>, ms: Seq<ItemModel>, args: Seq<TypeModel>, n: int)
    requires
        d.len() == ms.len(),
        0 <= n <= d.len(),
        forall|j: int| 0 <= j < ms.len() ==> #[trigger] item_inst(d[j], 0, args) == Some(ms[j]),
    ensures
        items_inst(d, n, 0, args) == Some(ms.subrange(0, n)),
    decreases n,
{
    if n > 0 {
        lemma_items_inst_prefix(d, ms, args, n - 1);
        assert(item_inst(d[n - 1], 0, args) == Some(ms[n - 1]));
        assert(ms.subrange(0, n - 1).push(ms[n - 1]) =~= ms.subrange(0, n));
    } else {
        assert(ms.subrange(0, 0) =~= Seq::<ItemModel>::empty());
    }
}


proof fn lemma_types_inst_none(ts: Seq<TypeModel>, m: int, n: int, level: nat, args: Seq<TypeModel>)
    requires
        0 < m <= n <= ts.len(),
        types_inst(ts, m, level, args) is None,
    ensures
        types_inst(ts, n, level, args) is None,
    decreases n - m,
{
    if m < n {
        lemma_types_inst_none(ts, m, n - 1, level, args);
    }
}

proof fn lemma_items_inst_none(ms: Seq<ItemModel>, m: int, n: int, level: nat, args: Seq<TypeModel>)
    requires
        0 < m <= n <= ms.len(),
        items_inst(ms, m, level, args) is None,
    ensures
        items_inst(ms, n, level, args) is None,
    decreases n - m,
{
    if m < n {
        lemma_items_inst_none(ms, m, n - 1, level, args);
    }
}


/// Whether two lists of types have the same model.
fn types_eq(a: &Vec<CppType>, b: &Vec<CppType>) -> (r: bool)
    ensures
        r == (types_view(a@, a@.len() as int) == types_view(b@, b@.len() as int)),
    decreases a, 1int,
{
    proof {
        lemma_types_view(a@, a@.len() as int);
        lemma_types_view(b@, b@.len() as int);
    }
    if a.len() != b.len() {
        return false;
    }
    let mut i: usize = 0;
    while i < a.len()
        invariant
            a@.len() == b@.len(),
            i <= a@.len(),
            types_view(a@, a@.len() as int).len() == a@.len(),
            types_view(b@, b@.len() as int).len() == b@.len(),
            forall|j: int| 0 <= j < a@.len() ==> #[trigger] types_view(a@, a@.len() as int)[j] == type_view(a@[j]),
            forall|j: int| 0 <= j < b@.len() ==> #[trigger] types_view(b@, b@.len() as int)[j] == type_view(b@[j]),
            forall|j: int| 0 <= j < i ==> type_view(#[trigger] a@[j]) == type_view(b@[j]),
        decreases a.len() - i,
    {
        if !a[i].eq(&b[i]) {
            proof {
                assert(types_view(a@, a@.len() as int)[i as int] != types_view(b@, b@.len() as int)[i as int]);
            }
            return false;
        }
        i = i + 1;
    }
    proof {
        assert(types_view(a@, a@.len() as int) =~= types_view(b@, b@.len() as int));
    }
    true
}

impl PartialEq for CppType {
    fn eq(&self, other: &CppType) -> (r: bool)
        decreases self, 0int,
    {
        match (self, other) {
            (CppType::Void, CppType::Void) => true,
            (CppType::BuiltIn { name: a }, CppType::BuiltIn { name: b }) => {
                let r = a.eq(b);
                r
            },
            (CppType::Enum { path: a }, CppType::Enum { path: b }) => {
                let r = a.eq(b);
                r
            },
            (CppType::Class(a), CppType::Class(b)) => {
                let r = a.eq(b);
                r
            },
            (
                CppType::TemplateParameter { nested_level: l1, index: i1, name: n1 },
                CppType::TemplateParameter { nested_level: l2, index: i2, name: n2 },
            ) => {
                let r = *l1 == *l2 && *i1 == *i2 && n1.eq(n2);
                r
            },
            (
                CppType::PointerLike { kind: k1, is_const: c1, target: t1 },
                CppType::PointerLike { kind: k2, is_const: c2, target: t2 },
            ) => {
                let r = *k1 == *k2 && *c1 == *c2 && (**t1).eq(&**t2);
                proof {
                    if r {
                        assert(type_view(**t1) == type_view(**t2));
                    } else if *k1 == *k2 && *c1 == *c2 {
                        assert(self@->PointerLike_target != other@->PointerLike_target);
                    }
                }
                r
            },
            _ => false,
        }
    }
}

impl vstd::std_specs::cmp::PartialEqSpecImpl for CppType {
    open spec fn obeys_eq_spec() -> bool {
        true
    }

    open spec fn eq_spec(&self, other: &CppType) -> bool {
        self@ == other@
    }
}

impl PartialEq for CppPathItem {
    fn eq(&self, other: &CppPathItem) -> (r: bool)
        decreases self, 0int,
    {
        if self.name != other.name {
            return false;
        }
        match (&self.template_arguments, &other.template_arguments) {
            (None, None) => true,
            (Some(a), Some(b)) => {
                let r = types_eq(a, b);
                proof {
                    assert(self@.template_arguments == Some(types_view(a@, a@.len() as int)));
                    assert(other@.template_arguments == Some(types_view(b@, b@.len() as int)));
                }
                r
            },
            _ => false,
        }
    }
}

impl vstd::std_specs::cmp::PartialEqSpecImpl for CppPathItem {
    open spec fn obeys_eq_spec() -> bool {
        true
    }

    open spec fn eq_spec(&self, other: &CppPathItem) -> bool {
        self@ == other@
    }
}

impl PartialEq for CppPath {
    fn eq(&self, other: &CppPath) -> (r: bool)
        decreases self, 0int,
    {
        proof {
            lemma_items_view(self.items@, self.items@.len() as int);
            lemma_items_view(other.items@, other.items@.len() as int);
        }
        if self.items.len() != other.items.len() {
            return false;
        }
        let mut i: usize = 0;
        while i < self.items.len()
            invariant
                self.items@.len() == other.items@.len(),
                i <= self.items@.len(),
                self@.len() == self.items@.len(),
                other@.len() == other.items@.len(),
                forall|j: int| 0 <= j < self.items@.len() ==> #[trigger] self@[j] == item_view(self.items@[j]),
                forall|j: int| 0 <= j < other.items@.len() ==> #[trigger] other@[j] == item_view(other.items@[j]),
                forall|j: int| 0 <= j < i ==> #[trigger] self@[j] == other@[j],
            decreases self.items.len() - i,
        {
            if !self.items[i].eq(&other.items[i]) {
                proof {
                    assert(self@[i as int] != other@[i as int]);
                }
                return false;
            }
            i = i + 1;
        }
        proof {
            assert(self@ =~= other@);
        }
        true
    }
}

impl vstd::std_specs::cmp::PartialEqSpecImpl for CppPath {
    open spec fn obeys_eq_spec() -> bool {
        true
    }

    open spec fn eq_spec(&self, other: &CppPath) -> bool {
        self@ == other@
    }
}


/// Compilable C++ text of a type; `None` where a template parameter is left.
pub open spec fn type_cpp(t: TypeModel) -> Option<Seq<char>>
    decreases t, 0int,
{
    match t {
        TypeModel::Void => Some(void_text()),
        TypeModel::BuiltIn { name } => Some(name),
        TypeModel::Enum { path } => match items_cpp(path, path.len() as int) {
            Some(parts) => Some(join(parts, scope_sep())),
            None => None,
        },
        TypeModel::Class { path } => match items_cpp(path, path.len() as int) {
            Some(parts) => Some(join(parts, scope_sep())),
            None => None,
        },
        TypeModel::TemplateParameter { .. } => None,
        TypeModel::PointerLike { kind, is_const, target } => match type_cpp(*target) {
            Some(x) => Some((if is_const {
                const_prefix()
            } else {
                Seq::empty()
            }) + x + kind_suffix(kind)),
            None => None,
        },
    }
}

/// `type_cpp` of the first `n` types of `ts`, if each has one.
pub open spec fn types_cpp(ts: Seq<TypeModel>, n: int) -> Option<Seq<Seq<char>>>
    decreases ts, n,
{
    if n <= 0 || n > ts.len() {
        Some(Seq::empty())
    } else {
        match types_cpp(ts, n - 1) {
            Some(a) => match type_cpp(ts[n - 1]) {
                Some(b) => Some(a.push(b)),
                None => None,
            },
            None => None,
        }
    }
}

/// Compilable text of an item: its name, then its template arguments in `< ... >`.
pub open spec fn item_cpp(it: ItemModel) -> Option<Seq<char>>
    decreases it, 0int,
{
    match it.template_arguments {
        None => Some(it.name),
        Some(args) => match types_cpp(args, args.len() as int) {
            Some(parts) => Some(it.name + "< "@ + join(parts, comma_sep()) + " >"@),
            None => None,
        },
    }
}

/// `item_cpp` of the first `n` items of `ms`, if each has one.
pub open spec fn items_cpp(ms: Seq<ItemModel>, n: int) -> Option<Seq<Seq<char>>>
    decreases ms, n,
{
    if n <= 0 || n > ms.len() {
        Some(Seq::empty())
    } else {
        match items_cpp(ms, n - 1) {
            Some(a) => match item_cpp(ms[n - 1]) {
                Some(b) => Some(a.push(b)),
                None => None,
            },
            None => None,
        }
    }
}

/// Compilable text of a path.
pub open spec fn path_cpp(ms: Seq<ItemModel>) -> Option<Seq<char>> {
    match items_cpp(ms, ms.len() as int) {
        Some(parts) => Some(join(parts, scope_sep())),
        None => None,
    }
}

proof fn lemma_types_cpp_none(ts: Seq<TypeModel>, m: int, n: int)
    requires
        0 < m <= n <= ts.len(),
        types_cpp(ts, m) is None,
    ensures
        types_cpp(ts, n) is None,
    decreases n - m,
{
    if m < n {
        lemma_types_cpp_none(ts, m, n - 1);
    }
}

proof fn lemma_items_cpp_none(ms: Seq<ItemModel>, m: int, n: int)
    requires
        0 < m <= n <= ms.len(),
        items_cpp(ms, m) is None,
    ensures
        items_cpp(ms, n) is None,
    decreases n - m,
{
    if m < n {
        lemma_items_cpp_none(ms, m, n - 1);
    }
}

proof fn lemma_join_step(prev: Seq<Seq<char>>, sep: Seq<char>, x: Seq<char>)
    ensures
        join(prev.push(x), sep) == if prev.len() == 0 {
            x
        } else {
            join(prev, sep) + sep + x
        },
{
    if prev.len() == 0 {
        assert(prev.push(x) =~= seq![x]);
    } else {
        lemma_join_push(prev, sep, x);
    }
}

impl CppType {
    /// Compilable C++ text of this type; fails where a template parameter is left.
    pub fn to_cpp_code(&self) -> (r: Result<String, BindingError>)
        ensures
            match r {
                Ok(s) => type_cpp(self@) == Some(s@),
                Err(e) => type_cpp(self@) is None && e == BindingError::UnresolvedTemplateParameter,
            },
        decreases self, 0int,
    {
        match self {
            CppType::Void => {
                proof {
                    reveal_strlit("void");
                }
                Ok(String::from_str("void"))
            },
            CppType::BuiltIn { name } => Ok(name.clone()),
            CppType::Enum { path } => path.to_cpp_code(),
            CppType::Class(path) => path.to_cpp_code(),
            CppType::TemplateParameter { .. } => Err(BindingError::UnresolvedTemplateParameter),
            CppType::PointerLike { kind, is_const, target } => {
                let t = match (**target).to_cpp_code() {
                    Ok(t) => t,
                    Err(e) => {
                        return Err(e);
                    },
                };
                let mut r = String::new();
                if *is_const {
                    r.append("const ");
                }
                r.append(t.as_str());
                match kind {
                    CppPointerLikeTypeKind::Pointer => r.append("*"),
                    CppPointerLikeTypeKind::Reference => r.append("&"),
                    CppPointerLikeTypeKind::RValueReference => r.append("&&"),
                }
                proof {
                    reveal_strlit("const ");
                    reveal_strlit("*");
                    reveal_strlit("&");
                    reveal_strlit("&&");
                    assert(r@ =~= type_cpp(self@)->0);
                }
                Ok(r)
            },
        }
    }
}

/// Compilable text of a list of template arguments, separated by `, `.
fn types_to_cpp_code(args: &Vec<CppType>) -> (r: Result<String, BindingError>)
    ensures
        match r {
            Ok(s) => match types_cpp(types_view(args@, args@.len() as int), args@.len() as int) {
                Some(parts) => s@ == join(parts, comma_sep()),
                None => false,
            },
            Err(e) => types_cpp(types_view(args@, args@.len() as int), args@.len() as int) is None
                && e == BindingError::UnresolvedTemplateParameter,
        },
    decreases args, 1int,
{
    let ghost ms = types_view(args@, args@.len() as int);
    proof {
        lemma_types_view(args@, args@.len() as int);
    }
    let mut r = String::new();
    let mut i: usize = 0;
    while i < args.len()
        invariant
            i <= args.len(),
            ms == types_view(args@, args@.len() as int),
            ms.len() == args@.len(),
            forall|j: int| 0 <= j < args@.len() ==> #[trigger] ms[j] == type_view(args@[j]),
            types_cpp(ms, i as int) is Some,
            r@ == join(types_cpp(ms, i as int)->0, comma_sep()),
        decreases args.len() - i,
    {
        let t = match args[i].to_cpp_code() {
            Ok(t) => t,
            Err(e) => {
                proof {
                    lemma_types_cpp_none(ms, i + 1, ms.len() as int);
                }
                return Err(e);
            },
        };
        let ghost prev = types_cpp(ms, i as int)->0;
        append_joined(&mut r, i == 0, ", ", t.as_str());
        proof {
            reveal_strlit(", ");
            lemma_join_step(prev, comma_sep(), t@);
            if i == 0 {
                assert(prev.len() == 0) by {
                    assert(types_cpp(ms, 0) == Some(Seq::<Seq<char>>::empty()));
                }
            } else {
                lemma_types_cpp_len(ms, i as int);
            }
        }
        i = i + 1;
    }
    Ok(r)
}

proof fn lemma_types_cpp_len(ts: Seq<TypeModel>, n: int)
    requires
        0 <= n <= ts.len(),
        types_cpp(ts, n) is Some,
    ensures
        types_cpp(ts, n)->0.len() == n,
    decreases n,
{
    if n > 0 {
        lemma_types_cpp_len(ts, n - 1);
    }
}

proof fn lemma_items_cpp_len(ms: Seq<ItemModel>, n: int)
    requires
        0 <= n <= ms.len(),
        items_cpp(ms, n) is Some,
    ensures
        items_cpp(ms, n)->0.len() == n,
    decreases n,
{
    if n > 0 {
        lemma_items_cpp_len(ms, n - 1);
    }
}

impl CppPathItem {
    /// Compilable text of this item; fails where a template parameter is left.
    pub fn to_cpp_code(&self) -> (r: Result<String, BindingError>)
        ensures
            match r {
                Ok(s) => item_cpp(self@) == Some(s@),
                Err(e) => item_cpp(self@) is None && e == BindingError::UnresolvedTemplateParameter,
            },
        decreases self, 0int,
    {
        proof {
            assert(self@.name == self.name@);
        }
        match &self.template_arguments {
            None => Ok(self.name.clone()),
            Some(args) => {
                proof {
                    lemma_types_view(args@, args@.len() as int);
                    assert(self@.template_arguments == Some(types_view(args@, args@.len() as int)));
                }
                let t = match types_to_cpp_code(args) {
                    Ok(t) => t,
                    Err(e) => {
                        return Err(e);
                    },
                };
                let mut r = self.name.clone();
                r.append("< ");
                r.append(t.as_str());
                r.append(" >");
                proof {
                    assert(r@ =~= item_cpp(self@)->0);
                }
                Ok(r)
            },
        }
    }
}

impl CppPath {
    /// Compilable C++ text of this path; fails where a template argument
    /// cannot be written concretely.
    pub fn to_cpp_code(&self) -> (r: Result<String, BindingError>)
        ensures
            match r {
                Ok(s) => path_cpp(self@) == Some(s@),
                Err(e) => path_cpp(self@) is None && e == BindingError::UnresolvedTemplateParameter,
            },
        decreases self, 0int,
    {
        proof {
            use_type_invariant(self);
            lemma_items_view(self.items@, self.items@.len() as int);
        }
        let mut r = String::new();
        let mut i: usize = 0;
        while i < self.items.len()
            invariant
                i <= self.items.len(),
                self@.len() == self.items@.len(),
                forall|j: int| 0 <= j < self.items@.len() ==> #[trigger] self@[j] == item_view(self.items@[j]),
                items_cpp(self@, i as int) is Some,
                r@ == join(items_cpp(self@, i as int)->0, scope_sep()),
            decreases self.items.len() - i,
        {
            let t = match self.items[i].to_cpp_code() {
                Ok(t) => t,
                Err(e) => {
                    proof {
                        lemma_items_cpp_none(self@, i + 1, self@.len() as int);
                    }
                    return Err(e);
                },
            };
            let ghost prev = items_cpp(self@, i as int)->0;
            append_joined(&mut r, i == 0, "::", t.as_str());
            proof {
                reveal_strlit("::");
                lemma_join_step(prev, scope_sep(), t@);
                if i == 0 {
                    assert(prev.len() == 0) by {
                        assert(items_cpp(self@, 0) == Some(Seq::<Seq<char>>::empty()));
                    }
                } else {
                    lemma_items_cpp_len(self@, i as int);
                }
            }
            i = i + 1;
        }
        Ok(r)
    }
}

} // verus!
