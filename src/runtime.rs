//! The ownership and casting contract that generated bindings rely on: class
//! hierarchies and their cast capabilities, native objects with owning and
//! non-owning handles, virtual dispatch, and iteration over native ranges.
use crate::cpp_path::join;
use crate::rust_code_generator::join_all;
use crate::rust_type::names_of;
use vstd::prelude::*;
use vstd::set_lib::{lemma_len_subset, set_int_range, lemma_int_range};

verus! {

/// Direct base classes of each class; classes are numbered from 0.
#[derive(Debug, Clone, PartialEq, Eq)]
pub struct ClassHierarchy {
    pub bases: Vec<Vec<usize>>,
}

/// Every base names a class of the hierarchy.
pub open spec fn hierarchy_wf(h: ClassHierarchy) -> bool {
    forall|c: int, j: int|
        0 <= c < h.bases@.len() && 0 <= j < h.bases@[c]@.len() ==> (#[trigger] h.bases@[c]@[j]) < h.bases@.len()
}

/// `b` is a direct base of class `c`.
pub open spec fn is_base_of(h: ClassHierarchy, c: int, b: int) -> bool {
    0 <= c < h.bases@.len() && exists|j: int| 0 <= j < h.bases@[c]@.len() && #[trigger] h.bases@[c]@[j] == b
}

/// A chain of classes, each a direct base of the one before.
pub open spec fn is_chain(h: ClassHierarchy, p: Seq<int>) -> bool {
    &&& p.len() >= 1
    &&& forall|i: int| 0 <= i < p.len() ==> 0 <= #[trigger] p[i] < h.bases@.len()
    &&& forall|i: int| 0 <= i < p.len() - 1 ==> #[trigger] is_base_of(h, p[i], p[i + 1])
}

/// `a` is reached from `d` by walking base-class edges (every class is its own ancestor).
pub open spec fn is_ancestor(h: ClassHierarchy, d: int, a: int) -> bool {
    exists|p: Seq<int>| #[trigger] is_chain(h, p) && p[0] == d && p.last() == a
}

proof fn lemma_len_bounded(vis: Set<usize>, n: usize)
    requires
        vis.finite(),
        forall|x: usize| vis.contains(x) ==> x < n,
    ensures
        vis.len() <= n,
{
    let f = |x: usize| x as int;
    let ints = vis.map(f);
    lemma_int_range(0, n as int);
    assert(ints.subset_of(set_int_range(0, n as int)));
    assert(vstd::relations::injective_on(f, vis));
    vstd::set_lib::lemma_map_size(vis, ints, f);
    lemma_len_subset(ints, set_int_range(0, n as int));
}

proof fn lemma_chain_push(h: ClassHierarchy, p: Seq<int>, b: int)
    requires
        is_chain(h, p),
        is_base_of(h, p.last(), b),
        0 <= b < h.bases@.len(),
    ensures
        is_chain(h, p.push(b)),
{
    let q = p.push(b);
    assert forall|i: int| 0 <= i < q.len() - 1 implies #[trigger] is_base_of(h, q[i], q[i + 1]) by {
        if i < p.len() - 1 {
            assert(q[i] == p[i] && q[i + 1] == p[i + 1]);
        }
    }
}

/// Reaching an ancestor of an ancestor is reaching an ancestor: a cast
/// capability to `b` exists directly wherever one to `m` and one from `m` to
/// `b` do.
pub proof fn law_ancestor_transitive(h: ClassHierarchy, d: int, m: int, b: int)
    requires
        is_ancestor(h, d, m),
        is_ancestor(h, m, b),
    ensures
        is_ancestor(h, d, b),
{
    let p = choose|p: Seq<int>| #[trigger] is_chain(h, p) && p[0] == d && p.last() == m;
    let q = choose|q: Seq<int>| #[trigger] is_chain(h, q) && q[0] == m && q.last() == b;
    let r = p + q.drop_first();
    assert forall|i: int| 0 <= i < r.len() implies 0 <= #[trigger] r[i] < h.bases@.len() by {
        if i >= p.len() {
            assert(r[i] == q[i - p.len() + 1]);
        }
    }
    assert forall|i: int| 0 <= i < r.len() - 1 implies #[trigger] is_base_of(h, r[i], r[i + 1]) by {
        if i < p.len() - 1 {
            assert(r[i] == p[i] && r[i + 1] == p[i + 1]);
        } else if i == p.len() - 1 {
            assert(r[i] == m && q[0] == m);
            assert(r[i + 1] == q[1]);
            assert(is_base_of(h, q[0], q[1]));
        } else {
            let k = i - p.len() + 1;
            assert(r[i] == q[k] && r[i + 1] == q[k + 1]);
            assert(is_base_of(h, q[k], q[k + 1]));
        }
    }
    assert(is_chain(h, r));
    if q.len() == 1 {
        assert(r =~= p);
    } else {
        assert(r.last() == q.last());
    }
}

/// A set of classes that holds every direct base of each of its members.
pub open spec fn closed_under_bases(h: ClassHierarchy, vis: Set<usize>) -> bool {
    forall|x: usize, j: int|
        vis.contains(x) && x < h.bases@.len() && 0 <= j < h.bases@[x as int]@.len() ==> vis.contains(
            #[trigger] h.bases@[x as int]@[j],
        )
}

proof fn lemma_closed_contains_chain(h: ClassHierarchy, vis: Set<usize>, p: Seq<int>, i: int)
    requires
        is_chain(h, p),
        vis.contains(p[0] as usize),
        closed_under_bases(h, vis),
        h.bases@.len() <= usize::MAX,
        0 <= i < p.len(),
    ensures
        vis.contains(p[i] as usize),
    decreases i,
{
    if i > 0 {
        lemma_closed_contains_chain(h, vis, p, i - 1);
        let k = i - 1;
        assert(is_base_of(h, p[k], p[k + 1]));
        let j = choose|j: int| 0 <= j < h.bases@[p[k]]@.len() && #[trigger] h.bases@[p[k]]@[j] == p[k + 1];
        assert(0 <= p[k] < h.bases@.len());
        let x: usize = p[k] as usize;
        assert(x as int == p[k]);
        assert(h.bases@[x as int]@[j] as int == p[k + 1]);
        assert(vis.contains(h.bases@[x as int]@[j]));
    }
}

impl ClassHierarchy {
    /// Number of classes.
    pub fn class_count(&self) -> (r: usize)
        ensures
            r == self.bases@.len(),
    {
        self.bases.len()
    }

    /// Every class reachable from `derived` by walking base-class edges,
    /// `derived` itself included: the classes it gets a direct cast
    /// capability to, however deep the chain.
    pub fn ancestors_of(&self, derived: usize) -> (r: Vec<bool>)
        requires
            hierarchy_wf(*self),
            derived < self.bases@.len(),
        ensures
            r@.len() == self.bases@.len(),
            forall|a: int| 0 <= a < self.bases@.len() ==> (r@[a] <==> is_ancestor(*self, derived as int, a)),
    {
        let n = self.bases.len();
        let mut visited: Vec<bool> = Vec::new();
        let mut i: usize = 0;
        while i < n
            invariant
                i <= n,
                visited@.len() == i,
                forall|x: int| 0 <= x < i ==> !visited@[x],
            decreases n - i,
        {
            visited.push(false);
            i = i + 1;
        }
        visited.set(derived, true);
        let mut work: Vec<usize> = vec![derived];
        let ghost mut vis: Set<usize> = Set::empty().insert(derived);
        proof {
            let p = seq![derived as int];
            assert(is_chain(*self, p));
            lemma_len_bounded(vis, n);
        }
        while work.len() > 0
            invariant
                hierarchy_wf(*self),
                n == self.bases@.len(),
                derived < n,
                visited@.len() == n,
                vis.finite(),
                vis.len() <= n,
                forall|x: usize| x < n ==> (visited@[x as int] <==> vis.contains(x)),
                forall|x: usize| vis.contains(x) ==> x < n,
                forall|x: usize| vis.contains(x) ==> is_ancestor(*self, derived as int, x as int),
                vis.contains(derived),
                forall|k: int| 0 <= k < work@.len() ==> vis.contains(#[trigger] work@[k]),
                forall|x: usize, j: int|
                    vis.contains(x) && !work@.contains(x) && x < n && 0 <= j < self.bases@[x as int]@.len()
                        ==> vis.contains(#[trigger] self.bases@[x as int]@[j]),
            decreases n - vis.len(), work@.len(),
        {
            let ghost work_outer = work@;
            let c = work.pop().unwrap();
            let ghost work_before = work@;
            let ghost vis_before = vis;
            proof {
                assert(work_outer =~= work_before.push(c));
                assert forall|x: usize| !work_before.contains(x) && x != c implies !work_outer.contains(x) by {
                    if work_outer.contains(x) {
                        let k = choose|k: int| 0 <= k < work_outer.len() && work_outer[k] == x;
                        if k < work_before.len() {
                            assert(work_before[k] == x);
                        }
                    }
                }
            }
            let bs = &self.bases[c];
            let mut j: usize = 0;
            while j < bs.len()
                invariant
                    hierarchy_wf(*self),
                    n == self.bases@.len(),
                    c < n,
                    *bs == self.bases@[c as int],
                    j <= bs@.len(),
                    visited@.len() == n,
                    vis.finite(),
                    vis.len() <= n,
                    vis_before.subset_of(vis),
                    vis.len() >= vis_before.len(),
                    vis.contains(c),
                    work_before.is_prefix_of(work@),
                    forall|x: usize| x < n ==> (visited@[x as int] <==> vis.contains(x)),
                    forall|x: usize| vis.contains(x) ==> x < n,
                    forall|x: usize| vis.contains(x) ==> is_ancestor(*self, derived as int, x as int),
                    vis.contains(derived),
                    forall|k: int| 0 <= k < work@.len() ==> vis.contains(#[trigger] work@[k]),
                    forall|k: int| 0 <= k < j ==> vis.contains(#[trigger] bs@[k]),
                    forall|x: usize, jj: int|
                        vis.contains(x) && !work@.contains(x) && x != c && x < n && 0 <= jj < self.bases@[x as int]@.len()
                            ==> vis.contains(#[trigger] self.bases@[x as int]@[jj]),
                    vis.len() > vis_before.len() || work@ == work_before,
                decreases bs@.len() - j,
            {
                let b = bs[j];
                proof {
                    assert(self.bases@[c as int]@[j as int] == b);
                }
                if !visited[b] {
                    proof {
                        let p = choose|p: Seq<int>| #[trigger] is_chain(*self, p) && p[0] == derived as int && p.last() == c as int;
                        assert(is_base_of(*self, c as int, b as int));
                        lemma_chain_push(*self, p, b as int);
                        assert(is_chain(*self, p.push(b as int)) && p.push(b as int)[0] == derived as int);
                        assert(!vis.contains(b));
                    }
                    visited.set(b, true);
                    let ghost old_work = work@;
                    work.push(b);
                    proof {
                        let ghost old_vis = vis;
                        vis = vis.insert(b);
                        assert(vis.len() == old_vis.len() + 1);
                        lemma_len_bounded(vis, n);
                        assert forall|x: usize| old_work.contains(x) implies #[trigger] work@.contains(x) by {
                            let k = choose|k: int| 0 <= k < old_work.len() && old_work[k] == x;
                            assert(work@[k] == x);
                        }
                        assert forall|x: usize, jj: int|
                            vis.contains(x) && !work@.contains(x) && x != c && x < n && 0 <= jj < self.bases@[x as int]@.len()
                                implies vis.contains(#[trigger] self.bases@[x as int]@[jj]) by {
                            assert(!old_work.contains(x));
                            assert(work@[work@.len() - 1] == b);
                            assert(x != b);
                            assert(old_vis.contains(x));
                            assert(old_vis.contains(self.bases@[x as int]@[jj]));
                        }
                        assert(work_before.is_prefix_of(work@)) by {
                            assert forall|k: int| 0 <= k < work_before.len() implies work_before[k] == work@[k] by {
                                assert(work_before[k] == old_work[k]);
                            }
                        }
                    }
                }
                j = j + 1;
            }
            proof {
                assert forall|x: usize, jj: int|
                    vis.contains(x) && !work@.contains(x) && x < n && 0 <= jj < self.bases@[x as int]@.len()
                        implies vis.contains(#[trigger] self.bases@[x as int]@[jj]) by {
                    if x == c {
                        assert(bs@[jj] == self.bases@[x as int]@[jj]);
                    }
                }
            }
        }
        proof {
            assert(closed_under_bases(*self, vis)) by {
                assert forall|x: usize, jj: int|
                    vis.contains(x) && x < self.bases@.len() && 0 <= jj < self.bases@[x as int]@.len()
                        implies vis.contains(#[trigger] self.bases@[x as int]@[jj]) by {
                    assert(!work@.contains(x));
                }
            }
            assert forall|a: int| 0 <= a < n implies (visited@[a] <==> is_ancestor(*self, derived as int, a)) by {
                assert(visited@[(a as usize) as int] <==> vis.contains(a as usize));
                if is_ancestor(*self, derived as int, a) {
                    let p = choose|p: Seq<int>| #[trigger] is_chain(*self, p) && p[0] == derived as int && p.last() == a;
                    lemma_closed_contains_chain(*self, vis, p, p.len() - 1);
                }
            }
        }
        visited
    }
}


/// Cast capabilities of every class of a hierarchy: `can[d][a]` holds exactly
/// when `a` is an ancestor of `d`.
pub struct CastTable {
    hierarchy: ClassHierarchy,
    can: Vec<Vec<bool>>,
}

impl CastTable {
    #[verifier::type_invariant]
    spec fn table_matches(&self) -> bool {
        &&& hierarchy_wf(self.hierarchy)
        &&& self.can@.len() == self.hierarchy.bases@.len()
        &&& forall|d: int| 0 <= d < self.can@.len() ==> (#[trigger] self.can@[d])@.len() == self.can@.len()
        &&& forall|d: int, a: int|
            0 <= d < self.can@.len() && 0 <= a < self.can@.len() ==> (self.can@[d]@[a] <==> is_ancestor(
                self.hierarchy,
                d,
                a,
            ))
    }

    /// The hierarchy whose capabilities this table holds.
    pub closed spec fn hierarchy(&self) -> ClassHierarchy {
        self.hierarchy
    }

    /// Flattens every chain of base-class edges into a direct capability.
    pub fn new(hierarchy: ClassHierarchy) -> (r: CastTable)
        requires
            hierarchy_wf(hierarchy),
        ensures
            r.hierarchy() == hierarchy,
    {
        let n = hierarchy.bases.len();
        let mut can: Vec<Vec<bool>> = Vec::new();
        let mut d: usize = 0;
        while d < n
            invariant
                n == hierarchy.bases@.len(),
                hierarchy_wf(hierarchy),
                d <= n,
                can@.len() == d,
                forall|x: int| 0 <= x < d ==> (#[trigger] can@[x])@.len() == n,
                forall|x: int, a: int| 0 <= x < d && 0 <= a < n ==> (can@[x]@[a] <==> is_ancestor(hierarchy, x, a)),
            decreases n - d,
        {
            let row = hierarchy.ancestors_of(d);
            can.push(row);
            d = d + 1;
        }
        CastTable { hierarchy, can }
    }

    /// Number of classes.
    pub fn class_count(&self) -> (r: usize)
        ensures
            r == self.hierarchy().bases@.len(),
    {
        proof {
            use_type_invariant(self);
        }
        self.can.len()
    }

    /// The cast-capability bindings of every class, one for each proper
    /// ancestor however far up the chain; `names` gives each class's name.
    pub fn cast_bindings(&self, names: &Vec<String>) -> (r: String)
        requires
            names@.len() == self.hierarchy().bases@.len(),
        ensures
            r@ == all_cast_bindings(self.hierarchy(), names@),
    {
        proof {
            use_type_invariant(self);
        }
        let n = names.len();
        let mut classes: Vec<String> = Vec::new();
        let mut d: usize = 0;
        while d < n
            invariant
                n == names@.len(),
                n == self.can@.len(),
                self.table_matches(),
                d <= n,
                classes@.len() == d,
                forall|k: int| 0 <= k < d ==> (#[trigger] classes@[k])@ == class_cast_bindings(self.hierarchy, names@, k),
            decreases n - d,
        {
            let mut parts: Vec<String> = Vec::new();
            let mut a: usize = 0;
            while a < n
                invariant
                    n == names@.len(),
                    n == self.can@.len(),
                    self.table_matches(),
                    d < n,
                    a <= n,
                    parts@.len() == a,
                    forall|k: int| 0 <= k < a ==> (#[trigger] parts@[k])@ == (if k != d && is_ancestor(self.hierarchy, d as int, k) {
                        cast_binding_code(names@[d as int]@, names@[k]@)
                    } else {
                        Seq::empty()
                    }),
                decreases n - a,
            {
                if a != d && self.can[d][a] {
                    let mut t = String::from_str("impl cpp_core::StaticUpcast<");
                    t.append(names[a].as_str());
                    t.append("> for ");
                    t.append(names[d].as_str());
                    t.append(" {\n    unsafe fn static_upcast(ptr: cpp_core::Ptr<");
                    t.append(names[d].as_str());
                    t.append(">) -> cpp_core::Ptr<");
                    t.append(names[a].as_str());
                    t.append("> {\n        cpp_core::Ptr::from_raw(::ffi::static_upcast_");
                    t.append(names[d].as_str());
                    t.append("_to_");
                    t.append(names[a].as_str());
                    t.append("(ptr.as_raw_ptr()))\n    }\n}\n\n");
                    proof {
                        assert(t@ =~= cast_binding_code(names@[d as int]@, names@[a as int]@));
                    }
                    parts.push(t);
                } else {
                    parts.push(String::new());
                }
                a = a + 1;
            }
            let text = join_all(&parts, "");
            proof {
                assert(names_of(parts@) =~= cast_pieces(self.hierarchy, names@, d as int));
            }
            classes.push(text);
            d = d + 1;
        }
        let r = join_all(&classes, "");
        proof {
            assert(names_of(classes@) =~= class_pieces(self.hierarchy, names@));
        }
        r
    }

    /// Whether a handle typed as `from` may be upcast to `to` in one step.
    pub fn can_upcast(&self, from: usize, to: usize) -> (r: bool)
        ensures
            r == (from < self.hierarchy().bases@.len() && to < self.hierarchy().bases@.len() && is_ancestor(
                self.hierarchy(),
                from as int,
                to as int,
            )),
    {
        proof {
            use_type_invariant(self);
        }
        if from >= self.can.len() || to >= self.can.len() {
            return false;
        }
        self.can[from][to]
    }
}

/// The binding that lets a handle typed as `derived` be upcast to `base`:
/// it calls the shim's flat cast function `static_upcast_<derived>_to_<base>`.
pub open spec fn cast_binding_code(derived: Seq<char>, base: Seq<char>) -> Seq<char> {
    "impl cpp_core::StaticUpcast<"@ + base + "> for "@ + derived + " {\n    unsafe fn static_upcast(ptr: cpp_core::Ptr<"@
        + derived + ">) -> cpp_core::Ptr<"@ + base + "> {\n        cpp_core::Ptr::from_raw(::ffi::static_upcast_"@
        + derived + "_to_"@ + base + "(ptr.as_raw_ptr()))\n    }\n}\n\n"@
}

/// For each class `a`, the binding of `d` to `a` where `a` is a proper
/// ancestor of `d`, else nothing.
pub open spec fn cast_pieces(h: ClassHierarchy, names: Seq<String>, d: int) -> Seq<Seq<char>> {
    Seq::new(
        names.len(),
        |a: int|
            if a != d && is_ancestor(h, d, a) {
                cast_binding_code(names[d]@, names[a]@)
            } else {
                Seq::empty()
            },
    )
}

/// The bindings of class `d`: one for every proper ancestor, in class order.
pub open spec fn class_cast_bindings(h: ClassHierarchy, names: Seq<String>, d: int) -> Seq<char> {
    join(cast_pieces(h, names, d), ""@)
}

pub open spec fn class_pieces(h: ClassHierarchy, names: Seq<String>) -> Seq<Seq<char>> {
    Seq::new(names.len(), |d: int| class_cast_bindings(h, names, d))
}

/// The cast bindings of every class, class after class.
pub open spec fn all_cast_bindings(h: ClassHierarchy, names: Seq<String>) -> Seq<char> {
    join(class_pieces(h, names), ""@)
}

/// One native object: its most-derived class and how often its deleter ran.
pub struct ObjectModel {
    pub class: nat,
    pub deleter_calls: nat,
}

/// The native objects created through owning handles.
pub struct ObjectStore {
    classes: Vec<usize>,
    deleter_calls: Vec<u32>,
}

/// An owning handle: the only one for its object, not duplicable; deleting
/// it runs the object's deleter.
pub struct CppBox {
    id: usize,
    class: usize,
}

/// A non-owning handle that always refers to an object, typed by a class the
/// object is an instance of.
#[derive(Debug, Clone, Copy, PartialEq, Eq)]
pub struct Ref {
    id: usize,
    class: usize,
}

/// A non-owning handle that may refer to nothing.
#[derive(Debug, Clone, Copy, PartialEq, Eq)]
pub struct Ptr {
    target: Option<usize>,
    class: usize,
}

impl CppBox {
    pub closed spec fn object(&self) -> nat {
        self.id as nat
    }

    pub closed spec fn static_class(&self) -> nat {
        self.class as nat
    }
}

impl Ref {
    pub closed spec fn object(&self) -> nat {
        self.id as nat
    }

    pub closed spec fn static_class(&self) -> nat {
        self.class as nat
    }

    /// The class this handle is typed as.
    pub fn class(&self) -> (r: usize)
        ensures
            r == self.static_class(),
    {
        self.class
    }

    /// The object this handle refers to.
    pub fn object_id(&self) -> (r: usize)
        ensures
            r == self.object(),
    {
        self.id
    }

    /// A non-null handle from a possibly-null one; the source must not be
    /// null (a null source is a broken contract upstream, not a failure to
    /// recover from).
    pub fn from_ptr(p: Ptr) -> (r: Ref)
        requires
            p.target() is Some,
        ensures
            r.object() == p.target()->0,
            r.static_class() == p.static_class(),
    {
        match p.target {
            Some(id) => Ref { id, class: p.class },
            None => Ref { id: 0, class: p.class },
        }
    }
}

impl Ptr {
    pub closed spec fn target(&self) -> Option<nat> {
        match self.target {
            Some(id) => Some(id as nat),
            None => None,
        }
    }

    pub closed spec fn static_class(&self) -> nat {
        self.class as nat
    }

    /// A handle that refers to nothing.
    pub fn null(class: usize) -> (r: Ptr)
        ensures
            r.target() is None,
            r.static_class() == class,
    {
        Ptr { target: None, class }
    }

    /// Whether this handle refers to nothing.
    pub fn is_null(&self) -> (r: bool)
        ensures
            r == (self.target() is None),
    {
        self.target.is_none()
    }

    /// The non-null handle, where there is an object.
    pub fn as_ref(&self) -> (r: Option<Ref>)
        ensures
            match r {
                Some(x) => self.target() == Some(x.object()) && x.static_class() == self.static_class(),
                None => self.target() is None,
            },
    {
        match self.target {
            Some(id) => Some(Ref { id, class: self.class }),
            None => None,
        }
    }
}

/// The store after the deleter of object `id` is asked to run: it runs only
/// on a live object.
pub open spec fn delete_model(s: Seq<ObjectModel>, id: nat) -> Seq<ObjectModel> {
    if id < s.len() && s[id as int].deleter_calls == 0 {
        s.update(id as int, ObjectModel { class: s[id as int].class, deleter_calls: 1 })
    } else {
        s
    }
}

/// The store after the handles of `order` are dropped one after another.
pub open spec fn delete_all(s: Seq<ObjectModel>, order: Seq<nat>) -> Seq<ObjectModel>
    decreases order.len(),
{
    if order.len() == 0 {
        s
    } else {
        delete_model(delete_all(s, order.drop_last()), order.last())
    }
}

proof fn lemma_delete_all(s: Seq<ObjectModel>, order: Seq<nat>)
    requires
        forall|i: int, j: int| 0 <= i < j < order.len() ==> order[i] != order[j],
        forall|i: int| 0 <= i < order.len() ==> #[trigger] order[i] < s.len() && s[order[i] as int].deleter_calls == 0,
    ensures
        delete_all(s, order).len() == s.len(),
        forall|k: int|
            0 <= k < s.len() ==> (#[trigger] delete_all(s, order)[k]).deleter_calls == (if order.contains(k as nat) {
                1
            } else {
                s[k].deleter_calls
            }) && delete_all(s, order)[k].class == s[k].class,
    decreases order.len(),
{
    if order.len() > 0 {
        let prefix = order.drop_last();
        lemma_delete_all(s, prefix);
        let last = order.last();
        assert(!prefix.contains(last)) by {
            if prefix.contains(last) {
                let i = choose|i: int| 0 <= i < prefix.len() && prefix[i] == last;
                assert(order[i] == order[order.len() - 1]);
            }
        }
        assert(order[order.len() - 1] == last);
        assert forall|k: int| 0 <= k < s.len() implies (#[trigger] order.contains(k as nat)) == (prefix.contains(k as nat) || k == last) by {
            if order.contains(k as nat) {
                let i = choose|i: int| 0 <= i < order.len() && order[i] == k as nat;
                if i < order.len() - 1 {
                    assert(prefix[i] == k as nat);
                }
            }
            if prefix.contains(k as nat) {
                let i = choose|i: int| 0 <= i < prefix.len() && prefix[i] == k as nat;
                assert(order[i] == k as nat);
            }
        }
    }
}

/// Dropping owning handles of distinct live objects, in any order, runs each
/// of their deleters exactly once and leaves every other object as it was:
/// no deleter ever runs twice.
pub proof fn law_drop_runs_each_deleter_once(s: Seq<ObjectModel>, order: Seq<nat>)
    requires
        forall|i: int, j: int| 0 <= i < j < order.len() ==> order[i] != order[j],
        forall|i: int| 0 <= i < order.len() ==> #[trigger] order[i] < s.len() && s[order[i] as int].deleter_calls == 0,
    ensures
        delete_all(s, order).len() == s.len(),
        forall|i: int| 0 <= i < order.len() ==> (#[trigger] delete_all(s, order)[order[i] as int]).deleter_calls == 1,
        forall|k: int|
            0 <= k < s.len() && !order.contains(k as nat) ==> #[trigger] delete_all(s, order)[k] == s[k],
{
    lemma_delete_all(s, order);
    assert forall|i: int| 0 <= i < order.len() implies (#[trigger] delete_all(s, order)[order[i] as int]).deleter_calls == 1 by {
        assert(order.contains(order[i]));
    }
}

/// Only a deleter that runs on a live object changes anything: dropping a
/// second handle to an object already deleted (which ownership rules out)
/// would not run its deleter again.
pub proof fn law_deleter_never_runs_twice(s: Seq<ObjectModel>, id: nat)
    requires
        id < s.len(),
        s[id as int].deleter_calls == 1,
    ensures
        delete_model(s, id) == s,
{
}

impl ObjectStore {
    /// Every object's deleter ran at most once.
    pub closed spec fn wf(&self) -> bool {
        &&& self.classes@.len() == self.deleter_calls@.len()
        &&& forall|i: int| 0 <= i < self.deleter_calls@.len() ==> #[trigger] self.deleter_calls@[i] <= 1
    }

    /// Each object with its class and the number of times its deleter ran.
    pub closed spec fn view(&self) -> Seq<ObjectModel> {
        Seq::new(
            self.classes@.len(),
            |i: int| ObjectModel { class: self.classes@[i] as nat, deleter_calls: self.deleter_calls@[i] as nat },
        )
    }

    /// A store with no objects.
    pub fn new() -> (r: ObjectStore)
        ensures
            r.wf(),
            r.view().len() == 0,
    {
        ObjectStore { classes: Vec::new(), deleter_calls: Vec::new() }
    }

    /// Creates an object of `class` and hands out its owning handle.
    pub fn create(&mut self, class: usize) -> (b: CppBox)
        requires
            old(self).wf(),
        ensures
            final(self).wf(),
            final(self).view() == old(self).view().push(ObjectModel { class: class as nat, deleter_calls: 0 }),
            b.object() == old(self).view().len(),
            b.static_class() == class,
    {
        let id = self.classes.len();
        self.classes.push(class);
        self.deleter_calls.push(0);
        proof {
            assert(self.view() =~= old(self).view().push(ObjectModel { class: class as nat, deleter_calls: 0 }));
        }
        CppBox { id, class }
    }

    /// Drops an owning handle: runs the object's deleter, once.
    pub fn delete(&mut self, b: CppBox)
        requires
            old(self).wf(),
        ensures
            final(self).wf(),
            final(self).view() == delete_model(old(self).view(), b.object()),
    {
        if b.id < self.deleter_calls.len() && self.deleter_calls[b.id] == 0 {
            self.deleter_calls.set(b.id, 1);
            proof {
                assert(self.view() =~= delete_model(old(self).view(), b.object()));
            }
        }
    }

    /// How many times the deleter of object `id` has run (0 or 1).
    pub fn deleter_calls(&self, id: usize) -> (r: u32)
        requires
            self.wf(),
        ensures
            r == if id < self.view().len() {
                self.view()[id as int].deleter_calls
            } else {
                0
            },
            r <= 1,
    {
        if id < self.deleter_calls.len() {
            self.deleter_calls[id]
        } else {
            0
        }
    }

    /// Whether object `id` is still alive.
    pub fn is_live(&self, id: usize) -> (r: bool)
        requires
            self.wf(),
        ensures
            r == (id < self.view().len() && self.view()[id as int].deleter_calls == 0),
    {
        id < self.deleter_calls.len() && self.deleter_calls[id] == 0
    }

    /// The most-derived class of object `id`.
    pub fn class_of(&self, id: usize) -> (r: usize)
        requires
            self.wf(),
            id < self.view().len(),
        ensures
            r == self.view()[id as int].class,
    {
        self.classes[id]
    }

    /// A non-owning view of an owned object, typed as the box is.
    pub fn as_ref(&self, b: &CppBox) -> (r: Ref)
        ensures
            r.object() == b.object(),
            r.static_class() == b.static_class(),
    {
        Ref { id: b.id, class: b.class }
    }

    /// A nullable non-owning view of an owned object.
    pub fn as_ptr(&self, b: &CppBox) -> (r: Ptr)
        ensures
            r.target() == Some(b.object()),
            r.static_class() == b.static_class(),
    {
        Ptr { target: Some(b.id), class: b.class }
    }

    /// Casts to `target` by the object's run-time class: succeeds exactly
    /// when `target` is the object's class or one of its ancestors.
    pub fn dynamic_cast(&self, table: &CastTable, r: Ref, target: usize) -> (out: Option<Ref>)
        requires
            self.wf(),
            r.object() < self.view().len(),
        ensures
            match out {
                Some(x) => x.object() == r.object() && x.static_class() == target && target < table.hierarchy().bases@.len()
                    && self.view()[r.object() as int].class < table.hierarchy().bases@.len()
                    && is_ancestor(table.hierarchy(), self.view()[r.object() as int].class as int, target as int),
                None => !(target < table.hierarchy().bases@.len()
                    && self.view()[r.object() as int].class < table.hierarchy().bases@.len()
                    && is_ancestor(table.hierarchy(), self.view()[r.object() as int].class as int, target as int)),
            },
    {
        let c = self.class_of(r.id);
        if table.can_upcast(c, target) {
            Some(Ref { id: r.id, class: target })
        } else {
            None
        }
    }
}

/// Casts a handle to an ancestor of its class; always available, in one step
/// however long the chain.
pub fn static_upcast(table: &CastTable, r: Ref, target: usize) -> (out: Ref)
    requires
        is_ancestor(table.hierarchy(), r.static_class() as int, target as int),
    ensures
        out.object() == r.object(),
        out.static_class() == target,
{
    Ref { id: r.id, class: target }
}

/// Casts a handle to a class derived from its own, without a check: the
/// caller vouches that the object is an instance of `target`.
pub fn static_downcast(store: &ObjectStore, table: &CastTable, r: Ref, target: usize) -> (out: Ref)
    requires
        r.object() < store.view().len(),
        is_ancestor(table.hierarchy(), target as int, r.static_class() as int),
        is_ancestor(table.hierarchy(), store.view()[r.object() as int].class as int, target as int),
    ensures
        out.object() == r.object(),
        out.static_class() == target,
{
    Ref { id: r.id, class: target }
}

/// What a cast sees of a non-owning handle: the object it refers to (if
/// any) and the class it is typed as.
pub trait Handle {
    spec fn handle_object(&self) -> Option<nat>;

    spec fn handle_class(&self) -> nat;
}

impl Handle for Ref {
    open spec fn handle_object(&self) -> Option<nat> {
        Some(self.object())
    }

    open spec fn handle_class(&self) -> nat {
        self.static_class()
    }
}

impl Handle for Ptr {
    open spec fn handle_object(&self) -> Option<nat> {
        self.target()
    }

    open spec fn handle_class(&self) -> nat {
        self.static_class()
    }
}

/// Static upcast into this handle kind from a handle of kind `T`.
pub trait CastFrom<T: Handle>: Sized + Handle {
    /// The same object, typed as `target`, an ancestor of the value's class.
    fn cast_from(table: &CastTable, value: T, target: usize) -> (r: Self)
        requires
            is_ancestor(table.hierarchy(), value.handle_class() as int, target as int),
        ensures
            r.handle_object() == value.handle_object(),
            r.handle_class() == target,
    ;
}

/// Static upcast of this handle into a handle of kind `U`.
pub trait CastInto<U: Handle>: Sized + Handle {
    /// The same object, typed as `target`, an ancestor of this handle's class.
    fn cast_into(self, table: &CastTable, target: usize) -> (r: U)
        requires
            is_ancestor(table.hierarchy(), self.handle_class() as int, target as int),
        ensures
            r.handle_object() == self.handle_object(),
            r.handle_class() == target,
    ;
}

impl<T: Handle, U: CastFrom<T>> CastInto<U> for T {
    fn cast_into(self, table: &CastTable, target: usize) -> (r: U) {
        U::cast_from(table, self, target)
    }
}

impl CastFrom<Ref> for Ref {
    fn cast_from(table: &CastTable, value: Ref, target: usize) -> (r: Ref) {
        Ref { id: value.id, class: target }
    }
}

impl CastFrom<Ref> for Ptr {
    fn cast_from(table: &CastTable, value: Ref, target: usize) -> (r: Ptr) {
        Ptr { target: Some(value.id), class: target }
    }
}

impl CastFrom<Ptr> for Ptr {
    fn cast_from(table: &CastTable, value: Ptr, target: usize) -> (r: Ptr) {
        Ptr { target: value.target, class: target }
    }
}

/// Where `r` may be upcast to `mid`'s class and `mid` on to `base`, `r` may
/// be upcast to `base` directly; since an upcast keeps the object and sets
/// the class, the direct upcast and the two chained ones give equal handles.
pub proof fn law_upcast_chain(table: CastTable, r: Ref, mid: Ref, base: nat, direct: Ref, chained: Ref)
    requires
        is_ancestor(table.hierarchy(), r.static_class() as int, mid.static_class() as int),
        mid.object() == r.object(),
        is_ancestor(table.hierarchy(), mid.static_class() as int, base as int),
        direct.object() == r.object() && direct.static_class() == base,
        chained.object() == mid.object() && chained.static_class() == base,
    ensures
        is_ancestor(table.hierarchy(), r.static_class() as int, base as int),
        direct == chained,
{
    law_ancestor_transitive(table.hierarchy(), r.static_class() as int, mid.static_class() as int, base as int);
}

/// A virtual method: the implementation each class resolves it to, as the
/// native virtual table holds it (an override, or what the class inherits).
pub struct VirtualMethod {
    pub results: Vec<i64>,
}

/// Calls a virtual method through a handle: the object's run-time class
/// decides, never the class the handle is typed as.
pub fn call_virtual(store: &ObjectStore, method: &VirtualMethod, r: Ref) -> (out: i64)
    requires
        store.wf(),
        r.object() < store.view().len(),
        store.view()[r.object() as int].class < method.results@.len(),
    ensures
        out == method.results@[store.view()[r.object() as int].class as int],
{
    let c = store.class_of(r.id);
    method.results[c]
}

/// Two handles to one object dispatch a virtual call alike, whatever class
/// each is typed as: through a base-typed handle to a subclass instance the
/// subclass's override runs.
pub proof fn law_dispatch_ignores_static_type(s: Seq<ObjectModel>, method: Seq<i64>, a: Ref, b: Ref)
    requires
        a.object() == b.object(),
        a.object() < s.len(),
        s[a.object() as int].class < method.len(),
    ensures
        method[s[a.object() as int].class as int] == method[s[b.object() as int].class as int],
{
}

/// Iteration over a native range, from a begin and an end position:
/// forward iteration reads at `begin` and advances it, backward iteration
/// first steps `end` back and then reads there; both stop when the two meet.
pub struct CppIterator<T> {
    items: Vec<T>,
    begin: usize,
    end: usize,
    supports_decrement: bool,
}

impl<T> CppIterator<T> {
    #[verifier::type_invariant]
    spec fn in_range(&self) -> bool {
        self.begin <= self.end <= self.items@.len()
    }

    /// What is left to visit, front first.
    pub closed spec fn remaining(&self) -> Seq<T> {
        self.items@.subrange(self.begin as int, self.end as int)
    }

    /// Whether the native iterator type can step backward.
    pub closed spec fn reversible(&self) -> bool {
        self.supports_decrement
    }

}

impl<T: Copy> CppIterator<T> {
    /// Iterates over `items[begin..end]`; `supports_decrement` states whether
    /// the native iterator category allows backward steps.
    pub fn new(items: Vec<T>, begin: usize, end: usize, supports_decrement: bool) -> (r: CppIterator<T>)
        requires
            begin <= end <= items@.len(),
        ensures
            r.remaining() == items@.subrange(begin as int, end as int),
            r.reversible() == supports_decrement,
    {
        CppIterator { items, begin, end, supports_decrement }
    }

    /// Whether backward iteration is allowed.
    pub fn supports_decrement(&self) -> (r: bool)
        ensures
            r == self.reversible(),
    {
        self.supports_decrement
    }

    /// The next item from the front.
    pub fn next(&mut self) -> (r: Option<T>)
        ensures
            final(self).reversible() == old(self).reversible(),
            old(self).remaining().len() == 0 ==> r is None && final(self).remaining() == old(self).remaining(),
            old(self).remaining().len() > 0 ==> r == Some(old(self).remaining()[0])
                && final(self).remaining() == old(self).remaining().drop_first(),
    {
        proof {
            use_type_invariant(&*self);
        }
        if self.begin == self.end {
            None
        } else {
            let v = self.items[self.begin];
            self.begin = self.begin + 1;
            proof {
                assert(self.remaining() =~= old(self).remaining().drop_first());
            }
            Some(v)
        }
    }

    /// The next item from the back; only for reversible iterators.
    pub fn next_back(&mut self) -> (r: Option<T>)
        requires
            old(self).reversible(),
        ensures
            final(self).reversible() == old(self).reversible(),
            old(self).remaining().len() == 0 ==> r is None && final(self).remaining() == old(self).remaining(),
            old(self).remaining().len() > 0 ==> r == Some(old(self).remaining().last())
                && final(self).remaining() == old(self).remaining().drop_last(),
    {
        proof {
            use_type_invariant(&*self);
        }
        if self.begin == self.end {
            None
        } else {
            self.end = self.end - 1;
            let v = self.items[self.end];
            proof {
                assert(self.remaining() =~= old(self).remaining().drop_last());
            }
            Some(v)
        }
    }

    /// All remaining items, front to back.
    pub fn collect_forward(&mut self) -> (r: Vec<T>)
        ensures
            r@ == old(self).remaining(),
            final(self).remaining().len() == 0,
    {
        let ghost all = self.remaining();
        let mut out: Vec<T> = Vec::new();
        loop
            invariant
                all == old(self).remaining(),
                all == out@ + self.remaining(),
            decreases self.remaining().len(),
        {
            match self.next() {
                Some(v) => {
                    out.push(v);
                    proof {
                        assert(out@ + self.remaining() =~= all);
                    }
                },
                None => {
                    proof {
                        assert(out@ =~= all);
                    }
                    return out;
                },
            }
        }
    }

    /// All remaining items, back to front; only for reversible iterators.
    pub fn collect_backward(&mut self) -> (r: Vec<T>)
        requires
            old(self).reversible(),
        ensures
            r@ == old(self).remaining().reverse(),
            final(self).remaining().len() == 0,
    {
        let ghost all = self.remaining();
        let mut out: Vec<T> = Vec::new();
        loop
            invariant
                all == old(self).remaining(),
                self.reversible(),
                all == self.remaining() + out@.reverse(),
            decreases self.remaining().len(),
        {
            match self.next_back() {
                Some(v) => {
                    let ghost prev = out@;
                    out.push(v);
                    proof {
                        assert(out@.reverse() =~= seq![v] + prev.reverse());
                        assert(self.remaining() + out@.reverse() =~= all);
                    }
                },
                None => {
                    proof {
                        assert(out@.reverse() =~= all);
                        assert(out@.reverse().reverse() =~= out@);
                        assert(out@ =~= all.reverse());
                    }
                    return out;
                },
            }
        }
    }
}

} // verus!
