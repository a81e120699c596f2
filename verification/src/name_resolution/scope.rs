//! The scope graph: scopes, the items declared in them, and the operations
//! that build and query the graph.

use vstd::prelude::*;
use indexmap::IndexMap;
use once_cell::unsync::OnceCell;
use crate::ast::{AstId, ItemP};
use crate::common::CodeErrorKind;
use crate::name_resolution::item_map::{
    buckets_get_index, buckets_get_index_mut, buckets_get_index_of, buckets_insert, buckets_len,
    buckets_new, item_buckets, key_view,
};
use crate::name_resolution::model::{
    add_to, bucket_index, bucket_wf, child_view, count_impls, count_types, crate_of, distinct_names,
    ensure_module_model, entries_of, extended, flat_items, function_of, graph_wf, grown_from,
    has_bucket,
    lemma_add_to_wf, lemma_bucket_at, merge_accepts, module_in, nested, resolve, root_of,
    scope_wf,
    scoped_within, super_of, with_items, Buckets, GraphView, ScopeView,
};
use crate::name_resolution::path::{Path, PathSegment, PathView};
use crate::name_resolution::source_cell::{slot_clone, slot_get, slot_new, slot_set, slot_value};
use crate::parser::{Node, SourceId};

verus! {

/// Handle of a scope in a [`ScopeGraph`]. Two handles are equal exactly when
/// they denote the same scope.
#[derive(Debug, Clone, Copy, PartialEq, Eq, Structural)]
pub struct Scope {
    pub index: usize,
}

/// What was declared under a name, with what is needed to elaborate it
/// later.
#[derive(Debug, Clone)]
pub enum NamedItem {
    Alias(Path),
    Function(ItemP, Node, Scope),
    Static(ItemP, Node),
    Const(ItemP, Node),
    Macro(ItemP, Node, Scope),
    Type(ItemP, Node, Scope),
    Mixin(Node, Scope),
    Module(Scope),
    Protocol(ItemP, Node, Scope),
    Impl(Node, Scope),
    Placeholder(AstId, Node),
    Field(Node),
    EnumMember(ItemP, AstId, Node),
    Local(AstId),
    Parameter(AstId, Node),
    MacroParameter(AstId, bool),
}

/// The kind of a scope. It decides how names may collide in the scope and
/// how the navigation queries pass through it.
#[derive(Debug, Copy, Clone, PartialEq, Eq, Structural)]
pub enum ScopeType {
    Root,
    Crate,
    Module,
    Protocol,
    StructLike,
    Function,
    Macro,
    Closure,
    Impl,
    Enum,
    Block,
}

/// One scope of the graph.
#[derive(Debug)]
pub struct ScopeInner {
    typ: ScopeType,
    path: Path,
    items: IndexMap<Option<String>, Vec<NamedItem>>,
    parent: Option<Scope>,
    code: OnceCell<SourceId>,
}

/// The scopes of one compilation. A scope is created under its parent and
/// stays for as long as the graph does.
#[derive(Debug)]
pub struct ScopeGraph {
    scopes: Vec<ScopeInner>,
}

impl NamedItem {
    /// The scope that the item carries, if its kind has one.
    pub open spec fn spec_scope(self) -> Option<Scope> {
        match self {
            NamedItem::Function(_, _, scope) => Some(scope),
            NamedItem::Macro(_, _, scope) => Some(scope),
            NamedItem::Type(_, _, scope) => Some(scope),
            NamedItem::Mixin(_, scope) => Some(scope),
            NamedItem::Module(scope) => Some(scope),
            NamedItem::Protocol(_, _, scope) => Some(scope),
            NamedItem::Impl(_, scope) => Some(scope),
            _ => None,
        }
    }

    /// The word for the item's kind.
    pub open spec fn kind_name(self) -> Seq<char> {
        match self {
            NamedItem::Alias(_) => "alias"@,
            NamedItem::Function(_, _, _) => "function"@,
            NamedItem::Static(_, _) => "static"@,
            NamedItem::Const(_, _) => "const"@,
            NamedItem::Macro(_, _, _) => "macro"@,
            NamedItem::Type(_, _, _) => "type"@,
            NamedItem::Mixin(_, _) => "mixin"@,
            NamedItem::Module(_) => "module"@,
            NamedItem::Protocol(_, _, _) => "protocol"@,
            NamedItem::Impl(_, _) => "impl"@,
            NamedItem::Placeholder(_, _) => "placeholder"@,
            NamedItem::Field(_) => "field"@,
            NamedItem::EnumMember(_, _, _) => "enum member"@,
            NamedItem::Local(_) => "local"@,
            NamedItem::Parameter(_, _) => "parameter"@,
            NamedItem::MacroParameter(_, _) => "macro parameter"@,
        }
    }

    /// The word for the item's kind, as shown to the user.
    pub fn to_string(&self) -> (text: String)
        ensures
            text@ == self.kind_name(),
    {
        let word = match self {
            NamedItem::Alias(_) => "alias",
            NamedItem::Function(_, _, _) => "function",
            NamedItem::Static(_, _) => "static",
            NamedItem::Const(_, _) => "const",
            NamedItem::Macro(_, _, _) => "macro",
            NamedItem::Type(_, _, _) => "type",
            NamedItem::Mixin(_, _) => "mixin",
            NamedItem::Module(_) => "module",
            NamedItem::Protocol(_, _, _) => "protocol",
            NamedItem::Impl(_, _) => "impl",
            NamedItem::Placeholder(_, _) => "placeholder",
            NamedItem::Field(_) => "field",
            NamedItem::EnumMember(_, _, _) => "enum member",
            NamedItem::Local(_) => "local",
            NamedItem::Parameter(_, _) => "parameter",
            NamedItem::MacroParameter(_, _) => "macro parameter",
        };
        word.to_owned()
    }

    /// The scope that the item carries, if its kind has one.
    pub fn scope(&self) -> (inner: Option<Scope>)
        ensures
            inner == self.spec_scope(),
    {
        match self {
            NamedItem::Function(_, _, scope) => Some(*scope),
            NamedItem::Macro(_, _, scope) => Some(*scope),
            NamedItem::Type(_, _, scope) => Some(*scope),
            NamedItem::Mixin(_, scope) => Some(*scope),
            NamedItem::Module(scope) => Some(*scope),
            NamedItem::Protocol(_, _, scope) => Some(*scope),
            NamedItem::Impl(_, scope) => Some(*scope),
            _ => None,
        }
    }
}

/// An entry as a lookup hands it out: the name of its bucket and the item.
pub type NamedEntry<'a> = (Option<&'a str>, &'a NamedItem);

/// A bucket as a lookup hands it out: its name and all its entries.
pub type NamedGroup<'a> = (Option<&'a str>, &'a [NamedItem]);

/// The entries that a lookup handed out, as mathematical values.
pub open spec fn entry_views<'a>(all: Seq<NamedEntry<'a>>) -> Seq<(Option<Seq<char>>, NamedItem)> {
    Seq::new(all.len(), |k: int| (name_view(all[k].0), *all[k].1))
}

/// The buckets that a lookup handed out, as mathematical values.
pub open spec fn group_views<'a>(groups: Seq<NamedGroup<'a>>) -> Seq<
    (Option<Seq<char>>, Seq<NamedItem>),
> {
    Seq::new(groups.len(), |k: int| (name_view(groups[k].0), groups[k].1@))
}

/// The items behind the references that a lookup handed out.
pub open spec fn item_values<'a>(found: Seq<&'a NamedItem>) -> Seq<NamedItem> {
    Seq::new(found.len(), |k: int| *found[k])
}

impl ScopeInner {
    /// Whether the scope's buckets have distinct names, as they do in every
    /// well-formed graph.
    pub open spec fn wf(&self) -> bool {
        distinct_names(self@.items)
    }

    /// Every entry with the name it was registered under: bucket after
    /// bucket in first-registration order, each bucket in its own order.
    pub fn all_items<'a>(&'a self) -> (all: Vec<NamedEntry<'a>>)
        ensures
            entry_views(all@) == flat_items(self@.items),
    {
        let mut all: Vec<NamedEntry<'a>> = Vec::new();
        let n = buckets_len(&self.items);
        let mut b: usize = 0;
        assert(self@.items.take(0) =~= Seq::empty());
        assert(entry_views(all@) =~= flat_items(self@.items.take(0)));
        while b < n
            invariant
                b <= n,
                n == self@.items.len(),
                entry_views(all@) == flat_items(self@.items.take(b as int)),
            decreases n - b,
        {
            let ghost done = flat_items(self@.items.take(b as int));
            let ghost bucket = self@.items[b as int];
            match buckets_get_index(&self.items, b) {
                Some((key, entries)) => {
                    let name: Option<&'a str> = match key {
                        Some(text) => Some(text.as_str()),
                        None => None,
                    };
                    let mut k: usize = 0;
                    assert(entry_views(all@) =~= done + Seq::new(
                        0,
                        |j: int| (bucket.0, bucket.1[j]),
                    ));
                    assert(all@.len() == entry_views(all@).len());
                    while k < entries.len()
                        invariant
                            k <= entries.len(),
                            entries@ == bucket.1,
                            name_view(name) == bucket.0,
                            all@.len() == done.len() + k,
                            entry_views(all@) == done + Seq::new(
                                k as nat,
                                |j: int| (bucket.0, bucket.1[j]),
                            ),
                        decreases entries.len() - k,
                    {
                        let ghost sofar = all@;
                        all.push((name, &entries[k]));
                        k += 1;
                        assert forall|j: int| 0 <= j < all@.len() implies entry_views(all@)[j] == (
                        done + Seq::new(k as nat, |j: int| (bucket.0, bucket.1[j])))[j] by {
                            if j < sofar.len() {
                                assert(entry_views(sofar)[j] == entry_views(all@)[j]);
                            }
                        }
                        assert(entry_views(all@) =~= done + Seq::new(
                            k as nat,
                            |j: int| (bucket.0, bucket.1[j]),
                        ));
                    }
                },
                None => {},
            }
            b += 1;
            proof {
                let upto = self@.items.take(b as int);
                assert(upto.drop_last() =~= self@.items.take(b as int - 1));
                assert(upto.last() == bucket);
            }
        }
        assert(self@.items.take(n as int) =~= self@.items);
        all
    }

    /// Every bucket as one unit, in first-registration order: its name and
    /// its whole entry list.
    pub fn grouped_items<'a>(&'a self) -> (groups: Vec<NamedGroup<'a>>)
        ensures
            group_views(groups@) == self@.items,
    {
        let mut groups: Vec<NamedGroup<'a>> = Vec::new();
        let n = buckets_len(&self.items);
        let mut b: usize = 0;
        while b < n
            invariant
                b <= n,
                n == self@.items.len(),
                groups@.len() == b,
                group_views(groups@) =~= self@.items.take(b as int),
            decreases n - b,
        {
            match buckets_get_index(&self.items, b) {
                Some((key, entries)) => {
                    let name: Option<&'a str> = match key {
                        Some(text) => Some(text.as_str()),
                        None => None,
                    };
                    groups.push((name, entries.as_slice()));
                },
                None => {},
            }
            b += 1;
        }
        assert(self@.items.take(n as int) =~= self@.items);
        groups
    }

    /// The bucket at a position of the first-registration order.
    pub fn group<'a>(&'a self, index: usize) -> (found: Option<NamedGroup<'a>>)
        ensures
            index >= self@.items.len() ==> found is None,
            index < self@.items.len() ==> found is Some && name_view(found.unwrap().0)
                == self@.items[index as int].0 && found.unwrap().1@ == self@.items[index as int].1,
    {
        match buckets_get_index(&self.items, index) {
            Some((key, entries)) => {
                let name: Option<&'a str> = match key {
                    Some(text) => Some(text.as_str()),
                    None => None,
                };
                Some((name, entries.as_slice()))
            },
            None => None,
        }
    }

    /// The number of buckets.
    pub fn group_count(&self) -> (n: usize)
        ensures
            n == self@.items.len(),
    {
        buckets_len(&self.items)
    }

    /// The entries registered under exactly this name, in their order.
    pub fn items_with_name<'a>(&'a self, name: &str) -> (found: Vec<&'a NamedItem>)
        requires
            self.wf(),
        ensures
            item_values(found@) == entries_of(self@.items, Some(name@)),
    {
        let mut found: Vec<&'a NamedItem> = Vec::new();
        let key = Some(name.to_owned());
        match buckets_get_index_of(&self.items, &key) {
            None => {
                assert(item_values(found@) =~= Seq::empty());
            },
            Some(at) => {
                proof {
                    lemma_bucket_at(self@.items, at as int);
                }
                match buckets_get_index(&self.items, at) {
                    Some((_, entries)) => {
                        let mut k: usize = 0;
                        while k < entries.len()
                            invariant
                                k <= entries.len(),
                                found@.len() == k,
                                item_values(found@) =~= entries@.take(k as int),
                            decreases entries.len() - k,
                        {
                            found.push(&entries[k]);
                            k += 1;
                        }
                        assert(entries@.take(entries@.len() as int) =~= entries@);
                    },
                    None => {},
                }
            },
        }
        found
    }
}

impl View for ScopeInner {
    type V = ScopeView;

    closed spec fn view(&self) -> ScopeView {
        ScopeView {
            typ: self.typ,
            path: self.path@,
            items: item_buckets(self.items),
            parent: self.parent,
            code: slot_value(self.code),
        }
    }
}

impl View for ScopeGraph {
    type V = GraphView;

    closed spec fn view(&self) -> GraphView {
        Seq::new(self.scopes@.len(), |i: int| self.scopes@[i]@)
    }
}

/// The name under which an item is registered, as a mathematical value.
pub open spec fn name_view(name: Option<&str>) -> Option<Seq<char>> {
    match name {
        Some(text) => Some(text@),
        None => None,
    }
}

/// Whether a name that is taken outside a block accepts `item` beside the
/// entries it has: the test for the merge of a type with its
/// implementations.
pub fn merge_allowed(existing: &Vec<NamedItem>, item: &NamedItem) -> (allowed: bool)
    ensures
        allowed == merge_accepts(existing@, *item),
{
    let mut types: usize = 0;
    let mut impls: usize = 0;
    let mut i: usize = 0;
    assert(existing@.take(0) =~= Seq::empty());
    while i < existing.len()
        invariant
            i <= existing.len(),
            types <= i,
            impls <= i,
            types == count_types(existing@.take(i as int)),
            impls == count_impls(existing@.take(i as int)),
        decreases existing.len() - i,
    {
        assert(existing@.take(i as int + 1).drop_last() =~= existing@.take(i as int));
        match &existing[i] {
            NamedItem::Type(_, _, _) => {
                types += 1;
            },
            NamedItem::Impl(_, _) => {
                impls += 1;
            },
            _ => {},
        }
        i += 1;
    }
    assert(existing@.take(existing@.len() as int) =~= existing@);
    match item {
        NamedItem::Impl(_, _) => types == 1 || impls > 0,
        NamedItem::Type(_, _, _) => types == 0 && impls > 0,
        _ => false,
    }
}

/// Where a registration puts its item: in a new bucket behind the others,
/// at the end, in place of the first entry or at the front of the bucket at
/// a position, or nowhere.
enum Placement {
    Open,
    Append(usize),
    Shadow(usize),
    Front(usize),
    Refused,
}

/// What a placement says of the registration it stands for.
spec fn placed(
    typ: ScopeType,
    items: Buckets,
    name: Option<Seq<char>>,
    item: NamedItem,
    place: Placement,
) -> bool {
    match place {
        Placement::Open => !has_bucket(items, name),
        Placement::Append(at) => {
            &&& has_bucket(items, name)
            &&& at == bucket_index(items, name)
            &&& name is None || (!(typ is Block) && merge_accepts(items[at as int].1, item) && !(
            item is Type))
        },
        Placement::Shadow(at) => {
            &&& has_bucket(items, name)
            &&& at == bucket_index(items, name)
            &&& name is Some
            &&& typ is Block
        },
        Placement::Front(at) => {
            &&& has_bucket(items, name)
            &&& at == bucket_index(items, name)
            &&& name is Some
            &&& !(typ is Block)
            &&& merge_accepts(items[at as int].1, item)
            &&& item is Type
        },
        Placement::Refused => {
            &&& has_bucket(items, name)
            &&& name is Some
            &&& !(typ is Block)
            &&& !merge_accepts(items[bucket_index(items, name)].1, item)
        },
    }
}

impl ScopeGraph {
    /// Whether the graph is well formed. Every function that builds a graph
    /// keeps it so.
    pub open spec fn wf(&self) -> bool {
        graph_wf(self@)
    }

    /// Whether the handle denotes a scope of this graph.
    pub open spec fn contains(&self, scope: Scope) -> bool {
        scope.index < self@.len()
    }

    /// A graph without scopes.
    pub fn new() -> (graph: ScopeGraph)
        ensures
            graph@ == GraphView::empty(),
            graph.wf(),
    {
        let graph = ScopeGraph { scopes: Vec::new() };
        assert(graph@ =~= GraphView::empty());
        graph
    }

    /// Whether every scope that an item carries was created after the
    /// scope in which the item is registered, as it is where each item's
    /// scope is created under the scope that the item goes into.
    pub fn is_nested(&self) -> (ok: bool)
        requires
            self.wf(),
        ensures
            ok == nested(self@),
    {
        let ghost g = self@;
        let mut s: usize = 0;
        while s < self.scopes.len()
            invariant
                s <= self.scopes.len(),
                g == self@,
                forall|i: int, b: int, k: int|
                    0 <= i < s && 0 <= b < g[i].items.len() && 0 <= k < g[i].items[b].1.len() ==> (
                    (#[trigger] g[i].items[b].1[k]).spec_scope() matches Some(inner) ==> i
                        < inner.index),
            decreases self.scopes.len() - s,
        {
            let inner = &self.scopes[s];
            let n = buckets_len(&inner.items);
            let mut b: usize = 0;
            while b < n
                invariant
                    b <= n,
                    g == self@,
                    s < g.len(),
                    n == g[s as int].items.len(),
                    inner@ == g[s as int],
                    forall|c: int, k: int|
                        0 <= c < b && 0 <= k < g[s as int].items[c].1.len() ==> ((
                        #[trigger] g[s as int].items[c].1[k]).spec_scope() matches Some(inner)
                            ==> s < inner.index),
                decreases n - b,
            {
                match buckets_get_index(&inner.items, b) {
                    Some((_, entries)) => {
                        let mut k: usize = 0;
                        while k < entries.len()
                            invariant
                                k <= entries.len(),
                                g == self@,
                                s < g.len(),
                                b < g[s as int].items.len(),
                                entries@ == g[s as int].items[b as int].1,
                                forall|j: int|
                                    0 <= j < k ==> ((#[trigger] entries@[j]).spec_scope() matches Some(
                                        inner,
                                    ) ==> s < inner.index),
                            decreases entries.len() - k,
                        {
                            match entries[k].scope() {
                                Some(carried) => {
                                    if carried.index <= s {
                                        assert(g[s as int].items[b as int].1[k as int].spec_scope()
                                            == Some(carried));
                                        return false;
                                    }
                                },
                                None => {},
                            }
                            k += 1;
                        }
                    },
                    None => {},
                }
                b += 1;
            }
            s += 1;
        }
        true
    }

    /// The number of scopes created so far.
    pub fn len(&self) -> (n: usize)
        ensures
            n == self@.len(),
    {
        self.scopes.len()
    }

    /// Appends a scope and hands out its handle.
    fn push(&mut self, inner: ScopeInner) -> (scope: Scope)
        requires
            old(self).wf(),
            inner@.items == Seq::<(Option<Seq<char>>, Seq<NamedItem>)>::empty(),
            inner@.parent matches Some(p) ==> p.index < old(self)@.len(),
        ensures
            final(self)@ == old(self)@.push(inner@),
            scope.index == old(self)@.len(),
            final(self).wf(),
    {
        let scope = Scope { index: self.scopes.len() };
        self.scopes.push(inner);
        assert(self@ =~= old(self)@.push(inner@));
        assert forall|i: int| 0 <= i < self@.len() implies #[trigger] scope_wf(self@, i) by {
            if i < old(self)@.len() {
                assert(scope_wf(old(self)@, i));
                assert(self@[i] == old(self)@[i]);
            }
        }
        scope
    }
}

impl Scope {
    /// Creates a root scope: no parent, no source, the root path.
    pub fn new_root(graph: &mut ScopeGraph) -> (root: Scope)
        requires
            old(graph).wf(),
        ensures
            final(graph).wf(),
            root.index == old(graph)@.len(),
            final(graph)@ == old(graph)@.push(
                ScopeView {
                    typ: ScopeType::Root,
                    path: PathView {
                        absolute: true,
                        segments: Seq::empty(),
                    },
                    items: Seq::empty(),
                    parent: None,
                    code: None,
                },
            ),
    {
        graph.push(
            ScopeInner {
                typ: ScopeType::Root,
                path: Path::root(),
                items: buckets_new(),
                parent: None,
                code: slot_new(),
            },
        )
    }

    /// The kind of the scope.
    pub fn typ(&self, graph: &ScopeGraph) -> (typ: ScopeType)
        requires
            graph.contains(*self),
        ensures
            typ == graph@[self.index as int].typ,
    {
        graph.scopes[self.index].typ
    }

    /// The scope itself, for reading its items.
    pub fn inner<'a>(&self, graph: &'a ScopeGraph) -> (inner: &'a ScopeInner)
        requires
            graph.contains(*self),
        ensures
            inner@ == graph@[self.index as int],
            graph.wf() ==> inner.wf(),
    {
        proof {
            if graph.wf() {
                assert(scope_wf(graph@, self.index as int));
            }
        }
        &graph.scopes[self.index]
    }

    /// The source that the scope's declarations live in, once it is set.
    pub fn code(&self, graph: &ScopeGraph) -> (code: Option<SourceId>)
        requires
            graph.contains(*self),
        ensures
            code == graph@[self.index as int].code,
    {
        match slot_get(&graph.scopes[self.index].code) {
            Some(source) => Some(*source),
            None => None,
        }
    }

    /// The module path of the scope.
    pub fn path(&self, graph: &ScopeGraph) -> (path: Path)
        requires
            graph.contains(*self),
        ensures
            path@ == graph@[self.index as int].path,
    {
        graph.scopes[self.index].path.clone()
    }

    /// The enclosing scope; none for a root.
    pub fn parent(&self, graph: &ScopeGraph) -> (parent: Option<Scope>)
        requires
            graph.contains(*self),
        ensures
            parent == graph@[self.index as int].parent,
    {
        graph.scopes[self.index].parent
    }

    /// Creates a child whose path is this scope's path with `name` appended
    /// and whose source is this scope's source as it is now.
    pub fn named_child(&self, graph: &mut ScopeGraph, typ: ScopeType, name: &str) -> (child: Scope)
        requires
            old(graph).wf(),
            old(graph).contains(*self),
        ensures
            final(graph).wf(),
            child.index == old(graph)@.len(),
            final(graph)@ == old(graph)@.push(
                child_view(
                    typ,
                    extended(old(graph)@[self.index as int].path, name@),
                    *self,
                    old(graph)@[self.index as int].code,
                ),
            ),
    {
        let new_path = graph.scopes[self.index].path.extend(PathSegment(name.to_owned()));
        let code = slot_clone(&graph.scopes[self.index].code);
        graph.push(
            ScopeInner { typ, path: new_path, items: buckets_new(), parent: Some(*self), code },
        )
    }

    /// Creates a child whose path is this scope's path with `name` appended
    /// and whose source is not set yet.
    pub fn named_child_without_code(
        &self,
        graph: &mut ScopeGraph,
        typ: ScopeType,
        name: &str,
    ) -> (child: Scope)
        requires
            old(graph).wf(),
            old(graph).contains(*self),
        ensures
            final(graph).wf(),
            child.index == old(graph)@.len(),
            final(graph)@ == old(graph)@.push(
                child_view(
                    typ,
                    extended(old(graph)@[self.index as int].path, name@),
                    *self,
                    None,
                ),
            ),
    {
        let new_path = graph.scopes[self.index].path.extend(PathSegment(name.to_owned()));
        graph.push(
            ScopeInner {
                typ,
                path: new_path,
                items: buckets_new(),
                parent: Some(*self),
                code: slot_new(),
            },
        )
    }

    /// Ties the scope to its source. This is done once: the scope must not
    /// have a source yet.
    pub fn set_code(&self, graph: &mut ScopeGraph, code: SourceId)
        requires
            old(graph).wf(),
            old(graph).contains(*self),
            old(graph)@[self.index as int].code is None,
        ensures
            final(graph).wf(),
            final(graph)@ == old(graph)@.update(
                self.index as int,
                ScopeView { code: Some(code), ..old(graph)@[self.index as int] },
            ),
    {
        let _ = slot_set(&mut graph.scopes[self.index].code, code);
        assert(graph@ =~= old(graph)@.update(
            self.index as int,
            ScopeView { code: Some(code), ..old(graph)@[self.index as int] },
        ));
        assert forall|i: int| 0 <= i < graph@.len() implies #[trigger] scope_wf(graph@, i) by {
            assert(scope_wf(old(graph)@, i));
        }
    }

    /// Where a registration under `key` would put `item`.
    fn placement(&self, graph: &ScopeGraph, key: &Option<String>, item: &NamedItem) -> (place:
        Placement)
        requires
            graph.wf(),
            graph.contains(*self),
        ensures
            placed(
                graph@[self.index as int].typ,
                graph@[self.index as int].items,
                key_view(*key),
                *item,
                place,
            ),
    {
        let inner = &graph.scopes[self.index];
        proof {
            assert(scope_wf(graph@, self.index as int));
        }
        let at = match buckets_get_index_of(&inner.items, key) {
            None => {
                return Placement::Open;
            },
            Some(at) => at,
        };
        proof {
            lemma_bucket_at(inner@.items, at as int);
        }
        if key.is_none() {
            return Placement::Append(at);
        }
        if inner.typ == ScopeType::Block {
            return Placement::Shadow(at);
        }
        match buckets_get_index(&inner.items, at) {
            Some((_, existing)) => {
                if !merge_allowed(existing, item) {
                    Placement::Refused
                } else {
                    match item {
                        NamedItem::Type(_, _, _) => Placement::Front(at),
                        _ => Placement::Append(at),
                    }
                }
            },
            None => Placement::Refused,
        }
    }

    /// Whether `item` can be registered under `name` as the scope is now.
    pub fn accepts(&self, graph: &ScopeGraph, name: Option<&str>, item: &NamedItem) -> (ok: bool)
        requires
            graph.wf(),
            graph.contains(*self),
        ensures
            ok == add_to(
                graph@[self.index as int].typ,
                graph@[self.index as int].items,
                name_view(name),
                *item,
            ) is Ok,
    {
        let key: Option<String> = match name {
            Some(text) => Some(text.to_owned()),
            None => None,
        };
        match self.placement(graph, &key, item) {
            Placement::Refused => false,
            _ => true,
        }
    }

    /// Registers `item` under `name`.
    ///
    /// An unnamed item is appended to the unnamed bucket. A name that is new
    /// to the scope opens a bucket behind those that exist. In a block a name
    /// that is taken is shadowed: the new item takes the place of the old.
    /// Elsewhere a name that is taken accepts only the merge of a type with
    /// its implementations, the type standing first; anything else is
    /// refused with the name, and the graph stays as it was.
    pub fn add_item(&self, graph: &mut ScopeGraph, name: Option<&str>, item: NamedItem) -> (result:
        Result<(), CodeErrorKind>)
        requires
            old(graph).wf(),
            old(graph).contains(*self),
            scoped_within(item, old(graph)@.len()),
        ensures
            final(graph).wf(),
            match add_to(
                old(graph)@[self.index as int].typ,
                old(graph)@[self.index as int].items,
                name_view(name),
                item,
            ) {
                Ok(items) => result is Ok && final(graph)@ == with_items(
                    old(graph)@,
                    self.index as int,
                    items,
                ),
                Err(taken) => result matches Err(CodeErrorKind::DuplicateName(refused))
                    && refused@ == taken && final(graph)@ == old(graph)@,
            },
    {
        let ghost before = graph@;
        let ghost old_items = before[self.index as int].items;
        let ghost typ = before[self.index as int].typ;
        let key: Option<String> = match name {
            Some(text) => Some(text.to_owned()),
            None => None,
        };
        proof {
            assert(scope_wf(before, self.index as int));
            if add_to(typ, old_items, name_view(name), item) is Ok {
                lemma_add_to_wf(before, self.index as int, name_view(name), item);
            }
        }
        let place = self.placement(graph, &key, &item);
        let at = match place {
            Placement::Open => {
                let mut entries: Vec<NamedItem> = Vec::new();
                entries.push(item);
                let _ = buckets_insert(&mut graph.scopes[self.index].items, key, entries);
                assert(graph@ =~= with_items(
                    before,
                    self.index as int,
                    old_items.push((name_view(name), seq![item])),
                ));
                return Ok(());
            },
            Placement::Refused => {
                return match name {
                    Some(text) => Err(CodeErrorKind::DuplicateName(text.to_owned())),
                    None => Ok(()),
                };
            },
            Placement::Append(at) => at,
            Placement::Shadow(at) => at,
            Placement::Front(at) => at,
        };
        assert(bucket_wf(typ, old_items[at as int]));
        match buckets_get_index_mut(&mut graph.scopes[self.index].items, at) {
            Some((_, existing)) => {
                match place {
                    Placement::Shadow(_) => {
                        existing.set(0, item);
                    },
                    Placement::Front(_) => {
                        existing.insert(0, item);
                        assert(existing@ =~= seq![item] + old_items[at as int].1);
                    },
                    _ => {
                        existing.push(item);
                    },
                }
            },
            None => {},
        }
        assert(graph@ =~= with_items(
            before,
            self.index as int,
            add_to(typ, old_items, name_view(name), item)->Ok_0,
        ));
        Ok(())
    }

    /// The outermost scope above this one.
    pub fn find_root(&self, graph: &ScopeGraph) -> (root: Scope)
        requires
            graph.wf(),
            graph.contains(*self),
        ensures
            root == root_of(graph@, *self),
            graph.contains(root),
            graph@[root.index as int].parent is None,
    {
        let mut current = *self;
        loop
            invariant
                graph.wf(),
                graph.contains(current),
                root_of(graph@, current) == root_of(graph@, *self),
            decreases current.index,
        {
            proof {
                assert(scope_wf(graph@, current.index as int));
            }
            match current.parent(graph) {
                Some(parent) => {
                    current = parent;
                },
                None => {
                    return current;
                },
            }
        }
    }

    /// The crate that the scope lies in: the nearest scope of kind `Crate`
    /// going up from this one, itself included.
    pub fn find_crate(&self, graph: &ScopeGraph) -> (found: Option<Scope>)
        requires
            graph.wf(),
            graph.contains(*self),
        ensures
            found == crate_of(graph@, *self),
            found matches Some(scope) ==> graph.contains(scope) && graph@[scope.index as int].typ
                == ScopeType::Crate,
    {
        let mut current = *self;
        loop
            invariant
                graph.wf(),
                graph.contains(current),
                crate_of(graph@, current) == crate_of(graph@, *self),
            decreases current.index,
        {
            proof {
                assert(scope_wf(graph@, current.index as int));
            }
            if current.typ(graph) == ScopeType::Crate {
                return Some(current);
            }
            match current.parent(graph) {
                Some(parent) => {
                    current = parent;
                },
                None => {
                    return None;
                },
            }
        }
    }

    /// The scope that `super` denotes here. Functions, types, blocks and the
    /// like are transparent: they answer as their parent does.
    pub fn find_super(&self, graph: &ScopeGraph) -> (found: Option<Scope>)
        requires
            graph.wf(),
            graph.contains(*self),
        ensures
            found == super_of(graph@, *self),
            found matches Some(scope) ==> graph.contains(scope),
        decreases self.index,
    {
        proof {
            assert(scope_wf(graph@, self.index as int));
        }
        match self.typ(graph) {
            ScopeType::Root => None,
            ScopeType::Crate => None,
            ScopeType::Module => self.parent(graph),
            _ => match self.parent(graph) {
                Some(parent) => parent.find_super(graph),
                None => None,
            },
        }
    }

    /// The innermost function or closure around this scope, itself
    /// included.
    pub fn find_containing_function(&self, graph: &ScopeGraph) -> (found: Option<Scope>)
        requires
            graph.wf(),
            graph.contains(*self),
        ensures
            found == function_of(graph@, *self),
            found matches Some(scope) ==> graph.contains(scope),
        decreases self.index,
    {
        proof {
            assert(scope_wf(graph@, self.index as int));
        }
        match self.typ(graph) {
            ScopeType::Closure => Some(*self),
            ScopeType::Function => Some(*self),
            _ => match self.parent(graph) {
                Some(parent) => parent.find_containing_function(graph),
                None => None,
            },
        }
    }

    /// The module registered under `name` in this scope.
    fn find_module(&self, graph: &ScopeGraph, name: &str) -> (found: Option<Scope>)
        requires
            graph.wf(),
            graph.contains(*self),
        ensures
            found == module_in(entries_of(graph@[self.index as int].items, Some(name@))),
            found matches Some(module) ==> graph.contains(module),
    {
        let inner = &graph.scopes[self.index];
        let key = Some(name.to_owned());
        proof {
            assert(scope_wf(graph@, self.index as int));
        }
        let at = match buckets_get_index_of(&inner.items, &key) {
            None => {
                return None;
            },
            Some(at) => at,
        };
        proof {
            lemma_bucket_at(inner@.items, at as int);
        }
        match buckets_get_index(&inner.items, at) {
            Some((_, entries)) => {
                let mut i: usize = 0;
                assert(entries@.skip(0) =~= entries@);
                assert forall|k: int| 0 <= k < entries@.len() implies scoped_within(
                    #[trigger] entries@[k],
                    graph@.len(),
                ) by {
                    assert(scoped_within(inner@.items[at as int].1[k], graph@.len()));
                }
                while i < entries.len()
                    invariant
                        i <= entries.len(),
                        graph.contains(*self),
                        entries@ == entries_of(graph@[self.index as int].items, Some(name@)),
                        module_in(entries@) == module_in(entries@.skip(i as int)),
                        forall|k: int|
                            0 <= k < entries@.len() ==> scoped_within(
                                #[trigger] entries@[k],
                                graph@.len(),
                            ),
                    decreases entries.len() - i,
                {
                    assert(entries@.skip(i as int).drop_first() =~= entries@.skip(i as int + 1));
                    match &entries[i] {
                        NamedItem::Module(module) => {
                            assert(scoped_within(entries@[i as int], graph@.len()));
                            return Some(*module);
                        },
                        _ => {},
                    }
                    i += 1;
                }
                None
            },
            None => None,
        }
    }

    /// The module that `path` names, created on the way where it does not
    /// exist yet.
    ///
    /// An absolute path is followed from the root above this scope, a
    /// relative one from this scope. Each segment leads into the module of
    /// that name; where there is none, one is created (a crate directly
    /// under a root) and registered. A segment whose name is taken by
    /// something that is no module, outside a block, ends the call with a
    /// duplicate-name error; the modules created up to there stay.
    pub fn ensure_module(&self, graph: &mut ScopeGraph, path: Path) -> (result: Result<
        Scope,
        CodeErrorKind,
    >)
        requires
            old(graph).wf(),
            old(graph).contains(*self),
        ensures
            final(graph).wf(),
            grown_from(old(graph)@, final(graph)@),
            final(graph)@ == ensure_module_model(old(graph)@, *self, path@).0,
            match ensure_module_model(old(graph)@, *self, path@).1 {
                Ok(module) => {
                    &&& result == Ok::<Scope, CodeErrorKind>(module)
                    &&& final(graph).contains(module)
                },
                Err(taken) => result matches Err(CodeErrorKind::DuplicateName(refused))
                    && refused@ == taken,
            },
    {
        let ghost segments = path@.segments;
        let start = if path.absolute {
            self.find_root(graph)
        } else {
            *self
        };
        let mut current = start;
        let mut i: usize = 0;
        assert(segments.skip(0) =~= segments);
        while i < path.segments.len()
            invariant
                graph.wf(),
                graph.contains(current),
                grown_from(old(graph)@, graph@),
                i <= path.segments.len(),
                segments == path@.segments,
                segments.len() == path.segments@.len(),
                forall|k: int| 0 <= k < segments.len() ==> segments[k] == path.segments@[k].0@,
                resolve(graph@, current, segments.skip(i as int)) == ensure_module_model(
                    old(graph)@,
                    *self,
                    path@,
                ),
            decreases path.segments.len() - i,
        {
            let name = path.segments[i].0.as_str();
            proof {
                assert(segments.skip(i as int)[0] == name@);
                assert(segments.skip(i as int).drop_first() =~= segments.skip(i as int + 1));
            }
            match current.find_module(graph, name) {
                Some(module) => {
                    current = module;
                },
                None => {
                    let typ = match current.parent(graph) {
                        None => ScopeType::Crate,
                        Some(_) => ScopeType::Module,
                    };
                    let item = NamedItem::Module(Scope { index: graph.len() });
                    if !current.accepts(graph, Some(name), &item) {
                        return Err(CodeErrorKind::DuplicateName(name.to_owned()));
                    }
                    let child = current.named_child_without_code(graph, typ, name);
                    let _ = current.add_item(graph, Some(name), item);
                    current = child;
                },
            }
            i += 1;
        }
        Ok(current)
    }

    /// Creates a child that keeps this scope's path and its source as it is
    /// now.
    pub fn anonymous_child(&self, graph: &mut ScopeGraph, typ: ScopeType) -> (child: Scope)
        requires
            old(graph).wf(),
            old(graph).contains(*self),
        ensures
            final(graph).wf(),
            child.index == old(graph)@.len(),
            final(graph)@ == old(graph)@.push(
                child_view(
                    typ,
                    old(graph)@[self.index as int].path,
                    *self,
                    old(graph)@[self.index as int].code,
                ),
            ),
    {
        let code = slot_clone(&graph.scopes[self.index].code);
        let path = self.path(graph);
        graph.push(ScopeInner { typ, path, items: buckets_new(), parent: Some(*self), code })
    }
}

} // verus!
