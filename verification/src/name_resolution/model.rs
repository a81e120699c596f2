//! The mathematical model of the scope graph: what a scope holds, when a
//! graph is well formed, and what registration, lookup and navigation mean.

use vstd::prelude::*;
use crate::name_resolution::path::PathView;
use crate::name_resolution::scope::{NamedItem, Scope, ScopeType};
use crate::parser::SourceId;

verus! {

/// The buckets of a scope in first-registration order: a name, or none for
/// the unnamed bucket, and the entries registered under it.
pub type Buckets = Seq<(Option<Seq<char>>, Seq<NamedItem>)>;

/// The mathematical value of one scope.
pub struct ScopeView {
    pub typ: ScopeType,
    pub path: PathView,
    pub items: Buckets,
    pub parent: Option<Scope>,
    pub code: Option<SourceId>,
}

/// The mathematical value of a scope graph: its scopes by handle.
pub type GraphView = Seq<ScopeView>;

/// Whether some bucket carries the name.
pub open spec fn has_bucket(items: Buckets, name: Option<Seq<char>>) -> bool {
    exists|i: int| 0 <= i < items.len() && (#[trigger] items[i]).0 == name
}

/// The position of a bucket that carries the name.
pub open spec fn bucket_index(items: Buckets, name: Option<Seq<char>>) -> int {
    choose|i: int| 0 <= i < items.len() && (#[trigger] items[i]).0 == name
}

/// The entries registered under the name, in order; none when the name is
/// unknown.
pub open spec fn entries_of(items: Buckets, name: Option<Seq<char>>) -> Seq<NamedItem> {
    if has_bucket(items, name) {
        items[bucket_index(items, name)].1
    } else {
        Seq::empty()
    }
}

/// No two buckets carry the same name.
pub open spec fn distinct_names(items: Buckets) -> bool {
    forall|i: int, j: int|
        0 <= i < j < items.len() ==> (#[trigger] items[i]).0 != (#[trigger] items[j]).0
}

/// The number of `Type` entries.
pub open spec fn count_types(entries: Seq<NamedItem>) -> nat
    decreases entries.len(),
{
    if entries.len() == 0 {
        0
    } else {
        count_types(entries.drop_last()) + if entries.last() is Type {
            1nat
        } else {
            0nat
        }
    }
}

/// The number of `Impl` entries.
pub open spec fn count_impls(entries: Seq<NamedItem>) -> nat
    decreases entries.len(),
{
    if entries.len() == 0 {
        0
    } else {
        count_impls(entries.drop_last()) + if entries.last() is Impl {
            1nat
        } else {
            0nat
        }
    }
}

/// The one case in which a name that is taken accepts another entry outside
/// a block: an implementation joins a type or other implementations, or the
/// type joins its implementations.
pub open spec fn merge_accepts(entries: Seq<NamedItem>, item: NamedItem) -> bool {
    ||| item is Impl && (count_types(entries) == 1 || count_impls(entries) > 0)
    ||| item is Type && count_types(entries) == 0 && count_impls(entries) > 0
}

/// The bucket after a merge: the type stands first, an implementation last.
pub open spec fn merged(entries: Seq<NamedItem>, item: NamedItem) -> Seq<NamedItem> {
    if item is Type {
        seq![item] + entries
    } else {
        entries.push(item)
    }
}

/// Registration of `item` under `name` in a scope of kind `typ`: the new
/// buckets, or the name that is refused.
pub open spec fn add_to(
    typ: ScopeType,
    items: Buckets,
    name: Option<Seq<char>>,
    item: NamedItem,
) -> Result<Buckets, Seq<char>> {
    if !has_bucket(items, name) {
        Ok(items.push((name, seq![item])))
    } else {
        let at = bucket_index(items, name);
        let entries = items[at].1;
        match name {
            None => Ok(items.update(at, (name, entries.push(item)))),
            Some(taken) => if typ is Block {
                Ok(items.update(at, (name, entries.update(0, item))))
            } else if merge_accepts(entries, item) {
                Ok(items.update(at, (name, merged(entries, item))))
            } else {
                Err(taken)
            },
        }
    }
}

/// A type, if there is one, comes first, and all else are implementations.
pub open spec fn type_then_impls(entries: Seq<NamedItem>) -> bool {
    &&& entries.len() > 0
    &&& entries[0] is Type || entries[0] is Impl
    &&& forall|k: int| 1 <= k < entries.len() ==> (#[trigger] entries[k]) is Impl
}

/// The shape of a bucket in a scope of kind `typ`: never empty; under a
/// name, a single entry, or outside blocks a type with its implementations.
pub open spec fn bucket_wf(typ: ScopeType, bucket: (Option<Seq<char>>, Seq<NamedItem>)) -> bool {
    &&& bucket.1.len() > 0
    &&& bucket.0 is Some ==> bucket.1.len() == 1 || (!(typ is Block) && type_then_impls(
        bucket.1,
    ))
}

/// The scope an item carries lies among the first `len` scopes.
pub open spec fn scoped_within(item: NamedItem, len: nat) -> bool {
    item.spec_scope() matches Some(inner) ==> inner.index < len
}

/// Scope `i` of the graph is well formed: its parent was created before it,
/// its buckets have distinct names and the shape their scope kind allows,
/// and the scopes its items carry exist.
pub open spec fn scope_wf(g: GraphView, i: int) -> bool {
    &&& g[i].parent matches Some(p) ==> p.index < i
    &&& distinct_names(g[i].items)
    &&& forall|b: int| 0 <= b < g[i].items.len() ==> bucket_wf(g[i].typ, #[trigger] g[i].items[b])
    &&& forall|b: int, k: int|
        0 <= b < g[i].items.len() && 0 <= k < g[i].items[b].1.len() ==> scoped_within(
            #[trigger] g[i].items[b].1[k],
            g.len(),
        )
}

/// Every scope of the graph is well formed.
pub open spec fn graph_wf(g: GraphView) -> bool {
    forall|i: int| 0 <= i < g.len() ==> #[trigger] scope_wf(g, i)
}

/// A bucket is found under its name at the place where it stands.
pub proof fn lemma_bucket_at(items: Buckets, at: int)
    requires
        distinct_names(items),
        0 <= at < items.len(),
    ensures
        has_bucket(items, items[at].0),
        bucket_index(items, items[at].0) == at,
        entries_of(items, items[at].0) == items[at].1,
{
    let found = bucket_index(items, items[at].0);
    assert(0 <= found < items.len() && items[found].0 == items[at].0);
    if found < at {
        assert(items[found].0 != items[at].0);
    } else if at < found {
        assert(items[at].0 != items[found].0);
    }
}

/// Counting over a bucket of implementations behind at most one type.
pub proof fn lemma_counts(entries: Seq<NamedItem>)
    requires
        type_then_impls(entries),
    ensures
        count_types(entries) == (if entries[0] is Type {
            1nat
        } else {
            0nat
        }),
        count_impls(entries) == (if entries[0] is Type {
            entries.len() - 1
        } else {
            entries.len() as int
        }),
    decreases entries.len(),
{
    if entries.len() > 1 {
        let front = entries.drop_last();
        assert forall|k: int| 1 <= k < front.len() implies (#[trigger] front[k]) is Impl by {
            assert(front[k] == entries[k]);
        }
        assert(front[0] == entries[0]);
        lemma_counts(front);
        assert(entries[entries.len() - 1] is Impl);
    } else {
        reveal_with_fuel(count_types, 2);
        reveal_with_fuel(count_impls, 2);
        assert(entries.drop_last().len() == 0);
    }
}

/// Registration keeps a well-formed graph well formed.
pub proof fn lemma_add_to_wf(g: GraphView, s: int, name: Option<Seq<char>>, item: NamedItem)
    requires
        graph_wf(g),
        0 <= s < g.len(),
        scoped_within(item, g.len()),
        add_to(g[s].typ, g[s].items, name, item) is Ok,
    ensures
        graph_wf(with_items(g, s, add_to(g[s].typ, g[s].items, name, item)->Ok_0)),
{
    let typ = g[s].typ;
    let old_items = g[s].items;
    let items = add_to(typ, old_items, name, item)->Ok_0;
    let g2 = with_items(g, s, items);
    assert(scope_wf(g, s));
    assert forall|i: int| 0 <= i < g2.len() implies #[trigger] scope_wf(g2, i) by {
        assert(scope_wf(g, i));
        if i == s {
            if !has_bucket(old_items, name) {
                assert forall|a: int, b: int| 0 <= a < b < items.len() implies (
                #[trigger] items[a]).0 != (#[trigger] items[b]).0 by {
                    if b == old_items.len() {
                        assert(old_items[a].0 != name);
                    }
                }
                assert forall|b: int| 0 <= b < items.len() implies bucket_wf(
                    typ,
                    #[trigger] items[b],
                ) by {
                    if b < old_items.len() {
                        assert(bucket_wf(typ, old_items[b]));
                    }
                }
                assert forall|b: int, k: int|
                    0 <= b < items.len() && 0 <= k < items[b].1.len() implies scoped_within(
                    #[trigger] items[b].1[k],
                    g2.len(),
                ) by {
                    if b < old_items.len() {
                        assert(scoped_within(old_items[b].1[k], g.len()));
                    }
                }
            } else {
                let at = bucket_index(old_items, name);
                let entries = old_items[at].1;
                let fresh = items[at].1;
                assert(bucket_wf(typ, old_items[at]));
                assert forall|a: int, b: int| 0 <= a < b < items.len() implies (
                #[trigger] items[a]).0 != (#[trigger] items[b]).0 by {
                    assert(old_items[a].0 != old_items[b].0);
                }
                assert(bucket_wf(typ, items[at])) by {
                    if name is Some && !(typ is Block) {
                        if entries.len() == 1 {
                            assert(entries.drop_last().len() == 0);
                            reveal_with_fuel(count_types, 2);
                            reveal_with_fuel(count_impls, 2);
                            assert(entries.last() == entries[0]);
                        } else {
                            lemma_counts(entries);
                        }
                        assert(type_then_impls(fresh));
                    }
                }
                assert forall|b: int| 0 <= b < items.len() implies bucket_wf(
                    typ,
                    #[trigger] items[b],
                ) by {
                    if b != at {
                        assert(bucket_wf(typ, old_items[b]));
                    }
                }
                assert forall|b: int, k: int|
                    0 <= b < items.len() && 0 <= k < items[b].1.len() implies scoped_within(
                    #[trigger] items[b].1[k],
                    g2.len(),
                ) by {
                    if b != at {
                        assert(scoped_within(old_items[b].1[k], g.len()));
                    } else if fresh[k] != item {
                        if item is Type && name is Some && !(typ is Block) {
                            assert(fresh[k] == entries[k - 1]);
                            assert(scoped_within(old_items[at].1[k - 1], g.len()));
                        } else {
                            assert(fresh[k] == entries[k]);
                            assert(scoped_within(old_items[at].1[k], g.len()));
                        }
                    }
                }
            }
        } else {
            assert(g2[i] == g[i]);
        }
    }
}

/// Every entry of every bucket with the name of its bucket, bucket after
/// bucket.
pub open spec fn flat_items(items: Buckets) -> Seq<(Option<Seq<char>>, NamedItem)>
    decreases items.len(),
{
    if items.len() == 0 {
        Seq::empty()
    } else {
        flat_items(items.drop_last()) + Seq::new(
            items.last().1.len(),
            |k: int| (items.last().0, items.last().1[k]),
        )
    }
}

/// The scope of the first `Module` entry.
pub open spec fn module_in(entries: Seq<NamedItem>) -> Option<Scope>
    decreases entries.len(),
{
    if entries.len() == 0 {
        None
    } else if entries[0] is Module {
        entries[0].spec_scope()
    } else {
        module_in(entries.drop_first())
    }
}

/// The module registered under `name` in scope `s`.
pub open spec fn module_at(g: GraphView, s: int, name: Seq<char>) -> Option<Scope> {
    module_in(entries_of(g[s].items, Some(name)))
}

/// The top of the parent chain of `s`.
pub open spec fn root_of(g: GraphView, s: Scope) -> Scope
    decreases s.index,
{
    match g[s.index as int].parent {
        Some(p) => if p.index < s.index {
            root_of(g, p)
        } else {
            s
        },
        None => s,
    }
}

/// The nearest scope of kind `Crate` on the parent chain of `s`, `s`
/// included.
pub open spec fn crate_of(g: GraphView, s: Scope) -> Option<Scope>
    decreases s.index,
{
    if g[s.index as int].typ is Crate {
        Some(s)
    } else {
        match g[s.index as int].parent {
            Some(p) => if p.index < s.index {
                crate_of(g, p)
            } else {
                None
            },
            None => None,
        }
    }
}

/// The scope that `super` means in `s`: none in a root or a crate, the
/// parent of a module, and for every other kind what it means in the parent.
pub open spec fn super_of(g: GraphView, s: Scope) -> Option<Scope>
    decreases s.index,
{
    match g[s.index as int].typ {
        ScopeType::Root => None,
        ScopeType::Crate => None,
        ScopeType::Module => g[s.index as int].parent,
        _ => match g[s.index as int].parent {
            Some(p) => if p.index < s.index {
                super_of(g, p)
            } else {
                None
            },
            None => None,
        },
    }
}

/// The nearest function or closure on the parent chain of `s`, `s`
/// included.
pub open spec fn function_of(g: GraphView, s: Scope) -> Option<Scope>
    decreases s.index,
{
    match g[s.index as int].typ {
        ScopeType::Closure => Some(s),
        ScopeType::Function => Some(s),
        _ => match g[s.index as int].parent {
            Some(p) => if p.index < s.index {
                function_of(g, p)
            } else {
                None
            },
            None => None,
        },
    }
}

/// Module resolution along `segments` from scope `s`: the graph afterwards
/// and the module reached, or the name that could not be registered.
///
/// A segment that names a module of the current scope leads into it. Any
/// other segment creates a module there, a crate directly under a root, and
/// registers it; where the name is refused, resolution ends and the graph
/// keeps the modules created for the segments before.
pub open spec fn resolve(g: GraphView, s: Scope, segments: Seq<Seq<char>>) -> (GraphView, Result<
    Scope,
    Seq<char>,
>)
    decreases segments.len(),
{
    if segments.len() == 0 {
        (g, Ok(s))
    } else {
        let name = segments[0];
        let here = g[s.index as int];
        match module_at(g, s.index as int, name) {
            Some(module) => resolve(g, module, segments.drop_first()),
            None => {
                let typ = if here.parent is None {
                    ScopeType::Crate
                } else {
                    ScopeType::Module
                };
                let child = Scope { index: g.len() as usize };
                let grown = g.push(child_view(typ, extended(here.path, name), s, None));
                match add_to(here.typ, here.items, Some(name), NamedItem::Module(child)) {
                    Ok(items) => resolve(
                        with_items(grown, s.index as int, items),
                        child,
                        segments.drop_first(),
                    ),
                    Err(taken) => (g, Err(taken)),
                }
            },
        }
    }
}

/// Module resolution of a path: an absolute path is resolved from the root
/// above `s`, a relative one from `s`.
pub open spec fn ensure_module_model(g: GraphView, s: Scope, path: PathView) -> (GraphView, Result<
    Scope,
    Seq<char>,
>) {
    if path.absolute {
        resolve(g, root_of(g, s), path.segments)
    } else {
        resolve(g, s, path.segments)
    }
}

/// `later` has every scope of `earlier`, each with the kind, path, parent
/// and source it had: only items were registered and scopes created.
pub open spec fn grown_from(earlier: GraphView, later: GraphView) -> bool {
    &&& earlier.len() <= later.len()
    &&& forall|i: int|
        0 <= i < earlier.len() ==> {
            &&& (#[trigger] later[i]).typ == earlier[i].typ
            &&& later[i].path == earlier[i].path
            &&& later[i].parent == earlier[i].parent
            &&& later[i].code == earlier[i].code
        }
}

/// Every scope that an item carries was created after the scope in which
/// the item is registered.
pub open spec fn nested(g: GraphView) -> bool {
    forall|s: int, b: int, k: int|
        0 <= s < g.len() && 0 <= b < g[s].items.len() && 0 <= k < g[s].items[b].1.len() ==> (
        (#[trigger] g[s].items[b].1[k]).spec_scope() matches Some(inner) ==> s < inner.index)
}

/// The graph with the buckets of scope `s` replaced.
pub open spec fn with_items(g: GraphView, s: int, items: Buckets) -> GraphView {
    g.update(s, ScopeView { items, ..g[s] })
}

/// A scope as it is when created under `parent`.
pub open spec fn child_view(
    typ: ScopeType,
    path: PathView,
    parent: Scope,
    code: Option<SourceId>,
) -> ScopeView {
    ScopeView { typ, path, items: Seq::empty(), parent: Some(parent), code }
}

/// A path with one more segment.
pub open spec fn extended(path: PathView, name: Seq<char>) -> PathView {
    PathView { absolute: path.absolute, segments: path.segments.push(name) }
}

} // verus!
