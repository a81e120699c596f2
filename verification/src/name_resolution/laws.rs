//! What holds of registration, module resolution and navigation in every
//! well-formed scope graph.

use vstd::prelude::*;
use crate::name_resolution::model::{
    add_to, bucket_index, bucket_wf, child_view, count_impls, count_types, distinct_names,
    ensure_module_model, entries_of, extended, function_of, graph_wf, has_bucket,
    lemma_add_to_wf, lemma_bucket_at, merge_accepts, module_at, module_in, resolve, root_of,
    scope_wf, scoped_within, super_of, with_items, Buckets, GraphView,
};
use crate::name_resolution::path::PathView;
use crate::name_resolution::scope::{NamedItem, Scope, ScopeType};

verus! {

/// `later` keeps what `earlier` has: every scope of `earlier` is there with
/// the same kind and parent, and every module that a name led to in
/// `earlier` is what the name leads to in `later`.
pub open spec fn keeps(earlier: GraphView, later: GraphView) -> bool {
    &&& earlier.len() <= later.len()
    &&& forall|i: int|
        0 <= i < earlier.len() ==> (#[trigger] later[i]).parent == earlier[i].parent && later[i].typ
            == earlier[i].typ
    &&& forall|i: int, name: Seq<char>|
        0 <= i < earlier.len() && module_at(earlier, i, name) is Some ==> #[trigger] module_at(
            later,
            i,
            name,
        ) == module_at(earlier, i, name)
}

/// The entries under a name other than the one registered stay as they
/// were.
pub proof fn lemma_add_to_other_names(
    typ: ScopeType,
    items: Buckets,
    name: Option<Seq<char>>,
    item: NamedItem,
    other: Option<Seq<char>>,
)
    requires
        distinct_names(items),
        add_to(typ, items, name, item) is Ok,
        distinct_names(add_to(typ, items, name, item)->Ok_0),
        other != name,
    ensures
        entries_of(add_to(typ, items, name, item)->Ok_0, other) == entries_of(items, other),
{
    let after = add_to(typ, items, name, item)->Ok_0;
    if has_bucket(items, other) {
        let j = bucket_index(items, other);
        assert(after[j] == items[j]);
        lemma_bucket_at(after, j);
    } else {
        if has_bucket(after, other) {
            let j = bucket_index(after, other);
            if j < items.len() {
                assert(items[j].0 == other);
            }
        }
    }
}

/// After a registration the item stands in the bucket of its name: alone
/// in a new bucket or in a block, first if it is a merged type, else last.
pub proof fn lemma_add_to_own_name(
    typ: ScopeType,
    items: Buckets,
    name: Option<Seq<char>>,
    item: NamedItem,
)
    requires
        distinct_names(items),
        add_to(typ, items, name, item) is Ok,
        distinct_names(add_to(typ, items, name, item)->Ok_0),
    ensures
        has_bucket(add_to(typ, items, name, item)->Ok_0, name),
        entries_of(add_to(typ, items, name, item)->Ok_0, name) == (if !has_bucket(items, name) {
            seq![item]
        } else if name is None {
            entries_of(items, name).push(item)
        } else if typ is Block {
            entries_of(items, name).update(0, item)
        } else if item is Type {
            seq![item] + entries_of(items, name)
        } else {
            entries_of(items, name).push(item)
        }),
{
    let after = add_to(typ, items, name, item)->Ok_0;
    if has_bucket(items, name) {
        let at = bucket_index(items, name);
        lemma_bucket_at(after, at);
    } else {
        lemma_bucket_at(after, items.len() as int);
    }
}

/// The module that a bucket yields is a scope that one of its entries
/// carries.
pub proof fn lemma_module_in_scoped(entries: Seq<NamedItem>, len: nat)
    requires
        forall|k: int| 0 <= k < entries.len() ==> scoped_within(#[trigger] entries[k], len),
    ensures
        module_in(entries) matches Some(module) ==> module.index < len,
    decreases entries.len(),
{
    if entries.len() > 0 {
        assert(scoped_within(entries[0], len));
        let rest = entries.drop_first();
        assert forall|k: int| 0 <= k < rest.len() implies scoped_within(#[trigger] rest[k], len) by {
            assert(rest[k] == entries[k + 1]);
        }
        lemma_module_in_scoped(rest, len);
    }
}

/// A module that a name leads to in a well-formed graph is a scope of the
/// graph.
pub proof fn lemma_module_at_valid(g: GraphView, s: int, name: Seq<char>)
    requires
        graph_wf(g),
        0 <= s < g.len(),
    ensures
        module_at(g, s, name) matches Some(module) ==> module.index < g.len(),
{
    assert(scope_wf(g, s));
    let items = g[s].items;
    if has_bucket(items, Some(name)) {
        let at = bucket_index(items, Some(name));
        assert forall|k: int| 0 <= k < items[at].1.len() implies scoped_within(
            #[trigger] items[at].1[k],
            g.len(),
        ) by {}
        lemma_module_in_scoped(items[at].1, g.len());
    }
}

/// One step of module resolution that creates a module: the graph stays
/// well formed, keeps what it had, and the name now leads to the new module.
pub proof fn lemma_create_module(g: GraphView, s: Scope, name: Seq<char>, typ: ScopeType)
    requires
        graph_wf(g),
        s.index < g.len(),
        g.len() < usize::MAX,
        module_at(g, s.index as int, name) is None,
        add_to(
            g[s.index as int].typ,
            g[s.index as int].items,
            Some(name),
            NamedItem::Module(Scope { index: g.len() as usize }),
        ) is Ok,
    ensures
        ({
            let here = g[s.index as int];
            let child = Scope { index: g.len() as usize };
            let items = add_to(here.typ, here.items, Some(name), NamedItem::Module(child))->Ok_0;
            let grown = g.push(child_view(typ, extended(here.path, name), s, None));
            let after = with_items(grown, s.index as int, items);
            &&& graph_wf(after)
            &&& keeps(g, after)
            &&& module_at(after, s.index as int, name) == Some(child)
            &&& child.index < after.len()
        }),
{
    let here = g[s.index as int];
    let child = Scope { index: g.len() as usize };
    let item = NamedItem::Module(child);
    let items = add_to(here.typ, here.items, Some(name), item)->Ok_0;
    let grown = g.push(child_view(typ, extended(here.path, name), s, None));
    let after = with_items(grown, s.index as int, items);
    assert(scope_wf(g, s.index as int));
    assert forall|i: int| 0 <= i < grown.len() implies #[trigger] scope_wf(grown, i) by {
        if i < g.len() {
            assert(scope_wf(g, i));
        }
    }
    lemma_add_to_wf(grown, s.index as int, Some(name), item);
    assert(scope_wf(after, s.index as int));
    lemma_add_to_own_name(here.typ, here.items, Some(name), item);
    assert(entries_of(items, Some(name))[0] == item) by {
        if has_bucket(here.items, Some(name)) {
            let at = bucket_index(here.items, Some(name));
            assert(bucket_wf(here.typ, here.items[at]));
            assert(!merge_accepts(here.items[at].1, item));
        }
    }
    assert forall|i: int, other: Seq<char>|
        0 <= i < g.len() && module_at(g, i, other) is Some implies #[trigger] module_at(
        after,
        i,
        other,
    ) == module_at(g, i, other) by {
        if i == s.index {
            lemma_add_to_other_names(here.typ, here.items, Some(name), item, Some(other));
        }
    }
}

/// Keeping is transitive.
pub proof fn lemma_keeps_trans(a: GraphView, b: GraphView, c: GraphView)
    requires
        keeps(a, b),
        keeps(b, c),
    ensures
        keeps(a, c),
{
    assert forall|i: int, name: Seq<char>|
        0 <= i < a.len() && module_at(a, i, name) is Some implies #[trigger] module_at(c, i, name)
        == module_at(a, i, name) by {
        assert(module_at(b, i, name) == module_at(a, i, name));
    }
    assert forall|i: int| 0 <= i < a.len() implies (#[trigger] c[i]).parent == a[i].parent && c[i].typ
        == a[i].typ by {
        assert(b[i].parent == a[i].parent);
    }
}

/// Module resolution keeps the graph well formed, keeps what the graph
/// had, and answers with a scope of the graph.
pub proof fn law_resolve_keeps(g: GraphView, s: Scope, segments: Seq<Seq<char>>)
    requires
        graph_wf(g),
        s.index < g.len(),
        g.len() + segments.len() < usize::MAX,
    ensures
        graph_wf(resolve(g, s, segments).0),
        keeps(g, resolve(g, s, segments).0),
        resolve(g, s, segments).0.len() <= g.len() + segments.len(),
        resolve(g, s, segments).1 matches Ok(module) ==> module.index < resolve(
            g,
            s,
            segments,
        ).0.len(),
    decreases segments.len(),
{
    if segments.len() > 0 {
        let name = segments[0];
        let rest = segments.drop_first();
        let here = g[s.index as int];
        match module_at(g, s.index as int, name) {
            Some(module) => {
                lemma_module_at_valid(g, s.index as int, name);
                law_resolve_keeps(g, module, rest);
            },
            None => {
                let typ = if here.parent is None {
                    ScopeType::Crate
                } else {
                    ScopeType::Module
                };
                let child = Scope { index: g.len() as usize };
                match add_to(here.typ, here.items, Some(name), NamedItem::Module(child)) {
                    Ok(items) => {
                        let grown = g.push(child_view(typ, extended(here.path, name), s, None));
                        let after = with_items(grown, s.index as int, items);
                        lemma_create_module(g, s, name, typ);
                        law_resolve_keeps(after, child, rest);
                        lemma_keeps_trans(g, after, resolve(after, child, rest).0);
                    },
                    Err(_) => {},
                }
            },
        }
    }
}

/// Resolving the same segments again from the same scope leaves the graph
/// as the first resolution left it and gives the same answer: the same
/// scope, or the same refusal.
pub proof fn law_resolve_twice(g: GraphView, s: Scope, segments: Seq<Seq<char>>)
    requires
        graph_wf(g),
        s.index < g.len(),
        g.len() + segments.len() < usize::MAX,
    ensures
        resolve(resolve(g, s, segments).0, s, segments) == resolve(g, s, segments),
    decreases segments.len(),
{
    if segments.len() > 0 {
        let name = segments[0];
        let rest = segments.drop_first();
        let here = g[s.index as int];
        match module_at(g, s.index as int, name) {
            Some(module) => {
                lemma_module_at_valid(g, s.index as int, name);
                law_resolve_keeps(g, module, rest);
                law_resolve_twice(g, module, rest);
                assert(module_at(resolve(g, module, rest).0, s.index as int, name) == Some(module));
            },
            None => {
                let typ = if here.parent is None {
                    ScopeType::Crate
                } else {
                    ScopeType::Module
                };
                let child = Scope { index: g.len() as usize };
                match add_to(here.typ, here.items, Some(name), NamedItem::Module(child)) {
                    Ok(items) => {
                        let grown = g.push(child_view(typ, extended(here.path, name), s, None));
                        let after = with_items(grown, s.index as int, items);
                        lemma_create_module(g, s, name, typ);
                        law_resolve_keeps(after, child, rest);
                        law_resolve_twice(after, child, rest);
                        assert(module_at(resolve(after, child, rest).0, s.index as int, name)
                            == Some(child));
                    },
                    Err(_) => {},
                }
            },
        }
    }
}

/// The root above a scope stays its root in a graph that keeps the old one.
pub proof fn lemma_root_kept(earlier: GraphView, later: GraphView, s: Scope)
    requires
        graph_wf(earlier),
        keeps(earlier, later),
        s.index < earlier.len(),
    ensures
        root_of(later, s) == root_of(earlier, s),
        root_of(earlier, s).index < earlier.len(),
    decreases s.index,
{
    assert(scope_wf(earlier, s.index as int));
    assert(later[s.index as int].parent == earlier[s.index as int].parent);
    match earlier[s.index as int].parent {
        Some(p) => {
            lemma_root_kept(earlier, later, p);
        },
        None => {},
    }
}

/// Calling `ensure_module` twice with the same path from the same scope
/// gives the same scope both times, and the second call changes nothing.
pub proof fn law_ensure_module_twice(g: GraphView, s: Scope, path: PathView)
    requires
        graph_wf(g),
        s.index < g.len(),
        g.len() + path.segments.len() < usize::MAX,
    ensures
        ensure_module_model(ensure_module_model(g, s, path).0, s, path) == ensure_module_model(
            g,
            s,
            path,
        ),
{
    if path.absolute {
        let root = root_of(g, s);
        lemma_root_kept(g, g, s);
        law_resolve_keeps(g, root, path.segments);
        lemma_root_kept(g, resolve(g, root, path.segments).0, s);
        law_resolve_twice(g, root, path.segments);
    } else {
        law_resolve_twice(g, s, path.segments);
    }
}

/// An absolute path is resolved as the same path without its absolute flag
/// is resolved from the root.
pub proof fn law_absolute_is_from_root(g: GraphView, s: Scope, path: PathView)
    requires
        graph_wf(g),
        s.index < g.len(),
        path.absolute,
    ensures
        ensure_module_model(g, s, path) == ensure_module_model(
            g,
            root_of(g, s),
            PathView { absolute: false, segments: path.segments },
        ),
{
}

/// In a block a name holds one entry, the one registered last: after two
/// registrations under a name only the second is there.
pub proof fn law_block_shadows(items: Buckets, name: Seq<char>, first: NamedItem, second: NamedItem)
    requires
        distinct_names(items),
        forall|b: int| 0 <= b < items.len() ==> bucket_wf(ScopeType::Block, #[trigger] items[b]),
    ensures
        ({
            let once = add_to(ScopeType::Block, items, Some(name), first);
            let twice = add_to(ScopeType::Block, once->Ok_0, Some(name), second);
            &&& once is Ok
            &&& twice is Ok
            &&& entries_of(twice->Ok_0, Some(name)) == seq![second]
        }),
{
    let once = add_to(ScopeType::Block, items, Some(name), first)->Ok_0;
    lemma_block_names(items, name, first);
    lemma_add_to_own_name(ScopeType::Block, items, Some(name), first);
    if has_bucket(items, Some(name)) {
        assert(bucket_wf(ScopeType::Block, items[bucket_index(items, Some(name))]));
    }
    assert(entries_of(once, Some(name)) =~= seq![first]);
    let twice = add_to(ScopeType::Block, once, Some(name), second)->Ok_0;
    lemma_block_names(once, name, second);
    lemma_add_to_own_name(ScopeType::Block, once, Some(name), second);
    assert(entries_of(twice, Some(name)) =~= seq![second]);
}

/// Registration in a block keeps the names of the buckets distinct.
proof fn lemma_block_names(items: Buckets, name: Seq<char>, item: NamedItem)
    requires
        distinct_names(items),
    ensures
        add_to(ScopeType::Block, items, Some(name), item) is Ok,
        distinct_names(add_to(ScopeType::Block, items, Some(name), item)->Ok_0),
{
    let after = add_to(ScopeType::Block, items, Some(name), item)->Ok_0;
    assert forall|a: int, b: int| 0 <= a < b < after.len() implies (#[trigger] after[a]).0 != (
    #[trigger] after[b]).0 by {
        if has_bucket(items, Some(name)) {
            assert(items[a].0 != items[b].0);
        } else if b == items.len() {
            assert(items[a].0 != Some(name));
        } else {
            assert(items[a].0 != items[b].0);
        }
    }
}

/// Outside a block a type and an implementation registered under a new
/// name share its bucket, the type first, in whichever order they came.
pub proof fn law_type_before_impl(
    typ: ScopeType,
    items: Buckets,
    name: Seq<char>,
    ty: NamedItem,
    implementation: NamedItem,
)
    requires
        distinct_names(items),
        !has_bucket(items, Some(name)),
        !(typ is Block),
        ty is Type,
        implementation is Impl,
    ensures
        ({
            let once = add_to(typ, items, Some(name), ty);
            let twice = add_to(typ, once->Ok_0, Some(name), implementation);
            &&& once is Ok
            &&& twice is Ok
            &&& entries_of(twice->Ok_0, Some(name)) == seq![ty, implementation]
        }),
        ({
            let once = add_to(typ, items, Some(name), implementation);
            let twice = add_to(typ, once->Ok_0, Some(name), ty);
            &&& once is Ok
            &&& twice is Ok
            &&& entries_of(twice->Ok_0, Some(name)) == seq![ty, implementation]
        }),
{
    lemma_pair(typ, items, name, ty, implementation);
    lemma_pair(typ, items, name, implementation, ty);
}

/// The two registrations of `law_type_before_impl`, in one order.
proof fn lemma_pair(
    typ: ScopeType,
    items: Buckets,
    name: Seq<char>,
    first: NamedItem,
    second: NamedItem,
)
    requires
        distinct_names(items),
        !has_bucket(items, Some(name)),
        !(typ is Block),
        (first is Type && second is Impl) || (first is Impl && second is Type),
    ensures
        ({
            let once = add_to(typ, items, Some(name), first);
            let twice = add_to(typ, once->Ok_0, Some(name), second);
            &&& once is Ok
            &&& twice is Ok
            &&& entries_of(twice->Ok_0, Some(name)) == (if first is Type {
                seq![first, second]
            } else {
                seq![second, first]
            })
        }),
{
    let once = items.push((Some(name), seq![first]));
    let at = items.len() as int;
    assert forall|a: int, b: int| 0 <= a < b < once.len() implies (#[trigger] once[a]).0 != (
    #[trigger] once[b]).0 by {
        if b == at {
            assert(items[a].0 != Some(name));
        } else {
            assert(items[a].0 != items[b].0);
        }
    }
    lemma_bucket_at(once, at);
    let entries = seq![first];
    assert(entries.drop_last() =~= Seq::<NamedItem>::empty());
    assert(entries.last() == first);
    reveal_with_fuel(count_types, 2);
    reveal_with_fuel(count_impls, 2);
    assert(merge_accepts(entries, second));
    let twice = add_to(typ, once, Some(name), second)->Ok_0;
    assert forall|a: int, b: int| 0 <= a < b < twice.len() implies (#[trigger] twice[a]).0 != (
    #[trigger] twice[b]).0 by {
        assert(once[a].0 != once[b].0);
    }
    lemma_bucket_at(twice, at);
    if first is Type {
        assert(twice[at].1 =~= seq![first, second]);
    } else {
        assert(twice[at].1 =~= seq![second, first]);
    }
}

/// Outside a block a name that is taken refuses whatever is neither a type
/// nor an implementation: a second function, a second constant and the like
/// end in a duplicate-name error that carries the name.
pub proof fn law_duplicate_refused(
    typ: ScopeType,
    items: Buckets,
    name: Seq<char>,
    first: NamedItem,
    second: NamedItem,
)
    requires
        distinct_names(items),
        !(typ is Block),
        !(second is Type),
        !(second is Impl),
        add_to(typ, items, Some(name), first) is Ok,
    ensures
        add_to(typ, add_to(typ, items, Some(name), first)->Ok_0, Some(name), second) == Err::<
            Buckets,
            Seq<char>,
        >(name),
{
    let once = add_to(typ, items, Some(name), first)->Ok_0;
    if has_bucket(items, Some(name)) {
        let at = bucket_index(items, Some(name));
        assert(once[at].0 == Some(name));
    } else {
        assert(once[items.len() as int].0 == Some(name));
    }
}

/// Every kind but root, crate and module is transparent to `super`: such a
/// scope answers as its parent does.
pub proof fn law_super_transparent(g: GraphView, s: Scope)
    requires
        graph_wf(g),
        s.index < g.len(),
        !(g[s.index as int].typ is Root),
        !(g[s.index as int].typ is Crate),
        !(g[s.index as int].typ is Module),
        g[s.index as int].parent is Some,
    ensures
        super_of(g, s) == super_of(g, g[s.index as int].parent.unwrap()),
{
    assert(scope_wf(g, s.index as int));
}

/// From a block in a function in a module, `super` is the parent of the
/// module.
pub proof fn law_super_of_nested_block(g: GraphView, block: Scope, function: Scope, module: Scope)
    requires
        graph_wf(g),
        block.index < g.len(),
        g[block.index as int].typ is Block,
        g[block.index as int].parent == Some(function),
        g[function.index as int].typ is Function,
        g[function.index as int].parent == Some(module),
        g[module.index as int].typ is Module,
    ensures
        super_of(g, block) == g[module.index as int].parent,
{
    assert(scope_wf(g, block.index as int));
    assert(scope_wf(g, function.index as int));
    reveal_with_fuel(super_of, 3);
}

/// The containing function is the nearest one: a function or closure is
/// its own, and any other scope answers as its parent does.
pub proof fn law_nearest_function(g: GraphView, s: Scope)
    requires
        graph_wf(g),
        s.index < g.len(),
    ensures
        g[s.index as int].typ is Function || g[s.index as int].typ is Closure ==> function_of(g, s)
            == Some(s),
        !(g[s.index as int].typ is Function) && !(g[s.index as int].typ is Closure) ==> function_of(
            g,
            s,
        ) == (match g[s.index as int].parent {
            Some(p) => function_of(g, p),
            None => None,
        }),
{
    assert(scope_wf(g, s.index as int));
}

/// From a block in a closure in a function, the containing function is the
/// closure, not the function around it.
pub proof fn law_function_of_nested_block(
    g: GraphView,
    block: Scope,
    closure: Scope,
    function: Scope,
)
    requires
        graph_wf(g),
        block.index < g.len(),
        g[block.index as int].typ is Block,
        g[block.index as int].parent == Some(closure),
        g[closure.index as int].typ is Closure,
        g[closure.index as int].parent == Some(function),
        g[function.index as int].typ is Function,
    ensures
        function_of(g, block) == Some(closure),
{
    assert(scope_wf(g, block.index as int));
    reveal_with_fuel(function_of, 2);
}

} // verus!
