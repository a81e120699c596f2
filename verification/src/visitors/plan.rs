//! The order of the maker's work: which buckets of a scope graph declare an
//! item to make, and in which order they are taken.

use vstd::prelude::*;
use crate::ast::ItemP;
use crate::name_resolution::model::{bucket_wf, nested, scope_wf, scoped_within, GraphView};
use crate::name_resolution::scope::{NamedItem, Scope, ScopeGraph};
use crate::parser::Node;

verus! {

/// The shapes of a bucket that the maker tells apart.
#[derive(Debug, Clone, Copy)]
pub enum Shape {
    /// A module alone: its scope.
    Module(Scope),
    /// A type with one implementation: the type's symbol and scope, and the
    /// scope of the implementation.
    TypeWithImpl(ItemP, Scope, Scope),
    /// A type alone: its symbol and scope.
    Type(ItemP, Scope),
    /// A function alone: its symbol and scope.
    Function(ItemP, Scope),
    /// Anything else. The maker passes it by.
    Other,
}

/// The shape of a bucket.
pub open spec fn shape_of(group: Seq<NamedItem>) -> Shape {
    if group.len() == 1 {
        match group[0] {
            NamedItem::Module(module) => Shape::Module(module),
            NamedItem::Type(symbol, _, scope) => Shape::Type(symbol, scope),
            NamedItem::Function(symbol, _, scope) => Shape::Function(symbol, scope),
            _ => Shape::Other,
        }
    } else if group.len() == 2 {
        match group[0] {
            NamedItem::Type(symbol, _, scope) => match group[1] {
                NamedItem::Impl(_, implementation) => Shape::TypeWithImpl(
                    symbol,
                    scope,
                    implementation,
                ),
                _ => Shape::Other,
            },
            _ => Shape::Other,
        }
    } else {
        Shape::Other
    }
}

/// One item to make: the bucket that declares it, given by the scope that
/// owns the bucket and the bucket's position, whether it is a type or a
/// function, its symbol and scope, and the scope of the implementation
/// paired with a type.
#[derive(Debug, Clone, Copy)]
pub struct Task {
    pub owner: Scope,
    pub bucket: usize,
    pub is_type: bool,
    pub symbol: ItemP,
    pub scope: Scope,
    pub impl_scope: Option<Scope>,
}

/// The items to make for the buckets of scope `s` from position `from` on,
/// in the order in which the maker makes them.
///
/// A module is entered. A type paired with an implementation is made, then
/// the implementation is entered. A type alone and a function alone are
/// made. Every other bucket is passed by. A scope is entered only if it was
/// created after the scope that holds it.
pub open spec fn plan_from(g: GraphView, s: Scope, from: int) -> Seq<Task>
    decreases g.len() - s.index, g[s.index as int].items.len() - from,
{
    if s.index >= g.len() || from < 0 || from >= g[s.index as int].items.len() {
        Seq::empty()
    } else {
        let rest = plan_from(g, s, from + 1);
        match shape_of(g[s.index as int].items[from].1) {
            Shape::Module(module) => (if s.index < module.index < g.len() {
                plan_from(g, module, 0)
            } else {
                Seq::empty()
            }) + rest,
            Shape::TypeWithImpl(symbol, scope, implementation) => seq![
                Task {
                    owner: s,
                    bucket: from as usize,
                    is_type: true,
                    symbol,
                    scope,
                    impl_scope: Some(implementation),
                },
            ] + (if s.index < implementation.index < g.len() {
                plan_from(g, implementation, 0)
            } else {
                Seq::empty()
            }) + rest,
            Shape::Type(symbol, scope) => seq![
                Task {
                    owner: s,
                    bucket: from as usize,
                    is_type: true,
                    symbol,
                    scope,
                    impl_scope: None,
                },
            ] + rest,
            Shape::Function(symbol, scope) => seq![
                Task {
                    owner: s,
                    bucket: from as usize,
                    is_type: false,
                    symbol,
                    scope,
                    impl_scope: None,
                },
            ] + rest,
            Shape::Other => rest,
        }
    }
}

/// The items to make for scope `s` and all that lies in it.
pub open spec fn plan(g: GraphView, s: Scope) -> Seq<Task> {
    plan_from(g, s, 0)
}

/// The shape that the bucket of a task has.
pub open spec fn task_shape(task: Task) -> Shape {
    if task.is_type {
        match task.impl_scope {
            Some(implementation) => Shape::TypeWithImpl(task.symbol, task.scope, implementation),
            None => Shape::Type(task.symbol, task.scope),
        }
    } else {
        Shape::Function(task.symbol, task.scope)
    }
}

/// The task points at a bucket of the graph that has the task's shape, and
/// its scopes are scopes of the graph.
pub open spec fn task_fits(g: GraphView, task: Task) -> bool {
    &&& task.owner.index < g.len()
    &&& task.bucket < g[task.owner.index as int].items.len()
    &&& shape_of(g[task.owner.index as int].items[task.bucket as int].1) == task_shape(task)
    &&& task.scope.index < g.len()
    &&& task.impl_scope matches Some(implementation) ==> implementation.index < g.len()
}

/// The syntax node of the declaration that a task stands for.
pub open spec fn task_node(g: GraphView, task: Task) -> Node {
    match g[task.owner.index as int].items[task.bucket as int].1[0] {
        NamedItem::Type(_, node, _) => node,
        NamedItem::Function(_, node, _) => node,
        _ => arbitrary(),
    }
}

/// The shape of a bucket.
pub fn classify(group: &[NamedItem]) -> (shape: Shape)
    ensures
        shape == shape_of(group@),
{
    if group.len() == 1 {
        match &group[0] {
            NamedItem::Module(module) => Shape::Module(*module),
            NamedItem::Type(symbol, _, scope) => Shape::Type(*symbol, *scope),
            NamedItem::Function(symbol, _, scope) => Shape::Function(*symbol, *scope),
            _ => Shape::Other,
        }
    } else if group.len() == 2 {
        match &group[0] {
            NamedItem::Type(symbol, _, scope) => match &group[1] {
                NamedItem::Impl(_, implementation) => Shape::TypeWithImpl(
                    *symbol,
                    *scope,
                    *implementation,
                ),
                _ => Shape::Other,
            },
            _ => Shape::Other,
        }
    } else {
        Shape::Other
    }
}

/// Appends to `tasks` the items to make for `scope` and all that lies in
/// it.
pub(crate) fn collect(graph: &ScopeGraph, scope: Scope, tasks: &mut Vec<Task>)
    requires
        graph.wf(),
        nested(graph@),
        graph.contains(scope),
        forall|k: int| 0 <= k < old(tasks)@.len() ==> task_fits(graph@, #[trigger] old(tasks)@[k]),
    ensures
        final(tasks)@ == old(tasks)@ + plan(graph@, scope),
        forall|k: int| 0 <= k < final(tasks)@.len() ==> task_fits(graph@, #[trigger] final(tasks)@[k]),
    decreases graph@.len() - scope.index,
{
    let inner = scope.inner(graph);
    let n = inner.group_count();
    let mut b: usize = 0;
    let ghost g = graph@;
    let ghost items = g[scope.index as int].items;
    proof {
        assert(scope_wf(g, scope.index as int));
    }
    assert(tasks@ + plan_from(g, scope, 0) =~= old(tasks)@ + plan(g, scope));
    while b < n
        invariant
            b <= n,
            n == items.len(),
            g == graph@,
            items == g[scope.index as int].items,
            inner@ == g[scope.index as int],
            graph.wf(),
            nested(g),
            graph.contains(scope),
            scope_wf(g, scope.index as int),
            tasks@ + plan_from(g, scope, b as int) == old(tasks)@ + plan(g, scope),
            forall|k: int| 0 <= k < tasks@.len() ==> task_fits(g, #[trigger] tasks@[k]),
        decreases n - b,
    {
        let ghost rest = plan_from(g, scope, b as int + 1);
        let ghost sofar = tasks@;
        let ghost group = items[b as int].1;
        proof {
            assert(bucket_wf(g[scope.index as int].typ, items[b as int]));
            assert forall|k: int| 0 <= k < group.len() implies scoped_within(
                #[trigger] group[k],
                g.len(),
            ) && (group[k].spec_scope() matches Some(inner_scope) ==> scope.index
                < inner_scope.index) by {
                assert(scoped_within(g[scope.index as int].items[b as int].1[k], g.len()));
                assert(g[scope.index as int].items[b as int].1[k].spec_scope() matches Some(
                    inner_scope,
                ) ==> scope.index < inner_scope.index);
            }
            assert(scoped_within(group[0], g.len()));
        }
        match inner.group(b) {
            Some((_, entries)) => {
                match classify(entries) {
                    Shape::Module(module) => {
                        collect(graph, module, tasks);
                        assert(tasks@ + rest =~= sofar + (plan_from(g, module, 0) + rest));
                    },
                    Shape::TypeWithImpl(symbol, inner_scope, implementation) => {
                        assert(scoped_within(group[1], g.len()));
                        let task = Task {
                            owner: scope,
                            bucket: b,
                            is_type: true,
                            symbol,
                            scope: inner_scope,
                            impl_scope: Some(implementation),
                        };
                        tasks.push(task);
                        assert(task_fits(g, task));
                        collect(graph, implementation, tasks);
                        assert(tasks@ + rest =~= sofar + (seq![task] + plan_from(
                            g,
                            implementation,
                            0,
                        ) + rest));
                    },
                    Shape::Type(symbol, inner_scope) => {
                        let task = Task {
                            owner: scope,
                            bucket: b,
                            is_type: true,
                            symbol,
                            scope: inner_scope,
                            impl_scope: None,
                        };
                        tasks.push(task);
                        assert(task_fits(g, task));
                        assert(tasks@ + rest =~= sofar + (seq![task] + rest));
                    },
                    Shape::Function(symbol, inner_scope) => {
                        let task = Task {
                            owner: scope,
                            bucket: b,
                            is_type: false,
                            symbol,
                            scope: inner_scope,
                            impl_scope: None,
                        };
                        tasks.push(task);
                        assert(task_fits(g, task));
                        assert(tasks@ + rest =~= sofar + (seq![task] + rest));
                    },
                    Shape::Other => {},
                }
            },
            None => {},
        }
        b += 1;
    }
    assert(tasks@ + plan_from(g, scope, n as int) =~= tasks@);
}

} // verus!
