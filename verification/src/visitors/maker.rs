//! The maker: the pass that turns the declarations of a finished scope
//! graph into items and assigns them to their symbols.
//!
//! Types and expressions are resolved by the two resolvers that the caller
//! hands in. The maker decides which nodes they are asked about, in which
//! scope and in which order, and what becomes of their answers. Of a
//! resolver nothing is known but its own contract, so the contracts here
//! say what holds for every answer that the resolvers may give.

use vstd::prelude::*;
use crate::ast::{AstCtx, AstId, Expr, Field, Function, Item, ItemP, Parameter, Struct, Ty};
use crate::common::SyntaxError;
use crate::name_resolution::model::{flat_items, nested, GraphView};
use crate::name_resolution::scope::{entry_views, name_view, NamedItem, Scope, ScopeGraph};
use crate::parser::{Node, NodeId};
use crate::visitors::plan::{collect, plan, task_fits, task_node, Task};

verus! {

/// An entry of a scope with the name of its bucket.
pub type Entry = (Option<Seq<char>>, NamedItem);

/// The identifiers of the `Placeholder` entries, in order.
pub open spec fn placeholders_of(entries: Seq<Entry>) -> Seq<AstId>
    decreases entries.len(),
{
    if entries.len() == 0 {
        Seq::empty()
    } else {
        let before = placeholders_of(entries.drop_last());
        match entries.last().1 {
            NamedItem::Placeholder(id, _) => before.push(id),
            _ => before,
        }
    }
}

/// The symbols of the `Function` entries, in order.
pub open spec fn functions_of(entries: Seq<Entry>) -> Seq<ItemP>
    decreases entries.len(),
{
    if entries.len() == 0 {
        Seq::empty()
    } else {
        let before = functions_of(entries.drop_last());
        match entries.last().1 {
            NamedItem::Function(symbol, _, _) => before.push(symbol),
            _ => before,
        }
    }
}

/// The `Field` entries, in order: each with its name and its node.
pub open spec fn fields_of(entries: Seq<Entry>) -> Seq<(Option<Seq<char>>, Node)>
    decreases entries.len(),
{
    if entries.len() == 0 {
        Seq::empty()
    } else {
        let before = fields_of(entries.drop_last());
        match entries.last().1 {
            NamedItem::Field(node) => before.push((entries.last().0, node)),
            _ => before,
        }
    }
}

/// The `Parameter` entries, in order: each with its identifier and its
/// node.
pub open spec fn parameters_of(entries: Seq<Entry>) -> Seq<(AstId, Node)>
    decreases entries.len(),
{
    if entries.len() == 0 {
        Seq::empty()
    } else {
        let before = parameters_of(entries.drop_last());
        match entries.last().1 {
            NamedItem::Parameter(id, node) => before.push((id, node)),
            _ => before,
        }
    }
}

/// The node that holds the type annotation of a field or a parameter.
pub open spec fn type_node(node: Node) -> Option<NodeId> {
    node.spec_child("type"@)
}

/// Every field and every parameter among the entries has a type
/// annotation.
pub open spec fn annotated(entries: Seq<Entry>) -> bool {
    forall|k: int|
        0 <= k < entries.len() ==> match (#[trigger] entries[k]).1 {
            NamedItem::Field(node) => type_node(node) is Some,
            NamedItem::Parameter(_, node) => type_node(node) is Some,
            _ => true,
        }
}

/// The name of a field as a mathematical value.
pub open spec fn field_name(field: Field) -> Option<Seq<char>> {
    match field.name {
        Some(name) => Some(name@),
        None => None,
    }
}

/// `field` is what the type resolver makes of the field entry: it has the
/// entry's name, and its type is an answer of the resolver to the entry's
/// type annotation, asked in `scope`.
pub open spec fn field_made<TV: Fn(&ScopeGraph, Scope, NodeId) -> Result<Ty, SyntaxError>>(
    types: &TV,
    graph: &ScopeGraph,
    scope: Scope,
    entry: (Option<Seq<char>>, Node),
    field: Field,
) -> bool {
    &&& field_name(field) == entry.0
    &&& type_node(entry.1) matches Some(annotation)
    &&& call_ensures(*types, (graph, scope, annotation), Ok::<Ty, SyntaxError>(field.ty))
}

/// `fields` are the fields of `scope`: one for each field entry, in order,
/// each typed by the resolver.
pub open spec fn fields_made<TV: Fn(&ScopeGraph, Scope, NodeId) -> Result<Ty, SyntaxError>>(
    types: &TV,
    graph: &ScopeGraph,
    scope: Scope,
    fields: Seq<Field>,
) -> bool {
    let own = flat_items(graph@[scope.index as int].items);
    &&& fields.len() == fields_of(own).len()
    &&& forall|j: int|
        0 <= j < fields.len() ==> field_made(
            types,
            graph,
            scope,
            fields_of(own)[j],
            #[trigger] fields[j],
        )
}

/// The maker has assigned `symbol` and nothing else: the symbol is listed
/// last, and every other symbol is as it was.
pub open spec fn assigned(before: Maker, after: Maker, symbol: ItemP) -> bool {
    &&& after.symbols@ == before.symbols@.push(symbol)
    &&& after.ast@.len() == before.ast@.len()
    &&& symbol.index < before.ast@.len()
    &&& forall|other: int|
        0 <= other < before.ast@.len() && other != symbol.index ==> #[trigger] after.ast@[other]
            == before.ast@[other]
}

/// `made` is the struct of `scope`: its placeholders and fields are those
/// registered in the scope, in order, each field typed by the resolver, and
/// its associated functions are the functions of the paired implementation.
pub open spec fn struct_made<TV: Fn(&ScopeGraph, Scope, NodeId) -> Result<Ty, SyntaxError>>(
    types: &TV,
    graph: &ScopeGraph,
    scope: Scope,
    impl_scope: Option<Scope>,
    made: Struct,
) -> bool {
    let own = flat_items(graph@[scope.index as int].items);
    &&& made.placeholders@ == placeholders_of(own)
    &&& fields_made(types, graph, scope, made.fields@)
    &&& made.associated_fns@ == match impl_scope {
        Some(implementation) => functions_of(flat_items(graph@[implementation.index as int].items)),
        None => Seq::empty(),
    }
}

/// The type annotation that the maker asks the resolver about for an entry:
/// that of a field when it makes a struct, that of a parameter when it
/// makes a function.
pub open spec fn asked(item: NamedItem, for_struct: bool) -> Option<NodeId> {
    match item {
        NamedItem::Field(node) => if for_struct {
            type_node(node)
        } else {
            None
        },
        NamedItem::Parameter(_, node) => if for_struct {
            None
        } else {
            type_node(node)
        },
        _ => None,
    }
}

/// Entry `k` holds no annotation that is asked about, or one that the
/// resolver may answer with a type.
pub open spec fn annotation_passes<TV: Fn(&ScopeGraph, Scope, NodeId) -> Result<Ty, SyntaxError>>(
    types: &TV,
    graph: &ScopeGraph,
    scope: Scope,
    entries: Seq<Entry>,
    for_struct: bool,
    k: int,
) -> bool {
    asked(entries[k].1, for_struct) matches Some(annotation) ==> exists|ty: Ty|
        call_ensures(*types, (graph, scope, annotation), Ok::<Ty, SyntaxError>(ty))
}

/// The resolver may answer the annotation of entry `k` with `error`, and
/// may answer every annotation before it with a type.
pub open spec fn annotation_fails<TV: Fn(&ScopeGraph, Scope, NodeId) -> Result<Ty, SyntaxError>>(
    types: &TV,
    graph: &ScopeGraph,
    scope: Scope,
    entries: Seq<Entry>,
    for_struct: bool,
    k: int,
    error: SyntaxError,
) -> bool {
    &&& 0 <= k < entries.len()
    &&& asked(entries[k].1, for_struct) matches Some(annotation)
    &&& call_ensures(*types, (graph, scope, annotation), Err::<Ty, SyntaxError>(error))
    &&& forall|earlier: int|
        0 <= earlier < k ==> #[trigger] annotation_passes(
            types,
            graph,
            scope,
            entries,
            for_struct,
            earlier,
        )
}

/// The resolver may refuse one of the annotations asked about with `error`
/// after it has answered those before it.
pub open spec fn refused<TV: Fn(&ScopeGraph, Scope, NodeId) -> Result<Ty, SyntaxError>>(
    types: &TV,
    graph: &ScopeGraph,
    scope: Scope,
    for_struct: bool,
    error: SyntaxError,
) -> bool {
    exists|k: int|
        annotation_fails(
            types,
            graph,
            scope,
            flat_items(graph@[scope.index as int].items),
            for_struct,
            k,
            error,
        )
}

/// `parameter` is what the type resolver makes of the parameter entry: it
/// has the entry's identifier, and its type is an answer of the resolver to
/// the entry's type annotation, asked in `scope`.
pub open spec fn parameter_made<TV: Fn(&ScopeGraph, Scope, NodeId) -> Result<Ty, SyntaxError>>(
    types: &TV,
    graph: &ScopeGraph,
    scope: Scope,
    entry: (AstId, Node),
    parameter: Parameter,
) -> bool {
    &&& parameter.id == entry.0
    &&& type_node(entry.1) matches Some(annotation)
    &&& call_ensures(*types, (graph, scope, annotation), Ok::<Ty, SyntaxError>(parameter.ty))
}

/// `parameters` are the parameters of `scope`: one for each parameter
/// entry, in order, each typed by the resolver.
pub open spec fn parameters_made<TV: Fn(&ScopeGraph, Scope, NodeId) -> Result<Ty, SyntaxError>>(
    types: &TV,
    graph: &ScopeGraph,
    scope: Scope,
    parameters: Seq<Parameter>,
) -> bool {
    let own = flat_items(graph@[scope.index as int].items);
    &&& parameters.len() == parameters_of(own).len()
    &&& forall|j: int|
        0 <= j < parameters.len() ==> parameter_made(
            types,
            graph,
            scope,
            parameters_of(own)[j],
            #[trigger] parameters[j],
        )
}

/// The node that holds the return type annotation of a function.
pub open spec fn return_node(node: Node) -> Option<NodeId> {
    node.spec_child("return_type"@)
}

/// The node that holds the body of a function: that of a definition, none
/// for a function that is declared only.
pub open spec fn body_node(node: Node) -> Option<NodeId> {
    if node.kind@ == "function_definition"@ {
        node.spec_child("body"@)
    } else {
        None
    }
}

/// `made` is the function of `scope`: its placeholders and parameters are
/// those registered in the scope, in order, each parameter typed by the
/// resolver; its return type is the resolver's answer to the annotation, or
/// the unit type without one; its body is the expression resolver's answer
/// to `body`, or none without one.
pub open spec fn function_made<
    TV: Fn(&ScopeGraph, Scope, NodeId) -> Result<Ty, SyntaxError>,
    EV: Fn(&ScopeGraph, Scope, NodeId) -> Result<Expr, SyntaxError>,
>(
    types: &TV,
    exprs: &EV,
    graph: &ScopeGraph,
    node: Node,
    scope: Scope,
    body: Option<NodeId>,
    made: Function,
) -> bool {
    let own = flat_items(graph@[scope.index as int].items);
    &&& made.placeholders@ == placeholders_of(own)
    &&& parameters_made(types, graph, scope, made.parameters@)
    &&& match return_node(node) {
        Some(annotation) => call_ensures(
            *types,
            (graph, scope, annotation),
            Ok::<Ty, SyntaxError>(made.return_type),
        ),
        None => made.return_type == Ty::Void,
    }
    &&& match body {
        Some(block) => made.body matches Some(expr) && call_ensures(
            *exprs,
            (graph, scope, block),
            Ok::<Expr, SyntaxError>(expr),
        ),
        None => made.body is None,
    }
}

/// The resolver may answer every annotation asked about in `scope` with a
/// type.
pub open spec fn all_pass<TV: Fn(&ScopeGraph, Scope, NodeId) -> Result<Ty, SyntaxError>>(
    types: &TV,
    graph: &ScopeGraph,
    scope: Scope,
    for_struct: bool,
) -> bool {
    forall|k: int|
        0 <= k < flat_items(graph@[scope.index as int].items).len() ==> #[trigger] annotation_passes(
            types,
            graph,
            scope,
            flat_items(graph@[scope.index as int].items),
            for_struct,
            k,
        )
}

/// The resolver may answer the return type annotation of `node` with a
/// type, if there is one.
pub open spec fn return_passes<TV: Fn(&ScopeGraph, Scope, NodeId) -> Result<Ty, SyntaxError>>(
    types: &TV,
    graph: &ScopeGraph,
    node: Node,
    scope: Scope,
) -> bool {
    return_node(node) matches Some(annotation) ==> exists|ty: Ty|
        call_ensures(*types, (graph, scope, annotation), Ok::<Ty, SyntaxError>(ty))
}

/// One of the resolvers may refuse with `error` what the maker asks about
/// for the function, having answered what it was asked before: the
/// parameters' annotations in order, then the return type annotation, then
/// the body.
pub open spec fn function_refused<
    TV: Fn(&ScopeGraph, Scope, NodeId) -> Result<Ty, SyntaxError>,
    EV: Fn(&ScopeGraph, Scope, NodeId) -> Result<Expr, SyntaxError>,
>(
    types: &TV,
    exprs: &EV,
    graph: &ScopeGraph,
    node: Node,
    scope: Scope,
    body: Option<NodeId>,
    error: SyntaxError,
) -> bool {
    ||| refused(types, graph, scope, false, error)
    ||| {
        &&& all_pass(types, graph, scope, false)
        &&& return_node(node) matches Some(annotation)
        &&& call_ensures(*types, (graph, scope, annotation), Err::<Ty, SyntaxError>(error))
    }
    ||| {
        &&& all_pass(types, graph, scope, false)
        &&& return_passes(types, graph, node, scope)
        &&& body matches Some(block)
        &&& call_ensures(*exprs, (graph, scope, block), Err::<Expr, SyntaxError>(error))
    }
}

/// The node declares a function that the maker can make: a definition with
/// its body, or a declaration of an external function.
pub open spec fn function_supported(node: Node) -> bool {
    if node.kind@ == "function_definition"@ {
        node.spec_child("body"@) is Some
    } else {
        node.kind@ == "extern_function_declaration"@
    }
}

/// The task can be made: its symbol is unassigned, its node is of a kind
/// that the maker supports, and the fields and parameters of its scope have
/// type annotations.
pub open spec fn task_ready(ast: Seq<Option<Item>>, g: GraphView, task: Task) -> bool {
    &&& task.symbol.index < ast.len()
    &&& ast[task.symbol.index as int] is None
    &&& annotated(flat_items(g[task.scope.index as int].items))
    &&& if task.is_type {
        task_node(g, task).kind@ == "struct_definition"@
    } else {
        function_supported(task_node(g, task))
    }
}

/// All the tasks can be made, one after the other: each is ready, and no
/// two have the same symbol.
pub open spec fn ready(ast: Seq<Option<Item>>, g: GraphView, tasks: Seq<Task>) -> bool {
    &&& forall|k: int| 0 <= k < tasks.len() ==> task_ready(ast, g, #[trigger] tasks[k])
    &&& forall|j: int, k: int|
        0 <= j < k < tasks.len() ==> (#[trigger] tasks[j]).symbol != (#[trigger] tasks[k]).symbol
}

/// `slot` holds what the task asks for: the struct or the function of the
/// task's scope, as the resolvers answer.
pub open spec fn task_done<
    TV: Fn(&ScopeGraph, Scope, NodeId) -> Result<Ty, SyntaxError>,
    EV: Fn(&ScopeGraph, Scope, NodeId) -> Result<Expr, SyntaxError>,
>(types: &TV, exprs: &EV, graph: &ScopeGraph, task: Task, slot: Option<Item>) -> bool {
    if task.is_type {
        slot matches Some(Item::Struct(made)) && struct_made(
            types,
            graph,
            task.scope,
            task.impl_scope,
            made,
        )
    } else {
        slot matches Some(Item::Function(made)) && function_made(
            types,
            exprs,
            graph,
            task_node(graph@, task),
            task.scope,
            body_node(task_node(graph@, task)),
            made,
        )
    }
}

/// A resolver may refuse with `error` something that the task asks about.
pub open spec fn task_refused<
    TV: Fn(&ScopeGraph, Scope, NodeId) -> Result<Ty, SyntaxError>,
    EV: Fn(&ScopeGraph, Scope, NodeId) -> Result<Expr, SyntaxError>,
>(types: &TV, exprs: &EV, graph: &ScopeGraph, task: Task, error: SyntaxError) -> bool {
    if task.is_type {
        refused(types, graph, task.scope, true, error)
    } else {
        function_refused(
            types,
            exprs,
            graph,
            task_node(graph@, task),
            task.scope,
            body_node(task_node(graph@, task)),
            error,
        )
    }
}

/// The maker has made the first `count` tasks and nothing else: their
/// symbols are listed behind those listed before, in order; each holds what
/// its task asks for; every other symbol is as it was.
pub open spec fn made_upto<
    TV: Fn(&ScopeGraph, Scope, NodeId) -> Result<Ty, SyntaxError>,
    EV: Fn(&ScopeGraph, Scope, NodeId) -> Result<Expr, SyntaxError>,
>(
    types: &TV,
    exprs: &EV,
    graph: &ScopeGraph,
    tasks: Seq<Task>,
    before: Maker,
    after: Maker,
    count: int,
) -> bool {
    &&& 0 <= count <= tasks.len()
    &&& after.symbols@ == before.symbols@ + Seq::new(count as nat, |j: int| tasks[j].symbol)
    &&& after.ast@.len() == before.ast@.len()
    &&& forall|j: int|
        0 <= j < count ==> task_done(
            types,
            exprs,
            graph,
            #[trigger] tasks[j],
            after.ast@[tasks[j].symbol.index as int],
        )
    &&& forall|other: int|
        0 <= other < before.ast@.len() && (forall|j: int|
            0 <= j < count ==> (#[trigger] tasks[j]).symbol.index != other)
            ==> #[trigger] after.ast@[other] == before.ast@[other]
}

/// The maker has stopped at a task that a resolver may refuse with
/// `error`, having made the tasks before it and nothing else.
pub open spec fn stopped<
    TV: Fn(&ScopeGraph, Scope, NodeId) -> Result<Ty, SyntaxError>,
    EV: Fn(&ScopeGraph, Scope, NodeId) -> Result<Expr, SyntaxError>,
>(
    types: &TV,
    exprs: &EV,
    graph: &ScopeGraph,
    tasks: Seq<Task>,
    before: Maker,
    after: Maker,
    error: SyntaxError,
) -> bool {
    exists|count: int|
        0 <= count < tasks.len() && #[trigger] made_upto(
            types,
            exprs,
            graph,
            tasks,
            before,
            after,
            count,
        ) && task_refused(types, exprs, graph, tasks[count], error)
}

/// Some task before position `count` has the symbol with this index.
pub open spec fn taken(tasks: Seq<Task>, count: int, index: int) -> bool {
    exists|j: int| 0 <= j < count && (#[trigger] tasks[j]).symbol.index == index
}

/// The maker. It owns the symbol table while it works and lists the symbols
/// it has assigned, in the order in which it assigned them.
#[derive(Debug)]
pub struct Maker {
    pub ast: AstCtx,
    pub symbols: Vec<ItemP>,
}

impl Maker {
    /// A maker over the given symbol table that has assigned nothing yet.
    pub fn new(ast: AstCtx) -> (maker: Maker)
        ensures
            maker.ast == ast,
            maker.symbols@ == Seq::<ItemP>::empty(),
    {
        Maker { ast, symbols: Vec::new() }
    }

    /// The symbols of the functions registered in `scope`, in order.
    pub fn resolve_associated_fns(&self, graph: &ScopeGraph, scope: Scope) -> (result: Result<
        Vec<ItemP>,
        SyntaxError,
    >)
        requires
            graph.contains(scope),
        ensures
            result matches Ok(symbols) && symbols@ == functions_of(
                flat_items(graph@[scope.index as int].items),
            ),
    {
        let all = scope.inner(graph).all_items();
        let ghost entries = entry_views(all@);
        let mut associated: Vec<ItemP> = Vec::new();
        let mut i: usize = 0;
        assert(entries.take(0) =~= Seq::empty());
        while i < all.len()
            invariant
                i <= all.len(),
                entries == entry_views(all@),
                associated@ == functions_of(entries.take(i as int)),
            decreases all.len() - i,
        {
            assert(entries.take(i as int + 1).drop_last() =~= entries.take(i as int));
            match all[i].1 {
                NamedItem::Function(symbol, _, _) => {
                    associated.push(*symbol);
                },
                _ => {},
            }
            i += 1;
        }
        assert(entries.take(all.len() as int) =~= entries);
        Ok(associated)
    }

    /// The identifiers of the placeholders registered in `scope`, in order.
    pub fn placeholders(graph: &ScopeGraph, scope: Scope) -> (ids: Vec<AstId>)
        requires
            graph.contains(scope),
        ensures
            ids@ == placeholders_of(flat_items(graph@[scope.index as int].items)),
    {
        let all = scope.inner(graph).all_items();
        let ghost entries = entry_views(all@);
        let mut ids: Vec<AstId> = Vec::new();
        let mut i: usize = 0;
        assert(entries.take(0) =~= Seq::empty());
        while i < all.len()
            invariant
                i <= all.len(),
                entries == entry_views(all@),
                ids@ == placeholders_of(entries.take(i as int)),
            decreases all.len() - i,
        {
            assert(entries.take(i as int + 1).drop_last() =~= entries.take(i as int));
            match all[i].1 {
                NamedItem::Placeholder(id, _) => {
                    ids.push(*id);
                },
                _ => {},
            }
            i += 1;
        }
        assert(entries.take(all.len() as int) =~= entries);
        ids
    }

    /// The fields registered in `scope`, in order, each with its type
    /// annotation resolved in `scope`; or the error of the first annotation
    /// that the resolver refuses.
    pub fn resolve_fields<TV: Fn(&ScopeGraph, Scope, NodeId) -> Result<Ty, SyntaxError>>(
        graph: &ScopeGraph,
        scope: Scope,
        types: &TV,
    ) -> (result: Result<Vec<Field>, SyntaxError>)
        requires
            graph.contains(scope),
            annotated(flat_items(graph@[scope.index as int].items)),
            forall|node: NodeId| call_requires(*types, (graph, scope, node)),
        ensures
            result matches Ok(fields) ==> fields_made(types, graph, scope, fields@),
            result is Ok ==> all_pass(types, graph, scope, true),
            result matches Err(error) ==> refused(types, graph, scope, true, error),
    {
        let all = scope.inner(graph).all_items();
        let ghost entries = entry_views(all@);
        let mut fields: Vec<Field> = Vec::new();
        let mut i: usize = 0;
        assert(entries.take(0) =~= Seq::empty());
        while i < all.len()
            invariant
                i <= all.len(),
                graph.contains(scope),
                entries == entry_views(all@),
                entries == flat_items(graph@[scope.index as int].items),
                annotated(entries),
                forall|node: NodeId| call_requires(*types, (graph, scope, node)),
                fields@.len() == fields_of(entries.take(i as int)).len(),
                forall|j: int|
                    0 <= j < fields@.len() ==> field_made(
                        types,
                        graph,
                        scope,
                        fields_of(entries.take(i as int))[j],
                        #[trigger] fields@[j],
                    ),
                forall|earlier: int|
                    0 <= earlier < i ==> #[trigger] annotation_passes(
                        types,
                        graph,
                        scope,
                        entries,
                        true,
                        earlier,
                    ),
            decreases all.len() - i,
        {
            assert(entries.take(i as int + 1).drop_last() =~= entries.take(i as int));
            assert(entries[i as int] == (name_view(all@[i as int].0), *all@[i as int].1));
            let name = all[i].0;
            match all[i].1 {
                NamedItem::Field(node) => {
                    match node.child_by_field_name("type") {
                        Some(annotation) => {
                            match types(graph, scope, annotation) {
                                Ok(ty) => {
                                    let owned = match name {
                                        Some(text) => Some(text.to_owned()),
                                        None => None,
                                    };
                                    fields.push(Field { name: owned, ty });
                                    assert(call_ensures(
                                        *types,
                                        (graph, scope, annotation),
                                        Ok::<Ty, SyntaxError>(ty),
                                    ));
                                },
                                Err(error) => {
                                    assert(annotation_fails(
                                        types,
                                        graph,
                                        scope,
                                        entries,
                                        true,
                                        i as int,
                                        error,
                                    ));
                                    assert(refused(types, graph, scope, true, error));
                                    return Err(error);
                                },
                            }
                        },
                        None => {},
                    }
                },
                _ => {},
            }
            assert(annotation_passes(types, graph, scope, entries, true, i as int));
            i += 1;
        }
        assert(entries.take(all.len() as int) =~= entries);
        Ok(fields)
    }

    /// Makes the struct of `scope` and assigns it to `symbol`.
    ///
    /// The placeholders and fields are those registered in the struct's own
    /// scope; each field's type annotation is resolved in that scope. The
    /// associated functions are those registered in the paired
    /// implementation, if there is one. The first annotation that the
    /// resolver refuses ends the call with its error, and nothing is
    /// assigned.
    pub fn make_struct<TV: Fn(&ScopeGraph, Scope, NodeId) -> Result<Ty, SyntaxError>>(
        &mut self,
        graph: &ScopeGraph,
        symbol: ItemP,
        _node: &Node,
        scope: Scope,
        impl_scope: Option<Scope>,
        types: &TV,
    ) -> (result: Result<(), SyntaxError>)
        requires
            graph.contains(scope),
            impl_scope matches Some(implementation) ==> graph.contains(implementation),
            old(self).ast.unassigned(symbol),
            annotated(flat_items(graph@[scope.index as int].items)),
            forall|node: NodeId| call_requires(*types, (graph, scope, node)),
        ensures
            match result {
                Ok(_) => {
                    &&& assigned(*old(self), *final(self), symbol)
                    &&& final(self).ast@[symbol.index as int] matches Some(Item::Struct(made))
                    &&& struct_made(types, graph, scope, impl_scope, made)
                },
                Err(error) => {
                    &&& *final(self) == *old(self)
                    &&& refused(types, graph, scope, true, error)
                },
            },
    {
        let placeholders = Maker::placeholders(graph, scope);
        let fields = match Maker::resolve_fields(graph, scope, types) {
            Ok(fields) => fields,
            Err(error) => {
                return Err(error);
            },
        };
        let associated_fns = match impl_scope {
            Some(implementation) => match self.resolve_associated_fns(graph, implementation) {
                Ok(symbols) => symbols,
                Err(error) => {
                    return Err(error);
                },
            },
            None => Vec::new(),
        };
        let made = Struct { placeholders, fields, associated_fns };
        self.ast.assign(symbol, Item::Struct(made));
        self.symbols.push(symbol);
        Ok(())
    }

    /// The parameters registered in `scope`, in order, each with its type
    /// annotation resolved in `scope`; or the error of the first annotation
    /// that the resolver refuses.
    pub fn resolve_parameters<TV: Fn(&ScopeGraph, Scope, NodeId) -> Result<Ty, SyntaxError>>(
        graph: &ScopeGraph,
        scope: Scope,
        types: &TV,
    ) -> (result: Result<Vec<Parameter>, SyntaxError>)
        requires
            graph.contains(scope),
            annotated(flat_items(graph@[scope.index as int].items)),
            forall|node: NodeId| call_requires(*types, (graph, scope, node)),
        ensures
            result matches Ok(parameters) ==> parameters_made(types, graph, scope, parameters@),
            result is Ok ==> all_pass(types, graph, scope, false),
            result matches Err(error) ==> refused(types, graph, scope, false, error),
    {
        let all = scope.inner(graph).all_items();
        let ghost entries = entry_views(all@);
        let mut parameters: Vec<Parameter> = Vec::new();
        let mut i: usize = 0;
        assert(entries.take(0) =~= Seq::empty());
        while i < all.len()
            invariant
                i <= all.len(),
                graph.contains(scope),
                entries == entry_views(all@),
                entries == flat_items(graph@[scope.index as int].items),
                annotated(entries),
                forall|node: NodeId| call_requires(*types, (graph, scope, node)),
                parameters@.len() == parameters_of(entries.take(i as int)).len(),
                forall|j: int|
                    0 <= j < parameters@.len() ==> parameter_made(
                        types,
                        graph,
                        scope,
                        parameters_of(entries.take(i as int))[j],
                        #[trigger] parameters@[j],
                    ),
                forall|earlier: int|
                    0 <= earlier < i ==> #[trigger] annotation_passes(
                        types,
                        graph,
                        scope,
                        entries,
                        false,
                        earlier,
                    ),
            decreases all.len() - i,
        {
            assert(entries.take(i as int + 1).drop_last() =~= entries.take(i as int));
            assert(entries[i as int] == (name_view(all@[i as int].0), *all@[i as int].1));
            match all[i].1 {
                NamedItem::Parameter(id, node) => {
                    match node.child_by_field_name("type") {
                        Some(annotation) => {
                            match types(graph, scope, annotation) {
                                Ok(ty) => {
                                    parameters.push(Parameter { id: *id, ty });
                                    assert(call_ensures(
                                        *types,
                                        (graph, scope, annotation),
                                        Ok::<Ty, SyntaxError>(ty),
                                    ));
                                },
                                Err(error) => {
                                    assert(annotation_fails(
                                        types,
                                        graph,
                                        scope,
                                        entries,
                                        false,
                                        i as int,
                                        error,
                                    ));
                                    assert(refused(types, graph, scope, false, error));
                                    return Err(error);
                                },
                            }
                        },
                        None => {},
                    }
                },
                _ => {},
            }
            assert(annotation_passes(types, graph, scope, entries, false, i as int));
            i += 1;
        }
        assert(entries.take(all.len() as int) =~= entries);
        Ok(parameters)
    }

    /// Makes the function of `scope` and assigns it to `symbol`.
    ///
    /// The placeholders and parameters are those registered in the
    /// function's own scope; each parameter's type annotation is resolved in
    /// that scope, then the return type annotation, which defaults to the
    /// unit type, then the body if one is given. The first refusal of a
    /// resolver ends the call with its error, and nothing is assigned.
    pub fn make_function_impl<
        TV: Fn(&ScopeGraph, Scope, NodeId) -> Result<Ty, SyntaxError>,
        EV: Fn(&ScopeGraph, Scope, NodeId) -> Result<Expr, SyntaxError>,
    >(
        &mut self,
        graph: &ScopeGraph,
        symbol: ItemP,
        node: &Node,
        scope: Scope,
        body: Option<NodeId>,
        types: &TV,
        exprs: &EV,
    ) -> (result: Result<(), SyntaxError>)
        requires
            graph.contains(scope),
            old(self).ast.unassigned(symbol),
            annotated(flat_items(graph@[scope.index as int].items)),
            forall|asked: NodeId| call_requires(*types, (graph, scope, asked)),
            forall|asked: NodeId| call_requires(*exprs, (graph, scope, asked)),
        ensures
            match result {
                Ok(_) => {
                    &&& assigned(*old(self), *final(self), symbol)
                    &&& final(self).ast@[symbol.index as int] matches Some(Item::Function(made))
                    &&& function_made(types, exprs, graph, *node, scope, body, made)
                },
                Err(error) => {
                    &&& *final(self) == *old(self)
                    &&& function_refused(types, exprs, graph, *node, scope, body, error)
                },
            },
    {
        let placeholders = Maker::placeholders(graph, scope);
        let parameters = match Maker::resolve_parameters(graph, scope, types) {
            Ok(parameters) => parameters,
            Err(error) => {
                return Err(error);
            },
        };
        let return_type = match node.child_by_field_name("return_type") {
            Some(annotation) => match types(graph, scope, annotation) {
                Ok(ty) => {
                    assert(call_ensures(
                        *types,
                        (graph, scope, annotation),
                        Ok::<Ty, SyntaxError>(ty),
                    ));
                    ty
                },
                Err(error) => {
                    return Err(error);
                },
            },
            None => Ty::Void,
        };
        assert(return_passes(types, graph, *node, scope));
        let function_body = match body {
            Some(block) => match exprs(graph, scope, block) {
                Ok(expr) => Some(expr),
                Err(error) => {
                    return Err(error);
                },
            },
            None => None,
        };
        let made = Function { placeholders, parameters, return_type, body: function_body };
        self.ast.assign(symbol, Item::Function(made));
        self.symbols.push(symbol);
        Ok(())
    }

    /// Whether the maker can make a type from a node of this kind: struct
    /// definitions only.
    pub fn supports_type(node: &Node) -> (supported: bool)
        ensures
            supported == (node.kind@ == "struct_definition"@),
    {
        node.is_kind("struct_definition")
    }

    /// Whether the maker can make a function from this node: a definition
    /// that has its body, or a declaration of an external function.
    pub fn supports_function(node: &Node) -> (supported: bool)
        ensures
            supported == function_supported(*node),
    {
        if node.is_kind("function_definition") {
            node.child_by_field_name("body").is_some()
        } else {
            node.is_kind("extern_function_declaration")
        }
    }

    /// Makes the type that `node` declares and assigns it to `symbol`. The
    /// node must be a struct definition.
    pub fn make_type<TV: Fn(&ScopeGraph, Scope, NodeId) -> Result<Ty, SyntaxError>>(
        &mut self,
        graph: &ScopeGraph,
        symbol: ItemP,
        node: &Node,
        scope: Scope,
        impl_scope: Option<Scope>,
        types: &TV,
    ) -> (result: Result<(), SyntaxError>)
        requires
            node.kind@ == "struct_definition"@,
            graph.contains(scope),
            impl_scope matches Some(implementation) ==> graph.contains(implementation),
            old(self).ast.unassigned(symbol),
            annotated(flat_items(graph@[scope.index as int].items)),
            forall|asked: NodeId| call_requires(*types, (graph, scope, asked)),
        ensures
            match result {
                Ok(_) => {
                    &&& assigned(*old(self), *final(self), symbol)
                    &&& final(self).ast@[symbol.index as int] matches Some(Item::Struct(made))
                    &&& struct_made(types, graph, scope, impl_scope, made)
                },
                Err(error) => {
                    &&& *final(self) == *old(self)
                    &&& refused(types, graph, scope, true, error)
                },
            },
    {
        self.make_struct(graph, symbol, node, scope, impl_scope, types)
    }

    /// Makes the function that `node` declares and assigns it to `symbol`.
    /// A definition is made with its body, a declaration of an external
    /// function without one.
    pub fn make_function<
        TV: Fn(&ScopeGraph, Scope, NodeId) -> Result<Ty, SyntaxError>,
        EV: Fn(&ScopeGraph, Scope, NodeId) -> Result<Expr, SyntaxError>,
    >(
        &mut self,
        graph: &ScopeGraph,
        symbol: ItemP,
        node: &Node,
        scope: Scope,
        types: &TV,
        exprs: &EV,
    ) -> (result: Result<(), SyntaxError>)
        requires
            function_supported(*node),
            graph.contains(scope),
            old(self).ast.unassigned(symbol),
            annotated(flat_items(graph@[scope.index as int].items)),
            forall|asked: NodeId| call_requires(*types, (graph, scope, asked)),
            forall|asked: NodeId| call_requires(*exprs, (graph, scope, asked)),
        ensures
            match result {
                Ok(_) => {
                    &&& assigned(*old(self), *final(self), symbol)
                    &&& final(self).ast@[symbol.index as int] matches Some(Item::Function(made))
                    &&& function_made(types, exprs, graph, *node, scope, body_node(*node), made)
                },
                Err(error) => {
                    &&& *final(self) == *old(self)
                    &&& function_refused(
                        types,
                        exprs,
                        graph,
                        *node,
                        scope,
                        body_node(*node),
                        error,
                    )
                },
            },
    {
        let body = if node.is_kind("function_definition") {
            node.child_by_field_name("body")
        } else {
            None
        };
        self.make_function_impl(graph, symbol, node, scope, body, types, exprs)
    }

    /// The items that `make` will make for `scope`, in its order.
    pub fn plan(graph: &ScopeGraph, scope: Scope) -> (tasks: Vec<Task>)
        requires
            graph.wf(),
            nested(graph@),
            graph.contains(scope),
        ensures
            tasks@ == plan(graph@, scope),
            forall|k: int| 0 <= k < tasks@.len() ==> task_fits(graph@, #[trigger] tasks@[k]),
    {
        let mut tasks: Vec<Task> = Vec::new();
        collect(graph, scope, &mut tasks);
        assert(tasks@ =~= plan(graph@, scope));
        tasks
    }

    /// Makes the types and functions declared in `scope` and in all that
    /// lies in it, and assigns each to its symbol.
    ///
    /// The buckets of a scope are taken in first-registration order. A
    /// module is entered; a type with an implementation is made with the
    /// implementation's functions as its associated functions, then the
    /// implementation is entered; a type alone and a function alone are
    /// made; every other bucket is passed by. The first refusal of a
    /// resolver ends the call with its error: what was made before stays
    /// made, and nothing after it is made.
    pub fn make<
        TV: Fn(&ScopeGraph, Scope, NodeId) -> Result<Ty, SyntaxError>,
        EV: Fn(&ScopeGraph, Scope, NodeId) -> Result<Expr, SyntaxError>,
    >(&mut self, graph: &ScopeGraph, scope: Scope, types: &TV, exprs: &EV) -> (result: Result<
        (),
        SyntaxError,
    >)
        requires
            graph.wf(),
            nested(graph@),
            graph.contains(scope),
            ready(old(self).ast@, graph@, plan(graph@, scope)),
            forall|inner: Scope, asked: NodeId| call_requires(*types, (graph, inner, asked)),
            forall|inner: Scope, asked: NodeId| call_requires(*exprs, (graph, inner, asked)),
        ensures
            match result {
                Ok(_) => made_upto(
                    types,
                    exprs,
                    graph,
                    plan(graph@, scope),
                    *old(self),
                    *final(self),
                    plan(graph@, scope).len() as int,
                ),
                Err(error) => stopped(
                    types,
                    exprs,
                    graph,
                    plan(graph@, scope),
                    *old(self),
                    *final(self),
                    error,
                ),
            },
    {
        let tasks = Maker::plan(graph, scope);
        let ghost todo = tasks@;
        let mut k: usize = 0;
        assert(self.symbols@ =~= old(self).symbols@ + Seq::new(0, |j: int| todo[j].symbol));
        while k < tasks.len()
            invariant
                k <= tasks.len(),
                todo == tasks@,
                todo == plan(graph@, scope),
                graph.wf(),
                forall|i: int| 0 <= i < todo.len() ==> task_fits(graph@, #[trigger] todo[i]),
                ready(old(self).ast@, graph@, todo),
                forall|inner: Scope, asked: NodeId| call_requires(*types, (graph, inner, asked)),
                forall|inner: Scope, asked: NodeId| call_requires(*exprs, (graph, inner, asked)),
                made_upto(types, exprs, graph, todo, *old(self), *self, k as int),
            decreases tasks.len() - k,
        {
            let task = tasks[k];
            let ghost before = *self;
            proof {
                assert(task_fits(graph@, todo[k as int]));
                assert(task_ready(old(self).ast@, graph@, todo[k as int]));
                assert forall|j: int| 0 <= j < k implies (#[trigger] todo[j]).symbol.index
                    != task.symbol.index by {
                    assert(todo[j].symbol != todo[k as int].symbol);
                }
                assert(self.ast@[task.symbol.index as int] == old(self).ast@[task.symbol.index as int]);
            }
            let outcome = match task.owner.inner(graph).group(task.bucket) {
                Some((_, entries)) => match &entries[0] {
                    NamedItem::Type(symbol, node, inner) => self.make_type(
                        graph,
                        *symbol,
                        node,
                        *inner,
                        task.impl_scope,
                        types,
                    ),
                    NamedItem::Function(symbol, node, inner) => self.make_function(
                        graph,
                        *symbol,
                        node,
                        *inner,
                        types,
                        exprs,
                    ),
                    _ => Ok(()),
                },
                None => Ok(()),
            };
            match outcome {
                Ok(_) => {},
                Err(error) => {
                    assert(task_refused(types, exprs, graph, todo[k as int], error));
                    assert(stopped(types, exprs, graph, todo, *old(self), *self, error));
                    return Err(error);
                },
            }
            proof {
                assert(assigned(before, *self, task.symbol));
                assert(self.symbols@ =~= old(self).symbols@ + Seq::new(
                    (k + 1) as nat,
                    |j: int| todo[j].symbol,
                ));
                assert forall|j: int| 0 <= j < k + 1 implies task_done(
                    types,
                    exprs,
                    graph,
                    #[trigger] todo[j],
                    self.ast@[todo[j].symbol.index as int],
                ) by {
                    if j < k {
                        assert(todo[j].symbol != todo[k as int].symbol);
                        assert(self.ast@[todo[j].symbol.index as int]
                            == before.ast@[todo[j].symbol.index as int]);
                    }
                }
                assert forall|other: int|
                    0 <= other < old(self).ast@.len() && (forall|j: int|
                        0 <= j < k + 1 ==> (#[trigger] todo[j]).symbol.index != other)
                        implies #[trigger] self.ast@[other] == old(self).ast@[other] by {
                    assert(todo[k as int].symbol.index != other);
                    assert(self.ast@[other] == before.ast@[other]);
                    assert(forall|j: int| 0 <= j < k ==> (#[trigger] todo[j]).symbol.index != other);
                }
            }
            k += 1;
        }
        Ok(())
    }

    /// Whether every field and every parameter registered in `scope` has a
    /// type annotation.
    pub fn is_annotated(graph: &ScopeGraph, scope: Scope) -> (ok: bool)
        requires
            graph.contains(scope),
        ensures
            ok == annotated(flat_items(graph@[scope.index as int].items)),
    {
        let all = scope.inner(graph).all_items();
        let ghost entries = entry_views(all@);
        let mut i: usize = 0;
        while i < all.len()
            invariant
                i <= all.len(),
                graph.contains(scope),
                entries == entry_views(all@),
                entries == flat_items(graph@[scope.index as int].items),
                forall|k: int|
                    0 <= k < i ==> match (#[trigger] entries[k]).1 {
                        NamedItem::Field(node) => type_node(node) is Some,
                        NamedItem::Parameter(_, node) => type_node(node) is Some,
                        _ => true,
                    },
            decreases all.len() - i,
        {
            assert(entries[i as int] == (name_view(all@[i as int].0), *all@[i as int].1));
            let found = match all[i].1 {
                NamedItem::Field(node) => node.child_by_field_name("type").is_some(),
                NamedItem::Parameter(_, node) => node.child_by_field_name("type").is_some(),
                _ => true,
            };
            if !found {
                return false;
            }
            i += 1;
        }
        true
    }

    /// Whether `make` can be called for `scope` as the graph and the symbol
    /// table are: every symbol it would assign is unassigned and is
    /// assigned once, every node it would make an item from is of a kind it
    /// supports, and every field and parameter has a type annotation.
    pub fn can_make(&self, graph: &ScopeGraph, scope: Scope) -> (ok: bool)
        requires
            graph.wf(),
            nested(graph@),
            graph.contains(scope),
        ensures
            ok == ready(self.ast@, graph@, plan(graph@, scope)),
    {
        let tasks = Maker::plan(graph, scope);
        let ghost todo = tasks@;
        let ghost ast = self.ast@;
        let ghost g = graph@;
        let mut seen: Vec<bool> = vec![false; self.ast.len()];
        let mut k: usize = 0;
        while k < tasks.len()
            invariant
                k <= tasks.len(),
                todo == tasks@,
                todo == plan(graph@, scope),
                ast == self.ast@,
                g == graph@,
                graph.wf(),
                seen@.len() == ast.len(),
                forall|i: int| 0 <= i < todo.len() ==> task_fits(g, #[trigger] todo[i]),
                forall|i: int| 0 <= i < k ==> task_ready(ast, g, #[trigger] todo[i]),
                forall|i: int, j: int|
                    0 <= i < j < k ==> (#[trigger] todo[i]).symbol != (#[trigger] todo[j]).symbol,
                forall|index: int|
                    0 <= index < seen@.len() ==> (#[trigger] seen@[index]) == taken(
                        todo,
                        k as int,
                        index,
                    ),
            decreases tasks.len() - k,
        {
            let task = tasks[k];
            assert(task_fits(g, todo[k as int]));
            if task.symbol.index >= self.ast.len() || self.ast.is_assigned(task.symbol) {
                assert(!task_ready(ast, g, todo[k as int]));
                return false;
            }
            if seen[task.symbol.index] {
                assert(taken(todo, k as int, task.symbol.index as int));
                let ghost j = choose|j: int|
                    0 <= j < k && (#[trigger] todo[j]).symbol.index == task.symbol.index;
                assert(todo[j].symbol == todo[k as int].symbol);
                return false;
            }
            let supported = match task.owner.inner(graph).group(task.bucket) {
                Some((_, entries)) => match &entries[0] {
                    NamedItem::Type(_, node, _) => Maker::supports_type(node),
                    NamedItem::Function(_, node, _) => Maker::supports_function(node),
                    _ => false,
                },
                None => false,
            };
            if !supported || !Maker::is_annotated(graph, task.scope) {
                assert(!task_ready(ast, g, todo[k as int]));
                return false;
            }
            let ghost before = seen@;
            seen.set(task.symbol.index, true);
            proof {
                assert(task_ready(ast, g, todo[k as int]));
                assert forall|i: int, j: int| 0 <= i < j < k + 1 implies (#[trigger] todo[i]).symbol
                    != (#[trigger] todo[j]).symbol by {
                    if j == k {
                        if todo[i].symbol == todo[j].symbol {
                            assert(taken(todo, k as int, task.symbol.index as int));
                        }
                    }
                }
                assert forall|index: int| 0 <= index < seen@.len() implies (#[trigger] seen@[index])
                    == taken(todo, k as int + 1, index) by {
                    if index == task.symbol.index {
                        assert(todo[k as int].symbol.index == index);
                    } else {
                        assert(seen@[index] == before[index]);
                        if taken(todo, k as int, index) {
                            let j = choose|j: int|
                                0 <= j < k && (#[trigger] todo[j]).symbol.index == index;
                            assert(0 <= j < k + 1 && todo[j].symbol.index == index);
                        }
                        if taken(todo, k as int + 1, index) {
                            let j = choose|j: int|
                                0 <= j < k + 1 && (#[trigger] todo[j]).symbol.index == index;
                            assert(j != k);
                            assert(0 <= j < k && todo[j].symbol.index == index);
                        }
                    }
                }
            }
            k += 1;
        }
        true
    }
}

} // verus!
