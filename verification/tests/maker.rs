use scope_graph::ast::{AstCtx, AstId, Expr, Item, ItemP, Ty};
use scope_graph::common::SyntaxError;
use scope_graph::name_resolution::path::{Path, PathSegment};
use scope_graph::name_resolution::scope::{NamedItem, Scope, ScopeGraph, ScopeType};
use scope_graph::parser::Node;
use scope_graph::visitors::maker::Maker;
use scope_graph::visitors::plan::{classify, Shape};

fn types(_graph: &ScopeGraph, _scope: Scope, node: usize) -> Result<Ty, SyntaxError> {
    Ok(Ty::Term(node))
}

fn exprs(_graph: &ScopeGraph, _scope: Scope, node: usize) -> Result<Expr, SyntaxError> {
    Ok(Expr { id: node })
}

fn failing_at(bad: usize) -> impl Fn(&ScopeGraph, Scope, usize) -> Result<Ty, SyntaxError> {
    move |_graph: &ScopeGraph, _scope: Scope, node: usize| {
        if node == bad {
            Err(SyntaxError { message: "unresolved type".to_string(), node })
        } else {
            Ok(Ty::Term(node))
        }
    }
}

fn module(graph: &mut ScopeGraph, root: Scope, name: &str) -> Scope {
    root.ensure_module(graph, Path { absolute: false, segments: vec![PathSegment(name.to_string())] })
        .unwrap()
}

fn annotated(id: usize, kind: &str, annotation: usize) -> Node {
    Node::new(id, kind).with_field("name", id + 1000).with_field("type", annotation)
}

struct Point {
    graph: ScopeGraph,
    ast: AstCtx,
    module: Scope,
    strukt: Scope,
    point: ItemP,
    norm: ItemP,
}

fn point(impl_first: bool) -> Point {
    let mut graph = ScopeGraph::new();
    let mut ast = AstCtx::new();
    let root = Scope::new_root(&mut graph);
    let module = module(&mut graph, root, "geometry");
    let point = ast.make_symbol();
    let norm = ast.make_symbol();

    let strukt = module.named_child(&mut graph, ScopeType::StructLike, "Point");
    strukt
        .add_item(&mut graph, Some("T"), NamedItem::Placeholder(AstId { id: 1 }, Node::new(10, "generic")))
        .unwrap();
    strukt.add_item(&mut graph, Some("x"), NamedItem::Field(annotated(11, "field", 111))).unwrap();
    strukt.add_item(&mut graph, Some("y"), NamedItem::Field(annotated(12, "field", 112))).unwrap();
    let declaration = NamedItem::Type(point, Node::new(20, "struct_definition"), strukt);

    let implementation = module.anonymous_child(&mut graph, ScopeType::Impl);
    let method = implementation.named_child(&mut graph, ScopeType::Function, "norm");
    method
        .add_item(&mut graph, Some("self"), NamedItem::Parameter(AstId { id: 2 }, annotated(30, "parameter", 130)))
        .unwrap();
    let definition = Node::new(40, "function_definition")
        .with_field("return_type", 140)
        .with_field("body", 141);
    implementation
        .add_item(&mut graph, Some("norm"), NamedItem::Function(norm, definition, method))
        .unwrap();
    let block = NamedItem::Impl(Node::new(50, "impl_block"), implementation);

    if impl_first {
        module.add_item(&mut graph, Some("Point"), block).unwrap();
        module.add_item(&mut graph, Some("Point"), declaration).unwrap();
    } else {
        module.add_item(&mut graph, Some("Point"), declaration).unwrap();
        module.add_item(&mut graph, Some("Point"), block).unwrap();
    }
    Point { graph, ast, module, strukt, point, norm }
}

fn check_point(maker: &Maker, p: ItemP, norm: ItemP) {
    match maker.ast.get(p) {
        Some(Item::Struct(made)) => {
            assert_eq!(made.placeholders, vec![AstId { id: 1 }]);
            let fields: Vec<(Option<&str>, Ty)> =
                made.fields.iter().map(|f| (f.name.as_deref(), f.ty)).collect();
            assert_eq!(fields, vec![(Some("x"), Ty::Term(111)), (Some("y"), Ty::Term(112))]);
            assert_eq!(made.associated_fns, vec![norm]);
        },
        other => panic!("expected a struct, got {:?}", other),
    }
}

#[test]
fn point_with_its_impl_becomes_one_struct_and_its_method() {
    let Point { graph, ast, module, point: p, norm, .. } = point(false);
    let root = module.find_root(&graph);
    let mut maker = Maker::new(ast);
    maker.make(&graph, root, &types, &exprs).unwrap();
    assert_eq!(maker.symbols, vec![p, norm]);
    check_point(&maker, p, norm);
    match maker.ast.get(norm) {
        Some(Item::Function(made)) => {
            assert!(made.placeholders.is_empty());
            assert_eq!(made.parameters.len(), 1);
            assert_eq!(made.parameters[0].id, AstId { id: 2 });
            assert_eq!(made.parameters[0].ty, Ty::Term(130));
            assert_eq!(made.return_type, Ty::Term(140));
            assert_eq!(made.body, Some(Expr { id: 141 }));
        },
        other => panic!("expected a function, got {:?}", other),
    }
}

#[test]
fn point_is_made_the_same_when_the_impl_was_registered_first() {
    let Point { graph, ast, module, point: p, norm, .. } = point(true);
    let mut maker = Maker::new(ast);
    maker.make(&graph, module, &types, &exprs).unwrap();
    assert_eq!(maker.symbols, vec![p, norm]);
    check_point(&maker, p, norm);
}

#[test]
fn plan_lists_the_items_in_maker_order() {
    let Point { graph, module, strukt, point: p, norm, .. } = point(false);
    let root = module.find_root(&graph);
    let tasks = Maker::plan(&graph, root);
    assert_eq!(tasks.len(), 2);
    assert!(tasks[0].is_type);
    assert_eq!(tasks[0].symbol, p);
    assert_eq!(tasks[0].scope, strukt);
    assert_eq!(tasks[0].owner, module);
    assert_eq!(tasks[0].bucket, 0);
    assert!(tasks[0].impl_scope.is_some());
    assert!(!tasks[1].is_type);
    assert_eq!(tasks[1].symbol, norm);
    assert_eq!(tasks[1].owner, tasks[0].impl_scope.unwrap());
    assert_eq!(tasks[1].impl_scope, None);
}

#[test]
fn a_lone_type_has_no_associated_functions() {
    let mut graph = ScopeGraph::new();
    let mut ast = AstCtx::new();
    let root = Scope::new_root(&mut graph);
    let symbol = ast.make_symbol();
    let strukt = root.named_child(&mut graph, ScopeType::StructLike, "Unit");
    strukt
        .add_item(&mut graph, Some("f"), NamedItem::Function(ItemP { index: 9 }, Node::new(1, "function_definition"), strukt))
        .unwrap();
    root.add_item(&mut graph, Some("Unit"), NamedItem::Type(symbol, Node::new(2, "struct_definition"), strukt))
        .unwrap();
    let mut maker = Maker::new(ast);
    maker.make(&graph, root, &types, &exprs).unwrap();
    assert_eq!(maker.symbols, vec![symbol]);
    match maker.ast.get(symbol) {
        Some(Item::Struct(made)) => {
            assert!(made.placeholders.is_empty());
            assert!(made.fields.is_empty());
            assert!(made.associated_fns.is_empty());
        },
        other => panic!("expected a struct, got {:?}", other),
    }
}

#[test]
fn an_external_function_has_no_body_and_defaults_to_void() {
    let mut graph = ScopeGraph::new();
    let mut ast = AstCtx::new();
    let root = Scope::new_root(&mut graph);
    let symbol = ast.make_symbol();
    let scope = root.named_child(&mut graph, ScopeType::Function, "puts");
    scope
        .add_item(&mut graph, Some("T"), NamedItem::Placeholder(AstId { id: 5 }, Node::new(1, "generic")))
        .unwrap();
    scope
        .add_item(&mut graph, Some("s"), NamedItem::Parameter(AstId { id: 6 }, annotated(2, "parameter", 102)))
        .unwrap();
    scope
        .add_item(&mut graph, Some("n"), NamedItem::Parameter(AstId { id: 7 }, annotated(3, "parameter", 103)))
        .unwrap();
    let declaration = Node::new(4, "extern_function_declaration").with_field("body", 999);
    root.add_item(&mut graph, Some("puts"), NamedItem::Function(symbol, declaration, scope)).unwrap();
    let mut maker = Maker::new(ast);
    maker.make(&graph, root, &types, &exprs).unwrap();
    match maker.ast.get(symbol) {
        Some(Item::Function(made)) => {
            assert_eq!(made.placeholders, vec![AstId { id: 5 }]);
            let parameters: Vec<(usize, Ty)> =
                made.parameters.iter().map(|p| (p.id.id, p.ty)).collect();
            assert_eq!(parameters, vec![(6, Ty::Term(102)), (7, Ty::Term(103))]);
            assert_eq!(made.return_type, Ty::Void);
            assert_eq!(made.body, None);
        },
        other => panic!("expected a function, got {:?}", other),
    }
}

#[test]
fn other_buckets_are_passed_by() {
    let mut graph = ScopeGraph::new();
    let mut ast = AstCtx::new();
    let root = Scope::new_root(&mut graph);
    let symbol = ast.make_symbol();
    let unused = ast.make_symbol();
    let scope = root.named_child(&mut graph, ScopeType::Function, "f");
    let implementation = root.anonymous_child(&mut graph, ScopeType::Impl);
    root.add_item(&mut graph, Some("A"), NamedItem::Alias(Path::root())).unwrap();
    root.add_item(&mut graph, Some("C"), NamedItem::Const(unused, Node::new(1, "const"))).unwrap();
    root.add_item(&mut graph, Some("I"), NamedItem::Impl(Node::new(2, "impl_block"), implementation))
        .unwrap();
    root.add_item(&mut graph, None, NamedItem::Function(unused, Node::new(3, "function_definition"), scope))
        .unwrap();
    root.add_item(&mut graph, None, NamedItem::Function(unused, Node::new(4, "function_definition"), scope))
        .unwrap();
    let definition = Node::new(5, "function_definition").with_field("body", 50);
    root.add_item(&mut graph, Some("f"), NamedItem::Function(symbol, definition, scope)).unwrap();
    let mut maker = Maker::new(ast);
    maker.make(&graph, root, &types, &exprs).unwrap();
    assert_eq!(maker.symbols, vec![symbol]);
    assert!(maker.ast.is_assigned(symbol));
    assert!(!maker.ast.is_assigned(unused));
    assert!(maker.ast.get(unused).is_none());
}

#[test]
fn the_first_error_stops_the_maker_and_keeps_what_was_made() {
    let mut graph = ScopeGraph::new();
    let mut ast = AstCtx::new();
    let root = Scope::new_root(&mut graph);
    let first = ast.make_symbol();
    let second = ast.make_symbol();
    let third = ast.make_symbol();
    for (name, symbol, annotation) in [("a", first, 100), ("b", second, 200), ("c", third, 300)] {
        let scope = root.named_child(&mut graph, ScopeType::StructLike, name);
        scope
            .add_item(&mut graph, Some("f"), NamedItem::Field(annotated(annotation + 1, "field", annotation)))
            .unwrap();
        scope
            .add_item(&mut graph, Some("g"), NamedItem::Field(annotated(annotation + 2, "field", annotation + 50)))
            .unwrap();
        root.add_item(&mut graph, Some(name), NamedItem::Type(symbol, Node::new(annotation + 3, "struct_definition"), scope))
            .unwrap();
    }
    let mut maker = Maker::new(ast);
    let outcome = maker.make(&graph, root, &failing_at(250), &exprs);
    match outcome {
        Err(error) => {
            assert_eq!(error.node, 250);
            assert_eq!(error.message, "unresolved type");
        },
        Ok(()) => panic!("expected the resolver's error"),
    }
    assert_eq!(maker.symbols, vec![first]);
    assert!(maker.ast.is_assigned(first));
    assert!(!maker.ast.is_assigned(second));
    assert!(!maker.ast.is_assigned(third));
}

#[test]
fn errors_of_the_return_type_and_the_body_are_reported() {
    let mut graph = ScopeGraph::new();
    let mut ast = AstCtx::new();
    let root = Scope::new_root(&mut graph);
    let symbol = ast.make_symbol();
    let scope = root.named_child(&mut graph, ScopeType::Function, "f");
    let definition =
        Node::new(1, "function_definition").with_field("return_type", 10).with_field("body", 11);
    root.add_item(&mut graph, Some("f"), NamedItem::Function(symbol, definition, scope)).unwrap();

    let mut maker = Maker::new(ast);
    let outcome = maker.make(&graph, root, &failing_at(10), &exprs);
    assert_eq!(outcome.unwrap_err().node, 10);
    assert!(maker.symbols.is_empty());

    let no_body = |_graph: &ScopeGraph, _scope: Scope, node: usize| -> Result<Expr, SyntaxError> {
        Err(SyntaxError { message: "unresolved expression".to_string(), node })
    };
    let outcome = maker.make(&graph, root, &types, &no_body);
    assert_eq!(outcome.unwrap_err().node, 11);
    assert!(maker.symbols.is_empty());
    assert!(!maker.ast.is_assigned(symbol));

    maker.make(&graph, root, &types, &exprs).unwrap();
    assert_eq!(maker.symbols, vec![symbol]);
}

#[test]
fn resolvers_are_asked_in_the_items_own_scope() {
    let Point { graph, ast, module, strukt, point: p, norm } = point(false);
    let asked = std::cell::RefCell::new(Vec::new());
    let recording = |_graph: &ScopeGraph, scope: Scope, node: usize| -> Result<Ty, SyntaxError> {
        asked.borrow_mut().push((scope, node));
        Ok(Ty::Term(node))
    };
    let mut maker = Maker::new(ast);
    maker.make(&graph, module, &recording, &exprs).unwrap();
    let asked = asked.into_inner();
    let tasks = Maker::plan(&graph, module);
    let method = tasks[1].scope;
    assert_eq!(asked, vec![(strukt, 111), (strukt, 112), (method, 130), (method, 140)]);
    assert_eq!(maker.symbols, vec![p, norm]);
}

#[test]
fn modules_are_entered_in_registration_order() {
    let mut graph = ScopeGraph::new();
    let mut ast = AstCtx::new();
    let root = Scope::new_root(&mut graph);
    let b = module(&mut graph, root, "b");
    let a = module(&mut graph, root, "a");
    let mut expected = Vec::new();
    for (scope, name) in [(a, "in_a"), (b, "in_b"), (root, "top")] {
        let symbol = ast.make_symbol();
        let function = scope.named_child(&mut graph, ScopeType::Function, name);
        let node = Node::new(symbol.index, "extern_function_declaration");
        scope.add_item(&mut graph, Some(name), NamedItem::Function(symbol, node, function)).unwrap();
        expected.push(symbol);
    }
    let mut maker = Maker::new(ast);
    maker.make(&graph, root, &types, &exprs).unwrap();
    assert_eq!(maker.symbols, vec![expected[1], expected[0], expected[2]]);
}

#[test]
fn classify_tells_the_shapes_apart() {
    let mut graph = ScopeGraph::new();
    let root = Scope::new_root(&mut graph);
    let scope = root.anonymous_child(&mut graph, ScopeType::Block);
    let other = root.anonymous_child(&mut graph, ScopeType::Impl);
    let symbol = ItemP { index: 3 };
    let ty = || NamedItem::Type(symbol, Node::new(0, "struct_definition"), scope);
    let im = || NamedItem::Impl(Node::new(1, "impl_block"), other);
    let f = || NamedItem::Function(symbol, Node::new(2, "function_definition"), scope);
    assert!(matches!(classify(&[NamedItem::Module(scope)]), Shape::Module(s) if s == scope));
    assert!(matches!(classify(&[ty()]), Shape::Type(p, s) if p == symbol && s == scope));
    assert!(matches!(classify(&[f()]), Shape::Function(p, s) if p == symbol && s == scope));
    assert!(matches!(
        classify(&[ty(), im()]),
        Shape::TypeWithImpl(p, s, i) if p == symbol && s == scope && i == other
    ));
    assert!(matches!(classify(&[]), Shape::Other));
    assert!(matches!(classify(&[im()]), Shape::Other));
    assert!(matches!(classify(&[im(), ty()]), Shape::Other));
    assert!(matches!(classify(&[ty(), im(), im()]), Shape::Other));
    assert!(matches!(classify(&[f(), f()]), Shape::Other));
    assert!(matches!(classify(&[NamedItem::Local(AstId { id: 0 })]), Shape::Other));
}

#[test]
fn supported_nodes() {
    assert!(Maker::supports_type(&Node::new(0, "struct_definition")));
    assert!(!Maker::supports_type(&Node::new(0, "enum_definition")));
    assert!(Maker::supports_function(&Node::new(0, "extern_function_declaration")));
    assert!(Maker::supports_function(&Node::new(0, "function_definition").with_field("body", 1)));
    assert!(!Maker::supports_function(&Node::new(0, "function_definition")));
    assert!(!Maker::supports_function(&Node::new(0, "macro_definition").with_field("body", 1)));
}

#[test]
fn symbols_are_assigned_once_and_read_after() {
    let mut ast = AstCtx::new();
    let a = ast.make_symbol();
    let b = ast.make_symbol();
    assert_ne!(a, b);
    assert_eq!(ast.len(), 2);
    assert!(ast.get(a).is_none());
    assert!(!ast.is_assigned(a));
    assert!(!ast.is_assigned(ItemP { index: 2 }));
    assert!(ast.get(ItemP { index: 2 }).is_none());
    let mut maker = Maker::new(ast);
    assert!(maker.symbols.is_empty());
    let mut graph = ScopeGraph::new();
    let root = Scope::new_root(&mut graph);
    let scope = root.named_child(&mut graph, ScopeType::StructLike, "S");
    maker
        .make_struct(&graph, b, &Node::new(0, "struct_definition"), scope, None, &types)
        .unwrap();
    assert!(maker.ast.is_assigned(b));
    assert!(!maker.ast.is_assigned(a));
    assert_eq!(maker.symbols, vec![b]);
}

#[test]
fn can_make_tells_when_make_may_be_called() {
    let Point { graph, ast, module, .. } = point(false);
    assert!(graph.is_nested());
    let mut maker = Maker::new(ast);
    assert!(maker.can_make(&graph, module));
    maker.make(&graph, module, &types, &exprs).unwrap();
    assert!(!maker.can_make(&graph, module));
}

#[test]
fn can_make_refuses_unsupported_nodes_and_missing_annotations() {
    let build = |kind: &str, field: Node| {
        let mut graph = ScopeGraph::new();
        let mut ast = AstCtx::new();
        let root = Scope::new_root(&mut graph);
        let symbol = ast.make_symbol();
        let scope = root.named_child(&mut graph, ScopeType::StructLike, "S");
        scope.add_item(&mut graph, Some("f"), NamedItem::Field(field)).unwrap();
        root.add_item(&mut graph, Some("S"), NamedItem::Type(symbol, Node::new(1, kind), scope)).unwrap();
        (graph, Maker::new(ast), root, scope)
    };
    let (graph, maker, root, scope) = build("struct_definition", annotated(2, "field", 3));
    assert!(Maker::is_annotated(&graph, scope));
    assert!(maker.can_make(&graph, root));
    let (graph, maker, root, _) = build("enum_definition", annotated(2, "field", 3));
    assert!(!maker.can_make(&graph, root));
    let (graph, maker, root, scope) = build("struct_definition", Node::new(2, "field"));
    assert!(!Maker::is_annotated(&graph, scope));
    assert!(!maker.can_make(&graph, root));
}

#[test]
fn can_make_refuses_a_symbol_that_is_used_twice_or_unknown() {
    let mut graph = ScopeGraph::new();
    let mut ast = AstCtx::new();
    let root = Scope::new_root(&mut graph);
    let symbol = ast.make_symbol();
    for name in ["f", "g"] {
        let scope = root.named_child(&mut graph, ScopeType::Function, name);
        let node = Node::new(1, "extern_function_declaration");
        root.add_item(&mut graph, Some(name), NamedItem::Function(symbol, node, scope)).unwrap();
    }
    assert!(!Maker::new(ast).can_make(&graph, root));

    let mut graph = ScopeGraph::new();
    let root = Scope::new_root(&mut graph);
    let scope = root.named_child(&mut graph, ScopeType::Function, "f");
    let node = Node::new(1, "extern_function_declaration");
    root.add_item(&mut graph, Some("f"), NamedItem::Function(ItemP { index: 0 }, node, scope)).unwrap();
    assert!(!Maker::new(AstCtx::new()).can_make(&graph, root));
}

#[test]
fn is_nested_tells_when_an_item_carries_an_older_scope() {
    let mut graph = ScopeGraph::new();
    let root = Scope::new_root(&mut graph);
    let child = root.named_child(&mut graph, ScopeType::Module, "m");
    root.add_item(&mut graph, Some("m"), NamedItem::Module(child)).unwrap();
    assert!(graph.is_nested());
    child.add_item(&mut graph, Some("up"), NamedItem::Module(root)).unwrap();
    assert!(!graph.is_nested());
    let mut graph = ScopeGraph::new();
    let root = Scope::new_root(&mut graph);
    root.add_item(&mut graph, Some("me"), NamedItem::Module(root)).unwrap();
    assert!(!graph.is_nested());
}
