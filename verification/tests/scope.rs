use scope_graph::ast::{AstId, ItemP};
use scope_graph::common::CodeErrorKind;
use scope_graph::name_resolution::path::{Path, PathSegment};
use scope_graph::name_resolution::scope::{merge_allowed, NamedItem, Scope, ScopeGraph, ScopeType};
use scope_graph::parser::{Node, SourceId};

fn path(absolute: bool, segments: &[&str]) -> Path {
    Path { absolute, segments: segments.iter().map(|s| PathSegment(s.to_string())).collect() }
}

fn segments(path: &Path) -> Vec<String> {
    path.segments.iter().map(|s| s.0.clone()).collect()
}

fn function(graph: &mut ScopeGraph, parent: Scope, name: &str, symbol: usize) -> NamedItem {
    let scope = parent.named_child(graph, ScopeType::Function, name);
    NamedItem::Function(ItemP { index: symbol }, Node::new(symbol, "function_definition"), scope)
}

fn ty(graph: &mut ScopeGraph, parent: Scope, name: &str, symbol: usize) -> NamedItem {
    let scope = parent.named_child(graph, ScopeType::StructLike, name);
    NamedItem::Type(ItemP { index: symbol }, Node::new(symbol, "struct_definition"), scope)
}

fn implementation(graph: &mut ScopeGraph, parent: Scope, node: usize) -> NamedItem {
    let scope = parent.anonymous_child(graph, ScopeType::Impl);
    NamedItem::Impl(Node::new(node, "impl_block"), scope)
}

fn kinds(graph: &ScopeGraph, scope: Scope, name: &str) -> Vec<String> {
    scope.inner(graph).items_with_name(name).iter().map(|item| item.to_string()).collect()
}

#[test]
fn new_root_has_no_parent_no_source_and_the_root_path() {
    let mut graph = ScopeGraph::new();
    let root = Scope::new_root(&mut graph);
    assert_eq!(root.typ(&graph), ScopeType::Root);
    assert_eq!(root.parent(&graph), None);
    assert_eq!(root.code(&graph), None);
    let p = root.path(&graph);
    assert!(p.absolute);
    assert!(p.segments.is_empty());
    assert_eq!(graph.len(), 1);
}

#[test]
fn ensure_module_twice_returns_the_same_scope() {
    let mut graph = ScopeGraph::new();
    let root = Scope::new_root(&mut graph);
    let first = root.ensure_module(&mut graph, path(false, &["std", "io", "fs"])).unwrap();
    let scopes = graph.len();
    let second = root.ensure_module(&mut graph, path(false, &["std", "io", "fs"])).unwrap();
    assert_eq!(first, second);
    assert_eq!(graph.len(), scopes);
    assert_eq!(scopes, 4);
}

#[test]
fn ensure_module_with_an_absolute_path_starts_at_the_root() {
    let mut graph = ScopeGraph::new();
    let root = Scope::new_root(&mut graph);
    let deep = root.ensure_module(&mut graph, path(false, &["a", "b"])).unwrap();
    let from_deep = deep.ensure_module(&mut graph, path(true, &["x", "y"])).unwrap();
    let from_root = root.ensure_module(&mut graph, path(false, &["x", "y"])).unwrap();
    assert_eq!(from_deep, from_root);
    assert_eq!(segments(&from_deep.path(&graph)), vec!["x", "y"]);
    let relative = deep.ensure_module(&mut graph, path(false, &["x", "y"])).unwrap();
    assert_ne!(relative, from_root);
    assert_eq!(segments(&relative.path(&graph)), vec!["a", "b", "x", "y"]);
}

#[test]
fn ensure_module_with_an_empty_path_is_the_scope_itself() {
    let mut graph = ScopeGraph::new();
    let root = Scope::new_root(&mut graph);
    let module = root.ensure_module(&mut graph, path(false, &["m"])).unwrap();
    assert_eq!(module.ensure_module(&mut graph, path(false, &[])).unwrap(), module);
    assert_eq!(module.ensure_module(&mut graph, path(true, &[])).unwrap(), root);
    assert_eq!(graph.len(), 2);
}

#[test]
fn ensure_module_makes_a_crate_under_the_root_and_modules_below() {
    let mut graph = ScopeGraph::new();
    let root = Scope::new_root(&mut graph);
    let inner = root.ensure_module(&mut graph, path(false, &["std", "io"])).unwrap();
    let krate = inner.parent(&graph).unwrap();
    assert_eq!(krate.typ(&graph), ScopeType::Crate);
    assert_eq!(inner.typ(&graph), ScopeType::Module);
    assert_eq!(krate.parent(&graph), Some(root));
    assert_eq!(inner.code(&graph), None);
    assert_eq!(kinds(&graph, root, "std"), vec!["module"]);
    assert_eq!(kinds(&graph, krate, "io"), vec!["module"]);
}

#[test]
fn ensure_module_refuses_a_name_taken_by_something_else() {
    let mut graph = ScopeGraph::new();
    let root = Scope::new_root(&mut graph);
    let krate = root.ensure_module(&mut graph, path(false, &["app"])).unwrap();
    let item = function(&mut graph, krate, "run", 0);
    krate.add_item(&mut graph, Some("run"), item).unwrap();
    let scopes = graph.len();
    let outcome = root.ensure_module(&mut graph, path(false, &["app", "util", "run"]));
    assert!(outcome.is_ok());
    let outcome = root.ensure_module(&mut graph, path(false, &["app", "run", "deep"]));
    match outcome {
        Err(CodeErrorKind::DuplicateName(name)) => assert_eq!(name, "run"),
        other => panic!("expected a duplicate name, got {:?}", other),
    }
    assert_eq!(graph.len(), scopes + 2);
}

#[test]
fn ensure_module_in_a_block_shadows_what_the_name_held() {
    let mut graph = ScopeGraph::new();
    let root = Scope::new_root(&mut graph);
    let block = root.anonymous_child(&mut graph, ScopeType::Block);
    block.add_item(&mut graph, Some("m"), NamedItem::Local(AstId { id: 1 })).unwrap();
    let module = block.ensure_module(&mut graph, path(false, &["m"])).unwrap();
    assert_eq!(module.typ(&graph), ScopeType::Module);
    assert_eq!(kinds(&graph, block, "m"), vec!["module"]);
    assert_eq!(block.ensure_module(&mut graph, path(false, &["m"])).unwrap(), module);
}

#[test]
fn block_scope_keeps_only_the_last_registration() {
    let mut graph = ScopeGraph::new();
    let root = Scope::new_root(&mut graph);
    let block = root.anonymous_child(&mut graph, ScopeType::Block);
    block.add_item(&mut graph, Some("x"), NamedItem::Local(AstId { id: 1 })).unwrap();
    block.add_item(&mut graph, Some("x"), NamedItem::Local(AstId { id: 2 })).unwrap();
    let inner = block.inner(&graph);
    let found = inner.items_with_name("x");
    assert_eq!(found.len(), 1);
    assert!(matches!(found[0], NamedItem::Local(AstId { id: 2 })));
}

#[test]
fn block_scope_shadowing_keeps_the_place_of_the_name() {
    let mut graph = ScopeGraph::new();
    let root = Scope::new_root(&mut graph);
    let block = root.anonymous_child(&mut graph, ScopeType::Block);
    block.add_item(&mut graph, Some("a"), NamedItem::Local(AstId { id: 1 })).unwrap();
    block.add_item(&mut graph, Some("b"), NamedItem::Local(AstId { id: 2 })).unwrap();
    block.add_item(&mut graph, Some("a"), NamedItem::Local(AstId { id: 3 })).unwrap();
    let inner = block.inner(&graph);
    let all = inner.all_items();
    assert_eq!(all.len(), 2);
    assert_eq!(all[0].0, Some("a"));
    assert!(matches!(all[0].1, NamedItem::Local(AstId { id: 3 })));
    assert_eq!(all[1].0, Some("b"));
}

#[test]
fn type_then_impl_are_grouped_type_first() {
    let mut graph = ScopeGraph::new();
    let root = Scope::new_root(&mut graph);
    let t = ty(&mut graph, root, "Foo", 0);
    let i = implementation(&mut graph, root, 1);
    root.add_item(&mut graph, Some("Foo"), t).unwrap();
    root.add_item(&mut graph, Some("Foo"), i).unwrap();
    let inner = root.inner(&graph);
    let groups = inner.grouped_items();
    assert_eq!(groups.len(), 1);
    assert_eq!(groups[0].0, Some("Foo"));
    assert_eq!(groups[0].1.len(), 2);
    assert!(matches!(groups[0].1[0], NamedItem::Type(..)));
    assert!(matches!(groups[0].1[1], NamedItem::Impl(..)));
}

#[test]
fn impl_then_type_are_grouped_type_first() {
    let mut graph = ScopeGraph::new();
    let root = Scope::new_root(&mut graph);
    let i = implementation(&mut graph, root, 1);
    let t = ty(&mut graph, root, "Foo", 0);
    root.add_item(&mut graph, Some("Foo"), i).unwrap();
    root.add_item(&mut graph, Some("Foo"), t).unwrap();
    let inner = root.inner(&graph);
    let groups = inner.grouped_items();
    assert_eq!(groups.len(), 1);
    assert_eq!(groups[0].1.len(), 2);
    assert!(matches!(groups[0].1[0], NamedItem::Type(..)));
    assert!(matches!(groups[0].1[1], NamedItem::Impl(..)));
}

#[test]
fn several_impls_keep_their_order_behind_the_type() {
    let mut graph = ScopeGraph::new();
    let root = Scope::new_root(&mut graph);
    let first = implementation(&mut graph, root, 10);
    let second = implementation(&mut graph, root, 11);
    let t = ty(&mut graph, root, "Foo", 0);
    let third = implementation(&mut graph, root, 12);
    root.add_item(&mut graph, Some("Foo"), first).unwrap();
    root.add_item(&mut graph, Some("Foo"), second).unwrap();
    root.add_item(&mut graph, Some("Foo"), t).unwrap();
    root.add_item(&mut graph, Some("Foo"), third).unwrap();
    let inner = root.inner(&graph);
    let found = inner.items_with_name("Foo");
    assert_eq!(found.len(), 4);
    assert!(matches!(found[0], NamedItem::Type(..)));
    let nodes: Vec<usize> = found[1..]
        .iter()
        .map(|item| match item {
            NamedItem::Impl(node, _) => node.id,
            _ => panic!("expected an implementation"),
        })
        .collect();
    assert_eq!(nodes, vec![10, 11, 12]);
}

#[test]
fn a_second_type_under_a_name_is_refused() {
    let mut graph = ScopeGraph::new();
    let root = Scope::new_root(&mut graph);
    let first = ty(&mut graph, root, "Foo", 0);
    let i = implementation(&mut graph, root, 1);
    let second = ty(&mut graph, root, "Foo", 2);
    root.add_item(&mut graph, Some("Foo"), first).unwrap();
    root.add_item(&mut graph, Some("Foo"), i).unwrap();
    assert!(!root.accepts(&graph, Some("Foo"), &second));
    let outcome = root.add_item(&mut graph, Some("Foo"), second);
    assert!(matches!(outcome, Err(CodeErrorKind::DuplicateName(ref name)) if name == "Foo"));
    assert_eq!(kinds(&graph, root, "Foo"), vec!["type", "impl"]);
}

#[test]
fn an_impl_does_not_join_a_function() {
    let mut graph = ScopeGraph::new();
    let root = Scope::new_root(&mut graph);
    let f = function(&mut graph, root, "Foo", 0);
    let i = implementation(&mut graph, root, 1);
    root.add_item(&mut graph, Some("Foo"), f).unwrap();
    let outcome = root.add_item(&mut graph, Some("Foo"), i);
    assert!(matches!(outcome, Err(CodeErrorKind::DuplicateName(ref name)) if name == "Foo"));
    assert_eq!(kinds(&graph, root, "Foo"), vec!["function"]);
}

#[test]
fn two_functions_under_one_name_are_a_duplicate() {
    let mut graph = ScopeGraph::new();
    let root = Scope::new_root(&mut graph);
    let module = root.ensure_module(&mut graph, path(false, &["m"])).unwrap();
    let first = function(&mut graph, module, "Foo", 0);
    let second = function(&mut graph, module, "Foo", 1);
    module.add_item(&mut graph, Some("Foo"), first).unwrap();
    let outcome = module.add_item(&mut graph, Some("Foo"), second);
    match outcome {
        Err(CodeErrorKind::DuplicateName(name)) => assert_eq!(name, "Foo"),
        other => panic!("expected a duplicate name, got {:?}", other),
    }
    let inner = module.inner(&graph);
    let found = inner.items_with_name("Foo");
    assert_eq!(found.len(), 1);
    assert!(matches!(found[0], NamedItem::Function(ItemP { index: 0 }, _, _)));
}

#[test]
fn unnamed_items_never_conflict() {
    let mut graph = ScopeGraph::new();
    let root = Scope::new_root(&mut graph);
    for scope in [root, root.anonymous_child(&mut graph, ScopeType::Block)] {
        scope.add_item(&mut graph, None, NamedItem::Local(AstId { id: 1 })).unwrap();
        scope.add_item(&mut graph, None, NamedItem::Local(AstId { id: 2 })).unwrap();
        scope.add_item(&mut graph, None, NamedItem::Field(Node::new(3, "field"))).unwrap();
        let inner = scope.inner(&graph);
        let groups = inner.grouped_items();
        assert_eq!(groups.len(), 1);
        assert_eq!(groups[0].0, None);
        assert_eq!(groups[0].1.len(), 3);
        assert!(matches!(groups[0].1[0], NamedItem::Local(AstId { id: 1 })));
        assert!(matches!(groups[0].1[1], NamedItem::Local(AstId { id: 2 })));
        assert!(matches!(groups[0].1[2], NamedItem::Field(_)));
    }
}

#[test]
fn all_items_keeps_bucket_order_and_entry_order() {
    let mut graph = ScopeGraph::new();
    let root = Scope::new_root(&mut graph);
    let i = implementation(&mut graph, root, 7);
    let t = ty(&mut graph, root, "Point", 0);
    root.add_item(&mut graph, Some("zeta"), NamedItem::Const(ItemP { index: 5 }, Node::new(5, "const")))
        .unwrap();
    root.add_item(&mut graph, Some("Point"), i).unwrap();
    root.add_item(&mut graph, None, NamedItem::Local(AstId { id: 9 })).unwrap();
    root.add_item(&mut graph, Some("alpha"), NamedItem::Static(ItemP { index: 6 }, Node::new(6, "static")))
        .unwrap();
    root.add_item(&mut graph, Some("Point"), t).unwrap();
    let inner = root.inner(&graph);
    let all: Vec<(Option<&str>, String)> =
        inner.all_items().iter().map(|(name, item)| (*name, item.to_string())).collect();
    assert_eq!(
        all,
        vec![
            (Some("zeta"), "const".to_string()),
            (Some("Point"), "type".to_string()),
            (Some("Point"), "impl".to_string()),
            (None, "local".to_string()),
            (Some("alpha"), "static".to_string()),
        ]
    );
    assert_eq!(inner.group_count(), 4);
    assert!(inner.group(4).is_none());
    assert_eq!(inner.group(3).unwrap().0, Some("alpha"));
}

#[test]
fn items_with_name_matches_the_exact_name_only() {
    let mut graph = ScopeGraph::new();
    let root = Scope::new_root(&mut graph);
    root.add_item(&mut graph, Some("ab"), NamedItem::Local(AstId { id: 1 })).unwrap();
    root.add_item(&mut graph, None, NamedItem::Local(AstId { id: 2 })).unwrap();
    let inner = root.inner(&graph);
    assert_eq!(inner.items_with_name("a").len(), 0);
    assert_eq!(inner.items_with_name("abc").len(), 0);
    assert_eq!(inner.items_with_name("").len(), 0);
    assert_eq!(inner.items_with_name("ab").len(), 1);
}

#[test]
fn find_super_passes_through_function_and_block() {
    let mut graph = ScopeGraph::new();
    let root = Scope::new_root(&mut graph);
    let module = root.ensure_module(&mut graph, path(false, &["krate", "module"])).unwrap();
    let krate = module.parent(&graph).unwrap();
    let function = module.named_child(&mut graph, ScopeType::Function, "f");
    let block = function.anonymous_child(&mut graph, ScopeType::Block);
    assert_eq!(block.find_super(&graph), Some(krate));
    assert_eq!(function.find_super(&graph), Some(krate));
    assert_eq!(module.find_super(&graph), Some(krate));
    assert_eq!(krate.find_super(&graph), None);
    assert_eq!(root.find_super(&graph), None);
}

#[test]
fn find_super_is_none_below_a_crate_without_a_module() {
    let mut graph = ScopeGraph::new();
    let root = Scope::new_root(&mut graph);
    let krate = root.ensure_module(&mut graph, path(false, &["krate"])).unwrap();
    let strukt = krate.named_child(&mut graph, ScopeType::StructLike, "S");
    let implementation = krate.anonymous_child(&mut graph, ScopeType::Impl);
    let method = implementation.named_child(&mut graph, ScopeType::Function, "m");
    assert_eq!(strukt.find_super(&graph), None);
    assert_eq!(method.find_super(&graph), None);
    let orphan = root.named_child(&mut graph, ScopeType::Enum, "E");
    assert_eq!(orphan.find_super(&graph), None);
}

#[test]
fn find_containing_function_is_the_nearest_one() {
    let mut graph = ScopeGraph::new();
    let root = Scope::new_root(&mut graph);
    let module = root.ensure_module(&mut graph, path(false, &["krate", "module"])).unwrap();
    let function = module.named_child(&mut graph, ScopeType::Function, "f");
    let closure = function.anonymous_child(&mut graph, ScopeType::Closure);
    let block = closure.anonymous_child(&mut graph, ScopeType::Block);
    assert_eq!(block.find_containing_function(&graph), Some(closure));
    assert_eq!(closure.find_containing_function(&graph), Some(closure));
    assert_eq!(function.find_containing_function(&graph), Some(function));
    assert_eq!(module.find_containing_function(&graph), None);
    assert_eq!(root.find_containing_function(&graph), None);
    let outer_block = function.anonymous_child(&mut graph, ScopeType::Block);
    assert_eq!(outer_block.find_containing_function(&graph), Some(function));
}

#[test]
fn find_root_and_find_crate_walk_the_parents() {
    let mut graph = ScopeGraph::new();
    let root = Scope::new_root(&mut graph);
    let module = root.ensure_module(&mut graph, path(false, &["krate", "a", "b"])).unwrap();
    let function = module.named_child(&mut graph, ScopeType::Function, "f");
    let krate = root.ensure_module(&mut graph, path(false, &["krate"])).unwrap();
    assert_eq!(function.find_root(&graph), root);
    assert_eq!(root.find_root(&graph), root);
    assert_eq!(function.find_crate(&graph), Some(krate));
    assert_eq!(krate.find_crate(&graph), Some(krate));
    assert_eq!(root.find_crate(&graph), None);
    let other_root = Scope::new_root(&mut graph);
    let lonely = other_root.anonymous_child(&mut graph, ScopeType::Block);
    assert_eq!(lonely.find_root(&graph), other_root);
    assert_eq!(lonely.find_crate(&graph), None);
}

#[test]
fn named_child_extends_the_path_and_inherits_the_source() {
    let mut graph = ScopeGraph::new();
    let root = Scope::new_root(&mut graph);
    let module = root.ensure_module(&mut graph, path(false, &["m"])).unwrap();
    let early = module.named_child(&mut graph, ScopeType::Function, "early");
    module.set_code(&mut graph, SourceId { id: 7 });
    let late = module.named_child(&mut graph, ScopeType::Function, "late");
    assert_eq!(module.code(&graph), Some(SourceId { id: 7 }));
    assert_eq!(early.code(&graph), None);
    assert_eq!(late.code(&graph), Some(SourceId { id: 7 }));
    assert_eq!(segments(&late.path(&graph)), vec!["m", "late"]);
    assert!(late.path(&graph).absolute);
    assert_eq!(late.parent(&graph), Some(module));
    assert_eq!(late.typ(&graph), ScopeType::Function);
    assert_eq!(late.inner(&graph).group_count(), 0);
}

#[test]
fn named_child_without_code_has_no_source() {
    let mut graph = ScopeGraph::new();
    let root = Scope::new_root(&mut graph);
    root.set_code(&mut graph, SourceId { id: 3 });
    let child = root.named_child_without_code(&mut graph, ScopeType::Module, "m");
    assert_eq!(child.code(&graph), None);
    assert_eq!(segments(&child.path(&graph)), vec!["m"]);
    assert_eq!(child.parent(&graph), Some(root));
    child.set_code(&mut graph, SourceId { id: 4 });
    assert_eq!(child.code(&graph), Some(SourceId { id: 4 }));
    assert_eq!(root.code(&graph), Some(SourceId { id: 3 }));
}

#[test]
fn anonymous_child_keeps_the_path_and_inherits_the_source() {
    let mut graph = ScopeGraph::new();
    let root = Scope::new_root(&mut graph);
    let module = root.ensure_module(&mut graph, path(false, &["a", "b"])).unwrap();
    module.set_code(&mut graph, SourceId { id: 11 });
    let block = module.anonymous_child(&mut graph, ScopeType::Block);
    assert_eq!(segments(&block.path(&graph)), vec!["a", "b"]);
    assert_eq!(block.code(&graph), Some(SourceId { id: 11 }));
    assert_eq!(block.parent(&graph), Some(module));
    assert_eq!(block.typ(&graph), ScopeType::Block);
}

#[test]
fn scope_handles_are_equal_only_for_the_same_scope() {
    let mut graph = ScopeGraph::new();
    let root = Scope::new_root(&mut graph);
    let a = root.anonymous_child(&mut graph, ScopeType::Block);
    let b = root.anonymous_child(&mut graph, ScopeType::Block);
    assert_ne!(a, b);
    assert_eq!(a, a.clone());
}

#[test]
fn merge_allowed_follows_the_counts() {
    let mut graph = ScopeGraph::new();
    let root = Scope::new_root(&mut graph);
    let t = ty(&mut graph, root, "T", 0);
    let t2 = ty(&mut graph, root, "T", 1);
    let i = implementation(&mut graph, root, 2);
    let i2 = implementation(&mut graph, root, 3);
    let f = function(&mut graph, root, "f", 4);
    assert!(merge_allowed(&vec![t.clone()], &i));
    assert!(!merge_allowed(&vec![t.clone()], &t2));
    assert!(merge_allowed(&vec![i.clone()], &i2));
    assert!(merge_allowed(&vec![i.clone()], &t));
    assert!(merge_allowed(&vec![t.clone(), i.clone()], &i2));
    assert!(!merge_allowed(&vec![t.clone(), i.clone()], &t2));
    assert!(!merge_allowed(&vec![f.clone()], &i));
    assert!(!merge_allowed(&vec![f.clone()], &t));
    assert!(!merge_allowed(&vec![i.clone()], &f));
    assert!(!merge_allowed(&vec![], &i));
    assert!(!merge_allowed(&vec![t.clone(), t2.clone()], &i));
}

#[test]
fn named_items_have_their_words() {
    let mut graph = ScopeGraph::new();
    let root = Scope::new_root(&mut graph);
    let scope = root.anonymous_child(&mut graph, ScopeType::Block);
    let symbol = ItemP { index: 0 };
    let id = AstId { id: 0 };
    let node = || Node::new(0, "n");
    let items = vec![
        (NamedItem::Alias(Path::root()), "alias"),
        (NamedItem::Function(symbol, node(), scope), "function"),
        (NamedItem::Static(symbol, node()), "static"),
        (NamedItem::Const(symbol, node()), "const"),
        (NamedItem::Macro(symbol, node(), scope), "macro"),
        (NamedItem::Type(symbol, node(), scope), "type"),
        (NamedItem::Mixin(node(), scope), "mixin"),
        (NamedItem::Module(scope), "module"),
        (NamedItem::Protocol(symbol, node(), scope), "protocol"),
        (NamedItem::Impl(node(), scope), "impl"),
        (NamedItem::Placeholder(id, node()), "placeholder"),
        (NamedItem::Field(node()), "field"),
        (NamedItem::EnumMember(symbol, id, node()), "enum member"),
        (NamedItem::Local(id), "local"),
        (NamedItem::Parameter(id, node()), "parameter"),
        (NamedItem::MacroParameter(id, true), "macro parameter"),
    ];
    for (item, word) in &items {
        assert_eq!(item.to_string(), *word);
    }
    let with_scope = items.iter().filter(|(item, _)| item.scope() == Some(scope)).count();
    let without = items.iter().filter(|(item, _)| item.scope().is_none()).count();
    assert_eq!((with_scope, without), (7, 9));
}

#[test]
fn path_extension_leaves_the_extended_path_alone() {
    let root = Path::root();
    let a = root.extend(PathSegment("a".to_string()));
    let ab = a.extend(PathSegment("b".to_string()));
    assert!(root.absolute && a.absolute && ab.absolute);
    assert!(root.segments.is_empty());
    assert_eq!(segments(&a), vec!["a"]);
    assert_eq!(segments(&ab), vec!["a", "b"]);
    let relative = path(false, &["x"]).extend(PathSegment("y".to_string()));
    assert!(!relative.absolute);
    assert_eq!(segments(&relative), vec!["x", "y"]);
    assert_eq!(segments(&ab.clone()), vec!["a", "b"]);
}

#[test]
fn node_children_are_found_by_field_name() {
    let node = Node::new(1, "function_definition")
        .with_field("name", 2)
        .with_field("body", 3)
        .with_field("body", 4);
    assert!(node.is_kind("function_definition"));
    assert!(!node.is_kind("function"));
    assert_eq!(node.child_by_field_name("body"), Some(3));
    assert_eq!(node.child_by_field_name("name"), Some(2));
    assert_eq!(node.child_by_field_name("return_type"), None);
    assert_eq!(Node::new(9, "x").child_by_field_name("body"), None);
}

#[test]
fn duplicate_name_has_its_message() {
    let error = CodeErrorKind::DuplicateName("Foo".to_string());
    assert_eq!(error.message(), "duplicate name");
}

#[test]
fn parse_splits_a_dotted_name() {
    let parsed = Path::parse("std.io.fs");
    assert!(!parsed.absolute);
    assert_eq!(segments(&parsed), vec!["std", "io", "fs"]);
    assert_eq!(segments(&Path::parse("hello_world")), vec!["hello_world"]);
    assert!(Path::parse("").segments.is_empty());
    assert!(Path::parse("...").segments.is_empty());
    assert_eq!(segments(&Path::parse(".a..b.")), vec!["a", "b"]);
    assert_eq!(segments(&Path::parse("größe.λ.x")), vec!["größe", "λ", "x"]);
}

#[test]
fn a_parsed_path_resolves_like_one_built_by_hand() {
    let mut graph = ScopeGraph::new();
    let root = Scope::new_root(&mut graph);
    let by_hand = root.ensure_module(&mut graph, path(false, &["a", "b"])).unwrap();
    let parsed = root.ensure_module(&mut graph, Path::parse("a.b")).unwrap();
    assert_eq!(by_hand, parsed);
}
