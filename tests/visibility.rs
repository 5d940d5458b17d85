use decl_engine::collection::{CollectionContext, CollectionEdge, CollectionIndex, CollectionNode, TyFile};
use decl_engine::declarations::{DeclarationEngine, DeclarationError};
use decl_engine::type_system::{DeclarationId, TypeId};
use decl_engine::typed::{
    TyDeclaration, TyExpression, TyExpressionVariant, TyFunctionDeclaration, TyNode,
    TyStructDeclaration, TyTraitDeclaration, TyTraitImpl, TypeMapping,
};
use decl_engine::visibility::visible_declarations;

fn function(name: &str) -> TyFunctionDeclaration {
    TyFunctionDeclaration {
        name: name.to_string(),
        type_parameters: vec![],
        parameters: vec![],
        body: vec![],
        return_type: TypeId { index: 0 },
    }
}

fn decl_node(d: TyDeclaration) -> CollectionNode {
    CollectionNode::Node(TyNode::Declaration(d))
}

fn expr_node() -> CollectionNode {
    CollectionNode::Node(TyNode::Expression(TyExpression {
        variant: TyExpressionVariant::FunctionParameter,
        type_id: TypeId { index: 0 },
    }))
}

#[test]
fn sibling_files_do_not_see_each_other() {
    let mut decls = DeclarationEngine::new();
    let id1 = decls.insert_function(function("main"));
    let id2 = decls.insert_function(function("main"));
    let mut ctx = CollectionContext::new();
    let app = ctx.add_node(CollectionNode::Application);
    let file1 = ctx.add_node(CollectionNode::File { name: "a".to_string() });
    let file2 = ctx.add_node(CollectionNode::File { name: "b".to_string() });
    let f1 = ctx.add_node(decl_node(TyDeclaration::Function(id1)));
    let f2 = ctx.add_node(decl_node(TyDeclaration::Function(id2)));
    let body1 = ctx.add_node(expr_node());
    ctx.add_edge(app, file1, CollectionEdge::ApplicationContents);
    ctx.add_edge(app, file2, CollectionEdge::ApplicationContents);
    ctx.add_edge(file1, f1, CollectionEdge::FileContents);
    ctx.add_edge(file2, f2, CollectionEdge::FileContents);
    ctx.add_edge(f1, body1, CollectionEdge::DeclarationContents);
    ctx.add_edge(body1, f1, CollectionEdge::SharedScope);
    ctx.add_edge(body1, file1, CollectionEdge::FileContents);
    ctx.add_edge(body1, app, CollectionEdge::ApplicationContents);
    let seen = visible_declarations(&ctx, &decls, body1).unwrap();
    assert_eq!(seen, vec![("main".to_string(), id1)]);
    let from_app = visible_declarations(&ctx, &decls, app).unwrap();
    assert!(from_app.is_empty());
    let from_file2 = visible_declarations(&ctx, &decls, file2).unwrap();
    assert!(from_file2.is_empty());
}

#[test]
fn impl_methods_are_visible_through_a_shared_scope() {
    let mut decls = DeclarationEngine::new();
    let m = decls.insert_function(function("method"));
    let ti = decls.insert_trait_impl(TyTraitImpl {
        trait_name: "Show".to_string(),
        type_implementing_for: TypeId { index: 0 },
        type_parameters: vec![],
        methods: vec![m],
    });
    let mut ctx = CollectionContext::new();
    let scope = ctx.add_node(expr_node());
    let imp = ctx.add_node(decl_node(TyDeclaration::TraitImpl(ti)));
    let meth = ctx.add_node(decl_node(TyDeclaration::Function(m)));
    ctx.add_edge(imp, meth, CollectionEdge::DeclarationContents);
    let before = visible_declarations(&ctx, &decls, scope).unwrap();
    assert!(before.is_empty());
    ctx.add_edge(scope, imp, CollectionEdge::SharedScope);
    let seen = visible_declarations(&ctx, &decls, scope).unwrap();
    assert_eq!(seen, vec![("Show".to_string(), ti), ("method".to_string(), m)]);
}

#[test]
fn traversal_is_breadth_first_in_edge_order_and_survives_cycles() {
    let mut decls = DeclarationEngine::new();
    let a = decls.insert_function(function("a"));
    let b = decls.insert_trait(TyTraitDeclaration { name: "B".to_string(), interface_surface: vec![] });
    let c = decls.insert_struct(TyStructDeclaration {
        name: "C".to_string(),
        type_parameters: vec![],
        fields: vec![],
    });
    let mut ctx = CollectionContext::new();
    let root = ctx.add_node(expr_node());
    let na = ctx.add_node(decl_node(TyDeclaration::Function(a)));
    let nb = ctx.add_node(decl_node(TyDeclaration::Trait(b)));
    let nc = ctx.add_node(decl_node(TyDeclaration::Struct(c)));
    ctx.add_edge(root, nb, CollectionEdge::ScopedChild);
    ctx.add_edge(root, na, CollectionEdge::NodeContents);
    ctx.add_edge(nb, nc, CollectionEdge::ScopedChild);
    ctx.add_edge(nc, root, CollectionEdge::SharedScope);
    let seen = visible_declarations(&ctx, &decls, root).unwrap();
    assert_eq!(
        seen,
        vec![("B".to_string(), b), ("a".to_string(), a), ("C".to_string(), c)]
    );
}

#[test]
fn missing_or_mismatched_declarations_fail_the_traversal() {
    let mut decls = DeclarationEngine::new();
    let s = decls.insert_struct(TyStructDeclaration {
        name: "S".to_string(),
        type_parameters: vec![],
        fields: vec![],
    });
    let mut ctx = CollectionContext::new();
    let root = ctx.add_node(decl_node(TyDeclaration::Function(DeclarationId { index: 40 })));
    assert_eq!(visible_declarations(&ctx, &decls, root), Err(DeclarationError::NotFound));
    let wrong = ctx.add_node(decl_node(TyDeclaration::Trait(s)));
    assert_eq!(visible_declarations(&ctx, &decls, wrong), Err(DeclarationError::KindMismatch));
}

#[test]
fn out_edges_come_most_recent_first() {
    let mut ctx = CollectionContext::new();
    let n0 = ctx.add_node(expr_node());
    let n1 = ctx.add_node(expr_node());
    let n2 = ctx.add_node(expr_node());
    assert_eq!((n0.index, n1.index, n2.index), (0, 1, 2));
    ctx.add_edge(n0, n1, CollectionEdge::FileContents);
    ctx.add_edge(n0, n2, CollectionEdge::SharedScope);
    ctx.add_edge(n1, n2, CollectionEdge::NodeContents);
    ctx.add_edge(n0, n0, CollectionEdge::ScopedChild);
    assert_eq!(
        ctx.out_edges(n0),
        vec![(0, CollectionEdge::ScopedChild), (2, CollectionEdge::SharedScope), (1, CollectionEdge::FileContents)]
    );
    assert_eq!(ctx.out_edges(n1), vec![(2, CollectionEdge::NodeContents)]);
    assert!(ctx.out_edges(CollectionIndex { index: 2 }).is_empty());
}

#[test]
fn only_program_and_file_edges_stop_visibility() {
    assert!(!CollectionEdge::ApplicationContents.is_propagating());
    assert!(!CollectionEdge::FileContents.is_propagating());
    assert!(CollectionEdge::SharedScope.is_propagating());
    assert!(CollectionEdge::NodeContents.is_propagating());
    assert!(CollectionEdge::DeclarationContents.is_propagating());
    assert!(CollectionEdge::ScopedChild.is_propagating());
}

#[test]
fn file_copy_types_substitutes_its_syntax_nodes() {
    let mut ctx = CollectionContext::new();
    let file = ctx.add_node(CollectionNode::File { name: "a".to_string() });
    let e = ctx.add_node(expr_node());
    let f = TyFile { name: "a".to_string(), nodes: vec![file, e] };
    f.copy_types(&mut ctx, &TypeMapping { pairs: vec![(TypeId { index: 0 }, TypeId { index: 8 })] });
    match &ctx.nodes[1] {
        CollectionNode::Node(TyNode::Expression(x)) => assert_eq!(x.type_id, TypeId { index: 8 }),
        _ => panic!("expected an expression node"),
    }
    assert!(matches!(&ctx.nodes[0], CollectionNode::File { name } if name == "a"));
}

#[test]
fn default_type_is_unknown() {
    assert!(matches!(decl_engine::type_system::TypeInfo::default(), decl_engine::type_system::TypeInfo::Unknown));
}
