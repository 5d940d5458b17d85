use decl_engine::collect::{collect_file, type_collect_declaration, type_collect_node, CollectError};
use decl_engine::collection::{CollectionContext, CollectionEdge, CollectionIndex, CollectionNode, TyApplication};
use decl_engine::visibility::visible_declarations;
use decl_engine::declarations::{DeclarationEngine, DeclarationError};
use decl_engine::monomorphize::{monomorphize, MonomorphizeError};
use decl_engine::namespace::{eval_type, Namespace, ResolutionError};
use decl_engine::type_system::{t_u32, t_u8, IntegerBits, TypeEngine, TypeId, TypeInfo};
use decl_engine::typed::{TyDeclaration, TyExpressionVariant, TyNode, TypeParameter};
use decl_engine::untyped::{
    func_app, u8, var, Declaration, Expression, FunctionDeclaration, FunctionParameter, Node,
    StructDeclaration, StructField, TraitDeclaration, TraitFn, TraitImpl, TypeArgument,
    VariableDeclaration,
};

fn named(name: &str) -> TypeInfo {
    TypeInfo::UnknownGeneric { name: name.to_string() }
}

fn point() -> Declaration {
    Declaration::Struct(StructDeclaration {
        name: "Point".to_string(),
        type_parameters: vec![],
        fields: vec![StructField { name: "x".to_string(), type_info: t_u32() }],
    })
}

fn let_point(name: &str) -> Declaration {
    Declaration::Variable(VariableDeclaration {
        name: name.to_string(),
        type_ascription: named("Point"),
        body: u8(0),
    })
}

#[test]
fn struct_names_are_bound_where_the_struct_is_declared() {
    let (mut types, mut decls, mut ns) = (TypeEngine::new(), DeclarationEngine::new(), Namespace::new());
    ns.enter_scope();
    let s = type_collect_declaration(&mut types, &mut decls, &mut ns, &point()).unwrap();
    let id = match s {
        TyDeclaration::Struct(id) => id,
        _ => panic!("expected a struct"),
    };
    assert_eq!(decls.get_struct(id).unwrap().name, "Point");
    assert_eq!(decls.get_struct(id).unwrap().fields[0].name, "x");
    let v = type_collect_declaration(&mut types, &mut decls, &mut ns, &let_point("p")).unwrap();
    let v = v.expect_variable().unwrap();
    assert_eq!(v.name, "p");
    match types.look_up(v.type_ascription) {
        Some(TypeInfo::DeclarationRef { decl, type_arguments }) => {
            assert_eq!(decl.id, id);
            assert_eq!(decl.name, "Point");
            assert!(type_arguments.is_empty());
        }
        _ => panic!("expected a struct type"),
    }
    ns.exit_scope();
    let gone = type_collect_declaration(&mut types, &mut decls, &mut ns, &let_point("q"));
    assert_eq!(gone.err(), Some(CollectError::UnresolvedType));
}

#[test]
fn function_and_trait_names_are_not_bound() {
    let (mut types, mut decls, mut ns) = (TypeEngine::new(), DeclarationEngine::new(), Namespace::new());
    let f = Declaration::Function(FunctionDeclaration {
        name: "Point".to_string(),
        type_parameters: vec![],
        parameters: vec![],
        body: vec![],
        return_type: t_u8(),
    });
    let fd = type_collect_declaration(&mut types, &mut decls, &mut ns, &f).unwrap();
    let fid = fd.expect_function().unwrap();
    assert_eq!(decls.get_function(fid).unwrap().name, "Point");
    let t = Declaration::Trait(TraitDeclaration { name: "Point".to_string(), interface_surface: vec![] });
    assert!(type_collect_declaration(&mut types, &mut decls, &mut ns, &t).is_ok());
    let v = type_collect_declaration(&mut types, &mut decls, &mut ns, &let_point("p"));
    assert_eq!(v.err(), Some(CollectError::UnresolvedType));
    assert_eq!(decls.get_struct(fid).err(), Some(DeclarationError::KindMismatch));
}

#[test]
fn functions_see_their_type_parameters_and_keep_their_body() {
    let (mut types, mut decls, mut ns) = (TypeEngine::new(), DeclarationEngine::new(), Namespace::new());
    let t = types.insert(named("T"));
    let f = FunctionDeclaration {
        name: "identity".to_string(),
        type_parameters: vec![TypeParameter { name: "T".to_string(), type_id: t }],
        parameters: vec![FunctionParameter { name: "x".to_string(), type_info: named("T") }],
        body: vec![
            Node::Declaration(point()),
            Node::Declaration(let_point("p")),
            Node::Expression(func_app("g", &[TypeArgument { type_id: t }], &[u8(5), var("x")])),
            Node::ReturnStatement(var("x")),
        ],
        return_type: named("T"),
    };
    let id = type_collect_declaration(&mut types, &mut decls, &mut ns, &Declaration::Function(f))
        .unwrap()
        .expect_function()
        .unwrap();
    let g = decls.get_function(id).unwrap();
    assert_eq!(g.parameters[0].type_id, t);
    assert_eq!(g.return_type, t);
    assert_eq!(g.type_parameters[0].type_id, t);
    assert_eq!(g.body.len(), 4);
    match &g.body[2] {
        TyNode::Expression(e) => match &e.variant {
            TyExpressionVariant::FunctionApplication { name, arguments } => {
                assert_eq!(name, "g");
                assert!(matches!(types.look_up(arguments[0].type_id), Some(TypeInfo::UnsignedInteger(IntegerBits::Eight))));
            }
            _ => panic!("expected an application"),
        },
        _ => panic!("expected an expression"),
    }
    assert!(matches!(g.body[3], TyNode::ReturnStatement(_)));
    let outside = type_collect_declaration(&mut types, &mut decls, &mut ns, &let_point("p"));
    assert_eq!(outside.err(), Some(CollectError::UnresolvedType));
}

#[test]
fn unknown_type_names_are_errors() {
    let (mut types, mut decls, mut ns) = (TypeEngine::new(), DeclarationEngine::new(), Namespace::new());
    let f = FunctionDeclaration {
        name: "f".to_string(),
        type_parameters: vec![],
        parameters: vec![FunctionParameter { name: "x".to_string(), type_info: named("Nope") }],
        body: vec![],
        return_type: t_u8(),
    };
    let r = type_collect_declaration(&mut types, &mut decls, &mut ns, &Declaration::Function(f));
    assert_eq!(r.err(), Some(CollectError::UnresolvedType));
    assert_eq!(decls.len(), 0);
    assert_eq!(eval_type(&mut types, &ns, &named("Nope")), Err(ResolutionError::UnresolvedType));
    let before = types.len();
    let id = eval_type(&mut types, &ns, &t_u8()).unwrap();
    assert_eq!(id.index, before);
}

#[test]
fn generic_trait_impls_are_refused() {
    let (mut types, mut decls, mut ns) = (TypeEngine::new(), DeclarationEngine::new(), Namespace::new());
    let t = types.insert(named("T"));
    let imp = TraitImpl {
        trait_name: "Show".to_string(),
        type_implementing_for: t_u8(),
        type_parameters: vec![TypeParameter { name: "T".to_string(), type_id: t }],
        methods: vec![],
    };
    let r = type_collect_declaration(&mut types, &mut decls, &mut ns, &Declaration::TraitImpl(imp));
    assert_eq!(r.err(), Some(CollectError::GenericTraitImpl));
}

#[test]
fn traits_and_impls_store_their_members() {
    let (mut types, mut decls, mut ns) = (TypeEngine::new(), DeclarationEngine::new(), Namespace::new());
    let tr = TraitDeclaration {
        name: "Show".to_string(),
        interface_surface: vec![TraitFn { name: "show".to_string(), parameters: vec![], return_type: t_u8() }],
    };
    let tid = match type_collect_declaration(&mut types, &mut decls, &mut ns, &Declaration::Trait(tr)).unwrap() {
        TyDeclaration::Trait(id) => id,
        _ => panic!("expected a trait"),
    };
    let t = decls.get_trait(tid).unwrap();
    assert_eq!(decls.get_trait_fn(t.interface_surface[0]).unwrap().name, "show");
    let imp = TraitImpl {
        trait_name: "Show".to_string(),
        type_implementing_for: t_u32(),
        type_parameters: vec![],
        methods: vec![FunctionDeclaration {
            name: "show".to_string(),
            type_parameters: vec![],
            parameters: vec![],
            body: vec![Node::ReturnStatement(u8(1))],
            return_type: t_u8(),
        }],
    };
    let iid = match type_collect_declaration(&mut types, &mut decls, &mut ns, &Declaration::TraitImpl(imp)).unwrap() {
        TyDeclaration::TraitImpl(id) => id,
        _ => panic!("expected an impl"),
    };
    let i = decls.get_trait_impl(iid).unwrap();
    assert_eq!(i.trait_name, "Show");
    assert_eq!(decls.get_function(i.methods[0]).unwrap().name, "show");
    assert!(matches!(types.look_up(i.type_implementing_for), Some(TypeInfo::UnsignedInteger(IntegerBits::ThirtyTwo))));
}

#[test]
fn expressions_are_typed_by_literal_width() {
    let (mut types, mut decls, mut ns) = (TypeEngine::new(), DeclarationEngine::new(), Namespace::new());
    let n = type_collect_node(&mut types, &mut decls, &mut ns, &Node::Expression(Expression::Literal {
        value: decl_engine::typed::Literal::U64(9),
    }))
    .unwrap();
    match n {
        TyNode::Expression(e) => assert!(matches!(
            types.look_up(e.type_id),
            Some(TypeInfo::UnsignedInteger(IntegerBits::SixtyFour))
        )),
        _ => panic!("expected an expression"),
    }
}

fn identity(types: &mut TypeEngine, decls: &mut DeclarationEngine) -> decl_engine::type_system::DeclarationId {
    let mut ns = Namespace::new();
    let t = types.insert(named("T"));
    let f = FunctionDeclaration {
        name: "identity".to_string(),
        type_parameters: vec![TypeParameter { name: "T".to_string(), type_id: t }],
        parameters: vec![FunctionParameter { name: "x".to_string(), type_info: named("T") }],
        body: vec![Node::ReturnStatement(var("x"))],
        return_type: named("T"),
    };
    type_collect_declaration(types, decls, &mut ns, &Declaration::Function(f))
        .unwrap()
        .expect_function()
        .unwrap()
}

#[test]
fn instances_are_distinct_per_argument_and_cached() {
    let (mut types, mut decls, mut ctx) = (TypeEngine::new(), DeclarationEngine::new(), CollectionContext::new());
    let generic = identity(&mut types, &mut decls);
    let slot = ctx.add_node(CollectionNode::Instances { generic, instances: vec![] });
    let u8a = types.insert(t_u8());
    let u32a = types.insert(t_u32());
    let i8 = monomorphize(&types, &mut decls, &mut ctx, slot, &vec![u8a]).unwrap();
    let i32 = monomorphize(&types, &mut decls, &mut ctx, slot, &vec![u32a]).unwrap();
    assert_ne!(i8, i32);
    assert_ne!(i8, generic);
    let r8 = decls.get_function(i8).unwrap().return_type;
    let r32 = decls.get_function(i32).unwrap().return_type;
    assert!(matches!(types.look_up(r8), Some(TypeInfo::UnsignedInteger(IntegerBits::Eight))));
    assert!(matches!(types.look_up(r32), Some(TypeInfo::UnsignedInteger(IntegerBits::ThirtyTwo))));
    let generic_ret = decls.get_function(generic).unwrap().return_type;
    assert!(matches!(types.look_up(generic_ret), Some(TypeInfo::UnknownGeneric { .. })));
    let u8b = types.insert(t_u8());
    let count = decls.len();
    let again = monomorphize(&types, &mut decls, &mut ctx, slot, &vec![u8b]).unwrap();
    assert_eq!(again, i8);
    assert_eq!(decls.len(), count);
}

#[test]
fn monomorphize_reports_its_errors() {
    let (mut types, mut decls, mut ctx) = (TypeEngine::new(), DeclarationEngine::new(), CollectionContext::new());
    let generic = identity(&mut types, &mut decls);
    let plain = ctx.add_node(CollectionNode::Application);
    let u8a = types.insert(t_u8());
    assert_eq!(monomorphize(&types, &mut decls, &mut ctx, plain, &vec![u8a]), Err(MonomorphizeError::NotGeneric));
    let slot = ctx.add_node(CollectionNode::Instances { generic, instances: vec![] });
    assert_eq!(monomorphize(&types, &mut decls, &mut ctx, slot, &vec![u8a, u8a]), Err(MonomorphizeError::ArityMismatch));
    let missing = ctx.add_node(CollectionNode::Instances {
        generic: decl_engine::type_system::DeclarationId { index: 77 },
        instances: vec![],
    });
    assert_eq!(
        monomorphize(&types, &mut decls, &mut ctx, missing, &vec![u8a]),
        Err(MonomorphizeError::Declaration(DeclarationError::NotFound))
    );
    let _ = TypeId { index: 0 };
}

fn main_fn() -> Node {
    Node::Declaration(Declaration::Function(FunctionDeclaration {
        name: "main".to_string(),
        type_parameters: vec![],
        parameters: vec![],
        body: vec![Node::Expression(u8(1))],
        return_type: t_u8(),
    }))
}

#[test]
fn collected_files_are_recorded_and_kept_apart() {
    let (mut types, mut decls, mut ns) = (TypeEngine::new(), DeclarationEngine::new(), Namespace::new());
    let mut ctx = CollectionContext::new();
    let app = ctx.add_node(CollectionNode::Application);
    let fa = collect_file(&mut types, &mut decls, &mut ns, &mut ctx, "a".to_string(), &vec![main_fn(), Node::Expression(u8(2))]).unwrap();
    let fb = collect_file(&mut types, &mut decls, &mut ns, &mut ctx, "b".to_string(), &vec![main_fn()]).unwrap();
    ctx.add_edge(app, fa, CollectionEdge::ApplicationContents);
    ctx.add_edge(app, fb, CollectionEdge::ApplicationContents);
    assert_eq!((fa.index, fb.index), (1, 4));
    assert_eq!(ctx.nodes.len(), 6);
    assert_eq!(ctx.out_edges(fa), vec![(3, CollectionEdge::FileContents), (2, CollectionEdge::FileContents)]);
    let main_a = CollectionIndex { index: 2 };
    let main_b = CollectionIndex { index: 5 };
    let id_a = match &ctx.nodes[2] {
        CollectionNode::Node(TyNode::Declaration(TyDeclaration::Function(id))) => *id,
        _ => panic!("expected a function node"),
    };
    let id_b = match &ctx.nodes[5] {
        CollectionNode::Node(TyNode::Declaration(TyDeclaration::Function(id))) => *id,
        _ => panic!("expected a function node"),
    };
    assert_ne!(id_a, id_b);
    assert_eq!(visible_declarations(&ctx, &decls, main_a).unwrap(), vec![("main".to_string(), id_a)]);
    assert_eq!(visible_declarations(&ctx, &decls, main_b).unwrap(), vec![("main".to_string(), id_b)]);
    assert!(visible_declarations(&ctx, &decls, app).unwrap().is_empty());
    assert!(visible_declarations(&ctx, &decls, fa).unwrap().is_empty());
}

#[test]
fn a_failing_file_reports_its_error() {
    let (mut types, mut decls, mut ns) = (TypeEngine::new(), DeclarationEngine::new(), Namespace::new());
    let mut ctx = CollectionContext::new();
    let r = collect_file(&mut types, &mut decls, &mut ns, &mut ctx, "c".to_string(), &vec![Node::Declaration(let_point("p"))]);
    assert_eq!(r.err(), Some(CollectError::UnresolvedType));
}

#[test]
fn application_copy_types_reaches_file_nodes() {
    let (mut types, mut decls, mut ns) = (TypeEngine::new(), DeclarationEngine::new(), Namespace::new());
    let mut ctx = CollectionContext::new();
    let fa = collect_file(&mut types, &mut decls, &mut ns, &mut ctx, "a".to_string(), &vec![Node::Expression(u8(2)), Node::Expression(u8(3))]).unwrap();
    let before: Vec<TypeId> = [1usize, 2].iter().map(|&k| match &ctx.nodes[k] {
        CollectionNode::Node(TyNode::Expression(e)) => e.type_id,
        _ => panic!("expected an expression node"),
    }).collect();
    let target = TypeId { index: 99 };
    let m = decl_engine::typed::TypeMapping { pairs: vec![(before[0], target)] };
    let app = TyApplication { files: vec![fa, fa] };
    app.copy_types(&mut ctx, &m);
    match &ctx.nodes[1] {
        CollectionNode::Node(TyNode::Expression(e)) => assert_eq!(e.type_id, target),
        _ => panic!("expected an expression node"),
    }
    match &ctx.nodes[2] {
        CollectionNode::Node(TyNode::Expression(e)) => assert_eq!(e.type_id, before[1]),
        _ => panic!("expected an expression node"),
    }
    assert_eq!(fa.index, 0);
    assert!(matches!(&ctx.nodes[0], CollectionNode::File { name } if name == "a"));
}

#[test]
fn trait_signatures_get_fresh_consecutive_handles() {
    let (mut types, mut decls, mut ns) = (TypeEngine::new(), DeclarationEngine::new(), Namespace::new());
    let _ = type_collect_declaration(&mut types, &mut decls, &mut ns, &point()).unwrap();
    let start = decls.len();
    let tr = TraitDeclaration {
        name: "Two".to_string(),
        interface_surface: vec![
            TraitFn { name: "a".to_string(), parameters: vec![], return_type: t_u8() },
            TraitFn { name: "b".to_string(), parameters: vec![FunctionParameter { name: "p".to_string(), type_info: named("Point") }], return_type: t_u8() },
        ],
    };
    let id = match type_collect_declaration(&mut types, &mut decls, &mut ns, &Declaration::Trait(tr)).unwrap() {
        TyDeclaration::Trait(id) => id,
        _ => panic!("expected a trait"),
    };
    let t = decls.get_trait(id).unwrap();
    assert_eq!(t.interface_surface[0].index, start);
    assert_eq!(t.interface_surface[1].index, start + 1);
    assert_eq!(id.index, start + 2);
    let bad = TraitDeclaration {
        name: "Bad".to_string(),
        interface_surface: vec![TraitFn { name: "c".to_string(), parameters: vec![], return_type: named("Nope") }],
    };
    assert_eq!(type_collect_declaration(&mut types, &mut decls, &mut ns, &Declaration::Trait(bad)).err(), Some(CollectError::UnresolvedType));
}
