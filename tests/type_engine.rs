use decl_engine::type_system::{
    t_u32, t_u8, DeclarationId, DeclarationRef, IntegerBits, TypeEngine, TypeId, TypeInfo,
};
use decl_engine::typed::{
    Literal, TyDeclaration, TyExpression, TyExpressionVariant, TyFunctionDeclaration,
    TyFunctionParameter, TyNode, TyStructExpressionField, TyVariableDeclaration, TypeMapping,
    TypeParameter,
};

fn is_u(info: &Option<TypeInfo>, bits: IntegerBits) -> bool {
    matches!(info, Some(TypeInfo::UnsignedInteger(b)) if *b == bits)
}

#[test]
fn refs_resolve_to_their_targets() {
    let mut types = TypeEngine::new();
    let c = types.insert(t_u8());
    let d = types.insert(t_u8());
    let a = types.insert(TypeInfo::Ref(c));
    let b = types.insert(TypeInfo::Ref(d));
    assert_ne!(a, b);
    assert!(is_u(&types.look_up(a), IntegerBits::Eight));
    assert!(is_u(&types.look_up(b), IntegerBits::Eight));
    assert!(types.types_equal(a, b));
    let e = types.insert(t_u32());
    assert!(!types.types_equal(a, e));
}

#[test]
fn chains_of_refs_are_followed() {
    let mut types = TypeEngine::new();
    let base = types.insert(t_u32());
    let r1 = types.insert(TypeInfo::Ref(base));
    let r2 = types.insert(TypeInfo::Ref(r1));
    assert!(is_u(&types.look_up(r2), IntegerBits::ThirtyTwo));
    assert_eq!(types.resolve_slot(r2), Some(base.index));
}

#[test]
fn cyclic_refs_resolve_to_nothing() {
    let mut types = TypeEngine::new();
    let a = types.insert(TypeInfo::Unknown);
    let b = types.insert(TypeInfo::Ref(a));
    types.rebind(a, TypeInfo::Ref(b));
    assert!(types.look_up(a).is_none());
    assert!(types.look_up(b).is_none());
    assert!(types.look_up(TypeId { index: 9 }).is_none());
}

#[test]
fn rebinding_changes_what_a_handle_stands_for() {
    let mut types = TypeEngine::new();
    let t = types.insert(TypeInfo::Unknown);
    let r = types.insert(TypeInfo::Ref(t));
    assert!(matches!(types.look_up(r), Some(TypeInfo::Unknown)));
    types.rebind(t, t_u8());
    assert!(is_u(&types.look_up(r), IntegerBits::Eight));
}

#[test]
fn structural_equality_compares_names_and_arguments() {
    let mut types = TypeEngine::new();
    let g1 = types.insert(TypeInfo::UnknownGeneric { name: "T".to_string() });
    let g2 = types.insert(TypeInfo::UnknownGeneric { name: "T".to_string() });
    let g3 = types.insert(TypeInfo::UnknownGeneric { name: "U".to_string() });
    assert!(types.types_equal(g1, g2));
    assert!(!types.types_equal(g1, g3));
    let s1 = types.insert(TypeInfo::DeclarationRef {
        decl: DeclarationRef { id: DeclarationId { index: 0 }, name: "Point".to_string() },
        type_arguments: vec![g1],
    });
    let s2 = types.insert(TypeInfo::DeclarationRef {
        decl: DeclarationRef { id: DeclarationId { index: 0 }, name: "Point".to_string() },
        type_arguments: vec![g1],
    });
    let s3 = types.insert(TypeInfo::DeclarationRef {
        decl: DeclarationRef { id: DeclarationId { index: 0 }, name: "Point".to_string() },
        type_arguments: vec![g2],
    });
    assert!(types.types_equal(s1, s2));
    assert!(!types.types_equal(s1, s3));
}

fn lit(value: Literal, t: TypeId) -> TyExpression {
    TyExpression { variant: TyExpressionVariant::Literal { value }, type_id: t }
}

fn app(args: Vec<TyExpression>, t: TypeId) -> TyExpression {
    TyExpression {
        variant: TyExpressionVariant::FunctionApplication { name: "g".to_string(), arguments: args },
        type_id: t,
    }
}

fn type_ids(e: &TyExpression, out: &mut Vec<usize>) {
    out.push(e.type_id.index);
    if let TyExpressionVariant::FunctionApplication { arguments, .. } = &e.variant {
        for a in arguments {
            type_ids(a, out);
        }
    }
}

#[test]
fn copy_types_with_empty_mapping_changes_nothing() {
    let (a, x) = (TypeId { index: 1 }, TypeId { index: 5 });
    let e = app(vec![lit(Literal::U8(3), a), lit(Literal::U16(4), x)], a);
    let copy = e.copy_types(&TypeMapping::empty());
    assert_eq!(format!("{:?}", copy), format!("{:?}", e));
}

#[test]
fn copy_types_substitutes_every_occurrence() {
    let (a, b, x) = (TypeId { index: 1 }, TypeId { index: 2 }, TypeId { index: 5 });
    let e = app(vec![lit(Literal::U8(3), a), app(vec![lit(Literal::U8(1), a)], x)], a);
    let m = TypeMapping { pairs: vec![(a, b)] };
    let copy = e.copy_types(&m);
    let mut ids = vec![];
    type_ids(&copy, &mut ids);
    assert_eq!(ids, vec![2, 2, 5, 2]);
    let mut orig = vec![];
    type_ids(&e, &mut orig);
    assert_eq!(orig, vec![1, 1, 5, 1]);
}

#[test]
fn substitution_in_two_steps_is_substitution_in_one() {
    let (a, b, c, x) = (TypeId { index: 1 }, TypeId { index: 2 }, TypeId { index: 3 }, TypeId { index: 7 });
    let e = app(vec![lit(Literal::U32(9), a), lit(Literal::U8(1), x)], a);
    let ab = TypeMapping { pairs: vec![(a, b)] };
    let bc = TypeMapping { pairs: vec![(b, c)] };
    let ac = TypeMapping { pairs: vec![(a, c)] };
    let two = e.copy_types(&ab).copy_types(&bc);
    let one = e.copy_types(&ac);
    assert_eq!(format!("{:?}", two), format!("{:?}", one));
    let mut ids = vec![];
    type_ids(&one, &mut ids);
    assert_eq!(ids, vec![3, 3, 7]);
}

#[test]
fn first_pair_of_a_mapping_wins() {
    let (a, b, c) = (TypeId { index: 1 }, TypeId { index: 2 }, TypeId { index: 3 });
    let m = TypeMapping { pairs: vec![(a, b), (a, c), (b, c)] };
    assert_eq!(m.apply(a), b);
    assert_eq!(m.apply(b), c);
    assert_eq!(m.apply(c), c);
}

#[test]
fn function_copy_types_substitutes_signature_and_body() {
    let (t, u8_id, other) = (TypeId { index: 0 }, TypeId { index: 1 }, TypeId { index: 4 });
    let f = TyFunctionDeclaration {
        name: "identity".to_string(),
        type_parameters: vec![TypeParameter { name: "T".to_string(), type_id: t }],
        parameters: vec![TyFunctionParameter { name: "x".to_string(), type_id: t }],
        body: vec![
            TyNode::Declaration(TyDeclaration::Variable(TyVariableDeclaration {
                name: "y".to_string(),
                type_ascription: t,
                body: lit(Literal::U8(1), other),
            })),
            TyNode::ReturnStatement(TyExpression {
                variant: TyExpressionVariant::Variable { name: "x".to_string() },
                type_id: t,
            }),
        ],
        return_type: t,
    };
    let g = f.copy_types(&TypeMapping { pairs: vec![(t, u8_id)] });
    assert_eq!(g.name, "identity");
    assert_eq!(g.type_parameters[0].type_id, u8_id);
    assert_eq!(g.parameters[0].type_id, u8_id);
    assert_eq!(g.return_type, u8_id);
    match &g.body[0] {
        TyNode::Declaration(TyDeclaration::Variable(v)) => {
            assert_eq!(v.type_ascription, u8_id);
            assert_eq!(v.body.type_id, other);
        }
        _ => panic!("expected a variable"),
    }
    match &g.body[1] {
        TyNode::ReturnStatement(e) => assert_eq!(e.type_id, u8_id),
        _ => panic!("expected a return"),
    }
    assert_eq!(f.return_type, t);
    let same = f.copy_types(&TypeMapping::empty());
    assert_eq!(format!("{:?}", same), format!("{:?}", f));
}

#[test]
fn narrowing_a_declaration_reports_the_wrong_kind() {
    let v = TyDeclaration::Variable(TyVariableDeclaration {
        name: "x".to_string(),
        type_ascription: TypeId { index: 0 },
        body: lit(Literal::U8(1), TypeId { index: 0 }),
    });
    assert!(v.expect_variable().is_ok());
    let f = TyDeclaration::Function(DeclarationId { index: 2 });
    assert_eq!(f.expect_function(), Ok(DeclarationId { index: 2 }));
    let f = TyDeclaration::Function(DeclarationId { index: 2 });
    assert_eq!(f.expect_variable().unwrap_err(), "not a variable declaration");
    let g = TyDeclaration::GenericTypeForFunctionScope { type_id: TypeId { index: 0 } };
    assert_eq!(g.expect_function().unwrap_err(), "not a function declaration");
}

#[test]
fn struct_and_method_expressions_are_substituted() {
    let (a, b, x) = (TypeId { index: 1 }, TypeId { index: 2 }, TypeId { index: 6 });
    let e = TyExpression {
        variant: TyExpressionVariant::Struct {
            struct_name: "Point".to_string(),
            fields: vec![TyStructExpressionField {
                name: "x".to_string(),
                value: TyExpression {
                    variant: TyExpressionVariant::MethodCall {
                        parent_name: "p".to_string(),
                        func_name: "get".to_string(),
                        arguments: vec![lit(Literal::U8(2), a)],
                    },
                    type_id: a,
                },
            }],
        },
        type_id: x,
    };
    let copy = e.copy_types(&TypeMapping { pairs: vec![(a, b)] });
    assert_eq!(copy.type_id, x);
    match &copy.variant {
        TyExpressionVariant::Struct { struct_name, fields } => {
            assert_eq!(struct_name, "Point");
            assert_eq!(fields[0].name, "x");
            assert_eq!(fields[0].value.type_id, b);
            match &fields[0].value.variant {
                TyExpressionVariant::MethodCall { parent_name, func_name, arguments } => {
                    assert_eq!((parent_name.as_str(), func_name.as_str()), ("p", "get"));
                    assert_eq!(arguments[0].type_id, b);
                }
                _ => panic!("expected a method call"),
            }
        }
        _ => panic!("expected a struct"),
    }
}

#[test]
fn type_parameter_bindings_are_substituted() {
    let (t, u) = (TypeId { index: 1 }, TypeId { index: 2 });
    let d = TyDeclaration::GenericTypeForFunctionScope { type_id: t };
    match d.copy_types(&TypeMapping { pairs: vec![(t, u)] }) {
        TyDeclaration::GenericTypeForFunctionScope { type_id } => assert_eq!(type_id, u),
        _ => panic!("expected a type parameter binding"),
    }
}
