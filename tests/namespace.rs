use decl_engine::namespace::Namespace;
use decl_engine::type_system::{DeclarationId, TypeId};
use decl_engine::typed::TyDeclaration;

fn param(i: usize) -> TyDeclaration {
    TyDeclaration::GenericTypeForFunctionScope { type_id: TypeId { index: i } }
}

fn type_of(d: Option<&TyDeclaration>) -> Option<usize> {
    match d {
        Some(TyDeclaration::GenericTypeForFunctionScope { type_id }) => Some(type_id.index),
        _ => None,
    }
}

#[test]
fn inner_scopes_shadow_and_fall_through() {
    let mut ns = Namespace::new();
    ns.insert_symbol("T".to_string(), param(1));
    ns.insert_symbol("U".to_string(), param(2));
    ns.enter_scope();
    assert_eq!(type_of(ns.lookup(&"T".to_string())), Some(1));
    ns.insert_symbol("T".to_string(), param(3));
    assert_eq!(type_of(ns.lookup(&"T".to_string())), Some(3));
    assert_eq!(type_of(ns.lookup(&"U".to_string())), Some(2));
    ns.insert_symbol("T".to_string(), param(4));
    assert_eq!(type_of(ns.lookup(&"T".to_string())), Some(4));
    ns.exit_scope();
    assert_eq!(type_of(ns.lookup(&"T".to_string())), Some(1));
    assert!(ns.lookup(&"V".to_string()).is_none());
    ns.insert_symbol("S".to_string(), TyDeclaration::Struct(DeclarationId { index: 5 }));
    assert!(matches!(ns.lookup(&"S".to_string()), Some(TyDeclaration::Struct(DeclarationId { index: 5 }))));
}
