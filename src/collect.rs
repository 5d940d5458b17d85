use vstd::prelude::*;
use crate::collection::{CollectionContext, CollectionEdge, CollectionIndex, CollectionNode};
use crate::declarations::{DeclarationEngine, DeclarationWrapper};
use crate::namespace::{eval_type, lookup_spec, names_struct, Namespace, ResolutionError};
use crate::type_system::{DeclarationId, IntegerBits, TypeEngine, TypeId, TypeInfo};
use crate::typed::{
    Literal, TyDeclaration, TyExpression, TyExpressionVariant, TyFunctionDeclaration,
    TyFunctionParameter, TyNode, TyStructDeclaration, TyTraitDeclaration, TyTraitFn, TyTraitImpl,
    TyVariableDeclaration, TypeParameter, TypedStructField,
};
use crate::untyped::{
    Declaration, Expression, FunctionDeclaration, FunctionParameter, Node, StructDeclaration,
    StructField, TraitDeclaration, TraitFn, TraitImpl, VariableDeclaration,
};

verus! {

/// Why collection of a unit stopped.
#[derive(Clone, Copy, PartialEq, Eq, Structural, Debug)]
pub enum CollectError {
    /// A type expression names nothing that stands for a type.
    UnresolvedType,
    /// Trait implementations with type parameters are not supported.
    GenericTraitImpl,
}

/// The width of a literal.
pub open spec fn literal_bits(l: Literal) -> IntegerBits {
    match l {
        Literal::U8(_) => IntegerBits::Eight,
        Literal::U16(_) => IntegerBits::Sixteen,
        Literal::U32(_) => IntegerBits::ThirtyTwo,
        Literal::U64(_) => IntegerBits::SixtyFour,
    }
}

/// Whether a type expression has a type in `ns`.
pub open spec fn type_expr_ok(ns: Seq<Seq<(String, TyDeclaration)>>, info: TypeInfo) -> bool {
    match info {
        TypeInfo::UnknownGeneric { name } => match lookup_spec(ns, name@) {
            Some(TyDeclaration::GenericTypeForFunctionScope { .. }) => true,
            Some(TyDeclaration::Struct(_)) => true,
            _ => false,
        },
        _ => true,
    }
}

/// `t` is the type that `info` denotes in `ns`, given the type slots `types`.
pub open spec fn type_denotes(
    types: Seq<TypeInfo>,
    ns: Seq<Seq<(String, TyDeclaration)>>,
    info: TypeInfo,
    t: TypeId,
) -> bool {
    match info {
        TypeInfo::UnknownGeneric { name } => match lookup_spec(ns, name@) {
            Some(TyDeclaration::GenericTypeForFunctionScope { type_id }) => t == type_id,
            Some(TyDeclaration::Struct(id)) => t.index < types.len() && names_struct(
                types[t.index as int],
                id,
                name,
            ),
            _ => false,
        },
        _ => t.index < types.len() && types[t.index as int].view_eq(info),
    }
}

/// `b` is what collection makes of `a`: the same shape and names, literals
/// typed by their width.
pub open spec fn collected_expression(types: Seq<TypeInfo>, a: Expression, b: TyExpression) -> bool
    decreases a,
{
    match a {
        Expression::Literal { value } => b.variant == (TyExpressionVariant::Literal { value })
            && b.type_id.index < types.len() && types[b.type_id.index as int]
            == TypeInfo::UnsignedInteger(literal_bits(value)),
        Expression::Variable { name } => b.variant is Variable && b.variant->Variable_name@
            == name@,
        Expression::FunctionApplication { name, arguments, .. } => {
            &&& b.variant is FunctionApplication
            &&& b.variant->FunctionApplication_name@ == name@
            &&& b.variant->FunctionApplication_arguments@.len() == arguments@.len()
            &&& forall|i: int|
                0 <= i < arguments@.len() ==> collected_expression(
                    types,
                    #[trigger] arguments@[i],
                    b.variant->FunctionApplication_arguments@[i],
                )
        },
    }
}

/// Slots are only ever added to the type engine.
pub open spec fn types_grow(a: Seq<TypeInfo>, b: Seq<TypeInfo>) -> bool {
    a.is_prefix_of(b)
}

proof fn lemma_collected_grow(types: Seq<TypeInfo>, more: Seq<TypeInfo>, a: Expression, b: TyExpression)
    requires
        collected_expression(types, a, b),
        types.is_prefix_of(more),
    ensures
        collected_expression(more, a, b),
    decreases a,
{
    if let Expression::FunctionApplication { arguments, .. } = a {
        assert forall|i: int| 0 <= i < arguments@.len() implies collected_expression(
            more,
            #[trigger] arguments@[i],
            b.variant->FunctionApplication_arguments@[i],
        ) by {
            lemma_collected_grow(types, more, arguments@[i], b.variant->FunctionApplication_arguments@[i]);
        }
    }
}

/// Types an expression: a literal gets the integer type of its width, any other
/// expression a fresh unknown type.
pub fn type_collect_expression(types: &mut TypeEngine, e: &Expression) -> (r: TyExpression)
    ensures
        types_grow(old(types).view(), final(types).view()),
        collected_expression(final(types).view(), *e, r),
    decreases e,
{
    match e {
        Expression::Literal { value } => {
            let bits = match value {
                Literal::U8(_) => IntegerBits::Eight,
                Literal::U16(_) => IntegerBits::Sixteen,
                Literal::U32(_) => IntegerBits::ThirtyTwo,
                Literal::U64(_) => IntegerBits::SixtyFour,
            };
            let t = types.insert(TypeInfo::UnsignedInteger(bits));
            TyExpression { variant: TyExpressionVariant::Literal { value: *value }, type_id: t }
        },
        Expression::Variable { name } => {
            let t = types.insert(TypeInfo::Unknown);
            TyExpression { variant: TyExpressionVariant::Variable { name: name.clone() }, type_id: t }
        },
        Expression::FunctionApplication { name, arguments, .. } => {
            let ghost t0 = types.view();
            let mut out: Vec<TyExpression> = Vec::new();
            let mut i: usize = 0;
            while i < arguments.len()
                invariant
                    i <= arguments@.len(),
                    out@.len() == i,
                    types_grow(t0, types.view()),
                    forall|j: int|
                        0 <= j < i ==> collected_expression(types.view(), #[trigger] arguments@[j], out@[j]),
                    forall|j: int| 0 <= j < arguments@.len() ==> decreases_to!(*e => arguments[j]),
                decreases arguments.len() - i,
            {
                let ghost before = types.view();
                let te = type_collect_expression(types, &arguments[i]);
                proof {
                    assert forall|j: int| 0 <= j < i implies collected_expression(
                        types.view(),
                        #[trigger] arguments@[j],
                        out@[j],
                    ) by {
                        lemma_collected_grow(before, types.view(), arguments@[j], out@[j]);
                    }
                }
                out.push(te);
                i = i + 1;
            }
            let ghost before = types.view();
            let t = types.insert(TypeInfo::Unknown);
            proof {
                assert forall|j: int| 0 <= j < arguments@.len() implies collected_expression(
                    types.view(),
                    #[trigger] arguments@[j],
                    out@[j],
                ) by {
                    lemma_collected_grow(before, types.view(), arguments@[j], out@[j]);
                }
            }
            TyExpression {
                variant: TyExpressionVariant::FunctionApplication { name: name.clone(), arguments: out },
                type_id: t,
            }
        },
    }
}

pub proof fn lemma_prefix_trans<A>(a: Seq<A>, b: Seq<A>, c: Seq<A>)
    requires
        a.is_prefix_of(b),
        b.is_prefix_of(c),
    ensures
        a.is_prefix_of(c),
{
    assert(a =~= c.subrange(0, a.len() as int)) by {
        assert forall|i: int| 0 <= i < a.len() implies a[i] == c.subrange(0, a.len() as int)[i] by {
            assert(a[i] == b.subrange(0, a.len() as int)[i]);
            assert(b[i] == c.subrange(0, b.len() as int)[i]);
        }
    }
}

proof fn lemma_denotes_grow(
    types: Seq<TypeInfo>,
    more: Seq<TypeInfo>,
    ns: Seq<Seq<(String, TyDeclaration)>>,
    info: TypeInfo,
    t: TypeId,
)
    requires
        type_denotes(types, ns, info, t),
        types.is_prefix_of(more),
    ensures
        type_denotes(more, ns, info, t),
{
}

/// Only the innermost scope may have changed.
pub open spec fn ns_frame(a: Seq<Seq<(String, TyDeclaration)>>, b: Seq<Seq<(String, TyDeclaration)>>) -> bool {
    b.len() == a.len() && b.drop_last() == a.drop_last()
}

/// Declarations are only ever added to the declaration engine.
pub open spec fn decls_grow(a: Seq<DeclarationWrapper>, b: Seq<DeclarationWrapper>) -> bool {
    a.is_prefix_of(b)
}

fn eval_in(types: &mut TypeEngine, ns: &Namespace, info: &TypeInfo) -> (r: Result<TypeId, CollectError>)
    ensures
        types_grow(old(types).view(), final(types).view()),
        r is Ok <==> type_expr_ok(ns.view(), *info),
        r matches Ok(t) ==> type_denotes(final(types).view(), ns.view(), *info, t),
{
    let ghost t0 = types.view();
    let r = eval_type(types, ns, info);
    proof {
        if types.view().len() > t0.len() {
            assert(t0 =~= types.view().subrange(0, t0.len() as int));
        } else {
            assert(t0 =~= types.view());
        }
    }
    match r {
        Ok(t) => {
            proof {
                if types.view().len() == t0.len() + 1 {
                    assert(types.view()[t0.len() as int] == types.view().last());
                }
                match info {
                    TypeInfo::UnknownGeneric { name } => {
                        match lookup_spec(ns.view(), name@) {
                            Some(TyDeclaration::Struct(id)) => {
                                assert(t.index == t0.len());
                                assert(names_struct(types.view().last(), id, *name));
                            },
                            _ => {},
                        }
                    },
                    _ => {
                        assert(t.index == t0.len());
                    },
                }
            }
            Ok(t)
        },
        Err(ResolutionError::UnresolvedType) => Err(CollectError::UnresolvedType),
    }
}

pub fn type_collect_function_parameter(
    types: &mut TypeEngine,
    ns: &Namespace,
    p: &FunctionParameter,
) -> (r: Result<TyFunctionParameter, CollectError>)
    ensures
        types_grow(old(types).view(), final(types).view()),
        r is Ok <==> type_expr_ok(ns.view(), p.type_info),
        r matches Ok(q) ==> q.name == p.name && type_denotes(
            final(types).view(),
            ns.view(),
            p.type_info,
            q.type_id,
        ),
{
    let type_id = eval_in(types, ns, &p.type_info)?;
    Ok(TyFunctionParameter { name: p.name.clone(), type_id })
}

pub fn type_collect_struct_field(types: &mut TypeEngine, ns: &Namespace, f: &StructField) -> (r:
    Result<TypedStructField, CollectError>)
    ensures
        types_grow(old(types).view(), final(types).view()),
        r is Ok <==> type_expr_ok(ns.view(), f.type_info),
        r matches Ok(q) ==> q.name == f.name && type_denotes(
            final(types).view(),
            ns.view(),
            f.type_info,
            q.type_id,
        ),
{
    let type_id = eval_in(types, ns, &f.type_info)?;
    Ok(TypedStructField { name: f.name.clone(), type_id })
}

/// The parameters of `b` are those of `a`, named alike and of the types their
/// type expressions denote.
pub open spec fn parameters_collected(
    types: Seq<TypeInfo>,
    ns: Seq<Seq<(String, TyDeclaration)>>,
    a: Seq<FunctionParameter>,
    b: Seq<TyFunctionParameter>,
) -> bool {
    &&& b.len() == a.len()
    &&& forall|i: int|
        0 <= i < a.len() ==> (#[trigger] b[i]).name == a[i].name && type_denotes(
            types,
            ns,
            a[i].type_info,
            b[i].type_id,
        )
}

fn type_collect_parameters(types: &mut TypeEngine, ns: &Namespace, ps: &Vec<FunctionParameter>) -> (r:
    Result<Vec<TyFunctionParameter>, CollectError>)
    ensures
        types_grow(old(types).view(), final(types).view()),
        r is Ok <==> forall|i: int| 0 <= i < ps@.len() ==> type_expr_ok(ns.view(), #[trigger] ps@[i].type_info),
        r matches Ok(v) ==> parameters_collected(final(types).view(), ns.view(), ps@, v@),
{
    let ghost t0 = types.view();
    assert(t0 =~= types.view().subrange(0, t0.len() as int));
    let mut out: Vec<TyFunctionParameter> = Vec::new();
    let mut i: usize = 0;
    while i < ps.len()
        invariant
            i <= ps@.len(),
            types_grow(old(types).view(), types.view()),
            forall|j: int| 0 <= j < i ==> type_expr_ok(ns.view(), #[trigger] ps@[j].type_info),
            parameters_collected(types.view(), ns.view(), ps@.subrange(0, i as int), out@),
        decreases ps.len() - i,
    {
        let ghost before = types.view();
        let p = type_collect_function_parameter(types, ns, &ps[i]);
        proof {
            lemma_prefix_trans(old(types).view(), before, types.view());
        }
        match p {
            Ok(p) => {
                proof {
                    assert forall|j: int| 0 <= j < i implies (#[trigger] out@[j]).name
                        == ps@[j].name && type_denotes(types.view(), ns.view(), ps@[j].type_info, out@[j].type_id) by {
                        assert(ps@.subrange(0, i as int)[j] == ps@[j]);
                        lemma_denotes_grow(before, types.view(), ns.view(), ps@[j].type_info, out@[j].type_id);
                    }
                }
                out.push(p);
                proof {
                    assert forall|j: int| 0 <= j < i + 1 implies (#[trigger] out@[j]).name
                        == ps@.subrange(0, i + 1)[j].name && type_denotes(types.view(), ns.view(), ps@.subrange(0, i + 1)[j].type_info, out@[j].type_id) by {
                        assert(ps@.subrange(0, i + 1)[j] == ps@[j]);
                    }
                }
            },
            Err(e) => {
                return Err(e);
            },
        }
        i = i + 1;
    }
    assert(ps@.subrange(0, ps@.len() as int) =~= ps@);
    Ok(out)
}

pub fn type_collect_trait_fn(types: &mut TypeEngine, ns: &Namespace, t: &TraitFn) -> (r: Result<
    TyTraitFn,
    CollectError,
>)
    ensures
        types_grow(old(types).view(), final(types).view()),
        r is Ok <==> (forall|i: int|
            0 <= i < t.parameters@.len() ==> type_expr_ok(ns.view(), #[trigger] t.parameters@[i].type_info))
            && type_expr_ok(ns.view(), t.return_type),
        r matches Ok(f) ==> f.name == t.name && parameters_collected(
            final(types).view(),
            ns.view(),
            t.parameters@,
            f.parameters@,
        ) && type_denotes(final(types).view(), ns.view(), t.return_type, f.return_type),
{
    let parameters = type_collect_parameters(types, ns, &t.parameters)?;
    let ghost before = types.view();
    let return_type = eval_in(types, ns, &t.return_type)?;
    proof {
        assert forall|i: int| 0 <= i < t.parameters@.len() implies type_denotes(
            types.view(),
            ns.view(),
            t.parameters@[i].type_info,
            (#[trigger] parameters@[i]).type_id,
        ) by {
            lemma_denotes_grow(before, types.view(), ns.view(), t.parameters@[i].type_info, parameters@[i].type_id);
        }
    }
    Ok(TyTraitFn { name: t.name.clone(), parameters, return_type })
}

pub fn type_collect_variable_declaration(
    types: &mut TypeEngine,
    ns: &Namespace,
    v: &VariableDeclaration,
) -> (r: Result<TyVariableDeclaration, CollectError>)
    ensures
        types_grow(old(types).view(), final(types).view()),
        r is Ok <==> type_expr_ok(ns.view(), v.type_ascription),
        r matches Ok(d) ==> d.name == v.name && type_denotes(
            final(types).view(),
            ns.view(),
            v.type_ascription,
            d.type_ascription,
        ) && collected_expression(final(types).view(), v.body, d.body),
{
    let body = type_collect_expression(types, &v.body);
    let ghost before = types.view();
    let type_ascription = eval_in(types, ns, &v.type_ascription)?;
    proof {
        lemma_collected_grow(before, types.view(), v.body, body);
    }
    Ok(TyVariableDeclaration { name: v.name.clone(), type_ascription, body })
}

/// Copies type parameters as they are.
fn copy_type_parameter_list(v: &Vec<TypeParameter>) -> (r: Vec<TypeParameter>)
    ensures
        r@.len() == v@.len(),
        forall|i: int| 0 <= i < v@.len() ==> (#[trigger] r@[i]).name == v@[i].name && r@[i].type_id == v@[i].type_id,
{
    let mut r: Vec<TypeParameter> = Vec::new();
    let mut i: usize = 0;
    while i < v.len()
        invariant
            i <= v@.len(),
            r@.len() == i,
            forall|j: int| 0 <= j < i ==> (#[trigger] r@[j]).name == v@[j].name && r@[j].type_id == v@[j].type_id,
        decreases v.len() - i,
    {
        r.push(TypeParameter { name: v[i].name.clone(), type_id: v[i].type_id });
        i = i + 1;
    }
    r
}

/// The bindings that make type parameters visible by name.
pub open spec fn type_parameter_bindings(tps: Seq<TypeParameter>) -> Seq<(String, TyDeclaration)> {
    Seq::new(
        tps.len(),
        |i: int| (tps[i].name, TyDeclaration::GenericTypeForFunctionScope { type_id: tps[i].type_id }),
    )
}

/// `ns` with the type parameters bound in its innermost scope.
pub open spec fn with_type_parameters(
    ns: Seq<Seq<(String, TyDeclaration)>>,
    tps: Seq<TypeParameter>,
) -> Seq<Seq<(String, TyDeclaration)>> {
    ns.update(ns.len() - 1, ns.last() + type_parameter_bindings(tps))
}

proof fn lemma_with_type_parameters_frame(ns: Seq<Seq<(String, TyDeclaration)>>, tps: Seq<TypeParameter>)
    requires
        ns.len() > 0,
    ensures
        ns_frame(ns, with_type_parameters(ns, tps)),
{
    assert(with_type_parameters(ns, tps).drop_last() =~= ns.drop_last());
}

/// Makes each type parameter visible by name in the innermost scope.
fn register_type_parameters(ns: &mut Namespace, tps: &Vec<TypeParameter>)
    requires
        old(ns).view().len() > 0,
    ensures
        final(ns).view() == with_type_parameters(old(ns).view(), tps@),
{
    let mut i: usize = 0;
    proof {
        assert(old(ns).view() =~= with_type_parameters(old(ns).view(), tps@.subrange(0, 0)));
    }
    while i < tps.len()
        invariant
            i <= tps@.len(),
            old(ns).view().len() > 0,
            ns.view() == with_type_parameters(old(ns).view(), tps@.subrange(0, i as int)),
        decreases tps.len() - i,
    {
        ns.insert_symbol(
            tps[i].name.clone(),
            TyDeclaration::GenericTypeForFunctionScope { type_id: tps[i].type_id },
        );
        proof {
            assert(type_parameter_bindings(tps@.subrange(0, i + 1)) =~= type_parameter_bindings(
                tps@.subrange(0, i as int),
            ).push((tps@[i as int].name, TyDeclaration::GenericTypeForFunctionScope { type_id: tps@[i as int].type_id })));
            assert(ns.view() =~= with_type_parameters(old(ns).view(), tps@.subrange(0, i + 1)));
        }
        i = i + 1;
    }
    assert(tps@.subrange(0, tps@.len() as int) =~= tps@);
}

pub fn type_collect_struct(types: &mut TypeEngine, ns: &mut Namespace, s: &StructDeclaration) -> (r:
    Result<TyStructDeclaration, CollectError>)
    requires
        old(ns).view().len() > 0,
    ensures
        types_grow(old(types).view(), final(types).view()),
        ns_frame(old(ns).view(), final(ns).view()),
        final(ns).view() == with_type_parameters(old(ns).view(), s.type_parameters@),
        r is Ok <==> forall|i: int|
            0 <= i < s.fields@.len() ==> type_expr_ok(final(ns).view(), #[trigger] s.fields@[i].type_info),
        r matches Ok(d) ==> d.name == s.name && d.fields@.len() == s.fields@.len() && (forall|i: int|
            0 <= i < s.fields@.len() ==> (#[trigger] d.fields@[i]).name == s.fields@[i].name
                && type_denotes(final(types).view(), final(ns).view(), s.fields@[i].type_info, d.fields@[i].type_id))
            && d.type_parameters@.len() == s.type_parameters@.len() && (forall|i: int|
            0 <= i < s.type_parameters@.len() ==> (#[trigger] d.type_parameters@[i]).name
                == s.type_parameters@[i].name && d.type_parameters@[i].type_id
                == s.type_parameters@[i].type_id),
{
    register_type_parameters(ns, &s.type_parameters);
    proof {
        lemma_with_type_parameters_frame(old(ns).view(), s.type_parameters@);
        assert(old(types).view() =~= types.view().subrange(0, types.view().len() as int));
    }
    let mut fields: Vec<TypedStructField> = Vec::new();
    let mut i: usize = 0;
    while i < s.fields.len()
        invariant
            i <= s.fields@.len(),
            fields@.len() == i,
            types_grow(old(types).view(), types.view()),
            ns.view() == with_type_parameters(old(ns).view(), s.type_parameters@),
            ns_frame(old(ns).view(), ns.view()),
            forall|j: int| 0 <= j < i ==> type_expr_ok(ns.view(), #[trigger] s.fields@[j].type_info),
            forall|j: int|
                0 <= j < i ==> (#[trigger] fields@[j]).name == s.fields@[j].name && type_denotes(
                    types.view(),
                    ns.view(),
                    s.fields@[j].type_info,
                    fields@[j].type_id,
                ),
        decreases s.fields.len() - i,
    {
        let ghost before = types.view();
        let f = type_collect_struct_field(types, ns, &s.fields[i]);
        proof {
            lemma_prefix_trans(old(types).view(), before, types.view());
            assert forall|j: int| 0 <= j < i implies type_denotes(
                types.view(),
                ns.view(),
                s.fields@[j].type_info,
                (#[trigger] fields@[j]).type_id,
            ) by {
                lemma_denotes_grow(before, types.view(), ns.view(), s.fields@[j].type_info, fields@[j].type_id);
            }
        }
        let f = f?;
        fields.push(f);
        i = i + 1;
    }
    Ok(
        TyStructDeclaration {
            name: s.name.clone(),
            type_parameters: copy_type_parameter_list(&s.type_parameters),
            fields,
        },
    )
}

/// The scopes of a namespace.
pub type Scopes = Seq<Seq<(String, TyDeclaration)>>;

/// Whether every signature type of a trait method resolves in `ns`.
pub open spec fn trait_fn_ok(ns: Scopes, t: TraitFn) -> bool {
    (forall|i: int| 0 <= i < t.parameters@.len() ==> type_expr_ok(ns, #[trigger] t.parameters@[i].type_info))
        && type_expr_ok(ns, t.return_type)
}

/// Whether every method signature of a trait resolves in `ns`.
pub open spec fn trait_ok(ns: Scopes, t: TraitDeclaration) -> bool {
    forall|i: int| 0 <= i < t.interface_surface@.len() ==> trait_fn_ok(ns, #[trigger] t.interface_surface@[i])
}

/// Collecting a function in scope `ns` (its own scope), with `n` declarations
/// stored so far: `None` when it fails, else the namespace and the number of
/// stored declarations afterwards (the function itself not yet stored).
pub open spec fn fn_res(ns: Scopes, n: nat, f: FunctionDeclaration) -> Option<(Scopes, nat)>
    decreases f, 2nat,
{
    let ns1 = with_type_parameters(ns, f.type_parameters@);
    if (forall|i: int| 0 <= i < f.parameters@.len() ==> type_expr_ok(ns1, #[trigger] f.parameters@[i].type_info))
        && type_expr_ok(ns1, f.return_type) {
        block_res(ns1, n, f.body@, f.body@.len() as int)
    } else {
        None
    }
}

/// Collecting the first `i` nodes of a block in order, threading the namespace.
pub open spec fn block_res(ns: Scopes, n: nat, nodes: Seq<Node>, i: int) -> Option<(Scopes, nat)>
    decreases nodes, 1nat, i,
{
    if i <= 0 || i > nodes.len() {
        Some((ns, n))
    } else {
        match block_res(ns, n, nodes, i - 1) {
            Some((ns1, n1)) => node_res(ns1, n1, nodes[i - 1]),
            None => None,
        }
    }
}

/// Collecting the first `i` methods of an implementation, all in scope `ns`.
pub open spec fn methods_res(ns: Scopes, n: nat, ms: Seq<FunctionDeclaration>, i: int) -> Option<(Scopes, nat)>
    decreases ms, 1nat, i,
{
    if i <= 0 || i > ms.len() {
        Some((ns, n))
    } else {
        match methods_res(ns, n, ms, i - 1) {
            Some((ns1, n1)) => match fn_res(ns1, n1, ms[i - 1]) {
                Some((ns2, n2)) => Some((ns2, n2 + 1)),
                None => None,
            },
            None => None,
        }
    }
}

pub open spec fn node_res(ns: Scopes, n: nat, node: Node) -> Option<(Scopes, nat)>
    decreases node, 0nat,
{
    match node {
        Node::Declaration(d) => decl_res(ns, n, d),
        _ => Some((ns, n)),
    }
}

/// Collecting a declaration in scope `ns`: named declarations are collected in a
/// child scope and stored; a struct's name is then bound in `ns`.
pub open spec fn decl_res(ns: Scopes, n: nat, d: Declaration) -> Option<(Scopes, nat)>
    decreases d, 0nat,
{
    match d {
        Declaration::Variable(v) => if type_expr_ok(ns, v.type_ascription) {
            Some((ns, n))
        } else {
            None
        },
        Declaration::Function(f) => match fn_res(ns.push(Seq::empty()), n, f) {
            Some((_, n2)) => Some((ns, n2 + 1)),
            None => None,
        },
        Declaration::Trait(t) => if trait_ok(ns.push(Seq::empty()), t) {
            Some((ns, n + t.interface_surface@.len() + 1))
        } else {
            None
        },
        Declaration::TraitImpl(t) => if t.type_parameters@.len() > 0 {
            None
        } else {
            match methods_res(ns.push(Seq::empty()), n, t.methods@, t.methods@.len() as int) {
                Some((ns3, n3)) => if type_expr_ok(ns3, t.type_implementing_for) {
                    Some((ns, n3 + 1))
                } else {
                    None
                },
                None => None,
            }
        },
        Declaration::Struct(st) => if (forall|i: int|
            0 <= i < st.fields@.len() ==> type_expr_ok(
                with_type_parameters(ns.push(Seq::empty()), st.type_parameters@),
                #[trigger] st.fields@[i].type_info,
            )) {
            Some(
                (
                    ns.update(
                        ns.len() - 1,
                        ns.last().push((st.name, TyDeclaration::Struct(DeclarationId { index: n as usize }))),
                    ),
                    n + 1,
                ),
            )
        } else {
            None
        },
    }
}

proof fn lemma_block_none(ns: Scopes, n: nat, nodes: Seq<Node>, i: int, j: int)
    requires
        1 <= i <= j <= nodes.len(),
        block_res(ns, n, nodes, i) is None,
    ensures
        block_res(ns, n, nodes, j) is None,
    decreases j - i,
{
    if j > i {
        lemma_block_none(ns, n, nodes, i, j - 1);
    }
}

proof fn lemma_methods_none(ns: Scopes, n: nat, ms: Seq<FunctionDeclaration>, i: int, j: int)
    requires
        1 <= i <= j <= ms.len(),
        methods_res(ns, n, ms, i) is None,
    ensures
        methods_res(ns, n, ms, j) is None,
    decreases j - i,
{
    if j > i {
        lemma_methods_none(ns, n, ms, i, j - 1);
    }
}

/// `x` is what collection makes of the declaration `d`: the same kind, a variable
/// under the same name.
pub open spec fn collected_declaration(d: Declaration, x: TyDeclaration) -> bool {
    match d {
        Declaration::Variable(v) => match x {
            TyDeclaration::Variable(tv) => tv.name == v.name,
            _ => false,
        },
        Declaration::Function(_) => x is Function,
        Declaration::Trait(_) => x is Trait,
        Declaration::TraitImpl(_) => x is TraitImpl,
        Declaration::Struct(_) => x is Struct,
    }
}

/// `b` is what collection makes of the node `a`.
pub open spec fn collected_node(types: Seq<TypeInfo>, a: Node, b: TyNode) -> bool {
    match a {
        Node::Declaration(d) => match b {
            TyNode::Declaration(x) => collected_declaration(d, x),
            _ => false,
        },
        Node::Expression(e) => match b {
            TyNode::Expression(te) => collected_expression(types, e, te),
            _ => false,
        },
        Node::ReturnStatement(e) => match b {
            TyNode::ReturnStatement(te) => collected_expression(types, e, te),
            _ => false,
        },
    }
}

proof fn lemma_collected_node_grow(types: Seq<TypeInfo>, more: Seq<TypeInfo>, a: Node, b: TyNode)
    requires
        collected_node(types, a, b),
        types.is_prefix_of(more),
    ensures
        collected_node(more, a, b),
{
    match a {
        Node::Expression(e) => {
            lemma_collected_grow(types, more, e, b->Expression_0);
        },
        Node::ReturnStatement(e) => {
            lemma_collected_grow(types, more, e, b->ReturnStatement_0);
        },
        _ => {},
    }
}

/// The handle of a named declaration.
pub open spec fn declared_index(d: TyDeclaration) -> int {
    match d {
        TyDeclaration::Function(id) => id.index as int,
        TyDeclaration::Trait(id) => id.index as int,
        TyDeclaration::TraitImpl(id) => id.index as int,
        TyDeclaration::Struct(id) => id.index as int,
        _ => -1,
    }
}

/// A typed node of the same kind as the untyped one.
pub open spec fn same_kind(a: Node, b: TyNode) -> bool {
    match a {
        Node::Declaration(_) => b is Declaration,
        Node::Expression(_) => b is Expression,
        Node::ReturnStatement(_) => b is ReturnStatement,
    }
}

/// The declaration behind `id` is a function named `name`.
pub open spec fn is_function_named(decls: Seq<DeclarationWrapper>, id: usize, name: String) -> bool {
    id < decls.len() && match decls[id as int] {
        DeclarationWrapper::Function(f) => f.name == name,
        _ => false,
    }
}

/// The declaration behind `id` is a trait method signature named `name`.
pub open spec fn is_trait_fn_named(decls: Seq<DeclarationWrapper>, id: usize, name: String) -> bool {
    id < decls.len() && match decls[id as int] {
        DeclarationWrapper::TraitFn(f) => f.name == name,
        _ => false,
    }
}

/// The declaration behind `id` is a trait named `name`.
pub open spec fn is_trait_named(decls: Seq<DeclarationWrapper>, id: usize, name: String) -> bool {
    id < decls.len() && match decls[id as int] {
        DeclarationWrapper::Trait(t) => t.name == name,
        _ => false,
    }
}

/// The declaration behind `id` is an implementation of the trait named `name`.
pub open spec fn is_trait_impl_named(decls: Seq<DeclarationWrapper>, id: usize, name: String) -> bool {
    id < decls.len() && match decls[id as int] {
        DeclarationWrapper::TraitImpl(t) => t.trait_name == name,
        _ => false,
    }
}

/// The declaration behind `id` is a struct named `name`.
pub open spec fn is_struct_named(decls: Seq<DeclarationWrapper>, id: usize, name: String) -> bool {
    id < decls.len() && match decls[id as int] {
        DeclarationWrapper::Struct(s) => s.name == name,
        _ => false,
    }
}

proof fn lemma_decls_keep(a: Seq<DeclarationWrapper>, b: Seq<DeclarationWrapper>, id: int)
    requires
        a.is_prefix_of(b),
        0 <= id < a.len(),
    ensures
        b[id] == a[id],
{
    assert(a[id] == b.subrange(0, a.len() as int)[id]);
}

pub fn type_collect_node(
    types: &mut TypeEngine,
    decls: &mut DeclarationEngine,
    ns: &mut Namespace,
    n: &Node,
) -> (r: Result<TyNode, CollectError>)
    requires
        old(ns).view().len() > 0,
    ensures
        types_grow(old(types).view(), final(types).view()),
        decls_grow(old(decls).view(), final(decls).view()),
        ns_frame(old(ns).view(), final(ns).view()),
        r matches Ok(t) ==> same_kind(*n, t) && collected_node(final(types).view(), *n, t),
        r is Ok <==> node_res(old(ns).view(), old(decls).view().len(), *n) is Some,
        r is Ok ==> node_res(old(ns).view(), old(decls).view().len(), *n) == Some(
            (final(ns).view(), final(decls).view().len()),
        ),
        *n matches Node::Expression(e) ==> match r {
            Ok(TyNode::Expression(te)) => collected_expression(final(types).view(), e, te),
            _ => false,
        },
    decreases n,
{
    match n {
        Node::Declaration(d) => {
            let r = type_collect_declaration(types, decls, ns, d);
            proof {
                assert(ns.view().drop_last() =~= old(ns).view().drop_last());
            }
            Ok(TyNode::Declaration(r?))
        },
        Node::Expression(e) => {
            let ghost d0 = decls.view();
            proof {
                assert(d0 =~= decls.view().subrange(0, d0.len() as int));
                assert(ns.view().drop_last() =~= old(ns).view().drop_last());
            }
            Ok(TyNode::Expression(type_collect_expression(types, e)))
        },
        Node::ReturnStatement(e) => {
            let ghost d0 = decls.view();
            proof {
                assert(d0 =~= decls.view().subrange(0, d0.len() as int));
                assert(ns.view().drop_last() =~= old(ns).view().drop_last());
            }
            Ok(TyNode::ReturnStatement(type_collect_expression(types, e)))
        },
    }
}

pub fn type_collect_code_block(
    types: &mut TypeEngine,
    decls: &mut DeclarationEngine,
    ns: &mut Namespace,
    nodes: &Vec<Node>,
) -> (r: Result<Vec<TyNode>, CollectError>)
    requires
        old(ns).view().len() > 0,
    ensures
        types_grow(old(types).view(), final(types).view()),
        decls_grow(old(decls).view(), final(decls).view()),
        ns_frame(old(ns).view(), final(ns).view()),
        r matches Ok(v) ==> v@.len() == nodes@.len() && forall|i: int|
            0 <= i < nodes@.len() ==> collected_node(final(types).view(), #[trigger] nodes@[i], v@[i]),
        r is Ok <==> block_res(old(ns).view(), old(decls).view().len(), nodes@, nodes@.len() as int) is Some,
        r is Ok ==> block_res(old(ns).view(), old(decls).view().len(), nodes@, nodes@.len() as int) == Some(
            (final(ns).view(), final(decls).view().len()),
        ),
    decreases nodes,
{
    proof {
        assert(old(types).view() =~= types.view().subrange(0, types.view().len() as int));
        assert(old(decls).view() =~= decls.view().subrange(0, decls.view().len() as int));
    }
    let mut out: Vec<TyNode> = Vec::new();
    let mut i: usize = 0;
    while i < nodes.len()
        invariant
            i <= nodes@.len(),
            out@.len() == i,
            types_grow(old(types).view(), types.view()),
            decls_grow(old(decls).view(), decls.view()),
            ns_frame(old(ns).view(), ns.view()),
            ns.view().len() > 0,
            forall|j: int| 0 <= j < i ==> collected_node(types.view(), #[trigger] nodes@[j], out@[j]),
            forall|j: int| 0 <= j < nodes@.len() ==> decreases_to!(*nodes => nodes[j]),
            block_res(old(ns).view(), old(decls).view().len(), nodes@, i as int) == Some(
                (ns.view(), decls.view().len()),
            ),
        decreases nodes.len() - i,
    {
        let ghost (t1, d1, n1) = (types.view(), decls.view(), ns.view());
        let t = type_collect_node(types, decls, ns, &nodes[i]);
        proof {
            if t is Err {
                lemma_block_none(old(ns).view(), old(decls).view().len(), nodes@, i + 1, nodes@.len() as int);
            }
            lemma_prefix_trans(old(types).view(), t1, types.view());
            lemma_prefix_trans(old(decls).view(), d1, decls.view());
            assert(ns.view().drop_last() =~= old(ns).view().drop_last()) by {
                assert(ns.view().drop_last() == n1.drop_last());
            }
            assert forall|j: int| 0 <= j < i implies collected_node(types.view(), #[trigger] nodes@[j], out@[j]) by {
                lemma_collected_node_grow(t1, types.view(), nodes@[j], out@[j]);
            }
        }
        out.push(t?);
        i = i + 1;
    }
    Ok(out)
}

pub fn type_collect_function(
    types: &mut TypeEngine,
    decls: &mut DeclarationEngine,
    ns: &mut Namespace,
    f: &FunctionDeclaration,
) -> (r: Result<TyFunctionDeclaration, CollectError>)
    requires
        old(ns).view().len() > 0,
    ensures
        types_grow(old(types).view(), final(types).view()),
        decls_grow(old(decls).view(), final(decls).view()),
        ns_frame(old(ns).view(), final(ns).view()),
        r matches Ok(d) ==> d.name == f.name && d.type_parameters@.len() == f.type_parameters@.len()
            && (forall|i: int|
            0 <= i < f.type_parameters@.len() ==> (#[trigger] d.type_parameters@[i]).name
                == f.type_parameters@[i].name && d.type_parameters@[i].type_id
                == f.type_parameters@[i].type_id) && d.body@.len() == f.body@.len()
            && parameters_collected(final(types).view(), with_type_parameters(old(ns).view(), f.type_parameters@), f.parameters@, d.parameters@)
            && type_denotes(final(types).view(), with_type_parameters(old(ns).view(), f.type_parameters@), f.return_type, d.return_type),
        r is Ok <==> fn_res(old(ns).view(), old(decls).view().len(), *f) is Some,
        r is Ok ==> fn_res(old(ns).view(), old(decls).view().len(), *f) == Some(
            (final(ns).view(), final(decls).view().len()),
        ),
    decreases f,
{
    register_type_parameters(ns, &f.type_parameters);
    proof {
        lemma_with_type_parameters_frame(old(ns).view(), f.type_parameters@);
    }
    let ghost (t1, d1, n1) = (types.view(), decls.view(), ns.view());
    let parameters = type_collect_parameters(types, ns, &f.parameters);
    proof {
        assert(d1 =~= decls.view().subrange(0, d1.len() as int));
    }
    let parameters = parameters?;
    let ghost t2 = types.view();
    let return_type = eval_in(types, ns, &f.return_type);
    proof {
        lemma_prefix_trans(old(types).view(), t1, t2);
        lemma_prefix_trans(old(types).view(), t2, types.view());
    }
    let return_type = return_type?;
    let ghost t3 = types.view();
    let body = type_collect_code_block(types, decls, ns, &f.body);
    proof {
        lemma_prefix_trans(old(types).view(), t3, types.view());
        lemma_denotes_grow(t3, types.view(), n1, f.return_type, return_type);
        assert forall|i: int| 0 <= i < f.parameters@.len() implies type_denotes(
            types.view(),
            n1,
            f.parameters@[i].type_info,
            (#[trigger] parameters@[i]).type_id,
        ) by {
            lemma_prefix_trans(t2, t3, types.view());
            lemma_denotes_grow(t2, types.view(), n1, f.parameters@[i].type_info, parameters@[i].type_id);
        }
        assert(ns.view().drop_last() =~= old(ns).view().drop_last()) by {
            assert(ns.view().drop_last() == n1.drop_last());
        }
    }
    let body = body?;
    Ok(
        TyFunctionDeclaration {
            name: f.name.clone(),
            type_parameters: copy_type_parameter_list(&f.type_parameters),
            parameters,
            body,
            return_type,
        },
    )
}

pub fn type_collect_trait(
    types: &mut TypeEngine,
    decls: &mut DeclarationEngine,
    ns: &Namespace,
    t: &TraitDeclaration,
) -> (r: Result<TyTraitDeclaration, CollectError>)
    ensures
        types_grow(old(types).view(), final(types).view()),
        decls_grow(old(decls).view(), final(decls).view()),
        r is Ok <==> trait_ok(ns.view(), *t),
        r matches Ok(d) ==> d.name == t.name && d.interface_surface@.len()
            == t.interface_surface@.len() && final(decls).view().len() == old(decls).view().len()
            + t.interface_surface@.len() && forall|i: int|
            0 <= i < t.interface_surface@.len() ==> is_trait_fn_named(
                final(decls).view(),
                #[trigger] d.interface_surface@[i].index,
                t.interface_surface@[i].name,
            ) && d.interface_surface@[i].index == old(decls).view().len() + i,
{
    proof {
        assert(old(types).view() =~= types.view().subrange(0, types.view().len() as int));
        assert(old(decls).view() =~= decls.view().subrange(0, decls.view().len() as int));
    }
    let mut ids: Vec<crate::type_system::DeclarationId> = Vec::new();
    let mut i: usize = 0;
    while i < t.interface_surface.len()
        invariant
            i <= t.interface_surface@.len(),
            ids@.len() == i,
            types_grow(old(types).view(), types.view()),
            decls_grow(old(decls).view(), decls.view()),
            forall|j: int|
                0 <= j < i ==> is_trait_fn_named(
                    decls.view(),
                    #[trigger] ids@[j].index,
                    t.interface_surface@[j].name,
                ) && ids@[j].index == old(decls).view().len() + j,
            forall|j: int| 0 <= j < i ==> trait_fn_ok(ns.view(), #[trigger] t.interface_surface@[j]),
            decls.view().len() == old(decls).view().len() + i,
        decreases t.interface_surface.len() - i,
    {
        let ghost t1 = types.view();
        let f = type_collect_trait_fn(types, ns, &t.interface_surface[i]);
        proof {
            lemma_prefix_trans(old(types).view(), t1, types.view());
        }
        let f = f?;
        let ghost d1 = decls.view();
        let id = decls.insert_trait_fn(f);
        proof {
            assert(d1 =~= decls.view().subrange(0, d1.len() as int));
            lemma_prefix_trans(old(decls).view(), d1, decls.view());
            assert forall|j: int| 0 <= j < i implies is_trait_fn_named(
                decls.view(),
                #[trigger] ids@[j].index,
                t.interface_surface@[j].name,
            ) by {
                lemma_decls_keep(d1, decls.view(), ids@[j].index as int);
            }
        }
        ids.push(id);
        i = i + 1;
    }
    Ok(TyTraitDeclaration { name: t.name.clone(), interface_surface: ids })
}

pub fn type_collect_trait_impl(
    types: &mut TypeEngine,
    decls: &mut DeclarationEngine,
    ns: &mut Namespace,
    t: &TraitImpl,
) -> (r: Result<TyTraitImpl, CollectError>)
    requires
        old(ns).view().len() > 0,
    ensures
        types_grow(old(types).view(), final(types).view()),
        decls_grow(old(decls).view(), final(decls).view()),
        ns_frame(old(ns).view(), final(ns).view()),
        t.type_parameters@.len() > 0 ==> r == Err::<TyTraitImpl, CollectError>(
            CollectError::GenericTraitImpl,
        ) && final(decls).view() == old(decls).view() && final(ns).view() == old(ns).view(),
        t.type_parameters@.len() == 0 ==> (r is Ok <==> (methods_res(
            old(ns).view(),
            old(decls).view().len(),
            t.methods@,
            t.methods@.len() as int,
        ) matches Some((ns3, _)) && type_expr_ok(ns3, t.type_implementing_for))),
        r is Ok ==> methods_res(
            old(ns).view(),
            old(decls).view().len(),
            t.methods@,
            t.methods@.len() as int,
        ) == Some((final(ns).view(), final(decls).view().len())),
        r matches Ok(d) ==> d.trait_name == t.trait_name && d.type_parameters@.len() == 0
            && d.methods@.len() == t.methods@.len() && forall|i: int|
            0 <= i < t.methods@.len() ==> is_function_named(
                final(decls).view(),
                #[trigger] d.methods@[i].index,
                t.methods@[i].name,
            ),
    decreases t,
{
    proof {
        assert(old(types).view() =~= types.view().subrange(0, types.view().len() as int));
        assert(old(decls).view() =~= decls.view().subrange(0, decls.view().len() as int));
    }
    if t.type_parameters.len() > 0 {
        return Err(CollectError::GenericTraitImpl);
    }
    let mut ids: Vec<crate::type_system::DeclarationId> = Vec::new();
    let mut i: usize = 0;
    while i < t.methods.len()
        invariant
            i <= t.methods@.len(),
            t.type_parameters@.len() == 0,
            ids@.len() == i,
            types_grow(old(types).view(), types.view()),
            decls_grow(old(decls).view(), decls.view()),
            ns_frame(old(ns).view(), ns.view()),
            ns.view().len() > 0,
            forall|j: int|
                0 <= j < i ==> is_function_named(
                    decls.view(),
                    #[trigger] ids@[j].index,
                    t.methods@[j].name,
                ),
            forall|j: int| 0 <= j < t.methods@.len() ==> decreases_to!(*t => t.methods[j]),
            methods_res(old(ns).view(), old(decls).view().len(), t.methods@, i as int) == Some(
                (ns.view(), decls.view().len()),
            ),
        decreases t.methods.len() - i,
    {
        let ghost (t1, d1, n1) = (types.view(), decls.view(), ns.view());
        let f = type_collect_function(types, decls, ns, &t.methods[i]);
        proof {
            if f is Err {
                lemma_methods_none(old(ns).view(), old(decls).view().len(), t.methods@, i + 1, t.methods@.len() as int);
            }
            lemma_prefix_trans(old(types).view(), t1, types.view());
            lemma_prefix_trans(old(decls).view(), d1, decls.view());
            assert(ns.view().drop_last() =~= old(ns).view().drop_last()) by {
                assert(ns.view().drop_last() == n1.drop_last());
            }
        }
        let f = f?;
        let ghost d2 = decls.view();
        let id = decls.insert_function(f);
        proof {
            assert(d2 =~= decls.view().subrange(0, d2.len() as int));
            lemma_prefix_trans(old(decls).view(), d2, decls.view());
            assert forall|j: int| 0 <= j < i implies is_function_named(
                decls.view(),
                #[trigger] ids@[j].index,
                t.methods@[j].name,
            ) by {
                lemma_prefix_trans(d1, d2, decls.view());
                lemma_decls_keep(d2, decls.view(), ids@[j].index as int);
            }
        }
        ids.push(id);
        i = i + 1;
    }
    let ghost t4 = types.view();
    let type_implementing_for = eval_in(types, ns, &t.type_implementing_for);
    proof {
        lemma_prefix_trans(old(types).view(), t4, types.view());
    }
    let type_implementing_for = type_implementing_for?;
    Ok(
        TyTraitImpl {
            trait_name: t.trait_name.clone(),
            type_implementing_for,
            type_parameters: Vec::new(),
            methods: ids,
        },
    )
}

/// Collects a declaration. Named declarations are collected in a child scope and
/// stored in the declaration engine; a struct's name is then also bound in the
/// current scope, which no other kind of declaration does.
pub fn type_collect_declaration(
    types: &mut TypeEngine,
    decls: &mut DeclarationEngine,
    ns: &mut Namespace,
    d: &Declaration,
) -> (r: Result<TyDeclaration, CollectError>)
    requires
        old(ns).view().len() > 0,
    ensures
        types_grow(old(types).view(), final(types).view()),
        decls_grow(old(decls).view(), final(decls).view()),
        !(d is Struct) ==> final(ns).view() == old(ns).view(),
        r is Ok <==> decl_res(old(ns).view(), old(decls).view().len(), *d) is Some,
        r is Ok ==> decl_res(old(ns).view(), old(decls).view().len(), *d) == Some(
            (final(ns).view(), final(decls).view().len()),
        ),
        r matches Ok(x) ==> (x is Variable || declared_index(x) == final(decls).view().len() - 1),
        d matches Declaration::Struct(s) ==> match r {
            Ok(TyDeclaration::Struct(id)) => final(ns).view() == old(ns).view().update(
                old(ns).view().len() - 1,
                old(ns).view().last().push((s.name, TyDeclaration::Struct(id))),
            ) && is_struct_named(final(decls).view(), id.index, s.name),
            Ok(_) => false,
            Err(_) => final(ns).view() == old(ns).view(),
        },
        d matches Declaration::Variable(v) ==> (r is Ok <==> type_expr_ok(
            old(ns).view(),
            v.type_ascription,
        )) && final(decls).view() == old(decls).view() && match r {
            Ok(TyDeclaration::Variable(tv)) => tv.name == v.name,
            Ok(_) => false,
            Err(_) => true,
        },
        d matches Declaration::Function(f) ==> match r {
            Ok(TyDeclaration::Function(id)) => is_function_named(final(decls).view(), id.index, f.name)
                && match final(decls).view()[id.index as int] {
                DeclarationWrapper::Function(fd) => fd.parameters@.len() == f.parameters@.len()
                    && fd.body@.len() == f.body@.len(),
                _ => false,
            },
            Ok(_) => false,
            Err(_) => true,
        },
        d matches Declaration::Trait(t) ==> match r {
            Ok(TyDeclaration::Trait(id)) => is_trait_named(final(decls).view(), id.index, t.name)
                && match final(decls).view()[id.index as int] {
                DeclarationWrapper::Trait(td) => td.interface_surface@.len() == t.interface_surface@.len(),
                _ => false,
            },
            Ok(_) => false,
            Err(_) => true,
        },
        d matches Declaration::TraitImpl(t) ==> (t.type_parameters@.len() > 0 ==> r == Err::<
            TyDeclaration,
            CollectError,
        >(CollectError::GenericTraitImpl)) && match r {
            Ok(TyDeclaration::TraitImpl(id)) => is_trait_impl_named(
                final(decls).view(),
                id.index,
                t.trait_name,
            ),
            Ok(_) => false,
            Err(_) => true,
        },
    decreases d,
{
    proof {
        assert(old(types).view() =~= types.view().subrange(0, types.view().len() as int));
        assert(old(decls).view() =~= decls.view().subrange(0, decls.view().len() as int));
    }
    match d {
        Declaration::Variable(v) => {
            let v = type_collect_variable_declaration(types, ns, v)?;
            Ok(TyDeclaration::Variable(v))
        },
        Declaration::Function(f) => {
            ns.enter_scope();
            let ghost (t1, d1) = (types.view(), decls.view());
            let r = type_collect_function(types, decls, ns, f);
            ns.exit_scope();
            proof {
                assert(ns.view() =~= old(ns).view());
                lemma_prefix_trans(old(types).view(), t1, types.view());
                lemma_prefix_trans(old(decls).view(), d1, decls.view());
            }
            let f = r?;
            let ghost d2 = decls.view();
            let id = decls.insert_function(f);
            proof {
                assert(d2 =~= decls.view().subrange(0, d2.len() as int));
                lemma_prefix_trans(old(decls).view(), d2, decls.view());
            }
            Ok(TyDeclaration::Function(id))
        },
        Declaration::Trait(t) => {
            ns.enter_scope();
            let ghost (t1, d1) = (types.view(), decls.view());
            let r = type_collect_trait(types, decls, ns, t);
            ns.exit_scope();
            proof {
                assert(ns.view() =~= old(ns).view());
                lemma_prefix_trans(old(types).view(), t1, types.view());
                lemma_prefix_trans(old(decls).view(), d1, decls.view());
            }
            let t = r?;
            let ghost d2 = decls.view();
            let id = decls.insert_trait(t);
            proof {
                assert(d2 =~= decls.view().subrange(0, d2.len() as int));
                lemma_prefix_trans(old(decls).view(), d2, decls.view());
            }
            Ok(TyDeclaration::Trait(id))
        },
        Declaration::TraitImpl(t) => {
            ns.enter_scope();
            let ghost (t1, d1) = (types.view(), decls.view());
            let r = type_collect_trait_impl(types, decls, ns, t);
            ns.exit_scope();
            proof {
                assert(ns.view() =~= old(ns).view());
                lemma_prefix_trans(old(types).view(), t1, types.view());
                lemma_prefix_trans(old(decls).view(), d1, decls.view());
            }
            let t = r?;
            let ghost d2 = decls.view();
            let id = decls.insert_trait_impl(t);
            proof {
                assert(d2 =~= decls.view().subrange(0, d2.len() as int));
                lemma_prefix_trans(old(decls).view(), d2, decls.view());
            }
            Ok(TyDeclaration::TraitImpl(id))
        },
        Declaration::Struct(s) => {
            ns.enter_scope();
            let ghost t1 = types.view();
            let r = type_collect_struct(types, ns, s);
            ns.exit_scope();
            proof {
                assert(ns.view() =~= old(ns).view());
                lemma_prefix_trans(old(types).view(), t1, types.view());
            }
            let sd = r?;
            let name = sd.name.clone();
            let ghost d2 = decls.view();
            let id = decls.insert_struct(sd);
            proof {
                assert(d2 =~= decls.view().subrange(0, d2.len() as int));
                lemma_prefix_trans(old(decls).view(), d2, decls.view());
            }
            ns.insert_symbol(name, TyDeclaration::Struct(id));
            Ok(TyDeclaration::Struct(id))
        },
    }
}

/// A graph node holding a syntax node of the kind of `n`.
pub open spec fn holds_kind_of(g: CollectionNode, n: Node) -> bool {
    match g {
        CollectionNode::Node(t) => same_kind(n, t),
        _ => false,
    }
}

/// Collects the top-level nodes of a file in the current scope and records them
/// in the graph: a file node, then one node per collected node, each reached
/// from the file by a file edge, in source order.
pub fn collect_file(
    types: &mut TypeEngine,
    decls: &mut DeclarationEngine,
    ns: &mut Namespace,
    ctx: &mut CollectionContext,
    name: String,
    nodes: &Vec<Node>,
) -> (r: Result<CollectionIndex, CollectError>)
    requires
        old(ns).view().len() > 0,
        old(ctx).wf(),
        old(ctx).nodes@.len() + nodes@.len() < u32::MAX,
        old(ctx).edges_view().len() + nodes@.len() < u32::MAX,
    ensures
        final(ctx).wf(),
        types_grow(old(types).view(), final(types).view()),
        decls_grow(old(decls).view(), final(decls).view()),
        ns_frame(old(ns).view(), final(ns).view()),
        old(ctx).nodes@.is_prefix_of(final(ctx).nodes@),
        old(ctx).edges_view().is_prefix_of(final(ctx).edges_view()),
        r is Ok <==> block_res(old(ns).view(), old(decls).view().len(), nodes@, nodes@.len() as int) is Some,
        r is Ok ==> block_res(old(ns).view(), old(decls).view().len(), nodes@, nodes@.len() as int) == Some(
            (final(ns).view(), final(decls).view().len()),
        ),
        r matches Ok(f) ==> {
            &&& f.index == old(ctx).nodes@.len()
            &&& final(ctx).nodes@.len() == old(ctx).nodes@.len() + 1 + nodes@.len()
            &&& final(ctx).nodes@[f.index as int] == (CollectionNode::File { name })
            &&& final(ctx).edges_view().len() == old(ctx).edges_view().len() + nodes@.len()
            &&& forall|i: int|
                0 <= i < nodes@.len() ==> (#[trigger] final(ctx).edges_view()[old(ctx).edges_view().len() + i])
                    == (f.index, (f.index + 1 + i) as usize, CollectionEdge::FileContents)
                    && holds_kind_of(final(ctx).nodes@[f.index + 1 + i], nodes@[i])
        },
{
    let ghost (n0, e0) = (ctx.nodes@, ctx.edges_view());
    let file = ctx.add_node(CollectionNode::File { name });
    proof {
        assert(old(types).view() =~= types.view().subrange(0, types.view().len() as int));
        assert(old(decls).view() =~= decls.view().subrange(0, decls.view().len() as int));
        assert(old(ctx).nodes@ =~= ctx.nodes@.subrange(0, n0.len() as int));
        assert(old(ctx).edges_view() =~= ctx.edges_view().subrange(0, e0.len() as int));
    }
    let mut i: usize = 0;
    while i < nodes.len()
        invariant
            i <= nodes@.len(),
            ctx.wf(),
            file.index == n0.len(),
            ctx.nodes@.len() == n0.len() + 1 + i,
            ctx.edges_view().len() == e0.len() + i,
            n0.len() + nodes@.len() < u32::MAX,
            e0.len() + nodes@.len() < u32::MAX,
            ctx.nodes@[file.index as int] == (CollectionNode::File { name }),
            old(ctx).nodes@.is_prefix_of(ctx.nodes@),
            old(ctx).edges_view().is_prefix_of(ctx.edges_view()),
            n0 == old(ctx).nodes@,
            e0 == old(ctx).edges_view(),
            types_grow(old(types).view(), types.view()),
            decls_grow(old(decls).view(), decls.view()),
            ns_frame(old(ns).view(), ns.view()),
            ns.view().len() > 0,
            block_res(old(ns).view(), old(decls).view().len(), nodes@, i as int) == Some(
                (ns.view(), decls.view().len()),
            ),
            forall|j: int|
                0 <= j < i ==> (#[trigger] ctx.edges_view()[e0.len() + j]) == (
                    file.index,
                    (file.index + 1 + j) as usize,
                    CollectionEdge::FileContents,
                ),
            forall|j: int|
                0 <= j < i ==> #[trigger] holds_kind_of(ctx.nodes@[file.index + 1 + j], nodes@[j]),
        decreases nodes.len() - i,
    {
        let ghost (t1, d1, ns1) = (types.view(), decls.view(), ns.view());
        let t = type_collect_node(types, decls, ns, &nodes[i]);
        proof {
            if t is Err {
                lemma_block_none(old(ns).view(), old(decls).view().len(), nodes@, i + 1, nodes@.len() as int);
            }
            lemma_prefix_trans(old(types).view(), t1, types.view());
            lemma_prefix_trans(old(decls).view(), d1, decls.view());
            assert(ns.view().drop_last() =~= old(ns).view().drop_last()) by {
                assert(ns.view().drop_last() == ns1.drop_last());
            }
        }
        let t = t?;
        let ghost t_node = t;
        proof {
            assert(same_kind(nodes@[i as int], t_node));
        }
        let ghost (c1, ce1) = (ctx.nodes@, ctx.edges_view());
        let at = ctx.add_node(CollectionNode::Node(t));
        ctx.add_edge(file, at, CollectionEdge::FileContents);
        proof {
            assert(c1 =~= ctx.nodes@.subrange(0, c1.len() as int));
            assert(ce1 =~= ctx.edges_view().subrange(0, ce1.len() as int));
            lemma_prefix_trans(old(ctx).nodes@, c1, ctx.nodes@);
            lemma_prefix_trans(old(ctx).edges_view(), ce1, ctx.edges_view());
            assert(ctx.nodes@[file.index as int] == c1[file.index as int]);
            assert forall|j: int|
                0 <= j < i + 1 implies (#[trigger] ctx.edges_view()[e0.len() + j]) == (
                    file.index,
                    (file.index + 1 + j) as usize,
                    CollectionEdge::FileContents,
                ) by {
                if j < i {
                    assert(ctx.edges_view()[e0.len() + j] == ce1[e0.len() + j]);
                } else {
                    assert(ctx.edges_view()[e0.len() + j] == (file.index, at.index, CollectionEdge::FileContents));
                }
            }
            assert forall|j: int|
                0 <= j < i + 1 implies #[trigger] holds_kind_of(ctx.nodes@[file.index + 1 + j], nodes@[j]) by {
                if j < i {
                    assert(ctx.nodes@[file.index + 1 + j] == c1[file.index + 1 + j]);
                    assert(holds_kind_of(c1[file.index + 1 + j], nodes@[j]));
                } else {
                    assert(at.index == file.index + 1 + j);
                    assert(ctx.nodes@[at.index as int] == CollectionNode::Node(t_node));
                }
            }
        }
        i = i + 1;
    }
    Ok(file)
}

} // verus!
