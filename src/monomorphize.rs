use vstd::prelude::*;
use crate::collection::{CollectionContext, CollectionIndex, CollectionNode};
use crate::declarations::{DeclarationEngine, DeclarationError, DeclarationWrapper};
use crate::type_system::{copy_type_ids, same_type, DeclarationId, TypeEngine, TypeId, TypeInfo};
use crate::typed::{function_rel, TyFunctionDeclaration, TypeMapping, TypeParameter};

verus! {

/// Why a generic declaration could not be instantiated.
#[derive(Clone, Copy, PartialEq, Eq, Structural, Debug)]
pub enum MonomorphizeError {
    /// The graph node holds no generic declaration.
    NotGeneric,
    /// The generic declaration could not be looked up.
    Declaration(DeclarationError),
    /// The number of type arguments is not that of the type parameters.
    ArityMismatch,
}

/// The argument lists stand for the same types, position by position.
pub open spec fn same_arguments(types: Seq<TypeInfo>, a: Seq<TypeId>, b: Seq<TypeId>) -> bool {
    a.len() == b.len() && forall|i: int| 0 <= i < a.len() ==> same_type(types, #[trigger] a[i], b[i])
}

/// The substitution pairs each type parameter with its argument.
pub open spec fn instantiation_pairs(tps: Seq<TypeParameter>, args: Seq<TypeId>) -> Seq<(TypeId, TypeId)> {
    Seq::new(tps.len(), |i: int| (tps[i].type_id, args[i]))
}

/// An instance of a generic function whose return type is its first type
/// parameter returns the first type argument.
pub proof fn instance_return_type(g: TyFunctionDeclaration, inst: TyFunctionDeclaration, args: Seq<TypeId>)
    requires
        g.type_parameters@.len() == args.len(),
        args.len() > 0,
        g.return_type == g.type_parameters@[0].type_id,
        function_rel(g, inst, |t: TypeId| crate::typed::subst_at(instantiation_pairs(g.type_parameters@, args), t, 0)),
    ensures
        inst.return_type == args[0],
{
    assert(instantiation_pairs(g.type_parameters@, args)[0] == (g.type_parameters@[0].type_id, args[0]));
}

/// The instance of `instances` cached at `k` is the first one made for `args`.
pub open spec fn first_instance(
    types: Seq<TypeInfo>,
    instances: Seq<(Vec<TypeId>, DeclarationId)>,
    args: Seq<TypeId>,
    k: int,
) -> bool {
    &&& 0 <= k < instances.len()
    &&& same_arguments(types, instances[k].0@, args)
    &&& forall|j: int| 0 <= j < k ==> !same_arguments(types, (#[trigger] instances[j]).0@, args)
}

fn same_arguments_exec(types: &TypeEngine, a: &Vec<TypeId>, b: &Vec<TypeId>) -> (r: bool)
    ensures
        r == same_arguments(types.view(), a@, b@),
{
    if a.len() != b.len() {
        return false;
    }
    let mut i: usize = 0;
    while i < a.len()
        invariant
            a@.len() == b@.len(),
            i <= a@.len(),
            forall|j: int| 0 <= j < i ==> same_type(types.view(), #[trigger] a@[j], b@[j]),
        decreases a.len() - i,
    {
        if !types.types_equal(a[i], b[i]) {
            return false;
        }
        i = i + 1;
    }
    true
}

/// Looks for an instance made for arguments that stand for the same types.
fn find_instance(types: &TypeEngine, instances: &Vec<(Vec<TypeId>, DeclarationId)>, args: &Vec<TypeId>) -> (r:
    Option<usize>)
    ensures
        r matches Some(k) ==> first_instance(types.view(), instances@, args@, k as int),
        r is None ==> forall|j: int|
            0 <= j < instances@.len() ==> !same_arguments(types.view(), (#[trigger] instances@[j]).0@, args@),
{
    let mut i: usize = 0;
    while i < instances.len()
        invariant
            i <= instances@.len(),
            forall|j: int| 0 <= j < i ==> !same_arguments(types.view(), (#[trigger] instances@[j]).0@, args@),
        decreases instances.len() - i,
    {
        if same_arguments_exec(types, &instances[i].0, args) {
            return Some(i);
        }
        i = i + 1;
    }
    None
}

fn copy_instances(v: &Vec<(Vec<TypeId>, DeclarationId)>) -> (r: Vec<(Vec<TypeId>, DeclarationId)>)
    ensures
        r@.len() == v@.len(),
        forall|i: int| 0 <= i < v@.len() ==> (#[trigger] r@[i]).0@ == v@[i].0@ && r@[i].1 == v@[i].1,
{
    let mut r: Vec<(Vec<TypeId>, DeclarationId)> = Vec::new();
    let mut i: usize = 0;
    while i < v.len()
        invariant
            i <= v@.len(),
            r@.len() == i,
            forall|j: int| 0 <= j < i ==> (#[trigger] r@[j]).0@ == v@[j].0@ && r@[j].1 == v@[j].1,
        decreases v.len() - i,
    {
        r.push((copy_type_ids(&v[i].0), v[i].1));
        i = i + 1;
    }
    r
}

/// The instance of the generic function at graph node `slot` for `args`. An
/// instance made before for arguments that stand for the same types is reused;
/// otherwise the function is copied with each type parameter substituted by
/// its argument, the copy is stored under a new handle and cached in the node.
pub fn monomorphize(
    types: &TypeEngine,
    decls: &mut DeclarationEngine,
    ctx: &mut CollectionContext,
    slot: CollectionIndex,
    args: &Vec<TypeId>,
) -> (r: Result<DeclarationId, MonomorphizeError>)
    requires
        old(ctx).wf(),
        slot.index < old(ctx).nodes@.len(),
    ensures
        final(ctx).wf(),
        final(ctx).edges_view() == old(ctx).edges_view(),
        final(ctx).nodes@.len() == old(ctx).nodes@.len(),
        forall|i: int| 0 <= i < old(ctx).nodes@.len() && i != slot.index ==> #[trigger] final(ctx).nodes@[i] == old(ctx).nodes@[i],
        !(old(ctx).nodes@[slot.index as int] is Instances) ==> r == Err::<DeclarationId, MonomorphizeError>(
            MonomorphizeError::NotGeneric,
        ) && *final(ctx) == *old(ctx) && final(decls).view() == old(decls).view(),
        old(ctx).nodes@[slot.index as int] matches CollectionNode::Instances { generic, instances } ==> {
            ||| exists|k: int| first_instance(types.view(), instances@, args@, k) && r == Ok::<DeclarationId, MonomorphizeError>(
                instances@[k].1,
            ) && *final(ctx) == *old(ctx) && final(decls).view() == old(decls).view()
            ||| (forall|j: int| 0 <= j < instances@.len() ==> !same_arguments(types.view(), (#[trigger] instances@[j]).0@, args@))
                && match r {
                Ok(id) => {
                    &&& old(decls).view()[generic.index as int] matches DeclarationWrapper::Function(g)
                    &&& g.type_parameters@.len() == args@.len()
                    &&& id.index == old(decls).view().len()
                    &&& final(decls).view().len() == old(decls).view().len() + 1
                    &&& final(decls).view().drop_last() == old(decls).view()
                    &&& final(decls).view().last() matches DeclarationWrapper::Function(inst)
                    &&& function_rel(g, inst, |t: TypeId| crate::typed::subst_at(instantiation_pairs(g.type_parameters@, args@), t, 0))
                    &&& final(ctx).nodes@[slot.index as int] matches CollectionNode::Instances { generic: g2, instances: i2 }
                    &&& g2 == generic
                    &&& i2@.len() == instances@.len() + 1
                    &&& forall|j: int| 0 <= j < instances@.len() ==> (#[trigger] i2@[j]).0@ == instances@[j].0@ && i2@[j].1 == instances@[j].1
                    &&& i2@.last().0@ == args@
                    &&& i2@.last().1 == id
                },
                Err(e) => {
                    &&& final(decls).view() == old(decls).view()
                    &&& *final(ctx) == *old(ctx)
                    &&& e == match decls_lookup_error(old(decls).view(), generic) {
                        Some(de) => MonomorphizeError::Declaration(de),
                        None => MonomorphizeError::ArityMismatch,
                    }
                    &&& decls_lookup_error(old(decls).view(), generic) is None ==> match old(decls).view()[generic.index as int] {
                        DeclarationWrapper::Function(g) => g.type_parameters@.len() != args@.len(),
                        _ => false,
                    }
                },
            }
        },
{
    let (generic, k) = match &ctx.nodes[slot.index] {
        CollectionNode::Instances { generic, instances } => (*generic, find_instance(types, instances, args)),
        _ => {
            return Err(MonomorphizeError::NotGeneric);
        },
    };
    if let Some(k) = k {
        let id = match &ctx.nodes[slot.index] {
            CollectionNode::Instances { instances, .. } => instances[k].1,
            _ => generic,
        };
        return Ok(id);
    }
    let inst = match decls.get_function(generic) {
        Ok(g) => {
            if g.type_parameters.len() != args.len() {
                return Err(MonomorphizeError::ArityMismatch);
            }
            let mut pairs: Vec<(TypeId, TypeId)> = Vec::new();
            let mut i: usize = 0;
            while i < args.len()
                invariant
                    g.type_parameters@.len() == args@.len(),
                    i <= args@.len(),
                    pairs@ =~= instantiation_pairs(g.type_parameters@, args@).subrange(0, i as int),
                decreases args.len() - i,
            {
                pairs.push((g.type_parameters[i].type_id, args[i]));
                i = i + 1;
            }
            let m = TypeMapping { pairs };
            let inst = g.copy_types(&m);
            proof {
                assert(m.pairs@ =~= instantiation_pairs(g.type_parameters@, args@));
                assert(m.as_fn() =~= (|t: TypeId| crate::typed::subst_at(instantiation_pairs(g.type_parameters@, args@), t, 0)));
            }
            inst
        },
        Err(e) => {
            return Err(MonomorphizeError::Declaration(e));
        },
    };
    let ghost d0 = decls.view();
    let id = decls.insert_function(inst);
    proof {
        assert(decls.view().drop_last() =~= d0);
    }
    let mut instances = match &ctx.nodes[slot.index] {
        CollectionNode::Instances { instances, .. } => copy_instances(instances),
        _ => Vec::new(),
    };
    instances.push((copy_type_ids(args), id));
    ctx.nodes.set(slot.index, CollectionNode::Instances { generic, instances });
    proof {
        assert(ctx.edges_view() == old(ctx).edges_view());
        assert forall|k: int| 0 <= k < ctx.edges_view().len() implies (
        #[trigger] ctx.edges_view()[k]).0 < ctx.nodes@.len() && ctx.edges_view()[k].1
            < ctx.nodes@.len() by {
            assert(old(ctx).edges_view()[k] == ctx.edges_view()[k]);
        }
    }
    Ok(id)
}

/// The error met looking up `id` as a function, if any.
pub open spec fn decls_lookup_error(decls: Seq<DeclarationWrapper>, id: DeclarationId) -> Option<DeclarationError> {
    if id.index >= decls.len() {
        Some(DeclarationError::NotFound)
    } else {
        match decls[id.index as int] {
            DeclarationWrapper::Function(_) => None,
            _ => Some(DeclarationError::KindMismatch),
        }
    }
}

} // verus!
