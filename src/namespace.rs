use vstd::prelude::*;
use crate::type_system::{DeclarationId, DeclarationRef, TypeEngine, TypeId, TypeInfo};
use crate::typed::TyDeclaration;

verus! {

/// The binding of `name` in one scope: the most recent insert wins.
pub open spec fn find_in_scope(scope: Seq<(String, TyDeclaration)>, name: Seq<char>) -> Option<
    TyDeclaration,
>
    decreases scope.len(),
{
    if scope.len() == 0 {
        None
    } else if scope.last().0@ == name {
        Some(scope.last().1)
    } else {
        find_in_scope(scope.drop_last(), name)
    }
}

/// The binding of `name` seen from the innermost scope, walking outward.
pub open spec fn lookup_spec(scopes: Seq<Seq<(String, TyDeclaration)>>, name: Seq<char>) -> Option<
    TyDeclaration,
>
    decreases scopes.len(),
{
    if scopes.len() == 0 {
        None
    } else {
        match find_in_scope(scopes.last(), name) {
            Some(d) => Some(d),
            None => lookup_spec(scopes.drop_last(), name),
        }
    }
}

/// A chain of lexical scopes, innermost last. Inserts go to the innermost scope
/// and shadow outer bindings; lookups fall through to the outer scopes.
pub struct Namespace {
    pub scopes: Vec<Vec<(String, TyDeclaration)>>,
}

impl Namespace {
    pub open spec fn view(&self) -> Seq<Seq<(String, TyDeclaration)>> {
        self.scopes@.map_values(|s: Vec<(String, TyDeclaration)>| s@)
    }

    /// A namespace with one empty root scope.
    pub fn new() -> (r: Namespace)
        ensures
            r.view() == seq![Seq::<(String, TyDeclaration)>::empty()],
    {
        let mut scopes: Vec<Vec<(String, TyDeclaration)>> = Vec::new();
        scopes.push(Vec::new());
        let r = Namespace { scopes };
        assert(r.view() =~= seq![Seq::<(String, TyDeclaration)>::empty()]);
        r
    }

    /// Opens a child scope: it reads its parents, and what is inserted into it
    /// stays in it.
    pub fn enter_scope(&mut self)
        ensures
            final(self).view() == old(self).view().push(Seq::<(String, TyDeclaration)>::empty()),
    {
        self.scopes.push(Vec::new());
        assert(self.view() =~= old(self).view().push(Seq::<(String, TyDeclaration)>::empty()));
    }

    /// Closes the innermost scope, dropping its bindings.
    pub fn exit_scope(&mut self)
        requires
            old(self).view().len() > 1,
        ensures
            final(self).view() == old(self).view().drop_last(),
    {
        self.scopes.pop();
        assert(self.view() =~= old(self).view().drop_last());
    }

    /// Binds `name` in the innermost scope.
    pub fn insert_symbol(&mut self, name: String, decl: TyDeclaration)
        requires
            old(self).view().len() > 0,
        ensures
            final(self).view() == old(self).view().update(
                old(self).view().len() - 1,
                old(self).view().last().push((name, decl)),
            ),
    {
        let last = self.scopes.len() - 1;
        let mut scope = self.scopes.pop().unwrap();
        scope.push((name, decl));
        self.scopes.push(scope);
        assert(self.view() =~= old(self).view().update(
            old(self).view().len() - 1,
            old(self).view().last().push((name, decl)),
        ));
    }

    /// The declaration bound to `name`, from the innermost scope outward.
    pub fn lookup(&self, name: &String) -> (r: Option<&TyDeclaration>)
        ensures
            match r {
                Some(d) => lookup_spec(self.view(), name@) == Some(*d),
                None => lookup_spec(self.view(), name@) is None,
            },
    {
        let mut i: usize = self.scopes.len();
        proof {
            assert(self.view().subrange(0, i as int) =~= self.view());
        }
        while i > 0
            invariant
                i <= self.view().len(),
                self.view().len() == self.scopes@.len(),
                lookup_spec(self.view().subrange(0, i as int), name@) == lookup_spec(self.view(), name@),
            decreases i,
        {
            let scope = &self.scopes[i - 1];
            let ghost pre = self.view().subrange(0, i as int);
            proof {
                assert(pre.last() == scope@);
                assert(pre.drop_last() =~= self.view().subrange(0, i - 1));
                assert(scope@.subrange(0, scope@.len() as int) =~= scope@);
            }
            let mut j: usize = scope.len();
            while j > 0
                invariant
                    j <= scope@.len(),
                    find_in_scope(scope@.subrange(0, j as int), name@) == find_in_scope(scope@, name@),
                    pre.len() > 0,
                    pre.last() == scope@,
                    lookup_spec(pre, name@) == lookup_spec(self.view(), name@),
                decreases j,
            {
                proof {
                    assert(scope@.subrange(0, j as int).drop_last() =~= scope@.subrange(0, j - 1));
                    assert(scope@.subrange(0, j as int).last() == scope@[j - 1]);
                }
                if scope[j - 1].0 == *name {
                    return Some(&scope[j - 1].1);
                }
                j = j - 1;
            }
            proof {
                assert(scope@.subrange(0, 0) =~= Seq::<(String, TyDeclaration)>::empty());
            }
            i = i - 1;
        }
        proof {
            assert(self.view().subrange(0, 0) =~= Seq::<Seq<(String, TyDeclaration)>>::empty());
        }
        None
    }
}

/// Why a type expression could not be given a type.
#[derive(Clone, Copy, PartialEq, Eq, Structural, Debug)]
pub enum ResolutionError {
    /// The name is bound to nothing that stands for a type.
    UnresolvedType,
}

/// `t` describes the struct declared under `id` with the name `name`, with no
/// type arguments.
pub open spec fn names_struct(t: TypeInfo, id: DeclarationId, name: String) -> bool {
    t matches TypeInfo::DeclarationRef { decl, type_arguments } && decl.id == id && decl.name
        == name && type_arguments@.len() == 0
}

/// Gives a type expression its type handle in `ns`: a name is looked up, any
/// other descriptor is interned as it stands.
pub fn eval_type(types: &mut TypeEngine, ns: &Namespace, info: &TypeInfo) -> (r: Result<
    TypeId,
    ResolutionError,
>)
    ensures
        !(*info is UnknownGeneric) ==> (r matches Ok(t) && t.index == old(types).view().len()
            && final(types).view().len() == old(types).view().len() + 1
            && final(types).view().drop_last() == old(types).view() && final(types).view().last().view_eq(*info)),
        *info matches TypeInfo::UnknownGeneric { name } ==> match lookup_spec(ns.view(), name@) {
            Some(TyDeclaration::GenericTypeForFunctionScope { type_id }) => r == Ok::<
                TypeId,
                ResolutionError,
            >(type_id) && final(types).view() == old(types).view(),
            Some(TyDeclaration::Struct(id)) => r matches Ok(t) && t.index == old(types).view().len()
                && final(types).view().len() == old(types).view().len() + 1
                && final(types).view().drop_last() == old(types).view() && names_struct(
                final(types).view().last(),
                id,
                name,
            ),
            _ => r == Err::<TypeId, ResolutionError>(ResolutionError::UnresolvedType) && final(types).view() == old(types).view(),
        },
{
    match info {
        TypeInfo::UnknownGeneric { name } => {
            let found = ns.lookup(name);
            match found {
                Some(TyDeclaration::GenericTypeForFunctionScope { type_id }) => Ok(*type_id),
                Some(TyDeclaration::Struct(id)) => {
                    let id = *id;
                    let t = types.insert(
                        TypeInfo::DeclarationRef {
                            decl: DeclarationRef { id, name: name.clone() },
                            type_arguments: Vec::new(),
                        },
                    );
                    proof {
                        assert(types.view().drop_last() =~= old(types).view());
                    }
                    Ok(t)
                },
                _ => Err(ResolutionError::UnresolvedType),
            }
        },
        _ => {
            let t = types.insert(info.copy());
            proof {
                assert(types.view().drop_last() =~= old(types).view());
            }
            Ok(t)
        },
    }
}

} // verus!
