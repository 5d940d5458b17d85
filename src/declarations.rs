use vstd::prelude::*;
use crate::type_system::DeclarationId;
use crate::typed::{
    TyFunctionDeclaration, TyStructDeclaration, TyTraitDeclaration, TyTraitFn, TyTraitImpl,
};

verus! {

/// A declaration as the engine stores it, tagged with its kind.
#[derive(Debug)]
pub enum DeclarationWrapper {
    Function(TyFunctionDeclaration),
    Trait(TyTraitDeclaration),
    TraitImpl(TyTraitImpl),
    Struct(TyStructDeclaration),
    TraitFn(TyTraitFn),
}

/// Why a handle could not be narrowed to a declaration.
#[derive(Clone, Copy, PartialEq, Eq, Structural, Debug)]
pub enum DeclarationError {
    /// No declaration has this handle.
    NotFound,
    /// The handle belongs to a declaration of another kind.
    KindMismatch,
}

/// The arena of named declarations. Entries are only ever appended, so a handle,
/// once given out, names the same declaration for the rest of the session.
pub struct DeclarationEngine {
    pub slots: Vec<DeclarationWrapper>,
}

impl DeclarationEngine {
    pub open spec fn view(&self) -> Seq<DeclarationWrapper> {
        self.slots@
    }

    pub fn new() -> (r: DeclarationEngine)
        ensures
            r.view() == Seq::<DeclarationWrapper>::empty(),
    {
        DeclarationEngine { slots: Vec::new() }
    }

    pub fn len(&self) -> (r: usize)
        ensures
            r == self.view().len(),
    {
        self.slots.len()
    }

    fn insert(&mut self, d: DeclarationWrapper) -> (r: DeclarationId)
        ensures
            r.index == old(self).view().len(),
            final(self).view() == old(self).view().push(d),
    {
        self.slots.push(d);
        DeclarationId { index: self.slots.len() - 1 }
    }

    pub fn insert_function(&mut self, d: TyFunctionDeclaration) -> (r: DeclarationId)
        ensures
            r.index == old(self).view().len(),
            final(self).view() == old(self).view().push(DeclarationWrapper::Function(d)),
    {
        self.insert(DeclarationWrapper::Function(d))
    }

    pub fn get_function(&self, id: DeclarationId) -> (r: Result<&TyFunctionDeclaration, DeclarationError>)
        ensures
            id.index >= self.view().len() ==> r == Err::<&TyFunctionDeclaration, DeclarationError>(
                DeclarationError::NotFound,
            ),
            id.index < self.view().len() ==> match self.view()[id.index as int] {
                DeclarationWrapper::Function(d) => r == Ok::<&TyFunctionDeclaration, DeclarationError>(&d),
                _ => r == Err::<&TyFunctionDeclaration, DeclarationError>(DeclarationError::KindMismatch),
            },
    {
        if id.index >= self.slots.len() {
            return Err(DeclarationError::NotFound);
        }
        match &self.slots[id.index] {
            DeclarationWrapper::Function(d) => Ok(d),
            _ => Err(DeclarationError::KindMismatch),
        }
    }

    pub fn insert_trait(&mut self, d: TyTraitDeclaration) -> (r: DeclarationId)
        ensures
            r.index == old(self).view().len(),
            final(self).view() == old(self).view().push(DeclarationWrapper::Trait(d)),
    {
        self.insert(DeclarationWrapper::Trait(d))
    }

    pub fn get_trait(&self, id: DeclarationId) -> (r: Result<&TyTraitDeclaration, DeclarationError>)
        ensures
            id.index >= self.view().len() ==> r == Err::<&TyTraitDeclaration, DeclarationError>(
                DeclarationError::NotFound,
            ),
            id.index < self.view().len() ==> match self.view()[id.index as int] {
                DeclarationWrapper::Trait(d) => r == Ok::<&TyTraitDeclaration, DeclarationError>(&d),
                _ => r == Err::<&TyTraitDeclaration, DeclarationError>(DeclarationError::KindMismatch),
            },
    {
        if id.index >= self.slots.len() {
            return Err(DeclarationError::NotFound);
        }
        match &self.slots[id.index] {
            DeclarationWrapper::Trait(d) => Ok(d),
            _ => Err(DeclarationError::KindMismatch),
        }
    }

    pub fn insert_trait_impl(&mut self, d: TyTraitImpl) -> (r: DeclarationId)
        ensures
            r.index == old(self).view().len(),
            final(self).view() == old(self).view().push(DeclarationWrapper::TraitImpl(d)),
    {
        self.insert(DeclarationWrapper::TraitImpl(d))
    }

    pub fn get_trait_impl(&self, id: DeclarationId) -> (r: Result<&TyTraitImpl, DeclarationError>)
        ensures
            id.index >= self.view().len() ==> r == Err::<&TyTraitImpl, DeclarationError>(
                DeclarationError::NotFound,
            ),
            id.index < self.view().len() ==> match self.view()[id.index as int] {
                DeclarationWrapper::TraitImpl(d) => r == Ok::<&TyTraitImpl, DeclarationError>(&d),
                _ => r == Err::<&TyTraitImpl, DeclarationError>(DeclarationError::KindMismatch),
            },
    {
        if id.index >= self.slots.len() {
            return Err(DeclarationError::NotFound);
        }
        match &self.slots[id.index] {
            DeclarationWrapper::TraitImpl(d) => Ok(d),
            _ => Err(DeclarationError::KindMismatch),
        }
    }

    pub fn insert_struct(&mut self, d: TyStructDeclaration) -> (r: DeclarationId)
        ensures
            r.index == old(self).view().len(),
            final(self).view() == old(self).view().push(DeclarationWrapper::Struct(d)),
    {
        self.insert(DeclarationWrapper::Struct(d))
    }

    pub fn get_struct(&self, id: DeclarationId) -> (r: Result<&TyStructDeclaration, DeclarationError>)
        ensures
            id.index >= self.view().len() ==> r == Err::<&TyStructDeclaration, DeclarationError>(
                DeclarationError::NotFound,
            ),
            id.index < self.view().len() ==> match self.view()[id.index as int] {
                DeclarationWrapper::Struct(d) => r == Ok::<&TyStructDeclaration, DeclarationError>(&d),
                _ => r == Err::<&TyStructDeclaration, DeclarationError>(DeclarationError::KindMismatch),
            },
    {
        if id.index >= self.slots.len() {
            return Err(DeclarationError::NotFound);
        }
        match &self.slots[id.index] {
            DeclarationWrapper::Struct(d) => Ok(d),
            _ => Err(DeclarationError::KindMismatch),
        }
    }

    pub fn insert_trait_fn(&mut self, d: TyTraitFn) -> (r: DeclarationId)
        ensures
            r.index == old(self).view().len(),
            final(self).view() == old(self).view().push(DeclarationWrapper::TraitFn(d)),
    {
        self.insert(DeclarationWrapper::TraitFn(d))
    }

    pub fn get_trait_fn(&self, id: DeclarationId) -> (r: Result<&TyTraitFn, DeclarationError>)
        ensures
            id.index >= self.view().len() ==> r == Err::<&TyTraitFn, DeclarationError>(
                DeclarationError::NotFound,
            ),
            id.index < self.view().len() ==> match self.view()[id.index as int] {
                DeclarationWrapper::TraitFn(d) => r == Ok::<&TyTraitFn, DeclarationError>(&d),
                _ => r == Err::<&TyTraitFn, DeclarationError>(DeclarationError::KindMismatch),
            },
    {
        if id.index >= self.slots.len() {
            return Err(DeclarationError::NotFound);
        }
        match &self.slots[id.index] {
            DeclarationWrapper::TraitFn(d) => Ok(d),
            _ => Err(DeclarationError::KindMismatch),
        }
    }
}

} // verus!
