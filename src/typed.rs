use vstd::prelude::*;
use crate::type_system::{DeclarationId, TypeId};

verus! {

/// An integer literal of the source language.
#[derive(Clone, Copy, PartialEq, Eq, Structural, Debug, Hash)]
pub enum Literal {
    U8(u8),
    U16(u16),
    U32(u32),
    U64(u64),
}

/// The image of `t` under the pairs of `m` from position `i` on: the target of the
/// first pair whose source is `t`, or `t` itself.
pub open spec fn subst_at(m: Seq<(TypeId, TypeId)>, t: TypeId, i: int) -> TypeId
    decreases m.len() - i,
{
    if i < 0 || i >= m.len() {
        t
    } else if m[i].0 == t {
        m[i].1
    } else {
        subst_at(m, t, i + 1)
    }
}

/// Pairs of (generic type, concrete type) to substitute.
pub struct TypeMapping {
    pub pairs: Vec<(TypeId, TypeId)>,
}

impl TypeMapping {
    /// The substitution as a function on type handles.
    pub open spec fn as_fn(self) -> spec_fn(TypeId) -> TypeId {
        |t: TypeId| subst_at(self.pairs@, t, 0)
    }

    pub fn empty() -> (r: TypeMapping)
        ensures
            r.pairs@ == Seq::<(TypeId, TypeId)>::empty(),
    {
        TypeMapping { pairs: Vec::new() }
    }

    /// The image of `t`.
    pub fn apply(&self, t: TypeId) -> (r: TypeId)
        ensures
            r == (self.as_fn())(t),
    {
        let mut i: usize = 0;
        while i < self.pairs.len()
            invariant
                i <= self.pairs@.len(),
                subst_at(self.pairs@, t, i as int) == subst_at(self.pairs@, t, 0),
            decreases self.pairs.len() - i,
        {
            if self.pairs[i].0 == t {
                return self.pairs[i].1;
            }
            i = i + 1;
        }
        t
    }
}

/// A typed expression with the type it was given.
#[derive(Debug)]
pub struct TyExpression {
    pub variant: TyExpressionVariant,
    pub type_id: TypeId,
}

#[derive(Debug)]
pub enum TyExpressionVariant {
    Literal { value: Literal },
    Variable { name: String },
    FunctionApplication { name: String, arguments: Vec<TyExpression> },
    /// Marks a variable that is in scope as a function parameter.
    FunctionParameter,
    Struct { struct_name: String, fields: Vec<TyStructExpressionField> },
    MethodCall { parent_name: String, func_name: String, arguments: Vec<TyExpression> },
}

/// A field of a struct expression.
#[derive(Debug)]
pub struct TyStructExpressionField {
    pub name: String,
    pub value: TyExpression,
}

/// `b` has the shape and names of `a`, with every type handle `t` of `a` turned into `f(t)`.
pub open spec fn expr_rel(a: TyExpression, b: TyExpression, f: spec_fn(TypeId) -> TypeId) -> bool
    decreases a,
{
    &&& b.type_id == f(a.type_id)
    &&& match a.variant {
        TyExpressionVariant::Literal { value } => b.variant == (TyExpressionVariant::Literal {
            value,
        }),
        TyExpressionVariant::Variable { name } => b.variant is Variable && b.variant->Variable_name
            == name,
        TyExpressionVariant::FunctionApplication { name, arguments } => {
            &&& b.variant is FunctionApplication
            &&& b.variant->FunctionApplication_name == name
            &&& b.variant->FunctionApplication_arguments@.len() == arguments@.len()
            &&& forall|i: int|
                0 <= i < arguments@.len() ==> expr_rel(
                    #[trigger] arguments@[i],
                    b.variant->FunctionApplication_arguments@[i],
                    f,
                )
        },
        TyExpressionVariant::FunctionParameter => b.variant is FunctionParameter,
        TyExpressionVariant::Struct { struct_name, fields } => {
            &&& b.variant is Struct
            &&& b.variant->Struct_struct_name == struct_name
            &&& b.variant->Struct_fields@.len() == fields@.len()
            &&& forall|i: int|
                0 <= i < fields@.len() ==> (#[trigger] fields@[i]).name
                    == b.variant->Struct_fields@[i].name && expr_rel(
                    fields@[i].value,
                    b.variant->Struct_fields@[i].value,
                    f,
                )
        },
        TyExpressionVariant::MethodCall { parent_name, func_name, arguments } => {
            &&& b.variant is MethodCall
            &&& b.variant->MethodCall_parent_name == parent_name
            &&& b.variant->MethodCall_func_name == func_name
            &&& b.variant->MethodCall_arguments@.len() == arguments@.len()
            &&& forall|i: int|
                0 <= i < arguments@.len() ==> expr_rel(
                    #[trigger] arguments@[i],
                    b.variant->MethodCall_arguments@[i],
                    f,
                )
        },
    }
}

/// Whether type handle `t` occurs in `a`.
pub open spec fn expr_mentions(a: TyExpression, t: TypeId) -> bool
    decreases a,
{
    a.type_id == t || match a.variant {
        TyExpressionVariant::FunctionApplication { arguments, .. } => exists|i: int|
            0 <= i < arguments@.len() && expr_mentions(#[trigger] arguments@[i], t),
        TyExpressionVariant::MethodCall { arguments, .. } => exists|i: int|
            0 <= i < arguments@.len() && expr_mentions(#[trigger] arguments@[i], t),
        TyExpressionVariant::Struct { fields, .. } => exists|i: int|
            0 <= i < fields@.len() && expr_mentions((#[trigger] fields@[i]).value, t),
        _ => false,
    }
}

impl TyExpression {
    /// A copy of this expression with every type handle substituted by `m`.
    pub fn copy_types(&self, m: &TypeMapping) -> (r: TyExpression)
        ensures
            expr_rel(*self, r, m.as_fn()),
        decreases self,
    {
        let variant = match &self.variant {
            TyExpressionVariant::Literal { value } => TyExpressionVariant::Literal { value: *value },
            TyExpressionVariant::Variable { name } => TyExpressionVariant::Variable {
                name: name.clone(),
            },
            TyExpressionVariant::FunctionApplication { name, arguments } => {
                proof {
                    assert forall|j: int| 0 <= j < arguments@.len() implies decreases_to!(
                        *self => arguments[j]
                    ) by {
                        assert(decreases_to!(*arguments => arguments[j]));
                    }
                }
                TyExpressionVariant::FunctionApplication {
                    name: name.clone(),
                    arguments: copy_arguments(arguments, m, Ghost(*self)),
                }
            },
            TyExpressionVariant::MethodCall { parent_name, func_name, arguments } => {
                proof {
                    assert forall|j: int| 0 <= j < arguments@.len() implies decreases_to!(
                        *self => arguments[j]
                    ) by {
                        assert(decreases_to!(*arguments => arguments[j]));
                    }
                }
                TyExpressionVariant::MethodCall {
                    parent_name: parent_name.clone(),
                    func_name: func_name.clone(),
                    arguments: copy_arguments(arguments, m, Ghost(*self)),
                }
            },
            TyExpressionVariant::Struct { struct_name, fields } => {
                proof {
                    assert forall|j: int| 0 <= j < fields@.len() implies decreases_to!(
                        *self => fields[j].value
                    ) by {
                        assert(decreases_to!(*fields => fields[j]));
                        assert(decreases_to!(fields[j] => fields[j].value));
                    }
                }
                let mut out: Vec<TyStructExpressionField> = Vec::new();
                let mut i: usize = 0;
                while i < fields.len()
                    invariant
                        forall|j: int| 0 <= j < fields@.len() ==> decreases_to!(
                            *self => fields[j].value
                        ),
                        i <= fields@.len(),
                        out@.len() == i,
                        forall|j: int|
                            0 <= j < i ==> (#[trigger] fields@[j]).name == out@[j].name && expr_rel(
                                fields@[j].value,
                                out@[j].value,
                                m.as_fn(),
                            ),
                    decreases fields.len() - i,
                {
                    out.push(
                        TyStructExpressionField {
                            name: fields[i].name.clone(),
                            value: fields[i].value.copy_types(m),
                        },
                    );
                    i = i + 1;
                }
                TyExpressionVariant::Struct { struct_name: struct_name.clone(), fields: out }
            },
            TyExpressionVariant::FunctionParameter => TyExpressionVariant::FunctionParameter,
        };
        TyExpression { variant, type_id: m.apply(self.type_id) }
    }
}

/// Copies of the argument expressions with their type handles substituted.
fn copy_arguments(arguments: &Vec<TyExpression>, m: &TypeMapping, Ghost(parent): Ghost<TyExpression>) -> (r: Vec<TyExpression>)
    requires
        forall|j: int| 0 <= j < arguments@.len() ==> decreases_to!(parent => arguments[j]),
    ensures
        r@.len() == arguments@.len(),
        forall|j: int| 0 <= j < arguments@.len() ==> expr_rel(#[trigger] arguments@[j], r@[j], m.as_fn()),
    decreases parent, 0nat,
{
    let mut out: Vec<TyExpression> = Vec::new();
    let mut i: usize = 0;
    while i < arguments.len()
        invariant
            forall|j: int| 0 <= j < arguments@.len() ==> decreases_to!(parent => arguments[j]),
            i <= arguments@.len(),
            out@.len() == i,
            forall|j: int| 0 <= j < i ==> expr_rel(#[trigger] arguments@[j], out@[j], m.as_fn()),
        decreases arguments.len() - i,
    {
        out.push(arguments[i].copy_types(m));
        i = i + 1;
    }
    out
}

/// A name bound to a type handle inside a generic declaration.
#[derive(Debug)]
pub struct TypeParameter {
    pub name: String,
    pub type_id: TypeId,
}

/// A local variable: not registered anywhere, it lives in its block.
#[derive(Debug)]
pub struct TyVariableDeclaration {
    pub name: String,
    pub type_ascription: TypeId,
    pub body: TyExpression,
}

#[derive(Debug)]
pub struct TyFunctionParameter {
    pub name: String,
    pub type_id: TypeId,
}

/// A typed declaration as it stands in a block: named declarations are held
/// by their handle in the declaration engine.
#[derive(Debug)]
pub enum TyDeclaration {
    Variable(TyVariableDeclaration),
    Function(DeclarationId),
    Trait(DeclarationId),
    TraitImpl(DeclarationId),
    Struct(DeclarationId),
    /// A type parameter, made visible by name inside its declaration.
    GenericTypeForFunctionScope { type_id: TypeId },
}

#[derive(Debug)]
pub enum TyNode {
    Declaration(TyDeclaration),
    Expression(TyExpression),
    ReturnStatement(TyExpression),
}

#[derive(Debug)]
pub struct TyFunctionDeclaration {
    pub name: String,
    pub type_parameters: Vec<TypeParameter>,
    pub parameters: Vec<TyFunctionParameter>,
    pub body: Vec<TyNode>,
    pub return_type: TypeId,
}

#[derive(Debug)]
pub struct TyTraitFn {
    pub name: String,
    pub parameters: Vec<TyFunctionParameter>,
    pub return_type: TypeId,
}

#[derive(Debug)]
pub struct TyTraitDeclaration {
    pub name: String,
    pub interface_surface: Vec<DeclarationId>,
}

#[derive(Debug)]
pub struct TyTraitImpl {
    pub trait_name: String,
    pub type_implementing_for: TypeId,
    pub type_parameters: Vec<TypeParameter>,
    pub methods: Vec<DeclarationId>,
}

#[derive(Debug, PartialEq, Eq, Hash)]
pub struct TypedStructField {
    pub name: String,
    pub type_id: TypeId,
}

#[derive(Debug, PartialEq, Eq, Hash)]
pub struct TypedEnumVariant {
    pub name: String,
    pub type_id: TypeId,
    pub tag: usize,
}

#[derive(Debug)]
pub struct TyStructDeclaration {
    pub name: String,
    pub type_parameters: Vec<TypeParameter>,
    pub fields: Vec<TypedStructField>,
}

pub open spec fn variable_rel(
    a: TyVariableDeclaration,
    b: TyVariableDeclaration,
    f: spec_fn(TypeId) -> TypeId,
) -> bool {
    &&& b.name == a.name
    &&& b.type_ascription == f(a.type_ascription)
    &&& expr_rel(a.body, b.body, f)
}

/// Named declarations are handles and stay as they are; a variable and a type
/// parameter binding are substituted.
pub open spec fn declaration_rel(
    a: TyDeclaration,
    b: TyDeclaration,
    f: spec_fn(TypeId) -> TypeId,
) -> bool {
    match a {
        TyDeclaration::Variable(va) => b matches TyDeclaration::Variable(vb) && variable_rel(
            va,
            vb,
            f,
        ),
        TyDeclaration::GenericTypeForFunctionScope { type_id } => b
            == (TyDeclaration::GenericTypeForFunctionScope { type_id: f(type_id) }),
        _ => b == a,
    }
}

pub open spec fn node_rel(a: TyNode, b: TyNode, f: spec_fn(TypeId) -> TypeId) -> bool {
    match a {
        TyNode::Declaration(da) => b matches TyNode::Declaration(db) && declaration_rel(da, db, f),
        TyNode::Expression(ea) => b matches TyNode::Expression(eb) && expr_rel(ea, eb, f),
        TyNode::ReturnStatement(ea) => b matches TyNode::ReturnStatement(eb) && expr_rel(
            ea,
            eb,
            f,
        ),
    }
}

pub open spec fn type_parameters_rel(
    a: Seq<TypeParameter>,
    b: Seq<TypeParameter>,
    f: spec_fn(TypeId) -> TypeId,
) -> bool {
    &&& b.len() == a.len()
    &&& forall|i: int|
        0 <= i < a.len() ==> (#[trigger] b[i]).name == a[i].name && b[i].type_id == f(
            a[i].type_id,
        )
}

pub open spec fn parameters_rel(
    a: Seq<TyFunctionParameter>,
    b: Seq<TyFunctionParameter>,
    f: spec_fn(TypeId) -> TypeId,
) -> bool {
    &&& b.len() == a.len()
    &&& forall|i: int|
        0 <= i < a.len() ==> (#[trigger] b[i]).name == a[i].name && b[i].type_id == f(
            a[i].type_id,
        )
}

pub open spec fn function_rel(
    a: TyFunctionDeclaration,
    b: TyFunctionDeclaration,
    f: spec_fn(TypeId) -> TypeId,
) -> bool {
    &&& b.name == a.name
    &&& type_parameters_rel(a.type_parameters@, b.type_parameters@, f)
    &&& parameters_rel(a.parameters@, b.parameters@, f)
    &&& b.return_type == f(a.return_type)
    &&& b.body@.len() == a.body@.len()
    &&& forall|i: int| 0 <= i < a.body@.len() ==> node_rel(#[trigger] a.body@[i], b.body@[i], f)
}

pub open spec fn node_mentions(a: TyNode, t: TypeId) -> bool {
    match a {
        TyNode::Declaration(TyDeclaration::Variable(v)) => v.type_ascription == t
            || expr_mentions(v.body, t),
        TyNode::Declaration(TyDeclaration::GenericTypeForFunctionScope { type_id }) => type_id == t,
        TyNode::Declaration(_) => false,
        TyNode::Expression(e) => expr_mentions(e, t),
        TyNode::ReturnStatement(e) => expr_mentions(e, t),
    }
}

/// Whether type handle `t` occurs in `a`, outside of the declarations it holds by handle.
pub open spec fn function_mentions(a: TyFunctionDeclaration, t: TypeId) -> bool {
    ||| exists|i: int| 0 <= i < a.type_parameters@.len() && (#[trigger] a.type_parameters@[i]).type_id == t
    ||| exists|i: int| 0 <= i < a.parameters@.len() && (#[trigger] a.parameters@[i]).type_id == t
    ||| a.return_type == t
    ||| exists|i: int| 0 <= i < a.body@.len() && node_mentions(#[trigger] a.body@[i], t)
}

impl TypeParameter {
    pub fn copy_types(&self, m: &TypeMapping) -> (r: TypeParameter)
        ensures
            r.name == self.name,
            r.type_id == (m.as_fn())(self.type_id),
    {
        TypeParameter { name: self.name.clone(), type_id: m.apply(self.type_id) }
    }
}

pub fn copy_type_parameters(v: &Vec<TypeParameter>, m: &TypeMapping) -> (r: Vec<TypeParameter>)
    ensures
        type_parameters_rel(v@, r@, m.as_fn()),
{
    let mut r: Vec<TypeParameter> = Vec::new();
    let mut i: usize = 0;
    while i < v.len()
        invariant
            i <= v@.len(),
            r@.len() == i,
            forall|j: int|
                0 <= j < i ==> (#[trigger] r@[j]).name == v@[j].name && r@[j].type_id == (
                m.as_fn())(v@[j].type_id),
        decreases v.len() - i,
    {
        r.push(v[i].copy_types(m));
        i = i + 1;
    }
    r
}

pub fn copy_parameters(v: &Vec<TyFunctionParameter>, m: &TypeMapping) -> (r: Vec<TyFunctionParameter>)
    ensures
        parameters_rel(v@, r@, m.as_fn()),
{
    let mut r: Vec<TyFunctionParameter> = Vec::new();
    let mut i: usize = 0;
    while i < v.len()
        invariant
            i <= v@.len(),
            r@.len() == i,
            forall|j: int|
                0 <= j < i ==> (#[trigger] r@[j]).name == v@[j].name && r@[j].type_id == (
                m.as_fn())(v@[j].type_id),
        decreases v.len() - i,
    {
        r.push(TyFunctionParameter { name: v[i].name.clone(), type_id: m.apply(v[i].type_id) });
        i = i + 1;
    }
    r
}

impl TyVariableDeclaration {
    pub fn copy_types(&self, m: &TypeMapping) -> (r: TyVariableDeclaration)
        ensures
            variable_rel(*self, r, m.as_fn()),
    {
        TyVariableDeclaration {
            name: self.name.clone(),
            type_ascription: m.apply(self.type_ascription),
            body: self.body.copy_types(m),
        }
    }
}

impl TyDeclaration {
    pub fn copy_types(&self, m: &TypeMapping) -> (r: TyDeclaration)
        ensures
            declaration_rel(*self, r, m.as_fn()),
    {
        match self {
            TyDeclaration::Variable(v) => TyDeclaration::Variable(v.copy_types(m)),
            TyDeclaration::Function(id) => TyDeclaration::Function(*id),
            TyDeclaration::Trait(id) => TyDeclaration::Trait(*id),
            TyDeclaration::TraitImpl(id) => TyDeclaration::TraitImpl(*id),
            TyDeclaration::Struct(id) => TyDeclaration::Struct(*id),
            TyDeclaration::GenericTypeForFunctionScope { type_id } => {
                TyDeclaration::GenericTypeForFunctionScope { type_id: m.apply(*type_id) }
            },
        }
    }

    /// Narrows to a variable declaration.
    pub fn expect_variable(self) -> (r: Result<TyVariableDeclaration, String>)
        ensures
            self matches TyDeclaration::Variable(v) ==> r == Ok::<TyVariableDeclaration, String>(v),
            !(self is Variable) ==> (r matches Err(e) && e@ == "not a variable declaration"@),
    {
        match self {
            TyDeclaration::Variable(v) => Ok(v),
            _ => {
                let e = "not a variable declaration".to_string();
                proof {
                    reveal_strlit("not a variable declaration");
                }
                Err(e)
            },
        }
    }

    /// Narrows to a function declaration handle.
    pub fn expect_function(self) -> (r: Result<DeclarationId, String>)
        ensures
            self matches TyDeclaration::Function(id) ==> r == Ok::<DeclarationId, String>(id),
            !(self is Function) ==> (r matches Err(e) && e@ == "not a function declaration"@),
    {
        match self {
            TyDeclaration::Function(id) => Ok(id),
            _ => {
                let e = "not a function declaration".to_string();
                proof {
                    reveal_strlit("not a function declaration");
                }
                Err(e)
            },
        }
    }
}

impl TyNode {
    pub fn copy_types(&self, m: &TypeMapping) -> (r: TyNode)
        ensures
            node_rel(*self, r, m.as_fn()),
    {
        match self {
            TyNode::Declaration(d) => TyNode::Declaration(d.copy_types(m)),
            TyNode::Expression(e) => TyNode::Expression(e.copy_types(m)),
            TyNode::ReturnStatement(e) => TyNode::ReturnStatement(e.copy_types(m)),
        }
    }
}

impl TyFunctionDeclaration {
    /// A copy of this function with every type handle substituted by `m`; the
    /// function itself is left as it is.
    pub fn copy_types(&self, m: &TypeMapping) -> (r: TyFunctionDeclaration)
        ensures
            function_rel(*self, r, m.as_fn()),
    {
        let mut body: Vec<TyNode> = Vec::new();
        let mut i: usize = 0;
        while i < self.body.len()
            invariant
                i <= self.body@.len(),
                body@.len() == i,
                forall|j: int| 0 <= j < i ==> node_rel(#[trigger] self.body@[j], body@[j], m.as_fn()),
            decreases self.body.len() - i,
        {
            body.push(self.body[i].copy_types(m));
            i = i + 1;
        }
        TyFunctionDeclaration {
            name: self.name.clone(),
            type_parameters: copy_type_parameters(&self.type_parameters, m),
            parameters: copy_parameters(&self.parameters, m),
            body,
            return_type: m.apply(self.return_type),
        }
    }
}

/// The substitution that changes nothing.
pub open spec fn identity_fn() -> spec_fn(TypeId) -> TypeId {
    |t: TypeId| t
}

/// The substitution of a mapping with the single pair (`from`, `to`).
pub open spec fn single_fn(from: TypeId, to: TypeId) -> spec_fn(TypeId) -> TypeId {
    |t: TypeId| if t == from { to } else { t }
}

/// Substituting by `f` and then by `g` is substituting by `h`, where `h` agrees
/// with `g` after `f` on the handles that occur.
pub proof fn lemma_expr_rel_compose(
    x: TyExpression,
    y: TyExpression,
    z: TyExpression,
    f: spec_fn(TypeId) -> TypeId,
    g: spec_fn(TypeId) -> TypeId,
    h: spec_fn(TypeId) -> TypeId,
)
    requires
        expr_rel(x, y, f),
        expr_rel(y, z, g),
        forall|t: TypeId| expr_mentions(x, t) ==> g(f(t)) == h(t),
    ensures
        expr_rel(x, z, h),
    decreases x,
{
    assert(expr_mentions(x, x.type_id));
    match x.variant {
        TyExpressionVariant::FunctionApplication { name, arguments } => {
            let ya = y.variant->FunctionApplication_arguments;
            let za = z.variant->FunctionApplication_arguments;
            assert forall|i: int| 0 <= i < arguments@.len() implies expr_rel(
                #[trigger] arguments@[i],
                za@[i],
                h,
            ) by {
                assert(expr_rel(ya@[i], za@[i], g));
                assert forall|t: TypeId| expr_mentions(arguments@[i], t) implies g(f(t)) == h(t) by {
                    assert(expr_mentions(x, t));
                }
                lemma_expr_rel_compose(arguments@[i], ya@[i], za@[i], f, g, h);
            }
        },
        TyExpressionVariant::MethodCall { arguments, .. } => {
            let ya = y.variant->MethodCall_arguments;
            let za = z.variant->MethodCall_arguments;
            assert forall|i: int| 0 <= i < arguments@.len() implies expr_rel(
                #[trigger] arguments@[i],
                za@[i],
                h,
            ) by {
                assert(expr_rel(ya@[i], za@[i], g));
                assert forall|t: TypeId| expr_mentions(arguments@[i], t) implies g(f(t)) == h(t) by {
                    assert(expr_mentions(x, t));
                }
                lemma_expr_rel_compose(arguments@[i], ya@[i], za@[i], f, g, h);
            }
        },
        TyExpressionVariant::Struct { fields, .. } => {
            let yf = y.variant->Struct_fields;
            let zf = z.variant->Struct_fields;
            assert forall|i: int| 0 <= i < fields@.len() implies (#[trigger] fields@[i]).name
                == zf@[i].name && expr_rel(fields@[i].value, zf@[i].value, h) by {
                assert(expr_rel(fields@[i].value, yf@[i].value, f));
                assert(yf@[i].name == zf@[i].name && expr_rel(yf@[i].value, zf@[i].value, g));
                assert forall|t: TypeId| expr_mentions(fields@[i].value, t) implies g(f(t)) == h(t) by {
                    assert(expr_mentions(x, t));
                }
                assert(decreases_to!(fields => fields@[i]));
                lemma_expr_rel_compose(fields@[i].value, yf@[i].value, zf@[i].value, f, g, h);
            }
        },
        _ => {},
    }
}

pub proof fn lemma_function_rel_compose(
    x: TyFunctionDeclaration,
    y: TyFunctionDeclaration,
    z: TyFunctionDeclaration,
    f: spec_fn(TypeId) -> TypeId,
    g: spec_fn(TypeId) -> TypeId,
    h: spec_fn(TypeId) -> TypeId,
)
    requires
        function_rel(x, y, f),
        function_rel(y, z, g),
        forall|t: TypeId| function_mentions(x, t) ==> g(f(t)) == h(t),
    ensures
        function_rel(x, z, h),
{
    assert forall|i: int| 0 <= i < x.type_parameters@.len() implies (
    #[trigger] z.type_parameters@[i]).name == x.type_parameters@[i].name
        && z.type_parameters@[i].type_id == h(x.type_parameters@[i].type_id) by {
        assert(function_mentions(x, x.type_parameters@[i].type_id));
        assert(y.type_parameters@[i].type_id == f(x.type_parameters@[i].type_id));
    }
    assert forall|i: int| 0 <= i < x.parameters@.len() implies (
    #[trigger] z.parameters@[i]).name == x.parameters@[i].name && z.parameters@[i].type_id == h(
        x.parameters@[i].type_id,
    ) by {
        assert(function_mentions(x, x.parameters@[i].type_id));
        assert(y.parameters@[i].type_id == f(x.parameters@[i].type_id));
    }
    assert(function_mentions(x, x.return_type));
    assert forall|i: int| 0 <= i < x.body@.len() implies node_rel(
        #[trigger] x.body@[i],
        z.body@[i],
        h,
    ) by {
        let (xn, yn, zn) = (x.body@[i], y.body@[i], z.body@[i]);
        assert(node_rel(yn, zn, g));
        assert forall|t: TypeId| node_mentions(xn, t) implies g(f(t)) == h(t) by {
            assert(function_mentions(x, t));
        }
        match xn {
            TyNode::Declaration(TyDeclaration::Variable(v)) => {
                let yv = yn->Declaration_0->Variable_0;
                let zv = zn->Declaration_0->Variable_0;
                assert(node_mentions(xn, v.type_ascription));
                assert forall|t: TypeId| expr_mentions(v.body, t) implies g(f(t)) == h(t) by {
                    assert(node_mentions(xn, t));
                }
                lemma_expr_rel_compose(v.body, yv.body, zv.body, f, g, h);
            },
            TyNode::Declaration(TyDeclaration::GenericTypeForFunctionScope { type_id }) => {
                assert(node_mentions(xn, type_id));
            },
            TyNode::Declaration(_) => {},
            TyNode::Expression(e) => {
                assert forall|t: TypeId| expr_mentions(e, t) implies g(f(t)) == h(t) by {
                    assert(node_mentions(xn, t));
                }
                lemma_expr_rel_compose(e, yn->Expression_0, zn->Expression_0, f, g, h);
            },
            TyNode::ReturnStatement(e) => {
                assert forall|t: TypeId| expr_mentions(e, t) implies g(f(t)) == h(t) by {
                    assert(node_mentions(xn, t));
                }
                lemma_expr_rel_compose(e, yn->ReturnStatement_0, zn->ReturnStatement_0, f, g, h);
            },
        }
    }
}

/// Substituting by an empty mapping gives back the expression unchanged: same
/// shape, same names, same type handles.
pub proof fn copy_types_empty_expression(x: TyExpression, m: TypeMapping, r: TyExpression)
    requires
        m.pairs@.len() == 0,
        expr_rel(x, r, m.as_fn()),
    ensures
        expr_rel(x, r, identity_fn()),
{
    assert(m.as_fn() =~= identity_fn());
}

/// Substituting by an empty mapping gives back the function unchanged.
pub proof fn copy_types_empty_function(
    x: TyFunctionDeclaration,
    m: TypeMapping,
    r: TyFunctionDeclaration,
)
    requires
        m.pairs@.len() == 0,
        function_rel(x, r, m.as_fn()),
    ensures
        function_rel(x, r, identity_fn()),
{
    assert(m.as_fn() =~= identity_fn());
}

/// Substituting by the mapping {`a` -> `b`} and then by {`b` -> `c`} is substituting
/// by {`a` -> `c`}, on an expression in which `b` does not occur already (unless the
/// second step leaves it).
pub proof fn copy_types_compose_expression(
    x: TyExpression,
    y: TyExpression,
    z: TyExpression,
    m1: TypeMapping,
    m2: TypeMapping,
    m3: TypeMapping,
    a: TypeId,
    b: TypeId,
    c: TypeId,
)
    requires
        m1.pairs@ == seq![(a, b)],
        m2.pairs@ == seq![(b, c)],
        m3.pairs@ == seq![(a, c)],
        expr_rel(x, y, m1.as_fn()),
        expr_rel(y, z, m2.as_fn()),
        !(expr_mentions(x, b) && b != a && b != c),
    ensures
        expr_rel(x, z, m3.as_fn()),
{
    lemma_single_mapping(m1, a, b);
    lemma_single_mapping(m2, b, c);
    lemma_single_mapping(m3, a, c);
    lemma_expr_rel_compose(x, y, z, single_fn(a, b), single_fn(b, c), single_fn(a, c));
}

/// Substituting by the mapping {`a` -> `b`} and then by {`b` -> `c`} is substituting
/// by {`a` -> `c`}, on a function in which `b` does not occur already (unless the
/// second step leaves it).
pub proof fn copy_types_compose_function(
    x: TyFunctionDeclaration,
    y: TyFunctionDeclaration,
    z: TyFunctionDeclaration,
    m1: TypeMapping,
    m2: TypeMapping,
    m3: TypeMapping,
    a: TypeId,
    b: TypeId,
    c: TypeId,
)
    requires
        m1.pairs@ == seq![(a, b)],
        m2.pairs@ == seq![(b, c)],
        m3.pairs@ == seq![(a, c)],
        function_rel(x, y, m1.as_fn()),
        function_rel(y, z, m2.as_fn()),
        !(function_mentions(x, b) && b != a && b != c),
    ensures
        function_rel(x, z, m3.as_fn()),
{
    lemma_single_mapping(m1, a, b);
    lemma_single_mapping(m2, b, c);
    lemma_single_mapping(m3, a, c);
    lemma_function_rel_compose(x, y, z, single_fn(a, b), single_fn(b, c), single_fn(a, c));
}

/// A mapping of one pair substitutes as `single_fn`.
proof fn lemma_single_mapping(m: TypeMapping, from: TypeId, to: TypeId)
    requires
        m.pairs@ == seq![(from, to)],
    ensures
        m.as_fn() == single_fn(from, to),
{
    assert forall|t: TypeId| #[trigger] (m.as_fn())(t) == (single_fn(from, to))(t) by {
        assert(subst_at(m.pairs@, t, 1) == t);
    }
    assert(m.as_fn() =~= single_fn(from, to));
}

} // verus!
