use vstd::prelude::*;
use crate::type_system::{TypeId, TypeInfo};
use crate::typed::{Literal, TypeParameter};

verus! {

/// A type argument given at a use site.
#[derive(Clone, Copy, PartialEq, Eq, Structural, Debug)]
pub struct TypeArgument {
    pub type_id: TypeId,
}

/// An expression as the parser hands it over.
#[derive(Debug)]
pub enum Expression {
    Literal { value: Literal },
    Variable { name: String },
    FunctionApplication {
        name: String,
        type_arguments: Vec<TypeArgument>,
        arguments: Vec<Expression>,
    },
}

/// `b` is a copy of `a`: same shape, same names, same literals and type arguments.
pub open spec fn same_expression(a: Expression, b: Expression) -> bool
    decreases a,
{
    match a {
        Expression::Literal { value } => b == (Expression::Literal { value }),
        Expression::Variable { name } => b is Variable && b->Variable_name@ == name@,
        Expression::FunctionApplication { name, type_arguments, arguments } => {
            &&& b is FunctionApplication
            &&& b->FunctionApplication_name@ == name@
            &&& b->FunctionApplication_type_arguments@ == type_arguments@
            &&& b->FunctionApplication_arguments@.len() == arguments@.len()
            &&& forall|i: int|
                0 <= i < arguments@.len() ==> same_expression(
                    #[trigger] arguments@[i],
                    b->FunctionApplication_arguments@[i],
                )
        },
    }
}

impl Expression {
    /// A deep copy.
    pub fn copy(&self) -> (r: Expression)
        ensures
            same_expression(*self, r),
        decreases self,
    {
        match self {
            Expression::Literal { value } => Expression::Literal { value: *value },
            Expression::Variable { name } => Expression::Variable { name: name.clone() },
            Expression::FunctionApplication { name, type_arguments, arguments } => {
                let args = copy_expressions(arguments);
                let mut tas: Vec<TypeArgument> = Vec::new();
                let mut i: usize = 0;
                while i < type_arguments.len()
                    invariant
                        i <= type_arguments@.len(),
                        tas@ == type_arguments@.subrange(0, i as int),
                    decreases type_arguments.len() - i,
                {
                    tas.push(type_arguments[i]);
                    i = i + 1;
                }
                assert(tas@ =~= type_arguments@);
                Expression::FunctionApplication {
                    name: name.clone(),
                    type_arguments: tas,
                    arguments: args,
                }
            },
        }
    }
}

/// Deep copies of the expressions of a vector, in order.
pub fn copy_expressions(v: &Vec<Expression>) -> (r: Vec<Expression>)
    ensures
        r@.len() == v@.len(),
        forall|i: int| 0 <= i < v@.len() ==> same_expression(#[trigger] v@[i], r@[i]),
    decreases v,
{
    let mut r: Vec<Expression> = Vec::new();
    let mut i: usize = 0;
    while i < v.len()
        invariant
            i <= v@.len(),
            r@.len() == i,
            forall|j: int| 0 <= j < i ==> same_expression(#[trigger] v@[j], r@[j]),
        decreases v.len() - i,
    {
        proof {
            assert(decreases_to!(*v => v[i as int]));
        }
        r.push(v[i].copy());
        i = i + 1;
    }
    r
}

pub fn u8(value: u8) -> (r: Expression)
    ensures
        r == (Expression::Literal { value: Literal::U8(value) }),
{
    Expression::Literal { value: Literal::U8(value) }
}

pub fn u16(value: u16) -> (r: Expression)
    ensures
        r == (Expression::Literal { value: Literal::U16(value) }),
{
    Expression::Literal { value: Literal::U16(value) }
}

pub fn u32(value: u32) -> (r: Expression)
    ensures
        r == (Expression::Literal { value: Literal::U32(value) }),
{
    Expression::Literal { value: Literal::U32(value) }
}

pub fn u64(value: u64) -> (r: Expression)
    ensures
        r == (Expression::Literal { value: Literal::U64(value) }),
{
    Expression::Literal { value: Literal::U64(value) }
}

pub fn var(name: &str) -> (r: Expression)
    ensures
        r is Variable && r->Variable_name@ == name@,
{
    Expression::Variable { name: name.to_string() }
}

pub fn func_app(name: &str, type_arguments: &[TypeArgument], arguments: &[Expression]) -> (r:
    Expression)
    ensures
        r is FunctionApplication,
        r->FunctionApplication_name@ == name@,
        r->FunctionApplication_type_arguments@ == type_arguments@,
        r->FunctionApplication_arguments@.len() == arguments@.len(),
        forall|i: int|
            0 <= i < arguments@.len() ==> same_expression(
                #[trigger] arguments@[i],
                r->FunctionApplication_arguments@[i],
            ),
{
    let mut tas: Vec<TypeArgument> = Vec::new();
    let mut i: usize = 0;
    while i < type_arguments.len()
        invariant
            i <= type_arguments@.len(),
            tas@ == type_arguments@.subrange(0, i as int),
        decreases type_arguments.len() - i,
    {
        tas.push(type_arguments[i]);
        i = i + 1;
    }
    assert(tas@ =~= type_arguments@);
    let mut args: Vec<Expression> = Vec::new();
    let mut j: usize = 0;
    while j < arguments.len()
        invariant
            j <= arguments@.len(),
            args@.len() == j,
            forall|k: int| 0 <= k < j ==> same_expression(#[trigger] arguments@[k], args@[k]),
        decreases arguments.len() - j,
    {
        args.push(arguments[j].copy());
        j = j + 1;
    }
    Expression::FunctionApplication { name: name.to_string(), type_arguments: tas, arguments: args }
}

/// `let name: type_ascription = body`.
#[derive(Debug)]
pub struct VariableDeclaration {
    pub name: String,
    pub type_ascription: TypeInfo,
    pub body: Expression,
}

#[derive(Debug)]
pub struct FunctionParameter {
    pub name: String,
    pub type_info: TypeInfo,
}

#[derive(Debug)]
pub struct FunctionDeclaration {
    pub name: String,
    pub type_parameters: Vec<TypeParameter>,
    pub parameters: Vec<FunctionParameter>,
    pub body: Vec<Node>,
    pub return_type: TypeInfo,
}

/// A method signature of a trait.
#[derive(Debug)]
pub struct TraitFn {
    pub name: String,
    pub parameters: Vec<FunctionParameter>,
    pub return_type: TypeInfo,
}

#[derive(Debug)]
pub struct TraitDeclaration {
    pub name: String,
    pub interface_surface: Vec<TraitFn>,
}

#[derive(Debug)]
pub struct TraitImpl {
    pub trait_name: String,
    pub type_implementing_for: TypeInfo,
    pub type_parameters: Vec<TypeParameter>,
    pub methods: Vec<FunctionDeclaration>,
}

#[derive(Debug)]
pub struct StructField {
    pub name: String,
    pub type_info: TypeInfo,
}

#[derive(Debug)]
pub struct StructDeclaration {
    pub name: String,
    pub type_parameters: Vec<TypeParameter>,
    pub fields: Vec<StructField>,
}

#[derive(Debug)]
pub enum Declaration {
    Variable(VariableDeclaration),
    Function(FunctionDeclaration),
    Trait(TraitDeclaration),
    TraitImpl(TraitImpl),
    Struct(StructDeclaration),
}

#[derive(Debug)]
pub enum Node {
    Declaration(Declaration),
    Expression(Expression),
    ReturnStatement(Expression),
}

} // verus!
