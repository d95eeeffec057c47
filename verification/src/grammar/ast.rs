//! The syntax tree of a module, and what each node of it stands for.

use vstd::prelude::*;

verus! {

/// Describes any possible type expression.
#[derive(Debug, PartialEq, Eq)]
pub enum Type {
    Atomic(String),
    Pointer(Box<Type>),
}

/// Describes any possible expression, including left-recursive ones. There is no distinction in
/// the AST.
#[derive(Clone, Debug, PartialEq, Eq)]
pub enum Expression {
    StringLiteral(String),
    NumericLiteral(u64),
}

/// Describes any possible statement.
#[derive(Clone, Debug, PartialEq, Eq)]
pub enum Statement {
    FunctionCall(String, Vec<Expression>),
    Return(Expression),
}

/// Describes any top-level item. That is, any item that is defined at the top level of a module,
/// such as a function declaration or an extern function definition.
#[derive(Clone, Debug, PartialEq, Eq)]
pub enum Item {
    ExternFunctionDefinition(String, Vec<(String, Type)>, Type),
    FunctionDeclaration(String, Vec<(String, Type)>, Type, Vec<Statement>),
}

/// Describes an individual code module.
#[derive(Clone, Debug, PartialEq, Eq)]
pub struct Module(pub String, pub Vec<Item>);

/// What a [`Type`] stands for.
pub enum SpecType {
    Atomic(Seq<char>),
    Pointer(Box<SpecType>),
}

/// What an [`Expression`] stands for.
pub enum SpecExpression {
    StringLiteral(Seq<char>),
    NumericLiteral(u64),
}

/// What a [`Statement`] stands for.
pub enum SpecStatement {
    FunctionCall(Seq<char>, Seq<SpecExpression>),
    Return(SpecExpression),
}

/// What an [`Item`] stands for.
pub enum SpecItem {
    ExternFunctionDefinition(Seq<char>, Seq<(Seq<char>, SpecType)>, SpecType),
    FunctionDeclaration(Seq<char>, Seq<(Seq<char>, SpecType)>, SpecType, Seq<SpecStatement>),
}

/// What a [`Module`] stands for.
pub struct SpecModule(pub Seq<char>, pub Seq<SpecItem>);

/// What `given` stands for: its names as sequences of characters.
pub open spec fn type_view(given: Type) -> SpecType
    decreases given,
{
    match given {
        Type::Atomic(name) => SpecType::Atomic(name@),
        Type::Pointer(inner) => SpecType::Pointer(Box::new(type_view(*inner))),
    }
}

impl Clone for Type {
    fn clone(&self) -> (copy: Type)
        ensures
            type_view(copy) == type_view(*self),
        decreases self,
    {
        match self {
            Type::Atomic(name) => Type::Atomic(name.clone()),
            Type::Pointer(inner) => {
                let copy = (**inner).clone();
                Type::Pointer(Box::new(copy))
            },
        }
    }
}

impl DeepView for Type {
    type V = SpecType;

    open spec fn deep_view(&self) -> SpecType {
        type_view(*self)
    }
}

impl DeepView for Expression {
    type V = SpecExpression;

    open spec fn deep_view(&self) -> SpecExpression {
        match self {
            Expression::StringLiteral(text) => SpecExpression::StringLiteral(text@),
            Expression::NumericLiteral(value) => SpecExpression::NumericLiteral(*value),
        }
    }
}

impl DeepView for Statement {
    type V = SpecStatement;

    open spec fn deep_view(&self) -> SpecStatement {
        match self {
            Statement::FunctionCall(name, arguments) => SpecStatement::FunctionCall(
                name@,
                arguments.deep_view(),
            ),
            Statement::Return(value) => SpecStatement::Return(value.deep_view()),
        }
    }
}

impl DeepView for Item {
    type V = SpecItem;

    open spec fn deep_view(&self) -> SpecItem {
        match self {
            Item::ExternFunctionDefinition(name, parameters, result) => {
                SpecItem::ExternFunctionDefinition(
                    name@,
                    parameters.deep_view(),
                    result.deep_view(),
                )
            },
            Item::FunctionDeclaration(name, parameters, result, body) => {
                SpecItem::FunctionDeclaration(
                    name@,
                    parameters.deep_view(),
                    result.deep_view(),
                    body.deep_view(),
                )
            },
        }
    }
}

impl DeepView for Module {
    type V = SpecModule;

    open spec fn deep_view(&self) -> SpecModule {
        SpecModule(self.0@, self.1.deep_view())
    }
}

} // verus!
