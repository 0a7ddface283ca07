//! The expressions whose types are inferred.

use vstd::prelude::*;

verus! {

/// An expression of the language. Expressions are trees and are only read.
#[derive(Debug, PartialEq, Eq)]
pub enum Expression {
    /// A function applied to an argument.
    Application(Box<Expression>, Box<Expression>),
    /// A function of one named parameter.
    Lambda(String, Box<Expression>),
    /// A name bound to an expression within a body.
    Let(String, Box<Expression>, Box<Expression>),
    /// A numeric literal; its value plays no part in typing.
    Number(i64),
    /// A reference to a name in scope.
    Variable(String),
}

impl Clone for Expression {
    fn clone(&self) -> (result: Expression)
        ensures
            result == *self,
        decreases *self,
    {
        match self {
            Expression::Application(function, argument) => Expression::Application(
                Box::new((**function).clone()),
                Box::new((**argument).clone()),
            ),
            Expression::Lambda(parameter, body) => Expression::Lambda(
                parameter.clone(),
                Box::new((**body).clone()),
            ),
            Expression::Let(name, bound, body) => Expression::Let(
                name.clone(),
                Box::new((**bound).clone()),
                Box::new((**body).clone()),
            ),
            Expression::Number(value) => Expression::Number(*value),
            Expression::Variable(name) => Expression::Variable(name.clone()),
        }
    }
}

} // verus!
