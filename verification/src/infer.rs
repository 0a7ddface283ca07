//! Unification of types and the inference of an expression's type.

use crate::ast::Expression;
use crate::environment::Environment;
use crate::types::{lemma_substitute_ground, RawType, Type};
use std::collections::HashMap;
use std::sync::Arc;
use vstd::prelude::*;

verus! {

broadcast use vstd::std_specs::hash::group_hash_axioms;

/// The failure of an inference: a name that is not in scope, or two types
/// that cannot be made equal.
#[derive(Debug, Clone, Copy, PartialEq, Eq)]
pub struct InferenceError;

/// How many levels `unify` follows two function types into each other.
///
/// Without an occurs check a variable may be bound to a type that holds it,
/// and the unification of two function types may then go on for ever. The
/// depth bounds it. `unify` takes the largest depth there is, which no run
/// reaches; `unify_within` takes the depth its caller chooses.
pub const UNIFICATION_DEPTH: usize = usize::MAX;

/// The substitution that unifying `one` with `other` gives while following
/// function types at most `depth` levels down, or `None` where the shapes
/// differ or the depth runs out.
pub open spec fn unification_within(one: Type, other: Type, depth: nat) -> Option<Map<usize, Type>>
    decreases depth,
{
    match (one, other) {
        (Type::Variable(id), _) => Some(Map::empty().insert(id, other)),
        (_, Type::Variable(id)) => Some(Map::empty().insert(id, one)),
        (Type::Raw(RawType::Number, _), Type::Raw(RawType::Number, _)) => Some(Map::empty()),
        (
            Type::Raw(RawType::Function(one_argument, one_result), _),
            Type::Raw(RawType::Function(other_argument, other_result), _),
        ) => if depth == 0 {
            None
        } else {
            match unification_within(*one_argument, *other_argument, (depth - 1) as nat) {
                None => None,
                Some(first) => match unification_within(
                    (*one_result).substituted(first),
                    (*other_result).substituted(first),
                    (depth - 1) as nat,
                ) {
                    None => None,
                    Some(second) => Some(first.union_prefer_right(second)),
                },
            }
        },
        _ => None,
    }
}

/// The substitution that unifying `one` with `other` gives, or `None` where
/// they cannot be unified.
pub open spec fn unification(one: Type, other: Type) -> Option<Map<usize, Type>> {
    unification_within(one, other, UNIFICATION_DEPTH as nat)
}

/// Whether the outcome of a unification is the one that `expected` names.
pub open spec fn unified(
    outcome: Result<HashMap<usize, Type>, InferenceError>,
    expected: Option<Map<usize, Type>>,
) -> bool {
    match outcome {
        Ok(substitutions) => expected == Some(substitutions@),
        Err(_) => expected is None,
    }
}

/// `HashMap::extend` inserts each entry of `other` into `target`: a key of
/// `other` takes the value it has there, every other key of `target` keeps
/// its own.
#[verifier::external_body]
fn merge(target: &mut HashMap<usize, Type>, other: HashMap<usize, Type>)
    ensures
        final(target)@ == old(target)@.union_prefer_right(other@),
{
    target.extend(other);
}

/// Unifies two types as `unify` does, following function types at most
/// `depth` levels down; it fails where two function types meet below that.
pub fn unify_within(one: &Type, other: &Type, depth: usize) -> (result: Result<
    HashMap<usize, Type>,
    InferenceError,
>)
    ensures
        unified(result, unification_within(*one, *other, depth as nat)),
    decreases depth,
{
    match (one, other) {
        (Type::Variable(id), _) => {
            let mut substitutions: HashMap<usize, Type> = HashMap::new();
            substitutions.insert(*id, other.clone());
            Ok(substitutions)
        },
        (_, Type::Variable(id)) => {
            let mut substitutions: HashMap<usize, Type> = HashMap::new();
            substitutions.insert(*id, one.clone());
            Ok(substitutions)
        },
        (Type::Raw(RawType::Number, _), Type::Raw(RawType::Number, _)) => Ok(HashMap::new()),
        (
            Type::Raw(RawType::Function(one_argument, one_result), _),
            Type::Raw(RawType::Function(other_argument, other_result), _),
        ) => {
            if depth == 0 {
                return Err(InferenceError);
            }
            let mut substitutions = match unify_within(one_argument, other_argument, depth - 1) {
                Ok(substitutions) => substitutions,
                Err(error) => {
                    return Err(error);
                },
            };
            let one_result = one_result.substitute(&substitutions);
            let other_result = other_result.substitute(&substitutions);
            match unify_within(&one_result, &other_result, depth - 1) {
                Ok(more) => {
                    merge(&mut substitutions, more);
                    Ok(substitutions)
                },
                Err(error) => Err(error),
            }
        },
        _ => Err(InferenceError),
    }
}

/// Unifies two types: finds the substitution that makes them equal in
/// shape, or fails where one is a number and the other a function, or
/// either is the error shape.
///
/// A variable on either side is bound to the other side as it stands, the
/// left one first. Two function types are unified argument by argument and
/// then, with what that gave applied to both, result by result; bindings of
/// the results win over those of the arguments.
pub fn unify(one: &Type, other: &Type) -> (result: Result<HashMap<usize, Type>, InferenceError>)
    ensures
        unified(result, unification(*one, *other)),
{
    unify_within(one, other, UNIFICATION_DEPTH)
}

/// The identifiers that one inference takes for its type variables, laid
/// out along the expression: a node holds the identifier for an application
/// or a lambda, and the identifiers for the sub-expressions. A `let` takes
/// those of its bound expression and of its body from a node; a lambda
/// takes those of its body from the first place. Where a leaf stands for an
/// expression that needs more, every identifier is zero.
#[derive(Debug)]
pub enum Fresh {
    Leaf,
    Node(usize, Box<Fresh>, Box<Fresh>),
}

impl Fresh {
    /// The identifier drawn at this node.
    pub open spec fn identifier(self) -> usize {
        match self {
            Fresh::Leaf => 0,
            Fresh::Node(identifier, _, _) => identifier,
        }
    }

    /// The draws of the first sub-expression.
    pub open spec fn first(self) -> Fresh {
        match self {
            Fresh::Leaf => Fresh::Leaf,
            Fresh::Node(_, first, _) => *first,
        }
    }

    /// The draws of the second sub-expression.
    pub open spec fn second(self) -> Fresh {
        match self {
            Fresh::Leaf => Fresh::Leaf,
            Fresh::Node(_, _, second) => *second,
        }
    }
}

/// The function type from `argument` to `result`, with the error flag unset.
pub open spec fn function_type(argument: Type, result: Type) -> Type {
    Type::Raw(RawType::Function(Arc::new(argument), Arc::new(result)), false)
}

/// The type `Number`, with the error flag unset.
pub open spec fn number_type() -> Type {
    Type::Raw(RawType::Number, false)
}

/// What applying a function of type `function` to an argument of type
/// `argument` gives, where `known` is what the two inferences found and
/// `identifier` names the type of the result: the type of the function is
/// unified with `argument -> identifier`, and the result is resolved
/// against all that is then known.
pub open spec fn application(
    known: Map<usize, Type>,
    function: Type,
    argument: Type,
    identifier: usize,
) -> Option<(Map<usize, Type>, Type)> {
    match unification(function, function_type(argument, Type::Variable(identifier))) {
        None => None,
        Some(more) => {
            let all = known.union_prefer_right(more);
            Some((all, Type::Variable(identifier).substituted(all)))
        },
    }
}

/// The substitution and type that inference gives for `expression` under
/// `environment` when it draws the identifiers `fresh`, or `None` where it
/// fails.
pub open spec fn inference(
    environment: Map<Seq<char>, Type>,
    expression: Expression,
    fresh: Fresh,
) -> Option<(Map<usize, Type>, Type)>
    decreases expression,
{
    match expression {
        Expression::Application(function, argument) => match inference(
            environment,
            *function,
            fresh.first(),
        ) {
            None => None,
            Some((of_function, function_type)) => match inference(
                environment,
                *argument,
                fresh.second(),
            ) {
                None => None,
                Some((of_argument, argument_type)) => application(
                    of_function.union_prefer_right(of_argument),
                    function_type,
                    argument_type,
                    fresh.identifier(),
                ),
            },
        },
        Expression::Lambda(parameter, body) => {
            let parameter_type = Type::Variable(fresh.identifier());
            match inference(environment.insert(parameter@, parameter_type), *body, fresh.first()) {
                None => None,
                Some((substitutions, body_type)) => Some(
                    (
                        substitutions,
                        function_type(parameter_type, body_type).substituted(substitutions),
                    ),
                ),
            }
        },
        Expression::Let(name, bound, body) => match inference(environment, *bound, fresh.first()) {
            None => None,
            Some((of_bound, bound_type)) => match inference(
                environment.insert(name@, bound_type),
                *body,
                fresh.second(),
            ) {
                None => None,
                Some((of_body, body_type)) => {
                    let all = of_bound.union_prefer_right(of_body);
                    Some((all, body_type.substituted(all)))
                },
            },
        },
        Expression::Number(_) => Some((Map::empty(), number_type())),
        Expression::Variable(name) => if environment.contains_key(name@) {
            Some((Map::empty(), environment[name@]))
        } else {
            None
        },
    }
}

/// Whether the outcome of an inference is the one that `expected` names.
pub open spec fn inferred(
    outcome: Result<(HashMap<usize, Type>, Type), InferenceError>,
    expected: Option<(Map<usize, Type>, Type)>,
) -> bool {
    match outcome {
        Ok((substitutions, type_)) => expected == Some((substitutions@, type_)),
        Err(_) => expected is None,
    }
}

/// The step of inference at an application, once the types of the function
/// and of the argument are known and `identifier` has been drawn for the
/// type of the result. `substitutions` holds what the two inferences found.
pub fn apply(
    substitutions: HashMap<usize, Type>,
    function_type: Type,
    argument_type: Type,
    identifier: usize,
) -> (result: Result<(HashMap<usize, Type>, Type), InferenceError>)
    ensures
        inferred(result, application(substitutions@, function_type, argument_type, identifier)),
{
    let mut substitutions = substitutions;
    let result_type = Type::Variable(identifier);
    let expected = Type::from(
        RawType::Function(Arc::new(argument_type), Arc::new(result_type.clone())),
    );
    match unify(&function_type, &expected) {
        Ok(more) => {
            merge(&mut substitutions, more);
            let result_type = result_type.substitute(&substitutions);
            Ok((substitutions, result_type))
        },
        Err(error) => Err(error),
    }
}

/// Whether `outcome` is what inference gives with the identifiers `given`
/// or, where none are given, with some identifiers.
pub open spec fn inferred_from(
    outcome: Result<(HashMap<usize, Type>, Type), InferenceError>,
    environment: Map<Seq<char>, Type>,
    expression: Expression,
    given: Option<&Fresh>,
) -> bool {
    match given {
        Some(fresh) => inferred(outcome, inference(environment, expression, *fresh)),
        None => exists|fresh: Fresh|
            inferred(outcome, #[trigger] inference(environment, expression, fresh)),
    }
}

/// The identifier for the node at hand: the one that is given, or one drawn
/// at random where none is.
fn next_identifier(given: Option<&Fresh>) -> (result: usize)
    ensures
        given matches Some(fresh) ==> result == fresh.identifier(),
{
    match given {
        Some(Fresh::Node(identifier, _, _)) => *identifier,
        Some(Fresh::Leaf) => 0,
        None => match Type::new_variable() {
            Type::Variable(identifier) => identifier,
            Type::Raw(_, _) => 0,
        },
    }
}

/// The identifiers given for the first sub-expression.
fn first_of<'a>(given: Option<&'a Fresh>) -> (result: Option<&'a Fresh>)
    ensures
        given is Some <==> result is Some,
        given matches Some(fresh) ==> *result->Some_0 == fresh.first(),
{
    match given {
        Some(Fresh::Node(_, first, _)) => Some(&**first),
        Some(Fresh::Leaf) => given,
        None => None,
    }
}

/// The identifiers given for the second sub-expression.
fn second_of<'a>(given: Option<&'a Fresh>) -> (result: Option<&'a Fresh>)
    ensures
        given is Some <==> result is Some,
        given matches Some(fresh) ==> *result->Some_0 == fresh.second(),
{
    match given {
        Some(Fresh::Node(_, _, second)) => Some(&**second),
        Some(Fresh::Leaf) => given,
        None => None,
    }
}

/// The identifiers that an inference with the given outcome used: those
/// that were given, or some for which the outcome is the one found.
spec fn used(
    outcome: Result<(HashMap<usize, Type>, Type), InferenceError>,
    environment: Map<Seq<char>, Type>,
    expression: Expression,
    given: Option<&Fresh>,
) -> Fresh {
    match given {
        Some(fresh) => *fresh,
        None => choose|fresh: Fresh|
            inferred(outcome, #[trigger] inference(environment, expression, fresh)),
    }
}

fn infer_from(environment: &Environment, expression: &Expression, given: Option<&Fresh>) -> (result:
    Result<(HashMap<usize, Type>, Type), InferenceError>)
    ensures
        inferred_from(result, environment@, *expression, given),
    decreases *expression,
{
    match expression {
        Expression::Application(function, argument) => {
            let given_first = first_of(given);
            let given_second = second_of(given);
            let of_function = infer_from(environment, function, given_first);
            let ghost first = used(of_function, environment@, **function, given_first);
            let (mut substitutions, function_type) = match of_function {
                Ok(found) => found,
                Err(error) => {
                    proof {
                        let fresh = Fresh::Node(0, Box::new(first), Box::new(Fresh::Leaf));
                        assert(inference(environment@, *expression, fresh) is None);
                    }
                    return Err(error);
                },
            };
            let of_argument = infer_from(environment, argument, given_second);
            let ghost second = used(of_argument, environment@, **argument, given_second);
            let (other_substitutions, argument_type) = match of_argument {
                Ok(found) => found,
                Err(error) => {
                    proof {
                        let fresh = Fresh::Node(0, Box::new(first), Box::new(second));
                        assert(inference(environment@, *expression, fresh) is None);
                    }
                    return Err(error);
                },
            };
            merge(&mut substitutions, other_substitutions);
            let identifier = next_identifier(given);
            let result = apply(substitutions, function_type, argument_type, identifier);
            proof {
                let fresh = Fresh::Node(identifier, Box::new(first), Box::new(second));
                assert(inferred(result, inference(environment@, *expression, fresh)));
            }
            result
        },
        Expression::Lambda(variable, body) => {
            let identifier = next_identifier(given);
            let argument_type = Type::Variable(identifier);
            let extended = environment.extended(variable.clone(), argument_type.clone());
            let given_first = first_of(given);
            let of_body = infer_from(&extended, body, given_first);
            let ghost first = used(of_body, extended@, **body, given_first);
            let ghost fresh = Fresh::Node(identifier, Box::new(first), Box::new(Fresh::Leaf));
            match of_body {
                Ok((substitutions, result_type)) => {
                    let function_type = RawType::Function(
                        Arc::new(argument_type),
                        Arc::new(result_type),
                    ).substitute(&substitutions);
                    let result = Ok((substitutions, Type::from(function_type)));
                    proof {
                        assert(inferred(result, inference(environment@, *expression, fresh)));
                    }
                    result
                },
                Err(error) => {
                    proof {
                        assert(inference(environment@, *expression, fresh) is None);
                    }
                    Err(error)
                },
            }
        },
        Expression::Let(variable, bound_expression, body) => {
            let given_first = first_of(given);
            let given_second = second_of(given);
            let of_bound = infer_from(environment, bound_expression, given_first);
            let ghost first = used(of_bound, environment@, **bound_expression, given_first);
            let (mut substitutions, bound_type) = match of_bound {
                Ok(found) => found,
                Err(error) => {
                    proof {
                        let fresh = Fresh::Node(0, Box::new(first), Box::new(Fresh::Leaf));
                        assert(inference(environment@, *expression, fresh) is None);
                    }
                    return Err(error);
                },
            };
            let extended = environment.extended(variable.clone(), bound_type);
            let of_body = infer_from(&extended, body, given_second);
            let ghost second = used(of_body, extended@, **body, given_second);
            let ghost fresh = Fresh::Node(0, Box::new(first), Box::new(second));
            match of_body {
                Ok((other_substitutions, type_)) => {
                    merge(&mut substitutions, other_substitutions);
                    let type_ = type_.substitute(&substitutions);
                    let result = Ok((substitutions, type_));
                    proof {
                        assert(inferred(result, inference(environment@, *expression, fresh)));
                    }
                    result
                },
                Err(error) => {
                    proof {
                        assert(inference(environment@, *expression, fresh) is None);
                    }
                    Err(error)
                },
            }
        },
        Expression::Number(_) => {
            let result = Ok((HashMap::new(), Type::from(RawType::Number)));
            proof {
                assert(inferred(result, inference(environment@, *expression, Fresh::Leaf)));
            }
            result
        },
        Expression::Variable(variable) => {
            let result = match environment.get(variable) {
                Some(type_) => Ok((HashMap::new(), type_.clone())),
                None => Err(InferenceError),
            };
            proof {
                assert(inferred(result, inference(environment@, *expression, Fresh::Leaf)));
            }
            result
        },
    }
}

/// Infers the type of `expression` under `environment`, together with the
/// substitution found on the way.
///
/// The identifiers of the type variables are drawn at random, one at each
/// application and each lambda that is reached, so the outcome is that of
/// `inference` for the identifiers that were drawn.
pub fn infer(environment: &Environment, expression: &Expression) -> (result: Result<
    (HashMap<usize, Type>, Type),
    InferenceError,
>)
    ensures
        exists|fresh: Fresh| inferred(result, #[trigger] inference(environment@, *expression, fresh)),
{
    infer_from(environment, expression, None)
}

/// Infers the type of `expression` under `environment` as `infer` does,
/// with the identifiers in `fresh` for its type variables.
pub fn infer_with(environment: &Environment, expression: &Expression, fresh: &Fresh) -> (result:
    Result<(HashMap<usize, Type>, Type), InferenceError>)
    ensures
        inferred(result, inference(environment@, *expression, *fresh)),
{
    infer_from(environment, expression, Some(fresh))
}

/// The type that inference gives for a closed `expression` when it draws
/// the identifiers `fresh`, or `None` where it fails.
pub open spec fn inferred_type(expression: Expression, fresh: Fresh) -> Option<Type> {
    match inference(Map::empty(), expression, fresh) {
        None => None,
        Some((_, type_)) => Some(type_),
    }
}

/// Whether the outcome of `infer_type` is the one that `expected` names.
pub open spec fn typed(outcome: Result<Type, InferenceError>, expected: Option<Type>) -> bool {
    match outcome {
        Ok(type_) => expected == Some(type_),
        Err(_) => expected is None,
    }
}

/// Infers the type of `expression`, in which no name is in scope at the
/// outset.
///
/// It fails where the expression refers to a name that is not bound, or
/// applies what cannot be a function of the argument it is given.
pub fn infer_type(expression: &Expression) -> (result: Result<Type, InferenceError>)
    ensures
        exists|fresh: Fresh| typed(result, #[trigger] inferred_type(*expression, fresh)),
{
    let environment = Environment::new();
    let outcome = infer(&environment, expression);
    let ghost fresh = choose|fresh: Fresh|
        inferred(outcome, #[trigger] inference(environment@, *expression, fresh));
    let result = match outcome {
        Ok((_, type_)) => Ok(type_),
        Err(error) => Err(error),
    };
    proof {
        assert(typed(result, inferred_type(*expression, fresh)));
    }
    result
}

/// Infers the type of a closed `expression` as `infer_type` does, with the
/// identifiers in `fresh` for its type variables.
pub fn infer_type_with(expression: &Expression, fresh: &Fresh) -> (result: Result<
    Type,
    InferenceError,
>)
    ensures
        typed(result, inferred_type(*expression, *fresh)),
{
    match infer_with(&Environment::new(), expression, fresh) {
        Ok((_, type_)) => Ok(type_),
        Err(error) => Err(error),
    }
}

/// Where one of two types holds no variable, unifying them in either order
/// has the same outcome: both fail, or both give the same substitution.
pub proof fn lemma_unification_symmetric(one: Type, other: Type, depth: nat)
    requires
        one.is_ground() || other.is_ground(),
    ensures
        unification_within(one, other, depth) == unification_within(other, one, depth),
    decreases depth,
{
    if one.is_function() && other.is_function() {
        if depth > 0 {
            if one.is_ground() {
                assert forall|id: usize| !one.argument().mentions(id) by {
                    assert(!one.mentions(id));
                }
                assert forall|id: usize| !one.result().mentions(id) by {
                    assert(!one.mentions(id));
                }
            } else {
                assert forall|id: usize| !other.argument().mentions(id) by {
                    assert(!other.mentions(id));
                }
                assert forall|id: usize| !other.result().mentions(id) by {
                    assert(!other.mentions(id));
                }
            }
            let below = (depth - 1) as nat;
            lemma_unification_symmetric(one.argument(), other.argument(), below);
            match unification_within(one.argument(), other.argument(), below) {
                None => {},
                Some(first) => {
                    if one.is_ground() {
                        lemma_substitute_ground(one.result(), first);
                    } else {
                        lemma_substitute_ground(other.result(), first);
                    }
                    lemma_unification_symmetric(
                        one.result().substituted(first),
                        other.result().substituted(first),
                        below,
                    );
                },
            }
        }
    } else if one is Variable {
        assert(one.mentions(one->Variable_0));
        if other is Variable {
            assert(other.mentions(other->Variable_0));
        }
    } else if other is Variable {
        assert(other.mentions(other->Variable_0));
    }
}

/// Where one of two types holds no variable, `unify` has the same outcome
/// in either order.
pub proof fn lemma_unify_symmetric(one: Type, other: Type)
    requires
        one.is_ground() || other.is_ground(),
    ensures
        unification(one, other) == unification(other, one),
{
    lemma_unification_symmetric(one, other, UNIFICATION_DEPTH as nat);
}

} // verus!
