//! What inference gives for expressions whose names all stand for numbers
//! or for functions that end in a number.

use crate::ast::Expression;
use crate::infer::{
    application, function_type, inference, inferred_type, unification, unification_within, Fresh,
    UNIFICATION_DEPTH,
};
use crate::types::Type;
use vstd::prelude::*;

verus! {

/// Whether a type is `Number`, or a function type whose result is such a
/// type, with no error flag on the way.
pub open spec fn ends_in_number(type_: Type) -> bool
    decreases type_,
{
    if type_.is_function() {
        !type_->Raw_1 && ends_in_number(type_.result())
    } else {
        type_ == crate::infer::number_type()
    }
}

/// Whether every name that `expression` refers to is in `numeric` or bound
/// by a `let` inside it. The parameter of a lambda is no such name.
pub open spec fn is_numeric(expression: Expression, numeric: Set<Seq<char>>) -> bool
    decreases expression,
{
    match expression {
        Expression::Application(function, argument) => is_numeric(*function, numeric)
            && is_numeric(*argument, numeric),
        Expression::Lambda(parameter, body) => is_numeric(*body, numeric.remove(parameter@)),
        Expression::Let(name, bound, body) => is_numeric(*bound, numeric) && is_numeric(
            *body,
            numeric.insert(name@),
        ),
        Expression::Number(_) => true,
        Expression::Variable(name) => numeric.contains(name@),
    }
}

/// Whether an application occurs in `expression`.
pub open spec fn has_application(expression: Expression) -> bool
    decreases expression,
{
    match expression {
        Expression::Application(_, _) => true,
        Expression::Lambda(_, body) => has_application(*body),
        Expression::Let(_, bound, body) => has_application(*bound) || has_application(*body),
        Expression::Number(_) => false,
        Expression::Variable(_) => false,
    }
}

/// Whether `environment` binds each name in `numeric` to a type that ends
/// in `Number` and holds only variables in `allowed`.
pub open spec fn binds_numbers(
    environment: Map<Seq<char>, Type>,
    numeric: Set<Seq<char>>,
    allowed: Set<usize>,
) -> bool {
    forall|name: Seq<char>| #[trigger]
        numeric.contains(name) ==> environment.contains_key(name) && ends_in_number(
            environment[name],
        ) && variables_within(environment[name], allowed)
}

/// Whether every variable of `type_` is in `allowed`.
pub open spec fn variables_within(type_: Type, allowed: Set<usize>) -> bool {
    forall|id: usize| #[trigger] type_.mentions(id) ==> allowed.contains(id)
}

/// Whether a substitution binds only variables in `allowed`, to types that
/// hold only variables in `allowed`.
pub open spec fn substitution_within(s: Map<usize, Type>, allowed: Set<usize>) -> bool {
    forall|key: usize| #[trigger]
        s.contains_key(key) ==> allowed.contains(key) && variables_within(s[key], allowed)
}

/// The identifiers that inference of `expression` draws from `fresh`.
pub open spec fn drawn(expression: Expression, fresh: Fresh) -> Set<usize>
    decreases expression,
{
    match expression {
        Expression::Application(function, argument) => drawn(*function, fresh.first()).union(
            drawn(*argument, fresh.second()),
        ).insert(fresh.identifier()),
        Expression::Lambda(_, body) => drawn(*body, fresh.first()).insert(fresh.identifier()),
        Expression::Let(_, bound, body) => drawn(*bound, fresh.first()).union(
            drawn(*body, fresh.second()),
        ),
        Expression::Number(_) => Set::empty(),
        Expression::Variable(_) => Set::empty(),
    }
}

/// Whether inference of `expression` draws no identifier from `fresh`
/// twice.
pub open spec fn draws_distinct(expression: Expression, fresh: Fresh) -> bool
    decreases expression,
{
    match expression {
        Expression::Application(function, argument) => {
            &&& draws_distinct(*function, fresh.first())
            &&& draws_distinct(*argument, fresh.second())
            &&& drawn(*function, fresh.first()).disjoint(drawn(*argument, fresh.second()))
            &&& !drawn(*function, fresh.first()).contains(fresh.identifier())
            &&& !drawn(*argument, fresh.second()).contains(fresh.identifier())
        },
        Expression::Lambda(_, body) => {
            &&& draws_distinct(*body, fresh.first())
            &&& !drawn(*body, fresh.first()).contains(fresh.identifier())
        },
        Expression::Let(_, bound, body) => {
            &&& draws_distinct(*bound, fresh.first())
            &&& draws_distinct(*body, fresh.second())
            &&& drawn(*bound, fresh.first()).disjoint(drawn(*body, fresh.second()))
        },
        Expression::Number(_) => true,
        Expression::Variable(_) => true,
    }
}

/// A substitution keeps a type that ends in `Number` one that does.
pub proof fn lemma_substitute_ends_in_number(type_: Type, s: Map<usize, Type>)
    requires
        ends_in_number(type_),
    ensures
        ends_in_number(type_.substituted(s)),
    decreases type_,
{
    if type_.is_function() {
        lemma_substitute_ends_in_number(type_.result(), s);
    }
}

/// Inference never fails on an expression without applications whose names
/// all refer to a `let` or to a type ending in `Number`, and the type it
/// gives is `Number` or a function type ending in `Number`, whichever
/// identifiers are drawn.
pub proof fn lemma_numeric_inference(
    environment: Map<Seq<char>, Type>,
    expression: Expression,
    numeric: Set<Seq<char>>,
    fresh: Fresh,
)
    requires
        is_numeric(expression, numeric),
        !has_application(expression),
        binds_numbers(environment, numeric, Set::full()),
    ensures
        inference(environment, expression, fresh) is Some,
        ends_in_number(inference(environment, expression, fresh)->Some_0.1),
    decreases expression,
{
    match expression {
        Expression::Application(_, _) => {},
        Expression::Lambda(parameter, body) => {
            let extended = environment.insert(parameter@, Type::Variable(fresh.identifier()));
            assert(binds_numbers(extended, numeric.remove(parameter@), Set::full()));
            lemma_numeric_inference(extended, *body, numeric.remove(parameter@), fresh.first());
            let (substitutions, body_type) = inference(extended, *body, fresh.first())->Some_0;
            lemma_substitute_ends_in_number(body_type, substitutions);
        },
        Expression::Let(name, bound, body) => {
            lemma_numeric_inference(environment, *bound, numeric, fresh.first());
            let (of_bound, bound_type) = inference(environment, *bound, fresh.first())->Some_0;
            let extended = environment.insert(name@, bound_type);
            assert(binds_numbers(extended, numeric.insert(name@), Set::full()));
            lemma_numeric_inference(extended, *body, numeric.insert(name@), fresh.second());
            let (of_body, body_type) = inference(extended, *body, fresh.second())->Some_0;
            lemma_substitute_ends_in_number(body_type, of_bound.union_prefer_right(of_body));
        },
        Expression::Number(_) => {},
        Expression::Variable(name) => {},
    }
}

/// `infer_type` never fails on a closed expression without applications in
/// which every name refers to a `let`, and its type is `Number` or a
/// function type ending in `Number`.
pub proof fn lemma_numeric_type(expression: Expression, fresh: Fresh)
    requires
        is_numeric(expression, Set::empty()),
        !has_application(expression),
    ensures
        inferred_type(expression, fresh) is Some,
        ends_in_number(inferred_type(expression, fresh)->Some_0),
{
    lemma_numeric_inference(Map::empty(), expression, Set::empty(), fresh);
}

/// The argument and the result of a function type hold no variable that
/// the function type does not hold.
pub proof fn lemma_parts_within(type_: Type, allowed: Set<usize>)
    requires
        type_.is_function(),
        variables_within(type_, allowed),
    ensures
        variables_within(type_.argument(), allowed),
        variables_within(type_.result(), allowed),
{
    assert forall|id: usize| type_.argument().mentions(id) implies allowed.contains(id) by {
        assert(type_.mentions(id));
    }
    assert forall|id: usize| type_.result().mentions(id) implies allowed.contains(id) by {
        assert(type_.mentions(id));
    }
}

/// A function type holds only the variables of its argument and result.
pub proof fn lemma_function_within(argument: Type, result: Type, allowed: Set<usize>)
    requires
        variables_within(argument, allowed),
        variables_within(result, allowed),
    ensures
        variables_within(function_type(argument, result), allowed),
{
    let whole = function_type(argument, result);
    assert forall|id: usize| whole.mentions(id) implies allowed.contains(id) by {
        assert(argument.mentions(id) || result.mentions(id));
    }
}

/// What holds of a type within a set of variables holds within a larger
/// set.
pub proof fn lemma_within_superset(type_: Type, small: Set<usize>, large: Set<usize>)
    requires
        variables_within(type_, small),
        small.subset_of(large),
    ensures
        variables_within(type_, large),
{
}

/// What holds of a substitution within a set of variables holds within a
/// larger set.
pub proof fn lemma_substitution_superset(
    s: Map<usize, Type>,
    small: Set<usize>,
    large: Set<usize>,
)
    requires
        substitution_within(s, small),
        small.subset_of(large),
    ensures
        substitution_within(s, large),
{
    assert forall|key: usize| s.contains_key(key) implies large.contains(key) && variables_within(
        s[key],
        large,
    ) by {
        lemma_within_superset(s[key], small, large);
    }
}

/// Two substitutions within a set of variables merge into one within it.
pub proof fn lemma_union_within(
    first: Map<usize, Type>,
    second: Map<usize, Type>,
    allowed: Set<usize>,
)
    requires
        substitution_within(first, allowed),
        substitution_within(second, allowed),
    ensures
        substitution_within(first.union_prefer_right(second), allowed),
{
    let both = first.union_prefer_right(second);
    assert forall|key: usize| both.contains_key(key) implies allowed.contains(key)
        && variables_within(both[key], allowed) by {
        if second.contains_key(key) {
            assert(both[key] == second[key]);
        } else {
            assert(first.contains_key(key));
            assert(both[key] == first[key]);
        }
    }
}

/// A substitution puts into a type only variables that the type or the
/// substitution holds.
pub proof fn lemma_substitute_within(type_: Type, s: Map<usize, Type>, allowed: Set<usize>)
    requires
        variables_within(type_, allowed),
        substitution_within(s, allowed),
    ensures
        variables_within(type_.substituted(s), allowed),
    decreases type_,
{
    if type_.is_function() {
        lemma_parts_within(type_, allowed);
        lemma_substitute_within(type_.argument(), s, allowed);
        lemma_substitute_within(type_.result(), s, allowed);
        let after = type_.substituted(s);
        assert(after.argument() == type_.argument().substituted(s));
        assert(after.result() == type_.result().substituted(s));
        assert forall|id: usize| after.mentions(id) implies allowed.contains(id) by {
            assert(after.argument().mentions(id) || after.result().mentions(id));
        }
    } else if type_ is Variable {
        if s.contains_key(type_->Variable_0) {
            assert(variables_within(s[type_->Variable_0], allowed));
        }
    }
}

/// Unification binds only variables of the two types, to types that hold
/// only variables of the two types.
pub proof fn lemma_unification_within(one: Type, other: Type, depth: nat, allowed: Set<usize>)
    requires
        variables_within(one, allowed),
        variables_within(other, allowed),
        unification_within(one, other, depth) is Some,
    ensures
        substitution_within(unification_within(one, other, depth)->Some_0, allowed),
    decreases depth,
{
    if one is Variable {
        assert(one.mentions(one->Variable_0));
    } else if other is Variable {
        assert(other.mentions(other->Variable_0));
    } else if one.is_function() && other.is_function() {
        let below = (depth - 1) as nat;
        lemma_parts_within(one, allowed);
        lemma_parts_within(other, allowed);
        lemma_unification_within(one.argument(), other.argument(), below, allowed);
        let first = unification_within(one.argument(), other.argument(), below)->Some_0;
        let one_result = one.result().substituted(first);
        let other_result = other.result().substituted(first);
        lemma_substitute_within(one.result(), first, allowed);
        lemma_substitute_within(other.result(), first, allowed);
        lemma_unification_within(one_result, other_result, below, allowed);
        let second = unification_within(one_result, other_result, below)->Some_0;
        lemma_union_within(first, second, allowed);
    }
}

/// Where the identifier drawn for the result occurs neither in the type of
/// a function ending in `Number` nor in the type of its argument, and the
/// application is well typed, its type ends in `Number`.
pub proof fn lemma_application_ends_in_number(
    known: Map<usize, Type>,
    function: Type,
    argument: Type,
    identifier: usize,
    allowed: Set<usize>,
)
    requires
        ends_in_number(function),
        variables_within(function, allowed),
        variables_within(argument, allowed),
        substitution_within(known, allowed),
        !allowed.contains(identifier),
        application(known, function, argument, identifier) is Some,
    ensures
        ends_in_number(application(known, function, argument, identifier)->Some_0.1),
        variables_within(
            application(known, function, argument, identifier)->Some_0.1,
            allowed.insert(identifier),
        ),
        substitution_within(
            application(known, function, argument, identifier)->Some_0.0,
            allowed.insert(identifier),
        ),
{
    let result = Type::Variable(identifier);
    let expected = function_type(argument, result);
    let larger = allowed.insert(identifier);
    assert(unification(function, expected) is Some);
    assert(function.is_function());
    let below = (UNIFICATION_DEPTH - 1) as nat;
    assert(expected.argument() == argument);
    assert(expected.result() == result);
    let first = unification_within(function.argument(), argument, below)->Some_0;
    lemma_parts_within(function, allowed);
    lemma_unification_within(function.argument(), argument, below, allowed);
    assert(!first.contains_key(identifier));
    assert(result.substituted(first) == result);
    let remaining = function.result().substituted(first);
    lemma_substitute_ends_in_number(function.result(), first);
    lemma_substitute_within(function.result(), first, allowed);
    assert(!(remaining is Variable));
    let second = Map::<usize, Type>::empty().insert(identifier, remaining);
    assert(unification_within(remaining, result, below) == Some(second));
    let more = first.union_prefer_right(second);
    assert(unification(function, expected) == Some(more));
    let all = known.union_prefer_right(more);
    assert(all[identifier] == remaining);
    assert(result.substituted(all) == remaining);
    lemma_within_superset(remaining, allowed, larger);
    lemma_substitution_superset(first, allowed, larger);
    lemma_substitution_superset(known, allowed, larger);
    assert(substitution_within(second, larger));
    lemma_union_within(first, second, larger);
    lemma_union_within(known, more, larger);
}

/// Where inference draws no identifier twice, and none that the types of
/// the names in scope hold, the type it gives for a well-typed expression
/// whose names all refer to a `let` or to a type ending in `Number` is
/// `Number` or a function type ending in `Number`.
pub proof fn lemma_applied_inference(
    environment: Map<Seq<char>, Type>,
    expression: Expression,
    numeric: Set<Seq<char>>,
    outer: Set<usize>,
    fresh: Fresh,
)
    requires
        is_numeric(expression, numeric),
        draws_distinct(expression, fresh),
        outer.disjoint(drawn(expression, fresh)),
        binds_numbers(environment, numeric, outer),
        inference(environment, expression, fresh) is Some,
    ensures
        ends_in_number(inference(environment, expression, fresh)->Some_0.1),
        variables_within(
            inference(environment, expression, fresh)->Some_0.1,
            outer.union(drawn(expression, fresh)),
        ),
        substitution_within(
            inference(environment, expression, fresh)->Some_0.0,
            outer.union(drawn(expression, fresh)),
        ),
    decreases expression,
{
    let all = outer.union(drawn(expression, fresh));
    match expression {
        Expression::Application(function, argument) => {
            let identifier = fresh.identifier();
            let below = outer.union(drawn(*function, fresh.first())).union(
                drawn(*argument, fresh.second()),
            );
            lemma_applied_inference(environment, *function, numeric, outer, fresh.first());
            lemma_applied_inference(environment, *argument, numeric, outer, fresh.second());
            let (of_function, function_type) = inference(
                environment,
                *function,
                fresh.first(),
            )->Some_0;
            let (of_argument, argument_type) = inference(
                environment,
                *argument,
                fresh.second(),
            )->Some_0;
            lemma_within_superset(
                function_type,
                outer.union(drawn(*function, fresh.first())),
                below,
            );
            lemma_within_superset(
                argument_type,
                outer.union(drawn(*argument, fresh.second())),
                below,
            );
            lemma_substitution_superset(
                of_function,
                outer.union(drawn(*function, fresh.first())),
                below,
            );
            lemma_substitution_superset(
                of_argument,
                outer.union(drawn(*argument, fresh.second())),
                below,
            );
            lemma_union_within(of_function, of_argument, below);
            assert(drawn(expression, fresh).contains(identifier));
            assert(!below.contains(identifier));
            lemma_application_ends_in_number(
                of_function.union_prefer_right(of_argument),
                function_type,
                argument_type,
                identifier,
                below,
            );
            assert(below.insert(identifier) =~= all);
        },
        Expression::Lambda(parameter, body) => {
            let identifier = fresh.identifier();
            let parameter_type = Type::Variable(identifier);
            let extended = environment.insert(parameter@, parameter_type);
            let inner = outer.insert(identifier);
            assert(drawn(expression, fresh).contains(identifier));
            assert(binds_numbers(extended, numeric.remove(parameter@), inner)) by {
                assert forall|name: Seq<char>| #[trigger]
                    numeric.remove(parameter@).contains(name) implies extended.contains_key(name)
                    && ends_in_number(extended[name]) && variables_within(
                    extended[name],
                    inner,
                ) by {
                    assert(numeric.contains(name));
                    lemma_within_superset(environment[name], outer, inner);
                }
            }
            lemma_applied_inference(
                extended,
                *body,
                numeric.remove(parameter@),
                inner,
                fresh.first(),
            );
            let (substitutions, body_type) = inference(extended, *body, fresh.first())->Some_0;
            assert(inner.union(drawn(*body, fresh.first())) =~= all);
            assert(variables_within(parameter_type, all));
            lemma_function_within(parameter_type, body_type, all);
            lemma_substitute_within(function_type(parameter_type, body_type), substitutions, all);
            lemma_substitute_ends_in_number(body_type, substitutions);
        },
        Expression::Let(name, bound, body) => {
            lemma_applied_inference(environment, *bound, numeric, outer, fresh.first());
            let (of_bound, bound_type) = inference(environment, *bound, fresh.first())->Some_0;
            let extended = environment.insert(name@, bound_type);
            let inner = outer.union(drawn(*bound, fresh.first()));
            assert(binds_numbers(extended, numeric.insert(name@), inner)) by {
                assert forall|other: Seq<char>| #[trigger]
                    numeric.insert(name@).contains(other) implies extended.contains_key(other)
                    && ends_in_number(extended[other]) && variables_within(
                    extended[other],
                    inner,
                ) by {
                    if other != name@ {
                        assert(numeric.contains(other));
                        lemma_within_superset(environment[other], outer, inner);
                    }
                }
            }
            lemma_applied_inference(extended, *body, numeric.insert(name@), inner, fresh.second());
            let (of_body, body_type) = inference(extended, *body, fresh.second())->Some_0;
            assert(inner.union(drawn(*body, fresh.second())) =~= all);
            lemma_substitution_superset(of_bound, inner, all);
            lemma_union_within(of_bound, of_body, all);
            lemma_substitute_within(body_type, of_bound.union_prefer_right(of_body), all);
            lemma_substitute_ends_in_number(body_type, of_bound.union_prefer_right(of_body));
        },
        Expression::Number(_) => {},
        Expression::Variable(name) => {
            lemma_within_superset(environment[name@], outer, all);
        },
    }
}

/// Where `infer_type` draws no identifier twice, the type it gives for a
/// well-typed closed expression in which every name refers to a `let` is
/// `Number` or a function type ending in `Number`.
pub proof fn lemma_applied_type(expression: Expression, fresh: Fresh)
    requires
        is_numeric(expression, Set::empty()),
        draws_distinct(expression, fresh),
        inferred_type(expression, fresh) is Some,
    ensures
        ends_in_number(inferred_type(expression, fresh)->Some_0),
{
    lemma_applied_inference(Map::empty(), expression, Set::empty(), Set::empty(), fresh);
}

} // verus!
