use std::collections::HashMap;
use std::sync::Arc;
use type_infer::ast::Expression;
use type_infer::environment::Environment;
use type_infer::infer::{
    apply, infer, infer_type, infer_type_with, infer_with, unify, unify_within, Fresh,
    InferenceError, UNIFICATION_DEPTH,
};
use type_infer::types::{RawType, Type};

fn number() -> Type {
    Type::Raw(RawType::Number, false)
}

fn function(argument: Type, result: Type) -> Type {
    Type::Raw(RawType::Function(Arc::new(argument), Arc::new(result)), false)
}

fn variable(name: &str) -> Expression {
    Expression::Variable(name.to_string())
}

fn lambda(parameter: &str, body: Expression) -> Expression {
    Expression::Lambda(parameter.to_string(), Box::new(body))
}

fn application(function: Expression, argument: Expression) -> Expression {
    Expression::Application(Box::new(function), Box::new(argument))
}

fn let_(name: &str, bound: Expression, body: Expression) -> Expression {
    Expression::Let(name.to_string(), Box::new(bound), Box::new(body))
}

fn node(identifier: usize, first: Fresh, second: Fresh) -> Fresh {
    Fresh::Node(identifier, Box::new(first), Box::new(second))
}

fn substitution(entries: Vec<(usize, Type)>) -> HashMap<usize, Type> {
    entries.into_iter().collect()
}

#[test]
fn number_literal_is_a_number() {
    assert_eq!(infer_type(&Expression::Number(42)).unwrap(), number());
}

#[test]
fn unbound_variable_fails() {
    assert!(infer_type(&variable("x")).is_err());
}

#[test]
fn bound_variable_has_its_type() {
    let environment = Environment::new().extended("x".to_string(), number());
    let (substitutions, type_) = infer(&environment, &variable("x")).unwrap();
    assert!(substitutions.is_empty());
    assert_eq!(type_, number());
}

#[test]
fn identity_maps_a_variable_to_itself() {
    let type_ = infer_type(&lambda("x", variable("x"))).unwrap();
    match type_ {
        Type::Raw(RawType::Function(argument, result), false) => {
            assert!(matches!(*argument, Type::Variable(_)));
            assert_eq!(argument, result);
        }
        other => panic!("not a function type: {:?}", other),
    }
}

#[test]
fn applying_a_number_fails() {
    assert!(infer_type(&application(Expression::Number(1), Expression::Number(2))).is_err());
}

#[test]
fn let_bound_number_is_a_number() {
    let expression = let_("x", Expression::Number(1), variable("x"));
    assert_eq!(infer_type(&expression).unwrap(), number());
}

#[test]
fn identity_applied_to_a_number_is_a_number() {
    let expression = application(lambda("x", variable("x")), Expression::Number(7));
    assert_eq!(infer_type(&expression).unwrap(), number());
}

#[test]
fn constant_function_ends_in_number() {
    let expression = let_("x", Expression::Number(1), lambda("y", variable("x")));
    match infer_type(&expression).unwrap() {
        Type::Raw(RawType::Function(argument, result), false) => {
            assert!(matches!(*argument, Type::Variable(_)));
            assert_eq!(*result, number());
        }
        other => panic!("not a function type: {:?}", other),
    }
}

#[test]
fn function_applied_inside_a_lambda_ends_in_a_variable() {
    let expression = lambda("f", application(variable("f"), Expression::Number(1)));
    match infer_type(&expression).unwrap() {
        Type::Raw(RawType::Function(argument, result), false) => {
            assert!(matches!(*result, Type::Variable(_)));
            assert_eq!(*argument, function(number(), (*result).clone()));
        }
        other => panic!("not a function type: {:?}", other),
    }
}

#[test]
fn failure_in_a_bound_expression_fails_the_let() {
    let expression = let_("x", variable("y"), Expression::Number(1));
    assert!(infer_type(&expression).is_err());
}

#[test]
fn lambda_parameter_is_not_in_scope_outside() {
    let expression = application(lambda("x", variable("x")), variable("x"));
    assert!(infer_type(&expression).is_err());
}

#[test]
fn apply_resolves_the_result_variable() {
    let identity = function(Type::Variable(1), Type::Variable(1));
    let (substitutions, type_) = apply(HashMap::new(), identity, number(), 2).unwrap();
    assert_eq!(type_, number());
    assert_eq!(substitutions, substitution(vec![(1, number()), (2, number())]));
}

#[test]
fn apply_keeps_what_was_known() {
    let known = substitution(vec![(9, number())]);
    let (substitutions, type_) =
        apply(known, function(number(), number()), Type::Variable(3), 4).unwrap();
    assert_eq!(type_, number());
    assert_eq!(
        substitutions,
        substitution(vec![(9, number()), (3, number()), (4, number())])
    );
}

#[test]
fn apply_fails_on_a_number() {
    assert!(apply(HashMap::new(), number(), number(), 1).is_err());
}

#[test]
fn unify_binds_a_variable_to_the_other_side() {
    let bound = function(number(), number());
    assert_eq!(
        unify(&Type::Variable(5), &bound).unwrap(),
        substitution(vec![(5, bound.clone())])
    );
    assert_eq!(
        unify(&bound, &Type::Variable(5)).unwrap(),
        substitution(vec![(5, bound)])
    );
}

#[test]
fn unify_of_two_variables_is_left_biased() {
    assert_eq!(
        unify(&Type::Variable(1), &Type::Variable(2)).unwrap(),
        substitution(vec![(1, Type::Variable(2))])
    );
    assert_eq!(
        unify(&Type::Variable(2), &Type::Variable(1)).unwrap(),
        substitution(vec![(2, Type::Variable(1))])
    );
}

#[test]
fn unify_of_numbers_is_empty() {
    assert!(unify(&number(), &number()).unwrap().is_empty());
    assert!(unify(&Type::Raw(RawType::Number, true), &number()).unwrap().is_empty());
}

#[test]
fn unify_fails_on_different_shapes() {
    assert!(unify(&number(), &function(number(), number())).is_err());
    assert!(unify(&function(number(), number()), &number()).is_err());
}

#[test]
fn unify_fails_on_the_error_shape() {
    let error = Type::Raw(RawType::Error, false);
    assert!(unify(&error, &error).is_err());
    assert!(unify(&error, &number()).is_err());
    assert!(unify(&number(), &error).is_err());
    assert_eq!(
        unify(&Type::Variable(1), &error).unwrap(),
        substitution(vec![(1, error)])
    );
}

#[test]
fn unify_carries_argument_bindings_into_the_results() {
    let one = function(Type::Variable(1), number());
    let other = function(Type::Variable(2), Type::Variable(1));
    assert_eq!(
        unify(&one, &other).unwrap(),
        substitution(vec![(1, Type::Variable(2)), (2, number())])
    );
}

#[test]
fn unify_lets_later_bindings_win() {
    let one = function(Type::Variable(1), Type::Variable(1));
    let other = function(Type::Variable(1), number());
    assert_eq!(unify(&one, &other).unwrap(), substitution(vec![(1, number())]));
}

#[test]
fn unify_fails_when_results_differ_after_substitution() {
    let one = function(Type::Variable(1), Type::Variable(1));
    let other = function(number(), function(number(), number()));
    assert!(unify(&one, &other).is_err());
}

#[test]
fn unify_is_symmetric_on_types_without_variables() {
    let one = function(number(), function(number(), number()));
    let other = function(number(), number());
    assert!(unify(&one, &other).is_err());
    assert!(unify(&other, &one).is_err());
    assert!(unify(&one, &one).unwrap().is_empty());
}

#[test]
fn unify_is_symmetric_when_one_side_has_no_variable() {
    let ground = function(number(), function(number(), number()));
    let open = function(Type::Variable(1), Type::Variable(2));
    let forward = unify(&ground, &open).unwrap();
    let backward = unify(&open, &ground).unwrap();
    assert_eq!(forward, backward);
    assert_eq!(
        forward,
        substitution(vec![(1, number()), (2, function(number(), number()))])
    );
    assert_eq!(open.substitute(&forward), ground);
}

#[test]
fn unify_can_depend_on_the_order_of_its_arguments() {
    let one = function(
        function(Type::Variable(1), Type::Variable(2)),
        Type::Variable(1),
    );
    let other = function(
        function(Type::Variable(2), number()),
        function(number(), number()),
    );
    assert!(unify(&one, &other).is_ok());
    assert!(unify(&other, &one).is_err());
}

#[test]
fn unify_makes_no_occurs_check() {
    let looping = function(Type::Variable(1), number());
    assert_eq!(
        unify(&Type::Variable(1), &looping).unwrap(),
        substitution(vec![(1, looping)])
    );
}

#[test]
fn substitute_replaces_bound_variables() {
    let substitutions = substitution(vec![(1, number())]);
    assert_eq!(Type::Variable(1).substitute(&substitutions), number());
    assert_eq!(Type::Variable(2).substitute(&substitutions), Type::Variable(2));
    assert_eq!(number().substitute(&substitutions), number());
    assert_eq!(
        function(Type::Variable(1), Type::Variable(2)).substitute(&substitutions),
        function(number(), Type::Variable(2))
    );
}

#[test]
fn substitute_keeps_the_error_flag_and_shape() {
    let substitutions = substitution(vec![(1, number())]);
    let flagged = Type::Raw(
        RawType::Function(Arc::new(Type::Variable(1)), Arc::new(Type::Variable(1))),
        true,
    );
    assert_eq!(
        flagged.substitute(&substitutions),
        Type::Raw(RawType::Function(Arc::new(number()), Arc::new(number())), true)
    );
    assert_eq!(RawType::Error.substitute(&substitutions), RawType::Error);
    assert_eq!(RawType::Number.substitute(&substitutions), RawType::Number);
}

#[test]
fn substitute_does_not_rewrite_what_it_puts_in() {
    let substitutions = substitution(vec![(1, Type::Variable(2)), (2, number())]);
    assert_eq!(Type::Variable(1).substitute(&substitutions), Type::Variable(2));
}

#[test]
fn substitute_is_idempotent_for_a_resolved_substitution() {
    let substitutions = substitution(vec![
        (1, function(number(), Type::Variable(3))),
        (2, number()),
    ]);
    let type_ = function(Type::Variable(1), function(Type::Variable(2), Type::Variable(3)));
    let once = type_.substitute(&substitutions);
    let twice = once.substitute(&substitutions);
    assert_eq!(once, twice);
    assert_eq!(
        once,
        function(
            function(number(), Type::Variable(3)),
            function(number(), Type::Variable(3))
        )
    );
}

#[test]
fn raw_substitute_rewrites_argument_and_result() {
    let substitutions = substitution(vec![(1, number())]);
    let raw = RawType::Function(Arc::new(Type::Variable(1)), Arc::new(Type::Variable(2)));
    assert_eq!(
        raw.substitute(&substitutions),
        RawType::Function(Arc::new(number()), Arc::new(Type::Variable(2)))
    );
}

#[test]
fn new_variable_is_a_variable() {
    assert!(matches!(Type::new_variable(), Type::Variable(_)));
}

#[test]
fn from_raw_type_unsets_the_error_flag() {
    assert_eq!(Type::from(RawType::Number), number());
    let converted: Type = RawType::Error.into();
    assert_eq!(converted, Type::Raw(RawType::Error, false));
}

#[test]
fn clone_gives_an_equal_type() {
    let type_ = function(Type::Variable(1), Type::Raw(RawType::Error, true));
    assert_eq!(type_.clone(), type_);
}

#[test]
fn environment_lookup_finds_the_latest_binding() {
    let empty = Environment::new();
    assert!(empty.get(&"x".to_string()).is_none());
    let first = empty.extended("x".to_string(), number());
    let second = first.extended("x".to_string(), Type::Variable(1));
    let third = second.extended("y".to_string(), number());
    assert_eq!(first.get(&"x".to_string()), Some(&number()));
    assert_eq!(second.get(&"x".to_string()), Some(&Type::Variable(1)));
    assert_eq!(third.get(&"x".to_string()), Some(&Type::Variable(1)));
    assert_eq!(third.get(&"y".to_string()), Some(&number()));
    assert!(first.get(&"y".to_string()).is_none());
    assert!(empty.get(&"x".to_string()).is_none());
}

#[test]
fn let_shadows_an_outer_binding() {
    let expression = let_(
        "x",
        lambda("y", variable("y")),
        let_("x", Expression::Number(1), variable("x")),
    );
    assert_eq!(infer_type(&expression).unwrap(), number());
}

#[test]
fn unify_within_stops_at_its_depth() {
    let pair = function(Type::Variable(0), Type::Variable(0));
    let one = function(function(pair.clone(), pair.clone()), Type::Variable(0));
    let other = function(pair.clone(), pair);
    assert!(unify_within(&one, &other, 64).is_err());
}

#[test]
fn unify_within_counts_nested_function_types() {
    let flat = function(number(), number());
    let nested = function(flat.clone(), flat.clone());
    assert!(unify_within(&flat, &flat, 0).is_err());
    assert!(unify_within(&flat, &flat, 1).unwrap().is_empty());
    assert!(unify_within(&nested, &nested, 1).is_err());
    assert!(unify_within(&nested, &nested, 2).unwrap().is_empty());
    assert!(unify_within(&number(), &number(), 0).unwrap().is_empty());
    assert_eq!(
        unify_within(&Type::Variable(1), &nested, 0).unwrap(),
        substitution(vec![(1, nested)])
    );
    assert_eq!(UNIFICATION_DEPTH, usize::MAX);
}

#[test]
fn to_string_of_concrete_types() {
    assert_eq!(number().to_string(), "Number");
    assert_eq!(Type::Raw(RawType::Error, false).to_string(), "Error");
    assert_eq!(function(number(), number()).to_string(), "Number -> Number");
    assert_eq!(
        function(function(number(), number()), number()).to_string(),
        "Number -> Number -> Number"
    );
    assert_eq!(RawType::Number.to_string(), "Number");
    assert_eq!(RawType::Error.to_string(), "Error");
    assert_eq!(
        RawType::Function(Arc::new(number()), Arc::new(Type::Variable(1))).to_string(),
        "Number -> <0001>"
    );
}

#[test]
fn to_string_marks_the_error_flag() {
    assert_eq!(Type::Raw(RawType::Number, true).to_string(), "(Number)?");
    assert_eq!(
        Type::Raw(
            RawType::Function(Arc::new(number()), Arc::new(Type::Raw(RawType::Error, true))),
            true
        )
        .to_string(),
        "(Number -> (Error)?)?"
    );
}

#[test]
fn to_string_of_variables() {
    assert_eq!(Type::Variable(0).to_string(), "<0000>");
    assert_eq!(Type::Variable(255).to_string(), "<00ff>");
    assert_eq!(Type::Variable(0xabcd).to_string(), "<abcd>");
    assert_eq!(Type::Variable(0xffff).to_string(), "<ffff>");
    assert_eq!(Type::Variable(0x10000).to_string(), "<1000>");
    assert_eq!(Type::Variable(0x12345).to_string(), "<1234>");
    assert_eq!(Type::Variable(0x9e3779b9).to_string(), "<9e37>");
    assert_eq!(Type::Variable(usize::MAX).to_string(), "<ffff>");
    for id in [0usize, 7, 4096, 65535, 65536, 1048575, 305419896, usize::MAX - 1] {
        assert_eq!(
            Type::Variable(id).to_string(),
            format!("<{}>", &format!("{:04x}", id)[..4])
        );
    }
}

#[test]
fn applied_constant_function_is_a_number() {
    let expression = let_(
        "k",
        lambda("x", Expression::Number(1)),
        application(variable("k"), Expression::Number(2)),
    );
    assert_eq!(infer_type(&expression).unwrap(), number());
}

#[test]
fn twice_applied_constant_function_is_a_number() {
    let constant = lambda("x", lambda("y", Expression::Number(1)));
    let expression = application(
        application(constant, Expression::Number(2)),
        lambda("z", Expression::Number(3)),
    );
    assert_eq!(infer_type(&expression).unwrap(), number());
}

#[test]
fn let_bound_function_has_one_type_for_all_its_uses() {
    let expression = let_(
        "g",
        let_(
            "k",
            lambda("x", Expression::Number(1)),
            let_("a", application(variable("k"), Expression::Number(2)), variable("k")),
        ),
        application(variable("g"), lambda("z", Expression::Number(3))),
    );
    assert!(infer_type(&expression).is_err());
}

#[test]
fn inference_error_is_one_value() {
    assert_eq!(infer_type(&variable("x")), Err(InferenceError));
    assert_eq!(
        unify(&number(), &function(number(), number())),
        Err(InferenceError)
    );
}

#[test]
fn expression_clone_gives_an_equal_expression() {
    let expression = let_(
        "x",
        Expression::Number(1),
        application(lambda("y", variable("y")), variable("x")),
    );
    assert_eq!(expression.clone(), expression);
}

#[test]
fn identity_with_a_given_identifier() {
    let fresh = node(7, Fresh::Leaf, Fresh::Leaf);
    assert_eq!(
        infer_type_with(&lambda("x", variable("x")), &fresh).unwrap(),
        function(Type::Variable(7), Type::Variable(7))
    );
    assert_eq!(
        infer_type_with(&lambda("x", variable("x")), &Fresh::Leaf).unwrap(),
        function(Type::Variable(0), Type::Variable(0))
    );
}

#[test]
fn application_with_given_identifiers() {
    let expression = application(lambda("x", variable("x")), Expression::Number(7));
    let fresh = node(1, node(2, Fresh::Leaf, Fresh::Leaf), Fresh::Leaf);
    let (substitutions, type_) = infer_with(&Environment::new(), &expression, &fresh).unwrap();
    assert_eq!(type_, number());
    assert_eq!(substitutions, substitution(vec![(2, number()), (1, number())]));
}

#[test]
fn lambda_applies_what_its_body_found() {
    let expression = lambda("f", application(variable("f"), Expression::Number(1)));
    let fresh = node(1, node(2, Fresh::Leaf, Fresh::Leaf), Fresh::Leaf);
    let (substitutions, type_) = infer_with(&Environment::new(), &expression, &fresh).unwrap();
    assert_eq!(
        substitutions,
        substitution(vec![(1, function(number(), Type::Variable(2)))])
    );
    assert_eq!(
        type_,
        function(function(number(), Type::Variable(2)), Type::Variable(2))
    );
}

#[test]
fn let_takes_its_identifiers_from_both_places() {
    let expression = let_(
        "f",
        lambda("x", variable("x")),
        lambda("y", variable("f")),
    );
    let fresh = node(
        9,
        node(1, Fresh::Leaf, Fresh::Leaf),
        node(2, Fresh::Leaf, Fresh::Leaf),
    );
    assert_eq!(
        infer_type_with(&expression, &fresh).unwrap(),
        function(
            Type::Variable(2),
            function(Type::Variable(1), Type::Variable(1))
        )
    );
}

#[test]
fn let_merges_the_substitutions_of_both_parts() {
    let expression = let_(
        "a",
        application(lambda("x", variable("x")), Expression::Number(1)),
        application(lambda("y", variable("y")), variable("a")),
    );
    let fresh = node(
        0,
        node(1, node(2, Fresh::Leaf, Fresh::Leaf), Fresh::Leaf),
        node(3, node(4, Fresh::Leaf, Fresh::Leaf), Fresh::Leaf),
    );
    let (substitutions, type_) = infer_with(&Environment::new(), &expression, &fresh).unwrap();
    assert_eq!(type_, number());
    assert_eq!(
        substitutions,
        substitution(vec![(1, number()), (2, number()), (3, number()), (4, number())])
    );
}

#[test]
fn given_identifiers_do_not_change_failures() {
    let fresh = node(1, Fresh::Leaf, Fresh::Leaf);
    assert_eq!(infer_type_with(&variable("x"), &fresh), Err(InferenceError));
    assert_eq!(
        infer_type_with(
            &application(Expression::Number(1), Expression::Number(2)),
            &fresh
        ),
        Err(InferenceError)
    );
    assert_eq!(infer_type_with(&Expression::Number(1), &fresh).unwrap(), number());
}

#[test]
fn colliding_identifiers_conflate_types() {
    let expression = lambda("x", lambda("y", variable("x")));
    let distinct = node(1, node(2, Fresh::Leaf, Fresh::Leaf), Fresh::Leaf);
    let colliding = node(1, node(1, Fresh::Leaf, Fresh::Leaf), Fresh::Leaf);
    assert_eq!(
        infer_type_with(&expression, &distinct).unwrap(),
        function(
            Type::Variable(1),
            function(Type::Variable(2), Type::Variable(1))
        )
    );
    assert_eq!(
        infer_type_with(&expression, &colliding).unwrap(),
        function(
            Type::Variable(1),
            function(Type::Variable(1), Type::Variable(1))
        )
    );
}
