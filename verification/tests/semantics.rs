//! The evaluator's semantics beyond the variant basics: short-circuits,
//! path identity, union commutativity, step determinism, predicate
//! positions and sizes, document-order projection, IEEE arithmetic edges,
//! coercions, and every error kind.

use xpath_eval::axis::AxisLike;
use xpath_eval::context::{Context, Evaluation};
use xpath_eval::expression::{
    Equal, Error, Expr, Filter, Literal, Math, Negation, Or, ParameterizedStep, Path, Relational,
    Union, Variable,
};
use xpath_eval::function::{Function, FunctionError};
use xpath_eval::name::OwnedPrefixedName;
use xpath_eval::node_test::NodeTest;
use xpath_eval::nodeset::{Document, Node, Nodeset, OrderedNodes};
use xpath_eval::value::Value;

#[derive(Debug)]
struct NullAxis;

impl<N, F> AxisLike<N, F> for NullAxis {
    fn select_nodes(&self, _context: &Evaluation<F>, _node_test: &N, _result: &mut OrderedNodes) {}
}

#[derive(Debug)]
struct NullTest;

impl<F> NodeTest<F> for NullTest {
    fn test(&self, _context: &Evaluation<F>, _result: &mut OrderedNodes) {}
}

type Ex = Expr<NullAxis, NullTest>;

#[derive(Debug)]
enum NoOp {}

impl Function for NoOp {
    fn evaluate(&self, _: &Evaluation<Self>, _: Vec<Value>) -> Result<Value, FunctionError> {
        match *self {}
    }
}

fn bool_lit(b: bool) -> Ex {
    Ex::Literal(Literal { value: Value::Boolean(b) })
}

fn num_lit(x: f64) -> Ex {
    Ex::Literal(Literal { value: Value::Number(x.to_bits()) })
}

fn str_lit(s: &str) -> Ex {
    Ex::Literal(Literal { value: Value::String(s.to_owned()) })
}

fn var(name: &str) -> Ex {
    Ex::Variable(Variable { name: OwnedPrefixedName::unprefixed(name) })
}

#[derive(Debug)]
struct PanicFunction;

impl Function for PanicFunction {
    fn evaluate(&self, _: &Evaluation<Self>, _: Vec<Value>) -> Result<Value, FunctionError> {
        panic!("Should never be called");
    }
}

#[test]
fn expression_or_short_circuits_when_left_argument_is_true() {
    let doc = Document::new();
    let mut context: Context<PanicFunction> = Context::new();
    context.set_function("boom", PanicFunction);

    let right = Box::new(Ex::Function(xpath_eval::expression::Function {
        name: OwnedPrefixedName::unprefixed("boom"),
        arguments: vec![],
    }));
    let expr = Or::new(Box::new(bool_lit(true)), right);

    let eval = Evaluation::new(&context, &doc, doc.root());
    assert_eq!(expr.evaluate(&eval), Ok(Value::Boolean(true)));
}

#[test]
fn path_with_no_steps_returns_its_start_point() {
    let mut doc = Document::new();
    let mut context: Context<NoOp> = Context::new();

    let a = doc.add_node("a".to_owned());
    let b = doc.add_node("b".to_owned());
    let mut ns = Nodeset::new();
    ns.add(a);
    ns.add(b);
    context.set_variable("start", Value::Nodeset(ns));

    let expr = Path::new(Box::new(var("start")), vec![]);

    let eval = Evaluation::new(&context, &doc, doc.root());
    let mut expected = Nodeset::new();
    expected.add(a);
    expected.add(b);
    assert_eq!(expr.evaluate(&eval), Ok(Value::Nodeset(expected)));
}

#[test]
fn union_is_commutative_on_nodesets() {
    let mut doc = Document::new();
    let mut context: Context<NoOp> = Context::new();

    let l = doc.add_node(String::new());
    let r = doc.add_node(String::new());
    let mut ln = Nodeset::new();
    ln.add(l);
    let mut rn = Nodeset::new();
    rn.add(r);
    context.set_variable("left", Value::Nodeset(ln));
    context.set_variable("right", Value::Nodeset(rn));

    let one = Union::new(Box::new(var("left")), Box::new(var("right")));
    let two = Union::new(Box::new(var("right")), Box::new(var("left")));

    let eval = Evaluation::new(&context, &doc, doc.root());
    let first = one.evaluate(&eval).unwrap();
    let second = two.evaluate(&eval).unwrap();
    assert_eq!(first, second);
}

/// A pure axis: appends each starting node's successor in document order.
#[derive(Debug, Clone)]
struct SuccessorAxis;

impl<N, F> AxisLike<N, F> for SuccessorAxis {
    fn select_nodes(&self, context: &Evaluation<F>, _node_test: &N, result: &mut OrderedNodes) {
        result.add(Node { id: context.node.id + 1 });
    }
}

#[test]
fn step_on_equal_inputs_with_a_pure_axis_is_deterministic() {
    let mut doc = Document::new();
    let context: Context<NoOp> = Context::new();
    let a = doc.add_node("a".to_owned());
    let _b = doc.add_node("b".to_owned());

    let step = ParameterizedStep::new(SuccessorAxis, NullTest, vec![]);
    let eval = Evaluation::new(&context, &doc, doc.root());

    let mut starting_one = Nodeset::new();
    starting_one.add(a);
    let mut starting_two = Nodeset::new();
    starting_two.add(a);

    let first = step.evaluate(&eval, starting_one).unwrap();
    let second = step.evaluate(&eval, starting_two).unwrap();
    assert_eq!(first, second);
}

/// Reports the context position as a number.
#[derive(Debug)]
struct PositionFunction;

impl Function for PositionFunction {
    fn evaluate(&self, c: &Evaluation<Self>, _: Vec<Value>) -> Result<Value, FunctionError> {
        Ok(Value::Number((c.position as f64).to_bits()))
    }
}

/// Reports the context size as a number.
#[derive(Debug)]
struct SizeFunction;

impl Function for SizeFunction {
    fn evaluate(&self, c: &Evaluation<Self>, _: Vec<Value>) -> Result<Value, FunctionError> {
        Ok(Value::Number((c.size as f64).to_bits()))
    }
}

fn three_node_input<F>(doc: &mut Document, context: &mut Context<F>) -> (Node, Node, Node) {
    let a = doc.add_node(String::new());
    let b = doc.add_node(String::new());
    let c = doc.add_node(String::new());
    let mut ns = Nodeset::new();
    ns.add(a);
    ns.add(b);
    ns.add(c);
    context.set_variable("nodes", Value::Nodeset(ns));
    (a, b, c)
}

#[test]
fn predicate_position_ranges_over_one_to_size() {
    // A numeric predicate equal to the position keeps every node: each of
    // the three nodes sees its own position.
    let mut doc = Document::new();
    let mut context: Context<PositionFunction> = Context::new();
    let (a, b, c) = three_node_input(&mut doc, &mut context);
    context.set_function("position", PositionFunction);

    let predicate = Box::new(Ex::Function(xpath_eval::expression::Function {
        name: OwnedPrefixedName::unprefixed("position"),
        arguments: vec![],
    }));
    let expr = Filter::new(Box::new(var("nodes")), predicate);

    let eval = Evaluation::new(&context, &doc, doc.root());
    let mut expected = Nodeset::new();
    expected.add(a);
    expected.add(b);
    expected.add(c);
    assert_eq!(expr.evaluate(&eval), Ok(Value::Nodeset(expected)));
}

#[test]
fn predicate_size_is_the_input_length() {
    // A numeric predicate equal to the size keeps exactly the last node.
    let mut doc = Document::new();
    let mut context: Context<SizeFunction> = Context::new();
    let (_a, _b, c) = three_node_input(&mut doc, &mut context);
    context.set_function("size", SizeFunction);

    let predicate = Box::new(Ex::Function(xpath_eval::expression::Function {
        name: OwnedPrefixedName::unprefixed("size"),
        arguments: vec![],
    }));
    let expr = Filter::new(Box::new(var("nodes")), predicate);

    let eval = Evaluation::new(&context, &doc, doc.root());
    let mut expected = Nodeset::new();
    expected.add(c);
    assert_eq!(expr.evaluate(&eval), Ok(Value::Nodeset(expected)));
}

#[test]
fn filter_projects_its_input_to_document_order() {
    // The nodeset is built against document order; the filter's numeric
    // predicate still selects the node that comes first in the document.
    let mut doc = Document::new();
    let mut context: Context<NoOp> = Context::new();

    let first = doc.add_node(String::new());
    let second = doc.add_node(String::new());
    let mut ns = Nodeset::new();
    ns.add(second);
    ns.add(first);
    context.set_variable("nodes", Value::Nodeset(ns));

    let expr = Filter::new(Box::new(var("nodes")), Box::new(num_lit(1.0)));

    let eval = Evaluation::new(&context, &doc, doc.root());
    let mut expected = Nodeset::new();
    expected.add(first);
    assert_eq!(expr.evaluate(&eval), Ok(Value::Nodeset(expected)));
}

#[test]
fn fractional_numeric_predicate_selects_by_integer_part() {
    let mut doc = Document::new();
    let mut context: Context<NoOp> = Context::new();
    let (_a, b, _c) = three_node_input(&mut doc, &mut context);

    let expr = Filter::new(Box::new(var("nodes")), Box::new(num_lit(2.5)));

    let eval = Evaluation::new(&context, &doc, doc.root());
    let mut expected = Nodeset::new();
    expected.add(b);
    assert_eq!(expr.evaluate(&eval), Ok(Value::Nodeset(expected)));
}

fn eval_math(expr: Ex) -> Value {
    let doc = Document::new();
    let context: Context<NoOp> = Context::new();
    let eval = Evaluation::new(&context, &doc, doc.root());
    expr.evaluate(&eval).unwrap()
}

#[test]
fn math_addition_and_subtraction() {
    let sum = eval_math(Math::addition(Box::new(num_lit(1.5)), Box::new(num_lit(2.25))));
    assert_eq!(sum, Value::Number(3.75f64.to_bits()));
    let diff = eval_math(Math::subtraction(Box::new(num_lit(1.5)), Box::new(num_lit(2.25))));
    assert_eq!(diff, Value::Number((-0.75f64).to_bits()));
}

#[test]
fn math_division_by_zero_gives_infinity_not_an_error() {
    let inf = eval_math(Math::division(Box::new(num_lit(1.0)), Box::new(num_lit(0.0))));
    assert_eq!(inf, Value::Number(f64::INFINITY.to_bits()));
    let neg_inf = eval_math(Math::division(Box::new(num_lit(-1.0)), Box::new(num_lit(0.0))));
    assert_eq!(neg_inf, Value::Number(f64::NEG_INFINITY.to_bits()));
}

#[test]
fn math_remainder_keeps_the_dividend_sign() {
    let r = eval_math(Math::remainder(Box::new(num_lit(-7.0)), Box::new(num_lit(4.0))));
    assert_eq!(r, Value::Number((-3.0f64).to_bits()));
}

#[test]
fn negation_flips_the_sign_of_zero_and_keeps_nan() {
    let minus_zero = eval_math(Ex::Negation(Negation { expression: Box::new(num_lit(0.0)) }));
    assert_eq!(minus_zero, Value::Number((-0.0f64).to_bits()));
    let of_nan = eval_math(Ex::Negation(Negation { expression: Box::new(str_lit("junk")) }));
    match of_nan {
        Value::Number(bits) => assert!(f64::from_bits(bits).is_nan()),
        other => panic!("expected a number, got {:?}", other),
    }
}

#[test]
fn string_parsing_trims_surrounding_whitespace() {
    let doc = Document::new();
    let context: Context<NoOp> = Context::new();
    let expr = Equal { left: Box::new(str_lit(" \t12.5\r\n")), right: Box::new(num_lit(12.5)) };
    let eval = Evaluation::new(&context, &doc, doc.root());
    assert_eq!(expr.evaluate(&eval), Ok(Value::Boolean(true)));
}

#[test]
fn number_renders_as_decimal_text() {
    let doc = Document::new();
    assert_eq!(Value::Number(0.5f64.to_bits()).string(&doc), "0.5");
    assert_eq!(Value::Number(f64::NAN.to_bits()).string(&doc), "NaN");
    assert_eq!(Value::Number(f64::INFINITY.to_bits()).string(&doc), "Infinity");
    assert_eq!(Value::Number(f64::NEG_INFINITY.to_bits()).string(&doc), "-Infinity");
}

#[test]
fn integers_render_without_a_decimal_point() {
    let doc = Document::new();
    assert_eq!(Value::Number(0.0f64.to_bits()).string(&doc), "0");
    assert_eq!(Value::Number((-0.0f64).to_bits()).string(&doc), "-0");
    assert_eq!(Value::Number(1.0f64.to_bits()).string(&doc), "1");
    assert_eq!(Value::Number(50.0f64.to_bits()).string(&doc), "50");
    assert_eq!(Value::Number(10000.0f64.to_bits()).string(&doc), "10000");
    assert_eq!(Value::Number((-42.0f64).to_bits()).string(&doc), "-42");
    assert_eq!(Value::Number(9007199254740992.0f64.to_bits()).string(&doc), "9007199254740992");
}

#[test]
fn number_parsing_keeps_to_the_xpath_lexical_space() {
    let doc = Document::new();
    assert_eq!(Value::String("12.5".to_owned()).number(&doc), 12.5f64.to_bits());
    assert_eq!(Value::String("-42.0".to_owned()).number(&doc), (-42.0f64).to_bits());
    assert_eq!(Value::String("5.".to_owned()).number(&doc), 5.0f64.to_bits());
    assert_eq!(Value::String(".5".to_owned()).number(&doc), 0.5f64.to_bits());
    // Words, exponent forms and hexadecimal forms are not XPath numbers.
    for s in ["Infinity", "inf", "NaN", "1e5", "0x1p3", "1.2.3", "--1", "-", ".", ""] {
        let bits = Value::String(s.to_owned()).number(&doc);
        assert!(f64::from_bits(bits).is_nan(), "{} should not parse", s);
    }
}

#[test]
fn boolean_coercion_follows_the_value_kind() {
    assert!(!Value::Number(0.0f64.to_bits()).boolean());
    assert!(!Value::Number(f64::NAN.to_bits()).boolean());
    assert!(Value::Number((-1.5f64).to_bits()).boolean());
    assert!(Value::String("x".to_owned()).boolean());
    assert!(!Value::String(String::new()).boolean());
    assert!(!Value::Nodeset(Nodeset::new()).boolean());
}

#[test]
fn union_of_a_non_nodeset_is_not_a_nodeset() {
    let doc = Document::new();
    let context: Context<NoOp> = Context::new();
    let expr = Union::new(Box::new(str_lit("oops")), Box::new(str_lit("oops")));
    let eval = Evaluation::new(&context, &doc, doc.root());
    assert_eq!(expr.evaluate(&eval), Err(Error::NotANodeset));
}

#[test]
fn unknown_variable_is_reported_as_an_error() {
    let doc = Document::new();
    let context: Context<NoOp> = Context::new();
    let expr = var("missing");
    let eval = Evaluation::new(&context, &doc, doc.root());
    assert_eq!(
        expr.evaluate(&eval),
        Err(Error::UnknownVariable(OwnedPrefixedName::unprefixed("missing")))
    );
}

#[test]
fn unbound_prefix_is_reported_as_an_error() {
    let doc = Document::new();
    let context: Context<NoOp> = Context::new();
    let expr = Ex::Variable(Variable { name: OwnedPrefixedName::prefixed("ns", "x") });
    let eval = Evaluation::new(&context, &doc, doc.root());
    assert_eq!(expr.evaluate(&eval), Err(Error::UnknownNamespace("ns".to_owned())));
}

#[test]
fn bound_prefix_resolves_through_the_context() {
    let doc = Document::new();
    let mut context: Context<NoOp> = Context::new();
    context.set_namespace("ns", "urn:example");
    let expr = Ex::Variable(Variable { name: OwnedPrefixedName::prefixed("ns", "x") });
    let eval = Evaluation::new(&context, &doc, doc.root());
    // The prefix resolves, but nothing is bound under the resolved name.
    assert_eq!(
        expr.evaluate(&eval),
        Err(Error::UnknownVariable(OwnedPrefixedName::prefixed("ns", "x")))
    );
}

#[derive(Debug)]
struct FailingFunction;

impl Function for FailingFunction {
    fn evaluate(&self, _: &Evaluation<Self>, _: Vec<Value>) -> Result<Value, FunctionError> {
        Err(FunctionError { message: "no good".to_owned() })
    }
}

#[test]
fn function_errors_are_wrapped_verbatim() {
    let doc = Document::new();
    let mut context: Context<FailingFunction> = Context::new();
    context.set_function("bad", FailingFunction);

    let expr = Ex::Function(xpath_eval::expression::Function {
        name: OwnedPrefixedName::unprefixed("bad"),
        arguments: vec![],
    });

    let eval = Evaluation::new(&context, &doc, doc.root());
    assert_eq!(
        expr.evaluate(&eval),
        Err(Error::FunctionEvaluation(FunctionError { message: "no good".to_owned() }))
    );
}

#[test]
fn nodeset_string_value_is_the_first_in_document_order() {
    let mut doc = Document::new();
    let first = doc.add_node("early".to_owned());
    let second = doc.add_node("late".to_owned());
    let mut ns = Nodeset::new();
    ns.add(second);
    ns.add(first);
    assert_eq!(Value::Nodeset(ns).string(&doc), "early");
    assert_eq!(Value::Nodeset(Nodeset::new()).string(&doc), "");
}

#[test]
fn relational_orders_numbers_including_signs_and_zeros() {
    let doc = Document::new();
    let context: Context<NoOp> = Context::new();
    let eval = Evaluation::new(&context, &doc, doc.root());

    let cases: Vec<(Ex, bool)> = vec![
        (Relational::less_than(Box::new(num_lit(5.0)), Box::new(num_lit(10.0))), true),
        (Relational::less_than(Box::new(num_lit(-1.0)), Box::new(num_lit(0.0))), true),
        (Relational::less_than(Box::new(num_lit(-2.0)), Box::new(num_lit(-1.0))), true),
        (Relational::less_than(Box::new(num_lit(-0.0)), Box::new(num_lit(0.0))), false),
        (Relational::less_than_or_equal(Box::new(num_lit(-0.0)), Box::new(num_lit(0.0))), true),
        (Relational::less_than_or_equal(Box::new(num_lit(10.0)), Box::new(num_lit(10.0))), true),
        (Relational::greater_than(Box::new(num_lit(10.0)), Box::new(num_lit(5.0))), true),
        (Relational::greater_than_or_equal(Box::new(num_lit(5.0)), Box::new(num_lit(10.0))), false),
    ];
    for (expr, expected) in cases {
        assert_eq!(expr.evaluate(&eval), Ok(Value::Boolean(expected)));
    }
}

#[test]
fn relational_comparisons_with_nan_are_false() {
    let doc = Document::new();
    let context: Context<NoOp> = Context::new();
    let eval = Evaluation::new(&context, &doc, doc.root());

    let cases: Vec<Ex> = vec![
        Relational::less_than(Box::new(str_lit("junk")), Box::new(num_lit(1.0))),
        Relational::less_than_or_equal(Box::new(str_lit("junk")), Box::new(num_lit(1.0))),
        Relational::greater_than(Box::new(str_lit("junk")), Box::new(num_lit(1.0))),
        Relational::greater_than_or_equal(Box::new(num_lit(1.0)), Box::new(str_lit("junk"))),
    ];
    for expr in cases {
        assert_eq!(expr.evaluate(&eval), Ok(Value::Boolean(false)));
    }
}

#[test]
fn out_of_range_numeric_predicates_select_nothing() {
    let mut doc = Document::new();
    let mut context: Context<NoOp> = Context::new();
    three_node_input(&mut doc, &mut context);
    let eval = Evaluation::new(&context, &doc, doc.root());

    let huge = Filter::new(Box::new(var("nodes")), Box::new(num_lit(1.0e300)));
    assert_eq!(huge.evaluate(&eval), Ok(Value::Nodeset(Nodeset::new())));
    let negative = Filter::new(Box::new(var("nodes")), Box::new(num_lit(-1.0)));
    assert_eq!(negative.evaluate(&eval), Ok(Value::Nodeset(Nodeset::new())));
    let below_one = Filter::new(Box::new(var("nodes")), Box::new(num_lit(0.5)));
    assert_eq!(below_one.evaluate(&eval), Ok(Value::Nodeset(Nodeset::new())));
}
