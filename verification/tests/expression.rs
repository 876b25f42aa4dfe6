//! The evaluator exercised variant by variant: boolean connectives,
//! equality dispatch, functions, math, filters, steps, unions, variables.

use std::cell::RefCell;
use std::rc::Rc;

use xpath_eval::axis::AxisLike;
use xpath_eval::context::{Context, Evaluation};
use xpath_eval::expression::{
    And, Equal, Error, Expr, Filter, Literal, Math, NotEqual, ParameterizedStep, Relational,
    RootNode, Union, Variable,
};
use xpath_eval::function::{Function, FunctionError};
use xpath_eval::name::OwnedPrefixedName;
use xpath_eval::node_test::NodeTest;
use xpath_eval::nodeset::{Document, Nodeset, OrderedNodes};
use xpath_eval::value::Value;

#[derive(Debug)]
struct NullAxis;

impl<N, F> AxisLike<N, F> for NullAxis {
    fn select_nodes(&self, _context: &Evaluation<F>, _node_test: &N, _result: &mut OrderedNodes) {}
}

#[derive(Debug)]
struct NullTest;

impl<F> NodeTest<F> for NullTest {
    fn test(&self, _context: &Evaluation<F>, _result: &mut OrderedNodes) {}
}

type Ex = Expr<NullAxis, NullTest>;

#[derive(Debug)]
enum NoFunction {}

impl Function for NoFunction {
    fn evaluate(&self, _: &Evaluation<Self>, _: Vec<Value>) -> Result<Value, FunctionError> {
        match *self {}
    }
}

fn bool_lit(b: bool) -> Ex {
    Ex::Literal(Literal { value: Value::Boolean(b) })
}

fn num_lit(x: f64) -> Ex {
    Ex::Literal(Literal { value: Value::Number(x.to_bits()) })
}

fn str_lit(s: &str) -> Ex {
    Ex::Literal(Literal { value: Value::String(s.to_owned()) })
}

#[test]
fn expression_and_returns_logical_and() {
    let doc = Document::new();
    let context: Context<NoFunction> = Context::new();

    let expr = And { left: Box::new(bool_lit(true)), right: Box::new(bool_lit(true)) };

    let eval = Evaluation::new(&context, &doc, doc.root());
    let res = expr.evaluate(&eval);

    assert_eq!(res, Ok(Value::Boolean(true)));
}

#[derive(Debug)]
struct PanicFunction;

impl Function for PanicFunction {
    fn evaluate(&self, _: &Evaluation<Self>, _: Vec<Value>) -> Result<Value, FunctionError> {
        panic!("Should never be called");
    }
}

#[test]
fn expression_and_short_circuits_when_left_argument_is_false() {
    let doc = Document::new();
    let mut context: Context<PanicFunction> = Context::new();
    context.set_function("boom", PanicFunction);

    let left = Box::new(bool_lit(false));
    let right = Box::new(Ex::Function(xpath_eval::expression::Function {
        name: OwnedPrefixedName::unprefixed("boom"),
        arguments: vec![],
    }));

    let expr = And { left, right };

    let eval = Evaluation::new(&context, &doc, doc.root());
    expr.evaluate(&eval).unwrap();
}

#[test]
fn expression_equal_intersects_string_values_of_two_nodesets() {
    let mut doc = Document::new();
    let mut context: Context<NoFunction> = Context::new();

    let string_value_1 = doc.add_node("same".to_owned());
    let string_value_2 = doc.add_node("same".to_owned());

    let mut left_ns = Nodeset::new();
    left_ns.add(string_value_1);
    let mut right_ns = Nodeset::new();
    right_ns.add(string_value_2);
    context.set_variable("left", Value::Nodeset(left_ns));
    context.set_variable("right", Value::Nodeset(right_ns));

    let left = Box::new(Ex::Variable(Variable { name: OwnedPrefixedName::unprefixed("left") }));
    let right = Box::new(Ex::Variable(Variable { name: OwnedPrefixedName::unprefixed("right") }));

    let expr = Equal { left, right };

    let eval = Evaluation::new(&context, &doc, doc.root());
    let res = expr.evaluate(&eval);

    assert_eq!(res, Ok(Value::Boolean(true)));
}

#[test]
fn expression_equal_compares_number_value_of_nodeset_to_number() {
    let mut doc = Document::new();
    let mut context: Context<NoFunction> = Context::new();

    let string_value = doc.add_node("3.14".to_owned());
    let mut ns = Nodeset::new();
    ns.add(string_value);
    context.set_variable("left", Value::Nodeset(ns));

    let left = Box::new(Ex::Variable(Variable { name: OwnedPrefixedName::unprefixed("left") }));
    let right = Box::new(num_lit(6.28));

    let expr = Equal { left, right };

    let eval = Evaluation::new(&context, &doc, doc.root());
    let res = expr.evaluate(&eval);

    assert_eq!(res, Ok(Value::Boolean(false)));
}

#[test]
fn expression_equal_compares_string_value_of_nodeset_to_string() {
    let mut doc = Document::new();
    let mut context: Context<NoFunction> = Context::new();

    let string_value_1 = doc.add_node("gravy".to_owned());
    let string_value_2 = doc.add_node("boat".to_owned());
    let mut ns = Nodeset::new();
    ns.add(string_value_1);
    ns.add(string_value_2);
    context.set_variable("left", Value::Nodeset(ns));

    let left = Box::new(Ex::Variable(Variable { name: OwnedPrefixedName::unprefixed("left") }));
    let right = Box::new(str_lit("boat"));

    let expr = Equal { left, right };

    let eval = Evaluation::new(&context, &doc, doc.root());
    let res = expr.evaluate(&eval);

    assert_eq!(res, Ok(Value::Boolean(true)));
}

#[test]
fn expression_equal_compares_as_boolean_if_one_argument_is_a_boolean() {
    let doc = Document::new();
    let context: Context<NoFunction> = Context::new();

    let actual_bool = Box::new(bool_lit(false));
    let truthy_str = Box::new(str_lit("hello"));

    let expr = Equal { left: actual_bool, right: truthy_str };

    let eval = Evaluation::new(&context, &doc, doc.root());
    let res = expr.evaluate(&eval);

    assert_eq!(res, Ok(Value::Boolean(false)));
}

#[test]
fn expression_equal_compares_as_number_if_one_argument_is_a_number() {
    let doc = Document::new();
    let context: Context<NoFunction> = Context::new();

    let actual_number = Box::new(num_lit(-42.0));
    let number_str = Box::new(str_lit("-42.0"));

    let expr = Equal { left: number_str, right: actual_number };

    let eval = Evaluation::new(&context, &doc, doc.root());
    let res = expr.evaluate(&eval);

    assert_eq!(res, Ok(Value::Boolean(true)));
}

#[test]
fn expression_equal_compares_as_string_otherwise() {
    let doc = Document::new();
    let context: Context<NoFunction> = Context::new();

    let a_str = Box::new(str_lit("hello"));
    let b_str = Box::new(str_lit("World"));

    let expr = Equal { left: a_str, right: b_str };

    let eval = Evaluation::new(&context, &doc, doc.root());
    let res = expr.evaluate(&eval);

    assert_eq!(res, Ok(Value::Boolean(false)));
}

#[test]
fn expression_not_equal_negates_equality() {
    let doc = Document::new();
    let context: Context<NoFunction> = Context::new();

    let a_str = Box::new(bool_lit(true));
    let b_str = Box::new(bool_lit(false));

    let expr = NotEqual::new(a_str, b_str);

    let eval = Evaluation::new(&context, &doc, doc.root());
    let res = expr.evaluate(&eval);

    assert_eq!(res, Ok(Value::Boolean(true)));
}

#[derive(Debug)]
struct StubFunction {
    value: &'static str,
}

impl Function for StubFunction {
    fn evaluate(&self, _: &Evaluation<Self>, _: Vec<Value>) -> Result<Value, FunctionError> {
        Ok(Value::String(self.value.to_owned()))
    }
}

#[test]
fn expression_function_evaluates_input_arguments() {
    let doc = Document::new();
    let mut context: Context<StubFunction> = Context::new();

    context.set_function("test-fn", StubFunction { value: "the function ran" });

    let expr = xpath_eval::expression::Function::<NullAxis, NullTest> {
        name: OwnedPrefixedName::unprefixed("test-fn"),
        arguments: vec![bool_lit(true)],
    };

    let eval = Evaluation::new(&context, &doc, doc.root());
    let res = expr.evaluate(&eval);

    assert_eq!(res, Ok(Value::String("the function ran".to_owned())));
}

#[test]
fn expression_function_unknown_function_is_reported_as_an_error() {
    let doc = Document::new();
    let context: Context<NoFunction> = Context::new();

    let expr = xpath_eval::expression::Function::<NullAxis, NullTest> {
        name: OwnedPrefixedName::unprefixed("unknown-fn"),
        arguments: vec![],
    };

    let eval = Evaluation::new(&context, &doc, doc.root());
    let res = expr.evaluate(&eval);

    assert_eq!(res, Err(Error::UnknownFunction(OwnedPrefixedName::unprefixed("unknown-fn"))));
}

#[test]
fn expression_math_does_basic_math() {
    let doc = Document::new();
    let context: Context<NoFunction> = Context::new();

    let left = Box::new(num_lit(10.0));
    let right = Box::new(num_lit(5.0));

    let expr = Math::multiplication(left, right);

    let eval = Evaluation::new(&context, &doc, doc.root());
    let res = expr.evaluate(&eval);

    assert_eq!(res, Ok(Value::Number(50.0f64.to_bits())));
}

#[test]
fn filter_with_numeric_predicate_selects_that_node() {
    let mut doc = Document::new();
    let mut context: Context<NoFunction> = Context::new();

    let input_node_1 = doc.add_node(String::new());
    let input_node_2 = doc.add_node(String::new());
    let mut input_nodeset = Nodeset::new();
    input_nodeset.add(input_node_1);
    input_nodeset.add(input_node_2);

    context.set_variable("nodes", Value::Nodeset(input_nodeset));

    let selected_nodes =
        Box::new(Ex::Variable(Variable { name: OwnedPrefixedName::unprefixed("nodes") }));
    let predicate = Box::new(num_lit(1.0));

    let expr = Filter::new(selected_nodes, predicate);

    let eval = Evaluation::new(&context, &doc, doc.root());
    let res = expr.evaluate(&eval);

    let mut expected = Nodeset::new();
    expected.add(input_node_1);
    assert_eq!(res, Ok(Value::Nodeset(expected)));
}

#[test]
fn filter_with_false_predicate_selects_no_nodes() {
    let mut doc = Document::new();
    let mut context: Context<NoFunction> = Context::new();

    let input_node_1 = doc.add_node(String::new());
    let input_node_2 = doc.add_node(String::new());
    let mut input_nodeset = Nodeset::new();
    input_nodeset.add(input_node_1);
    input_nodeset.add(input_node_2);

    context.set_variable("nodes", Value::Nodeset(input_nodeset));

    let selected_nodes =
        Box::new(Ex::Variable(Variable { name: OwnedPrefixedName::unprefixed("nodes") }));
    let predicate = Box::new(bool_lit(false));

    let expr = Filter::new(selected_nodes, predicate);

    let eval = Evaluation::new(&context, &doc, doc.root());
    let res = expr.evaluate(&eval);

    assert_eq!(res, Ok(Value::Nodeset(Nodeset::new())));
}

#[test]
fn expression_relational_does_basic_comparisons() {
    let doc = Document::new();
    let context: Context<NoFunction> = Context::new();

    let left = Box::new(num_lit(10.0));
    let right = Box::new(num_lit(5.0));

    let expr = Relational::less_than(left, right);

    let eval = Evaluation::new(&context, &doc, doc.root());
    let res = expr.evaluate(&eval);
    assert_eq!(res, Ok(Value::Boolean(false)));
}

#[test]
fn expression_root_node_finds_the_root() {
    let doc = Document::new();
    let context: Context<NoFunction> = Context::new();

    let expr = RootNode;

    let eval = Evaluation::new(&context, &doc, doc.root());
    let res = expr.evaluate(&eval);

    let mut expected = Nodeset::new();
    expected.add(doc.root());
    assert_eq!(res, Ok(Value::Nodeset(expected)));
}

#[derive(Debug, Clone)]
struct MockAxis {
    calls: Rc<RefCell<usize>>,
}

impl MockAxis {
    fn new() -> MockAxis {
        MockAxis { calls: Rc::new(RefCell::new(0)) }
    }

    fn calls(&self) -> usize {
        *self.calls.borrow()
    }
}

impl<N, F> AxisLike<N, F> for MockAxis {
    fn select_nodes(&self, _context: &Evaluation<F>, _node_test: &N, _result: &mut OrderedNodes) {
        *self.calls.borrow_mut() += 1;
    }
}

#[derive(Debug)]
struct DummyNodeTest;

impl<F> NodeTest<F> for DummyNodeTest {
    fn test(&self, _context: &Evaluation<F>, _result: &mut OrderedNodes) {}
}

#[test]
fn step_delegates_to_the_axis() {
    let doc = Document::new();
    let context: Context<NoFunction> = Context::new();

    let axis = MockAxis::new();
    let node_test = DummyNodeTest;

    let expr = ParameterizedStep::new(axis.clone(), node_test, vec![]);

    let eval = Evaluation::new(&context, &doc, doc.root());
    let mut starting = Nodeset::new();
    starting.add(doc.root());
    expr.evaluate(&eval, starting).unwrap();

    assert_eq!(1, axis.calls());
}

#[test]
fn expression_union_combines_nodesets() {
    let mut doc = Document::new();
    let mut context: Context<NoFunction> = Context::new();

    let left_node = doc.add_node(String::new());
    let mut nodes = Nodeset::new();
    nodes.add(left_node);
    context.set_variable("left", Value::Nodeset(nodes));
    let left = Box::new(Ex::Variable(Variable { name: OwnedPrefixedName::unprefixed("left") }));

    let right_node = doc.add_node(String::new());
    let mut nodes = Nodeset::new();
    nodes.add(right_node);
    context.set_variable("right", Value::Nodeset(nodes));
    let right = Box::new(Ex::Variable(Variable { name: OwnedPrefixedName::unprefixed("right") }));

    let expr = Union { left, right };

    let eval = Evaluation::new(&context, &doc, doc.root());
    let res = expr.evaluate(&eval);

    let mut expected = Nodeset::new();
    expected.add(left_node);
    expected.add(right_node);
    assert_eq!(res, Ok(Value::Nodeset(expected)));
}

#[test]
fn expression_variable_looks_up_the_variable() {
    let doc = Document::new();
    let mut context: Context<NoFunction> = Context::new();
    context.set_variable("foo", Value::Boolean(true));

    let expr = Variable { name: OwnedPrefixedName::unprefixed("foo") };

    let eval = Evaluation::new(&context, &doc, doc.root());
    let res = expr.evaluate(&eval);

    assert_eq!(res, Ok(Value::Boolean(true)));
}
