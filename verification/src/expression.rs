//! The expression tree and its evaluation. Each variant evaluates against a
//! context to an XPath value or one of five errors. The semantics of the
//! fragment that does not go through a bound function or an axis is given by
//! the interpreter `seval`; where a bound function or an axis takes part,
//! `seval` is undetermined (`None`) and the contracts state what holds of
//! the result whatever the collaborator did.

use vstd::prelude::*;

verus! {

use crate::axis::AxisLike;
use crate::context::{CtxV, Evaluation};
use crate::function::FunctionError;
use crate::name::{OwnedPrefixedName, PrefixedNameV, QNameV, QualifiedName};
use crate::nodeset::{Nodeset, OrderedNodes, doc_order_seq};
use crate::num::{
    add_bits, sub_bits, mul_bits, div_bits, rem_bits, ieee_lt, ieee_le, neg_bits,
    matches_position, add_double, sub_double, mul_double, div_double, rem_double, num_lt, num_le,
    num_neg, position_matches,
};
use crate::value::{
    LiteralValue, Value, ValueV, spec_boolean, spec_equal_vals, spec_number, equal_values,
};

/// The five error kinds evaluation can surface. All are fail-fast: an error
/// aborts evaluation and propagates unchanged.
#[derive(Debug, PartialEq)]
pub enum Error {
    /// An operand that must be a nodeset (path start, union operand,
    /// filter input) was another kind.
    NotANodeset,
    /// No function is bound to the resolved name.
    UnknownFunction(OwnedPrefixedName),
    /// No variable is bound to the resolved name.
    UnknownVariable(OwnedPrefixedName),
    /// A prefix appears in a name but has no URI binding.
    UnknownNamespace(String),
    /// A bound function reported an error; wrapped verbatim.
    FunctionEvaluation(FunctionError),
}

/// Spec-level image of an error.
pub enum ErrorV {
    NotANodeset,
    UnknownFunction(PrefixedNameV),
    UnknownVariable(PrefixedNameV),
    UnknownNamespace(Seq<char>),
    FunctionEvaluation(Seq<char>),
}

impl View for Error {
    type V = ErrorV;

    open spec fn view(&self) -> ErrorV {
        match self {
            Error::NotANodeset => ErrorV::NotANodeset,
            Error::UnknownFunction(n) => ErrorV::UnknownFunction(n@),
            Error::UnknownVariable(n) => ErrorV::UnknownVariable(n@),
            Error::UnknownNamespace(p) => ErrorV::UnknownNamespace(p@),
            Error::FunctionEvaluation(e) => ErrorV::FunctionEvaluation(e@),
        }
    }
}

/// The image of an evaluation result.
pub open spec fn view_result(r: Result<Value, Error>) -> Result<ValueV, ErrorV> {
    match r {
        Ok(v) => Ok(v@),
        Err(e) => Err(e@),
    }
}

/// A child expression.
pub type SubExpression<A, N> = Box<Expr<A, N>>;

/// The expression tree: a closed sum of the fifteen variant kinds, generic
/// over the axis and node-test collaborators its steps carry.
#[derive(Debug)]
pub enum Expr<A, N> {
    Literal(Literal),
    ContextNode(ContextNode),
    RootNode(RootNode),
    Variable(Variable),
    Function(Function<A, N>),
    And(And<A, N>),
    Or(Or<A, N>),
    Equal(Equal<A, N>),
    NotEqual(NotEqual<A, N>),
    Relational(Relational<A, N>),
    Math(Math<A, N>),
    Negation(Negation<A, N>),
    Union(Union<A, N>),
    Filter(Filter<A, N>),
    Path(Path<A, N>),
}

/// A pre-computed value; evaluation returns a copy of it and never fails.
#[derive(Debug)]
pub struct Literal {
    pub value: LiteralValue,
}

impl From<LiteralValue> for Literal {
    fn from(other: LiteralValue) -> (r: Literal) {
        Literal { value: other }
    }
}

impl vstd::std_specs::convert::FromSpecImpl<LiteralValue> for Literal {
    open spec fn obeys_from_spec() -> bool {
        true
    }

    open spec fn from_spec(other: LiteralValue) -> Literal {
        Literal { value: other }
    }
}

/// Evaluates to the singleton nodeset holding the context node.
#[derive(Debug)]
pub struct ContextNode;

/// Evaluates to the singleton nodeset holding the document root.
#[derive(Debug)]
pub struct RootNode;

/// A variable reference: the name resolves through the context and the
/// bound value is returned.
#[derive(Debug)]
pub struct Variable {
    pub name: OwnedPrefixedName,
}

/// A function call: the name resolves, the function is looked up, the
/// arguments are evaluated eagerly left to right, and the function is
/// invoked with them.
#[derive(Debug)]
pub struct Function<A, N> {
    pub name: OwnedPrefixedName,
    pub arguments: Vec<Expr<A, N>>,
}

/// Short-circuit conjunction under boolean coercion.
#[derive(Debug)]
pub struct And<A, N> {
    pub left: SubExpression<A, N>,
    pub right: SubExpression<A, N>,
}

/// Short-circuit disjunction under boolean coercion.
#[derive(Debug)]
pub struct Or<A, N> {
    pub left: SubExpression<A, N>,
    pub right: SubExpression<A, N>,
}

/// XPath equality, by the kind-directed dispatch of `spec_equal_vals`.
#[derive(Debug)]
pub struct Equal<A, N> {
    pub left: SubExpression<A, N>,
    pub right: SubExpression<A, N>,
}

/// The negation of `Equal` on the same operands.
#[derive(Debug)]
pub struct NotEqual<A, N> {
    pub equal: Equal<A, N>,
}

/// Which comparison a relational expression performs.
#[derive(Clone, Copy, Debug, PartialEq, Eq, Structural)]
pub enum RelationalOp {
    LessThan,
    LessThanOrEqual,
    GreaterThan,
    GreaterThanOrEqual,
}

/// The `<`-family comparisons: both operands are coerced to number and
/// compared; NaN compares false.
#[derive(Debug)]
pub struct Relational<A, N> {
    pub left: SubExpression<A, N>,
    pub right: SubExpression<A, N>,
    pub operation: RelationalOp,
}

/// Which arithmetic a math expression performs.
#[derive(Clone, Copy, Debug, PartialEq, Eq, Structural)]
pub enum MathOp {
    Add,
    Subtract,
    Multiply,
    Divide,
    Remainder,
}

/// Arithmetic: both operands are coerced to number and combined under
/// IEEE-754; division by zero gives an infinity or NaN, never an error.
#[derive(Debug)]
pub struct Math<A, N> {
    pub left: SubExpression<A, N>,
    pub right: SubExpression<A, N>,
    pub operation: MathOp,
}

/// Numeric negation of the operand's number coercion.
#[derive(Debug)]
pub struct Negation<A, N> {
    pub expression: SubExpression<A, N>,
}

/// Set union of two nodeset operands; any other operand kind fails.
#[derive(Debug)]
pub struct Union<A, N> {
    pub left: SubExpression<A, N>,
    pub right: SubExpression<A, N>,
}

/// One predicate: an expression filtering a node sequence, numerically by
/// position or by boolean coercion.
#[derive(Debug)]
pub struct Predicate<A, N> {
    pub expression: SubExpression<A, N>,
}

/// A top-level predicate application: the child must evaluate to a nodeset,
/// which is projected to document order before the predicate filters it.
#[derive(Debug)]
pub struct Filter<A, N> {
    pub node_selector: SubExpression<A, N>,
    pub predicate: Predicate<A, N>,
}

/// One step of a path: an axis, the node test the axis applies, and the
/// predicates that filter the axis output in order.
#[derive(Debug)]
pub struct ParameterizedStep<A, N> {
    pub axis: A,
    pub node_test: N,
    pub predicates: Vec<Predicate<A, N>>,
}

/// A start-point expression threaded through a sequence of steps.
#[derive(Debug)]
pub struct Path<A, N> {
    pub start_point: SubExpression<A, N>,
    pub steps: Vec<ParameterizedStep<A, N>>,
}

/// Resolution of a prefixed name against the namespace bindings: no prefix
/// means no namespace; a bound prefix gives its URI; an unbound prefix is
/// the error `UnknownNamespace`.
pub open spec fn spec_resolve(n: PrefixedNameV, ns: Map<Seq<char>, Seq<char>>) -> Result<
    QNameV,
    ErrorV,
> {
    match n.prefix {
        None => Ok(QNameV { namespace_uri: None, local: n.local }),
        Some(p) => if ns.contains_key(p) {
            Ok(QNameV { namespace_uri: Some(ns[p]), local: n.local })
        } else {
            Err(ErrorV::UnknownNamespace(p))
        },
    }
}

/// What a variable reference evaluates to: always determined.
pub open spec fn spec_variable(v: Variable, c: CtxV) -> Result<ValueV, ErrorV> {
    match spec_resolve(v.name@, c.ns) {
        Err(e) => Err(e),
        Ok(q) => if c.vars.contains_key(q) {
            Ok(c.vars[q])
        } else {
            Err(ErrorV::UnknownVariable(v.name@))
        },
    }
}

/// The comparison `spec_rel_op` denotes.
pub open spec fn spec_rel_op(op: RelationalOp, a: u64, b: u64) -> bool {
    match op {
        RelationalOp::LessThan => ieee_lt(a, b),
        RelationalOp::LessThanOrEqual => ieee_le(a, b),
        RelationalOp::GreaterThan => ieee_lt(b, a),
        RelationalOp::GreaterThanOrEqual => ieee_le(b, a),
    }
}

/// The arithmetic `spec_math_op` denotes, on double bit patterns.
pub open spec fn spec_math_op(op: MathOp, a: u64, b: u64) -> u64 {
    match op {
        MathOp::Add => add_bits(a, b),
        MathOp::Subtract => sub_bits(a, b),
        MathOp::Multiply => mul_bits(a, b),
        MathOp::Divide => div_bits(a, b),
        MathOp::Remainder => rem_bits(a, b),
    }
}

/// Whether a predicate value keeps the node at position `pos`: a number
/// selects by position, anything else by boolean coercion.
pub open spec fn spec_keep(v: ValueV, pos: nat) -> bool {
    match v {
        ValueV::Num(b) => matches_position(b, pos),
        _ => spec_boolean(v),
    }
}

/// What a conjunction evaluates to, where determined.
pub open spec fn spec_and<A, N>(a: And<A, N>, c: CtxV) -> Option<Result<ValueV, ErrorV>>
    decreases a, 1nat, 0nat,
{
    match seval(*a.left, c) {
        None => None,
        Some(Err(e)) => Some(Err(e)),
        Some(Ok(lv)) => if !spec_boolean(lv) {
            Some(Ok(ValueV::Bool(false)))
        } else {
            match seval(*a.right, c) {
                None => None,
                Some(Err(e)) => Some(Err(e)),
                Some(Ok(rv)) => Some(Ok(ValueV::Bool(spec_boolean(rv)))),
            }
        },
    }
}

/// What a disjunction evaluates to, where determined.
pub open spec fn spec_or<A, N>(o: Or<A, N>, c: CtxV) -> Option<Result<ValueV, ErrorV>>
    decreases o, 1nat, 0nat,
{
    match seval(*o.left, c) {
        None => None,
        Some(Err(e)) => Some(Err(e)),
        Some(Ok(lv)) => if spec_boolean(lv) {
            Some(Ok(ValueV::Bool(true)))
        } else {
            match seval(*o.right, c) {
                None => None,
                Some(Err(e)) => Some(Err(e)),
                Some(Ok(rv)) => Some(Ok(ValueV::Bool(spec_boolean(rv)))),
            }
        },
    }
}

/// The boolean an equality comparison yields, where determined.
pub open spec fn spec_equal_bool<A, N>(eq: Equal<A, N>, c: CtxV) -> Option<Result<bool, ErrorV>>
    decreases eq, 1nat, 0nat,
{
    match seval(*eq.left, c) {
        None => None,
        Some(Err(e)) => Some(Err(e)),
        Some(Ok(lv)) => match seval(*eq.right, c) {
            None => None,
            Some(Err(e)) => Some(Err(e)),
            Some(Ok(rv)) => Some(Ok(spec_equal_vals(lv, rv, c.doc))),
        },
    }
}

/// What a relational comparison evaluates to, where determined.
pub open spec fn spec_relational<A, N>(r: Relational<A, N>, c: CtxV) -> Option<
    Result<ValueV, ErrorV>,
>
    decreases r, 1nat, 0nat,
{
    match seval(*r.left, c) {
        None => None,
        Some(Err(e)) => Some(Err(e)),
        Some(Ok(lv)) => match seval(*r.right, c) {
            None => None,
            Some(Err(e)) => Some(Err(e)),
            Some(Ok(rv)) => Some(
                Ok(
                    ValueV::Bool(
                        spec_rel_op(r.operation, spec_number(lv, c.doc), spec_number(rv, c.doc)),
                    ),
                ),
            ),
        },
    }
}

/// What a math expression evaluates to, where determined.
pub open spec fn spec_math<A, N>(m: Math<A, N>, c: CtxV) -> Option<Result<ValueV, ErrorV>>
    decreases m, 1nat, 0nat,
{
    match seval(*m.left, c) {
        None => None,
        Some(Err(e)) => Some(Err(e)),
        Some(Ok(lv)) => match seval(*m.right, c) {
            None => None,
            Some(Err(e)) => Some(Err(e)),
            Some(Ok(rv)) => Some(
                Ok(
                    ValueV::Num(
                        spec_math_op(m.operation, spec_number(lv, c.doc), spec_number(rv, c.doc)),
                    ),
                ),
            ),
        },
    }
}

/// What a negation evaluates to, where determined.
pub open spec fn spec_negation<A, N>(n: Negation<A, N>, c: CtxV) -> Option<Result<ValueV, ErrorV>>
    decreases n, 1nat, 0nat,
{
    match seval(*n.expression, c) {
        None => None,
        Some(Err(e)) => Some(Err(e)),
        Some(Ok(v)) => Some(Ok(ValueV::Num(neg_bits(spec_number(v, c.doc))))),
    }
}

/// What a union evaluates to, where determined: each side must be a
/// nodeset, and the result is their set union.
pub open spec fn spec_union<A, N>(u: Union<A, N>, c: CtxV) -> Option<Result<ValueV, ErrorV>>
    decreases u, 1nat, 0nat,
{
    match seval(*u.left, c) {
        None => None,
        Some(Err(e)) => Some(Err(e)),
        Some(Ok(lv)) => match lv {
            ValueV::Nodeset(ls) => match seval(*u.right, c) {
                None => None,
                Some(Err(e)) => Some(Err(e)),
                Some(Ok(rv)) => match rv {
                    ValueV::Nodeset(rs) => Some(Ok(ValueV::Nodeset(ls.union(rs)))),
                    _ => Some(Err(ErrorV::NotANodeset)),
                },
            },
            _ => Some(Err(ErrorV::NotANodeset)),
        },
    }
}

/// What a function call evaluates to, as far as determined: name-resolution
/// and lookup errors, and the first determined argument error; a call that
/// reaches the bound function is undetermined.
pub open spec fn spec_function_call<A, N>(f: Function<A, N>, c: CtxV) -> Option<
    Result<ValueV, ErrorV>,
>
    decreases f, 1nat, 0nat,
{
    match spec_resolve(f.name@, c.ns) {
        Err(e) => Some(Err(e)),
        Ok(q) => if !c.funs.contains(q) {
            Some(Err(ErrorV::UnknownFunction(f.name@)))
        } else {
            match seval_args(f.arguments@, c) {
                Some(Some(e)) => Some(Err(e)),
                _ => None,
            }
        },
    }
}

/// The first determined error among the arguments, evaluated left to
/// right: `Some(None)` if all are determined and succeed, `None` if an
/// undetermined argument comes first.
pub open spec fn seval_args<A, N>(args: Seq<Expr<A, N>>, c: CtxV) -> Option<Option<ErrorV>>
    decreases args, 0nat, 0nat,
{
    if args.len() == 0 {
        Some(None)
    } else {
        match seval(args[0], c) {
            None => None,
            Some(Err(e)) => Some(Some(e)),
            Some(Ok(_)) => seval_args(args.subrange(1, args.len() as int), c),
        }
    }
}

/// What filtering `nodes` through the predicate `pred` yields, where every
/// per-node evaluation is determined. The node at offset `k` is seen under
/// a context with that node, position `pos + k`, and the fixed `size`.
pub open spec fn spec_select<A, N>(
    pred: Expr<A, N>,
    nodes: Seq<int>,
    c: CtxV,
    pos: nat,
    size: nat,
) -> Option<Result<Seq<int>, ErrorV>>
    decreases pred, 2nat, nodes.len(),
{
    if nodes.len() == 0 {
        Some(Ok(Seq::empty()))
    } else {
        let c2 = CtxV { node: nodes[0], position: pos, size: size, ..c };
        match seval(pred, c2) {
            None => None,
            Some(Err(e)) => Some(Err(e)),
            Some(Ok(v)) => match spec_select(
                pred,
                nodes.subrange(1, nodes.len() as int),
                c,
                pos + 1,
                size,
            ) {
                None => None,
                Some(Err(e)) => Some(Err(e)),
                Some(Ok(rest)) => Some(
                    Ok(
                        if spec_keep(v, pos) {
                            seq![nodes[0]] + rest
                        } else {
                            rest
                        },
                    ),
                ),
            },
        }
    }
}

/// What chaining the predicates of a step over a node sequence yields,
/// where every per-node evaluation is determined: each predicate filters
/// the sequence the previous one left, under fresh positions 1..=size.
pub open spec fn spec_apply_predicates<A, N>(
    preds: Seq<Predicate<A, N>>,
    nodes: Seq<int>,
    c: CtxV,
) -> Option<Result<Seq<int>, ErrorV>>
    decreases preds, 0nat, 0nat,
{
    if preds.len() == 0 {
        Some(Ok(nodes))
    } else {
        match spec_select(*preds[0].expression, nodes, c, 1, nodes.len()) {
            None => None,
            Some(Err(e)) => Some(Err(e)),
            Some(Ok(kept)) => spec_apply_predicates(preds.subrange(1, preds.len() as int), kept, c),
        }
    }
}

/// What a filter evaluates to, where determined: the child's nodeset,
/// projected to document order, filtered through the predicate.
pub open spec fn spec_filter<A, N>(f: Filter<A, N>, c: CtxV) -> Option<Result<ValueV, ErrorV>>
    decreases f, 1nat, 0nat,
{
    match seval(*f.node_selector, c) {
        None => None,
        Some(Err(e)) => Some(Err(e)),
        Some(Ok(v)) => match v {
            ValueV::Nodeset(s) => {
                let nodes = doc_order_seq(s);
                match spec_select(*f.predicate.expression, nodes, c, 1, nodes.len()) {
                    None => None,
                    Some(Err(e)) => Some(Err(e)),
                    Some(Ok(kept)) => Some(Ok(ValueV::Nodeset(kept.to_set()))),
                }
            },
            _ => Some(Err(ErrorV::NotANodeset)),
        },
    }
}

/// What a path evaluates to, as far as determined: the start must be a
/// nodeset; a path with steps goes through axes and is undetermined.
pub open spec fn spec_path<A, N>(p: Path<A, N>, c: CtxV) -> Option<Result<ValueV, ErrorV>>
    decreases p, 1nat, 0nat,
{
    match seval(*p.start_point, c) {
        None => None,
        Some(Err(e)) => Some(Err(e)),
        Some(Ok(v)) => match v {
            ValueV::Nodeset(s) => if p.steps@.len() == 0 {
                Some(Ok(ValueV::Nodeset(s)))
            } else {
                None
            },
            _ => Some(Err(ErrorV::NotANodeset)),
        },
    }
}

/// The interpreter for the determined fragment: what an expression
/// evaluates to under a context, or `None` where a bound function or an
/// axis decides the outcome.
pub open spec fn seval<A, N>(e: Expr<A, N>, c: CtxV) -> Option<Result<ValueV, ErrorV>>
    decreases e, 0nat, 0nat,
{
    match e {
        Expr::Literal(l) => Some(Ok(l.value@)),
        Expr::ContextNode(_) => Some(Ok(ValueV::Nodeset(set![c.node]))),
        Expr::RootNode(_) => Some(Ok(ValueV::Nodeset(set![0int]))),
        Expr::Variable(v) => Some(spec_variable(v, c)),
        Expr::Function(f) => spec_function_call(f, c),
        Expr::And(a) => spec_and(a, c),
        Expr::Or(o) => spec_or(o, c),
        Expr::Equal(eq) => match spec_equal_bool(eq, c) {
            None => None,
            Some(Err(e2)) => Some(Err(e2)),
            Some(Ok(b)) => Some(Ok(ValueV::Bool(b))),
        },
        Expr::NotEqual(ne) => match spec_equal_bool(ne.equal, c) {
            None => None,
            Some(Err(e2)) => Some(Err(e2)),
            Some(Ok(b)) => Some(Ok(ValueV::Bool(!b))),
        },
        Expr::Relational(r) => spec_relational(r, c),
        Expr::Math(m) => spec_math(m, c),
        Expr::Negation(n) => spec_negation(n, c),
        Expr::Union(u) => spec_union(u, c),
        Expr::Filter(f) => spec_filter(f, c),
        Expr::Path(p) => spec_path(p, c),
    }
}

/// Resolves a prefixed name against the context's namespace bindings, per
/// `spec_resolve`. An unprefixed name has no namespace.
pub fn resolve_prefixed_name<F>(context: &Evaluation<F>, name: &OwnedPrefixedName) -> (r: Result<
    QualifiedName,
    Error,
>)
    ensures
        match spec_resolve(name@, context@.ns) {
            Ok(q) => r matches Ok(q2) && q2@ == q,
            Err(e) => r matches Err(e2) && e2@ == e,
        },
{
    match &name.prefix {
        None => Ok(QualifiedName { namespace_uri: None, local_part: name.local_part.clone() }),
        Some(prefix) => match context.namespace_for(prefix.as_str()) {
            None => Err(Error::UnknownNamespace(prefix.clone())),
            Some(uri) => Ok(
                QualifiedName {
                    namespace_uri: Some(uri.clone()),
                    local_part: name.local_part.clone(),
                },
            ),
        },
    }
}

/// The nodeset a value holds; any other kind is the failure
/// `NotANodeset`.
fn value_into_nodeset(v: Value) -> (r: Result<Nodeset, Error>)
    ensures
        match v@ {
            ValueV::Nodeset(s) => r matches Ok(ns) && ns@ == s,
            _ => r matches Err(e) && e@ == ErrorV::NotANodeset,
        },
{
    match v {
        Value::Nodeset(ns) => Ok(ns),
        _ => Err(Error::NotANodeset),
    }
}

/// The nodeset a value holds, projected to document order; any other kind
/// is the failure `NotANodeset`. Filters canonicalize their input this
/// way.
fn value_into_ordered_nodes(v: Value) -> (r: Result<OrderedNodes, Error>)
    ensures
        match v@ {
            ValueV::Nodeset(s) => r matches Ok(on) && on@ == doc_order_seq(s),
            _ => r matches Err(e) && e@ == ErrorV::NotANodeset,
        },
{
    match v {
        Value::Nodeset(ns) => Ok(ns.document_order()),
        _ => Err(Error::NotANodeset),
    }
}

/// What the function-call expression returns for each outcome of the bound
/// function: success verbatim, an error wrapped as `FunctionEvaluation`.
pub fn finish_function_call(r: Result<Value, FunctionError>) -> (out: Result<Value, Error>)
    ensures
        match r {
            Ok(v) => out matches Ok(v2) && v2 == v,
            Err(e) => out matches Err(e2) && e2 == Error::FunctionEvaluation(e),
        },
{
    match r {
        Ok(v) => Ok(v),
        Err(e) => Err(Error::FunctionEvaluation(e)),
    }
}

impl<A, N> Expr<A, N> {
    /// Evaluates the expression under a context. Wherever `seval`
    /// determines the outcome, the result is exactly that outcome.
    pub fn evaluate<F: crate::function::Function>(&self, context: &Evaluation<F>) -> (r: Result<
        Value,
        Error,
    >) where A: AxisLike<N, F>
        ensures
            match seval(*self, context@) {
                Some(res) => view_result(r) == res,
                None => true,
            },
        decreases *self, 0nat, 0nat,
    {
        match self {
            Expr::Literal(l) => l.evaluate(context),
            Expr::ContextNode(cn) => cn.evaluate(context),
            Expr::RootNode(rn) => rn.evaluate(context),
            Expr::Variable(v) => v.evaluate(context),
            Expr::Function(f) => f.evaluate(context),
            Expr::And(a) => a.evaluate(context),
            Expr::Or(o) => o.evaluate(context),
            Expr::Equal(eq) => eq.evaluate(context),
            Expr::NotEqual(ne) => ne.evaluate(context),
            Expr::Relational(rel) => rel.evaluate(context),
            Expr::Math(m) => m.evaluate(context),
            Expr::Negation(n) => n.evaluate(context),
            Expr::Union(u) => u.evaluate(context),
            Expr::Filter(f) => f.evaluate(context),
            Expr::Path(p) => p.evaluate(context),
        }
    }
}

impl Literal {
    /// Returns a copy of the held value; never fails.
    pub fn evaluate<F>(&self, _context: &Evaluation<F>) -> (r: Result<Value, Error>)
        ensures
            view_result(r) == Ok::<ValueV, ErrorV>(self.value@),
    {
        Ok(self.value.duplicate())
    }
}

impl ContextNode {
    /// The singleton nodeset holding the context node; never fails.
    pub fn evaluate<F>(&self, context: &Evaluation<F>) -> (r: Result<Value, Error>)
        ensures
            view_result(r) == Ok::<ValueV, ErrorV>(ValueV::Nodeset(set![context@.node])),
    {
        let mut ns = Nodeset::new();
        ns.add(context.node);
        proof {
            assert(ns@ =~= set![context@.node]);
        }
        Ok(Value::Nodeset(ns))
    }
}

impl RootNode {
    /// The singleton nodeset holding the document root; never fails.
    pub fn evaluate<F>(&self, context: &Evaluation<F>) -> (r: Result<Value, Error>)
        ensures
            view_result(r) == Ok::<ValueV, ErrorV>(ValueV::Nodeset(set![0int])),
    {
        let mut ns = Nodeset::new();
        ns.add(context.doc.root());
        proof {
            assert(ns@ =~= set![0int]);
        }
        Ok(Value::Nodeset(ns))
    }
}

impl Variable {
    /// Resolves the name and returns a copy of the bound value; fails with
    /// `UnknownNamespace` or `UnknownVariable`.
    pub fn evaluate<F>(&self, context: &Evaluation<F>) -> (r: Result<Value, Error>)
        ensures
            match spec_variable(*self, context@) {
                Ok(v) => r matches Ok(v2) && v2@ == v,
                Err(e) => r matches Err(e2) && e2@ == e,
            },
    {
        let name = match resolve_prefixed_name(context, &self.name) {
            Ok(q) => q,
            Err(e) => {
                return Err(e);
            },
        };
        match context.value_of(&name) {
            Some(v) => Ok(v.duplicate()),
            None => Err(Error::UnknownVariable(self.name.duplicate())),
        }
    }
}

impl<A, N> And<A, N> {
    /// Evaluates the left operand; false short-circuits without touching
    /// the right operand.
    pub fn evaluate<F: crate::function::Function>(&self, context: &Evaluation<F>) -> (r: Result<
        Value,
        Error,
    >) where A: AxisLike<N, F>
        ensures
            match spec_and(*self, context@) {
                Some(res) => view_result(r) == res,
                None => true,
            },
        decreases *self, 1nat, 0nat,
    {
        let left = match self.left.evaluate(context) {
            Ok(v) => v,
            Err(e) => {
                return Err(e);
            },
        };
        if !left.boolean() {
            return Ok(Value::Boolean(false));
        }
        let right = match self.right.evaluate(context) {
            Ok(v) => v,
            Err(e) => {
                return Err(e);
            },
        };
        Ok(Value::Boolean(right.boolean()))
    }
}

impl<A, N> Or<A, N> {
    /// Evaluates the left operand; true short-circuits without touching
    /// the right operand.
    pub fn evaluate<F: crate::function::Function>(&self, context: &Evaluation<F>) -> (r: Result<
        Value,
        Error,
    >) where A: AxisLike<N, F>
        ensures
            match spec_or(*self, context@) {
                Some(res) => view_result(r) == res,
                None => true,
            },
        decreases *self, 1nat, 0nat,
    {
        let left = match self.left.evaluate(context) {
            Ok(v) => v,
            Err(e) => {
                return Err(e);
            },
        };
        if left.boolean() {
            return Ok(Value::Boolean(true));
        }
        let right = match self.right.evaluate(context) {
            Ok(v) => v,
            Err(e) => {
                return Err(e);
            },
        };
        Ok(Value::Boolean(right.boolean()))
    }
}

impl<A, N> Equal<A, N> {
    /// The boolean of the comparison, before wrapping.
    pub fn boolean_evaluate<F: crate::function::Function>(
        &self,
        context: &Evaluation<F>,
    ) -> (r: Result<bool, Error>) where A: AxisLike<N, F>
        ensures
            match spec_equal_bool(*self, context@) {
                Some(Ok(b)) => r matches Ok(b2) && b2 == b,
                Some(Err(e)) => r matches Err(e2) && e2@ == e,
                None => true,
            },
        decreases *self, 0nat, 0nat,
    {
        let left_val = match self.left.evaluate(context) {
            Ok(v) => v,
            Err(e) => {
                return Err(e);
            },
        };
        let right_val = match self.right.evaluate(context) {
            Ok(v) => v,
            Err(e) => {
                return Err(e);
            },
        };
        Ok(equal_values(&left_val, &right_val, context.doc))
    }

    pub fn evaluate<F: crate::function::Function>(&self, context: &Evaluation<F>) -> (r: Result<
        Value,
        Error,
    >) where A: AxisLike<N, F>
        ensures
            match spec_equal_bool(*self, context@) {
                Some(Ok(b)) => r matches Ok(v) && v@ == ValueV::Bool(b),
                Some(Err(e)) => r matches Err(e2) && e2@ == e,
                None => true,
            },
        decreases *self, 1nat, 0nat,
    {
        match self.boolean_evaluate(context) {
            Ok(b) => Ok(Value::Boolean(b)),
            Err(e) => Err(e),
        }
    }
}

impl<A, N> NotEqual<A, N> {
    pub fn new(left: SubExpression<A, N>, right: SubExpression<A, N>) -> (r: Expr<A, N>)
        ensures
            r == Expr::NotEqual(NotEqual { equal: Equal { left: left, right: right } }),
    {
        Expr::NotEqual(NotEqual { equal: Equal { left, right } })
    }

    /// The negation of `Equal` on the same operands.
    pub fn evaluate<F: crate::function::Function>(&self, context: &Evaluation<F>) -> (r: Result<
        Value,
        Error,
    >) where A: AxisLike<N, F>
        ensures
            match spec_equal_bool(self.equal, context@) {
                Some(Ok(b)) => r matches Ok(v) && v@ == ValueV::Bool(!b),
                Some(Err(e)) => r matches Err(e2) && e2@ == e,
                None => true,
            },
        decreases *self, 1nat, 0nat,
    {
        match self.equal.boolean_evaluate(context) {
            Ok(b) => Ok(Value::Boolean(!b)),
            Err(e) => Err(e),
        }
    }
}

impl<A, N> Relational<A, N> {
    pub fn less_than(left: SubExpression<A, N>, right: SubExpression<A, N>) -> (r: Expr<A, N>)
        ensures
            r == Expr::Relational(
                Relational { left: left, right: right, operation: RelationalOp::LessThan },
            ),
    {
        Expr::Relational(Relational { left, right, operation: RelationalOp::LessThan })
    }

    pub fn less_than_or_equal(left: SubExpression<A, N>, right: SubExpression<A, N>) -> (r: Expr<
        A,
        N,
    >)
        ensures
            r == Expr::Relational(
                Relational { left: left, right: right, operation: RelationalOp::LessThanOrEqual },
            ),
    {
        Expr::Relational(Relational { left, right, operation: RelationalOp::LessThanOrEqual })
    }

    pub fn greater_than(left: SubExpression<A, N>, right: SubExpression<A, N>) -> (r: Expr<A, N>)
        ensures
            r == Expr::Relational(
                Relational { left: left, right: right, operation: RelationalOp::GreaterThan },
            ),
    {
        Expr::Relational(Relational { left, right, operation: RelationalOp::GreaterThan })
    }

    pub fn greater_than_or_equal(left: SubExpression<A, N>, right: SubExpression<A, N>) -> (r:
        Expr<A, N>)
        ensures
            r == Expr::Relational(
                Relational {
                    left: left,
                    right: right,
                    operation: RelationalOp::GreaterThanOrEqual,
                },
            ),
    {
        Expr::Relational(Relational { left, right, operation: RelationalOp::GreaterThanOrEqual })
    }

    /// Coerces both operands to number and compares them; NaN compares
    /// false.
    pub fn evaluate<F: crate::function::Function>(&self, context: &Evaluation<F>) -> (r: Result<
        Value,
        Error,
    >) where A: AxisLike<N, F>
        ensures
            match spec_relational(*self, context@) {
                Some(res) => view_result(r) == res,
                None => true,
            },
        decreases *self, 1nat, 0nat,
    {
        let left_val = match self.left.evaluate(context) {
            Ok(v) => v,
            Err(e) => {
                return Err(e);
            },
        };
        let right_val = match self.right.evaluate(context) {
            Ok(v) => v,
            Err(e) => {
                return Err(e);
            },
        };
        let a = left_val.number(context.doc);
        let b = right_val.number(context.doc);
        let v = match self.operation {
            RelationalOp::LessThan => num_lt(a, b),
            RelationalOp::LessThanOrEqual => num_le(a, b),
            RelationalOp::GreaterThan => num_lt(b, a),
            RelationalOp::GreaterThanOrEqual => num_le(b, a),
        };
        Ok(Value::Boolean(v))
    }
}

impl<A, N> Math<A, N> {
    pub fn addition(left: SubExpression<A, N>, right: SubExpression<A, N>) -> (r: Expr<A, N>)
        ensures
            r == Expr::Math(Math { left: left, right: right, operation: MathOp::Add }),
    {
        Expr::Math(Math { left, right, operation: MathOp::Add })
    }

    pub fn subtraction(left: SubExpression<A, N>, right: SubExpression<A, N>) -> (r: Expr<A, N>)
        ensures
            r == Expr::Math(Math { left: left, right: right, operation: MathOp::Subtract }),
    {
        Expr::Math(Math { left, right, operation: MathOp::Subtract })
    }

    pub fn multiplication(left: SubExpression<A, N>, right: SubExpression<A, N>) -> (r: Expr<A, N>)
        ensures
            r == Expr::Math(Math { left: left, right: right, operation: MathOp::Multiply }),
    {
        Expr::Math(Math { left, right, operation: MathOp::Multiply })
    }

    pub fn division(left: SubExpression<A, N>, right: SubExpression<A, N>) -> (r: Expr<A, N>)
        ensures
            r == Expr::Math(Math { left: left, right: right, operation: MathOp::Divide }),
    {
        Expr::Math(Math { left, right, operation: MathOp::Divide })
    }

    pub fn remainder(left: SubExpression<A, N>, right: SubExpression<A, N>) -> (r: Expr<A, N>)
        ensures
            r == Expr::Math(Math { left: left, right: right, operation: MathOp::Remainder }),
    {
        Expr::Math(Math { left, right, operation: MathOp::Remainder })
    }

    /// Coerces both operands to number and applies the IEEE-754 operation.
    pub fn evaluate<F: crate::function::Function>(&self, context: &Evaluation<F>) -> (r: Result<
        Value,
        Error,
    >) where A: AxisLike<N, F>
        ensures
            match spec_math(*self, context@) {
                Some(res) => view_result(r) == res,
                None => true,
            },
        decreases *self, 1nat, 0nat,
    {
        let left_val = match self.left.evaluate(context) {
            Ok(v) => v,
            Err(e) => {
                return Err(e);
            },
        };
        let right_val = match self.right.evaluate(context) {
            Ok(v) => v,
            Err(e) => {
                return Err(e);
            },
        };
        let a = left_val.number(context.doc);
        let b = right_val.number(context.doc);
        let v = match self.operation {
            MathOp::Add => add_double(a, b),
            MathOp::Subtract => sub_double(a, b),
            MathOp::Multiply => mul_double(a, b),
            MathOp::Divide => div_double(a, b),
            MathOp::Remainder => rem_double(a, b),
        };
        Ok(Value::Number(v))
    }
}

impl<A, N> Negation<A, N> {
    /// Coerces the operand to number and negates it: exactly the sign bit
    /// flips, so NaN stays NaN and each zero becomes the other zero.
    pub fn evaluate<F: crate::function::Function>(&self, context: &Evaluation<F>) -> (r: Result<
        Value,
        Error,
    >) where A: AxisLike<N, F>
        ensures
            match spec_negation(*self, context@) {
                Some(res) => view_result(r) == res,
                None => true,
            },
        decreases *self, 1nat, 0nat,
    {
        let v = match self.expression.evaluate(context) {
            Ok(v) => v,
            Err(e) => {
                return Err(e);
            },
        };
        Ok(Value::Number(num_neg(v.number(context.doc))))
    }
}

impl<A, N> Union<A, N> {
    /// Evaluates both sides; each must be a nodeset, and the result is
    /// their set union.
    pub fn evaluate<F: crate::function::Function>(&self, context: &Evaluation<F>) -> (r: Result<
        Value,
        Error,
    >) where A: AxisLike<N, F>
        ensures
            match spec_union(*self, context@) {
                Some(res) => view_result(r) == res,
                None => true,
            },
        decreases *self, 1nat, 0nat,
    {
        let left_val = match self.left.evaluate(context) {
            Ok(v) => v,
            Err(e) => {
                return Err(e);
            },
        };
        let mut left_nodes = match value_into_nodeset(left_val) {
            Ok(ns) => ns,
            Err(e) => {
                return Err(e);
            },
        };
        let right_val = match self.right.evaluate(context) {
            Ok(v) => v,
            Err(e) => {
                return Err(e);
            },
        };
        let right_nodes = match value_into_nodeset(right_val) {
            Ok(ns) => ns,
            Err(e) => {
                return Err(e);
            },
        };
        left_nodes.add_nodeset(&right_nodes);
        Ok(Value::Nodeset(left_nodes))
    }
}

impl<A, N> Function<A, N> {
    /// Resolves the name, looks the function up, evaluates the arguments
    /// left to right, and invokes the function; its error is wrapped as
    /// `FunctionEvaluation`.
    pub fn evaluate<F: crate::function::Function>(&self, context: &Evaluation<F>) -> (r: Result<
        Value,
        Error,
    >) where A: AxisLike<N, F>
        ensures
            match spec_function_call(*self, context@) {
                Some(res) => view_result(r) == res,
                None => seval_args(self.arguments@, context@) == Some(None::<ErrorV>) ==> (r
                    matches Ok(_) || (r matches Err(e) && e matches Error::FunctionEvaluation(
                    _,
                ))),
            },
        decreases *self, 1nat, 0nat,
    {
        let name = match resolve_prefixed_name(context, &self.name) {
            Ok(q) => q,
            Err(e) => {
                return Err(e);
            },
        };
        let fun = match context.function_for_name(&name) {
            Some(f) => f,
            None => {
                return Err(Error::UnknownFunction(self.name.duplicate()));
            },
        };
        let n = self.arguments.len();
        let mut args: Vec<Value> = Vec::new();
        proof {
            assert(self.arguments@.subrange(0, n as int) =~= self.arguments@);
        }
        for i in 0..n
            invariant
                n == self.arguments@.len(),
                seval_args(self.arguments@, context@) is Some ==> seval_args(
                    self.arguments@,
                    context@,
                ) == seval_args(self.arguments@.subrange(i as int, n as int), context@),
                match seval_args(self.arguments@, context@) {
                    Some(Some(e)) => spec_function_call(*self, context@) == Some(
                        Err::<ValueV, ErrorV>(e),
                    ),
                    _ => spec_function_call(*self, context@) is None,
                },
        {
            proof {
                let all = self.arguments@;
                let suffix = all.subrange(i as int, n as int);
                assert(suffix.len() > 0);
                assert(suffix[0] == all[i as int]);
                assert(suffix.subrange(1, suffix.len() as int) =~= all.subrange(
                    i + 1,
                    n as int,
                ));
            }
            let v = match self.arguments[i].evaluate(context) {
                Ok(v) => v,
                Err(e) => {
                    proof {
                        let all = self.arguments@;
                        let suffix = all.subrange(i as int, n as int);
                        if seval_args(all, context@) is Some {
                            assert(seval_args(all, context@) == seval_args(suffix, context@));
                            match seval(all[i as int], context@) {
                                None => {
                                    assert(seval_args(suffix, context@) is None);
                                },
                                Some(Ok(_)) => {
                                    assert(false);
                                },
                                Some(Err(ev)) => {
                                    assert(e@ == ev);
                                    assert(seval_args(suffix, context@) == Some(Some(ev)));
                                },
                            }
                        }
                    }
                    return Err(e);
                },
            };
            args.push(v);
        }
        proof {
            assert(self.arguments@.subrange(n as int, n as int) =~= Seq::<Expr<A, N>>::empty());
        }
        finish_function_call(fun.evaluate(context, args))
    }
}

impl<A, N> Predicate<A, N> {
    /// Whether the predicate keeps the node of `context`: a numeric value
    /// selects by position, any other by boolean coercion.
    fn matches<F: crate::function::Function>(&self, context: &Evaluation<F>) -> (r: Result<
        bool,
        Error,
    >) where A: AxisLike<N, F>
        ensures
            match seval(*self.expression, context@) {
                Some(Ok(v)) => r matches Ok(b) && b == spec_keep(v, context@.position),
                Some(Err(e)) => r matches Err(e2) && e2@ == e,
                None => true,
            },
        decreases *self, 1nat, 0nat,
    {
        let value = match self.expression.evaluate(context) {
            Ok(v) => v,
            Err(e) => {
                return Err(e);
            },
        };
        match &value {
            Value::Number(b) => Ok(position_matches(*b, context.position)),
            _ => Ok(value.boolean()),
        }
    }

    /// Filters `nodes` through the predicate. Each node at offset `k` is
    /// evaluated under a context with that node, position `k + 1`, and
    /// size the length of `nodes`: positions range exactly over 1..=size.
    /// The kept nodes are a subsequence; where every per-node evaluation
    /// is determined, the result is exactly `spec_select`'s.
    fn select<F: crate::function::Function>(
        &self,
        context: &Evaluation<F>,
        nodes: OrderedNodes,
    ) -> (r: Result<OrderedNodes, Error>) where A: AxisLike<N, F>
        ensures
            match spec_select(*self.expression, nodes@, context@, 1, nodes@.len()) {
                Some(Ok(kept)) => r matches Ok(out) && out@ == kept,
                Some(Err(e)) => r matches Err(e2) && e2@ == e,
                None => true,
            },
            r matches Ok(out) ==> forall|k: int|
                0 <= k < out@.len() ==> nodes@.contains(#[trigger] out@[k]),
        decreases *self, 2nat, 0nat,
    {
        let ghost pred = *self.expression;
        let ghost c = context@;
        let n = nodes.len();
        let ghost full = spec_select(pred, nodes@, c, 1, n as nat);
        let mut out = OrderedNodes::new();
        proof {
            assert(nodes@.subrange(0, n as int) =~= nodes@);
            match full {
                Some(Ok(s0)) => {
                    assert(Seq::<int>::empty() + s0 =~= s0);
                },
                _ => {},
            }
        }
        for i in 0..n
            invariant
                n == nodes@.len(),
                full == spec_select(pred, nodes@, c, 1, n as nat),
                c == context@,
                pred == *self.expression,
                forall|k: int| 0 <= k < out@.len() ==> nodes@.contains(#[trigger] out@[k]),
                full is Some ==> full == prepend_selected(
                    out@,
                    spec_select(
                        pred,
                        nodes@.subrange(i as int, n as int),
                        c,
                        (i + 1) as nat,
                        n as nat,
                    ),
                ),
        {
            let ghost suffix = nodes@.subrange(i as int, n as int);
            let ghost s_i = spec_select(pred, suffix, c, (i + 1) as nat, n as nat);
            let ghost s_next = spec_select(
                pred,
                nodes@.subrange(i + 1, n as int),
                c,
                (i + 2) as nat,
                n as nat,
            );
            let node = nodes.get(i);
            let ctx_i = context.new_context_at(node, i + 1, n);
            proof {
                assert(suffix[0] == nodes@[i as int]);
                assert(suffix.subrange(1, suffix.len() as int) =~= nodes@.subrange(
                    i + 1,
                    n as int,
                ));
                assert(ctx_i@ == (CtxV {
                    node: suffix[0],
                    position: (i + 1) as nat,
                    size: n as nat,
                    ..c
                }));
            }
            let ghost out_before = out@;
            let keep = match self.matches(&ctx_i) {
                Ok(b) => b,
                Err(e) => {
                    return Err(e);
                },
            };
            if keep {
                out.add(node);
                proof {
                    assert(nodes@.contains(nodes@[i as int]));
                }
            }
            proof {
                if full is Some {
                    match s_next {
                        Some(Ok(rest)) => {
                            if keep {
                                assert(out@ =~= out_before.push(nodes@[i as int]));
                                assert(out_before + (seq![nodes@[i as int]] + rest) =~= out@
                                    + rest);
                            }
                        },
                        _ => {},
                    }
                }
            }
        }
        proof {
            assert(nodes@.subrange(n as int, n as int) =~= Seq::<int>::empty());
            if full is Some {
                assert(full == prepend_selected(out@, Some(Ok(Seq::<int>::empty()))));
                assert(out@ + Seq::<int>::empty() =~= out@);
            }
        }
        Ok(out)
    }
}

/// Glues a prefix of kept nodes onto the outcome of filtering the rest.
pub open spec fn prepend_selected(prefix: Seq<int>, rest: Option<Result<Seq<int>, ErrorV>>) -> Option<
    Result<Seq<int>, ErrorV>,
> {
    match rest {
        None => None,
        Some(Err(e)) => Some(Err(e)),
        Some(Ok(s)) => Some(Ok(prefix + s)),
    }
}

impl<A, N> Filter<A, N> {
    pub fn new(node_selector: SubExpression<A, N>, predicate: SubExpression<A, N>) -> (r: Expr<
        A,
        N,
    >)
        ensures
            r == Expr::Filter(
                Filter {
                    node_selector: node_selector,
                    predicate: Predicate { expression: predicate },
                },
            ),
    {
        Expr::Filter(Filter { node_selector, predicate: Predicate { expression: predicate } })
    }

    /// Evaluates the child to a nodeset, projects it to document order,
    /// and filters it through the predicate.
    pub fn evaluate<F: crate::function::Function>(&self, context: &Evaluation<F>) -> (r: Result<
        Value,
        Error,
    >) where A: AxisLike<N, F>
        ensures
            match spec_filter(*self, context@) {
                Some(res) => view_result(r) == res,
                None => true,
            },
        decreases *self, 1nat, 0nat,
    {
        let v = match self.node_selector.evaluate(context) {
            Ok(v) => v,
            Err(e) => {
                return Err(e);
            },
        };
        let ordered = match value_into_ordered_nodes(v) {
            Ok(on) => on,
            Err(e) => {
                return Err(e);
            },
        };
        let selected = match self.predicate.select(context, ordered) {
            Ok(s) => s,
            Err(e) => {
                return Err(e);
            },
        };
        Ok(Value::Nodeset(selected.into_nodeset()))
    }
}

impl<A, N> Path<A, N> {
    pub fn new(start_point: SubExpression<A, N>, steps: Vec<ParameterizedStep<A, N>>) -> (r: Expr<
        A,
        N,
    >)
        ensures
            r == Expr::Path(Path { start_point: start_point, steps: steps }),
    {
        Expr::Path(Path { start_point, steps })
    }

    /// Evaluates the start-point to a nodeset and threads it through each
    /// step in order.
    pub fn evaluate<F: crate::function::Function>(&self, context: &Evaluation<F>) -> (r: Result<
        Value,
        Error,
    >) where A: AxisLike<N, F>
        ensures
            match spec_path(*self, context@) {
                Some(res) => view_result(r) == res,
                None => true,
            },
        decreases *self, 1nat, 0nat,
    {
        let v = match self.start_point.evaluate(context) {
            Ok(v) => v,
            Err(e) => {
                return Err(e);
            },
        };
        let mut result = match value_into_nodeset(v) {
            Ok(ns) => ns,
            Err(e) => {
                return Err(e);
            },
        };
        let k = self.steps.len();
        if k > 0 {
            proof {
                assert(spec_path(*self, context@) is None);
            }
        }
        for i in 0..k
            invariant
                k == self.steps@.len(),
                k > 0 ==> spec_path(*self, context@) is None,
                k == 0 ==> (match spec_path(*self, context@) {
                    Some(res) => res == Ok::<ValueV, ErrorV>(ValueV::Nodeset(result@)),
                    None => true,
                }),
        {
            result = match self.steps[i].evaluate(context, result) {
                Ok(ns) => ns,
                Err(e) => {
                    return Err(e);
                },
            };
        }
        Ok(Value::Nodeset(result))
    }
}

impl<A, N> ParameterizedStep<A, N> {
    /// A step from its parts; the predicate expressions keep their order.
    pub fn new(axis: A, node_test: N, predicates: Vec<Expr<A, N>>) -> (r: ParameterizedStep<A, N>)
        ensures
            r.axis == axis,
            r.node_test == node_test,
            r.predicates@.len() == predicates@.len(),
            forall|i: int|
                0 <= i < predicates@.len() ==> *(#[trigger] r.predicates@[i]).expression
                    == predicates@[i],
    {
        let mut rest = predicates;
        let mut preds: Vec<Predicate<A, N>> = Vec::new();
        let ghost all = rest@;
        while rest.len() > 0
            invariant
                preds@.len() + rest@.len() == all.len(),
                rest@ =~= all.subrange(preds@.len() as int, all.len() as int),
                forall|i: int|
                    0 <= i < preds@.len() ==> *(#[trigger] preds@[i]).expression == all[i],
            decreases rest@.len(),
        {
            let p = rest.remove(0);
            preds.push(Predicate { expression: Box::new(p) });
        }
        ParameterizedStep { axis, node_test, predicates: preds }
    }

    /// Applies the axis from every starting node, then the predicates in
    /// order. Only a predicate can fail, so a step without predicates
    /// cannot.
    pub fn evaluate<F: crate::function::Function>(
        &self,
        context: &Evaluation<F>,
        starting_nodes: Nodeset,
    ) -> (r: Result<Nodeset, Error>) where A: AxisLike<N, F>
        ensures
            self.predicates@.len() == 0 ==> r is Ok,
        decreases *self, 2nat, 0nat,
    {
        self.apply_predicates(context, self.apply_axis(context, starting_nodes))
    }

    /// For every starting node, in arbitrary order, lets the axis append
    /// its matching nodes to one shared sequence.
    fn apply_axis<F: crate::function::Function>(
        &self,
        context: &Evaluation<F>,
        starting_nodes: Nodeset,
    ) -> OrderedNodes where A: AxisLike<N, F> {
        let mut result = OrderedNodes::new();
        let n = starting_nodes.nodes.len();
        for i in 0..n
            invariant
                n == starting_nodes.nodes@.len(),
        {
            let node = starting_nodes.nodes[i];
            let child_context = context.new_context_for(node);
            self.axis.select_nodes(&child_context, &self.node_test, &mut result);
        }
        result
    }

    /// Chains the predicates in declaration order; each sees fresh
    /// positions over the current sequence. Where every per-node
    /// evaluation is determined, the result is exactly the chain of
    /// `spec_select`s.
    fn apply_predicates<F: crate::function::Function>(
        &self,
        context: &Evaluation<F>,
        nodes: OrderedNodes,
    ) -> (r: Result<Nodeset, Error>) where A: AxisLike<N, F>
        ensures
            self.predicates@.len() == 0 ==> r is Ok,
            match spec_apply_predicates(self.predicates@, nodes@, context@) {
                Some(Ok(kept)) => r matches Ok(ns) && ns@ == kept.to_set(),
                Some(Err(e)) => r matches Err(e2) && e2@ == e,
                None => true,
            },
        decreases *self, 1nat, 0nat,
    {
        let ghost whole = spec_apply_predicates(self.predicates@, nodes@, context@);
        let mut current = nodes;
        let k = self.predicates.len();
        proof {
            assert(self.predicates@.subrange(0, k as int) =~= self.predicates@);
        }
        for i in 0..k
            invariant
                k == self.predicates@.len(),
                whole == spec_apply_predicates(self.predicates@, nodes@, context@),
                whole is Some ==> whole == spec_apply_predicates(
                    self.predicates@.subrange(i as int, k as int),
                    current@,
                    context@,
                ),
        {
            let ghost suffix = self.predicates@.subrange(i as int, k as int);
            let ghost cur = current@;
            proof {
                assert(suffix[0] == self.predicates@[i as int]);
                assert(suffix.subrange(1, suffix.len() as int) =~= self.predicates@.subrange(
                    i + 1,
                    k as int,
                ));
            }
            current = match self.predicates[i].select(context, current) {
                Ok(o) => o,
                Err(e) => {
                    proof {
                        if whole is Some {
                            match spec_select(
                                *self.predicates@[i as int].expression,
                                cur,
                                context@,
                                1,
                                cur.len(),
                            ) {
                                None => {
                                    assert(spec_apply_predicates(suffix, cur, context@) is None);
                                },
                                Some(Ok(_)) => {
                                    assert(false);
                                },
                                Some(Err(ev)) => {
                                    assert(e@ == ev);
                                },
                            }
                        }
                    }
                    return Err(e);
                },
            };
        }
        proof {
            assert(self.predicates@.subrange(k as int, k as int) =~= Seq::<
                Predicate<A, N>,
            >::empty());
        }
        Ok(current.into_nodeset())
    }
}

impl<A, N> And<A, N> {
    pub fn new(left: SubExpression<A, N>, right: SubExpression<A, N>) -> (r: Expr<A, N>)
        ensures
            r == Expr::And(And { left: left, right: right }),
    {
        Expr::And(And { left, right })
    }
}

impl<A, N> Or<A, N> {
    pub fn new(left: SubExpression<A, N>, right: SubExpression<A, N>) -> (r: Expr<A, N>)
        ensures
            r == Expr::Or(Or { left: left, right: right }),
    {
        Expr::Or(Or { left, right })
    }
}

impl<A, N> Equal<A, N> {
    pub fn new(left: SubExpression<A, N>, right: SubExpression<A, N>) -> (r: Expr<A, N>)
        ensures
            r == Expr::Equal(Equal { left: left, right: right }),
    {
        Expr::Equal(Equal { left, right })
    }
}

impl<A, N> Union<A, N> {
    pub fn new(left: SubExpression<A, N>, right: SubExpression<A, N>) -> (r: Expr<A, N>)
        ensures
            r == Expr::Union(Union { left: left, right: right }),
    {
        Expr::Union(Union { left, right })
    }
}

/// Within one predicate application, the node at offset `k` of the input
/// is evaluated under a context holding exactly that node, position
/// `pos + k`, and the fixed `size`: started at position one over a
/// sequence of length `size`, positions range exactly over 1..=size, with
/// no gaps and no repeats. Where the whole filtering succeeds, every
/// per-node evaluation is determined and succeeds.
pub proof fn lemma_predicate_positions<A, N>(
    pred: Expr<A, N>,
    nodes: Seq<int>,
    c: CtxV,
    pos: nat,
    size: nat,
    k: int,
)
    requires
        0 <= k < nodes.len(),
        spec_select(pred, nodes, c, pos, size) matches Some(Ok(_)),
    ensures
        seval(
            pred,
            CtxV { node: nodes[k], position: (pos + k) as nat, size: size, ..c },
        ) matches Some(Ok(_)),
    decreases nodes.len(),
{
    if k > 0 {
        let rest = nodes.subrange(1, nodes.len() as int);
        lemma_predicate_positions(pred, rest, c, pos + 1, size, k - 1);
        assert(rest[k - 1] == nodes[k]);
    }
}

/// How `Predicate::select` instantiates the walk: position one, size the
/// input length. Where the whole filtering succeeds, the node at offset
/// `k` was examined under a context holding exactly that node, position
/// `k + 1`, and size the input length — whatever the outer context's own
/// node, position and size were. One examination per element, so the
/// positions cover exactly 1..=len with no gaps and no repeats.
pub proof fn lemma_select_positions<A, N>(pred: Expr<A, N>, nodes: Seq<int>, c: CtxV, k: int)
    requires
        0 <= k < nodes.len(),
        spec_select(pred, nodes, c, 1, nodes.len() as nat) matches Some(Ok(_)),
    ensures
        seval(
            pred,
            CtxV {
                node: nodes[k],
                position: (k + 1) as nat,
                size: nodes.len() as nat,
                ..c
            },
        ) matches Some(Ok(_)),
{
    lemma_predicate_positions(pred, nodes, c, 1, nodes.len() as nat, k);
}

/// Short-circuit: a conjunction whose left operand comes out false yields
/// false, whatever stands on the right — including an expression that
/// would fail; the right operand is never consulted.
pub proof fn lemma_and_short_circuit<A, N>(a: And<A, N>, c: CtxV, lv: ValueV)
    requires
        seval(*a.left, c) == Some(Ok::<ValueV, ErrorV>(lv)),
        !spec_boolean(lv),
    ensures
        seval(Expr::And(a), c) == Some(Ok::<ValueV, ErrorV>(ValueV::Bool(false))),
{
}

/// Short-circuit: a disjunction whose left operand comes out true yields
/// true, whatever stands on the right; the right operand is never
/// consulted.
pub proof fn lemma_or_short_circuit<A, N>(o: Or<A, N>, c: CtxV, lv: ValueV)
    requires
        seval(*o.left, c) == Some(Ok::<ValueV, ErrorV>(lv)),
        spec_boolean(lv),
    ensures
        seval(Expr::Or(o), c) == Some(Ok::<ValueV, ErrorV>(ValueV::Bool(true))),
{
}

/// Inequality is the negation of equality: on operands for which the
/// comparison succeeds, `NotEqual` yields exactly the negated boolean of
/// `Equal` on the same operands.
pub proof fn lemma_not_equal_negates<A, N>(ne: NotEqual<A, N>, c: CtxV, b: bool)
    requires
        spec_equal_bool(ne.equal, c) == Some(Ok::<bool, ErrorV>(b)),
    ensures
        seval(Expr::NotEqual(ne), c) == Some(Ok::<ValueV, ErrorV>(ValueV::Bool(!b))),
        seval(Expr::Equal(ne.equal), c) == Some(Ok::<ValueV, ErrorV>(ValueV::Bool(b))),
{
}

/// A path with no steps is its start-point: when the start comes out a
/// nodeset, the path yields exactly that nodeset.
pub proof fn lemma_empty_path_identity<A, N>(p: Path<A, N>, c: CtxV, s: Set<int>)
    requires
        p.steps@.len() == 0,
        seval(*p.start_point, c) == Some(Ok::<ValueV, ErrorV>(ValueV::Nodeset(s))),
    ensures
        seval(Expr::Path(p), c) == Some(Ok::<ValueV, ErrorV>(ValueV::Nodeset(s))),
{
}

/// Union is commutative at the value level: two unions with the operands
/// swapped yield the same set.
pub proof fn lemma_union_commutes<A, N>(u: Union<A, N>, w: Union<A, N>, c: CtxV, ls: Set<int>, rs: Set<int>)
    requires
        *u.left == *w.right,
        *u.right == *w.left,
        seval(*u.left, c) == Some(Ok::<ValueV, ErrorV>(ValueV::Nodeset(ls))),
        seval(*u.right, c) == Some(Ok::<ValueV, ErrorV>(ValueV::Nodeset(rs))),
    ensures
        seval(Expr::Union(u), c) == Some(Ok::<ValueV, ErrorV>(ValueV::Nodeset(ls.union(rs)))),
        seval(Expr::Union(w), c) == Some(Ok::<ValueV, ErrorV>(ValueV::Nodeset(ls.union(rs)))),
{
    assert(ls.union(rs) =~= rs.union(ls));
}



} // verus!
