use vstd::prelude::*;
use crate::number::{Number, Operator};

verus! {

/// A number that was computed once and can be read any number of times.
#[derive(Debug, Clone, Copy)]
pub struct ValueImpl {
    value: Number,
}

impl View for ValueImpl {
    type V = Number;

    closed spec fn view(&self) -> Number {
        self.value
    }
}

impl ValueImpl {
    /// Wraps `value`.
    pub fn new(value: Number) -> (v: ValueImpl)
        ensures
            v@ == value,
    {
        ValueImpl { value }
    }

    /// The number that the value was made with.
    pub fn read(&self) -> (value: Number)
        ensures
            value == self@,
    {
        self.value
    }
}

/// Something that can be read for a number.
#[derive(Debug, Clone, Copy)]
pub enum Value {
    /// A value that is held here.
    Held(ValueImpl),
    /// A value that lives outside; the number names it to whoever answers
    /// the questions of the evaluation.
    Remote(u64),
}

/// What a [`Value`] is, as a mathematical value.
pub enum ValueView {
    Held(Number),
    Remote(u64),
}

impl View for Value {
    type V = ValueView;

    open spec fn view(&self) -> ValueView {
        match *self {
            Value::Held(v) => ValueView::Held(v@),
            Value::Remote(id) => ValueView::Remote(id),
        }
    }
}

/// A built-in operator as a function of two parameters.
#[derive(Debug, Clone, Copy)]
pub struct OperatorImpl {
    pub op: Operator,
}

/// A function defined by an expression over its parameters.
#[derive(Debug)]
pub struct FunctionImpl {
    pub param_count: u32,
    pub body: Box<Expression>,
}

/// Something that can be called with a list of numbers.
#[derive(Debug)]
pub enum Function {
    /// One of the built-in operators.
    Operator(OperatorImpl),
    /// A function defined by an expression.
    UserDefined(FunctionImpl),
    /// A function that lives outside; the number names it to whoever answers
    /// the questions of the evaluation.
    Callback(u64),
}

/// A call node: a function and the expressions of its arguments, in order.
#[derive(Debug)]
pub struct Call {
    pub function: Function,
    pub params: Vec<Expression>,
}

/// An expression tree.
#[derive(Debug)]
pub enum Expression {
    /// A number.
    Literal(Number),
    /// The result of an earlier evaluation.
    PreviousResult(Value),
    /// The parameter at the given position of the list in scope.
    Parameter(u32),
    /// A call of a function on the values of the argument expressions.
    Call(Call),
    /// A node of a kind that this library does not know, with its tag.
    Unrecognized(u16),
}

/// What a [`Function`] is, as a mathematical value.
pub enum FunctionView {
    Operator(Operator),
    UserDefined { param_count: u32, body: Box<ExpressionView> },
    Callback(u64),
}

/// What a [`Call`] is, as a mathematical value.
pub struct CallView {
    pub function: FunctionView,
    pub params: Seq<ExpressionView>,
}

/// What an [`Expression`] is, as a mathematical value.
pub enum ExpressionView {
    Literal(Number),
    PreviousResult(ValueView),
    Parameter(u32),
    Call(CallView),
    Unrecognized(u16),
}

pub open spec fn expression_view(e: Expression) -> ExpressionView
    decreases e,
{
    match e {
        Expression::Literal(v) => ExpressionView::Literal(v),
        Expression::PreviousResult(v) => ExpressionView::PreviousResult(v@),
        Expression::Parameter(i) => ExpressionView::Parameter(i),
        Expression::Call(c) => ExpressionView::Call(call_view(c)),
        Expression::Unrecognized(t) => ExpressionView::Unrecognized(t),
    }
}

pub open spec fn call_view(c: Call) -> CallView
    decreases c,
{
    CallView {
        function: function_view(c.function),
        params: Seq::new(
            c.params@.len(),
            |i: int|
                if 0 <= i < c.params@.len() {
                    expression_view(c.params@[i])
                } else {
                    ExpressionView::Unrecognized(0)
                },
        ),
    }
}

pub open spec fn function_view(f: Function) -> FunctionView
    decreases f,
{
    match f {
        Function::Operator(o) => FunctionView::Operator(o.op),
        Function::UserDefined(d) => FunctionView::UserDefined {
            param_count: d.param_count,
            body: Box::new(expression_view(*d.body)),
        },
        Function::Callback(id) => FunctionView::Callback(id),
    }
}

impl View for OperatorImpl {
    type V = FunctionView;

    open spec fn view(&self) -> FunctionView {
        FunctionView::Operator(self.op)
    }
}

impl View for FunctionImpl {
    type V = FunctionView;

    open spec fn view(&self) -> FunctionView {
        FunctionView::UserDefined {
            param_count: self.param_count,
            body: Box::new(expression_view(*self.body)),
        }
    }
}

impl Expression {
    /// A copy of the whole tree, which shares nothing with the tree it was
    /// made from.
    pub fn duplicate(&self) -> (copy: Expression)
        ensures
            copy@ == self@,
        decreases self,
    {
        match self {
            Expression::Literal(v) => Expression::Literal(*v),
            Expression::PreviousResult(v) => Expression::PreviousResult(*v),
            Expression::Parameter(index) => Expression::Parameter(*index),
            Expression::Call(c) => Expression::Call(c.duplicate()),
            Expression::Unrecognized(tag) => Expression::Unrecognized(*tag),
        }
    }
}

impl Call {
    /// A copy of the call with copies of its function and of its arguments.
    pub fn duplicate(&self) -> (copy: Call)
        ensures
            copy@ == self@,
        decreases self,
    {
        let function = self.function.duplicate();
        let mut params: Vec<Expression> = Vec::new();
        let mut i: usize = 0;
        while i < self.params.len()
            invariant
                i <= self.params.len(),
                params@.len() == i,
                forall|j: int| 0 <= j < i ==> (#[trigger] params@[j])@ == self.params@[j]@,
            decreases self.params.len() - i,
        {
            params.push(self.params[i].duplicate());
            i += 1;
        }
        let copy = Call { function, params };
        assert(copy@.params =~= self@.params);
        copy
    }
}

impl Function {
    /// A copy of the function; of a defined function, with a copy of its body.
    pub fn duplicate(&self) -> (copy: Function)
        ensures
            copy@ == self@,
        decreases self,
    {
        match self {
            Function::Operator(o) => Function::Operator(*o),
            Function::UserDefined(d) => Function::UserDefined(
                FunctionImpl { param_count: d.param_count, body: Box::new(d.body.duplicate()) },
            ),
            Function::Callback(id) => Function::Callback(*id),
        }
    }
}

impl FunctionImpl {
    /// The function of `param_count` parameters whose value is that of `body`.
    /// It holds a copy of `body` of its own.
    pub fn new(param_count: u32, body: &Expression) -> (f: FunctionImpl)
        ensures
            f@ == (FunctionView::UserDefined { param_count, body: Box::new(body@) }),
    {
        FunctionImpl { param_count, body: Box::new(body.duplicate()) }
    }
}

impl View for Expression {
    type V = ExpressionView;

    open spec fn view(&self) -> ExpressionView {
        expression_view(*self)
    }
}

impl View for Call {
    type V = CallView;

    open spec fn view(&self) -> CallView {
        call_view(*self)
    }
}

impl View for Function {
    type V = FunctionView;

    open spec fn view(&self) -> FunctionView {
        function_view(*self)
    }
}

} // verus!
