use calculator::client::PowerFunction;
use calculator::error::EvalError;
use calculator::evaluator::{evaluate_impl, Ask, Evaluation, Request, Step};
use calculator::expression::{Call, Expression, Function, Value, ValueImpl};
use calculator::number::{Number, Operator};
use calculator::service::CalculatorImpl;

const POWER: u64 = 1;
const BROKEN: u64 = 2;

/// The values that live outside: the number of one is its position here.
const REMOTE: [f64; 3] = [24.0, -0.5, 1e300];

fn num(x: f64) -> Number {
    Number::from_bits(x.to_bits())
}

fn val(n: Number) -> f64 {
    f64::from_bits(n.to_bits())
}

fn arithmetic(op: Operator, left: Number, right: Number) -> Number {
    let (a, b) = (val(left), val(right));
    num(match op {
        Operator::Add => a + b,
        Operator::Subtract => a - b,
        Operator::Multiply => a * b,
        Operator::Divide => a / b,
    })
}

fn callback(id: u64, params: &Vec<Number>) -> Result<Number, capnp::Error> {
    match id {
        POWER => match PowerFunction.call(params) {
            Ok(power) => Ok(num(val(power.base).powf(val(power.exponent)))),
            Err(_) => Err(capnp::Error::failed("Wrong number of parameters".to_string())),
        },
        BROKEN => Err(capnp::Error::disconnected("the peer went away".to_string())),
        _ => Err(capnp::Error::unimplemented("no such callback".to_string())),
    }
}

fn answer(ask: &Ask) -> Result<Number, capnp::Error> {
    match ask {
        Ask::Compute { op, left, right } => Ok(arithmetic(*op, *left, *right)),
        Ask::Invoke { callback: id, params } => callback(*id, params),
        Ask::Read { value } => match REMOTE.get(*value as usize) {
            Some(x) => Ok(num(*x)),
            None => Err(capnp::Error::disconnected("the value is gone".to_string())),
        },
    }
}

/// Answers every question, the oldest first or the newest first, until the
/// evaluation is finished.
fn drive_in_order(
    mut evaluation: Evaluation,
    mut step: Step,
    newest_first: bool,
) -> Result<Number, EvalError> {
    let mut waiting: Vec<Request> = Vec::new();
    loop {
        match step {
            Step::Finished(outcome) => {
                assert!(evaluation.is_finished());
                return outcome;
            },
            Step::Waiting(requests) => waiting.extend(requests),
        }
        assert!(!evaluation.is_finished());
        assert!(!waiting.is_empty(), "the evaluation waits and nothing is asked");
        let request = if newest_first { waiting.pop().unwrap() } else { waiting.remove(0) };
        step = evaluation.resume(&request.path, answer(&request.ask));
    }
}

fn drive(evaluation: Evaluation, step: Step) -> Result<Number, EvalError> {
    drive_in_order(evaluation, step, false)
}

fn evaluate(expression: &Expression) -> Result<ValueImpl, EvalError> {
    let calculator = CalculatorImpl;
    let (evaluation, step) = calculator.evaluate(expression);
    calculator.value(drive(evaluation, step))
}

fn read(expression: &Expression) -> f64 {
    val(evaluate(expression).expect("the evaluation fails").read())
}

fn call_function(function: &Function, params: &[f64]) -> Result<Number, EvalError> {
    let (evaluation, step) = function.call(params.iter().map(|x| num(*x)).collect());
    drive(evaluation, step)
}

fn literal(x: f64) -> Expression {
    Expression::Literal(num(x))
}

fn call(function: Function, params: Vec<Expression>) -> Expression {
    Expression::Call(Call { function, params })
}

fn operator(op: Operator) -> Function {
    CalculatorImpl.get_operator(op)
}

/// f(x, y) = x * 100 + y
fn define_f() -> Function {
    let body = call(
        operator(Operator::Add),
        vec![
            call(operator(Operator::Multiply), vec![Expression::Parameter(0), literal(100.0)]),
            Expression::Parameter(1),
        ],
    );
    CalculatorImpl.def_function(2, &body)
}

/// g(x) = f(x, x + 1) * 2
fn define_g() -> Function {
    let body = call(
        operator(Operator::Multiply),
        vec![
            call(
                define_f(),
                vec![
                    Expression::Parameter(0),
                    call(operator(Operator::Add), vec![Expression::Parameter(0), literal(1.0)]),
                ],
            ),
            literal(2.0),
        ],
    );
    CalculatorImpl.def_function(1, &body)
}

#[test]
fn literal_reads_back() {
    assert_eq!(read(&literal(123.0)), 123.0);
}

#[test]
fn literal_keeps_every_bit() {
    for bits in [0u64, 1, 0x8000_0000_0000_0000, 0x7ff8_0000_0000_0001, 0xfff0_0000_0000_0000, u64::MAX] {
        let value = evaluate(&Expression::Literal(Number::from_bits(bits))).unwrap();
        assert_eq!(value.read().to_bits(), bits);
    }
}

#[test]
fn number_round_trip() {
    let n = Number::from_bits(0x4005_bf0a_8b14_5769);
    assert_eq!(n.to_bits(), 0x4005_bf0a_8b14_5769);
    assert_eq!(n, Number { bits: 0x4005_bf0a_8b14_5769 });
}

#[test]
fn read_is_repeatable() {
    let value = ValueImpl::new(num(24.0));
    let first = value.read();
    let second = value.read();
    let third = value.read();
    assert_eq!(first, num(24.0));
    assert_eq!(first, second);
    assert_eq!(second, third);
}

#[test]
fn operators_compute() {
    let cases = [
        (Operator::Add, 7.5, 2.5, 10.0),
        (Operator::Subtract, 7.5, 2.5, 5.0),
        (Operator::Multiply, 7.5, 2.5, 18.75),
        (Operator::Divide, 7.5, 2.5, 3.0),
    ];
    for (op, a, b, expected) in cases {
        let result = call_function(&operator(op), &[a, b]).unwrap();
        assert_eq!(val(result), expected);
    }
}

#[test]
fn operands_keep_their_sides() {
    assert_eq!(val(call_function(&operator(Operator::Subtract), &[5.0, 3.0]).unwrap()), 2.0);
    assert_eq!(val(call_function(&operator(Operator::Divide), &[1.0, 4.0]).unwrap()), 0.25);
}

#[test]
fn division_by_zero_is_no_failure() {
    let divide = operator(Operator::Divide);
    assert_eq!(val(call_function(&divide, &[1.0, 0.0]).unwrap()), f64::INFINITY);
    assert_eq!(val(call_function(&divide, &[-1.0, 0.0]).unwrap()), f64::NEG_INFINITY);
    assert!(val(call_function(&divide, &[0.0, 0.0]).unwrap()).is_nan());
}

#[test]
fn nested_calls() {
    // (123 + 45) - 67
    let expression = call(
        operator(Operator::Subtract),
        vec![call(operator(Operator::Add), vec![literal(123.0), literal(45.0)]), literal(67.0)],
    );
    assert_eq!(read(&expression), 101.0);
}

#[test]
fn previous_results_feed_later_evaluations() {
    // 4 * 6, then + 3 and + 5 on the value that came out
    let product = call(operator(Operator::Multiply), vec![literal(4.0), literal(6.0)]);
    let multiply_result = evaluate(&product).unwrap();
    let add3 = call(
        operator(Operator::Add),
        vec![Expression::PreviousResult(Value::Held(multiply_result)), literal(3.0)],
    );
    let add5 = call(
        operator(Operator::Add),
        vec![Expression::PreviousResult(Value::Held(multiply_result)), literal(5.0)],
    );
    assert_eq!(read(&add5), 29.0);
    assert_eq!(read(&add3), 27.0);
    assert_eq!(val(multiply_result.read()), 24.0);
}

#[test]
fn defined_functions_compose() {
    let f = define_f();
    let g = define_g();
    assert_eq!(val(call_function(&f, &[12.0, 34.0]).unwrap()), 1234.0);
    assert_eq!(val(call_function(&g, &[21.0]).unwrap()), 4244.0);
    assert_eq!(read(&call(define_f(), vec![literal(12.0), literal(34.0)])), 1234.0);
    assert_eq!(read(&call(define_g(), vec![literal(21.0)])), 4244.0);
}

#[test]
fn defined_function_through_its_own_type() {
    let f = define_f();
    match &f {
        Function::UserDefined(definition) => {
            let (evaluation, step) = definition.call(vec![num(1.0), num(2.0)]);
            assert_eq!(val(drive(evaluation, step).unwrap()), 102.0);
        },
        other => panic!("not a defined function: {:?}", other),
    }
}

#[test]
fn parameters_belong_to_the_innermost_function() {
    // inner(y) = y * 2; outer(x) = x + inner(x + 10): inside `inner`, position 0 is y.
    let inner = CalculatorImpl.def_function(
        1,
        &call(operator(Operator::Multiply), vec![Expression::Parameter(0), literal(2.0)]),
    );
    let outer = CalculatorImpl.def_function(
        1,
        &call(
            operator(Operator::Add),
            vec![
                Expression::Parameter(0),
                call(
                    inner,
                    vec![call(operator(Operator::Add), vec![Expression::Parameter(0), literal(10.0)])],
                ),
            ],
        ),
    );
    assert_eq!(val(call_function(&outer, &[1.0]).unwrap()), 23.0);
}

#[test]
fn order_of_answers_does_not_matter() {
    // ((1 + 2) * (3 + 4)) - pow(2, 5 - 2)
    let build = || {
        call(
            operator(Operator::Subtract),
            vec![
                call(
                    operator(Operator::Multiply),
                    vec![
                        call(operator(Operator::Add), vec![literal(1.0), literal(2.0)]),
                        call(operator(Operator::Add), vec![literal(3.0), literal(4.0)]),
                    ],
                ),
                call(
                    Function::Callback(POWER),
                    vec![
                        literal(2.0),
                        call(operator(Operator::Subtract), vec![literal(5.0), literal(2.0)]),
                    ],
                ),
            ],
        )
    };
    for newest_first in [false, true] {
        let expression = build();
        let (evaluation, step) = CalculatorImpl.evaluate(&expression);
        assert_eq!(val(drive_in_order(evaluation, step, newest_first).unwrap()), 13.0);
        let g = define_g();
        let (evaluation, step) = g.call(vec![num(21.0)]);
        assert_eq!(val(drive_in_order(evaluation, step, newest_first).unwrap()), 4244.0);
    }
}

#[test]
fn operator_arity_is_checked() {
    for op in [Operator::Add, Operator::Subtract, Operator::Multiply, Operator::Divide] {
        for params in [vec![], vec![1.0], vec![1.0, 2.0, 3.0]] {
            match call_function(&operator(op), &params) {
                Err(EvalError::ArityMismatch { expected, actual }) => {
                    assert_eq!(expected, 2);
                    assert_eq!(actual, params.len());
                },
                other => panic!("expected an arity mismatch, got {:?}", other),
            }
        }
    }
}

#[test]
fn defined_function_arity_is_checked() {
    let f = define_f();
    for params in [vec![], vec![12.0], vec![12.0, 34.0, 56.0]] {
        match call_function(&f, &params) {
            Err(EvalError::ArityMismatch { expected, actual }) => {
                assert_eq!(expected, 2);
                assert_eq!(actual, params.len());
            },
            other => panic!("expected an arity mismatch, got {:?}", other),
        }
    }
    let three = call(define_f(), vec![literal(1.0), literal(2.0), literal(3.0)]);
    assert!(matches!(
        evaluate(&three),
        Err(EvalError::ArityMismatch { expected: 2, actual: 3 })
    ));
}

#[test]
fn bodies_are_not_checked_when_defined() {
    // The body names a parameter that a function of one parameter does not have.
    let f = CalculatorImpl.def_function(1, &Expression::Parameter(3));
    assert!(matches!(
        call_function(&f, &[1.0]),
        Err(EvalError::BadParameterIndex { index: 3 })
    ));
}

#[test]
fn parameter_without_a_list_fails() {
    assert!(matches!(
        evaluate(&Expression::Parameter(0)),
        Err(EvalError::BadParameterIndex { index: 0 })
    ));
}

#[test]
fn parameter_beyond_the_list_fails() {
    let (evaluation, step) = evaluate_impl(&Expression::Parameter(2), Some(vec![num(1.0), num(2.0)]));
    assert!(matches!(drive(evaluation, step), Err(EvalError::BadParameterIndex { index: 2 })));
    let (evaluation, step) = evaluate_impl(&Expression::Parameter(1), Some(vec![num(1.0), num(2.0)]));
    assert_eq!(val(drive(evaluation, step).unwrap()), 2.0);
}

#[test]
fn unknown_node_is_malformed() {
    assert!(matches!(
        evaluate(&Expression::Unrecognized(7)),
        Err(EvalError::MalformedExpression { tag: 7 })
    ));
    let inside = call(operator(Operator::Add), vec![literal(1.0), Expression::Unrecognized(9)]);
    assert!(matches!(evaluate(&inside), Err(EvalError::MalformedExpression { tag: 9 })));
}

#[test]
fn callback_takes_part_in_an_expression() {
    // pow(2, 4 + 5)
    let expression = call(
        Function::Callback(POWER),
        vec![literal(2.0), call(operator(Operator::Add), vec![literal(4.0), literal(5.0)])],
    );
    assert_eq!(read(&expression), 512.0);
    // pow(2, 3) + 1
    let further = call(
        operator(Operator::Add),
        vec![call(Function::Callback(POWER), vec![literal(2.0), literal(3.0)]), literal(1.0)],
    );
    assert_eq!(read(&further), 9.0);
}

#[test]
fn power_function_checks_its_arity() {
    let power = PowerFunction.call(&vec![num(2.0), num(10.0)]).unwrap();
    assert_eq!(val(power.base), 2.0);
    assert_eq!(val(power.exponent), 10.0);
    for params in [vec![], vec![num(2.0)], vec![num(2.0), num(3.0), num(4.0)]] {
        match PowerFunction.call(&params) {
            Err(EvalError::ArityMismatch { expected, actual }) => {
                assert_eq!(expected, 2);
                assert_eq!(actual, params.len());
            },
            other => panic!("expected an arity mismatch, got {:?}", other),
        }
    }
}

#[test]
fn callback_failure_passes_through_unchanged() {
    let expression = call(
        operator(Operator::Add),
        vec![literal(1.0), call(Function::Callback(BROKEN), vec![literal(2.0)])],
    );
    match evaluate(&expression) {
        Err(EvalError::SubstrateFailure(error)) => {
            assert_eq!(error.kind, capnp::ErrorKind::Disconnected);
            assert_eq!(error.extra, "the peer went away");
        },
        other => panic!("expected the failure of the callback, got {:?}", other),
    }
}

#[test]
fn first_failure_wins() {
    // The arguments fail in three ways; the call fails as the leftmost does.
    let expression = call(
        operator(Operator::Add),
        vec![
            call(operator(Operator::Add), vec![literal(1.0)]),
            Expression::Parameter(4),
            Expression::Unrecognized(5),
        ],
    );
    assert!(matches!(
        evaluate(&expression),
        Err(EvalError::ArityMismatch { expected: 2, actual: 1 })
    ));
    let expression = call(
        operator(Operator::Add),
        vec![literal(1.0), Expression::Parameter(4), Expression::Unrecognized(5)],
    );
    assert!(matches!(evaluate(&expression), Err(EvalError::BadParameterIndex { index: 4 })));
}

#[test]
fn failure_yields_no_value() {
    let calculator = CalculatorImpl;
    assert!(matches!(
        calculator.value(Err(EvalError::MalformedExpression { tag: 1 })),
        Err(EvalError::MalformedExpression { tag: 1 })
    ));
    assert_eq!(calculator.value(Ok(num(3.0))).unwrap().read(), num(3.0));
}

#[test]
fn operators_can_be_fetched_again_and_again() {
    let calculator = CalculatorImpl;
    for _ in 0..3 {
        match calculator.get_operator(Operator::Multiply) {
            Function::Operator(operator) => assert_eq!(operator.op, Operator::Multiply),
            other => panic!("not an operator: {:?}", other),
        }
    }
}

#[test]
fn definition_holds_its_own_copy() {
    let mut body = call(operator(Operator::Add), vec![Expression::Parameter(0), literal(1.0)]);
    let f = CalculatorImpl.def_function(1, &body);
    if let Expression::Call(node) = &mut body {
        node.params[1] = literal(1000.0);
        node.function = operator(Operator::Multiply);
    }
    assert_eq!(val(call_function(&f, &[5.0]).unwrap()), 6.0);
    let (evaluation, step) = evaluate_impl(&body, Some(vec![num(5.0)]));
    assert_eq!(val(drive(evaluation, step).unwrap()), 5000.0);
}

#[test]
fn duplicate_is_the_same_tree() {
    let g = define_g();
    let expression = call(
        g,
        vec![call(Function::Callback(POWER), vec![Expression::PreviousResult(Value::Held(ValueImpl::new(num(2.0)))), Expression::PreviousResult(Value::Remote(7)), Expression::Unrecognized(3)])],
    );
    let copy = expression.duplicate();
    assert_eq!(format!("{:?}", copy), format!("{:?}", expression));
}

#[test]
fn every_answer_brings_the_end_nearer() {
    // g(x) = f(x, x + 1) * 2 with f(x, y) = x * 100 + y calls an operator four
    // times; the call of a callback on its result makes five questions.
    let expression = call(
        Function::Callback(POWER),
        vec![call(define_g(), vec![literal(21.0)]), literal(1.0)],
    );
    for newest_first in [false, true] {
        let (mut evaluation, mut step) = CalculatorImpl.evaluate(&expression);
        let mut waiting: Vec<Request> = Vec::new();
        let mut answers = 0;
        let outcome = loop {
            match step {
                Step::Finished(outcome) => break outcome,
                Step::Waiting(requests) => waiting.extend(requests),
            }
            let request = if newest_first { waiting.pop().unwrap() } else { waiting.remove(0) };
            step = evaluation.resume(&request.path, answer(&request.ask));
            answers += 1;
        };
        assert_eq!(val(outcome.unwrap()), 4244.0);
        assert_eq!(answers, 5);
        assert!(waiting.is_empty());
    }
}

#[test]
fn arguments_of_a_defined_function_do_not_wait_for_each_other() {
    // h(a, b) = a - b, called on two callbacks: both are asked at once.
    let h = CalculatorImpl.def_function(
        2,
        &call(
            operator(Operator::Subtract),
            vec![Expression::Parameter(0), Expression::Parameter(1)],
        ),
    );
    let expression = call(
        h,
        vec![
            call(Function::Callback(POWER), vec![literal(2.0), literal(3.0)]),
            call(Function::Callback(POWER), vec![literal(3.0), literal(2.0)]),
        ],
    );
    let (mut evaluation, step) = CalculatorImpl.evaluate(&expression);
    let requests = match step {
        Step::Waiting(requests) => requests,
        other => panic!("expected two questions, got {:?}", other),
    };
    assert_eq!(requests.len(), 2);
    assert_eq!(requests[0].path, vec![0]);
    assert_eq!(requests[1].path, vec![1]);
    // The second is answered first; the body starts once both are there.
    let step = evaluation.resume(&requests[1].path, answer(&requests[1].ask));
    assert!(matches!(&step, Step::Waiting(none) if none.is_empty()));
    let step = evaluation.resume(&requests[0].path, answer(&requests[0].ask));
    assert_eq!(val(drive(evaluation, step).unwrap()), -1.0);
}

#[test]
fn previous_results_that_live_outside_are_read() {
    // 4 * 6 lives outside as value 0: + 3 and + 5 on it, and on itself.
    let add3 = call(
        operator(Operator::Add),
        vec![Expression::PreviousResult(Value::Remote(0)), literal(3.0)],
    );
    let add5 = call(
        operator(Operator::Add),
        vec![Expression::PreviousResult(Value::Remote(0)), literal(5.0)],
    );
    let twice = call(
        operator(Operator::Add),
        vec![
            Expression::PreviousResult(Value::Remote(0)),
            Expression::PreviousResult(Value::Remote(0)),
        ],
    );
    for newest_first in [false, true] {
        for (expression, expected) in [(&add3, 27.0), (&add5, 29.0), (&twice, 48.0)] {
            let (evaluation, step) = CalculatorImpl.evaluate(expression);
            assert_eq!(val(drive_in_order(evaluation, step, newest_first).unwrap()), expected);
        }
    }
    assert_eq!(read(&Expression::PreviousResult(Value::Remote(2))), 1e300);
}

#[test]
fn failing_read_passes_through_unchanged() {
    let expression = call(
        operator(Operator::Multiply),
        vec![literal(2.0), Expression::PreviousResult(Value::Remote(99))],
    );
    match evaluate(&expression) {
        Err(EvalError::SubstrateFailure(error)) => {
            assert_eq!(error.kind, capnp::ErrorKind::Disconnected);
            assert_eq!(error.extra, "the value is gone");
        },
        other => panic!("expected the failure of the read, got {:?}", other),
    }
}
