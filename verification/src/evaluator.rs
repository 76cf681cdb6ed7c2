use vstd::prelude::*;
use crate::error::EvalError;
use crate::expression::{Call, Expression, Function, FunctionImpl, OperatorImpl, Value};
use crate::number::{Number, Operator};
use crate::semantics::{arity_mismatch, lift, parameter, Outcome};
use crate::task::{
    after, all_values, moved, resume, settle, start, start_apply, start_args, start_call,
    values_of, AskView, RequestView, Move, StepView, TaskView,
};

verus! {

/// What an evaluation asks of the outside.
#[derive(Debug)]
pub enum Ask {
    /// The result of `op` on `left` and `right`, in that order.
    Compute { op: Operator, left: Number, right: Number },
    /// The answer of the callback `callback` to `params`.
    Invoke { callback: u64, params: Vec<Number> },
    /// What the value `value` reads as.
    Read { value: u64 },
}

impl View for Ask {
    type V = AskView;

    open spec fn view(&self) -> AskView {
        match *self {
            Ask::Compute { op, left, right } => AskView::Compute { op, left, right },
            Ask::Invoke { callback, params } => AskView::Invoke { callback, params: params@ },
            Ask::Read { value } => AskView::Read { value },
        }
    }
}

/// A question to the outside. The answer goes back to the evaluation together
/// with `path`, which says where it is waited for.
#[derive(Debug)]
pub struct Request {
    pub path: Vec<usize>,
    pub ask: Ask,
}

/// A place in an evaluation as a mathematical value.
pub open spec fn path_view(path: Seq<usize>) -> Seq<nat> {
    path.map_values(|i: usize| i as nat)
}

impl View for Request {
    type V = RequestView;

    open spec fn view(&self) -> RequestView {
        RequestView { path: path_view(self.path@), ask: self.ask@ }
    }
}

/// A list of questions as a mathematical value.
pub open spec fn requests_view(requests: Seq<Request>) -> Seq<RequestView> {
    requests.map_values(|r: Request| r@)
}

/// What an evaluation says when it stops.
#[derive(Debug)]
pub enum Step {
    /// It waits for answers; these are the questions that it has newly raised.
    /// They may be answered in any order.
    Waiting(Vec<Request>),
    /// It is finished, with a number or with the reason why there is none.
    Finished(Result<Number, EvalError>),
}

impl View for Step {
    type V = StepView;

    open spec fn view(&self) -> StepView {
        match *self {
            Step::Waiting(requests) => StepView::Waiting(requests_view(requests@)),
            Step::Finished(r) => StepView::Finished(r),
        }
    }
}

/// A parameter list in scope, or none, as a mathematical value.
pub open spec fn params_view(params: Option<Vec<Number>>) -> Option<Seq<Number>> {
    match params {
        Some(list) => Some(list@),
        None => None,
    }
}

enum Task<'a> {
    Value(Number),
    Asked(Ghost<AskView>),
    Call { call: &'a Call, params: Option<Vec<Number>>, slots: Vec<Task<'a>> },
}

spec fn task_view<'a>(task: Task<'a>) -> TaskView
    decreases task,
{
    match task {
        Task::Value(v) => TaskView::Value(v),
        Task::Asked(ask) => TaskView::Asked(ask@),
        Task::Call { call, params, slots } => TaskView::Call {
            call: call@,
            params: params_view(params),
            slots: Seq::new(
                slots@.len(),
                |i: int|
                    if 0 <= i < slots@.len() {
                        task_view(slots@[i])
                    } else {
                        TaskView::Value(Number { bits: 0 })
                    },
            ),
        },
    }
}

spec fn slots_view<'a>(slots: Seq<Task<'a>>) -> Seq<TaskView> {
    Seq::new(slots.len(), |i: int| task_view(slots[i]))
}

proof fn lemma_call_view<'a>(call: &'a Call, params: Option<Vec<Number>>, slots: Vec<Task<'a>>)
    ensures
        task_view(Task::Call { call, params, slots }) == (TaskView::Call {
            call: call@,
            params: params_view(params),
            slots: slots_view(slots@),
        }),
{
    assert(task_view(Task::Call { call, params, slots })->slots =~= slots_view(slots@));
}

/// An evaluation under way: what of it waits for answers.
pub struct Evaluation<'a> {
    root: Option<Task<'a>>,
}

impl<'a> View for Evaluation<'a> {
    type V = Option<TaskView>;

    closed spec fn view(&self) -> Option<TaskView> {
        match self.root {
            Some(task) => Some(task_view(task)),
            None => None,
        }
    }
}

/// Whether the move `r`, which led the place and the questions from their
/// values before to their values after, is the move `s`.
spec fn is_move<'a>(
    r: Result<Task<'a>, EvalError>,
    path_before: Seq<usize>,
    path_after: Seq<usize>,
    out_before: Seq<Request>,
    out_after: Seq<Request>,
    s: Move,
) -> bool {
    match s.task {
        Ok(task) => {
            &&& r is Ok
            &&& task_view(r->Ok_0) == task
            &&& path_after == path_before
            &&& requests_view(out_after) == requests_view(out_before) + s.requests
        },
        Err(x) => r == Err::<Task<'a>, EvalError>(x),
    }
}

fn copy_numbers(list: &Vec<Number>) -> (copy: Vec<Number>)
    ensures
        copy@ == list@,
{
    let mut copy: Vec<Number> = Vec::new();
    let mut i: usize = 0;
    while i < list.len()
        invariant
            i <= list.len(),
            copy@ == list@.take(i as int),
        decreases list.len() - i,
    {
        copy.push(list[i]);
        i += 1;
    }
    copy
}

fn copy_params(params: &Option<Vec<Number>>) -> (copy: Option<Vec<Number>>)
    ensures
        params_view(copy) == params_view(*params),
{
    match params {
        Some(list) => Some(copy_numbers(list)),
        None => None,
    }
}

fn prefix_of(path: &Vec<usize>, n: usize) -> (prefix: Vec<usize>)
    requires
        n <= path.len(),
    ensures
        prefix@ == path@.take(n as int),
{
    let mut prefix: Vec<usize> = Vec::new();
    let mut i: usize = 0;
    while i < n
        invariant
            i <= n <= path.len(),
            prefix@ == path@.take(i as int),
        decreases n - i,
    {
        prefix.push(path[i]);
        i += 1;
    }
    prefix
}

fn lookup(params: &Option<Vec<Number>>, index: u32) -> (r: Outcome)
    ensures
        r == parameter(params_view(*params), index),
{
    match params {
        Some(list) => {
            if (index as usize) < list.len() {
                Ok(list[index as usize])
            } else {
                Err(EvalError::BadParameterIndex { index })
            }
        },
        None => Err(EvalError::BadParameterIndex { index }),
    }
}

fn raise<'a>(ask: Ask, path: &Vec<usize>, out: &mut Vec<Request>) -> (task: Task<'a>)
    ensures
        task_view(task) == TaskView::Asked(ask@),
        requests_view(final(out)@) == requests_view(old(out)@) + seq![
            RequestView { path: path_view(path@), ask: ask@ },
        ],
{
    let ghost view = ask@;
    let at = prefix_of(path, path.len());
    assert(at@ =~= path@);
    let request = Request { path: at, ask };
    out.push(request);
    Task::Asked(Ghost(view))
}

fn collect<'a>(slots: &Vec<Task<'a>>) -> (r: Option<Vec<Number>>)
    ensures
        match r {
            Some(values) => all_values(slots_view(slots@)) && values@ == values_of(
                slots_view(slots@),
            ),
            None => !all_values(slots_view(slots@)),
        },
{
    let mut values: Vec<Number> = Vec::new();
    let mut i: usize = 0;
    while i < slots.len()
        invariant
            i <= slots.len(),
            values@.len() == i,
            forall|j: int|
                0 <= j < i ==> (#[trigger] slots_view(slots@)[j]) == TaskView::Value(values@[j]),
        decreases slots.len() - i,
    {
        match &slots[i] {
            Task::Value(v) => {
                values.push(*v);
            },
            _ => {
                assert(!(slots_view(slots@)[i as int] is Value));
                return None;
            },
        }
        i += 1;
    }
    Some(values)
}

fn begin<'a>(
    e: &'a Expression,
    params: &Option<Vec<Number>>,
    path: &mut Vec<usize>,
    out: &mut Vec<Request>,
) -> (r: Result<Task<'a>, EvalError>)
    ensures
        is_move(
            r,
            old(path)@,
            final(path)@,
            old(out)@,
            final(out)@,
            start(e@, params_view(*params), path_view(old(path)@)),
        ),
    decreases e, 0nat,
{
    match e {
        Expression::Literal(v) => Ok(Task::Value(*v)),
        Expression::PreviousResult(Value::Held(v)) => Ok(Task::Value(v.read())),
        Expression::PreviousResult(Value::Remote(id)) => Ok(
            raise(Ask::Read { value: *id }, path, out),
        ),
        Expression::Parameter(index) => match lookup(params, *index) {
            Ok(v) => Ok(Task::Value(v)),
            Err(x) => Err(x),
        },
        Expression::Call(c) => begin_call(c, params, path, out),
        Expression::Unrecognized(tag) => Err(EvalError::MalformedExpression { tag: *tag }),
    }
}

#[verifier::loop_isolation(false)]
fn begin_call<'a>(
    c: &'a Call,
    params: &Option<Vec<Number>>,
    path: &mut Vec<usize>,
    out: &mut Vec<Request>,
) -> (r: Result<Task<'a>, EvalError>)
    ensures
        is_move(
            r,
            old(path)@,
            final(path)@,
            old(out)@,
            final(out)@,
            start_call(c@, params_view(*params), path_view(old(path)@)),
        ),
    decreases c, c.params@.len() + 1,
{
    let ghost scope = params_view(*params);
    let ghost place = path@;
    let ghost base = path_view(path@);
    let ghost before = requests_view(out@);
    let mut slots: Vec<Task<'a>> = Vec::new();
    let mut i: usize = 0;
    proof {
        assert(slots_view(slots@) =~= Seq::<TaskView>::empty());
    }
    while i < c.params.len()
        invariant
            i <= c.params.len(),
            path@ == place,
            start_args(c@, i as nat, scope, base).slots == Ok::<Seq<TaskView>, EvalError>(
                slots_view(slots@),
            ),
            requests_view(out@) == before + start_args(c@, i as nat, scope, base).requests,
        decreases c.params.len() - i,
    {
        let ghost so_far = slots_view(slots@);
        path.push(i);
        assert(path_view(path@) =~= base.push(i as nat));
        match begin(&c.params[i], params, path, out) {
            Ok(task) => {
                path.pop();
                slots.push(task);
                assert(slots_view(slots@) =~= so_far.push(task_view(task)));
            },
            Err(x) => {
                assert(start_args(c@, c@.params.len(), scope, base).slots == Err::<
                    Seq<TaskView>,
                    EvalError,
                >(x)) by {
                    lemma_args_failure(c@, (i + 1) as nat, c@.params.len(), scope, base);
                }
                return Err(x);
            },
        }
        i += 1;
    }
    let ghost args = start_args(c@, c@.params.len(), scope, base);
    match collect(&slots) {
        Some(values) => {
            let r = begin_apply(&c.function, values, path, out);
            proof {
                let s = start_apply(c@.function, values@, base);
                assert(before + args.requests + s.requests =~= before + (args.requests
                    + s.requests));
            }
            r
        },
        None => {
            let copy = copy_params(params);
            proof {
                lemma_call_view(c, copy, slots);
            }
            Ok(Task::Call { call: c, params: copy, slots })
        },
    }
}

proof fn lemma_args_failure(
    c: crate::expression::CallView,
    m: nat,
    n: nat,
    params: Option<Seq<Number>>,
    path: Seq<nat>,
)
    requires
        0 < m <= n <= c.params.len(),
        start_args(c, m, params, path).slots is Err,
    ensures
        start_args(c, n, params, path).slots == start_args(c, m, params, path).slots,
    decreases n - m,
{
    if m < n {
        lemma_args_failure(c, m, (n - 1) as nat, params, path);
    }
}

fn begin_apply<'a>(
    f: &'a Function,
    values: Vec<Number>,
    path: &mut Vec<usize>,
    out: &mut Vec<Request>,
) -> (r: Result<Task<'a>, EvalError>)
    ensures
        is_move(
            r,
            old(path)@,
            final(path)@,
            old(out)@,
            final(out)@,
            start_apply(f@, values@, path_view(old(path)@)),
        ),
    decreases f, 0nat,
{
    match f {
        Function::Operator(o) => match o.call(&values) {
            Ok(ask) => Ok(raise(ask, path, out)),
            Err(x) => Err(x),
        },
        Function::UserDefined(d) => d.begin(values, path, out),
        Function::Callback(id) => Ok(
            raise(Ask::Invoke { callback: *id, params: values }, path, out),
        ),
    }
}

impl OperatorImpl {
    /// The operator on `params`: with two of them, the question for its
    /// result on them, the first on the left; with any other number, the
    /// failure.
    pub fn call(&self, params: &Vec<Number>) -> (r: Result<Ask, EvalError>)
        ensures
            match r {
                Ok(ask) => params@.len() == 2 && ask@ == (AskView::Compute {
                    op: self.op,
                    left: params@[0],
                    right: params@[1],
                }),
                Err(x) => params@.len() != 2 && x == arity_mismatch(2, params@.len()),
            },
    {
        if params.len() != 2 {
            Err(EvalError::ArityMismatch { expected: 2, actual: params.len() })
        } else {
            Ok(Ask::Compute { op: self.op, left: params[0], right: params[1] })
        }
    }
}

impl FunctionImpl {
    fn begin<'a>(&'a self, values: Vec<Number>, path: &mut Vec<usize>, out: &mut Vec<Request>) -> (r:
        Result<Task<'a>, EvalError>)
        ensures
            is_move(
                r,
                old(path)@,
                final(path)@,
                old(out)@,
                final(out)@,
                start_apply(self@, values@, path_view(old(path)@)),
            ),
        decreases self, 0nat,
    {
        if values.len() != self.param_count as usize {
            Err(EvalError::ArityMismatch { expected: self.param_count, actual: values.len() })
        } else {
            let scope = Some(values);
            begin(&self.body, &scope, path, out)
        }
    }

    /// Calls the function on `params`: with as many of them as it takes, the
    /// evaluation of its body is started with them as the parameter list in
    /// scope; with any other number, the call fails.
    pub fn call<'a>(&'a self, params: Vec<Number>) -> (r: (Evaluation<'a>, Step))
        ensures
            (r.0@, r.1@) == moved(start_apply(self@, params@, Seq::empty())),
    {
        let mut path: Vec<usize> = Vec::new();
        let mut out: Vec<Request> = Vec::new();
        assert(path_view(path@) =~= Seq::<nat>::empty());
        let r = self.begin(params, &mut path, &mut out);
        conclude(r, out)
    }
}

impl Function {
    /// Calls the function on `params`, whichever kind it is of.
    pub fn call<'a>(&'a self, params: Vec<Number>) -> (r: (Evaluation<'a>, Step))
        ensures
            (r.0@, r.1@) == moved(start_apply(self@, params@, Seq::empty())),
    {
        let mut path: Vec<usize> = Vec::new();
        let mut out: Vec<Request> = Vec::new();
        assert(path_view(path@) =~= Seq::<nat>::empty());
        let r = begin_apply(self, params, &mut path, &mut out);
        conclude(r, out)
    }
}

fn conclude<'a>(r: Result<Task<'a>, EvalError>, out: Vec<Request>) -> (res: (Evaluation<'a>, Step))
    ensures
        match r {
            Ok(task) => (res.0@, res.1@) == moved(
                Move { task: Ok(task_view(task)), requests: requests_view(out@) },
            ),
            Err(x) => (res.0@, res.1@) == moved(crate::task::failed(x)),
        },
{
    match r {
        Err(x) => (Evaluation { root: None }, Step::Finished(Err(x))),
        Ok(Task::Value(v)) => (Evaluation { root: None }, Step::Finished(Ok(v))),
        Ok(task) => (Evaluation { root: Some(task) }, Step::Waiting(out)),
    }
}

fn resume_task<'a>(
    task: Task<'a>,
    path: &Vec<usize>,
    depth: usize,
    answer: Outcome,
    out: &mut Vec<Request>,
) -> (r: Result<Task<'a>, EvalError>)
    ensures
        match resume(task_view(task), path_view(path@), depth as nat, answer).task {
            Ok(next) => r is Ok && task_view(r->Ok_0) == next && requests_view(final(out)@)
                == requests_view(old(out)@) + resume(
                task_view(task),
                path_view(path@),
                depth as nat,
                answer,
            ).requests,
            Err(x) => r == Err::<Task<'a>, EvalError>(x),
        },
    decreases task,
{
    match task {
        Task::Value(v) => Ok(Task::Value(v)),
        Task::Asked(ask) => {
            if depth == path.len() {
                match answer {
                    Ok(v) => Ok(Task::Value(v)),
                    Err(x) => Err(x),
                }
            } else {
                Ok(Task::Asked(ask))
            }
        },
        Task::Call { call, params, slots } => {
            let mut slots = slots;
            proof {
                lemma_call_view(call, params, slots);
            }
            if depth < path.len() && path[depth] < slots.len() {
                let i = path[depth];
                let ghost old_slots = slots_view(slots@);
                let slot = slots.remove(i);
                match resume_task(slot, path, depth + 1, answer, out) {
                    Ok(t) => {
                        slots.insert(i, t);
                        assert(slots_view(slots@) =~= old_slots.update(i as int, task_view(t)));
                        match collect(&slots) {
                            Some(values) => {
                                let mut at = prefix_of(path, depth);
                                assert(path_view(at@) =~= path_view(path@).take(depth as int));
                                begin_apply(&call.function, values, &mut at, out)
                            },
                            None => {
                                proof {
                                    lemma_call_view(call, params, slots);
                                }
                                Ok(Task::Call { call, params, slots })
                            },
                        }
                    },
                    Err(x) => Err(x),
                }
            } else {
                Ok(Task::Call { call, params, slots })
            }
        },
    }
}

/// Starts the evaluation of `expression` with `params` as the parameter list
/// in scope. Everything that needs no answer from outside is done; every
/// question that can be raised is raised.
pub fn evaluate_impl<'a>(expression: &'a Expression, params: Option<Vec<Number>>) -> (r: (
    Evaluation<'a>,
    Step,
))
    ensures
        (r.0@, r.1@) == moved(start(expression@, params_view(params), Seq::empty())),
{
    let mut path: Vec<usize> = Vec::new();
    let mut out: Vec<Request> = Vec::new();
    assert(path_view(path@) =~= Seq::<nat>::empty());
    let r = begin(expression, &params, &mut path, &mut out);
    conclude(r, out)
}

impl<'a> Evaluation<'a> {
    /// Whether the evaluation is over: it has finished or failed.
    pub fn is_finished(&self) -> (over: bool)
        ensures
            over == (self@ is None),
    {
        self.root.is_none()
    }

    /// Hands the evaluation the answer to the question that waits at `path`.
    /// A number goes where the question was, and every call whose arguments
    /// are complete with it applies its function, which may raise new
    /// questions or finish the evaluation. A failure ends the evaluation at
    /// once, whatever else it waits for. Where no question waits at `path`,
    /// nothing changes and nothing is asked; so it is with every answer to an
    /// evaluation that is over.
    pub fn resume(&mut self, path: &Vec<usize>, answer: Result<Number, capnp::Error>) -> (step: Step)
        ensures
            (final(self)@, step@) == match old(self)@ {
                Some(task) => moved(resume(task, path_view(path@), 0, lift(answer))),
                None => (None, StepView::Waiting(Seq::empty())),
            },
    {
        match self.root.take() {
            None => {
                let none: Vec<Request> = Vec::new();
                assert(requests_view(none@) =~= Seq::<RequestView>::empty());
                Step::Waiting(none)
            },
            Some(task) => {
                let given: Outcome = match answer {
                    Ok(v) => Ok(v),
                    Err(e) => Err(EvalError::SubstrateFailure(e)),
                };
                let mut out: Vec<Request> = Vec::new();
                let r = resume_task(task, path, 0, given, &mut out);
                let (next, step) = conclude(r, out);
                self.root = next.root;
                step
            },
        }
    }
}

} // verus!
