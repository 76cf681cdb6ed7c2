use vstd::prelude::*;
use crate::expression::{CallView, ExpressionView, FunctionView};
use crate::number::Number;
use crate::semantics::Outcome;
use crate::task::{
    all_values, asked_at, resume, settle, start, start_apply, start_args, start_call, values_of,
    RequestView, TaskView,
};

verus! {

/// Whether the place of the request `r` lies at or below the place `path`.
pub open spec fn below(r: RequestView, path: Seq<nat>) -> bool {
    r.path.len() >= path.len() && r.path.take(path.len() as int) == path
}

/// Whether each of `requests` lies at or below `path` and names a place of
/// `task`, which stands at `path`, where its question waits.
pub open spec fn raised(task: TaskView, requests: Seq<RequestView>, path: Seq<nat>) -> bool {
    forall|k: int|
        0 <= k < requests.len() ==> below(#[trigger] requests[k], path) && asked_at(
            task,
            requests[k].path,
            path.len(),
        ) == Some(requests[k].ask)
}

/// Whether each of `requests` names a place in one of the parts `slots` of a
/// call at `path` where its question waits.
pub open spec fn raised_in(slots: Seq<TaskView>, requests: Seq<RequestView>, path: Seq<nat>) -> bool {
    forall|k: int|
        0 <= k < requests.len() ==> {
            let r = #[trigger] requests[k];
            &&& below(r, path)
            &&& r.path.len() > path.len()
            &&& r.path[path.len() as int] < slots.len()
            &&& asked_at(slots[r.path[path.len() as int] as int], r.path, path.len() + 1) == Some(
                r.ask,
            )
        }
}

proof fn lemma_raised_in_call(
    call: CallView,
    params: Option<Seq<Number>>,
    slots: Seq<TaskView>,
    requests: Seq<RequestView>,
    path: Seq<nat>,
)
    requires
        raised_in(slots, requests, path),
    ensures
        raised(TaskView::Call { call, params, slots }, requests, path),
{
    let task = TaskView::Call { call, params, slots };
    assert forall|k: int| 0 <= k < requests.len() implies below(#[trigger] requests[k], path)
        && asked_at(task, requests[k].path, path.len()) == Some(requests[k].ask) by {
        let r = requests[k];
        assert(asked_at(task, r.path, path.len()) == asked_at(
            slots[r.path[path.len() as int] as int],
            r.path,
            path.len() + 1,
        ));
    }
}

proof fn lemma_raised_in_values(slots: Seq<TaskView>, requests: Seq<RequestView>, path: Seq<nat>)
    requires
        raised_in(slots, requests, path),
        all_values(slots),
    ensures
        requests.len() == 0,
{
    if requests.len() > 0 {
        let r = requests[0];
        let slot = slots[r.path[path.len() as int] as int];
        assert(slot is Value);
        assert(asked_at(slot, r.path, path.len() + 1) is None);
    }
}

/// The questions that a start raises wait in the evaluation it leaves, where
/// the requests say.
pub proof fn lemma_start_raises(e: ExpressionView, params: Option<Seq<Number>>, path: Seq<nat>)
    ensures
        match start(e, params, path).task {
            Ok(task) => raised(task, start(e, params, path).requests, path),
            Err(_) => start(e, params, path).requests.len() == 0,
        },
    decreases e, 0nat,
{
    match e {
        ExpressionView::Call(c) => {
            lemma_start_call_raises(c, params, path);
        },
        _ => {
            assert(path.take(path.len() as int) =~= path);
        },
    }
}

/// The same of a call.
pub proof fn lemma_start_call_raises(c: CallView, params: Option<Seq<Number>>, path: Seq<nat>)
    ensures
        match start_call(c, params, path).task {
            Ok(task) => raised(task, start_call(c, params, path).requests, path),
            Err(_) => start_call(c, params, path).requests.len() == 0,
        },
    decreases c, c.params.len() + 1,
{
    let args = start_args(c, c.params.len(), params, path);
    lemma_start_args_raise(c, c.params.len(), params, path);
    match args.slots {
        Ok(slots) => {
            let s = settle(c, params, slots, path);
            if all_values(slots) {
                lemma_raised_in_values(slots, args.requests, path);
                lemma_start_apply_raises(c.function, values_of(slots), path);
                assert(args.requests + s.requests =~= s.requests);
            } else {
                lemma_raised_in_call(c, params, slots, args.requests, path);
                assert(args.requests + s.requests =~= args.requests);
            }
        },
        Err(_) => {},
    }
}

/// The questions that the arguments of a call raise wait in their parts.
pub proof fn lemma_start_args_raise(
    c: CallView,
    n: nat,
    params: Option<Seq<Number>>,
    path: Seq<nat>,
)
    requires
        n <= c.params.len(),
    ensures
        match start_args(c, n, params, path).slots {
            Ok(slots) => slots.len() == n && raised_in(
                slots,
                start_args(c, n, params, path).requests,
                path,
            ),
            Err(_) => start_args(c, n, params, path).requests.len() == 0,
        },
    decreases c, n,
{
    if n > 0 {
        let before = start_args(c, (n - 1) as nat, params, path);
        lemma_start_args_raise(c, (n - 1) as nat, params, path);
        match before.slots {
            Ok(slots) => {
                let at = path.push((n - 1) as nat);
                let s = start(c.params[n - 1], params, at);
                lemma_start_raises(c.params[n - 1], params, at);
                match s.task {
                    Ok(task) => {
                        let all = slots.push(task);
                        let requests = before.requests + s.requests;
                        assert forall|k: int| 0 <= k < requests.len() implies {
                            let r = #[trigger] requests[k];
                            &&& below(r, path)
                            &&& r.path.len() > path.len()
                            &&& r.path[path.len() as int] < all.len()
                            &&& asked_at(
                                all[r.path[path.len() as int] as int],
                                r.path,
                                path.len() + 1,
                            ) == Some(r.ask)
                        } by {
                            let r = requests[k];
                            if k < before.requests.len() {
                                assert(r == before.requests[k]);
                                assert(all[r.path[path.len() as int] as int]
                                    == slots[r.path[path.len() as int] as int]);
                            } else {
                                assert(r == s.requests[k - before.requests.len()]);
                                assert(below(r, at));
                                assert(r.path.take(at.len() as int)[path.len() as int]
                                    == at[path.len() as int]);
                                assert(r.path[path.len() as int] == n - 1);
                                assert(r.path.take(path.len() as int) =~= r.path.take(
                                    at.len() as int,
                                ).take(path.len() as int));
                                assert(at.take(path.len() as int) =~= path);
                                assert(all[n - 1] == task);
                            }
                        }
                    },
                    Err(_) => {},
                }
            },
            Err(_) => {},
        }
    }
}

/// The questions that the application of a function raises wait in the
/// evaluation it leaves.
pub proof fn lemma_start_apply_raises(f: FunctionView, values: Seq<Number>, path: Seq<nat>)
    ensures
        match start_apply(f, values, path).task {
            Ok(task) => raised(task, start_apply(f, values, path).requests, path),
            Err(_) => start_apply(f, values, path).requests.len() == 0,
        },
    decreases f, 0nat,
{
    match f {
        FunctionView::UserDefined { param_count, body } => {
            if values.len() == param_count {
                lemma_start_raises(*body, Some(values), path);
            }
        },
        _ => {
            assert(path.take(path.len() as int) =~= path);
        },
    }
}

/// The questions that an answer raises wait in the evaluation it leaves.
pub proof fn lemma_resume_raises(task: TaskView, path: Seq<nat>, depth: nat, given: Outcome)
    requires
        depth <= path.len(),
    ensures
        match resume(task, path, depth, given).task {
            Ok(next) => raised(
                next,
                resume(task, path, depth, given).requests,
                path.take(depth as int),
            ),
            Err(_) => resume(task, path, depth, given).requests.len() == 0,
        },
    decreases task,
{
    match task {
        TaskView::Call { call, params, slots } => {
            if depth < path.len() && path[depth as int] < slots.len() {
                let i = path[depth as int] as int;
                let here = path.take(depth as int);
                let inner = resume(slots[i], path, depth + 1, given);
                lemma_resume_raises(slots[i], path, depth + 1, given);
                match inner.task {
                    Ok(t) => {
                        let next = slots.update(i, t);
                        let s = settle(call, params, next, here);
                        if all_values(next) {
                            assert(next[i] is Value);
                            if inner.requests.len() > 0 {
                                let r = inner.requests[0];
                                assert(asked_at(t, r.path, depth + 1) is None);
                            }
                            lemma_start_apply_raises(
                                call.function,
                                values_of(next),
                                here,
                            );
                            assert(inner.requests + s.requests =~= s.requests);
                        } else {
                            assert(inner.requests + s.requests =~= inner.requests);
                            let after = TaskView::Call { call, params, slots: next };
                            assert forall|k: int| 0 <= k < inner.requests.len() implies below(
                                #[trigger] inner.requests[k],
                                here,
                            ) && asked_at(after, inner.requests[k].path, here.len()) == Some(
                                inner.requests[k].ask,
                            ) by {
                                let r = inner.requests[k];
                                let deeper = path.take(depth as int + 1);
                                assert(below(r, deeper));
                                assert(r.path.take(deeper.len() as int)[depth as int]
                                    == deeper[depth as int]);
                                assert(r.path[depth as int] == i);
                                assert(r.path.take(depth as int) =~= r.path.take(
                                    deeper.len() as int,
                                ).take(depth as int));
                                assert(deeper.take(depth as int) =~= here);
                                assert(asked_at(after, r.path, depth) == asked_at(
                                    next[i],
                                    r.path,
                                    depth + 1,
                                ));
                            }
                        }
                    },
                    Err(_) => {},
                }
            }
        },
        _ => {},
    }
}

proof fn lemma_contains_left(a: Seq<RequestView>, b: Seq<RequestView>, r: RequestView)
    requires
        a.contains(r),
    ensures
        (a + b).contains(r),
{
    let k = choose|k: int| 0 <= k < a.len() && a[k] == r;
    assert((a + b)[k] == r);
}

proof fn lemma_contains_right(a: Seq<RequestView>, b: Seq<RequestView>, r: RequestView)
    requires
        b.contains(r),
    ensures
        (a + b).contains(r),
{
    let k = choose|k: int| 0 <= k < b.len() && b[k] == r;
    assert((a + b)[a.len() + k] == r);
}

/// Every question that waits in a started evaluation was raised by the
/// start, with the place where it waits.
pub proof fn lemma_start_complete(
    e: ExpressionView,
    params: Option<Seq<Number>>,
    path: Seq<nat>,
    at: Seq<nat>,
)
    requires
        at.len() >= path.len(),
        at.take(path.len() as int) == path,
        start(e, params, path).task is Ok,
        asked_at(start(e, params, path).task->Ok_0, at, path.len()) is Some,
    ensures
        start(e, params, path).requests.contains(
            RequestView {
                path: at,
                ask: asked_at(start(e, params, path).task->Ok_0, at, path.len())->0,
            },
        ),
    decreases e, 0nat,
{
    match e {
        ExpressionView::Call(c) => {
            lemma_start_call_complete(c, params, path, at);
        },
        _ => {
            assert(at.take(path.len() as int) =~= at);
            assert(start(e, params, path).requests[0].path == at);
        },
    }
}

/// The same of a call.
pub proof fn lemma_start_call_complete(
    c: CallView,
    params: Option<Seq<Number>>,
    path: Seq<nat>,
    at: Seq<nat>,
)
    requires
        at.len() >= path.len(),
        at.take(path.len() as int) == path,
        start_call(c, params, path).task is Ok,
        asked_at(start_call(c, params, path).task->Ok_0, at, path.len()) is Some,
    ensures
        start_call(c, params, path).requests.contains(
            RequestView {
                path: at,
                ask: asked_at(start_call(c, params, path).task->Ok_0, at, path.len())->0,
            },
        ),
    decreases c, c.params.len() + 1,
{
    let n = c.params.len();
    let args = start_args(c, n, params, path);
    let slots = args.slots->Ok_0;
    let s = settle(c, params, slots, path);
    let task = start_call(c, params, path).task->Ok_0;
    let r = RequestView { path: at, ask: asked_at(task, at, path.len())->0 };
    lemma_start_args_raise(c, n, params, path);
    if all_values(slots) {
        lemma_start_apply_complete(c.function, values_of(slots), path, at);
        lemma_contains_right(args.requests, s.requests, r);
    } else {
        let i = at[path.len() as int];
        assert(asked_at(task, at, path.len()) == asked_at(slots[i as int], at, path.len() + 1));
        lemma_start_args_complete(c, n, params, path, at);
        lemma_contains_left(args.requests, s.requests, r);
    }
}

/// Every question that waits in one of the started arguments of a call was
/// raised when they were started.
pub proof fn lemma_start_args_complete(
    c: CallView,
    n: nat,
    params: Option<Seq<Number>>,
    path: Seq<nat>,
    at: Seq<nat>,
)
    requires
        n <= c.params.len(),
        at.len() > path.len(),
        at.take(path.len() as int) == path,
        at[path.len() as int] < n,
        start_args(c, n, params, path).slots is Ok,
        asked_at(
            start_args(c, n, params, path).slots->Ok_0[at[path.len() as int] as int],
            at,
            path.len() + 1,
        ) is Some,
    ensures
        start_args(c, n, params, path).requests.contains(
            RequestView {
                path: at,
                ask: asked_at(
                    start_args(c, n, params, path).slots->Ok_0[at[path.len() as int] as int],
                    at,
                    path.len() + 1,
                )->0,
            },
        ),
    decreases c, n,
{
    let i = at[path.len() as int];
    let before = start_args(c, (n - 1) as nat, params, path);
    let slots = before.slots->Ok_0;
    let deeper = path.push((n - 1) as nat);
    let s = start(c.params[n - 1], params, deeper);
    let task = s.task->Ok_0;
    let all = slots.push(task);
    let r = RequestView { path: at, ask: asked_at(all[i as int], at, path.len() + 1)->0 };
    lemma_start_args_raise(c, (n - 1) as nat, params, path);
    if i == n - 1 {
        assert(all[i as int] == task);
        let head = at.take(deeper.len() as int);
        assert forall|k: int| 0 <= k < deeper.len() implies #[trigger] head[k] == deeper[k] by {
            if k < path.len() {
                assert(at.take(path.len() as int)[k] == path[k]);
            }
        }
        assert(head =~= deeper);
        lemma_start_complete(c.params[n - 1], params, deeper, at);
        lemma_contains_right(before.requests, s.requests, r);
    } else {
        assert(all[i as int] == slots[i as int]);
        lemma_start_args_complete(c, (n - 1) as nat, params, path, at);
        lemma_contains_left(before.requests, s.requests, r);
    }
}

/// Every question that waits in the application of a function was raised by
/// it.
pub proof fn lemma_start_apply_complete(
    f: FunctionView,
    values: Seq<Number>,
    path: Seq<nat>,
    at: Seq<nat>,
)
    requires
        at.len() >= path.len(),
        at.take(path.len() as int) == path,
        start_apply(f, values, path).task is Ok,
        asked_at(start_apply(f, values, path).task->Ok_0, at, path.len()) is Some,
    ensures
        start_apply(f, values, path).requests.contains(
            RequestView {
                path: at,
                ask: asked_at(start_apply(f, values, path).task->Ok_0, at, path.len())->0,
            },
        ),
    decreases f, 0nat,
{
    match f {
        FunctionView::UserDefined { param_count, body } => {
            lemma_start_complete(*body, Some(values), path, at);
        },
        _ => {
            assert(at.take(path.len() as int) =~= at);
            assert(start_apply(f, values, path).requests[0].path == at);
        },
    }
}

/// Every question that waits after an answer was raised by the answer or has
/// waited before.
pub proof fn lemma_resume_complete(
    task: TaskView,
    path: Seq<nat>,
    depth: nat,
    given: Outcome,
    at: Seq<nat>,
)
    requires
        depth <= path.len(),
        depth <= at.len(),
        at.take(depth as int) == path.take(depth as int),
        resume(task, path, depth, given).task is Ok,
        asked_at(resume(task, path, depth, given).task->Ok_0, at, depth) is Some,
    ensures
        ({
            let next = resume(task, path, depth, given).task->Ok_0;
            ||| asked_at(task, at, depth) == asked_at(next, at, depth)
            ||| resume(task, path, depth, given).requests.contains(
                RequestView { path: at, ask: asked_at(next, at, depth)->0 },
            )
        }),
    decreases task,
{
    let moved = resume(task, path, depth, given);
    let next = moved.task->Ok_0;
    let r = RequestView { path: at, ask: asked_at(next, at, depth)->0 };
    match task {
        TaskView::Call { call, params, slots } => {
            if depth < path.len() && path[depth as int] < slots.len() {
                let i = path[depth as int] as int;
                let here = path.take(depth as int);
                let inner = resume(slots[i], path, depth + 1, given);
                let t = inner.task->Ok_0;
                let after = slots.update(i, t);
                let s = settle(call, params, after, here);
                if all_values(after) {
                    lemma_start_apply_complete(
                        call.function,
                        values_of(after),
                        here,
                        at,
                    );
                    lemma_contains_right(inner.requests, s.requests, r);
                } else {
                    let j = at[depth as int] as int;
                    assert(asked_at(next, at, depth) == asked_at(after[j], at, depth + 1));
                    if j == i {
                        let at_head = at.take(depth as int + 1);
                        let path_head = path.take(depth as int + 1);
                        assert forall|k: int| 0 <= k < at_head.len() implies #[trigger] at_head[k]
                            == path_head[k] by {
                            if k < depth {
                                assert(at.take(depth as int)[k] == path.take(depth as int)[k]);
                            }
                        }
                        assert(at_head =~= path_head);
                        lemma_resume_complete(slots[i], path, depth + 1, given, at);
                        if inner.requests.contains(r) {
                            lemma_contains_left(inner.requests, s.requests, r);
                        }
                    }
                }
            }
        },
        _ => {},
    }
}

/// An answer to one question leaves every other question waiting where it
/// waited.
pub proof fn lemma_resume_keeps(
    task: TaskView,
    path: Seq<nat>,
    other: Seq<nat>,
    depth: nat,
    given: Outcome,
)
    requires
        depth <= path.len(),
        depth <= other.len(),
        other.skip(depth as int) != path.skip(depth as int),
        asked_at(task, other, depth) is Some,
    ensures
        resume(task, path, depth, given).task matches Ok(next) ==> asked_at(next, other, depth)
            == asked_at(task, other, depth),
    decreases task,
{
    match task {
        TaskView::Asked(_) => {
            if depth == path.len() {
                assert(other.skip(depth as int) =~= path.skip(depth as int));
            }
        },
        TaskView::Call { call, params, slots } => {
            if depth < path.len() && path[depth as int] < slots.len() {
                let i = path[depth as int] as int;
                let j = other[depth as int] as int;
                let inner = resume(slots[i], path, depth + 1, given);
                if i == j {
                    if other.skip(depth as int + 1) == path.skip(depth as int + 1) {
                        let other_tail = other.skip(depth as int);
                        let path_tail = path.skip(depth as int);
                        let other_rest = other.skip(depth as int + 1);
                        let path_rest = path.skip(depth as int + 1);
                        assert(other_rest.len() == path_rest.len());
                        assert forall|k: int| 0 <= k < other_tail.len() implies other_tail[k]
                            == path_tail[k] by {
                            if k > 0 {
                                assert(other_tail[k] == other_rest[k - 1]);
                                assert(path_tail[k] == path_rest[k - 1]);
                            }
                        }
                        assert(other_tail =~= path_tail);
                    }
                    lemma_resume_keeps(slots[i], path, other, depth + 1, given);
                }
                match inner.task {
                    Ok(t) => {
                        let next = slots.update(i, t);
                        assert(asked_at(next[j], other, depth + 1) is Some);
                        assert(!(next[j] is Value));
                        assert(!all_values(next));
                    },
                    Err(_) => {},
                }
            }
        },
        _ => {},
    }
}

} // verus!
