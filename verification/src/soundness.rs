use vstd::prelude::*;
use crate::expression::{CallView, ExpressionView, FunctionView};
use crate::number::Number;
use crate::semantics::Outcome;
use crate::task::{
    all_values, asked_at, resume, settle, start, start_apply, start_args, values_of, TaskView,
};

verus! {

/// Whether every call in `task` has a part for each of its arguments and
/// waits for at least one of them.
pub open spec fn sound(task: TaskView) -> bool
    decreases task,
{
    match task {
        TaskView::Call { call, slots, .. } => {
            &&& slots.len() == call.params.len()
            &&& !all_values(slots)
            &&& forall|i: int| 0 <= i < slots.len() ==> sound(#[trigger] slots[i])
        },
        _ => true,
    }
}

/// The position of the first of the parts `slots`, from position `from` on,
/// that has no number yet; their count if there is none.
pub open spec fn first_open(slots: Seq<TaskView>, from: nat) -> nat
    decreases slots.len() - from,
{
    if from >= slots.len() {
        slots.len()
    } else if !(slots[from as int] is Value) {
        from
    } else {
        first_open(slots, from + 1)
    }
}

/// A place of `task`, counted from `task` itself, where a question waits:
/// the leftmost one.
pub open spec fn first_waiting(task: TaskView) -> Seq<nat>
    decreases task,
{
    match task {
        TaskView::Call { slots, .. } => {
            let i = first_open(slots, 0);
            if i < slots.len() {
                seq![i] + first_waiting(slots[i as int])
            } else {
                Seq::empty()
            }
        },
        _ => Seq::empty(),
    }
}

proof fn lemma_first_open(slots: Seq<TaskView>, from: nat)
    requires
        from <= slots.len(),
        exists|i: int| from <= i < slots.len() && !(#[trigger] slots[i] is Value),
    ensures
        from <= first_open(slots, from) < slots.len(),
        !(slots[first_open(slots, from) as int] is Value),
    decreases slots.len() - from,
{
    if from < slots.len() && slots[from as int] is Value {
        let i = choose|i: int| from <= i < slots.len() && !(#[trigger] slots[i] is Value);
        assert(from + 1 <= i);
        lemma_first_open(slots, from + 1);
    }
}

/// Which question waits at a place depends only on the part of the place
/// that lies below the evaluation asked.
pub proof fn lemma_asked_at_shift(task: TaskView, a: Seq<nat>, da: nat, b: Seq<nat>, db: nat)
    requires
        da <= a.len(),
        db <= b.len(),
        a.skip(da as int) == b.skip(db as int),
    ensures
        asked_at(task, a, da) == asked_at(task, b, db),
    decreases task,
{
    let x = a.skip(da as int);
    let y = b.skip(db as int);
    assert(x.len() == y.len());
    match task {
        TaskView::Call { slots, .. } => {
            if da < a.len() {
                assert(x[0] == a[da as int]);
                assert(y[0] == b[db as int]);
                if a[da as int] < slots.len() {
                    assert(a.skip(da as int + 1) =~= x.skip(1));
                    assert(b.skip(db as int + 1) =~= y.skip(1));
                    lemma_asked_at_shift(slots[a[da as int] as int], a, da + 1, b, db + 1);
                }
            }
        },
        _ => {},
    }
}

/// An evaluation that is sound and not finished waits for the answer to a
/// question: it cannot be stuck.
pub proof fn lemma_sound_waits(task: TaskView)
    requires
        sound(task),
        !(task is Value),
    ensures
        asked_at(task, first_waiting(task), 0) is Some,
    decreases task,
{
    match task {
        TaskView::Call { slots, .. } => {
            assert(exists|i: int| 0 <= i < slots.len() && !(#[trigger] slots[i] is Value));
            lemma_first_open(slots, 0);
            let i = first_open(slots, 0);
            let slot = slots[i as int];
            let rest = first_waiting(slot);
            let whole = seq![i] + rest;
            assert(sound(slot));
            lemma_sound_waits(slot);
            assert(whole.skip(1) =~= rest);
            assert(rest.skip(0) =~= rest);
            lemma_asked_at_shift(slot, whole, 1, rest, 0);
            assert(whole[0] == i);
        },
        _ => {},
    }
}

/// A start leaves a sound evaluation.
pub proof fn lemma_start_sound(e: ExpressionView, params: Option<Seq<Number>>, path: Seq<nat>)
    ensures
        start(e, params, path).task matches Ok(task) ==> sound(task),
    decreases e, 0nat,
{
    match e {
        ExpressionView::Call(c) => {
            lemma_start_args_sound(c, c.params.len(), params, path);
            match start_args(c, c.params.len(), params, path).slots {
                Ok(slots) => {
                    lemma_settle_sound(c, params, slots, path);
                },
                Err(_) => {},
            }
        },
        _ => {},
    }
}

/// The arguments of a call that were started are sound, one part for each.
pub proof fn lemma_start_args_sound(
    c: CallView,
    n: nat,
    params: Option<Seq<Number>>,
    path: Seq<nat>,
)
    requires
        n <= c.params.len(),
    ensures
        start_args(c, n, params, path).slots matches Ok(slots) ==> slots.len() == n && forall|
            i: int,
        |
            0 <= i < n ==> sound(#[trigger] slots[i]),
    decreases c, n,
{
    if n > 0 {
        lemma_start_args_sound(c, (n - 1) as nat, params, path);
        match start_args(c, (n - 1) as nat, params, path).slots {
            Ok(slots) => {
                lemma_start_sound(c.params[n - 1], params, path.push((n - 1) as nat));
            },
            Err(_) => {},
        }
    }
}

/// A call with sound parts, one for each argument, settles to a sound
/// evaluation.
pub proof fn lemma_settle_sound(
    c: CallView,
    params: Option<Seq<Number>>,
    slots: Seq<TaskView>,
    path: Seq<nat>,
)
    requires
        slots.len() == c.params.len(),
        forall|i: int| 0 <= i < slots.len() ==> sound(#[trigger] slots[i]),
    ensures
        settle(c, params, slots, path).task matches Ok(task) ==> sound(task),
    decreases c, 0nat,
{
    if all_values(slots) {
        lemma_start_apply_sound(c.function, values_of(slots), path);
    }
}

/// The application of a function leaves a sound evaluation.
pub proof fn lemma_start_apply_sound(f: FunctionView, values: Seq<Number>, path: Seq<nat>)
    ensures
        start_apply(f, values, path).task matches Ok(task) ==> sound(task),
    decreases f, 0nat,
{
    match f {
        FunctionView::UserDefined { param_count, body } => {
            if values.len() == param_count {
                lemma_start_sound(*body, Some(values), path);
            }
        },
        _ => {},
    }
}

/// An answer leaves a sound evaluation sound.
pub proof fn lemma_resume_sound(task: TaskView, path: Seq<nat>, depth: nat, given: Outcome)
    requires
        sound(task),
    ensures
        resume(task, path, depth, given).task matches Ok(next) ==> sound(next),
    decreases task,
{
    match task {
        TaskView::Call { call, params, slots } => {
            if depth < path.len() && path[depth as int] < slots.len() {
                let i = path[depth as int] as int;
                assert(sound(slots[i]));
                lemma_resume_sound(slots[i], path, depth + 1, given);
                match resume(slots[i], path, depth + 1, given).task {
                    Ok(t) => {
                        let next = slots.update(i, t);
                        assert forall|j: int| 0 <= j < next.len() implies sound(
                            #[trigger] next[j],
                        ) by {
                            if j != i {
                                assert(sound(slots[j]));
                            }
                        }
                        lemma_settle_sound(call, params, next, path.take(depth as int));
                    },
                    Err(_) => {},
                }
            }
        },
        _ => {},
    }
}

} // verus!
