use crate::matrix::{col_of, product, product_cell, row_of, Matrix};
use crate::vector::{dot, dot_product, dot_same_len, DimensionMismatch, Vector};
use vstd::arithmetic::div_mod::lemma_fundamental_div_mod_converse;
use vstd::prelude::*;

verus! {

/// The number of workers a multiplication routes its tasks over.
pub const THREAD_COUNT: usize = 4;

/// One unit of work: the cell at flat index `idx` is `row` dotted with `col`.
pub struct Task {
    pub idx: usize,
    pub row: Vector,
    pub col: Vector,
}

/// A worker's answer to a task: the cell's flat index and its value.
#[derive(Debug, Clone, Copy, PartialEq, Eq, Structural)]
pub struct Reply {
    pub idx: usize,
    pub val: i64,
}

/// `tasks` is the plan for `a · b`: one task per output cell, in row-major
/// order, task `k` carrying index `k`, row `k / b.col` of `a` and column
/// `k % b.col` of `b`.
pub open spec fn is_plan(a: Matrix, b: Matrix, tasks: Seq<Task>) -> bool {
    &&& tasks.len() == a.row * b.col
    &&& forall|k: int|
        0 <= k < tasks.len() ==> {
            &&& (#[trigger] tasks[k]).idx == k
            &&& tasks[k].row@ == row_of(a, k / b.col as int)
            &&& tasks[k].col@ == col_of(b, k % b.col as int)
            &&& tasks[k].row@.len() == tasks[k].col@.len()
        }
}

/// `reply` is what a worker owes for `task`.
pub open spec fn answers(task: Task, reply: Reply) -> bool {
    reply.idx == task.idx && reply.val == dot(task.row@, task.col@)
}

/// Some reply in `replies` carries flat index `k`.
pub open spec fn names(replies: Seq<Reply>, k: int) -> bool {
    exists|t: int| 0 <= t < replies.len() && (#[trigger] replies[t]).idx == k
}

/// The cells of a `len`-cell result after writing each reply's value at its
/// index, in the order given, over cells that start at zero.
pub open spec fn assembled(replies: Seq<Reply>, len: nat) -> Seq<i64>
    decreases replies.len(),
{
    if replies.len() == 0 {
        Seq::new(len, |k: int| 0i64)
    } else {
        let last = replies.last();
        assembled(replies.drop_last(), len).update(last.idx as int, last.val)
    }
}

/// The worker that the task for flat index `idx` goes to: `idx mod workers`.
pub fn route(idx: usize, workers: usize) -> (r: usize)
    requires
        workers > 0,
    ensures
        r == idx % workers,
        r < workers,
{
    idx % workers
}

/// Builds one task per cell of `a · b`, in row-major order. Fails, before
/// building any, when `a.col != b.row`.
pub fn plan_tasks(a: &Matrix, b: &Matrix) -> (r: Result<Vec<Task>, DimensionMismatch>)
    requires
        a.wf(),
        b.wf(),
    ensures
        r is Err <==> a.col != b.row,
        r matches Err(e) ==> e.left == a.col && e.right == b.row,
        r matches Ok(tasks) ==> is_plan(*a, *b, tasks@),
{
    if a.col != b.row {
        return Err(DimensionMismatch { left: a.col, right: b.row });
    }
    let mut tasks: Vec<Task> = Vec::new();
    let mut i: usize = 0;
    while i < a.row
        invariant
            a.wf(),
            b.wf(),
            a.col == b.row,
            i <= a.row,
            tasks@.len() == i * b.col,
            forall|k: int|
                0 <= k < tasks@.len() ==> {
                    &&& (#[trigger] tasks@[k]).idx == k
                    &&& tasks@[k].row@ == row_of(*a, k / b.col as int)
                    &&& tasks@[k].col@ == col_of(*b, k % b.col as int)
                    &&& tasks@[k].row@.len() == tasks@[k].col@.len()
                },
        decreases a.row - i,
    {
        let mut j: usize = 0;
        while j < b.col
            invariant
                a.wf(),
                b.wf(),
                a.col == b.row,
                i < a.row,
                j <= b.col,
                tasks@.len() == i * b.col + j,
                forall|k: int|
                    0 <= k < tasks@.len() ==> {
                        &&& (#[trigger] tasks@[k]).idx == k
                        &&& tasks@[k].row@ == row_of(*a, k / b.col as int)
                        &&& tasks@[k].col@ == col_of(*b, k % b.col as int)
                        &&& tasks@[k].row@.len() == tasks@[k].col@.len()
                    },
            decreases b.col - j,
        {
            let row = a.row_vector(i);
            let col = b.col_vector(j);
            let ghost k = i * b.col + j;
            proof {
                lemma_fundamental_div_mod_converse(k, b.col as int, i as int, j as int);
                assert(i * a.col + a.col == (i + 1) * a.col) by (nonlinear_arith);
                assert((i + 1) * a.col <= a.row * a.col) by (nonlinear_arith)
                    requires
                        i < a.row,
                ;
                assert(0 <= i * a.col) by (nonlinear_arith);
            }
            let n = tasks.len();
            tasks.push(Task { idx: n, row, col });
            j += 1;
        }
        assert(i * b.col + b.col == (i + 1) * b.col) by (nonlinear_arith);
        i += 1;
    }
    Ok(tasks)
}

/// The worker step for a task whose vectors have equal length.
pub fn answer(task: &Task) -> (r: Reply)
    requires
        task.row@.len() == task.col@.len(),
    ensures
        answers(*task, r),
{
    Reply { idx: task.idx, val: dot_same_len(&task.row, &task.col) }
}

/// The worker step: the task's row dotted with its column, under the task's
/// index. Fails when the two vectors differ in length.
pub fn run_task(task: &Task) -> (r: Result<Reply, DimensionMismatch>)
    ensures
        r is Err <==> task.row@.len() != task.col@.len(),
        r matches Ok(reply) ==> answers(*task, reply),
        r matches Err(e) ==> e.left == task.row@.len() && e.right == task.col@.len(),
{
    match dot_product(&task.row, &task.col) {
        Ok(val) => Ok(Reply { idx: task.idx, val }),
        Err(e) => Err(e),
    }
}

/// Builds the `row` × `col` result by writing each reply's value at its index,
/// in the order given, over cells that start at zero.
pub fn assemble(replies: &Vec<Reply>, row: usize, col: usize) -> (r: Matrix)
    requires
        row * col <= usize::MAX,
        forall|t: int| 0 <= t < replies@.len() ==> (#[trigger] replies@[t]).idx < row * col,
    ensures
        r.row == row,
        r.col == col,
        r.data@ == assembled(replies@, (row * col) as nat),
{
    let len = row * col;
    let mut data: Vec<i64> = Vec::new();
    while data.len() < len
        invariant
            data@.len() <= len,
            forall|k: int| 0 <= k < data@.len() ==> data@[k] == 0,
        decreases len - data@.len(),
    {
        data.push(0);
    }
    assert(data@ =~= assembled(replies@.take(0), len as nat));
    let mut t: usize = 0;
    while t < replies.len()
        invariant
            len == row * col,
            t <= replies@.len(),
            forall|u: int| 0 <= u < replies@.len() ==> (#[trigger] replies@[u]).idx < len,
            data@ == assembled(replies@.take(t as int), len as nat),
            data@.len() == len,
        decreases replies@.len() - t,
    {
        let reply = replies[t];
        data.set(reply.idx, reply.val);
        proof {
            assert(replies@.take(t + 1).drop_last() =~= replies@.take(t as int));
        }
        t += 1;
    }
    assert(replies@.take(replies@.len() as int) =~= replies@);
    Matrix { data, row, col }
}

/// Writing replies by index: the length stays `len`, and a cell that some reply
/// names ends up holding `v`, when every reply naming it carries `v`.
proof fn lemma_assembled_cell(replies: Seq<Reply>, len: nat, k: int, v: i64)
    requires
        forall|t: int| 0 <= t < replies.len() ==> (#[trigger] replies[t]).idx < len,
    ensures
        assembled(replies, len).len() == len,
        (forall|t: int| 0 <= t < replies.len() && (#[trigger] replies[t]).idx == k ==> replies[t].val == v)
            && names(replies, k) ==> assembled(replies, len)[k] == v,
    decreases replies.len(),
{
    if replies.len() > 0 {
        let init = replies.drop_last();
        assert forall|t: int| 0 <= t < init.len() implies (#[trigger] init[t]).idx < len by {
            assert(init[t] == replies[t]);
        }
        lemma_assembled_cell(init, len, k, v);
        if (forall|t: int| 0 <= t < replies.len() && (#[trigger] replies[t]).idx == k ==> replies[t].val == v)
            && names(replies, k) {
            if replies.last().idx != k {
                let t = choose|t: int| 0 <= t < replies.len() && (#[trigger] replies[t]).idx == k;
                assert(init[t] == replies[t]);
                assert forall|u: int| 0 <= u < init.len() && (#[trigger] init[u]).idx == k implies init[u].val == v by {
                    assert(init[u] == replies[u]);
                }
            }
        }
    }
}

/// Placement by index makes the result independent of the order replies
/// arrive in: when every reply answers the planned task of the cell it names,
/// and every cell is named by some reply, the assembled cells are exactly the
/// product `a · b`.
pub proof fn lemma_assembly_is_product(a: Matrix, b: Matrix, tasks: Seq<Task>, replies: Seq<Reply>)
    requires
        a.wf(),
        b.wf(),
        a.col == b.row,
        is_plan(a, b, tasks),
        forall|t: int|
            0 <= t < replies.len() ==> (#[trigger] replies[t]).idx < tasks.len() && answers(
                tasks[replies[t].idx as int],
                replies[t],
            ),
        forall|k: int| 0 <= k < tasks.len() ==> #[trigger] names(replies, k),
    ensures
        assembled(replies, (a.row * b.col) as nat) == product(a, b),
{
    let len = (a.row * b.col) as nat;
    let s = assembled(replies, len);
    assert forall|k: int| 0 <= k < len implies s[k] == product(a, b)[k] by {
        let v = product_cell(a, b, k);
        lemma_assembled_cell(replies, len, k, v);
        assert(tasks[k].idx == k);
        assert forall|t: int| 0 <= t < replies.len() && (#[trigger] replies[t]).idx == k implies replies[t].val == v by {
            assert(answers(tasks[k], replies[t]));
        }
    }
    lemma_assembled_cell(replies, len, 0, 0);
    assert(s =~= product(a, b));
}

/// The result does not depend on the order replies arrive in: two collections of
/// replies that both answer the plan and cover every cell assemble to the same
/// cells.
pub proof fn lemma_assembly_deterministic(
    a: Matrix,
    b: Matrix,
    tasks: Seq<Task>,
    first: Seq<Reply>,
    second: Seq<Reply>,
)
    requires
        a.wf(),
        b.wf(),
        a.col == b.row,
        is_plan(a, b, tasks),
        forall|t: int|
            0 <= t < first.len() ==> (#[trigger] first[t]).idx < tasks.len() && answers(
                tasks[first[t].idx as int],
                first[t],
            ),
        forall|k: int| 0 <= k < tasks.len() ==> #[trigger] names(first, k),
        forall|t: int|
            0 <= t < second.len() ==> (#[trigger] second[t]).idx < tasks.len() && answers(
                tasks[second[t].idx as int],
                second[t],
            ),
        forall|k: int| 0 <= k < tasks.len() ==> #[trigger] names(second, k),
    ensures
        assembled(first, (a.row * b.col) as nat) == assembled(second, (a.row * b.col) as nat),
{
    lemma_assembly_is_product(a, b, tasks, first);
    lemma_assembly_is_product(a, b, tasks, second);
}

/// Multiplies `a` by `b` through the task protocol: one task per output cell,
/// each answered by the worker step, the replies placed by index. Here the
/// tasks are answered in issue order on the calling thread. Fails, before any
/// work, when `a.col != b.row`.
pub fn multiply(a: &Matrix, b: &Matrix) -> (r: Result<Matrix, DimensionMismatch>)
    requires
        a.wf(),
        b.wf(),
    ensures
        r is Err <==> a.col != b.row,
        r matches Err(e) ==> e.left == a.col && e.right == b.row,
        r matches Ok(c) ==> c.row == a.row && c.col == b.col && c.data@ == product(*a, *b),
{
    let tasks = match plan_tasks(a, b) {
        Ok(tasks) => tasks,
        Err(e) => {
            return Err(e);
        },
    };
    let mut replies: Vec<Reply> = Vec::new();
    let mut t: usize = 0;
    while t < tasks.len()
        invariant
            is_plan(*a, *b, tasks@),
            t <= tasks@.len(),
            replies@.len() == t,
            forall|u: int| 0 <= u < t ==> answers(tasks@[u], #[trigger] replies@[u]),
        decreases tasks@.len() - t,
    {
        let reply = answer(&tasks[t]);
        replies.push(reply);
        t += 1;
    }
    proof {
        assert forall|u: int| 0 <= u < replies@.len() implies (#[trigger] replies@[u]).idx
            < tasks@.len() && answers(tasks@[replies@[u].idx as int], replies@[u]) by {
            assert(answers(tasks@[u], replies@[u]));
            assert(tasks@[u].idx == u);
        }
        assert forall|k: int| 0 <= k < tasks@.len() implies #[trigger] names(replies@, k) by {
            assert(answers(tasks@[k], replies@[k]));
            assert(tasks@[k].idx == k);
        }
        lemma_assembly_is_product(*a, *b, tasks@, replies@);
    }
    Ok(assemble(&replies, a.row, b.col))
}

} // verus!
