//! Row-major dense matrices and the task-based multiplication engine.

use vstd::prelude::*;

use crate::text::{dec_str, fmt_i64, fmt_u64};
use crate::vector::{dot, dot_fits, dot_product, entries_bounded, in_i64, lemma_dot_bounded, Vector};
use crate::MatrixError;

verus! {

/// The number of worker lanes the engine fans tasks out over.
pub const NUM_THREADS: usize = 4;

/// A dense, row-major matrix: `row * col` elements in one contiguous
/// buffer, cell `(i, j)` at linear index `i * col + j`.
pub struct Matrix {
    pub data: Vec<i64>,
    pub row: usize,
    pub col: usize,
}

impl Matrix {
    /// The buffer holds exactly one element per cell.
    pub open spec fn wf(self) -> bool {
        self.data@.len() == self.row * self.col
    }

    /// The elements of row `i`, in column order.
    pub open spec fn row_seq(self, i: int) -> Seq<i64> {
        self.data@.subrange(i * self.col, i * self.col + self.col)
    }

    /// The elements of column `j`, in row order.
    pub open spec fn col_seq(self, j: int) -> Seq<i64> {
        Seq::new(self.row as nat, |k: int| self.data@[k * self.col + j])
    }

    /// Builds a matrix from a row-major buffer; the buffer must hold
    /// exactly `row * col` elements.
    pub fn new(data: Vec<i64>, row: usize, col: usize) -> (m: Matrix)
        requires
            data@.len() == row * col,
        ensures
            m.wf(),
            m.data@ == data@,
            m.row == row,
            m.col == col,
    {
        Matrix { data, row, col }
    }

    /// Extracts row `i` as a freshly allocated vector.
    pub fn row_vector(&self, i: usize) -> (v: Vector)
        requires
            self.wf(),
            i < self.row,
        ensures
            v@ == self.row_seq(i as int),
            v@.len() == self.col,
    {
        let n: usize = self.data.len();
        proof {
            assert((i + 1) * self.col <= self.row * self.col) by (nonlinear_arith)
                requires
                    i < self.row,
            ;
            assert(i * self.col + self.col == (i + 1) * self.col) by (nonlinear_arith);
        }
        let start: usize = i * self.col;
        let mut out: Vec<i64> = Vec::new();
        let mut j: usize = 0;
        while j < self.col
            invariant
                self.wf(),
                i < self.row,
                start == i * self.col,
                n == self.data@.len(),
                start + self.col <= n,
                j <= self.col,
                out@ == self.row_seq(i as int).take(j as int),
            decreases self.col - j,
        {
            out.push(self.data[start + j]);
            proof {
                assert(out@ =~= self.row_seq(i as int).take(j + 1));
            }
            j = j + 1;
        }
        proof {
            assert(self.row_seq(i as int).take(self.col as int) =~= self.row_seq(i as int));
        }
        Vector::new(out)
    }

    /// Materializes column `j` as a freshly allocated vector — columns are
    /// not contiguous in row-major storage, so the strided elements are
    /// copied out.
    pub fn column_vector(&self, j: usize) -> (v: Vector)
        requires
            self.wf(),
            j < self.col,
        ensures
            v@ == self.col_seq(j as int),
            v@.len() == self.row,
    {
        let n: usize = self.data.len();
        let mut out: Vec<i64> = Vec::new();
        let mut k: usize = 0;
        while k < self.row
            invariant
                self.wf(),
                n == self.data@.len(),
                j < self.col,
                k <= self.row,
                out@ == self.col_seq(j as int).take(k as int),
            decreases self.row - k,
        {
            proof {
                assert((k + 1) * self.col <= self.row * self.col) by (nonlinear_arith)
                    requires
                        k < self.row,
                ;
                assert(k * self.col + self.col == (k + 1) * self.col) by (nonlinear_arith);
            }
            out.push(self.data[k * self.col + j]);
            proof {
                assert(out@ =~= self.col_seq(j as int).take(k + 1));
            }
            k = k + 1;
        }
        proof {
            assert(self.col_seq(j as int).take(self.row as int) =~= self.col_seq(j as int));
        }
        Vector::new(out)
    }
}

/// The text of the first `j` cells of row `i` of `m`, separated by single
/// spaces.
pub open spec fn row_text(m: Matrix, i: int, j: int) -> Seq<char>
    decreases j,
{
    if j <= 0 {
        Seq::empty()
    } else {
        row_text(m, i, j - 1) + (if j > 1 {
            seq![' ']
        } else {
            Seq::<char>::empty()
        }) + dec_str(m.data@[i * m.col + (j - 1)] as int)
    }
}

/// The text of the first `i` rows of `m`, separated by a comma and a space.
pub open spec fn rows_text(m: Matrix, i: int) -> Seq<char>
    decreases i,
{
    if i <= 0 {
        Seq::empty()
    } else {
        rows_text(m, i - 1) + (if i > 1 {
            seq![',', ' ']
        } else {
            Seq::<char>::empty()
        }) + row_text(m, i - 1, m.col as int)
    }
}

/// The display form of `m`: the rows in braces, cells of a row separated
/// by spaces, rows by ", ".
pub open spec fn display_text(m: Matrix) -> Seq<char> {
    seq!['{'] + rows_text(m, m.row as int) + seq!['}']
}

/// The debug form of `m`: the display form together with the shape.
pub open spec fn debug_text(m: Matrix) -> Seq<char> {
    "Matrix { data: "@ + display_text(m) + ", row: "@ + dec_str(m.row as int) + ", col: "@
        + dec_str(m.col as int) + " }"@
}

impl Matrix {
    /// Renders the matrix, e.g. a 2-by-3 one as `{1 2 3, 4 5 6}`.
    pub fn display_string(&self) -> (s: String)
        requires
            self.wf(),
        ensures
            s@ == display_text(*self),
    {
        let n: usize = self.data.len();
        let mut s = String::from_str("{");
        proof {
            reveal_strlit("{");
            assert(s@ =~= seq!['{'] + rows_text(*self, 0));
        }
        let mut i: usize = 0;
        while i < self.row
            invariant
                self.wf(),
                n == self.data@.len(),
                i <= self.row,
                s@ == seq!['{'] + rows_text(*self, i as int),
            decreases self.row - i,
        {
            if i != 0 {
                s.append(", ");
            }
            proof {
                reveal_strlit(", ");
                assert(s@ =~= seq!['{'] + rows_text(*self, i as int) + (if i > 0 {
                    seq![',', ' ']
                } else {
                    Seq::<char>::empty()
                }) + row_text(*self, i as int, 0));
            }
            let mut j: usize = 0;
            while j < self.col
                invariant
                    self.wf(),
                    n == self.data@.len(),
                    i < self.row,
                    j <= self.col,
                    s@ == seq!['{'] + rows_text(*self, i as int) + (if i > 0 {
                        seq![',', ' ']
                    } else {
                        Seq::<char>::empty()
                    }) + row_text(*self, i as int, j as int),
                decreases self.col - j,
            {
                if j != 0 {
                    s.append(" ");
                }
                proof {
                    reveal_strlit(" ");
                    assert((i + 1) * self.col <= self.row * self.col) by (nonlinear_arith)
                        requires
                            i < self.row,
                    ;
                    assert(i * self.col + self.col == (i + 1) * self.col) by (nonlinear_arith);
                }
                let cell: i64 = self.data[i * self.col + j];
                let t = fmt_i64(cell);
                s.append(t.as_str());
                proof {
                    assert(s@ =~= seq!['{'] + rows_text(*self, i as int) + (if i > 0 {
                        seq![',', ' ']
                    } else {
                        Seq::<char>::empty()
                    }) + row_text(*self, i as int, j + 1));
                }
                j = j + 1;
            }
            proof {
                assert(s@ =~= seq!['{'] + rows_text(*self, i + 1));
            }
            i = i + 1;
        }
        s.append("}");
        proof {
            reveal_strlit("}");
            assert(s@ =~= display_text(*self));
        }
        s
    }

    /// Renders the matrix with its shape, e.g.
    /// `Matrix { data: {22 28, 49 64}, row: 2, col: 2 }`.
    pub fn debug_string(&self) -> (s: String)
        requires
            self.wf(),
        ensures
            s@ == debug_text(*self),
    {
        let mut s = String::from_str("Matrix { data: ");
        let d = self.display_string();
        s.append(d.as_str());
        s.append(", row: ");
        let r = fmt_u64(self.row as u64);
        s.append(r.as_str());
        s.append(", col: ");
        let c = fmt_u64(self.col as u64);
        s.append(c.as_str());
        s.append(" }");
        proof {
            assert(s@ =~= debug_text(*self));
        }
        s
    }
}

/// One dispatched task: the linear index of an output cell together with
/// the row and column whose dot product fills that cell.
pub struct MsgInput {
    pub idx: usize,
    pub row: Vector,
    pub col: Vector,
}

impl MsgInput {
    /// Bundles a cell's linear index with its row and column operands.
    pub fn new(idx: usize, row: Vector, col: Vector) -> (t: MsgInput)
        ensures
            t.idx == idx,
            t.row == row,
            t.col == col,
    {
        MsgInput { idx, row, col }
    }
}

/// One task's reply: the computed cell value, tagged with the cell's linear
/// index so the result self-locates in the output buffer whatever order
/// replies arrive in.
#[derive(Clone, Copy, Debug, PartialEq, Eq, Structural)]
pub struct MsgOutput {
    pub idx: usize,
    pub value: i64,
}

/// Assigns an output cell to a worker lane: lane `idx % NUM_THREADS`.
/// Deterministic and stateless, so the static round-robin distribution of
/// cells over lanes is fixed by the cell index alone.
pub fn route(idx: usize) -> (lane: usize)
    ensures
        lane == idx % NUM_THREADS,
        lane < NUM_THREADS,
{
    idx % NUM_THREADS
}

/// `t` is a well-formed task of the product `a * b`: its index and operands
/// belong to one output cell.
pub open spec fn valid_task(t: MsgInput, a: Matrix, b: Matrix) -> bool {
    exists|i: int, j: int|
        {
            &&& 0 <= i < a.row
            &&& 0 <= j < b.col
            &&& t.idx == i * b.col + j
            &&& t.row@ == a.row_seq(i)
            &&& t.col@ == b.col_seq(j)
        }
}

/// `o` is a correct reply for one output cell of the product `a * b`.
pub open spec fn valid_output(o: MsgOutput, a: Matrix, b: Matrix) -> bool {
    exists|i: int, j: int|
        {
            &&& 0 <= i < a.row
            &&& 0 <= j < b.col
            &&& o.idx == i * b.col + j
            &&& o.value as int == dot(a.row_seq(i), b.col_seq(j))
        }
}

/// What a worker lane does with one dequeued task: compute the dot product
/// of the task's row and column and tag the result with the task's index.
/// Succeeds exactly when the two operands have equal length; a mismatch is
/// a broken engine invariant and surfaces as `LengthMismatch`.
pub fn worker_step(input: MsgInput) -> (r: Result<MsgOutput, MatrixError>)
    requires
        input.row@.len() == input.col@.len() ==> dot_fits(input.row@, input.col@),
    ensures
        match r {
            Ok(out) => {
                &&& input.row@.len() == input.col@.len()
                &&& out.idx == input.idx
                &&& out.value as int == dot(input.row@, input.col@)
            },
            Err(e) => {
                &&& input.row@.len() != input.col@.len()
                &&& e == MatrixError::LengthMismatch
            },
        },
{
    let idx: usize = input.idx;
    let value: i64 = match dot_product(input.row, input.col) {
        Ok(v) => v,
        Err(e) => {
            return Err(e);
        },
    };
    Ok(MsgOutput { idx, value })
}

/// What one worker lane does once its inbound queue is closed: drain the
/// queue, newest task first, and answer every task through `worker_step`.
/// Exactly one reply comes back per task — `lane.len()` replies in all —
/// and reply `k` carries the index and the dot product of task
/// `lane.len() - 1 - k`.
pub fn run_lane(lane: Vec<MsgInput>) -> (outputs: Vec<MsgOutput>)
    requires
        forall|k: int|
            0 <= k < lane@.len() ==> (#[trigger] lane@[k]).row@.len() == lane@[k].col@.len(),
        forall|k: int|
            0 <= k < lane@.len() ==> dot_fits((#[trigger] lane@[k]).row@, lane@[k].col@),
    ensures
        outputs@.len() == lane@.len(),
        forall|k: int|
            0 <= k < outputs@.len() ==> {
                &&& (#[trigger] outputs@[k]).idx == lane@[lane@.len() - 1 - k].idx
                &&& outputs@[k].value as int == dot(
                    lane@[lane@.len() - 1 - k].row@,
                    lane@[lane@.len() - 1 - k].col@,
                )
            },
{
    let ghost queued = lane@;
    let mut lane = lane;
    let mut outputs: Vec<MsgOutput> = Vec::new();
    proof {
        assert(queued.take(queued.len() as int) =~= queued);
    }
    while lane.len() > 0
        invariant
            lane@ == queued.take(lane@.len() as int),
            outputs@.len() + lane@.len() == queued.len(),
            forall|k: int|
                0 <= k < queued.len() ==> (#[trigger] queued[k]).row@.len()
                    == queued[k].col@.len(),
            forall|k: int| 0 <= k < queued.len() ==> dot_fits((#[trigger] queued[k]).row@, queued[k].col@),
            forall|k: int|
                0 <= k < outputs@.len() ==> {
                    &&& (#[trigger] outputs@[k]).idx == queued[queued.len() - 1 - k].idx
                    &&& outputs@[k].value as int == dot(
                        queued[queued.len() - 1 - k].row@,
                        queued[queued.len() - 1 - k].col@,
                    )
                },
        decreases lane@.len(),
    {
        let ghost m = lane@.len() as int;
        let ghost pre_outputs = outputs@;
        let task: MsgInput = lane.pop().unwrap();
        proof {
            assert(queued.take(m).last() == queued[m - 1]);
            assert(queued.take(m).drop_last() =~= queued.take(m - 1));
            assert(task == queued[m - 1]);
        }
        match worker_step(task) {
            Ok(out) => {
                outputs.push(out);
                proof {
                    assert forall|k: int|
                        0 <= k < outputs@.len() implies {
                        &&& (#[trigger] outputs@[k]).idx == queued[queued.len() - 1 - k].idx
                        &&& outputs@[k].value as int == dot(
                            queued[queued.len() - 1 - k].row@,
                            queued[queued.len() - 1 - k].col@,
                        )
                    } by {
                        if k < outputs@.len() - 1 {
                            assert(outputs@[k] == pre_outputs[k]);
                        }
                    }
                }
            },
            // Every queued task pairs operands of equal length, so
            // `worker_step` cannot fail on it: this arm is unreachable.
            Err(_) => {},
        }
    }
    outputs
}

/// The number of linear indices in `[0, p)` that route to lane `l` — the
/// length of lane `l`'s inbound queue after `p` cells have been dispatched.
pub open spec fn lane_count(p: int, l: int) -> int
    decreases p,
{
    if p <= 0 {
        0
    } else {
        lane_count(p - 1, l) + if (p - 1) % (NUM_THREADS as int) == l {
            1int
        } else {
            0int
        }
    }
}

/// Some task queued in `lanes` carries linear index `idx`.
pub open spec fn lanes_cover(lanes: Seq<Vec<MsgInput>>, idx: int) -> bool {
    exists|l: int, k: int|
        0 <= l < lanes.len() && 0 <= k < lanes[l]@.len() && (#[trigger] lanes[l]@[k]).idx == idx
}

/// Every task queued in `lanes` is a well-formed task of `a * b` and sits
/// in the lane that `route` assigns to its index.
pub open spec fn lanes_wf(lanes: Seq<Vec<MsgInput>>, a: Matrix, b: Matrix) -> bool {
    forall|l: int, k: int|
        0 <= l < lanes.len() && 0 <= k < lanes[l]@.len() ==> {
            &&& valid_task(#[trigger] lanes[l]@[k], a, b)
            &&& (lanes[l]@[k].idx as int) % (NUM_THREADS as int) == l
        }
}

/// The fan-out half of the coordinator: enumerates the output cells of
/// `a * b` in row-major order and queues one task per cell — its row, its
/// column, its linear index — on the lane `route` picks for it.  Every
/// cell's task is queued on its own lane, every queued task is well formed,
/// and each lane holds exactly as many tasks as cells route to it.
pub fn fan_out(a: &Matrix, b: &Matrix) -> (lanes: Vec<Vec<MsgInput>>)
    requires
        a.wf(),
        b.wf(),
        a.col == b.row,
        a.row * b.col <= usize::MAX,
    ensures
        lanes@.len() == NUM_THREADS,
        lanes_wf(lanes@, *a, *b),
        forall|idx: int| 0 <= idx < a.row * b.col ==> lanes_cover(lanes@, idx),
        forall|l: int|
            0 <= l < NUM_THREADS ==> (#[trigger] lanes@[l])@.len() == lane_count(
                a.row * b.col,
                l,
            ),
{
    let mut lanes: Vec<Vec<MsgInput>> = Vec::new();
    let mut l: usize = 0;
    while l < NUM_THREADS
        invariant
            l <= NUM_THREADS,
            lanes@.len() == l,
            forall|m: int| 0 <= m < l ==> (#[trigger] lanes@[m])@.len() == 0,
        decreases NUM_THREADS - l,
    {
        lanes.push(Vec::new());
        l = l + 1;
    }
    let mut i: usize = 0;
    while i < a.row
        invariant
            a.wf(),
            b.wf(),
            a.col == b.row,
            a.row * b.col <= usize::MAX,
            i <= a.row,
            lanes@.len() == NUM_THREADS,
            lanes_wf(lanes@, *a, *b),
            forall|idx: int| 0 <= idx < i * b.col ==> lanes_cover(lanes@, idx),
            forall|l: int|
                0 <= l < NUM_THREADS ==> (#[trigger] lanes@[l])@.len() == lane_count(
                    i * b.col,
                    l,
                ),
        decreases a.row - i,
    {
        let mut j: usize = 0;
        proof {
            assert((i + 1) * b.col <= a.row * b.col) by (nonlinear_arith)
                requires
                    i < a.row,
            ;
            assert(i * b.col + b.col == (i + 1) * b.col) by (nonlinear_arith);
        }
        while j < b.col
            invariant
                a.wf(),
                b.wf(),
                a.col == b.row,
                a.row * b.col <= usize::MAX,
                i < a.row,
                j <= b.col,
                i * b.col + b.col <= a.row * b.col,
                lanes@.len() == NUM_THREADS,
                lanes_wf(lanes@, *a, *b),
                forall|idx: int| 0 <= idx < i * b.col + j ==> lanes_cover(lanes@, idx),
                forall|l: int|
                    0 <= l < NUM_THREADS ==> (#[trigger] lanes@[l])@.len() == lane_count(
                        i * b.col + j,
                        l,
                    ),
            decreases b.col - j,
        {
            let row = a.row_vector(i);
            let col = b.column_vector(j);
            let idx: usize = i * b.col + j;
            let input = MsgInput::new(idx, row, col);
            let lane: usize = route(idx);
            let ghost old_lanes = lanes@;
            lanes[lane].push(input);
            proof {
                assert(lanes@ =~= old_lanes.update(
                    lane as int,
                    lanes@[lane as int],
                ));
                assert(lanes@[lane as int]@ =~= old_lanes[lane as int]@.push(input));
                assert(valid_task(input, *a, *b));
                assert forall|idx2: int| 0 <= idx2 < i * b.col + j + 1 implies lanes_cover(
                    lanes@,
                    idx2,
                ) by {
                    if idx2 < i * b.col + j {
                        assert(lanes_cover(old_lanes, idx2));
                        let (l2, k2) = choose|l2: int, k2: int|
                            0 <= l2 < old_lanes.len() && 0 <= k2 < old_lanes[l2]@.len() && (
                            #[trigger] old_lanes[l2]@[k2]).idx == idx2;
                        assert(lanes@[l2]@[k2].idx == idx2);
                    } else {
                        let k2 = old_lanes[lane as int]@.len() as int;
                        assert(lanes@[lane as int]@[k2].idx == idx2);
                    }
                }
                assert forall|l2: int, k2: int|
                    0 <= l2 < lanes@.len() && 0 <= k2 < lanes@[l2]@.len() implies {
                    &&& valid_task(#[trigger] lanes@[l2]@[k2], *a, *b)
                    &&& (lanes@[l2]@[k2].idx as int) % (NUM_THREADS as int) == l2
                } by {
                    if l2 == lane as int && k2 == old_lanes[lane as int]@.len() {
                        assert(lanes@[l2]@[k2] == input);
                    } else {
                        assert(lanes@[l2]@[k2] == old_lanes[l2]@[k2]);
                    }
                }
            }
            j = j + 1;
        }
        i = i + 1;
    }
    lanes
}

/// Some task in the single lane `lane` carries linear index `idx`.
pub open spec fn lane_covers(lane: Seq<MsgInput>, idx: int) -> bool {
    exists|k: int| 0 <= k < lane.len() && (#[trigger] lane[k]).idx == idx
}

/// Some reply in `outs` carries linear index `idx`.
pub open spec fn outputs_cover(outs: Seq<MsgOutput>, idx: int) -> bool {
    exists|k: int| 0 <= k < outs.len() && (#[trigger] outs[k]).idx == idx
}

/// The value the fan-in stage leaves in cell `idx` after replaying the
/// replies `outs` in order: the value of the last reply tagged `idx`, or
/// the additive identity if no reply names that cell.
pub open spec fn collected(outs: Seq<MsgOutput>, idx: int) -> i64
    decreases outs.len(),
{
    if outs.len() == 0 {
        0i64
    } else if outs.last().idx == idx {
        outs.last().value
    } else {
        collected(outs.drop_last(), idx)
    }
}

/// The fan-in half of the coordinator: writes every reply's value into the
/// output buffer at the reply's own linear index, in the order the replies
/// are handed over.  No ordering is assumed — each cell ends up with the
/// value of the last reply that names it, and cells no reply names keep
/// the additive identity.
pub fn fan_in(outputs: Vec<MsgOutput>, rows: usize, cols: usize) -> (m: Matrix)
    requires
        rows * cols <= usize::MAX,
        forall|k: int| 0 <= k < outputs@.len() ==> (#[trigger] outputs@[k]).idx < rows * cols,
    ensures
        m.wf(),
        m.row == rows,
        m.col == cols,
        forall|idx: int| 0 <= idx < rows * cols ==> m.data@[idx] == collected(outputs@, idx),
{
    let total: usize = rows * cols;
    let mut data: Vec<i64> = Vec::new();
    let mut z: usize = 0;
    while z < total
        invariant
            z <= total,
            data@.len() == z,
            forall|idx: int| 0 <= idx < z ==> data@[idx] == 0i64,
        decreases total - z,
    {
        data.push(0);
        z = z + 1;
    }
    let mut k: usize = 0;
    let n: usize = outputs.len();
    while k < n
        invariant
            n == outputs@.len(),
            k <= n,
            total == rows * cols,
            data@.len() == total,
            forall|k2: int| 0 <= k2 < outputs@.len() ==> (#[trigger] outputs@[k2]).idx < total,
            forall|idx: int|
                0 <= idx < total ==> data@[idx] == collected(outputs@.take(k as int), idx),
        decreases n - k,
    {
        let o: MsgOutput = outputs[k];
        data[o.idx] = o.value;
        proof {
            assert(outputs@.take(k + 1).drop_last() =~= outputs@.take(k as int));
            assert(outputs@.take(k + 1).last() == o);
            assert forall|idx: int| 0 <= idx < total implies data@[idx] == collected(
                outputs@.take(k + 1),
                idx,
            ) by {
                if idx != o.idx {
                    assert(collected(outputs@.take(k + 1), idx) == collected(
                        outputs@.take(k as int),
                        idx,
                    ));
                }
            }
        }
        k = k + 1;
    }
    proof {
        assert(outputs@.take(n as int) =~= outputs@);
    }
    Matrix { data, row: rows, col: cols }
}

/// Distinct cells have distinct linear indices: the row-major index
/// determines the cell.
proof fn lemma_linear_index_injective(i1: int, j1: int, i2: int, j2: int, c: int)
    requires
        0 <= j1 < c,
        0 <= j2 < c,
        i1 * c + j1 == i2 * c + j2,
    ensures
        i1 == i2,
        j1 == j2,
{
    assert(i1 == i2 && j1 == j2) by (nonlinear_arith)
        requires
            0 <= j1 < c,
            0 <= j2 < c,
            i1 * c + j1 == i2 * c + j2,
    ;
}

/// If every reply in `outs` is a correct reply for `a * b` and some reply
/// names cell `(i, j)`, then replaying the replies leaves that cell's dot
/// product in it.
proof fn lemma_collected_valid(outs: Seq<MsgOutput>, a: Matrix, b: Matrix, i: int, j: int)
    requires
        forall|k: int| 0 <= k < outs.len() ==> valid_output(#[trigger] outs[k], a, b),
        outputs_cover(outs, i * b.col + j),
        0 <= i < a.row,
        0 <= j < b.col,
    ensures
        collected(outs, i * b.col + j) as int == dot(a.row_seq(i), b.col_seq(j)),
    decreases outs.len(),
{
    let idx = i * b.col + j;
    if outs.last().idx == idx {
        assert(valid_output(outs.last(), a, b));
        let (i2, j2) = choose|i2: int, j2: int|
            {
                &&& 0 <= i2 < a.row
                &&& 0 <= j2 < b.col
                &&& outs.last().idx == i2 * b.col + j2
                &&& outs.last().value as int == dot(a.row_seq(i2), b.col_seq(j2))
            };
        lemma_linear_index_injective(i, j, i2, j2, b.col as int);
    } else {
        let k = choose|k: int| 0 <= k < outs.len() && (#[trigger] outs[k]).idx == idx;
        assert(outs.drop_last()[k] == outs[k]);
        assert(outputs_cover(outs.drop_last(), idx));
        lemma_collected_valid(outs.drop_last(), a, b, i, j);
    }
}

/// The cell of `m` at row `i`, column `j`.
pub open spec fn cell_of(m: Matrix, i: int, j: int) -> i64 {
    m.data@[i * m.col + j]
}

/// `c` is the matrix product of `a` and `b`: it has `a`'s row count and
/// `b`'s column count, and — exactly as the sequential triple loop computes
/// it — cell `(i, j)` holds the left-to-right dot product of row `i` of `a`
/// and column `j` of `b`.
pub open spec fn is_product(a: Matrix, b: Matrix, c: Matrix) -> bool {
    &&& c.wf()
    &&& c.row == a.row
    &&& c.col == b.col
    &&& forall|i: int, j: int|
        0 <= i < a.row && 0 <= j < b.col ==> (#[trigger] cell_of(c, i, j)) as int == dot(
            a.row_seq(i),
            b.col_seq(j),
        )
}

/// Every cell of the product of `a` and `b` can be computed in `i64`
/// arithmetic without overflow.
pub open spec fn mul_fits(a: Matrix, b: Matrix) -> bool {
    forall|i: int, j: int|
        0 <= i < a.row && 0 <= j < b.col ==> dot_fits(
            #[trigger] a.row_seq(i),
            #[trigger] b.col_seq(j),
        )
}

/// A sufficient condition for `mul_fits` that a caller can check entry by
/// entry: if every entry of `a` and `b` has magnitude at most `bound` and
/// `a.col * bound * bound` fits in an `i64`, then no cell of the product
/// can overflow.
pub proof fn lemma_bounded_entries_fit(a: Matrix, b: Matrix, bound: int)
    requires
        a.wf(),
        b.wf(),
        a.col == b.row,
        0 <= bound,
        entries_bounded(a.data@, bound),
        entries_bounded(b.data@, bound),
        a.col * bound * bound <= i64::MAX,
    ensures
        mul_fits(a, b),
{
    assert forall|i: int, j: int| 0 <= i < a.row && 0 <= j < b.col implies dot_fits(
        #[trigger] a.row_seq(i),
        #[trigger] b.col_seq(j),
    ) by {
        assert((i + 1) * a.col <= a.row * a.col) by (nonlinear_arith)
            requires
                0 <= i < a.row,
        ;
        assert(i * a.col + a.col == (i + 1) * a.col) by (nonlinear_arith);
        let r = a.row_seq(i);
        let c = b.col_seq(j);
        assert(r.len() == a.col);
        assert(c.len() == b.row);
        assert forall|t: int| 0 <= t < r.len() implies -bound <= #[trigger] r[t] <= bound by {
            assert(r[t] == a.data@[i * a.col + t]);
        }
        assert forall|t: int| 0 <= t < c.len() implies -bound <= #[trigger] c[t] <= bound by {
            assert(t * b.col + j < (t + 1) * b.col && (t + 1) * b.col <= b.row * b.col)
                by (nonlinear_arith)
                requires
                    0 <= t < b.row,
                    0 <= j < b.col,
            ;
            assert(c[t] == b.data@[t * b.col + j]);
        }
        assert forall|t: int| 0 <= t < r.len() && t < c.len() implies in_i64(
            (#[trigger] r[t]) * c[t],
        ) by {
            assert(-(bound * bound) <= r[t] * c[t] <= bound * bound) by (nonlinear_arith)
                requires
                    -bound <= r[t] <= bound,
                    -bound <= c[t] <= bound,
                    0 <= bound,
            ;
            assert(bound * bound <= a.col * bound * bound) by (nonlinear_arith)
                requires
                    1 <= a.col,
                    0 <= bound,
            ;
        }
        assert forall|t: int| 0 <= t <= r.len() && t <= c.len() implies in_i64(
            dot(#[trigger] r.take(t), c.take(t)),
        ) by {
            assert forall|u: int| 0 <= u < r.take(t).len() implies -bound <= #[trigger] r.take(
                t,
            )[u] <= bound by {
                assert(r.take(t)[u] == r[u]);
            }
            assert forall|u: int| 0 <= u < c.take(t).len() implies -bound <= #[trigger] c.take(
                t,
            )[u] <= bound by {
                assert(c.take(t)[u] == c[u]);
            }
            lemma_dot_bounded(r.take(t), c.take(t), bound);
            assert(t * bound * bound <= a.col * bound * bound) by (nonlinear_arith)
                requires
                    t <= a.col,
                    0 <= bound,
            ;
        }
    }
}

/// The multiply entry point: checks the shapes, fans one task per output
/// cell out over the worker lanes, drains every lane's queue through
/// `run_lane` — which answers each task with exactly one tagged reply —
/// and fans the collected replies back in to the output matrix.
/// The lanes are drained in reverse dispatch order, so the replies reach
/// the fan-in stage out of dispatch order; each reply's own linear index
/// places it.  Fails with `DimensionMismatch` exactly when `a.col != b.row`,
/// before any task is built; on success the result is the matrix product.
pub fn multiply(a: &Matrix, b: &Matrix) -> (r: Result<Matrix, MatrixError>)
    requires
        a.wf(),
        b.wf(),
        a.col == b.row ==> a.row * b.col <= usize::MAX,
        a.col == b.row ==> mul_fits(*a, *b),
    ensures
        match r {
            Ok(c) => a.col == b.row && is_product(*a, *b, c),
            Err(e) => a.col != b.row && e == MatrixError::DimensionMismatch,
        },
{
    if a.col != b.row {
        return Err(MatrixError::DimensionMismatch);
    }
    let mut lanes: Vec<Vec<MsgInput>> = fan_out(a, b);
    let mut outputs: Vec<MsgOutput> = Vec::new();
    while lanes.len() > 0
        invariant
            a.wf(),
            b.wf(),
            a.col == b.row,
            a.row * b.col <= usize::MAX,
            mul_fits(*a, *b),
            lanes_wf(lanes@, *a, *b),
            forall|k: int| 0 <= k < outputs@.len() ==> valid_output(#[trigger] outputs@[k], *a, *b),
            forall|idx: int|
                0 <= idx < a.row * b.col ==> lanes_cover(lanes@, idx) || outputs_cover(
                    outputs@,
                    idx,
                ),
        decreases lanes@.len(),
    {
        let ghost pre_lanes = lanes@;
        let ghost pre_outputs = outputs@;
        let lane: Vec<MsgInput> = lanes.pop().unwrap();
        let ghost lane_view = lane@;
        proof {
            assert forall|idx: int|
                0 <= idx < a.row * b.col && lanes_cover(pre_lanes, idx) implies lanes_cover(
                lanes@,
                idx,
            ) || lane_covers(lane_view, idx) by {
                let (l2, k2) = choose|l2: int, k2: int|
                    0 <= l2 < pre_lanes.len() && 0 <= k2 < pre_lanes[l2]@.len() && (
                    #[trigger] pre_lanes[l2]@[k2]).idx == idx;
                if l2 < pre_lanes.len() - 1 {
                    assert(lanes@[l2]@[k2].idx == idx);
                } else {
                    assert(lane_view[k2].idx == idx);
                }
            }
            assert forall|k2: int| 0 <= k2 < lane_view.len() implies valid_task(
                #[trigger] lane_view[k2],
                *a,
                *b,
            ) by {
                assert(pre_lanes[pre_lanes.len() - 1]@[k2] == lane_view[k2]);
            }
            assert forall|k2: int|
                0 <= k2 < lane_view.len() implies (#[trigger] lane_view[k2]).row@.len()
                == lane_view[k2].col@.len() && dot_fits(lane_view[k2].row@, lane_view[k2].col@) by {
                let (ti, tj) = choose|ti: int, tj: int|
                    {
                        &&& 0 <= ti < a.row
                        &&& 0 <= tj < b.col
                        &&& lane_view[k2].idx == ti * b.col + tj
                        &&& lane_view[k2].row@ == a.row_seq(ti)
                        &&& lane_view[k2].col@ == b.col_seq(tj)
                    };
                assert(dot_fits(a.row_seq(ti), b.col_seq(tj)));
                assert((ti + 1) * a.col <= a.row * a.col) by (nonlinear_arith)
                    requires
                        0 <= ti < a.row,
                ;
                assert(ti * a.col + a.col == (ti + 1) * a.col) by (nonlinear_arith);
                assert(lane_view[k2].row@.len() == a.col);
                assert(lane_view[k2].col@.len() == b.row);
            }
        }
        let mut outs: Vec<MsgOutput> = run_lane(lane);
        let ghost outs_view = outs@;
        proof {
            assert forall|k: int| 0 <= k < outs_view.len() implies valid_output(
                #[trigger] outs_view[k],
                *a,
                *b,
            ) by {
                let t = lane_view[lane_view.len() - 1 - k];
                assert(valid_task(t, *a, *b));
                let (ti, tj) = choose|ti: int, tj: int|
                    {
                        &&& 0 <= ti < a.row
                        &&& 0 <= tj < b.col
                        &&& t.idx == ti * b.col + tj
                        &&& t.row@ == a.row_seq(ti)
                        &&& t.col@ == b.col_seq(tj)
                    };
                assert(outs_view[k].idx == ti * b.col + tj);
                assert(outs_view[k].value as int == dot(a.row_seq(ti), b.col_seq(tj)));
            }
        }
        outputs.append(&mut outs);
        proof {
            assert forall|k: int| 0 <= k < outputs@.len() implies valid_output(
                #[trigger] outputs@[k],
                *a,
                *b,
            ) by {
                if k < pre_outputs.len() {
                    assert(outputs@[k] == pre_outputs[k]);
                } else {
                    assert(outputs@[k] == outs_view[k - pre_outputs.len()]);
                }
            }
            assert forall|idx: int|
                0 <= idx < a.row * b.col && (lane_covers(lane_view, idx) || outputs_cover(
                    pre_outputs,
                    idx,
                )) implies outputs_cover(outputs@, idx) by {
                if lane_covers(lane_view, idx) {
                    let k2 = choose|k2: int|
                        0 <= k2 < lane_view.len() && (#[trigger] lane_view[k2]).idx == idx;
                    let r: int = lane_view.len() - 1 - k2;
                    assert(outs_view[r].idx == lane_view[lane_view.len() - 1 - r].idx);
                    assert(outputs@[pre_outputs.len() + r].idx == idx);
                } else {
                    let k2 = choose|k2: int|
                        0 <= k2 < pre_outputs.len() && (#[trigger] pre_outputs[k2]).idx == idx;
                    assert(outputs@[k2].idx == idx);
                }
            }
            assert forall|idx: int| 0 <= idx < a.row * b.col implies lanes_cover(lanes@, idx)
                || outputs_cover(outputs@, idx) by {
                assert(lanes_cover(pre_lanes, idx) || outputs_cover(pre_outputs, idx));
                if lanes_cover(pre_lanes, idx) {
                    assert(lanes_cover(lanes@, idx) || lane_covers(lane_view, idx));
                    if lane_covers(lane_view, idx) {
                        assert(outputs_cover(outputs@, idx));
                    }
                } else {
                    assert(outputs_cover(outputs@, idx));
                }
            }
        }
    }
    proof {
        assert forall|k: int| 0 <= k < outputs@.len() implies (#[trigger] outputs@[k]).idx < a.row
            * b.col by {
            let (i2, j2) = choose|i2: int, j2: int|
                {
                    &&& 0 <= i2 < a.row
                    &&& 0 <= j2 < b.col
                    &&& outputs@[k].idx == i2 * b.col + j2
                    &&& outputs@[k].value as int == dot(a.row_seq(i2), b.col_seq(j2))
                };
            assert(i2 * b.col + j2 < a.row * b.col) by (nonlinear_arith)
                requires
                    0 <= i2 < a.row,
                    0 <= j2 < b.col,
            ;
        }
    }
    let c = fan_in(outputs, a.row, b.col);
    proof {
        assert forall|i: int, j: int|
            0 <= i < a.row && 0 <= j < b.col implies (#[trigger] cell_of(c, i, j)) as int == dot(
            a.row_seq(i),
            b.col_seq(j),
        ) by {
            assert(i * b.col + j < a.row * b.col) by (nonlinear_arith)
                requires
                    0 <= i < a.row,
                    0 <= j < b.col,
            ;
            let idx = i * b.col + j;
            assert(!lanes_cover(lanes@, idx));
            assert(outputs_cover(outputs@, idx));
            lemma_collected_valid(outputs@, *a, *b, i, j);
            assert(c.data@[idx] == collected(outputs@, idx));
        }
    }
    Ok(c)
}

impl core::ops::Mul for Matrix {
    type Output = Matrix;

    /// `a * b` runs the engine and hands back the product; the operator
    /// form asks its caller for compatible, overflow-free operands, and a
    /// run on incompatible ones stops instead of returning a wrong matrix.
    fn mul(self, rhs: Matrix) -> (ret: Matrix)
        ensures
            is_product(self, rhs, ret),
    {
        match multiply(&self, &rhs) {
            Ok(c) => c,
            Err(_) => vstd::pervasive::unreached(),
        }
    }
}

impl vstd::std_specs::ops::MulSpecImpl for Matrix {
    // `mul_spec` would have to name the one struct value the operator
    // returns, which a spec function cannot build around a `Vec`; the
    // operator's own `ensures is_product(..)` is the real statement, so
    // the equation with `mul_spec` is switched off and its body is a
    // placeholder.
    open spec fn obeys_mul_spec() -> bool {
        false
    }

    open spec fn mul_req(self, rhs: Matrix) -> bool {
        &&& self.wf()
        &&& rhs.wf()
        &&& self.col == rhs.row
        &&& self.row * rhs.col <= usize::MAX
        &&& mul_fits(self, rhs)
    }

    open spec fn mul_spec(self, rhs: Matrix) -> Matrix {
        self
    }
}

/// The running sum of the first `k` terms of the innermost loop of the
/// sequential triple-loop multiplication, for output cell `(i, j)`:
/// the sum over `t < k` of `a[i][t] * b[t][j]`, read straight from the
/// two row-major buffers.
pub open spec fn cell_sum(a: Matrix, b: Matrix, i: int, j: int, k: int) -> int
    decreases k,
{
    if k <= 0 {
        0
    } else {
        cell_sum(a, b, i, j, k - 1) + a.data@[i * a.col + (k - 1)] * b.data@[(k - 1) * b.col + j]
    }
}

proof fn lemma_dot_prefix_is_cell_sum(a: Matrix, b: Matrix, i: int, j: int, k: int)
    requires
        a.wf(),
        b.wf(),
        a.col == b.row,
        0 <= i < a.row,
        0 <= j < b.col,
        0 <= k <= a.col,
    ensures
        dot(a.row_seq(i).take(k), b.col_seq(j).take(k)) == cell_sum(a, b, i, j, k),
    decreases k,
{
    assert((i + 1) * a.col <= a.row * a.col) by (nonlinear_arith)
        requires
            0 <= i < a.row,
    ;
    assert(i * a.col + a.col == (i + 1) * a.col) by (nonlinear_arith);
    if k > 0 {
        lemma_dot_prefix_is_cell_sum(a, b, i, j, k - 1);
        assert(a.row_seq(i).take(k).drop_last() =~= a.row_seq(i).take(k - 1));
        assert(b.col_seq(j).take(k).drop_last() =~= b.col_seq(j).take(k - 1));
        assert(a.row_seq(i).take(k).last() == a.data@[i * a.col + (k - 1)]);
        assert(b.col_seq(j).take(k).last() == b.data@[(k - 1) * b.col + j]);
    }
}

/// A matrix that satisfies the product contract agrees, cell for cell,
/// with the sequential triple-loop multiplication: cell `(i, j)` holds the
/// left-to-right sum over `k` of `a[i][k] * b[k][j]`.
pub proof fn lemma_product_matches_triple_loop(a: Matrix, b: Matrix, c: Matrix, i: int, j: int)
    requires
        a.wf(),
        b.wf(),
        a.col == b.row,
        is_product(a, b, c),
        0 <= i < a.row,
        0 <= j < b.col,
    ensures
        cell_of(c, i, j) as int == cell_sum(a, b, i, j, a.col as int),
{
    assert((i + 1) * a.col <= a.row * a.col) by (nonlinear_arith)
        requires
            0 <= i < a.row,
    ;
    assert(i * a.col + a.col == (i + 1) * a.col) by (nonlinear_arith);
    lemma_dot_prefix_is_cell_sum(a, b, i, j, a.col as int);
    assert(a.row_seq(i).take(a.col as int) =~= a.row_seq(i));
    assert(b.col_seq(j).take(a.col as int) =~= b.col_seq(j));
}

/// The product is determined by the operands alone: two matrices that both
/// satisfy the product contract for the same `a` and `b` agree bit for bit,
/// whatever order their task replies were computed or collected in.
pub proof fn lemma_multiply_deterministic(a: Matrix, b: Matrix, c1: Matrix, c2: Matrix)
    requires
        is_product(a, b, c1),
        is_product(a, b, c2),
    ensures
        c1.row == c2.row,
        c1.col == c2.col,
        c1.data@ == c2.data@,
{
    assert forall|idx: int| 0 <= idx < c1.data@.len() implies c1.data@[idx] == c2.data@[idx] by {
        let cc = b.col as int;
        assert(c1.data@.len() == a.row * b.col);
        assert(cc > 0) by (nonlinear_arith)
            requires
                0 <= idx < a.row * cc,
                0 <= cc,
        ;
        vstd::arithmetic::div_mod::lemma_fundamental_div_mod(idx, cc);
        let i = idx / cc;
        let j = idx % cc;
        assert(0 <= j < cc);
        assert(0 <= i < a.row) by (nonlinear_arith)
            requires
                idx == cc * i + j,
                0 <= j < cc,
                0 <= idx < a.row * cc,
        ;
        assert(cell_of(c1, i, j) as int == dot(a.row_seq(i), b.col_seq(j)));
        assert(cell_of(c2, i, j) as int == dot(a.row_seq(i), b.col_seq(j)));
    }
    assert(c1.data@ =~= c2.data@);
}

} // verus!
