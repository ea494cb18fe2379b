//! Attention masks: which positions a query may look at.

use vstd::prelude::*;

verus! {

/// Whether query `i` of a chunk that starts at `pos` is kept from position `j`
/// by causality: it would look into the future.
pub open spec fn in_future(pos: int, i: int, j: int) -> bool {
    j > pos + i
}

/// Whether position `j` is too far in the past for query `i`.
pub open spec fn out_of_window(pos: int, i: int, j: int, window: int) -> bool {
    pos + i >= window && j < pos + i - window + 1
}

/// A mask: one row for each query, one column for each position. An entry says
/// whether the query is kept from the position.
pub struct Mask {
    pub rows: usize,
    pub cols: usize,
    pub blocked: Vec<bool>,
}

impl Mask {
    /// As many entries as rows and columns make.
    pub open spec fn wf(&self) -> bool {
        self.blocked@.len() == self.rows * self.cols
    }

    /// The entry of query `i` and position `j`.
    pub open spec fn at(&self, i: int, j: int) -> bool {
        self.blocked@[i * self.cols + j]
    }

    /// Whether query `i` is kept from position `j`.
    pub fn is_blocked(&self, i: usize, j: usize) -> (r: bool)
        requires
            self.wf(),
            i < self.rows,
            j < self.cols,
        ensures
            r == self.at(i as int, j as int),
    {
        let n: usize = self.blocked.len();
        assert(0 <= i * self.cols && i * self.cols + j < self.rows * self.cols)
            by (nonlinear_arith)
            requires
                0 <= i < self.rows,
                0 <= j < self.cols,
        ;
        self.blocked[i * self.cols + j]
    }
}

proof fn lemma_cell(cols: int, i: int, j: int, k: int)
    requires
        0 <= j < cols,
        0 <= i,
        k == i * cols + j,
    ensures
        k / cols == i,
        k % cols == j,
{
    assert(i * cols == cols * i) by (nonlinear_arith);
    vstd::arithmetic::div_mod::lemma_fundamental_div_mod_converse(k, cols, i, j);
}

fn build(rows: usize, pos: usize, window: Option<usize>) -> (m: Mask)
    requires
        pos + rows <= usize::MAX,
        rows * (pos + rows) <= usize::MAX,
    ensures
        m.wf(),
        m.rows == rows,
        m.cols == pos + rows,
        forall|i: int, j: int|
            0 <= i < rows && 0 <= j < pos + rows ==> #[trigger] m.at(i, j) == (in_future(
                pos as int,
                i,
                j,
            ) || (window is Some && out_of_window(pos as int, i, j, window->0 as int))),
{
    let cols: usize = pos + rows;
    let mut blocked: Vec<bool> = Vec::new();
    let mut i: usize = 0;
    while i < rows
        invariant
            i <= rows,
            cols == pos + rows,
            rows * cols <= usize::MAX,
            blocked@.len() == i * cols,
            forall|k: int|
                0 <= k < blocked@.len() ==> #[trigger] blocked@[k] == (in_future(
                    pos as int,
                    k / cols as int,
                    k % cols as int,
                ) || (window is Some && out_of_window(
                    pos as int,
                    k / cols as int,
                    k % cols as int,
                    window->0 as int,
                ))),
        decreases rows - i,
    {
        let query: usize = pos + i;
        let mut j: usize = 0;
        while j < cols
            invariant
                j <= cols,
                i < rows,
                cols == pos + rows,
                query == pos + i,
                blocked@.len() == i * cols + j,
                forall|k: int|
                    0 <= k < blocked@.len() ==> #[trigger] blocked@[k] == (in_future(
                        pos as int,
                        k / cols as int,
                        k % cols as int,
                    ) || (window is Some && out_of_window(
                        pos as int,
                        k / cols as int,
                        k % cols as int,
                        window->0 as int,
                    ))),
            decreases cols - j,
        {
            let past = match window {
                Some(w) => query >= w && j < query - w + 1,
                None => false,
            };
            proof {
                assert(0 <= i * cols) by (nonlinear_arith)
                    requires
                        0 <= i,
                        0 <= cols,
                ;
                lemma_cell(cols as int, i as int, j as int, i * cols + j);
            }
            blocked.push(j > query || past);
            j += 1;
        }
        assert(i * cols + cols == (i + 1) * cols) by (nonlinear_arith);
        i += 1;
    }
    let m = Mask { rows, cols, blocked };
    proof {
        assert forall|i: int, j: int| 0 <= i < rows && 0 <= j < pos + rows implies #[trigger] m.at(
            i,
            j,
        ) == (in_future(pos as int, i, j) || (window is Some && out_of_window(
            pos as int,
            i,
            j,
            window->0 as int,
        ))) by {
            lemma_cell(cols as int, i, j, i * cols + j);
            assert(0 <= i * cols && i * cols + j < rows * cols) by (nonlinear_arith)
                requires
                    0 <= i < rows,
                    0 <= j < cols,
            ;
        }
    }
    m
}

/// A causal mask for `seq_len` queries after `pos` positions: query `i` may
/// look at positions up to `pos + i`.
pub fn build_causal_mask(seq_len: usize, pos: usize) -> (m: Mask)
    requires
        pos + seq_len <= usize::MAX,
        seq_len * (pos + seq_len) <= usize::MAX,
    ensures
        m.wf(),
        m.rows == seq_len,
        m.cols == pos + seq_len,
        forall|i: int, j: int|
            0 <= i < seq_len && 0 <= j < pos + seq_len ==> #[trigger] m.at(i, j) == in_future(
                pos as int,
                i,
                j,
            ),
{
    build(seq_len, pos, None)
}

/// A causal mask under which a query looks back over at most `window_size`
/// positions, its own among them.
pub fn build_sliding_window_mask(seq_len: usize, pos: usize, window_size: usize) -> (m: Mask)
    requires
        pos + seq_len <= usize::MAX,
        seq_len * (pos + seq_len) <= usize::MAX,
    ensures
        m.wf(),
        m.rows == seq_len,
        m.cols == pos + seq_len,
        forall|i: int, j: int|
            0 <= i < seq_len && 0 <= j < pos + seq_len ==> #[trigger] m.at(i, j) == (in_future(
                pos as int,
                i,
                j,
            ) || out_of_window(pos as int, i, j, window_size as int)),
{
    build(seq_len, pos, Some(window_size))
}

/// Under a window that is not empty, a query sees itself, nothing after itself,
/// and at most as many positions as the window holds.
pub proof fn law_a_window_shows_the_latest(pos: int, i: int, j: int, window: int)
    requires
        pos >= 0,
        i >= 0,
        j >= 0,
        window >= 1,
    ensures
        (!in_future(pos, i, j) && !out_of_window(pos, i, j, window)) <==> (j <= pos + i && j > pos
            + i - window),
        !in_future(pos, i, pos + i) && !out_of_window(pos, i, pos + i, window),
{
}

} // verus!
