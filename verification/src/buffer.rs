//! The cursor text buffer: a mutable two-dimensional character grid with a
//! cursor position, backing the modal editor.
//!
//! The buffer always holds at least one row (possibly empty); the cursor
//! sits on a valid row, at a column between 0 and that row's length. All
//! operations are total: at the buffer's boundaries they are no-ops rather
//! than errors, and no index ever leaves its bounds.

use vstd::prelude::*;

verus! {

/// A 2D editable text grid with a cursor. Rows are ordered top to bottom,
/// characters left to right; the cursor sits before the character at
/// `col_index` of row `line_index`.
pub struct GapBuffer {
    pub data: Vec<Vec<char>>,
    pub line_index: usize,
    pub col_index: usize,
}

/// Mathematical model of a buffer: the rows as character sequences and
/// the cursor coordinates.
#[verifier::ext_equal]
pub struct BufferView {
    pub lines: Seq<Seq<char>>,
    pub line: int,
    pub col: int,
}

impl View for GapBuffer {
    type V = BufferView;

    open spec fn view(&self) -> BufferView {
        BufferView {
            lines: self.data.deep_view(),
            line: self.line_index as int,
            col: self.col_index as int,
        }
    }
}

impl BufferView {
    /// Well-formed: at least one row, the cursor on an existing row, the
    /// column no further than one past that row's last character.
    pub open spec fn wf(self) -> bool {
        &&& self.lines.len() >= 1
        &&& 0 <= self.line < self.lines.len()
        &&& 0 <= self.col <= self.lines[self.line].len()
    }

    /// The row under the cursor.
    pub open spec fn current_line(self) -> Seq<char>
        recommends
            self.wf(),
    {
        self.lines[self.line]
    }
}

/// The model of a freshly created buffer: one empty row, cursor at the
/// origin.
pub open spec fn empty_buffer_view() -> BufferView {
    BufferView { lines: seq![Seq::empty()], line: 0, col: 0 }
}

/// Insertion of a character at the cursor: the character enters the
/// current row at the cursor column and the cursor advances one column.
pub open spec fn insert_char_spec(v: BufferView, c: char) -> BufferView
    recommends
        v.wf(),
{
    BufferView {
        lines: v.lines.update(v.line, v.lines[v.line].insert(v.col, c)),
        line: v.line,
        col: v.col + 1,
    }
}

/// A line split at the cursor: a new empty row appears immediately below
/// the current row and the cursor moves to its start. Text to the right
/// of the cursor stays on the original row; it does not migrate to the
/// new row.
pub open spec fn split_line_spec(v: BufferView) -> BufferView
    recommends
        v.wf(),
{
    BufferView { lines: v.lines.insert(v.line + 1, Seq::empty()), line: v.line + 1, col: 0 }
}

/// Backward deletion at the cursor. With the cursor inside a row, the
/// character before it disappears and the cursor steps one column left.
/// At the start of a row other than the first, the current row merges
/// into the row above and the cursor lands at the merge point. At the
/// origin nothing happens.
pub open spec fn delete_backward_spec(v: BufferView) -> BufferView
    recommends
        v.wf(),
{
    if v.col > 0 {
        BufferView {
            lines: v.lines.update(v.line, v.lines[v.line].remove(v.col - 1)),
            col: v.col - 1,
            ..v
        }
    } else if v.line > 0 {
        BufferView {
            lines: v.lines.update(v.line - 1, v.lines[v.line - 1] + v.lines[v.line]).remove(
                v.line,
            ),
            line: v.line - 1,
            col: v.lines[v.line - 1].len() as int,
        }
    } else {
        v
    }
}

/// One column to the left; at the start of a row the cursor wraps to the
/// end of the previous row when one exists, and otherwise stays put.
pub open spec fn move_left_spec(v: BufferView) -> BufferView
    recommends
        v.wf(),
{
    if v.col > 0 {
        BufferView { col: v.col - 1, ..v }
    } else if v.line > 0 {
        BufferView { line: v.line - 1, col: v.lines[v.line - 1].len() as int, ..v }
    } else {
        v
    }
}

/// One column to the right; at the end of a row the cursor wraps to the
/// start of the next row when one exists, and otherwise stays put.
pub open spec fn move_right_spec(v: BufferView) -> BufferView
    recommends
        v.wf(),
{
    if v.col < v.lines[v.line].len() {
        BufferView { col: v.col + 1, ..v }
    } else if v.line + 1 < v.lines.len() {
        BufferView { line: v.line + 1, col: 0, ..v }
    } else {
        v
    }
}

/// One row up, the column clamped to the target row's length; on the
/// first row nothing happens.
pub open spec fn move_up_spec(v: BufferView) -> BufferView
    recommends
        v.wf(),
{
    if v.line > 0 {
        let target = v.lines[v.line - 1];
        BufferView {
            line: v.line - 1,
            col: if v.col <= target.len() {
                v.col
            } else {
                target.len() as int
            },
            ..v
        }
    } else {
        v
    }
}

/// One row down, the column clamped to the target row's length; on the
/// last row nothing happens.
pub open spec fn move_down_spec(v: BufferView) -> BufferView
    recommends
        v.wf(),
{
    if v.line + 1 < v.lines.len() {
        let target = v.lines[v.line + 1];
        BufferView {
            line: v.line + 1,
            col: if v.col <= target.len() {
                v.col
            } else {
                target.len() as int
            },
            ..v
        }
    } else {
        v
    }
}

/// The rows joined by a newline between each adjacent pair, with no
/// trailing newline after the last row.
pub open spec fn join_lines(lines: Seq<Seq<char>>) -> Seq<char>
    decreases lines.len(),
{
    if lines.len() == 0 {
        Seq::empty()
    } else if lines.len() == 1 {
        lines[0]
    } else {
        join_lines(lines.drop_last()) + seq!['\n'] + lines.last()
    }
}

/// Insertion of a sequence of characters one after the other at the
/// cursor, in order.
pub open spec fn insert_all_spec(v: BufferView, cs: Seq<char>) -> BufferView
    decreases cs.len(),
{
    if cs.len() == 0 {
        v
    } else {
        insert_char_spec(insert_all_spec(v, cs.drop_last()), cs.last())
    }
}

/// `n` backward deletions one after the other.
pub open spec fn delete_n_spec(v: BufferView, n: nat) -> BufferView
    decreases n,
{
    if n == 0 {
        v
    } else {
        delete_n_spec(delete_backward_spec(v), (n - 1) as nat)
    }
}

/// Character insertion keeps the buffer well-formed.
pub proof fn lemma_insert_char_wf(v: BufferView, c: char)
    requires
        v.wf(),
    ensures
        insert_char_spec(v, c).wf(),
{
}

/// Any number of insertions keeps the buffer well-formed.
pub proof fn lemma_insert_all_wf(v: BufferView, cs: Seq<char>)
    requires
        v.wf(),
    ensures
        insert_all_spec(v, cs).wf(),
    decreases cs.len(),
{
    if cs.len() > 0 {
        lemma_insert_all_wf(v, cs.drop_last());
        lemma_insert_char_wf(insert_all_spec(v, cs.drop_last()), cs.last());
    }
}

/// A backward deletion right after an insertion undoes it exactly: the
/// same rows and the same cursor as before the insertion.
pub proof fn lemma_delete_undoes_insert(v: BufferView, c: char)
    requires
        v.wf(),
    ensures
        delete_backward_spec(insert_char_spec(v, c)) == v,
{
    let w = insert_char_spec(v, c);
    assert(w.lines[w.line].remove(v.col) =~= v.lines[v.line]);
    assert(delete_backward_spec(w).lines =~= v.lines);
    assert(delete_backward_spec(w) =~= v);
}

/// Inserting any `n` characters and then deleting backward `n` times
/// returns the buffer to exactly its starting rows and cursor.
pub proof fn lemma_insert_then_delete_restores(v: BufferView, cs: Seq<char>)
    requires
        v.wf(),
    ensures
        delete_n_spec(insert_all_spec(v, cs), cs.len()) == v,
    decreases cs.len(),
{
    if cs.len() > 0 {
        lemma_insert_all_wf(v, cs.drop_last());
        lemma_delete_undoes_insert(insert_all_spec(v, cs.drop_last()), cs.last());
        lemma_insert_then_delete_restores(v, cs.drop_last());
    }
}

/// From the empty buffer, inserting any `n` characters and performing `n`
/// backward deletions returns the buffer to empty content with the cursor
/// at the origin.
pub proof fn lemma_empty_insert_delete(cs: Seq<char>)
    ensures
        delete_n_spec(insert_all_spec(empty_buffer_view(), cs), cs.len()) == empty_buffer_view(),
{
    lemma_insert_then_delete_restores(empty_buffer_view(), cs);
}

/// From any position other than the origin, moving left and then right
/// returns the cursor to exactly its original coordinates, with the rows
/// unchanged. At the origin the pair is not inverse: the left move stays
/// put and the right move still advances.
pub proof fn lemma_move_left_right_roundtrip(v: BufferView)
    requires
        v.wf(),
        !(v.line == 0 && v.col == 0),
    ensures
        move_right_spec(move_left_spec(v)) == v,
{
    assert(move_right_spec(move_left_spec(v)) =~= v);
}

impl GapBuffer {
    /// A fresh buffer: one empty row, cursor at the origin.
    pub fn new() -> (r: GapBuffer)
        ensures
            r@ == empty_buffer_view(),
            r@.wf(),
    {
        let mut data: Vec<Vec<char>> = Vec::new();
        data.push(Vec::new());
        let r = GapBuffer { data, line_index: 0, col_index: 0 };
        proof {
            assert(r@ =~~= empty_buffer_view());
        }
        r
    }

    /// An exact copy: same rows, same cursor.
    pub fn clone(&self) -> (r: GapBuffer)
        ensures
            r@ == self@,
    {
        let mut data: Vec<Vec<char>> = Vec::new();
        let mut i: usize = 0;
        while i < self.data.len()
            invariant
                i <= self.data@.len(),
                data@.len() == i,
                forall|j: int| 0 <= j < i ==> (#[trigger] data@[j]).deep_view()
                    == self.data@[j].deep_view(),
            decreases self.data@.len() - i,
        {
            let mut row: Vec<char> = Vec::new();
            let mut k: usize = 0;
            let n = self.data[i].len();
            while k < n
                invariant
                    k <= n,
                    n == self.data@[i as int]@.len(),
                    i < self.data@.len(),
                    row@ == self.data@[i as int]@.take(k as int),
                decreases n - k,
            {
                let c = self.data[i][k];
                row.push(c);
                proof {
                    assert(row@ =~= self.data@[i as int]@.take(k as int + 1));
                }
                k = k + 1;
            }
            proof {
                assert(row@ =~= self.data@[i as int]@);
                assert(row.deep_view() =~= self.data@[i as int].deep_view());
            }
            let ghost data_prev = data@;
            let ghost row_snap = row;
            data.push(row);
            proof {
                assert(data@ == data_prev.push(row_snap));
                assert forall|j: int| 0 <= j <= i as int implies (#[trigger] data@[j]).deep_view()
                    == self.data@[j].deep_view() by {
                    if j < i as int {
                        assert(data@[j] == data_prev[j]);
                    } else {
                        assert(data@[j] == row_snap);
                    }
                }
            }
            i = i + 1;
        }
        let r = GapBuffer { data, line_index: self.line_index, col_index: self.col_index };
        proof {
            assert(r@.lines =~= self@.lines);
            assert(r@ =~~= self@);
        }
        r
    }

    /// Inserts `c` at the cursor column of the current row and advances
    /// the cursor one column.
    pub fn push(&mut self, c: char)
        requires
            old(self)@.wf(),
            old(self)@.current_line().len() < usize::MAX,
        ensures
            final(self)@ == insert_char_spec(old(self)@, c),
            final(self)@.wf(),
    {
        self.data[self.line_index].insert(self.col_index, c);
        self.col_index = self.col_index + 1;
        proof {
            assert(self@ =~~= insert_char_spec(old(self)@, c));
        }
    }

    /// Opens a new empty row immediately below the current one and moves
    /// the cursor to its start. Text right of the cursor stays on the
    /// original row.
    pub fn push_line(&mut self)
        requires
            old(self)@.wf(),
            old(self)@.lines.len() < usize::MAX,
        ensures
            final(self)@ == split_line_spec(old(self)@),
            final(self)@.wf(),
    {
        self.data.insert(self.line_index + 1, Vec::new());
        self.line_index = self.line_index + 1;
        self.col_index = 0;
        proof {
            assert(self@ =~~= split_line_spec(old(self)@));
        }
    }

    /// Deletes backward at the cursor: removes the character before the
    /// cursor, or at a row start merges the current row into the one
    /// above; a no-op at the origin.
    pub fn remove(&mut self)
        requires
            old(self)@.wf(),
            old(self)@.line > 0 ==> old(self)@.lines[old(self)@.line - 1].len()
                + old(self)@.current_line().len() <= usize::MAX,
        ensures
            final(self)@ == delete_backward_spec(old(self)@),
            final(self)@.wf(),
    {
        if self.col_index > 0 {
            self.col_index = self.col_index - 1;
            self.data[self.line_index].remove(self.col_index);
            proof {
                assert(self@ =~~= delete_backward_spec(old(self)@));
            }
        } else if self.line_index > 0 {
            let mut row = self.data.remove(self.line_index);
            self.line_index = self.line_index - 1;
            self.col_index = self.data[self.line_index].len();
            self.data[self.line_index].append(&mut row);
            proof {
                assert(self@.lines =~~= delete_backward_spec(old(self)@).lines);
                assert(self@ =~~= delete_backward_spec(old(self)@));
            }
        }
    }

    /// Moves the cursor one column left, wrapping to the end of the
    /// previous row at a row start; a no-op at the origin.
    pub fn move_left(&mut self)
        requires
            old(self)@.wf(),
        ensures
            final(self)@ == move_left_spec(old(self)@),
            final(self)@.wf(),
    {
        if self.col_index == 0 {
            if self.line_index > 0 {
                self.line_index = self.line_index - 1;
                self.col_index = self.data[self.line_index].len();
            }
        } else {
            self.col_index = self.col_index - 1;
        }
    }

    /// Moves the cursor one column right, wrapping to the start of the
    /// next row at a row end; a no-op at the very end of the buffer.
    pub fn move_right(&mut self)
        requires
            old(self)@.wf(),
        ensures
            final(self)@ == move_right_spec(old(self)@),
            final(self)@.wf(),
    {
        let n = self.data.len();
        if self.col_index == self.data[self.line_index].len() {
            if self.line_index + 1 < n {
                self.line_index = self.line_index + 1;
                self.col_index = 0;
            }
        } else {
            self.col_index = self.col_index + 1;
        }
    }

    /// Moves the cursor one row up, clamping the column to the target
    /// row's length; a no-op on the first row.
    pub fn move_up(&mut self)
        requires
            old(self)@.wf(),
        ensures
            final(self)@ == move_up_spec(old(self)@),
            final(self)@.wf(),
    {
        if self.line_index > 0 {
            if self.data[self.line_index - 1].len() > self.col_index {
                self.line_index = self.line_index - 1;
            } else {
                self.line_index = self.line_index - 1;
                self.col_index = self.data[self.line_index].len();
            }
        }
    }

    /// Moves the cursor one row down, clamping the column to the target
    /// row's length; a no-op on the last row.
    pub fn move_down(&mut self)
        requires
            old(self)@.wf(),
        ensures
            final(self)@ == move_down_spec(old(self)@),
            final(self)@.wf(),
    {
        let n = self.data.len();
        if self.line_index + 1 < n {
            if self.data[self.line_index + 1].len() > self.col_index {
                self.line_index = self.line_index + 1;
            } else {
                self.line_index = self.line_index + 1;
                self.col_index = self.data[self.line_index].len();
            }
        }
    }

    /// Serializes the buffer: the rows joined with a newline between each
    /// adjacent pair and no trailing newline after the last.
    pub fn to_string(&self) -> (r: String)
        ensures
            r@ == join_lines(self@.lines),
    {
        let mut result = String::new();
        let n = self.data.len();
        let mut i: usize = 0;
        while i < n
            invariant
                i <= n,
                n == self.data@.len(),
                i == 0 ==> result@ == Seq::<char>::empty(),
                1 <= i < n ==> result@ == join_lines(self.data.deep_view().take(i as int)).push(
                    '\n',
                ),
                i == n && n >= 1 ==> result@ == join_lines(self.data.deep_view()),
            decreases n - i,
        {
            let ghost lines = self.data.deep_view();
            let ghost result_before = result@;
            let row = &self.data[i];
            let m = row.len();
            let mut k: usize = 0;
            proof {
                assert(result@ =~= result_before + self.data@[i as int]@.take(0));
            }
            while k < m
                invariant
                    k <= m,
                    i < self.data@.len(),
                    row@ == self.data@[i as int]@,
                    m == self.data@[i as int]@.len(),
                    result@ == result_before + self.data@[i as int]@.take(k as int),
                decreases m - k,
            {
                let c = row[k];
                result.push(c);
                proof {
                    assert(result@ =~= result_before + self.data@[i as int]@.take(k as int + 1));
                }
                k = k + 1;
            }
            proof {
                assert(self.data@[i as int]@.take(m as int) =~= lines[i as int]);
                assert(result@ == result_before + lines[i as int]);
                if i == 0 {
                    assert(lines.take(1) =~= seq![lines[0]]);
                    assert(join_lines(lines.take(1)) == lines[0]);
                    assert(result@ =~= lines[0]);
                } else {
                    assert(lines.take(i as int + 1).drop_last() =~= lines.take(i as int));
                    assert(lines.take(i as int + 1).last() == lines[i as int]);
                    assert(result@ =~= join_lines(lines.take(i as int)).push('\n')
                        + lines[i as int]);
                    assert(join_lines(lines.take(i as int)).push('\n')
                        =~= join_lines(lines.take(i as int)) + seq!['\n']);
                    assert(result@ =~= join_lines(lines.take(i as int + 1)));
                }
                assert(i + 1 == n ==> lines.take(i as int + 1) =~= lines);
            }
            if i + 1 < n {
                result.push('\n');
            }
            i = i + 1;
        }
        proof {
            if n == 0 {
                assert(result@ =~= join_lines(self.data.deep_view()));
            }
        }
        result
    }
}

} // verus!
