//! The document model: the row store, cursor and viewport, selection, and the
//! text framing used when a document is loaded from or saved to a file.
use vstd::prelude::*;
use crate::render::{
    render_of, render_col, is_cx_for_rx, render_row, col_to_render, render_to_col,
};
use crate::text::{string_of, chars_of};
use crate::persist::{scan_lines, lines_of, joined};

verus! {

/// One line of the document: its characters, and the display string derived from them.
pub struct Erow {
    /// Position of the row in the document.
    idx: usize,
    /// The characters as typed, without a line terminator.
    contents: Vec<char>,
    /// The display string, tabs expanded; always `render_of(contents)`.
    render: Vec<char>,
    /// Highlight tag per character; nothing fills it yet.
    highlight: Vec<u8>,
    /// Whether a multi-line comment runs on past this row; nothing sets it yet.
    comment_open: bool,
}

impl View for Erow {
    type V = Seq<char>;

    closed spec fn view(&self) -> Seq<char> {
        self.contents@
    }
}

impl Erow {
    /// The position this row records for itself in the document.
    pub closed spec fn row_index(&self) -> usize {
        self.idx
    }

    /// The cached render matches the contents.
    pub closed spec fn wf(&self) -> bool {
        self.render@ == render_of(self.contents@)
    }

    fn new(idx: usize, contents: Vec<char>) -> (r: Erow)
        ensures
            r@ == contents@,
            r.row_index() == idx,
            r.wf(),
    {
        let render = render_row(&contents);
        Erow { idx, contents, render, highlight: Vec::new(), comment_open: false }
    }

    /// The position this row records for itself in the document.
    pub fn index(&self) -> (r: usize)
        ensures
            r == self.row_index(),
    {
        self.idx
    }

    /// The row's characters.
    pub fn contents(&self) -> (r: String)
        ensures
            r@ == self@,
    {
        string_of(&self.contents)
    }

    /// The row's display string.
    pub fn render(&self) -> (r: String)
        requires
            self.wf(),
        ensures
            r@ == render_of(self@),
    {
        string_of(&self.render)
    }
}

/// The most recent user-facing notification.
pub enum StatusMsg {
    Normal(String),
    Warn(String),
    Error(String),
}

/// The editor's document: rows, cursor, viewport, selection and file metadata.
pub struct Model {
    /// Cursor column, in characters of the cursor's row.
    pub cx: usize,
    /// Cursor row; the row count itself stands for the position past the last row.
    pub cy: usize,
    /// Visual column of the cursor, derived from `cx`.
    pub rx: usize,
    /// First visible row.
    pub rowoff: usize,
    /// First visible column.
    pub coloff: usize,
    /// Edits since the document was last loaded or saved.
    pub dirty: usize,
    pub filename: String,
    pub path: String,
    pub ext: String,
    pub status_msg: StatusMsg,
    /// Selection endpoints as `(cx, cy)`, in either order.
    pub anchor_start: (usize, usize),
    pub anchor_end: (usize, usize),
    pub text_selected: bool,
    pub mode: char,
    /// The rows in document order; change them only through the methods
    /// below, which keep every row's index and render current.
    pub rows: Vec<Erow>,
}

/// Every row records its own position and has an up-to-date render.
pub open spec fn rows_wf(rows: Seq<Erow>) -> bool {
    forall|i: int| 0 <= i < rows.len() ==> (#[trigger] rows[i]).row_index() == i && rows[i].wf()
}

/// The characters of each row, in order.
pub open spec fn rows_text(rows: Seq<Erow>) -> Seq<Seq<char>> {
    Seq::new(rows.len(), |i: int| rows[i]@)
}

/// Every row of a well-formed document records its own position, whatever
/// sequence of insertions and removals produced it.
pub proof fn lemma_indices_match_positions(m: &Model)
    requires
        m.wf(),
    ensures
        m.indices().len() == m.text().len(),
        forall|i: int| 0 <= i < m.indices().len() ==> m.indices()[i] == i,
{
}

/// The two anchors, earlier one first: by row, then by column on one row.
pub open spec fn ordered_anchors(a: (usize, usize), b: (usize, usize)) -> (
    (usize, usize),
    (usize, usize),
) {
    if b.1 < a.1 || (a.1 == b.1 && a.0 > b.0) {
        (b, a)
    } else {
        (a, b)
    }
}

/// Gives each row from `from` on its position as its index.
fn renumber(rows: &mut Vec<Erow>, from: usize)
    requires
        forall|i: int| 0 <= i < from && i < old(rows)@.len() ==> (#[trigger] old(rows)@[i]).row_index() == i,
        forall|i: int| 0 <= i < old(rows)@.len() ==> (#[trigger] old(rows)@[i]).wf(),
    ensures
        rows_wf(final(rows)@),
        rows_text(final(rows)@) == rows_text(old(rows)@),
        final(rows)@.len() == old(rows)@.len(),
        forall|i: int| 0 <= i < final(rows)@.len() ==> (#[trigger] final(rows)@[i])@ == old(rows)@[i]@,
{
    let mut j: usize = from;
    while j < rows.len()
        invariant
            rows@.len() == old(rows)@.len(),
            forall|i: int| 0 <= i < j && i < rows@.len() ==> (#[trigger] rows@[i]).row_index() == i,
            forall|i: int| 0 <= i < rows@.len() ==> (#[trigger] rows@[i]).wf(),
            forall|i: int| 0 <= i < rows@.len() ==> (#[trigger] rows@[i])@ == old(rows)@[i]@,
        decreases rows.len() - j,
    {
        rows[j].idx = j;
        j = j + 1;
    }
    assert(rows_text(rows@) =~= rows_text(old(rows)@));
}

impl Model {
    /// The rows' characters, in document order.
    pub open spec fn text(&self) -> Seq<Seq<char>> {
        rows_text(self.rows@)
    }

    /// The index each row records, in document order.
    pub open spec fn indices(&self) -> Seq<usize> {
        Seq::new(self.rows@.len(), |i: int| self.rows@[i].row_index())
    }

    /// Row indices are contiguous from zero and every render is current.
    pub open spec fn wf(&self) -> bool {
        rows_wf(self.rows@)
    }

    /// Length of row `y`; zero for a row past the end.
    pub open spec fn row_len_spec(&self, y: int) -> nat {
        if 0 <= y < self.text().len() {
            self.text()[y].len()
        } else {
            0
        }
    }

    /// The cursor stands on a row of the document or just past the last one,
    /// and within its row.
    pub open spec fn cursor_valid(&self) -> bool {
        &&& self.cy <= self.text().len()
        &&& self.cx <= self.row_len_spec(self.cy as int)
    }

    /// Visual column of the cursor.
    pub open spec fn cursor_rx(&self) -> nat {
        if self.cy < self.text().len() {
            render_col(self.text()[self.cy as int], self.cx as int)
        } else {
            0
        }
    }

    /// Everything but the rows, the cursor and the dirty counter is the same.
    pub open spec fn same_meta(&self, o: &Model) -> bool {
        &&& self.rowoff == o.rowoff
        &&& self.coloff == o.coloff
        &&& self.filename == o.filename
        &&& self.path == o.path
        &&& self.ext == o.ext
        &&& self.status_msg == o.status_msg
        &&& self.anchor_start == o.anchor_start
        &&& self.anchor_end == o.anchor_end
        &&& self.text_selected == o.text_selected
        &&& self.mode == o.mode
    }

    /// The cursor is where it was.
    pub open spec fn same_cursor(&self, o: &Model) -> bool {
        self.cx == o.cx && self.cy == o.cy && self.rx == o.rx
    }

    proof fn lemma_wf_rows(&self)
        requires
            self.wf(),
        ensures
            self.rows@.len() == self.text().len(),
            forall|i: int| 0 <= i < self.rows@.len() ==> (#[trigger] self.rows@[i])@ == self.text()[i]
                && self.rows@[i].wf() && self.rows@[i].row_index() == i,
    {
    }

    /// An empty document with the cursor at the origin.
    pub fn new() -> (r: Model)
        ensures
            r.wf(),
            r.text().len() == 0,
            r.cx == 0 && r.cy == 0 && r.rx == 0,
            r.rowoff == 0 && r.coloff == 0,
            r.dirty == 0,
            r.filename@.len() == 0 && r.path@.len() == 0 && r.ext@.len() == 0,
            r.status_msg is Normal,
            r.anchor_start == (0usize, 0usize) && r.anchor_end == (0usize, 0usize),
            !r.text_selected,
            r.mode == 'N',
    {
        let r = Model {
            cx: 0,
            cy: 0,
            rx: 0,
            rowoff: 0,
            coloff: 0,
            dirty: 0,
            filename: String::new(),
            path: String::new(),
            ext: String::new(),
            status_msg: StatusMsg::Normal(
                String::from_str("HELP: Ctrl-S = save | Ctrl-Q = quit | Ctrl-F = find"),
            ),
            anchor_start: (0, 0),
            anchor_end: (0, 0),
            text_selected: false,
            mode: 'N',
            rows: Vec::new(),
        };
        assert(r.text() =~= Seq::<Seq<char>>::empty());
        r
    }

    /// Inserts a row at `idx` and renumbers the rows after it; the dirty
    /// counter is left to the caller.
    fn insert_row_chars(&mut self, idx: usize, line: Vec<char>)
        requires
            old(self).wf(),
            idx <= old(self).text().len(),
        ensures
            final(self).wf(),
            final(self).text() == old(self).text().insert(idx as int, line@),
            final(self).same_meta(old(self)),
            final(self).same_cursor(old(self)),
            final(self).dirty == old(self).dirty,
    {
        proof { self.lemma_wf_rows(); }
        let row = Erow::new(idx, line);
        self.rows.insert(idx, row);
        renumber(&mut self.rows, idx);
        assert(self.text() =~= old(self).text().insert(idx as int, line@));
    }

    /// Removes `count` rows from `idx` on and renumbers the rest; the dirty
    /// counter is left to the caller.
    fn remove_rows(&mut self, idx: usize, count: usize)
        requires
            old(self).wf(),
            idx + count <= old(self).text().len(),
        ensures
            final(self).wf(),
            final(self).text() == old(self).text().subrange(0, idx as int) + old(self).text().subrange(
                idx + count,
                old(self).text().len() as int,
            ),
            final(self).same_meta(old(self)),
            final(self).same_cursor(old(self)),
            final(self).dirty == old(self).dirty,
    {
        proof { self.lemma_wf_rows(); }
        let ghost orig = self.rows@;
        let mut k: usize = 0;
        while k < count
            invariant
                k <= count,
                idx + count <= orig.len(),
                self.rows@ == orig.subrange(0, idx as int) + orig.subrange(idx + k, orig.len() as int),
                self.same_meta(old(self)),
                self.same_cursor(old(self)),
                self.dirty == old(self).dirty,
            decreases count - k,
        {
            self.rows.remove(idx);
            k = k + 1;
            assert(self.rows@ =~= orig.subrange(0, idx as int) + orig.subrange(idx + k, orig.len() as int));
        }
        renumber(&mut self.rows, idx);
        assert(self.text() =~= old(self).text().subrange(0, idx as int) + old(self).text().subrange(
            idx + count,
            old(self).text().len() as int,
        ));
    }

    /// Appends `line` as a new last row.
    pub fn append_row(&mut self, line: String)
        requires
            old(self).wf(),
            old(self).dirty < usize::MAX,
        ensures
            final(self).wf(),
            final(self).text() == old(self).text().push(line@),
            final(self).same_meta(old(self)),
            final(self).same_cursor(old(self)),
            final(self).dirty == old(self).dirty + 1,
    {
        let n = self.num_rows();
        self.insert_row_chars(n, chars_of(line.as_str()));
        assert(old(self).text().insert(n as int, line@) =~= old(self).text().push(line@));
        self.dirty = self.dirty + 1;
    }

    /// Inserts `line` as row `idx`, shifting the rows from `idx` on down by
    /// one. An `idx` past the end changes nothing.
    pub fn insert_row(&mut self, idx: usize, line: String)
        requires
            old(self).wf(),
            old(self).dirty < usize::MAX,
        ensures
            final(self).wf(),
            idx > old(self).text().len() ==> *final(self) == *old(self),
            idx <= old(self).text().len() ==> {
                &&& final(self).text() == old(self).text().insert(idx as int, line@)
                &&& final(self).same_meta(old(self))
                &&& final(self).same_cursor(old(self))
                &&& final(self).dirty == old(self).dirty + 1
            },
    {
        if idx > self.num_rows() {
            return;
        }
        self.insert_row_chars(idx, chars_of(line.as_str()));
        self.dirty = self.dirty + 1;
    }

    /// Removes row `row_idx`, shifting the rows after it up by one.
    pub fn delete_row(&mut self, row_idx: usize)
        requires
            old(self).wf(),
            row_idx < old(self).text().len(),
            old(self).dirty < usize::MAX,
        ensures
            final(self).wf(),
            final(self).text() == old(self).text().remove(row_idx as int),
            final(self).same_meta(old(self)),
            final(self).same_cursor(old(self)),
            final(self).dirty == old(self).dirty + 1,
    {
        self.remove_rows(row_idx, 1);
        assert(old(self).text().subrange(0, row_idx as int) + old(self).text().subrange(
            row_idx + 1,
            old(self).text().len() as int,
        ) =~= old(self).text().remove(row_idx as int));
        self.dirty = self.dirty + 1;
    }

    /// Removes the `num_removed` rows that start at `row_idx`.
    pub fn delete_rows(&mut self, row_idx: usize, num_removed: usize)
        requires
            old(self).wf(),
            row_idx + num_removed <= old(self).text().len(),
            old(self).dirty < usize::MAX,
        ensures
            final(self).wf(),
            final(self).text() == old(self).text().subrange(0, row_idx as int) + old(
                self,
            ).text().subrange(row_idx + num_removed, old(self).text().len() as int),
            final(self).same_meta(old(self)),
            final(self).same_cursor(old(self)),
            final(self).dirty == old(self).dirty + 1,
    {
        self.remove_rows(row_idx, num_removed);
        self.dirty = self.dirty + 1;
    }


    /// Recomputes a row's render from its contents.
    fn update_row_render(row: &mut Erow)
        ensures
            final(row)@ == old(row)@,
            final(row).row_index() == old(row).row_index(),
            final(row).wf(),
    {
        row.render = render_row(&row.contents);
    }

    /// Brings the cached visual column up to date with the cursor.
    fn refresh_rx(&mut self)
        requires
            old(self).wf(),
            old(self).cursor_valid(),
        ensures
            final(self).rx == final(self).cursor_rx(),
            final(self).rows == old(self).rows,
            final(self).cx == old(self).cx,
            final(self).cy == old(self).cy,
            final(self).dirty == old(self).dirty,
            final(self).same_meta(old(self)),
    {
        proof { self.lemma_wf_rows(); }
        if self.cy < self.rows.len() {
            let row = &self.rows[self.cy];
            assert(row.render.len() <= usize::MAX);
            self.rx = col_to_render(&row.contents, self.cx);
        } else {
            self.rx = 0;
        }
    }

    /// Moves the cursor to `(x, y)`, clamping `y` to `[0, num_rows]` and then
    /// `x` to `[0, row_len(y)]`.
    pub fn set_cursor(&mut self, x: usize, y: usize)
        requires
            old(self).wf(),
        ensures
            final(self).wf(),
            final(self).cy == if y <= old(self).text().len() { y } else { old(self).text().len() as usize },
            final(self).cx == if x <= old(self).row_len_spec(final(self).cy as int) {
                x
            } else {
                old(self).row_len_spec(final(self).cy as int) as usize
            },
            final(self).rx == final(self).cursor_rx(),
            final(self).cursor_valid(),
            final(self).rows == old(self).rows,
            final(self).dirty == old(self).dirty,
            final(self).same_meta(old(self)),
    {
        let num_rows = self.num_rows();
        let cy = if y > num_rows { num_rows } else { y };
        let row_len = self.row_len(cy);
        let cx = if x > row_len { row_len } else { x };
        self.cx = cx;
        self.cy = cy;
        self.refresh_rx();
    }

    /// Types `c` at the cursor. On the position past the last row a new empty
    /// row is appended first; the insertion column is clamped to the row.
    pub fn insert_char(&mut self, c: char)
        requires
            old(self).wf(),
            old(self).cy <= old(self).text().len(),
            old(self).dirty < usize::MAX,
        ensures
            final(self).wf(),
            ({
                let t = if old(self).cy == old(self).text().len() {
                    old(self).text().push(Seq::empty())
                } else {
                    old(self).text()
                };
                let row = t[old(self).cy as int];
                let at = if old(self).cx <= row.len() { old(self).cx as int } else { row.len() as int };
                &&& final(self).text() == t.update(old(self).cy as int, row.insert(at, c))
                &&& final(self).cx == at + 1
            }),
            final(self).cy == old(self).cy,
            final(self).rx == final(self).cursor_rx(),
            final(self).cursor_valid(),
            final(self).dirty == old(self).dirty + 1,
            final(self).same_meta(old(self)),
    {
        let num_rows = self.num_rows();
        if self.cy == num_rows {
            self.insert_row_chars(num_rows, Vec::new());
            assert(old(self).text().insert(num_rows as int, Seq::empty()) =~= old(self).text().push(
                Seq::empty(),
            ));
        }
        let ghost t = self.text();
        proof { self.lemma_wf_rows(); }
        let cy = self.cy;
        let len = self.rows[cy].contents.len();
        let at = if self.cx > len { len } else { self.cx };
        self.rows[cy].contents.insert(at, c);
        Model::update_row_render(&mut self.rows[cy]);
        assert(self.text() =~= t.update(cy as int, t[cy as int].insert(at as int, c)));
        assert(self.rows[cy as int].contents.len() <= usize::MAX);
        self.dirty = self.dirty + 1;
        self.cx = at + 1;
        self.refresh_rx();
    }

    /// Breaks the line at the cursor. At column zero an empty row goes in
    /// above the cursor's row; otherwise the row keeps what is left of the
    /// cursor and the rest becomes a new row below it. The cursor moves to the
    /// start of the next row.
    pub fn insert_newline(&mut self)
        requires
            old(self).wf(),
            old(self).cursor_valid(),
            old(self).dirty < usize::MAX,
        ensures
            final(self).wf(),
            old(self).cx == 0 ==> final(self).text() == old(self).text().insert(
                old(self).cy as int,
                Seq::empty(),
            ),
            old(self).cx > 0 ==> ({
                let row = old(self).text()[old(self).cy as int];
                final(self).text() == old(self).text().update(
                    old(self).cy as int,
                    row.subrange(0, old(self).cx as int),
                ).insert(old(self).cy + 1, row.subrange(old(self).cx as int, row.len() as int))
            }),
            final(self).cy == old(self).cy + 1,
            final(self).cx == 0,
            final(self).rx == 0,
            final(self).cursor_valid(),
            final(self).dirty == old(self).dirty + 1,
            final(self).same_meta(old(self)),
    {
        proof { self.lemma_wf_rows(); }
        let cy = self.cy;
        if self.cx == 0 {
            self.insert_row_chars(cy, Vec::new());
        } else {
            assert(old(self).rows.len() <= usize::MAX);
            let ghost t = self.text();
            let leftover = self.rows[cy].contents.split_off(self.cx);
            Model::update_row_render(&mut self.rows[cy]);
            assert(self.text() =~= t.update(cy as int, t[cy as int].subrange(0, self.cx as int)));
            self.insert_row_chars(cy + 1, leftover);
        }
        proof { self.lemma_wf_rows(); }
        assert(self.rows.len() <= usize::MAX);
        self.cy = cy + 1;
        self.cx = 0;
        self.rx = 0;
        self.dirty = self.dirty + 1;
    }


    /// Backspace. Nothing happens past the last row, at the very start of the
    /// document, or with the cursor beyond the end of its row. Otherwise the
    /// character before the cursor goes; at the start of a row, the row is
    /// joined onto the end of the previous one and the cursor moves to the
    /// join.
    pub fn delete_char(&mut self)
        requires
            old(self).wf(),
            old(self).cy <= old(self).text().len(),
            old(self).dirty < usize::MAX,
        ensures
            final(self).wf(),
            ({
                let t = old(self).text();
                let (cx, cy) = (old(self).cx as int, old(self).cy as int);
                if cy == t.len() || (cx == 0 && cy == 0) || cx > t[cy].len() {
                    *final(self) == *old(self)
                } else if cx > 0 {
                    &&& final(self).text() == t.update(cy, t[cy].remove(cx - 1))
                    &&& final(self).cx == cx - 1
                    &&& final(self).cy == cy
                    &&& final(self).dirty == old(self).dirty + 1
                    &&& final(self).rx == final(self).cursor_rx()
                    &&& final(self).same_meta(old(self))
                } else {
                    &&& final(self).text() == t.update(cy - 1, t[cy - 1] + t[cy]).remove(cy)
                    &&& final(self).cx == t[cy - 1].len()
                    &&& final(self).cy == cy - 1
                    &&& final(self).dirty == old(self).dirty + 1
                    &&& final(self).rx == final(self).cursor_rx()
                    &&& final(self).same_meta(old(self))
                }
            }),
            final(self).cursor_valid() || *final(self) == *old(self),
    {
        proof { self.lemma_wf_rows(); }
        let num_rows = self.num_rows();
        if self.cy == num_rows {
            return;
        }
        if self.cx == 0 && self.cy == 0 {
            return;
        }
        let cy = self.cy;
        let ghost t = self.text();
        if self.cx > 0 {
            if self.cx > self.rows[cy].contents.len() {
                return;
            }
            self.rows[cy].contents.remove(self.cx - 1);
            Model::update_row_render(&mut self.rows[cy]);
            assert(self.text() =~= t.update(cy as int, t[cy as int].remove(self.cx - 1)));
            self.dirty = self.dirty + 1;
            self.cx = self.cx - 1;
        } else {
            let mut cur = self.rows.remove(cy);
            renumber(&mut self.rows, cy);
            let prev_len = self.rows[cy - 1].contents.len();
            self.rows[cy - 1].contents.append(&mut cur.contents);
            Model::update_row_render(&mut self.rows[cy - 1]);
            assert(self.text() =~= t.update(cy - 1, t[cy - 1] + t[cy as int]).remove(cy as int));
            self.dirty = self.dirty + 1;
            self.cx = prev_len;
            self.cy = cy - 1;
        }
        self.refresh_rx();
    }

    /// Deletes the text between the two anchors: the earlier anchor's row
    /// keeps what stands before it, followed by what stands after the later
    /// anchor in its row; the rows after the earlier anchor's row, up to and
    /// including the later anchor's row, go. The cursor moves to the earlier
    /// anchor.
    pub fn delete_selection(&mut self)
        requires
            old(self).wf(),
            old(self).anchor_in_text(old(self).anchor_start),
            old(self).anchor_in_text(old(self).anchor_end),
            old(self).dirty < usize::MAX,
        ensures
            final(self).wf(),
            ({
                let (s, e) = ordered_anchors(old(self).anchor_start, old(self).anchor_end);
                let t = old(self).text();
                let merged = t[s.1 as int].subrange(0, s.0 as int) + t[e.1 as int].subrange(
                    e.0 as int,
                    t[e.1 as int].len() as int,
                );
                &&& final(self).text() == t.subrange(0, s.1 as int).push(merged) + t.subrange(
                    e.1 + 1,
                    t.len() as int,
                )
                &&& final(self).cx == s.0
                &&& final(self).cy == s.1
            }),
            final(self).rx == final(self).cursor_rx(),
            final(self).cursor_valid(),
            final(self).dirty == old(self).dirty + 1,
            final(self).same_meta(old(self)),
    {
        proof { self.lemma_wf_rows(); }
        let (s, e) = if self.anchor_end.1 < self.anchor_start.1 || (self.anchor_start.1
            == self.anchor_end.1 && self.anchor_start.0 > self.anchor_end.0) {
            (self.anchor_end, self.anchor_start)
        } else {
            (self.anchor_start, self.anchor_end)
        };
        let ghost t = self.text();
        let mut tail = self.rows[e.1].contents.split_off(e.0);
        Model::update_row_render(&mut self.rows[e.1]);
        self.rows[s.1].contents.truncate(s.0);
        self.rows[s.1].contents.append(&mut tail);
        Model::update_row_render(&mut self.rows[s.1]);
        let ghost merged = t[s.1 as int].subrange(0, s.0 as int) + t[e.1 as int].subrange(
            e.0 as int,
            t[e.1 as int].len() as int,
        );
        assert(self.rows@[s.1 as int]@ =~= merged);
        assert(self.rows.len() <= usize::MAX);
        self.remove_rows(s.1 + 1, e.1 - s.1);
        assert(self.text() =~= t.subrange(0, s.1 as int).push(merged) + t.subrange(
            e.1 + 1,
            t.len() as int,
        ));
        self.cx = s.0;
        self.cy = s.1;
        self.dirty = self.dirty + 1;
        self.refresh_rx();
    }

    /// `a` is a position inside the document: on an existing row, at most at
    /// its end.
    pub open spec fn anchor_in_text(&self, a: (usize, usize)) -> bool {
        a.1 < self.text().len() && a.0 <= self.text()[a.1 as int].len()
    }

    /// Visual column of logical column `cx` in `row`.
    pub fn cx_to_rx(&self, row: &Erow, cx: usize) -> (rx: usize)
        requires
            row.wf(),
            cx <= row@.len(),
        ensures
            rx == render_col(row@, cx as int),
    {
        assert(row.render.len() <= usize::MAX);
        col_to_render(&row.contents, cx)
    }

    /// Logical column of `row` that holds visual column `rx`; the row's length
    /// when `rx` lies at or past the end of its render.
    pub fn rx_to_cx(&self, row: &Erow, rx: usize) -> (cx: usize)
        ensures
            is_cx_for_rx(row@, rx as int, cx as int),
    {
        render_to_col(&row.contents, rx)
    }

    /// The row under the cursor.
    pub fn get_cur_row(&self) -> (r: &Erow)
        requires
            self.wf(),
            self.cy < self.text().len(),
        ensures
            r@ == self.text()[self.cy as int],
            r.row_index() == self.cy,
            r.wf(),
    {
        proof { self.lemma_wf_rows(); }
        &self.rows[self.cy]
    }

    /// Visual columns `start..end` of row `row_idx`'s render, `end` clamped
    /// to the render's width; empty when `start` lies beyond that. `None` for
    /// a row past the end.
    pub fn get_render(&self, row_idx: usize, start: usize, end: usize) -> (r: Option<String>)
        requires
            self.wf(),
        ensures
            row_idx >= self.text().len() ==> r is None,
            row_idx < self.text().len() ==> ({
                let rend = render_of(self.text()[row_idx as int]);
                let stop = if end <= rend.len() { end as int } else { rend.len() as int };
                &&& r is Some
                &&& start <= stop ==> r->0@ == rend.subrange(start as int, stop)
                &&& start > stop ==> r->0@ == Seq::<char>::empty()
            }),
    {
        proof { self.lemma_wf_rows(); }
        if row_idx >= self.rows.len() {
            return None;
        }
        let render = &self.rows[row_idx].render;
        let stop = if end <= render.len() { end } else { render.len() };
        let mut piece: Vec<char> = Vec::new();
        let mut i: usize = start;
        while i < stop
            invariant
                start <= i <= stop || (start > stop && i == start),
                stop <= render.len(),
                i <= stop ==> piece@ == render@.subrange(start as int, i as int),
                i > stop ==> piece@ == Seq::<char>::empty(),
            decreases stop - i,
        {
            piece.push(render[i]);
            i = i + 1;
            assert(piece@ =~= render@.subrange(start as int, i as int));
        }
        proof {
            if start <= stop {
                assert(render@.subrange(start as int, start as int) =~= Seq::<char>::empty());
            }
        }
        Some(string_of(&piece))
    }


    /// Loads a file's text: each of its lines is appended as a row, and the
    /// document counts as unchanged.
    pub fn load_text(&mut self, text: &str)
        requires
            old(self).wf(),
        ensures
            final(self).wf(),
            final(self).text() == old(self).text() + lines_of(text@),
            final(self).dirty == 0,
            final(self).same_cursor(old(self)),
            final(self).same_meta(old(self)),
    {
        let ghost t0 = self.text();
        let mut open: Vec<char> = Vec::new();
        proof {
            assert(text@.take(0) =~= Seq::<char>::empty());
            assert(t0 + Seq::<Seq<char>>::empty() =~= t0);
        }
        for c in it: text.chars()
            invariant
                it.seq() == text@,
                self.wf(),
                self.text() == t0 + scan_lines(it.seq().take(it.index() as int)).0,
                open@ == scan_lines(it.seq().take(it.index() as int)).1,
                self.same_cursor(old(self)),
                self.same_meta(old(self)),
        {
            let ghost pre = it.seq().take(it.index() as int);
            let ghost next = it.seq().take(it.index() + 1);
            assert(next.drop_last() =~= pre);
            if c == '\n' {
                let len = open.len();
                if len > 0 && open[len - 1] == '\r' {
                    open.pop();
                }
                let n = self.num_rows();
                self.insert_row_chars(n, open);
                open = Vec::new();
                assert(self.text() =~= t0 + scan_lines(next).0);
            } else {
                open.push(c);
            }
        }
        assert(text@.take(text@.len() as int) =~= text@);
        if open.len() > 0 {
            let n = self.num_rows();
            let ghost last = open@;
            self.insert_row_chars(n, open);
            assert(self.text() =~= t0 + scan_lines(text@).0.push(last));
        }
        self.dirty = 0;
    }

    /// The text the document saves as: every row followed by a newline.
    pub fn save_text(&self) -> (r: String)
        requires
            self.wf(),
        ensures
            r@ == joined(self.text()),
    {
        proof { self.lemma_wf_rows(); }
        let mut out: Vec<char> = Vec::new();
        let mut i: usize = 0;
        proof {
            assert(self.text().take(0) =~= Seq::<Seq<char>>::empty());
        }
        while i < self.rows.len()
            invariant
                i <= self.rows.len(),
                self.rows@.len() == self.text().len(),
                forall|k: int| 0 <= k < self.rows@.len() ==> (#[trigger] self.rows@[k])@ == self.text()[k],
                out@ == joined(self.text().take(i as int)),
            decreases self.rows.len() - i,
        {
            let row = &self.rows[i].contents;
            let ghost base = out@;
            let mut j: usize = 0;
            while j < row.len()
                invariant
                    j <= row.len(),
                    out@ == base + row@.take(j as int),
                decreases row.len() - j,
            {
                out.push(row[j]);
                j = j + 1;
                assert(out@ =~= base + row@.take(j as int));
            }
            out.push('\n');
            proof {
                let next = self.text().take(i + 1);
                assert(next.drop_last() =~= self.text().take(i as int));
                assert(row@.take(j as int) =~= row@);
                assert(out@ =~= joined(self.text().take(i as int)) + next.last().push('\n'));
            }
            i = i + 1;
        }
        assert(self.text().take(i as int) =~= self.text());
        string_of(&out)
    }

    /// Records a successful save: the document counts as unchanged.
    pub fn mark_saved(&mut self)
        ensures
            final(self).dirty == 0,
            final(self).rows == old(self).rows,
            final(self).same_cursor(old(self)),
            final(self).same_meta(old(self)),
    {
        self.dirty = 0;
    }

    /// Number of rows.
    pub fn num_rows(&self) -> (r: usize)
        ensures
            r == self.rows@.len(),
            self.wf() ==> r == self.text().len(),
    {
        self.rows.len()
    }

    /// Length of row `row_idx`; zero for a row past the end.
    pub fn row_len(&self, row_idx: usize) -> (r: usize)
        requires
            self.wf(),
        ensures
            r == self.row_len_spec(row_idx as int),
    {
        proof { self.lemma_wf_rows(); }
        if row_idx >= self.rows.len() {
            0
        } else {
            self.rows[row_idx].contents.len()
        }
    }

    /// Length of the cursor's row; zero past the last row.
    pub fn cur_row_len(&self) -> (r: usize)
        requires
            self.wf(),
        ensures
            r == self.row_len_spec(self.cy as int),
    {
        self.row_len(self.cy)
    }
}

} // verus!
