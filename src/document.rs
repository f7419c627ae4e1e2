use vstd::prelude::*;
use crate::strings::{chars_of, push_char};

verus! {

/// One unit of document text: a character, or the break between two lines.
#[derive(Debug, Clone, Copy, PartialEq, Eq, Structural)]
pub enum Cell {
    Char(char),
    NewLine,
}

/// Index just past the last line break strictly before `pos` (0 when there is none):
/// the first index of the line that holds `pos`.
pub open spec fn line_start(s: Seq<Cell>, pos: int) -> int
    decreases pos,
{
    if pos <= 0 {
        0
    } else if s[pos - 1] is NewLine {
        pos
    } else {
        line_start(s, pos - 1)
    }
}

/// Index of the first line break at or after `pos`, or `s.len()` when there is none:
/// the end of the line that holds `pos`.
pub open spec fn line_end(s: Seq<Cell>, pos: int) -> int
    decreases s.len() - pos,
{
    if pos >= s.len() {
        s.len() as int
    } else if s[pos] is NewLine {
        pos
    } else {
        line_end(s, pos + 1)
    }
}

/// Number of line breaks among the first `n` cells.
pub open spec fn newlines_before(s: Seq<Cell>, n: int) -> nat
    decreases n,
{
    if n <= 0 {
        0
    } else {
        newlines_before(s, n - 1) + if s[n - 1] is NewLine { 1nat } else { 0nat }
    }
}

pub open spec fn min_int(a: int, b: int) -> int {
    if a <= b { a } else { b }
}

/// Column of `pos` within its line.
pub open spec fn column(s: Seq<Cell>, pos: int) -> int {
    pos - line_start(s, pos)
}

/// Where the cursor goes when it moves one line down from `pos`: the same column on the
/// next line, or that line's end when it is shorter; the end of the text from the last line.
pub open spec fn down_pos(s: Seq<Cell>, pos: int) -> int {
    let e = line_end(s, pos);
    if e >= s.len() {
        s.len() as int
    } else {
        let ns = e + 1;
        ns + min_int(column(s, pos), line_end(s, ns) - ns)
    }
}

/// Where the cursor goes when it moves one line up from `pos`: the same column on the
/// previous line, or that line's end when it is shorter; index 0 from the first line.
pub open spec fn up_pos(s: Seq<Cell>, pos: int) -> int {
    let ls = line_start(s, pos);
    if ls == 0 {
        0
    } else {
        let ps = line_start(s, ls - 1);
        ps + min_int(column(s, pos), (ls - 1) - ps)
    }
}

pub open spec fn char_cell(c: char) -> Cell {
    Cell::Char(c)
}

/// The cells of one line of text.
pub open spec fn line_cells(chars: Seq<char>) -> Seq<Cell> {
    Seq::new(chars.len(), |i: int| char_cell(chars[i]))
}

/// The cells of a text given as its lines: each line's characters followed by a break.
pub open spec fn cells_of_lines(lines: Seq<Seq<char>>) -> Seq<Cell>
    decreases lines.len(),
{
    if lines.len() == 0 {
        Seq::empty()
    } else {
        cells_of_lines(lines.drop_last()) + line_cells(lines.last())
            + seq![Cell::NewLine]
    }
}

/// The cells that loading the given lines produces: the break after the last line is dropped.
pub open spec fn loaded_cells(lines: Seq<Seq<char>>) -> Seq<Cell> {
    let all = cells_of_lines(lines);
    if all.len() == 0 {
        all
    } else {
        all.drop_last()
    }
}

pub open spec fn cell_text(c: Cell) -> char {
    match c {
        Cell::Char(ch) => ch,
        Cell::NewLine => '\n',
    }
}

/// The text that a sequence of cells stands for, each break written as `'\n'`.
pub open spec fn text_of(s: Seq<Cell>) -> Seq<char> {
    Seq::new(s.len(), |i: int| cell_text(s[i]))
}

/// The lines joined with `'\n'` between them.
pub open spec fn join_lines(lines: Seq<Seq<char>>) -> Seq<char>
    decreases lines.len(),
{
    if lines.len() == 0 {
        Seq::empty()
    } else if lines.len() == 1 {
        lines[0]
    } else {
        join_lines(lines.drop_last()) + seq!['\n'] + lines.last()
    }
}

pub proof fn lemma_line_start_bounds(s: Seq<Cell>, pos: int)
    requires
        0 <= pos <= s.len(),
    ensures
        0 <= line_start(s, pos) <= pos,
        line_start(s, pos) > 0 ==> s[line_start(s, pos) - 1] is NewLine,
        forall|k: int| line_start(s, pos) <= k < pos ==> s[k] is Char,
    decreases pos,
{
    if pos > 0 && !(s[pos - 1] is NewLine) {
        lemma_line_start_bounds(s, pos - 1);
    }
}

pub proof fn lemma_line_end_bounds(s: Seq<Cell>, pos: int)
    requires
        0 <= pos <= s.len(),
    ensures
        pos <= line_end(s, pos) <= s.len(),
        line_end(s, pos) < s.len() ==> s[line_end(s, pos)] is NewLine,
        forall|k: int| pos <= k < line_end(s, pos) ==> s[k] is Char,
    decreases s.len() - pos,
{
    if pos < s.len() && !(s[pos] is NewLine) {
        lemma_line_end_bounds(s, pos + 1);
    }
}

/// A line start is found from any position that only characters separate from it.
pub proof fn lemma_line_start_of(s: Seq<Cell>, a: int, pos: int)
    requires
        0 <= a <= pos <= s.len(),
        a == 0 || s[a - 1] is NewLine,
        forall|k: int| a <= k < pos ==> s[k] is Char,
    ensures
        line_start(s, pos) == a,
    decreases pos,
{
    if pos > a {
        lemma_line_start_of(s, a, pos - 1);
    }
}

pub proof fn lemma_down_pos_bounds(s: Seq<Cell>, pos: int)
    requires
        0 <= pos <= s.len(),
    ensures
        0 <= down_pos(s, pos) <= s.len(),
{
    lemma_line_start_bounds(s, pos);
    lemma_line_end_bounds(s, pos);
    let e = line_end(s, pos);
    if e < s.len() {
        lemma_line_end_bounds(s, e + 1);
    }
}

pub proof fn lemma_up_pos_bounds(s: Seq<Cell>, pos: int)
    requires
        0 <= pos <= s.len(),
    ensures
        0 <= up_pos(s, pos) <= pos,
{
    lemma_line_start_bounds(s, pos);
    let ls = line_start(s, pos);
    if ls > 0 {
        lemma_line_start_bounds(s, ls - 1);
    }
}

/// Moving down from a line that has a next line, then up again, comes back to the first
/// line, at the original column when the next line is at least that long and at the next
/// line's length otherwise.
pub proof fn lemma_down_then_up(s: Seq<Cell>, pos: int)
    requires
        0 <= pos <= s.len(),
        line_end(s, pos) < s.len(),
    ensures
        up_pos(s, down_pos(s, pos)) == line_start(s, pos) + min_int(
            column(s, pos),
            line_end(s, line_end(s, pos) + 1) - (line_end(s, pos) + 1),
        ),
        line_end(s, line_end(s, pos) + 1) - (line_end(s, pos) + 1) >= column(s, pos)
            ==> up_pos(s, down_pos(s, pos)) == pos,
{
    lemma_line_start_bounds(s, pos);
    lemma_line_end_bounds(s, pos);
    let ls = line_start(s, pos);
    let e = line_end(s, pos);
    let ns = e + 1;
    lemma_line_end_bounds(s, ns);
    let ne = line_end(s, ns);
    let d = down_pos(s, pos);
    assert(d == ns + min_int(column(s, pos), ne - ns));
    lemma_line_start_of(s, ns, d);
    assert forall|k: int| ls <= k < e implies s[k] is Char by {
        if k >= pos {
        }
    }
    lemma_line_start_of(s, ls, e);
}

/// Saving right after loading writes the loaded lines joined by `'\n'`: the file as it
/// was, but for a break at its very end.
pub proof fn lemma_load_then_save(lines: Seq<Seq<char>>)
    ensures
        text_of(loaded_cells(lines)) == join_lines(lines),
    decreases lines.len(),
{
    if lines.len() == 0 {
        assert(text_of(loaded_cells(lines)) =~= join_lines(lines));
    } else {
        let init = lines.drop_last();
        lemma_load_then_save(init);
        lemma_text_of_line(lines.last());
        if init.len() == 0 {
            let body = line_cells(lines.last());
            assert(cells_of_lines(init) =~= Seq::empty());
            assert(cells_of_lines(lines) == cells_of_lines(init) + body + seq![Cell::NewLine]);
            assert(cells_of_lines(lines).drop_last() =~= body);
            assert(loaded_cells(lines) =~= line_cells(lines.last()));
            assert(text_of(loaded_cells(lines)) =~= join_lines(lines));
        } else {
            let prev = cells_of_lines(init);
            lemma_cells_of_lines_ends_in_break(init);
            let body = line_cells(lines.last());
            assert(cells_of_lines(lines) == prev + body + seq![Cell::NewLine]);
            assert(cells_of_lines(lines).drop_last() =~= prev + body);
            assert(prev == loaded_cells(init) + seq![Cell::NewLine]);
            assert(loaded_cells(lines) =~= loaded_cells(init) + seq![Cell::NewLine] + body);
            assert(text_of(loaded_cells(lines)) =~= text_of(loaded_cells(init)) + seq!['\n']
                + text_of(body));
        }
    }
}

proof fn lemma_cells_of_lines_ends_in_break(lines: Seq<Seq<char>>)
    requires
        lines.len() > 0,
    ensures
        cells_of_lines(lines).len() > 0,
        cells_of_lines(lines).last() == Cell::NewLine,
        cells_of_lines(lines).drop_last() + seq![Cell::NewLine] == cells_of_lines(lines),
{
    let all = cells_of_lines(lines);
    let front = cells_of_lines(lines.drop_last()) + line_cells(lines.last());
    assert(all == front + seq![Cell::NewLine]);
    assert(all.drop_last() =~= front);
    assert(all.drop_last() + seq![Cell::NewLine] =~= all);
}

proof fn lemma_text_of_line(chars: Seq<char>)
    ensures
        text_of(line_cells(chars)) == chars,
{
    assert forall|i: int| 0 <= i < chars.len() implies text_of(line_cells(chars))[i] == chars[i] by {
        assert(line_cells(chars)[i] == Cell::Char(chars[i]));
    }
    assert(text_of(line_cells(chars)) =~= chars);
}

} // verus!

verus! {

/// The character views of a sequence of strings.
pub open spec fn lines_view(lines: Seq<String>) -> Seq<Seq<char>> {
    Seq::new(lines.len(), |i: int| lines[i]@)
}

/// A text being edited: its cells, a cursor in `[0, cells.len()]`, a display name, the
/// file type that picks its highlighting rules, and the path it is saved to.
pub struct Document {
    pub cells: Vec<Cell>,
    pub cursor_pos: usize,
    pub name: String,
    pub file_type: Option<String>,
    pub path: String,
}

impl Document {
    /// The cursor lies within the text or just after its last cell.
    pub open spec fn wf(&self) -> bool {
        self.cursor_pos <= self.cells@.len()
    }

    /// An empty, unsaved document.
    pub fn new(name: String, path: String) -> (r: Self)
        ensures
            r.wf(),
            r.cells@ == Seq::<Cell>::empty(),
            r.cursor_pos == 0,
            r.name@ == name@,
            r.path@ == path@,
            r.file_type is None,
    {
        Document { cells: Vec::new(), cursor_pos: 0, name, file_type: None, path }
    }

    /// A document holding the given lines of a file, with the cursor at its start.
    pub fn from_lines(name: String, path: String, file_type: Option<String>, lines: &Vec<String>) -> (r: Self)
        ensures
            r.wf(),
            r.cells@ == loaded_cells(lines_view(lines@)),
            r.cursor_pos == 0,
            r.name@ == name@,
            r.path@ == path@,
            r.file_type == file_type,
    {
        let ghost lv = lines_view(lines@);
        let mut cells: Vec<Cell> = Vec::new();
        let mut i: usize = 0;
        while i < lines.len()
            invariant
                i <= lines@.len(),
                lv == lines_view(lines@),
                cells@ == cells_of_lines(lv.take(i as int)),
            decreases lines@.len() - i,
        {
            let cs = chars_of(lines[i].as_str());
            let ghost before = cells@;
            let mut j: usize = 0;
            while j < cs.len()
                invariant
                    j <= cs@.len(),
                    cells@ == before + line_cells(cs@.take(j as int)),
                decreases cs@.len() - j,
            {
                cells.push(Cell::Char(cs[j]));
                j = j + 1;
                assert(line_cells(cs@.take(j as int)) =~= line_cells(cs@.take(j - 1)).push(char_cell(cs@[j - 1])));
                assert(cells@ =~= before + line_cells(cs@.take(j as int)));
            }
            cells.push(Cell::NewLine);
            i = i + 1;
            assert(lv.take(i as int).drop_last() =~= lv.take(i - 1));
            assert(cs@.take(cs@.len() as int) =~= lv.take(i as int).last());
            assert(cells@ =~= cells_of_lines(lv.take(i as int)));
        }
        assert(lv.take(lines@.len() as int) =~= lv);
        if cells.len() > 0 {
            cells.pop();
        }
        Document { cells, cursor_pos: 0, name, file_type, path }
    }

    /// The text that the document stands for, each line break written as `'\n'`.
    pub fn text(&self) -> (r: String)
        ensures
            r@ == text_of(self.cells@),
    {
        let mut content = String::new();
        let mut i: usize = 0;
        while i < self.cells.len()
            invariant
                i <= self.cells@.len(),
                content@ == text_of(self.cells@.take(i as int)),
            decreases self.cells@.len() - i,
        {
            match self.cells[i] {
                Cell::Char(c) => push_char(&mut content, c),
                Cell::NewLine => push_char(&mut content, '\n'),
            }
            i = i + 1;
            assert(content@ =~= text_of(self.cells@.take(i as int)));
        }
        assert(self.cells@.take(i as int) =~= self.cells@);
        content
    }

    /// The number of line breaks before the cursor: the index of the cursor's line.
    pub fn current_line(&self) -> (r: usize)
        requires
            self.wf(),
        ensures
            r == newlines_before(self.cells@, self.cursor_pos as int),
            r <= self.cursor_pos,
    {
        let mut line: usize = 0;
        let mut i: usize = 0;
        while i < self.cursor_pos
            invariant
                self.wf(),
                i <= self.cursor_pos,
                line <= i,
                line == newlines_before(self.cells@, i as int),
            decreases self.cursor_pos - i,
        {
            if let Cell::NewLine = self.cells[i] {
                line = line + 1;
            }
            i = i + 1;
        }
        line
    }

    /// Inserts `cell` at the cursor and moves the cursor past it.
    pub fn insert(&mut self, cell: Cell)
        requires
            old(self).wf(),
            old(self).cells@.len() < usize::MAX,
        ensures
            final(self).wf(),
            final(self).cells@ == old(self).cells@.insert(old(self).cursor_pos as int, cell),
            final(self).cursor_pos == old(self).cursor_pos + 1,
            final(self).name == old(self).name,
            final(self).path == old(self).path,
            final(self).file_type == old(self).file_type,
    {
        self.cells.insert(self.cursor_pos, cell);
        self.cursor_pos = self.cursor_pos + 1;
    }

    /// Removes the cell at `index` and returns true; returns false and changes nothing
    /// when there is no such cell. The cursor is left where it was: moving it is the
    /// caller's part, and the document stays well formed when the cursor was before its
    /// last cell.
    pub fn delete(&mut self, index: usize) -> (r: bool)
        requires
            old(self).wf(),
        ensures
            r == (index < old(self).cells@.len()),
            r ==> final(self).cells@ == old(self).cells@.remove(index as int),
            final(self).cursor_pos == old(self).cursor_pos,
            !r ==> *final(self) == *old(self),
            !r || old(self).cursor_pos < old(self).cells@.len() ==> final(self).wf(),
            final(self).name == old(self).name,
            final(self).path == old(self).path,
            final(self).file_type == old(self).file_type,
    {
        if index < self.cells.len() {
            self.cells.remove(index);
            true
        } else {
            false
        }
    }

    /// Moves the cursor one cell right, unless it is at the end.
    pub fn move_cursor_right(&mut self)
        requires
            old(self).wf(),
        ensures
            final(self).wf(),
            final(self).cells == old(self).cells,
            final(self).cursor_pos == min_int(old(self).cursor_pos + 1, old(self).cells@.len() as int),
            final(self).name == old(self).name,
            final(self).path == old(self).path,
            final(self).file_type == old(self).file_type,
    {
        if self.cursor_pos < self.cells.len() {
            self.cursor_pos = self.cursor_pos + 1;
        }
    }

    /// Moves the cursor one cell left, unless it is at the start.
    pub fn move_cursor_left(&mut self)
        requires
            old(self).wf(),
        ensures
            final(self).wf(),
            final(self).cells == old(self).cells,
            final(self).cursor_pos == if old(self).cursor_pos == 0 { 0 } else { old(self).cursor_pos - 1 },
            final(self).name == old(self).name,
            final(self).path == old(self).path,
            final(self).file_type == old(self).file_type,
    {
        if self.cursor_pos != 0 {
            self.cursor_pos = self.cursor_pos - 1;
        }
    }

    /// Walks back from `pos` to the first index of its line.
    pub(crate) fn line_start_at(&self, pos: usize) -> (r: usize)
        requires
            pos <= self.cells@.len(),
        ensures
            r == line_start(self.cells@, pos as int),
    {
        let mut p = pos;
        while p > 0
            invariant
                p <= pos <= self.cells@.len(),
                line_start(self.cells@, p as int) == line_start(self.cells@, pos as int),
            decreases p,
        {
            if let Cell::NewLine = self.cells[p - 1] {
                return p;
            }
            p = p - 1;
        }
        p
    }

    /// Walks forward from `pos` to the end of its line.
    pub(crate) fn line_end_at(&self, pos: usize) -> (r: usize)
        requires
            pos <= self.cells@.len(),
        ensures
            r == line_end(self.cells@, pos as int),
    {
        let mut p = pos;
        while p < self.cells.len()
            invariant
                pos <= p <= self.cells@.len(),
                line_end(self.cells@, p as int) == line_end(self.cells@, pos as int),
            decreases self.cells@.len() - p,
        {
            if let Cell::NewLine = self.cells[p] {
                return p;
            }
            p = p + 1;
        }
        p
    }

    /// Moves the cursor to the same column of the previous line, or to that line's end
    /// when it is shorter; from the first line, to the start of the text.
    pub fn move_cursor_up(&mut self)
        requires
            old(self).wf(),
        ensures
            final(self).wf(),
            final(self).cells == old(self).cells,
            final(self).cursor_pos == up_pos(old(self).cells@, old(self).cursor_pos as int),
            final(self).name == old(self).name,
            final(self).path == old(self).path,
            final(self).file_type == old(self).file_type,
    {
        proof {
            lemma_line_start_bounds(self.cells@, self.cursor_pos as int);
            lemma_up_pos_bounds(self.cells@, self.cursor_pos as int);
        }
        let start = self.line_start_at(self.cursor_pos);
        if start == 0 {
            self.cursor_pos = 0;
            return;
        }
        let diff = self.cursor_pos - start;
        let prev_end = start - 1;
        let prev_start = self.line_start_at(prev_end);
        proof {
            lemma_line_start_bounds(self.cells@, prev_end as int);
        }
        let prev_len = prev_end - prev_start;
        if diff <= prev_len {
            self.cursor_pos = prev_start + diff;
        } else {
            self.cursor_pos = prev_end;
        }
    }

    /// Moves the cursor to the same column of the next line, or to that line's end when it
    /// is shorter; from the last line, to the end of the text.
    pub fn move_cursor_down(&mut self)
        requires
            old(self).wf(),
        ensures
            final(self).wf(),
            final(self).cells == old(self).cells,
            final(self).cursor_pos == down_pos(old(self).cells@, old(self).cursor_pos as int),
            final(self).name == old(self).name,
            final(self).path == old(self).path,
            final(self).file_type == old(self).file_type,
    {
        proof {
            lemma_line_start_bounds(self.cells@, self.cursor_pos as int);
            lemma_line_end_bounds(self.cells@, self.cursor_pos as int);
            lemma_down_pos_bounds(self.cells@, self.cursor_pos as int);
        }
        let start = self.line_start_at(self.cursor_pos);
        let diff = self.cursor_pos - start;
        let end = self.line_end_at(self.cursor_pos);
        if end >= self.cells.len() {
            self.cursor_pos = self.cells.len();
            return;
        }
        let next_start = end + 1;
        let next_end = self.line_end_at(next_start);
        proof {
            lemma_line_end_bounds(self.cells@, next_start as int);
        }
        let next_len = next_end - next_start;
        if diff <= next_len {
            self.cursor_pos = next_start + diff;
        } else {
            self.cursor_pos = next_end;
        }
    }
}

} // verus!
