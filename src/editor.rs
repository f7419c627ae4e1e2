use vstd::prelude::*;
use crate::document::{
    char_cell, column, down_pos, line_cells, min_int, newlines_before, up_pos, Cell, Document,
};
use crate::grid::{CharGrid, Color, ColoringHint};
use crate::highlight::{highlight_hints, in_content, opt_view};
use crate::highlight::SyntaxHighlighter;
use crate::strings::{chars_of, push_char};

verus! {

/// A key, as far as editing tells keys apart.
#[derive(Debug, Clone, Copy, PartialEq, Eq, Structural)]
pub enum KeyCode {
    Char(char),
    Tab,
    Left,
    Right,
    Up,
    Down,
    Enter,
    Backspace,
    Delete,
    Esc,
    Other,
}

/// The modifier keys held with a key: none, Control alone, or any other combination.
#[derive(Debug, Clone, Copy, PartialEq, Eq, Structural)]
pub enum Modifiers {
    Empty,
    ControlOnly,
    Mixed,
}

/// An input event.
#[derive(Debug, Clone, Copy, PartialEq, Eq, Structural)]
pub enum Event {
    Key(KeyCode, Modifiers),
    /// The terminal's new width and height.
    Resize(usize, usize),
    Mouse,
}

/// What the caller does after an update.
#[derive(Debug, Clone, Copy, PartialEq, Eq, Structural)]
pub enum UpdateResult {
    Draw,
    NOp,
    Exit,
    /// Save the focused document, then draw.
    Save,
}

/// Columns left of the text, which hold line numbers.
pub const TEXT_X: usize = 4;

/// The cells and cursor after an editing key, or `None` when the key changes nothing and
/// asks for no redraw.
pub open spec fn edit_result(s: Seq<Cell>, c: int, code: KeyCode, tab: Seq<char>) -> Option<(Seq<Cell>, int)> {
    match code {
        KeyCode::Char(ch) => if ch == '(' {
            Some((s.insert(c, Cell::Char('(')).insert(c + 1, Cell::Char(')')), c + 1))
        } else if ch == ')' && c < s.len() && s[c] == Cell::Char(')') {
            Some((s, c + 1))
        } else {
            Some((s.insert(c, char_cell(ch)), c + 1))
        },
        KeyCode::Tab => Some((s.take(c) + line_cells(tab) + s.skip(c), c + tab.len())),
        KeyCode::Left => Some((s, if c == 0 { 0 } else { c - 1 })),
        KeyCode::Right => Some((s, min_int(c + 1, s.len() as int))),
        KeyCode::Up => Some((s, up_pos(s, c))),
        KeyCode::Down => Some((s, down_pos(s, c))),
        KeyCode::Enter => Some((s.insert(c, Cell::NewLine), c + 1)),
        KeyCode::Backspace => if c != 0 {
            Some((s.remove(c - 1), c - 1))
        } else {
            None
        },
        KeyCode::Delete => if c < s.len() {
            Some((s.remove(c), c))
        } else {
            None
        },
        _ => None,
    }
}

/// The cells and cursor after a sequence of editing keys; a key with no effect leaves them.
pub open spec fn apply_keys(
    s: Seq<Cell>,
    c: int,
    codes: Seq<KeyCode>,
    tab: Seq<char>,
) -> (Seq<Cell>, int)
    decreases codes.len(),
{
    if codes.len() == 0 {
        (s, c)
    } else {
        let (s1, c1) = apply_keys(s, c, codes.drop_last(), tab);
        match edit_result(s1, c1, codes.last(), tab) {
            Some(r) => r,
            None => (s1, c1),
        }
    }
}

/// One editing key leaves the cursor within `[0, len]` of the new cells.
pub proof fn lemma_edit_keeps_cursor_in_range(s: Seq<Cell>, c: int, code: KeyCode, tab: Seq<char>)
    requires
        0 <= c <= s.len(),
    ensures
        match edit_result(s, c, code, tab) {
            Some((s2, c2)) => 0 <= c2 <= s2.len(),
            None => true,
        },
{
    crate::document::lemma_up_pos_bounds(s, c);
    crate::document::lemma_down_pos_bounds(s, c);
}

/// Whatever sequence of insertions, deletions and moves is typed, the cursor stays within
/// `[0, len]`.
pub proof fn lemma_keys_keep_cursor_in_range(s: Seq<Cell>, c: int, codes: Seq<KeyCode>, tab: Seq<char>)
    requires
        0 <= c <= s.len(),
    ensures
        0 <= apply_keys(s, c, codes, tab).1 <= apply_keys(s, c, codes, tab).0.len(),
    decreases codes.len(),
{
    if codes.len() > 0 {
        lemma_keys_keep_cursor_in_range(s, c, codes.drop_last(), tab);
        let (s1, c1) = apply_keys(s, c, codes.drop_last(), tab);
        lemma_edit_keeps_cursor_in_range(s1, c1, codes.last(), tab);
    }
}

/// The first visible line after one scroll step: up one when the cursor's line is above
/// it, down one when that line is at or past the last row of a screen `height` high
/// (and the offset still fits a `usize`).
pub open spec fn scrolled(start: int, line: int, height: int) -> int {
    if line < start {
        start - 1
    } else if line - start + 1 >= height && start < usize::MAX {
        start + 1
    } else {
        start
    }
}

/// Types `ch` at the cursor. `(` brings its `)` and leaves the cursor between them; `)`
/// steps over a `)` that is already next instead of doubling it.
pub fn type_char(doc: &mut Document, ch: char)
    requires
        old(doc).wf(),
        old(doc).cells@.len() + 2 <= usize::MAX,
    ensures
        final(doc).wf(),
        Some((final(doc).cells@, final(doc).cursor_pos as int)) == edit_result(
            old(doc).cells@,
            old(doc).cursor_pos as int,
            KeyCode::Char(ch),
            Seq::empty(),
        ),
        final(doc).name == old(doc).name,
        final(doc).path == old(doc).path,
        final(doc).file_type == old(doc).file_type,
{
    if ch == '(' {
        doc.insert(Cell::Char('('));
        doc.insert(Cell::Char(')'));
        doc.cursor_pos = doc.cursor_pos - 1;
    } else if ch == ')' && doc.cursor_pos < doc.cells.len() && doc.cells[doc.cursor_pos] == Cell::Char(')') {
        doc.cursor_pos = doc.cursor_pos + 1;
    } else {
        doc.insert(Cell::Char(ch));
    }
}

/// Inserts the characters of `tab` at the cursor, moving the cursor past them.
pub fn insert_chars(doc: &mut Document, tab: &Vec<char>)
    requires
        old(doc).wf(),
        old(doc).cells@.len() + tab@.len() <= usize::MAX,
    ensures
        final(doc).wf(),
        final(doc).cells@ == old(doc).cells@.take(old(doc).cursor_pos as int) + line_cells(tab@)
            + old(doc).cells@.skip(old(doc).cursor_pos as int),
        final(doc).cursor_pos == old(doc).cursor_pos + tab@.len(),
        final(doc).name == old(doc).name,
        final(doc).path == old(doc).path,
        final(doc).file_type == old(doc).file_type,
{
    let ghost s = doc.cells@;
    let ghost c = doc.cursor_pos as int;
    let mut j: usize = 0;
    assert(s =~= s.take(c) + line_cells(tab@.take(0)) + s.skip(c));
    while j < tab.len()
        invariant
            doc.wf(),
            j <= tab@.len(),
            s == old(doc).cells@,
            c == old(doc).cursor_pos,
            s.len() + tab@.len() <= usize::MAX,
            doc.cells@ == s.take(c) + line_cells(tab@.take(j as int)) + s.skip(c),
            doc.cursor_pos == c + j,
            doc.cells@.len() == s.len() + j,
            doc.name == old(doc).name,
            doc.path == old(doc).path,
            doc.file_type == old(doc).file_type,
        decreases tab@.len() - j,
    {
        let ghost before = doc.cells@;
        doc.insert(Cell::Char(tab[j]));
        j = j + 1;
        proof {
            let t = tab@.take(j as int);
            let b = line_cells(tab@.take(j - 1));
            let x = char_cell(tab@[j - 1]);
            assert(before == s.take(c) + b + s.skip(c));
            assert(before.subrange(0, c + j - 1) =~= s.take(c) + b);
            assert(before.subrange(c + j - 1, before.len() as int) =~= s.skip(c));
            assert(doc.cells@ == before.insert(c + j - 1, x));
            assert(before.insert(c + j - 1, x) =~= s.take(c) + b.push(x) + s.skip(c));
            assert(line_cells(t) =~= b.push(x));
            assert(doc.cells@ =~= s.take(c) + line_cells(t) + s.skip(c));
        }
    }
    assert(tab@.take(j as int) =~= tab@);
}

/// Applies an editing key to a document; returns false, changing nothing, when the key
/// has no effect that asks for a redraw.
pub fn edit_document(doc: &mut Document, code: KeyCode, tab: &Vec<char>) -> (r: bool)
    requires
        old(doc).wf(),
        old(doc).cells@.len() + tab@.len() + 2 <= usize::MAX,
    ensures
        final(doc).wf(),
        r == edit_result(old(doc).cells@, old(doc).cursor_pos as int, code, tab@) is Some,
        r ==> Some((final(doc).cells@, final(doc).cursor_pos as int)) == edit_result(
            old(doc).cells@,
            old(doc).cursor_pos as int,
            code,
            tab@,
        ),
        !r ==> *final(doc) == *old(doc),
        final(doc).name == old(doc).name,
        final(doc).path == old(doc).path,
        final(doc).file_type == old(doc).file_type,
{
    match code {
        KeyCode::Char(ch) => {
            type_char(doc, ch);
            true
        },
        KeyCode::Tab => {
            insert_chars(doc, tab);
            true
        },
        KeyCode::Left => {
            doc.move_cursor_left();
            true
        },
        KeyCode::Right => {
            doc.move_cursor_right();
            true
        },
        KeyCode::Up => {
            doc.move_cursor_up();
            true
        },
        KeyCode::Down => {
            doc.move_cursor_down();
            true
        },
        KeyCode::Enter => {
            doc.insert(Cell::NewLine);
            true
        },
        KeyCode::Backspace => {
            if doc.cursor_pos != 0 {
                doc.move_cursor_left();
                let pos = doc.cursor_pos;
                doc.delete(pos);
                true
            } else {
                false
            }
        },
        KeyCode::Delete => {
            if doc.cursor_pos < doc.cells.len() {
                let pos = doc.cursor_pos;
                doc.delete(pos);
                true
            } else {
                false
            }
        },
        _ => false,
    }
}

pub open spec fn is_command_key(e: Event) -> bool {
    e matches Event::Key(KeyCode::Char(_), Modifiers::ControlOnly)
}

pub open spec fn is_switch_key(e: Event) -> bool {
    match e {
        Event::Key(KeyCode::Left, m) => m != Modifiers::Empty,
        Event::Key(KeyCode::Right, m) => m != Modifiers::Empty,
        _ => false,
    }
}

pub open spec fn is_edit_key(e: Event) -> bool {
    &&& e is Key
    &&& !is_command_key(e)
    &&& !is_switch_key(e)
    &&& !(e matches Event::Key(KeyCode::Esc, _))
}

/// The focused document after a switch key: one to the left or right, where there is one.
pub open spec fn switched(k: int, n: int, e: Event) -> int {
    match e {
        Event::Key(KeyCode::Left, _) => if k != 0 { k - 1 } else { k },
        _ => if k + 1 < n { k + 1 } else { k },
    }
}

/// The document has room for any one edit with an indent of `tab` characters.
pub open spec fn has_room(d: Document, tab: Seq<char>) -> bool {
    d.cells@.len() + tab.len() + 2 <= usize::MAX
}

/// Two editor states with the same documents, focus and scroll offset.
pub open spec fn unchanged(a: Editor, b: Editor) -> bool {
    &&& a.open_docs@ == b.open_docs@
    &&& a.currently_open_doc == b.currently_open_doc
    &&& a.start_line == b.start_line
}

/// Two grids with the same size, characters and hints.
pub open spec fn same_grid(a: CharGrid, b: CharGrid) -> bool {
    &&& a.cells() == b.cells()
    &&& a.grid_width() == b.grid_width()
    &&& a.grid_height() == b.grid_height()
    &&& a.hint_list() == b.hint_list()
}

/// The open documents, which one has focus, how far the view is scrolled, and the rules
/// that color the focused document.
pub struct Editor {
    pub open_docs: Vec<Document>,
    pub currently_open_doc: Option<usize>,
    pub highlighter: SyntaxHighlighter,
    pub start_line: usize,
    pub tab_str: String,
    pub deviation: usize,
}

impl Editor {
    /// Every document is well formed, and the focus, when there is one, names a document.
    pub open spec fn wf(&self) -> bool {
        &&& forall|i: int| 0 <= i < self.open_docs@.len() ==> (#[trigger] self.open_docs@[i]).wf()
        &&& match self.currently_open_doc {
            Some(k) => k < self.open_docs@.len(),
            None => true,
        }
    }

    /// An editor with no document, an indent of four spaces, and the highlighting rules
    /// of `config`.
    pub fn new(config: String) -> (r: Self)
        ensures
            r.wf(),
            r.open_docs@.len() == 0,
            r.currently_open_doc is None,
            r.start_line == 0,
            r.deviation == 0,
            r.tab_str@ == seq![' ', ' ', ' ', ' '],
            r.highlighter.table() == crate::highlight::config_table(config@),
    {
        let mut tab_str = String::new();
        push_char(&mut tab_str, ' ');
        push_char(&mut tab_str, ' ');
        push_char(&mut tab_str, ' ');
        push_char(&mut tab_str, ' ');
        Editor {
            open_docs: Vec::new(),
            currently_open_doc: None,
            highlighter: SyntaxHighlighter::new(config),
            start_line: 0,
            tab_str,
            deviation: 0,
        }
    }

    /// Adds a loaded document, with the count of display-only characters its name brings.
    pub fn open(&mut self, deviation: usize, doc: Document)
        requires
            old(self).wf(),
            doc.wf(),
            old(self).deviation + deviation <= usize::MAX,
        ensures
            final(self).wf(),
            final(self).open_docs@ == old(self).open_docs@.push(doc),
            final(self).deviation == old(self).deviation + deviation,
            final(self).currently_open_doc == old(self).currently_open_doc,
            final(self).start_line == old(self).start_line,
    {
        self.open_docs.push(doc);
        self.deviation = self.deviation + deviation;
        assert(forall|i: int| 0 <= i < old(self).open_docs@.len() ==> self.open_docs@[i] == old(self).open_docs@[i]);
    }

    /// Adds an empty document named `doc_name`; it takes the focus when nothing had it.
    pub fn make_new_doc(&mut self, doc_name: String)
        requires
            old(self).wf(),
        ensures
            final(self).wf(),
            final(self).open_docs@.len() == old(self).open_docs@.len() + 1,
            final(self).open_docs@.drop_last() == old(self).open_docs@,
            final(self).open_docs@.last().cells@.len() == 0,
            final(self).open_docs@.last().name@ == doc_name@,
            final(self).currently_open_doc == match old(self).currently_open_doc {
                Some(k) => Some(k),
                None => Some(old(self).open_docs@.len() as usize),
            },
            final(self).start_line == old(self).start_line,
    {
        let mut path = String::new();
        push_char(&mut path, 'p');
        push_char(&mut path, 'a');
        push_char(&mut path, 't');
        push_char(&mut path, 'h');
        self.open_docs.push(Document::new(doc_name, path));
        if self.currently_open_doc.is_none() {
            self.currently_open_doc = Some(self.open_docs.len() - 1);
        }
        assert(self.open_docs@.drop_last() =~= old(self).open_docs@);
        assert(forall|i: int| 0 <= i < old(self).open_docs@.len() ==> self.open_docs@[i] == old(self).open_docs@[i]);
    }

    /// Handles one input event. Editing keys change the focused document (a key with no
    /// effect gives `NOp`); Control with a character asks for a save (`s`) or a redraw;
    /// Left or Right with a modifier switches documents; Escape asks to exit; a resize
    /// resizes `screen`. After each change the view scrolls by at most one line toward
    /// the cursor.
    pub fn update(&mut self, screen: &mut CharGrid, event: Event) -> (r: UpdateResult)
        requires
            old(self).wf(),
            old(screen).wf(),
        ensures
            final(self).wf(),
            final(screen).wf(),
            final(self).tab_str == old(self).tab_str,
            final(self).highlighter == old(self).highlighter,
            final(self).deviation == old(self).deviation,
            old(self).currently_open_doc is None ==> r == UpdateResult::Draw && unchanged(*final(self), *old(self))
                && same_grid(*final(screen), *old(screen)),
            old(self).currently_open_doc is Some ==> ({
                let k = old(self).currently_open_doc->0 as int;
                let d = old(self).open_docs@[k];
                let edit = edit_result(d.cells@, d.cursor_pos as int, event->Key_0, old(self).tab_str@);
                if is_command_key(event) {
                    &&& r == if event->Key_0->Char_0 == 's' { UpdateResult::Save } else { UpdateResult::Draw }
                    &&& unchanged(*final(self), *old(self))
                    &&& same_grid(*final(screen), *old(screen))
                } else if event matches Event::Key(KeyCode::Esc, _) {
                    &&& r == UpdateResult::Exit
                    &&& unchanged(*final(self), *old(self))
                    &&& same_grid(*final(screen), *old(screen))
                } else if is_edit_key(event) && (edit is None || !has_room(d, old(self).tab_str@)) {
                    &&& r == UpdateResult::NOp
                    &&& unchanged(*final(self), *old(self))
                    &&& same_grid(*final(screen), *old(screen))
                } else {
                    let nd = final(self).open_docs@[k];
                    &&& r == UpdateResult::Draw
                    &&& if is_edit_key(event) {
                        &&& final(self).open_docs@ == old(self).open_docs@.update(k, nd)
                        &&& Some((nd.cells@, nd.cursor_pos as int)) == edit
                        &&& nd.name == d.name
                        &&& nd.path == d.path
                        &&& nd.file_type == d.file_type
                    } else {
                        final(self).open_docs@ == old(self).open_docs@
                    }
                    &&& final(self).currently_open_doc == if is_switch_key(event) {
                        Some(switched(k, old(self).open_docs@.len() as int, event) as usize)
                    } else {
                        old(self).currently_open_doc
                    }
                    &&& match event {
                        Event::Resize(w, h) => if w * h <= usize::MAX {
                            &&& final(screen).grid_width() == w
                            &&& final(screen).grid_height() == h
                            &&& final(screen).cells() == Seq::new((w * h) as nat, |i: int| ' ')
                            &&& final(screen).hint_list() == old(screen).hint_list()
                        } else {
                            same_grid(*final(screen), *old(screen))
                        },
                        _ => same_grid(*final(screen), *old(screen)),
                    }
                    &&& final(self).start_line == scrolled(
                        old(self).start_line as int,
                        newlines_before(nd.cells@, nd.cursor_pos as int) as int,
                        final(screen).grid_height() as int,
                    )
                }
            }),
    {
        let k = match self.currently_open_doc {
            Some(k) => k,
            None => return UpdateResult::Draw,
        };
        match event {
            Event::Key(code, m) => {
                match code {
                    KeyCode::Char(c) => {
                        if m == Modifiers::ControlOnly {
                            if c == 's' {
                                return UpdateResult::Save;
                            }
                            return UpdateResult::Draw;
                        }
                    },
                    KeyCode::Esc => {
                        return UpdateResult::Exit;
                    },
                    _ => {},
                }
                let switch = match code {
                    KeyCode::Left => m != Modifiers::Empty,
                    KeyCode::Right => m != Modifiers::Empty,
                    _ => false,
                };
                if switch {
                    if code == KeyCode::Left {
                        if k != 0 {
                            self.currently_open_doc = Some(k - 1);
                        }
                    } else if k < self.open_docs.len() - 1 {
                        self.currently_open_doc = Some(k + 1);
                    }
                } else {
                    let tab = chars_of(self.tab_str.as_str());
                    if tab.len() > usize::MAX - 2 || self.open_docs[k].cells.len() > usize::MAX - 2
                        - tab.len() {
                        return UpdateResult::NOp;
                    }
                    let ghost before = self.open_docs@;
                    let changed = edit_document(&mut self.open_docs[k], code, &tab);
                    if !changed {
                        assert(self.open_docs@ =~= before);
                        return UpdateResult::NOp;
                    }
                    assert(forall|i: int| 0 <= i < before.len() && i != k ==> self.open_docs@[i] == before[i]);
                }
            },
            Event::Resize(w, h) => {
                if h == 0 || w <= usize::MAX / h {
                    proof {
                        if h != 0 {
                            assert(w * h <= usize::MAX) by (nonlinear_arith)
                                requires
                                    h > 0,
                                    w <= usize::MAX / h,
                            ;
                        } else {
                            assert(w * h == 0) by (nonlinear_arith)
                                requires
                                    h == 0,
                            ;
                        }
                    }
                    screen.resize(w, h);
                } else {
                    proof {
                        assert(w * h > usize::MAX) by (nonlinear_arith)
                            requires
                                h > 0,
                                w > usize::MAX / h,
                        ;
                    }
                }
            },
            Event::Mouse => {},
        }
        let line = self.open_docs[k].current_line();
        if line < self.start_line {
            self.start_line = self.start_line - 1;
        } else if (screen.height() == 0 || line - self.start_line >= screen.height() - 1)
            && self.start_line < usize::MAX {
            self.start_line = self.start_line + 1;
        }
        UpdateResult::Draw
    }

    /// Paints the focused document on `window`: from row 1 down, the lines from
    /// `start_line` on, each after its three-digit line number, the text from column 4;
    /// on row 0 a tab per document, red for the focused one and white for the others; then
    /// the highlighting of the focused document's file type.
    pub fn draw(&mut self, window: &mut CharGrid)
        requires
            old(self).wf(),
            old(self).currently_open_doc is Some,
            old(self).open_docs@[old(self).currently_open_doc->0 as int].cells@.len() + TEXT_X
                <= usize::MAX,
            old(window).wf(),
        ensures
            final(self).wf(),
            unchanged(*final(self), *old(self)),
            final(window).cells() == painted_tabs(
                painted_text(
                    old(window).cells(),
                    old(window).grid_width() as int,
                    old(window).grid_height() as int,
                    old(self).open_docs@[old(self).currently_open_doc->0 as int].cells@,
                    old(self).start_line as int,
                    old(self).open_docs@[old(self).currently_open_doc->0 as int].cells@.len() as int,
                ),
                old(window).grid_width() as int,
                old(window).grid_height() as int,
                doc_names(old(self).open_docs@),
                0,
                TEXT_X as int,
            ),
            final(self).highlighter.table() == old(self).highlighter.table(),
            final(window).wf(),
            final(window).grid_width() == old(window).grid_width(),
            final(window).grid_height() == old(window).grid_height(),
            ({
                let tabs = tab_hints(
                    doc_names(old(self).open_docs@),
                    old(self).currently_open_doc->0 as int,
                    0,
                    TEXT_X as int,
                );
                let base = old(window).hint_list() + tabs;
                let doc = old(self).open_docs@[old(self).currently_open_doc->0 as int];
                &&& final(window).hint_list() == base + highlight_hints(
                    old(self).highlighter.table(),
                    opt_view(doc.file_type),
                    final(window).cells(),
                    old(self).deviation as int,
                    final(window).grid_width() as int,
                )
                &&& forall|i: int|
                    base.len() <= i < final(window).hint_list().len() ==> in_content(
                        #[trigger] final(window).hint_list()[i].start as int,
                        final(window).grid_width() as int,
                    )
            }),
    {
        self.highlighter.reset();
        let k = match self.currently_open_doc {
            Some(k) => k,
            None => 0,
        };
        self.draw_text(window, k);
        self.draw_tabs(window, k);
        if let Some(current) = self.currently_open_doc {
            self.highlighter.highlight(window, self.deviation, &self.open_docs[current].file_type);
        }
    }

    /// Paints the visible lines of document `k` with their line numbers.
    fn draw_text(&self, window: &mut CharGrid, k: usize)
        requires
            self.wf(),
            k < self.open_docs@.len(),
            self.open_docs@[k as int].cells@.len() + TEXT_X <= usize::MAX,
            old(window).wf(),
        ensures
            final(window).wf(),
            final(window).cells() == painted_text(
                old(window).cells(),
                old(window).grid_width() as int,
                old(window).grid_height() as int,
                self.open_docs@[k as int].cells@,
                self.start_line as int,
                self.open_docs@[k as int].cells@.len() as int,
            ),
            final(window).grid_width() == old(window).grid_width(),
            final(window).grid_height() == old(window).grid_height(),
            final(window).hint_list() == old(window).hint_list(),
    {
        let height = window.height();
        let first = line_label(1);
        window.put_string(0, 1, first.as_str());
        assert(window.cells() == painted_text(
            old(window).cells(),
            old(window).grid_width() as int,
            old(window).grid_height() as int,
            self.open_docs@[k as int].cells@,
            self.start_line as int,
            0,
        ));
        let cells = &self.open_docs[k].cells;
        let ghost s = cells@;
        let ghost w = old(window).grid_width() as int;
        let ghost h = old(window).grid_height() as int;
        let ghost g = old(window).cells();
        let ghost st = self.start_line as int;
        let mut x: usize = TEXT_X;
        let mut line: usize = 1;
        let mut i: usize = 0;
        while i < cells.len()
            invariant
                window.wf(),
                window.grid_width() == w,
                window.grid_height() == h,
                window.hint_list() == old(window).hint_list(),
                height == h,
                s == cells@,
                st == self.start_line,
                s.len() + TEXT_X <= usize::MAX,
                i <= s.len(),
                line == 1 + newlines_before(s, i as int),
                line <= 1 + i,
                x == TEXT_X + column(s, i as int),
                window.cells() == painted_text(g, w, h, s, st, i as int),
            decreases s.len() - i,
        {
            proof {
                crate::document::lemma_line_start_bounds(s, i as int);
            }
            let visible = line - 1 >= self.start_line && line - 1 - self.start_line < height;
            match cells[i] {
                Cell::Char(c) => {
                    if visible {
                        window.put_char(x, line - self.start_line, c);
                    }
                    x = x + 1;
                },
                Cell::NewLine => {
                    x = TEXT_X;
                    line = line + 1;
                    if line - 1 >= self.start_line && line - 1 - self.start_line < height {
                        let label = line_label(line);
                        window.put_string(0, line - self.start_line, label.as_str());
                    }
                },
            }
            i = i + 1;
        }
    }

    /// Paints a tab per document on row 0 and records its color.
    fn draw_tabs(&self, window: &mut CharGrid, k: usize)
        requires
            old(window).wf(),
        ensures
            final(window).wf(),
            final(window).grid_width() == old(window).grid_width(),
            final(window).grid_height() == old(window).grid_height(),
            final(window).hint_list() == old(window).hint_list() + tab_hints(
                doc_names(self.open_docs@),
                k as int,
                0,
                TEXT_X as int,
            ),
            final(window).cells() == painted_tabs(
                old(window).cells(),
                old(window).grid_width() as int,
                old(window).grid_height() as int,
                doc_names(self.open_docs@),
                0,
                TEXT_X as int,
            ),
    {
        let ghost names = doc_names(self.open_docs@);
        let ghost all = tab_hints(names, k as int, 0, TEXT_X as int);
        let mut off_x: usize = TEXT_X;
        let mut i: usize = 0;
        assert(old(window).hint_list() + all =~= window.hint_list() + tab_hints(names, k as int, 0, off_x as int));
        while i < self.open_docs.len()
            invariant
                window.wf(),
                window.grid_width() == old(window).grid_width(),
                window.grid_height() == old(window).grid_height(),
                i <= self.open_docs@.len(),
                names == doc_names(self.open_docs@),
                all == tab_hints(names, k as int, 0, TEXT_X as int),
                window.hint_list() + tab_hints(names, k as int, i as int, off_x as int)
                    == old(window).hint_list() + all,
                painted_tabs(window.cells(), window.grid_width() as int, window.grid_height() as int, names, i as int, off_x as int)
                    == painted_tabs(old(window).cells(), window.grid_width() as int, window.grid_height() as int, names, 0, TEXT_X as int),
            decreases self.open_docs@.len() - i,
        {
            let len = self.open_docs[i].name.as_str().len();
            assert(len == name_bytes(names[i as int]));
            if len > usize::MAX - 2 || off_x > usize::MAX - 2 - len {
                proof {
                    assert(tab_hints(names, k as int, i as int, off_x as int) =~= Seq::<ColoringHint>::empty());
                    assert(window.hint_list() + tab_hints(names, k as int, i as int, off_x as int)
                        =~= window.hint_list());
                }
                return;
            }
            let color = if i == k { Color::Red } else { Color::White };
            let ghost before = window.hint_list();
            window.color(off_x, off_x + len, color);
            window.put_string(off_x, 0, self.open_docs[i].name.as_str());
            proof {
                let rest = tab_hints(names, k as int, i + 1, (off_x + len + 2) as int);
                assert(tab_hints(names, k as int, i as int, off_x as int) == seq![
                    tab_hint(off_x as int, len as int, i == k)] + rest);
                assert(window.hint_list() + rest =~= before + tab_hints(names, k as int, i as int, off_x as int));
            }
            off_x = off_x + len + 2;
            i = i + 1;
        }
        assert(tab_hints(names, k as int, i as int, off_x as int) =~= Seq::<ColoringHint>::empty());
        assert(window.hint_list() + Seq::<ColoringHint>::empty() =~= window.hint_list());
    }

    /// Where the cursor shows on the screen: right of the gutter by its column, below the
    /// tab bar by its line less the scroll offset (0 where the line is scrolled out above);
    /// each capped at `usize::MAX`.
    pub fn cursor_position(&self) -> (r: (usize, usize))
        requires
            self.wf(),
            self.currently_open_doc is Some,
        ensures
            ({
                let d = self.open_docs@[self.currently_open_doc->0 as int];
                let x = TEXT_X + column(d.cells@, d.cursor_pos as int);
                let y = 1 + newlines_before(d.cells@, d.cursor_pos as int) - self.start_line;
                &&& r.0 == if x <= usize::MAX { x } else { usize::MAX as int }
                &&& r.1 == if y < 0 { 0 } else { min_int(y, usize::MAX as int) }
            }),
    {
        let k = match self.currently_open_doc {
            Some(k) => k,
            None => 0,
        };
        let doc = &self.open_docs[k];
        proof {
            crate::document::lemma_line_start_bounds(doc.cells@, doc.cursor_pos as int);
        }
        let start = doc.line_start_at(doc.cursor_pos);
        let col = doc.cursor_pos - start;
        let x = if col <= usize::MAX - TEXT_X { TEXT_X + col } else { usize::MAX };
        let line = doc.current_line();
        let y = if line < self.start_line {
            0
        } else if line - self.start_line < usize::MAX {
            line - self.start_line + 1
        } else {
            usize::MAX
        };
        (x, y)
    }
}

/// Whether line `line` (counted from 1) shows on a screen `h` rows high scrolled by `start`.
pub open spec fn line_visible(line: int, start: int, h: int) -> bool {
    line - 1 >= start && line - 1 - start < h
}

/// The grid after painting the first `n` cells of a document scrolled by `start`: the
/// label of line 1 on row 1, then each character at its column right of the gutter on its
/// line's row, and each line's label where that line begins, all only where the line shows.
pub open spec fn painted_text(
    g: Seq<char>,
    w: int,
    h: int,
    cells: Seq<Cell>,
    start: int,
    n: int,
) -> Seq<char>
    decreases n,
{
    if n <= 0 {
        crate::grid::put_chars(g, w, h, 0, 1, label_of(1))
    } else {
        let prev = painted_text(g, w, h, cells, start, n - 1);
        let line = 1 + newlines_before(cells, n - 1) as int;
        match cells[n - 1] {
            Cell::Char(c) => if line_visible(line, start, h) {
                crate::grid::put_cell(prev, w, h, TEXT_X + column(cells, n - 1), line - start, c)
            } else {
                prev
            },
            Cell::NewLine => if line_visible(line + 1, start, h) {
                crate::grid::put_chars(prev, w, h, 0, line + 1 - start, label_of((line + 1) as nat))
            } else {
                prev
            },
        }
    }
}

/// The names of the documents.
pub open spec fn doc_names(docs: Seq<Document>) -> Seq<Seq<char>> {
    Seq::new(docs.len(), |i: int| docs[i].name@)
}

pub open spec fn tab_hint(off: int, len: int, focused: bool) -> ColoringHint {
    ColoringHint {
        start: off as usize,
        end: (off + len) as usize,
        color: if focused { Color::Red } else { Color::White },
    }
}

/// The length in bytes of a name's UTF-8 text, as `str::len` gives it.
pub open spec fn name_bytes(name: Seq<char>) -> int {
    (vstd::utf8::encode_utf8(name).len() as usize) as int
}

/// The tab colors for the documents from the `i`-th on, the first starting at column `off`,
/// each name's tab as wide as its bytes and followed by two more columns; `k` is the focused one. Tabs stop where a
/// column would no longer fit a `usize`.
pub open spec fn tab_hints(names: Seq<Seq<char>>, k: int, i: int, off: int) -> Seq<ColoringHint>
    decreases names.len() - i,
{
    if i < 0 || i >= names.len() || off + name_bytes(names[i]) + 2 > usize::MAX {
        Seq::empty()
    } else {
        seq![tab_hint(off, name_bytes(names[i]), i == k)] + tab_hints(
            names,
            k,
            i + 1,
            off + name_bytes(names[i]) + 2,
        )
    }
}

/// The grid after writing, on row 0, the names of the documents from the `i`-th on, the
/// first at column `off`, the next one its byte length plus two further on; as far as
/// `tab_hints` goes.
pub open spec fn painted_tabs(g: Seq<char>, w: int, h: int, names: Seq<Seq<char>>, i: int, off: int) -> Seq<char>
    decreases names.len() - i,
{
    if i < 0 || i >= names.len() || off + name_bytes(names[i]) + 2 > usize::MAX {
        g
    } else {
        painted_tabs(
            crate::grid::put_chars(g, w, h, off, 0, names[i]),
            w,
            h,
            names,
            i + 1,
            off + name_bytes(names[i]) + 2,
        )
    }
}

/// The decimal digits of `n`.
pub open spec fn decimal(n: nat) -> Seq<char>
    decreases n,
{
    if n < 10 {
        seq![digit_char(n)]
    } else {
        decimal(n / 10).push(digit_char(n % 10))
    }
}

pub open spec fn digit_char(d: nat) -> char {
    (('0' as nat) + d) as char
}

/// A line number as drawn in the gutter: its digits, padded with zeros to three.
pub open spec fn label_of(n: nat) -> Seq<char> {
    let d = decimal(n);
    if d.len() >= 3 {
        d
    } else {
        Seq::new((3 - d.len()) as nat, |i: int| '0') + d
    }
}

fn push_decimal(s: &mut String, n: usize)
    ensures
        final(s)@ == old(s)@ + decimal(n as nat),
    decreases n,
{
    if n >= 10 {
        push_decimal(s, n / 10);
    }
    let d = (n % 10) as u32;
    let c = char_of_digit(d);
    push_char(s, c);
    assert(final(s)@ =~= old(s)@ + decimal(n as nat)) by {
        if n >= 10 {
            assert(decimal(n as nat) == decimal((n / 10) as nat).push(digit_char((n % 10) as nat)));
        }
    };
}

/// The character of a decimal digit.
fn char_of_digit(d: u32) -> (c: char)
    requires
        d < 10,
    ensures
        c == digit_char(d as nat),
{
    if d == 0 { '0' } else if d == 1 { '1' } else if d == 2 { '2' } else if d == 3 { '3' }
    else if d == 4 { '4' } else if d == 5 { '5' } else if d == 6 { '6' } else if d == 7 { '7' }
    else if d == 8 { '8' } else { '9' }
}

/// The gutter label of line `n`: its number with zeros in front up to three digits.
pub fn line_label(n: usize) -> (r: String)
    ensures
        r@ == label_of(n as nat),
{
    let mut digits = String::new();
    push_decimal(&mut digits, n);
    let ds = chars_of(digits.as_str());
    let mut r = String::new();
    let mut pad: usize = 0;
    let need: usize = if ds.len() >= 3 { 0 } else { 3 - ds.len() };
    while pad < need
        invariant
            pad <= need,
            r@ == Seq::new(pad as nat, |i: int| '0'),
        decreases need - pad,
    {
        push_char(&mut r, '0');
        pad = pad + 1;
        assert(r@ =~= Seq::new(pad as nat, |i: int| '0'));
    }
    let mut j: usize = 0;
    let ghost zeros = r@;
    while j < ds.len()
        invariant
            j <= ds@.len(),
            r@ == zeros + ds@.take(j as int),
        decreases ds@.len() - j,
    {
        push_char(&mut r, ds[j]);
        j = j + 1;
        assert(r@ =~= zeros + ds@.take(j as int));
    }
    assert(ds@.take(j as int) =~= ds@);
    assert(ds@ == decimal(n as nat));
    proof {
        if ds@.len() >= 3 {
            assert(zeros =~= Seq::<char>::empty());
            assert(r@ =~= ds@);
        }
    }
    r
}

} // verus!
