use vstd::prelude::*;
use crate::grid::{CharGrid, Color, ColoringHint};
use crate::strings::chars_of;

verus! {

#[verifier::external_type_specification]
#[verifier::external_body]
pub struct ExRegex(regex::Regex);

/// Columns at the left of the grid that hold line numbers and are never highlighted.
pub const GUTTER_WIDTH: usize = 4;

/// Whether the regex crate accepts `pattern`.
pub uninterp spec fn pattern_compiles(pattern: Seq<char>) -> bool;

/// The lines of a text, as `str::lines` splits it.
pub uninterp spec fn text_lines(text: Seq<char>) -> Seq<Seq<char>>;

/// A text without its leading and trailing whitespace, as `str::trim` leaves it.
pub uninterp spec fn trimmed(text: Seq<char>) -> Seq<char>;

/// Relies on `regex::Regex::new`: it compiles `pattern` or fails, depending on the pattern alone.
#[verifier::external_body]
fn compile(pattern: &str) -> (r: Option<regex::Regex>)
    ensures
        r is Some <==> pattern_compiles(pattern@),
{
    regex::Regex::new(pattern).ok()
}

/// A range that is absent, or that does not start after it ends.
pub open spec fn ordered_range(range: Option<(usize, usize)>) -> bool {
    match range {
        Some((s, e)) => s <= e,
        None => true,
    }
}

/// For each successive non-overlapping match of `pattern` in `text`, the byte range of its
/// group `color` when that group took part, as the regex crate finds them.
pub uninterp spec fn color_ranges(pattern: Seq<char>, text: Seq<char>) -> Seq<Option<(usize, usize)>>;

/// Relies on `regex::Regex::captures_iter`, `Captures::name` and `Match::start`/`end`: for
/// each match in turn, the byte range of its group `color` when that group took part. The
/// rule's regex was compiled from its pattern (its fields are private and `from_lines`
/// alone builds one), so the result depends on the pattern and the text alone. The regex
/// crate guarantees that a match never starts after it ends.
#[verifier::external_body]
fn color_captures(rule: &Rule, text: &str) -> (r: Vec<Option<(usize, usize)>>)
    ensures
        r@ == color_ranges(rule.spec_pattern(), text@),
        forall|k: int| 0 <= k < r@.len() ==> ordered_range(#[trigger] r@[k]),
{
    rule.regex.captures_iter(text).map(|c| c.name("color").map(|m| (m.start(), m.end()))).collect()
}

/// Relies on `str::lines`: the text split into lines.
#[verifier::external_body]
fn split_lines(text: &str) -> (r: Vec<String>)
    ensures
        crate::document::lines_view(r@) == text_lines(text@),
{
    text.lines().map(|l| l.to_string()).collect()
}

/// Relies on `str::trim`: the text without surrounding whitespace.
#[verifier::external_body]
fn trim_text(text: &str) -> (r: String)
    ensures
        r@ == trimmed(text@),
{
    text.trim().to_string()
}

/// Whether position `p` of a grid `w` wide lies below the first row and right of the gutter.
pub open spec fn in_content(p: int, w: int) -> bool {
    w > 0 && p / w != 0 && p % w >= GUTTER_WIDTH
}

pub open spec fn hint_at(start: int, end: int, color: Color) -> ColoringHint {
    ColoringHint { start: start as usize, end: end as usize, color }
}

/// The hints that the matches `found` give: each range shifted back by `deviation`, kept
/// only where its start lies in the grid's content area.
pub open spec fn kept_hints(
    found: Seq<Option<(usize, usize)>>,
    deviation: int,
    w: int,
    color: Color,
) -> Seq<ColoringHint>
    decreases found.len(),
{
    if found.len() == 0 {
        Seq::empty()
    } else {
        let prev = kept_hints(found.drop_last(), deviation, w, color);
        match found.last() {
            Some((s, e)) => if s >= deviation && e >= s && in_content(s - deviation, w) {
                prev.push(hint_at(s - deviation, e - deviation, color))
            } else {
                prev
            },
            None => prev,
        }
    }
}

/// No hint drawn from matches lies on the first row or in the gutter, whatever the matches.
pub proof fn lemma_kept_hints_avoid_margins(
    found: Seq<Option<(usize, usize)>>,
    deviation: int,
    w: int,
    color: Color,
)
    requires
        0 <= deviation,
    ensures
        forall|k: int|
            0 <= k < kept_hints(found, deviation, w, color).len() ==> in_content(
                #[trigger] kept_hints(found, deviation, w, color)[k].start as int,
                w,
            ),
    decreases found.len(),
{
    if found.len() > 0 {
        lemma_kept_hints_avoid_margins(found.drop_last(), deviation, w, color);
        let prev = kept_hints(found.drop_last(), deviation, w, color);
        let all = kept_hints(found, deviation, w, color);
        assert forall|k: int| 0 <= k < all.len() implies in_content(#[trigger] all[k].start as int, w) by {
            if k < prev.len() {
                assert(all[k] == prev[k]);
            }
        }
    }
}

/// Records on `window` a hint in `color` for each match of `found` whose start, moved back
/// by `deviation`, lies below the first row and right of the gutter.
pub fn add_color_spans(
    window: &mut CharGrid,
    found: &Vec<Option<(usize, usize)>>,
    deviation: usize,
    color: Color,
)
    ensures
        final(window).cells() == old(window).cells(),
        final(window).grid_width() == old(window).grid_width(),
        final(window).grid_height() == old(window).grid_height(),
        final(window).hint_list() == old(window).hint_list() + kept_hints(
            found@,
            deviation as int,
            old(window).grid_width() as int,
            color,
        ),
{
    let w = window.width();
    let mut i: usize = 0;
    while i < found.len()
        invariant
            i <= found@.len(),
            w == old(window).grid_width(),
            window.cells() == old(window).cells(),
            window.grid_width() == old(window).grid_width(),
            window.grid_height() == old(window).grid_height(),
            window.hint_list() == old(window).hint_list() + kept_hints(
                found@.take(i as int),
                deviation as int,
                w as int,
                color,
            ),
        decreases found@.len() - i,
    {
        let ghost prev = window.hint_list();
        if let Some((s, e)) = found[i] {
            if s >= deviation && e >= s && w > 0 {
                let p = s - deviation;
                if p / w != 0 && p % w >= GUTTER_WIDTH {
                    window.color(p, e - deviation, color);
                }
            }
        }
        i = i + 1;
        proof {
            assert(found@.take(i as int).drop_last() =~= found@.take(i - 1));
            assert(window.hint_list() =~= old(window).hint_list() + kept_hints(
                found@.take(i as int),
                deviation as int,
                w as int,
                color,
            ));
        }
    }
    assert(found@.take(i as int) =~= found@);
}

/// Length of the run of ASCII digits that starts at `i`.
pub open spec fn digit_run(s: Seq<char>, i: int) -> int
    decreases s.len() - i,
{
    if 0 <= i < s.len() && '0' <= s[i] <= '9' {
        1 + digit_run(s, i + 1)
    } else {
        0
    }
}

/// Length of the run of spaces that starts at `i`.
pub open spec fn space_run(s: Seq<char>, i: int) -> int
    decreases s.len() - i,
{
    if 0 <= i < s.len() && s[i] == ' ' {
        1 + space_run(s, i + 1)
    } else {
        0
    }
}

/// The decimal value of the `n` digits at `i`.
pub open spec fn digits_value(s: Seq<char>, i: int, n: int) -> int
    decreases n,
{
    if n <= 0 {
        0
    } else {
        digits_value(s, i, n - 1) * 10 + (s[i + n - 1] as int - '0' as int)
    }
}

/// A color channel at `i`: one or more digits whose value fits a byte, then any spaces,
/// then `delim`. Gives the value and the index just past `delim`.
pub open spec fn channel_at(s: Seq<char>, i: int, delim: char) -> Option<(u8, int)> {
    let n = digit_run(s, i);
    let v = digits_value(s, i, n);
    let j = i + n + space_run(s, i + n);
    if n > 0 && v <= 255 && j < s.len() && s[j] == delim {
        Some((v as u8, j + 1))
    } else {
        None
    }
}

/// A rule line `color rgb(R,G,B) PATTERN`, where each channel may be followed by spaces:
/// its color and pattern.
pub open spec fn parse_rule(s: Seq<char>) -> Option<(Color, Seq<char>)> {
    if s.len() >= 10 && s.subrange(0, 10) == seq!['c', 'o', 'l', 'o', 'r', ' ', 'r', 'g', 'b', '('] {
        match channel_at(s, 10, ',') {
            Some((r, i)) => match channel_at(s, i, ',') {
                Some((g, j)) => match channel_at(s, j, ')') {
                    Some((b, k)) => if k < s.len() && s[k] == ' ' {
                        Some((Color::Rgb(r, g, b), s.subrange(k + 1, s.len() as int)))
                    } else {
                        None
                    },
                    None => None,
                },
                None => None,
            },
            None => None,
        }
    } else {
        None
    }
}

/// Index of the entry for `key` in a rule table, or -1.
pub open spec fn entry_index(table: Seq<(Seq<char>, Seq<(Seq<char>, Color)>)>, key: Seq<char>) -> int
    decreases table.len(),
{
    if table.len() == 0 {
        -1
    } else if table.last().0 == key {
        table.len() - 1
    } else {
        entry_index(table.drop_last(), key)
    }
}

/// A rule table after giving `key` the rules `rules`, in place of what it had.
pub open spec fn table_insert(
    table: Seq<(Seq<char>, Seq<(Seq<char>, Color)>)>,
    key: Seq<char>,
    rules: Seq<(Seq<char>, Color)>,
) -> Seq<(Seq<char>, Seq<(Seq<char>, Color)>)> {
    let k = entry_index(table, key);
    if k >= 0 {
        table.update(k, (key, rules))
    } else {
        table.push((key, rules))
    }
}

pub open spec fn starts_with(s: Seq<char>, prefix: Seq<char>) -> bool {
    s.len() >= prefix.len() && s.subrange(0, prefix.len() as int) == prefix
}

/// The table and the pending rules after one configuration line: a `file TYPE` line gives
/// the pending rules to that type; a rule line whose pattern compiles joins the pending ones.
pub open spec fn config_step(
    state: (Seq<(Seq<char>, Seq<(Seq<char>, Color)>)>, Seq<(Seq<char>, Color)>),
    line: Seq<char>,
) -> (Seq<(Seq<char>, Seq<(Seq<char>, Color)>)>, Seq<(Seq<char>, Color)>) {
    let (table, pending) = state;
    if starts_with(line, seq!['f', 'i', 'l', 'e', ' ']) {
        (table_insert(table, trimmed(line.subrange(5, line.len() as int)), pending), Seq::empty())
    } else {
        match parse_rule(line) {
            Some((color, pattern)) => if pattern_compiles(pattern) {
                (table, pending.push((pattern, color)))
            } else {
                (table, pending)
            },
            None => (table, pending),
        }
    }
}

/// The state after the first lines of a configuration.
pub open spec fn config_state(lines: Seq<Seq<char>>) -> (
    Seq<(Seq<char>, Seq<(Seq<char>, Color)>)>,
    Seq<(Seq<char>, Color)>,
)
    decreases lines.len(),
{
    if lines.len() == 0 {
        (Seq::empty(), Seq::empty())
    } else {
        config_step(config_state(lines.drop_last()), lines.last())
    }
}

/// The rule table that a configuration text describes.
pub open spec fn config_table(config: Seq<char>) -> Seq<(Seq<char>, Seq<(Seq<char>, Color)>)> {
    config_state(text_lines(config)).0
}

/// The longest run of digits at `i`, with its value capped at 256.
fn scan_digits(s: &Vec<char>, i: usize) -> (r: (usize, u32))
    requires
        i <= s@.len(),
    ensures
        r.0 == digit_run(s@, i as int),
        r.1 == if digits_value(s@, i as int, r.0 as int) <= 256 {
            digits_value(s@, i as int, r.0 as int)
        } else {
            256
        },
{
    let len = s.len();
    let mut n: usize = 0;
    let mut v: u32 = 0;
    while i + n < len && '0' <= s[i + n] && s[i + n] <= '9'
        invariant
            i + n <= s@.len(),
            len == s@.len(),
            digit_run(s@, i as int) == n + digit_run(s@, i + n),
            0 <= digits_value(s@, i as int, n as int),
            v == if digits_value(s@, i as int, n as int) <= 256 {
                digits_value(s@, i as int, n as int)
            } else {
                256
            },
        decreases s@.len() - i - n,
    {
        let d = (s[i + n] as u32) - ('0' as u32);
        let ghost old_val = digits_value(s@, i as int, n as int);
        if v <= 255 {
            v = v * 10 + d;
            if v > 256 {
                v = 256;
            }
        } else {
            assert(old_val * 10 + d >= 2560) by (nonlinear_arith)
                requires
                    old_val >= 256,
                    d >= 0,
            ;
        }
        n = n + 1;
        assert(digits_value(s@, i as int, n as int) == old_val * 10 + d);
    }
    (n, v)
}

/// The longest run of spaces at `i`.
fn scan_spaces(s: &Vec<char>, i: usize) -> (r: usize)
    requires
        i <= s@.len(),
    ensures
        r == space_run(s@, i as int),
{
    let len = s.len();
    let mut n: usize = 0;
    while i + n < len && s[i + n] == ' '
        invariant
            i + n <= s@.len(),
            len == s@.len(),
            space_run(s@, i as int) == n + space_run(s@, i + n),
        decreases s@.len() - i - n,
    {
        n = n + 1;
    }
    n
}

fn parse_channel(s: &Vec<char>, i: usize, delim: char) -> (r: Option<(u8, usize)>)
    requires
        i <= s@.len(),
    ensures
        match r {
            Some((v, j)) => channel_at(s@, i as int, delim) == Some((v, j as int)),
            None => channel_at(s@, i as int, delim) is None,
        },
{
    let len = s.len();
    let (n, v) = scan_digits(s, i);
    proof {
        lemma_digit_run_bounds(s@, i as int);
    }
    let sp = scan_spaces(s, i + n);
    proof {
        lemma_space_run_bounds(s@, i + n);
    }
    let j = i + n + sp;
    if n > 0 && v <= 255 && j < s.len() && s[j] == delim {
        Some((v as u8, j + 1))
    } else {
        None
    }
}

proof fn lemma_digit_run_bounds(s: Seq<char>, i: int)
    requires
        0 <= i <= s.len(),
    ensures
        0 <= digit_run(s, i) <= s.len() - i,
    decreases s.len() - i,
{
    if i < s.len() {
        lemma_digit_run_bounds(s, i + 1);
    }
}

proof fn lemma_space_run_bounds(s: Seq<char>, i: int)
    requires
        0 <= i <= s.len(),
    ensures
        0 <= space_run(s, i) <= s.len() - i,
    decreases s.len() - i,
{
    if i < s.len() {
        lemma_space_run_bounds(s, i + 1);
    }
}

/// Whether `s` begins with `prefix`.
fn has_prefix(s: &Vec<char>, prefix: &Vec<char>) -> (r: bool)
    ensures
        r == starts_with(s@, prefix@),
{
    if s.len() < prefix.len() {
        return false;
    }
    let mut i: usize = 0;
    while i < prefix.len()
        invariant
            prefix@.len() <= s@.len(),
            i <= prefix@.len(),
            forall|k: int| 0 <= k < i ==> s@[k] == prefix@[k],
        decreases prefix@.len() - i,
    {
        if s[i] != prefix[i] {
            assert(s@.subrange(0, prefix@.len() as int)[i as int] != prefix@[i as int]);
            return false;
        }
        i = i + 1;
    }
    assert(s@.subrange(0, prefix@.len() as int) =~= prefix@);
    true
}

/// The characters of `s` from index `from` on, as a string.
fn tail_string(s: &Vec<char>, from: usize) -> (r: String)
    requires
        from <= s@.len(),
    ensures
        r@ == s@.subrange(from as int, s@.len() as int),
{
    let mut out = String::new();
    let mut i: usize = from;
    while i < s.len()
        invariant
            from <= i <= s@.len(),
            out@ == s@.subrange(from as int, i as int),
        decreases s@.len() - i,
    {
        crate::strings::push_char(&mut out, s[i]);
        i = i + 1;
        assert(out@ =~= s@.subrange(from as int, i as int));
    }
    out
}

/// Reads a rule line `color rgb(R,G,B) PATTERN`: its color and pattern.
pub fn parse_rule_line(line: &str) -> (r: Option<(Color, String)>)
    ensures
        match r {
            Some((c, p)) => parse_rule(line@) == Some((c, p@)),
            None => parse_rule(line@) is None,
        },
{
    let s = chars_of(line);
    let head = vec!['c', 'o', 'l', 'o', 'r', ' ', 'r', 'g', 'b', '('];
    assert(head@ =~= seq!['c', 'o', 'l', 'o', 'r', ' ', 'r', 'g', 'b', '(']);
    if !has_prefix(&s, &head) {
        return None;
    }
    let (r, i) = match parse_channel(&s, 10, ',') {
        Some(x) => x,
        None => return None,
    };
    let (g, j) = match parse_channel(&s, i, ',') {
        Some(x) => x,
        None => return None,
    };
    let (b, k) = match parse_channel(&s, j, ')') {
        Some(x) => x,
        None => return None,
    };
    if k < s.len() && s[k] == ' ' {
        let pattern = tail_string(&s, k + 1);
        Some((Color::Rgb(r, g, b), pattern))
    } else {
        None
    }
}

/// A highlighting rule: a compiled pattern, the text it was compiled from, and its color.
/// Only `SyntaxHighlighter::from_lines` builds one, from `compile(pattern)`.
pub struct Rule {
    pattern: String,
    regex: regex::Regex,
    color: Color,
}

impl Rule {
    pub closed spec fn spec_pattern(&self) -> Seq<char> {
        self.pattern@
    }

    pub closed spec fn spec_color(&self) -> Color {
        self.color
    }
}

pub open spec fn rule_view(r: Rule) -> (Seq<char>, Color) {
    (r.spec_pattern(), r.spec_color())
}

pub open spec fn rules_view(rs: Seq<Rule>) -> Seq<(Seq<char>, Color)> {
    Seq::new(rs.len(), |i: int| rule_view(rs[i]))
}

pub open spec fn entry_view(e: (String, Vec<Rule>)) -> (Seq<char>, Seq<(Seq<char>, Color)>) {
    (e.0@, rules_view(e.1@))
}

pub open spec fn table_view(t: Seq<(String, Vec<Rule>)>) -> Seq<(Seq<char>, Seq<(Seq<char>, Color)>)> {
    Seq::new(t.len(), |i: int| entry_view(t[i]))
}

/// The hints that a list of rules gives on `text`: rule after rule, the kept hints of its
/// matches.
pub open spec fn rules_hints(
    rules: Seq<(Seq<char>, Color)>,
    text: Seq<char>,
    deviation: int,
    w: int,
) -> Seq<ColoringHint>
    decreases rules.len(),
{
    if rules.len() == 0 {
        Seq::empty()
    } else {
        rules_hints(rules.drop_last(), text, deviation, w) + kept_hints(
            color_ranges(rules.last().0, text),
            deviation,
            w,
            rules.last().1,
        )
    }
}

/// The hints that highlighting `text` for `file_type` records: those of the type's rules,
/// or none without a type or rules for it.
pub open spec fn highlight_hints(
    table: Seq<(Seq<char>, Seq<(Seq<char>, Color)>)>,
    file_type: Option<Seq<char>>,
    text: Seq<char>,
    deviation: int,
    w: int,
) -> Seq<ColoringHint> {
    match file_type {
        Some(ft) => if entry_index(table, ft) >= 0 {
            rules_hints(table[entry_index(table, ft)].1, text, deviation, w)
        } else {
            Seq::empty()
        },
        None => Seq::empty(),
    }
}

pub open spec fn opt_view(o: Option<String>) -> Option<Seq<char>> {
    match o {
        Some(s) => Some(s@),
        None => None,
    }
}

/// No hint that rules give lies on the first row or in the gutter.
pub proof fn lemma_rules_hints_avoid_margins(
    rules: Seq<(Seq<char>, Color)>,
    text: Seq<char>,
    deviation: int,
    w: int,
)
    requires
        0 <= deviation,
    ensures
        forall|k: int|
            0 <= k < rules_hints(rules, text, deviation, w).len() ==> in_content(
                #[trigger] rules_hints(rules, text, deviation, w)[k].start as int,
                w,
            ),
    decreases rules.len(),
{
    if rules.len() > 0 {
        lemma_rules_hints_avoid_margins(rules.drop_last(), text, deviation, w);
        let prev = rules_hints(rules.drop_last(), text, deviation, w);
        let last = kept_hints(color_ranges(rules.last().0, text), deviation, w, rules.last().1);
        lemma_kept_hints_avoid_margins(color_ranges(rules.last().0, text), deviation, w, rules.last().1);
        let all = rules_hints(rules, text, deviation, w);
        assert forall|k: int| 0 <= k < all.len() implies in_content(#[trigger] all[k].start as int, w) by {
            if k < prev.len() {
                assert(all[k] == prev[k]);
            } else {
                assert(all[k] == last[k - prev.len()]);
            }
        }
    }
}

/// A rule line that yields no rule: it begins with `color` but does not parse, or its
/// pattern does not compile.
pub open spec fn is_bad_rule(line: Seq<char>) -> bool {
    &&& !starts_with(line, seq!['f', 'i', 'l', 'e', ' '])
    &&& starts_with(line, seq!['c', 'o', 'l', 'o', 'r'])
    &&& match parse_rule(line) {
        Some((_, pattern)) => !pattern_compiles(pattern),
        None => true,
    }
}

/// The indexes of the rule lines that yield no rule, in order.
pub open spec fn skipped_lines(lines: Seq<Seq<char>>) -> Seq<usize>
    decreases lines.len(),
{
    if lines.len() == 0 {
        Seq::empty()
    } else if is_bad_rule(lines.last()) {
        skipped_lines(lines.drop_last()).push((lines.len() - 1) as usize)
    } else {
        skipped_lines(lines.drop_last())
    }
}

/// Gives `key` the rules `rules` in the table, in place of what it had.
fn insert_entry(table: &mut Vec<(String, Vec<Rule>)>, key: String, rules: Vec<Rule>)
    ensures
        table_view(final(table)@) == table_insert(table_view(old(table)@), key@, rules_view(rules@)),
{
    let ghost tv = table_view(table@);
    let mut k: usize = table.len();
    assert(tv.take(k as int) =~= tv);
    while k > 0
        invariant
            k <= table@.len(),
            table@ == old(table)@,
            tv == table_view(table@),
            entry_index(tv, key@) == entry_index(tv.take(k as int), key@),
        decreases k,
    {
        if table[k - 1].0 == key {
            assert(tv.take(k as int).last().0 == key@);
            assert(entry_index(tv, key@) == k - 1);
            let ghost rv = rules_view(rules@);
            table.set(k - 1, (key, rules));
            assert(table_view(table@) =~= tv.update(k - 1, (key@, rv)));
            return;
        }
        assert(tv.take(k as int).drop_last() =~= tv.take(k - 1));
        k = k - 1;
    }
    assert(tv.take(0) =~= Seq::<(Seq<char>, Seq<(Seq<char>, Color)>)>::empty());
    let ghost rv = rules_view(rules@);
    table.push((key, rules));
    assert(table_view(table@) =~= tv.push((key@, rv)));
}

/// Colors the text shown in a grid by the rules of its file type.
///
/// The rules are kept per file type in a `Vec` of (type, rules) entries with distinct types,
/// a later `file` line replacing an entry in place: a map keyed by `String` would leave
/// its contents unspecified to the verifier.
pub struct SyntaxHighlighter {
    buffer: String,
    syntax_coloring: Vec<(String, Vec<Rule>)>,
    skipped: Vec<usize>,
}

impl SyntaxHighlighter {
    /// For each file type, its rules as (pattern, color) pairs in the order they were given.
    pub closed spec fn table(&self) -> Seq<(Seq<char>, Seq<(Seq<char>, Color)>)> {
        table_view(self.syntax_coloring@)
    }

    pub closed spec fn skipped_view(&self) -> Seq<usize> {
        self.skipped@
    }

    /// Builds the rule table from a configuration text, split into lines as `str::lines` does.
    pub fn new(config: String) -> (r: Self)
        ensures
            r.table() == config_table(config@),
            r.skipped_view() == skipped_lines(text_lines(config@)),
    {
        let lines = split_lines(config.as_str());
        Self::from_lines(&lines)
    }

    /// Builds the rule table from configuration lines. Rule lines gather until a
    /// `file TYPE` line hands them to that type; rule lines that do not parse, or whose
    /// pattern does not compile, are skipped and their indexes kept.
    pub fn from_lines(lines: &Vec<String>) -> (r: Self)
        ensures
            r.table() == config_state(crate::document::lines_view(lines@)).0,
            r.skipped_view() == skipped_lines(crate::document::lines_view(lines@)),
    {
        let ghost ls = crate::document::lines_view(lines@);
        let file_prefix = vec!['f', 'i', 'l', 'e', ' '];
        assert(file_prefix@ =~= seq!['f', 'i', 'l', 'e', ' ']);
        let color_prefix = vec!['c', 'o', 'l', 'o', 'r'];
        assert(color_prefix@ =~= seq!['c', 'o', 'l', 'o', 'r']);
        let mut table: Vec<(String, Vec<Rule>)> = Vec::new();
        let mut pending: Vec<Rule> = Vec::new();
        let mut skipped: Vec<usize> = Vec::new();
        let mut i: usize = 0;
        assert(ls.take(0) =~= Seq::<Seq<char>>::empty());
        assert(table_view(table@) =~= Seq::<(Seq<char>, Seq<(Seq<char>, Color)>)>::empty());
        assert(rules_view(pending@) =~= Seq::<(Seq<char>, Color)>::empty());
        while i < lines.len()
            invariant
                i <= lines@.len(),
                ls == crate::document::lines_view(lines@),
                file_prefix@ == seq!['f', 'i', 'l', 'e', ' '],
                color_prefix@ == seq!['c', 'o', 'l', 'o', 'r'],
                (table_view(table@), rules_view(pending@)) == config_state(ls.take(i as int)),
                skipped@ == skipped_lines(ls.take(i as int)),
            decreases lines@.len() - i,
        {
            let s = chars_of(lines[i].as_str());
            assert(s@ == ls[i as int]);
            let ghost prev_skipped = skipped@;
            if has_prefix(&s, &file_prefix) {
                let tail = tail_string(&s, 5);
                let key = trim_text(tail.as_str());
                let mut rules: Vec<Rule> = Vec::new();
                std::mem::swap(&mut rules, &mut pending);
                insert_entry(&mut table, key, rules);
                assert(rules_view(pending@) =~= Seq::<(Seq<char>, Color)>::empty());
            } else {
                let mut added = false;
                match parse_rule_line(lines[i].as_str()) {
                    Some((color, pattern)) => {
                        match compile(pattern.as_str()) {
                            Some(regex) => {
                                let ghost pv = rules_view(pending@);
                                let ghost pat = pattern@;
                                pending.push(Rule { pattern, regex, color });
                                assert(rules_view(pending@) =~= pv.push((pat, color)));
                                added = true;
                            },
                            None => {},
                        }
                    },
                    None => {},
                }
                if !added && has_prefix(&s, &color_prefix) {
                    skipped.push(i);
                }
            }
            i = i + 1;
            assert(ls.take(i as int).drop_last() =~= ls.take(i - 1));
            assert(ls.take(i as int).last() == ls[i - 1]);
        }
        assert(ls.take(i as int) =~= ls);
        SyntaxHighlighter { buffer: String::new(), syntax_coloring: table, skipped }
    }

    /// The indexes of the configuration lines that begin with `color` but gave no rule,
    /// because they do not parse or their pattern does not compile.
    pub fn skipped_lines(&self) -> (r: Vec<usize>)
        ensures
            r@ == self.skipped_view(),
    {
        self.skipped.clone()
    }

    /// Clears the scratch text kept between frames; the rules stay.
    pub fn reset(&mut self)
        ensures
            final(self).table() == old(self).table(),
            final(self).skipped_view() == old(self).skipped_view(),
    {
        self.buffer = String::new();
    }

    /// Index of the rules for `file_type`, if it has any.
    fn rules_index(&self, file_type: &String) -> (r: Option<usize>)
        ensures
            match r {
                Some(k) => k == entry_index(self.table(), file_type@) && k < self.table().len(),
                None => entry_index(self.table(), file_type@) < 0,
            },
    {
        let ghost tv = self.table();
        let mut k: usize = self.syntax_coloring.len();
        assert(tv.take(k as int) =~= tv);
        while k > 0
            invariant
                k <= self.syntax_coloring@.len(),
                tv == self.table(),
                entry_index(tv, file_type@) == entry_index(tv.take(k as int), file_type@),
            decreases k,
        {
            assert(tv.take(k as int).drop_last() =~= tv.take(k - 1));
            if self.syntax_coloring[k - 1].0 == *file_type {
                return Some(k - 1);
            }
            k = k - 1;
        }
        None
    }

    /// Colors `window` by the rules of `file_type`: each match of each rule, in rule order,
    /// gives a hint for its group `color`, moved back by `deviation`, unless it would start
    /// on the first row or in the gutter. Without a file type, or for one without rules,
    /// nothing is recorded.
    pub fn highlight(&mut self, window: &mut CharGrid, deviation: usize, file_type: &Option<String>)
        ensures
            final(self).table() == old(self).table(),
            final(self).skipped_view() == old(self).skipped_view(),
            final(window).cells() == old(window).cells(),
            final(window).grid_width() == old(window).grid_width(),
            final(window).grid_height() == old(window).grid_height(),
            final(window).hint_list() == old(window).hint_list() + highlight_hints(
                old(self).table(),
                opt_view(*file_type),
                old(window).cells(),
                deviation as int,
                old(window).grid_width() as int,
            ),
            forall|k: int|
                old(window).hint_list().len() <= k < final(window).hint_list().len() ==> in_content(
                    #[trigger] final(window).hint_list()[k].start as int,
                    old(window).grid_width() as int,
                ),
    {
        let ghost w = window.grid_width() as int;
        let ghost cells = window.cells();
        let ghost dev = deviation as int;
        if let Some(ft) = file_type {
            if let Some(idx) = self.rules_index(ft) {
                let text = window.to_string();
                let n = self.syntax_coloring[idx].1.len();
                let ghost rules = self.table()[idx as int].1;
                let mut j: usize = 0;
                assert(rules.take(0) =~= Seq::<(Seq<char>, Color)>::empty());
                assert(window.hint_list() =~= old(window).hint_list() + rules_hints(rules.take(0), cells, dev, w));
                while j < n
                    invariant
                        idx < self.syntax_coloring@.len(),
                        n == self.syntax_coloring@[idx as int].1@.len(),
                        rules == self.table()[idx as int].1,
                        rules == rules_view(self.syntax_coloring@[idx as int].1@),
                        j <= n,
                        dev == deviation as int,
                        text@ == cells,
                        self.table() == old(self).table(),
                        self.skipped_view() == old(self).skipped_view(),
                        w == old(window).grid_width(),
                        cells == old(window).cells(),
                        window.cells() == old(window).cells(),
                        window.grid_width() == old(window).grid_width(),
                        window.grid_height() == old(window).grid_height(),
                        window.hint_list() == old(window).hint_list() + rules_hints(
                            rules.take(j as int),
                            cells,
                            dev,
                            w,
                        ),
                    decreases n - j,
                {
                    let rule = &self.syntax_coloring[idx].1[j];
                    let found = color_captures(rule, text.as_str());
                    let ghost before = window.hint_list();
                    let color = rule.color;
                    add_color_spans(window, &found, deviation, color);
                    assert(window.hint_list() == before + kept_hints(found@, dev, w, color));
                    j = j + 1;
                    proof {
                        let t = rules.take(j as int);
                        assert(t.drop_last() =~= rules.take(j - 1));
                        assert(t.last() == rule_view(self.syntax_coloring@[idx as int].1@[j - 1]));
                        assert(*rule == self.syntax_coloring@[idx as int].1@[j - 1]);
                        assert(found@ == color_ranges(t.last().0, cells));
                        assert(rule.color == t.last().1);
                        assert(rules_hints(t, cells, dev, w) == rules_hints(rules.take(j - 1), cells, dev, w)
                            + kept_hints(found@, dev, w, rule.color));
                        assert(before == old(window).hint_list() + rules_hints(rules.take(j - 1), cells, dev, w));
                        assert(window.hint_list() =~= old(window).hint_list() + rules_hints(t, cells, dev, w));
                    }
                }
                assert(rules.take(n as int) =~= rules);
            }
        }
        proof {
            match opt_view(*file_type) {
                Some(ft) => {
                    if entry_index(old(self).table(), ft) >= 0 {
                        lemma_rules_hints_avoid_margins(
                            old(self).table()[entry_index(old(self).table(), ft)].1,
                            cells,
                            dev,
                            w,
                        );
                    }
                },
                None => {},
            }
            let added = highlight_hints(old(self).table(), opt_view(*file_type), cells, dev, w);
            assert(window.hint_list() =~= old(window).hint_list() + added);
            assert forall|k: int|
                old(window).hint_list().len() <= k < window.hint_list().len() implies in_content(
                    #[trigger] window.hint_list()[k].start as int,
                    w,
                ) by {
                assert(window.hint_list()[k] == added[k - old(window).hint_list().len()]);
            }
        }
    }
}

} // verus!
