//! What the screen shows, computed without the terminal: the pane geometry,
//! the header, explorer rows, tab line, line numbers, status line, prompt,
//! cursor positions and the intro animation.
use vstd::prelude::*;
use crate::app::{App, AppView, FocusPane, PromptKind};
use crate::buffer::{Buffer, BufferView};
use crate::explorer::{has_path, dirs_contains, ItemView};
use crate::text::{string_of, string_push, concat, decimal, decimal_string, split_lines, text_lines, strings_view, boundary, byte_len, utf8, string_len, str_len};
use crate::paths::chars_of;

verus! {

/* Small helpers */

/// `a - b`, or 0 when `b` is larger (`saturating_sub`).
pub open spec fn sat_sub(a: int, b: int) -> int {
    if a > b {
        a - b
    } else {
        0
    }
}

/// The smaller of two integers.
pub open spec fn min_int(a: int, b: int) -> int {
    if a <= b {
        a
    } else {
        b
    }
}

/// The first `n` characters of `s` (all of them when it is shorter):
/// `s.chars().take(n)`.
pub open spec fn clip(s: Seq<char>, n: int) -> Seq<char> {
    if 0 <= n < s.len() {
        s.take(n)
    } else if n < 0 {
        Seq::empty()
    } else {
        s
    }
}

/// `s.chars().take(n).collect()`.
pub fn take_chars(s: &str, n: usize) -> (r: String)
    ensures
        r@ == clip(s@, n as int),
{
    let cs = chars_of(s);
    let end = if n < cs.len() {
        n
    } else {
        cs.len()
    };
    let r = crate::paths::string_from_chars(&cs, 0, end);
    proof {
        assert(cs@.subrange(0, end as int) =~= clip(s@, n as int));
    }
    r
}

/// `n` spaces.
pub open spec fn spaces(n: nat) -> Seq<char> {
    Seq::new(n, |i: int| ' ')
}

/// `s` padded with spaces on the right to `w` characters (`format!("{:<w$}", s)`).
pub open spec fn pad_right(s: Seq<char>, w: nat) -> Seq<char> {
    if s.len() < w {
        s + spaces((w - s.len()) as nat)
    } else {
        s
    }
}

/// `s` padded with spaces on the left to `w` characters (`format!("{:>w$}", s)`).
pub open spec fn pad_left(s: Seq<char>, w: nat) -> Seq<char> {
    if s.len() < w {
        spaces((w - s.len()) as nat) + s
    } else {
        s
    }
}

fn push_spaces(s: &mut String, n: usize)
    ensures
        final(s)@ == old(s)@ + spaces(n as nat),
{
    let mut i: usize = 0;
    while i < n
        invariant
            i <= n,
            s@ == old(s)@ + spaces(i as nat),
        decreases n - i,
    {
        string_push(s, ' ');
        i = i + 1;
        proof {
            assert(s@ =~= old(s)@ + spaces(i as nat));
        }
    }
}

/// Pads `s` with spaces on the right to `w` characters.
pub fn pad_right_str(s: &str, w: usize) -> (r: String)
    ensures
        r@ == pad_right(s@, w as nat),
{
    let n = chars_of(s).len();
    let mut r = string_of(s);
    if n < w {
        push_spaces(&mut r, w - n);
    }
    r
}

/// `String::truncate`: keeps the first `n` bytes. The standard library
/// panics when `n` is inside a character, so a boundary is required.
#[verifier::external_body]
pub(crate) fn string_truncate(s: &mut String, n: usize)
    requires
        n < byte_len(old(s)@) ==> boundary(old(s)@, n as int),
    ensures
        n >= byte_len(old(s)@) ==> final(s)@ == old(s)@,
        n < byte_len(old(s)@) ==> utf8(final(s)@) == utf8(old(s)@).subrange(0, n as int),
{
    s.truncate(n)
}

/// Cutting `s` to `n` bytes does not split a character (the editor panics
/// on one that would).
pub open spec fn can_cut(s: Seq<char>, n: int) -> bool {
    n < byte_len(s) ==> boundary(s, n)
}

/// Whether `s` can be cut to `n` bytes without splitting a character.
pub fn cut_ok(s: &str, n: usize) -> (r: bool)
    ensures
        r == can_cut(s@, n as int),
{
    str_len(s) <= n || s.is_char_boundary(n)
}

/// `s` cut to its first `n` bytes when it is longer (`String::truncate`).
pub fn cut_to(s: String, n: usize) -> (r: String)
    requires
        can_cut(s@, n as int),
    ensures
        n >= byte_len(s@) ==> r@ == s@,
        n < byte_len(s@) ==> utf8(r@) == utf8(s@).subrange(0, n as int),
{
    let mut r = s;
    string_truncate(&mut r, n);
    r
}

/* Screen geometry */

/// Where the panes go on a `w` by `h` screen.
#[derive(Clone, Copy, PartialEq, Eq, Structural, Debug)]
pub struct Layout {
    pub inner_x: u16,
    pub inner_y: u16,
    pub inner_w: u16,
    pub inner_h: u16,
    pub explorer_w: u16,
    pub editor_x: u16,
    pub editor_w: u16,
}

/// The width of the explorer pane inside a frame `inner_w` wide: 28% of it
/// (the product saturating at `u16::MAX`), at least 20.
pub open spec fn explorer_width(inner_w: int) -> int {
    let product = if inner_w * 28 > 0xFFFF {
        0xFFFF
    } else {
        inner_w * 28
    };
    let share = product / 100;
    if share < 20 {
        20
    } else {
        share
    }
}

/// The screen is too small for the editor below 30 columns or 12 rows.
pub open spec fn too_small(w: int, h: int) -> bool {
    w < 30 || h < 12
}

/// The layout of a `w` by `h` screen, `None` when it is too small: a one
/// cell frame, the explorer on the left, a one cell divider, the editor on
/// the right.
pub open spec fn layout_of(w: int, h: int) -> Option<Layout> {
    if too_small(w, h) {
        None
    } else {
        let inner_w = sat_sub(w, 2);
        let explorer_w = explorer_width(inner_w);
        Some(
            Layout {
                inner_x: 1,
                inner_y: 1,
                inner_w: inner_w as u16,
                inner_h: sat_sub(h, 2) as u16,
                explorer_w: explorer_w as u16,
                editor_x: (1 + explorer_w + 1) as u16,
                editor_w: sat_sub(inner_w, explorer_w + 1) as u16,
            },
        )
    }
}

/// Lays out a `w` by `h` screen (see [`layout_of`]).
pub fn compute_layout(w: u16, h: u16) -> (l: Option<Layout>)
    ensures
        l == layout_of(w as int, h as int),
        l matches Some(l) ==> l.fits(),
{
    if w < 30 || h < 12 {
        return None;
    }
    let inner_w = w.saturating_sub(2);
    let inner_h = h.saturating_sub(2);
    let product: u32 = (inner_w as u32) * 28;
    let capped: u16 = if product > 0xFFFF {
        0xFFFF
    } else {
        product as u16
    };
    let share = capped / 100;
    let explorer_w = if share < 20 {
        20
    } else {
        share
    };
    let editor_x = 1 + explorer_w + 1;
    let editor_w = inner_w.saturating_sub(explorer_w + 1);
    Some(Layout { inner_x: 1, inner_y: 1, inner_w, inner_h, explorer_w, editor_x, editor_w })
}

impl Layout {
    /// The pane positions below stay on a `u16` screen.
    pub open spec fn fits(self) -> bool {
        &&& self.inner_x + 2 <= 0xFFFF
        &&& self.inner_x + self.inner_w <= 0xFFFF
        &&& self.editor_x < 0xFFFF
        &&& self.inner_y + 2 <= 0xFFFF
        &&& self.inner_y + self.inner_h <= 0xFFFF
    }

    /// The explorer pane's list: x, y, width, height.
    pub open spec fn explorer_rect_spec(self) -> (int, int, int, int) {
        (
            self.inner_x + 1,
            self.inner_y + 2,
            sat_sub(self.explorer_w as int, 2),
            sat_sub(self.inner_h as int, 5),
        )
    }

    /// The editor pane: x, y, width, height.
    pub open spec fn editor_rect_spec(self) -> (int, int, int, int) {
        (
            self.editor_x + 1,
            self.inner_y + 2,
            sat_sub(self.editor_w as int, 2),
            sat_sub(self.inner_h as int, 5),
        )
    }

    /// The status line: x, y, width.
    pub open spec fn status_rect_spec(self) -> (int, int, int) {
        (self.inner_x + 1, self.inner_y + sat_sub(self.inner_h as int, 2), sat_sub(self.inner_w as int, 2))
    }

    /// The explorer pane's list: x, y, width, height.
    pub fn explorer_rect(&self) -> (r: (u16, u16, u16, u16))
        requires
            self.fits(),
        ensures
            (r.0 as int, r.1 as int, r.2 as int, r.3 as int) == self.explorer_rect_spec(),
    {
        (self.inner_x + 1, self.inner_y + 2, self.explorer_w.saturating_sub(2), self.inner_h.saturating_sub(5))
    }

    /// The editor pane: x, y, width, height.
    pub fn editor_rect(&self) -> (r: (u16, u16, u16, u16))
        requires
            self.fits(),
        ensures
            (r.0 as int, r.1 as int, r.2 as int, r.3 as int) == self.editor_rect_spec(),
    {
        (self.editor_x + 1, self.inner_y + 2, self.editor_w.saturating_sub(2), self.inner_h.saturating_sub(5))
    }

    /// The status line: x, y, width.
    pub fn status_rect(&self) -> (r: (u16, u16, u16))
        requires
            self.fits(),
        ensures
            (r.0 as int, r.1 as int, r.2 as int) == self.status_rect_spec(),
    {
        (self.inner_x + 1, self.inner_y + self.inner_h.saturating_sub(2), self.inner_w.saturating_sub(2))
    }
}

/* Text of the header, explorer, editor and status line */

/// The pieces put together with `sep` between each two (`[String]::join`).
pub open spec fn join_sep(ls: Seq<Seq<char>>, sep: Seq<char>) -> Seq<char>
    decreases ls.len(),
{
    if ls.len() == 0 {
        Seq::empty()
    } else if ls.len() == 1 {
        ls[0]
    } else {
        join_sep(ls.drop_last(), sep) + sep + ls.last()
    }
}

/// The header line: workspace, number of buffers and focused pane, cut to
/// two characters less than the frame's inner width.
pub open spec fn header_text(app: AppView, w: int) -> Seq<char> {
    let ws = match app.workspace_root {
        Some(r) => r,
        None => "[no folder opened]"@,
    };
    let focus = if app.focus == FocusPane::Editor {
        "editor"@
    } else {
        "explorer"@
    };
    clip(
        " TERMX | ws: "@ + ws + " | buffers: "@ + decimal(app.buffers.len()) + " | focus: "@ + focus
            + " "@,
        sat_sub(w, 2),
    )
}

/// The label of buffer `i` in the tab line: the active one in brackets, a
/// `*` after the name of one with unsaved edits.
pub open spec fn tab_label(app: AppView, i: int) -> Seq<char> {
    let b = app.buffers[i];
    let dirty = if b.dirty {
        "*"@
    } else {
        Seq::empty()
    };
    if i == app.active_buffer {
        "["@ + b.name + dirty + "]"@
    } else {
        " "@ + b.name + dirty + " "@
    }
}

/// The tab line: every buffer's label, separated by ` | `.
pub open spec fn tab_line(app: AppView) -> Seq<char> {
    join_sep(Seq::new(app.buffers.len(), |i: int| tab_label(app, i)), " | "@)
}

/// The label of explorer row `i`: indentation of two spaces per level (at
/// most eight levels), `-` for an open folder, `+` for a closed one, a space
/// for a file, then a space and the name.
pub open spec fn explorer_label(app: AppView, i: int) -> Seq<char> {
    let item = app.explorer[i];
    let marker = if !item.is_dir {
        " "@
    } else if has_path(app.expanded_dirs, item.path) {
        "-"@
    } else {
        "+"@
    };
    spaces((2 * min_int(item.depth as int, 8)) as nat) + marker + " "@ + item.name
}

/// The key bindings shown on a narrow status line.
pub open spec fn f_key_help() -> Seq<char> {
    "F2 folder  F1 file  F3 mkfile  F4 mkdir  F5 save  F6 save-as  F7 close  F9 pane  F10 quit"@
}

/// The key bindings shown on a status line wider than 110.
pub open spec fn ctrl_key_help() -> Seq<char> {
    "^s save  ^a save-as  ^o open  ^g folder  ^n mkfile  ^m mkdir  ^w close  ^b pane  ^q quit"@
}

/// The status line `w` wide: the status message (cut to fit) and the key
/// bindings, or just the bindings when there is no room for more; cut to `w`.
pub open spec fn status_text(status: Seq<char>, w: int) -> Seq<char> {
    let right = if w > 110 {
        ctrl_key_help()
    } else {
        f_key_help()
    };
    let text = if w > right.len() + 10 {
        clip(status, sat_sub(w, right.len() as int + 3)) + " | "@ + right
    } else {
        right
    };
    clip(text, w)
}

/// The prompt as shown: title, colon, what was typed; cut to `w` characters.
pub open spec fn prompt_text(kind: PromptKind, input: Seq<char>, w: int) -> Seq<char> {
    clip(kind.title_spec() + ": "@ + input, w)
}

/// A line number as the editor shows it: right-aligned in four columns, then a space.
pub open spec fn line_number_label(n: nat) -> Seq<char> {
    pad_left(decimal(n), 4) + " "@
}

impl App {
    /// The header line for a frame whose inner width is `w` (see [`header_text`]).
    pub fn header_text(&self, w: u16) -> (t: String)
        ensures
            t@ == header_text(self@, w as int),
    {
        let mut text = string_of(" TERMX | ws: ");
        match &self.workspace_root {
            Some(r) => text.append(r.as_str()),
            None => text.append("[no folder opened]"),
        }
        text.append(" | buffers: ");
        let n = decimal_string(self.buffers.len());
        text.append(n.as_str());
        text.append(" | focus: ");
        if self.focus == FocusPane::Editor {
            text.append("editor");
        } else {
            text.append("explorer");
        }
        text.append(" ");
        proof {
            assert(self@.buffers.len() == self.buffers@.len());
        }
        take_chars(text.as_str(), w.saturating_sub(2) as usize)
    }

    /// The label of buffer `i` in the tab line.
    fn tab_label(&self, i: usize) -> (t: String)
        requires
            i < self.buffers@.len(),
        ensures
            t@ == tab_label(self@, i as int),
    {
        let b = &self.buffers[i];
        proof {
            assert(self@.buffers[i as int] == b@);
        }
        let mut t = if i == self.active_buffer {
            string_of("[")
        } else {
            string_of(" ")
        };
        t.append(b.name.as_str());
        if b.dirty {
            t.append("*");
        }
        if i == self.active_buffer {
            t.append("]");
        } else {
            t.append(" ");
        }
        t
    }

    /// The tab line (see [`tab_line`]).
    pub fn tab_line(&self) -> (t: String)
        ensures
            t@ == tab_line(self@),
    {
        let ghost labels = Seq::new(self@.buffers.len(), |i: int| tab_label(self@, i));
        let mut t = String::new();
        let n = self.buffers.len();
        for i in 0..n
            invariant
                n == self.buffers@.len(),
                labels == Seq::new(self@.buffers.len(), |i: int| tab_label(self@, i)),
                t@ == join_sep(labels.take(i as int), " | "@),
        {
            proof {
                assert(labels.take(i + 1).drop_last() =~= labels.take(i as int));
                if i == 0 {
                    assert(labels.take(1) =~= seq![labels[0]]);
                }
            }
            if i > 0 {
                t.append(" | ");
            }
            let l = self.tab_label(i);
            t.append(l.as_str());
        }
        proof {
            assert(labels.take(n as int) =~= labels);
        }
        t
    }

    /// The label of explorer row `i`, if there is such a row (see [`explorer_label`]).
    pub fn explorer_label(&self, i: usize) -> (t: Option<String>)
        ensures
            match t {
                Some(t) => i < self@.explorer.len() && t@ == explorer_label(self@, i as int),
                None => i >= self@.explorer.len(),
            },
    {
        if i >= self.explorer.len() {
            return None;
        }
        let item = &self.explorer[i];
        proof {
            assert(self@.explorer[i as int] == item@);
        }
        let depth = if item.depth < 8 {
            item.depth
        } else {
            8
        };
        let mut t = String::new();
        push_spaces(&mut t, 2 * depth);
        if !item.is_dir {
            t.append(" ");
        } else if dirs_contains(&self.expanded_dirs, item.path.as_str()) {
            t.append("-");
        } else {
            t.append("+");
        }
        t.append(" ");
        t.append(item.name.as_str());
        proof {
            assert(Seq::<char>::empty() + spaces((2 * depth) as nat) =~= spaces((2 * depth) as nat));
        }
        Some(t)
    }

    /// The status line `w` wide (see [`status_text`]).
    pub fn status_line_text(&self, w: u16) -> (t: String)
        ensures
            t@ == status_text(self@.status, w as int),
    {
        let right = if w > 110 {
            string_of("^s save  ^a save-as  ^o open  ^g folder  ^n mkfile  ^m mkdir  ^w close  ^b pane  ^q quit")
        } else {
            string_of("F2 folder  F1 file  F3 mkfile  F4 mkdir  F5 save  F6 save-as  F7 close  F9 pane  F10 quit")
        };
        let rlen = chars_of(right.as_str()).len();
        let text = if (w as usize) > rlen && (w as usize) - rlen > 10 {
            let left_space = (w as usize) - rlen - 3;
            let mut t = take_chars(self.status.as_str(), left_space);
            t.append(" | ");
            t.append(right.as_str());
            t
        } else {
            right
        };
        take_chars(text.as_str(), w as usize)
    }

    /// Moves the explorer's first shown row so that the selection is among
    /// the `h` rows shown.
    pub fn scroll_explorer(&mut self, h: usize)
        requires
            old(self).explorer_scroll + h <= usize::MAX,
            h > 0,
        ensures
            final(self)@ == (AppView {
                explorer_scroll: scrolled(
                    old(self).explorer_index as int,
                    old(self).explorer_scroll as int,
                    h as int,
                ) as nat,
                ..old(self)@
            }),
    {
        if self.explorer_index < self.explorer_scroll {
            self.explorer_scroll = self.explorer_index;
        }
        if self.explorer_index >= self.explorer_scroll + h {
            self.explorer_scroll = self.explorer_index - h + 1;
        }
        proof {
            assert(self@ =~= (AppView {
                explorer_scroll: scrolled(
                    old(self).explorer_index as int,
                    old(self).explorer_scroll as int,
                    h as int,
                ) as nat,
                ..old(self)@
            }));
        }
    }
}

/// The first shown row after scrolling so that row `index` is among the `h`
/// shown from row `scroll` on.
pub open spec fn scrolled(index: int, scroll: int, h: int) -> int {
    let s1 = if index < scroll {
        index
    } else {
        scroll
    };
    if index >= s1 + h {
        index + 1 - h
    } else {
        s1
    }
}

/// A line number label (see [`line_number_label`]).
pub fn line_number(n: usize) -> (t: String)
    ensures
        t@ == line_number_label(n as nat),
{
    let d = decimal_string(n);
    let len = chars_of(d.as_str()).len();
    let mut t = String::new();
    if len < 4 {
        push_spaces(&mut t, 4 - len);
    }
    t.append(d.as_str());
    t.append(" ");
    proof {
        assert(Seq::<char>::empty() + spaces((4 - len) as nat) =~= spaces((4 - len) as nat));
        if len >= 4 {
            assert(Seq::<char>::empty() + d@ =~= d@);
        }
    }
    t
}

/// The prompt line (see [`prompt_text`]).
pub fn prompt_line(kind: PromptKind, input: &str, w: usize) -> (t: String)
    ensures
        t@ == prompt_text(kind, input@, w as int),
{
    let mut t = string_of(kind.title());
    t.append(": ");
    t.append(input);
    take_chars(t.as_str(), w)
}

/// Where the terminal cursor goes while a prompt is open: after the title,
/// the colon and space, and what was typed (counting bytes, each sum
/// saturating), but not past the frame's inner right edge.
pub open spec fn prompt_cursor(l: Layout, title_len: int, input_len: int) -> (int, int) {
    let sat = |a: int, b: int| if a + b > 0xFFFF { 0xFFFF } else { a + b };
    let x = sat(sat(sat(l.inner_x + 2, title_len as u16 as int), 2), input_len as u16 as int);
    (min_int(x, l.inner_x + sat_sub(l.inner_w as int, 2)), l.inner_y + sat_sub(l.inner_h as int, 2))
}

/// The cursor position while a prompt of kind `kind` holding `input` is open.
pub fn prompt_cursor_pos(l: &Layout, kind: PromptKind, input: &str) -> (p: (u16, u16))
    requires
        l.fits(),
    ensures
        (p.0 as int, p.1 as int) == prompt_cursor(*l, byte_len(kind.title_spec()) as int, byte_len(input@) as int),
{
    let title_len = str_len(kind.title());
    let input_len = str_len(input);
    let x = (l.inner_x + 2).saturating_add(title_len as u16).saturating_add(2).saturating_add(input_len as u16);
    let right = l.inner_x + l.inner_w.saturating_sub(2);
    let x = if x < right {
        x
    } else {
        right
    };
    (x, l.inner_y + l.inner_h.saturating_sub(2))
}

/* The editor pane */

/// `s` cut to its first `n` bytes when it is longer (what `String::truncate` leaves).
pub open spec fn cut(s: Seq<char>, n: int) -> Seq<char> {
    if n >= byte_len(s) {
        s
    } else {
        vstd::utf8::decode_utf8(utf8(s).subrange(0, n))
    }
}

/// The text of editor row `row` (counted from the first shown line) in a pane
/// `w` wide: the line number and as many bytes of the line as fit; nothing
/// below the last line.
pub open spec fn editor_row(b: BufferView, row: int, w: int) -> Option<Seq<char>> {
    let idx = b.scroll_y + row;
    if idx < b.lines.len() {
        let num = line_number_label((idx + 1) as nat);
        let avail = sat_sub(w, byte_len(num) as u16 as int);
        Some(num + cut(vstd::utf8::decode_utf8(b.lines[idx]), avail))
    } else {
        None
    }
}

/// The cursor's place on screen for a pane at column `x` whose text starts at
/// row `text_y`, `w` wide and `text_h` lines high: the line is kept within
/// the shown lines, the column past the five-character line number and
/// within the pane.
pub open spec fn editor_cursor(b: BufferView, x: int, text_y: int, w: int, text_h: int) -> (int, int) {
    let row = sat_sub(b.cursor_y as int, b.scroll_y as int);
    (x + 5 + min_int(b.cursor_x as int, sat_sub(w, 6)), text_y + min_int(row, sat_sub(text_h, 1)))
}

impl Buffer {
    /// Moves the first shown line so that the cursor line is among the
    /// `text_h` shown (when any are shown).
    pub fn scroll_to_cursor(&mut self, text_h: usize)
        requires
            old(self).scroll_y + text_h <= usize::MAX,
        ensures
            final(self)@ == (BufferView {
                scroll_y: (if text_h > 0 {
                    scrolled(old(self).cursor_y as int, old(self).scroll_y as int, text_h as int)
                } else if old(self).cursor_y < old(self).scroll_y {
                    old(self).cursor_y as int
                } else {
                    old(self).scroll_y as int
                }) as nat,
                ..old(self)@
            }),
    {
        if self.cursor_y < self.scroll_y {
            self.scroll_y = self.cursor_y;
        }
        if text_h > 0 && self.cursor_y >= self.scroll_y + text_h {
            self.scroll_y = self.cursor_y - text_h + 1;
        }
        proof {
            assert(self@ =~= (BufferView {
                scroll_y: (if text_h > 0 {
                    scrolled(old(self).cursor_y as int, old(self).scroll_y as int, text_h as int)
                } else if old(self).cursor_y < old(self).scroll_y {
                    old(self).cursor_y as int
                } else {
                    old(self).scroll_y as int
                }) as nat,
                ..old(self)@
            }));
        }
    }

    /// Editor row `row` can be drawn in a pane `w` wide without cutting a
    /// character in two (the editor panics on a row that would).
    pub open spec fn row_fits(self, row: int, w: int) -> bool {
        let idx = self@.scroll_y + row;
        idx < self@.lines.len() ==> {
            let num = line_number_label((idx + 1) as nat);
            can_cut(self.lines@[idx]@, sat_sub(w, byte_len(num) as u16 as int))
        }
    }

    fn row_label(&self, row: usize) -> (r: Option<(String, usize)>)
        requires
            self.scroll_y + row <= usize::MAX,
        ensures
            match r {
                Some((num, idx)) => idx == self.scroll_y + row && idx < self.lines@.len()
                    && num@ == line_number_label((idx + 1) as nat),
                None => self.scroll_y + row >= self.lines@.len(),
            },
    {
        let idx = self.scroll_y + row;
        if idx < self.lines.len() {
            Some((line_number(idx + 1), idx))
        } else {
            None
        }
    }

    /// Whether editor row `row` fits (see [`Buffer::row_fits`]).
    pub fn row_fits_exec(&self, row: usize, w: u16) -> (r: bool)
        requires
            self.scroll_y + row <= usize::MAX,
        ensures
            r == self.row_fits(row as int, w as int),
    {
        match self.row_label(row) {
            Some((num, idx)) => {
                let avail = w.saturating_sub(str_len(num.as_str()) as u16) as usize;
                cut_ok(self.lines[idx].as_str(), avail)
            },
            None => true,
        }
    }

    /// The text of editor row `row` in a pane `w` wide (see [`editor_row`]).
    pub fn visible_row(&self, row: usize, w: u16) -> (r: Option<String>)
        requires
            self.scroll_y + row <= usize::MAX,
            self.row_fits(row as int, w as int),
        ensures
            opt_seq(r) == editor_row(self@, row as int, w as int),
    {
        match self.row_label(row) {
            Some((num, idx)) => {
                let avail = w.saturating_sub(str_len(num.as_str()) as u16) as usize;
                let line = self.lines[idx].clone();
                let ghost before = line@;
                let text = cut_to(line, avail);
                proof {
                    vstd::utf8::encode_utf8_decode_utf8(text@);
                    vstd::utf8::encode_utf8_decode_utf8(before);
                    assert(self@.lines[idx as int] == utf8(self.lines@[idx as int]@));
                    assert(cut(before, avail as int) == text@);
                }
                let mut merged = num;
                merged.append(text.as_str());
                Some(merged)
            },
            None => None,
        }
    }

    /// The cursor's place on screen (see [`editor_cursor`]).
    pub fn cursor_screen(&self, x: u16, text_y: u16, w: u16, text_h: usize) -> (p: (u16, u16))
        requires
            x + 5 + sat_sub(w as int, 6) <= 0xFFFF,
            text_y + sat_sub(text_h as int, 1) <= 0xFFFF,
        ensures
            (p.0 as int, p.1 as int) == editor_cursor(self@, x as int, text_y as int, w as int, text_h as int),
    {
        let row = self.cursor_y.saturating_sub(self.scroll_y);
        let limit = text_h.saturating_sub(1);
        let r = if row < limit {
            row
        } else {
            limit
        };
        let wx = w.saturating_sub(6) as usize;
        let c = if self.cursor_x < wx {
            self.cursor_x
        } else {
            wx
        };
        (x + 5 + c as u16, text_y + r as u16)
    }
}

/// The view of an optional string.
pub open spec fn opt_seq(o: Option<String>) -> Option<Seq<char>> {
    match o {
        Some(s) => Some(s@),
        None => None,
    }
}

/// Where the terminal cursor goes while the explorer has the focus: on the
/// selected row (the rows start two below the frame's top).
pub open spec fn explorer_cursor_y(l: Layout, index: int, scroll: int) -> int {
    l.inner_y + 2 + sat_sub(index, scroll) as u16 as int
}

/// The cursor row while the explorer has the focus (see [`explorer_cursor_y`]).
pub fn explorer_cursor_row(l: &Layout, index: usize, scroll: usize) -> (y: u16)
    requires
        l.inner_y + 2 + sat_sub(index as int, scroll as int) as u16 as int <= 0xFFFF,
    ensures
        y as int == explorer_cursor_y(*l, index as int, scroll as int),
{
    l.inner_y + 2 + (index.saturating_sub(scroll) as u16)
}

/* The intro */

/// The intro message's place: centred across, a third of the way down.
pub open spec fn intro_position(w: int, h: int, msg_len: int) -> (int, int) {
    (sat_sub(w, msg_len) / 2, h / 3)
}

/// The intro message's place (see [`intro_position`]).
pub fn intro_pos(w: u16, h: u16, msg_len: usize) -> (p: (u16, u16))
    ensures
        (p.0 as int, p.1 as int) == intro_position(w as int, h as int, msg_len as int),
{
    (((w as usize).saturating_sub(msg_len) / 2) as u16, h / 3)
}

/// Where line `i` of a frame of `frame_h` lines, `len` bytes long, goes:
/// each line centred across, the frame centred down.
pub open spec fn frame_line_position(w: int, h: int, frame_h: int, i: int, len: int) -> (int, int) {
    (sat_sub(w, len) / 2, sat_sub(h, frame_h) / 2 + i)
}

/// The lines of an intro frame with where each goes on a `w` by `h` screen
/// (see [`frame_line_position`]).
pub fn frame_layout(frame: &str, w: u16, h: u16) -> (r: Vec<(u16, u16, String)>)
    requires
        text_lines(frame@).len() <= 0xFFFF,
    ensures
        r@.len() == text_lines(frame@).len(),
        forall|i: int|
            0 <= i < r@.len() ==> {
                let line = text_lines(frame@)[i];
                &&& (#[trigger] r@[i]).2@ == line
                &&& (r@[i].0 as int, r@[i].1 as int) == frame_line_position(
                    w as int,
                    h as int,
                    text_lines(frame@).len() as int,
                    i,
                    byte_len(line) as int,
                )
            },
{
    let lines = split_lines(frame);
    let n = lines.len();
    let frame_h = n as u16;
    let top = h.saturating_sub(frame_h) / 2;
    let mut r: Vec<(u16, u16, String)> = Vec::new();
    for i in 0..n
        invariant
            n == lines@.len(),
            strings_view(lines@) == text_lines(frame@),
            n <= 0xFFFF,
            frame_h == n,
            top as int == sat_sub(h as int, n as int) / 2,
            r@.len() == i,
            forall|k: int|
                0 <= k < i ==> {
                    let line = text_lines(frame@)[k];
                    &&& (#[trigger] r@[k]).2@ == line
                    &&& (r@[k].0 as int, r@[k].1 as int) == frame_line_position(
                        w as int,
                        h as int,
                        n as int,
                        k,
                        byte_len(line) as int,
                    )
                },
    {
        let len = string_len(&lines[i]);
        let px = ((w as usize).saturating_sub(len) / 2) as u16;
        proof {
            assert(strings_view(lines@)[i as int] == lines@[i as int]@);
        }
        r.push((px, top + i as u16, lines[i].clone()));
    }
    r
}

/// The text of the intro frames: a small dragon whose tail grows and then
/// shrinks back, and which blinks on the third frame.
pub open spec fn dragon_frame(i: int) -> Seq<char> {
    if i == 0 {
        "\n                 /\\_/\\\n           ____ / o o \\\n         /~____  =o= /\n        (______)__m_m)  ~~\n"@
    } else if i == 1 {
        "\n                 /\\_/\\\n           ____ / o o \\\n         /~____  =o= /\n        (______)__m_m)  ~~~~~\n"@
    } else if i == 2 {
        "\n                 /\\_/\\\n           ____ / ^ ^ \\\n         /~____  =o= /\n        (______)__m_m)  ~~~~~~~~~\n"@
    } else {
        "\n                 /\\_/\\\n           ____ / o o \\\n         /~____  =o= /\n        (______)__m_m)  ~~\n"@
    }
}

/// The four frames of the intro animation (see [`dragon_frame`]).
pub fn dragon_frames() -> (frames: [&'static str; 4])
    ensures
        forall|i: int| 0 <= i < 4 ==> (#[trigger] frames@[i])@ == dragon_frame(i),
{
    [
        "\n                 /\\_/\\\n           ____ / o o \\\n         /~____  =o= /\n        (______)__m_m)  ~~\n",
        "\n                 /\\_/\\\n           ____ / o o \\\n         /~____  =o= /\n        (______)__m_m)  ~~~~~\n",
        "\n                 /\\_/\\\n           ____ / ^ ^ \\\n         /~____  =o= /\n        (______)__m_m)  ~~~~~~~~~\n",
        "\n                 /\\_/\\\n           ____ / o o \\\n         /~____  =o= /\n        (______)__m_m)  ~~\n",
    ]
}

/* Laws of the screen */

/// Law: after scrolling, the selected row (or cursor line) is among the `h`
/// rows shown, and scrolling once more changes nothing.
pub proof fn law_scrolling_shows_the_index(index: int, scroll: int, h: int)
    requires
        0 <= index,
        0 <= scroll,
        h > 0,
    ensures
        0 <= scrolled(index, scroll, h) <= index < scrolled(index, scroll, h) + h,
        scrolled(index, scrolled(index, scroll, h), h) == scrolled(index, scroll, h),
{
}

/// Law: on a screen big enough for the editor, the explorer list, the
/// divider, the editor pane and the status line lie inside the frame, from
/// left to right and top to bottom, without overlapping.
pub proof fn law_layout_panes_fit(w: u16, h: u16)
    requires
        !too_small(w as int, h as int),
    ensures
        ({
            let l = layout_of(w as int, h as int)->0;
            let (ex, ey, ew, eh) = l.explorer_rect_spec();
            let (dx, dy, dw, dh) = l.editor_rect_spec();
            let (sx, sy, sw) = l.status_rect_spec();
            &&& l.inner_x <= ex
            &&& ex + ew <= l.inner_x + l.explorer_w
            &&& l.inner_x + l.explorer_w < dx
            &&& dx + dw <= l.inner_x + l.inner_w
            &&& l.inner_x + l.inner_w <= w
            &&& l.inner_y < ey && ey == dy && eh == dh
            &&& ey + eh < sy
            &&& sy < l.inner_y + l.inner_h <= h
            &&& l.inner_x <= sx && sx + sw <= l.inner_x + l.inner_w
        }),
{
}

/// Law: the header, the status line, the prompt and the tab line as shown
/// are never wider than the room they are given.
pub proof fn law_texts_fit(app: AppView, w: int, kind: PromptKind, input: Seq<char>)
    requires
        w >= 0,
    ensures
        header_text(app, w).len() <= sat_sub(w, 2),
        status_text(app.status, w).len() <= w,
        prompt_text(kind, input, w).len() <= w,
        clip(tab_line(app), w).len() <= w,
{
}

} // verus!
