//! A text buffer: lines of text, a cursor measured in bytes, and the editing
//! and movement operations of the editor pane.
use vstd::prelude::*;
use vstd::utf8::*;
use crate::paths::{display_name, name_for_path};
use crate::text::{no_cr, law_join_of_file_lines, string_of, split_lines, strings_view, file_lines, join_lines, no_newline, strip_cr, law_file_lines_of_join, join_with_newlines, lemma_ascii_width, utf8, lemma_utf8_concat, byte_len, char_width, string_len, string_insert, char_len_utf8, lemma_utf8_single, string_remove, string_split_off, boundary};

verus! {

broadcast use vstd::utf8::group_utf8_lib;

/// One open text buffer: its lines, where the cursor is, and whether it has unsaved edits.
/// `cursor_x` is a byte offset into line `cursor_y`.
pub struct Buffer {
    pub name: String,
    pub path: Option<String>,
    pub lines: Vec<String>,
    pub cursor_x: usize,
    pub cursor_y: usize,
    pub scroll_y: usize,
    pub dirty: bool,
}

/// The abstract state of a buffer: every line as its UTF-8 bytes.
#[verifier::ext_equal]
pub struct BufferView {
    pub name: Seq<char>,
    pub path: Option<Seq<char>>,
    pub lines: Seq<Seq<u8>>,
    pub cursor_x: nat,
    pub cursor_y: nat,
    pub scroll_y: nat,
    pub dirty: bool,
}

/// The UTF-8 bytes of every line of `lines`.
pub open spec fn lines_bytes(lines: Seq<String>) -> Seq<Seq<u8>> {
    Seq::new(lines.len(), |i: int| utf8(lines[i]@))
}

pub open spec fn min_nat(a: nat, b: nat) -> nat {
    if a <= b {
        a
    } else {
        b
    }
}

impl View for Buffer {
    type V = BufferView;

    open spec fn view(&self) -> BufferView {
        BufferView {
            name: self.name@,
            path: match self.path {
                Some(p) => Some(p@),
                None => None,
            },
            lines: lines_bytes(self.lines@),
            cursor_x: self.cursor_x as nat,
            cursor_y: self.cursor_y as nat,
            scroll_y: self.scroll_y as nat,
            dirty: self.dirty,
        }
    }
}

impl BufferView {
    /// Every line is valid UTF-8 (always true of a real buffer).
    pub open spec fn valid(self) -> bool {
        forall|i: int| 0 <= i < self.lines.len() ==> valid_utf8(#[trigger] self.lines[i])
    }

    /// The state every editing operation keeps: at least one line, the cursor
    /// on an existing line and not past its end.
    pub open spec fn wf(self) -> bool {
        &&& self.valid()
        &&& self.lines.len() > 0
        &&& self.cursor_y < self.lines.len()
        &&& self.cursor_x <= self.lines[self.cursor_y as int].len()
    }

    /// Byte length of line `y`, or 0 when there is no such line.
    pub open spec fn line_len(self, y: int) -> nat {
        if 0 <= y < self.lines.len() {
            self.lines[y].len()
        } else {
            0
        }
    }

    /// Where in the current line an edit happens: the cursor, clamped to the line's end.
    pub open spec fn edit_at(self) -> nat {
        min_nat(self.cursor_x, self.line_len(self.cursor_y as int))
    }

    /// The cursor line is a real line.
    pub open spec fn on_line(self) -> bool {
        self.cursor_y < self.lines.len()
    }

    /// Inserting at the cursor does not split a character.
    pub open spec fn insert_ok(self) -> bool {
        self.on_line() ==> is_char_boundary(self.lines[self.cursor_y as int], self.edit_at() as int)
    }

    /// Typing `c`: its encoding goes in at the (clamped) cursor, the cursor moves past it.
    pub open spec fn insert_char(self, c: char) -> BufferView {
        if self.on_line() {
            let line = self.lines[self.cursor_y as int];
            let at = self.edit_at();
            BufferView {
                lines: self.lines.update(
                    self.cursor_y as int,
                    line.subrange(0, at as int) + utf8(seq![c]) + line.subrange(
                        at as int,
                        line.len() as int,
                    ),
                ),
                cursor_x: at + char_width(c),
                dirty: true,
                ..self
            }
        } else {
            self
        }
    }

    /// Pressing Enter: the cursor line is split at the (clamped) cursor and the
    /// cursor goes to the start of the new second half. With the cursor below
    /// the last line, an empty line is appended instead.
    pub open spec fn new_line(self) -> BufferView {
        if !self.on_line() {
            BufferView {
                lines: self.lines.push(Seq::empty()),
                cursor_y: self.lines.len(),
                cursor_x: 0,
                ..self
            }
        } else {
            let y = self.cursor_y as int;
            let line = self.lines[y];
            let at = self.edit_at() as int;
            BufferView {
                lines: self.lines.update(y, line.subrange(0, at)).insert(
                    y + 1,
                    line.subrange(at, line.len() as int),
                ),
                cursor_y: self.cursor_y + 1,
                cursor_x: 0,
                dirty: true,
                ..self
            }
        }
    }

    /// Deleting before the cursor does not split a character: with the
    /// cursor inside a character, the byte before it must start one.
    pub open spec fn backspace_ok(self) -> bool {
        (self.on_line() && self.cursor_x > 0 && self.cursor_x <= self.line_len(self.cursor_y as int)
            && !is_char_boundary(self.lines[self.cursor_y as int], self.cursor_x as int))
            ==> is_char_boundary(self.lines[self.cursor_y as int], self.cursor_x - 1)
    }

    /// Byte width of the last character of `line` before offset `x`.
    pub open spec fn width_before(line: Seq<u8>, x: int) -> nat {
        char_width(decode_utf8(line.subrange(0, x)).last())
    }

    /// Byte width of the character of `line` that starts at offset `i`.
    pub open spec fn width_at(line: Seq<u8>, i: int) -> int {
        length_of_first_scalar(line.subrange(i, line.len() as int))
    }

    /// Pressing Backspace: with the cursor after a character, that whole
    /// character is removed and the cursor moves back over it; with the cursor
    /// inside a character (where byte-wise arrows can put it), the character
    /// that starts one byte before it is removed and the cursor steps back one
    /// byte; at the start of a line (not the first), the line is joined onto
    /// the one above and the cursor goes to the join.
    pub open spec fn backspace(self) -> BufferView {
        if !self.on_line() {
            self
        } else {
            let y = self.cursor_y as int;
            let line = self.lines[y];
            if self.cursor_x > 0 {
                if self.cursor_x <= line.len() && is_char_boundary(line, self.cursor_x as int) {
                    let x = self.cursor_x as int;
                    let w = Self::width_before(line, x);
                    BufferView {
                        lines: self.lines.update(y, line.subrange(0, x - w) + line.subrange(x, line.len() as int)),
                        cursor_x: (x - w) as nat,
                        dirty: true,
                        ..self
                    }
                } else if self.cursor_x <= line.len() {
                    let i = self.cursor_x - 1;
                    let w = Self::width_at(line, i);
                    BufferView {
                        lines: self.lines.update(
                            y,
                            line.subrange(0, i) + line.subrange(i + w, line.len() as int),
                        ),
                        cursor_x: i as nat,
                        dirty: true,
                        ..self
                    }
                } else {
                    self
                }
            } else if self.cursor_y > 0 {
                let above = self.lines[y - 1];
                BufferView {
                    lines: self.lines.remove(y).update(y - 1, above + line),
                    cursor_y: (y - 1) as nat,
                    cursor_x: above.len(),
                    dirty: true,
                    ..self
                }
            } else {
                self
            }
        }
    }

    /// The text the buffer is saved as: its lines, decoded, joined by newlines.
    pub open spec fn text(self) -> Seq<char> {
        join_lines(Seq::new(self.lines.len(), |i: int| decode_utf8(self.lines[i])))
    }

    /// Left arrow: one byte back, or to the end of the line above.
    pub open spec fn move_left(self) -> BufferView {
        if self.cursor_x > 0 {
            BufferView { cursor_x: (self.cursor_x - 1) as nat, ..self }
        } else if self.cursor_y > 0 {
            BufferView {
                cursor_y: (self.cursor_y - 1) as nat,
                cursor_x: self.line_len(self.cursor_y - 1),
                ..self
            }
        } else {
            self
        }
    }

    /// Right arrow: one byte forward, or to the start of the line below.
    pub open spec fn move_right(self) -> BufferView {
        if self.cursor_x < self.line_len(self.cursor_y as int) {
            BufferView { cursor_x: self.cursor_x + 1, ..self }
        } else if self.cursor_y + 1 < self.lines.len() {
            BufferView { cursor_y: self.cursor_y + 1, cursor_x: 0, ..self }
        } else {
            self
        }
    }

    /// Up arrow: to the line above, keeping the column where that line is long enough.
    pub open spec fn move_up(self) -> BufferView {
        if self.cursor_y > 0 {
            BufferView {
                cursor_y: (self.cursor_y - 1) as nat,
                cursor_x: min_nat(self.cursor_x, self.line_len(self.cursor_y - 1)),
                ..self
            }
        } else {
            self
        }
    }

    /// Down arrow: to the line below, keeping the column where that line is long enough.
    pub open spec fn move_down(self) -> BufferView {
        if self.cursor_y + 1 < self.lines.len() {
            BufferView {
                cursor_y: self.cursor_y + 1,
                cursor_x: min_nat(self.cursor_x, self.line_len(self.cursor_y + 1 as int)),
                ..self
            }
        } else {
            self
        }
    }
}

/// A character boundary of a valid text splits it into two valid texts.
proof fn lemma_split_valid(line: Seq<u8>, i: int)
    requires
        valid_utf8(line),
        is_char_boundary(line, i),
    ensures
        0 <= i <= line.len(),
        valid_utf8(line.subrange(0, i)),
        valid_utf8(line.subrange(i, line.len() as int)),
{
    valid_utf8_split(line, i);
    if i != 0 {
        assert(0 <= i <= line.len()) by {
            reveal_with_fuel(is_char_boundary, 1);
        }
    }
}

/// Two valid texts meet at a character boundary.
proof fn lemma_boundary_concat(a: Seq<u8>, b: Seq<u8>)
    requires
        valid_utf8(a),
        valid_utf8(b),
    ensures
        valid_utf8(a + b),
        is_char_boundary(a + b, a.len() as int),
{
    valid_utf8_concat(a, b);
    if b.len() == 0 {
        assert(a + b =~= a);
        is_char_boundary_start_end_of_seq(a);
    } else {
        is_char_boundary_iff_not_is_continuation_byte(b, 0);
        assert((a + b)[a.len() as int] == b[0]);
        is_char_boundary_iff_not_is_continuation_byte(a + b, a.len() as int);
    }
}

/// What comes before a character boundary `x > 0` of a valid text: its
/// characters end with one of width `width_before`, whose removal leaves the
/// encoding of the others.
proof fn lemma_last_char(line: Seq<u8>, x: int)
    requires
        valid_utf8(line),
        is_char_boundary(line, x),
        x > 0,
    ensures
        x <= line.len(),
        decode_utf8(line.subrange(0, x)).len() > 0,
        BufferView::width_before(line, x) <= x,
        line.subrange(0, x - BufferView::width_before(line, x)) == utf8(
            decode_utf8(line.subrange(0, x)).drop_last(),
        ),
        valid_utf8(line.subrange(x, line.len() as int)),
        encode_utf8(decode_utf8(line.subrange(0, x))) == line.subrange(0, x),
{
    lemma_split_valid(line, x);
    let pre = line.subrange(0, x);
    let c = decode_utf8(pre);
    decode_utf8_encode_utf8(pre);
    if c.len() == 0 {
        assert(encode_utf8(c) =~= Seq::<u8>::empty());
    }
    assert(c =~= c.drop_last() + seq![c.last()]);
    lemma_utf8_concat(c.drop_last(), seq![c.last()]);
    assert(pre.subrange(0, x - BufferView::width_before(line, x)) =~= utf8(c.drop_last()));
    assert(line.subrange(0, x - BufferView::width_before(line, x)) =~= pre.subrange(
        0,
        x - BufferView::width_before(line, x),
    ));
}

/// Law: every editing and movement operation keeps a well-formed buffer well formed.
pub proof fn law_edits_keep_wf(b: BufferView, c: char)
    requires
        b.wf(),
    ensures
        b.insert_ok() ==> b.insert_char(c).wf(),
        b.insert_ok() ==> b.new_line().wf(),
        b.backspace_ok() ==> b.backspace().wf(),
        b.move_left().wf(),
        b.move_right().wf(),
        b.move_up().wf(),
        b.move_down().wf(),
{
    let y = b.cursor_y as int;
    let line = b.lines[y];
    assert(valid_utf8(line));
    if b.insert_ok() {
        let at = b.edit_at() as int;
        lemma_split_valid(line, at);
        let pre = line.subrange(0, at);
        let post = line.subrange(at, line.len() as int);
        let mid = utf8(seq![c]);
        valid_utf8_concat(pre, mid);
        valid_utf8_concat(pre + mid, post);
        let b1 = b.insert_char(c);
        assert forall|i: int| 0 <= i < b1.lines.len() implies valid_utf8(#[trigger] b1.lines[i]) by {
            if i != y {
                assert(b1.lines[i] == b.lines[i]);
            }
        }
        let b2 = b.new_line();
        assert forall|i: int| 0 <= i < b2.lines.len() implies valid_utf8(#[trigger] b2.lines[i]) by {
            if i < y {
                assert(b2.lines[i] == b.lines[i]);
            } else if i > y + 1 {
                assert(b2.lines[i] == b.lines[i - 1]);
            }
        }
    }
    if b.backspace_ok() {
        let b3 = b.backspace();
        if b.cursor_x > 0 && b.cursor_x <= line.len() && is_char_boundary(line, b.cursor_x as int) {
            let x = b.cursor_x as int;
            lemma_last_char(line, x);
            let w = BufferView::width_before(line, x);
            valid_utf8_concat(line.subrange(0, x - w), line.subrange(x, line.len() as int));
            assert forall|k: int| 0 <= k < b3.lines.len() implies valid_utf8(#[trigger] b3.lines[k]) by {
                if k != y {
                    assert(b3.lines[k] == b.lines[k]);
                }
            }
        } else if b.cursor_x > 0 {
            let i = b.cursor_x - 1;
            lemma_split_valid(line, i);
            let tail = line.subrange(i, line.len() as int);
            let w = BufferView::width_at(line, i);
            if tail.len() > 0 {
                assert(valid_first_scalar(tail));
                assert(pop_first_scalar(tail) =~= line.subrange(i + w, line.len() as int));
                valid_utf8_concat(line.subrange(0, i), line.subrange(i + w, line.len() as int));
            }
            assert forall|k: int| 0 <= k < b3.lines.len() implies valid_utf8(#[trigger] b3.lines[k]) by {
                if k != y {
                    assert(b3.lines[k] == b.lines[k]);
                }
            }
        } else if b.cursor_y > 0 {
            valid_utf8_concat(b.lines[y - 1], line);
            assert forall|k: int| 0 <= k < b3.lines.len() implies valid_utf8(#[trigger] b3.lines[k]) by {
                if k < y - 1 {
                    assert(b3.lines[k] == b.lines[k]);
                } else if k >= y {
                    assert(b3.lines[k] == b.lines[k + 1]);
                }
            }
        }
    }
}

/// A buffer freshly read from a file is well formed.
pub proof fn lemma_from_file_wf(path: Seq<char>, contents: Seq<char>)
    ensures
        Buffer::from_file_view(path, contents).wf(),
{
    let b = Buffer::from_file_view(path, contents);
    assert(file_lines(contents).len() > 0);
    assert forall|i: int| 0 <= i < b.lines.len() implies valid_utf8(#[trigger] b.lines[i]) by {
        encode_utf8_valid_utf8(file_lines(contents)[i]);
    }
}

/// Law: typing a character and then pressing Backspace gives back the lines
/// as they were, with the cursor where the character went in.
pub proof fn law_insert_then_backspace(b: BufferView, c: char)
    requires
        b.wf(),
        b.insert_ok(),
    ensures
        b.insert_char(c).backspace_ok(),
        b.insert_char(c).backspace().lines == b.lines,
        b.insert_char(c).backspace().cursor_y == b.cursor_y,
        b.insert_char(c).backspace().cursor_x == b.edit_at(),
{
    let y = b.cursor_y as int;
    let line = b.lines[y];
    let at = b.edit_at() as int;
    lemma_split_valid(line, at);
    let pre = line.subrange(0, at);
    let post = line.subrange(at, line.len() as int);
    let mid = utf8(seq![c]);
    law_edits_keep_wf(b, c);
    let b1 = b.insert_char(c);
    let nl = b1.lines[y];
    let x = at + char_width(c);
    assert(nl == pre + mid + post);
    assert(b1.cursor_x == x);
    encode_utf8_valid_utf8(seq![c]);
    valid_utf8_concat(pre, mid);
    lemma_boundary_concat(pre + mid, post);
    assert(pre + mid + post =~= (pre + mid) + post);
    assert(nl.subrange(0, x) =~= pre + mid);
    let cp = decode_utf8(pre);
    decode_utf8_encode_utf8(pre);
    lemma_utf8_concat(cp, seq![c]);
    encode_utf8_decode_utf8(cp + seq![c]);
    assert((cp + seq![c]).last() == c);
    assert(BufferView::width_before(nl, x) == char_width(c));
    assert(nl.subrange(0, at) =~= pre);
    assert(nl.subrange(x, nl.len() as int) =~= post);
    assert(pre + post =~= line);
    assert(b1.backspace().lines =~= b.lines);
}

/// After typing an ASCII character the cursor is again at a character
/// boundary, so typing can go on.
pub proof fn lemma_insert_ascii_keeps_ok(b: BufferView, c: char)
    requires
        b.wf(),
        b.insert_ok(),
        (c as u32) < 128,
    ensures
        b.insert_char(c).wf(),
        b.insert_char(c).insert_ok(),
{
    let y = b.cursor_y as int;
    let line = b.lines[y];
    let at = b.edit_at() as int;
    lemma_ascii_width(c);
    law_edits_keep_wf(b, c);
    let b1 = b.insert_char(c);
    let nl = b1.lines[y];
    assert(nl.len() == line.len() + 1);
    assert(b1.edit_at() == at + 1);
    if at + 1 == nl.len() {
        is_char_boundary_start_end_of_seq(nl);
    } else {
        lemma_split_valid(line, at);
        assert(at < line.len());
        is_char_boundary_iff_is_leading_byte(line, at);
        assert(nl[at + 1] == line[at]);
        is_char_boundary_iff_is_leading_byte(nl, at + 1);
    }
}

/// Law: pressing Enter and then Backspace joins the split line back together,
/// with the cursor where the split was.
pub proof fn law_new_line_then_backspace(b: BufferView)
    requires
        b.wf(),
        b.insert_ok(),
    ensures
        b.new_line().backspace_ok(),
        b.new_line().backspace().lines == b.lines,
        b.new_line().backspace().cursor_y == b.cursor_y,
        b.new_line().backspace().cursor_x == b.edit_at(),
{
    let y = b.cursor_y as int;
    let line = b.lines[y];
    let at = b.edit_at() as int;
    let b1 = b.new_line();
    assert(b1.lines[y] + b1.lines[y + 1] =~= line);
    assert(b1.backspace().lines =~= b.lines);
}

/// Law: inside the text, Right then Left, and Left then Right, return the cursor
/// to where it was (Right is a no-op only at the very end, Left only at the very start).
pub proof fn law_left_right_inverse(b: BufferView)
    requires
        b.wf(),
    ensures
        !(b.cursor_x == b.line_len(b.cursor_y as int) && b.cursor_y + 1 == b.lines.len())
            ==> b.move_right().move_left() == b,
        !(b.cursor_x == 0 && b.cursor_y == 0) ==> b.move_left().move_right() == b,
{
    if !(b.cursor_x == b.line_len(b.cursor_y as int) && b.cursor_y + 1 == b.lines.len()) {
        assert(b.move_right().move_left() =~= b);
    }
    if !(b.cursor_x == 0 && b.cursor_y == 0) {
        assert(b.move_left().move_right() =~= b);
    }
}

/// Law: what a buffer saves, read back into a buffer, gives the same lines,
/// provided no line holds a newline, no line but the last ends with a
/// carriage return, and the last line is not empty (unless it is the only one).
pub proof fn law_save_then_open(b: BufferView, p: Seq<char>)
    requires
        b.wf(),
        forall|i: int| 0 <= i < b.lines.len() ==> no_newline(decode_utf8(#[trigger] b.lines[i])),
        forall|i: int|
            0 <= i < b.lines.len() - 1 ==> strip_cr(decode_utf8(#[trigger] b.lines[i])) == decode_utf8(
                b.lines[i],
            ),
        b.lines.len() == 1 || b.lines.last().len() > 0,
    ensures
        Buffer::from_file_view(p, b.text()).lines == b.lines,
{
    let n = b.lines.len();
    let ls = Seq::new(n, |i: int| decode_utf8(b.lines[i]));
    assert forall|i: int| 0 <= i < n implies utf8(#[trigger] ls[i]) == b.lines[i] by {
        decode_utf8_encode_utf8(b.lines[i]);
    }
    if n > 1 {
        assert(ls.last().len() > 0) by {
            if ls.last().len() == 0 {
                assert(utf8(ls.last()) =~= Seq::<u8>::empty());
            }
        }
    }
    assert forall|i: int| 0 <= i < ls.len() implies no_newline(#[trigger] ls[i]) by {
        assert(no_newline(decode_utf8(b.lines[i])));
    }
    assert forall|i: int| 0 <= i < ls.len() - 1 implies strip_cr(#[trigger] ls[i]) == ls[i] by {
        assert(strip_cr(decode_utf8(b.lines[i])) == decode_utf8(b.lines[i]));
    }
    law_file_lines_of_join(ls);
    assert(Buffer::from_file_view(p, b.text()).lines =~= b.lines);
}

/// Law: a buffer read from a file and saved without edits writes back the
/// same text, provided the text holds no carriage return and does not end
/// with a newline.
pub proof fn law_open_then_save(p: Seq<char>, s: Seq<char>)
    requires
        no_cr(s),
        s.len() == 0 || s.last() != '\n',
    ensures
        Buffer::from_file_view(p, s).text() == s,
{
    let b = Buffer::from_file_view(p, s);
    law_join_of_file_lines(s);
    assert forall|i: int| 0 <= i < b.lines.len() implies decode_utf8(#[trigger] b.lines[i]) == file_lines(s)[i] by {
        encode_utf8_decode_utf8(file_lines(s)[i]);
    }
    assert(Seq::new(b.lines.len(), |i: int| decode_utf8(b.lines[i])) =~= file_lines(s));
}

/// Law: typing a character puts its bytes in at the (clamped) cursor, moves
/// the cursor just past them and marks the buffer edited; the other lines
/// stay as they were.
pub proof fn law_typing_inserts_at_the_cursor(b: BufferView, c: char)
    requires
        b.wf(),
    ensures
        ({
            let r = b.insert_char(c);
            let y = b.cursor_y as int;
            &&& r.lines.len() == b.lines.len()
            &&& forall|i: int| 0 <= i < b.lines.len() && i != y ==> #[trigger] r.lines[i] == b.lines[i]
            &&& r.lines[y].len() == b.lines[y].len() + char_width(c)
            &&& r.lines[y].subrange(0, b.edit_at() as int) == b.lines[y].subrange(0, b.edit_at() as int)
            &&& r.lines[y].subrange(b.edit_at() as int, r.cursor_x as int) == utf8(seq![c])
            &&& r.lines[y].subrange(r.cursor_x as int, r.lines[y].len() as int) == b.lines[y].subrange(
                b.edit_at() as int,
                b.lines[y].len() as int,
            )
            &&& r.cursor_y == b.cursor_y && r.cursor_x == b.edit_at() + char_width(c)
            &&& r.dirty
        }),
{
    let y = b.cursor_y as int;
    let line = b.lines[y];
    let at = b.edit_at() as int;
    let nl = b.insert_char(c).lines[y];
    let x = at + char_width(c);
    assert(nl.subrange(0, at) =~= line.subrange(0, at));
    assert(nl.subrange(at, x) =~= utf8(seq![c]));
    assert(nl.subrange(x, nl.len() as int) =~= line.subrange(at, line.len() as int));
}

/// Law: Enter splits the cursor line in two at the (clamped) cursor, the
/// cursor going to the start of the second half; the other lines are kept
/// in order around them.
pub proof fn law_enter_splits_the_line(b: BufferView)
    requires
        b.wf(),
    ensures
        ({
            let r = b.new_line();
            let y = b.cursor_y as int;
            &&& r.lines.len() == b.lines.len() + 1
            &&& r.lines[y] + r.lines[y + 1] == b.lines[y]
            &&& r.lines[y].len() == b.edit_at()
            &&& forall|i: int| 0 <= i < y ==> #[trigger] r.lines[i] == b.lines[i]
            &&& forall|i: int| y < i < b.lines.len() ==> #[trigger] r.lines[i + 1] == b.lines[i]
            &&& r.cursor_y == b.cursor_y + 1 && r.cursor_x == 0
        }),
{
    let y = b.cursor_y as int;
    let r = b.new_line();
    assert(r.lines[y] + r.lines[y + 1] =~= b.lines[y]);
    assert forall|i: int| y < i < b.lines.len() implies #[trigger] r.lines[i + 1] == b.lines[i] by {
        assert(r.lines[i + 1] == b.lines.update(y, b.lines[y].subrange(0, b.edit_at() as int))[i]);
    }
}

/// Law: Backspace with the cursor after a character deletes exactly that
/// character (counted in characters, whatever its width) and puts the cursor
/// where it began; at the start of a line below the first, it joins the line
/// onto the one above, the cursor at the join.
pub proof fn law_backspace_deletes_one_character(b: BufferView)
    requires
        b.wf(),
    ensures
        ({
            let r = b.backspace();
            let y = b.cursor_y as int;
            let line = b.lines[y];
            let x = b.cursor_x as int;
            &&& (x > 0 && is_char_boundary(line, x)) ==> {
                let before = decode_utf8(line.subrange(0, x));
                &&& before.len() > 0
                &&& decode_utf8(r.lines[y]) == before.drop_last() + decode_utf8(
                    line.subrange(x, line.len() as int),
                )
                &&& r.cursor_x == byte_len(before.drop_last())
                &&& r.lines.len() == b.lines.len()
                &&& forall|i: int| 0 <= i < b.lines.len() && i != y ==> #[trigger] r.lines[i] == b.lines[i]
            }
            &&& (x == 0 && y > 0) ==> {
                &&& r.lines.len() == b.lines.len() - 1
                &&& r.lines[y - 1] == b.lines[y - 1] + line
                &&& r.cursor_y == y - 1 && r.cursor_x == b.lines[y - 1].len()
            }
            &&& (x == 0 && y == 0) ==> r == b
        }),
{
    let y = b.cursor_y as int;
    let line = b.lines[y];
    let x = b.cursor_x as int;
    if x > 0 && is_char_boundary(line, x) {
        lemma_last_char(line, x);
        let before = decode_utf8(line.subrange(0, x));
        let w = BufferView::width_before(line, x);
        let post = line.subrange(x, line.len() as int);
        let nl = line.subrange(0, x - w) + post;
        lemma_utf8_concat(before.drop_last(), decode_utf8(post));
        decode_utf8_encode_utf8(post);
        encode_utf8_decode_utf8(before.drop_last() + decode_utf8(post));
        assert(b.backspace().lines[y] == nl);
    }
}

/// Law: Up and Down move one line when there is one to move to, keeping the
/// column where the new line is long enough and else going to its end; they
/// never change the text.
pub proof fn law_up_down_move_one_line(b: BufferView)
    requires
        b.wf(),
    ensures
        b.move_up().lines == b.lines && b.move_down().lines == b.lines,
        b.cursor_y > 0 ==> b.move_up().cursor_y == b.cursor_y - 1 && b.move_up().cursor_x <= b.lines[b.cursor_y
            - 1].len() && (b.cursor_x <= b.lines[b.cursor_y - 1].len() ==> b.move_up().cursor_x == b.cursor_x)
            && (b.cursor_x > b.lines[b.cursor_y - 1].len() ==> b.move_up().cursor_x == b.lines[b.cursor_y
            - 1].len()),
        b.cursor_y == 0 ==> b.move_up() == b,
        b.cursor_y + 1 < b.lines.len() ==> b.move_down().cursor_y == b.cursor_y + 1 && b.move_down().cursor_x
            <= b.lines[b.cursor_y + 1 as int].len() && (b.cursor_x <= b.lines[b.cursor_y + 1 as int].len()
            ==> b.move_down().cursor_x == b.cursor_x) && (b.cursor_x > b.lines[b.cursor_y + 1 as int].len()
            ==> b.move_down().cursor_x == b.lines[b.cursor_y + 1 as int].len()),
        b.cursor_y + 1 == b.lines.len() ==> b.move_down() == b,
{
}

/// The message for saving a buffer that belongs to no file.
pub open spec fn no_target_path_message() -> Seq<char> {
    "Buffer has no target path"@
}

/// The lines of a buffer are always valid UTF-8.
pub proof fn lemma_view_valid(b: &Buffer)
    ensures
        b@.valid(),
{
    assert forall|i: int| 0 <= i < b@.lines.len() implies valid_utf8(#[trigger] b@.lines[i]) by {
        encode_utf8_valid_utf8(b.lines@[i]@);
    }
}

impl Buffer {
    /// A buffer with one empty line, no file behind it and the cursor at the start.
    pub fn empty(name: String) -> (b: Buffer)
        ensures
            b@ == (BufferView {
                name: name@,
                path: None,
                lines: seq![Seq::<u8>::empty()],
                cursor_x: 0,
                cursor_y: 0,
                scroll_y: 0,
                dirty: false,
            }),
            b@.wf(),
    {
        let mut lines: Vec<String> = Vec::new();
        lines.push(String::new());
        let b = Buffer { name, path: None, lines, cursor_x: 0, cursor_y: 0, scroll_y: 0, dirty: false };
        proof {
            assert(encode_utf8(Seq::<char>::empty()) =~= Seq::<u8>::empty());
            assert(b@.lines =~= seq![Seq::<u8>::empty()]);
            lemma_view_valid(&b);
        }
        b
    }

    /// Byte length of line `y`, or 0 when there is no such line.
    pub fn line_len(&self, y: usize) -> (n: usize)
        ensures
            n == self@.line_len(y as int),
    {
        if y < self.lines.len() {
            string_len(&self.lines[y])
        } else {
            0
        }
    }

    /// Types `c` at the cursor.
    pub fn insert_char(&mut self, c: char)
        requires
            old(self)@.insert_ok(),
        ensures
            final(self)@ == old(self)@.insert_char(c),
    {
        if self.cursor_y < self.lines.len() {
            let y = self.cursor_y;
            let len = string_len(&self.lines[y]);
            let at = if self.cursor_x < len {
                self.cursor_x
            } else {
                len
            };
            let mut line = String::new();
            self.lines.set_and_swap(y, &mut line);
            string_insert(&mut line, at, c);
            let new_len = string_len(&line);
            let w = char_len_utf8(c);
            proof {
                lemma_utf8_single(c);
                assert(new_len == at + w + (len - at));
            }
            self.lines.set_and_swap(y, &mut line);
            self.cursor_x = at + w;
            self.dirty = true;
            proof {
                assert(self@.lines =~= old(self)@.insert_char(c).lines);
                assert(self@ =~= old(self)@.insert_char(c));
            }
        }
    }

    /// Presses Enter at the cursor.
    pub fn new_line(&mut self)
        requires
            old(self)@.insert_ok(),
        ensures
            final(self)@ == old(self)@.new_line(),
    {
        if self.cursor_y >= self.lines.len() {
            self.lines.push(String::new());
            self.cursor_y = self.lines.len() - 1;
            self.cursor_x = 0;
            proof {
                assert(encode_utf8(Seq::<char>::empty()) =~= Seq::<u8>::empty());
                assert(self@.lines =~= old(self)@.new_line().lines);
                assert(self@ =~= old(self)@.new_line());
            }
            return;
        }
        let y = self.cursor_y;
        let len = string_len(&self.lines[y]);
        let split_at = if self.cursor_x < len {
            self.cursor_x
        } else {
            len
        };
        let mut line = String::new();
        self.lines.set_and_swap(y, &mut line);
        let rest = string_split_off(&mut line, split_at);
        self.lines.set_and_swap(y, &mut line);
        self.cursor_y = y + 1;
        self.cursor_x = 0;
        self.lines.insert(y + 1, rest);
        self.dirty = true;
        proof {
            assert(self@.lines =~= old(self)@.new_line().lines);
            assert(self@ =~= old(self)@.new_line());
        }
    }

    /// Presses Backspace at the cursor.
    pub fn backspace(&mut self)
        requires
            old(self)@.backspace_ok(),
        ensures
            final(self)@ == old(self)@.backspace(),
    {
        if self.cursor_y >= self.lines.len() {
            return;
        }
        let y = self.cursor_y;
        if self.cursor_x > 0 {
            let len = string_len(&self.lines[y]);
            let at_boundary = self.cursor_x <= len && self.lines[y].as_str().is_char_boundary(self.cursor_x);
            proof {
                assert(old(self)@.lines[y as int] == utf8(old(self).lines@[y as int]@));
            }
            if at_boundary {
                let x = self.cursor_x;
                let mut line = String::new();
                self.lines.set_and_swap(y, &mut line);
                let ghost whole = utf8(line@);
                let rest = string_split_off(&mut line, x);
                let ghost before = line@;
                let _ = crate::text::string_pop(&mut line);
                let new_x = string_len(&line);
                let ghost kept = line@;
                line.append(rest.as_str());
                proof {
                    lemma_view_valid(old(self));
                    lemma_last_char(whole, x as int);
                    encode_utf8_decode_utf8(before);
                    assert(decode_utf8(whole.subrange(0, x as int)) == before);
                    assert(kept == before.drop_last());
                    lemma_utf8_concat(kept, rest@);
                }
                self.lines.set_and_swap(y, &mut line);
                self.cursor_x = new_x;
                self.dirty = true;
                proof {
                    assert(self@.lines =~= old(self)@.backspace().lines);
                    assert(self@ =~= old(self)@.backspace());
                }
            } else if self.cursor_x <= len {
                let mut line = String::new();
                self.lines.set_and_swap(y, &mut line);
                let ghost before = utf8(line@);
                let ch = string_remove(&mut line, self.cursor_x - 1);
                proof {
                    let i = self.cursor_x - 1;
                    lemma_utf8_single(ch);
                    encode_utf8_first_scalar(seq![ch]);
                    let tail = before.subrange(i as int, before.len() as int);
                    assert(tail[0] == before[i as int]);
                    assert(before.subrange(i as int, i + char_width(ch))[0] == before[i as int]);
                    assert(utf8(seq![ch])[0] == before[i as int]);
                    assert(BufferView::width_at(before, i as int) == char_width(ch));
                }
                self.lines.set_and_swap(y, &mut line);
                self.cursor_x = self.cursor_x - 1;
                self.dirty = true;
                proof {
                    assert(self@.lines =~= old(self)@.backspace().lines);
                    assert(self@ =~= old(self)@.backspace());
                }
            }
        } else if y > 0 {
            let current = self.lines.remove(y);
            self.cursor_y = y - 1;
            self.cursor_x = string_len(&self.lines[y - 1]);
            let mut above = String::new();
            self.lines.set_and_swap(y - 1, &mut above);
            above.append(current.as_str());
            self.lines.set_and_swap(y - 1, &mut above);
            self.dirty = true;
            proof {
                lemma_utf8_concat(old(self).lines@[y - 1]@, current@);
                assert(self@.lines =~= old(self)@.backspace().lines);
                assert(self@ =~= old(self)@.backspace());
            }
        }
    }

    /// Left arrow.
    pub fn move_left(&mut self)
        ensures
            final(self)@ == old(self)@.move_left(),
    {
        if self.cursor_x > 0 {
            self.cursor_x = self.cursor_x - 1;
        } else if self.cursor_y > 0 {
            self.cursor_y = self.cursor_y - 1;
            self.cursor_x = self.line_len(self.cursor_y);
        }
        proof {
            assert(self@ =~= old(self)@.move_left());
        }
    }

    /// Right arrow.
    pub fn move_right(&mut self)
        ensures
            final(self)@ == old(self)@.move_right(),
    {
        let line_len = self.line_len(self.cursor_y);
        if self.cursor_x < line_len {
            self.cursor_x = self.cursor_x + 1;
        } else if self.lines.len() > 0 && self.cursor_y < self.lines.len() - 1 {
            self.cursor_y = self.cursor_y + 1;
            self.cursor_x = 0;
        }
        proof {
            assert(self@ =~= old(self)@.move_right());
        }
    }

    /// Up arrow.
    pub fn move_up(&mut self)
        ensures
            final(self)@ == old(self)@.move_up(),
    {
        if self.cursor_y > 0 {
            self.cursor_y = self.cursor_y - 1;
            let l = self.line_len(self.cursor_y);
            if l < self.cursor_x {
                self.cursor_x = l;
            }
        }
        proof {
            assert(self@ =~= old(self)@.move_up());
        }
    }

    /// Down arrow.
    pub fn move_down(&mut self)
        ensures
            final(self)@ == old(self)@.move_down(),
    {
        if self.lines.len() > 0 && self.cursor_y < self.lines.len() - 1 {
            self.cursor_y = self.cursor_y + 1;
            let l = self.line_len(self.cursor_y);
            if l < self.cursor_x {
                self.cursor_x = l;
            }
        }
        proof {
            assert(self@ =~= old(self)@.move_down());
        }
    }

    /// The view of [`Buffer::from_file`]'s result.
    pub open spec fn from_file_view(path: Seq<char>, contents: Seq<char>) -> BufferView {
        BufferView {
            name: display_name(path),
            path: Some(path),
            lines: file_lines(contents).map_values(|l: Seq<char>| utf8(l)),
            cursor_x: 0,
            cursor_y: 0,
            scroll_y: 0,
            dirty: false,
        }
    }

    /// A buffer for the file at `path` whose contents are `contents` (the
    /// reading itself is left to the caller): one line per line of the file,
    /// named after the file, cursor at the start, nothing unsaved.
    pub fn from_file(path: String, contents: &str) -> (b: Buffer)
        ensures
            b@ == Buffer::from_file_view(path@, contents@),
            b@.wf(),
    {
        let mut lines = split_lines(contents);
        if lines.len() == 0 {
            lines.push(String::new());
        }
        let name = name_for_path(path.as_str());
        let b = Buffer { name, path: Some(path), lines, cursor_x: 0, cursor_y: 0, scroll_y: 0, dirty: false };
        proof {
            assert(strings_view(b.lines@) =~= file_lines(contents@));
            assert(b@.lines =~= file_lines(contents@).map_values(|l: Seq<char>| utf8(l)));
            lemma_view_valid(&b);
        }
        b
    }

    /// The text the buffer is saved as: its lines joined by newlines.
    pub fn text(&self) -> (t: String)
        ensures
            t@ == join_lines(strings_view(self.lines@)),
            t@ == self@.text(),
    {
        proof {
            assert forall|i: int| 0 <= i < self.lines@.len() implies decode_utf8(#[trigger] self@.lines[i]) == self.lines@[i]@ by {
                encode_utf8_decode_utf8(self.lines@[i]@);
            }
            assert(Seq::new(self@.lines.len(), |i: int| decode_utf8(self@.lines[i])) =~= strings_view(self.lines@));
        }
        join_with_newlines(&self.lines)
    }

    /// What saving writes: the buffer's own path and its text, or, for a
    /// buffer without a path, the error the editor reports.
    pub fn save(&self) -> (r: Result<(String, String), String>)
        ensures
            match r {
                Ok((p, t)) => self.path matches Some(q) && p@ == q@ && t@ == join_lines(
                    strings_view(self.lines@),
                ),
                Err(e) => self.path is None && e@ == no_target_path_message(),
            },
    {
        match &self.path {
            Some(p) => Ok((p.clone(), self.text())),
            None => Err(string_of("Buffer has no target path")),
        }
    }

    /// Records that the buffer's text was written to its file.
    pub fn mark_saved(&mut self)
        ensures
            final(self)@ == (BufferView { dirty: false, ..old(self)@ }),
    {
        self.dirty = false;
    }

    /// Records that the buffer's text was written to `path`: the buffer now
    /// belongs to that file and is named after it.
    pub fn save_as(&mut self, path: String)
        ensures
            final(self)@ == (BufferView {
                path: Some(path@),
                name: display_name(path@),
                dirty: false,
                ..old(self)@
            }),
    {
        self.name = name_for_path(path.as_str());
        self.path = Some(path);
        self.dirty = false;
        proof {
            assert(self@ =~= (BufferView {
                path: Some(path@),
                name: display_name(path@),
                dirty: false,
                ..old(self)@
            }));
        }
    }
}

} // verus!
