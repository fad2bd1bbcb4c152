use termx::buffer::Buffer;
use termx::text::{decimal_string, join_with_newlines, split_lines};

fn buf(lines: &[&str], x: usize, y: usize) -> Buffer {
    Buffer {
        name: String::from("t"),
        path: None,
        lines: lines.iter().map(|l| l.to_string()).collect(),
        cursor_x: x,
        cursor_y: y,
        scroll_y: 0,
        dirty: false,
    }
}

fn lines_of(b: &Buffer) -> Vec<&str> {
    b.lines.iter().map(|l| l.as_str()).collect()
}

#[test]
fn empty_buffer_has_one_empty_line() {
    let b = Buffer::empty(String::from("untitled-1"));
    assert_eq!(b.name, "untitled-1");
    assert_eq!(lines_of(&b), vec![""]);
    assert_eq!((b.cursor_x, b.cursor_y, b.scroll_y), (0, 0, 0));
    assert!(!b.dirty);
    assert!(b.path.is_none());
}

#[test]
fn line_len_counts_bytes_and_is_zero_past_the_end() {
    let b = buf(&["héllo", "ab"], 0, 0);
    assert_eq!(b.line_len(0), 6);
    assert_eq!(b.line_len(1), 2);
    assert_eq!(b.line_len(2), 0);
}

#[test]
fn insert_char_goes_in_at_the_cursor() {
    let mut b = buf(&["abc"], 1, 0);
    b.insert_char('X');
    assert_eq!(lines_of(&b), vec!["aXbc"]);
    assert_eq!(b.cursor_x, 2);
    assert!(b.dirty);
}

#[test]
fn insert_char_clamps_the_cursor_to_the_line_end() {
    let mut b = buf(&["ab"], 10, 0);
    b.insert_char('z');
    assert_eq!(lines_of(&b), vec!["abz"]);
    assert_eq!(b.cursor_x, 3);
}

#[test]
fn insert_char_moves_the_cursor_by_the_utf8_width() {
    let mut b = buf(&["ab"], 1, 0);
    b.insert_char('é');
    assert_eq!(lines_of(&b), vec!["aéb"]);
    assert_eq!(b.cursor_x, 3);
    b.insert_char('€');
    assert_eq!(lines_of(&b), vec!["aé€b"]);
    assert_eq!(b.cursor_x, 6);
}

#[test]
fn insert_char_below_the_last_line_does_nothing() {
    let mut b = buf(&["ab"], 0, 5);
    b.insert_char('z');
    assert_eq!(lines_of(&b), vec!["ab"]);
    assert!(!b.dirty);
    assert_eq!(b.cursor_x, 0);
}

#[test]
fn new_line_splits_at_the_cursor() {
    let mut b = buf(&["hello", "world"], 2, 0);
    b.new_line();
    assert_eq!(lines_of(&b), vec!["he", "llo", "world"]);
    assert_eq!((b.cursor_x, b.cursor_y), (0, 1));
    assert!(b.dirty);
}

#[test]
fn new_line_below_the_last_line_appends_an_empty_line() {
    let mut b = buf(&["a"], 3, 4);
    b.new_line();
    assert_eq!(lines_of(&b), vec!["a", ""]);
    assert_eq!((b.cursor_x, b.cursor_y), (0, 1));
    assert!(!b.dirty);
}

#[test]
fn backspace_removes_the_byte_before_the_cursor() {
    let mut b = buf(&["abc"], 2, 0);
    b.backspace();
    assert_eq!(lines_of(&b), vec!["ac"]);
    assert_eq!(b.cursor_x, 1);
    assert!(b.dirty);
}

#[test]
fn backspace_removes_a_whole_character_but_steps_back_one_byte() {
    // The character starting one byte before the cursor is two bytes wide.
    let mut b = buf(&["aéb"], 2, 0);
    b.backspace();
    assert_eq!(lines_of(&b), vec!["ab"]);
    assert_eq!(b.cursor_x, 1);
}

#[test]
fn backspace_at_line_start_joins_with_the_line_above() {
    let mut b = buf(&["ab", "cd"], 0, 1);
    b.backspace();
    assert_eq!(lines_of(&b), vec!["abcd"]);
    assert_eq!((b.cursor_x, b.cursor_y), (2, 0));
    assert!(b.dirty);
}

#[test]
fn backspace_at_the_very_start_does_nothing() {
    let mut b = buf(&["ab"], 0, 0);
    b.backspace();
    assert_eq!(lines_of(&b), vec!["ab"]);
    assert!(!b.dirty);
}

#[test]
fn backspace_with_the_cursor_past_the_line_end_does_nothing() {
    let mut b = buf(&["ab"], 5, 0);
    b.backspace();
    assert_eq!(lines_of(&b), vec!["ab"]);
    assert_eq!(b.cursor_x, 5);
    assert!(!b.dirty);
}

#[test]
fn moves_left_and_right_wrap_between_lines() {
    let mut b = buf(&["ab", "c"], 0, 1);
    b.move_left();
    assert_eq!((b.cursor_x, b.cursor_y), (2, 0));
    b.move_right();
    assert_eq!((b.cursor_x, b.cursor_y), (0, 1));
    b.move_right();
    assert_eq!((b.cursor_x, b.cursor_y), (1, 1));
    b.move_right();
    assert_eq!((b.cursor_x, b.cursor_y), (1, 1));
    let mut c = buf(&["ab"], 0, 0);
    c.move_left();
    assert_eq!((c.cursor_x, c.cursor_y), (0, 0));
}

#[test]
fn moves_up_and_down_clamp_the_column() {
    let mut b = buf(&["abcdef", "ab", "abcd"], 5, 0);
    b.move_down();
    assert_eq!((b.cursor_x, b.cursor_y), (2, 1));
    b.move_down();
    assert_eq!((b.cursor_x, b.cursor_y), (2, 2));
    b.move_down();
    assert_eq!((b.cursor_x, b.cursor_y), (2, 2));
    b.move_up();
    b.move_up();
    assert_eq!((b.cursor_x, b.cursor_y), (2, 0));
    b.move_up();
    assert_eq!((b.cursor_x, b.cursor_y), (2, 0));
}

#[test]
fn law_insert_then_backspace_restores_the_lines() {
    let mut b = buf(&["hello"], 3, 0);
    b.insert_char('!');
    b.backspace();
    assert_eq!(lines_of(&b), vec!["hello"]);
    assert_eq!((b.cursor_x, b.cursor_y), (3, 0));
    for c in ['é', '€', '𝄞'] {
        let mut b = buf(&["hé€lo"], 3, 0);
        b.insert_char(c);
        b.backspace();
        assert_eq!(lines_of(&b), vec!["hé€lo"]);
        assert_eq!((b.cursor_x, b.cursor_y), (3, 0));
    }
}

#[test]
fn backspace_after_a_wide_character_removes_all_of_it() {
    let mut b = buf(&["a€b"], 4, 0);
    b.backspace();
    assert_eq!(lines_of(&b), vec!["ab"]);
    assert_eq!(b.cursor_x, 1);
    assert!(b.dirty);
    let mut b = buf(&["x", "é"], 2, 1);
    b.backspace();
    assert_eq!(lines_of(&b), vec!["x", ""]);
    assert_eq!((b.cursor_x, b.cursor_y), (0, 1));
}

#[test]
fn law_new_line_then_backspace_rejoins() {
    let mut b = buf(&["one", "hello", "two"], 2, 1);
    b.new_line();
    b.backspace();
    assert_eq!(lines_of(&b), vec!["one", "hello", "two"]);
    assert_eq!((b.cursor_x, b.cursor_y), (2, 1));
}

#[test]
fn law_left_right_inverse() {
    let mut b = buf(&["ab", "cd"], 2, 0);
    b.move_right();
    b.move_left();
    assert_eq!((b.cursor_x, b.cursor_y), (2, 0));
    let mut c = buf(&["ab", "cd"], 0, 1);
    c.move_left();
    c.move_right();
    assert_eq!((c.cursor_x, c.cursor_y), (0, 1));
}

#[test]
fn law_edits_keep_the_cursor_on_a_line() {
    let mut b = buf(&["x"], 1, 0);
    b.new_line();
    b.new_line();
    b.backspace();
    b.backspace();
    b.backspace();
    b.move_down();
    b.move_right();
    assert!(b.cursor_y < b.lines.len());
    assert!(b.cursor_x <= b.line_len(b.cursor_y));
}

#[test]
fn from_file_splits_lines_and_names_the_buffer() {
    let b = Buffer::from_file(String::from("/tmp/dir/notes.txt"), "a\r\nb\n\nc\n");
    assert_eq!(lines_of(&b), vec!["a", "b", "", "c"]);
    assert_eq!(b.name, "notes.txt");
    assert_eq!(b.path.as_deref(), Some("/tmp/dir/notes.txt"));
    assert!(!b.dirty);
}

#[test]
fn from_file_of_an_empty_file_has_one_empty_line() {
    let b = Buffer::from_file(String::from("/x/e"), "");
    assert_eq!(lines_of(&b), vec![""]);
}

#[test]
fn from_file_without_a_file_name_uses_the_path() {
    let b = Buffer::from_file(String::from("/"), "x");
    assert_eq!(b.name, "/");
}

#[test]
fn text_joins_lines_with_newlines() {
    let b = buf(&["a", "", "b"], 0, 0);
    assert_eq!(b.text(), "a\n\nb");
}

#[test]
fn save_without_a_path_is_an_error() {
    let b = buf(&["a"], 0, 0);
    assert_eq!(b.save(), Err(String::from("Buffer has no target path")));
    let mut c = buf(&["a", "b"], 0, 0);
    c.path = Some(String::from("/f"));
    assert_eq!(c.save(), Ok((String::from("/f"), String::from("a\nb"))));
}

#[test]
fn save_as_takes_the_new_path_and_name() {
    let mut b = buf(&["a"], 0, 0);
    b.dirty = true;
    b.save_as(String::from("/home/u/out.rs"));
    assert_eq!(b.path.as_deref(), Some("/home/u/out.rs"));
    assert_eq!(b.name, "out.rs");
    assert!(!b.dirty);
    let mut c = buf(&["a"], 0, 0);
    c.dirty = true;
    c.mark_saved();
    assert!(!c.dirty);
}

#[test]
fn split_lines_agrees_with_str_lines() {
    for text in ["", "a", "a\n", "a\nb", "a\r\nb\r\n", "\n\n", "x\r", "x\ry\n", "\r\n", "é\nü\r\n€", "a\r\r\nb"] {
        let ours = split_lines(text);
        let std: Vec<String> = text.lines().map(|l| l.to_string()).collect();
        assert_eq!(ours, std, "for {:?}", text);
    }
}

#[test]
fn law_file_roundtrip() {
    let lines: Vec<String> = vec!["first".into(), "".into(), "last".into()];
    let text = join_with_newlines(&lines);
    assert_eq!(text, "first\n\nlast");
    assert_eq!(split_lines(&text), lines);
    let one: Vec<String> = vec!["".into()];
    let b = Buffer::from_file(String::from("/f"), &join_with_newlines(&one));
    assert_eq!(b.lines, one);
}

#[test]
fn law_save_then_open() {
    let mut b = buf(&["héllo", "", "wörld"], 0, 1);
    b.insert_char('x');
    b.new_line();
    let text = b.text();
    assert_eq!(text, "héllo\nx\n\nwörld");
    let reopened = Buffer::from_file(String::from("/tmp/f.txt"), &text);
    assert_eq!(reopened.lines, b.lines);
    assert_eq!(reopened.name, "f.txt");
}

#[test]
fn law_open_then_save() {
    for s in ["", "one", "one\ntwo", "a\n\nb", "é€\n𝄞"] {
        let b = Buffer::from_file(String::from("/d/f.txt"), s);
        match b.save() {
            Ok((p, t)) => {
                assert_eq!(p, "/d/f.txt");
                assert_eq!(t, s);
            }
            Err(_) => panic!("a file buffer saves"),
        }
    }
}

#[test]
fn decimal_string_agrees_with_to_string() {
    for n in [0usize, 7, 10, 99, 100, 12345, usize::MAX] {
        assert_eq!(decimal_string(n), n.to_string());
    }
}
