use termx::app::{App, FocusPane, PromptKind};
use termx::buffer::Buffer;
use termx::explorer::{FsSnapshot, Probe, DirEntry, chars_lt};
use termx::layout::{
    compute_layout, cut_ok, cut_to, dragon_frames, explorer_cursor_row, frame_layout, intro_pos,
    line_number, pad_right_str, prompt_cursor_pos, prompt_line, take_chars,
};
use termx::paths::{is_whitespace, resolve_path, trim_str};

#[test]
fn layout_of_a_normal_screen() {
    let l = compute_layout(100, 40).unwrap();
    assert_eq!((l.inner_x, l.inner_y, l.inner_w, l.inner_h), (1, 1, 98, 38));
    assert_eq!(l.explorer_w, 27);
    assert_eq!(l.editor_x, 29);
    assert_eq!(l.editor_w, 70);
    assert_eq!(l.explorer_rect(), (2, 3, 25, 33));
    assert_eq!(l.editor_rect(), (30, 3, 68, 33));
    assert_eq!(l.status_rect(), (2, 37, 96));
}

#[test]
fn layout_keeps_the_explorer_at_least_20_wide() {
    let l = compute_layout(30, 12).unwrap();
    assert_eq!(l.explorer_w, 20);
    assert_eq!(l.editor_w, 7);
}

#[test]
fn layout_of_a_huge_screen_saturates() {
    let l = compute_layout(u16::MAX, u16::MAX).unwrap();
    assert_eq!(l.explorer_w, 655);
}

#[test]
fn too_small_screens_have_no_layout() {
    assert!(compute_layout(29, 40).is_none());
    assert!(compute_layout(100, 11).is_none());
}

#[test]
fn header_text_names_workspace_buffers_and_focus() {
    let mut app = App::new();
    assert_eq!(app.header_text(100), " TERMX | ws: [no folder opened] | buffers: 1 | focus: editor ");
    app.workspace_root = Some(String::from("/w"));
    app.focus = FocusPane::Explorer;
    assert_eq!(app.header_text(12), " TERMX | w");
}

#[test]
fn tab_line_marks_active_and_dirty_buffers() {
    let mut app = App::new();
    app.new_empty_buffer();
    app.buffers[0].dirty = true;
    assert_eq!(app.tab_line(), " untitled-1*  | [untitled-2]");
}

#[test]
fn explorer_labels_show_depth_and_folder_state() {
    let mut app = App::new();
    let fs = FsSnapshot {
        probes: vec![Probe {
            path: "/w".into(),
            is_dir: true,
            listing: Ok(vec![DirEntry { path: "/w/d".into(), is_dir: true }, DirEntry { path: "/w/f".into(), is_dir: false }]),
        }],
    };
    app.open_workspace(String::from("/w"), &fs).unwrap();
    assert_eq!(app.explorer_label(0), Some(String::from("- /w")));
    assert_eq!(app.explorer_label(1), Some(String::from("  + d")));
    assert_eq!(app.explorer_label(2), Some(String::from("    f")));
    assert_eq!(app.explorer_label(3), None);
    app.explorer[2].depth = 12;
    assert_eq!(app.explorer_label(2), Some(format!("{}  f", " ".repeat(16))));
}

#[test]
fn cutting_labels_works_in_bytes() {
    assert!(cut_ok("héllo", 3));
    assert!(!cut_ok("héllo", 2));
    assert!(cut_ok("ab", 9));
    assert_eq!(cut_to(String::from("héllo"), 3), "hé");
    assert_eq!(cut_to(String::from("ab"), 9), "ab");
    assert_eq!(pad_right_str("ab", 5), "ab   ");
    assert_eq!(pad_right_str("abcdef", 3), "abcdef");
    assert_eq!(format!("{:<width$}", "é", width = 3), pad_right_str("é", 3));
}

#[test]
fn take_chars_counts_characters() {
    assert_eq!(take_chars("héllo", 2), "hé");
    assert_eq!(take_chars("ab", 9), "ab");
    assert_eq!(take_chars("ab", 0), "");
}

#[test]
fn status_line_shows_message_and_bindings() {
    let mut app = App::new();
    app.status = String::from("Hello there");
    let narrow = app.status_line_text(110);
    assert_eq!(narrow, "Hello there | F2 folder  F1 file  F3 mkfile  F4 mkdir  F5 save  F6 save-as  F7 close  F9 pane  F10 quit");
    assert_eq!(app.status_line_text(100), "Hello th | F2 folder  F1 file  F3 mkfile  F4 mkdir  F5 save  F6 save-as  F7 close  F9 pane  F10 quit");
    let wide = app.status_line_text(120);
    assert!(wide.starts_with("Hello there | ^s save"));
    assert_eq!(app.status_line_text(20), "F2 folder  F1 file  ");
}

#[test]
fn scroll_explorer_keeps_the_selection_visible() {
    let mut app = App::new();
    app.explorer_index = 10;
    app.scroll_explorer(4);
    assert_eq!(app.explorer_scroll, 7);
    app.explorer_index = 2;
    app.scroll_explorer(4);
    assert_eq!(app.explorer_scroll, 2);
}

#[test]
fn editor_rows_show_line_numbers_and_cut_lines() {
    let mut b = Buffer::from_file(String::from("/f"), "hello world\nsecond\n");
    assert_eq!(b.visible_row(0, 10), Some(String::from("   1 hello")));
    assert_eq!(b.visible_row(1, 40), Some(String::from("   2 second")));
    assert_eq!(b.visible_row(2, 40), None);
    b.scroll_y = 1;
    assert_eq!(b.visible_row(0, 40), Some(String::from("   2 second")));
    assert_eq!(line_number(12345), "12345 ");
    assert_eq!(line_number(7), "   7 ");
    let c = Buffer::from_file(String::from("/f"), "é");
    assert!(!c.row_fits_exec(0, 6));
    assert!(c.row_fits_exec(0, 7));
}

#[test]
fn scroll_to_cursor_follows_the_cursor() {
    let mut b = Buffer::from_file(String::from("/f"), "a\nb\nc\nd\ne\n");
    b.cursor_y = 4;
    b.scroll_to_cursor(2);
    assert_eq!(b.scroll_y, 3);
    b.cursor_y = 1;
    b.scroll_to_cursor(2);
    assert_eq!(b.scroll_y, 1);
    b.cursor_y = 0;
    b.scroll_to_cursor(0);
    assert_eq!(b.scroll_y, 0);
}

#[test]
fn cursor_positions_on_screen() {
    let mut b = Buffer::from_file(String::from("/f"), "abcdefghijkl\nx\n");
    b.cursor_x = 11;
    assert_eq!(b.cursor_screen(30, 4, 10, 5), (39, 4));
    b.cursor_x = 2;
    b.cursor_y = 1;
    assert_eq!(b.cursor_screen(30, 4, 10, 5), (37, 5));
    let l = compute_layout(100, 40).unwrap();
    assert_eq!(explorer_cursor_row(&l, 7, 3), 7);
    assert_eq!(prompt_cursor_pos(&l, PromptKind::OpenFile, "abc"), (17, 37));
    assert_eq!(prompt_line(PromptKind::SaveAs, "out.txt", 100), "Save as: out.txt");
    assert_eq!(prompt_line(PromptKind::SaveAs, "out.txt", 4), "Save");
}

#[test]
fn intro_positions_center_the_text() {
    assert_eq!(intro_pos(80, 24, 27), (26, 8));
    assert_eq!(intro_pos(10, 2, 27), (0, 0));
    let frames = dragon_frames();
    let placed = frame_layout(frames[0], 80, 24);
    assert_eq!(placed.len(), 5);
    assert_eq!(placed[0], (40, 9, String::new()));
    assert_eq!(placed[4].2, "        (______)__m_m)  ~~");
    assert_eq!(placed[4].1, 13);
}

#[test]
fn dragon_frames_are_the_four_drawings() {
    let frames = dragon_frames();
    assert_eq!(frames[0], "\n                 /\\_/\\\n           ____ / o o \\\n         /~____  =o= /\n        (______)__m_m)  ~~\n");
    assert!(frames[1].ends_with("~~~~~\n"));
    assert!(frames[2].contains("/ ^ ^ \\"));
    assert_eq!(frames[3], frames[0]);
}

#[test]
fn whitespace_agrees_with_std() {
    for u in 0u32..=0x10FFFF {
        if let Some(c) = char::from_u32(u) {
            assert_eq!(is_whitespace(c), c.is_whitespace(), "U+{:04X}", u);
        }
    }
}

#[test]
fn trim_agrees_with_std() {
    for s in ["", "  ", " a ", "\u{3000}x y\t\n", "x", "\u{85}b\u{a0}"] {
        assert_eq!(trim_str(s), s.trim());
    }
}

#[test]
fn resolve_path_expands_home_and_joins() {
    let home = Some(String::from("/h"));
    assert_eq!(resolve_path("~", &None, &home, &None), "/h");
    assert_eq!(resolve_path("~", &None, &None, &None), "./~");
    assert_eq!(resolve_path("~/x", &None, &Some(String::new()), &Some(String::from("/c"))), "/c/~/x");
    assert_eq!(resolve_path("/abs", &Some(String::from("/w")), &home, &None), "/abs");
    assert_eq!(resolve_path("rel", &Some(String::from("/w")), &home, &None), "/w/rel");
    assert_eq!(resolve_path("rel", &None, &home, &None), "./rel");
}

#[test]
fn chars_lt_agrees_with_string_order() {
    let words = ["", "a", "b", "ab", "é", "z", "Z", "€", "aé", "a€"];
    for a in words {
        for b in words {
            let ca: Vec<char> = a.chars().collect();
            let cb: Vec<char> = b.chars().collect();
            assert_eq!(chars_lt(&ca, &cb), a < b, "{:?} {:?}", a, b);
        }
    }
}

#[test]
fn law_scrolling_shows_the_index() {
    let mut app = App::new();
    for (index, scroll, h) in [(10usize, 0usize, 4usize), (2, 7, 4), (5, 3, 4), (0, 0, 1), (9, 9, 1)] {
        app.explorer_index = index;
        app.explorer_scroll = scroll;
        app.scroll_explorer(h);
        let s = app.explorer_scroll;
        assert!(s <= index && index < s + h);
        app.scroll_explorer(h);
        assert_eq!(app.explorer_scroll, s);
    }
}

#[test]
fn law_layout_panes_fit() {
    for (w, h) in [(30u16, 12u16), (100, 40), (250, 60), (u16::MAX, u16::MAX)] {
        let l = compute_layout(w, h).unwrap();
        let (ex, ey, ew, eh) = l.explorer_rect();
        let (dx, dy, dw, dh) = l.editor_rect();
        let (sx, sy, sw) = l.status_rect();
        assert!(l.inner_x <= ex && ex + ew <= l.inner_x + l.explorer_w);
        assert!(l.inner_x + l.explorer_w < dx);
        assert!(dx as u32 + dw as u32 <= l.inner_x as u32 + l.inner_w as u32);
        assert!(l.inner_x as u32 + l.inner_w as u32 <= w as u32);
        assert!(l.inner_y < ey && ey == dy && eh == dh);
        assert!(ey + eh < sy && sy < l.inner_y + l.inner_h);
        assert!(l.inner_x <= sx && sx as u32 + sw as u32 <= l.inner_x as u32 + l.inner_w as u32);
    }
}

#[test]
fn law_texts_fit() {
    let mut app = App::new();
    app.status = "a rather long status message that goes on and on".repeat(4);
    app.workspace_root = Some("/a/very/long/workspace/path/name".repeat(3));
    for w in [0u16, 1, 2, 5, 20, 99, 100, 111, 200] {
        assert!(app.header_text(w).chars().count() <= (w as usize).saturating_sub(2));
        assert!(app.status_line_text(w).chars().count() <= w as usize);
        assert!(prompt_line(PromptKind::SaveAs, "some/long/input/path", w as usize).chars().count() <= w as usize);
        assert!(take_chars(&app.tab_line(), w as usize).chars().count() <= w as usize);
    }
}
