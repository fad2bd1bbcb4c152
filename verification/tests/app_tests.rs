use termx::app::{startup_plan, App, Failure, FocusPane, Mode, PromptKind};
use termx::buffer::Buffer;
use termx::explorer::{sort_dir_entries, dirs_contains, dirs_insert, dirs_remove, DirEntry, ExplorerItem, FsSnapshot, Probe};
use termx::keys::{handle_key_event, key_is_safe, key_uses_listing, Effect, Key, KeyCode, PromptAction};

fn key(code: KeyCode) -> Key {
    Key { code, ctrl: false }
}

fn ctrl(c: char) -> Key {
    Key { code: KeyCode::Char(c), ctrl: true }
}

fn no_fs() -> FsSnapshot {
    FsSnapshot { probes: Vec::new() }
}

fn entry(path: &str, is_dir: bool) -> DirEntry {
    DirEntry { path: path.to_string(), is_dir }
}

fn probe(path: &str, entries: Vec<DirEntry>) -> Probe {
    Probe { path: path.to_string(), is_dir: true, listing: Ok(entries) }
}

/// A small file system: /w with folders src, Docs and files b.txt, A.txt;
/// /w/src holds main.rs.
fn sample_fs() -> FsSnapshot {
    FsSnapshot {
        probes: vec![
            probe("/w", vec![entry("/w/b.txt", false), entry("/w/src", true), entry("/w/A.txt", false), entry("/w/Docs", true)]),
            probe("/w/src", vec![entry("/w/src/main.rs", false)]),
            probe("/w/Docs", vec![]),
        ],
    }
}

fn rows(app: &App) -> Vec<(String, usize, bool, String)> {
    app.explorer.iter().map(|i| (i.path.clone(), i.depth, i.is_dir, i.name.clone())).collect()
}

fn typed(app: &mut App, s: &str) {
    for c in s.chars() {
        let e = handle_key_event(app, key(KeyCode::Char(c)), &no_fs());
        assert!(matches!(e, Effect::Nothing));
    }
}

#[test]
fn new_app_starts_with_one_untitled_buffer() {
    let app = App::new();
    assert_eq!(app.buffers.len(), 1);
    assert_eq!(app.buffers[0].name, "untitled-1");
    assert_eq!(app.active_buffer, 0);
    assert_eq!(app.untitled_counter, 1);
    assert_eq!(app.focus, FocusPane::Editor);
    assert!(matches!(app.mode, Mode::Normal));
    assert_eq!(app.status, "Ready");
    assert!(!app.should_quit);
    assert!(app.workspace_root.is_none());
    assert_eq!(app.active_buffer().name, "untitled-1");
}

#[test]
fn new_empty_buffer_counts_untitled_buffers() {
    let mut app = App::new();
    app.new_empty_buffer();
    app.new_empty_buffer();
    assert_eq!(app.buffers.len(), 3);
    assert_eq!(app.buffers[2].name, "untitled-3");
    assert_eq!(app.active_buffer, 2);
    assert_eq!(app.status, "Created untitled-3");
    assert_eq!(app.next_untitled_name(), "untitled-4");
}

#[test]
fn close_active_buffer_resets_the_last_one() {
    let mut app = App::new();
    app.active_buffer_mut().insert_char('x');
    app.close_active_buffer();
    assert_eq!(app.buffers.len(), 1);
    assert_eq!(app.buffers[0].lines, vec![String::new()]);
    assert_eq!(app.buffers[0].name, "untitled-1");
    assert_eq!(app.status, "Reset to empty buffer");
}

#[test]
fn close_active_buffer_keeps_the_index_in_range() {
    let mut app = App::new();
    app.new_empty_buffer();
    app.new_empty_buffer();
    assert_eq!(app.active_buffer, 2);
    app.close_active_buffer();
    assert_eq!(app.buffers.len(), 2);
    assert_eq!(app.active_buffer, 1);
    assert_eq!(app.status, "Closed active buffer");
    app.active_buffer = 0;
    app.close_active_buffer();
    assert_eq!(app.active_buffer, 0);
    assert_eq!(app.buffers[0].name, "untitled-2");
}

#[test]
fn open_buffer_replaces_the_untouched_start_buffer() {
    let mut app = App::new();
    app.open_buffer(String::from("/w/a.txt"), "one\ntwo\n");
    assert_eq!(app.buffers.len(), 1);
    assert_eq!(app.buffers[0].name, "a.txt");
    assert_eq!(app.buffers[0].lines, vec!["one".to_string(), "two".to_string()]);
    assert_eq!(app.status, "Opened /w/a.txt");
    app.open_buffer(String::from("/w/b.txt"), "");
    assert_eq!(app.buffers.len(), 2);
    assert_eq!(app.active_buffer, 1);
}

#[test]
fn open_buffer_keeps_an_edited_start_buffer() {
    let mut app = App::new();
    app.active_buffer_mut().insert_char('q');
    app.open_buffer(String::from("/w/a.txt"), "x");
    assert_eq!(app.buffers.len(), 2);
    assert_eq!(app.active_buffer, 1);
}

#[test]
fn focus_open_buffer_finds_an_open_file_by_path() {
    let mut app = App::new();
    app.open_buffer(String::from("/w/a.txt"), "x");
    app.open_buffer(String::from("/w/b.txt"), "y");
    assert!(app.focus_open_buffer("/w/a.txt"));
    assert_eq!(app.active_buffer, 0);
    assert_eq!(app.status, "Focused /w/a.txt");
    // Paths compare component by component.
    assert!(app.focus_open_buffer("/w//b.txt"));
    assert_eq!(app.active_buffer, 1);
    assert!(!app.focus_open_buffer("/w/c.txt"));
}

#[test]
fn sort_dir_entries_puts_folders_first_then_names_ignoring_case() {
    let es = vec![entry("/w/b.txt", false), entry("/w/src", true), entry("/w/A.txt", false), entry("/w/Docs", true)];
    let sorted: Vec<String> = sort_dir_entries(&es).into_iter().map(|e| e.path).collect();
    assert_eq!(sorted, vec!["/w/Docs", "/w/src", "/w/A.txt", "/w/b.txt"]);
}

#[test]
fn sort_dir_entries_is_stable_for_ties() {
    let es = vec![entry("/x/a", false), entry("/y/A", false), entry("/z/a", false)];
    let sorted: Vec<String> = sort_dir_entries(&es).into_iter().map(|e| e.path).collect();
    assert_eq!(sorted, vec!["/x/a", "/y/A", "/z/a"]);
}

#[test]
fn expanded_set_uses_path_equality() {
    let mut set: Vec<String> = Vec::new();
    dirs_insert(&mut set, String::from("/w/src"));
    dirs_insert(&mut set, String::from("/w/src/"));
    assert_eq!(set, vec![String::from("/w/src")]);
    assert!(dirs_contains(&set, "/w//src"));
    dirs_remove(&mut set, "/w/src/");
    assert!(set.is_empty());
}

#[test]
fn open_workspace_lists_the_root_folder() {
    let mut app = App::new();
    assert_eq!(app.open_workspace(String::from("/w"), &sample_fs()), Ok(()));
    assert_eq!(app.status, "Opened folder /w");
    assert_eq!(
        rows(&app),
        vec![
            ("/w".to_string(), 0, true, "/w".to_string()),
            ("/w/Docs".to_string(), 1, true, "Docs".to_string()),
            ("/w/src".to_string(), 1, true, "src".to_string()),
            ("/w/A.txt".to_string(), 1, false, "A.txt".to_string()),
            ("/w/b.txt".to_string(), 1, false, "b.txt".to_string()),
        ]
    );
}

#[test]
fn open_workspace_reports_an_unreadable_root() {
    let mut app = App::new();
    let fs = FsSnapshot { probes: vec![Probe { path: "/w".into(), is_dir: true, listing: Err("denied".into()) }] };
    assert_eq!(app.open_workspace(String::from("/w"), &fs), Err(String::from("denied")));
    assert_eq!(rows(&app), vec![("/w".to_string(), 0, true, "/w".to_string())]);
    assert_eq!(app.status, "Ready");
}

#[test]
fn toggle_selected_dir_expands_and_collapses() {
    let mut app = App::new();
    app.open_workspace(String::from("/w"), &sample_fs()).unwrap();
    app.explorer_index = 2;
    app.toggle_selected_dir(&sample_fs());
    assert_eq!(app.status, "Expanded /w/src");
    assert_eq!(app.explorer.len(), 6);
    assert_eq!(app.explorer[3].path, "/w/src/main.rs");
    assert_eq!(app.explorer[3].depth, 2);
    app.toggle_selected_dir(&sample_fs());
    assert_eq!(app.status, "Collapsed /w/src");
    assert_eq!(app.explorer.len(), 5);
}

#[test]
fn law_toggle_folder_twice_close_then_open() {
    let mut app = App::new();
    app.open_workspace(String::from("/w"), &sample_fs()).unwrap();
    app.explorer_index = 2;
    app.expand_selected(&sample_fs());
    let rows_before = rows(&app);
    assert_eq!(rows_before.len(), 6);
    app.toggle_selected_dir(&sample_fs());
    assert_eq!(app.status, "Collapsed /w/src");
    assert_eq!(app.explorer.len(), 5);
    assert_eq!(app.explorer_index, 2);
    app.toggle_selected_dir(&sample_fs());
    assert_eq!(app.status, "Expanded /w/src");
    assert_eq!(rows(&app), rows_before);
    assert_eq!(app.explorer_index, 2);
    assert_eq!(app.expanded_dirs.len(), 2);
    assert!(dirs_contains(&app.expanded_dirs, "/w"));
    assert!(dirs_contains(&app.expanded_dirs, "/w/src"));
}

#[test]
fn law_tree_same_folders() {
    let mut a = App::new();
    a.open_workspace(String::from("/w"), &sample_fs()).unwrap();
    let mut b = App::new();
    b.open_workspace(String::from("/w"), &sample_fs()).unwrap();
    a.expanded_dirs = vec![String::from("/w"), String::from("/w/src")];
    b.expanded_dirs = vec![String::from("/w/src/"), String::from("/w")];
    a.refresh_explorer(&sample_fs()).unwrap();
    b.refresh_explorer(&sample_fs()).unwrap();
    assert_eq!(rows(&a), rows(&b));
    assert_eq!(a.explorer.len(), 6);
}

#[test]
fn law_selection_down_then_up() {
    let mut app = App::new();
    app.open_workspace(String::from("/w"), &sample_fs()).unwrap();
    for i in 0..4 {
        app.explorer_index = i;
        app.move_explorer_selection(1);
        app.move_explorer_selection(-1);
        assert_eq!(app.explorer_index, i);
    }
    for i in 1..5 {
        app.explorer_index = i;
        app.move_explorer_selection(-1);
        app.move_explorer_selection(1);
        assert_eq!(app.explorer_index, i);
    }
}

#[test]
fn law_untitled_names_distinct() {
    let mut app = App::new();
    for _ in 0..12 {
        app.new_empty_buffer();
    }
    app.close_active_buffer();
    app.new_empty_buffer();
    let names: Vec<String> = app.buffers.iter().map(|b| b.name.clone()).collect();
    for i in 0..names.len() {
        for j in 0..names.len() {
            if i != j {
                assert_ne!(names[i], names[j]);
            }
        }
    }
    assert_eq!(names[0], "untitled-1");
    assert_eq!(names.last().unwrap(), "untitled-14");
}

#[test]
fn law_focus_key_twice() {
    for k in [key(KeyCode::F(9)), Key { code: KeyCode::F(9), ctrl: true }, ctrl('b')] {
        let mut app = App::new();
        app.open_buffer(String::from("/w/a.txt"), "abc");
        let e = handle_key_event(&mut app, k, &no_fs());
        assert!(matches!(e, Effect::Nothing));
        assert_eq!(app.focus, FocusPane::Explorer);
        handle_key_event(&mut app, k, &no_fs());
        assert_eq!(app.focus, FocusPane::Editor);
        assert_eq!(app.buffers[0].lines, vec![String::from("abc")]);
        assert!(matches!(app.mode, Mode::Normal));
    }
}

#[test]
fn law_open_then_close_folder() {
    let mut app = App::new();
    app.open_workspace(String::from("/w"), &sample_fs()).unwrap();
    app.explorer_index = 2;
    let rows_before = rows(&app);
    let expanded_before = app.expanded_dirs.clone();
    app.toggle_selected_dir(&sample_fs());
    assert_eq!(app.explorer_index, 2);
    assert_eq!(app.explorer.len(), 6);
    assert_eq!(app.expanded_dirs.len(), 2);
    app.toggle_selected_dir(&sample_fs());
    assert_eq!(rows(&app), rows_before);
    assert_eq!(app.expanded_dirs, expanded_before);
    assert_eq!(app.explorer_index, 2);
    assert_eq!(app.status, "Collapsed /w/src");
}

#[test]
fn law_new_then_close_buffer() {
    let mut app = App::new();
    app.active_buffer_mut().insert_char('x');
    app.new_empty_buffer();
    app.close_active_buffer();
    assert_eq!(app.buffers.len(), 1);
    assert_eq!(app.buffers[0].lines, vec![String::from("x")]);
    assert_eq!(app.buffers[0].name, "untitled-1");
    assert_eq!(app.active_buffer, 0);
}

#[test]
fn toggle_on_a_file_does_nothing() {
    let mut app = App::new();
    app.open_workspace(String::from("/w"), &sample_fs()).unwrap();
    app.explorer_index = 3;
    app.toggle_selected_dir(&sample_fs());
    assert_eq!(app.status, "Opened folder /w");
}

#[test]
fn refresh_clamps_the_selection() {
    let mut app = App::new();
    app.open_workspace(String::from("/w"), &sample_fs()).unwrap();
    app.explorer_index = 40;
    app.refresh_explorer(&sample_fs()).unwrap();
    assert_eq!(app.explorer_index, 4);
}

#[test]
fn collapse_selected_or_parent_selects_the_parent() {
    let mut app = App::new();
    app.open_workspace(String::from("/w"), &sample_fs()).unwrap();
    app.explorer_index = 2;
    app.expand_selected(&sample_fs());
    assert_eq!(app.explorer.len(), 6);
    app.explorer_index = 3; // /w/src/main.rs
    app.collapse_selected_or_parent(&sample_fs());
    assert_eq!(app.explorer.len(), 5);
    assert_eq!(app.explorer_index, 2);
    // On an open folder it just closes it.
    app.explorer_index = 0;
    app.collapse_selected_or_parent(&sample_fs());
    assert_eq!(rows(&app).len(), 1);
}

#[test]
fn expand_or_open_on_a_file_asks_to_open_it() {
    let mut app = App::new();
    app.open_workspace(String::from("/w"), &sample_fs()).unwrap();
    app.explorer_index = 4;
    assert_eq!(app.expand_selected(&sample_fs()), Some(String::from("/w/b.txt")));
    assert_eq!(app.open_selected_item(&sample_fs()), Some(String::from("/w/b.txt")));
    app.explorer_index = 1;
    assert_eq!(app.open_selected_item(&sample_fs()), None);
    assert_eq!(app.status, "Expanded /w/Docs");
}

#[test]
fn move_explorer_selection_clamps() {
    let mut app = App::new();
    app.move_explorer_selection(1);
    assert_eq!(app.explorer_index, 0);
    app.open_workspace(String::from("/w"), &sample_fs()).unwrap();
    app.move_explorer_selection(3);
    assert_eq!(app.explorer_index, 3);
    app.move_explorer_selection(5);
    assert_eq!(app.explorer_index, 4);
    app.move_explorer_selection(-10);
    assert_eq!(app.explorer_index, 0);
    assert_eq!(app.selected_item().map(|i| i.path.clone()), Some(String::from("/w")));
}

#[test]
fn close_workspace_clears_the_explorer() {
    let mut app = App::new();
    app.open_workspace(String::from("/w"), &sample_fs()).unwrap();
    app.explorer_index = 2;
    app.close_workspace();
    assert!(app.workspace_root.is_none());
    assert!(app.explorer.is_empty());
    assert!(app.expanded_dirs.is_empty());
    assert_eq!(app.explorer_index, 0);
    assert_eq!(app.status, "Closed folder");
}

#[test]
fn paths_to_probe_lists_root_expanded_and_folder_rows() {
    let mut app = App::new();
    app.open_workspace(String::from("/w"), &sample_fs()).unwrap();
    assert_eq!(app.paths_to_probe(), vec!["/w", "/w", "/w", "/w/Docs", "/w/src"]);
}

#[test]
fn save_active_without_a_path_opens_the_save_as_prompt() {
    let mut app = App::new();
    assert_eq!(app.save_active(), None);
    assert!(matches!(&app.mode, Mode::Prompt { kind: PromptKind::SaveAs, input } if input.is_empty()));
    assert_eq!(app.status, "Save as path:");
}

#[test]
fn save_active_with_a_path_asks_for_a_write() {
    let mut app = App::new();
    app.open_buffer(String::from("/w/a.txt"), "x\ny");
    app.active_buffer_mut().insert_char('z');
    assert_eq!(app.save_active(), Some((String::from("/w/a.txt"), String::from("zx\ny"))));
    app.finish_save(Ok(()));
    assert!(!app.buffers[0].dirty);
    assert_eq!(app.status, "Saved a.txt");
    app.finish_save(Err(String::from("disk full")));
    assert_eq!(app.status, "Save error: disk full");
}

#[test]
fn finish_save_as_renames_the_buffer() {
    let mut app = App::new();
    app.finish_save_as(String::from("/w/new.md"), Ok(()), &no_fs());
    assert_eq!(app.buffers[0].name, "new.md");
    assert_eq!(app.status, "Saved /w/new.md");
    app.finish_save_as(String::from("/w/x"), Err(String::from("nope")), &no_fs());
    assert_eq!(app.status, "Save-as error: nope");
    assert_eq!(app.buffers[0].name, "new.md");
}

#[test]
fn finish_create_folder_expands_it() {
    let mut app = App::new();
    app.open_workspace(String::from("/w"), &sample_fs()).unwrap();
    app.finish_create_folder(String::from("/w/src"), Ok(()), &sample_fs());
    assert_eq!(app.status, "Created folder /w/src");
    assert_eq!(app.explorer.len(), 6);
    app.finish_create_folder(String::from("/w/q"), Err(String::from("exists")), &sample_fs());
    assert_eq!(app.status, "Create folder error: exists");
    app.finish_create_file("/w/f", Ok(()), &sample_fs());
    assert_eq!(app.status, "Created file /w/f");
    app.finish_create_file("/w/f", Err(String::from("ro")), &sample_fs());
    assert_eq!(app.status, "Create file error: ro");
}

#[test]
fn report_prefixes_the_failure() {
    let mut app = App::new();
    app.report(Failure::OpenFile, "gone");
    assert_eq!(app.status, "Open file error: gone");
    app.report(Failure::Workspace, "x");
    assert_eq!(app.status, "Workspace error: x");
    app.report(Failure::OpenFolder, "y");
    assert_eq!(app.status, "Open folder error: y");
    app.report(Failure::ExplorerRefresh, "z");
    assert_eq!(app.status, "Explorer refresh error: z");
}

#[test]
fn startup_plan_opens_a_folder_or_a_file_with_its_folder() {
    assert_eq!(startup_plan("/w", true), (Some(String::from("/w")), None));
    assert_eq!(startup_plan("/w/a.txt", false), (Some(String::from("/w")), Some(String::from("/w/a.txt"))));
    assert_eq!(startup_plan("a.txt", false), (Some(String::new()), Some(String::from("a.txt"))));
}

#[test]
fn finish_startup_folder_reports_only_for_a_folder() {
    let mut app = App::new();
    app.finish_startup_folder(false, Err(String::from("denied")));
    assert_eq!(app.status, "Ready");
    app.finish_startup_folder(true, Ok(()));
    assert_eq!(app.status, "Ready");
    app.finish_startup_folder(true, Err(String::from("denied")));
    assert_eq!(app.status, "Workspace error: denied");
}

#[test]
fn prompt_title_names_the_prompt() {
    assert_eq!(PromptKind::OpenFile.title(), "Open file");
    assert_eq!(PromptKind::OpenFolder.title(), "Open folder");
    assert_eq!(PromptKind::NewFile.title(), "Create file");
    assert_eq!(PromptKind::NewFolder.title(), "Create folder");
    assert_eq!(PromptKind::SaveAs.title(), "Save as");
}

#[test]
fn typing_in_the_editor_edits_the_active_buffer() {
    let mut app = App::new();
    typed(&mut app, "hi");
    handle_key_event(&mut app, key(KeyCode::Enter), &no_fs());
    handle_key_event(&mut app, key(KeyCode::Tab), &no_fs());
    typed(&mut app, "x");
    handle_key_event(&mut app, key(KeyCode::Backspace), &no_fs());
    handle_key_event(&mut app, key(KeyCode::Left), &no_fs());
    assert_eq!(app.buffers[0].lines, vec!["hi".to_string(), "    ".to_string()]);
    assert_eq!((app.buffers[0].cursor_x, app.buffers[0].cursor_y), (3, 1));
    handle_key_event(&mut app, key(KeyCode::Up), &no_fs());
    handle_key_event(&mut app, key(KeyCode::Right), &no_fs());
    handle_key_event(&mut app, key(KeyCode::Down), &no_fs());
    assert_eq!((app.buffers[0].cursor_x, app.buffers[0].cursor_y), (0, 1));
    // Control with an unbound letter types nothing.
    handle_key_event(&mut app, ctrl('z'), &no_fs());
    assert_eq!(app.buffers[0].lines[1], "    ");
}

#[test]
fn global_shortcuts() {
    let mut app = App::new();
    handle_key_event(&mut app, ctrl('b'), &no_fs());
    assert_eq!(app.focus, FocusPane::Explorer);
    handle_key_event(&mut app, key(KeyCode::F(9)), &no_fs());
    assert_eq!(app.focus, FocusPane::Editor);
    handle_key_event(&mut app, ctrl('o'), &no_fs());
    assert!(matches!(&app.mode, Mode::Prompt { kind: PromptKind::OpenFile, .. }));
    handle_key_event(&mut app, key(KeyCode::Esc), &no_fs());
    assert!(matches!(app.mode, Mode::Normal));
    assert_eq!(app.status, "Prompt canceled");
    handle_key_event(&mut app, key(KeyCode::F(3)), &no_fs());
    assert!(matches!(&app.mode, Mode::Prompt { kind: PromptKind::NewFile, .. }));
    handle_key_event(&mut app, key(KeyCode::Esc), &no_fs());
    handle_key_event(&mut app, ctrl('n'), &no_fs());
    assert!(matches!(&app.mode, Mode::Prompt { kind: PromptKind::NewFile, .. }));
    handle_key_event(&mut app, key(KeyCode::Esc), &no_fs());
    handle_key_event(&mut app, key(KeyCode::F(10)), &no_fs());
    assert!(app.should_quit);
}

#[test]
fn control_shortcuts_and_function_keys_agree() {
    let pairs = [('o', 1u8), ('g', 2), ('n', 3), ('m', 4), ('s', 5), ('a', 6), ('w', 7), ('x', 8), ('b', 9), ('q', 10)];
    for (c, f) in pairs {
        let mut a = App::new();
        let mut b = App::new();
        handle_key_event(&mut a, ctrl(c), &no_fs());
        handle_key_event(&mut b, key(KeyCode::F(f)), &no_fs());
        assert_eq!(a.focus, b.focus);
        assert_eq!(a.should_quit, b.should_quit);
        assert_eq!(a.status, b.status);
        match (&a.mode, &b.mode) {
            (Mode::Normal, Mode::Normal) => {}
            (Mode::Prompt { kind: k1, .. }, Mode::Prompt { kind: k2, .. }) => assert_eq!(k1, k2),
            _ => panic!("modes differ for ^{} and F{}", c, f),
        }
    }
}

#[test]
fn law_prompt_keys_touch_only_the_prompt() {
    let mut app = App::new();
    app.open_buffer(String::from("/w/a.txt"), "abc");
    app.start_prompt(PromptKind::NewFile);
    let keys = [
        key(KeyCode::F(5)),
        ctrl('s'),
        ctrl('q'),
        key(KeyCode::Left),
        key(KeyCode::Tab),
        key(KeyCode::Char('z')),
        key(KeyCode::Backspace),
        key(KeyCode::Other),
    ];
    for k in keys {
        let e = handle_key_event(&mut app, k, &no_fs());
        assert!(matches!(e, Effect::Nothing));
        assert_eq!(app.buffers.len(), 1);
        assert_eq!(app.buffers[0].lines, vec![String::from("abc")]);
        assert_eq!(app.buffers[0].cursor_x, 0);
        assert_eq!(app.focus, FocusPane::Editor);
        assert!(!app.should_quit);
    }
    match &app.mode {
        Mode::Prompt { kind, input } => {
            assert_eq!(*kind, PromptKind::NewFile);
            assert_eq!(input, "");
        }
        _ => panic!("the prompt should still be open"),
    }
    let e = handle_key_event(&mut app, key(KeyCode::Enter), &no_fs());
    assert!(matches!(e, Effect::RunPrompt(PromptKind::NewFile, _)));
}

#[test]
fn ctrl_s_on_a_file_buffer_asks_for_a_write() {
    let mut app = App::new();
    app.open_buffer(String::from("/w/a.txt"), "abc");
    match handle_key_event(&mut app, ctrl('s'), &no_fs()) {
        Effect::Save(p, t) => {
            assert_eq!(p, "/w/a.txt");
            assert_eq!(t, "abc");
        }
        _ => panic!("expected a write"),
    }
}

#[test]
fn prompt_keys_edit_and_confirm_the_input() {
    let mut app = App::new();
    handle_key_event(&mut app, key(KeyCode::F(2)), &no_fs());
    typed(&mut app, "abX");
    handle_key_event(&mut app, key(KeyCode::Backspace), &no_fs());
    handle_key_event(&mut app, ctrl('c'), &no_fs());
    match handle_key_event(&mut app, key(KeyCode::Enter), &no_fs()) {
        Effect::RunPrompt(kind, input) => {
            assert_eq!(kind, PromptKind::OpenFolder);
            assert_eq!(input, "ab");
        }
        _ => panic!("expected the prompt to run"),
    }
}

#[test]
fn law_prompt_type_then_erase() {
    let mut app = App::new();
    app.start_prompt(PromptKind::NewFolder);
    typed(&mut app, "ab");
    handle_key_event(&mut app, key(KeyCode::Char('z')), &no_fs());
    handle_key_event(&mut app, key(KeyCode::Backspace), &no_fs());
    assert!(matches!(&app.mode, Mode::Prompt { kind: PromptKind::NewFolder, input } if input == "ab"));
}

#[test]
fn law_toggle_focus_twice() {
    let mut app = App::new();
    handle_key_event(&mut app, ctrl('b'), &no_fs());
    handle_key_event(&mut app, ctrl('b'), &no_fs());
    assert_eq!(app.focus, FocusPane::Editor);
}

#[test]
fn explorer_keys_move_open_and_leave() {
    let mut app = App::new();
    app.open_workspace(String::from("/w"), &sample_fs()).unwrap();
    app.focus = FocusPane::Explorer;
    assert!(!key_uses_listing(&app, key(KeyCode::Down)));
    assert!(key_uses_listing(&app, key(KeyCode::Enter)));
    for _ in 0..4 {
        handle_key_event(&mut app, key(KeyCode::Down), &no_fs());
    }
    assert_eq!(app.explorer_index, 4);
    match handle_key_event(&mut app, key(KeyCode::Enter), &sample_fs()) {
        Effect::OpenFile(p) => assert_eq!(p, "/w/b.txt"),
        _ => panic!("expected a file to open"),
    }
    handle_key_event(&mut app, key(KeyCode::Up), &no_fs());
    handle_key_event(&mut app, key(KeyCode::Up), &no_fs());
    handle_key_event(&mut app, key(KeyCode::Right), &sample_fs());
    assert_eq!(app.explorer.len(), 6);
    handle_key_event(&mut app, key(KeyCode::Left), &sample_fs());
    assert_eq!(app.explorer.len(), 5);
    handle_key_event(&mut app, key(KeyCode::Tab), &no_fs());
    assert_eq!(app.focus, FocusPane::Editor);
}

#[test]
fn key_is_safe_rejects_keys_that_would_split_a_character() {
    let mut app = App::new();
    app.open_buffer(String::from("/w/a"), "é");
    app.buffers[0].cursor_x = 1;
    assert!(!key_is_safe(&app, key(KeyCode::Char('x'))));
    assert!(!key_is_safe(&app, key(KeyCode::Enter)));
    assert!(key_is_safe(&app, key(KeyCode::Left)));
    app.buffers[0].cursor_x = 2;
    assert!(key_is_safe(&app, key(KeyCode::Char('x'))));
    assert!(key_is_safe(&app, key(KeyCode::Backspace)));
    handle_key_event(&mut app, key(KeyCode::Backspace), &no_fs());
    assert_eq!(app.buffers[0].lines, vec![String::new()]);
    app.open_buffer(String::from("/w/b"), "€");
    app.buffers[1].cursor_x = 2;
    assert!(!key_is_safe(&app, key(KeyCode::Backspace)));
    app.buffers[1].cursor_x = 1;
    assert!(key_is_safe(&app, key(KeyCode::Backspace)));
}

#[test]
fn execute_prompt_blank_input_cancels() {
    let mut app = App::new();
    app.start_prompt(PromptKind::OpenFile);
    assert!(matches!(app.execute_prompt(PromptKind::OpenFile, "   ", &None, &None), PromptAction::Cancelled));
    assert!(matches!(app.mode, Mode::Normal));
    assert_eq!(app.status, "Prompt canceled");
}

#[test]
fn execute_prompt_resolves_paths() {
    let mut app = App::new();
    let home = Some(String::from("/home/me"));
    let cwd = Some(String::from("/cwd"));
    match app.execute_prompt(PromptKind::OpenFile, " notes.txt ", &home, &cwd) {
        PromptAction::OpenFile(p) => assert_eq!(p, "/cwd/notes.txt"),
        _ => panic!(),
    }
    match app.execute_prompt(PromptKind::OpenFolder, "~", &home, &cwd) {
        PromptAction::OpenFolder(p) => assert_eq!(p, "/home/me"),
        _ => panic!(),
    }
    match app.execute_prompt(PromptKind::NewFile, "~/a/b.rs", &home, &cwd) {
        PromptAction::NewFile(p) => assert_eq!(p, "/home/me/a/b.rs"),
        _ => panic!(),
    }
    app.workspace_root = Some(String::from("/w"));
    match app.execute_prompt(PromptKind::NewFolder, "sub", &None, &None) {
        PromptAction::NewFolder(p) => assert_eq!(p, "/w/sub"),
        _ => panic!(),
    }
    app.active_buffer_mut().insert_char('k');
    match app.execute_prompt(PromptKind::SaveAs, "/abs/out", &None, &None) {
        PromptAction::SaveAs(p, t) => {
            assert_eq!(p, "/abs/out");
            assert_eq!(t, "k");
        }
        _ => panic!(),
    }
    assert!(matches!(app.mode, Mode::Normal));
}

#[test]
fn finish_open_moves_the_focus_or_reports() {
    let mut app = App::new();
    app.finish_open(true, Ok(()));
    assert_eq!(app.focus, FocusPane::Explorer);
    app.finish_open(false, Ok(()));
    assert_eq!(app.focus, FocusPane::Editor);
    app.finish_open(true, Err(String::from("no")));
    assert_eq!(app.status, "Open folder error: no");
    app.finish_open(false, Err(String::from("no")));
    assert_eq!(app.status, "Open file error: no");
}

#[test]
fn explorer_item_duplicate_copies() {
    let i = ExplorerItem { path: "/p".into(), depth: 3, is_dir: true, name: "p".into() };
    let j = i.duplicate();
    assert_eq!((j.path, j.depth, j.is_dir, j.name), (i.path, i.depth, i.is_dir, i.name));
    let b = Buffer::empty(String::from("n"));
    assert_eq!(b.line_len(0), 0);
}
