//! The editor's state: open buffers, the workspace and its explorer, focus,
//! prompt mode and status line, and every operation on them that does not
//! itself touch the file system or the terminal.
use vstd::prelude::*;
use crate::buffer::{Buffer, BufferView};
use crate::explorer::{
    ExplorerItem, ItemView, FsSnapshot, ProbeView, items_view, paths_view, has_path, tree,
    build_tree, dirs_contains, dirs_insert, dirs_remove, lemma_tree_prefix, folder_at, same_folders,
    lemma_has_path_push, lemma_has_path_remove, law_tree_same_folders, distinct_paths,
    lemma_distinct_push, lemma_distinct_filter,
};
use crate::paths::{parent_of, same_path, path_parent, path_eq};
use crate::text::{string_of, concat, decimal, decimal_string, join_lines, strings_view};

verus! {

/// Which pane the keyboard drives.
#[derive(Clone, Copy, PartialEq, Eq, Structural, Debug)]
pub enum FocusPane {
    Explorer,
    Editor,
}

/// What a prompt asks for.
#[derive(Clone, Copy, PartialEq, Eq, Structural, Debug)]
pub enum PromptKind {
    OpenFile,
    OpenFolder,
    NewFile,
    NewFolder,
    SaveAs,
}

impl PromptKind {
    /// The prompt's title.
    pub open spec fn title_spec(self) -> Seq<char> {
        match self {
            PromptKind::OpenFile => "Open file"@,
            PromptKind::OpenFolder => "Open folder"@,
            PromptKind::NewFile => "Create file"@,
            PromptKind::NewFolder => "Create folder"@,
            PromptKind::SaveAs => "Save as"@,
        }
    }

    /// The prompt's title, as shown before what is typed.
    pub fn title(&self) -> (t: &'static str)
        ensures
            t@ == self.title_spec(),
    {
        match self {
            PromptKind::OpenFile => "Open file",
            PromptKind::OpenFolder => "Open folder",
            PromptKind::NewFile => "Create file",
            PromptKind::NewFolder => "Create folder",
            PromptKind::SaveAs => "Save as",
        }
    }
}

/// Whether a prompt is open, and what has been typed into it.
pub enum Mode {
    Normal,
    Prompt { kind: PromptKind, input: String },
}

/// The abstract content of a mode.
pub enum ModeView {
    Normal,
    Prompt { kind: PromptKind, input: Seq<char> },
}

impl View for Mode {
    type V = ModeView;

    open spec fn view(&self) -> ModeView {
        match self {
            Mode::Normal => ModeView::Normal,
            Mode::Prompt { kind, input } => ModeView::Prompt { kind: *kind, input: input@ },
        }
    }
}

impl Mode {
    /// A copy of the mode.
    pub fn duplicate(&self) -> (m: Mode)
        ensures
            m@ == self@,
    {
        match self {
            Mode::Normal => Mode::Normal,
            Mode::Prompt { kind, input } => Mode::Prompt { kind: *kind, input: input.clone() },
        }
    }
}

/// The whole editor.
pub struct App {
    pub workspace_root: Option<String>,
    pub expanded_dirs: Vec<String>,
    pub explorer: Vec<ExplorerItem>,
    pub explorer_index: usize,
    pub explorer_scroll: usize,
    pub buffers: Vec<Buffer>,
    pub active_buffer: usize,
    pub untitled_counter: usize,
    pub focus: FocusPane,
    pub mode: Mode,
    pub status: String,
    pub should_quit: bool,
}

/// The abstract state of the editor.
#[verifier::ext_equal]
pub struct AppView {
    pub workspace_root: Option<Seq<char>>,
    pub expanded_dirs: Seq<Seq<char>>,
    pub explorer: Seq<ItemView>,
    pub explorer_index: nat,
    pub explorer_scroll: nat,
    pub buffers: Seq<BufferView>,
    pub active_buffer: nat,
    pub untitled_counter: nat,
    pub focus: FocusPane,
    pub mode: ModeView,
    pub status: Seq<char>,
    pub should_quit: bool,
}

/// The views of a vector of buffers.
pub open spec fn buffers_view(v: Seq<Buffer>) -> Seq<BufferView> {
    Seq::new(v.len(), |i: int| v[i]@)
}

/// The view of an optional string.
pub open spec fn opt_view(o: Option<String>) -> Option<Seq<char>> {
    match o {
        Some(s) => Some(s@),
        None => None,
    }
}

impl View for App {
    type V = AppView;

    open spec fn view(&self) -> AppView {
        AppView {
            workspace_root: opt_view(self.workspace_root),
            expanded_dirs: paths_view(self.expanded_dirs@),
            explorer: items_view(self.explorer@),
            explorer_index: self.explorer_index as nat,
            explorer_scroll: self.explorer_scroll as nat,
            buffers: buffers_view(self.buffers@),
            active_buffer: self.active_buffer as nat,
            untitled_counter: self.untitled_counter as nat,
            focus: self.focus,
            mode: self.mode@,
            status: self.status@,
            should_quit: self.should_quit,
        }
    }
}

/// The name of the first untitled buffer.
pub open spec fn first_untitled() -> Seq<char> {
    "untitled-1"@
}

impl AppView {
    /// There is always an active buffer, every buffer is well formed, and no
    /// folder is open twice.
    pub open spec fn wf(self) -> bool {
        &&& distinct_paths(self.expanded_dirs)
        &&& self.buffers.len() > 0
        &&& self.active_buffer < self.buffers.len()
        &&& forall|i: int| 0 <= i < self.buffers.len() ==> (#[trigger] self.buffers[i]).wf()
    }

    /// The active buffer.
    pub open spec fn active(self) -> BufferView {
        self.buffers[self.active_buffer as int]
    }

    /// The active buffer replaced by `b`.
    pub open spec fn with_active(self, b: BufferView) -> AppView {
        AppView { buffers: self.buffers.update(self.active_buffer as int, b), ..self }
    }

    /// Rebuilds the explorer rows from `fs` (see [`tree`]). With a workspace
    /// open, an error reading its root is returned (the selection is then left
    /// alone); otherwise a selection past the last row moves to the last row.
    pub open spec fn refresh(self, fs: Seq<ProbeView>) -> (AppView, Result<(), Seq<char>>) {
        let (rows, r) = tree(fs, self.expanded_dirs, self.workspace_root);
        let s1 = AppView { explorer: rows, ..self };
        if self.workspace_root is None {
            (s1, Ok(()))
        } else if r is Err {
            (s1, r)
        } else if self.explorer_index >= rows.len() {
            (AppView { explorer_index: if rows.len() > 0 { (rows.len() - 1) as nat } else { 0 }, ..s1 }, Ok(()))
        } else {
            (s1, Ok(()))
        }
    }

    /// Refreshes, and on an error says so in the status line.
    pub open spec fn refresh_reporting(self, fs: Seq<ProbeView>) -> AppView {
        let (s, r) = self.refresh(fs);
        match r {
            Err(e) => AppView { status: "Explorer refresh error: "@ + e, ..s },
            Ok(()) => s,
        }
    }

    /// Opens or closes the selected folder; nothing happens on a file or without a selection.
    pub open spec fn toggle_selected_dir(self, fs: Seq<ProbeView>) -> AppView {
        match self.selected() {
            None => self,
            Some(item) => if !item.is_dir {
                self
            } else if has_path(self.expanded_dirs, item.path) {
                AppView {
                    expanded_dirs: self.expanded_dirs.filter(|q: Seq<char>| !same_path(q, item.path)),
                    status: "Collapsed "@ + item.path,
                    ..self
                }.refresh_reporting(fs)
            } else {
                AppView {
                    expanded_dirs: self.expanded_dirs.push(item.path),
                    status: "Expanded "@ + item.path,
                    ..self
                }.refresh_reporting(fs)
            },
        }
    }

    /// Moves the selection by `delta` rows, staying within the rows.
    pub open spec fn move_explorer_selection(self, delta: int) -> AppView {
        if self.explorer.len() == 0 {
            self
        } else {
            let i = self.explorer_index + delta;
            let last = self.explorer.len() - 1;
            AppView {
                explorer_index: (if i < 0 {
                    0
                } else if i > last {
                    last
                } else {
                    i
                }) as nat,
                ..self
            }
        }
    }

    /// Enter in the explorer: a folder is opened or closed; for a file, its
    /// path is handed back to be opened.
    pub open spec fn open_selected_item(self, fs: Seq<ProbeView>) -> (AppView, Option<Seq<char>>) {
        match self.selected() {
            None => (self, None),
            Some(item) => if item.is_dir {
                (self.toggle_selected_dir(fs), None)
            } else {
                (self, Some(item.path))
            },
        }
    }

    /// Left arrow in the explorer: an open selected folder is closed;
    /// otherwise the folder holding the selection is closed and selected.
    pub open spec fn collapse_selected_or_parent(self, fs: Seq<ProbeView>) -> AppView {
        match self.selected() {
            None => self,
            Some(item) => if item.is_dir && has_path(self.expanded_dirs, item.path) {
                AppView {
                    expanded_dirs: self.expanded_dirs.filter(|q: Seq<char>| !same_path(q, item.path)),
                    ..self
                }.refresh(fs).0
            } else {
                match parent_of(item.path) {
                    None => self,
                    Some(par) => {
                        let (s, r) = AppView {
                            expanded_dirs: self.expanded_dirs.filter(|q: Seq<char>| !same_path(q, par)),
                            ..self
                        }.refresh(fs);
                        match r {
                            Err(e) => AppView { status: "Explorer refresh error: "@ + e, ..s },
                            Ok(()) => match first_row(s.explorer, par, 0) {
                                Some(pos) => AppView { explorer_index: pos as nat, ..s },
                                None => s,
                            },
                        }
                    },
                }
            },
        }
    }

    /// Right arrow in the explorer: a selected folder is opened; for a file,
    /// its path is handed back to be opened.
    pub open spec fn expand_selected(self, fs: Seq<ProbeView>) -> (AppView, Option<Seq<char>>) {
        match self.selected() {
            None => (self, None),
            Some(item) => if item.is_dir {
                (
                    AppView {
                        expanded_dirs: if has_path(self.expanded_dirs, item.path) {
                            self.expanded_dirs
                        } else {
                            self.expanded_dirs.push(item.path)
                        },
                        ..self
                    }.refresh(fs).0,
                    None,
                )
            } else {
                self.open_selected_item(fs)
            },
        }
    }

    /// Counts one more untitled buffer and gives its name.
    pub open spec fn next_untitled_name(self) -> (AppView, Seq<char>) {
        (
            AppView { untitled_counter: self.untitled_counter + 1, ..self },
            untitled_name(self.untitled_counter + 1),
        )
    }

    /// Adds an empty untitled buffer and makes it active.
    pub open spec fn new_empty_buffer(self) -> AppView {
        let (s, name) = self.next_untitled_name();
        AppView {
            buffers: s.buffers.push(empty_buffer(name)),
            active_buffer: s.buffers.len(),
            status: "Created "@ + name,
            ..s
        }
    }

    /// Closes the active buffer; the last one left is replaced by an empty
    /// `untitled-1` instead.
    pub open spec fn close_active_buffer(self) -> AppView {
        if self.buffers.len() == 1 {
            AppView {
                buffers: seq![empty_buffer(first_untitled())],
                active_buffer: 0,
                status: "Reset to empty buffer"@,
                ..self
            }
        } else {
            let rest = self.buffers.remove(self.active_buffer as int);
            AppView {
                buffers: rest,
                active_buffer: if self.active_buffer >= rest.len() {
                    (rest.len() - 1) as nat
                } else {
                    self.active_buffer
                },
                status: "Closed active buffer"@,
                ..self
            }
        }
    }

    /// Closes the workspace: no root, nothing expanded, no rows.
    pub open spec fn close_workspace(self) -> AppView {
        AppView {
            workspace_root: None,
            expanded_dirs: seq![],
            explorer: seq![],
            explorer_index: 0,
            explorer_scroll: 0,
            status: "Closed folder"@,
            ..self
        }
    }

    /// Opens a prompt of the given kind with nothing typed yet.
    pub open spec fn start_prompt(self, kind: PromptKind) -> AppView {
        AppView { mode: ModeView::Prompt { kind, input: seq![] }, ..self }
    }

    /// Makes `root` (already made canonical) the workspace, with only the
    /// root expanded, and rebuilds the rows; an error reading the root is returned.
    pub open spec fn open_workspace(self, root: Seq<char>, fs: Seq<ProbeView>) -> (AppView, Result<(), Seq<char>>) {
        let (s, r) = AppView { workspace_root: Some(root), expanded_dirs: seq![root], ..self }.refresh(fs);
        match r {
            Err(e) => (s, Err(e)),
            Ok(()) => (AppView { status: "Opened folder "@ + root, ..s }, Ok(())),
        }
    }

    /// The first buffer at or after `i` that belongs to a file at `p`.
    pub open spec fn buffer_for(self, p: Seq<char>, i: int) -> Option<int>
        decreases self.buffers.len() - i,
    {
        if i < 0 || i >= self.buffers.len() {
            None
        } else if self.buffers[i].path matches Some(q) && same_path(q, p) {
            Some(i)
        } else {
            self.buffer_for(p, i + 1)
        }
    }

    /// Switches to the buffer already open for the file at `p`, if there is one.
    pub open spec fn focus_open_buffer(self, p: Seq<char>) -> (AppView, bool) {
        match self.buffer_for(p, 0) {
            Some(i) => (AppView { active_buffer: i as nat, status: "Focused "@ + p, ..self }, true),
            None => (self, false),
        }
    }

    /// The editor holds nothing but the untouched starting buffer.
    pub open spec fn only_empty(self) -> bool {
        &&& self.buffers.len() == 1
        &&& self.buffers[0].path is None
        &&& self.buffers[0].lines.len() == 1
        &&& self.buffers[0].lines[0].len() == 0
        &&& !self.buffers[0].dirty
    }

    /// Adds buffer `b` for the file at `p` and makes it active; it takes the
    /// place of the untouched starting buffer when that is all there is.
    pub open spec fn open_buffer(self, p: Seq<char>, b: BufferView) -> AppView {
        if self.only_empty() {
            AppView { buffers: self.buffers.update(0, b), active_buffer: 0, status: "Opened "@ + p, ..self }
        } else {
            AppView {
                buffers: self.buffers.push(b),
                active_buffer: self.buffers.len(),
                status: "Opened "@ + p,
                ..self
            }
        }
    }

    /// Records the outcome of writing the active buffer to its own file.
    pub open spec fn finish_save(self, r: Result<(), Seq<char>>) -> AppView {
        match r {
            Ok(()) => AppView {
                status: "Saved "@ + self.active().name,
                ..self.with_active(BufferView { dirty: false, ..self.active() })
            },
            Err(e) => AppView { status: "Save error: "@ + e, ..self },
        }
    }

    /// Records the outcome of writing the active buffer to `p`; after a
    /// success the buffer belongs to `p` and the rows are rebuilt when a
    /// workspace is open.
    pub open spec fn finish_save_as(self, p: Seq<char>, r: Result<(), Seq<char>>, fs: Seq<ProbeView>) -> AppView {
        match r {
            Ok(()) => {
                let s = AppView {
                    status: "Saved "@ + p,
                    ..self.with_active(BufferView {
                        path: Some(p),
                        name: crate::paths::display_name(p),
                        dirty: false,
                        ..self.active()
                    })
                };
                if self.workspace_root is Some {
                    s.refresh(fs).0
                } else {
                    s
                }
            },
            Err(e) => AppView { status: "Save-as error: "@ + e, ..self },
        }
    }

    /// Records the outcome of creating the (empty) file `p`.
    pub open spec fn finish_create_file(self, p: Seq<char>, r: Result<(), Seq<char>>, fs: Seq<ProbeView>) -> AppView {
        match r {
            Ok(()) => AppView { status: "Created file "@ + p, ..self.refresh(fs).0 },
            Err(e) => AppView { status: "Create file error: "@ + e, ..self },
        }
    }

    /// Records the outcome of creating the folder `p`: after a success it is
    /// expanded and the rows are rebuilt.
    pub open spec fn finish_create_folder(self, p: Seq<char>, r: Result<(), Seq<char>>, fs: Seq<ProbeView>) -> AppView {
        match r {
            Ok(()) => {
                let s = AppView {
                    expanded_dirs: if has_path(self.expanded_dirs, p) {
                        self.expanded_dirs
                    } else {
                        self.expanded_dirs.push(p)
                    },
                    ..self
                };
                AppView { status: "Created folder "@ + p, ..s.refresh(fs).0 }
            },
            Err(e) => AppView { status: "Create folder error: "@ + e, ..self },
        }
    }

    /// Records an error in the status line.
    pub open spec fn report(self, what: Failure, e: Seq<char>) -> AppView {
        AppView { status: what.message() + e, ..self }
    }

    /// The explorer row under the selection, if any.
    pub open spec fn selected(self) -> Option<ItemView> {
        if self.explorer_index < self.explorer.len() {
            Some(self.explorer[self.explorer_index as int])
        } else {
            None
        }
    }
}

/// The first row at or after `i` whose path equals `p` (as paths).
pub open spec fn first_row(rows: Seq<ItemView>, p: Seq<char>, i: int) -> Option<int>
    decreases rows.len() - i,
{
    if i < 0 || i >= rows.len() {
        None
    } else if same_path(rows[i].path, p) {
        Some(i)
    } else {
        first_row(rows, p, i + 1)
    }
}

/// What failed, for the status line.
#[derive(Clone, Copy, PartialEq, Eq, Structural, Debug)]
pub enum Failure {
    OpenFile,
    OpenFolder,
    Workspace,
    ExplorerRefresh,
}

impl Failure {
    /// How the status line introduces the error.
    pub open spec fn message(self) -> Seq<char> {
        match self {
            Failure::OpenFile => "Open file error: "@,
            Failure::OpenFolder => "Open folder error: "@,
            Failure::Workspace => "Workspace error: "@,
            Failure::ExplorerRefresh => "Explorer refresh error: "@,
        }
    }

    fn prefix(&self) -> (p: &'static str)
        ensures
            p@ == self.message(),
    {
        match self {
            Failure::OpenFile => "Open file error: ",
            Failure::OpenFolder => "Open folder error: ",
            Failure::Workspace => "Workspace error: ",
            Failure::ExplorerRefresh => "Explorer refresh error: ",
        }
    }
}

/// The paths of the folder rows, in order.
pub open spec fn dir_rows(rows: Seq<ItemView>) -> Seq<Seq<char>>
    decreases rows.len(),
{
    if rows.len() == 0 {
        seq![]
    } else if rows.last().is_dir {
        dir_rows(rows.drop_last()).push(rows.last().path)
    } else {
        dir_rows(rows.drop_last())
    }
}

/// What to probe before a refresh: the root, the expanded folders, the folder rows.
pub open spec fn probe_list(app: AppView) -> Seq<Seq<char>> {
    (match app.workspace_root {
        Some(r) => seq![r],
        None => seq![],
    }) + app.expanded_dirs + dir_rows(app.explorer)
}

/// A fresh empty buffer's view.
pub open spec fn empty_buffer(name: Seq<char>) -> BufferView {
    BufferView {
        name,
        path: None,
        lines: seq![Seq::<u8>::empty()],
        cursor_x: 0,
        cursor_y: 0,
        scroll_y: 0,
        dirty: false,
    }
}

/// The name of the `n`-th untitled buffer.
pub open spec fn untitled_name(n: nat) -> Seq<char> {
    "untitled-"@ + decimal(n)
}

/// The state the editor starts in: one empty untitled buffer, no workspace.
pub open spec fn initial_view() -> AppView {
    AppView {
        workspace_root: None,
        expanded_dirs: seq![],
        explorer: seq![],
        explorer_index: 0,
        explorer_scroll: 0,
        buffers: seq![empty_buffer(first_untitled())],
        active_buffer: 0,
        untitled_counter: 1,
        focus: FocusPane::Editor,
        mode: ModeView::Normal,
        status: "Ready"@,
        should_quit: false,
    }
}

impl App {
    /// The editor as it starts: one empty buffer named `untitled-1`, the editor
    /// pane focused, status "Ready".
    pub fn new() -> (app: App)
        ensures
            app@ == initial_view(),
            app@.wf(),
    {
        let mut buffers: Vec<Buffer> = Vec::new();
        buffers.push(Buffer::empty(string_of("untitled-1")));
        let app = App {
            workspace_root: None,
            expanded_dirs: Vec::new(),
            explorer: Vec::new(),
            explorer_index: 0,
            explorer_scroll: 0,
            buffers,
            active_buffer: 0,
            untitled_counter: 1,
            focus: FocusPane::Editor,
            mode: Mode::Normal,
            status: string_of("Ready"),
            should_quit: false,
        };
        proof {
            assert(app@.buffers =~= seq![empty_buffer(first_untitled())]);
            assert(app@.expanded_dirs =~= seq![]);
            assert(app@.explorer =~= seq![]);
            assert(app@ =~= initial_view());
        }
        app
    }

    /// The buffer being edited.
    pub fn active_buffer(&self) -> (b: &Buffer)
        requires
            self@.wf(),
        ensures
            b@ == self@.active(),
    {
        &self.buffers[self.active_buffer]
    }

    /// The buffer being edited, to change it.
    pub fn active_buffer_mut(&mut self) -> (b: &mut Buffer)
        requires
            old(self)@.wf(),
        ensures
            b@ == old(self)@.active(),
            final(self)@ == old(self)@.with_active(final(b)@),
    {
        let i = self.active_buffer;
        &mut self.buffers[i]
    }

    /// Rebuilds the explorer rows from what `fs` holds of the file system.
    pub fn refresh_explorer(&mut self, fs: &FsSnapshot) -> (r: Result<(), String>)
        requires
            fs@.len() < usize::MAX,
        ensures
            final(self)@ == old(self)@.refresh(fs@).0,
            match r {
                Ok(()) => old(self)@.refresh(fs@).1 is Ok,
                Err(e) => old(self)@.refresh(fs@).1 == Err::<(), Seq<char>>(e@),
            },
    {
        let (items, res) = build_tree(fs, &self.expanded_dirs, &self.workspace_root);
        self.explorer = items;
        if self.workspace_root.is_some() {
            match res {
                Err(e) => {
                    proof {
                        assert(self@ =~= old(self)@.refresh(fs@).0);
                    }
                    return Err(e);
                },
                Ok(()) => {},
            }
            if self.explorer_index >= self.explorer.len() {
                self.explorer_index = if self.explorer.len() > 0 {
                    self.explorer.len() - 1
                } else {
                    0
                };
            }
        }
        proof {
            assert(self@ =~= old(self)@.refresh(fs@).0);
        }
        Ok(())
    }

    /// Refreshes the explorer, reporting an error in the status line.
    fn refresh_reporting(&mut self, fs: &FsSnapshot)
        requires
            fs@.len() < usize::MAX,
        ensures
            final(self)@ == old(self)@.refresh_reporting(fs@),
    {
        if let Err(e) = self.refresh_explorer(fs) {
            self.status = concat("Explorer refresh error: ", e.as_str());
            proof {
                assert(self@ =~= old(self)@.refresh_reporting(fs@));
            }
        }
    }

    /// The explorer row under the selection, if any.
    pub fn selected_item(&self) -> (r: Option<&ExplorerItem>)
        ensures
            match r {
                Some(item) => self@.selected() == Some(item@),
                None => self@.selected() is None,
            },
    {
        if self.explorer_index < self.explorer.len() {
            Some(&self.explorer[self.explorer_index])
        } else {
            None
        }
    }

    /// Opens or closes the selected folder, then rebuilds the rows from `fs`.
    pub fn toggle_selected_dir(&mut self, fs: &FsSnapshot)
        requires
            fs@.len() < usize::MAX,
        ensures
            final(self)@ == old(self)@.toggle_selected_dir(fs@),
    {
        let item = match self.selected_item() {
            Some(item) => item.duplicate(),
            None => {
                return;
            },
        };
        if !item.is_dir {
            return;
        }
        if dirs_contains(&self.expanded_dirs, item.path.as_str()) {
            dirs_remove(&mut self.expanded_dirs, item.path.as_str());
            self.status = concat("Collapsed ", item.path.as_str());
        } else {
            dirs_insert(&mut self.expanded_dirs, item.path.clone());
            self.status = concat("Expanded ", item.path.as_str());
        }
        self.refresh_reporting(fs);
    }

    /// Moves the explorer selection by `delta` rows, clamped to the rows.
    pub fn move_explorer_selection(&mut self, delta: isize)
        requires
            old(self).explorer@.len() <= isize::MAX,
            old(self).explorer_index <= isize::MAX,
            isize::MIN <= old(self).explorer_index + delta <= isize::MAX,
        ensures
            final(self)@ == old(self)@.move_explorer_selection(delta as int),
    {
        if self.explorer.len() == 0 {
            return;
        }
        let idx: isize = self.explorer_index as isize + delta;
        let last: isize = (self.explorer.len() - 1) as isize;
        self.explorer_index = if idx < 0 {
            0
        } else if idx > last {
            last as usize
        } else {
            idx as usize
        };
        proof {
            assert(self@ =~= old(self)@.move_explorer_selection(delta as int));
        }
    }

    /// Enter in the explorer: opens or closes a selected folder; for a file,
    /// returns its path for the caller to open.
    pub fn open_selected_item(&mut self, fs: &FsSnapshot) -> (p: Option<String>)
        requires
            fs@.len() < usize::MAX,
        ensures
            final(self)@ == old(self)@.open_selected_item(fs@).0,
            opt_view(p) == old(self)@.open_selected_item(fs@).1,
    {
        let item = match self.selected_item() {
            Some(item) => item.duplicate(),
            None => {
                return None;
            },
        };
        if item.is_dir {
            self.toggle_selected_dir(fs);
            None
        } else {
            Some(item.path)
        }
    }

    /// The first row from `i` on whose path equals `p`.
    fn find_row(&self, p: &str) -> (r: Option<usize>)
        ensures
            match r {
                Some(i) => first_row(self@.explorer, p@, 0) == Some(i as int),
                None => first_row(self@.explorer, p@, 0) is None,
            },
    {
        let n = self.explorer.len();
        for i in 0..n
            invariant
                n == self@.explorer.len(),
                first_row(self@.explorer, p@, 0) == first_row(self@.explorer, p@, i as int),
        {
            if path_eq(self.explorer[i].path.as_str(), p) {
                return Some(i);
            }
        }
        None
    }

    /// Left arrow in the explorer: closes the selected open folder, or else
    /// the folder the selection is in, and selects that folder.
    pub fn collapse_selected_or_parent(&mut self, fs: &FsSnapshot)
        requires
            fs@.len() < usize::MAX,
        ensures
            final(self)@ == old(self)@.collapse_selected_or_parent(fs@),
    {
        let item = match self.selected_item() {
            Some(item) => item.duplicate(),
            None => {
                return;
            },
        };
        if item.is_dir && dirs_contains(&self.expanded_dirs, item.path.as_str()) {
            dirs_remove(&mut self.expanded_dirs, item.path.as_str());
            let _ = self.refresh_explorer(fs);
            return;
        }
        if let Some(parent_path) = path_parent(item.path.as_str()) {
            dirs_remove(&mut self.expanded_dirs, parent_path.as_str());
            if let Err(e) = self.refresh_explorer(fs) {
                self.status = concat("Explorer refresh error: ", e.as_str());
                return;
            }
            if let Some(pos) = self.find_row(parent_path.as_str()) {
                self.explorer_index = pos;
            }
        }
    }

    /// Right arrow in the explorer: opens a selected folder; for a file,
    /// returns its path for the caller to open.
    pub fn expand_selected(&mut self, fs: &FsSnapshot) -> (p: Option<String>)
        requires
            fs@.len() < usize::MAX,
        ensures
            final(self)@ == old(self)@.expand_selected(fs@).0,
            opt_view(p) == old(self)@.expand_selected(fs@).1,
    {
        let item = match self.selected_item() {
            Some(item) => item.duplicate(),
            None => {
                return None;
            },
        };
        if item.is_dir {
            dirs_insert(&mut self.expanded_dirs, item.path);
            let _ = self.refresh_explorer(fs);
            None
        } else {
            self.open_selected_item(fs)
        }
    }

    /// Counts one more untitled buffer and returns its name, `untitled-<n>`.
    pub fn next_untitled_name(&mut self) -> (name: String)
        requires
            old(self).untitled_counter < usize::MAX,
        ensures
            final(self)@ == old(self)@.next_untitled_name().0,
            name@ == old(self)@.next_untitled_name().1,
    {
        self.untitled_counter = self.untitled_counter + 1;
        let n = decimal_string(self.untitled_counter);
        let name = concat("untitled-", n.as_str());
        proof {
            assert(self@ =~= old(self)@.next_untitled_name().0);
        }
        name
    }

    /// Adds an empty untitled buffer and makes it active.
    pub fn new_empty_buffer(&mut self)
        requires
            old(self).untitled_counter < usize::MAX,
        ensures
            final(self)@ == old(self)@.new_empty_buffer(),
    {
        let name = self.next_untitled_name();
        self.buffers.push(Buffer::empty(name.clone()));
        self.active_buffer = self.buffers.len() - 1;
        self.status = concat("Created ", name.as_str());
        proof {
            assert(self@.buffers =~= old(self)@.new_empty_buffer().buffers);
            assert(self@ =~= old(self)@.new_empty_buffer());
        }
    }

    /// Closes the active buffer (the last one is reset to an empty buffer).
    pub fn close_active_buffer(&mut self)
        requires
            old(self)@.wf(),
        ensures
            final(self)@ == old(self)@.close_active_buffer(),
    {
        if self.buffers.len() == 1 {
            let mut b = Buffer::empty(string_of("untitled-1"));
            self.buffers.set_and_swap(0, &mut b);
            self.active_buffer = 0;
            self.status = string_of("Reset to empty buffer");
            proof {
                assert(self@.buffers =~= old(self)@.close_active_buffer().buffers);
                assert(self@ =~= old(self)@.close_active_buffer());
            }
            return;
        }
        self.buffers.remove(self.active_buffer);
        if self.active_buffer >= self.buffers.len() {
            self.active_buffer = self.buffers.len() - 1;
        }
        self.status = string_of("Closed active buffer");
        proof {
            assert(self@.buffers =~= old(self)@.close_active_buffer().buffers);
            assert(self@ =~= old(self)@.close_active_buffer());
        }
    }

    /// Closes the workspace folder.
    pub fn close_workspace(&mut self)
        ensures
            final(self)@ == old(self)@.close_workspace(),
    {
        self.workspace_root = None;
        self.expanded_dirs.clear();
        self.explorer.clear();
        self.explorer_index = 0;
        self.explorer_scroll = 0;
        self.status = string_of("Closed folder");
        proof {
            assert(self@ =~= old(self)@.close_workspace());
        }
    }

    /// Opens a prompt of kind `kind` with an empty input.
    pub fn start_prompt(&mut self, kind: PromptKind)
        ensures
            final(self)@ == old(self)@.start_prompt(kind),
    {
        self.mode = Mode::Prompt { kind, input: String::new() };
        proof {
            assert(self@ =~= old(self)@.start_prompt(kind));
        }
    }

    /// Makes the (canonical) folder `root` the workspace and lists it from `fs`.
    pub fn open_workspace(&mut self, root: String, fs: &FsSnapshot) -> (r: Result<(), String>)
        requires
            fs@.len() < usize::MAX,
        ensures
            final(self)@ == old(self)@.open_workspace(root@, fs@).0,
            match r {
                Ok(()) => old(self)@.open_workspace(root@, fs@).1 is Ok,
                Err(e) => old(self)@.open_workspace(root@, fs@).1 == Err::<(), Seq<char>>(e@),
            },
    {
        self.workspace_root = Some(root.clone());
        self.expanded_dirs.clear();
        dirs_insert(&mut self.expanded_dirs, root.clone());
        proof {
            assert(self@.expanded_dirs =~= seq![root@]);
            assert(self@ =~= AppView { workspace_root: Some(root@), expanded_dirs: seq![root@], ..old(self)@ });
        }
        self.refresh_explorer(fs)?;
        self.status = concat("Opened folder ", root.as_str());
        proof {
            assert(self@ =~= old(self)@.open_workspace(root@, fs@).0);
        }
        Ok(())
    }

    /// Switches to the buffer already open for the (canonical) path `p`, if any.
    pub fn focus_open_buffer(&mut self, p: &str) -> (found: bool)
        ensures
            final(self)@ == old(self)@.focus_open_buffer(p@).0,
            found == old(self)@.focus_open_buffer(p@).1,
    {
        let n = self.buffers.len();
        for i in 0..n
            invariant
                n == self.buffers@.len(),
                self == old(self),
                self@.buffer_for(p@, 0) == self@.buffer_for(p@, i as int),
        {
            let hit = match &self.buffers[i].path {
                Some(q) => path_eq(q.as_str(), p),
                None => false,
            };
            proof {
                assert(self@.buffers[i as int] == self.buffers@[i as int]@);
            }
            if hit {
                self.active_buffer = i;
                self.status = concat("Focused ", p);
                proof {
                    assert(self@ =~= old(self)@.focus_open_buffer(p@).0);
                }
                return true;
            }
        }
        false
    }

    /// Opens the file at the (canonical) path `p`, whose contents are
    /// `contents`, in a new buffer and makes it active.
    pub fn open_buffer(&mut self, p: String, contents: &str)
        requires
            old(self)@.wf(),
        ensures
            final(self)@ == old(self)@.open_buffer(p@, Buffer::from_file_view(p@, contents@)),
    {
        let buffer = Buffer::from_file(p.clone(), contents);
        let only_empty = self.buffers.len() == 1 && self.buffers[0].path.is_none()
            && self.buffers[0].lines.len() == 1 && self.buffers[0].lines[0].as_str().is_empty()
            && !self.buffers[0].dirty;
        proof {
            assert(self@.buffers[0] == self.buffers@[0]@);
            if self.buffers@.len() == 1 && self.buffers@[0].lines@.len() == 1 {
                assert(self@.buffers[0].lines[0] == crate::text::utf8(self.buffers@[0].lines@[0]@));
                vstd::utf8::encode_utf8_decode_utf8(self.buffers@[0].lines@[0]@);
                assert(crate::text::utf8(Seq::<char>::empty()) =~= Seq::<u8>::empty());
                if self@.buffers[0].lines[0].len() == 0 {
                    crate::text::lemma_utf8_injective(self.buffers@[0].lines@[0]@, Seq::<char>::empty());
                }
            }
        }
        if only_empty {
            let mut b = buffer;
            self.buffers.set_and_swap(0, &mut b);
            self.active_buffer = 0;
        } else {
            self.buffers.push(buffer);
            self.active_buffer = self.buffers.len() - 1;
        }
        self.status = concat("Opened ", p.as_str());
        proof {
            assert(self@.buffers =~= old(self)@.open_buffer(p@, Buffer::from_file_view(p@, contents@)).buffers);
            assert(self@ =~= old(self)@.open_buffer(p@, Buffer::from_file_view(p@, contents@)));
        }
    }

    /// What saving the active buffer asks for: its path and text to be written,
    /// or, for a buffer without a file, a "Save as" prompt (then `None`).
    pub fn save_active(&mut self) -> (w: Option<(String, String)>)
        requires
            old(self)@.wf(),
        ensures
            match w {
                Some((p, t)) => old(self)@.active().path == Some(p@)
                    && t@ == join_lines(strings_view(old(self).buffers@[old(self).active_buffer as int].lines@))
                    && final(self)@ == old(self)@,
                None => old(self)@.active().path is None && final(self)@ == AppView {
                    mode: ModeView::Prompt { kind: PromptKind::SaveAs, input: seq![] },
                    status: "Save as path:"@,
                    ..old(self)@
                },
            },
    {
        let had_path = self.buffers[self.active_buffer].path.is_some();
        if had_path {
            let b = &self.buffers[self.active_buffer];
            proof {
                assert(old(self)@.active() == b@);
            }
            match b.save() {
                Ok(w) => Some(w),
                Err(_) => None,
            }
        } else {
            self.mode = Mode::Prompt { kind: PromptKind::SaveAs, input: String::new() };
            self.status = string_of("Save as path:");
            proof {
                assert(self@ =~= AppView {
                    mode: ModeView::Prompt { kind: PromptKind::SaveAs, input: seq![] },
                    status: "Save as path:"@,
                    ..old(self)@
                });
            }
            None
        }
    }

    /// Records the outcome of writing the active buffer to its own file.
    pub fn finish_save(&mut self, r: Result<(), String>)
        requires
            old(self)@.wf(),
        ensures
            final(self)@ == old(self)@.finish_save(match r {
                Ok(()) => Ok(()),
                Err(e) => Err(e@),
            }),
    {
        match r {
            Ok(()) => {
                let i = self.active_buffer;
                self.buffers[i].mark_saved();
                let name = self.buffers[i].name.clone();
                self.status = concat("Saved ", name.as_str());
            },
            Err(e) => {
                self.status = concat("Save error: ", e.as_str());
            },
        }
        proof {
            assert(self@.buffers =~= old(self)@.finish_save(match r {
                Ok(()) => Ok(()),
                Err(e) => Err(e@),
            }).buffers);
            assert(self@ =~= old(self)@.finish_save(match r {
                Ok(()) => Ok(()),
                Err(e) => Err(e@),
            }));
        }
    }

    /// Records the outcome of writing the active buffer to `p` ("Save as").
    pub fn finish_save_as(&mut self, p: String, r: Result<(), String>, fs: &FsSnapshot)
        requires
            old(self)@.wf(),
            fs@.len() < usize::MAX,
        ensures
            final(self)@ == old(self)@.finish_save_as(p@, match r {
                Ok(()) => Ok(()),
                Err(e) => Err(e@),
            }, fs@),
    {
        match r {
            Ok(()) => {
                let i = self.active_buffer;
                self.buffers[i].save_as(p.clone());
                self.status = concat("Saved ", p.as_str());
                proof {
                    assert(self@ =~= AppView {
                        status: "Saved "@ + p@,
                        ..old(self)@.with_active(BufferView {
                            path: Some(p@),
                            name: crate::paths::display_name(p@),
                            dirty: false,
                            ..old(self)@.active()
                        })
                    });
                }
                if self.workspace_root.is_some() {
                    let _ = self.refresh_explorer(fs);
                }
            },
            Err(e) => {
                self.status = concat("Save-as error: ", e.as_str());
                proof {
                    assert(self@ =~= old(self)@.finish_save_as(p@, Err(e@), fs@));
                }
            },
        }
    }

    /// Records the outcome of creating the empty file `p` (opening it is the
    /// caller's part) and rebuilds the rows.
    pub fn finish_create_file(&mut self, p: &str, r: Result<(), String>, fs: &FsSnapshot)
        requires
            fs@.len() < usize::MAX,
        ensures
            final(self)@ == old(self)@.finish_create_file(p@, match r {
                Ok(()) => Ok(()),
                Err(e) => Err(e@),
            }, fs@),
    {
        match r {
            Ok(()) => {
                let _ = self.refresh_explorer(fs);
                self.status = concat("Created file ", p);
            },
            Err(e) => {
                self.status = concat("Create file error: ", e.as_str());
            },
        }
        proof {
            assert(self@ =~= old(self)@.finish_create_file(p@, match r {
                Ok(()) => Ok(()),
                Err(e) => Err(e@),
            }, fs@));
        }
    }

    /// Records the outcome of creating the folder `p`: it is expanded and the
    /// rows are rebuilt.
    pub fn finish_create_folder(&mut self, p: String, r: Result<(), String>, fs: &FsSnapshot)
        requires
            fs@.len() < usize::MAX,
        ensures
            final(self)@ == old(self)@.finish_create_folder(p@, match r {
                Ok(()) => Ok(()),
                Err(e) => Err(e@),
            }, fs@),
    {
        match r {
            Ok(()) => {
                dirs_insert(&mut self.expanded_dirs, p.clone());
                let _ = self.refresh_explorer(fs);
                self.status = concat("Created folder ", p.as_str());
            },
            Err(e) => {
                self.status = concat("Create folder error: ", e.as_str());
            },
        }
        proof {
            assert(self@ =~= old(self)@.finish_create_folder(p@, match r {
                Ok(()) => Ok(()),
                Err(e) => Err(e@),
            }, fs@));
        }
    }

    /// Shows an error in the status line.
    pub fn report(&mut self, what: Failure, e: &str)
        ensures
            final(self)@ == old(self)@.report(what, e@),
    {
        self.status = concat(what.prefix(), e);
        proof {
            assert(self@ =~= old(self)@.report(what, e@));
        }
    }

    /// The paths the explorer may need probed before an operation: the
    /// workspace root, every expanded folder and every folder row.
    pub fn paths_to_probe(&self) -> (ps: Vec<String>)
        ensures
            paths_view(ps@) == probe_list(self@),
    {
        let mut ps: Vec<String> = Vec::new();
        if let Some(r) = &self.workspace_root {
            ps.push(r.clone());
        }
        proof {
            assert(paths_view(ps@) =~= match self@.workspace_root {
                Some(r) => seq![r],
                None => seq![],
            });
        }
        let ghost start = paths_view(ps@);
        let n = self.expanded_dirs.len();
        for i in 0..n
            invariant
                n == self.expanded_dirs@.len(),
                paths_view(ps@) == start + self@.expanded_dirs.take(i as int),
        {
            let ghost prev = paths_view(ps@);
            ps.push(self.expanded_dirs[i].clone());
            proof {
                assert(paths_view(ps@) =~= prev.push(self@.expanded_dirs[i as int]));
                assert(self@.expanded_dirs.take(i + 1) =~= self@.expanded_dirs.take(i as int).push(self@.expanded_dirs[i as int]));
                assert(paths_view(ps@) =~= start + self@.expanded_dirs.take(i + 1));
            }
        }
        proof {
            assert(self@.expanded_dirs.take(n as int) =~= self@.expanded_dirs);
        }
        let ghost mid = paths_view(ps@);
        let m = self.explorer.len();
        for i in 0..m
            invariant
                m == self.explorer@.len(),
                paths_view(ps@) == mid + dir_rows(self@.explorer.take(i as int)),
        {
            proof {
                assert(self@.explorer.take(i + 1).drop_last() =~= self@.explorer.take(i as int));
                assert(self@.explorer[i as int] == self.explorer@[i as int]@);
            }
            if self.explorer[i].is_dir {
                let ghost prev = paths_view(ps@);
                ps.push(self.explorer[i].path.clone());
                proof {
                    assert(paths_view(ps@) =~= prev.push(self@.explorer[i as int].path));
                    assert(paths_view(ps@) =~= mid + dir_rows(self@.explorer.take(i + 1)));
                }
            }
        }
        proof {
            assert(self@.explorer.take(m as int) =~= self@.explorer);
        }
        ps
    }

    /// Resolves what was typed into a path prompt against this workspace
    /// (see [`crate::paths::resolve`]).
    pub fn resolve_path(&self, input: &str, home: &Option<String>, cwd: &Option<String>) -> (p: String)
        ensures
            p@ == crate::paths::resolve(input@, self@.workspace_root, opt_view(*home), opt_view(*cwd)),
    {
        crate::paths::resolve_path(input, &self.workspace_root, home, cwd)
    }
}

/// What a path given at start-up opens: a folder becomes the workspace; for
/// anything else its parent folder (if it has one) becomes the workspace and
/// the path itself is opened as a file.
pub open spec fn startup_targets(path: Seq<char>, is_dir: bool) -> (Option<Seq<char>>, Option<Seq<char>>) {
    if is_dir {
        (Some(path), None)
    } else {
        (parent_of(path), Some(path))
    }
}

/// The folder to open as the workspace and the file to open for a path given
/// at start-up (see [`startup_targets`]); `is_dir` says whether it is a folder.
pub fn startup_plan(path: &str, is_dir: bool) -> (r: (Option<String>, Option<String>))
    ensures
        (opt_view(r.0), opt_view(r.1)) == startup_targets(path@, is_dir),
{
    if is_dir {
        (Some(string_of(path)), None)
    } else {
        (path_parent(path), Some(string_of(path)))
    }
}

impl App {
    /// Records how opening the start-up workspace went: a failure is shown
    /// only when the path given at start-up was itself a folder (for a file,
    /// a parent folder that cannot be opened is passed over in silence).
    pub fn finish_startup_folder(&mut self, is_dir: bool, r: Result<(), String>)
        ensures
            final(self)@ == match r {
                Err(e) => if is_dir {
                    old(self)@.report(Failure::Workspace, e@)
                } else {
                    old(self)@
                },
                Ok(()) => old(self)@,
            },
    {
        if let Err(e) = r {
            if is_dir {
                self.report(Failure::Workspace, e.as_str());
            }
        }
    }
}

/// Law: opening, creating, focusing, saving and closing buffers, and every
/// workspace and explorer operation, keep the editor well formed: some buffer
/// is always open and active, and every buffer stays well formed.
pub proof fn law_operations_keep_wf(a: AppView, p: Seq<char>, contents: Seq<char>, r: Result<(), Seq<char>>, fs: Seq<ProbeView>, what: Failure)
    requires
        a.wf(),
    ensures
        a.untitled_counter < usize::MAX ==> a.new_empty_buffer().wf(),
        a.close_active_buffer().wf(),
        a.open_buffer(p, Buffer::from_file_view(p, contents)).wf(),
        a.focus_open_buffer(p).0.wf(),
        a.finish_save(r).wf(),
        a.finish_save_as(p, r, fs).wf(),
        a.finish_create_file(p, r, fs).wf(),
        a.finish_create_folder(p, r, fs).wf(),
        a.open_workspace(p, fs).0.wf(),
        a.close_workspace().wf(),
        a.toggle_selected_dir(fs).wf(),
        a.collapse_selected_or_parent(fs).wf(),
        a.expand_selected(fs).0.wf(),
        a.report(what, p).wf(),
{
    let n = a.buffers.len();
    if a.untitled_counter < usize::MAX {
        let a1 = a.new_empty_buffer();
        assert forall|i: int| 0 <= i < a1.buffers.len() implies (#[trigger] a1.buffers[i]).wf() by {
            if i < n {
                assert(a1.buffers[i] == a.buffers[i]);
            }
        }
    }
    let a2 = a.close_active_buffer();
    if n > 1 {
        assert forall|i: int| 0 <= i < a2.buffers.len() implies (#[trigger] a2.buffers[i]).wf() by {
            if i < a.active_buffer {
                assert(a2.buffers[i] == a.buffers[i]);
            } else {
                assert(a2.buffers[i] == a.buffers[i + 1]);
            }
        }
    }
    crate::buffer::lemma_from_file_wf(p, contents);
    let b = Buffer::from_file_view(p, contents);
    let a3 = a.open_buffer(p, b);
    assert forall|i: int| 0 <= i < a3.buffers.len() implies (#[trigger] a3.buffers[i]).wf() by {
        if i < n && !(a.only_empty() && i == 0) {
            assert(a3.buffers[i] == a.buffers[i]);
        }
    }
    lemma_buffer_for_range(a, p, 0);
    let act = a.active();
    assert(act.wf());
    let a4 = a.finish_save(r);
    assert forall|i: int| 0 <= i < a4.buffers.len() implies (#[trigger] a4.buffers[i]).wf() by {
        if i != a.active_buffer {
            assert(a4.buffers[i] == a.buffers[i]);
        }
    }
    let a5 = AppView {
        status: "Saved "@ + p,
        ..a.with_active(BufferView { path: Some(p), name: crate::paths::display_name(p), dirty: false, ..act })
    };
    assert forall|i: int| 0 <= i < a5.buffers.len() implies (#[trigger] a5.buffers[i]).wf() by {
        if i != a.active_buffer {
            assert(a5.buffers[i] == a.buffers[i]);
        }
    }
    assert(a5.refresh(fs).0.buffers == a5.buffers);
    if !has_path(a.expanded_dirs, p) {
        lemma_distinct_push(a.expanded_dirs, p);
    }
    assert(distinct_paths(seq![p]));
    if let Some(item) = a.selected() {
        if !has_path(a.expanded_dirs, item.path) {
            lemma_distinct_push(a.expanded_dirs, item.path);
        }
        lemma_distinct_filter(a.expanded_dirs, |q: Seq<char>| !same_path(q, item.path));
        if let Some(par) = parent_of(item.path) {
            lemma_distinct_filter(a.expanded_dirs, |q: Seq<char>| !same_path(q, par));
        }
    }
}

proof fn lemma_buffer_for_range(a: AppView, p: Seq<char>, i: int)
    ensures
        a.buffer_for(p, i) matches Some(k) ==> 0 <= k < a.buffers.len() && (a.buffers[k].path matches Some(
            q,
        ) && same_path(q, p)),
    decreases a.buffers.len() - i,
{
    if 0 <= i < a.buffers.len() && !(a.buffers[i].path matches Some(q) && same_path(q, p)) {
        lemma_buffer_for_range(a, p, i + 1);
    }
}

/// Law: opening a file that is open already switches to its buffer and
/// adds none; the buffers themselves are left as they were.
pub proof fn law_reopen_focuses(a: AppView, p: Seq<char>)
    requires
        a.focus_open_buffer(p).1,
    ensures
        a.focus_open_buffer(p).0.buffers == a.buffers,
        a.focus_open_buffer(p).0.active_buffer < a.buffers.len(),
        a.focus_open_buffer(p).0.active().path matches Some(q) && same_path(q, p),
{
    lemma_buffer_for_range(a, p, 0);
}

/// Law: after a refresh that read the workspace without error, the
/// selection is on a row (or there are no rows at all).
pub proof fn law_refresh_keeps_selection_on_rows(a: AppView, fs: Seq<ProbeView>)
    requires
        a.workspace_root is Some,
        a.refresh(fs).1 is Ok,
    ensures
        a.refresh(fs).0.explorer.len() == 0 || a.refresh(fs).0.explorer_index < a.refresh(fs).0.explorer.len(),
{
}

/// Law: moving the explorer selection keeps it on a row.
pub proof fn law_selection_stays_on_rows(a: AppView, delta: int)
    requires
        a.explorer.len() > 0,
    ensures
        a.move_explorer_selection(delta).explorer_index < a.explorer.len(),
{
}

proof fn lemma_filter_keeps_all(s: Seq<Seq<char>>, pred: spec_fn(Seq<char>) -> bool)
    requires
        forall|k: int| 0 <= k < s.len() ==> pred(#[trigger] s[k]),
    ensures
        s.filter(pred) == s,
    decreases s.len(),
{
    reveal(Seq::filter);
    if s.len() > 0 {
        assert forall|k: int| 0 <= k < s.drop_last().len() implies pred(#[trigger] s.drop_last()[k]) by {
            assert(s.drop_last()[k] == s[k]);
        }
        lemma_filter_keeps_all(s.drop_last(), pred);
        assert(pred(s[s.len() - 1]));
        assert(s.drop_last().push(s.last()) =~= s);
    }
}

/// Law: toggling the selected folder in the explorer twice gives back the
/// explorer as it was: the same folders are open, the same rows are shown and
/// the same row is selected; only the status line tells what happened. Opened
/// and then closed, even the list of open folders is as it was. This holds
/// when the rows were built without error from the same reading of the disk
/// and no row above the selected folder is a folder at the same path.
pub proof fn law_toggle_folder_twice(a: AppView, fs: Seq<ProbeView>)
    requires
        tree(fs, a.expanded_dirs, a.workspace_root) == (a.explorer, Ok::<(), Seq<char>>(())),
        a.selected() matches Some(item) && item.is_dir,
        forall|j: int|
            0 <= j < a.explorer_index ==> !folder_at(a.selected()->0.path, #[trigger] a.explorer[j]),
    ensures
        same_folders(a.toggle_selected_dir(fs).toggle_selected_dir(fs).expanded_dirs, a.expanded_dirs),
        a.toggle_selected_dir(fs).toggle_selected_dir(fs) == (AppView {
            expanded_dirs: a.toggle_selected_dir(fs).toggle_selected_dir(fs).expanded_dirs,
            status: a.toggle_selected_dir(fs).toggle_selected_dir(fs).status,
            ..a
        }),
        !has_path(a.expanded_dirs, a.selected()->0.path) ==> a.toggle_selected_dir(fs).toggle_selected_dir(fs)
            == (AppView { status: "Collapsed "@ + a.selected()->0.path, ..a }),
{
    let p = a.selected()->0.path;
    let i = a.explorer_index as int;
    let exp = a.expanded_dirs;
    let pred = |q: Seq<char>| !same_path(q, p);
    let opening = !has_path(exp, p);
    let e1 = if opening {
        exp.push(p)
    } else {
        exp.filter(pred)
    };
    assert forall|x: Seq<char>| !same_path(p, x) implies has_path(exp, x) == has_path(e1, x) by {
        lemma_has_path_push(exp, p, x);
        lemma_has_path_remove(exp, p, x);
    }
    assert forall|j: int| 0 <= j < i implies !folder_at(p, #[trigger] tree(fs, exp, a.workspace_root).0[j]) by {
        assert(tree(fs, exp, a.workspace_root).0[j] == a.explorer[j]);
    }
    lemma_tree_prefix(fs, exp, e1, a.workspace_root, p, i);
    let rows1 = tree(fs, e1, a.workspace_root).0;
    assert(rows1[i] == a.explorer[i]) by {
        assert(rows1.take(i + 1)[i] == a.explorer.take(i + 1)[i]);
    }
    let a1 = a.toggle_selected_dir(fs);
    assert(a1.explorer == rows1);
    assert(a1.explorer_index == a.explorer_index);
    assert(a1.expanded_dirs == e1);
    let a2 = a1.toggle_selected_dir(fs);
    if opening {
        assert(has_path(e1, p)) by {
            assert(e1[exp.len() as int] == p);
        }
        assert forall|k: int| 0 <= k < exp.len() implies pred(#[trigger] exp[k]) by {
            if same_path(exp[k], p) {
                assert(has_path(exp, p));
            }
        }
        lemma_filter_keeps_all(exp, pred);
        assert(e1.filter(pred) == exp) by {
            reveal_with_fuel(Seq::filter, 1);
            assert(e1.drop_last() =~= exp);
        }
        assert(a2 =~= (AppView { status: "Collapsed "@ + p, ..a }));
    } else {
        lemma_has_path_remove(exp, p, p);
        assert(!has_path(e1, p));
        let e2 = e1.push(p);
        assert forall|x: Seq<char>| has_path(e2, x) == has_path(exp, x) by {
            lemma_has_path_push(e1, p, x);
            lemma_has_path_remove(exp, p, x);
            if same_path(p, x) {
                let k = choose|k: int| 0 <= k < exp.len() && same_path(#[trigger] exp[k], p);
                assert(same_path(exp[k], x));
            }
        }
        law_tree_same_folders(fs, exp, e2, a.workspace_root);
        assert(a2.expanded_dirs == e2);
        assert(a2 =~= (AppView { expanded_dirs: e2, status: "Expanded "@ + p, ..a }));
    }
}

/// Law: creating a new empty buffer and closing it again gives back the
/// buffers as they were.
pub proof fn law_new_then_close_buffer(a: AppView)
    requires
        a.wf(),
    ensures
        a.new_empty_buffer().close_active_buffer().buffers == a.buffers,
{
    let b = a.new_empty_buffer();
    assert(b.buffers.remove(b.active_buffer as int) =~= a.buffers);
}

/// Law: moving the selection down one row and back up (or up and back down)
/// gives back the editor as it was, when the first move was not stopped by
/// the end of the rows.
pub proof fn law_selection_down_then_up(a: AppView)
    ensures
        a.explorer_index + 1 < a.explorer.len() ==> a.move_explorer_selection(1).move_explorer_selection(-1) == a,
        1 <= a.explorer_index < a.explorer.len() ==> a.move_explorer_selection(-1).move_explorer_selection(1) == a,
{
    if a.explorer_index + 1 < a.explorer.len() {
        assert(a.move_explorer_selection(1).move_explorer_selection(-1) =~= a);
    }
    if 1 <= a.explorer_index < a.explorer.len() {
        assert(a.move_explorer_selection(-1).move_explorer_selection(1) =~= a);
    }
}

/// Every buffer without a file is named `untitled-k` for some `k` counted so
/// far, and no two of them share a name.
pub open spec fn untitled_names_ok(a: AppView) -> bool {
    &&& forall|i: int|
        0 <= i < a.buffers.len() && a.buffers[i].path is None ==> exists|k: nat|
            1 <= k <= a.untitled_counter && (#[trigger] a.buffers[i]).name == untitled_name(k)
    &&& forall|i: int, j: int|
        0 <= i < a.buffers.len() && 0 <= j < a.buffers.len() && i != j && a.buffers[i].path is None
            && a.buffers[j].path is None ==> (#[trigger] a.buffers[i]).name != (#[trigger] a.buffers[j]).name
}

/// Different counts give different untitled names.
proof fn lemma_untitled_distinct(n: nat, m: nat)
    requires
        n != m,
    ensures
        untitled_name(n) != untitled_name(m),
{
    reveal_strlit("untitled-");
    if untitled_name(n) == untitled_name(m) {
        assert(untitled_name(n).skip(9) =~= decimal(n));
        assert(untitled_name(m).skip(9) =~= decimal(m));
        crate::text::law_decimal_injective(n, m);
    }
}

/// Law: untitled buffers keep distinct names: the editor starts that way,
/// and a new empty buffer gets a name no other untitled buffer has.
pub proof fn law_untitled_names_distinct(a: AppView)
    ensures
        untitled_names_ok(initial_view()),
        untitled_names_ok(a) ==> untitled_names_ok(a.new_empty_buffer()),
{
    let a0 = initial_view();
    reveal_strlit("untitled-1");
    reveal_strlit("untitled-");
    assert(untitled_name(1) =~= first_untitled()) by {
        assert(decimal(1) =~= seq!['1']);
    }
    assert(a0.buffers[0].name == untitled_name(1));
    if untitled_names_ok(a) {
        let b = a.new_empty_buffer();
        let n = a.buffers.len() as int;
        let c = a.untitled_counter + 1;
        assert(b.buffers[n].name == untitled_name(c));
        assert forall|i: int|
            0 <= i < b.buffers.len() && b.buffers[i].path is None implies exists|k: nat|
                1 <= k <= b.untitled_counter && (#[trigger] b.buffers[i]).name == untitled_name(k) by {
            if i < n {
                assert(b.buffers[i] == a.buffers[i]);
                let k = choose|k: nat| 1 <= k <= a.untitled_counter && a.buffers[i].name == untitled_name(k);
                assert(1 <= k <= b.untitled_counter && b.buffers[i].name == untitled_name(k));
            } else {
                assert(1 <= c <= b.untitled_counter && b.buffers[i].name == untitled_name(c));
            }
        }
        assert forall|i: int, j: int|
            0 <= i < b.buffers.len() && 0 <= j < b.buffers.len() && i != j && b.buffers[i].path is None
                && b.buffers[j].path is None implies (#[trigger] b.buffers[i]).name != (
            #[trigger] b.buffers[j]).name by {
            if i < n && j < n {
                assert(b.buffers[i] == a.buffers[i] && b.buffers[j] == a.buffers[j]);
            } else if i < n {
                assert(b.buffers[i] == a.buffers[i]);
                let k = choose|k: nat| 1 <= k <= a.untitled_counter && a.buffers[i].name == untitled_name(k);
                lemma_untitled_distinct(k, c);
            } else {
                assert(b.buffers[j] == a.buffers[j]);
                let k = choose|k: nat| 1 <= k <= a.untitled_counter && a.buffers[j].name == untitled_name(k);
                lemma_untitled_distinct(k, c);
            }
        }
    }
}

/// Law: opening a file keeps every buffer that belongs to a file or holds
/// edits; only the untouched starting buffer (no file, one empty line, no
/// unsaved edits, and nothing else open) is replaced. Either way the new
/// buffer is the active one.
pub proof fn law_open_keeps_other_buffers(a: AppView, p: Seq<char>, b: BufferView)
    requires
        a.wf(),
    ensures
        a.open_buffer(p, b).active() == b,
        a.open_buffer(p, b).active_buffer < a.open_buffer(p, b).buffers.len(),
        (a.buffers.len() != 1 || a.buffers[0].path is Some || a.buffers[0].dirty
            || a.buffers[0].lines != seq![Seq::<u8>::empty()]) ==> a.open_buffer(p, b).buffers
            == a.buffers.push(b),
        a.open_buffer(p, b).buffers.len() == a.buffers.len() ==> (a.buffers.len() == 1
            && a.buffers[0].path is None && !a.buffers[0].dirty && a.buffers[0].lines == seq![
            Seq::<u8>::empty()]),
{
    if a.buffers.len() == 1 && a.buffers[0].lines.len() == 1 && a.buffers[0].lines[0].len() == 0 {
        assert(a.buffers[0].lines[0] =~= Seq::<u8>::empty());
        assert(a.buffers[0].lines =~= seq![Seq::<u8>::empty()]);
    }
}

proof fn lemma_first_row_found(rows: Seq<ItemView>, p: Seq<char>, i: int, j: int)
    requires
        0 <= i <= j < rows.len(),
        same_path(rows[j].path, p),
    ensures
        first_row(rows, p, i) matches Some(k) && i <= k <= j && same_path(rows[k].path, p),
    decreases j - i,
{
    if !same_path(rows[i].path, p) {
        lemma_first_row_found(rows, p, i + 1, j);
    }
}

/// Law: Left in the explorer closes a folder. On an open folder it closes
/// that folder; on anything else (a file, or a folder that is not open) it
/// closes the folder holding it, and when that folder is shown and the
/// rows were read without error, selects it. No other folder is opened or
/// closed.
pub proof fn law_left_closes_a_folder(a: AppView, fs: Seq<ProbeView>)
    requires
        a.selected() is Some,
    ensures
        ({
            let item = a.selected()->0;
            let res = a.collapse_selected_or_parent(fs);
            &&& (item.is_dir && has_path(a.expanded_dirs, item.path)) ==> {
                &&& !has_path(res.expanded_dirs, item.path)
                &&& forall|x: Seq<char>|
                    !same_path(item.path, x) ==> has_path(res.expanded_dirs, x) == has_path(
                        a.expanded_dirs,
                        x,
                    )
            }
            &&& (!(item.is_dir && has_path(a.expanded_dirs, item.path)) && parent_of(item.path) is Some)
                ==> {
                let par = parent_of(item.path)->0;
                &&& !has_path(res.expanded_dirs, par)
                &&& forall|x: Seq<char>|
                    !same_path(par, x) ==> has_path(res.expanded_dirs, x) == has_path(a.expanded_dirs, x)
                &&& (tree(fs, res.expanded_dirs, res.workspace_root).1 is Ok && exists|j: int|
                    0 <= j < res.explorer.len() && same_path(#[trigger] res.explorer[j].path, par))
                    ==> res.explorer_index < res.explorer.len() && same_path(
                    res.explorer[res.explorer_index as int].path,
                    par,
                )
            }
        }),
{
    let item = a.selected()->0;
    let res = a.collapse_selected_or_parent(fs);
    if item.is_dir && has_path(a.expanded_dirs, item.path) {
        assert forall|x: Seq<char>| true implies has_path(res.expanded_dirs, x) == (has_path(
            a.expanded_dirs,
            x,
        ) && !same_path(item.path, x)) by {
            lemma_has_path_remove(a.expanded_dirs, item.path, x);
        }
    } else if parent_of(item.path) is Some {
        let par = parent_of(item.path)->0;
        assert forall|x: Seq<char>| true implies has_path(res.expanded_dirs, x) == (has_path(
            a.expanded_dirs,
            x,
        ) && !same_path(par, x)) by {
            lemma_has_path_remove(a.expanded_dirs, par, x);
        }
        if tree(fs, res.expanded_dirs, res.workspace_root).1 is Ok && exists|j: int|
            0 <= j < res.explorer.len() && same_path(#[trigger] res.explorer[j].path, par) {
            let j = choose|j: int| 0 <= j < res.explorer.len() && same_path(#[trigger] res.explorer[j].path, par);
            lemma_first_row_found(res.explorer, par, 0, j);
        }
    }
}

/// Law: Right (or Enter's folder case of it) on a selected folder leaves it
/// open and closes nothing, so pressing it again changes no open folder.
pub proof fn law_right_opens_a_folder(a: AppView, fs: Seq<ProbeView>)
    requires
        a.selected() matches Some(item) && item.is_dir,
    ensures
        has_path(a.expand_selected(fs).0.expanded_dirs, a.selected()->0.path),
        forall|x: Seq<char>| has_path(a.expanded_dirs, x) ==> has_path(a.expand_selected(fs).0.expanded_dirs, x),
        a.expand_selected(fs).1 is None,
{
    let item = a.selected()->0;
    assert forall|x: Seq<char>| true implies (has_path(a.expanded_dirs.push(item.path), x) == (has_path(
        a.expanded_dirs,
        x,
    ) || same_path(item.path, x))) by {
        lemma_has_path_push(a.expanded_dirs, item.path, x);
    }
}

/// Law: toggling the selected folder opens it when it is closed and closes
/// it when it is open; no other folder changes.
pub proof fn law_toggle_flips_the_folder(a: AppView, fs: Seq<ProbeView>)
    requires
        a.selected() matches Some(item) && item.is_dir,
    ensures
        has_path(a.toggle_selected_dir(fs).expanded_dirs, a.selected()->0.path) == !has_path(
            a.expanded_dirs,
            a.selected()->0.path,
        ),
        forall|x: Seq<char>|
            !same_path(a.selected()->0.path, x) ==> has_path(a.toggle_selected_dir(fs).expanded_dirs, x)
                == has_path(a.expanded_dirs, x),
{
    let p = a.selected()->0.path;
    assert forall|x: Seq<char>| true implies has_path(a.expanded_dirs.push(p), x) == (has_path(
        a.expanded_dirs,
        x,
    ) || same_path(p, x)) && has_path(a.expanded_dirs.filter(|q: Seq<char>| !same_path(q, p)), x) == (
    has_path(a.expanded_dirs, x) && !same_path(p, x)) by {
        lemma_has_path_push(a.expanded_dirs, p, x);
        lemma_has_path_remove(a.expanded_dirs, p, x);
    }
    lemma_has_path_push(a.expanded_dirs, p, p);
    lemma_has_path_remove(a.expanded_dirs, p, p);
}

/// Law: moving the selection by `delta` lands `delta` rows away when that
/// row exists, else on the first or last row; nothing else changes.
pub proof fn law_selection_moves_by_delta(a: AppView, delta: int)
    requires
        a.explorer.len() > 0,
    ensures
        0 <= a.explorer_index + delta < a.explorer.len() ==> a.move_explorer_selection(delta).explorer_index
            == a.explorer_index + delta,
        a.explorer_index + delta < 0 ==> a.move_explorer_selection(delta).explorer_index == 0,
        a.explorer_index + delta >= a.explorer.len() ==> a.move_explorer_selection(delta).explorer_index
            == a.explorer.len() - 1,
        a.move_explorer_selection(delta) == (AppView {
            explorer_index: a.move_explorer_selection(delta).explorer_index,
            ..a
        }),
{
}

/// Law: a new empty buffer is added after the others and made active, with
/// one empty line, no file and no edits; the other buffers are kept.
pub proof fn law_new_buffer_is_empty_and_active(a: AppView)
    requires
        a.wf(),
    ensures
        a.new_empty_buffer().buffers.len() == a.buffers.len() + 1,
        a.new_empty_buffer().buffers.take(a.buffers.len() as int) == a.buffers,
        a.new_empty_buffer().active_buffer == a.buffers.len(),
        a.new_empty_buffer().active().path is None,
        a.new_empty_buffer().active().lines == seq![Seq::<u8>::empty()],
        !a.new_empty_buffer().active().dirty,
        a.new_empty_buffer().active().cursor_x == 0 && a.new_empty_buffer().active().cursor_y == 0,
        a.new_empty_buffer().untitled_counter == a.untitled_counter + 1,
{
    assert(a.new_empty_buffer().buffers.take(a.buffers.len() as int) =~= a.buffers);
}

/// Law: a successful save leaves the active buffer's text as it was and
/// marks it saved; a failed one changes no buffer and says so in the status
/// line. No other buffer is touched either way.
pub proof fn law_save_outcome(a: AppView, r: Result<(), Seq<char>>)
    requires
        a.wf(),
    ensures
        a.finish_save(r).buffers.len() == a.buffers.len(),
        a.finish_save(r).active_buffer == a.active_buffer,
        forall|i: int|
            0 <= i < a.buffers.len() && i != a.active_buffer ==> #[trigger] a.finish_save(r).buffers[i]
                == a.buffers[i],
        a.finish_save(r).active().lines == a.active().lines,
        a.finish_save(r).active().path == a.active().path,
        r is Ok ==> !a.finish_save(r).active().dirty,
        r is Err ==> a.finish_save(r).buffers == a.buffers && a.finish_save(r).status == "Save error: "@
            + r->Err_0,
{
}

} // verus!
