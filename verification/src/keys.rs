//! Keyboard handling: what each key does in prompt mode, the global
//! shortcuts, and the keys of the explorer and editor panes. What needs the
//! file system is handed back as an [`Effect`] for the caller to carry out.
use vstd::prelude::*;
use crate::app::{App, AppView, FocusPane, Mode, ModeView, PromptKind};
use crate::buffer::{Buffer, BufferView, lemma_insert_ascii_keeps_ok, law_edits_keep_wf};
use crate::explorer::FsSnapshot;
use crate::explorer::ProbeView;
use crate::app::opt_view;
use crate::text::{string_of, join_lines, strings_view, string_push};
use crate::paths::{trim, resolve, trim_str, resolve_path};

verus! {

/// The keys the editor tells apart.
#[derive(Clone, Copy, PartialEq, Eq, Structural, Debug)]
pub enum KeyCode {
    Char(char),
    F(u8),
    Esc,
    Enter,
    Backspace,
    Left,
    Right,
    Up,
    Down,
    Tab,
    Other,
}

/// A key press: the key and whether Control was held.
#[derive(Clone, Copy, PartialEq, Eq, Structural, Debug)]
pub struct Key {
    pub code: KeyCode,
    pub ctrl: bool,
}

/// The commands reachable from anywhere (outside a prompt).
#[derive(Clone, Copy, PartialEq, Eq, Structural, Debug)]
pub enum Command {
    Quit,
    Save,
    SaveAs,
    OpenFile,
    OpenFolder,
    CloseFolder,
    NewFile,
    NewFolder,
    CloseBuffer,
    ToggleFocus,
}

/// The command bound to Control and a letter.
pub open spec fn ctrl_command(c: char) -> Option<Command> {
    if c == 'q' {
        Some(Command::Quit)
    } else if c == 's' {
        Some(Command::Save)
    } else if c == 'a' {
        Some(Command::SaveAs)
    } else if c == 'o' {
        Some(Command::OpenFile)
    } else if c == 'g' {
        Some(Command::OpenFolder)
    } else if c == 'x' {
        Some(Command::CloseFolder)
    } else if c == 'n' {
        Some(Command::NewFile)
    } else if c == 'm' {
        Some(Command::NewFolder)
    } else if c == 'w' {
        Some(Command::CloseBuffer)
    } else if c == 'b' {
        Some(Command::ToggleFocus)
    } else {
        None
    }
}

/// The command bound to a function key.
pub open spec fn f_command(n: u8) -> Option<Command> {
    if n == 1 {
        Some(Command::OpenFile)
    } else if n == 2 {
        Some(Command::OpenFolder)
    } else if n == 3 {
        Some(Command::NewFile)
    } else if n == 4 {
        Some(Command::NewFolder)
    } else if n == 5 {
        Some(Command::Save)
    } else if n == 6 {
        Some(Command::SaveAs)
    } else if n == 7 {
        Some(Command::CloseBuffer)
    } else if n == 8 {
        Some(Command::CloseFolder)
    } else if n == 9 {
        Some(Command::ToggleFocus)
    } else if n == 10 {
        Some(Command::Quit)
    } else {
        None
    }
}

/// The command a key press triggers outside a prompt: a Control shortcut
/// first, then a function key.
pub open spec fn command_of(key: Key) -> Option<Command> {
    match key.code {
        KeyCode::Char(c) => if key.ctrl {
            ctrl_command(c)
        } else {
            None
        },
        KeyCode::F(n) => f_command(n),
        _ => None,
    }
}

/// `command_of` computed.
pub fn key_command(key: Key) -> (c: Option<Command>)
    ensures
        c == command_of(key),
{
    match key.code {
        KeyCode::Char(c) => if key.ctrl {
            if c == 'q' {
                Some(Command::Quit)
            } else if c == 's' {
                Some(Command::Save)
            } else if c == 'a' {
                Some(Command::SaveAs)
            } else if c == 'o' {
                Some(Command::OpenFile)
            } else if c == 'g' {
                Some(Command::OpenFolder)
            } else if c == 'x' {
                Some(Command::CloseFolder)
            } else if c == 'n' {
                Some(Command::NewFile)
            } else if c == 'm' {
                Some(Command::NewFolder)
            } else if c == 'w' {
                Some(Command::CloseBuffer)
            } else if c == 'b' {
                Some(Command::ToggleFocus)
            } else {
                None
            }
        } else {
            None
        },
        KeyCode::F(n) => if n == 1 {
            Some(Command::OpenFile)
        } else if n == 2 {
            Some(Command::OpenFolder)
        } else if n == 3 {
            Some(Command::NewFile)
        } else if n == 4 {
            Some(Command::NewFolder)
        } else if n == 5 {
            Some(Command::Save)
        } else if n == 6 {
            Some(Command::SaveAs)
        } else if n == 7 {
            Some(Command::CloseBuffer)
        } else if n == 8 {
            Some(Command::CloseFolder)
        } else if n == 9 {
            Some(Command::ToggleFocus)
        } else if n == 10 {
            Some(Command::Quit)
        } else {
            None
        },
        _ => None,
    }
}

/// Work a key press leaves to the caller, which reads and writes files.
pub enum Effect {
    /// Nothing to do.
    Nothing,
    /// Open the file at this path (chosen in the explorer); a failure is
    /// reported with `Failure::OpenFile`.
    OpenFile(String),
    /// Write this text to this path, then report with `App::finish_save`.
    Save(String, String),
    /// Carry out the prompt of this kind with this input (`App::execute_prompt`).
    RunPrompt(PromptKind, String),
}

/// The abstract content of an effect.
pub enum EffectView {
    Nothing,
    OpenFile(Seq<char>),
    Save(Seq<char>, Seq<char>),
    RunPrompt(PromptKind, Seq<char>),
}

impl View for Effect {
    type V = EffectView;

    open spec fn view(&self) -> EffectView {
        match self {
            Effect::Nothing => EffectView::Nothing,
            Effect::OpenFile(p) => EffectView::OpenFile(p@),
            Effect::Save(p, t) => EffectView::Save(p@, t@),
            Effect::RunPrompt(k, i) => EffectView::RunPrompt(*k, i@),
        }
    }
}

/// What a finished prompt asks the caller to do with the resolved path.
pub enum PromptAction {
    /// The input was blank: the prompt was cancelled.
    Cancelled,
    /// Open the file (then `App::finish_prompt(Failure::OpenFile, ..)`).
    OpenFile(String),
    /// Open the folder as the workspace (canonicalise, `App::open_workspace`,
    /// then `App::finish_prompt(Failure::OpenFolder, ..)`).
    OpenFolder(String),
    /// Create the empty file, open it, then `App::finish_create_file`.
    NewFile(String),
    /// Create the folder, then `App::finish_create_folder`.
    NewFolder(String),
    /// Write this text to the path, then `App::finish_save_as`.
    SaveAs(String, String),
}

/// The abstract content of a prompt action.
pub enum PromptActionView {
    Cancelled,
    OpenFile(Seq<char>),
    OpenFolder(Seq<char>),
    NewFile(Seq<char>),
    NewFolder(Seq<char>),
    SaveAs(Seq<char>, Seq<char>),
}

impl View for PromptAction {
    type V = PromptActionView;

    open spec fn view(&self) -> PromptActionView {
        match self {
            PromptAction::Cancelled => PromptActionView::Cancelled,
            PromptAction::OpenFile(p) => PromptActionView::OpenFile(p@),
            PromptAction::OpenFolder(p) => PromptActionView::OpenFolder(p@),
            PromptAction::NewFile(p) => PromptActionView::NewFile(p@),
            PromptAction::NewFolder(p) => PromptActionView::NewFolder(p@),
            PromptAction::SaveAs(p, t) => PromptActionView::SaveAs(p@, t@),
        }
    }
}

/// Four spaces typed at the cursor (what Tab does).
pub open spec fn insert_tab(b: BufferView) -> BufferView {
    b.insert_char(' ').insert_char(' ').insert_char(' ').insert_char(' ')
}

impl AppView {
    /// Ctrl+S / F5: a buffer with a file is written to it; one without opens a "Save as" prompt.
    pub open spec fn save_active(self) -> (AppView, EffectView) {
        match self.active().path {
            Some(p) => (self, EffectView::Save(p, self.active().text())),
            None => (
                AppView {
                    mode: ModeView::Prompt { kind: PromptKind::SaveAs, input: seq![] },
                    status: "Save as path:"@,
                    ..self
                },
                EffectView::Nothing,
            ),
        }
    }

    /// What a global command does.
    pub open spec fn run_command(self, cmd: Command) -> (AppView, EffectView) {
        match cmd {
            Command::Quit => (AppView { should_quit: true, ..self }, EffectView::Nothing),
            Command::Save => self.save_active(),
            Command::SaveAs => (self.start_prompt(PromptKind::SaveAs), EffectView::Nothing),
            Command::OpenFile => (self.start_prompt(PromptKind::OpenFile), EffectView::Nothing),
            Command::OpenFolder => (self.start_prompt(PromptKind::OpenFolder), EffectView::Nothing),
            Command::CloseFolder => (self.close_workspace(), EffectView::Nothing),
            Command::NewFile => (self.start_prompt(PromptKind::NewFile), EffectView::Nothing),
            Command::NewFolder => (self.start_prompt(PromptKind::NewFolder), EffectView::Nothing),
            Command::CloseBuffer => (self.close_active_buffer(), EffectView::Nothing),
            Command::ToggleFocus => (
                AppView {
                    focus: if self.focus == FocusPane::Editor {
                        FocusPane::Explorer
                    } else {
                        FocusPane::Editor
                    },
                    ..self
                },
                EffectView::Nothing,
            ),
        }
    }

    /// A key in the explorer pane.
    pub open spec fn explorer_key(self, code: KeyCode, fs: Seq<ProbeView>) -> (AppView, EffectView) {
        match code {
            KeyCode::Up => (self.move_explorer_selection(-1), EffectView::Nothing),
            KeyCode::Down => (self.move_explorer_selection(1), EffectView::Nothing),
            KeyCode::Left => (self.collapse_selected_or_parent(fs), EffectView::Nothing),
            KeyCode::Right => {
                let (s, o) = self.expand_selected(fs);
                (s, match o {
                    Some(p) => EffectView::OpenFile(p),
                    None => EffectView::Nothing,
                })
            },
            KeyCode::Enter => {
                let (s, o) = self.open_selected_item(fs);
                (s, match o {
                    Some(p) => EffectView::OpenFile(p),
                    None => EffectView::Nothing,
                })
            },
            KeyCode::Tab => (AppView { focus: FocusPane::Editor, ..self }, EffectView::Nothing),
            _ => (self, EffectView::Nothing),
        }
    }

    /// A key in the editor pane, applied to the active buffer.
    pub open spec fn editor_key(self, key: Key) -> AppView {
        let b = self.active();
        self.with_active(
            match key.code {
                KeyCode::Left => b.move_left(),
                KeyCode::Right => b.move_right(),
                KeyCode::Up => b.move_up(),
                KeyCode::Down => b.move_down(),
                KeyCode::Enter => b.new_line(),
                KeyCode::Backspace => b.backspace(),
                KeyCode::Tab => insert_tab(b),
                KeyCode::Char(c) => if !key.ctrl {
                    b.insert_char(c)
                } else {
                    b
                },
                _ => b,
            },
        )
    }

    /// The key reaches the editor pane.
    pub open spec fn goes_to_editor(self, key: Key) -> bool {
        &&& self.mode is Normal
        &&& command_of(key) is None
        &&& self.focus == FocusPane::Editor
    }

    /// A key for the editor does not split a character of the active buffer
    /// (the editor panics on one that would).
    pub open spec fn key_ok(self, key: Key) -> bool {
        self.goes_to_editor(key) ==> {
            let b = self.active();
            match key.code {
                KeyCode::Enter => b.insert_ok(),
                KeyCode::Backspace => b.backspace_ok(),
                KeyCode::Tab => b.insert_ok(),
                KeyCode::Char(c) => !key.ctrl ==> b.insert_ok(),
                _ => true,
            }
        }
    }

    /// What a key press does: in a prompt it edits, confirms or cancels the
    /// prompt; otherwise a global command runs, or else the focused pane takes the key.
    pub open spec fn on_key(self, key: Key, fs: Seq<ProbeView>) -> (AppView, EffectView) {
        match self.mode {
            ModeView::Prompt { kind, input } => match key.code {
                KeyCode::Esc => (
                    AppView { mode: ModeView::Normal, status: "Prompt canceled"@, ..self },
                    EffectView::Nothing,
                ),
                KeyCode::Enter => (self, EffectView::RunPrompt(kind, input)),
                KeyCode::Backspace => (
                    AppView {
                        mode: ModeView::Prompt {
                            kind,
                            input: if input.len() > 0 {
                                input.drop_last()
                            } else {
                                input
                            },
                        },
                        ..self
                    },
                    EffectView::Nothing,
                ),
                KeyCode::Char(c) => if !key.ctrl {
                    (AppView { mode: ModeView::Prompt { kind, input: input.push(c) }, ..self }, EffectView::Nothing)
                } else {
                    (self, EffectView::Nothing)
                },
                _ => (self, EffectView::Nothing),
            },
            ModeView::Normal => match command_of(key) {
                Some(cmd) => self.run_command(cmd),
                None => match self.focus {
                    FocusPane::Explorer => self.explorer_key(key.code, fs),
                    FocusPane::Editor => (self.editor_key(key), EffectView::Nothing),
                },
            },
        }
    }

    /// Carrying out a prompt: blank input cancels it; otherwise the input is
    /// resolved to a path (see [`resolve`]) and the action of the prompt's
    /// kind is handed back. The prompt closes either way.
    pub open spec fn execute_prompt(
        self,
        kind: PromptKind,
        input: Seq<char>,
        home: Option<Seq<char>>,
        cwd: Option<Seq<char>>,
    ) -> (AppView, PromptActionView) {
        let t = trim(input);
        if t.len() == 0 {
            (AppView { mode: ModeView::Normal, status: "Prompt canceled"@, ..self }, PromptActionView::Cancelled)
        } else {
            let p = resolve(t, self.workspace_root, home, cwd);
            (
                AppView { mode: ModeView::Normal, ..self },
                match kind {
                    PromptKind::OpenFile => PromptActionView::OpenFile(p),
                    PromptKind::OpenFolder => PromptActionView::OpenFolder(p),
                    PromptKind::NewFile => PromptActionView::NewFile(p),
                    PromptKind::NewFolder => PromptActionView::NewFolder(p),
                    PromptKind::SaveAs => PromptActionView::SaveAs(p, self.active().text()),
                },
            )
        }
    }

    /// After a prompt's file or folder was opened: focus moves to the editor
    /// (for a file) or the explorer (for a folder); a failure goes to the status line.
    pub open spec fn finish_open(self, folder: bool, r: Result<(), Seq<char>>) -> AppView {
        match r {
            Ok(()) => AppView {
                focus: if folder {
                    FocusPane::Explorer
                } else {
                    FocusPane::Editor
                },
                ..self
            },
            Err(e) => AppView {
                status: (if folder {
                    "Open folder error: "@
                } else {
                    "Open file error: "@
                }) + e,
                ..self
            },
        }
    }
}

/// The keys of the explorer pane.
pub fn handle_explorer_keys(app: &mut App, code: KeyCode, fs: &FsSnapshot) -> (e: Effect)
    requires
        fs@.len() < usize::MAX,
        old(app).explorer@.len() <= isize::MAX,
        old(app).explorer_index < isize::MAX,
    ensures
        (final(app)@, e@) == old(app)@.explorer_key(code, fs@),
{
    match code {
        KeyCode::Up => {
            app.move_explorer_selection(-1);
            Effect::Nothing
        },
        KeyCode::Down => {
            app.move_explorer_selection(1);
            Effect::Nothing
        },
        KeyCode::Left => {
            app.collapse_selected_or_parent(fs);
            Effect::Nothing
        },
        KeyCode::Right => match app.expand_selected(fs) {
            Some(p) => Effect::OpenFile(p),
            None => Effect::Nothing,
        },
        KeyCode::Enter => match app.open_selected_item(fs) {
            Some(p) => Effect::OpenFile(p),
            None => Effect::Nothing,
        },
        KeyCode::Tab => {
            app.focus = FocusPane::Editor;
            proof {
                assert(app@ =~= AppView { focus: FocusPane::Editor, ..old(app)@ });
            }
            Effect::Nothing
        },
        _ => Effect::Nothing,
    }
}

/// Types four spaces into `b`.
fn insert_tab_into(b: &mut Buffer)
    requires
        old(b)@.wf(),
        old(b)@.insert_ok(),
    ensures
        final(b)@ == insert_tab(old(b)@),
        final(b)@.wf(),
{
    proof {
        lemma_insert_ascii_keeps_ok(b@, ' ');
        lemma_insert_ascii_keeps_ok(b@.insert_char(' '), ' ');
        lemma_insert_ascii_keeps_ok(b@.insert_char(' ').insert_char(' '), ' ');
        lemma_insert_ascii_keeps_ok(b@.insert_char(' ').insert_char(' ').insert_char(' '), ' ');
    }
    b.insert_char(' ');
    b.insert_char(' ');
    b.insert_char(' ');
    b.insert_char(' ');
}

/// The keys of the editor pane, applied to the active buffer.
pub fn handle_editor_keys(app: &mut App, key: Key)
    requires
        old(app)@.wf(),
        old(app)@.goes_to_editor(key) ==> old(app)@.key_ok(key),
        old(app)@.mode is Normal,
        command_of(key) is None,
        old(app)@.focus == FocusPane::Editor,
    ensures
        final(app)@ == old(app)@.editor_key(key),
{
    let ghost b0 = old(app)@.active();
    proof {
        assert(b0.wf());
    }
    let buffer = app.active_buffer_mut();
    match key.code {
        KeyCode::Left => buffer.move_left(),
        KeyCode::Right => buffer.move_right(),
        KeyCode::Up => buffer.move_up(),
        KeyCode::Down => buffer.move_down(),
        KeyCode::Enter => buffer.new_line(),
        KeyCode::Backspace => buffer.backspace(),
        KeyCode::Tab => insert_tab_into(buffer),
        KeyCode::Char(c) => if !key.ctrl {
            buffer.insert_char(c)
        },
        _ => {},
    }
}

/// Runs a global command.
fn run_command(app: &mut App, cmd: Command) -> (e: Effect)
    requires
        old(app)@.wf(),
    ensures
        (final(app)@, e@) == old(app)@.run_command(cmd),
{
    match cmd {
        Command::Quit => {
            app.should_quit = true;
            proof {
                assert(app@ =~= AppView { should_quit: true, ..old(app)@ });
            }
            Effect::Nothing
        },
        Command::Save => {
            proof {
                assert(old(app)@.active() == old(app).buffers@[old(app).active_buffer as int]@);
                assert(old(app).buffers@[old(app).active_buffer as int]@.text() == join_lines(
                    strings_view(old(app).buffers@[old(app).active_buffer as int].lines@),
                )) by {
                    let b = &old(app).buffers@[old(app).active_buffer as int];
                    assert forall|i: int| 0 <= i < b.lines@.len() implies vstd::utf8::decode_utf8(
                        #[trigger] b@.lines[i],
                    ) == b.lines@[i]@ by {
                        vstd::utf8::encode_utf8_decode_utf8(b.lines@[i]@);
                    }
                    assert(Seq::new(b@.lines.len(), |i: int| vstd::utf8::decode_utf8(b@.lines[i]))
                        =~= strings_view(b.lines@));
                }
            }
            match app.save_active() {
                Some((p, t)) => Effect::Save(p, t),
                None => Effect::Nothing,
            }
        },
        Command::SaveAs => {
            app.start_prompt(PromptKind::SaveAs);
            Effect::Nothing
        },
        Command::OpenFile => {
            app.start_prompt(PromptKind::OpenFile);
            Effect::Nothing
        },
        Command::OpenFolder => {
            app.start_prompt(PromptKind::OpenFolder);
            Effect::Nothing
        },
        Command::CloseFolder => {
            app.close_workspace();
            Effect::Nothing
        },
        Command::NewFile => {
            app.start_prompt(PromptKind::NewFile);
            Effect::Nothing
        },
        Command::NewFolder => {
            app.start_prompt(PromptKind::NewFolder);
            Effect::Nothing
        },
        Command::CloseBuffer => {
            app.close_active_buffer();
            Effect::Nothing
        },
        Command::ToggleFocus => {
            app.focus = if app.focus == FocusPane::Editor {
                FocusPane::Explorer
            } else {
                FocusPane::Editor
            };
            proof {
                assert(app@ =~= old(app)@.run_command(cmd).0);
            }
            Effect::Nothing
        },
    }
}

/// Handles one key press (see [`AppView::on_key`]). `fs` is what was read of
/// the file system for the explorer; it is only looked at for the explorer's
/// arrow keys and Enter.
pub fn handle_key_event(app: &mut App, key: Key, fs: &FsSnapshot) -> (e: Effect)
    requires
        old(app)@.wf(),
        old(app)@.key_ok(key),
        fs@.len() < usize::MAX,
        old(app).explorer@.len() <= isize::MAX,
        old(app).explorer_index < isize::MAX,
    ensures
        (final(app)@, e@) == old(app)@.on_key(key, fs@),
{
    let mode = app.mode.duplicate();
    match mode {
        Mode::Prompt { kind, mut input } => {
            match key.code {
                KeyCode::Esc => {
                    app.mode = Mode::Normal;
                    app.status = string_of("Prompt canceled");
                    proof {
                        assert(app@ =~= old(app)@.on_key(key, fs@).0);
                    }
                    Effect::Nothing
                },
                KeyCode::Enter => Effect::RunPrompt(kind, input),
                KeyCode::Backspace => {
                    crate::text::string_pop(&mut input);
                    app.mode = Mode::Prompt { kind, input };
                    proof {
                        assert(app@ =~= old(app)@.on_key(key, fs@).0);
                    }
                    Effect::Nothing
                },
                KeyCode::Char(c) => {
                    if !key.ctrl {
                        string_push(&mut input, c);
                        app.mode = Mode::Prompt { kind, input };
                        proof {
                            assert(app@ =~= old(app)@.on_key(key, fs@).0);
                        }
                    }
                    Effect::Nothing
                },
                _ => Effect::Nothing,
            }
        },
        Mode::Normal => {
            match key_command(key) {
                Some(cmd) => run_command(app, cmd),
                None => match app.focus {
                    FocusPane::Explorer => handle_explorer_keys(app, key.code, fs),
                    FocusPane::Editor => {
                        handle_editor_keys(app, key);
                        Effect::Nothing
                    },
                },
            }
        },
    }
}

impl App {
    /// Carries out a prompt of kind `kind` with what was typed, `input` (see
    /// [`AppView::execute_prompt`]); `home` and `cwd` are the home and working
    /// directories, `None` where they could not be read.
    pub fn execute_prompt(
        &mut self,
        kind: PromptKind,
        input: &str,
        home: &Option<String>,
        cwd: &Option<String>,
    ) -> (a: PromptAction)
        requires
            old(self)@.wf(),
        ensures
            (final(self)@, a@) == old(self)@.execute_prompt(kind, input@, opt_view(*home), opt_view(*cwd)),
    {
        let trimmed = trim_str(input);
        if trimmed.as_str().is_empty() {
            self.mode = Mode::Normal;
            self.status = string_of("Prompt canceled");
            proof {
                assert(self@ =~= old(self)@.execute_prompt(kind, input@, opt_view(*home), opt_view(*cwd)).0);
            }
            return PromptAction::Cancelled;
        }
        let path = resolve_path(trimmed.as_str(), &self.workspace_root, home, cwd);
        proof {
            assert(opt_view(self.workspace_root) == self@.workspace_root);
            assert(opt_view(*home) == match home {
                Some(h) => Some(h@),
                None => None,
            });
            assert(opt_view(*cwd) == match cwd {
                Some(h) => Some(h@),
                None => None,
            });
        }
        let action = match kind {
            PromptKind::OpenFile => PromptAction::OpenFile(path),
            PromptKind::OpenFolder => PromptAction::OpenFolder(path),
            PromptKind::NewFile => PromptAction::NewFile(path),
            PromptKind::NewFolder => PromptAction::NewFolder(path),
            PromptKind::SaveAs => {
                let b = &self.buffers[self.active_buffer];
                proof {
                    assert(old(self)@.active() == b@);
                }
                PromptAction::SaveAs(path, b.text())
            },
        };
        self.mode = Mode::Normal;
        proof {
            assert(self@ =~= old(self)@.execute_prompt(kind, input@, opt_view(*home), opt_view(*cwd)).0);
        }
        action
    }

    /// Records how opening the file (`folder` false) or folder (`folder`
    /// true) a prompt asked for went.
    pub fn finish_open(&mut self, folder: bool, r: Result<(), String>)
        ensures
            final(self)@ == old(self)@.finish_open(folder, match r {
                Ok(()) => Ok(()),
                Err(e) => Err(e@),
            }),
    {
        match r {
            Ok(()) => {
                self.focus = if folder {
                    FocusPane::Explorer
                } else {
                    FocusPane::Editor
                };
            },
            Err(e) => {
                let prefix = if folder {
                    "Open folder error: "
                } else {
                    "Open file error: "
                };
                self.status = crate::text::concat(prefix, e.as_str());
            },
        }
        proof {
            assert(self@ =~= old(self)@.finish_open(folder, match r {
                Ok(()) => Ok(()),
                Err(e) => Err(e@),
            }));
        }
    }
}

/// The key goes to the explorer pane as an arrow or Enter, the keys that
/// may list folders.
pub open spec fn uses_listing(app: AppView, key: Key) -> bool {
    &&& app.mode is Normal
    &&& command_of(key) is None
    &&& app.focus == FocusPane::Explorer
    &&& (key.code == KeyCode::Left || key.code == KeyCode::Right || key.code == KeyCode::Enter)
}

/// Whether handling `key` may look at the file system snapshot (see
/// [`uses_listing`]); for other keys an empty snapshot will do.
pub fn key_uses_listing(app: &App, key: Key) -> (r: bool)
    ensures
        r == uses_listing(app@, key),
{
    let normal = match app.mode {
        Mode::Normal => true,
        Mode::Prompt { .. } => false,
    };
    normal && key_command(key).is_none() && app.focus == FocusPane::Explorer && (key.code
        == KeyCode::Left || key.code == KeyCode::Right || key.code == KeyCode::Enter)
}

/// Whether inserting at the cursor of `b` keeps characters whole.
fn insert_ok_exec(b: &Buffer) -> (r: bool)
    ensures
        r == b@.insert_ok(),
{
    if b.cursor_y < b.lines.len() {
        let len = crate::text::string_len(&b.lines[b.cursor_y]);
        let at = if b.cursor_x < len {
            b.cursor_x
        } else {
            len
        };
        proof {
            assert(b@.lines[b.cursor_y as int] == crate::text::utf8(b.lines@[b.cursor_y as int]@));
        }
        b.lines[b.cursor_y].as_str().is_char_boundary(at)
    } else {
        true
    }
}

/// Whether deleting before the cursor of `b` keeps characters whole.
fn backspace_ok_exec(b: &Buffer) -> (r: bool)
    ensures
        r == b@.backspace_ok(),
{
    if b.cursor_y < b.lines.len() && b.cursor_x > 0 {
        let len = crate::text::string_len(&b.lines[b.cursor_y]);
        proof {
            assert(b@.lines[b.cursor_y as int] == crate::text::utf8(b.lines@[b.cursor_y as int]@));
        }
        if b.cursor_x <= len {
            let s = b.lines[b.cursor_y].as_str();
            s.is_char_boundary(b.cursor_x) || s.is_char_boundary(b.cursor_x - 1)
        } else {
            true
        }
    } else {
        true
    }
}

/// Whether `key` may be handled without splitting a character (see
/// [`AppView::key_ok`]); the editor panics on keys for which this is false.
pub fn key_is_safe(app: &App, key: Key) -> (r: bool)
    requires
        app@.wf(),
    ensures
        r == app@.key_ok(key),
{
    let normal = match app.mode {
        Mode::Normal => true,
        Mode::Prompt { .. } => false,
    };
    if !(normal && key_command(key).is_none() && app.focus == FocusPane::Editor) {
        return true;
    }
    let b = &app.buffers[app.active_buffer];
    proof {
        assert(app@.active() == b@);
    }
    match key.code {
        KeyCode::Enter => insert_ok_exec(b),
        KeyCode::Backspace => backspace_ok_exec(b),
        KeyCode::Tab => insert_ok_exec(b),
        KeyCode::Char(_) => key.ctrl || insert_ok_exec(b),
        _ => true,
    }
}

/* Laws of the editor as a whole */

/// Law: every key press that the editor handles without panicking leaves it
/// well formed: a buffer is always open and active, and every buffer keeps
/// its cursor on a line and its text valid.
pub proof fn law_keys_keep_wf(a: AppView, key: Key, fs: Seq<ProbeView>)
    requires
        a.wf(),
        a.key_ok(key),
    ensures
        a.on_key(key, fs).0.wf(),
{
    crate::app::law_operations_keep_wf(a, Seq::empty(), Seq::empty(), Ok(()), fs, crate::app::Failure::OpenFile);
    if a.mode is Normal && command_of(key) is None && a.focus == FocusPane::Editor {
        let b = a.active();
        assert(b.wf());
        law_edits_keep_wf(b, ' ');
        match key.code {
            KeyCode::Char(c) => {
                law_edits_keep_wf(b, c);
            },
            KeyCode::Tab => {
                lemma_insert_ascii_keeps_ok(b, ' ');
                lemma_insert_ascii_keeps_ok(b.insert_char(' '), ' ');
                lemma_insert_ascii_keeps_ok(b.insert_char(' ').insert_char(' '), ' ');
                lemma_insert_ascii_keeps_ok(b.insert_char(' ').insert_char(' ').insert_char(' '), ' ');
            },
            _ => {},
        }
        let a2 = a.on_key(key, fs).0;
        assert forall|i: int| 0 <= i < a2.buffers.len() implies (#[trigger] a2.buffers[i]).wf() by {
            if i != a.active_buffer {
                assert(a2.buffers[i] == a.buffers[i]);
            }
        }
    } else if a.mode is Normal && command_of(key) == Some(Command::CloseBuffer) {
        let a2 = a.close_active_buffer();
        if a.buffers.len() == 1 {
            assert(empty_buffer_wf());
        } else {
            assert forall|i: int| 0 <= i < a2.buffers.len() implies (#[trigger] a2.buffers[i]).wf() by {
                if i < a.active_buffer {
                    assert(a2.buffers[i] == a.buffers[i]);
                } else {
                    assert(a2.buffers[i] == a.buffers[i + 1]);
                }
            }
        }
    }
}

/// An empty buffer is well formed.
pub open spec fn empty_buffer_wf() -> bool {
    forall|n: Seq<char>| #[trigger] crate::app::empty_buffer(n).wf()
}

/// Law: switching the focused pane twice gives back the pane focused before.
pub proof fn law_toggle_focus_twice(a: AppView)
    ensures
        a.run_command(Command::ToggleFocus).0.run_command(Command::ToggleFocus).0 == a,
{
    assert(a.run_command(Command::ToggleFocus).0.run_command(Command::ToggleFocus).0 =~= a);
}

/// Law: in a prompt, typing a character and then Backspace gives back the
/// prompt as it was.
pub proof fn law_prompt_type_then_erase(a: AppView, c: char, fs: Seq<ProbeView>)
    requires
        a.mode is Prompt,
    ensures
        a.on_key(Key { code: KeyCode::Char(c), ctrl: false }, fs).0.on_key(
            Key { code: KeyCode::Backspace, ctrl: false },
            fs,
        ).0 == a,
{
    let a1 = a.on_key(Key { code: KeyCode::Char(c), ctrl: false }, fs).0;
    match a.mode {
        ModeView::Prompt { kind, input } => {
            assert(input.push(c).drop_last() =~= input);
        },
        _ => {},
    }
    assert(a1.on_key(Key { code: KeyCode::Backspace, ctrl: false }, fs).0 =~= a);
}

/// The function key bound to the same command as Control with `c`.
pub open spec fn f_key_for(c: char) -> u8 {
    if c == 'q' {
        10
    } else if c == 's' {
        5
    } else if c == 'a' {
        6
    } else if c == 'o' {
        1
    } else if c == 'g' {
        2
    } else if c == 'x' {
        8
    } else if c == 'n' {
        3
    } else if c == 'm' {
        4
    } else if c == 'w' {
        7
    } else {
        9
    }
}

/// Law: every Control shortcut has a function key that does the same thing
/// in every state of the editor, in a prompt as well as outside one.
pub proof fn law_ctrl_keys_match_function_keys(a: AppView, c: char, fs: Seq<ProbeView>)
    requires
        ctrl_command(c) is Some,
    ensures
        f_command(f_key_for(c)) == ctrl_command(c),
        a.on_key(Key { code: KeyCode::Char(c), ctrl: true }, fs) == a.on_key(
            Key { code: KeyCode::F(f_key_for(c)), ctrl: false },
            fs,
        ),
{
}

/// Law: while a prompt is open, a key changes nothing but the prompt and
/// the status line, and asks for no work other than carrying out the prompt.
pub proof fn law_prompt_keys_touch_only_the_prompt(a: AppView, key: Key, fs: Seq<ProbeView>)
    requires
        a.mode is Prompt,
    ensures
        (AppView { mode: a.mode, status: a.status, ..a.on_key(key, fs).0 }) == a,
        a.on_key(key, fs).1 is Nothing || a.on_key(key, fs).1 is RunPrompt,
{
}

/// Law: outside a prompt, F9 (with or without Control) and Control+B switch
/// the focused pane and change nothing else, so pressing one twice gives
/// back the editor as it was.
pub proof fn law_focus_key_twice(a: AppView, key: Key, fs: Seq<ProbeView>)
    requires
        a.mode is Normal,
        key.code == KeyCode::F(9) || (key.code == KeyCode::Char('b') && key.ctrl),
    ensures
        a.on_key(key, fs) == (AppView {
            focus: if a.focus == FocusPane::Editor {
                FocusPane::Explorer
            } else {
                FocusPane::Editor
            },
            ..a
        }, EffectView::Nothing),
        a.on_key(key, fs).0.on_key(key, fs).0 == a,
{
    assert(a.on_key(key, fs).0.on_key(key, fs).0 =~= a);
}

/// Function key `n`, without Control.
pub open spec fn f_key(n: u8) -> Key {
    Key { code: KeyCode::F(n), ctrl: false }
}

/// Control and the letter `c`.
pub open spec fn ctrl_key(c: char) -> Key {
    Key { code: KeyCode::Char(c), ctrl: true }
}

/// The editor with a prompt of kind `kind` open and nothing typed.
pub open spec fn with_prompt(a: AppView, kind: PromptKind) -> AppView {
    AppView { mode: ModeView::Prompt { kind, input: seq![] }, ..a }
}

/// Law: outside a prompt, the keys do what the key bindings promise, the
/// function key and its Control letter alike: F1/^O, F2/^G, F3/^N, F4/^M and
/// F6/^A open the prompts to open a file, open a folder, create a file,
/// create a folder and save as; F5/^S saves (writes a buffer that has a file,
/// asks for a path otherwise); F7/^W closes the active buffer and leaves the
/// workspace alone; F8/^X closes the workspace and leaves the buffers alone;
/// F10/^Q quits and changes nothing else.
pub proof fn law_keys_do_what_the_bindings_say(a: AppView, fs: Seq<ProbeView>)
    requires
        a.wf(),
        a.mode is Normal,
    ensures
        a.on_key(f_key(1), fs) == (with_prompt(a, PromptKind::OpenFile), EffectView::Nothing),
        a.on_key(ctrl_key('o'), fs) == (with_prompt(a, PromptKind::OpenFile), EffectView::Nothing),
        a.on_key(f_key(2), fs) == (with_prompt(a, PromptKind::OpenFolder), EffectView::Nothing),
        a.on_key(ctrl_key('g'), fs) == (with_prompt(a, PromptKind::OpenFolder), EffectView::Nothing),
        a.on_key(f_key(3), fs) == (with_prompt(a, PromptKind::NewFile), EffectView::Nothing),
        a.on_key(ctrl_key('n'), fs) == (with_prompt(a, PromptKind::NewFile), EffectView::Nothing),
        a.on_key(f_key(4), fs) == (with_prompt(a, PromptKind::NewFolder), EffectView::Nothing),
        a.on_key(ctrl_key('m'), fs) == (with_prompt(a, PromptKind::NewFolder), EffectView::Nothing),
        a.on_key(f_key(6), fs) == (with_prompt(a, PromptKind::SaveAs), EffectView::Nothing),
        a.on_key(ctrl_key('a'), fs) == (with_prompt(a, PromptKind::SaveAs), EffectView::Nothing),
        forall|k: Key|
            k == f_key(5) || k == ctrl_key('s') ==> match a.active().path {
                Some(p) => #[trigger] a.on_key(k, fs) == (a, EffectView::Save(p, a.active().text())),
                None => a.on_key(k, fs).0.mode == (ModeView::Prompt { kind: PromptKind::SaveAs, input: seq![] })
                    && a.on_key(k, fs).0.buffers == a.buffers && a.on_key(k, fs).1 is Nothing,
            },
        forall|k: Key|
            k == f_key(7) || k == ctrl_key('w') ==> {
                let r = #[trigger] a.on_key(k, fs);
                &&& r.1 is Nothing
                &&& a.buffers.len() > 1 ==> r.0.buffers == a.buffers.remove(a.active_buffer as int)
                &&& a.buffers.len() == 1 ==> r.0.buffers.len() == 1 && r.0.buffers[0].path is None
                &&& r.0.workspace_root == a.workspace_root
                &&& r.0.expanded_dirs == a.expanded_dirs
                &&& r.0.explorer == a.explorer
            },
        forall|k: Key|
            k == f_key(8) || k == ctrl_key('x') ==> {
                let r = #[trigger] a.on_key(k, fs);
                &&& r.1 is Nothing
                &&& r.0.workspace_root is None
                &&& r.0.expanded_dirs.len() == 0
                &&& r.0.explorer.len() == 0
                &&& r.0.buffers == a.buffers
                &&& r.0.active_buffer == a.active_buffer
            },
        a.on_key(f_key(10), fs) == (AppView { should_quit: true, ..a }, EffectView::Nothing),
        a.on_key(ctrl_key('q'), fs) == (AppView { should_quit: true, ..a }, EffectView::Nothing),
{
}

/// Law: Enter in a prompt hands back the prompt's kind and what was typed;
/// carrying it out closes the prompt, cancels it when the input is blank, and
/// otherwise asks for the action of that kind on the resolved path (for
/// "Save as", with the active buffer's text). No buffer or folder changes.
pub proof fn law_prompt_actions_match_their_kind(
    a: AppView,
    kind: PromptKind,
    input: Seq<char>,
    home: Option<Seq<char>>,
    cwd: Option<Seq<char>>,
)
    ensures
        a.execute_prompt(kind, input, home, cwd).0.mode == ModeView::Normal,
        a.execute_prompt(kind, input, home, cwd).0.buffers == a.buffers,
        a.execute_prompt(kind, input, home, cwd).0.expanded_dirs == a.expanded_dirs,
        a.execute_prompt(kind, input, home, cwd).0.explorer == a.explorer,
        trim(input).len() == 0 <==> a.execute_prompt(kind, input, home, cwd).1 is Cancelled,
        trim(input).len() > 0 ==> ({
            let path = resolve(input, a.workspace_root, home, cwd);
            a.execute_prompt(kind, input, home, cwd).1 == match kind {
                PromptKind::OpenFile => PromptActionView::OpenFile(path),
                PromptKind::OpenFolder => PromptActionView::OpenFolder(path),
                PromptKind::NewFile => PromptActionView::NewFile(path),
                PromptKind::NewFolder => PromptActionView::NewFolder(path),
                PromptKind::SaveAs => PromptActionView::SaveAs(path, a.active().text()),
            }
        }),
{
    crate::paths::lemma_trim_is_trimmed(input);
}

} // verus!
