//! What each key press does to the editor, and what it asks of the caller.
use vstd::prelude::*;

use crate::text::{owned, trim_spec};
use crate::tui::app::{
    backspaced, cell_toggled, count_interface, creation_started, fold_toggled, input_cancelled, interface_confirmed,
    interface_edit_started, moved_down, moved_left, moved_right, moved_up, typed, App, InputMode,
};

verus! {

/// A key press as the editor reads it.
#[derive(Debug, Clone, Copy, PartialEq, Eq, Structural)]
pub enum Key {
    /// A character key; `ctrl` when Control was held.
    Char { c: char, ctrl: bool },
    Backspace,
    Enter,
    Esc,
    Up,
    Down,
    Left,
    Right,
    /// Any other key.
    Other,
}

/// The editor command a key stands for in the current input mode.
#[derive(Debug, Clone, Copy, PartialEq, Eq, Structural)]
pub enum Command {
    Quit,
    ClearStatus,
    MoveUp,
    MoveDown,
    MoveLeft,
    MoveRight,
    /// View the profile at this index (keys `1` to `9`).
    ViewProfile(usize),
    Space,
    Write,
    NewProject,
    PressG,
    GoBottom,
    EditInterface,
    ToggleFold,
    Type(char),
    Backspace,
    ConfirmProject,
    ConfirmInterface,
    Cancel,
    Nothing,
}

/// Work a key press leaves to the caller, which touches the file system.
#[derive(Debug, Clone, Copy, PartialEq, Eq, Structural)]
pub enum EditorAction {
    Nothing,
    /// Create the project named by [`App::pending_project_name`], hand what that
    /// gave to [`App::confirm_create_project`], and on its error call
    /// [`App::project_creation_failed`].
    CreateProject,
    /// Select this row's component in the viewed profile (see [`App::toggle_profile_impl`]).
    ToggleProfileImpl(usize),
    /// Write the staged changes (see [`App::pending_column_writes`]).
    WriteAll,
}

/// A character key in normal mode.
pub open spec fn normal_char(c: char, ctrl: bool) -> Command {
    if c == 'q' {
        Command::Quit
    } else if c == 'k' {
        Command::MoveUp
    } else if c == 'j' {
        Command::MoveDown
    } else if c == 'h' {
        Command::MoveLeft
    } else if c == 'l' {
        Command::MoveRight
    } else if '1' <= c && c <= '9' {
        Command::ViewProfile((c as int - '1' as int) as usize)
    } else if c == ' ' {
        Command::Space
    } else if c == 'w' {
        Command::Write
    } else if c == 'n' && ctrl {
        Command::NewProject
    } else if c == 'g' {
        Command::PressG
    } else if c == 'G' {
        Command::GoBottom
    } else if c == 'i' {
        Command::EditInterface
    } else if c == 'f' {
        Command::ToggleFold
    } else {
        Command::Nothing
    }
}

/// The command a key stands for in `mode`.
pub open spec fn command_for(mode: InputMode, key: Key) -> Command {
    match mode {
        InputMode::CreatingProject => match key {
            Key::Char { c, .. } => Command::Type(c),
            Key::Backspace => Command::Backspace,
            Key::Enter => Command::ConfirmProject,
            Key::Esc => Command::Cancel,
            _ => Command::Nothing,
        },
        InputMode::EditingInterface => match key {
            Key::Char { c, .. } => Command::Type(c),
            Key::Backspace => Command::Backspace,
            Key::Enter => Command::ConfirmInterface,
            Key::Esc => Command::Cancel,
            _ => Command::Nothing,
        },
        InputMode::Normal => match key {
            Key::Char { c, ctrl } => normal_char(c, ctrl),
            Key::Esc => Command::ClearStatus,
            Key::Up => Command::MoveUp,
            Key::Down => Command::MoveDown,
            Key::Left => Command::MoveLeft,
            Key::Right => Command::MoveRight,
            _ => Command::Nothing,
        },
    }
}

/// The command a key stands for in `mode`.
pub fn key_command(mode: InputMode, key: Key) -> (r: Command)
    ensures
        r == command_for(mode, key),
{
    match mode {
        InputMode::CreatingProject => match key {
            Key::Char { c, .. } => Command::Type(c),
            Key::Backspace => Command::Backspace,
            Key::Enter => Command::ConfirmProject,
            Key::Esc => Command::Cancel,
            _ => Command::Nothing,
        },
        InputMode::EditingInterface => match key {
            Key::Char { c, .. } => Command::Type(c),
            Key::Backspace => Command::Backspace,
            Key::Enter => Command::ConfirmInterface,
            Key::Esc => Command::Cancel,
            _ => Command::Nothing,
        },
        InputMode::Normal => match key {
            Key::Char { c, ctrl } => {
                if c == 'q' {
                    Command::Quit
                } else if c == 'k' {
                    Command::MoveUp
                } else if c == 'j' {
                    Command::MoveDown
                } else if c == 'h' {
                    Command::MoveLeft
                } else if c == 'l' {
                    Command::MoveRight
                } else if '1' <= c && c <= '9' {
                    Command::ViewProfile((c as u32 - '1' as u32) as usize)
                } else if c == ' ' {
                    Command::Space
                } else if c == 'w' {
                    Command::Write
                } else if c == 'n' && ctrl {
                    Command::NewProject
                } else if c == 'g' {
                    Command::PressG
                } else if c == 'G' {
                    Command::GoBottom
                } else if c == 'i' {
                    Command::EditInterface
                } else if c == 'f' {
                    Command::ToggleFold
                } else {
                    Command::Nothing
                }
            },
            Key::Esc => Command::ClearStatus,
            Key::Up => Command::MoveUp,
            Key::Down => Command::MoveDown,
            Key::Left => Command::MoveLeft,
            Key::Right => Command::MoveRight,
            _ => Command::Nothing,
        },
    }
}

/// Some project or interface change is staged.
pub open spec fn has_unsaved(a: App) -> bool {
    (exists|i: int| 0 <= i < a.modified_cols@.len() && a.modified_cols@[i]) || (exists|i: int|
        0 <= i < a.modified_rows@.len() && a.modified_rows@[i])
}

/// The status line when quitting with unsaved changes.
pub open spec fn unsaved_warning() -> Seq<char> {
    "Unsaved changes — press w to save or q again to quit"@
}

/// Row `r` belongs to an interface that two or more rows implement.
pub open spec fn multi_impl_row(a: App, r: int) -> bool {
    0 <= r < a.rows@.len() && (a.rows@[r].interface matches Some(i) && count_interface(
        a.rows@,
        i@,
        a.rows@.len() as int,
    ) >= 2)
}

/// The state a normal-mode key starts from: any key but `q` drops a pending quit
/// confirmation, any key but `g` a pending `g`.
pub open spec fn flags_reset(a: App, cmd: Command) -> App {
    if a.input_mode == InputMode::Normal {
        App {
            confirm_quit: if cmd == Command::Quit {
                a.confirm_quit
            } else {
                false
            },
            pending_g: if cmd == Command::PressG {
                a.pending_g
            } else {
                false
            },
            ..a
        }
    } else {
        a
    }
}

/// The effect of command `cmd` on the editor `a`, giving `b` and asking `act` of the caller.
pub open spec fn command_done(a: App, b: App, cmd: Command, act: EditorAction) -> bool {
    let s = flags_reset(a, cmd);
    match cmd {
        Command::Quit => act == EditorAction::Nothing && if has_unsaved(s) && !s.confirm_quit {
            &&& b == (App { status: b.status, confirm_quit: true, ..s })
            &&& b.status@ == unsaved_warning()
        } else {
            b == (App { quit: true, ..s })
        },
        Command::ClearStatus => act == EditorAction::Nothing && b == (App { status: b.status, ..s })
            && b.status@.len() == 0,
        Command::MoveUp => act == EditorAction::Nothing && moved_up(s, b),
        Command::MoveDown => act == EditorAction::Nothing && moved_down(s, b),
        Command::MoveLeft => act == EditorAction::Nothing && moved_left(s, b),
        Command::MoveRight => act == EditorAction::Nothing && moved_right(s, b),
        Command::ViewProfile(n) => act == EditorAction::Nothing && b == (App {
            viewed_profile_idx: if n < s.available_profiles@.len() {
                n
            } else {
                s.viewed_profile_idx
            },
            ..s
        }),
        Command::Space => if s.available_profiles@.len() > 0 && multi_impl_row(s, s.cursor_row as int) {
            act == EditorAction::ToggleProfileImpl(s.cursor_row) && b == s
        } else {
            act == EditorAction::Nothing && cell_toggled(s, b)
        },
        Command::Write => act == EditorAction::WriteAll && b == s,
        Command::NewProject => act == EditorAction::Nothing && creation_started(s, b),
        Command::PressG => act == EditorAction::Nothing && if s.pending_g {
            b == (App { cursor_row: 0, pending_g: false, ..s })
        } else {
            b == (App { pending_g: true, ..s })
        },
        Command::GoBottom => act == EditorAction::Nothing && b == (App {
            cursor_row: if s.rows@.len() > 0 {
                (s.rows@.len() - 1) as usize
            } else {
                s.cursor_row
            },
            ..s
        }),
        Command::EditInterface => act == EditorAction::Nothing && interface_edit_started(s, b),
        Command::ToggleFold => act == EditorAction::Nothing && fold_toggled(s, b),
        Command::Type(c) => act == EditorAction::Nothing && typed(s, b, c),
        Command::Backspace => act == EditorAction::Nothing && backspaced(s, b),
        Command::ConfirmProject => act == EditorAction::CreateProject && b == s,
        Command::ConfirmInterface => act == EditorAction::Nothing && interface_confirmed(s, b),
        Command::Cancel => act == EditorAction::Nothing && input_cancelled(s, b),
        Command::Nothing => act == EditorAction::Nothing && b == s,
    }
}

fn any_set(v: &Vec<bool>) -> (r: bool)
    ensures
        r == exists|i: int| 0 <= i < v@.len() && v@[i],
{
    let mut i: usize = 0;
    while i < v.len()
        invariant
            i <= v@.len(),
            forall|k: int| 0 <= k < i ==> !v@[k],
        decreases v@.len() - i,
    {
        if v[i] {
            return true;
        }
        i += 1;
    }
    false
}

impl App {
    /// Handles one key press: runs the command the key stands for in the current
    /// input mode (see [`command_for`]) and says what file work, if any, the
    /// caller has to do.
    pub fn handle_key(&mut self, key: Key) -> (act: EditorAction)
        requires
            old(self).wf(),
            old(self).cursor_row <= old(self).rows@.len(),
            old(self).cursor_row < usize::MAX,
            old(self).cursor_col < usize::MAX,
            command_for(old(self).input_mode, key) == Command::EditInterface ==> old(self).cursor_row < old(
                self,
            ).rows@.len(),
            command_for(old(self).input_mode, key) == Command::ConfirmInterface && trim_spec(
                old(self).input_buffer@,
            ).len() > 0 ==> old(self).cursor_row < old(self).rows@.len(),
        ensures
            command_done(*old(self), *final(self), command_for(old(self).input_mode, key), act),
            final(self).wf(),
    {
        let cmd = key_command(self.input_mode, key);
        if self.input_mode == InputMode::Normal {
            if cmd != Command::Quit {
                self.confirm_quit = false;
            }
            if cmd != Command::PressG {
                self.pending_g = false;
            }
        }
        match cmd {
            Command::Quit => {
                let dirty = any_set(&self.modified_cols) || any_set(&self.modified_rows);
                if dirty && !self.confirm_quit {
                    self.status = owned("Unsaved changes — press w to save or q again to quit");
                    self.confirm_quit = true;
                } else {
                    self.quit = true;
                }
                EditorAction::Nothing
            },
            Command::ClearStatus => {
                self.status = String::new();
                EditorAction::Nothing
            },
            Command::MoveUp => {
                self.move_up();
                EditorAction::Nothing
            },
            Command::MoveDown => {
                self.move_down();
                EditorAction::Nothing
            },
            Command::MoveLeft => {
                self.move_left();
                EditorAction::Nothing
            },
            Command::MoveRight => {
                self.move_right();
                EditorAction::Nothing
            },
            Command::ViewProfile(n) => {
                if n < self.available_profiles.len() {
                    self.viewed_profile_idx = n;
                }
                EditorAction::Nothing
            },
            Command::Space => {
                let r = self.cursor_row;
                if self.available_profiles.len() > 0 && self.is_multi_impl_interface(r) {
                    EditorAction::ToggleProfileImpl(r)
                } else {
                    self.toggle_cell();
                    EditorAction::Nothing
                }
            },
            Command::Write => EditorAction::WriteAll,
            Command::NewProject => {
                self.start_create_project();
                EditorAction::Nothing
            },
            Command::PressG => {
                if self.pending_g {
                    self.cursor_row = 0;
                    self.pending_g = false;
                } else {
                    self.pending_g = true;
                }
                EditorAction::Nothing
            },
            Command::GoBottom => {
                if self.rows.len() > 0 {
                    self.cursor_row = self.rows.len() - 1;
                }
                EditorAction::Nothing
            },
            Command::EditInterface => {
                self.start_edit_interface();
                EditorAction::Nothing
            },
            Command::ToggleFold => {
                self.toggle_fold();
                EditorAction::Nothing
            },
            Command::Type(c) => {
                self.input_char(c);
                EditorAction::Nothing
            },
            Command::Backspace => {
                self.input_backspace();
                EditorAction::Nothing
            },
            Command::ConfirmProject => EditorAction::CreateProject,
            Command::ConfirmInterface => {
                self.confirm_edit_interface();
                EditorAction::Nothing
            },
            Command::Cancel => {
                self.cancel_input();
                EditorAction::Nothing
            },
            Command::Nothing => EditorAction::Nothing,
        }
    }

    /// Reports a failed file operation in the status line.
    pub fn report_error(&mut self, msg: &str)
        ensures
            *final(self) == (App { status: final(self).status, ..*old(self) }),
            final(self).status@ == "error: "@ + msg@,
    {
        let mut s = owned("error: ");
        s.append(msg);
        self.status = s;
    }

    /// Reports that the project could not be created, and leaves name input.
    pub fn project_creation_failed(&mut self, msg: &str)
        ensures
            *final(self) == (App {
                status: final(self).status,
                input_mode: InputMode::Normal,
                input_buffer: final(self).input_buffer,
                ..*old(self)
            }),
            final(self).status@ == "error: "@ + msg@,
            final(self).input_buffer@.len() == 0,
    {
        self.report_error(msg);
        self.input_mode = InputMode::Normal;
        self.input_buffer = String::new();
    }

    /// Clears the staged flag of a project column once its manifest is written.
    pub fn column_written(&mut self, col: usize)
        requires
            col < old(self).modified_cols@.len(),
        ensures
            *final(self) == (App { modified_cols: final(self).modified_cols, ..*old(self) }),
            final(self).modified_cols@ == old(self).modified_cols@.update(col as int, false),
    {
        self.modified_cols.set(col, false);
    }

    /// Clears the staged flag of a row once its interface is written.
    pub fn interface_written(&mut self, row: usize)
        requires
            row < old(self).modified_rows@.len(),
        ensures
            *final(self) == (App { modified_rows: final(self).modified_rows, ..*old(self) }),
            final(self).modified_rows@ == old(self).modified_rows@.update(row as int, false),
    {
        self.modified_rows.set(row, false);
    }
}

} // verus!
