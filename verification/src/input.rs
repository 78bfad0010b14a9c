//! What a key press or a mouse event does: first the command it stands
//! for, then that command carried out on the state, with the outside work
//! (fetching a board, copying to the clipboard) handed back to the caller.

use vstd::prelude::*;

use crate::board::{board_at, board_index, shortcut_keys, Board, Status, BOARD_COUNT};
use crate::state::{
    after_clear_filter, after_cycle_board, after_move_down, after_move_to_bottom,
    after_move_to_top, after_move_up, after_page_down, after_page_up, after_pop_filter,
    after_push_filter, after_select_board, after_toggle_view, cycled_aa, cycled_agent,
    cycled_deepswe, flipped_aa, flipped_agent, flipped_deepswe, resorted, spec_selected_name,
    AppModel, AppState,
};

verus! {

/// The key of a key press.
#[derive(Debug, Clone, Copy, PartialEq, Eq, Structural)]
pub enum KeyCode {
    Char(char),
    Esc,
    Enter,
    Backspace,
    Up,
    Down,
    PageUp,
    PageDown,
    Home,
    End,
    Other,
}

/// A key press: the key, whether Control was held, and whether no
/// modifier other than Shift was held.
#[derive(Debug, Clone, Copy, PartialEq, Eq, Structural)]
pub struct KeyPress {
    pub code: KeyCode,
    pub control: bool,
    pub plain: bool,
}

/// The kind of a mouse event.
#[derive(Debug, Clone, Copy, PartialEq, Eq, Structural)]
pub enum MouseKind {
    ScrollUp,
    ScrollDown,
    LeftDown,
    Other,
}

/// What the user asked for.
#[derive(Debug, Clone, Copy, PartialEq, Eq, Structural)]
pub enum Command {
    Nothing,
    Quit,
    CloseHelp,
    ToggleHelp,
    ClearFilter,
    FinishFilter,
    PopFilterChar,
    PushFilterChar(char),
    Reload,
    PrevBoard,
    NextBoard,
    JumpTo(usize),
    ToggleDir,
    ToggleView,
    ToggleCompact,
    Copy,
    BeginFilter,
    Down,
    Up,
    PageDown,
    PageUp,
    Top,
    Bottom,
    CycleSort(char),
}

/// The outside work a command leaves to the caller.
#[derive(Debug, Clone, PartialEq, Eq)]
pub enum Effect {
    Nothing,
    Quit,
    /// Fetch this board's rows and report back through `set_status`.
    Fetch(Board),
    /// Put this text on the clipboard.
    Copy(String),
}

/// The command a key press stands for. Control-C always quits. With the
/// help open only `q` (quit) and `?`, `h`, Esc (close) count. Control-U
/// clears the filter. While a filter is edited, Enter and Esc finish,
/// Backspace deletes and plain characters are typed. Otherwise each key has
/// its binding.
pub open spec fn spec_key_command(k: KeyPress, help_open: bool, editing: bool) -> Command {
    if k.control && k.code == KeyCode::Char('c') {
        Command::Quit
    } else if help_open {
        match k.code {
            KeyCode::Char('q') => Command::Quit,
            KeyCode::Char('?') | KeyCode::Char('h') | KeyCode::Esc => Command::CloseHelp,
            _ => Command::Nothing,
        }
    } else if k.control && k.code == KeyCode::Char('u') {
        Command::ClearFilter
    } else if editing {
        match k.code {
            KeyCode::Enter | KeyCode::Esc => Command::FinishFilter,
            KeyCode::Backspace => Command::PopFilterChar,
            KeyCode::Char(c) => if k.plain {
                Command::PushFilterChar(c)
            } else {
                Command::Nothing
            },
            _ => Command::Nothing,
        }
    } else {
        match k.code {
            KeyCode::Char('q') | KeyCode::Esc => Command::Quit,
            KeyCode::Char('?') | KeyCode::Char('h') => Command::ToggleHelp,
            KeyCode::Char('r') => Command::Reload,
            KeyCode::Char('[') => Command::PrevBoard,
            KeyCode::Char(']') => Command::NextBoard,
            KeyCode::Char('o') => Command::ToggleDir,
            KeyCode::Char('m') => Command::ToggleView,
            KeyCode::Char('z') => Command::ToggleCompact,
            KeyCode::Char('y') => Command::Copy,
            KeyCode::Char('/') => Command::BeginFilter,
            KeyCode::Down | KeyCode::Char('j') => Command::Down,
            KeyCode::Up | KeyCode::Char('k') => Command::Up,
            KeyCode::PageDown => Command::PageDown,
            KeyCode::PageUp => Command::PageUp,
            KeyCode::Home | KeyCode::Char('g') => Command::Top,
            KeyCode::End | KeyCode::Char('G') => Command::Bottom,
            KeyCode::Char(c) => if shortcut_keys().contains(c) {
                if c == '1' {
                    Command::JumpTo(0)
                } else if c == '2' {
                    Command::JumpTo(1)
                } else if c == '3' {
                    Command::JumpTo(2)
                } else {
                    Command::Nothing
                }
            } else if c == 'a' || c == 'c' || c == 'd' || c == 'i' || c == 'p' || c == 's' || c
                == 't' || c == 'u' {
                Command::CycleSort(c)
            } else {
                Command::Nothing
            },
            _ => Command::Nothing,
        }
    }
}

fn is_shortcut(c: char) -> (r: bool)
    ensures
        r == shortcut_keys().contains(c),
{
    let r = ('1' <= c && c <= '9') || c == '0' || c == '-' || c == '=';
    proof {
        let keys = shortcut_keys();
        if r {
            let i: int = if c == '0' {
                9
            } else if c == '-' {
                10
            } else if c == '=' {
                11
            } else {
                (c as u32 - '1' as u32) as int
            };
            assert(keys[i] == c);
        } else {
            assert forall|i: int| 0 <= i < keys.len() implies keys[i] != c by {}
        }
    }
    r
}

/// The command a key press stands for, given whether the help is open and
/// whether a filter is being edited.
pub fn key_command(k: KeyPress, help_open: bool, editing: bool) -> (c: Command)
    ensures
        c == spec_key_command(k, help_open, editing),
{
    if k.control && k.code == KeyCode::Char('c') {
        return Command::Quit;
    }
    if help_open {
        return match k.code {
            KeyCode::Char('q') => Command::Quit,
            KeyCode::Char('?') | KeyCode::Char('h') | KeyCode::Esc => Command::CloseHelp,
            _ => Command::Nothing,
        };
    }
    if k.control && k.code == KeyCode::Char('u') {
        return Command::ClearFilter;
    }
    if editing {
        return handle_filter_key(k);
    }
    match k.code {
        KeyCode::Char('q') | KeyCode::Esc => Command::Quit,
        KeyCode::Char('?') | KeyCode::Char('h') => Command::ToggleHelp,
        KeyCode::Char('r') => Command::Reload,
        KeyCode::Char('[') => Command::PrevBoard,
        KeyCode::Char(']') => Command::NextBoard,
        KeyCode::Char('o') => Command::ToggleDir,
        KeyCode::Char('m') => Command::ToggleView,
        KeyCode::Char('z') => Command::ToggleCompact,
        KeyCode::Char('y') => Command::Copy,
        KeyCode::Char('/') => Command::BeginFilter,
        KeyCode::Down | KeyCode::Char('j') => Command::Down,
        KeyCode::Up | KeyCode::Char('k') => Command::Up,
        KeyCode::PageDown => Command::PageDown,
        KeyCode::PageUp => Command::PageUp,
        KeyCode::Home | KeyCode::Char('g') => Command::Top,
        KeyCode::End | KeyCode::Char('G') => Command::Bottom,
        KeyCode::Char(c) => {
            if is_shortcut(c) {
                match Board::from_shortcut(c) {
                    Some(idx) => Command::JumpTo(idx),
                    None => Command::Nothing,
                }
            } else if c == 'a' || c == 'c' || c == 'd' || c == 'i' || c == 'p' || c == 's' || c
                == 't' || c == 'u' {
                Command::CycleSort(c)
            } else {
                Command::Nothing
            }
        },
        _ => Command::Nothing,
    }
}

/// The command a key press stands for while a filter is being edited.
pub fn handle_filter_key(k: KeyPress) -> (c: Command)
    ensures
        c == match k.code {
            KeyCode::Enter | KeyCode::Esc => Command::FinishFilter,
            KeyCode::Backspace => Command::PopFilterChar,
            KeyCode::Char(ch) => if k.plain {
                Command::PushFilterChar(ch)
            } else {
                Command::Nothing
            },
            _ => Command::Nothing,
        },
{
    match k.code {
        KeyCode::Enter | KeyCode::Esc => Command::FinishFilter,
        KeyCode::Backspace => Command::PopFilterChar,
        KeyCode::Char(ch) => {
            if k.plain {
                Command::PushFilterChar(ch)
            } else {
                Command::Nothing
            }
        },
        _ => Command::Nothing,
    }
}

/// The tab under column `column` of a tab bar `width` cells wide, the
/// tabs sharing the width equally.
pub open spec fn spec_tab_at(column: u16, width: u16) -> Option<usize> {
    if width == 0 {
        None
    } else {
        let i = (column * BOARD_COUNT) / (width as int);
        Some((if i < BOARD_COUNT - 1 { i } else { BOARD_COUNT - 1 }) as usize)
    }
}

/// The command a mouse event stands for: scrolling moves the selection, a
/// left click on the tab bar (its three top rows) picks a tab.
pub open spec fn spec_mouse_command(kind: MouseKind, row: u16, column: u16, width: u16) -> Command {
    match kind {
        MouseKind::ScrollUp => Command::Up,
        MouseKind::ScrollDown => Command::Down,
        MouseKind::LeftDown => if row < 3 {
            match spec_tab_at(column, width) {
                Some(i) => Command::JumpTo(i),
                None => Command::Nothing,
            }
        } else {
            Command::Nothing
        },
        MouseKind::Other => Command::Nothing,
    }
}

pub fn mouse_command(kind: MouseKind, row: u16, column: u16, width: u16) -> (c: Command)
    ensures
        c == spec_mouse_command(kind, row, column, width),
{
    match kind {
        MouseKind::ScrollUp => Command::Up,
        MouseKind::ScrollDown => Command::Down,
        MouseKind::LeftDown => {
            if row < 3 && width > 0 {
                let i = (column as usize * BOARD_COUNT) / (width as usize);
                Command::JumpTo(if i < BOARD_COUNT - 1 { i } else { BOARD_COUNT - 1 })
            } else {
                Command::Nothing
            }
        },
        MouseKind::Other => Command::Nothing,
    }
}

/// Whether the current board still has to be fetched: it is neither
/// loading nor loaded.
pub open spec fn needs_fetch(m: AppModel) -> bool {
    !(m.status[m.current] matches Some(Status::Loading)) && !(m.status[m.current] matches Some(
        Status::Loaded(_),
    ))
}

/// The current board marked as loading when it still has to be fetched.
pub open spec fn after_ensure_loaded(m: AppModel) -> AppModel {
    if needs_fetch(m) {
        AppModel { status: m.status.update(m.current, Some(Status::Loading)), ..m }
    } else {
        m
    }
}

/// The fetch that showing the current board calls for.
pub open spec fn fetch_effect(m: AppModel) -> Effect {
    if needs_fetch(m) {
        Effect::Fetch(board_at(m.current))
    } else {
        Effect::Nothing
    }
}

/// The state and effect after a reload: a board not already loading is
/// marked as loading and fetched again.
pub open spec fn reloaded(m: AppModel) -> AppModel {
    if m.status[m.current] matches Some(Status::Loading) {
        m
    } else {
        AppModel { status: m.status.update(m.current, Some(Status::Loading)), ..m }
    }
}

pub open spec fn reload_effect(m: AppModel) -> Effect {
    if m.status[m.current] matches Some(Status::Loading) {
        Effect::Nothing
    } else {
        Effect::Fetch(board_at(m.current))
    }
}

/// `m2` and `e` are what carrying out `cmd` on `m` gives.
pub open spec fn carried_out(m2: AppModel, e: Effect, m: AppModel, cmd: Command) -> bool {
    match cmd {
        Command::Nothing => m2 == m && e == Effect::Nothing,
        Command::Quit => m2 == m && e == Effect::Quit,
        Command::CloseHelp => m2 == (AppModel { help_open: false, ..m }) && e == Effect::Nothing,
        Command::ToggleHelp => m2 == (AppModel { help_open: !m.help_open, ..m }) && e == Effect::Nothing,
        Command::ClearFilter => m2 == after_clear_filter(m) && e == Effect::Nothing,
        Command::FinishFilter => m2 == (AppModel { filter_editing: false, ..m }) && e == Effect::Nothing,
        Command::PopFilterChar => m2 == after_pop_filter(m) && e == Effect::Nothing,
        Command::PushFilterChar(c) => m2 == after_push_filter(m, c) && e == Effect::Nothing,
        Command::Reload => m2 == reloaded(m) && e == reload_effect(m),
        Command::PrevBoard => m2 == after_ensure_loaded(after_cycle_board(m, -1)) && e == fetch_effect(
            after_cycle_board(m, -1),
        ),
        Command::NextBoard => m2 == after_ensure_loaded(after_cycle_board(m, 1)) && e == fetch_effect(
            after_cycle_board(m, 1),
        ),
        Command::JumpTo(i) => m2 == after_ensure_loaded(after_select_board(m, i as int)) && e
            == fetch_effect(after_select_board(m, i as int)),
        Command::ToggleDir => resorted(m2, m, flipped_aa(m), flipped_agent(m), flipped_deepswe(m)) && e
            == Effect::Nothing,
        Command::ToggleView => m2 == after_toggle_view(m) && e == Effect::Nothing,
        Command::ToggleCompact => m2 == (AppModel { compact: !m.compact, ..m }) && e == Effect::Nothing,
        Command::Copy => m2 == m && match spec_selected_name(m) {
            Some(n) => e matches Effect::Copy(s) && s@ == n,
            None => e == Effect::Nothing,
        },
        Command::BeginFilter => m2 == (AppModel { filter_editing: true, ..m }) && e == Effect::Nothing,
        Command::Down => m2 == after_move_down(m) && e == Effect::Nothing,
        Command::Up => m2 == after_move_up(m) && e == Effect::Nothing,
        Command::PageDown => m2 == after_page_down(m) && e == Effect::Nothing,
        Command::PageUp => m2 == after_page_up(m) && e == Effect::Nothing,
        Command::Top => m2 == after_move_to_top(m) && e == Effect::Nothing,
        Command::Bottom => m2 == after_move_to_bottom(m) && e == Effect::Nothing,
        Command::CycleSort(c) => resorted(m2, m, cycled_aa(m, c), cycled_agent(m, c), cycled_deepswe(m, c))
            && e == Effect::Nothing,
    }
}

/// Marks the current board as loading when it is neither loading nor
/// loaded, and asks for it to be fetched.
pub fn ensure_loaded(app: &mut AppState) -> (e: Effect)
    requires
        old(app).wf(),
    ensures
        final(app).wf(),
        final(app).model() == after_ensure_loaded(old(app).model()),
        e == fetch_effect(old(app).model()),
{
    proof {
        app.lemma_model_ok();
    }
    let b = app.current_board();
    let fetch = match app.status(b) {
        Some(Status::Loading) => false,
        Some(Status::Loaded(_)) => false,
        _ => true,
    };
    if !fetch {
        return Effect::Nothing;
    }
    app.set_status(b, Status::Loading);
    Effect::Fetch(b)
}

impl AppState {
    /// Carries out `cmd`, leaving the outside work to the caller.
    pub fn apply(&mut self, cmd: Command) -> (e: Effect)
        requires
            old(self).wf(),
        ensures
            final(self).wf(),
            carried_out(final(self).model(), e, old(self).model(), cmd),
    {
        proof {
            self.lemma_model_ok();
        }
        match cmd {
            Command::Nothing => Effect::Nothing,
            Command::Quit => Effect::Quit,
            Command::CloseHelp => {
                self.close_help();
                Effect::Nothing
            },
            Command::ToggleHelp => {
                self.toggle_help();
                Effect::Nothing
            },
            Command::ClearFilter => {
                self.clear_current_filter();
                Effect::Nothing
            },
            Command::FinishFilter => {
                self.finish_filter();
                Effect::Nothing
            },
            Command::PopFilterChar => {
                self.pop_filter_char();
                Effect::Nothing
            },
            Command::PushFilterChar(c) => {
                self.push_filter_char(c);
                Effect::Nothing
            },
            Command::Reload => {
                let b = self.current_board();
                let loading = match self.status(b) {
                    Some(Status::Loading) => true,
                    _ => false,
                };
                if loading {
                    Effect::Nothing
                } else {
                    self.set_status(b, Status::Loading);
                    Effect::Fetch(b)
                }
            },
            Command::PrevBoard => {
                self.cycle_board(-1);
                ensure_loaded(self)
            },
            Command::NextBoard => {
                self.cycle_board(1);
                ensure_loaded(self)
            },
            Command::JumpTo(i) => {
                self.select_board(i);
                ensure_loaded(self)
            },
            Command::ToggleDir => {
                self.toggle_dir();
                Effect::Nothing
            },
            Command::ToggleView => {
                self.toggle_view();
                Effect::Nothing
            },
            Command::ToggleCompact => {
                self.toggle_compact();
                Effect::Nothing
            },
            Command::Copy => match self.selected_name() {
                Some(name) => Effect::Copy(name),
                None => Effect::Nothing,
            },
            Command::BeginFilter => {
                self.begin_filter();
                Effect::Nothing
            },
            Command::Down => {
                self.move_down();
                Effect::Nothing
            },
            Command::Up => {
                self.move_up();
                Effect::Nothing
            },
            Command::PageDown => {
                self.move_page_down();
                Effect::Nothing
            },
            Command::PageUp => {
                self.move_page_up();
                Effect::Nothing
            },
            Command::Top => {
                self.move_to_top();
                Effect::Nothing
            },
            Command::Bottom => {
                self.move_to_bottom();
                Effect::Nothing
            },
            Command::CycleSort(c) => {
                self.cycle_sort(c);
                Effect::Nothing
            },
        }
    }
}

/// Handles a key press: works out its command and carries it out.
pub fn handle_key(k: KeyPress, app: &mut AppState) -> (e: Effect)
    requires
        old(app).wf(),
    ensures
        final(app).wf(),
        carried_out(
            final(app).model(),
            e,
            old(app).model(),
            spec_key_command(k, old(app).model().help_open, old(app).model().filter_editing),
        ),
{
    let cmd = key_command(k, app.is_help_open(), app.is_filter_editing());
    app.apply(cmd)
}

/// Handles a mouse event over a terminal `width` cells wide.
pub fn handle_mouse(kind: MouseKind, row: u16, column: u16, width: u16, app: &mut AppState) -> (e: Effect)
    requires
        old(app).wf(),
    ensures
        final(app).wf(),
        carried_out(final(app).model(), e, old(app).model(), spec_mouse_command(kind, row, column, width)),
{
    let cmd = mouse_command(kind, row, column, width);
    app.apply(cmd)
}

} // verus!
