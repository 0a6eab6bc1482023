//! What keys do: in the panels, in a comparison, in the prompts and on the other pages.

use crate::panel::{
    active_browser_mut, current_panel_message, cursor_after, listed_lines, listing_error,
    move_cursor, panel_message, select_entry_by_path, selected_browser_row, selected_row,
    ActivePanel, BrowserPanel, CursorMove, FileStatus, FsEntry, PanelView, TuiRow, TuiRowView,
};
use crate::path::{components, has_parent, lemma_parent_components, parent_of, relative_to};
use crate::state::{sanitize_project_name, sanitized, State, StateView};
use crate::text::{
    all_white, law_trimming_takes_off_the_surrounding_white_space, opt_view, trim, trimmed, views,
    white_space,
};
use crate::workflow::{failure_report, failure_text, Task};
use vstd::prelude::*;

verus! {

/// The keys that mean something.
#[derive(Debug, Clone, Copy, PartialEq, Eq, Structural)]
pub enum Key {
    Char(char),
    Enter,
    Esc,
    Tab,
    Up,
    Down,
    PageUp,
    PageDown,
    Home,
    End,
    Backspace,
    /// A function key with its number.
    F(u8),
    Other,
}

/// A key, and whether it was pressed together with the control key.
#[derive(Debug, Clone, Copy, PartialEq, Eq, Structural)]
pub struct KeyPress {
    pub key: Key,
    pub control: bool,
}

/// The move that a key makes in a list.
pub open spec fn move_of(key: Key) -> Option<CursorMove> {
    match key {
        Key::Up => Some(CursorMove::Up),
        Key::Down => Some(CursorMove::Down),
        Key::PageUp => Some(CursorMove::PageUp),
        Key::PageDown => Some(CursorMove::PageDown),
        Key::Home => Some(CursorMove::Home),
        Key::End => Some(CursorMove::End),
        _ => None,
    }
}

/// Finds the move that a key makes in a list.
pub fn cursor_move(key: Key) -> (step: Option<CursorMove>)
    ensures
        step == move_of(key),
{
    match key {
        Key::Up => Some(CursorMove::Up),
        Key::Down => Some(CursorMove::Down),
        Key::PageUp => Some(CursorMove::PageUp),
        Key::PageDown => Some(CursorMove::PageDown),
        Key::Home => Some(CursorMove::Home),
        Key::End => Some(CursorMove::End),
        _ => None,
    }
}

/// Where a key leaves the cursor of a list.
pub open spec fn place_after(key: Key, place: nat, total: nat) -> nat {
    match move_of(key) {
        Some(step) => cursor_after(step, place, total),
        None => place,
    }
}

/// Whether a key leaves a page from which `q` and Esc lead back.
pub open spec fn leads_back(key: Key) -> bool {
    key == Key::Char('q') || key == Key::Esc
}

/// Tells whether a key leaves the help page.
pub fn run_help_view(key: Key) -> (closed: bool)
    ensures
        closed == (key == Key::F(1) || leads_back(key)),
{
    match key {
        Key::F(1) | Key::Char('q') | Key::Esc => true,
        _ => false,
    }
}

/// Tells whether a key leaves the about page.
pub fn run_about_view(key: Key) -> (closed: bool)
    ensures
        closed == (key == Key::F(7) || leads_back(key)),
{
    match key {
        Key::F(7) | Key::Char('q') | Key::Esc => true,
        _ => false,
    }
}

/// What a key asks for in a comparison.
#[derive(Debug, Clone, Copy, PartialEq, Eq, Structural)]
pub enum DiffAction {
    Stay,
    Close,
    Help,
    About,
}

/// What a key asks for in a comparison.
pub open spec fn diff_action(key: Key) -> DiffAction {
    if key == Key::F(3) || leads_back(key) {
        DiffAction::Close
    } else if key == Key::F(1) {
        DiffAction::Help
    } else if key == Key::F(7) {
        DiffAction::About
    } else {
        DiffAction::Stay
    }
}

/// Answers a key in a comparison of `total` rows.
pub fn run_diff_view(key: Key, selected: &mut usize, total: usize) -> (action: DiffAction)
    ensures
        action == diff_action(key),
        *final(selected) == place_after(key, *old(selected) as nat, total as nat),
{
    if let Some(step) = cursor_move(key) {
        *selected = move_cursor(step, *selected, total);
    }
    match key {
        Key::Char('q') | Key::Esc | Key::F(3) => DiffAction::Close,
        Key::F(1) => DiffAction::Help,
        Key::F(7) => DiffAction::About,
        _ => DiffAction::Stay,
    }
}

/// What a key asks for in the project list.
#[derive(Debug)]
pub enum ListAction {
    Stay,
    /// Go back, with the project that was chosen, if any.
    Return(Option<String>),
}

/// What a key asks for in the project list, as text.
pub enum ListActionView {
    Stay,
    Return(Option<Seq<char>>),
}

impl View for ListAction {
    type V = ListActionView;

    open spec fn view(&self) -> ListActionView {
        match self {
            ListAction::Stay => ListActionView::Stay,
            ListAction::Return(name) => ListActionView::Return(opt_view(*name)),
        }
    }
}

/// What a key asks for in a list of projects.
pub open spec fn list_action(key: Key, projects: Seq<Seq<char>>, selected: nat) -> ListActionView {
    if key == Key::Enter {
        ListActionView::Return(
            if selected < projects.len() {
                Some(projects[selected as int])
            } else {
                None
            },
        )
    } else if leads_back(key) {
        ListActionView::Return(None)
    } else {
        ListActionView::Stay
    }
}

/// Answers a key in the project list.
pub fn select_project_from_list(key: Key, projects: &[String], selected: &mut usize) -> (action:
    ListAction)
    ensures
        action@ == list_action(key, views(projects@), *old(selected) as nat),
        *final(selected) == place_after(key, *old(selected) as nat, projects@.len()),
{
    if let Some(step) = cursor_move(key) {
        *selected = move_cursor(step, *selected, projects.len());
    }
    match key {
        Key::Enter => {
            if *selected < projects.len() {
                assert(views(projects@)[*selected as int] == projects@[*selected as int]@);
                ListAction::Return(Some(projects[*selected].clone()))
            } else {
                ListAction::Return(None)
            }
        },
        Key::Char('q') | Key::Esc => ListAction::Return(None),
        _ => ListAction::Stay,
    }
}

/// A line of text after a key: characters are added at its end, and Backspace takes the last away.
pub open spec fn typed(press: KeyPress, input: Seq<char>) -> Seq<char> {
    match press.key {
        Key::Backspace => if input.len() > 0 {
            input.drop_last()
        } else {
            input
        },
        Key::Char(ch) => if press.control {
            input
        } else {
            input.push(ch)
        },
        _ => input,
    }
}

/// Edits a line of text.
fn edit_line(press: KeyPress, input: &mut String)
    ensures
        final(input)@ == typed(press, old(input)@),
{
    match press.key {
        Key::Backspace => {
            let _ = input.pop();
        },
        Key::Char(ch) => {
            if !press.control {
                input.push(ch);
            }
        },
        _ => {},
    }
}

/// Backspace takes back a typed character.
pub proof fn law_backspace_undoes_typing(ch: char, input: Seq<char>, control: bool)
    ensures
        typed(
            (KeyPress { key: Key::Backspace, control }),
            typed((KeyPress { key: Key::Char(ch), control: false }), input),
        ) == input,
{
    assert(input.push(ch).drop_last() == input);
}

/// What a key asks for in a prompt for a line of text.
#[derive(Debug, Clone, Copy, PartialEq, Eq, Structural)]
pub enum TextAction {
    Stay,
    Confirm,
    Cancel,
}

/// Answers a key in a prompt for a line of text.
pub fn prompt_text(press: KeyPress, input: &mut String) -> (action: TextAction)
    ensures
        action == (match press.key {
            Key::Enter => TextAction::Confirm,
            Key::Esc => TextAction::Cancel,
            _ => TextAction::Stay,
        }),
        final(input)@ == typed(press, old(input)@),
{
    edit_line(press, input);
    match press.key {
        Key::Enter => TextAction::Confirm,
        Key::Esc => TextAction::Cancel,
        _ => TextAction::Stay,
    }
}

/// What a key asks for in the project prompt.
#[derive(Debug)]
pub enum PromptAction {
    Stay,
    /// Show the list of saved projects.
    List,
    /// Start the default session.
    UseDefault,
    /// Load a project, or create it.
    Open(String),
}

/// What a key asks for in the project prompt, as text.
pub enum PromptActionView {
    Stay,
    List,
    UseDefault,
    Open(Seq<char>),
}

impl View for PromptAction {
    type V = PromptActionView;

    open spec fn view(&self) -> PromptActionView {
        match self {
            PromptAction::Stay => PromptActionView::Stay,
            PromptAction::List => PromptActionView::List,
            PromptAction::UseDefault => PromptActionView::UseDefault,
            PromptAction::Open(name) => PromptActionView::Open(name@),
        }
    }
}

/// Whether a key asks for the list of projects.
pub open spec fn asks_for_list(press: KeyPress) -> bool {
    !press.control && (press.key == Key::Char('l') || press.key == Key::Char('L'))
}

/// What a key asks for in the project prompt.
pub open spec fn prompt_action(press: KeyPress, input: Seq<char>) -> PromptActionView {
    if asks_for_list(press) {
        PromptActionView::List
    } else if press.key == Key::Enter {
        if trimmed(input).len() == 0 {
            PromptActionView::UseDefault
        } else {
            PromptActionView::Open(sanitized(trimmed(input)))
        }
    } else if press.key == Key::Esc {
        PromptActionView::UseDefault
    } else {
        PromptActionView::Stay
    }
}

/// Answers a key in the project prompt.
pub fn prompt_project(press: KeyPress, input: &mut String) -> (action: PromptAction)
    ensures
        action@ == prompt_action(press, old(input)@),
        final(input)@ == (if asks_for_list(press) {
            old(input)@
        } else {
            typed(press, old(input)@)
        }),
{
    if !press.control {
        match press.key {
            Key::Char('l') | Key::Char('L') => {
                return PromptAction::List;
            },
            _ => {},
        }
    }
    match press.key {
        Key::Enter => {
            let name = trim(input.as_str());
            if name.as_str().is_empty() {
                PromptAction::UseDefault
            } else {
                PromptAction::Open(sanitize_project_name(name.as_str()))
            }
        },
        Key::Esc => PromptAction::UseDefault,
        _ => {
            edit_line(press, input);
            PromptAction::Stay
        },
    }
}

/// The name that the project prompt starts with.
pub fn prompt_start(state: &State) -> (input: String)
    ensures
        input@ == (match state@.project_name {
            Some(name) => name,
            None => Seq::empty(),
        }),
{
    match &state.project_name {
        Some(name) => name.clone(),
        None => String::new(),
    }
}

/// Opens a project by name: the stored one, or else a new one with the folders and indexes of the
/// current project. A new one is to be saved.
pub fn open_project(current: &State, name: &str, stored: Option<State>) -> (opened: (State, bool))
    requires
        current.wf(),
        stored is Some ==> stored->0.wf(),
    ensures
        opened.0.wf(),
        opened.0@ == (StateView {
            project_name: Some(name@),
            ..match stored {
                Some(found) => found@,
                None => current@,
            }
        }),
        opened.1 == (stored is None),
{
    let is_new = stored.is_none();
    let mut state = match stored {
        Some(found) => found,
        None => current.clone_for_project(),
    };
    state.project_name = Some(name.to_owned());
    (state, is_new)
}

/// The folder that a panel starts in: the one it showed last, else the indexed one, else the current
/// folder.
pub open spec fn first_folder(
    shown: Option<Seq<char>>,
    indexed: Option<Seq<char>>,
    current: Seq<char>,
) -> Seq<char> {
    match (shown, indexed) {
        (Some(folder), _) => folder,
        (None, Some(folder)) => folder,
        (None, None) => current,
    }
}

/// Chooses the folder that a panel starts in.
pub fn start_folder(state: &State, panel: ActivePanel, current: &str) -> (folder: String)
    ensures
        folder@ == (match panel {
            ActivePanel::Left => first_folder(state@.left_dir, state@.fresh_root, current@),
            ActivePanel::Right => first_folder(
                state@.right_dir,
                state@.production_root,
                current@,
            ),
        }),
{
    let (shown, indexed) = match panel {
        ActivePanel::Left => (&state.left_dir, &state.fresh_root),
        ActivePanel::Right => (&state.right_dir, &state.production_root),
    };
    match (shown, indexed) {
        (Some(folder), _) => folder.clone(),
        (None, Some(folder)) => folder.clone(),
        (None, None) => current.to_owned(),
    }
}

/// The two panels, which of them is worked in, and the last message.
#[derive(Debug)]
pub struct Session {
    pub left: BrowserPanel,
    pub right: BrowserPanel,
    pub active_panel: ActivePanel,
    pub message: String,
}

/// The two panels as text.
#[verifier::ext_equal]
pub struct SessionView {
    pub left: PanelView,
    pub right: PanelView,
    pub active_panel: ActivePanel,
    pub message: Seq<char>,
}

impl View for Session {
    type V = SessionView;

    open spec fn view(&self) -> SessionView {
        SessionView {
            left: self.left@,
            right: self.right@,
            active_panel: self.active_panel,
            message: self.message@,
        }
    }
}

impl SessionView {
    /// Both cursors stand on a line.
    pub open spec fn wf(self) -> bool {
        self.left.wf() && self.right.wf()
    }

    /// The panel that is worked in.
    pub open spec fn active(self) -> PanelView {
        match self.active_panel {
            ActivePanel::Left => self.left,
            ActivePanel::Right => self.right,
        }
    }

    /// The session with another active panel.
    pub open spec fn with_active(self, panel: PanelView) -> SessionView {
        match self.active_panel {
            ActivePanel::Left => SessionView { left: panel, ..self },
            ActivePanel::Right => SessionView { right: panel, ..self },
        }
    }

    /// The session with another message.
    pub open spec fn saying(self, message: Seq<char>) -> SessionView {
        SessionView { message, ..self }
    }

    /// The session with a message on the folder of the active panel.
    pub open spec fn saying_folder(self) -> SessionView {
        self.saying(panel_message(self.active_panel, self.left, self.right))
    }
}

/// What a key in the panels asks for beyond the panels themselves.
#[derive(Debug)]
pub enum Action {
    Stay,
    /// Save the project and leave.
    Quit,
    Help,
    About,
    /// Resolve the path of a folder and show the folder in the active panel.
    OpenFolder(String),
    /// Show a folder in the active panel.
    ShowFolder(String),
    /// Compare the files of a row.
    ShowDiff(TuiRow),
    /// Copy the file of a row if it is new.
    CopyFile(TuiRow),
    /// Do other work.
    Run(Task),
}

/// What a key in the panels asks for, as text.
pub enum ActionView {
    Stay,
    Quit,
    Help,
    About,
    OpenFolder(Seq<char>),
    ShowFolder(Seq<char>),
    ShowDiff(TuiRowView),
    CopyFile(TuiRowView),
    Run(Task),
}

impl View for Action {
    type V = ActionView;

    open spec fn view(&self) -> ActionView {
        match self {
            Action::Stay => ActionView::Stay,
            Action::Quit => ActionView::Quit,
            Action::Help => ActionView::Help,
            Action::About => ActionView::About,
            Action::OpenFolder(folder) => ActionView::OpenFolder(folder@),
            Action::ShowFolder(folder) => ActionView::ShowFolder(folder@),
            Action::ShowDiff(row) => ActionView::ShowDiff(row@),
            Action::CopyFile(row) => ActionView::CopyFile(row@),
            Action::Run(task) => ActionView::Run(*task),
        }
    }
}

/// What is said when two equal files are to be compared.
pub const ALREADY_SAME: &'static str = "F3: selected file is already the same";

/// What is said when no file is selected for a comparison.
pub const NO_FILE_TO_COMPARE: &'static str =
    "F3: select a left-panel file after both roots are indexed";

/// What is said when no file is selected for copying.
pub const NO_FILE_TO_COPY: &'static str =
    "F5: select a left-panel NEW file after both roots are indexed";

/// What a key in the panels asks for.
pub open spec fn action_of(session: SessionView, state: StateView, press: KeyPress) -> ActionView {
    match press.key {
        Key::Char('q') | Key::Esc => ActionView::Quit,
        Key::F(1) => ActionView::Help,
        Key::F(7) => ActionView::About,
        Key::Enter => match session.active().folder_to_enter() {
            Some(folder) => ActionView::OpenFolder(folder),
            None => ActionView::Stay,
        },
        Key::Backspace => match parent_of(session.active().current_dir) {
            Some(folder) => ActionView::ShowFolder(folder),
            None => ActionView::Stay,
        },
        Key::Char('a') => if press.control {
            ActionView::Run(Task::IndexFresh)
        } else {
            ActionView::Stay
        },
        Key::Char('s') => if press.control {
            ActionView::Run(Task::IndexProduction)
        } else {
            ActionView::Stay
        },
        Key::F(3) => match selected_row(state, session.left) {
            Some(row) => if row.status != FileStatus::Same {
                ActionView::ShowDiff(row)
            } else {
                ActionView::Stay
            },
            None => ActionView::Stay,
        },
        Key::F(5) => match selected_row(state, session.left) {
            Some(row) => ActionView::CopyFile(row),
            None => ActionView::Stay,
        },
        Key::F(6) => ActionView::Run(Task::Deploy(6)),
        Key::F(8) => ActionView::Run(Task::BackUp),
        Key::F(9) => ActionView::Run(Task::MakeFolder),
        Key::F(10) => ActionView::Run(Task::Deploy(10)),
        _ => ActionView::Stay,
    }
}

/// The panels after a key.
pub open spec fn session_after(
    session: SessionView,
    state: StateView,
    press: KeyPress,
) -> SessionView {
    match press.key {
        Key::Tab => SessionView { active_panel: session.active_panel.across(), ..session },
        Key::Enter => match session.active().folder_to_enter() {
            Some(_) => session,
            None => session.saying_folder(),
        },
        Key::Backspace => match parent_of(session.active().current_dir) {
            Some(_) => session,
            None => session.saying_folder(),
        },
        Key::F(3) => match selected_row(state, session.left) {
            Some(row) => if row.status != FileStatus::Same {
                session
            } else {
                session.saying(ALREADY_SAME@)
            },
            None => session.saying(NO_FILE_TO_COMPARE@),
        },
        Key::F(5) => match selected_row(state, session.left) {
            Some(_) => session,
            None => session.saying(NO_FILE_TO_COPY@),
        },
        _ => match move_of(press.key) {
            Some(step) => session.with_active(session.active().moved(step)),
            None => session,
        },
    }
}

impl Session {
    /// A session on two panels. The left panel is active.
    pub fn new(left: BrowserPanel, right: BrowserPanel) -> (session: Session)
        ensures
            session@ == (SessionView {
                left: left@,
                right: right@,
                active_panel: ActivePanel::Left,
                message: "Ready"@,
            }),
    {
        Session { left, right, active_panel: ActivePanel::Left, message: "Ready".to_owned() }
    }

    /// Says how a task ended.
    pub fn finish(&mut self, task: Task, outcome: Result<String, String>)
        ensures
            final(self)@ == old(self)@.saying(
                match outcome {
                    Ok(message) => message@,
                    Err(error) => failure_text(task, error@),
                },
            ),
    {
        self.message = match outcome {
            Ok(message) => message,
            Err(error) => failure_report(task, error.as_str()),
        };
    }

    /// Says which folder the active panel shows.
    fn say_folder(&mut self)
        ensures
            final(self)@ == old(self)@.saying_folder(),
    {
        self.message = current_panel_message(self.active_panel, &self.left, &self.right);
    }

    /// The panel that is worked in.
    pub fn active(&self) -> (panel: &BrowserPanel)
        ensures
            panel@ == self@.active(),
    {
        match self.active_panel {
            ActivePanel::Left => &self.left,
            ActivePanel::Right => &self.right,
        }
    }

    /// Answers a key in the panels.
    pub fn run_tui(&mut self, state: &State, press: KeyPress) -> (action: Action)
        requires
            state.wf(),
        ensures
            action@ == action_of(old(self)@, state@, press),
            final(self)@ == session_after(old(self)@, state@, press),
            old(self)@.wf() ==> final(self)@.wf(),
    {
        match press.key {
            Key::Char('q') | Key::Esc => Action::Quit,
            Key::F(1) => Action::Help,
            Key::Tab => {
                self.active_panel = self.active_panel.other();
                Action::Stay
            },
            Key::Up => {
                active_browser_mut(&mut self.left, &mut self.right, self.active_panel).move_up();
                Action::Stay
            },
            Key::Down => {
                active_browser_mut(&mut self.left, &mut self.right, self.active_panel).move_down();
                Action::Stay
            },
            Key::PageUp => {
                active_browser_mut(&mut self.left, &mut self.right, self.active_panel).page_up();
                Action::Stay
            },
            Key::PageDown => {
                active_browser_mut(&mut self.left, &mut self.right, self.active_panel).page_down();
                Action::Stay
            },
            Key::Home => {
                active_browser_mut(&mut self.left, &mut self.right, self.active_panel).home();
                Action::Stay
            },
            Key::End => {
                active_browser_mut(&mut self.left, &mut self.right, self.active_panel).end();
                Action::Stay
            },
            Key::Enter => match self.active().enter_selected() {
                Some(folder) => Action::OpenFolder(folder),
                None => {
                    self.say_folder();
                    Action::Stay
                },
            },
            Key::Backspace => match self.active().go_parent() {
                Some(folder) => Action::ShowFolder(folder),
                None => {
                    self.say_folder();
                    Action::Stay
                },
            },
            Key::Char('a') => if press.control {
                Action::Run(Task::IndexFresh)
            } else {
                Action::Stay
            },
            Key::Char('s') => if press.control {
                Action::Run(Task::IndexProduction)
            } else {
                Action::Stay
            },
            Key::F(3) => match selected_browser_row(state, &self.left) {
                Some(row) => if row.status != FileStatus::Same {
                    Action::ShowDiff(row)
                } else {
                    self.message = ALREADY_SAME.to_owned();
                    Action::Stay
                },
                None => {
                    self.message = NO_FILE_TO_COMPARE.to_owned();
                    Action::Stay
                },
            },
            Key::F(5) => match selected_browser_row(state, &self.left) {
                Some(row) => Action::CopyFile(row),
                None => {
                    self.message = NO_FILE_TO_COPY.to_owned();
                    Action::Stay
                },
            },
            Key::F(6) => Action::Run(Task::Deploy(6)),
            Key::F(7) => Action::About,
            Key::F(8) => Action::Run(Task::BackUp),
            Key::F(9) => Action::Run(Task::MakeFolder),
            Key::F(10) => Action::Run(Task::Deploy(10)),
            _ => Action::Stay,
        }
    }

    /// Shows a folder in the active panel and takes over the outcome of listing it. What is said
    /// changes only where that succeeded.
    pub fn show_folder(&mut self, folder: String, listing: Result<Vec<FsEntry>, String>) -> (done:
        Result<(), String>)
        ensures
            done == listing_error(listing),
            ({
                let shown = old(self)@.with_active(
                    old(self)@.active().showing(folder@, listed_lines(listing)),
                );
                final(self)@ == if listing is Ok {
                    shown.saying_folder()
                } else {
                    shown
                }
            }),
            old(self)@.wf() ==> final(self)@.wf(),
    {
        let done = active_browser_mut(
            &mut self.left,
            &mut self.right,
            self.active_panel,
        ).show_folder(folder, listing);
        if done.is_ok() {
            self.say_folder();
        }
        done
    }

    /// Takes over the outcome of reading the folder of a panel anew.
    pub fn refresh_panel(
        &mut self,
        panel: ActivePanel,
        listing: Result<Vec<FsEntry>, String>,
    ) -> (done: Result<(), String>)
        ensures
            done == listing_error(listing),
            final(self)@ == (match panel {
                ActivePanel::Left => SessionView {
                    left: old(self)@.left.reread(listed_lines(listing)),
                    ..old(self)@
                },
                ActivePanel::Right => SessionView {
                    right: old(self)@.right.reread(listed_lines(listing)),
                    ..old(self)@
                },
            }),
            old(self)@.wf() ==> final(self)@.wf(),
    {
        active_browser_mut(&mut self.left, &mut self.right, panel).refresh(listing)
    }

    /// Moves the cursor of the active panel to the first line that leads to a path, if there is one.
    pub fn select_in_active(&mut self, path: &str)
        ensures
            final(self)@ == old(self)@.with_active(final(self)@.active()),
            final(self)@.active() == (PanelView {
                selected: final(self)@.active().selected,
                ..old(self)@.active()
            }),
            crate::panel::selects_path(
                old(self)@.active(),
                path@,
                final(self)@.active().selected,
            ),
            old(self)@.wf() ==> final(self)@.wf(),
    {
        select_entry_by_path(
            active_browser_mut(&mut self.left, &mut self.right, self.active_panel),
            path,
        );
    }

    /// Keeps the folders that the panels show in the project.
    pub fn remember_folders(&self, state: &mut State)
        ensures
            final(state)@ == (StateView {
                left_dir: Some(self@.left.current_dir),
                right_dir: Some(self@.right.current_dir),
                ..old(state)@
            }),
            old(state).wf() ==> final(state).wf(),
    {
        state.left_dir = Some(self.left.current_dir.clone());
        state.right_dir = Some(self.right.current_dir.clone());
    }
}

/// Switching the active panel twice leads back.
pub proof fn law_tab_twice_changes_nothing(
    session: SessionView,
    state: StateView,
    control: bool,
)
    ensures
        ({
            let press = KeyPress { key: Key::Tab, control };
            session_after(session_after(session, state, press), state, press) == session
        }),
{
}

/// No key moves a cursor off the lines of its panel.
pub proof fn law_cursors_stay_on_lines(session: SessionView, state: StateView, press: KeyPress)
    requires
        session.wf(),
    ensures
        session_after(session, state, press).wf(),
{
}

/// A key changes the panel across from the active one in no way.
pub proof fn law_keys_leave_the_other_panel_alone(
    session: SessionView,
    state: StateView,
    press: KeyPress,
)
    ensures
        session.active_panel == ActivePanel::Left ==> session_after(session, state, press).right
            == session.right,
        session.active_panel == ActivePanel::Right ==> session_after(session, state, press).left
            == session.left,
{
}

/// F3 on a file of the left panel asks for its comparison exactly when the indexes do not hold equal
/// entries for it: always for a file that one index holds, and for one that both hold where its
/// entries differ. It says that the file is the same only where both hold equal entries, and for a
/// file that neither holds it asks for another choice. The row handed on names the file on the sides
/// that have it.
pub proof fn law_differing_files_are_compared(
    session: SessionView,
    state: StateView,
    path: Seq<char>,
    control: bool,
)
    requires
        session.left.selected < session.left.entries.len(),
        !session.left.entries[session.left.selected as int].is_dir,
        state.fresh_root is Some,
        relative_to(
            state.fresh_root->0,
            session.left.entries[session.left.selected as int].path,
        ) == Some(path),
    ensures
        ({
            let press = KeyPress { key: Key::F(3), control };
            let action = action_of(session, state, press);
            let after = session_after(session, state, press);
            let in_fresh = state.fresh.contains_key(path);
            let in_production = state.production.contains_key(path);
            let same = in_fresh && in_production && state.fresh[path] == state.production[path];
            &&& action is ShowDiff <==> (in_fresh || in_production) && !same
            &&& action is ShowDiff || action is Stay
            &&& action is ShowDiff ==> {
                let row = action->ShowDiff_0;
                &&& after == session
                &&& row.fresh_path == if in_fresh {
                    Some(path)
                } else {
                    None
                }
                &&& row.production_path == if in_production {
                    Some(path)
                } else {
                    None
                }
                &&& row.status == FileStatus::New <==> in_fresh && !in_production
                &&& row.status == FileStatus::Deleted <==> !in_fresh && in_production
                &&& row.status == FileStatus::Updated <==> in_fresh && in_production
            }
            &&& same ==> after == (SessionView {
                message: "F3: selected file is already the same"@,
                ..session
            })
            &&& !in_fresh && !in_production ==> after == (SessionView {
                message: "F3: select a left-panel file after both roots are indexed"@,
                ..session
            })
        }),
{
}

/// F5 on a file of the left panel hands on its row wherever an index holds the file, and asks for
/// another choice where none does.
pub proof fn law_known_files_can_be_copied(
    session: SessionView,
    state: StateView,
    path: Seq<char>,
    control: bool,
)
    requires
        session.left.selected < session.left.entries.len(),
        !session.left.entries[session.left.selected as int].is_dir,
        state.fresh_root is Some,
        relative_to(
            state.fresh_root->0,
            session.left.entries[session.left.selected as int].path,
        ) == Some(path),
    ensures
        ({
            let press = KeyPress { key: Key::F(5), control };
            let action = action_of(session, state, press);
            let after = session_after(session, state, press);
            let in_fresh = state.fresh.contains_key(path);
            let in_production = state.production.contains_key(path);
            &&& action is CopyFile <==> in_fresh || in_production
            &&& action is CopyFile || action is Stay
            &&& action is CopyFile ==> {
                let row = action->CopyFile_0;
                &&& after == session
                &&& row.fresh_path == if in_fresh {
                    Some(path)
                } else {
                    None
                }
                &&& row.production_path == if in_production {
                    Some(path)
                } else {
                    None
                }
                &&& row.status == FileStatus::New <==> in_fresh && !in_production
                &&& row.status == FileStatus::Deleted <==> !in_fresh && in_production
                &&& row.status == FileStatus::Same <==> in_fresh && in_production
                    && state.fresh[path] == state.production[path]
            }
            &&& action is Stay ==> after == (SessionView {
                message: "F5: select a left-panel NEW file after both roots are indexed"@,
                ..session
            })
        }),
{
}

/// Without a file of the fresh folder under the cursor of the left panel, F3 and F5 do nothing but ask
/// for one.
pub proof fn law_no_file_is_compared_or_copied_without_choice(
    session: SessionView,
    state: StateView,
    control: bool,
)
    requires
        session.left.selected >= session.left.entries.len()
            || session.left.entries[session.left.selected as int].is_dir || state.fresh_root is None
            || relative_to(
            state.fresh_root->0,
            session.left.entries[session.left.selected as int].path,
        ) is None,
    ensures
        ({
            let compare = KeyPress { key: Key::F(3), control };
            let copy = KeyPress { key: Key::F(5), control };
            &&& action_of(session, state, compare) is Stay
            &&& action_of(session, state, copy) is Stay
            &&& session_after(session, state, compare) == (SessionView {
                message: "F3: select a left-panel file after both roots are indexed"@,
                ..session
            })
            &&& session_after(session, state, copy) == (SessionView {
                message: "F5: select a left-panel NEW file after both roots are indexed"@,
                ..session
            })
        }),
{
}

/// Which keys ask for what: each request has its key and no other. Indexing takes the control key, so
/// that letters alone change nothing.
pub proof fn law_each_request_has_its_key(session: SessionView, state: StateView, press: KeyPress)
    ensures
        ({
            let action = action_of(session, state, press);
            let key = press.key;
            &&& action is Quit <==> key == Key::Char('q') || key == Key::Esc
            &&& action is Help <==> key == Key::F(1)
            &&& action is About <==> key == Key::F(7)
            &&& action == ActionView::Run(Task::IndexFresh) <==> key == Key::Char('a')
                && press.control
            &&& action == ActionView::Run(Task::IndexProduction) <==> key == Key::Char('s')
                && press.control
            &&& action == ActionView::Run(Task::BackUp) <==> key == Key::F(8)
            &&& action == ActionView::Run(Task::MakeFolder) <==> key == Key::F(9)
            &&& action == ActionView::Run(Task::Deploy(6)) <==> key == Key::F(6)
            &&& action == ActionView::Run(Task::Deploy(10)) <==> key == Key::F(10)
            &&& action is Run ==> key == Key::F(6) || key == Key::F(8) || key == Key::F(9) || key
                == Key::F(10) || press.control
            &&& action is OpenFolder ==> key == Key::Enter
            &&& action is ShowFolder ==> key == Key::Backspace
            &&& action is ShowDiff ==> key == Key::F(3)
            &&& action is CopyFile ==> key == Key::F(5)
        }),
{
}

/// A key that asks for something leaves the panels and the message as they are.
pub proof fn law_requests_change_nothing_by_themselves(
    session: SessionView,
    state: StateView,
    press: KeyPress,
)
    requires
        action_of(session, state, press) !is Stay,
    ensures
        session_after(session, state, press) == session,
{
}

/// Keys without a meaning change nothing: other characters and function keys, and every other key.
pub proof fn law_other_keys_change_nothing(
    session: SessionView,
    state: StateView,
    ch: char,
    number: u8,
    control: bool,
)
    ensures
        ch != 'q' && !((ch == 'a' || ch == 's') && control) ==> action_of(
            session,
            state,
            (KeyPress { key: Key::Char(ch), control }),
        ) is Stay,
        session_after(session, state, (KeyPress { key: Key::Char(ch), control })) == session,
        number == 0 || number == 2 || number == 4 || number > 10 ==> action_of(
            session,
            state,
            (KeyPress { key: Key::F(number), control }),
        ) is Stay,
        number != 3 && number != 5 ==> session_after(
            session,
            state,
            (KeyPress { key: Key::F(number), control }),
        ) == session,
        action_of(session, state, (KeyPress { key: Key::Other, control })) is Stay,
        session_after(session, state, (KeyPress { key: Key::Other, control })) == session,
{
}

/// Enter on a folder asks for that folder. On a file, or on no line at all, it only says which folder
/// the panel shows.
pub proof fn law_enter_opens_folders_only(session: SessionView, state: StateView, control: bool)
    ensures
        ({
            let press = KeyPress { key: Key::Enter, control };
            let action = action_of(session, state, press);
            let after = session_after(session, state, press);
            let panel = if session.active_panel == ActivePanel::Left {
                session.left
            } else {
                session.right
            };
            if panel.selected < panel.entries.len()
                && panel.entries[panel.selected as int].is_dir {
                action == ActionView::OpenFolder(panel.entries[panel.selected as int].path)
                    && after == session
            } else {
                action is Stay && after == (SessionView { message: after.message, ..session })
                    && after.message == (if session.active_panel == ActivePanel::Left {
                    "Left: "@
                } else {
                    "Right: "@
                }) + panel.current_dir
            }
        }),
{
}

/// Backspace asks for the folder around the one that the active panel shows: the one with all its
/// components but the last. At the root, and without any component, it only says which folder that
/// is.
pub proof fn law_backspace_leads_out_of_the_folder(
    session: SessionView,
    state: StateView,
    control: bool,
)
    ensures
        ({
            let press = KeyPress { key: Key::Backspace, control };
            let action = action_of(session, state, press);
            let after = session_after(session, state, press);
            let folder = if session.active_panel == ActivePanel::Left {
                session.left.current_dir
            } else {
                session.right.current_dir
            };
            if components(folder).len() == 0 || components(folder) == seq![seq!['/']] {
                action is Stay && after == (SessionView { message: after.message, ..session })
                    && after.message == (if session.active_panel == ActivePanel::Left {
                    "Left: "@
                } else {
                    "Right: "@
                }) + folder
            } else {
                action is ShowFolder && components(action->ShowFolder_0) == components(
                    folder,
                ).drop_last() && after == session
            }
        }),
{
    let folder = session.active().current_dir;
    if has_parent(folder) {
        lemma_parent_components(folder);
    }
}

/// The cursor keys move the cursor of the active panel and change nothing else: to the next line or
/// the one before, to the first or the last, or ten lines on, as far as the lines reach.
pub proof fn law_cursor_keys_move_the_active_cursor(
    session: SessionView,
    state: StateView,
    control: bool,
)
    requires
        session.active().selected < session.active().entries.len(),
    ensures
        ({
            let panel = session.active();
            let place = panel.selected as int;
            let last = panel.entries.len() - 1;
            let after = |key: Key| session_after(session, state, KeyPress { key, control });
            let moved = |to: int|
                if session.active_panel == ActivePanel::Left {
                    SessionView {
                        left: PanelView { selected: to as nat, ..session.left },
                        ..session
                    }
                } else {
                    SessionView {
                        right: PanelView { selected: to as nat, ..session.right },
                        ..session
                    }
                };
            &&& after(Key::Down) == moved(
                if place < last {
                    place + 1
                } else {
                    last
                },
            )
            &&& after(Key::Up) == moved(
                if place > 0 {
                    place - 1
                } else {
                    0
                },
            )
            &&& after(Key::PageDown) == moved(
                if place + 10 <= last {
                    place + 10
                } else {
                    last
                },
            )
            &&& after(Key::PageUp) == moved(
                if place >= 10 {
                    place - 10
                } else {
                    0
                },
            )
            &&& after(Key::Home) == moved(0)
            &&& after(Key::End) == moved(last)
        }),
{
}

/// Tab makes the other panel the active one and changes nothing else.
pub proof fn law_tab_changes_the_active_panel_only(
    session: SessionView,
    state: StateView,
    control: bool,
)
    ensures
        ({
            let press = KeyPress { key: Key::Tab, control };
            let after = session_after(session, state, press);
            &&& action_of(session, state, press) is Stay
            &&& after == (SessionView { active_panel: after.active_panel, ..session })
            &&& after.active_panel != session.active_panel
        }),
{
}

/// In a list, the cursor keys move the cursor as in a panel, and no other key moves it.
pub proof fn law_list_cursor_moves_like_a_panel_cursor(
    key: Key,
    panel: PanelView,
    session: SessionView,
    state: StateView,
    control: bool,
)
    requires
        session.active_panel == ActivePanel::Left,
        session.left == panel,
    ensures
        place_after(key, panel.selected, panel.entries.len()) == session_after(
            session,
            state,
            (KeyPress { key, control }),
        ).left.selected,
{
}

/// A comparison is left with the key that opened it or with one that leads out of the panels, and
/// help and about open from it as they do from the panels. Every other key stays in it.
pub proof fn law_comparison_is_left_as_it_was_entered(
    session: SessionView,
    state: StateView,
    key: Key,
)
    ensures
        ({
            let action = action_of(session, state, KeyPress { key, control: false });
            &&& diff_action(key) == DiffAction::Close <==> key == Key::F(3) || action is Quit
            &&& diff_action(key) == DiffAction::Help <==> action is Help
            &&& diff_action(key) == DiffAction::About <==> action is About
        }),
{
}

/// The keys that lead back from a page are those that lead out of the panels.
pub proof fn law_pages_are_left_like_the_panels(session: SessionView, state: StateView, key: Key)
    ensures
        leads_back(key) <==> action_of(
            session,
            state,
            (KeyPress { key, control: false }),
        ) is Quit,
        leads_back(key) <==> key == Key::Char('q') || key == Key::Esc,
{
}

/// Enter in the project list chooses the project under the cursor. `q` and Esc choose none, and every
/// other key leaves the list open.
pub proof fn law_enter_chooses_the_project_under_the_cursor(
    key: Key,
    projects: Seq<Seq<char>>,
    selected: nat,
)
    ensures
        selected < projects.len() ==> list_action(Key::Enter, projects, selected)
            == ListActionView::Return(Some(projects[selected as int])),
        projects.len() == 0 ==> list_action(Key::Enter, projects, selected)
            == ListActionView::Return(None),
        list_action(Key::Char('q'), projects, selected) == ListActionView::Return(None),
        list_action(Key::Esc, projects, selected) == ListActionView::Return(None),
        key != Key::Enter && key != Key::Esc && key != Key::Char('q') ==> list_action(
            key,
            projects,
            selected,
        ) is Stay,
{
}

/// A line of text after several characters were typed.
pub open spec fn typed_one_by_one(chars: Seq<char>, input: Seq<char>) -> Seq<char>
    decreases chars.len(),
{
    if chars.len() == 0 {
        input
    } else {
        typed(
            KeyPress { key: Key::Char(chars.last()), control: false },
            typed_one_by_one(chars.drop_last(), input),
        )
    }
}

/// What is typed character by character follows what was there.
pub proof fn law_typed_text_is_appended(chars: Seq<char>, input: Seq<char>)
    ensures
        typed_one_by_one(chars, input) == input + chars,
    decreases chars.len(),
{
    if chars.len() > 0 {
        law_typed_text_is_appended(chars.drop_last(), input);
        assert((input + chars.drop_last()).push(chars.last()) == input + chars);
    } else {
        assert(input + chars == input);
    }
}

/// No key but a character and Backspace changes a line of text, and no character does together with
/// the control key. Backspace on an empty line does nothing.
pub proof fn law_other_keys_leave_the_text(press: KeyPress, input: Seq<char>, control: bool)
    ensures
        press.key !is Char && press.key != Key::Backspace ==> typed(press, input) == input,
        press.control && press.key is Char ==> typed(press, input) == input,
        typed((KeyPress { key: Key::Backspace, control }), Seq::empty()) == Seq::<char>::empty(),
{
}

/// Enter in the project prompt opens the project whose name was typed, with the white space around it
/// taken off. A name of letters and digits is taken as it is; without a name, and with Esc, the
/// default session starts.
pub proof fn law_entered_name_is_opened(
    before: Seq<char>,
    name: Seq<char>,
    after: Seq<char>,
    control: bool,
)
    requires
        all_white(before),
        all_white(after),
        forall|i: int|
            0 <= i < name.len() ==> 'a' <= #[trigger] name[i] <= 'z' || 'A' <= name[i] <= 'Z'
                || '0' <= name[i] <= '9' || name[i] == '-' || name[i] == '_',
    ensures
        prompt_action((KeyPress { key: Key::Enter, control }), before + name + after) == (
        if name.len() == 0 {
            PromptActionView::UseDefault
        } else {
            PromptActionView::Open(name)
        }),
        prompt_action((KeyPress { key: Key::Esc, control }), before + name + after)
            == PromptActionView::UseDefault,
{
    assert(name.len() > 0 ==> !white_space(name[0]) && !white_space(name.last()));
    law_trimming_takes_off_the_surrounding_white_space(before, name, after);
    assert(name.len() > 0 ==> sanitized(name) == name);
}

/// A project is never opened under a name that holds anything but letters, digits, `-` and `_`.
pub proof fn law_opened_names_are_safe(press: KeyPress, input: Seq<char>, k: int)
    requires
        prompt_action(press, input) is Open,
        0 <= k < prompt_action(press, input)->Open_0.len(),
    ensures
        ({
            let ch = prompt_action(press, input)->Open_0[k];
            'a' <= ch <= 'z' || 'A' <= ch <= 'Z' || '0' <= ch <= '9' || ch == '-' || ch == '_'
        }),
{
}

/// The list of projects opens with `l` and `L` and with no other key; the control key turns it off.
/// Only Enter opens a project.
pub proof fn law_prompt_keys(press: KeyPress, input: Seq<char>)
    ensures
        prompt_action(press, input) is List <==> !press.control && (press.key == Key::Char('l')
            || press.key == Key::Char('L')),
        asks_for_list(press) <==> prompt_action(press, input) is List,
        prompt_action(press, input) is Open ==> press.key == Key::Enter,
        prompt_action(press, input) is UseDefault ==> press.key == Key::Enter || press.key
            == Key::Esc,
{
}

/// A panel starts in the folder that it showed last. Without one it starts in the indexed folder, and
/// without that in the current folder.
pub proof fn law_panels_start_where_they_were(
    shown: Seq<char>,
    indexed: Seq<char>,
    other: Option<Seq<char>>,
    current: Seq<char>,
)
    ensures
        first_folder(Some(shown), other, current) == shown,
        first_folder(None, Some(indexed), current) == indexed,
        first_folder(None, None, current) == current,
{
}

} // verus!
