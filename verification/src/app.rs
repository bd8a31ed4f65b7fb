//! The interactive session.
//!
//! A session holds the history, the query, the ranked results, the selection
//! and the window through which the results are shown. It takes one event at a
//! time and answers with what its surroundings have to do next. What it cannot
//! do itself, writing a deletion to the deletion log, it asks for and is told
//! the outcome of.

use vstd::prelude::*;
use crate::history::{
    delete_entry, models, other_than, record_of, remove_command, EntryModel, HistoryEntry,
};
use crate::search::{result_models, search_results, ResultModel, SearchEngine, SearchResult};
use crate::text::{chars_of, string_of};
use crate::ui::{last_offset, selection_in_bounds, viewport_offset, window_holds, UI};

verus! {

/// The exit status that asks the enclosing shell to run the chosen command.
pub const EXIT_CODE_EXECUTE: i32 = 10;

/// The rows by which a page key moves the selection.
pub const PAGE_SIZE: usize = 20;

/// No modifier key is held.
pub const MODIFIER_NONE: u8 = 0;

/// The shift key is held.
pub const MODIFIER_SHIFT: u8 = 1;

/// The control key is held.
pub const MODIFIER_CONTROL: u8 = 2;

/// What the user does.
#[derive(Clone, Copy, Debug, PartialEq, Eq, Structural)]
pub enum Event {
    InsertChar(char),
    Backspace,
    ClearQuery,
    CursorUp,
    CursorDown,
    PageUp,
    PageDown,
    SelectConfirm,
    SelectAndExecute,
    DeleteSelected,
    Cancel,
    Resize(usize),
}

/// A key of the keyboard.
#[derive(Clone, Copy, Debug, PartialEq, Eq, Structural)]
pub enum Key {
    Esc,
    Enter,
    Tab,
    Up,
    Down,
    PageUp,
    PageDown,
    Backspace,
    Char(char),
    Other,
}

/// What the surroundings of the session have to do after an event.
#[derive(Debug, PartialEq, Eq)]
pub enum Action {
    /// Show the session and wait for the next event.
    Continue,
    /// Append `record` to the deletion log and report the outcome for
    /// `command`.
    Persist { command: String, record: String },
    /// The session is over.
    Exit,
}

/// What an action holds, as plain values.
pub enum ActionModel {
    Continue,
    Persist { command: Seq<char>, record: Seq<char> },
    Exit,
}

impl View for Action {
    type V = ActionModel;

    open spec fn view(&self) -> ActionModel {
        match self {
            Action::Continue => ActionModel::Continue,
            Action::Persist { command, record } => ActionModel::Persist {
                command: command@,
                record: record@,
            },
            Action::Exit => ActionModel::Exit,
        }
    }
}

/// Why a session cannot begin.
#[derive(Clone, Copy, Debug, PartialEq, Eq, Structural)]
pub enum SessionError {
    /// No entry is left of the history.
    EmptyHistory,
}

/// The event that a key stands for, with the modifiers held. Control counts
/// only where it is the one modifier; a character is typed with no modifier or
/// with shift alone.
pub open spec fn event_of_key(key: Key, modifiers: u8) -> Option<Event> {
    let control = modifiers == MODIFIER_CONTROL;
    match key {
        Key::Esc => Some(Event::Cancel),
        Key::Enter => Some(Event::SelectConfirm),
        Key::Tab => Some(Event::SelectAndExecute),
        Key::Up => Some(Event::CursorUp),
        Key::Down => Some(Event::CursorDown),
        Key::PageUp => Some(Event::PageUp),
        Key::PageDown => Some(Event::PageDown),
        Key::Backspace => Some(Event::Backspace),
        Key::Char(c) => if control && c == 'c' {
            Some(Event::Cancel)
        } else if control && c == 'd' {
            Some(Event::DeleteSelected)
        } else if control && c == 'p' {
            Some(Event::CursorUp)
        } else if control && c == 'n' {
            Some(Event::CursorDown)
        } else if control && c == 'u' {
            Some(Event::ClearQuery)
        } else if modifiers == MODIFIER_NONE || modifiers == MODIFIER_SHIFT {
            Some(Event::InsertChar(c))
        } else {
            None
        },
        Key::Other => None,
    }
}

/// The event that `key` stands for, with `modifiers` held.
pub fn key_event(key: Key, modifiers: u8) -> (event: Option<Event>)
    ensures
        event == event_of_key(key, modifiers),
{
    let control = modifiers == MODIFIER_CONTROL;
    match key {
        Key::Esc => Some(Event::Cancel),
        Key::Enter => Some(Event::SelectConfirm),
        Key::Tab => Some(Event::SelectAndExecute),
        Key::Up => Some(Event::CursorUp),
        Key::Down => Some(Event::CursorDown),
        Key::PageUp => Some(Event::PageUp),
        Key::PageDown => Some(Event::PageDown),
        Key::Backspace => Some(Event::Backspace),
        Key::Char(c) => {
            if control && c == 'c' {
                Some(Event::Cancel)
            } else if control && c == 'd' {
                Some(Event::DeleteSelected)
            } else if control && c == 'p' {
                Some(Event::CursorUp)
            } else if control && c == 'n' {
                Some(Event::CursorDown)
            } else if control && c == 'u' {
                Some(Event::ClearQuery)
            } else if modifiers == MODIFIER_NONE || modifiers == MODIFIER_SHIFT {
                Some(Event::InsertChar(c))
            } else {
                None
            }
        },
        Key::Other => None,
    }
}

/// The query that a session begins with: the one given, or the empty one.
pub open spec fn typed(initial_query: Option<String>) -> Seq<char> {
    match initial_query {
        Some(query) => query@,
        None => Seq::empty(),
    }
}

/// The text that opens the status message of a failed deletion.
pub open spec fn failure_notice() -> Seq<char> {
    "Delete failed: "@
}

/// A selection held within `count` results: the last of them if it stood
/// beyond, 0 if there are none.
pub open spec fn clamped(selected: int, count: int) -> int {
    if count <= 0 {
        0
    } else if selected >= count {
        count - 1
    } else if selected < 0 {
        0
    } else {
        selected
    }
}

/// The state of a session, as plain values.
pub struct SessionModel {
    pub entries: Seq<EntryModel>,
    pub query: Seq<char>,
    pub results: Seq<ResultModel>,
    pub selected: int,
    pub offset: int,
    pub visible: int,
    pub status: Option<Seq<char>>,
    pub finished: bool,
    pub outcome: Option<Seq<char>>,
    pub execute: bool,
}

impl SessionModel {
    /// The results are those of the query, the selection is one of them, and
    /// the window is within the list and, where it has a row, shows the
    /// selection.
    pub open spec fn wf(self) -> bool {
        &&& self.results == search_results(self.entries, self.query)
        &&& selection_in_bounds(self.selected, self.results.len() as int)
        &&& self.visible >= 0
        &&& 0 <= self.offset <= last_offset(self.results.len() as int, self.visible)
        &&& self.visible >= 1 ==> window_holds(
            self.selected,
            self.offset,
            self.results.len() as int,
            self.visible,
        )
        &&& self.outcome is Some ==> self.finished
        &&& self.execute ==> self.outcome is Some
    }

    /// The session as it begins over `entries` with `query` typed: the first
    /// result is selected, the window has one row and stands at the top.
    pub open spec fn opening(entries: Seq<EntryModel>, query: Seq<char>) -> Self {
        SessionModel {
            entries,
            query,
            results: search_results(entries, query),
            selected: 0,
            offset: 0,
            visible: 1,
            status: None,
            finished: false,
            outcome: None,
            execute: false,
        }
    }

    /// The session with its window moved to where the selection is.
    pub open spec fn settled(self) -> Self {
        SessionModel {
            offset: viewport_offset(
                self.selected,
                self.offset,
                self.results.len() as int,
                self.visible,
            ),
            ..self
        }
    }

    /// The session searched anew: the results are those of `query` over
    /// `entries`, and the selection is held within them.
    pub open spec fn searched(self, entries: Seq<EntryModel>, query: Seq<char>) -> Self {
        let results = search_results(entries, query);
        SessionModel {
            entries,
            query,
            results,
            selected: clamped(self.selected, results.len() as int),
            ..self
        }
    }

    /// The session with another query: it is searched anew, and the window
    /// starts from the top again.
    pub open spec fn with_query(self, query: Seq<char>) -> Self {
        SessionModel { offset: 0, ..self.searched(self.entries, query) }.settled()
    }

    /// The session with the selection moved.
    pub open spec fn with_selection(self, selected: int) -> Self {
        SessionModel { selected, ..self }.settled()
    }

    /// The session ended on the selected command, if there is one.
    pub open spec fn chosen(self, execute: bool) -> Self {
        if self.selected < self.results.len() {
            SessionModel {
                finished: true,
                outcome: Some(self.results[self.selected].entry.command),
                execute,
                ..self
            }
        } else {
            SessionModel { finished: true, ..self }
        }
    }

    /// The session after an event. A session that is over stays as it is.
    /// Otherwise the status message is cleared, and then the event is taken.
    pub open spec fn step(self, event: Event) -> Self {
        if self.finished {
            self
        } else {
            let s = SessionModel { status: None, ..self };
            let count = s.results.len() as int;
            match event {
                Event::InsertChar(c) => s.with_query(s.query.push(c)),
                Event::Backspace => s.with_query(
                    if s.query.len() > 0 {
                        s.query.drop_last()
                    } else {
                        s.query
                    },
                ),
                Event::ClearQuery => s.with_query(Seq::empty()),
                Event::CursorUp => s.with_selection(clamped(s.selected - 1, count)),
                Event::CursorDown => s.with_selection(clamped(s.selected + 1, count)),
                Event::PageUp => s.with_selection(clamped(s.selected - PAGE_SIZE, count)),
                Event::PageDown => s.with_selection(clamped(s.selected + PAGE_SIZE, count)),
                Event::SelectConfirm => s.chosen(false),
                Event::SelectAndExecute => s.chosen(true),
                Event::DeleteSelected => s,
                Event::Cancel => SessionModel { finished: true, ..s },
                Event::Resize(visible) => SessionModel { visible: visible as int, ..s }.settled(),
            }
        }
    }

    /// What is to be done after an event: a deletion to persist, where the
    /// event asks to delete and there is a selection; nothing more to do where
    /// the session is over; else to go on.
    pub open spec fn request(self, event: Event) -> ActionModel {
        if self.step(event).finished {
            ActionModel::Exit
        } else if event == Event::DeleteSelected && self.selected < self.results.len() {
            let command = self.results[self.selected].entry.command;
            ActionModel::Persist { command, record: record_of(command) }
        } else {
            ActionModel::Continue
        }
    }

    /// The session after a key. A key that stands for no event clears the
    /// status message.
    pub open spec fn pressed(self, key: Key, modifiers: u8) -> Self {
        match event_of_key(key, modifiers) {
            Some(event) => self.step(event),
            None => if self.finished {
                self
            } else {
                SessionModel { status: None, ..self }
            },
        }
    }

    /// What is to be done after a key: what its event asks for; for a key
    /// that stands for no event, to go on unless the session is over.
    pub open spec fn answer(self, key: Key, modifiers: u8) -> ActionModel {
        match event_of_key(key, modifiers) {
            Some(event) => self.request(event),
            None => if self.finished {
                ActionModel::Exit
            } else {
                ActionModel::Continue
            },
        }
    }

    /// The session after the deletion of `command` has been persisted: the
    /// entries with that command leave, and the query is searched anew.
    pub open spec fn deleted(self, command: Seq<char>) -> Self {
        self.searched(self.entries.filter(other_than(command)), self.query).settled()
    }

    /// The session after a deletion has failed for `reason`: nothing changes
    /// but the status message.
    pub open spec fn failed(self, reason: Seq<char>) -> Self {
        SessionModel { status: Some(failure_notice() + reason), ..self }
    }
}

impl SessionModel {
    /// The session after a sequence of events, taken in order.
    pub open spec fn run(self, events: Seq<Event>) -> Self
        decreases events.len(),
    {
        if events.len() == 0 {
            self
        } else {
            self.run(events.drop_last()).step(events.last())
        }
    }
}

/// Moving the window to the selection makes a session well-formed whose
/// results and selection are in order.
proof fn lemma_settled_wf(session: SessionModel)
    requires
        session.results == search_results(session.entries, session.query),
        selection_in_bounds(session.selected, session.results.len() as int),
        session.visible >= 0,
        session.offset >= 0,
        session.outcome is Some ==> session.finished,
        session.execute ==> session.outcome is Some,
    ensures
        session.settled().wf(),
{
    let count = session.results.len() as int;
    crate::ui::lemma_viewport_in_list(session.selected, session.offset, count, session.visible);
    if session.visible >= 1 {
        crate::ui::lemma_viewport_holds(session.selected, session.offset, count, session.visible);
    }
}

/// A session searched anew has its results and its selection in order.
proof fn lemma_searched(session: SessionModel, entries: Seq<EntryModel>, query: Seq<char>)
    requires
        session.wf(),
    ensures
        session.searched(entries, query).settled().wf(),
        (SessionModel { offset: 0, ..session.searched(entries, query) }).settled().wf(),
{
    let next = session.searched(entries, query);
    lemma_settled_wf(next);
    lemma_settled_wf(SessionModel { offset: 0, ..next });
}

/// An event leaves a well-formed session well-formed.
pub proof fn lemma_step_wf(session: SessionModel, event: Event)
    requires
        session.wf(),
    ensures
        session.step(event).wf(),
{
    if !session.finished {
        let s = SessionModel { status: None, ..session };
        let count = s.results.len() as int;
        assert(s.wf());
        match event {
            Event::InsertChar(c) => {
                lemma_searched(s, s.entries, s.query.push(c));
            },
            Event::Backspace => {
                lemma_searched(
                    s,
                    s.entries,
                    if s.query.len() > 0 {
                        s.query.drop_last()
                    } else {
                        s.query
                    },
                );
            },
            Event::ClearQuery => {
                lemma_searched(s, s.entries, Seq::empty());
            },
            Event::CursorUp => {
                lemma_settled_wf(SessionModel { selected: clamped(s.selected - 1, count), ..s });
            },
            Event::CursorDown => {
                lemma_settled_wf(SessionModel { selected: clamped(s.selected + 1, count), ..s });
            },
            Event::PageUp => {
                lemma_settled_wf(
                    SessionModel { selected: clamped(s.selected - PAGE_SIZE, count), ..s },
                );
            },
            Event::PageDown => {
                lemma_settled_wf(
                    SessionModel { selected: clamped(s.selected + PAGE_SIZE, count), ..s },
                );
            },
            Event::SelectConfirm => {},
            Event::SelectAndExecute => {},
            Event::DeleteSelected => {},
            Event::Cancel => {},
            Event::Resize(visible) => {
                lemma_settled_wf(SessionModel { visible: visible as int, ..s });
            },
        }
    }
}

/// The news of a deletion, persisted or failed, leaves a well-formed session
/// well-formed.
pub proof fn lemma_deletion_wf(session: SessionModel, text: Seq<char>)
    requires
        session.wf(),
    ensures
        session.deleted(text).wf(),
        session.failed(text).wf(),
{
    lemma_searched(session, session.entries.filter(other_than(text)), session.query);
}

/// After every sequence of events the selection is one of the results, or 0
/// where there are none, and the window stays within the list; where the
/// window has one row or more, it shows the selection.
pub proof fn lemma_window_holds(session: SessionModel, events: Seq<Event>)
    requires
        session.wf(),
    ensures
        session.run(events).wf(),
        selection_in_bounds(
            session.run(events).selected,
            session.run(events).results.len() as int,
        ),
        0 <= session.run(events).offset <= last_offset(
            session.run(events).results.len() as int,
            session.run(events).visible,
        ),
        session.run(events).visible >= 1 ==> window_holds(
            session.run(events).selected,
            session.run(events).offset,
            session.run(events).results.len() as int,
            session.run(events).visible,
        ),
    decreases events.len(),
{
    if events.len() > 0 {
        lemma_window_holds(session, events.drop_last());
        lemma_step_wf(session.run(events.drop_last()), events.last());
    }
}

/// Events leave the history as it is: only a deletion changes it.
pub proof fn lemma_run_keeps_entries(session: SessionModel, events: Seq<Event>)
    ensures
        session.run(events).entries == session.entries,
    decreases events.len(),
{
    if events.len() > 0 {
        lemma_run_keeps_entries(session, events.drop_last());
    }
}

/// Once the deletion of a command is persisted, the command is gone from the
/// history and from the results, and stays away whatever events follow.
pub proof fn lemma_deleted_stays_away(
    session: SessionModel,
    command: Seq<char>,
    events: Seq<Event>,
)
    requires
        session.wf(),
    ensures
        forall|i: int|
            0 <= i < session.deleted(command).run(events).entries.len() ==> (
            #[trigger] session.deleted(command).run(events).entries[i]).command != command,
        forall|i: int|
            0 <= i < session.deleted(command).run(events).results.len() ==> (
            #[trigger] session.deleted(command).run(events).results[i]).entry.command != command,
{
    let start = session.deleted(command);
    let after = start.run(events);
    let keep = other_than(command);
    lemma_deletion_wf(session, command);
    lemma_window_holds(start, events);
    lemma_run_keeps_entries(start, events);
    assert forall|i: int| 0 <= i < after.entries.len() implies (#[trigger] after.entries[i]).command
        != command by {
        session.entries.lemma_filter_pred(keep, i);
    }
    assert forall|i: int| 0 <= i < after.results.len() implies (
    #[trigger] after.results[i]).entry.command != command by {
        crate::search::lemma_results_from_entries(after.entries, after.query, i);
        let entry = after.results[i].entry;
        let k = choose|k: int| 0 <= k < after.entries.len() && after.entries[k] == entry;
        session.entries.lemma_filter_pred(keep, k);
    }
}

/// Asked to delete, a session with a selection asks for the deletion of the
/// selected command to be persisted. Where that fails, the history, the
/// query, the results, the selection and the window are as they were, the
/// session goes on, and the status message names the failure until the next
/// event, which clears it.
pub proof fn lemma_failed_deletion(session: SessionModel, reason: Seq<char>, next: Event)
    requires
        session.wf(),
        !session.finished,
        session.selected < session.results.len(),
    ensures
        ({
            let command = session.results[session.selected].entry.command;
            let after = session.step(Event::DeleteSelected).failed(reason);
            &&& session.request(Event::DeleteSelected) == (ActionModel::Persist {
                command,
                record: record_of(command),
            })
            &&& after.entries == session.entries
            &&& after.query == session.query
            &&& after.results == session.results
            &&& after.selected == session.selected
            &&& after.offset == session.offset
            &&& after.status == Some(failure_notice() + reason)
            &&& !after.finished
            &&& after.outcome is None
            &&& after.wf()
            &&& after.step(next).status is None
        }),
{
}

/// Asked to delete, a session with a selection asks for the deletion of the
/// selected command to be persisted. Once that is done, the entries with that
/// command have left the history and the others stand in the order they had,
/// the query is as it was, the results are those of the query over what is
/// left, so that the command is in none of them, and the selection is where
/// it was, or on the last result if it stood beyond, or 0 where there are
/// none.
pub proof fn lemma_persisted_deletion(session: SessionModel)
    requires
        session.wf(),
        !session.finished,
        session.selected < session.results.len(),
    ensures
        ({
            let command = session.results[session.selected].entry.command;
            let after = session.step(Event::DeleteSelected).deleted(command);
            let count = after.results.len() as int;
            &&& session.request(Event::DeleteSelected) == (ActionModel::Persist {
                command,
                record: record_of(command),
            })
            &&& after.entries == session.entries.filter(other_than(command))
            &&& after.query == session.query
            &&& after.results == search_results(after.entries, after.query)
            &&& after.selected == if count == 0 {
                0
            } else if session.selected < count {
                session.selected
            } else {
                count - 1
            }
            &&& forall|i: int|
                0 <= i < after.entries.len() ==> (#[trigger] after.entries[i]).command != command
            &&& forall|i: int|
                0 <= i < after.results.len() ==> (#[trigger] after.results[i]).entry.command
                    != command
            &&& after.status is None
            &&& !after.finished
            &&& after.wf()
        }),
{
    let asked = session.step(Event::DeleteSelected);
    let command = session.results[session.selected].entry.command;
    lemma_step_wf(session, Event::DeleteSelected);
    lemma_deletion_wf(asked, command);
    lemma_deleted_stays_away(asked, command, Seq::empty());
}

/// The state of a session: what changes from event to event.
struct Session {
    entries: Vec<HistoryEntry>,
    query: String,
    results: Vec<SearchResult>,
    selected: usize,
    scroll_offset: usize,
    visible_height: usize,
    should_quit: bool,
    selected_command: Option<String>,
    execute_immediately: bool,
    status_message: Option<String>,
}

impl View for Session {
    type V = SessionModel;

    closed spec fn view(&self) -> SessionModel {
        SessionModel {
            entries: models(self.entries@),
            query: self.query@,
            results: result_models(self.results@),
            selected: self.selected as int,
            offset: self.scroll_offset as int,
            visible: self.visible_height as int,
            status: match self.status_message {
                Some(message) => Some(message@),
                None => None,
            },
            finished: self.should_quit,
            outcome: match self.selected_command {
                Some(command) => Some(command@),
                None => None,
            },
            execute: self.execute_immediately,
        }
    }
}

impl Session {
    /// The session over `entries` as it begins, with `query` typed.
    fn opening(engine: &SearchEngine, entries: Vec<HistoryEntry>, query: String) -> (session: Self)
        ensures
            session@ == SessionModel::opening(models(entries@), query@),
            session@.wf(),
    {
        let results = engine.search(entries.as_slice(), query.as_str());
        Session {
            entries,
            query,
            results,
            selected: 0,
            scroll_offset: 0,
            visible_height: 1,
            should_quit: false,
            selected_command: None,
            execute_immediately: false,
            status_message: None,
        }
    }

    /// A session over no history, which stands in while a session changes.
    fn blank() -> (session: Self)
        ensures
            session@.wf(),
    {
        let session = Session {
            entries: Vec::new(),
            query: String::new(),
            results: Vec::new(),
            selected: 0,
            scroll_offset: 0,
            visible_height: 1,
            should_quit: false,
            selected_command: None,
            execute_immediately: false,
            status_message: None,
        };
        assert(session@.results =~= search_results(session@.entries, session@.query));
        session
    }

    /// Moves the window to where the selection is.
    fn settle(&mut self, ui: &UI)
        ensures
            final(self)@ == old(self)@.settled(),
    {
        self.scroll_offset = ui.viewport(
            self.selected,
            self.scroll_offset,
            self.results.len(),
            self.visible_height,
        );
    }

    /// Searches anew, and holds the selection within the results.
    fn search_again(&mut self, engine: &SearchEngine)
        ensures
            final(self)@ == old(self)@.searched(old(self)@.entries, old(self)@.query),
    {
        let results = engine.search(self.entries.as_slice(), self.query.as_str());
        self.results = results;
        if self.results.len() == 0 {
            self.selected = 0;
        } else if self.selected >= self.results.len() {
            self.selected = self.results.len() - 1;
        }
    }

    /// Searches anew after the query has changed.
    fn update_search(&mut self, engine: &SearchEngine, ui: &UI)
        ensures
            final(self)@ == old(self)@.with_query(old(self)@.query),
    {
        self.search_again(engine);
        self.scroll_offset = 0;
        self.settle(ui);
    }

    /// Moves the selection to `selected`.
    fn select(&mut self, ui: &UI, selected: usize)
        ensures
            final(self)@ == old(self)@.with_selection(selected as int),
    {
        self.selected = selected;
        self.settle(ui);
    }

    /// Ends the session on the selected command, if there is one.
    fn select_command(&mut self, execute: bool)
        ensures
            final(self)@ == old(self)@.chosen(execute),
    {
        if self.selected < self.results.len() {
            self.selected_command = Some(self.results[self.selected].entry.command.clone());
            self.execute_immediately = execute;
        }
        self.should_quit = true;
    }

    /// The deletion to persist for the selected entry, if there is one.
    fn delete_selected(&self) -> (action: Action)
        ensures
            action@ == if self@.selected < self@.results.len() {
                ActionModel::Persist {
                    command: self@.results[self@.selected].entry.command,
                    record: record_of(self@.results[self@.selected].entry.command),
                }
            } else {
                ActionModel::Continue
            },
    {
        if self.selected < self.results.len() {
            let entry = &self.results[self.selected].entry;
            Action::Persist { command: entry.command.clone(), record: delete_entry(entry) }
        } else {
            Action::Continue
        }
    }

    /// Takes one event.
    fn handle_event(&mut self, engine: &SearchEngine, ui: &UI, event: Event) -> (action: Action)
        requires
            old(self)@.wf(),
        ensures
            final(self)@ == old(self)@.step(event),
            action@ == old(self)@.request(event),
            final(self)@.wf(),
    {
        if self.should_quit {
            return Action::Exit;
        }
        self.status_message = None;
        let count = self.results.len();
        match event {
            Event::InsertChar(c) => {
                self.query.push(c);
                self.update_search(engine, ui);
                Action::Continue
            },
            Event::Backspace => {
                let chars = chars_of(self.query.as_str());
                if chars.len() > 0 {
                    self.query = string_of(&chars, 0, chars.len() - 1);
                    assert(chars@.subrange(0, chars.len() - 1) =~= chars@.drop_last());
                }
                self.update_search(engine, ui);
                Action::Continue
            },
            Event::ClearQuery => {
                self.query = String::new();
                self.update_search(engine, ui);
                Action::Continue
            },
            Event::CursorUp => {
                let target = if self.selected > 0 {
                    self.selected - 1
                } else {
                    0
                };
                self.select(ui, target);
                Action::Continue
            },
            Event::CursorDown => {
                let target = if count > 0 && self.selected < count - 1 {
                    self.selected + 1
                } else {
                    self.selected
                };
                self.select(ui, target);
                Action::Continue
            },
            Event::PageUp => {
                let target = if self.selected > PAGE_SIZE {
                    self.selected - PAGE_SIZE
                } else {
                    0
                };
                self.select(ui, target);
                Action::Continue
            },
            Event::PageDown => {
                let target = if count == 0 {
                    0
                } else if count - 1 - self.selected > PAGE_SIZE {
                    self.selected + PAGE_SIZE
                } else {
                    count - 1
                };
                self.select(ui, target);
                Action::Continue
            },
            Event::SelectConfirm => {
                self.select_command(false);
                Action::Exit
            },
            Event::SelectAndExecute => {
                self.select_command(true);
                Action::Exit
            },
            Event::DeleteSelected => self.delete_selected(),
            Event::Cancel => {
                self.should_quit = true;
                Action::Exit
            },
            Event::Resize(visible) => {
                self.visible_height = visible;
                self.settle(ui);
                Action::Continue
            },
        }
    }

    /// Takes one key, with the modifiers held.
    fn handle_key(&mut self, engine: &SearchEngine, ui: &UI, key: Key, modifiers: u8) -> (action:
        Action)
        requires
            old(self)@.wf(),
        ensures
            final(self)@ == old(self)@.pressed(key, modifiers),
            action@ == old(self)@.answer(key, modifiers),
            final(self)@.wf(),
    {
        match key_event(key, modifiers) {
            Some(event) => self.handle_event(engine, ui, event),
            None => {
                if self.should_quit {
                    Action::Exit
                } else {
                    self.status_message = None;
                    Action::Continue
                }
            },
        }
    }

    /// Takes the news that the deletion of `command` is in the deletion log.
    fn deletion_persisted(&mut self, engine: &SearchEngine, ui: &UI, command: &String)
        requires
            old(self)@.wf(),
        ensures
            final(self)@ == old(self)@.deleted(command@),
            final(self)@.wf(),
    {
        remove_command(&mut self.entries, command);
        self.search_again(engine);
        self.settle(ui);
    }

    /// Takes the news that a deletion could not be written, for `reason`.
    fn deletion_failed(&mut self, reason: &str)
        requires
            old(self)@.wf(),
        ensures
            final(self)@ == old(self)@.failed(reason@),
            final(self)@.wf(),
    {
        let mut message = String::from_str("Delete failed: ");
        message.append(reason);
        self.status_message = Some(message);
    }
}

/// An interactive session over a history.
///
/// A session is well-formed at all times: its results are those of its query
/// over its history, its selection is one of them, or 0 where there are none,
/// and its window stays within the list and, where it has a row, shows the
/// selection.
pub struct App {
    session: Session,
    search_engine: SearchEngine,
    ui: UI,
}

impl View for App {
    type V = SessionModel;

    closed spec fn view(&self) -> SessionModel {
        self.session@
    }
}

impl App {
    #[verifier::type_invariant]
    spec fn well_formed(self) -> bool {
        self.session@.wf()
    }

    /// A session over `entries`, with `initial_query` typed already if there
    /// is one. The first result is selected, and the window has one row until
    /// it is resized.
    pub fn new(entries: Vec<HistoryEntry>, initial_query: Option<String>) -> (app: Self)
        ensures
            app@ == SessionModel::opening(models(entries@), typed(initial_query)),
            app@.wf(),
    {
        let search_engine = SearchEngine::new();
        let query = match initial_query {
            Some(query) => query,
            None => String::new(),
        };
        let session = Session::opening(&search_engine, entries, query);
        App { session, search_engine, ui: UI::new() }
    }

    /// A session over `entries`, unless there are none.
    pub fn start(entries: Vec<HistoryEntry>, initial_query: Option<String>) -> (out: Result<
        Self,
        SessionError,
    >)
        ensures
            match out {
                Ok(app) => {
                    &&& entries.len() > 0
                    &&& app@ == SessionModel::opening(models(entries@), typed(initial_query))
                    &&& app@.wf()
                },
                Err(error) => entries.len() == 0 && error == SessionError::EmptyHistory,
            },
    {
        if entries.len() == 0 {
            Err(SessionError::EmptyHistory)
        } else {
            Ok(App::new(entries, initial_query))
        }
    }

    /// Takes one event.
    ///
    /// The session becomes what `step` says, and stays well-formed: after
    /// every event the selection is one of the results and, in a window of one
    /// row or more, the window shows it and stays within the list. The action
    /// returned is what `request` says.
    pub fn handle_event(&mut self, event: Event) -> (action: Action)
        ensures
            final(self)@ == old(self)@.step(event),
            action@ == old(self)@.request(event),
            final(self)@.wf(),
    {
        proof {
            use_type_invariant(&*self);
        }
        let mut session = Session::blank();
        std::mem::swap(&mut session, &mut self.session);
        let action = session.handle_event(&self.search_engine, &self.ui, event);
        self.session = session;
        action
    }

    /// Takes one key, with the modifiers held: the event it stands for, if
    /// any. Any key clears the status message.
    pub fn handle_key(&mut self, key: Key, modifiers: u8) -> (action: Action)
        ensures
            final(self)@ == old(self)@.pressed(key, modifiers),
            action@ == old(self)@.answer(key, modifiers),
            final(self)@.wf(),
    {
        proof {
            use_type_invariant(&*self);
        }
        let mut session = Session::blank();
        std::mem::swap(&mut session, &mut self.session);
        let action = session.handle_key(&self.search_engine, &self.ui, key, modifiers);
        self.session = session;
        action
    }

    /// Takes the news that the deletion of `command` is in the deletion log:
    /// the entries with that command leave the history, the query is searched
    /// anew, and the selection is held within the results.
    pub fn deletion_persisted(&mut self, command: &String)
        ensures
            final(self)@ == old(self)@.deleted(command@),
            final(self)@.wf(),
    {
        proof {
            use_type_invariant(&*self);
        }
        let mut session = Session::blank();
        std::mem::swap(&mut session, &mut self.session);
        session.deletion_persisted(&self.search_engine, &self.ui, command);
        self.session = session;
    }

    /// Takes the news that a deletion could not be written, for `reason`: the
    /// history stays as it is, and the status message says what failed until
    /// the next event.
    pub fn deletion_failed(&mut self, reason: &str)
        ensures
            final(self)@ == old(self)@.failed(reason@),
            final(self)@.wf(),
    {
        proof {
            use_type_invariant(&*self);
        }
        let mut session = Session::blank();
        std::mem::swap(&mut session, &mut self.session);
        session.deletion_failed(reason);
        self.session = session;
    }

    pub fn entries(&self) -> (entries: &Vec<HistoryEntry>)
        ensures
            models(entries@) == self@.entries,
    {
        &self.session.entries
    }

    pub fn query(&self) -> (query: &str)
        ensures
            query@ == self@.query,
    {
        self.session.query.as_str()
    }

    pub fn results(&self) -> (results: &Vec<SearchResult>)
        ensures
            result_models(results@) == self@.results,
    {
        &self.session.results
    }

    /// The position of the selected result. The session is well-formed, so
    /// the selection is one of the results, or 0 where there are none.
    pub fn selected(&self) -> (selected: usize)
        ensures
            selected == self@.selected,
            self@.wf(),
    {
        proof {
            use_type_invariant(self);
        }
        self.session.selected
    }

    /// The position of the first result in the window. The session is
    /// well-formed, so the window stays within the list and, where it has a
    /// row, shows the selection.
    pub fn scroll_offset(&self) -> (offset: usize)
        ensures
            offset == self@.offset,
            self@.wf(),
    {
        proof {
            use_type_invariant(self);
        }
        self.session.scroll_offset
    }

    pub fn visible_height(&self) -> (visible: usize)
        ensures
            visible == self@.visible,
    {
        self.session.visible_height
    }

    pub fn status_message(&self) -> (status: &Option<String>)
        ensures
            match status {
                Some(message) => self@.status == Some(message@),
                None => self@.status is None,
            },
    {
        &self.session.status_message
    }

    pub fn should_quit(&self) -> (finished: bool)
        ensures
            finished == self@.finished,
    {
        self.session.should_quit
    }

    /// The command the session ended on, if it ended on one.
    pub fn selected_command(&self) -> (command: &Option<String>)
        ensures
            match command {
                Some(chosen) => self@.outcome == Some(chosen@),
                None => self@.outcome is None,
            },
    {
        &self.session.selected_command
    }

    /// Whether the chosen command is to be run at once.
    pub fn execute_immediately(&self) -> (execute: bool)
        ensures
            execute == self@.execute,
    {
        self.session.execute_immediately
    }

    /// The exit status of the process: `EXIT_CODE_EXECUTE` where the chosen
    /// command is to be run at once, else 0.
    pub fn exit_code(&self) -> (code: i32)
        ensures
            code == if self@.execute {
                EXIT_CODE_EXECUTE
            } else {
                0
            },
    {
        if self.session.execute_immediately {
            EXIT_CODE_EXECUTE
        } else {
            0
        }
    }
}

} // verus!
