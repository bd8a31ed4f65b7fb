use ihistory::app::{
    key_event, Action, App, Event, Key, SessionError, EXIT_CODE_EXECUTE, MODIFIER_CONTROL,
    MODIFIER_NONE, MODIFIER_SHIFT,
};
use ihistory::args::{is_configured, Args, Shell, Startup, DEFAULT_LIMIT};
use ihistory::history::{load_blocklist, load_history, HistoryEntry};
use ihistory::ui::UI;

fn entry(cmd: &str) -> HistoryEntry {
    HistoryEntry { command: cmd.to_string(), timestamp: None, raw_line: None }
}

fn numbered(count: usize) -> Vec<HistoryEntry> {
    (0..count).map(|i| entry(&format!("cmd {}", i))).collect()
}

fn shown(app: &App) -> Vec<String> {
    app.results().iter().map(|r| r.entry.command.clone()).collect()
}

fn window_holds(app: &App) -> bool {
    let count = app.results().len();
    let visible = app.visible_height();
    let last = count.saturating_sub(visible);
    app.scroll_offset() <= app.selected()
        && app.selected() < app.scroll_offset() + visible
        && app.scroll_offset() <= last
        && (app.selected() < count || app.selected() == 0)
}

#[test]
fn new_session_shows_all_entries() {
    let app = App::new(vec![entry("git status"), entry("ls")], None);
    assert_eq!(app.query(), "");
    assert_eq!(shown(&app), vec!["git status", "ls"]);
    assert_eq!(app.selected(), 0);
    assert_eq!(app.scroll_offset(), 0);
    assert_eq!(app.visible_height(), 1);
    assert!(!app.should_quit());
    assert_eq!(app.status_message(), &None);
    assert_eq!(app.selected_command(), &None);
    assert_eq!(app.entries().len(), 2);
}

#[test]
fn initial_query_is_searched() {
    let app = App::new(vec![entry("git status"), entry("ls")], Some("git".to_string()));
    assert_eq!(app.query(), "git");
    assert_eq!(shown(&app), vec!["git status"]);
}

#[test]
fn start_refuses_an_empty_history() {
    assert!(matches!(App::start(Vec::new(), None), Err(SessionError::EmptyHistory)));
    assert!(App::start(vec![entry("ls")], None).is_ok());
}

#[test]
fn typing_narrows_and_backspace_widens() {
    let mut app = App::new(vec![entry("git status"), entry("ls"), entry("git push")], None);
    assert_eq!(app.handle_event(Event::InsertChar('g')), Action::Continue);
    assert_eq!(app.handle_event(Event::InsertChar('i')), Action::Continue);
    assert_eq!(app.query(), "gi");
    assert_eq!(shown(&app), vec!["git status", "git push"]);
    app.handle_event(Event::Backspace);
    app.handle_event(Event::Backspace);
    assert_eq!(app.query(), "");
    assert_eq!(shown(&app).len(), 3);
    app.handle_event(Event::Backspace);
    assert_eq!(app.query(), "");
    app.handle_event(Event::InsertChar('l'));
    app.handle_event(Event::ClearQuery);
    assert_eq!(app.query(), "");
    assert_eq!(shown(&app).len(), 3);
}

#[test]
fn query_change_clamps_selection_and_resets_window() {
    let mut app = App::new(numbered(50), None);
    app.handle_event(Event::Resize(10));
    app.handle_event(Event::PageDown);
    app.handle_event(Event::PageDown);
    assert_eq!(app.selected(), 40);
    assert_eq!(app.scroll_offset(), 31);
    app.handle_event(Event::InsertChar('7'));
    // "cmd 7", "cmd 17", "cmd 27", "cmd 37", "cmd 47"
    assert_eq!(app.results().len(), 5);
    assert_eq!(app.selected(), 4);
    assert_eq!(app.scroll_offset(), 0);
    app.handle_event(Event::InsertChar('z'));
    assert_eq!(app.results().len(), 0);
    assert_eq!(app.selected(), 0);
    assert_eq!(app.scroll_offset(), 0);
}

#[test]
fn cursor_moves_are_clamped() {
    let mut app = App::new(numbered(3), None);
    app.handle_event(Event::CursorUp);
    assert_eq!(app.selected(), 0);
    app.handle_event(Event::CursorDown);
    app.handle_event(Event::CursorDown);
    assert_eq!(app.selected(), 2);
    app.handle_event(Event::CursorDown);
    assert_eq!(app.selected(), 2);
    app.handle_event(Event::PageUp);
    assert_eq!(app.selected(), 0);
    app.handle_event(Event::PageDown);
    assert_eq!(app.selected(), 2);
}

#[test]
fn page_keys_move_by_twenty() {
    let mut app = App::new(numbered(100), None);
    app.handle_event(Event::PageDown);
    assert_eq!(app.selected(), 20);
    app.handle_event(Event::PageDown);
    app.handle_event(Event::CursorDown);
    assert_eq!(app.selected(), 41);
    app.handle_event(Event::PageUp);
    assert_eq!(app.selected(), 21);
    app.handle_event(Event::PageUp);
    assert_eq!(app.selected(), 1);
    app.handle_event(Event::PageUp);
    assert_eq!(app.selected(), 0);
}

#[test]
fn window_follows_the_selection() {
    let mut app = App::new(numbered(30), None);
    app.handle_event(Event::Resize(5));
    assert_eq!(app.scroll_offset(), 0);
    for _ in 0..4 {
        app.handle_event(Event::CursorDown);
    }
    assert_eq!((app.selected(), app.scroll_offset()), (4, 0));
    app.handle_event(Event::CursorDown);
    assert_eq!((app.selected(), app.scroll_offset()), (5, 1));
    app.handle_event(Event::PageDown);
    assert_eq!((app.selected(), app.scroll_offset()), (25, 21));
    app.handle_event(Event::PageDown);
    assert_eq!((app.selected(), app.scroll_offset()), (29, 25));
    app.handle_event(Event::CursorUp);
    assert_eq!((app.selected(), app.scroll_offset()), (28, 25));
    app.handle_event(Event::PageUp);
    assert_eq!((app.selected(), app.scroll_offset()), (8, 8));
    app.handle_event(Event::Resize(50));
    assert_eq!((app.selected(), app.scroll_offset()), (8, 0));
    app.handle_event(Event::Resize(3));
    assert_eq!((app.selected(), app.scroll_offset()), (8, 6));
}

#[test]
fn window_holds_after_every_event() {
    let events = [
        Event::Resize(7),
        Event::PageDown,
        Event::PageDown,
        Event::CursorDown,
        Event::InsertChar('c'),
        Event::PageDown,
        Event::InsertChar('1'),
        Event::CursorDown,
        Event::Resize(1),
        Event::PageUp,
        Event::Backspace,
        Event::PageDown,
        Event::Resize(4),
        Event::DeleteSelected,
        Event::InsertChar('q'),
        Event::CursorDown,
        Event::ClearQuery,
        Event::PageDown,
        Event::CursorUp,
    ];
    let mut app = App::new(numbered(64), None);
    assert!(window_holds(&app));
    for event in events {
        if let Action::Persist { command, .. } = app.handle_event(event) {
            assert!(window_holds(&app));
            app.deletion_persisted(&command);
        }
        assert!(window_holds(&app));
    }
}

#[test]
fn confirm_emits_the_selected_command() {
    let mut app = App::new(vec![entry("git status"), entry("ls")], None);
    app.handle_event(Event::CursorDown);
    assert_eq!(app.handle_event(Event::SelectConfirm), Action::Exit);
    assert!(app.should_quit());
    assert_eq!(app.selected_command(), &Some("ls".to_string()));
    assert!(!app.execute_immediately());
    assert_eq!(app.exit_code(), 0);
}

#[test]
fn execute_sets_the_exit_code() {
    let mut app = App::new(vec![entry("git status"), entry("ls")], None);
    assert_eq!(app.handle_event(Event::SelectAndExecute), Action::Exit);
    assert_eq!(app.selected_command(), &Some("git status".to_string()));
    assert!(app.execute_immediately());
    assert_eq!(app.exit_code(), EXIT_CODE_EXECUTE);
    assert_eq!(EXIT_CODE_EXECUTE, 10);
}

#[test]
fn confirm_without_selection_only_ends() {
    let mut app = App::new(vec![entry("ls")], Some("zzz".to_string()));
    assert!(app.results().is_empty());
    assert_eq!(app.handle_event(Event::SelectAndExecute), Action::Exit);
    assert!(app.should_quit());
    assert_eq!(app.selected_command(), &None);
    assert!(!app.execute_immediately());
    assert_eq!(app.exit_code(), 0);
}

#[test]
fn cancel_ends_without_outcome() {
    let mut app = App::new(vec![entry("ls")], None);
    assert_eq!(app.handle_event(Event::Cancel), Action::Exit);
    assert!(app.should_quit());
    assert_eq!(app.selected_command(), &None);
    // A session that is over takes no more events.
    assert_eq!(app.handle_event(Event::InsertChar('x')), Action::Exit);
    assert_eq!(app.query(), "");
}

#[test]
fn failed_delete_keeps_history_and_sets_status() {
    let log = b"ls\nrm -rf /\n";
    let entries = load_history(log, false, &Vec::new(), 0);
    let mut app = App::new(entries, None);
    assert_eq!(shown(&app), vec!["rm -rf /", "ls"]);
    let action = app.handle_event(Event::DeleteSelected);
    assert_eq!(
        action,
        Action::Persist { command: "rm -rf /".to_string(), record: "rm -rf /".to_string() }
    );
    assert_eq!(shown(&app), vec!["rm -rf /", "ls"]);
    app.deletion_failed("Permission denied (os error 13)");
    assert_eq!(
        app.status_message(),
        &Some("Delete failed: Permission denied (os error 13)".to_string())
    );
    assert_eq!(shown(&app), vec!["rm -rf /", "ls"]);
    assert_eq!(app.entries().len(), 2);
    assert!(!app.should_quit());

    // The next event clears the message.
    app.handle_event(Event::CursorDown);
    assert_eq!(app.status_message(), &None);
    app.handle_event(Event::CursorUp);

    // A later delete that is persisted removes the entry.
    let record = match app.handle_event(Event::DeleteSelected) {
        Action::Persist { command, record } => {
            app.deletion_persisted(&command);
            record
        }
        other => panic!("no deletion asked for: {:?}", other),
    };
    assert_eq!(shown(&app), vec!["ls"]);
    app.handle_event(Event::InsertChar('r'));
    app.handle_event(Event::InsertChar('m'));
    assert!(shown(&app).is_empty());

    // After a reload with the deletion log, the entry stays away.
    let blocklist = load_blocklist(&vec![record]);
    let reloaded = load_history(log, false, &blocklist, 0);
    assert_eq!(reloaded.len(), 1);
    assert_eq!(reloaded[0].command, "ls");
}

#[test]
fn delete_keeps_the_query_and_clamps_the_selection() {
    let mut app = App::new(vec![entry("git a"), entry("ls"), entry("git b")], None);
    app.handle_event(Event::InsertChar('g'));
    app.handle_event(Event::CursorDown);
    assert_eq!(app.selected(), 1);
    match app.handle_event(Event::DeleteSelected) {
        Action::Persist { command, record } => {
            assert_eq!(command, "git b");
            assert_eq!(record, "git b");
            app.deletion_persisted(&command);
        }
        other => panic!("no deletion asked for: {:?}", other),
    }
    assert_eq!(app.query(), "g");
    assert_eq!(shown(&app), vec!["git a"]);
    assert_eq!(app.selected(), 0);
    assert_eq!(app.entries().len(), 2);
}

#[test]
fn delete_without_selection_asks_nothing() {
    let mut app = App::new(vec![entry("ls")], Some("zzz".to_string()));
    assert_eq!(app.handle_event(Event::DeleteSelected), Action::Continue);
}

#[test]
fn keys_map_to_events() {
    assert_eq!(key_event(Key::Esc, MODIFIER_NONE), Some(Event::Cancel));
    assert_eq!(key_event(Key::Char('c'), MODIFIER_CONTROL), Some(Event::Cancel));
    assert_eq!(key_event(Key::Char('d'), MODIFIER_CONTROL), Some(Event::DeleteSelected));
    assert_eq!(key_event(Key::Enter, MODIFIER_SHIFT), Some(Event::SelectConfirm));
    assert_eq!(key_event(Key::Tab, MODIFIER_NONE), Some(Event::SelectAndExecute));
    assert_eq!(key_event(Key::Up, MODIFIER_NONE), Some(Event::CursorUp));
    assert_eq!(key_event(Key::Char('p'), MODIFIER_CONTROL), Some(Event::CursorUp));
    assert_eq!(key_event(Key::Down, MODIFIER_NONE), Some(Event::CursorDown));
    assert_eq!(key_event(Key::Char('n'), MODIFIER_CONTROL), Some(Event::CursorDown));
    assert_eq!(key_event(Key::PageUp, MODIFIER_NONE), Some(Event::PageUp));
    assert_eq!(key_event(Key::PageDown, MODIFIER_NONE), Some(Event::PageDown));
    assert_eq!(key_event(Key::Backspace, MODIFIER_NONE), Some(Event::Backspace));
    assert_eq!(key_event(Key::Char('u'), MODIFIER_CONTROL), Some(Event::ClearQuery));
    assert_eq!(key_event(Key::Char('u'), MODIFIER_NONE), Some(Event::InsertChar('u')));
    assert_eq!(key_event(Key::Char('U'), MODIFIER_SHIFT), Some(Event::InsertChar('U')));
    assert_eq!(key_event(Key::Char('x'), MODIFIER_CONTROL), None);
    assert_eq!(key_event(Key::Char('c'), MODIFIER_CONTROL | MODIFIER_SHIFT), None);
    assert_eq!(key_event(Key::Char('x'), 4), None);
    assert_eq!(key_event(Key::Other, MODIFIER_NONE), None);
}

#[test]
fn any_key_clears_the_status() {
    let mut app = App::new(vec![entry("ls")], None);
    app.deletion_failed("disk full");
    assert_eq!(app.status_message(), &Some("Delete failed: disk full".to_string()));
    assert_eq!(app.handle_key(Key::Other, MODIFIER_NONE), Action::Continue);
    assert_eq!(app.status_message(), &None);
    assert_eq!(app.handle_key(Key::Char('l'), MODIFIER_NONE), Action::Continue);
    assert_eq!(app.query(), "l");
    assert_eq!(app.handle_key(Key::Enter, MODIFIER_NONE), Action::Exit);
    assert_eq!(app.selected_command(), &Some("ls".to_string()));
}

#[test]
fn viewport_offsets() {
    let ui = UI::new();
    assert_eq!(ui.viewport(0, 0, 0, 5), 0);
    assert_eq!(ui.viewport(3, 0, 10, 5), 0);
    assert_eq!(ui.viewport(5, 0, 10, 5), 1);
    assert_eq!(ui.viewport(9, 0, 10, 5), 5);
    assert_eq!(ui.viewport(2, 4, 10, 5), 2);
    assert_eq!(ui.viewport(2, 8, 10, 5), 2);
    assert_eq!(ui.viewport(9, 9, 10, 5), 5);
    assert_eq!(ui.viewport(2, 0, 3, 5), 0);
    assert_eq!(ui.viewport(7, 0, 10, 1), 7);
    assert_eq!(ui.viewport(3, 0, 10, 0), 4);
    assert_eq!(ui.viewport(usize::MAX, 0, 10, 0), 10);
    assert_eq!(ui.visible_height(12), 10);
    assert_eq!(ui.visible_height(2), 0);
    assert_eq!(ui.visible_height(1), 0);
    let _ = UI::default();
}

#[test]
fn rows_of_the_window() {
    let ui = UI::new();
    assert_eq!(ui.window_rows(0, 10, 4), (0, 4));
    assert_eq!(ui.window_rows(7, 10, 4), (7, 10));
    assert_eq!(ui.window_rows(6, 10, 4), (6, 10));
    assert_eq!(ui.window_rows(12, 10, 4), (10, 10));
    assert_eq!(ui.window_rows(0, 0, 4), (0, 0));
    assert_eq!(ui.window_rows(3, 10, 0), (3, 3));
    assert_eq!(ui.window_rows(0, 3, usize::MAX), (0, 3));
    assert_eq!(ui.selected_row(5, 3), 2);
    assert_eq!(ui.selected_row(3, 3), 0);
    assert_eq!(ui.selected_row(2, 3), 0);
    assert_eq!(ui.line_width(80), 76);
    assert_eq!(ui.line_width(4), 0);
    assert_eq!(ui.line_width(3), 0);
    assert_eq!(ui.visible_height(10), 8);
    assert_eq!(ui.visible_height(1), 0);
}

#[test]
fn command_line_startup() {
    let args = |init: Option<&str>| Args {
        init: init.map(String::from),
        query: None,
        file: None,
        limit: DEFAULT_LIMIT,
    };
    assert_eq!(args(None).startup(), Startup::Search);
    assert_eq!(args(Some("zsh")).startup(), Startup::PrintScript(Shell::Zsh));
    assert_eq!(args(Some("bash")).startup(), Startup::PrintScript(Shell::Bash));
    assert_eq!(args(Some("auto")).startup(), Startup::Install);
    assert_eq!(args(Some("fish")).startup(), Startup::UnknownShell);
    assert_eq!(args(Some("")).startup(), Startup::UnknownShell);
    assert_eq!(DEFAULT_LIMIT, 50000);
}

#[test]
fn shell_integration() {
    assert_eq!(Shell::from_env("/usr/bin/zsh"), Some(Shell::Zsh));
    assert_eq!(Shell::from_env("/bin/bash"), Some(Shell::Bash));
    assert_eq!(Shell::from_env("/bin/fish"), None);
    assert_eq!(Shell::Zsh.profile_name(), ".zshrc");
    assert_eq!(Shell::Bash.profile_name(), ".bashrc");
    assert_eq!(Shell::Zsh.eval_line(), "\neval \"$(ihistory --init zsh)\"\n");
    assert_eq!(Shell::Bash.eval_line(), "\neval \"$(ihistory --init bash)\"\n");
    assert!(is_configured("x\neval \"$(ihistory --init zsh)\"\n"));
    assert!(!is_configured("eval \"$(ihistory init)\""));
}
