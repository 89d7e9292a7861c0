use snippet_manager::app::transition;
use snippet_manager::keys::{ALT, CONTROL, META, SHIFT};
use snippet_manager::{Action, App, AppInputMode, Commands, Event, Key, KeyInput, KeyKind, State};
use tui_input::InputRequest;

fn plain(code: Key) -> KeyInput {
    KeyInput { code, modifiers: 0, kind: KeyKind::Press }
}

fn with(code: Key, modifiers: u8) -> KeyInput {
    KeyInput { code, modifiers, kind: KeyKind::Press }
}

fn send(app: &mut App, k: KeyInput) -> bool {
    app.handle_event(Event::Input(k))
}

fn press(app: &mut App, code: Key) -> bool {
    send(app, plain(code))
}

fn searching(text: &str) -> App {
    let mut app = App::default();
    press(&mut app, Key::Char('s'));
    for c in text.chars() {
        press(&mut app, Key::Char(c));
    }
    app
}

fn edit_of(k: KeyInput) -> Option<InputRequest> {
    match transition(AppInputMode::Searching, k) {
        (AppInputMode::Searching, Action::Edit(r)) => Some(r),
        _ => None,
    }
}

#[test]
fn normal_mode_table() {
    assert_eq!(transition(AppInputMode::Normal, plain(Key::Char('q'))), (AppInputMode::Normal, Action::Quit));
    assert_eq!(transition(AppInputMode::Normal, plain(Key::Char('Q'))), (AppInputMode::Normal, Action::Quit));
    assert_eq!(
        transition(AppInputMode::Normal, plain(Key::Char('s'))),
        (AppInputMode::Searching, Action::Continue)
    );
    assert_eq!(
        transition(AppInputMode::Normal, with(Key::Char('S'), SHIFT)),
        (AppInputMode::Searching, Action::Continue)
    );
    assert_eq!(
        transition(AppInputMode::Normal, plain(Key::Char('x'))),
        (AppInputMode::Normal, Action::Continue)
    );
    assert_eq!(transition(AppInputMode::Normal, plain(Key::Enter)), (AppInputMode::Normal, Action::Continue));
}

#[test]
fn searching_mode_table() {
    assert_eq!(transition(AppInputMode::Searching, plain(Key::Enter)), (AppInputMode::Normal, Action::Continue));
    assert_eq!(transition(AppInputMode::Searching, plain(Key::Esc)), (AppInputMode::Normal, Action::Continue));
    assert_eq!(
        transition(AppInputMode::Searching, plain(Key::Char('q'))),
        (AppInputMode::Searching, Action::Edit(InputRequest::InsertChar('q')))
    );
    assert_eq!(
        transition(AppInputMode::Searching, plain(Key::Backspace)),
        (AppInputMode::Searching, Action::Edit(InputRequest::DeletePrevChar))
    );
    assert_eq!(
        transition(AppInputMode::Searching, plain(Key::Other)),
        (AppInputMode::Searching, Action::Continue)
    );
    assert_eq!(
        transition(AppInputMode::Searching, plain(Key::Tab)),
        (AppInputMode::Searching, Action::Continue)
    );
}

#[test]
fn key_table_of_the_search_buffer() {
    assert_eq!(edit_of(plain(Key::Char('z'))), Some(InputRequest::InsertChar('z')));
    assert_eq!(edit_of(with(Key::Char('Z'), SHIFT)), Some(InputRequest::InsertChar('Z')));
    assert_eq!(edit_of(plain(Key::Delete)), Some(InputRequest::DeleteNextChar));
    assert_eq!(edit_of(with(Key::Delete, CONTROL)), Some(InputRequest::DeleteNextWord));
    assert_eq!(edit_of(plain(Key::Left)), Some(InputRequest::GoToPrevChar));
    assert_eq!(edit_of(with(Key::Left, CONTROL)), Some(InputRequest::GoToPrevWord));
    assert_eq!(edit_of(plain(Key::Right)), Some(InputRequest::GoToNextChar));
    assert_eq!(edit_of(with(Key::Right, CONTROL)), Some(InputRequest::GoToNextWord));
    assert_eq!(edit_of(plain(Key::Home)), Some(InputRequest::GoToStart));
    assert_eq!(edit_of(plain(Key::End)), Some(InputRequest::GoToEnd));
    assert_eq!(edit_of(with(Key::Char('a'), CONTROL)), Some(InputRequest::GoToStart));
    assert_eq!(edit_of(with(Key::Char('e'), CONTROL)), Some(InputRequest::GoToEnd));
    assert_eq!(edit_of(with(Key::Char('h'), CONTROL)), Some(InputRequest::DeletePrevChar));
    assert_eq!(edit_of(with(Key::Char('b'), CONTROL)), Some(InputRequest::GoToPrevChar));
    assert_eq!(edit_of(with(Key::Char('f'), CONTROL)), Some(InputRequest::GoToNextChar));
    assert_eq!(edit_of(with(Key::Char('u'), CONTROL)), Some(InputRequest::DeleteLine));
    assert_eq!(edit_of(with(Key::Char('w'), CONTROL)), Some(InputRequest::DeletePrevWord));
    assert_eq!(edit_of(with(Key::Char('k'), CONTROL)), Some(InputRequest::DeleteTillEnd));
    assert_eq!(edit_of(with(Key::Char('b'), META)), Some(InputRequest::GoToPrevWord));
    assert_eq!(edit_of(with(Key::Char('f'), META)), Some(InputRequest::GoToNextWord));
    assert_eq!(edit_of(with(Key::Char('d'), META)), Some(InputRequest::DeletePrevWord));
    assert_eq!(edit_of(with(Key::Backspace, META)), Some(InputRequest::DeletePrevWord));
    assert_eq!(edit_of(with(Key::Char('x'), CONTROL)), None);
    assert_eq!(edit_of(with(Key::Char('x'), ALT)), None);
    assert_eq!(edit_of(with(Key::Home, CONTROL)), None);
    assert_eq!(edit_of(KeyInput { code: Key::Char('x'), modifiers: 0, kind: KeyKind::Release }), None);
    assert_eq!(edit_of(KeyInput { code: Key::Char('x'), modifiers: 0, kind: KeyKind::Repeat }), None);
}

#[test]
fn control_keys_edit_instead_of_typing() {
    let mut app = searching("foo bar");
    send(&mut app, with(Key::Char('a'), CONTROL));
    assert_eq!(app.search_position(), 0);
    assert_eq!(app.search_value(), "foo bar");
    send(&mut app, with(Key::Char('e'), CONTROL));
    assert_eq!(app.search_position(), 7);
    send(&mut app, with(Key::Char('w'), CONTROL));
    assert_eq!(app.search_value(), "foo ");
    assert_eq!(app.search_position(), 4);
    send(&mut app, with(Key::Char('u'), CONTROL));
    assert_eq!(app.search_value(), "");
    assert_eq!(app.search_position(), 0);
    assert_eq!(app.input_mode, AppInputMode::Searching);
}

#[test]
fn word_moves_and_deletes() {
    let mut app = searching("one two three");
    send(&mut app, with(Key::Left, CONTROL));
    assert_eq!(app.search_position(), 8);
    send(&mut app, with(Key::Left, CONTROL));
    assert_eq!(app.search_position(), 4);
    send(&mut app, with(Key::Right, CONTROL));
    assert_eq!(app.search_position(), 8);
    send(&mut app, with(Key::Char('b'), CONTROL));
    assert_eq!(app.search_position(), 7);
    send(&mut app, with(Key::Delete, CONTROL));
    assert_eq!(app.search_value(), "one twothree");
    assert_eq!(app.search_position(), 7);
    send(&mut app, with(Key::Char('k'), CONTROL));
    assert_eq!(app.search_value(), "one two");
    assert_eq!(app.search_position(), 7);
}

#[test]
fn key_release_does_not_type() {
    let mut app = searching("a");
    send(&mut app, KeyInput { code: Key::Char('b'), modifiers: 0, kind: KeyKind::Release });
    assert_eq!(app.search_value(), "a");
    assert_eq!(app.search_position(), 1);
}

#[test]
fn quit_from_normal_stops_the_loop() {
    let mut app = App::default();
    assert!(!press(&mut app, Key::Char('q')));
    assert_eq!(app.input_mode, AppInputMode::Normal);
    let mut app = App::default();
    assert!(!send(&mut app, with(Key::Char('Q'), SHIFT)));
}

#[test]
fn typing_while_searching_appends_and_advances_cursor() {
    let mut app = App::default();
    assert!(press(&mut app, Key::Char('s')));
    assert_eq!(app.input_mode, AppInputMode::Searching);
    assert!(press(&mut app, Key::Char('g')));
    assert_eq!(app.search_value(), "g");
    assert_eq!(app.search_position(), 1);
    assert!(press(&mut app, Key::Char('q')));
    assert_eq!(app.search_value(), "gq");
    assert_eq!(app.search_position(), 2);
    assert_eq!(app.input_mode, AppInputMode::Searching);
}

#[test]
fn line_editing_in_search_buffer() {
    let mut app = App::default();
    press(&mut app, Key::Char('s'));
    for c in "abc".chars() {
        press(&mut app, Key::Char(c));
    }
    press(&mut app, Key::Left);
    assert_eq!(app.search_position(), 2);
    press(&mut app, Key::Char('X'));
    assert_eq!(app.search_value(), "abXc");
    assert_eq!(app.search_position(), 3);
    press(&mut app, Key::Backspace);
    assert_eq!(app.search_value(), "abc");
    assert_eq!(app.search_position(), 2);
    press(&mut app, Key::Home);
    assert_eq!(app.search_position(), 0);
    press(&mut app, Key::Delete);
    assert_eq!(app.search_value(), "bc");
    press(&mut app, Key::Backspace);
    assert_eq!(app.search_value(), "bc");
    press(&mut app, Key::End);
    assert_eq!(app.search_position(), 2);
    press(&mut app, Key::Right);
    assert_eq!(app.search_position(), 2);
}

#[test]
fn enter_and_escape_return_to_normal_and_keep_buffer() {
    let mut app = App::default();
    press(&mut app, Key::Char('s'));
    press(&mut app, Key::Char('a'));
    assert!(press(&mut app, Key::Enter));
    assert_eq!(app.input_mode, AppInputMode::Normal);
    assert_eq!(app.search_value(), "a");
    press(&mut app, Key::Char('S'));
    press(&mut app, Key::Char('b'));
    assert!(press(&mut app, Key::Esc));
    assert_eq!(app.input_mode, AppInputMode::Normal);
    assert_eq!(app.search_value(), "ab");
}

#[test]
fn normal_mode_ignores_other_keys() {
    let mut app = App::default();
    assert!(press(&mut app, Key::Char('x')));
    assert!(press(&mut app, Key::Backspace));
    assert_eq!(app.input_mode, AppInputMode::Normal);
    assert_eq!(app.search_value(), "");
}

#[test]
fn tick_changes_nothing() {
    let mut app = App::default();
    press(&mut app, Key::Char('s'));
    press(&mut app, Key::Char('a'));
    assert!(app.handle_event(Event::Tick));
    assert_eq!(app.input_mode, AppInputMode::Searching);
    assert_eq!(app.search_value(), "a");
    assert_eq!(app.state, State::Main);
}

#[test]
fn command_labels() {
    assert_eq!(Commands::Quit.stringfy(), "Quit");
    assert_eq!(Commands::Search.stringfy(), "Search");
    assert_eq!(Commands::Select.stringfy(), "Select");
    assert_eq!(Commands::Delete.stringfy(), "Delete");
    assert_eq!(Commands::Edit.stringfy(), "Edit");
    assert_eq!(Commands::New.stringfy(), "New");
    assert_eq!(Commands::Help.stringfy(), "Help");
    assert_eq!(Commands::NoCommand.stringfy(), "None");
}

#[test]
fn tab_bar_commands_in_order() {
    assert_eq!(
        Commands::all_cases(),
        vec![Commands::Search, Commands::New, Commands::Edit, Commands::Delete, Commands::Quit]
    );
}
