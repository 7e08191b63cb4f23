use vocab_typing::event::{KeyCode, KeyEvent, KeyEventKind, KeyModifiers};
use vocab_typing::state::{State, TypingStatus};
use vocab_typing::widgets::app::App;
use vocab_typing::widgets::input::Input;
use vocab_typing::widgets::word_list::WordList as ListPane;
use vocab_typing::word::{Word, WordList, WordListConfig};

use TypingStatus::{Accepted, NotStarted, Wrong};

fn session_state(texts: &[&str]) -> State {
    let words = texts
        .iter()
        .map(|text| Word {
            word: text.to_string(),
            kind: "n.".to_string(),
            phonetics: String::new(),
            definition: Vec::new(),
        })
        .collect();
    let config = WordListConfig { path: String::new(), shuffle: false, filter: None };
    match WordList::new(words, &config) {
        Ok(list) => State::new(&list),
        Err(_) => panic!("the list is not empty"),
    }
}

fn press(code: KeyCode) -> KeyEvent {
    KeyEvent::new(code, KeyModifiers::none())
}

fn ctrl(c: char) -> KeyEvent {
    KeyEvent::new(KeyCode::Char(c), KeyModifiers::control())
}

fn type_text(app: &App, state: &mut State, text: &str) {
    for c in text.chars() {
        assert!(app.handle_event(state, press(KeyCode::Char(c))));
    }
}

#[test]
fn a_session_starts_at_the_first_entry() {
    let state = session_state(&["cat", "dog"]);
    assert_eq!(state.selected(), 0);
    assert_eq!(state.words().len(), 2);
    assert_eq!(state.selected_word().word().word, "cat");
    for item in state.words() {
        assert_eq!(item.word_status(), NotStarted);
        assert!(item.char_status().iter().all(|s| *s == NotStarted));
    }
}

#[test]
fn select_previous_at_the_first_entry_changes_nothing() {
    let mut state = session_state(&["cat", "dog", "eel"]);
    let list = ListPane::new();
    list.select_previous(&mut state);
    assert_eq!(state.selected(), 0);
    state.select_previous();
    assert_eq!(state.selected(), 0);
}

#[test]
fn select_next_at_the_last_entry_changes_nothing() {
    let mut state = session_state(&["cat", "dog", "eel"]);
    let list = ListPane::new();
    list.select_next(&mut state);
    assert_eq!(state.selected(), 1);
    list.select_next(&mut state);
    assert_eq!(state.selected(), 2);
    list.select_next(&mut state);
    assert_eq!(state.selected(), 2);
    list.select_previous(&mut state);
    assert_eq!(state.selected(), 1);
}

#[test]
fn select_next_more_often_than_there_are_entries_ends_at_the_last() {
    for n in 1..6usize {
        let texts: Vec<String> = (0..n).map(|i| format!("w{}", i)).collect();
        let refs: Vec<&str> = texts.iter().map(|t| t.as_str()).collect();
        let mut state = session_state(&refs);
        let list = ListPane::new();
        for _ in 0..n + 5 {
            list.select_next(&mut state);
        }
        assert_eq!(state.selected(), n - 1);
    }
}

#[test]
fn a_single_entry_stays_selected() {
    let mut state = session_state(&["cat"]);
    state.select_next();
    assert_eq!(state.selected(), 0);
    state.select_previous();
    assert_eq!(state.selected(), 0);
}

#[test]
fn submitting_the_word_accepts_it_and_moves_on() {
    let mut state = session_state(&["cat", "dog"]);
    let app = App::new();
    type_text(&app, &mut state, "cat");
    assert_eq!(state.input().text(), "cat");
    assert!(app.handle_event(&mut state, press(KeyCode::Enter)));
    assert_eq!(state.words()[0].word_status(), Accepted);
    assert_eq!(state.words()[0].char_status(), &vec![Accepted, Accepted, Accepted]);
    assert_eq!(state.selected(), 1);
    assert_eq!(state.input().text(), "");
    assert_eq!(state.input().character_index(), 0);
    assert_eq!(state.words()[1].word_status(), NotStarted);
}

#[test]
fn submitting_another_text_marks_it_and_stays() {
    let mut state = session_state(&["cat", "dog"]);
    let app = App::new();
    type_text(&app, &mut state, "cot");
    assert!(app.handle_event(&mut state, press(KeyCode::Enter)));
    assert_eq!(state.words()[0].word_status(), Wrong);
    assert_eq!(state.words()[0].char_status(), &vec![Accepted, Wrong, Accepted]);
    assert_eq!(state.selected(), 0);
    assert_eq!(state.input().text(), "");
    assert_eq!(state.input().character_index(), 0);
}

#[test]
fn submitting_the_last_word_stays_at_the_last_entry() {
    let mut state = session_state(&["cat", "dog"]);
    let input = Input::new();
    state.select_next();
    for c in "dog".chars() {
        input.enter_char(&mut state, c);
    }
    input.submit_input(&mut state);
    assert_eq!(state.selected(), 1);
    assert_eq!(state.words()[1].word_status(), Accepted);
    assert_eq!(state.words()[0].word_status(), NotStarted);
    assert_eq!(state.input().text(), "");
}

#[test]
fn submitting_an_empty_input_is_a_wrong_attempt() {
    let mut state = session_state(&["cat", "dog"]);
    Input::new().submit_input(&mut state);
    assert_eq!(state.selected(), 0);
    assert_eq!(state.words()[0].word_status(), Wrong);
    assert_eq!(state.words()[0].char_status(), &vec![Wrong, Wrong, Wrong]);
}

#[test]
fn submitting_clears_the_input_wherever_the_cursor_is() {
    let mut state = session_state(&["cat", "dog"]);
    let input = Input::new();
    for c in "cart".chars() {
        input.enter_char(&mut state, c);
    }
    input.move_cursor_left(&mut state);
    input.move_cursor_left(&mut state);
    input.submit_input(&mut state);
    assert_eq!(state.input().text(), "");
    assert_eq!(state.input().character_index(), 0);
    assert_eq!(state.words()[0].char_status(), &vec![Accepted, Accepted, Wrong]);
}

#[test]
fn control_q_asks_to_leave() {
    let mut state = session_state(&["cat"]);
    let app = App::new();
    assert!(!state.should_exit());
    assert!(app.handle_keys(&mut state, ctrl('q')));
    assert!(state.should_exit());
}

#[test]
fn the_exit_handler_ignores_everything_else() {
    let mut state = session_state(&["cat"]);
    let app = App::new();
    assert!(!app.handle_keys(&mut state, press(KeyCode::Char('q'))));
    assert!(!app.handle_keys(&mut state, ctrl('c')));
    assert!(!app.handle_keys(&mut state, press(KeyCode::Esc)));
    let released =
        KeyEvent { code: KeyCode::Char('q'), modifiers: KeyModifiers::control(), kind: KeyEventKind::Release };
    assert!(!app.handle_keys(&mut state, released));
    let with_shift = KeyEvent::new(
        KeyCode::Char('q'),
        KeyModifiers::from_bits(KeyModifiers::CONTROL | KeyModifiers::SHIFT),
    );
    assert!(!app.handle_keys(&mut state, with_shift));
    assert!(!state.should_exit());
}

#[test]
fn the_list_pane_reacts_to_its_four_keys() {
    let mut state = session_state(&["a", "b", "c"]);
    let list = ListPane::new();
    assert!(list.handle_keys(&mut state, press(KeyCode::Down)));
    assert_eq!(state.selected(), 1);
    assert!(list.handle_keys(&mut state, ctrl('n')));
    assert_eq!(state.selected(), 2);
    assert!(list.handle_keys(&mut state, press(KeyCode::Up)));
    assert_eq!(state.selected(), 1);
    assert!(list.handle_keys(&mut state, ctrl('p')));
    assert_eq!(state.selected(), 0);
    assert!(list.handle_keys(&mut state, ctrl('p')));
    assert_eq!(state.selected(), 0);
}

#[test]
fn the_list_pane_ignores_other_keys() {
    let mut state = session_state(&["a", "b", "c"]);
    let list = ListPane::new();
    assert!(!list.handle_keys(&mut state, press(KeyCode::Char('n'))));
    assert!(!list.handle_keys(&mut state, press(KeyCode::Left)));
    assert!(!list.handle_keys(&mut state, ctrl('q')));
    assert!(!list.handle_keys(&mut state, KeyEvent::new(KeyCode::Down, KeyModifiers::control())));
    assert!(!list.handle_keys(&mut state, KeyEvent::new(KeyCode::Down, KeyModifiers::from_bits(KeyModifiers::ALT))));
    let repeated =
        KeyEvent { code: KeyCode::Down, modifiers: KeyModifiers::none(), kind: KeyEventKind::Repeat };
    assert!(!list.handle_keys(&mut state, repeated));
    assert_eq!(state.selected(), 0);
    assert_eq!(state.input().text(), "");
}

#[test]
fn the_input_box_reacts_to_its_keys() {
    let mut state = session_state(&["cat", "dog"]);
    let input = Input::new();
    assert!(input.handle_keys(&mut state, press(KeyCode::Char('c'))));
    assert!(input.handle_keys(&mut state, press(KeyCode::Char('x'))));
    assert!(input.handle_keys(&mut state, press(KeyCode::Char('t'))));
    assert_eq!(state.input().text(), "cxt");
    assert!(input.handle_keys(&mut state, press(KeyCode::Left)));
    assert_eq!(state.input().character_index(), 2);
    assert!(input.handle_keys(&mut state, press(KeyCode::Backspace)));
    assert_eq!(state.input().text(), "ct");
    assert_eq!(state.input().character_index(), 1);
    assert!(input.handle_keys(&mut state, press(KeyCode::Char('a'))));
    assert!(input.handle_keys(&mut state, press(KeyCode::Right)));
    assert_eq!(state.input().text(), "cat");
    assert_eq!(state.input().character_index(), 3);
    assert!(input.handle_keys(&mut state, ctrl('m')));
    assert_eq!(state.words()[0].word_status(), Accepted);
    assert_eq!(state.selected(), 1);
    assert_eq!(state.input().text(), "");
}

#[test]
fn escape_and_control_c_clear_the_input() {
    let mut state = session_state(&["cat"]);
    let input = Input::new();
    input.handle_keys(&mut state, press(KeyCode::Char('z')));
    assert!(input.handle_keys(&mut state, press(KeyCode::Esc)));
    assert_eq!(state.input().text(), "");
    input.handle_keys(&mut state, press(KeyCode::Char('z')));
    input.handle_keys(&mut state, press(KeyCode::Char('y')));
    assert!(input.handle_keys(&mut state, ctrl('c')));
    assert_eq!(state.input().text(), "");
    assert_eq!(state.input().character_index(), 0);
    assert_eq!(state.words()[0].word_status(), NotStarted);
}

#[test]
fn the_input_box_ignores_other_keys() {
    let mut state = session_state(&["cat"]);
    let input = Input::new();
    assert!(!input.handle_keys(&mut state, ctrl('x')));
    assert!(!input.handle_keys(&mut state, press(KeyCode::Up)));
    assert!(!input.handle_keys(&mut state, press(KeyCode::Other)));
    assert!(!input.handle_keys(&mut state, KeyEvent::new(KeyCode::Enter, KeyModifiers::control())));
    assert!(!input.handle_keys(
        &mut state,
        KeyEvent::new(KeyCode::Char('A'), KeyModifiers::from_bits(KeyModifiers::SHIFT)),
    ));
    let released =
        KeyEvent { code: KeyCode::Char('a'), modifiers: KeyModifiers::none(), kind: KeyEventKind::Release };
    assert!(!input.handle_keys(&mut state, released));
    assert_eq!(state.input().text(), "");
    assert_eq!(state.words()[0].word_status(), NotStarted);
}

#[test]
fn a_key_goes_to_the_first_handler_that_knows_it() {
    let mut state = session_state(&["a", "b"]);
    let app = App::new();
    assert!(app.handle_event(&mut state, ctrl('n')));
    assert_eq!(state.selected(), 1);
    assert_eq!(state.input().text(), "");
    assert!(app.handle_event(&mut state, press(KeyCode::Char('n'))));
    assert_eq!(state.selected(), 1);
    assert_eq!(state.input().text(), "n");
    assert!(!app.handle_event(&mut state, ctrl('z')));
    assert!(!app.handle_event(&mut state, press(KeyCode::Other)));
    assert!(app.handle_event(&mut state, ctrl('q')));
    assert!(state.should_exit());
    assert_eq!(state.input().text(), "n");
}

#[test]
fn run_handles_the_events_in_order() {
    let mut state = session_state(&["cat", "dog"]);
    let app = App::new();
    let keys = vec![
        press(KeyCode::Char('c')),
        press(KeyCode::Char('a')),
        press(KeyCode::Char('t')),
        press(KeyCode::Enter),
        press(KeyCode::Char('d')),
    ];
    app.run(&mut state, &keys);
    assert_eq!(state.words()[0].word_status(), Accepted);
    assert_eq!(state.selected(), 1);
    assert_eq!(state.input().text(), "d");
    assert!(!state.should_exit());
}

#[test]
fn run_stops_at_the_request_to_leave() {
    let mut state = session_state(&["cat", "dog"]);
    let app = App::new();
    let keys = vec![press(KeyCode::Char('c')), ctrl('q'), press(KeyCode::Char('a')), press(KeyCode::Down)];
    app.run(&mut state, &keys);
    assert!(state.should_exit());
    assert_eq!(state.input().text(), "c");
    assert_eq!(state.selected(), 0);
    app.run(&mut state, &keys);
    assert_eq!(state.input().text(), "c");
}

#[test]
fn run_without_events_changes_nothing() {
    let mut state = session_state(&["cat"]);
    App::new().run(&mut state, &Vec::new());
    assert!(!state.should_exit());
    assert_eq!(state.input().text(), "");
    assert_eq!(state.selected(), 0);
}
