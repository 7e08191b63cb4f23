use vocab_typing::layout::{Position, Rect};
use vocab_typing::state::State;
use vocab_typing::widgets::input::Input;
use vocab_typing::word::{Word, WordList, WordListConfig};

fn editing_state() -> State {
    let words = vec![Word {
        word: "cat".to_string(),
        kind: "n.".to_string(),
        phonetics: "/kæt/".to_string(),
        definition: vec!["a small animal".to_string()],
    }];
    let config = WordListConfig { path: String::new(), shuffle: false, filter: None };
    match WordList::new(words, &config) {
        Ok(list) => State::new(&list),
        Err(_) => panic!("the list is not empty"),
    }
}

fn typed(text: &str) -> State {
    let mut state = editing_state();
    let input = Input::new();
    for c in text.chars() {
        input.enter_char(&mut state, c);
    }
    state
}

#[test]
fn a_new_state_has_an_empty_input() {
    let state = editing_state();
    assert_eq!(state.input().text(), "");
    assert_eq!(state.input().character_index(), 0);
    assert!(!state.should_exit());
    assert_eq!(state.selected(), 0);
    assert_eq!(state.cursor_position(), Position { x: 0, y: 0 });
}

#[test]
fn enter_char_appends_and_advances() {
    let state = typed("cot");
    assert_eq!(state.input().text(), "cot");
    assert_eq!(state.input().character_index(), 3);
}

#[test]
fn enter_char_inserts_at_the_cursor() {
    let mut state = typed("ct");
    let input = Input::new();
    input.move_cursor_left(&mut state);
    input.enter_char(&mut state, 'a');
    assert_eq!(state.input().text(), "cat");
    assert_eq!(state.input().character_index(), 2);
    input.move_cursor_left(&mut state);
    input.move_cursor_left(&mut state);
    input.enter_char(&mut state, 's');
    assert_eq!(state.input().text(), "scat");
    assert_eq!(state.input().character_index(), 1);
}

#[test]
fn enter_char_counts_characters_in_a_multi_byte_text() {
    let mut state = typed("日語");
    let input = Input::new();
    input.move_cursor_left(&mut state);
    assert_eq!(input.byte_index(&state), 3);
    input.enter_char(&mut state, '本');
    assert_eq!(state.input().text(), "日本語");
    assert_eq!(state.input().character_index(), 2);
    assert_eq!(input.byte_index(&state), 6);
}

#[test]
fn entering_and_deleting_a_wide_character_restores_the_text() {
    for k in 0..=4usize {
        let mut state = typed("añb€");
        let input = Input::new();
        for _ in k..4 {
            input.move_cursor_left(&mut state);
        }
        assert_eq!(state.input().character_index(), k);
        input.enter_char(&mut state, '🦀');
        assert_eq!(state.input().text().chars().count(), 5);
        assert_eq!(state.input().text().chars().nth(k), Some('🦀'));
        assert_eq!(state.input().character_index(), k + 1);
        input.delete_char(&mut state);
        assert_eq!(state.input().text(), "añb€");
        assert_eq!(state.input().character_index(), k);
    }
}

#[test]
fn byte_index_follows_the_widths_of_the_characters() {
    let mut state = typed("aé€🦀");
    let input = Input::new();
    assert_eq!(input.byte_index(&state), 10);
    input.move_cursor_left(&mut state);
    assert_eq!(input.byte_index(&state), 6);
    input.move_cursor_left(&mut state);
    assert_eq!(input.byte_index(&state), 3);
    input.move_cursor_left(&mut state);
    assert_eq!(input.byte_index(&state), 1);
    input.move_cursor_left(&mut state);
    assert_eq!(input.byte_index(&state), 0);
}

#[test]
fn delete_char_at_the_start_changes_nothing() {
    let mut state = typed("ab");
    let input = Input::new();
    input.move_cursor_left(&mut state);
    input.move_cursor_left(&mut state);
    input.delete_char(&mut state);
    assert_eq!(state.input().text(), "ab");
    assert_eq!(state.input().character_index(), 0);
    let mut state = editing_state();
    input.delete_char(&mut state);
    assert_eq!(state.input().text(), "");
    assert_eq!(state.input().character_index(), 0);
}

#[test]
fn delete_char_removes_the_character_before_the_cursor() {
    let mut state = typed("cart");
    let input = Input::new();
    input.move_cursor_left(&mut state);
    input.delete_char(&mut state);
    assert_eq!(state.input().text(), "cat");
    assert_eq!(state.input().character_index(), 2);
    input.delete_char(&mut state);
    assert_eq!(state.input().text(), "ct");
    assert_eq!(state.input().character_index(), 1);
    input.delete_char(&mut state);
    assert_eq!(state.input().text(), "t");
    assert_eq!(state.input().character_index(), 0);
}

#[test]
fn delete_char_at_the_end_removes_the_last_character() {
    let mut state = typed("né");
    let input = Input::new();
    input.delete_char(&mut state);
    assert_eq!(state.input().text(), "n");
    assert_eq!(state.input().character_index(), 1);
}

#[test]
fn the_cursor_stops_at_the_start() {
    let mut state = typed("ab");
    let input = Input::new();
    for _ in 0..7 {
        input.move_cursor_left(&mut state);
    }
    assert_eq!(state.input().character_index(), 0);
    let mut state = editing_state();
    for _ in 0..3 {
        input.move_cursor_left(&mut state);
        assert_eq!(state.input().character_index(), 0);
    }
}

#[test]
fn the_cursor_stops_at_the_end() {
    let mut state = typed("héllo");
    let input = Input::new();
    input.move_cursor_left(&mut state);
    input.move_cursor_left(&mut state);
    assert_eq!(state.input().character_index(), 3);
    input.move_cursor_right(&mut state);
    assert_eq!(state.input().character_index(), 4);
    for _ in 0..9 {
        input.move_cursor_right(&mut state);
        assert_eq!(state.input().character_index(), 5);
    }
    assert_eq!(state.input().text(), "héllo");
}

#[test]
fn clamp_cursor_is_bounded_by_the_number_of_characters() {
    let state = typed("añb");
    let input = Input::new();
    assert_eq!(input.clamp_cursor(&state, 0), 0);
    assert_eq!(input.clamp_cursor(&state, 2), 2);
    assert_eq!(input.clamp_cursor(&state, 3), 3);
    assert_eq!(input.clamp_cursor(&state, 4), 3);
    assert_eq!(input.clamp_cursor(&state, usize::MAX), 3);
}

#[test]
fn reset_cursor_keeps_the_text() {
    let mut state = typed("abc");
    Input::new().reset_cursor(&mut state);
    assert_eq!(state.input().text(), "abc");
    assert_eq!(state.input().character_index(), 0);
}

#[test]
fn clear_input_empties_the_text() {
    let mut state = typed("abc");
    Input::new().clear_input(&mut state);
    assert_eq!(state.input().text(), "");
    assert_eq!(state.input().character_index(), 0);
}

#[test]
fn render_shows_the_text_and_places_the_cursor() {
    let mut state = typed("héllo");
    let input = Input::new();
    input.move_cursor_left(&mut state);
    input.move_cursor_left(&mut state);
    let area = Rect { x: 5, y: 7, width: 40, height: 3 };
    assert!(input.fits(&state, area));
    let text = input.render(&mut state, area);
    assert_eq!(text, "héllo");
    assert_eq!(state.cursor_position(), Position { x: 9, y: 8 });
    assert_eq!(state.input().character_index(), 3);
}

#[test]
fn render_of_an_empty_input_puts_the_cursor_inside_the_border() {
    let mut state = editing_state();
    let input = Input::new();
    let area = Rect::new(0, 0, 80, 3);
    assert!(input.fits(&state, area));
    assert_eq!(input.render(&mut state, area), "");
    assert_eq!(state.cursor_position(), Position::new(1, 1));
}

#[test]
fn fits_refuses_a_cursor_beyond_the_coordinates() {
    let state = typed("ab");
    let input = Input::new();
    assert!(input.fits(&state, Rect::new(65532, 0, 3, 3)));
    assert!(!input.fits(&state, Rect::new(65533, 0, 2, 3)));
    assert!(!input.fits(&state, Rect::new(0, 65535, 2, 1)));
    assert!(input.fits(&state, Rect::new(0, 65534, 2, 1)));
}
