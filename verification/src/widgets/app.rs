use vstd::prelude::*;
use crate::event::{KeyCode, KeyEvent, KeyEventKind, KeyModifiers};
use crate::layout::{Position, Rect};
use crate::state::{State, StateView};
use crate::widgets::input::{after_input_action, cursor_cell, cursor_fits, input_action, Input};
use crate::widgets::keyboard::{key_row, KeyCap, Keyboard};
use crate::widgets::selected::{letters, Selected, SelectedPane};
use crate::widgets::word_list::{after_list_action, list_action, WordList, WordListPane};

verus! {

/// The application: the four panes, the order in which they are offered a key event, and
/// the frame that they draw together.
pub struct App {
    input: Input,
    selected: Selected,
    word_list: WordList,
    keyboard: Keyboard,
}

/// What one frame shows.
pub struct Frame {
    /// The text in the input box.
    pub input: String,
    /// The detail pane.
    pub selected: SelectedPane,
    /// The list pane.
    pub word_list: WordListPane,
    /// The key caps of the keyboard pane, row by row from the top.
    pub keyboard: Vec<Vec<KeyCap>>,
    /// The cell at which the terminal cursor is shown.
    pub cursor_position: Position,
}

/// Whether `key` asks to leave: a press of `q` with Control and no other modifier.
pub open spec fn is_exit_key(key: KeyEvent) -> bool {
    &&& key.kind == KeyEventKind::Press
    &&& key.modifiers.bits == KeyModifiers::CONTROL
    &&& key.code == KeyCode::Char('q')
}

/// Whether some handler reacts to `key`.
pub open spec fn is_consumed(key: KeyEvent) -> bool {
    is_exit_key(key) || list_action(key).is_some() || input_action(key).is_some()
}

/// The state after `key` was offered to the handlers in their order: first the exit, then
/// the list pane, then the input box. The first that reacts to the key is the only one
/// that acts; when none does, nothing changes.
pub open spec fn after_key(s: StateView, key: KeyEvent) -> StateView {
    if is_exit_key(key) {
        StateView { should_exit: true, ..s }
    } else if let Some(action) = list_action(key) {
        after_list_action(s, action)
    } else if let Some(action) = input_action(key) {
        after_input_action(s, action)
    } else {
        s
    }
}

/// The state after the events of `keys` were handled in order, up to the first that asks
/// to leave. In a state that is left already nothing is handled.
pub open spec fn after_keys(s: StateView, keys: Seq<KeyEvent>) -> StateView
    decreases keys.len(),
{
    if s.should_exit || keys.len() == 0 {
        s
    } else {
        after_keys(after_key(s, keys[0]), keys.drop_first())
    }
}

impl App {
    pub fn new() -> (app: Self) {
        App {
            input: Input::new(),
            selected: Selected::new(),
            word_list: WordList::new(),
            keyboard: Keyboard::new(),
        }
    }

    /// Sets the exit flag if `key` asks to leave. Returns whether it did.
    pub fn handle_keys(&self, state: &mut State, key: KeyEvent) -> (consumed: bool)
        ensures
            consumed == is_exit_key(key),
            final(state)@ == if is_exit_key(key) {
                StateView { should_exit: true, ..old(state)@ }
            } else {
                old(state)@
            },
            final(state)@.wf(),
    {
        proof {
            use_type_invariant(&*state);
            use_type_invariant(&state.input);
        }
        if key.kind != KeyEventKind::Press {
            return false;
        }
        if key.modifiers.bits != KeyModifiers::CONTROL {
            return false;
        }
        match key.code {
            KeyCode::Char('q') => {
                state.should_exit = true;
                true
            },
            _ => false,
        }
    }

    /// Offers `key` to the handlers in their order. Returns whether one of them reacted.
    pub fn handle_event(&self, state: &mut State, key: KeyEvent) -> (consumed: bool)
        ensures
            consumed == is_consumed(key),
            final(state)@ == after_key(old(state)@, key),
            final(state)@.wf(),
    {
        if self.handle_keys(state, key) {
            return true;
        }
        if self.word_list.handle_keys(state, key) {
            return true;
        }
        if self.input.handle_keys(state, key) {
            return true;
        }
        false
    }

    /// Handles the events of `keys` in order, until one asks to leave or none is left.
    pub fn run(&self, state: &mut State, keys: &Vec<KeyEvent>)
        ensures
            final(state)@ == after_keys(old(state)@, keys@),
            final(state)@.wf(),
    {
        proof {
            use_type_invariant(&*state);
            use_type_invariant(&state.input);
            assert(keys@.skip(0) =~= keys@);
        }
        let mut i: usize = 0;
        while i < keys.len() && !state.should_exit
            invariant
                i <= keys.len(),
                state@.wf(),
                after_keys(state@, keys@.skip(i as int)) == after_keys(old(state)@, keys@),
            decreases keys.len() - i,
        {
            proof {
                assert(keys@.skip(i as int).drop_first() =~= keys@.skip(i + 1));
            }
            self.handle_event(state, keys[i]);
            i += 1;
        }
    }

    /// Whether the frame can be drawn with the input box in `input_area`.
    pub fn fits(&self, state: &State, input_area: Rect) -> (fits: bool)
        ensures
            fits == cursor_fits(input_area, state@.input.character_index),
    {
        self.input.fits(state, input_area)
    }

    /// The frame for `state`, with the input box in `input_area`. Records in the state the
    /// cell at which the terminal cursor is to be shown.
    pub fn render(&self, state: &mut State, input_area: Rect) -> (frame: Frame)
        requires
            cursor_fits(input_area, old(state)@.input.character_index),
        ensures
            final(state)@ == old(state)@.with_cursor_position(
                cursor_cell(input_area, old(state)@.input.character_index),
            ),
            final(state)@.wf(),
            frame.cursor_position == final(state)@.cursor_position,
            frame.input@ == old(state)@.input.text,
            frame.selected.word@ == letters(old(state)@.selected_word()),
            frame.selected.kind@ == old(state)@.selected_word().word.kind,
            frame.selected.phonetics@ == old(state)@.selected_word().word.phonetics,
            frame.selected.definition.deep_view() == old(state)@.selected_word().word.definition,
            frame.word_list.position == old(state)@.selected + 1,
            frame.word_list.total == old(state)@.words.len(),
            frame.word_list.selected == old(state)@.selected,
            frame.word_list.rows@.len() == old(state)@.words.len(),
            forall|i: int|
                0 <= i < frame.word_list.rows@.len() ==> (#[trigger] frame.word_list.rows@[i]).shows(
                    old(state)@.words[i],
                ),
            frame.keyboard@.len() == 3,
            forall|row: int|
                0 <= row < 3 ==> (#[trigger] frame.keyboard@[row])@ == key_row(
                    old(state)@.selected_word().word.word,
                    row,
                ),
    {
        let input = self.input.render(state, input_area);
        let selected = self.selected.render(state);
        let word_list = self.word_list.render(state);
        let keyboard = self.keyboard.render(state);
        Frame { input, selected, word_list, keyboard, cursor_position: state.cursor_position() }
    }
}

} // verus!
