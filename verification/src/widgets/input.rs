use vstd::prelude::*;
use vstd::string::StrSliceExecFns;
use vstd::utf8::{encode_scalar, encode_utf8};
use crate::event::{KeyCode, KeyEvent, KeyEventKind, KeyModifiers};
use crate::layout::{Position, Rect};
use crate::state::{lemma_submitted, InputView, State, StateView};
use crate::text::{
    char_width, lemma_encode_concat, lemma_encode_injective, lemma_encode_single,
    lemma_encode_split, string_insert, string_push, utf8_len,
};

verus! {

/// The input box: it edits the input of the state, and submits it against the selected
/// word.
pub struct Input {}

/// What a key event asks of the input box.
pub enum InputAction {
    Clear,
    Submit,
    Insert(char),
    DeleteBeforeCursor,
    MoveCursorLeft,
    MoveCursorRight,
}

/// The action of the input box that `key` stands for, if any. Only presses count, with
/// Control alone held or with no modifier held, as the key asks.
pub open spec fn input_action(key: KeyEvent) -> Option<InputAction> {
    if key.kind != KeyEventKind::Press {
        None
    } else if key.modifiers.bits == KeyModifiers::CONTROL {
        match key.code {
            KeyCode::Char(c) => if c == 'c' {
                Some(InputAction::Clear)
            } else if c == 'm' {
                Some(InputAction::Submit)
            } else {
                None
            },
            _ => None,
        }
    } else if key.modifiers.bits == KeyModifiers::NONE {
        match key.code {
            KeyCode::Enter => Some(InputAction::Submit),
            KeyCode::Char(c) => Some(InputAction::Insert(c)),
            KeyCode::Backspace => Some(InputAction::DeleteBeforeCursor),
            KeyCode::Left => Some(InputAction::MoveCursorLeft),
            KeyCode::Right => Some(InputAction::MoveCursorRight),
            KeyCode::Esc => Some(InputAction::Clear),
            _ => None,
        }
    } else {
        None
    }
}

/// The state after the input box has done `action` on `s`.
pub open spec fn after_input_action(s: StateView, action: InputAction) -> StateView {
    match action {
        InputAction::Clear => s.with_input(InputView::empty()),
        InputAction::Submit => s.submitted(),
        InputAction::Insert(c) => s.with_input(s.input.entered(c)),
        InputAction::DeleteBeforeCursor => s.with_input(s.input.deleted()),
        InputAction::MoveCursorLeft => s.with_input(s.input.moved_left()),
        InputAction::MoveCursorRight => s.with_input(s.input.moved_right()),
    }
}

/// The cell of the terminal cursor when the input box is drawn in `area`: on the line
/// inside the border, one cell to the right of the border for each character before the
/// cursor. The count of characters is taken modulo 65536.
pub open spec fn cursor_cell(area: Rect, character_index: nat) -> Position {
    Position { x: (area.x + character_index % 0x10000 + 1) as u16, y: (area.y + 1) as u16 }
}

/// Whether the cell of the terminal cursor lies within the coordinates of a terminal.
pub open spec fn cursor_fits(area: Rect, character_index: nat) -> bool {
    &&& area.x + character_index % 0x10000 + 1 <= u16::MAX
    &&& area.y + 1 <= u16::MAX
}

impl Input {
    pub fn new() -> (input: Self) {
        Input {  }
    }

    /// Moves the cursor one character to the left. At the start of the input nothing
    /// changes.
    pub fn move_cursor_left(&self, state: &mut State)
        ensures
            final(state)@ == old(state)@.with_input(old(state)@.input.moved_left()),
            final(state)@.wf(),
    {
        proof {
            use_type_invariant(&*state);
            use_type_invariant(&state.input);
        }
        let cursor_moved_left = state.input.character_index.saturating_sub(1);
        let clamped_cursor = self.clamp_cursor(state, cursor_moved_left);
        state.input.character_index = clamped_cursor;
    }

    /// Moves the cursor one character to the right. At the end of the input nothing
    /// changes.
    pub fn move_cursor_right(&self, state: &mut State)
        ensures
            final(state)@ == old(state)@.with_input(old(state)@.input.moved_right()),
            final(state)@.wf(),
    {
        proof {
            use_type_invariant(&*state);
            use_type_invariant(&state.input);
        }
        let cursor_moved_right = state.input.character_index.saturating_add(1);
        let clamped_cursor = self.clamp_cursor(state, cursor_moved_right);
        state.input.character_index = clamped_cursor;
    }

    /// Puts `new_char` into the input at the cursor and moves the cursor behind it.
    pub fn enter_char(&self, state: &mut State, new_char: char)
        ensures
            final(state)@ == old(state)@.with_input(old(state)@.input.entered(new_char)),
            final(state)@.wf(),
    {
        proof {
            use_type_invariant(&*state);
            use_type_invariant(&state.input);
        }
        let index = self.byte_index(state);
        let ghost text = state.input.text@;
        let ghost cursor = state.input.character_index as int;
        let ghost entered = text.insert(cursor, new_char);
        proof {
            lemma_encode_split(text, cursor);
            lemma_encode_single(new_char);
            lemma_encode_concat(text.take(cursor), seq![new_char]);
            lemma_encode_concat(text.take(cursor) + seq![new_char], text.skip(cursor));
            assert(text.take(cursor) + seq![new_char] + text.skip(cursor) =~= entered);
            assert forall|after: Seq<char>| #[trigger]
                encode_utf8(after) == encode_utf8(text).subrange(0, index as int) + encode_scalar(
                    new_char as u32,
                ) + encode_utf8(text).subrange(
                    index as int,
                    encode_utf8(text).len() as int,
                ) implies after == entered by {
                lemma_encode_injective(after, entered);
            }
        }
        let mut text = state.input.text.clone();
        string_insert(&mut text, index, new_char);
        state.input.text = text;
        self.move_cursor_right(state);
    }

    /// The byte at which the character under the cursor starts in the UTF-8 encoding of the
    /// input, or the length of the encoding when the cursor is at the end.
    pub fn byte_index(&self, state: &State) -> (index: usize)
        ensures
            index == utf8_len(state@.input.text.take(state@.input.character_index as int)),
    {
        proof {
            use_type_invariant(&state.input);
        }
        let cursor = state.input.character_index;
        let text = state.input.text.as_str();
        let byte_len = text.as_bytes().len();
        let mut index: usize = 0;
        let mut position: usize = 0;
        for c in it: text.chars()
            invariant
                it.seq() == text@,
                cursor <= text@.len(),
                byte_len == utf8_len(text@),
                position == if it.index() <= cursor {
                    it.index()
                } else {
                    cursor as int
                },
                index == utf8_len(text@.take(position as int)),
        {
            if position < cursor {
                proof {
                    let k = position as int;
                    lemma_encode_concat(text@.take(k), seq![c]);
                    lemma_encode_single(c);
                    assert(text@.take(k) + seq![c] =~= text@.take(k + 1));
                    lemma_encode_split(text@, k + 1);
                }
                index = index + char_width(c);
                position = position + 1;
            }
        }
        index
    }

    /// Deletes the character before the cursor and moves the cursor into its place. At the
    /// start of the input nothing changes.
    pub fn delete_char(&self, state: &mut State)
        ensures
            final(state)@ == old(state)@.with_input(old(state)@.input.deleted()),
            final(state)@.wf(),
    {
        proof {
            use_type_invariant(&*state);
            use_type_invariant(&state.input);
        }
        let is_not_cursor_leftmost = state.input.character_index != 0;
        if is_not_cursor_leftmost {
            let current_index = state.input.character_index;
            let from_left_to_current_index = current_index - 1;
            let ghost before = state.input.text@;
            let mut shortened = String::new();
            let mut position: usize = 0;
            for c in it: state.input.text.as_str().chars()
                invariant
                    it.seq() == before,
                    from_left_to_current_index < before.len(),
                    position == if it.index() <= from_left_to_current_index {
                        it.index()
                    } else {
                        current_index as int
                    },
                    current_index == from_left_to_current_index + 1,
                    shortened@ =~= if it.index() <= from_left_to_current_index {
                        before.take(it.index() as int)
                    } else {
                        before.remove(from_left_to_current_index as int).take(it.index() - 1)
                    },
            {
                if position != from_left_to_current_index {
                    string_push(&mut shortened, c);
                }
                if position < current_index {
                    position = position + 1;
                }
            }
            assert(shortened@ =~= before.remove(from_left_to_current_index as int));
            self.move_cursor_left(state);
            proof {
                use_type_invariant(&*state);
            }
            state.input.text = shortened;
        }
    }

    /// `new_cursor_pos`, or the number of characters of the input if that is less.
    pub fn clamp_cursor(&self, state: &State, new_cursor_pos: usize) -> (clamped: usize)
        ensures
            clamped == if new_cursor_pos <= state@.input.text.len() {
                new_cursor_pos as int
            } else {
                state@.input.text.len() as int
            },
            state@.input.text.len() <= usize::MAX,
    {
        let count = state.input.text.as_str().unicode_len();
        if new_cursor_pos <= count {
            new_cursor_pos
        } else {
            count
        }
    }

    /// Puts the cursor at the start of the input.
    pub fn reset_cursor(&self, state: &mut State)
        ensures
            final(state)@ == old(state)@.with_input(
                InputView { text: old(state)@.input.text, character_index: 0 },
            ),
            final(state)@.wf(),
    {
        proof {
            use_type_invariant(&*state);
            use_type_invariant(&state.input);
        }
        state.input.character_index = 0;
    }

    /// Empties the input and puts the cursor at its start.
    pub fn clear_input(&self, state: &mut State)
        ensures
            final(state)@ == old(state)@.with_input(InputView::empty()),
            final(state)@.wf(),
    {
        self.reset_cursor(state);
        proof {
            use_type_invariant(&*state);
        }
        state.input.text = String::new();
    }

    /// Scores the input against the selected word, moves the selection to the next entry if
    /// the input was the word, and clears the input.
    pub fn submit_input(&self, state: &mut State)
        ensures
            final(state)@ == old(state)@.submitted(),
            final(state)@.wf(),
            final(state)@.input == InputView::empty(),
            old(state)@.input.text == old(state)@.selected_word().word.word
                ==> final(state)@.selected == if old(state)@.selected + 1 < old(
                state,
            )@.words.len() {
                old(state)@.selected + 1
            } else {
                old(state)@.selected
            },
            old(state)@.input.text != old(state)@.selected_word().word.word
                ==> final(state)@.selected == old(state)@.selected,
    {
        proof {
            use_type_invariant(&*state);
            use_type_invariant(&state.input);
            lemma_submitted(state@);
        }
        let selected_index = state.selected;
        let matched = state.words[selected_index].validate_word(state.input.text.as_str());
        proof {
            assert(state@.words =~= old(state)@.words.update(
                selected_index as int,
                old(state)@.selected_word().validated(old(state)@.input.text),
            ));
        }
        if matched {
            state.select_next();
        }
        self.clear_input(state);
    }

    /// Does what `key` asks of the input box, if anything. Returns whether it did.
    pub fn handle_keys(&self, state: &mut State, key: KeyEvent) -> (consumed: bool)
        ensures
            consumed == input_action(key).is_some(),
            final(state)@ == match input_action(key) {
                Some(action) => after_input_action(old(state)@, action),
                None => old(state)@,
            },
            final(state)@.wf(),
    {
        proof {
            use_type_invariant(&*state);
            use_type_invariant(&state.input);
        }
        if key.kind != KeyEventKind::Press {
            return false;
        }
        if key.modifiers.bits == KeyModifiers::CONTROL {
            match key.code {
                KeyCode::Char('c') => self.clear_input(state),
                KeyCode::Char('m') => self.submit_input(state),
                _ => {
                    return false;
                },
            }
        } else if key.modifiers.bits == KeyModifiers::NONE {
            match key.code {
                KeyCode::Enter => self.submit_input(state),
                KeyCode::Char(to_insert) => self.enter_char(state, to_insert),
                KeyCode::Backspace => self.delete_char(state),
                KeyCode::Left => self.move_cursor_left(state),
                KeyCode::Right => self.move_cursor_right(state),
                KeyCode::Esc => self.clear_input(state),
                _ => {
                    return false;
                },
            }
        } else {
            return false;
        }
        true
    }

    /// Whether the input box can be drawn in `area`: the cell of the terminal cursor must
    /// lie within the coordinates of a terminal.
    pub fn fits(&self, state: &State, area: Rect) -> (fits: bool)
        ensures
            fits == cursor_fits(area, state@.input.character_index),
    {
        let column = (state.input.character_index % 0x10000) as u16;
        area.y < u16::MAX && column < u16::MAX && area.x <= u16::MAX - column - 1
    }

    /// The text to show in the input box when it is drawn in `area`. Records in the state
    /// the cell at which the terminal cursor is to be shown.
    pub fn render(&self, state: &mut State, area: Rect) -> (text: String)
        requires
            cursor_fits(area, old(state)@.input.character_index),
        ensures
            text@ == old(state)@.input.text,
            final(state)@ == old(state)@.with_cursor_position(
                cursor_cell(area, old(state)@.input.character_index),
            ),
            final(state)@.wf(),
    {
        proof {
            use_type_invariant(&*state);
            use_type_invariant(&state.input);
        }
        let column = (state.input.character_index % 0x10000) as u16;
        let new_cursor_position = Position::new(area.x + column + 1, area.y + 1);
        state.cursor_position = new_cursor_position;
        state.input.text.clone()
    }
}

} // verus!
