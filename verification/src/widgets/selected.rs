use vstd::prelude::*;
use crate::state::{State, TypingStatus, WordItemView};
use crate::word::copy_lines;

verus! {

/// The detail pane: the selected word with the verdict on each of its characters, and what
/// the vocabulary says about it.
pub struct Selected {}

/// One character of the selected word with the verdict that decides how it is drawn.
#[derive(Copy, Clone, PartialEq, Eq, Structural, Debug)]
pub struct Letter {
    pub ch: char,
    pub status: TypingStatus,
}

/// What the detail pane shows.
pub struct SelectedPane {
    /// The word, character by character.
    pub word: Vec<Letter>,
    /// The grammatical category of the word.
    pub kind: String,
    /// The phonetic transcription of the word.
    pub phonetics: String,
    /// The lines of the definition.
    pub definition: Vec<String>,
}

/// The character at position `i` of the word of `item`, with its verdict.
pub open spec fn letter(item: WordItemView, i: int) -> Letter {
    Letter { ch: item.word.word[i], status: item.char_status[i] }
}

/// The characters of the word of `item`, each with its verdict.
pub open spec fn letters(item: WordItemView) -> Seq<Letter> {
    Seq::new(item.word.word.len(), |i: int| letter(item, i))
}

impl Selected {
    pub fn new() -> (selected: Self) {
        Selected {  }
    }

    /// What to draw for the entry that is selected in `state`.
    pub fn render(&self, state: &State) -> (pane: SelectedPane)
        ensures
            pane.word@ == letters(state@.selected_word()),
            pane.kind@ == state@.selected_word().word.kind,
            pane.phonetics@ == state@.selected_word().word.phonetics,
            pane.definition.deep_view() == state@.selected_word().word.definition,
    {
        let selected_word = state.selected_word();
        let char_status = selected_word.char_status();
        let text = selected_word.word().word.as_str();
        let mut spelled: Vec<Letter> = Vec::new();
        for c in it: text.chars()
            invariant
                it.seq() == selected_word@.word.word,
                char_status@ == selected_word@.char_status,
                char_status@.len() == selected_word@.word.word.len(),
                spelled@ =~= letters(selected_word@).take(it.index() as int),
        {
            let ghost k = it.index() as int;
            let next = Letter { ch: c, status: char_status[spelled.len()] };
            assert(next == letter(selected_word@, k));
            spelled.push(next);
        }
        assert(spelled@ =~= letters(selected_word@));
        SelectedPane {
            word: spelled,
            kind: selected_word.word().kind.clone(),
            phonetics: selected_word.word().phonetics.clone(),
            definition: copy_lines(&selected_word.word().definition),
        }
    }
}

} // verus!
