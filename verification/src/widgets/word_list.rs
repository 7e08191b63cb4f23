use vstd::prelude::*;
use crate::event::{KeyCode, KeyEvent, KeyEventKind, KeyModifiers};
use crate::state::{State, StateView, TypingStatus, WordItem, WordItemView};

verus! {

/// The list pane: it shows every entry with its verdict, and moves the selection.
pub struct WordList {}

/// What a key event asks of the list pane.
pub enum ListAction {
    SelectPrevious,
    SelectNext,
}

/// The action of the list pane that `key` stands for, if any. Only presses count, with
/// Control alone held or with no modifier held, as the key asks.
pub open spec fn list_action(key: KeyEvent) -> Option<ListAction> {
    if key.kind != KeyEventKind::Press {
        None
    } else if key.modifiers.bits == KeyModifiers::CONTROL {
        match key.code {
            KeyCode::Char(c) => if c == 'p' {
                Some(ListAction::SelectPrevious)
            } else if c == 'n' {
                Some(ListAction::SelectNext)
            } else {
                None
            },
            _ => None,
        }
    } else if key.modifiers.bits == KeyModifiers::NONE {
        match key.code {
            KeyCode::Up => Some(ListAction::SelectPrevious),
            KeyCode::Down => Some(ListAction::SelectNext),
            _ => None,
        }
    } else {
        None
    }
}

/// The state after the list pane has done `action` on `s`.
pub open spec fn after_list_action(s: StateView, action: ListAction) -> StateView {
    match action {
        ListAction::SelectPrevious => s.previous_selected(),
        ListAction::SelectNext => s.next_selected(),
    }
}

/// The marker that stands before a word with the verdict `status`.
pub open spec fn status_icon(status: TypingStatus) -> Seq<char> {
    match status {
        TypingStatus::Wrong => "[W]"@,
        TypingStatus::Accepted => "[A]"@,
        TypingStatus::NotStarted => "[-]"@,
    }
}

/// One row of the list as it is to be drawn.
pub struct ListItem {
    /// The verdict on the word, which decides how the marker is drawn.
    pub status: TypingStatus,
    /// The marker of the verdict.
    pub icon: &'static str,
    /// The word.
    pub word: String,
    /// The grammatical category of the word.
    pub kind: String,
}

impl ListItem {
    /// Whether this row is the row of `item`.
    pub open spec fn shows(self, item: WordItemView) -> bool {
        &&& self.status == item.word_status
        &&& self.icon@ == status_icon(item.word_status)
        &&& self.word@ == item.word.word
        &&& self.kind@ == item.word.kind
    }

    /// The row of `value`.
    pub fn from(value: &WordItem) -> (row: Self)
        ensures
            row.shows(value@),
    {
        let status = value.word_status();
        let icon = match status {
            TypingStatus::Wrong => "[W]",
            TypingStatus::Accepted => "[A]",
            TypingStatus::NotStarted => "[-]",
        };
        ListItem {
            status,
            icon,
            word: value.word().word.clone(),
            kind: value.word().kind.clone(),
        }
    }
}

/// What the list pane shows.
pub struct WordListPane {
    /// The place of the selected entry in the list, counted from 1.
    pub position: usize,
    /// The number of entries.
    pub total: usize,
    /// One row for each entry, in order.
    pub rows: Vec<ListItem>,
    /// The index of the row to highlight.
    pub selected: usize,
}

impl WordList {
    pub fn new() -> (list: Self) {
        WordList {  }
    }

    /// Does what `key` asks of the list pane, if anything. Returns whether it did.
    pub fn handle_keys(&self, state: &mut State, key: KeyEvent) -> (consumed: bool)
        ensures
            consumed == list_action(key).is_some(),
            final(state)@ == match list_action(key) {
                Some(action) => after_list_action(old(state)@, action),
                None => old(state)@,
            },
            final(state)@.wf(),
    {
        proof {
            use_type_invariant(&*state);
            use_type_invariant(&state.input);
        }
        if key.kind != KeyEventKind::Press {
            return false;
        }
        if key.modifiers.bits == KeyModifiers::CONTROL {
            match key.code {
                KeyCode::Char('p') => self.select_previous(state),
                KeyCode::Char('n') => self.select_next(state),
                _ => {
                    return false;
                },
            }
        } else if key.modifiers.bits == KeyModifiers::NONE {
            match key.code {
                KeyCode::Up => self.select_previous(state),
                KeyCode::Down => self.select_next(state),
                _ => {
                    return false;
                },
            }
        } else {
            return false;
        }
        true
    }

    /// Moves the selection to the next entry. At the last entry nothing changes.
    pub fn select_next(&self, state: &mut State)
        ensures
            final(state)@ == old(state)@.next_selected(),
            final(state)@.wf(),
    {
        state.select_next();
    }

    /// Moves the selection to the previous entry. At the first entry nothing changes.
    pub fn select_previous(&self, state: &mut State)
        ensures
            final(state)@ == old(state)@.previous_selected(),
            final(state)@.wf(),
    {
        state.select_previous();
    }

    /// What to draw for the list of `state`.
    pub fn render(&self, state: &State) -> (pane: WordListPane)
        ensures
            pane.position == state@.selected + 1,
            pane.total == state@.words.len(),
            pane.selected == state@.selected,
            pane.rows@.len() == state@.words.len(),
            forall|i: int|
                0 <= i < pane.rows@.len() ==> (#[trigger] pane.rows@[i]).shows(state@.words[i]),
    {
        let selected_index = state.selected();
        let words = state.words();
        let n_words = words.len();
        let mut rows: Vec<ListItem> = Vec::new();
        let mut i: usize = 0;
        while i < n_words
            invariant
                i <= n_words,
                n_words == words@.len(),
                rows@.len() == i,
                forall|j: int| 0 <= j < i ==> (#[trigger] rows@[j]).shows(words@[j]@),
            decreases n_words - i,
        {
            let row = ListItem::from(&words[i]);
            rows.push(row);
            i += 1;
        }
        WordListPane { position: selected_index + 1, total: n_words, rows, selected: selected_index }
    }
}

} // verus!
