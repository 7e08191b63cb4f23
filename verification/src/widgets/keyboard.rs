use vstd::prelude::*;
use crate::state::State;
use crate::text::{contains_char, to_uppercase, uppercase};

verus! {

/// The keyboard pane: a fixed layout of key caps, on which the keys that the selected word
/// needs are highlighted.
pub struct Keyboard {}

/// One key cap as it is to be drawn.
#[derive(Copy, Clone, PartialEq, Eq, Structural, Debug)]
pub struct KeyCap {
    /// The character on the cap.
    pub label: char,
    /// Whether the selected word holds the character, in either case.
    pub highlighted: bool,
    /// Whether the cap is one of the two on which the index fingers rest.
    pub home_row: bool,
}

/// The labels of the key caps, row by row from the top.
pub open spec fn layout() -> Seq<Seq<char>> {
    seq!["QDRWBJFUP;["@, "ASHTGYNEOI"@, "ZXMCVKL,./"@]
}

/// Whether the cap at `row` and `col` is one of the two on which the index fingers rest.
pub open spec fn is_home_key(row: int, col: int) -> bool {
    row == 1 && (col == 3 || col == 6)
}

/// The cap at `row` and `col` while `word` is selected.
pub open spec fn key_cap(word: Seq<char>, row: int, col: int) -> KeyCap {
    KeyCap {
        label: layout()[row][col],
        highlighted: uppercase(word).contains(layout()[row][col]),
        home_row: is_home_key(row, col),
    }
}

/// The caps of `row` while `word` is selected.
pub open spec fn key_row(word: Seq<char>, row: int) -> Seq<KeyCap> {
    Seq::new(layout()[row].len(), |col: int| key_cap(word, row, col))
}

impl Keyboard {
    pub fn new() -> (keyboard: Self) {
        Keyboard {  }
    }

    /// The labels of the caps of `row`.
    fn row_labels(row: usize) -> (labels: &'static str)
        requires
            row < 3,
        ensures
            labels@ == layout()[row as int],
    {
        if row == 0 {
            "QDRWBJFUP;["
        } else if row == 1 {
            "ASHTGYNEOI"
        } else {
            "ZXMCVKL,./"
        }
    }

    /// The key caps to draw, row by row from the top, for the word that is selected in
    /// `state`.
    pub fn render(&self, state: &State) -> (rows: Vec<Vec<KeyCap>>)
        ensures
            rows@.len() == 3,
            forall|row: int|
                0 <= row < 3 ==> (#[trigger] rows@[row])@ == key_row(
                    state@.selected_word().word.word,
                    row,
                ),
    {
        let selected_word = to_uppercase(state.selected_word().word().word.as_str());
        let ghost word = state@.selected_word().word.word;
        let mut rows: Vec<Vec<KeyCap>> = Vec::new();
        let mut row_idx: usize = 0;
        while row_idx < 3
            invariant
                row_idx <= 3,
                rows@.len() == row_idx,
                selected_word@ == uppercase(word),
                forall|row: int| 0 <= row < row_idx ==> (#[trigger] rows@[row])@ == key_row(word, row),
            decreases 3 - row_idx,
        {
            let keys = Self::row_labels(row_idx);
            let mut caps: Vec<KeyCap> = Vec::new();
            for key in it: keys.chars()
                invariant
                    row_idx < 3,
                    it.seq() == layout()[row_idx as int],
                    selected_word@ == uppercase(word),
                    caps@ == Seq::new(it.index() as nat, |col: int| key_cap(word, row_idx as int, col)),
            {
                let ghost col = it.index() as int;
                let col_idx = caps.len();
                let cap = KeyCap {
                    label: key,
                    highlighted: contains_char(&selected_word, key),
                    home_row: row_idx == 1 && (col_idx == 3 || col_idx == 6),
                };
                assert(cap == key_cap(word, row_idx as int, col));
                caps.push(cap);
            }
            rows.push(caps);
            row_idx += 1;
        }
        rows
    }
}

} // verus!
