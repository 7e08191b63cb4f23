use vstd::prelude::*;
use vstd::std_specs::iter::IteratorSpec;
use vstd::string::StrSliceExecFns;
use crate::layout::Position;
use crate::word::{Word, WordList, WordView};

verus! {

/// The verdict on a word, or on one of its characters, after the latest submission.
#[derive(Copy, Clone, PartialEq, Eq, Structural, Debug)]
pub enum TypingStatus {
    Wrong,
    Accepted,
    NotStarted,
}

/// The verdict on the whole word: accepted when the submission is the word, character for
/// character.
pub open spec fn word_verdict(target: Seq<char>, submitted: Seq<char>) -> TypingStatus {
    if submitted == target {
        TypingStatus::Accepted
    } else {
        TypingStatus::Wrong
    }
}

/// The verdict on position `i` of the word: accepted when the submission has the same
/// character at the same position. A position that the submission does not reach is wrong.
pub open spec fn char_verdict(target: Seq<char>, submitted: Seq<char>, i: int) -> TypingStatus {
    if i < submitted.len() && submitted[i] == target[i] {
        TypingStatus::Accepted
    } else {
        TypingStatus::Wrong
    }
}

/// One verdict for each character of the word, by position.
pub open spec fn char_verdicts(target: Seq<char>, submitted: Seq<char>) -> Seq<TypingStatus> {
    Seq::new(target.len(), |i: int| char_verdict(target, submitted, i))
}

/// Scores `submitted` against `target`: the verdict on the word and on each of its
/// characters.
pub fn score(target: &str, submitted: &str) -> (verdicts: (TypingStatus, Vec<TypingStatus>))
    ensures
        verdicts.0 == word_verdict(target@, submitted@),
        verdicts.1@ == char_verdicts(target@, submitted@),
{
    let mut rest = submitted.chars();
    let mut marks: Vec<TypingStatus> = Vec::new();
    let mut same = true;
    for c in it: target.chars()
        invariant
            it.seq() == target@,
            marks@ == Seq::new(it.index() as nat, |i: int| char_verdict(target@, submitted@, i)),
            rest.obeys_prophetic_iter_laws(),
            it.index() <= submitted@.len() ==> rest.remaining() == submitted@.skip(
                it.index() as int,
            ),
            it.index() > submitted@.len() ==> rest.remaining().len() == 0,
            same <==> (it.index() <= submitted@.len() && submitted@.take(it.index() as int)
                =~= target@.take(it.index() as int)),
    {
        let ghost k = it.index() as int;
        let verdict = match rest.next() {
            Some(d) => {
                assert(d == submitted@[k]);
                if d == c {
                    TypingStatus::Accepted
                } else {
                    TypingStatus::Wrong
                }
            },
            None => TypingStatus::Wrong,
        };
        if verdict != TypingStatus::Accepted {
            same = false;
        }
        marks.push(verdict);
        proof {
            assert(c == target@[k]);
            if k < submitted@.len() {
                assert(submitted@.take(k + 1) == submitted@.take(k).push(submitted@[k]));
                assert(target@.take(k + 1) == target@.take(k).push(target@[k]));
                if submitted@.take(k + 1) == target@.take(k + 1) {
                    assert(submitted@.take(k + 1)[k] == target@.take(k + 1)[k]);
                    assert(submitted@.take(k + 1).take(k) == target@.take(k + 1).take(k));
                    assert(submitted@.take(k + 1).take(k) == submitted@.take(k));
                    assert(target@.take(k + 1).take(k) == target@.take(k));
                }
            }
        }
    }
    let end = rest.next();
    proof {
        let n = target@.len() as int;
        assert(target@.take(n) == target@);
        if n <= submitted@.len() && end.is_none() {
            assert(submitted@.skip(n).len() == 0);
            assert(submitted@.take(n) == submitted@);
        }
    }
    if same && end.is_none() {
        (TypingStatus::Accepted, marks)
    } else {
        (TypingStatus::Wrong, marks)
    }
}

/// A vocabulary record with the state of the typing practice on it.
pub struct WordItem {
    pub(crate) word: Word,
    pub(crate) word_status: TypingStatus,
    pub(crate) char_status: Vec<TypingStatus>,
}

/// A `WordItem` as plain values.
pub struct WordItemView {
    pub word: WordView,
    pub word_status: TypingStatus,
    pub char_status: Seq<TypingStatus>,
}

impl WordItemView {
    /// There is one verdict for each character of the word.
    pub open spec fn wf(self) -> bool {
        self.char_status.len() == self.word.word.len()
    }

    /// The entry of `word` on which nothing was typed yet.
    pub open spec fn fresh(word: WordView) -> WordItemView {
        WordItemView {
            word,
            word_status: TypingStatus::NotStarted,
            char_status: Seq::new(word.word.len(), |i: int| TypingStatus::NotStarted),
        }
    }

    /// The entry after `submitted` was scored against it.
    pub open spec fn validated(self, submitted: Seq<char>) -> WordItemView {
        WordItemView {
            word: self.word,
            word_status: word_verdict(self.word.word, submitted),
            char_status: char_verdicts(self.word.word, submitted),
        }
    }
}

impl View for WordItem {
    type V = WordItemView;

    open(crate) spec fn view(&self) -> WordItemView {
        WordItemView {
            word: self.word@,
            word_status: self.word_status,
            char_status: self.char_status@,
        }
    }
}

impl WordItem {
    #[verifier::type_invariant]
    pub(crate) open(crate) spec fn inv(self) -> bool {
        self@.wf()
    }

    pub fn new(word: Word) -> (item: Self)
        ensures
            item@ == WordItemView::fresh(word@),
            item@.wf(),
    {
        let char_len = word.word.as_str().unicode_len();
        let mut char_status: Vec<TypingStatus> = Vec::new();
        let mut i: usize = 0;
        while i < char_len
            invariant
                i <= char_len,
                char_status@ == Seq::new(i as nat, |j: int| TypingStatus::NotStarted),
            decreases char_len - i,
        {
            char_status.push(TypingStatus::NotStarted);
            i += 1;
        }
        WordItem { word, word_status: TypingStatus::NotStarted, char_status }
    }

    /// Scores `input` against the word and records the verdicts. Returns whether `input` is
    /// the word.
    pub fn validate_word(&mut self, input: &str) -> (matched: bool)
        ensures
            final(self)@ == old(self)@.validated(input@),
            final(self)@.wf(),
            matched <==> input@ == old(self)@.word.word,
            matched ==> final(self)@.word_status == TypingStatus::Accepted && forall|i: int|
                0 <= i < final(self)@.char_status.len() ==> final(self)@.char_status[i]
                    == TypingStatus::Accepted,
            !matched ==> final(self)@.word_status == TypingStatus::Wrong,
            final(self)@.char_status.len() == old(self)@.word.word.len(),
    {
        let (word_status, char_status) = score(self.word.word.as_str(), input);
        self.char_status = char_status;
        self.word_status = word_status;
        word_status == TypingStatus::Accepted
    }

    pub fn word(&self) -> (word: &Word)
        ensures
            word@ == self@.word,
    {
        &self.word
    }

    pub fn word_status(&self) -> (status: TypingStatus)
        ensures
            status == self@.word_status,
    {
        self.word_status
    }

    pub fn char_status(&self) -> (marks: &Vec<TypingStatus>)
        ensures
            marks@ == self@.char_status,
            marks@.len() == self@.word.word.len(),
    {
        proof {
            use_type_invariant(self);
        }
        &self.char_status
    }
}

/// The text that the user is typing, and the cursor in it. The cursor counts characters,
/// not bytes, and lies between 0 and the number of characters of the text.
pub struct Input {
    pub(crate) text: String,
    pub(crate) character_index: usize,
}

/// An `Input` as plain values.
pub struct InputView {
    pub text: Seq<char>,
    pub character_index: nat,
}

impl InputView {
    /// The cursor lies in the text or at its end.
    pub open spec fn wf(self) -> bool {
        self.character_index <= self.text.len()
    }

    /// The empty text with the cursor at its start.
    pub open spec fn empty() -> InputView {
        InputView { text: Seq::empty(), character_index: 0 }
    }

    /// The cursor one character to the left, unless it is at the start.
    pub open spec fn moved_left(self) -> InputView {
        InputView {
            text: self.text,
            character_index: if self.character_index > 0 {
                (self.character_index - 1) as nat
            } else {
                0
            },
        }
    }

    /// The cursor one character to the right, unless it is at the end.
    pub open spec fn moved_right(self) -> InputView {
        InputView {
            text: self.text,
            character_index: if self.character_index < self.text.len() {
                self.character_index + 1
            } else {
                self.text.len()
            },
        }
    }

    /// The input after the cursor was moved to the left `n` times.
    pub open spec fn moved_left_by(self, n: nat) -> InputView
        decreases n,
    {
        if n == 0 {
            self
        } else {
            self.moved_left().moved_left_by((n - 1) as nat)
        }
    }

    /// The input after the cursor was moved to the right `n` times.
    pub open spec fn moved_right_by(self, n: nat) -> InputView
        decreases n,
    {
        if n == 0 {
            self
        } else {
            self.moved_right().moved_right_by((n - 1) as nat)
        }
    }

    /// `c` put in at the cursor, and the cursor behind it.
    pub open spec fn entered(self, c: char) -> InputView {
        InputView {
            text: self.text.insert(self.character_index as int, c),
            character_index: self.character_index + 1,
        }
    }

    /// The character before the cursor taken out, and the cursor in its place. Nothing
    /// changes when the cursor is at the start.
    pub open spec fn deleted(self) -> InputView {
        if self.character_index == 0 {
            self
        } else {
            InputView {
                text: self.text.remove(self.character_index - 1),
                character_index: (self.character_index - 1) as nat,
            }
        }
    }
}

impl View for Input {
    type V = InputView;

    open(crate) spec fn view(&self) -> InputView {
        InputView { text: self.text@, character_index: self.character_index as nat }
    }
}

impl Input {
    #[verifier::type_invariant]
    pub(crate) open(crate) spec fn inv(self) -> bool {
        self@.wf()
    }

    pub fn text(&self) -> (text: &str)
        ensures
            text@ == self@.text,
    {
        self.text.as_str()
    }

    pub fn character_index(&self) -> (index: usize)
        ensures
            index == self@.character_index,
            index <= self@.text.len(),
    {
        proof {
            use_type_invariant(self);
        }
        self.character_index
    }
}

/// The state of a session: the exit flag, the input, the vocabulary with the progress on
/// each word, the selected entry and the screen position of the cursor. There is always at
/// least one entry, and the selection is one of them.
pub struct State {
    pub(crate) should_exit: bool,
    pub(crate) input: Input,
    pub(crate) words: Vec<WordItem>,
    pub(crate) selected: usize,
    pub(crate) cursor_position: Position,
}

/// A `State` as plain values.
pub struct StateView {
    pub should_exit: bool,
    pub input: InputView,
    pub words: Seq<WordItemView>,
    pub selected: nat,
    pub cursor_position: Position,
}

impl StateView {
    /// The cursor lies in the input, and the selection is an entry.
    pub open spec fn wf(self) -> bool {
        &&& self.input.wf()
        &&& self.selected < self.words.len()
    }

    /// Each entry has one verdict for each character of its word.
    pub open spec fn entries_wf(self) -> bool {
        forall|i: int| 0 <= i < self.words.len() ==> (#[trigger] self.words[i]).wf()
    }

    /// The state in which a session over `words` starts.
    pub open spec fn initial(words: Seq<WordView>) -> StateView {
        StateView {
            should_exit: false,
            input: InputView::empty(),
            words: words.map_values(|w: WordView| WordItemView::fresh(w)),
            selected: 0,
            cursor_position: Position { x: 0, y: 0 },
        }
    }

    /// The selected entry.
    pub open spec fn selected_word(self) -> WordItemView {
        self.words[self.selected as int]
    }

    /// This state with `input` in place of its input.
    pub open spec fn with_input(self, input: InputView) -> StateView {
        StateView { input, ..self }
    }

    /// This state with the terminal cursor at `position`.
    pub open spec fn with_cursor_position(self, position: Position) -> StateView {
        StateView { cursor_position: position, ..self }
    }

    /// The selection one entry further, unless it is the last entry.
    pub open spec fn next_selected(self) -> StateView {
        StateView {
            selected: if self.selected + 1 < self.words.len() {
                self.selected + 1
            } else {
                self.selected
            },
            ..self
        }
    }

    /// The state after the selection was moved to the next entry `n` times.
    pub open spec fn next_selected_by(self, n: nat) -> StateView
        decreases n,
    {
        if n == 0 {
            self
        } else {
            self.next_selected().next_selected_by((n - 1) as nat)
        }
    }

    /// The selection one entry back, unless it is the first entry.
    pub open spec fn previous_selected(self) -> StateView {
        StateView {
            selected: if self.selected > 0 {
                (self.selected - 1) as nat
            } else {
                0
            },
            ..self
        }
    }

    /// The input scored against the selected entry and cleared; the selection one entry
    /// further when the input was the word, unless it is the last entry.
    pub open spec fn submitted(self) -> StateView {
        let scored = StateView {
            input: InputView::empty(),
            words: self.words.update(
                self.selected as int,
                self.selected_word().validated(self.input.text),
            ),
            ..self
        };
        if self.input.text == self.selected_word().word.word {
            scored.next_selected()
        } else {
            scored
        }
    }
}

/// The entries of `items` as plain values, in order.
pub open spec fn item_views(items: Seq<WordItem>) -> Seq<WordItemView> {
    items.map_values(|item: WordItem| item@)
}

impl View for State {
    type V = StateView;

    open(crate) spec fn view(&self) -> StateView {
        StateView {
            should_exit: self.should_exit,
            input: self.input@,
            words: item_views(self.words@),
            selected: self.selected as nat,
            cursor_position: self.cursor_position,
        }
    }
}

impl State {
    #[verifier::type_invariant]
    pub(crate) open(crate) spec fn inv(self) -> bool {
        self.selected < self.words@.len()
    }

    /// The state in which a session over `word_list` starts: nothing typed, the first entry
    /// selected.
    pub fn new(word_list: &WordList) -> (state: Self)
        ensures
            state@ == StateView::initial(word_list@),
            state@.wf(),
            state@.entries_wf(),
    {
        let list = word_list.as_slice();
        let mut words: Vec<WordItem> = Vec::new();
        let mut i: usize = 0;
        while i < list.len()
            invariant
                i <= list.len(),
                words@.len() == i,
                forall|j: int|
                    0 <= j < i ==> (#[trigger] words@[j])@ == WordItemView::fresh(list@[j]@),
            decreases list.len() - i,
        {
            words.push(WordItem::new(list[i].duplicate()));
            i += 1;
        }
        let state = State {
            should_exit: false,
            input: Input { text: String::new(), character_index: 0 },
            words,
            selected: 0,
            cursor_position: Position::origin(),
        };
        proof {
            assert(state@.words =~= StateView::initial(word_list@).words);
        }
        state
    }

    /// Moves the selection to the next entry. At the last entry nothing changes.
    pub fn select_next(&mut self)
        ensures
            final(self)@ == old(self)@.next_selected(),
            final(self)@.wf(),
    {
        proof {
            use_type_invariant(&*self);
            use_type_invariant(&self.input);
        }
        let last = self.words.len() - 1;
        if self.selected < last {
            self.selected = self.selected + 1;
        }
    }

    /// Moves the selection to the previous entry. At the first entry nothing changes.
    pub fn select_previous(&mut self)
        ensures
            final(self)@ == old(self)@.previous_selected(),
            final(self)@.wf(),
    {
        proof {
            use_type_invariant(&*self);
            use_type_invariant(&self.input);
        }
        if self.selected > 0 {
            self.selected = self.selected - 1;
        }
    }

    pub fn should_exit(&self) -> (exit: bool)
        ensures
            exit == self@.should_exit,
    {
        self.should_exit
    }

    pub fn input(&self) -> (input: &Input)
        ensures
            input@ == self@.input,
            input@.wf(),
    {
        proof {
            use_type_invariant(&self.input);
        }
        &self.input
    }

    pub fn words(&self) -> (words: &Vec<WordItem>)
        ensures
            item_views(words@) == self@.words,
            words@.len() > 0,
    {
        proof {
            use_type_invariant(self);
        }
        &self.words
    }

    /// The index of the selected entry.
    pub fn selected(&self) -> (index: usize)
        ensures
            index == self@.selected,
            index < self@.words.len(),
    {
        proof {
            use_type_invariant(self);
        }
        self.selected
    }

    /// The selected entry.
    pub fn selected_word(&self) -> (item: &WordItem)
        ensures
            item@ == self@.selected_word(),
            item@.wf(),
    {
        proof {
            use_type_invariant(self);
        }
        let item = &self.words[self.selected];
        proof {
            use_type_invariant(item);
        }
        item
    }

    pub fn cursor_position(&self) -> (position: Position)
        ensures
            position == self@.cursor_position,
    {
        self.cursor_position
    }
}

/// A submission that is the word is accepted, and so is each of its characters.
pub proof fn lemma_exact_submission_accepted(target: Seq<char>)
    ensures
        word_verdict(target, target) == TypingStatus::Accepted,
        char_verdicts(target, target).len() == target.len(),
        forall|i: int|
            0 <= i < target.len() ==> #[trigger] char_verdicts(target, target)[i]
                == TypingStatus::Accepted,
{
}

/// A submission that is not the word is wrong, whatever its characters are.
pub proof fn lemma_other_submission_wrong(target: Seq<char>, submitted: Seq<char>)
    requires
        submitted != target,
    ensures
        word_verdict(target, submitted) == TypingStatus::Wrong,
{
}

/// Scoring leaves an entry with one verdict for each character of its word, whatever was
/// submitted and whatever the entry held before.
pub proof fn lemma_validated_wf(item: WordItemView, submitted: Seq<char>)
    ensures
        item.validated(submitted).wf(),
        item.validated(submitted).word == item.word,
{
}

/// The cursor stops at the start of the input: after `n` moves to the left it is `n`
/// characters further left, or at the start if there are fewer before it.
pub proof fn lemma_moved_left_by(input: InputView, n: nat)
    ensures
        input.moved_left_by(n).text == input.text,
        input.moved_left_by(n).character_index == if input.character_index >= n {
            input.character_index - n
        } else {
            0
        },
        input.character_index == 0 ==> input.moved_left_by(n) == input,
    decreases n,
{
    if n > 0 {
        lemma_moved_left_by(input.moved_left(), (n - 1) as nat);
    }
}

/// The cursor stops at the end of the input: after `n` moves to the right it is `n`
/// characters further right, or at the end if there are fewer behind it.
pub proof fn lemma_moved_right_by(input: InputView, n: nat)
    requires
        input.wf(),
    ensures
        input.moved_right_by(n).text == input.text,
        input.moved_right_by(n).character_index == if input.character_index + n
            <= input.text.len() {
            input.character_index + n
        } else {
            input.text.len()
        },
        input.moved_right_by(n).wf(),
    decreases n,
{
    if n > 0 {
        lemma_moved_right_by(input.moved_right(), (n - 1) as nat);
    }
}

/// Entering a character, of whatever width in bytes, makes the input one character
/// longer, and deleting it again gives back the input as it was.
pub proof fn lemma_entered_then_deleted(input: InputView, c: char)
    requires
        input.wf(),
    ensures
        input.entered(c).wf(),
        input.entered(c).text.len() == input.text.len() + 1,
        input.entered(c).text[input.character_index as int] == c,
        input.entered(c).deleted() == input,
{
    let k = input.character_index as int;
    assert(input.text.insert(k, c).remove(k) =~= input.text);
}

/// At the first entry the selection cannot move back, and at the last it cannot move on.
pub proof fn lemma_selection_stops(s: StateView)
    requires
        s.wf(),
    ensures
        s.selected == 0 ==> s.previous_selected() == s,
        s.selected == s.words.len() - 1 ==> s.next_selected() == s,
        s.previous_selected().wf(),
        s.next_selected().wf(),
{
}

/// After `n` moves to the next entry the selection is `n` entries further, or at the last
/// entry if there are fewer behind it. So from the first of `k` entries, `k` moves or more
/// end at the last.
pub proof fn lemma_next_selected_by(s: StateView, n: nat)
    requires
        s.wf(),
    ensures
        s.next_selected_by(n).selected == if s.selected + n < s.words.len() {
            s.selected + n
        } else {
            (s.words.len() - 1) as nat
        },
        s.next_selected_by(n).words == s.words,
        s.next_selected_by(n).input == s.input,
        s.next_selected_by(n).wf(),
        s.selected == 0 && n >= s.words.len() ==> s.next_selected_by(n).selected
            == s.words.len() - 1,
    decreases n,
{
    if n > 0 {
        lemma_next_selected_by(s.next_selected(), (n - 1) as nat);
    }
}

/// A submission always empties the input. If it is the selected word, the selection moves
/// on by one entry, unless it is at the last; if not, the selection stays. Every entry but
/// the selected one is left as it was, and the entries stay well formed.
pub proof fn lemma_submitted(s: StateView)
    requires
        s.wf(),
    ensures
        s.submitted().wf(),
        s.submitted().input == InputView::empty(),
        s.submitted().words.len() == s.words.len(),
        s.submitted().words[s.selected as int] == s.selected_word().validated(s.input.text),
        forall|i: int|
            0 <= i < s.words.len() && i != s.selected ==> #[trigger] s.submitted().words[i]
                == s.words[i],
        s.input.text == s.selected_word().word.word ==> s.submitted().selected == if s.selected
            + 1 < s.words.len() {
            s.selected + 1
        } else {
            s.selected
        },
        s.input.text != s.selected_word().word.word ==> s.submitted().selected == s.selected,
        s.entries_wf() ==> s.submitted().entries_wf(),
        s.submitted().should_exit == s.should_exit,
        s.submitted().cursor_position == s.cursor_position,
{
}

} // verus!
