use rand::seq::SliceRandom;
use vstd::prelude::*;
use vstd::std_specs::iter::IteratorSpec;
use crate::opts::Args;
use crate::text::{ascii_lower, lowercase, to_ascii_lower};

verus! {

/// One vocabulary record: the word to type, its grammatical category, its phonetic
/// transcription and the lines of its definition.
#[derive(Clone, Debug)]
pub struct Word {
    pub word: String,
    pub kind: String,
    pub phonetics: String,
    pub definition: Vec<String>,
}

/// A `Word` as plain text.
pub struct WordView {
    pub word: Seq<char>,
    pub kind: Seq<char>,
    pub phonetics: Seq<char>,
    pub definition: Seq<Seq<char>>,
}

impl View for Word {
    type V = WordView;

    open spec fn view(&self) -> WordView {
        WordView {
            word: self.word@,
            kind: self.kind@,
            phonetics: self.phonetics@,
            definition: self.definition.deep_view(),
        }
    }
}

/// The texts of `lines`, in order.
pub fn copy_lines(lines: &Vec<String>) -> (copy: Vec<String>)
    ensures
        copy.deep_view() == lines.deep_view(),
{
    let mut copy: Vec<String> = Vec::new();
    let mut i: usize = 0;
    while i < lines.len()
        invariant
            i <= lines.len(),
            copy@.len() == i,
            forall|j: int| 0 <= j < i ==> copy@[j]@ == lines@[j]@,
        decreases lines.len() - i,
    {
        copy.push(lines[i].clone());
        i += 1;
    }
    assert(copy.deep_view() =~= lines.deep_view());
    copy
}

impl Word {
    /// A record with the same texts.
    pub fn duplicate(&self) -> (copy: Word)
        ensures
            copy@ == self@,
    {
        Word {
            word: self.word.clone(),
            kind: self.kind.clone(),
            phonetics: self.phonetics.clone(),
            definition: copy_lines(&self.definition),
        }
    }
}

/// The texts of `words`, in order.
pub open spec fn word_views(words: Seq<Word>) -> Seq<WordView> {
    words.map_values(|w: Word| w@)
}

/// Whether `a` comes before `b` or is `b`, character by character by code point; a text
/// comes after each of its proper beginnings.
pub open spec fn text_le(a: Seq<char>, b: Seq<char>) -> bool
    decreases a.len(),
{
    if a.len() == 0 {
        true
    } else if b.len() == 0 {
        false
    } else if a[0] != b[0] {
        (a[0] as u32) < (b[0] as u32)
    } else {
        text_le(a.drop_first(), b.drop_first())
    }
}

/// The order of the vocabulary: by the word, without regard to the case of ASCII letters.
pub open spec fn word_le(a: WordView, b: WordView) -> bool {
    text_le(lowercase(a.word), lowercase(b.word))
}

/// Whether `a` comes before `b` or is `b` when the case of ASCII letters is disregarded.
pub fn le_ignore_ascii_case(a: &str, b: &str) -> (le: bool)
    ensures
        le == text_le(lowercase(a@), lowercase(b@)),
{
    let mut rest = b.chars();
    proof {
        assert(lowercase(a@).skip(0) =~= lowercase(a@));
        assert(lowercase(b@).skip(0) =~= lowercase(b@));
    }
    for c in it: a.chars()
        invariant
            it.seq() == a@,
            rest.obeys_prophetic_iter_laws(),
            it.index() <= b@.len(),
            rest.remaining() == b@.skip(it.index() as int),
            text_le(lowercase(a@), lowercase(b@)) == text_le(
                lowercase(a@).skip(it.index() as int),
                lowercase(b@).skip(it.index() as int),
            ),
    {
        let ghost k = it.index() as int;
        let ghost x = lowercase(a@).skip(k);
        let ghost y = lowercase(b@).skip(k);
        proof {
            assert(x.len() > 0);
            assert(x[0] == ascii_lower(c));
            assert(x.drop_first() =~= lowercase(a@).skip(k + 1));
            assert(y.len() == b@.len() - k);
            if y.len() > 0 {
                assert(y[0] == ascii_lower(b@[k]));
                assert(y.drop_first() =~= lowercase(b@).skip(k + 1));
            }
        }
        match rest.next() {
            None => {
                return false;
            },
            Some(d) => {
                let x0 = to_ascii_lower(c);
                let y0 = to_ascii_lower(d);
                if x0 != y0 {
                    return (x0 as u32) < (y0 as u32);
                }
            },
        }
    }
    proof {
        assert(lowercase(a@).skip(a@.len() as int).len() == 0);
    }
    true
}

/// The order of the vocabulary holds between any two texts, one way or the other.
pub proof fn lemma_text_le_total(a: Seq<char>, b: Seq<char>)
    ensures
        text_le(a, b) || text_le(b, a),
    decreases a.len(),
{
    if a.len() > 0 && b.len() > 0 {
        if a[0] == b[0] {
            lemma_text_le_total(a.drop_first(), b.drop_first());
        } else {
            vstd::utf8::char_u32_cast(a[0], a[0] as u32);
            vstd::utf8::char_u32_cast(b[0], b[0] as u32);
        }
    }
}

/// The order of the vocabulary is transitive.
pub proof fn lemma_text_le_transitive(a: Seq<char>, b: Seq<char>, c: Seq<char>)
    requires
        text_le(a, b),
        text_le(b, c),
    ensures
        text_le(a, c),
    decreases a.len(),
{
    if a.len() > 0 && b.len() > 0 && c.len() > 0 && a[0] == b[0] && b[0] == c[0] {
        lemma_text_le_transitive(a.drop_first(), b.drop_first(), c.drop_first());
    }
}

/// Whether `output` holds the words of `input` in the order of the vocabulary, the word at
/// place `i` of `output` being the one at place `from[i]` of `input`. Words that the order
/// does not tell apart stand as they stood in `input`.
pub open spec fn sorts(input: Seq<WordView>, output: Seq<WordView>, from: Seq<int>) -> bool {
    &&& from.len() == input.len()
    &&& output.len() == input.len()
    &&& forall|i: int| 0 <= i < from.len() ==> 0 <= #[trigger] from[i] < input.len()
    &&& forall|i: int, j: int| 0 <= i < j < from.len() ==> #[trigger] from[i] != #[trigger] from[j]
    &&& forall|k: int| 0 <= k < input.len() ==> #[trigger] from.contains(k)
    &&& forall|i: int| 0 <= i < output.len() ==> #[trigger] output[i] == input[from[i]]
    &&& forall|i: int, j: int|
        0 <= i < j < output.len() ==> word_le(#[trigger] output[i], #[trigger] output[j])
    &&& forall|i: int, j: int|
        0 <= i < j < output.len() && word_le(output[j], output[i]) ==> #[trigger] from[i]
            < #[trigger] from[j]
}

/// Whether `output` is `input` sorted by the order of the vocabulary, with the words that
/// the order does not tell apart left as they stood.
pub open spec fn is_sorted_copy(input: Seq<WordView>, output: Seq<WordView>) -> bool {
    exists|from: Seq<int>| sorts(input, output, from)
}

/// Whether the word at place `i` of `input` has to stand before the word at place `j` in
/// a sorted copy: it comes first in the order of the vocabulary, or the order does not
/// tell the two apart and it stood first in `input`.
pub open spec fn stands_before(input: Seq<WordView>, i: int, j: int) -> bool {
    !word_le(input[j], input[i]) || (word_le(input[i], input[j]) && i < j)
}

/// Two lists of places that hold the same places, each once, and each in the order in
/// which the words have to stand, are the same list.
proof fn lemma_same_places(input: Seq<WordView>, p: Seq<int>, q: Seq<int>)
    requires
        p.len() == q.len(),
        forall|x: int| p.contains(x) <==> q.contains(x),
        forall|i: int, j: int| 0 <= i < j < p.len() ==> p[i] != p[j],
        forall|i: int, j: int| 0 <= i < j < q.len() ==> q[i] != q[j],
        forall|i: int, j: int| 0 <= i < j < p.len() ==> stands_before(input, p[i], p[j]),
        forall|i: int, j: int| 0 <= i < j < q.len() ==> stands_before(input, q[i], q[j]),
    ensures
        p == q,
    decreases p.len(),
{
    if p.len() == 0 {
        assert(p =~= q);
    } else {
        assert(p.contains(p[0]));
        assert(q.contains(q[0]));
        let j = choose|j: int| 0 <= j < q.len() && q[j] == p[0];
        let i = choose|i: int| 0 <= i < p.len() && p[i] == q[0];
        if j > 0 && i > 0 {
            assert(stands_before(input, q[0], q[j]));
            assert(stands_before(input, p[0], p[i]));
            lemma_text_le_total(lowercase(input[p[0]].word), lowercase(input[q[0]].word));
        }
        assert(p[0] == q[0]);
        let p_rest = p.drop_first();
        let q_rest = q.drop_first();
        assert forall|x: int| p_rest.contains(x) <==> q_rest.contains(x) by {
            if p_rest.contains(x) {
                let a = choose|a: int| 0 <= a < p_rest.len() && p_rest[a] == x;
                assert(p[a + 1] == x);
                assert(p.contains(x));
                let b = choose|b: int| 0 <= b < q.len() && q[b] == x;
                assert(b != 0);
                assert(q_rest[b - 1] == x);
            }
            if q_rest.contains(x) {
                let b = choose|b: int| 0 <= b < q_rest.len() && q_rest[b] == x;
                assert(q[b + 1] == x);
                assert(q.contains(x));
                let a = choose|a: int| 0 <= a < p.len() && p[a] == x;
                assert(a != 0);
                assert(p_rest[a - 1] == x);
            }
        }
        assert forall|a: int, b: int| 0 <= a < b < p_rest.len() implies p_rest[a] != p_rest[b]
            && stands_before(input, p_rest[a], p_rest[b]) by {
            assert(p_rest[a] == p[a + 1] && p_rest[b] == p[b + 1]);
        }
        assert forall|a: int, b: int| 0 <= a < b < q_rest.len() implies q_rest[a] != q_rest[b]
            && stands_before(input, q_rest[a], q_rest[b]) by {
            assert(q_rest[a] == q[a + 1] && q_rest[b] == q[b + 1]);
        }
        lemma_same_places(input, p_rest, q_rest);
        assert(p =~= seq![p[0]] + p_rest);
        assert(q =~= seq![q[0]] + q_rest);
    }
}

/// There is one sorted copy of a list of words, and no other.
pub proof fn lemma_sorted_copy_unique(input: Seq<WordView>, a: Seq<WordView>, b: Seq<WordView>)
    requires
        is_sorted_copy(input, a),
        is_sorted_copy(input, b),
    ensures
        a == b,
{
    let p = choose|p: Seq<int>| sorts(input, a, p);
    let q = choose|q: Seq<int>| sorts(input, b, q);
    assert forall|x: int| p.contains(x) <==> q.contains(x) by {
        if p.contains(x) {
            let i = choose|i: int| 0 <= i < p.len() && p[i] == x;
            assert(0 <= p[i] < input.len());
        }
        if q.contains(x) {
            let i = choose|i: int| 0 <= i < q.len() && q[i] == x;
            assert(0 <= q[i] < input.len());
        }
    }
    assert forall|i: int, j: int| 0 <= i < j < p.len() implies stands_before(
        input,
        p[i],
        p[j],
    ) by {
        assert(a[i] == input[p[i]] && a[j] == input[p[j]]);
        assert(word_le(a[i], a[j]));
    }
    assert forall|i: int, j: int| 0 <= i < j < q.len() implies stands_before(
        input,
        q[i],
        q[j],
    ) by {
        assert(b[i] == input[q[i]] && b[j] == input[q[j]]);
        assert(word_le(b[i], b[j]));
    }
    lemma_same_places(input, p, q);
    assert(a =~= b);
}

/// `words` sorted by the word, without regard to the case of ASCII letters. Words that
/// differ in case only stay in the order in which they came.
pub fn sort_words(words: Vec<Word>) -> (sorted: Vec<Word>)
    ensures
        is_sorted_copy(word_views(words@), word_views(sorted@)),
{
    let ghost input = word_views(words@);
    let ghost mut from: Seq<int> = Seq::empty();
    let mut sorted: Vec<Word> = Vec::new();
    for word in it: words
        invariant
            it.seq() == words@,
            input == word_views(words@),
            sorts(input.take(it.index() as int), word_views(sorted@), from),
    {
        let ghost k = it.index() as int;
        let ghost before = word_views(sorted@);
        let mut place: usize = 0;
        while place < sorted.len() && le_ignore_ascii_case(
            sorted[place].word.as_str(),
            word.word.as_str(),
        )
            invariant
                place <= sorted.len(),
                before == word_views(sorted@),
                forall|i: int| 0 <= i < place ==> word_le(#[trigger] before[i], word@),
            decreases sorted.len() - place,
        {
            place += 1;
        }
        proof {
            assert forall|j: int| place <= j < before.len() implies !word_le(
                #[trigger] before[j],
                word@,
            ) && word_le(word@, before[j]) by {
                if word_le(before[j], word@) {
                    lemma_text_le_transitive(
                        lowercase(before[place as int].word),
                        lowercase(before[j].word),
                        lowercase(word@.word),
                    );
                }
                lemma_text_le_total(lowercase(before[j].word), lowercase(word@.word));
            }
        }
        sorted.insert(place, word);
        proof {
            let after = word_views(sorted@);
            let shifted = from.insert(place as int, k);
            assert(after =~= before.insert(place as int, word@));
            assert(input.take(k + 1) =~= input.take(k).push(word@));
            assert(sorts(input.take(k + 1), after, shifted)) by {
                assert forall|i: int| 0 <= i < after.len() implies #[trigger] after[i]
                    == input.take(k + 1)[shifted[i]] by {
                    if i < place {
                        assert(after[i] == before[i]);
                    } else if i > place {
                        assert(after[i] == before[i - 1]);
                    }
                }
                assert forall|i: int, j: int| 0 <= i < j < after.len() implies word_le(
                    #[trigger] after[i],
                    #[trigger] after[j],
                ) by {
                    let bi = if i < place { i } else { i - 1 };
                    let bj = if j < place { j } else { j - 1 };
                    if i != place && j != place {
                        assert(word_le(before[bi], before[bj]));
                    } else if i == place {
                        assert(word_le(word@, before[bj]));
                    } else {
                        assert(word_le(before[bi], word@));
                    }
                }
                assert forall|i: int, j: int|
                    0 <= i < j < after.len() && word_le(
                        after[j],
                        after[i],
                    ) implies #[trigger] shifted[i] < #[trigger] shifted[j] by {
                    let bi = if i < place { i } else { i - 1 };
                    let bj = if j < place { j } else { j - 1 };
                    if i != place && j != place {
                        assert(before[bi] == after[i] && before[bj] == after[j]);
                        assert(from[bi] < from[bj]);
                    } else if i == place {
                        assert(!word_le(before[bj], word@));
                    } else {
                        assert(0 <= from[bi] < k);
                    }
                }
                assert forall|j: int| 0 <= j < k + 1 implies #[trigger] shifted.contains(j) by {
                    if j == k {
                        assert(shifted[place as int] == k);
                    } else {
                        assert(from.contains(j));
                        let i = choose|i: int| 0 <= i < from.len() && from[i] == j;
                        if i < place {
                            assert(shifted[i] == j);
                        } else {
                            assert(shifted[i + 1] == j);
                        }
                    }
                }
                assert forall|i: int, j: int| 0 <= i < j < shifted.len() implies #[trigger] shifted[i]
                    != #[trigger] shifted[j] by {
                    let bi = if i < place { i } else { i - 1 };
                    let bj = if j < place { j } else { j - 1 };
                    if i != place && j != place {
                        assert(from[bi] != from[bj]);
                    } else if i == place {
                        assert(0 <= from[bj] < k);
                    } else {
                        assert(0 <= from[bi] < k);
                    }
                }
            }
            from = shifted;
        }
    }
    proof {
        assert(input.take(words@.len() as int) =~= input);
    }
    sorted
}

/// `Regex` of the regex crate: a compiled regular expression. Nothing is known of what
/// is inside it.
#[verifier::external_type_specification]
#[verifier::external_body]
pub struct ExRegex(regex::Regex);

/// `Error` of the regex crate: why an expression could not be compiled. Nothing is known of
/// what is inside it.
#[verifier::external_type_specification]
#[verifier::external_body]
pub struct ExRegexError(regex::Error);

/// Whether `pattern` is a regular expression that can be compiled.
pub uninterp spec fn pattern_compiles(pattern: Seq<char>) -> bool;

/// The text of the regular expression that `regex` was compiled from, as `Regex::as_str`
/// of the regex crate gives it.
pub uninterp spec fn pattern_of(regex: &regex::Regex) -> Seq<char>;

/// Whether `regex` matches somewhere in `text`.
pub uninterp spec fn regex_matches(regex: &regex::Regex, text: Seq<char>) -> bool;

/// `Regex::new` of the regex crate. Whether it succeeds depends on `pattern` alone, and
/// the compiled expression keeps the text of `pattern`, which `Regex::as_str` gives back.
#[verifier::external_body]
fn compile(pattern: &str) -> (compiled: Result<regex::Regex, regex::Error>)
    ensures
        compiled is Ok <==> pattern_compiles(pattern@),
        compiled matches Ok(regex) ==> pattern_of(&regex) == pattern@,
{
    regex::Regex::new(pattern)
}

/// `Regex::is_match` of the regex crate. Whether there is a match depends on the compiled
/// expression and on `text` alone.
#[verifier::external_body]
fn is_match(regex: &regex::Regex, text: &str) -> (matched: bool)
    ensures
        matched == regex_matches(regex, text@),
{
    regex.is_match(text)
}

/// `SliceRandom::shuffle` of the rand crate, with the generator of the thread. It puts the
/// words into an order that chance decides; the words are the same, each as often as
/// before.
#[verifier::external_body]
fn shuffle(words: &mut Vec<Word>)
    ensures
        word_views(final(words)@).to_multiset() == word_views(old(words)@).to_multiset(),
{
    words.shuffle(&mut rand::thread_rng())
}

/// Why a configuration could not be made.
#[derive(Copy, Clone, PartialEq, Eq, Structural, Debug)]
pub enum ConfigError {
    /// The filter is not a regular expression that can be compiled.
    InvalidFilter,
}

/// How the vocabulary of a session is made from the file.
pub struct WordListConfig {
    /// The path of the file that holds the vocabulary.
    pub path: String,
    /// Whether the vocabulary is presented in a random order.
    pub shuffle: bool,
    /// Only the words that this expression matches are presented.
    pub filter: Option<regex::Regex>,
}

impl WordListConfig {
    /// The configuration that `opts` asks for. It fails when `opts` holds a filter that
    /// cannot be compiled, and only then.
    pub fn from_opts(opts: &Args) -> (made: Result<WordListConfig, ConfigError>)
        ensures
            made is Ok <==> (opts.filter matches Some(pattern) ==> pattern_compiles(pattern@)),
            made matches Ok(config) ==> {
                &&& config.path@ == opts.wordlist@
                &&& config.shuffle == opts.shuffle
                &&& config.filter is Some <==> opts.filter is Some
                &&& config.filter matches Some(regex) ==> pattern_of(&regex)
                    == opts.filter.unwrap()@
            },
            made matches Err(error) ==> error == ConfigError::InvalidFilter,
    {
        let filter = match &opts.filter {
            None => None,
            Some(pattern) => match compile(pattern.as_str()) {
                Ok(regex) => Some(regex),
                Err(_) => {
                    return Err(ConfigError::InvalidFilter);
                },
            },
        };
        Ok(WordListConfig { path: opts.wordlist.clone(), shuffle: opts.shuffle, filter })
    }
}

/// The words of `words` that `filter` lets through, in order. Without a filter these are
/// all of them.
pub open spec fn kept(words: Seq<WordView>, filter: Option<regex::Regex>) -> Seq<WordView> {
    match filter {
        Some(regex) => words.filter(|w: WordView| regex_matches(&regex, w.word)),
        None => words,
    }
}

/// The words of `words` in which `pattern` matches, in order.
pub fn retain_matching(words: Vec<Word>, pattern: &regex::Regex) -> (matching: Vec<Word>)
    ensures
        word_views(matching@) == kept(word_views(words@), Some(*pattern)),
{
    let ghost pred = |w: WordView| regex_matches(pattern, w.word);
    let mut matching: Vec<Word> = Vec::new();
    proof {
        reveal(Seq::filter);
        assert(word_views(words@).take(0).filter(pred) =~= Seq::<WordView>::empty());
    }
    for word in it: words
        invariant
            it.seq() == words@,
            pred == |w: WordView| regex_matches(pattern, w.word),
            word_views(matching@) =~= word_views(words@).take(it.index() as int).filter(pred),
    {
        let ghost k = it.index() as int;
        proof {
            reveal(Seq::filter);
            let next = word_views(words@).take(k + 1);
            assert(next.drop_last() =~= word_views(words@).take(k));
            assert(next.last() == word@);
        }
        if is_match(pattern, word.word.as_str()) {
            matching.push(word);
        }
    }
    proof {
        assert(word_views(words@).take(words@.len() as int) =~= word_views(words@));
    }
    matching
}

/// Why a vocabulary could not be made.
#[derive(Copy, Clone, PartialEq, Eq, Structural, Debug)]
pub enum WordListError {
    /// No word is left to present.
    Empty,
}

/// The vocabulary of a session, in the order in which it is presented. It is never empty.
pub struct WordList {
    words: Vec<Word>,
}

impl View for WordList {
    type V = Seq<WordView>;

    closed spec fn view(&self) -> Seq<WordView> {
        word_views(self.words@)
    }
}

/// Whether `made` is what comes of `input` under `config`: `input` is sorted, the words
/// that the filter lets through are kept, and they are presented in that order, or in an
/// order that chance decides if `config` asks for it. Nothing is made when no word is
/// kept.
pub open spec fn presents(
    input: Seq<WordView>,
    config: WordListConfig,
    made: Result<WordList, WordListError>,
) -> bool {
    exists|sorted: Seq<WordView>| #[trigger]
        is_sorted_copy(input, sorted) && match made {
            Ok(list) => {
                &&& kept(sorted, config.filter).len() > 0
                &&& if config.shuffle {
                    list@.to_multiset() == kept(sorted, config.filter).to_multiset()
                } else {
                    list@ == kept(sorted, config.filter)
                }
            },
            Err(error) => kept(sorted, config.filter).len() == 0,
        }
}

/// A filter lets none of the words through after sorting exactly if it lets none through
/// before.
pub proof fn lemma_kept_none(
    input: Seq<WordView>,
    sorted: Seq<WordView>,
    filter: Option<regex::Regex>,
)
    requires
        is_sorted_copy(input, sorted),
    ensures
        kept(sorted, filter).len() == 0 <==> kept(input, filter).len() == 0,
{
    let from = choose|from: Seq<int>| sorts(input, sorted, from);
    if let Some(regex) = filter {
        let pred = |w: WordView| regex_matches(&regex, w.word);
        if kept(sorted, filter).len() > 0 {
            let w = sorted.filter(pred)[0];
            sorted.lemma_filter_pred(pred, 0);
            assert(sorted.filter(pred).contains(w));
            sorted.lemma_filter_contains_rev(pred, w);
            assert(sorted.contains(w) && pred(w));
            let i = choose|i: int| 0 <= i < sorted.len() && sorted[i] == w;
            assert(input[from[i]] == w);
            input.lemma_filter_contains(pred, from[i]);
        }
        if kept(input, filter).len() > 0 {
            let w = input.filter(pred)[0];
            input.lemma_filter_pred(pred, 0);
            assert(input.filter(pred).contains(w));
            input.lemma_filter_contains_rev(pred, w);
            assert(input.contains(w) && pred(w));
            let k = choose|k: int| 0 <= k < input.len() && input[k] == w;
            assert(from.contains(k));
            let i = choose|i: int| 0 <= i < from.len() && from[i] == k;
            assert(sorted[i] == w);
            sorted.lemma_filter_contains(pred, i);
        }
    }
}

impl WordList {
    #[verifier::type_invariant]
    spec fn inv(self) -> bool {
        self.words@.len() > 0
    }

    /// The vocabulary that comes of `words` under `config`: sorted by the word without
    /// regard to case, then filtered, then shuffled if `config` asks for it. It fails when
    /// the filter lets none of `words` through, and only then.
    pub fn new(words: Vec<Word>, config: &WordListConfig) -> (made: Result<
        WordList,
        WordListError,
    >)
        ensures
            presents(word_views(words@), *config, made),
            made is Err <==> kept(word_views(words@), config.filter).len() == 0,
            made matches Ok(list) ==> list@.len() > 0,
            made matches Err(error) ==> error == WordListError::Empty,
    {
        let ghost input = word_views(words@);
        let sorted = sort_words(words);
        let ghost sorted_view = word_views(sorted@);
        let mut words = match &config.filter {
            Some(pattern) => retain_matching(sorted, pattern),
            None => sorted,
        };
        let ghost kept_view = word_views(words@);
        proof {
            assert(kept_view == kept(sorted_view, config.filter));
            lemma_kept_none(input, sorted_view, config.filter);
        }
        if config.shuffle {
            shuffle(&mut words);
        }
        proof {
            kept_view.to_multiset_ensures();
            word_views(words@).to_multiset_ensures();
        }
        if words.len() == 0 {
            let made = Err(WordListError::Empty);
            assert(is_sorted_copy(input, sorted_view) && kept(sorted_view, config.filter).len() == 0);
            assert(presents(input, *config, made));
            return made;
        }
        let list = WordList { words };
        proof {
            assert(is_sorted_copy(input, sorted_view) && kept(sorted_view, config.filter).len() > 0);
            assert(presents(input, *config, Ok(list)));
        }
        Ok(list)
    }

    pub fn as_slice(&self) -> (words: &[Word])
        ensures
            word_views(words@) == self@,
            words@.len() > 0,
    {
        proof {
            use_type_invariant(self);
        }
        self.words.as_slice()
    }
}

} // verus!
