use vstd::prelude::*;

verus! {

/// The options of a session.
#[derive(Clone, Debug)]
pub struct Args {
    /// The path of the file that holds the vocabulary.
    pub wordlist: String,
    /// Whether the vocabulary is presented in a random order.
    pub shuffle: bool,
    /// A regular expression; only the words that it matches are presented.
    pub filter: Option<String>,
}

} // verus!
