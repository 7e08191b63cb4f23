use vstd::prelude::*;
use vstd::utf8::{
    encode_scalar, encode_utf8, encode_utf8_decode_utf8, encode_utf8_first_scalar,
    encode_utf8_valid_utf8, is_char_boundary, pop_first_scalar,
};

verus! {

/// `c` with a lower case ASCII letter replaced by its upper case form.
pub open spec fn ascii_upper(c: char) -> char {
    if 'a' <= c && c <= 'z' {
        ((c as u8) - 32) as char
    } else {
        c
    }
}

/// `c` with an upper case ASCII letter replaced by its lower case form.
pub open spec fn ascii_lower(c: char) -> char {
    if 'A' <= c && c <= 'Z' {
        ((c as u8) + 32) as char
    } else {
        c
    }
}

/// `text` with each lower case ASCII letter replaced by its upper case form.
pub open spec fn uppercase(text: Seq<char>) -> Seq<char> {
    text.map_values(|c: char| ascii_upper(c))
}

/// `text` with each upper case ASCII letter replaced by its lower case form.
pub open spec fn lowercase(text: Seq<char>) -> Seq<char> {
    text.map_values(|c: char| ascii_lower(c))
}

pub fn to_ascii_upper(c: char) -> (upper: char)
    ensures
        upper == ascii_upper(c),
{
    if 'a' <= c && c <= 'z' {
        let b: u8 = c as u8;
        (b - 32) as char
    } else {
        c
    }
}

pub fn to_ascii_lower(c: char) -> (lower: char)
    ensures
        lower == ascii_lower(c),
{
    if 'A' <= c && c <= 'Z' {
        let b: u8 = c as u8;
        (b + 32) as char
    } else {
        c
    }
}

/// The characters of `text`, each lower case ASCII letter replaced by its upper case form.
pub fn to_uppercase(text: &str) -> (upper: Vec<char>)
    ensures
        upper@ == uppercase(text@),
{
    let mut upper: Vec<char> = Vec::new();
    for c in it: text.chars()
        invariant
            it.seq() == text@,
            upper@ == uppercase(text@.take(it.index() as int)),
    {
        upper.push(to_ascii_upper(c));
        assert(text@.take(it.index() + 1) == text@.take(it.index() as int).push(c));
    }
    assert(text@.take(text@.len() as int) == text@);
    upper
}

/// Whether `c` occurs in `chars`.
pub fn contains_char(chars: &Vec<char>, c: char) -> (found: bool)
    ensures
        found == chars@.contains(c),
{
    let mut i: usize = 0;
    while i < chars.len()
        invariant
            i <= chars.len(),
            forall|j: int| 0 <= j < i ==> chars@[j] != c,
        decreases chars.len() - i,
    {
        if chars[i] == c {
            return true;
        }
        i += 1;
    }
    false
}

/// The number of bytes that `text` takes in UTF-8.
pub open spec fn utf8_len(text: Seq<char>) -> nat {
    encode_utf8(text).len()
}

/// The number of bytes that `c` takes in UTF-8.
pub fn char_width(c: char) -> (width: usize)
    ensures
        width == encode_scalar(c as u32).len(),
        1 <= width <= 4,
{
    let v: u32 = c as u32;
    if v < 0x80 {
        1
    } else if v < 0x800 {
        2
    } else if v < 0x10000 {
        3
    } else {
        4
    }
}

/// The encoding of a text is the encoding of its first part followed by that of the rest.
pub proof fn lemma_encode_concat(a: Seq<char>, b: Seq<char>)
    ensures
        encode_utf8(a + b) == encode_utf8(a) + encode_utf8(b),
    decreases a.len(),
{
    if a.len() == 0 {
        assert(a + b =~= b);
        assert(encode_utf8(a) + encode_utf8(b) =~= encode_utf8(b));
    } else {
        lemma_encode_concat(a.drop_first(), b);
        assert((a + b).drop_first() =~= a.drop_first() + b);
        assert(encode_utf8(a + b) =~= encode_utf8(a) + encode_utf8(b));
    }
}

/// The encoding of one character.
pub proof fn lemma_encode_single(c: char)
    ensures
        encode_utf8(seq![c]) == encode_scalar(c as u32),
{
    reveal_with_fuel(encode_utf8, 2);
    assert(encode_utf8(seq![c]) =~= encode_scalar(c as u32));
}

/// Splitting the encoding of `text` where its first `k` characters end gives the encodings
/// of the two parts, and that place is a character boundary.
pub proof fn lemma_encode_split(text: Seq<char>, k: int)
    requires
        0 <= k <= text.len(),
    ensures
        utf8_len(text.take(k)) <= utf8_len(text),
        encode_utf8(text).subrange(0, utf8_len(text.take(k)) as int) == encode_utf8(text.take(k)),
        encode_utf8(text).subrange(utf8_len(text.take(k)) as int, utf8_len(text) as int)
            == encode_utf8(text.skip(k)),
        is_char_boundary(encode_utf8(text), utf8_len(text.take(k)) as int),
    decreases k,
{
    lemma_encode_concat(text.take(k), text.skip(k));
    assert(text.take(k) + text.skip(k) =~= text);
    let bytes = encode_utf8(text);
    let cut = utf8_len(text.take(k)) as int;
    assert(bytes.subrange(0, cut) =~= encode_utf8(text.take(k)));
    assert(bytes.subrange(cut, bytes.len() as int) =~= encode_utf8(text.skip(k)));
    encode_utf8_valid_utf8(text);
    if k > 0 {
        let rest = text.drop_first();
        encode_utf8_first_scalar(text);
        assert(pop_first_scalar(bytes) =~= encode_utf8(rest));
        assert(text.take(k).drop_first() =~= rest.take(k - 1));
        lemma_encode_split(rest, k - 1);
    }
}

/// A text is known by its encoding.
pub proof fn lemma_encode_injective(a: Seq<char>, b: Seq<char>)
    requires
        encode_utf8(a) == encode_utf8(b),
    ensures
        a == b,
{
    encode_utf8_decode_utf8(a);
    encode_utf8_decode_utf8(b);
}

/// `String::push` of std: appends `c` to `s`.
#[verifier::external_body]
pub(crate) fn string_push(s: &mut String, c: char)
    ensures
        final(s)@ == old(s)@.push(c),
{
    s.push(c)
}

/// `String::insert` of std: puts the encoding of `c` into the bytes of `s` at byte `idx`,
/// which must be a character boundary of `s`. Stated over the UTF-8 encoding of the text
/// before and after.
#[verifier::external_body]
pub(crate) fn string_insert(s: &mut String, idx: usize, c: char)
    requires
        idx <= encode_utf8(old(s)@).len(),
        is_char_boundary(encode_utf8(old(s)@), idx as int),
    ensures
        encode_utf8(final(s)@) == encode_utf8(old(s)@).subrange(0, idx as int) + encode_scalar(
            c as u32,
        ) + encode_utf8(old(s)@).subrange(idx as int, encode_utf8(old(s)@).len() as int),
{
    s.insert(idx, c)
}

} // verus!
