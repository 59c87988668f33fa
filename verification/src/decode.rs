//! From the bytes of a file to its characters.

use vstd::prelude::*;
use utf8_chars::BufReadCharsExt;

verus! {

/// What `utf8_chars` reads from `bytes`, read by read up to the end: the character
/// that a read gives, or `None` for a read that fails on bytes that encode no character.
pub uninterp spec fn decoded(bytes: Seq<u8>) -> Seq<Option<char>>;

/// Reads `bytes` to the end with the iterator of `utf8_chars::BufReadCharsExt::chars`.
/// Every read of the iterator gives one item, in order: the character read, or `None`
/// where the read failed. The items depend on the bytes alone.
#[verifier::external_body]
fn read_chars(bytes: &[u8]) -> (items: Vec<Option<char>>)
    ensures
        items@ == decoded(bytes@),
{
    let mut reader = bytes;
    reader.chars().map(|item| item.ok()).collect()
}

/// The characters among `items`, in order; the items that hold none are left out.
pub open spec fn valid_chars(items: Seq<Option<char>>) -> Seq<char>
    decreases items.len(),
{
    if items.len() == 0 {
        Seq::empty()
    } else {
        let before = valid_chars(items.drop_last());
        match items.last() {
            Some(c) => before.push(c),
            None => before,
        }
    }
}

/// The characters among `items`, in order; the items that hold none are left out.
pub fn keep_valid(items: &Vec<Option<char>>) -> (chars: Vec<char>)
    ensures
        chars@ == valid_chars(items@),
{
    let mut chars: Vec<char> = Vec::new();
    let mut i: usize = 0;
    while i < items.len()
        invariant
            i <= items.len(),
            chars@ == valid_chars(items@.take(i as int)),
        decreases items.len() - i,
    {
        proof {
            assert(items@.take(i + 1).drop_last() =~= items@.take(i as int));
        }
        if let Some(c) = items[i] {
            chars.push(c);
        }
        i += 1;
    }
    proof {
        assert(items@.take(i as int) =~= items@);
    }
    chars
}

/// The characters that `contents` encodes, in order. A sequence of bytes that encodes
/// no character is passed over.
pub fn decode(contents: &[u8]) -> (chars: Vec<char>)
    ensures
        chars@ == valid_chars(decoded(contents@)),
{
    let items = read_chars(contents);
    keep_valid(&items)
}

} // verus!
