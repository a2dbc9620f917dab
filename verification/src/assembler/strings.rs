//! Passage between strings and the character sequences the assembler
//! works on, and the one operation on text that is left to the standard
//! library: folding letters to lower case.

use vstd::prelude::*;

verus! {

/// The lower-case form of a text, as `str::to_lowercase` of the standard
/// library computes it. Unicode defines it: character by character, but for
/// a few characters that depend on their neighbours or grow into several.
/// It is named here and not spelled out.
pub uninterp spec fn lowercase_of(text: Seq<char>) -> Seq<char>;

/// Calls `str::to_lowercase`. The contract claims that the string that
/// comes back is the lower-case form of `text`, which depends on the
/// characters of `text` and on nothing else; it claims nothing of what that
/// form looks like.
#[verifier::external_body]
pub(crate) fn lowercase(text: &str) -> (lower: String)
    ensures
        lower@ == lowercase_of(text@),
{
    text.to_lowercase()
}

/// `String::push` of the standard library: the contract claims that the
/// string afterwards is the string before with `c` added at its end.
pub assume_specification[ String::push ](text: &mut String, c: char)
    ensures
        final(text)@ == old(text)@.push(c),
;

/// The characters of `text`, in order.
pub fn chars_of(text: &str) -> (chars: Vec<char>)
    ensures
        chars@ == text@,
{
    let mut chars: Vec<char> = Vec::new();
    for c in it: text.chars()
        invariant
            it.seq() == text@,
            chars@ == text@.take(it.index() as int),
    {
        chars.push(c);
    }
    chars
}

/// Tells whether `chars` spell `word`.
pub(crate) fn same_text(chars: &[char], word: &str) -> (same: bool)
    ensures
        same == (chars@ == word@),
{
    let n: usize = chars.len();
    let mut i: usize = 0;
    for c in it: word.chars()
        invariant
            it.seq() == word@,
            n == chars@.len(),
            i == it.index(),
            i <= n,
            chars@.take(i as int) == word@.take(i as int),
    {
        if i >= n || chars[i] != c {
            proof {
                if i < n {
                    assert(chars@[i as int] != word@[i as int]);
                }
            }
            return false;
        }
        proof {
            assert(chars@.take(i + 1) == chars@.take(i as int).push(chars@[i as int]));
            assert(word@.take(i + 1) == word@.take(i as int).push(word@[i as int]));
        }
        i += 1;
    }
    proof {
        assert(word@.take(i as int) == word@);
        if i == n {
            assert(chars@.take(i as int) == chars@);
        }
    }
    i == n
}

/// The string made of `chars`, in order.
pub fn string_of(chars: &[char]) -> (text: String)
    ensures
        text@ == chars@,
{
    let mut text: String = String::new();
    let n: usize = chars.len();
    let mut i: usize = 0;
    while i < n
        invariant
            n == chars@.len(),
            i <= n,
            text@ == chars@.take(i as int),
        decreases n - i,
    {
        text.push(chars[i]);
        i += 1;
    }
    text
}

} // verus!
