//! Character-level building blocks: blanks, trimming and splitting.
//!
//! A piece of source text is modelled as a `Seq<char>`. Every executable
//! function here works on a slice of characters and is specified by a spec
//! function of the same meaning on sequences.

use vstd::prelude::*;
use vstd::slice::slice_subrange;

verus! {

/// The blanks: the characters that Unicode marks as `White_Space`.
pub open spec fn is_whitespace(c: char) -> bool {
    let u = c as u32;
    ||| 0x09 <= u <= 0x0d
    ||| u == 0x20
    ||| u == 0x85
    ||| u == 0xa0
    ||| u == 0x1680
    ||| 0x2000 <= u <= 0x200a
    ||| u == 0x2028
    ||| u == 0x2029
    ||| u == 0x202f
    ||| u == 0x205f
    ||| u == 0x3000
}

/// `s` without the blanks at its start.
pub open spec fn trim_start(s: Seq<char>) -> Seq<char>
    decreases s.len(),
{
    if s.len() > 0 && is_whitespace(s[0]) {
        trim_start(s.drop_first())
    } else {
        s
    }
}

/// `s` without the blanks at its end.
pub open spec fn trim_end(s: Seq<char>) -> Seq<char>
    decreases s.len(),
{
    if s.len() > 0 && is_whitespace(s.last()) {
        trim_end(s.drop_last())
    } else {
        s
    }
}

/// `s` without the blanks at either end.
pub open spec fn trimmed(s: Seq<char>) -> Seq<char> {
    trim_end(trim_start(s))
}

/// Whether some character of `s` is a blank.
pub open spec fn has_whitespace(s: Seq<char>) -> bool {
    exists|i: int| 0 <= i < s.len() && is_whitespace(#[trigger] s[i])
}

/// The position of the first `c` in `s`, or `s.len()` where `s` holds none.
pub open spec fn first_index(s: Seq<char>, c: char) -> int
    decreases s.len(),
{
    if s.len() == 0 || s[0] == c {
        0
    } else {
        1 + first_index(s.drop_first(), c)
    }
}

/// Whether `c` occurs in `s`.
pub open spec fn has_char(s: Seq<char>, c: char) -> bool {
    first_index(s, c) < s.len()
}

/// What stands before the first `c` in `s`: all of `s` where it holds none.
pub open spec fn before_first(s: Seq<char>, c: char) -> Seq<char> {
    s.take(first_index(s, c))
}

/// What stands behind the first `c` in `s`: nothing where it holds none.
pub open spec fn after_first(s: Seq<char>, c: char) -> Seq<char> {
    if has_char(s, c) {
        s.skip(first_index(s, c) + 1)
    } else {
        Seq::empty()
    }
}

/// The `n`-th of the pieces into which the separator `sep` cuts `s`, counted
/// from zero, or `None` where there are not that many.
pub open spec fn field(s: Seq<char>, sep: char, n: nat) -> Option<Seq<char>>
    decreases n,
{
    if n == 0 {
        Some(before_first(s, sep))
    } else if has_char(s, sep) {
        field(after_first(s, sep), sep, (n - 1) as nat)
    } else {
        None
    }
}

/// `s` without every `c` at its end.
pub open spec fn strip_trailing(s: Seq<char>, c: char) -> Seq<char>
    decreases s.len(),
{
    if s.len() > 0 && s.last() == c {
        strip_trailing(s.drop_last(), c)
    } else {
        s
    }
}

/// `first_index` is the one position that holds `c` with no `c` before it.
pub proof fn lemma_first_index(s: Seq<char>, c: char)
    ensures
        0 <= first_index(s, c) <= s.len(),
        first_index(s, c) < s.len() ==> s[first_index(s, c)] == c,
        forall|j: int| 0 <= j < first_index(s, c) ==> s[j] != c,
    decreases s.len(),
{
    if s.len() > 0 && s[0] != c {
        let rest = s.drop_first();
        lemma_first_index(rest, c);
        assert forall|j: int| 0 <= j < first_index(s, c) implies s[j] != c by {
            if j > 0 {
                assert(s[j] == rest[j - 1]);
            }
        }
    }
}

/// A position that holds `c`, or the length, with no `c` before it is
/// `first_index`.
pub proof fn lemma_first_index_is(s: Seq<char>, c: char, i: int)
    requires
        0 <= i <= s.len(),
        i < s.len() ==> s[i] == c,
        forall|j: int| 0 <= j < i ==> s[j] != c,
    ensures
        first_index(s, c) == i,
{
    lemma_first_index(s, c);
}

/// A sequence that neither starts nor ends with a blank is its own trimmed
/// form.
pub proof fn lemma_trimmed_fixed(s: Seq<char>)
    requires
        s.len() > 0 ==> !is_whitespace(s[0]) && !is_whitespace(s.last()),
    ensures
        trimmed(s) == s,
{
}

/// What `trim_start` leaves is a tail of `s` that starts with no blank, and
/// all that it dropped is blank.
pub proof fn lemma_trim_start(s: Seq<char>)
    ensures
        trim_start(s).len() <= s.len(),
        trim_start(s) == s.skip(s.len() - trim_start(s).len()),
        trim_start(s).len() > 0 ==> !is_whitespace(trim_start(s)[0]),
        forall|j: int| 0 <= j < s.len() - trim_start(s).len() ==> is_whitespace(s[j]),
    decreases s.len(),
{
    if s.len() > 0 && is_whitespace(s[0]) {
        let rest = s.drop_first();
        lemma_trim_start(rest);
        let k = rest.len() - trim_start(rest).len();
        assert(rest.skip(k) == s.skip(k + 1));
        assert forall|j: int| 0 <= j < s.len() - trim_start(s).len() implies is_whitespace(
            s[j],
        ) by {
            if j > 0 {
                assert(s[j] == rest[j - 1]);
            }
        }
    } else {
        assert(s.skip(0) == s);
    }
}

/// What `trim_end` leaves is a head of `s` that ends with no blank, and all
/// that it dropped is blank.
pub proof fn lemma_trim_end(s: Seq<char>)
    ensures
        trim_end(s).len() <= s.len(),
        trim_end(s) == s.take(trim_end(s).len() as int),
        trim_end(s).len() > 0 ==> !is_whitespace(trim_end(s).last()),
        forall|j: int| trim_end(s).len() <= j < s.len() ==> is_whitespace(s[j]),
    decreases s.len(),
{
    if s.len() > 0 && is_whitespace(s.last()) {
        let rest = s.drop_last();
        lemma_trim_end(rest);
        let k = trim_end(rest).len() as int;
        assert(rest.take(k) == s.take(k));
        assert forall|j: int| trim_end(s).len() <= j < s.len() implies is_whitespace(s[j]) by {
            if j < rest.len() {
                assert(s[j] == rest[j]);
            }
        }
    } else {
        assert(s.take(s.len() as int) == s);
    }
}

/// The trimmed form is the stretch of `s` from `a` to `b` where all in front
/// of `a` and all from `b` on is blank, and where the stretch neither starts
/// nor ends with a blank.
pub open spec fn is_trimmed_stretch(s: Seq<char>, a: int, b: int) -> bool {
    &&& 0 <= a <= b <= s.len()
    &&& trimmed(s) == s.subrange(a, b)
    &&& forall|j: int| 0 <= j < a ==> is_whitespace(#[trigger] s[j])
    &&& forall|j: int| b <= j < s.len() ==> is_whitespace(#[trigger] s[j])
    &&& a < b ==> !is_whitespace(s[a]) && !is_whitespace(s[b - 1])
}

/// Trimming takes blanks away from the two ends and nothing else: the
/// trimmed form is a stretch of `s` with nothing but blanks around it and
/// no blank at either end.
pub proof fn lemma_trimmed(s: Seq<char>)
    ensures
        is_trimmed_stretch(
            s,
            s.len() - trim_start(s).len(),
            s.len() - trim_start(s).len() + trimmed(s).len(),
        ),
{
    let t = trim_start(s);
    let a = s.len() - t.len();
    let b = a + trimmed(s).len();
    lemma_trim_start(s);
    lemma_trim_end(t);
    assert(trimmed(s) == s.subrange(a, b));
    assert forall|j: int| b <= j < s.len() implies is_whitespace(#[trigger] s[j]) by {
        assert(s[j] == t[j - a]);
    }
    if a < b {
        assert(s[a] == t[0]);
        assert(s[b - 1] == trimmed(s).last());
    }
}

/// Trimming leaves a first character that is no blank where it is.
pub proof fn lemma_trimmed_keeps_head(s: Seq<char>)
    requires
        s.len() > 0,
        !is_whitespace(s[0]),
    ensures
        trimmed(s).len() > 0,
        trimmed(s)[0] == s[0],
{
    lemma_trim_end_keeps_head(s);
}

/// Trimming the end leaves a first character that is no blank where it is.
proof fn lemma_trim_end_keeps_head(s: Seq<char>)
    requires
        s.len() > 0,
        !is_whitespace(s[0]),
    ensures
        trim_end(s).len() > 0,
        trim_end(s)[0] == s[0],
    decreases s.len(),
{
    if is_whitespace(s.last()) {
        lemma_trim_end_keeps_head(s.drop_last());
    }
}

/// Stripping `c` off the end leaves a first character other than `c` where
/// it is.
pub proof fn lemma_strip_trailing_keeps_head(s: Seq<char>, c: char)
    requires
        s.len() > 0,
        s[0] != c,
    ensures
        strip_trailing(s, c).len() > 0,
        strip_trailing(s, c)[0] == s[0],
    decreases s.len(),
{
    if s.last() == c {
        lemma_strip_trailing_keeps_head(s.drop_last(), c);
    }
}

/// Tells a blank from any other character.
pub(crate) fn is_blank(c: char) -> (blank: bool)
    ensures
        blank == is_whitespace(c),
{
    let u: u32 = c as u32;
    (0x09 <= u && u <= 0x0d) || u == 0x20 || u == 0x85 || u == 0xa0 || u == 0x1680 || (0x2000 <= u
        && u <= 0x200a) || u == 0x2028 || u == 0x2029 || u == 0x202f || u == 0x205f || u
        == 0x3000
}

/// Tells whether `s` holds a blank.
pub(crate) fn contains_blank(s: &[char]) -> (found: bool)
    ensures
        found == has_whitespace(s@),
{
    let n: usize = s.len();
    let mut i: usize = 0;
    while i < n
        invariant
            n == s@.len(),
            i <= n,
            forall|j: int| 0 <= j < i ==> !is_whitespace(#[trigger] s@[j]),
        decreases n - i,
    {
        if is_blank(s[i]) {
            return true;
        }
        i += 1;
    }
    false
}

/// Cuts the blanks off both ends of `s`.
pub(crate) fn trim(s: &[char]) -> (t: &[char])
    ensures
        t@ == trimmed(s@),
{
    let n: usize = s.len();
    let mut a: usize = 0;
    proof {
        assert(s@.skip(0) == s@);
    }
    while a < n && is_blank(s[a])
        invariant
            n == s@.len(),
            a <= n,
            trim_start(s@) == trim_start(s@.skip(a as int)),
        decreases n - a,
    {
        proof {
            assert(s@.skip(a as int).drop_first() == s@.skip(a + 1));
        }
        a += 1;
    }
    let mut b: usize = n;
    proof {
        assert(s@.subrange(a as int, n as int) == s@.skip(a as int));
    }
    while b > a && is_blank(s[b - 1])
        invariant
            n == s@.len(),
            a <= b <= n,
            trim_start(s@) == s@.skip(a as int),
            trimmed(s@) == trim_end(s@.subrange(a as int, b as int)),
        decreases b,
    {
        proof {
            assert(s@.subrange(a as int, b as int).drop_last() == s@.subrange(
                a as int,
                b - 1,
            ));
        }
        b -= 1;
    }
    slice_subrange(s, a, b)
}

/// Finds the first `c` in `s`.
pub(crate) fn find(s: &[char], c: char) -> (i: usize)
    ensures
        i == first_index(s@, c),
        i <= s@.len(),
{
    let n: usize = s.len();
    let mut i: usize = 0;
    while i < n && s[i] != c
        invariant
            n == s@.len(),
            i <= n,
            forall|j: int| 0 <= j < i ==> s@[j] != c,
        decreases n - i,
    {
        i += 1;
    }
    proof {
        lemma_first_index_is(s@, c, i as int);
    }
    i
}

/// Hands out the `n`-th piece of `s` between separators.
pub(crate) fn nth_field(s: &[char], sep: char, n: usize) -> (piece: Option<&[char]>)
    ensures
        (match piece {
            Some(p) => field(s@, sep, n as nat) == Some(p@),
            None => field(s@, sep, n as nat).is_none(),
        }),
{
    let mut rest = s;
    let mut k: usize = n;
    while k > 0
        invariant
            field(s@, sep, n as nat) == field(rest@, sep, k as nat),
        decreases k,
    {
        let i: usize = find(rest, sep);
        if i == rest.len() {
            return None;
        }
        rest = slice_subrange(rest, i + 1, rest.len());
        k -= 1;
    }
    let i: usize = find(rest, sep);
    Some(slice_subrange(rest, 0, i))
}

/// Cuts every `c` off the end of `s`.
pub(crate) fn trim_end_matches(s: &[char], c: char) -> (t: &[char])
    ensures
        t@ == strip_trailing(s@, c),
{
    let mut b: usize = s.len();
    proof {
        assert(s@.take(b as int) == s@);
    }
    while b > 0 && s[b - 1] == c
        invariant
            b <= s@.len(),
            strip_trailing(s@, c) == strip_trailing(s@.take(b as int), c),
        decreases b,
    {
        proof {
            assert(s@.take(b as int).drop_last() == s@.take(b - 1));
        }
        b -= 1;
    }
    slice_subrange(s, 0, b)
}

} // verus!
