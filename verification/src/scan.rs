//! Scanning: classes of characters, runs of them, and the text at a position.

use vstd::prelude::*;
use vstd::std_specs::iter::IteratorSpec;
use vstd::string::StrSliceExecFns;

verus! {

/// Whether `char::is_whitespace` holds of a character.
pub uninterp spec fn whitespace(c: char) -> bool;

/// Whether `char::is_alphanumeric` holds of a character.
pub uninterp spec fn alphanumeric(c: char) -> bool;

/// `char::is_whitespace`: whether the character has the Unicode property
/// `White_Space`. The result goes by the character alone.
#[verifier::external_body]
pub(crate) fn is_whitespace(c: char) -> (b: bool)
    ensures
        b == whitespace(c),
{
    c.is_whitespace()
}

/// `char::is_alphanumeric`: whether the character is a letter or a number in
/// the sense of Unicode. The result goes by the character alone.
#[verifier::external_body]
pub(crate) fn is_alphanumeric(c: char) -> (b: bool)
    ensures
        b == alphanumeric(c),
{
    c.is_alphanumeric()
}

/// `String::push`: the character is added at the end of the string.
#[verifier::external_body]
pub(crate) fn push_char(text: &mut String, c: char)
    ensures
        final(text)@ == old(text)@.push(c),
{
    text.push(c)
}

/// The characters of a string in their order.
pub fn chars_of(text: &str) -> (chars: Vec<char>)
    ensures
        chars@ == text@,
{
    broadcast use vstd::string::group_string_axioms;

    let mut chars: Vec<char> = Vec::new();
    let mut rest = text.chars();
    assert(chars@ + rest.remaining() =~= text@);
    loop
        invariant
            rest.obeys_prophetic_iter_laws(),
            chars@ + rest.remaining() == text@,
            rest.decrease() is Some,
        ensures
            chars@ == text@,
        decreases rest.decrease()->0,
    {
        match rest.next() {
            Some(c) => {
                chars.push(c);
                assert(chars@ + rest.remaining() =~= text@);
            },
            None => {
                assert(chars@ + rest.remaining() =~= chars@);
                break;
            },
        }
    }
    chars
}

/// The characters that a run is made of.
#[derive(Clone, Copy, PartialEq, Eq, Debug)]
pub enum CharClass {
    /// White space.
    Whitespace,
    /// The letters `a` to `z` and `A` to `Z` and the digits.
    Name,
    /// The letters, the digits, the hyphen and the underscore.
    Identifier,
    /// The digits, the minus sign and the full stop.
    Number,
    /// Every character but the given one.
    Except(char),
}

impl CharClass {
    /// Whether the character belongs to the class.
    pub open spec fn holds(&self, c: char) -> bool {
        match self {
            CharClass::Whitespace => whitespace(c),
            CharClass::Name => ('a' <= c && c <= 'z') || ('A' <= c && c <= 'Z') || ('0' <= c && c
                <= '9'),
            CharClass::Identifier => ('a' <= c && c <= 'z') || ('A' <= c && c <= 'Z') || ('0' <= c
                && c <= '9') || c == '-' || c == '_',
            CharClass::Number => ('0' <= c && c <= '9') || c == '-' || c == '.',
            CharClass::Except(other) => c != *other,
        }
    }

    /// Whether the character belongs to the class.
    pub fn test(&self, c: char) -> (b: bool)
        ensures
            b == self.holds(c),
    {
        match self {
            CharClass::Whitespace => is_whitespace(c),
            CharClass::Name => ('a' <= c && c <= 'z') || ('A' <= c && c <= 'Z') || ('0' <= c && c
                <= '9'),
            CharClass::Identifier => ('a' <= c && c <= 'z') || ('A' <= c && c <= 'Z') || ('0' <= c
                && c <= '9') || c == '-' || c == '_',
            CharClass::Number => ('0' <= c && c <= '9') || c == '-' || c == '.',
            CharClass::Except(other) => c != *other,
        }
    }
}

/// Where the run of characters of the class that starts at `pos` ends.
pub open spec fn run_end(input: Seq<char>, pos: nat, class: CharClass) -> nat
    decreases input.len() - pos,
{
    if pos < input.len() && class.holds(input[pos as int]) {
        run_end(input, pos + 1, class)
    } else {
        pos
    }
}

/// A run ends at or after its start, and within the input where it starts
/// there.
pub proof fn lemma_run_end(input: Seq<char>, pos: nat, class: CharClass)
    ensures
        pos <= run_end(input, pos, class),
        pos <= input.len() ==> run_end(input, pos, class) <= input.len(),
        forall|i: int| pos <= i < run_end(input, pos, class) ==> class.holds(#[trigger] input[i]),
        run_end(input, pos, class) < input.len() ==> !class.holds(
            input[run_end(input, pos, class) as int],
        ),
    decreases input.len() - pos,
{
    if pos < input.len() && class.holds(input[pos as int]) {
        lemma_run_end(input, pos + 1, class);
    }
}

/// Whether `prefix` stands in the input at `pos`.
pub open spec fn stands_at(input: Seq<char>, pos: nat, prefix: Seq<char>) -> bool {
    pos + prefix.len() <= input.len() && input.subrange(pos as int, (pos + prefix.len()) as int)
        == prefix
}

/// Whether the character `c` stands in the input at `pos`.
pub open spec fn char_at(input: Seq<char>, pos: nat, c: char) -> bool {
    pos < input.len() && input[pos as int] == c
}

/// Does the text stand in the input at the position?
pub fn stands_in(input: &Vec<char>, pos: usize, text: &str) -> (b: bool)
    requires
        pos <= input@.len(),
    ensures
        b == stands_at(input@, pos as nat, text@),
{
    let n = text.unicode_len();
    let len = input.len();
    if n > len - pos {
        return false;
    }
    let mut i: usize = 0;
    while i < n
        invariant
            i <= n,
            n == text@.len(),
            len == input@.len(),
            pos + n <= len,
            forall|k: int| 0 <= k < i ==> input@[pos + k] == text@[k],
        decreases n - i,
    {
        if input[pos + i] != text.get_char(i) {
            proof {
                let found = input@.subrange(pos as int, pos + n);
                assert(found[i as int] != text@[i as int]);
            }
            return false;
        }
        i += 1;
    }
    assert(input@.subrange(pos as int, pos + n) =~= text@);
    true
}

} // verus!
