//! Texts as sequences of characters.

use vstd::prelude::*;
use vstd::string::StringSliceAdditionalSpecFns;

verus! {

/// The characters of a text, in order.
pub fn chars_of(text: &str) -> (chars: Vec<char>)
    ensures
        chars@ == text@,
{
    let mut chars: Vec<char> = Vec::new();
    for c in it: text.chars()
        invariant
            chars@ == it.seq().take(it.index()),
            it.seq() == text@,
    {
        chars.push(c);
    }
    chars
}

/// Whether `text` holds `needle` at position `pos`.
pub(crate) fn starts_with_at(text: &Vec<char>, pos: usize, needle: &Vec<char>) -> (found: bool)
    requires
        pos <= text.len(),
    ensures
        found == needle@.is_prefix_of(text@.skip(pos as int)),
{
    if needle.len() > text.len() - pos {
        return false;
    }
    let mut i: usize = 0;
    while i < needle.len()
        invariant
            i <= needle.len(),
            pos <= text.len(),
            needle.len() <= text.len() - pos,
            forall|j: int| 0 <= j < i ==> needle[j] == text[pos + j],
        decreases needle.len() - i,
    {
        if needle[i] != text[pos + i] {
            assert(text@.skip(pos as int).subrange(0, needle.len() as int)[i as int] == text[pos
                + i]);
            return false;
        }
        i += 1;
    }
    assert(needle@ =~= text@.skip(pos as int).subrange(0, needle.len() as int));
    true
}

/// Whether two texts hold the same characters.
pub fn same_text(a: &str, b: &str) -> (same: bool)
    ensures
        same == (a@ == b@),
{
    broadcast use vstd::utf8::encode_utf8_decode_utf8;

    let x = a.as_bytes();
    let y = b.as_bytes();
    if x.len() != y.len() {
        return false;
    }
    let mut i: usize = 0;
    while i < x.len()
        invariant
            i <= x.len(),
            x.len() == y.len(),
            x@ == a.spec_bytes(),
            y@ == b.spec_bytes(),
            forall|j: int| 0 <= j < i ==> x[j] == y[j],
        decreases x.len() - i,
    {
        if x[i] != y[i] {
            return false;
        }
        i += 1;
    }
    assert(x@ =~= y@);
    assert(vstd::utf8::decode_utf8(vstd::utf8::encode_utf8(a@)) == a@);
    assert(vstd::utf8::decode_utf8(vstd::utf8::encode_utf8(b@)) == b@);
    true
}

/// The position of the first of `names` that is `name`.
pub open spec fn first_named(names: Seq<Seq<char>>, name: Seq<char>) -> Option<int>
    decreases names.len(),
{
    if names.len() == 0 {
        None
    } else if names.first() == name {
        Some(0)
    } else {
        match first_named(names.drop_first(), name) {
            Some(k) => Some(k + 1),
            None => None,
        }
    }
}

/// `first_named` gives the least position that holds the name, and `None`
/// exactly where no position holds it.
pub proof fn lemma_first_named(names: Seq<Seq<char>>, name: Seq<char>)
    ensures
        match first_named(names, name) {
            Some(k) => 0 <= k < names.len() && names[k] == name && forall|j: int|
                0 <= j < k ==> names[j] != name,
            None => forall|j: int| 0 <= j < names.len() ==> names[j] != name,
        },
    decreases names.len(),
{
    if names.len() > 0 && names.first() != name {
        lemma_first_named(names.drop_first(), name);
        match first_named(names.drop_first(), name) {
            Some(k) => {
                assert forall|j: int| 0 <= j < k + 1 implies names[j] != name by {
                    if j > 0 {
                        assert(names.drop_first()[j - 1] == names[j]);
                    }
                }
            },
            None => {
                assert forall|j: int| 0 <= j < names.len() implies names[j] != name by {
                    if j > 0 {
                        assert(names.drop_first()[j - 1] == names[j]);
                    }
                }
            },
        }
    }
}

/// The position that holds the name and has no position before it that does
/// is the one that `first_named` gives.
pub proof fn lemma_first_named_at(names: Seq<Seq<char>>, name: Seq<char>, k: int)
    requires
        0 <= k < names.len(),
        names[k] == name,
        forall|j: int| 0 <= j < k ==> names[j] != name,
    ensures
        first_named(names, name) == Some(k),
{
    lemma_first_named(names, name);
}

/// The text that `{:?}` writes for a character.
pub uninterp spec fn debug_text_of_char(c: char) -> Seq<char>;

/// The text that `{:?}` writes for a string.
pub uninterp spec fn debug_text_of_str(s: Seq<char>) -> Seq<char>;

/// Formats a character with `{:?}` (`<char as Debug>::fmt`): quoted and
/// escaped as Rust source would write it. Nothing is claimed of the text but
/// that it depends on the character alone.
#[verifier::external_body]
pub(crate) fn debug_char(c: char) -> (text: String)
    ensures
        text@ == debug_text_of_char(c),
{
    format!("{:?}", c)
}

/// Formats a string with `{:?}` (`<str as Debug>::fmt`): quoted and escaped as
/// Rust source would write it. Nothing is claimed of the text but that it
/// depends on the string alone.
#[verifier::external_body]
pub(crate) fn debug_str(s: &str) -> (text: String)
    ensures
        text@ == debug_text_of_str(s@),
{
    format!("{:?}", s)
}

} // verus!
