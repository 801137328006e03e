//! Moving between strings, characters and bytes.

use vstd::prelude::*;
use vstd::std_specs::iter::IteratorSpec;
use vstd::string::StringExecFns;
use vstd::utf8::{
    encode_utf8, is_char_boundary, length_of_first_scalar, pop_first_scalar, valid_first_scalar,
    valid_utf8,
};

verus! {

/// The lower-case form of `text`, as `str::to_lowercase` defines it.
pub uninterp spec fn lowercase(text: Seq<char>) -> Seq<char>;

/// Calls `str::to_lowercase`, which returns the lower-case equivalent of the
/// whole string.
#[verifier::external_body]
pub(crate) fn to_lowercase(text: &str) -> (lower: String)
    ensures
        lower@ == lowercase(text@),
{
    text.to_lowercase()
}

/// Calls `String::push`, which appends one character.
#[verifier::external_body]
pub(crate) fn push_char(text: &mut String, c: char)
    ensures
        final(text)@ == old(text)@.push(c),
{
    text.push(c)
}

/// Calls `core::str::from_utf8`, which gives the bytes back as text when they
/// are UTF-8 and fails when they are not.
#[verifier::external_body]
pub(crate) fn utf8_text(bytes: &[u8]) -> (text: Option<&str>)
    ensures
        text is Some <==> valid_utf8(bytes@),
        text matches Some(s) ==> encode_utf8(s@) == bytes@,
{
    core::str::from_utf8(bytes).ok()
}

/// The characters of `text`, in order.
pub fn chars_of(text: &str) -> (chars: Vec<char>)
    ensures
        chars@ == text@,
{
    broadcast use vstd::string::group_string_axioms;

    let mut chars: Vec<char> = Vec::new();
    for c in it: text.chars()
        invariant
            it.seq() == text@,
            chars@ == it.seq().take(it.index() as int),
    {
        chars.push(c);
    }
    chars
}

/// The string made of `chars`, in order.
pub fn string_of(chars: &[char]) -> (text: String)
    ensures
        text@ == chars@,
{
    let mut text = String::new();
    let mut i: usize = 0;
    while i < chars.len()
        invariant
            i <= chars.len(),
            text@ == chars@.take(i as int),
        decreases chars.len() - i,
    {
        push_char(&mut text, chars[i]);
        i += 1;
    }
    text
}

/// Appends `bytes` to `out`.
pub fn append_bytes(out: &mut Vec<u8>, bytes: &[u8])
    ensures
        final(out)@ == old(out)@ + bytes@,
{
    let mut i: usize = 0;
    while i < bytes.len()
        invariant
            i <= bytes.len(),
            out@ == old(out)@ + bytes@.take(i as int),
        decreases bytes.len() - i,
    {
        out.push(bytes[i]);
        assert(bytes@.take(i + 1) =~= bytes@.take(i as int).push(bytes@[i as int]));
        i += 1;
    }
    assert(bytes@.take(bytes.len() as int) =~= bytes@);
}

/// A copy of `bytes`.
pub fn copy_bytes(bytes: &[u8]) -> (copy: Vec<u8>)
    ensures
        copy@ == bytes@,
{
    let mut copy: Vec<u8> = Vec::new();
    append_bytes(&mut copy, bytes);
    copy
}

/// Whether `needle` stands at the start of `haystack`.
pub fn has_prefix(haystack: &[u8], needle: &[u8]) -> (found: bool)
    ensures
        found == needle@.is_prefix_of(haystack@),
{
    if needle.len() > haystack.len() {
        return false;
    }
    let mut i: usize = 0;
    while i < needle.len()
        invariant
            i <= needle.len() <= haystack.len(),
            forall|k: int| 0 <= k < i ==> needle@[k] == haystack@[k],
        decreases needle.len() - i,
    {
        if needle[i] != haystack[i] {
            return false;
        }
        i += 1;
    }
    assert(needle@ =~= haystack@.subrange(0, needle@.len() as int));
    true
}

/// Whether `needle` stands at the end of `haystack`.
pub fn has_suffix(haystack: &[u8], needle: &[u8]) -> (found: bool)
    ensures
        found == needle@.is_suffix_of(haystack@),
{
    if needle.len() > haystack.len() {
        return false;
    }
    let shift: usize = haystack.len() - needle.len();
    let mut i: usize = 0;
    while i < needle.len()
        invariant
            i <= needle.len() <= haystack.len(),
            shift == haystack.len() - needle.len(),
            forall|k: int| 0 <= k < i ==> needle@[k] == haystack@[shift + k],
        decreases needle.len() - i,
    {
        if needle[i] != haystack[shift + i] {
            assert(haystack@.subrange(shift as int, haystack@.len() as int)[i as int]
                == haystack@[shift + i]);
            return false;
        }
        i += 1;
    }
    assert(needle@ =~= haystack@.subrange(shift as int, haystack@.len() as int));
    true
}

/// The encoding of two texts one after the other is the two encodings one
/// after the other.
pub proof fn lemma_encode_concat(a: Seq<char>, b: Seq<char>)
    ensures
        encode_utf8(a + b) == encode_utf8(a) + encode_utf8(b),
    decreases a.len(),
{
    if a.len() == 0 {
        assert(a + b =~= b);
        assert(encode_utf8(a) + encode_utf8(b) =~= encode_utf8(b));
    } else {
        lemma_encode_concat(a.drop_first(), b);
        assert((a + b).drop_first() =~= a.drop_first() + b);
        assert(encode_utf8(a + b) =~= encode_utf8(a) + encode_utf8(b));
    }
}

/// Where one encoded text begins with another, the shorter one ends between
/// two characters of the longer.
pub proof fn lemma_prefix_is_boundary(a: Seq<u8>, b: Seq<u8>)
    requires
        valid_utf8(a),
        valid_utf8(b),
        a.is_prefix_of(b),
    ensures
        is_char_boundary(b, a.len() as int),
    decreases a.len(),
{
    if a.len() > 0 {
        assert(a[0] == b.subrange(0, a.len() as int)[0]);
        let width = length_of_first_scalar(a);
        assert(width == length_of_first_scalar(b));
        assert(valid_first_scalar(a));
        assert(valid_first_scalar(b));
        assert(width <= a.len());
        let rest_a = pop_first_scalar(a);
        let rest_b = pop_first_scalar(b);
        assert(rest_a =~= rest_b.subrange(0, rest_a.len() as int));
        lemma_prefix_is_boundary(rest_a, rest_b);
    }
}

} // verus!
