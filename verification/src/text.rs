//! Lengths of text in bytes, and padding with trailing spaces.

use vstd::prelude::*;
use vstd::utf8::*;

verus! {

/// The length of a text: the number of bytes of its UTF-8 encoding.
pub open spec fn text_len(s: Seq<char>) -> nat {
    encode_utf8(s).len()
}

/// The view of a text that may be missing.
pub open spec fn text_of(text: Option<String>) -> Option<Seq<char>> {
    match text {
        Some(s) => Some(s@),
        None => None,
    }
}

/// A run of `n` spaces.
pub open spec fn spaces(n: nat) -> Seq<char> {
    Seq::new(n, |i: int| ' ')
}

/// `s` followed by the spaces that bring it to `width` bytes; `s` itself where
/// it is that long already.
pub open spec fn padded(s: Seq<char>, width: nat) -> Seq<char> {
    if text_len(s) < width {
        s + spaces((width - text_len(s)) as nat)
    } else {
        s
    }
}

/// The encoding of a concatenation is the concatenation of the encodings.
pub proof fn lemma_encode_concat(a: Seq<char>, b: Seq<char>)
    ensures
        encode_utf8(a + b) == encode_utf8(a) + encode_utf8(b),
    decreases a.len(),
{
    if a.len() > 0 {
        assert((a + b).drop_first() == a.drop_first() + b);
        lemma_encode_concat(a.drop_first(), b);
    }
}

/// Lengths add up under concatenation.
pub proof fn lemma_text_len_concat(a: Seq<char>, b: Seq<char>)
    ensures
        text_len(a + b) == text_len(a) + text_len(b),
{
    lemma_encode_concat(a, b);
}

/// A run of `n` spaces is `n` bytes long.
pub proof fn lemma_text_len_spaces(n: nat)
    ensures
        text_len(spaces(n)) == n,
{
    is_ascii_chars_encode_utf8(spaces(n));
}

/// Padding never shortens a text, and brings a shorter one to exactly `width`.
pub proof fn lemma_padded_len(s: Seq<char>, width: nat)
    ensures
        text_len(padded(s, width)) == if text_len(s) < width { width } else { text_len(s) },
{
    if text_len(s) < width {
        let n = (width - text_len(s)) as nat;
        lemma_text_len_concat(s, spaces(n));
        lemma_text_len_spaces(n);
    }
}

/// The length of `text` in bytes.
pub fn byte_len(text: &str) -> (len: usize)
    ensures
        len == text_len(text@),
{
    text.as_bytes().len()
}

/// Appends spaces to `text` until it is `width` bytes long. A text that is
/// already that long or longer is left as it is: nothing is ever cut off.
pub fn pad(text: &mut String, width: usize)
    ensures
        final(text)@ == padded(old(text)@, width as nat),
{
    let len = byte_len(text.as_str());
    if len < width {
        let missing: usize = width - len;
        let mut added: usize = 0;
        while added < missing
            invariant
                added <= missing,
                text@ == old(text)@ + spaces(added as nat),
            decreases missing - added,
        {
            proof {
                reveal_strlit(" ");
            }
            text.append(" ");
            added = added + 1;
        }
    }
}

} // verus!
