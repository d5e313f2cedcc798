//! The excerpt of a note: the part of its text in which a title is looked for.
//!
//! Only the first 512 bytes of a note's UTF-8 form count. The cut is made on
//! bytes, never through a character: where byte 512 falls inside a character
//! the note has no excerpt.

use vstd::prelude::*;
use vstd::string::StringSliceAdditionalSpecFns;
use vstd::utf8::*;
use crate::title::{has_title, is_title_char, lemma_marker_unique, lemma_title_at, marker_at, title_of};

verus! {

/// The number of bytes at the start of a note that are looked at.
pub const EXCERPT_BYTES: usize = 512;

/// The excerpt of `text`: all of it where it is short enough, else the
/// characters that its first 512 bytes encode, provided the cut falls between
/// two characters.
pub open spec fn excerpt_of(text: Seq<char>) -> Option<Seq<char>> {
    let bytes = encode_utf8(text);
    if bytes.len() <= EXCERPT_BYTES {
        Some(text)
    } else if is_char_boundary(bytes, EXCERPT_BYTES as int) {
        Some(decode_utf8(bytes.subrange(0, EXCERPT_BYTES as int)))
    } else {
        None
    }
}

/// The title that a note with this text has: the title of its excerpt.
pub open spec fn excerpt_title(text: Seq<char>) -> Option<Seq<char>> {
    match excerpt_of(text) {
        Some(head) => title_of(head),
        None => None,
    }
}

/// Cuts `text` down to its excerpt.
pub fn excerpt<'a>(text: &'a str) -> (head: Option<&'a str>)
    ensures
        match head {
            Some(h) => excerpt_of(text@) == Some(h@),
            None => excerpt_of(text@) is None,
        },
{
    if text.as_bytes().len() <= EXCERPT_BYTES {
        Some(text)
    } else if text.is_char_boundary(EXCERPT_BYTES) {
        let (head, _) = text.split_at(EXCERPT_BYTES);
        proof {
            encode_utf8_decode_utf8(head@);
        }
        Some(head)
    } else {
        None
    }
}

/// A text has at most as many characters as its UTF-8 form has bytes.
pub proof fn lemma_chars_within_bytes(text: Seq<char>)
    ensures
        text.len() <= encode_utf8(text).len(),
    decreases text.len(),
{
    if text.len() > 0 {
        lemma_chars_within_bytes(text.drop_first());
    }
}

/// An excerpt is a prefix of its text and takes at most 512 bytes.
pub proof fn lemma_excerpt_is_prefix(text: Seq<char>)
    ensures
        excerpt_of(text) matches Some(head) ==> {
            &&& head.len() <= text.len()
            &&& head == text.take(head.len() as int)
            &&& encode_utf8(head).len() <= EXCERPT_BYTES
            &&& (head.len() < text.len() ==> encode_utf8(head).len() == EXCERPT_BYTES)
        },
{
    let bytes = encode_utf8(text);
    if bytes.len() <= EXCERPT_BYTES {
        assert(text.take(text.len() as int) =~= text);
    } else if is_char_boundary(bytes, EXCERPT_BYTES as int) {
        let cut = EXCERPT_BYTES as int;
        let head = decode_utf8(bytes.subrange(0, cut));
        let tail = decode_utf8(bytes.subrange(cut, bytes.len() as int));
        encode_utf8_valid_utf8(text);
        encode_utf8_decode_utf8(text);
        valid_utf8_split(bytes, cut);
        decode_utf8_split(bytes, cut);
        decode_utf8_encode_utf8(bytes.subrange(0, cut));
        assert(text == head + tail);
        assert(head =~= text.take(head.len() as int));
    }
}

/// A marker at the start of an excerpt stands at the start of the text too.
pub proof fn lemma_excerpt_marker_is_text_marker(text: Seq<char>, n: int, m: int)
    requires
        excerpt_of(text) matches Some(head) && marker_at(head, n, m),
    ensures
        marker_at(text, n, m),
        n + m + 2 <= EXCERPT_BYTES,
{
    let head = excerpt_of(text)->0;
    lemma_excerpt_is_prefix(text);
    lemma_chars_within_bytes(head);
    assert forall|i: int| 0 <= i < n implies is_title_char(#[trigger] text[i]) by {
        assert(text[i] == head[i]);
    }
    assert forall|j: int| n < j <= n + m implies #[trigger] text[j] == '-' by {
        assert(text[j] == head[j]);
    }
    assert(text[n] == head[n]);
    assert(text[n + m + 1] == head[n + m + 1]);
}

/// A title marker that reaches past byte 512 is never found: a text whose
/// marker does not end within its first 512 bytes has no title in its excerpt.
/// Each character of a marker takes one byte, so a marker of `n` and `m`
/// characters ends with byte `n + m + 2`.
pub proof fn lemma_marker_past_excerpt(text: Seq<char>, n: int, m: int)
    requires
        marker_at(text, n, m),
        n + m + 2 > EXCERPT_BYTES,
    ensures
        excerpt_title(text) is None,
{
    if let Some(head) = excerpt_of(text) {
        if has_title(head) {
            let (n1, m1) = choose|n1: int, m1: int| marker_at(head, n1, m1);
            lemma_excerpt_marker_is_text_marker(text, n1, m1);
            lemma_marker_unique(text, n, m, n1, m1);
        }
    }
}

/// A text that does not start with a title marker has no title in its excerpt
/// either: a marker further down the text, within the first 512 bytes or after
/// them, is never found.
pub proof fn lemma_untitled_text(text: Seq<char>)
    requires
        title_of(text) is None,
    ensures
        excerpt_title(text) is None,
{
    if let Some(head) = excerpt_of(text) {
        if has_title(head) {
            let (n1, m1) = choose|n1: int, m1: int| marker_at(head, n1, m1);
            lemma_excerpt_marker_is_text_marker(text, n1, m1);
        }
    }
}

/// A title marker that ends within the first 512 bytes is found in the
/// excerpt, where the note has one, and gives the same title as the whole text.
pub proof fn lemma_marker_within_excerpt(text: Seq<char>, n: int, m: int)
    requires
        marker_at(text, n, m),
        n + m + 2 <= EXCERPT_BYTES,
    ensures
        excerpt_of(text) matches Some(head) ==> title_of(head) == Some(text.take(n)),
{
    if let Some(head) = excerpt_of(text) {
        lemma_excerpt_is_prefix(text);
        if head.len() < n + m + 2 {
            assert forall|i: int| 0 <= i < head.len() implies '\0' <= #[trigger] head[i]
                <= '\u{7f}' by {
                assert(head[i] == text[i]);
                if i < n {
                    assert(is_title_char(text[i]));
                } else if n < i <= n + m {
                    assert(text[i] == '-');
                }
            }
            is_ascii_chars_encode_utf8(head);
        } else {
            assert(marker_at(head, n, m)) by {
                assert forall|i: int| 0 <= i < n implies is_title_char(#[trigger] head[i]) by {
                    assert(head[i] == text[i]);
                }
                assert forall|j: int| n < j <= n + m implies #[trigger] head[j] == '-' by {
                    assert(head[j] == text[j]);
                }
                assert(head[n] == text[n]);
                assert(head[n + m + 1] == text[n + m + 1]);
            }
            lemma_title_at(head, n, m);
            assert(head.take(n) =~= text.take(n));
        }
    }
}

} // verus!
