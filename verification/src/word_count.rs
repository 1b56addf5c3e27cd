//! Naive word counting.
//!
//! The text is UTF-8 bytes; a word is a maximal run of non-whitespace
//! characters. Whitespace means the Unicode white-space characters,
//! recognized here by their UTF-8 encodings.

use vstd::prelude::*;

verus! {

/// Number of bytes of the whitespace character starting at `i`, or 0 when
/// no whitespace character starts there. The multi-byte patterns are the
/// UTF-8 encodings of next line (U+0085), no-break space (U+00A0), ogham
/// space mark (U+1680), the U+2000..=U+200A spaces, line separator
/// (U+2028), paragraph separator (U+2029), narrow no-break space
/// (U+202F), medium mathematical space (U+205F) and ideographic space
/// (U+3000); their lead bytes start a character in any valid UTF-8 text.
pub open spec fn space_len_at(t: Seq<u8>, i: int) -> int {
    if !(0 <= i < t.len()) {
        0
    } else if 9 <= t[i] <= 13 || t[i] == 32 {
        1
    } else if t[i] == 0xc2 && i + 1 < t.len() && (t[i + 1] == 0x85 || t[i + 1] == 0xa0) {
        2
    } else if t[i] == 0xe1 && i + 2 < t.len() && t[i + 1] == 0x9a && t[i + 2] == 0x80 {
        3
    } else if t[i] == 0xe2 && i + 2 < t.len() && t[i + 1] == 0x80 && (0x80 <= t[i + 2] <= 0x8a || t[i
        + 2] == 0xa8 || t[i + 2] == 0xa9 || t[i + 2] == 0xaf) {
        3
    } else if t[i] == 0xe2 && i + 2 < t.len() && t[i + 1] == 0x81 && t[i + 2] == 0x9f {
        3
    } else if t[i] == 0xe3 && i + 2 < t.len() && t[i + 1] == 0x80 && t[i + 2] == 0x80 {
        3
    } else {
        0
    }
}

/// The number of words in `t` from position `i` on, given whether a word
/// was already open just before `i`: maximal runs of non-whitespace each
/// count once.
pub open spec fn count_words_from(t: Seq<u8>, i: int, in_word: bool) -> int
    decreases t.len() - i when 0 <= i <= t.len()
{
    if i >= t.len() {
        if in_word {
            1
        } else {
            0
        }
    } else {
        let n = space_len_at(t, i);
        if n > 0 {
            (if in_word {
                1int
            } else {
                0int
            }) + count_words_from(t, i + n, false)
        } else {
            count_words_from(t, i + 1, true)
        }
    }
}

/// The number of words in `t`, given whether a word was already open just
/// before `t`.
pub open spec fn spec_count_words(t: Seq<u8>, in_word: bool) -> int {
    count_words_from(t, 0, in_word)
}

/// Naively count the number of words in some text.
///
/// A word is non-whitespace followed by whitespace or the last word in the
/// text; runs of whitespace collapse, and leading or trailing whitespace
/// adds nothing.
pub fn count_words_naive(text: &Vec<u8>) -> (word_count: usize)
    ensures
        word_count as int == spec_count_words(text@, false),
{
    let ghost t = text@;
    let mut word_count: usize = 0;
    let mut in_word = false;

    let n = text.len();
    let mut i: usize = 0;
    while i < n
        invariant
            n == t.len(),
            t == text@,
            0 <= i <= n,
            word_count as int + (if in_word {
                1int
            } else {
                0int
            }) <= i as int,
            word_count as int + count_words_from(t, i as int, in_word) == count_words_from(
                t,
                0,
                false,
            ),
        decreases n - i,
    {
        let b = text[i];
        let mut sl: usize = 0;
        if (9 <= b && b <= 13) || b == 32 {
            sl = 1;
        } else if b == 0xc2 && i + 1 < n && (text[i + 1] == 0x85 || text[i + 1] == 0xa0) {
            sl = 2;
        } else if b == 0xe1 && i + 1 < n && text[i + 1] == 0x9a && i + 2 < n && text[i + 2] == 0x80 {
            sl = 3;
        } else if b == 0xe2 && i + 1 < n && text[i + 1] == 0x80 && i + 2 < n && ((0x80 <= text[i + 2]
            && text[i + 2] <= 0x8a) || text[i + 2] == 0xa8 || text[i + 2] == 0xa9 || text[i + 2]
            == 0xaf) {
            sl = 3;
        } else if b == 0xe2 && i + 1 < n && text[i + 1] == 0x81 && i + 2 < n && text[i + 2] == 0x9f {
            sl = 3;
        } else if b == 0xe3 && i + 1 < n && text[i + 1] == 0x80 && i + 2 < n && text[i + 2] == 0x80 {
            sl = 3;
        }
        proof {
            assert(sl as int == space_len_at(t, i as int));
        }
        if sl > 0 {
            if in_word {
                in_word = false;
                word_count = word_count + 1;
            }
            i = i + sl;
        } else {
            in_word = true;
            i = i + 1;
        }
    }

    if in_word {
        word_count = word_count + 1;
    }

    word_count
}

} // verus!
