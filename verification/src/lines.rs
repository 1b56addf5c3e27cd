//! Byte-offset to line/column translation for the checked document.
//!
//! The document is held as UTF-8 bytes. A line break is a line feed,
//! vertical tab, form feed, carriage return (with a following line feed
//! counted as the same break), next-line, line separator or paragraph
//! separator character. The column of a byte offset is the number of
//! characters between the start of its line and the offset.

use vstd::prelude::*;

verus! {

/// Number of bytes of the line break starting at `i`, or 0 when no line
/// break starts there.
pub open spec fn newline_len_at(t: Seq<u8>, i: int) -> int {
    if !(0 <= i < t.len()) {
        0
    } else if t[i] == 13 {
        if i + 1 < t.len() && t[i + 1] == 10 {
            2
        } else {
            1
        }
    } else if t[i] == 10 || t[i] == 11 || t[i] == 12 {
        1
    } else if t[i] == 0xc2 && i + 1 < t.len() && t[i + 1] == 0x85 {
        // next line (U+0085)
        2
    } else if t[i] == 0xe2 && i + 2 < t.len() && t[i + 1] == 0x80 && (t[i + 2] == 0xa8 || t[i + 2]
        == 0xa9) {
        // line separator (U+2028) / paragraph separator (U+2029)
        3
    } else {
        0
    }
}

/// The starts of all lines that begin strictly after position `i`.
pub open spec fn starts_from(t: Seq<u8>, i: int) -> Seq<int>
    decreases t.len() - i when 0 <= i <= t.len()
{
    if i >= t.len() {
        Seq::empty()
    } else {
        let n = newline_len_at(t, i);
        if n == 0 {
            starts_from(t, i + 1)
        } else {
            seq![i + n] + starts_from(t, i + n)
        }
    }
}

/// The byte offsets at which the document's lines start.
pub open spec fn spec_line_starts(t: Seq<u8>) -> Seq<int> {
    seq![0] + starts_from(t, 0)
}

/// Everything `starts_from` yields lies in `(i, t.len()]` and is strictly
/// increasing.
pub proof fn lemma_starts_from_bounds(t: Seq<u8>, i: int)
    requires
        0 <= i <= t.len(),
    ensures
        forall|j: int|
            0 <= j < starts_from(t, i).len() ==> i < #[trigger] starts_from(t, i)[j] <= t.len(),
        forall|j: int|
            0 <= j < starts_from(t, i).len() - 1 ==> #[trigger] starts_from(t, i)[j] < starts_from(
                t,
                i,
            )[j + 1],
    decreases t.len() - i,
{
    if i < t.len() {
        let n = newline_len_at(t, i);
        if n == 0 {
            lemma_starts_from_bounds(t, i + 1);
            let s = starts_from(t, i);
            assert(s == starts_from(t, i + 1));
            assert forall|j: int| 0 <= j < s.len() implies i < #[trigger] s[j] <= t.len() by {
                assert(starts_from(t, i + 1)[j] == s[j]);
                assert(i + 1 < starts_from(t, i + 1)[j] <= t.len());
            }
            assert forall|j: int| 0 <= j < s.len() - 1 implies #[trigger] s[j] < s[j + 1] by {
                assert(starts_from(t, i + 1)[j] < starts_from(t, i + 1)[j + 1]);
            }
        } else {
            lemma_starts_from_bounds(t, i + n);
            let s = starts_from(t, i);
            let rest = starts_from(t, i + n);
            assert forall|j: int| 0 <= j < s.len() implies i < #[trigger] s[j] <= t.len() by {
                if j > 0 {
                    assert(s[j] == rest[j - 1]);
                }
            }
            assert forall|j: int| 0 <= j < s.len() - 1 implies #[trigger] s[j] < s[j + 1] by {
                if j == 0 {
                    assert(s[1] == rest[0]);
                } else {
                    assert(s[j] == rest[j - 1] && s[j + 1] == rest[j]);
                }
            }
        }
    }
}

/// The index of the line containing byte offset `b`: starting the scan at
/// line `j`, advance while the next line still starts at or before `b`.
pub open spec fn line_of_from(starts: Seq<int>, j: int, b: int) -> int
    decreases starts.len() - j when 0 <= j < starts.len()
{
    if j + 1 < starts.len() && starts[j + 1] <= b {
        line_of_from(starts, j + 1, b)
    } else {
        j
    }
}

/// The line containing byte offset `b`, or `None` when `b` lies past the
/// end of the document.
pub open spec fn spec_byte_to_line(t: Seq<u8>, b: int) -> Option<int> {
    if !(0 <= b <= t.len()) {
        None
    } else {
        Some(line_of_from(spec_line_starts(t), 0, b))
    }
}

pub proof fn lemma_line_of_from_bounds(starts: Seq<int>, j: int, b: int)
    requires
        0 <= j < starts.len(),
        starts[j] <= b,
    ensures
        j <= line_of_from(starts, j, b) < starts.len(),
        starts[line_of_from(starts, j, b)] <= b,
    decreases starts.len() - j,
{
    if j + 1 < starts.len() && starts[j + 1] <= b {
        lemma_line_of_from_bounds(starts, j + 1, b);
    }
}

/// Whether a character starts at byte offset `b` (or `b` is the end of the
/// document): `b` does not point at a UTF-8 continuation byte.
pub open spec fn is_boundary(t: Seq<u8>, b: int) -> bool {
    b == t.len() || !(128 <= t[b] < 192)
}

/// Number of characters (non-continuation bytes) in `t[from..to]`.
pub open spec fn char_count_range(t: Seq<u8>, from: int, to: int) -> int
    decreases to - from when from <= to
{
    if from >= to {
        0
    } else {
        char_count_range(t, from, to - 1) + if 128 <= t[to - 1] < 192 {
            0int
        } else {
            1int
        }
    }
}

pub proof fn lemma_char_count_range_bound(t: Seq<u8>, from: int, to: int)
    requires
        from <= to,
    ensures
        0 <= char_count_range(t, from, to) <= to - from,
    decreases to - from,
{
    if from < to {
        lemma_char_count_range_bound(t, from, to - 1);
    }
}

/// The column of byte offset `b`: the number of characters between the
/// start of its line and `b`. `None` when `b` lies past the end of the
/// document or inside a character.
pub open spec fn spec_byte_to_column(t: Seq<u8>, b: int) -> Option<int> {
    match spec_byte_to_line(t, b) {
        None => None,
        Some(line) => {
            if !is_boundary(t, b) {
                None
            } else {
                Some(char_count_range(t, spec_line_starts(t)[line], b))
            }
        },
    }
}

/// The document text together with its line index.
#[derive(Debug)]
pub struct Lines {
    pub text: Vec<u8>,
    pub line_starts: Vec<usize>,
}

impl Lines {
    /// The line index matches the text.
    pub open spec fn wf(&self) -> bool {
        self.line_starts@.map_values(|u: usize| u as int) == spec_line_starts(self.text@)
    }

    /// Build the line index of a document.
    pub fn new(text: Vec<u8>) -> (r: Lines)
        ensures
            r.wf(),
            r.text@ == text@,
    {
        let ghost t = text@;
        let mut line_starts: Vec<usize> = Vec::new();
        line_starts.push(0);
        proof {
            assert(line_starts@.map_values(|u: usize| u as int) =~= seq![0int]);
        }

        let n = text.len();
        let mut i: usize = 0;
        while i < n
            invariant
                n == text@.len(),
                t == text@,
                0 <= i <= n,
                line_starts@.map_values(|u: usize| u as int) + starts_from(t, i as int)
                    == spec_line_starts(t),
            decreases n - i,
        {
            let ghost built = line_starts@.map_values(|u: usize| u as int);
            let b = text[i];
            let mut nl: usize = 0;
            if b == 13 {
                if i + 1 < n && text[i + 1] == 10 {
                    nl = 2;
                } else {
                    nl = 1;
                }
            } else if b == 10 || b == 11 || b == 12 {
                nl = 1;
            } else if b == 0xc2 && i + 1 < n && text[i + 1] == 0x85 {
                nl = 2;
            } else if b == 0xe2 && i + 1 < n && text[i + 1] == 0x80 && i + 2 < n && (text[i + 2]
                == 0xa8 || text[i + 2] == 0xa9) {
                nl = 3;
            }
            proof {
                assert(nl as int == newline_len_at(t, i as int));
            }
            if nl == 0 {
                i = i + 1;
            } else {
                line_starts.push(i + nl);
                i = i + nl;
                proof {
                    assert(line_starts@.map_values(|u: usize| u as int) =~= built.push(i as int));
                    assert(built.push(i as int) + starts_from(t, i as int) =~= built + (seq![
                        i as int,
                    ] + starts_from(t, i as int)));
                }
            }
        }
        proof {
            assert(starts_from(t, n as int) =~= Seq::<int>::empty());
            assert(line_starts@.map_values(|u: usize| u as int) + Seq::<int>::empty()
                =~= line_starts@.map_values(|u: usize| u as int));
        }
        Lines { text, line_starts }
    }

    /// The index of the line containing byte offset `byte_idx`, or `None`
    /// when the offset lies past the end of the document.
    pub fn byte_to_line(&self, byte_idx: usize) -> (r: Option<usize>)
        requires
            self.wf(),
        ensures
            match r {
                Some(l) => spec_byte_to_line(self.text@, byte_idx as int) == Some(l as int),
                None => spec_byte_to_line(self.text@, byte_idx as int) is None,
            },
    {
        let ghost starts = spec_line_starts(self.text@);
        if byte_idx > self.text.len() {
            return None;
        }
        let n = self.line_starts.len();
        let mut j: usize = 0;
        proof {
            assert(starts.len() == self.line_starts@.len());
            assert(starts[0] == 0);
        }
        while j + 1 < n && self.line_starts[j + 1] <= byte_idx
            invariant
                self.wf(),
                n == self.line_starts@.len(),
                starts == spec_line_starts(self.text@),
                0 <= j < n,
                line_of_from(starts, 0, byte_idx as int) == line_of_from(
                    starts,
                    j as int,
                    byte_idx as int,
                ),
            decreases n - j,
        {
            proof {
                assert(starts[j + 1] == self.line_starts@[j + 1] as int);
            }
            j = j + 1;
        }
        proof {
            assert(j + 1 < n ==> starts[j as int + 1] == self.line_starts@[j as int + 1] as int);
            assert(line_of_from(starts, j as int, byte_idx as int) == j as int);
        }
        Some(j)
    }

    /// The column of byte offset `byte_idx`, or `None` when the offset
    /// lies past the end of the document or inside a character.
    pub fn byte_to_column(&self, byte_idx: usize) -> (r: Option<usize>)
        requires
            self.wf(),
        ensures
            match r {
                Some(c) => spec_byte_to_column(self.text@, byte_idx as int) == Some(c as int),
                None => spec_byte_to_column(self.text@, byte_idx as int) is None,
            },
    {
        let line = match self.byte_to_line(byte_idx) {
            Some(l) => l,
            None => {
                return None;
            },
        };
        if byte_idx < self.text.len() {
            let b = self.text[byte_idx];
            if 128 <= b && b < 192 {
                return None;
            }
        }
        proof {
            assert(is_boundary(self.text@, byte_idx as int));
            lemma_line_of_from_bounds(spec_line_starts(self.text@), 0, byte_idx as int);
            lemma_starts_from_bounds(self.text@, 0);
            assert(spec_line_starts(self.text@)[line as int] == self.line_starts@[line as int]
                as int);
            assert(self.line_starts@[line as int] as int <= byte_idx as int);
        }
        let start = self.line_starts[line];
        let ghost t = self.text@;
        let mut count: usize = 0;
        let mut k = start;
        proof {
            lemma_char_count_range_bound(t, start as int, byte_idx as int);
        }
        while k < byte_idx
            invariant
                t == self.text@,
                start <= k <= byte_idx,
                byte_idx <= t.len(),
                count as int == char_count_range(t, start as int, k as int),
                count <= k,
            decreases byte_idx - k,
        {
            let b = self.text[k];
            if !(128 <= b && b < 192) {
                count = count + 1;
            }
            k = k + 1;
        }
        Some(count)
    }
}

} // verus!
