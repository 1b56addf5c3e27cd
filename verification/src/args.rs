//! Command-line options, as plain data, and the port validator.

use vstd::prelude::*;

verus! {

/// The run's command-line options. Every option may be absent and fall
/// back to the configuration file; paths are carried as plain strings.
#[derive(Debug, Clone, Default)]
pub struct Args {
    pub host: Option<String>,
    pub port: Option<u16>,
    pub language: Option<String>,
    pub disabed_rules: Option<Vec<String>>,
    pub disabed_categories: Option<Vec<String>>,
    pub ignore_words: Option<Vec<String>>,
    pub config_file: Option<String>,
    pub picky: Option<bool>,
    pub file: String,
}

/// Whether `c` is a decimal digit.
pub open spec fn is_digit(c: char) -> bool {
    48 <= c as int <= 57
}

/// The value of a decimal digit.
pub open spec fn digit_val(c: char) -> int {
    c as int - 48
}

/// Where the digits of a number start: after one optional leading plus
/// sign.
pub open spec fn parse_start(s: Seq<char>) -> int {
    if s.len() > 0 && s[0] == '+' {
        1int
    } else {
        0int
    }
}

/// Whether everything from position `k` on is a digit.
pub open spec fn all_digits_from(s: Seq<char>, k: int) -> bool
    decreases s.len() - k when 0 <= k <= s.len()
{
    if k >= s.len() {
        true
    } else {
        is_digit(s[k]) && all_digits_from(s, k + 1)
    }
}

/// Whether `s` is a well-formed unsigned number: an optional plus sign
/// followed by at least one digit and nothing else.
pub open spec fn parses_as_number(s: Seq<char>) -> bool {
    s.len() > parse_start(s) && all_digits_from(s, parse_start(s))
}

proof fn lemma_all_digits_at(s: Seq<char>, from: int, k: int)
    requires
        0 <= from <= s.len(),
        all_digits_from(s, from),
        from <= k < s.len(),
    ensures
        is_digit(s[k]),
    decreases k - from,
{
    if k > from {
        lemma_all_digits_at(s, from + 1, k);
    }
}

proof fn lemma_all_digits_prefix(s: Seq<char>, from: int, k: int)
    requires
        0 <= from <= k <= s.len(),
        forall|j: int| from <= j < k ==> is_digit(#[trigger] s[j]),
        all_digits_from(s, k),
    ensures
        all_digits_from(s, from),
    decreases k - from,
{
    if from < k {
        lemma_all_digits_prefix(s, from + 1, k);
    }
}

/// The value of the digits `s[from..upto]`.
pub open spec fn num_val(s: Seq<char>, from: int, upto: int) -> int
    decreases upto - from when from <= upto
{
    if upto <= from {
        0
    } else {
        num_val(s, from, upto - 1) * 10 + digit_val(s[upto - 1])
    }
}

/// The value of `s` as a number.
pub open spec fn spec_number_of(s: Seq<char>) -> int {
    num_val(s, parse_start(s), s.len() as int)
}

proof fn lemma_num_val_nonneg(s: Seq<char>, from: int, upto: int)
    requires
        from <= upto,
        forall|k: int| from <= k < upto ==> is_digit(#[trigger] s[k]),
    ensures
        num_val(s, from, upto) >= 0,
    decreases upto - from,
{
    if upto > from {
        lemma_num_val_nonneg(s, from, upto - 1);
    }
}

proof fn lemma_num_val_monotone(s: Seq<char>, from: int, mid: int, upto: int)
    requires
        from <= mid <= upto,
        forall|k: int| from <= k < upto ==> is_digit(#[trigger] s[k]),
    ensures
        num_val(s, from, mid) <= num_val(s, from, upto),
    decreases upto - mid,
{
    if mid < upto {
        lemma_num_val_monotone(s, from, mid, upto - 1);
        lemma_num_val_nonneg(s, from, upto - 1);
    }
}

/// The complaint about a string that is no number at all, or one too large
/// for the machine: the string in backticks, then " isn't a port number".
pub open spec fn spec_not_a_number_message(s: Seq<char>) -> Seq<char> {
    "`"@ + s + "` isn't a port number"@
}

/// Validate a port option: the string must be an unsigned number in
/// `1..=65535`. A string that is no number, or whose value does not fit
/// the machine's word, is reported as not a port number; a number outside
/// the range is reported as out of range.
pub fn port_in_range(s: &str) -> (r: Result<u16, String>)
    ensures
        r is Ok <==> parses_as_number(s@) && 1 <= spec_number_of(s@) <= 65535,
        r matches Ok(p) ==> p as int == spec_number_of(s@),
        r matches Err(m) ==> m@ == (if !parses_as_number(s@) || spec_number_of(s@) > usize::MAX {
            spec_not_a_number_message(s@)
        } else {
            "port not in range 1-65535"@
        }),
{
    proof {
        reveal_strlit("+");
        reveal_strlit("port not in range 1-65535");
    }
    let n = s.unicode_len();
    let ghost st = parse_start(s@);

    let mut i: usize = 0;
    if n > 0 && s.get_char(0) == '+' {
        i = 1;
    }
    proof {
        assert(i as int == st);
    }
    if i >= n {
        // Empty, or a lone sign: no digits at all.
        return Err(not_a_number_message(s));
    }

    let mut acc: u128 = 0;
    let ghost start = i as int;
    while i < n
        invariant
            n == s@.len(),
            st == parse_start(s@),
            start == st,
            start <= i <= n,
            start < n,
            acc <= usize::MAX as u128,
            acc as int == num_val(s@, st, i as int),
            forall|k: int| st <= k < i ==> is_digit(#[trigger] s@[k]),
        decreases n - i,
    {
        let c = s.get_char(i);
        let d = c as u32;
        proof {
            assert(c == s@[i as int]);
            assert(d as int == c as int);
        }
        if d < 48 || d > 57 {
            proof {
                assert(!is_digit(s@[i as int]));
                if parses_as_number(s@) {
                    lemma_all_digits_at(s@, st, i as int);
                    assert(false);
                }
            }
            return Err(not_a_number_message(s));
        }
        acc = acc * 10 + ((d - 48) as u128);
        i = i + 1;
        if acc > (usize::MAX as u128) {
            // The number does not fit the machine's word; parsing it
            // fails, whatever follows.
            proof {
                if parses_as_number(s@) {
                    assert forall|k: int| st <= k < s@.len() implies is_digit(
                        #[trigger] s@[k],
                    ) by {
                        lemma_all_digits_at(s@, st, k);
                    }
                    lemma_num_val_monotone(s@, st, i as int, s@.len() as int);
                }
            }
            return Err(not_a_number_message(s));
        }
    }

    proof {
        lemma_all_digits_prefix(s@, st, s@.len() as int);
        assert(parses_as_number(s@));
    }
    let port = acc;
    if 1 <= port && port <= 65535 {
        Ok(port as u16)
    } else {
        Err(String::from_str("port not in range 1-65535"))
    }
}

/// Build the complaint about a string that is no port number.
fn not_a_number_message(s: &str) -> (r: String)
    ensures
        r@ == spec_not_a_number_message(s@),
{
    proof {
        reveal_strlit("`");
        reveal_strlit("` isn't a port number");
    }
    let mut m = String::from_str("`");
    m.append(s);
    m.append("` isn't a port number");
    m
}

} // verus!
