//! Parsing of the numeric menu inputs: trimming, and reading a signed
//! 32-bit integer the way the standard parser does — an optional sign, one
//! or more decimal digits, nothing else, and the value within range.

use vstd::prelude::*;
use vstd::string::StrSliceExecFns;

verus! {

/// The whitespace characters trimmed from an input line.
pub open spec fn is_space(c: char) -> bool {
    c == ' ' || c == '\t' || c == '\n' || c == '\r'
}

pub open spec fn trim_front(s: Seq<char>) -> Seq<char>
    decreases s.len(),
{
    if s.len() > 0 && is_space(s.first()) {
        trim_front(s.drop_first())
    } else {
        s
    }
}

pub open spec fn trim_back(s: Seq<char>) -> Seq<char>
    decreases s.len(),
{
    if s.len() > 0 && is_space(s.last()) {
        trim_back(s.drop_last())
    } else {
        s
    }
}

/// The input without leading and trailing whitespace.
pub open spec fn spec_trim(s: Seq<char>) -> Seq<char> {
    trim_back(trim_front(s))
}

proof fn lemma_trim_front_range(s: Seq<char>, k: int)
    requires
        0 <= k <= s.len(),
        forall|i: int| 0 <= i < k ==> is_space(#[trigger] s[i]),
        k == s.len() || !is_space(s[k]),
    ensures
        trim_front(s) == s.subrange(k, s.len() as int),
    decreases k,
{
    if k == 0 {
        assert(s.subrange(0, s.len() as int) =~= s);
    } else {
        let t = s.drop_first();
        assert(is_space(s[0]));
        assert forall|i: int| 0 <= i < k - 1 implies is_space(#[trigger] t[i]) by {
            assert(t[i] == s[i + 1]);
        }
        assert(k - 1 == t.len() || !is_space(t[k - 1]));
        lemma_trim_front_range(t, k - 1);
        assert(t.subrange(k - 1, t.len() as int) =~= s.subrange(k, s.len() as int));
    }
}

proof fn lemma_trim_back_range(s: Seq<char>, e: int)
    requires
        0 <= e <= s.len(),
        forall|i: int| e <= i < s.len() ==> is_space(#[trigger] s[i]),
        e == 0 || !is_space(s[e - 1]),
    ensures
        trim_back(s) == s.subrange(0, e),
    decreases s.len() - e,
{
    if e == s.len() {
        assert(s.subrange(0, e) =~= trim_back(s)) by {
            if s.len() > 0 && is_space(s.last()) {
            }
        }
    } else {
        assert(is_space(s.last()));
        let t = s.drop_last();
        assert forall|i: int| e <= i < t.len() implies is_space(#[trigger] t[i]) by {
            assert(t[i] == s[i]);
        }
        lemma_trim_back_range(t, e);
        assert(t.subrange(0, e) =~= s.subrange(0, e));
    }
}

fn is_space_char(c: char) -> (r: bool)
    ensures
        r == is_space(c),
{
    c == ' ' || c == '\t' || c == '\n' || c == '\r'
}

/// The input without leading and trailing whitespace.
fn trim_spaces<'a>(s: &'a str) -> (r: &'a str)
    ensures
        r@ == spec_trim(s@),
{
    let len = s.unicode_len();
    let mut start: usize = 0;
    while start < len && is_space_char(s.get_char(start))
        invariant
            start <= len,
            len == s@.len(),
            forall|i: int| 0 <= i < start ==> is_space(#[trigger] s@[i]),
        decreases len - start,
    {
        start = start + 1;
    }
    let mut end: usize = len;
    while end > start && is_space_char(s.get_char(end - 1))
        invariant
            start <= end <= len,
            len == s@.len(),
            forall|i: int| end <= i < len ==> is_space(#[trigger] s@[i]),
        decreases end,
    {
        end = end - 1;
    }
    let r = s.substring_char(start, end);
    proof {
        lemma_trim_front_range(s@, start as int);
        let m = s@.subrange(start as int, len as int);
        assert forall|i: int| end - start <= i < m.len() implies is_space(#[trigger] m[i]) by {
            assert(m[i] == s@[i + start]);
        }
        assert(end - start == 0 || !is_space(m[end - start - 1])) by {
            if end > start {
                assert(m[end - start - 1] == s@[end - 1]);
            }
        }
        lemma_trim_back_range(m, end - start);
        assert(m.subrange(0, end - start) =~= s@.subrange(start as int, end as int));
    }
    r
}

/// A decimal digit, by its scalar value.
pub open spec fn is_digit(c: char) -> bool {
    48 <= c as int <= 57
}

pub open spec fn digit_val(c: char) -> int {
    c as int - 48
}

/// The value of a digit string, most significant digit first.
pub open spec fn digits_val(s: Seq<char>) -> int
    decreases s.len(),
{
    if s.len() == 0 {
        0
    } else {
        digits_val(s.drop_last()) * 10 + digit_val(s.last())
    }
}

/// The digits of an integer literal, the sign stripped.
pub open spec fn int_body(s: Seq<char>) -> Seq<char> {
    if s.len() > 0 && (s[0] == '+' || s[0] == '-') {
        s.drop_first()
    } else {
        s
    }
}

pub open spec fn int_sign(s: Seq<char>) -> int {
    if s.len() > 0 && s[0] == '-' {
        -1
    } else {
        1
    }
}

/// An optional sign followed by one or more decimal digits and nothing else.
pub open spec fn is_int_literal(s: Seq<char>) -> bool {
    &&& int_body(s).len() > 0
    &&& forall|i: int| 0 <= i < int_body(s).len() ==> is_digit(#[trigger] int_body(s)[i])
}

pub open spec fn int_value(s: Seq<char>) -> int {
    int_sign(s) * digits_val(int_body(s))
}

/// What parsing an i32 yields: the value for a well-formed in-range
/// literal, nothing otherwise.
pub open spec fn spec_parse_i32(s: Seq<char>) -> Option<i32> {
    if is_int_literal(s) && i32::MIN <= int_value(s) <= i32::MAX {
        Some(int_value(s) as i32)
    } else {
        None
    }
}

proof fn lemma_digits_val_nonneg(s: Seq<char>)
    requires
        forall|i: int| 0 <= i < s.len() ==> is_digit(#[trigger] s[i]),
    ensures
        digits_val(s) >= 0,
    decreases s.len(),
{
    if s.len() > 0 {
        let t = s.drop_last();
        assert forall|i: int| 0 <= i < t.len() implies is_digit(#[trigger] t[i]) by {
            assert(t[i] == s[i]);
        }
        lemma_digits_val_nonneg(t);
    }
}

/// A digit string is worth at least any of its prefixes.
proof fn lemma_digits_val_prefix_le(s: Seq<char>, k: int)
    requires
        0 <= k <= s.len(),
        forall|i: int| 0 <= i < s.len() ==> is_digit(#[trigger] s[i]),
    ensures
        digits_val(s.take(k)) <= digits_val(s),
    decreases s.len() - k,
{
    if k == s.len() {
        assert(s.take(k) =~= s);
    } else {
        assert(s.take(k + 1).drop_last() =~= s.take(k));
        assert(s.take(k + 1).last() == s[k]);
        assert forall|i: int| 0 <= i < s.take(k).len() implies is_digit(#[trigger] s.take(k)[i]) by {
            assert(s.take(k)[i] == s[i]);
        }
        lemma_digits_val_nonneg(s.take(k));
        assert(digits_val(s.take(k + 1)) == digits_val(s.take(k)) * 10 + digit_val(s[k]));
        lemma_digits_val_prefix_le(s, k + 1);
    }
}

/// Parse a signed 32-bit integer as the standard parser does.
fn parse_i32(s: &str) -> (r: Option<i32>)
    ensures
        r == spec_parse_i32(s@),
{
    let len = s.unicode_len();
    if len == 0 {
        return None;
    }
    let c0 = s.get_char(0);
    let neg = c0 == '-';
    let start: usize = if c0 == '-' || c0 == '+' {
        1
    } else {
        0
    };
    if start >= len {
        // a bare sign has no digits
        return None;
    }
    let ghost body = int_body(s@);
    proof {
        if start == 1 {
            assert(body =~= s@.subrange(1, len as int));
        } else {
            assert(body =~= s@);
        }
    }
    let mut acc: u64 = 0;
    let mut i = start;
    while i < len
        invariant
            start <= i <= len,
            len == s@.len(),
            body == int_body(s@),
            body.len() == len - start,
            forall|p: int| 0 <= p < body.len() ==> body[p] == s@[p + start],
            forall|p: int| 0 <= p < i - start ==> is_digit(#[trigger] body[p]),
            acc == digits_val(body.take(i - start)),
            acc <= 0x8000_0000,
        decreases len - i,
    {
        let c = s.get_char(i);
        let cu = c as u32;
        if cu < 48 || cu > 57 {
            // a non-digit: not an integer literal
            proof {
                assert(!is_digit(body[i - start]));
            }
            return None;
        }
        let d = (cu - 48) as u64;
        acc = acc * 10 + d;
        proof {
            assert(body.take(i - start + 1).drop_last() =~= body.take(i - start));
            assert(body.take(i - start + 1).last() == body[i - start]);
        }
        if acc > 0x8000_0000 {
            // every extension of this prefix is out of the i32 range
            proof {
                if is_int_literal(s@) {
                    lemma_digits_val_prefix_le(body, i - start + 1);
                    assert(digits_val(body) > 0x8000_0000);
                }
            }
            return None;
        }
        i = i + 1;
    }
    proof {
        assert(body.take(len - start) =~= body);
        assert(is_int_literal(s@));
    }
    if neg {
        if acc == 0x8000_0000 {
            Some(i32::MIN)
        } else {
            Some(-(acc as i32))
        }
    } else {
        if acc > 0x7fff_ffff {
            return None;
        }
        Some(acc as i32)
    }
}

/// A menu choice: the trimmed input as an i32, or 0 when it is not a
/// well-formed number.
pub fn parse_choice(s: &str) -> (r: i32)
    ensures
        r == (match spec_parse_i32(spec_trim(s@)) {
            Some(v) => v,
            None => 0,
        }),
{
    let t = trim_spaces(s);
    match parse_i32(t) {
        Some(v) => v,
        None => 0,
    }
}

/// A bounded count read from the input: the trimmed input as an i32 (0 when
/// malformed), and -1 when the value is negative or above the limit; a
/// negative limit means no limit.
pub fn parse_positive_integer(s: &str, upper_limit: i32) -> (r: i32)
    ensures
        ({
            let limit = if upper_limit < 0 {
                i32::MAX
            } else {
                upper_limit
            };
            let n = (match spec_parse_i32(spec_trim(s@)) {
                Some(v) => v as int,
                None => 0,
            });
            r == if n < 0 || n > limit {
                -1int
            } else {
                n
            }
        }),
{
    let limit = if upper_limit < 0 {
        i32::MAX
    } else {
        upper_limit
    };
    let t = trim_spaces(s);
    let number = match parse_i32(t) {
        Some(v) => v,
        None => 0,
    };
    if number < 0 || number > limit {
        -1
    } else {
        number
    }
}

} // verus!
