//! Validation of the column argument: a string of the form
//! `"<source_col>,<target_col>"`, two comma-separated decimal integers.

use vstd::prelude::*;

verus! {

/// Whether `c` is a decimal digit.
pub open spec fn is_digit(c: char) -> bool {
    ('0' as u32) <= (c as u32) && (c as u32) <= ('9' as u32)
}

/// The value of the decimal digit `c`.
pub open spec fn digit_val(c: char) -> nat {
    ((c as u32) - ('0' as u32)) as nat
}

/// The value of the decimal numeral `s`.
pub open spec fn digits_val(s: Seq<char>) -> nat
    decreases s.len(),
{
    if s.len() == 0 {
        0
    } else {
        digits_val(s.drop_last()) * 10 + digit_val(s.last())
    }
}

/// Whether every character of `s` is a decimal digit.
pub open spec fn all_digits(s: Seq<char>) -> bool {
    forall|k: int| 0 <= k < s.len() ==> is_digit(#[trigger] s[k])
}

/// Whether `s` is a non-empty decimal numeral whose value fits in `usize`.
pub open spec fn parses_to_usize(s: Seq<char>) -> bool {
    &&& s.len() > 0
    &&& all_digits(s)
    &&& digits_val(s) <= usize::MAX
}

/// The value of a numeral is at least the value of any of its prefixes.
proof fn lemma_digits_val_prefix_le(s: Seq<char>, k: int)
    requires
        0 <= k <= s.len(),
    ensures
        digits_val(s.subrange(0, k)) <= digits_val(s),
    decreases s.len() - k,
{
    if k == s.len() {
        assert(s.subrange(0, k) =~= s);
    } else {
        assert(s.subrange(0, k + 1).drop_last() =~= s.subrange(0, k));
        assert(s.subrange(0, k + 1).last() == s[k]);
        lemma_digits_val_prefix_le(s, k + 1);
    }
}

/// Parses `s` as a non-negative decimal integer; returns `None` when `s` is
/// empty, holds a non-digit, or its value does not fit in `usize`.
pub fn parse_usize(s: &str) -> (r: Option<usize>)
    ensures
        r is Some <==> parses_to_usize(s@),
        r matches Some(v) ==> v as nat == digits_val(s@),
{
    let len = s.unicode_len();
    if len == 0 {
        return None;
    }
    let mut acc: usize = 0;
    let mut i: usize = 0;
    while i < len
        invariant
            i <= len,
            len == s@.len(),
            all_digits(s@.subrange(0, i as int)),
            acc as nat == digits_val(s@.subrange(0, i as int)),
        decreases len - i,
    {
        let c = s.get_char(i);
        let cu = c as u32;
        if cu < 48 || cu > 57 {
            return None;
        }
        let d = (cu - 48) as usize;
        let ghost prev = s@.subrange(0, i as int);
        proof {
            assert(s@.subrange(0, i as int + 1).drop_last() =~= prev);
            assert(s@.subrange(0, i as int + 1).last() == s@[i as int]);
        }
        let shifted = match acc.checked_mul(10) {
            Some(x) => x,
            None => {
                proof {
                    lemma_digits_val_prefix_le(s@, i as int + 1);
                }
                return None;
            },
        };
        acc = match shifted.checked_add(d) {
            Some(x) => x,
            None => {
                proof {
                    lemma_digits_val_prefix_le(s@, i as int + 1);
                }
                return None;
            },
        };
        i = i + 1;
    }
    proof {
        assert(s@.subrange(0, len as int) =~= s@);
    }
    Some(acc)
}

/// The index of the first comma in `s`, or the length of `s` when it holds
/// none.
pub open spec fn first_comma(s: Seq<char>) -> int
    decreases s.len(),
{
    if s.len() == 0 {
        0
    } else if s[0] == ',' {
        0
    } else {
        1 + first_comma(s.drop_first())
    }
}

/// `first_comma` points at a comma preceded by none, or past the end of a
/// sequence without one.
pub proof fn lemma_first_comma_props(s: Seq<char>)
    ensures
        0 <= first_comma(s) <= s.len(),
        first_comma(s) < s.len() ==> s[first_comma(s)] == ',',
        forall|k: int| 0 <= k < first_comma(s) ==> s[k] != ',',
    decreases s.len(),
{
    if s.len() > 0 && s[0] != ',' {
        lemma_first_comma_props(s.drop_first());
        assert forall|k: int| 0 <= k < first_comma(s) implies s[k] != ',' by {
            if k > 0 {
                assert(s.drop_first()[k - 1] != ',');
            }
        }
    }
}

/// `first_comma` is determined by any position known to hold the first
/// comma, and is the length when no position holds one.
proof fn lemma_first_comma_at(s: Seq<char>, j: int)
    requires
        0 <= j <= s.len(),
        forall|k: int| 0 <= k < j ==> s[k] != ',',
        j < s.len() ==> s[j] == ',',
    ensures
        j < s.len() ==> first_comma(s) == j,
        j == s.len() ==> first_comma(s) == s.len(),
    decreases j,
{
    if s.len() == 0 {
    } else if j == 0 {
    } else {
        assert forall|k: int| 0 <= k < j - 1 implies s.drop_first()[k] != ',' by {
            assert(s[k + 1] != ',');
        }
        lemma_first_comma_at(s.drop_first(), j - 1);
    }
}

/// Whether `s` is a well-formed column argument: exactly two comma-separated
/// parts, each a decimal numeral that fits in `usize`.
pub open spec fn valid_cols_arg(s: Seq<char>) -> bool {
    let j = first_comma(s);
    &&& j < s.len()
    &&& first_comma(s.subrange(j + 1, s.len() as int)) == s.len() - j - 1
    &&& parses_to_usize(s.subrange(0, j))
    &&& parses_to_usize(s.subrange(j + 1, s.len() as int))
}

/// Splits the column argument `arg` at its comma and parses both parts;
/// returns `None` unless `arg` is exactly two comma-separated decimal
/// integers that fit in `usize`.
pub fn parse_cols(arg: &str) -> (r: Option<(usize, usize)>)
    ensures
        r is Some <==> valid_cols_arg(arg@),
        r matches Some(v) ==> {
            let j = first_comma(arg@);
            &&& v.0 as nat == digits_val(arg@.subrange(0, j))
            &&& v.1 as nat == digits_val(arg@.subrange(j + 1, arg@.len() as int))
        },
{
    let len = arg.unicode_len();
    let mut i: usize = 0;
    while i < len
        invariant
            i <= len,
            len == arg@.len(),
            forall|k: int| 0 <= k < i ==> arg@[k] != ',',
        ensures
            i <= len,
            forall|k: int| 0 <= k < i ==> arg@[k] != ',',
            i < len ==> arg@[i as int] == ',',
        decreases len - i,
    {
        if arg.get_char(i) == ',' {
            break ;
        }
        i = i + 1;
    }
    proof {
        lemma_first_comma_at(arg@, i as int);
        lemma_first_comma_props(arg@);
    }
    if i == len {
        return None;
    }
    let ghost j: int = first_comma(arg@);
    let ghost tail = arg@.subrange(j + 1, len as int);
    let mut k: usize = i + 1;
    while k < len
        invariant
            i < k <= len,
            len == arg@.len(),
            j == i as int,
            j == first_comma(arg@),
            tail == arg@.subrange(j + 1, len as int),
            forall|m: int| i < m < k ==> arg@[m] != ',',
        decreases len - k,
    {
        if arg.get_char(k) == ',' {
            proof {
                lemma_first_comma_props(tail);
                assert(tail[k - i - 1] == ',');
            }
            return None;
        }
        k = k + 1;
    }
    proof {
        assert forall|m: int| 0 <= m < tail.len() implies tail[m] != ',' by {
            assert(arg@[j + 1 + m] != ',');
        }
        lemma_first_comma_at(tail, tail.len() as int);
    }
    let source = parse_usize(arg.substring_char(0, i));
    let target = parse_usize(arg.substring_char(i + 1, len));
    match (source, target) {
        (Some(a), Some(b)) => Some((a, b)),
        _ => None,
    }
}

} // verus!
