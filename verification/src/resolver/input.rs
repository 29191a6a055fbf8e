//! Understanding the answer to the repair prompt: a candidate's number,
//! `c` for a custom path, `s` to skip, `r` to remove.

use vstd::prelude::*;
use crate::text::{
    chars_of, trim, trim_start, trim_end, trimmed_range, is_white_space, spec_decimal,
    lemma_decimal_reads_back,
};
pub use crate::text::digits_value;

verus! {

/// An answer to the repair prompt, once understood.
#[derive(Debug, PartialEq, Eq)]
pub enum ParsedInput {
    /// The candidate at this position (counted from zero).
    SelectCandidate(usize),
    Skip,
    Remove,
    /// The user wants to type a path of their own.
    CustomPath,
}

/// Why an answer could not be understood.
#[derive(Debug, PartialEq, Eq)]
pub enum ParseError {
    /// Nothing but white space was typed.
    Empty,
    /// A number that names no offered candidate.
    OutOfRange,
    /// Neither a number nor one of the command letters.
    Unrecognized,
}

/// An ASCII decimal digit.
pub open spec fn is_digit(c: char) -> bool {
    '0' <= c && c <= '9'
}

/// What an answer means once white space around it is trimmed: `s`, `r` and
/// `c` are the commands to skip, remove and give a custom path; a run of
/// digits is the number of a candidate, counted from one; nothing is an
/// empty answer; anything else is not understood.
pub open spec fn spec_parse_choice(input: Seq<char>, candidate_count: nat) -> Result<ParsedInput, ParseError> {
    let t = trim(input);
    if t.len() == 0 {
        Err(ParseError::Empty)
    } else if t == seq!['s'] {
        Ok(ParsedInput::Skip)
    } else if t == seq!['r'] {
        Ok(ParsedInput::Remove)
    } else if t == seq!['c'] {
        Ok(ParsedInput::CustomPath)
    } else if forall|k: int| 0 <= k < t.len() ==> is_digit(#[trigger] t[k]) {
        let v = digits_value(t);
        if 1 <= v <= candidate_count {
            Ok(ParsedInput::SelectCandidate((v - 1) as usize))
        } else {
            Err(ParseError::OutOfRange)
        }
    } else {
        Err(ParseError::Unrecognized)
    }
}

proof fn lemma_digits_value_grows(s: Seq<char>, i: int)
    requires
        0 <= i <= s.len(),
        forall|k: int| 0 <= k < s.len() ==> is_digit(#[trigger] s[k]),
    ensures
        digits_value(s.take(i)) <= digits_value(s),
    decreases s.len() - i,
{
    if i < s.len() {
        let t = s.drop_last();
        assert forall|k: int| 0 <= k < t.len() implies is_digit(#[trigger] t[k]) by {
            assert(t[k] == s[k]);
        }
        assert(s.take(i) =~= t.take(i));
        lemma_digits_value_grows(t, i);
    } else {
        assert(s.take(i) =~= s);
    }
}

/// The meaning of an answer to the repair prompt when `candidate_count`
/// candidates are offered.
pub fn parse_choice(input: &str, candidate_count: usize) -> (r: Result<ParsedInput, ParseError>)
    ensures
        r == spec_parse_choice(input@, candidate_count as nat),
{
    let cs = chars_of(input);
    let (lo, hi) = trimmed_range(&cs);
    let ghost t = cs@.subrange(lo as int, hi as int);
    assert(trim(input@) == t);
    if lo == hi {
        return Err(ParseError::Empty);
    }
    if hi - lo == 1 {
        let c = cs[lo];
        if c == 's' {
            assert(t =~= seq!['s']);
            return Ok(ParsedInput::Skip);
        }
        assert(t[0] == c);
        if c == 'r' {
            assert(t =~= seq!['r']);
            assert(t != seq!['s']) by { assert(seq!['s'][0] == 's'); }
            return Ok(ParsedInput::Remove);
        }
        if c == 'c' {
            assert(t =~= seq!['c']);
            assert(t != seq!['s']) by { assert(seq!['s'][0] == 's'); }
            assert(t != seq!['r']) by { assert(seq!['r'][0] == 'r'); }
            return Ok(ParsedInput::CustomPath);
        }
    }
    proof {
        assert(t != seq!['s'] && t != seq!['r'] && t != seq!['c']) by {
            if t.len() == 1 {
                assert(t[0] == cs@[lo as int]);
                assert(seq!['s'][0] == 's');
                assert(seq!['r'][0] == 'r');
                assert(seq!['c'][0] == 'c');
            }
        }
    }
    let mut value: usize = 0;
    let mut i: usize = lo;
    let mut too_big = false;
    while i < hi
        invariant
            lo <= i <= hi <= cs@.len(),
            t == cs@.subrange(lo as int, hi as int),
            t.len() > 0,
            trim(input@) == t,
            t != seq!['s'] && t != seq!['r'] && t != seq!['c'],
            forall|k: int| lo <= k < i ==> is_digit(#[trigger] cs@[k]),
            !too_big ==> value == digits_value(t.take(i - lo)),
            !too_big ==> value <= candidate_count,
            too_big ==> digits_value(t.take(i - lo)) > candidate_count,
        decreases hi - i,
    {
        let c = cs[i];
        if !('0' <= c && c <= '9') {
            proof {
                assert(t[i - lo] == c);
                assert(!is_digit(t[i - lo]));
            }
            return Err(ParseError::Unrecognized);
        }
        proof {
            let p = t.take(i + 1 - lo);
            assert(p.drop_last() =~= t.take(i - lo));
            assert(p.last() == c);
        }
        if !too_big {
            let d = ((c as u32) - ('0' as u32)) as usize;
            if value > candidate_count / 10 {
                too_big = true;
                assert(value * 10 + d > candidate_count) by (nonlinear_arith)
                    requires
                        value > candidate_count / 10,
                ;
            } else {
                assert(value * 10 <= candidate_count) by (nonlinear_arith)
                    requires
                        value <= candidate_count / 10,
                ;
                if d > candidate_count - value * 10 {
                    too_big = true;
                } else {
                    value = value * 10 + d;
                }
            }
        } else {
            proof {
                let p = t.take(i + 1 - lo);
                assert(digits_value(p) >= digits_value(t.take(i - lo)));
            }
        }
        i = i + 1;
    }
    proof {
        assert(t.take(hi - lo) =~= t);
        assert forall|k: int| 0 <= k < t.len() implies is_digit(#[trigger] t[k]) by {
            assert(t[k] == cs@[lo + k]);
        }
    }
    if too_big || value == 0 {
        return Err(ParseError::OutOfRange);
    }
    Ok(ParsedInput::SelectCandidate(value - 1))
}

/// A candidate's number written in decimal, with white space around it or
/// not, is read back as that candidate: `n` (from one up to the number of
/// candidates) selects the candidate at position `n - 1`.
pub proof fn lemma_decimal_selects_candidate(n: nat, candidate_count: nat, before: Seq<char>, after: Seq<char>)
    requires
        1 <= n <= candidate_count,
        n <= usize::MAX,
        forall|k: int| 0 <= k < before.len() ==> is_white_space(#[trigger] before[k]),
        forall|k: int| 0 <= k < after.len() ==> is_white_space(#[trigger] after[k]),
    ensures
        spec_parse_choice(before + spec_decimal(n) + after, candidate_count) == Ok::<
            ParsedInput,
            ParseError,
        >(ParsedInput::SelectCandidate((n - 1) as usize)),
{
    let d = spec_decimal(n);
    lemma_decimal_reads_back(n);
    assert forall|k: int| 0 <= k < d.len() implies !is_white_space(#[trigger] d[k]) by {
        assert('0' <= d[k] && d[k] <= '9');
    }
    lemma_trim_around(before, d, after);
    assert forall|k: int| 0 <= k < d.len() implies is_digit(#[trigger] d[k]) by {
        assert('0' <= d[k] && d[k] <= '9');
    }
    if d.len() == 1 {
        assert(d[0] != 's' && d[0] != 'r' && d[0] != 'c');
        assert(d != seq!['s']) by { assert(seq!['s'][0] == 's'); }
        assert(d != seq!['r']) by { assert(seq!['r'][0] == 'r'); }
        assert(d != seq!['c']) by { assert(seq!['c'][0] == 'c'); }
    } else {
        assert(d != seq!['s']) by { assert(seq!['s'].len() == 1); }
        assert(d != seq!['r']) by { assert(seq!['r'].len() == 1); }
        assert(d != seq!['c']) by { assert(seq!['c'].len() == 1); }
    }
}

/// Trimming white space from around a text that neither starts nor ends with
/// white space gives back that text.
proof fn lemma_trim_around(before: Seq<char>, mid: Seq<char>, after: Seq<char>)
    requires
        mid.len() >= 1,
        forall|k: int| 0 <= k < before.len() ==> is_white_space(#[trigger] before[k]),
        forall|k: int| 0 <= k < after.len() ==> is_white_space(#[trigger] after[k]),
        !is_white_space(mid[0]),
        !is_white_space(mid.last()),
    ensures
        trim(before + mid + after) == mid,
    decreases before.len() + after.len(),
{
    let s = before + mid + after;
    if before.len() > 0 {
        assert(s.drop_first() =~= before.drop_first() + mid + after);
        assert(is_white_space(s[0])) by { assert(s[0] == before[0]); }
        assert forall|k: int| 0 <= k < before.drop_first().len() implies is_white_space(
            #[trigger] before.drop_first()[k],
        ) by {
            assert(before.drop_first()[k] == before[k + 1]);
        }
        lemma_trim_around(before.drop_first(), mid, after);
        assert(trim_start(s) == trim_start(s.drop_first()));
    } else if after.len() > 0 {
        assert(s =~= mid + after);
        assert(trim_start(s) == s) by { assert(s[0] == mid[0]); }
        lemma_trim_end_around(mid, after);
    } else {
        assert(s =~= mid);
        assert(trim_start(s) == s);
        assert(trim_end(s) == s);
    }
}

/// Trimming white space from the end of a text followed by white space
/// gives back that text where it does not end in white space.
proof fn lemma_trim_end_around(mid: Seq<char>, after: Seq<char>)
    requires
        mid.len() >= 1,
        forall|k: int| 0 <= k < after.len() ==> is_white_space(#[trigger] after[k]),
        !is_white_space(mid.last()),
    ensures
        trim_end(mid + after) == mid,
    decreases after.len(),
{
    let s = mid + after;
    if after.len() > 0 {
        assert(s.drop_last() =~= mid + after.drop_last());
        assert(s.last() == after.last());
        assert(is_white_space(after[after.len() - 1]));
        assert forall|k: int| 0 <= k < after.drop_last().len() implies is_white_space(
            #[trigger] after.drop_last()[k],
        ) by {
            assert(after.drop_last()[k] == after[k]);
        }
        lemma_trim_end_around(mid, after.drop_last());
    } else {
        assert(s =~= mid);
    }
}

} // verus!
