//! Asking the user to confirm an action before it is carried out.

use vstd::prelude::*;
use super::model::Action;
use crate::text::{append_str, chars_of, trim, trimmed_range};

verus! {

/// `std::fmt::Error`, the error of a formatting write; writing to a
/// `String` never produces it.
#[verifier::external_type_specification]
#[verifier::external_body]
pub struct ExFmtError(std::fmt::Error);

/// Only a removal, which cannot be undone, asks for confirmation.
pub fn needs_confirmation(action: &Action) -> (r: bool)
    ensures
        r == (*action is Remove),
{
    matches!(action, Action::Remove)
}

/// The confirmation prompt for `action` on `link`, with its line ending;
/// nothing for a skip.
pub open spec fn confirmation_text(link: Seq<char>, action: Action) -> Seq<char> {
    match action {
        Action::Remove => "  remove "@ + link + "? this cannot be undone. [y/N]\n"@,
        Action::Relink(target) => "  relink "@ + link + " -> "@ + target@ + "? [y/N]\n"@,
        Action::Skip => Seq::empty(),
    }
}

/// Writes the confirmation prompt for `action` on `link` at the end of `w`.
pub fn format_confirmation(w: &mut String, link: &str, action: &Action) -> (r: Result<(), std::fmt::Error>)
    ensures
        r is Ok,
        final(w)@ == old(w)@ + confirmation_text(link@, *action),
{
    match action {
        Action::Remove => {
            append_str(w, "  remove ");
            append_str(w, link);
            append_str(w, "? this cannot be undone. [y/N]\n");
        },
        Action::Relink(target) => {
            append_str(w, "  relink ");
            append_str(w, link);
            append_str(w, " -> ");
            append_str(w, target.as_str());
            append_str(w, "? [y/N]\n");
        },
        Action::Skip => {
            assert(old(w)@ + Seq::<char>::empty() =~= old(w)@);
        },
    }
    Ok(())
}

/// `c` in lower case where it is an ASCII capital, unchanged otherwise.
pub open spec fn ascii_lower(c: char) -> char {
    if 'A' <= c && c <= 'Z' {
        ((c as u32) + 32) as char
    } else {
        c
    }
}

/// The answer is a yes: once trimmed and in ASCII lower case it is `y` or `yes`.
pub open spec fn is_yes(input: Seq<char>) -> bool {
    let t = trim(input).map_values(|c: char| ascii_lower(c));
    t == seq!['y'] || t == seq!['y', 'e', 's']
}

fn lower(c: char) -> (r: char)
    ensures
        r == ascii_lower(c),
{
    if 'A' <= c && c <= 'Z' {
        ((c as u8) + 32) as char
    } else {
        c
    }
}

/// Whether the answer to a confirmation prompt is a yes; anything else,
/// the empty answer included, is a no.
pub fn parse_confirmation(input: &str) -> (r: bool)
    ensures
        r == is_yes(input@),
{
    let cs = chars_of(input);
    let (lo, hi) = trimmed_range(&cs);
    let ghost s = cs@;
    let len = hi - lo;
    let ghost t = s.subrange(lo as int, hi as int).map_values(|c: char| ascii_lower(c));
    if len == 1 {
        let r = lower(cs[lo]) == 'y';
        proof {
            if r {
                assert(t =~= seq!['y']);
            } else {
                assert(t[0] != 'y');
            }
        }
        r
    } else if len == 3 {
        let r = lower(cs[lo]) == 'y' && lower(cs[lo + 1]) == 'e' && lower(cs[lo + 2]) == 's';
        proof {
            if r {
                assert(t =~= seq!['y', 'e', 's']);
            } else {
                assert(t[0] != 'y' || t[1] != 'e' || t[2] != 's');
            }
        }
        r
    } else {
        false
    }
}

/// `c` is the letter `lower` in either case: `upper` is its capital.
pub open spec fn either_case(c: char, lower: char, upper: char) -> bool {
    c == lower || c == upper
}

/// An answer is a yes exactly when, once trimmed, it is `y` or `yes` with
/// each letter in lower or upper case; any other answer, `n` and `N` among
/// them, is a no.
pub proof fn lemma_yes_by_letters(input: Seq<char>)
    ensures
        is_yes(input) <==> {
            let t = trim(input);
            ||| (t.len() == 1 && either_case(t[0], 'y', 'Y'))
            ||| (t.len() == 3 && either_case(t[0], 'y', 'Y') && either_case(t[1], 'e', 'E')
                && either_case(t[2], 's', 'S'))
        },
{
    let t = trim(input);
    let l = t.map_values(|c: char| ascii_lower(c));
    assert(is_yes(input) == (l == seq!['y'] || l == seq!['y', 'e', 's']));
    if t.len() == 1 {
        lemma_lower_is(t[0], 'y', 'Y');
        if either_case(t[0], 'y', 'Y') {
            assert(l =~= seq!['y']);
        } else {
            assert(l[0] != 'y');
            assert(l != seq!['y']);
        }
        assert(l != seq!['y', 'e', 's']);
    } else if t.len() == 3 {
        lemma_lower_is(t[0], 'y', 'Y');
        lemma_lower_is(t[1], 'e', 'E');
        lemma_lower_is(t[2], 's', 'S');
        if either_case(t[0], 'y', 'Y') && either_case(t[1], 'e', 'E') && either_case(t[2], 's', 'S') {
            assert(l =~= seq!['y', 'e', 's']);
        } else {
            assert(l[0] != 'y' || l[1] != 'e' || l[2] != 's');
            assert(l != seq!['y', 'e', 's']);
        }
        assert(l != seq!['y']);
    } else {
        assert(l.len() == t.len());
        assert(l.len() != seq!['y'].len());
        assert(l.len() != seq!['y', 'e', 's'].len());
    }
}

/// The lower-case letters that the confirmation answers are made of come
/// only from themselves and from their own capitals.
proof fn lemma_lower_is(c: char, lower: char, upper: char)
    requires
        (lower == 'y' && upper == 'Y') || (lower == 'e' && upper == 'E') || (lower == 's' && upper
            == 'S'),
    ensures
        ascii_lower(c) == lower <==> either_case(c, lower, upper),
{
}

/// A capital letter and its lower-case letter are 32 code points apart; no
/// other character is changed.
pub proof fn lemma_ascii_lower_codes(c: char)
    ensures
        ('A' <= c && c <= 'Z') ==> ascii_lower(c) as u32 == c as u32 + 32 && 'a' <= ascii_lower(c)
            && ascii_lower(c) <= 'z',
        !('A' <= c && c <= 'Z') ==> ascii_lower(c) == c,
{
}

/// The action to carry out once the user answered the confirmation prompt
/// for `action` with `answer`: the action itself on a yes, and on any other
/// answer (the default is no) a skip.
pub fn confirmed(action: Action, answer: &str) -> (r: Action)
    ensures
        r == if is_yes(answer@) { action } else { Action::Skip },
{
    if parse_confirmation(answer) {
        action
    } else {
        Action::Skip
    }
}

} // verus!
