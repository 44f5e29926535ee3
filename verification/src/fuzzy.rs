//! Telling a typing error from a name that merely looks like another one.
use crate::distance;
use crate::distance::nearest_name;
use crate::findings::Confidence;
use crate::text;
use crate::text::{char_is_lower, char_is_upper, chars_of, has_prefix, has_suffix, same_text, to_lower};
use vstd::prelude::*;

verus! {

/// A text of one or more decimal digits.
pub open spec fn all_digits(s: Seq<char>) -> bool {
    s.len() > 0 && forall|i: int| 0 <= i < s.len() ==> '0' <= #[trigger] s[i] <= '9'
}

/// The suggestion is the beginning of the name, and what follows it is a number or at least
/// two characters: a longer name of its own.
pub open spec fn has_deliberate_suffix(head: Seq<char>, suggestion: Seq<char>) -> bool {
    let h = text::lowercase(head);
    let p = text::lowercase(suggestion);
    &&& p.len() > 0
    &&& h != p
    &&& text::starts_with(h, p)
    &&& {
        let rest = h.subrange(p.len() as int, h.len() as int);
        all_digits(rest) || rest.len() >= 2
    }
}

/// The suggestion is the end of the name, and what precedes it is a number, at least two
/// characters, or one small letter before a capital one: a longer name of its own.
pub open spec fn has_deliberate_prefix(head: Seq<char>, suggestion: Seq<char>) -> bool {
    let h = text::lowercase(head);
    let s = text::lowercase(suggestion);
    &&& s.len() > 0
    &&& h != s
    &&& text::ends_with(h, s)
    &&& suggestion.len() <= head.len()
    &&& {
        let prefix = head.take(head.len() - suggestion.len());
        ||| all_digits(prefix)
        ||| prefix.len() >= 2
        ||| (prefix.len() > 0 && text::is_lower(prefix[0]) && head.len() > 1 && text::is_upper(head[1]))
    }
}

/// How surely a name is a typing error for a suggestion at a distance; `None` where it is
/// not taken for one. Equal names are no error, nor are longer names of their own.
pub open spec fn likeness(head: Seq<char>, suggestion: Seq<char>, d: nat) -> Option<Confidence> {
    if d == 0 || has_deliberate_suffix(head, suggestion) || has_deliberate_prefix(head, suggestion) {
        None
    } else if (head.len() >= 5 && d <= 2) || (head.len() < 5 && d <= 1) {
        Some(Confidence::High)
    } else if head.len() >= 6 && d <= 3 {
        Some(Confidence::Low)
    } else {
        None
    }
}

/// The name, among several, that a name is a typing error for.
pub open spec fn typo_of(head: Seq<char>, names: Seq<Seq<char>>) -> Option<(Seq<char>, Confidence)> {
    match distance::nearest(head, names) {
        Some((s, d)) => match likeness(head, s, d) {
            Some(c) => Some((s, c)),
            None => None,
        },
        None => None,
    }
}

fn are_all_digits(chars: &Vec<char>, from: usize, to: usize) -> (r: bool)
    requires
        from <= to <= chars.len(),
    ensures
        r == all_digits(chars@.subrange(from as int, to as int)),
{
    let ghost part = chars@.subrange(from as int, to as int);
    if from == to {
        return false;
    }
    let mut i = from;
    while i < to
        invariant
            from <= i <= to <= chars.len(),
            part == chars@.subrange(from as int, to as int),
            forall|k: int| 0 <= k < i - from ==> '0' <= #[trigger] part[k] <= '9',
        decreases to - i,
    {
        if !('0' <= chars[i] && chars[i] <= '9') {
            assert(part[i - from] == chars[i as int]);
            return false;
        }
        i += 1;
    }
    true
}

/// What follows `prefix` in `head`, whatever the letter case, where it is a true beginning.
fn strip_prefix_ci(head: &str, prefix: &str) -> (r: Option<Vec<char>>)
    ensures
        ({
            let h = text::lowercase(head@);
            let p = text::lowercase(prefix@);
            match r {
                Some(rest) => p.len() > 0 && h != p && text::starts_with(h, p) && rest@ == h.subrange(
                    p.len() as int,
                    h.len() as int,
                ),
                None => !(p.len() > 0 && h != p && text::starts_with(h, p)),
            }
        }),
{
    let head_lc = to_lower(head);
    let prefix_lc = to_lower(prefix);
    if prefix_lc.as_str().is_empty() || same_text(head_lc.as_str(), prefix_lc.as_str()) {
        return None;
    }
    if !has_prefix(head_lc.as_str(), prefix_lc.as_str()) {
        return None;
    }
    let chars = chars_of(head_lc.as_str());
    let n = prefix_lc.as_str().unicode_len();
    let rest = vstd::slice::slice_subrange(chars.as_slice(), n, chars.len());
    Some(vstd::slice::slice_to_vec(rest))
}

/// What precedes `suffix` in `head`, in its own letter case, where it is a true end.
fn strip_suffix_ci(head: &str, suffix: &str) -> (r: Option<Vec<char>>)
    ensures
        ({
            let h = text::lowercase(head@);
            let s = text::lowercase(suffix@);
            let ends = s.len() > 0 && h != s && text::ends_with(h, s) && suffix@.len() <= head@.len();
            match r {
                Some(prefix) => ends && prefix@ == head@.take(head@.len() - suffix@.len()),
                None => !ends,
            }
        }),
{
    let head_lc = to_lower(head);
    let suffix_lc = to_lower(suffix);
    if suffix_lc.as_str().is_empty() || same_text(head_lc.as_str(), suffix_lc.as_str()) {
        return None;
    }
    if !has_suffix(head_lc.as_str(), suffix_lc.as_str()) {
        return None;
    }
    let chars = chars_of(head);
    let n = suffix.unicode_len();
    if n > chars.len() {
        return None;
    }
    let prefix = vstd::slice::slice_subrange(chars.as_slice(), 0, chars.len() - n);
    assert(head@.subrange(0, head@.len() - n) =~= head@.take(head@.len() - n));
    Some(vstd::slice::slice_to_vec(prefix))
}

/// How surely a name is a typing error for a suggestion at a distance.
pub fn fuzzy_confidence_for(head: &str, suggestion: &str, distance: usize) -> (r: Option<Confidence>)
    ensures
        r == likeness(head@, suggestion@, distance as nat),
{
    if distance == 0 {
        return None;
    }
    if let Some(rest) = strip_prefix_ci(head, suggestion) {
        assert(rest@.subrange(0, rest.len() as int) =~= rest@);
        if rest.len() >= 2 || are_all_digits(&rest, 0, rest.len()) {
            return None;
        }
    }
    let chars = chars_of(head);
    if let Some(prefix) = strip_suffix_ci(head, suggestion) {
        assert(prefix@.subrange(0, prefix.len() as int) =~= prefix@);
        if prefix.len() >= 2 || are_all_digits(&prefix, 0, prefix.len()) {
            return None;
        }
        let starts_lowercase = prefix.len() > 0 && char_is_lower(prefix[0]);
        let next_is_uppercase = chars.len() > 1 && char_is_upper(chars[1]);
        if starts_lowercase && next_is_uppercase {
            return None;
        }
    }
    let len = chars.len();
    let strong = (len >= 5 && distance <= 2) || (len < 5 && distance <= 1);
    let weak = len >= 6 && distance <= 3;
    if strong {
        Some(Confidence::High)
    } else if weak {
        Some(Confidence::Low)
    } else {
        None
    }
}

/// The name, among several, that a name is a typing error for.
pub fn find_typo(head: &str, names: &Vec<String>) -> (r: Option<(String, Confidence)>)
    ensures
        match r {
            Some((s, c)) => typo_of(head@, text::texts(names@)) == Some((s@, c)),
            None => typo_of(head@, text::texts(names@)) is None,
        },
{
    match nearest_name(head, names) {
        Some((s, d)) => match fuzzy_confidence_for(head, s.as_str(), d) {
            Some(c) => Some((s, c)),
            None => None,
        },
        None => None,
    }
}

/// A name at most three changes away is the only one that is ever suggested, and never the
/// name itself.
pub proof fn law_typo_is_near(head: Seq<char>, names: Seq<Seq<char>>)
    ensures
        typo_of(head, names) matches Some((s, _)) ==> names.contains(s) && 0 < distance::distance(
            text::lowercase(head),
            text::lowercase(s),
        ) <= 3 && text::lowercase(head) != text::lowercase(s),
{
    distance::law_nearest_is_nearest(head, names);
    if let Some((s, d)) = distance::nearest(head, names) {
        distance::law_distance_zero(text::lowercase(head), text::lowercase(s));
    }
}

/// A name that some name of the list is, whatever the letter case, is no typing error for any.
pub proof fn law_known_name_is_no_typo(head: Seq<char>, names: Seq<Seq<char>>, i: int)
    requires
        0 <= i < names.len(),
        text::lowercase(names[i]) == text::lowercase(head),
    ensures
        typo_of(head, names) is None,
{
    distance::law_nearest_is_nearest(head, names);
    distance::law_distance_zero(text::lowercase(head), text::lowercase(names[i]));
}

/// A name that goes on behind another one by two characters or more, or by digits, was meant so,
/// and is no typing error for it, however near it is.
pub proof fn law_longer_name_is_no_typo(head: Seq<char>, suggestion: Seq<char>, rest: Seq<char>, d: nat)
    requires
        text::lowercase(suggestion).len() > 0,
        text::lowercase(head) == text::lowercase(suggestion) + rest,
        rest.len() >= 2 || (rest.len() == 1 && '0' <= rest[0] <= '9'),
    ensures
        likeness(head, suggestion, d) is None,
{
    let h = text::lowercase(head);
    let p = text::lowercase(suggestion);
    assert(h.len() == p.len() + rest.len());
    assert(h.subrange(p.len() as int, h.len() as int) =~= rest);
    assert(h.subrange(0, p.len() as int) =~= p);
    assert(text::starts_with(h, p));
    assert(h != p);
}

/// A name that another one ends, with two characters or more before it, was meant so too.
pub proof fn law_prefixed_name_is_no_typo(head: Seq<char>, suggestion: Seq<char>, start: Seq<char>, d: nat)
    requires
        text::lowercase(suggestion).len() > 0,
        text::lowercase(head) == start + text::lowercase(suggestion),
        start.len() > 0,
        head.len() >= suggestion.len() + 2 || (head.len() == suggestion.len() + 1 && '0' <= head[0]
            <= '9'),
    ensures
        likeness(head, suggestion, d) is None,
{
    let h = text::lowercase(head);
    let s = text::lowercase(suggestion);
    assert(h.len() == start.len() + s.len());
    assert(h.subrange(h.len() - s.len(), h.len() as int) =~= s);
    assert(text::ends_with(h, s));
    assert(h != s);
    let prefix = head.take(head.len() - suggestion.len());
    assert(prefix.len() == head.len() - suggestion.len());
    if prefix.len() == 1 {
        assert(prefix[0] == head[0]);
        assert(all_digits(prefix));
    }
}

/// How near a name has to be. A name of which the other is neither a beginning nor an end is
/// surely meant where one change leads to it, or two where it has five characters or more; it may
/// be meant where three do and it has six or more; it is not where more are needed.
pub proof fn law_nearness_needed(head: Seq<char>, suggestion: Seq<char>, d: nat)
    requires
        !text::starts_with(text::lowercase(head), text::lowercase(suggestion)),
        !text::ends_with(text::lowercase(head), text::lowercase(suggestion)),
    ensures
        d == 1 ==> likeness(head, suggestion, d) == Some(Confidence::High),
        d == 2 && head.len() >= 5 ==> likeness(head, suggestion, d) == Some(Confidence::High),
        d == 2 && head.len() < 5 ==> likeness(head, suggestion, d) is None,
        d == 3 && head.len() >= 6 ==> likeness(head, suggestion, d) == Some(Confidence::Low),
        d == 3 && head.len() < 6 ==> likeness(head, suggestion, d) is None,
        d == 0 || d > 3 ==> likeness(head, suggestion, d) is None,
{
}

/// Of the names of a list the nearest one is suggested, or none: a name that is farther than
/// another one never is.
pub proof fn law_typo_is_the_nearest(head: Seq<char>, names: Seq<Seq<char>>, i: int)
    requires
        0 <= i < names.len(),
    ensures
        typo_of(head, names) matches Some((s, _)) ==> distance::distance(
            text::lowercase(head),
            text::lowercase(s),
        ) <= distance::distance(text::lowercase(head), text::lowercase(names[i])),
        distance::distance(text::lowercase(head), text::lowercase(names[i])) == 1
            && !text::starts_with(text::lowercase(head), text::lowercase(names[i])) && !text::ends_with(
            text::lowercase(head),
            text::lowercase(names[i]),
        ) && (forall|k: int|
            0 <= k < names.len() && k != i ==> distance::distance(
                text::lowercase(head),
                text::lowercase(#[trigger] names[k]),
            ) > 1) ==> typo_of(head, names) == Some((names[i], Confidence::High)),
{
    distance::law_nearest_is_nearest(head, names);
}

} // verus!
