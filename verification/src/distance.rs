//! How far two names are apart, and which of several names is the closest one.
use crate::text;
use crate::text::{chars_of, to_lower};
use vstd::prelude::*;

verus! {

pub open spec fn least(a: nat, b: nat) -> nat {
    if a <= b {
        a
    } else {
        b
    }
}

pub open spec fn greatest(a: nat, b: nat) -> nat {
    if a >= b {
        a
    } else {
        b
    }
}

/// The Levenshtein distance: how many characters have to be put in, taken out or replaced
/// to turn one text into the other.
pub open spec fn distance(a: Seq<char>, b: Seq<char>) -> nat
    decreases a.len() + b.len(),
{
    if a.len() == 0 {
        b.len()
    } else if b.len() == 0 {
        a.len()
    } else {
        let replaced = distance(a.drop_last(), b.drop_last()) + if a.last() == b.last() {
            0nat
        } else {
            1nat
        };
        least(
            least(distance(a, b.drop_last()) + 1, distance(a.drop_last(), b) + 1),
            replaced,
        )
    }
}

/// Two texts are at most as far apart as the longer one is long, and at least as far as
/// their lengths differ.
pub proof fn law_distance_bounds(a: Seq<char>, b: Seq<char>)
    ensures
        distance(a, b) <= greatest(a.len(), b.len()),
        a.len() <= b.len() + distance(a, b),
        b.len() <= a.len() + distance(a, b),
    decreases a.len() + b.len(),
{
    if a.len() > 0 && b.len() > 0 {
        law_distance_bounds(a, b.drop_last());
        law_distance_bounds(a.drop_last(), b);
        law_distance_bounds(a.drop_last(), b.drop_last());
    }
}

/// The distance does not depend on the order of the two texts.
pub proof fn law_distance_symmetric(a: Seq<char>, b: Seq<char>)
    ensures
        distance(a, b) == distance(b, a),
    decreases a.len() + b.len(),
{
    if a.len() > 0 && b.len() > 0 {
        law_distance_symmetric(a, b.drop_last());
        law_distance_symmetric(a.drop_last(), b);
        law_distance_symmetric(a.drop_last(), b.drop_last());
    }
}

/// Two texts are equal exactly where their distance is 0.
pub proof fn law_distance_zero(a: Seq<char>, b: Seq<char>)
    ensures
        distance(a, b) == 0 <==> a == b,
    decreases a.len() + b.len(),
{
    if a.len() > 0 && b.len() > 0 {
        law_distance_zero(a.drop_last(), b.drop_last());
        if distance(a, b) == 0 {
            assert(a == a.drop_last().push(a.last()));
            assert(b == b.drop_last().push(b.last()));
        }
    } else if a.len() == 0 && b.len() == 0 {
        assert(a =~= b);
    }
}

fn min_of(a: u128, b: u128) -> (r: u128)
    ensures
        r == least(a as nat, b as nat),
{
    if a <= b {
        a
    } else {
        b
    }
}

/// The Levenshtein distance of two texts.
pub fn lev(a: &str, b: &str) -> (r: usize)
    ensures
        r == distance(a@, b@),
{
    let av = chars_of(a);
    let bv = chars_of(b);
    let n = av.len();
    let m = bv.len();
    if n == 0 {
        return m;
    }
    if m == 0 {
        return n;
    }
    // row[j] is the distance of the characters of `a` seen so far to the first j + 1 of `b`.
    let mut row: Vec<u128> = Vec::new();
    let mut filled: usize = 0;
    while filled < m
        invariant
            filled <= m,
            row.len() == filled,
            forall|k: int| 0 <= k < filled ==> #[trigger] row[k] == k + 1,
        decreases m - filled,
    {
        row.push(filled as u128 + 1);
        filled += 1;
    }
    assert forall|k: int| 0 <= k < m implies #[trigger] row[k] == distance(a@.take(0), b@.take(k + 1)) by {};
    let mut i: usize = 0;
    while i < n
        invariant
            av@ == a@,
            bv@ == b@,
            n == av.len(),
            m == bv.len(),
            m > 0,
            i <= n,
            row.len() == m,
            forall|k: int| 0 <= k < m ==> #[trigger] row[k] == distance(a@.take(i as int), b@.take(k + 1)),
        decreases n - i,
    {
        let ghost upper = a@.take(i as int);
        let ghost lower = a@.take(i + 1);
        let mut diagonal: u128 = i as u128;
        let mut left: u128 = i as u128 + 1;
        let mut j: usize = 0;
        assert(lower.drop_last() == upper);
        assert(lower.last() == av[i as int]);
        while j < m
            invariant
                av@ == a@,
                bv@ == b@,
                n == av.len(),
                m == bv.len(),
                i < n,
                j <= m,
                row.len() == m,
                upper == a@.take(i as int),
                lower == a@.take(i + 1),
                lower.drop_last() == upper,
                lower.last() == av[i as int],
                diagonal == distance(upper, b@.take(j as int)),
                left == distance(lower, b@.take(j as int)),
                forall|k: int| 0 <= k < j ==> #[trigger] row[k] == distance(lower, b@.take(k + 1)),
                forall|k: int| j <= k < m ==> #[trigger] row[k] == distance(upper, b@.take(k + 1)),
            decreases m - j,
        {
            let above = row[j];
            proof {
                law_distance_bounds(upper, b@.take(j as int));
                law_distance_bounds(lower, b@.take(j as int));
                law_distance_bounds(upper, b@.take(j + 1));
                assert(b@.take(j + 1).drop_last() == b@.take(j as int));
                assert(b@.take(j + 1).last() == bv[j as int]);
            }
            let cost: u128 = if av[i] == bv[j] {
                0
            } else {
                1
            };
            let value = min_of(min_of(left + 1, above + 1), diagonal + cost);
            assert(value == distance(lower, b@.take(j + 1)));
            diagonal = above;
            left = value;
            row.set(j, value);
            j += 1;
        }
        i += 1;
    }
    assert(a@.take(n as int) == a@);
    assert(b@.take(m as int) == b@);
    proof {
        law_distance_bounds(a@, b@);
        assert(row[m - 1] == distance(a@, b@));
    }
    row[m - 1] as usize
}

/// How much of two texts differs, as a fraction: their distance over the length of the
/// longer one. Two empty texts differ in nothing.
pub open spec fn difference(a: Seq<char>, b: Seq<char>) -> (nat, nat) {
    if a.len() == 0 && b.len() == 0 {
        (0, 1)
    } else {
        (distance(a, b), greatest(a.len(), b.len()))
    }
}

/// The first fraction is greater than the second.
pub open spec fn above(x: (nat, nat), y: (nat, nat)) -> bool {
    x.0 * y.1 > y.0 * x.1
}

/// The closest of the first `n` candidates to a lower-case text: the position of the last
/// one among those that differ the least.
pub open spec fn closest_upto(target: Seq<char>, candidates: Seq<Seq<char>>, n: int) -> Option<int>
    decreases n,
{
    if n <= 0 {
        None
    } else {
        match closest_upto(target, candidates, n - 1) {
            None => Some(n - 1),
            Some(best) => if above(
                difference(target, text::lowercase(candidates[n - 1])),
                difference(target, text::lowercase(candidates[best])),
            ) {
                Some(best)
            } else {
                Some(n - 1)
            },
        }
    }
}

/// The closest of several names to a given one, whatever their letter case, where less than
/// half of the two differs.
pub open spec fn closest(target: Seq<char>, candidates: Seq<Seq<char>>) -> Option<Seq<char>> {
    let key = text::lowercase(target);
    match closest_upto(key, candidates, candidates.len() as int) {
        Some(i) => {
            let (d, len) = difference(key, text::lowercase(candidates[i]));
            if 2 * d < len {
                Some(candidates[i])
            } else {
                None
            }
        },
        None => None,
    }
}

/// How much of two texts differs, as a fraction.
fn difference_of(a: &str, b: &str) -> (r: (usize, usize))
    ensures
        (r.0 as nat, r.1 as nat) == difference(a@, b@),
        r.1 > 0,
{
    let n = a.unicode_len();
    let m = b.unicode_len();
    if n == 0 && m == 0 {
        return (0, 1);
    }
    let len = if n >= m {
        n
    } else {
        m
    };
    (lev(a, b), len)
}

/// Whether the first fraction is greater than the second.
fn is_above(x: (usize, usize), y: (usize, usize)) -> (r: bool)
    ensures
        r == above((x.0 as nat, x.1 as nat), (y.0 as nat, y.1 as nat)),
{
    proof {
        lemma_product_fits(x.0, y.1);
        lemma_product_fits(y.0, x.1);
    }
    (x.0 as u128) * (y.1 as u128) > (y.0 as u128) * (x.1 as u128)
}

proof fn lemma_product_fits(a: usize, b: usize)
    ensures
        0 <= a * b <= u128::MAX,
{
    assert(0 <= a * b <= u64::MAX * u64::MAX) by (nonlinear_arith)
        requires
            0 <= a <= u64::MAX,
            0 <= b <= u64::MAX,
    ;
}

/// The closest of several names to a given one, whatever their letter case, where less than
/// half of the two differs.
pub fn closest_str(target: &str, candidates: &Vec<String>) -> (r: Option<String>)
    ensures
        match r {
            Some(s) => closest(target@, text::texts(candidates@)) == Some(s@),
            None => closest(target@, text::texts(candidates@)) is None,
        },
{
    let key = to_lower(target);
    let ghost names = text::texts(candidates@);
    let mut best: Option<(usize, (usize, usize))> = None;
    let mut i: usize = 0;
    while i < candidates.len()
        invariant
            key@ == text::lowercase(target@),
            names == text::texts(candidates@),
            i <= candidates.len(),
            match best {
                Some((at, diff)) => at < i && closest_upto(key@, names, i as int) == Some(at as int)
                    && (diff.0 as nat, diff.1 as nat) == difference(key@, text::lowercase(names[at as int])),
                None => i == 0,
            },
        decreases candidates.len() - i,
    {
        let diff = difference_of(key.as_str(), to_lower(candidates[i].as_str()).as_str());
        let keep = match best {
            Some((_, least_diff)) => is_above(diff, least_diff),
            None => false,
        };
        assert(names[i as int] == candidates[i as int]@);
        if !keep {
            best = Some((i, diff));
        }
        i += 1;
    }
    match best {
        Some((at, diff)) => {
            if (diff.0 as u128) * 2 < diff.1 as u128 {
                Some(candidates[at].clone())
            } else {
                None
            }
        },
        None => None,
    }
}

/// The first of the first `n` names that no other one of them is closer than to a
/// lower-case text.
pub open spec fn nearest_upto(key: Seq<char>, names: Seq<Seq<char>>, n: int) -> Option<int>
    decreases n,
{
    if n <= 0 {
        None
    } else {
        match nearest_upto(key, names, n - 1) {
            None => Some(n - 1),
            Some(best) => if distance(key, text::lowercase(names[n - 1])) < distance(
                key,
                text::lowercase(names[best]),
            ) {
                Some(n - 1)
            } else {
                Some(best)
            },
        }
    }
}

/// The nearest of several names to a given one, whatever their letter case, and how far it
/// is.
pub open spec fn nearest(target: Seq<char>, names: Seq<Seq<char>>) -> Option<(Seq<char>, nat)> {
    let key = text::lowercase(target);
    match nearest_upto(key, names, names.len() as int) {
        Some(i) => Some((names[i], distance(key, text::lowercase(names[i])))),
        None => None,
    }
}

/// The nearest of several names to a given one, whatever their letter case, and how far it
/// is.
pub fn nearest_name(target: &str, names: &Vec<String>) -> (r: Option<(String, usize)>)
    ensures
        match r {
            Some((s, d)) => nearest(target@, text::texts(names@)) == Some((s@, d as nat)),
            None => nearest(target@, text::texts(names@)) is None,
        },
{
    let key = to_lower(target);
    let ghost all = text::texts(names@);
    let mut best: Option<(usize, usize)> = None;
    let mut i: usize = 0;
    while i < names.len()
        invariant
            key@ == text::lowercase(target@),
            all == text::texts(names@),
            i <= names.len(),
            match best {
                Some((at, d)) => at < i && nearest_upto(key@, all, i as int) == Some(at as int) && d
                    == distance(key@, text::lowercase(all[at as int])),
                None => i == 0,
            },
        decreases names.len() - i,
    {
        let d = lev(key.as_str(), to_lower(names[i].as_str()).as_str());
        assert(all[i as int] == names[i as int]@);
        let closer = match best {
            Some((_, least_d)) => d < least_d,
            None => true,
        };
        if closer {
            best = Some((i, d));
        }
        i += 1;
    }
    match best {
        Some((at, d)) => Some((names[at].clone(), d)),
        None => None,
    }
}

proof fn lemma_nearest_upto(key: Seq<char>, names: Seq<Seq<char>>, n: int)
    requires
        0 <= n <= names.len(),
    ensures
        match nearest_upto(key, names, n) {
            Some(b) => 0 <= b < n && forall|i: int|
                0 <= i < n ==> distance(key, text::lowercase(names[b])) <= distance(
                    key,
                    text::lowercase(#[trigger] names[i]),
                ),
            None => n == 0,
        },
    decreases n,
{
    if n > 0 {
        lemma_nearest_upto(key, names, n - 1);
    }
}

/// The nearest name is one of the names, no other one is nearer, and there is one as soon
/// as there are names.
pub proof fn law_nearest_is_nearest(target: Seq<char>, names: Seq<Seq<char>>)
    ensures
        match nearest(target, names) {
            Some((s, d)) => names.contains(s) && d == distance(
                text::lowercase(target),
                text::lowercase(s),
            ) && forall|i: int|
                0 <= i < names.len() ==> d <= distance(
                    text::lowercase(target),
                    text::lowercase(#[trigger] names[i]),
                ),
            None => names.len() == 0,
        },
{
    lemma_nearest_upto(text::lowercase(target), names, names.len() as int);
}

/// The way from one text to another is not shorter over a third one.
pub proof fn law_distance_triangle(a: Seq<char>, b: Seq<char>, c: Seq<char>)
    ensures
        distance(a, c) <= distance(a, b) + distance(b, c),
    decreases a.len() + b.len() + c.len(),
{
    law_distance_bounds(a, b);
    law_distance_bounds(b, c);
    law_distance_bounds(a, c);
    if a.len() > 0 && b.len() > 0 && c.len() > 0 {
        law_distance_triangle(a.drop_last(), b, c);
        law_distance_triangle(a, b, c.drop_last());
        law_distance_triangle(a, b.drop_last(), c);
        law_distance_triangle(a, b.drop_last(), c.drop_last());
        law_distance_triangle(a.drop_last(), b.drop_last(), c);
        law_distance_triangle(a.drop_last(), b.drop_last(), c.drop_last());
    }
}

/// One character is put in.
pub open spec fn puts_in(s: Seq<char>, t: Seq<char>, i: int, c: char) -> bool {
    0 <= i <= s.len() && t == s.insert(i, c)
}

/// One character is replaced.
pub open spec fn replaces(s: Seq<char>, t: Seq<char>, i: int, c: char) -> bool {
    0 <= i < s.len() && t == s.update(i, c)
}

/// The second text comes from the first one by one change: a character is put in, taken out or
/// replaced.
pub open spec fn one_change(s: Seq<char>, t: Seq<char>) -> bool {
    ||| exists|i: int, c: char| #[trigger] puts_in(s, t, i, c)
    ||| exists|i: int, c: char| #[trigger] puts_in(t, s, i, c)
    ||| exists|i: int, c: char| #[trigger] replaces(s, t, i, c)
}

/// Texts that lead from one to another, each one change away from the one before it.
pub open spec fn leads(steps: Seq<Seq<char>>, a: Seq<char>, b: Seq<char>) -> bool {
    &&& steps.len() > 0
    &&& steps[0] == a
    &&& steps.last() == b
    &&& forall|k: int| 0 <= k < steps.len() - 1 ==> one_change(#[trigger] steps[k], steps[k + 1])
}

proof fn lemma_put_in_is_near(s: Seq<char>, i: int, c: char)
    requires
        0 <= i <= s.len(),
    ensures
        distance(s, s.insert(i, c)) <= 1,
    decreases s.len(),
{
    let t = s.insert(i, c);
    if i == s.len() {
        assert(t.drop_last() =~= s);
        law_distance_zero(s, s);
        law_distance_bounds(s, t);
    } else {
        assert(t.drop_last() =~= s.drop_last().insert(i, c));
        assert(t.last() == s.last());
        lemma_put_in_is_near(s.drop_last(), i, c);
    }
}

proof fn lemma_replaced_is_near(s: Seq<char>, i: int, c: char)
    requires
        0 <= i < s.len(),
    ensures
        distance(s, s.update(i, c)) <= 1,
    decreases s.len(),
{
    let t = s.update(i, c);
    if i == s.len() - 1 {
        assert(t.drop_last() =~= s.drop_last());
        law_distance_zero(s.drop_last(), s.drop_last());
    } else {
        assert(t.drop_last() =~= s.drop_last().update(i, c));
        assert(t.last() == s.last());
        lemma_replaced_is_near(s.drop_last(), i, c);
    }
}

proof fn lemma_change_is_near(s: Seq<char>, t: Seq<char>)
    requires
        one_change(s, t),
    ensures
        distance(s, t) <= 1,
{
    if exists|i: int, c: char| #[trigger] puts_in(s, t, i, c) {
        let (i, c) = choose|i: int, c: char| #[trigger] puts_in(s, t, i, c);
        lemma_put_in_is_near(s, i, c);
    } else if exists|i: int, c: char| #[trigger] puts_in(t, s, i, c) {
        let (i, c) = choose|i: int, c: char| #[trigger] puts_in(t, s, i, c);
        lemma_put_in_is_near(t, i, c);
        law_distance_symmetric(s, t);
    } else {
        let (i, c) = choose|i: int, c: char| #[trigger] replaces(s, t, i, c);
        lemma_replaced_is_near(s, i, c);
    }
}

proof fn lemma_steps_are_near(steps: Seq<Seq<char>>, k: int)
    requires
        0 <= k < steps.len(),
        forall|j: int| 0 <= j < steps.len() - 1 ==> one_change(#[trigger] steps[j], steps[j + 1]),
    ensures
        distance(steps[0], steps[k]) <= k,
    decreases k,
{
    if k == 0 {
        law_distance_zero(steps[0], steps[0]);
    } else {
        lemma_steps_are_near(steps, k - 1);
        lemma_change_is_near(steps[k - 1], steps[k - 1 + 1]);
        law_distance_triangle(steps[0], steps[k - 1], steps[k]);
    }
}

proof fn lemma_change_before(s: Seq<char>, t: Seq<char>, x: char)
    requires
        one_change(s, t),
    ensures
        one_change(s.push(x), t.push(x)),
{
    if exists|i: int, c: char| #[trigger] puts_in(s, t, i, c) {
        let (i, c) = choose|i: int, c: char| #[trigger] puts_in(s, t, i, c);
        assert(t.push(x) =~= s.push(x).insert(i, c));
        assert(puts_in(s.push(x), t.push(x), i, c));
    } else if exists|i: int, c: char| #[trigger] puts_in(t, s, i, c) {
        let (i, c) = choose|i: int, c: char| #[trigger] puts_in(t, s, i, c);
        assert(s.push(x) =~= t.push(x).insert(i, c));
        assert(puts_in(t.push(x), s.push(x), i, c));
    } else {
        let (i, c) = choose|i: int, c: char| #[trigger] replaces(s, t, i, c);
        assert(t.push(x) =~= s.push(x).update(i, c));
        assert(replaces(s.push(x), t.push(x), i, c));
    }
}

proof fn lemma_last_is_a_change(s: Seq<char>)
    requires
        s.len() > 0,
    ensures
        one_change(s.drop_last(), s),
        one_change(s, s.drop_last()),
{
    let n = s.len() - 1;
    assert(s =~= s.drop_last().insert(n, s.last()));
    assert(puts_in(s.drop_last(), s, n, s.last()));
}

proof fn lemma_leads_on(steps: Seq<Seq<char>>, a: Seq<char>, b: Seq<char>, c: Seq<char>)
    requires
        leads(steps, a, b),
        one_change(b, c),
    ensures
        leads(steps.push(c), a, c),
{
    let all = steps.push(c);
    assert forall|k: int| 0 <= k < all.len() - 1 implies one_change(#[trigger] all[k], all[k + 1]) by {
        if k < steps.len() - 1 {
            assert(one_change(steps[k], steps[k + 1]));
        }
    }
}

proof fn lemma_leads_in(a: Seq<char>, b: Seq<char>, steps: Seq<Seq<char>>, c: Seq<char>)
    requires
        leads(steps, b, c),
        one_change(a, b),
    ensures
        leads(seq![a] + steps, a, c),
{
    let all = seq![a] + steps;
    assert forall|k: int| 0 <= k < all.len() - 1 implies one_change(#[trigger] all[k], all[k + 1]) by {
        if k > 0 {
            assert(one_change(steps[k - 1], steps[k - 1 + 1]));
            assert(all[k] == steps[k - 1] && all[k + 1] == steps[k]);
        } else {
            assert(all[1] == steps[0]);
        }
    }
    assert(all.last() == steps.last());
}

/// A way from one text to another in as many changes as they are apart.
proof fn lemma_shortest(a: Seq<char>, b: Seq<char>) -> (steps: Seq<Seq<char>>)
    ensures
        leads(steps, a, b),
        steps.len() == distance(a, b) + 1,
    decreases a.len() + b.len(),
{
    if a.len() == 0 && b.len() == 0 {
        assert(a =~= b);
        seq![a]
    } else if a.len() > 0 && (b.len() == 0 || distance(a, b) == distance(a.drop_last(), b) + 1) {
        lemma_last_is_a_change(a);
        let rest = lemma_shortest(a.drop_last(), b);
        lemma_leads_in(a, a.drop_last(), rest, b);
        seq![a] + rest
    } else if a.len() == 0 || distance(a, b) == distance(a, b.drop_last()) + 1 {
        lemma_last_is_a_change(b);
        let rest = lemma_shortest(a, b.drop_last());
        lemma_leads_on(rest, a, b.drop_last(), b);
        rest.push(b)
    } else {
        let x = a.last();
        let rest = lemma_shortest(a.drop_last(), b.drop_last());
        let under = rest.map_values(|s: Seq<char>| s.push(x));
        let near = b.drop_last().push(x);
        assert(a =~= a.drop_last().push(x));
        assert forall|k: int| 0 <= k < under.len() - 1 implies one_change(
            #[trigger] under[k],
            under[k + 1],
        ) by {
            assert(one_change(rest[k], rest[k + 1]));
            lemma_change_before(rest[k], rest[k + 1], x);
        }
        assert(leads(under, a, near));
        if x == b.last() {
            assert(near =~= b);
            under
        } else {
            let n = b.len() - 1;
            assert(b =~= near.update(n, b.last()));
            assert(replaces(near, b, n, b.last()));
            lemma_leads_on(under, a, near, b);
            under.push(b)
        }
    }
}

/// The distance of two texts is the least number of changes that lead from one to the other:
/// so many are enough, and no fewer are.
pub proof fn law_distance_is_least(a: Seq<char>, b: Seq<char>)
    ensures
        exists|steps: Seq<Seq<char>>| #[trigger]
            leads(steps, a, b) && steps.len() - 1 == distance(a, b),
        forall|steps: Seq<Seq<char>>| #[trigger]
            leads(steps, a, b) ==> distance(a, b) <= steps.len() - 1,
{
    let shortest = lemma_shortest(a, b);
    assert(leads(shortest, a, b) && shortest.len() - 1 == distance(a, b));
    assert forall|steps: Seq<Seq<char>>| #[trigger] leads(steps, a, b) implies distance(a, b)
        <= steps.len() - 1 by {
        lemma_steps_are_near(steps, steps.len() - 1);
    }
}

/// The nearest name is the first of those that are as near.
pub proof fn law_first_of_the_nearest(target: Seq<char>, names: Seq<Seq<char>>, i: int)
    requires
        0 <= i < names.len(),
        forall|k: int|
            0 <= k < i ==> distance(text::lowercase(target), text::lowercase(#[trigger] names[k]))
                > distance(text::lowercase(target), text::lowercase(names[i])),
        forall|k: int|
            i <= k < names.len() ==> distance(text::lowercase(target), text::lowercase(#[trigger] names[k]))
                >= distance(text::lowercase(target), text::lowercase(names[i])),
    ensures
        nearest(target, names) == Some(
            (names[i], distance(text::lowercase(target), text::lowercase(names[i]))),
        ),
{
    lemma_first_nearest(text::lowercase(target), names, i, names.len() as int);
}

proof fn lemma_first_nearest(key: Seq<char>, names: Seq<Seq<char>>, i: int, n: int)
    requires
        0 <= i < n <= names.len(),
        forall|k: int|
            0 <= k < i ==> distance(key, text::lowercase(#[trigger] names[k])) > distance(
                key,
                text::lowercase(names[i]),
            ),
        forall|k: int|
            i <= k < names.len() ==> distance(key, text::lowercase(#[trigger] names[k])) >= distance(
                key,
                text::lowercase(names[i]),
            ),
    ensures
        nearest_upto(key, names, n) == Some(i),
    decreases n,
{
    if n - 1 > i {
        lemma_first_nearest(key, names, i, n - 1);
    } else if n > 1 {
        lemma_nearest_upto(key, names, n - 1);
    }
}

proof fn lemma_difference(a: Seq<char>, b: Seq<char>)
    ensures
        difference(a, b).1 > 0,
{
}

proof fn lemma_not_above(x: (nat, nat), y: (nat, nat), z: (nat, nat))
    requires
        y.1 > 0,
        x.0 * y.1 <= y.0 * x.1,
        y.0 * z.1 <= z.0 * y.1,
    ensures
        x.0 * z.1 <= z.0 * x.1,
{
    let (a, b, c, d, e, f) = (x.0 as int, x.1 as int, y.0 as int, y.1 as int, z.0 as int, z.1 as int);
    assert((a * d) * f <= (c * b) * f) by (nonlinear_arith)
        requires
            a * d <= c * b,
            f >= 0,
    ;
    assert((c * f) * b <= (e * d) * b) by (nonlinear_arith)
        requires
            c * f <= e * d,
            b >= 0,
    ;
    assert((a * f) * d == (a * d) * f) by (nonlinear_arith);
    assert((c * b) * f == (c * f) * b) by (nonlinear_arith);
    assert((e * b) * d == (e * d) * b) by (nonlinear_arith);
    assert(a * f <= e * b) by (nonlinear_arith)
        requires
            (a * f) * d <= (e * b) * d,
            d > 0,
    ;
}

proof fn lemma_closest_upto(target: Seq<char>, candidates: Seq<Seq<char>>, n: int)
    requires
        0 <= n <= candidates.len(),
    ensures
        match closest_upto(target, candidates, n) {
            Some(best) => 0 <= best < n && forall|k: int|
                0 <= k < n ==> !above(
                    difference(target, text::lowercase(candidates[best])),
                    difference(target, text::lowercase(#[trigger] candidates[k])),
                ),
            None => n == 0,
        },
    decreases n,
{
    if n > 0 {
        lemma_closest_upto(target, candidates, n - 1);
        if let Some(best) = closest_upto(target, candidates, n - 1) {
            let last = difference(target, text::lowercase(candidates[n - 1]));
            let was = difference(target, text::lowercase(candidates[best]));
            lemma_difference(target, text::lowercase(candidates[n - 1]));
            lemma_difference(target, text::lowercase(candidates[best]));
            if !above(last, was) {
                assert forall|k: int| 0 <= k < n implies !above(
                    last,
                    difference(target, text::lowercase(#[trigger] candidates[k])),
                ) by {
                    if k < n - 1 {
                        lemma_not_above(
                            last,
                            was,
                            difference(target, text::lowercase(candidates[k])),
                        );
                    }
                }
            } else {
                assert(last.0 * was.1 > was.0 * last.1);
            }
        }
    }
}

/// The closest of several names differs in less than half of its characters, and measured by the
/// length of the longer one no other differs in less. Where none is suggested, every name differs
/// in half of them or more.
pub proof fn law_closest_differs_least(target: Seq<char>, candidates: Seq<Seq<char>>)
    ensures
        match closest(target, candidates) {
            Some(s) => {
                let d = difference(text::lowercase(target), text::lowercase(s));
                &&& candidates.contains(s)
                &&& 2 * d.0 < d.1
                &&& forall|k: int|
                    0 <= k < candidates.len() ==> d.0 * difference(
                        text::lowercase(target),
                        text::lowercase(#[trigger] candidates[k]),
                    ).1 <= difference(text::lowercase(target), text::lowercase(candidates[k])).0 * d.1
            },
            None => forall|k: int|
                0 <= k < candidates.len() ==> 2 * difference(
                    text::lowercase(target),
                    text::lowercase(#[trigger] candidates[k]),
                ).0 >= difference(text::lowercase(target), text::lowercase(candidates[k])).1,
        },
{
    let key = text::lowercase(target);
    lemma_closest_upto(key, candidates, candidates.len() as int);
    if let Some(best) = closest_upto(key, candidates, candidates.len() as int) {
        let b = difference(key, text::lowercase(candidates[best]));
        lemma_difference(key, text::lowercase(candidates[best]));
        if 2 * b.0 >= b.1 {
            assert forall|k: int| 0 <= k < candidates.len() implies 2 * difference(
                key,
                text::lowercase(#[trigger] candidates[k]),
            ).0 >= difference(key, text::lowercase(candidates[k])).1 by {
                let x = difference(key, text::lowercase(candidates[k]));
                assert(!above(b, x));
                let (b0, b1, x0, x1) = (b.0 as int, b.1 as int, x.0 as int, x.1 as int);
                assert(2 * x0 >= x1) by (nonlinear_arith)
                    requires
                        b0 * x1 <= x0 * b1,
                        2 * b0 >= b1,
                        b1 > 0,
                        x1 >= 0,
                ;
            }
        }
    }
}

/// How far two texts differ: the changes that lead from one to the other, out of the characters
/// of the longer one; of two empty texts nothing differs.
pub proof fn law_difference_is_measured_by_the_longer(a: Seq<char>, b: Seq<char>)
    ensures
        difference(a, b).0 == distance(a, b),
        difference(a, b).1 >= a.len() && difference(a, b).1 >= b.len(),
        difference(a, b).1 == a.len() || difference(a, b).1 == b.len() || (a.len() == 0 && b.len() == 0),
        difference(a, b).0 <= difference(a, b).1,
{
    law_distance_bounds(a, b);
}

} // verus!
