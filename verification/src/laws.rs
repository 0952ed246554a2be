//! What holds of every hand: the judge picks the highest category, and a
//! joker in place of a card does not lower it.

use crate::card::{ascending, Rank};
use crate::groups::{
    count_of, group_count, group_numbers, is_group, lemma_first_with_number,
    lemma_with_number_last,
};
use crate::hand::{best, fits, fits_with_joker, is_run, is_run_but_one, same_suit, HandName};
use vstd::prelude::*;

verus! {

/// Whether the numbers of `s` never fall from one card to the next.
pub open spec fn rising(s: Seq<Rank>) -> bool {
    forall|i: int, j: int|
        0 <= i < j < s.len() ==> (#[trigger] s[i]).number <= (#[trigger] s[j]).number
}

/// How many of the first `end` cards of `s` carry the number `k`.
pub open spec fn occurs(s: Seq<Rank>, k: u8, end: int) -> nat
    decreases end,
{
    if end <= 0 {
        0
    } else {
        occurs(s, k, end - 1) + if s[end - 1].number == k {
            1nat
        } else {
            0nat
        }
    }
}

/// Whether a group of `n` cards begins at `s[i]`, in cards whose numbers
/// never fall.
pub open spec fn starts_group(s: Seq<Rank>, n: nat, i: int) -> bool {
    (i == 0 || s[i - 1].number != s[i].number) && occurs(s, s[i].number, s.len() as int) == n
}

/// How many groups of `n` cards begin among the first `end` cards of `s`.
pub open spec fn starts(s: Seq<Rank>, n: nat, end: int) -> nat
    decreases end,
{
    if end <= 0 {
        0
    } else {
        starts(s, n, end - 1) + if starts_group(s, n, end - 1) {
            1nat
        } else {
            0nat
        }
    }
}

/// The numbers of the groups of `n` cards that one of the first `end` cards
/// carries.
pub open spec fn group_numbers_among(s: Seq<Rank>, n: nat, end: int) -> Set<u8> {
    Set::new(
        |k: u8| is_group(s, n, k) && exists|j: int| 0 <= j < end && (#[trigger] s[j]).number == k,
    )
}

/// Counting from the front agrees on sequences that agree at the front.
proof fn lemma_occurs_front(a: Seq<Rank>, b: Seq<Rank>, k: u8, end: int)
    requires
        end <= a.len(),
        end <= b.len(),
        forall|j: int| 0 <= j < end ==> a[j] == b[j],
    ensures
        occurs(a, k, end) == occurs(b, k, end),
    decreases end,
{
    if end > 0 {
        lemma_occurs_front(a, b, k, end - 1);
    }
}

/// The cards that carry a number can be counted from the front.
pub proof fn lemma_count_is_occurs(s: Seq<Rank>, k: u8)
    ensures
        count_of(s, k) == occurs(s, k, s.len() as int),
    decreases s.len(),
{
    if s.len() > 0 {
        let init = s.drop_last();
        lemma_with_number_last(s, k);
        lemma_count_is_occurs(init, k);
        lemma_occurs_front(init, s, k, init.len() as int);
    }
}

/// In cards whose numbers never fall, there are as many groups as places
/// where one begins.
proof fn lemma_group_numbers_among(s: Seq<Rank>, n: nat, end: int)
    requires
        rising(s),
        n > 0,
        0 <= end <= s.len(),
    ensures
        group_numbers_among(s, n, end).finite(),
        group_numbers_among(s, n, end).len() == starts(s, n, end),
    decreases end,
{
    if end == 0 {
        assert(group_numbers_among(s, n, 0) =~= Set::<u8>::empty());
    } else {
        lemma_group_numbers_among(s, n, end - 1);
        let before = group_numbers_among(s, n, end - 1);
        let now = group_numbers_among(s, n, end);
        let k = s[end - 1].number;
        lemma_count_is_occurs(s, k);
        if starts_group(s, n, end - 1) {
            assert(now =~= before.insert(k));
        } else {
            assert(now =~= before);
        }
    }
}

/// In cards whose numbers never fall, there are as many groups of `n` cards
/// as places where one begins.
pub proof fn lemma_group_count_rising(s: Seq<Rank>, n: nat)
    requires
        rising(s),
        n > 0,
    ensures
        group_count(s, n) == starts(s, n, s.len() as int),
{
    lemma_group_numbers_among(s, n, s.len() as int);
    assert(group_numbers_among(s, n, s.len() as int) =~= group_numbers(s, n)) by {
        assert forall|k: u8| is_group(s, n, k) implies exists|j: int|
            0 <= j < s.len() && (#[trigger] s[j]).number == k by {
            lemma_first_with_number(s, k);
        }
    }
}

/// Among all categories under which cards fall, [`best`] is the highest,
/// and the cards fall under it: whatever else fits, the judgment names no
/// lower category.
pub proof fn lemma_best_is_highest(joker: bool, s: Seq<Rank>, name: HandName)
    requires
        fits(joker, s, name),
    ensures
        fits(joker, s, best(joker, s)),
        name.priority() <= best(joker, s).priority(),
{
}

/// Every hand falls under some category, and under the one that [`best`]
/// names: there is a judgment of every hand.
pub proof fn lemma_some_category_fits(joker: bool, s: Seq<Rank>)
    ensures
        fits(joker, s, HandName::HighCards),
        fits(joker, s, best(joker, s)),
{
}

/// A hand that is a straight and a flush is judged a straight flush or a
/// royal straight flush, never one of the two alone.
pub proof fn lemma_straight_and_flush(joker: bool, s: Seq<Rank>)
    requires
        fits(joker, s, HandName::Straight),
        fits(joker, s, HandName::Flush),
    ensures
        best(joker, s) == HandName::StraightFlush || best(joker, s)
            == HandName::RoyalStraightFlush,
{
}

/// One where `b` holds, nought where it does not.
spec fn one_if(b: bool) -> int {
    if b {
        1
    } else {
        0
    }
}

/// How many groups of `n` there are in four numbers that never fall.
spec fn starts4(a: int, b: int, c: int, d: int, n: int) -> int {
    one_if(one_if(a == a) + one_if(b == a) + one_if(c == a) + one_if(d == a) == n) + one_if(
        b != a && one_if(a == b) + one_if(b == b) + one_if(c == b) + one_if(d == b) == n,
    ) + one_if(c != b && one_if(a == c) + one_if(b == c) + one_if(c == c) + one_if(d == c) == n)
        + one_if(d != c && one_if(a == d) + one_if(b == d) + one_if(c == d) + one_if(d == d) == n)
}

/// How many groups of `n` there are in five numbers that never fall.
spec fn starts5(a: int, b: int, c: int, d: int, e: int, n: int) -> int {
    one_if(
        one_if(a == a) + one_if(b == a) + one_if(c == a) + one_if(d == a) + one_if(e == a) == n,
    ) + one_if(
        b != a && one_if(a == b) + one_if(b == b) + one_if(c == b) + one_if(d == b) + one_if(e == b)
            == n,
    ) + one_if(
        c != b && one_if(a == c) + one_if(b == c) + one_if(c == c) + one_if(d == c) + one_if(e == c)
            == n,
    ) + one_if(
        d != c && one_if(a == d) + one_if(b == d) + one_if(c == d) + one_if(d == d) + one_if(e == d)
            == n,
    ) + one_if(
        e != d && one_if(a == e) + one_if(b == e) + one_if(c == e) + one_if(d == e) + one_if(e == e)
            == n,
    )
}

/// The groups of four cards whose numbers never fall.
proof fn lemma_groups_of_four(s: Seq<Rank>, n: nat)
    requires
        s.len() == 4,
        rising(s),
        n > 0,
    ensures
        group_count(s, n) == starts4(
            s[0].number as int,
            s[1].number as int,
            s[2].number as int,
            s[3].number as int,
            n as int,
        ),
{
    lemma_group_count_rising(s, n);
    reveal_with_fuel(starts, 5);
    reveal_with_fuel(occurs, 5);
}

/// The groups of five cards whose numbers never fall.
proof fn lemma_groups_of_five(s: Seq<Rank>, n: nat)
    requires
        s.len() == 5,
        rising(s),
        n > 0,
    ensures
        group_count(s, n) == starts5(
            s[0].number as int,
            s[1].number as int,
            s[2].number as int,
            s[3].number as int,
            s[4].number as int,
            n as int,
        ),
{
    lemma_group_count_rising(s, n);
    reveal_with_fuel(starts, 6);
    reveal_with_fuel(occurs, 6);
}

/// Four of five numbers that never fall, and what groups they keep.
proof fn lemma_numbers_without_one(a: int, b: int, c: int, d: int, e: int, i: int)
    requires
        a <= b <= c <= d <= e,
        0 <= i < 5,
    ensures
        ({
            let w0 = if i == 0 { b } else { a };
            let w1 = if i <= 1 { c } else { b };
            let w2 = if i <= 2 { d } else { c };
            let w3 = if i <= 3 { e } else { d };
            let pairs = starts5(a, b, c, d, e, 2);
            let threes = starts5(a, b, c, d, e, 3);
            let fours = starts5(a, b, c, d, e, 4);
            let kept_ones = starts4(w0, w1, w2, w3, 1);
            let kept_pairs = starts4(w0, w1, w2, w3, 2);
            let kept_threes = starts4(w0, w1, w2, w3, 3);
            let kept_fours = starts4(w0, w1, w2, w3, 4);
            &&& fours == 1 ==> kept_threes == 1 || kept_fours == 1
            &&& threes == 1 && pairs == 1 ==> kept_pairs == 2 || kept_threes == 1
            &&& threes == 1 && pairs == 0 ==> kept_pairs == 1 || kept_threes == 1
            &&& pairs == 2 ==> kept_pairs == 2 || kept_pairs == 1
            &&& pairs == 1 ==> kept_ones == 4 || kept_pairs == 1 || kept_pairs == 2 || kept_threes
                == 1
        }),
{
}

/// A joker in place of a card does not lower a hand. If five cards without
/// the joker fall under a category, then the four that are left when any one
/// of them gives way to the joker are judged to be of that category or of a
/// higher one.
pub proof fn lemma_joker_keeps_category(p: Seq<Rank>, i: int, name: HandName)
    requires
        p.len() == 5,
        ascending(p),
        0 <= i < 5,
        fits(false, p, name),
    ensures
        fits(true, p.remove(i), best(true, p.remove(i))),
        name.priority() <= best(true, p.remove(i)).priority(),
{
    let w = p.remove(i);
    match name {
        HandName::RoyalStraightFlush | HandName::StraightFlush | HandName::Flush
        | HandName::Straight => {
            if is_run(p) {
                lemma_run_without_one(p, i);
            }
            if same_suit(p) {
                lemma_suit_without_one(p, i);
            }
        },
        HandName::HighCards => {},
        _ => {
            lemma_groups_of_five(p, 2);
            lemma_groups_of_five(p, 3);
            lemma_groups_of_five(p, 4);
            lemma_groups_of_four(w, 1);
            lemma_groups_of_four(w, 2);
            lemma_groups_of_four(w, 3);
            lemma_groups_of_four(w, 4);
            lemma_numbers_without_one(
                p[0].number as int,
                p[1].number as int,
                p[2].number as int,
                p[3].number as int,
                p[4].number as int,
                i,
            );
        },
    }
}

/// Numbers in a row, with one of them taken out, still rise and span five.
proof fn lemma_run_without_one(p: Seq<Rank>, i: int)
    requires
        p.len() == 5,
        0 <= i < 5,
        is_run(p),
    ensures
        is_run_but_one(p.remove(i)),
{
}

/// Cards of one suit, with one of them taken out, are still of one suit.
proof fn lemma_suit_without_one(p: Seq<Rank>, i: int)
    requires
        p.len() == 5,
        0 <= i < 5,
        same_suit(p),
    ensures
        same_suit(p.remove(i)),
{
}

/// A joker in place of a card does not lower the judgment of a hand.
pub proof fn lemma_joker_never_lowers(p: Seq<Rank>, i: int)
    requires
        p.len() == 5,
        ascending(p),
        0 <= i < 5,
    ensures
        best(false, p).priority() <= best(true, p.remove(i)).priority(),
{
    lemma_joker_keeps_category(p, i, best(false, p));
}

} // verus!
