//! Groups of cards that carry one number.

use crate::card::Rank;
use itertools::Itertools;
use std::collections::HashMap;
use vstd::prelude::*;

verus! {

broadcast use vstd::std_specs::hash::group_hash_axioms;

/// The cards of `s` that carry the number `k`, in their order in `s`.
pub open spec fn with_number(s: Seq<Rank>, k: u8) -> Seq<Rank> {
    s.filter(|r: Rank| r.number == k)
}

/// How many cards of `s` carry the number `k`.
pub open spec fn count_of(s: Seq<Rank>, k: u8) -> nat {
    with_number(s, k).len()
}

/// Whether the cards with the number `k` make a group of `n` cards. A number
/// that no card carries makes no group.
pub open spec fn is_group(s: Seq<Rank>, n: nat, k: u8) -> bool {
    n > 0 && count_of(s, k) == n
}

/// The numbers whose cards make a group of `n` cards.
pub open spec fn group_numbers(s: Seq<Rank>, n: nat) -> Set<u8> {
    Set::new(|k: u8| is_group(s, n, k))
}

/// How many groups of `n` cards `s` holds.
pub open spec fn group_count(s: Seq<Rank>, n: nat) -> nat {
    group_numbers(s, n).len()
}

/// Whether `s[i]` is the first card of a group of `n` cards whose number no
/// group of `n` cards with a number under `bound` exceeds.
pub open spec fn is_head_below(s: Seq<Rank>, n: nat, bound: int, i: int) -> bool {
    &&& 0 <= i < s.len()
    &&& is_group(s, n, s[i].number)
    &&& forall|j: int| 0 <= j < i ==> (#[trigger] s[j]).number != s[i].number
    &&& forall|k: u8| k < bound && #[trigger] is_group(s, n, k) ==> k <= s[i].number
}

/// Whether `s[i]` is the first card of the group of `n` cards with the
/// highest number.
pub open spec fn is_group_head(s: Seq<Rank>, n: nat, i: int) -> bool {
    is_head_below(s, n, 256, i)
}

/// The card that stands for the groups of `n` cards: the first card of the
/// one with the highest number. It means nothing where there is no such group.
pub open spec fn group_head(s: Seq<Rank>, n: nat) -> Rank {
    s[choose|i: int| is_group_head(s, n, i)]
}

/// The numbers under `bound` whose cards make a group of `n` cards.
pub open spec fn group_numbers_below(s: Seq<Rank>, n: nat, bound: int) -> Set<u8> {
    Set::new(|k: u8| k < bound && is_group(s, n, k))
}

/// The last card of a sequence adds one to the count of its own number.
pub proof fn lemma_with_number_last(s: Seq<Rank>, k: u8)
    requires
        s.len() > 0,
    ensures
        with_number(s, k) == if s.last().number == k {
            with_number(s.drop_last(), k).push(s.last())
        } else {
            with_number(s.drop_last(), k)
        },
{
    reveal(Seq::filter);
}

/// A number is counted exactly when some card carries it, and the first of
/// the cards counted is the first card that carries it.
pub proof fn lemma_first_with_number(s: Seq<Rank>, k: u8)
    ensures
        count_of(s, k) == 0 <==> forall|j: int| 0 <= j < s.len() ==> (#[trigger] s[j]).number != k,
        count_of(s, k) > 0 ==> exists|i: int|
            {
                &&& 0 <= i < s.len()
                &&& (#[trigger] s[i]).number == k
                &&& s[i] == with_number(s, k)[0]
                &&& forall|j: int| 0 <= j < i ==> (#[trigger] s[j]).number != k
            },
    decreases s.len(),
{
    if s.len() > 0 {
        let init = s.drop_last();
        lemma_first_with_number(init, k);
        lemma_with_number_last(s, k);
        assert forall|j: int| 0 <= j < init.len() implies init[j] == s[j] by {}
    }
}

/// There is at most one card that stands for the groups of `n` cards.
pub proof fn lemma_group_head_unique(s: Seq<Rank>, n: nat, i: int, j: int)
    requires
        is_group_head(s, n, i),
        is_group_head(s, n, j),
    ensures
        i == j,
{
}

/// The numbers under a bound are finitely many, and one number more adds at
/// most itself.
pub proof fn lemma_group_numbers_below(s: Seq<Rank>, n: nat, bound: int)
    requires
        0 <= bound <= 256,
    ensures
        group_numbers_below(s, n, bound).finite(),
        group_numbers_below(s, n, bound).len() <= bound,
        bound < 256 ==> group_numbers_below(s, n, bound + 1) == if is_group(s, n, bound as u8) {
            group_numbers_below(s, n, bound).insert(bound as u8)
        } else {
            group_numbers_below(s, n, bound)
        },
    decreases bound,
{
    if bound == 0 {
        assert(group_numbers_below(s, n, 0) =~= Set::<u8>::empty());
    } else {
        lemma_group_numbers_below(s, n, bound - 1);
    }
}

/// Whether `groups` holds the cards of `s` by their number: a number is a
/// key exactly when some card carries it, and it leads to the cards that
/// carry it, in their order in `s`.
pub open spec fn sorts_by_number(groups: Map<u8, Vec<&Rank>>, s: Seq<Rank>) -> bool {
    forall|k: u8|
        {
            &&& #[trigger] groups.contains_key(k) <==> count_of(s, k) > 0
            &&& groups.contains_key(k) ==> groups[k]@.map_values(|r: &Rank| *r) == with_number(
                s,
                k,
            )
        }
}

/// The cards sorted by their number, by `Itertools::into_group_map_by`,
/// which hands back a map from each number that occurs to the cards that
/// carry it, in the order in which they came.
#[verifier::external_body]
fn group_by_number<'a>(ranks: &'a [Rank]) -> (groups: HashMap<u8, Vec<&'a Rank>>)
    ensures
        sorts_by_number(groups@, ranks@),
{
    ranks.iter().into_group_map_by(|rank| rank.number)
}

/// Counts the groups of `n` cards and finds the card that stands for them.
pub fn groups_of_size<'a>(n: usize, ranks: &'a [Rank]) -> (found: (usize, Option<&'a Rank>))
    ensures
        found.0 == group_count(ranks@, n as nat),
        found.1 is Some <==> found.0 > 0,
        found.1 matches Some(r) ==> *r == group_head(ranks@, n as nat),
{
    let groups = group_by_number(ranks);
    let ghost s = ranks@;
    let mut count: usize = 0;
    let mut head: Option<&'a Rank> = None;
    let mut next: u16 = 0;
    proof {
        lemma_group_numbers_below(s, n as nat, 0);
    }
    while next < 256
        invariant
            next <= 256,
            s == ranks@,
            sorts_by_number(groups@, s),
            count == group_numbers_below(s, n as nat, next as int).len(),
            count <= next,
            head is Some <==> count > 0,
            head matches Some(r) ==> exists|i: int|
                is_head_below(s, n as nat, next as int, i) && *r == s[i],
        decreases 256 - next,
    {
        let k = next as u8;
        proof {
            lemma_group_numbers_below(s, n as nat, next as int);
            lemma_first_with_number(s, k);
        }
        if let Some(group) = groups.get(&k) {
            if group.len() == n {
                count += 1;
                head = Some(group[0]);
            }
        }
        next += 1;
    }
    proof {
        assert(group_numbers_below(s, n as nat, 256) =~= group_numbers(s, n as nat));
        if let Some(r) = head {
            let i = choose|i: int| is_head_below(s, n as nat, 256, i) && *r == s[i];
            let j = choose|j: int| is_group_head(s, n as nat, j);
            lemma_group_head_unique(s, n as nat, i, j);
        }
    }
    (count, head)
}

/// The card that stands for the groups of `n` cards, if there are exactly
/// `m` of them, and at least one.
pub fn n_same_numbers_expect_m_count<'a>(n: usize, m: usize, ranks: &'a [Rank]) -> (head: Option<
    &'a Rank,
>)
    ensures
        head is Some <==> m > 0 && group_count(ranks@, n as nat) == m,
        head matches Some(r) ==> *r == group_head(ranks@, n as nat),
{
    let (count, head) = groups_of_size(n, ranks);
    if count == m {
        head
    } else {
        None
    }
}

} // verus!
