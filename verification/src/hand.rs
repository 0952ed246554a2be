//! The ten categories of hands, and the judge that picks the best one.

use crate::card::{Card, Cards, Joker, Rank};
use crate::groups::{group_count, group_head, groups_of_size, n_same_numbers_expect_m_count};
use vstd::prelude::*;

verus! {

/// The categories, from the lowest to the highest.
#[derive(Debug, PartialEq, Eq, Structural, Copy, Clone)]
pub enum HandName {
    HighCards,
    OnePair,
    TwoPair,
    ThreeOfAKind,
    Straight,
    Flush,
    FullHouse,
    FourOfAKind,
    StraightFlush,
    RoyalStraightFlush,
}

/// A judgment: a category and the card that supports it.
#[derive(Debug, PartialEq, Eq, Structural, Copy, Clone)]
pub struct Hand {
    pub name: HandName,
    pub card: Card,
}

impl HandName {
    /// The place of the category among the ten: a higher one wins.
    pub open spec fn priority(self) -> nat {
        match self {
            HandName::HighCards => 0,
            HandName::OnePair => 1,
            HandName::TwoPair => 2,
            HandName::ThreeOfAKind => 3,
            HandName::Straight => 4,
            HandName::Flush => 5,
            HandName::FullHouse => 6,
            HandName::FourOfAKind => 7,
            HandName::StraightFlush => 8,
            HandName::RoyalStraightFlush => 9,
        }
    }

    /// Computes [`HandName::priority`].
    pub fn level(&self) -> (n: u8)
        ensures
            n == self.priority(),
    {
        match self {
            HandName::HighCards => 0,
            HandName::OnePair => 1,
            HandName::TwoPair => 2,
            HandName::ThreeOfAKind => 3,
            HandName::Straight => 4,
            HandName::Flush => 5,
            HandName::FullHouse => 6,
            HandName::FourOfAKind => 7,
            HandName::StraightFlush => 8,
            HandName::RoyalStraightFlush => 9,
        }
    }
}

/// Whether all cards of `s` have the suit of the first.
pub open spec fn same_suit(s: Seq<Rank>) -> bool {
    forall|i: int| 0 <= i < s.len() ==> (#[trigger] s[i]).suit == s[0].suit
}

/// Whether the numbers of `s` stand above the first of them by what
/// `pattern` says, place by place.
pub open spec fn follows_pattern(s: Seq<Rank>, pattern: Seq<u8>) -> bool {
    &&& s.len() == pattern.len()
    &&& forall|i: int| 0 <= i < s.len() ==> (#[trigger] s[i]).number == s[0].number + pattern[i]
}

/// Whether the numbers of `s` are numbers in a row: each is one more than
/// the number before it, so the card at place `i` stands `i` above the first.
pub open spec fn is_run(s: Seq<Rank>) -> bool {
    forall|i: int| 0 <= i < s.len() ==> (#[trigger] s[i]).number == s[0].number + i
}

/// Whether one more card can make a run of `s`: the numbers rise and span
/// at most one number more than there are cards, so at most one number
/// between the lowest and the highest is missing.
pub open spec fn is_run_but_one(s: Seq<Rank>) -> bool {
    &&& s.len() > 0
    &&& forall|i: int, j: int|
        0 <= i < j < s.len() ==> (#[trigger] s[i]).number < (#[trigger] s[j]).number
    &&& s.last().number - s[0].number <= s.len()
}

/// Whether five cards without the joker fall under the category.
pub open spec fn fits_plain(s: Seq<Rank>, name: HandName) -> bool {
    match name {
        HandName::RoyalStraightFlush => s[0].number == 10 && is_run(s) && same_suit(s),
        HandName::StraightFlush => is_run(s) && same_suit(s),
        HandName::FourOfAKind => group_count(s, 4) == 1,
        HandName::FullHouse => group_count(s, 3) == 1 && group_count(s, 2) == 1,
        HandName::Flush => same_suit(s),
        HandName::Straight => is_run(s),
        HandName::ThreeOfAKind => group_count(s, 3) == 1 && group_count(s, 2) == 0,
        HandName::TwoPair => group_count(s, 2) == 2,
        HandName::OnePair => group_count(s, 2) == 1,
        HandName::HighCards => true,
    }
}

/// Whether four cards beside the joker fall under the category: whether
/// they hold what one more card completes.
pub open spec fn fits_with_joker(s: Seq<Rank>, name: HandName) -> bool {
    match name {
        HandName::RoyalStraightFlush => (s[0].number == 10 || s[0].number == 11) && is_run_but_one(
            s,
        ) && same_suit(s),
        HandName::StraightFlush => is_run_but_one(s) && same_suit(s),
        HandName::FourOfAKind => group_count(s, 3) == 1 || group_count(s, 4) == 1,
        HandName::FullHouse => group_count(s, 2) == 2,
        HandName::Flush => same_suit(s),
        HandName::Straight => is_run_but_one(s),
        HandName::ThreeOfAKind => group_count(s, 2) == 1,
        HandName::TwoPair => group_count(s, 2) == 1,
        HandName::OnePair => group_count(s, 1) == 4,
        HandName::HighCards => true,
    }
}

/// Whether the cards `s`, with the joker beside them or without it, fall
/// under the category.
pub open spec fn fits(joker: bool, s: Seq<Rank>, name: HandName) -> bool {
    if joker {
        fits_with_joker(s, name)
    } else {
        fits_plain(s, name)
    }
}

/// The card that supports a category: the joker wherever the hand holds
/// it; else the card that stands for the group of four, of three or of
/// two, and for the other categories the highest card.
pub open spec fn support(joker: bool, s: Seq<Rank>, name: HandName) -> Card {
    if joker {
        Card::JokerCard { value: Joker {  } }
    } else {
        Card::RankCard {
            value: match name {
                HandName::FourOfAKind => group_head(s, 4),
                HandName::FullHouse | HandName::ThreeOfAKind => group_head(s, 3),
                HandName::TwoPair | HandName::OnePair => group_head(s, 2),
                _ => s.last(),
            },
        }
    }
}

/// The highest category under which the cards fall.
pub open spec fn best(joker: bool, s: Seq<Rank>) -> HandName {
    if fits(joker, s, HandName::RoyalStraightFlush) {
        HandName::RoyalStraightFlush
    } else if fits(joker, s, HandName::StraightFlush) {
        HandName::StraightFlush
    } else if fits(joker, s, HandName::FourOfAKind) {
        HandName::FourOfAKind
    } else if fits(joker, s, HandName::FullHouse) {
        HandName::FullHouse
    } else if fits(joker, s, HandName::Flush) {
        HandName::Flush
    } else if fits(joker, s, HandName::Straight) {
        HandName::Straight
    } else if fits(joker, s, HandName::ThreeOfAKind) {
        HandName::ThreeOfAKind
    } else if fits(joker, s, HandName::TwoPair) {
        HandName::TwoPair
    } else if fits(joker, s, HandName::OnePair) {
        HandName::OnePair
    } else {
        HandName::HighCards
    }
}

impl Cards {
    /// Whether the hand falls under the category.
    pub open spec fn fits(&self, name: HandName) -> bool {
        fits(self.has_joker(), self.ranks(), name)
    }

    /// The judgment that the category gives of the hand, if the hand falls
    /// under it.
    pub open spec fn judged_as(&self, name: HandName) -> Option<Hand> {
        if self.fits(name) {
            Some(Hand { name, card: support(self.has_joker(), self.ranks(), name) })
        } else {
            None
        }
    }

    /// The judgment of the hand: its highest category, with the card that
    /// supports it.
    pub open spec fn judgment(&self) -> Hand {
        let name = best(self.has_joker(), self.ranks());
        Hand { name, card: support(self.has_joker(), self.ranks(), name) }
    }
}

/// The highest card, if every number stands above the first as `pattern` says.
pub fn sequential<'a>(ranks: &'a [Rank], pattern: Vec<u8>) -> (top: Option<&'a Rank>)
    requires
        ranks@.len() > 0,
    ensures
        top is Some <==> follows_pattern(ranks@, pattern@),
        top matches Some(r) ==> *r == ranks@.last(),
{
    if ranks.len() != pattern.len() {
        return None;
    }
    let head = ranks[0].number;
    let mut i: usize = 0;
    while i < ranks.len()
        invariant
            i <= ranks@.len(),
            ranks@.len() == pattern@.len(),
            head == ranks@[0].number,
            forall|j: int| 0 <= j < i ==> (#[trigger] ranks@[j]).number == head + pattern@[j],
        decreases ranks@.len() - i,
    {
        let number = ranks[i].number;
        if number < head || number - head != pattern[i] {
            return None;
        }
        i += 1;
    }
    Some(&ranks[ranks.len() - 1])
}

/// The highest card, if all cards have one suit.
pub fn same_suits<'a>(ranks: &'a [Rank]) -> (top: Option<&'a Rank>)
    requires
        ranks@.len() > 0,
    ensures
        top is Some <==> same_suit(ranks@),
        top matches Some(r) ==> *r == ranks@.last(),
{
    let head = ranks[0].suit;
    let mut i: usize = 0;
    while i < ranks.len()
        invariant
            i <= ranks@.len(),
            head == ranks@[0].suit,
            forall|j: int| 0 <= j < i ==> (#[trigger] ranks@[j]).suit == head,
        decreases ranks@.len() - i,
    {
        if ranks[i].suit != head {
            return None;
        }
        i += 1;
    }
    Some(&ranks[ranks.len() - 1])
}

/// The judgment of a hand with the joker, where something was found.
fn by_joker(name: HandName, found: Option<&Rank>) -> (hand: Option<Hand>)
    ensures
        hand == if found is Some {
            Some(Hand { name, card: Card::JokerCard { value: Joker {  } } })
        } else {
            None
        },
{
    match found {
        Some(_) => Some(Hand { name, card: Card::JokerCard { value: Joker {  } } }),
        None => None,
    }
}

/// The judgment of a hand without the joker, by the card that was found.
fn by_card(name: HandName, found: Option<&Rank>) -> (hand: Option<Hand>)
    ensures
        hand == match found {
            Some(r) => Some(Hand { name, card: Card::RankCard { value: *r } }),
            None => None,
        },
{
    match found {
        Some(r) => Some(Hand { name, card: Card::RankCard { value: *r } }),
        None => None,
    }
}

/// Every hand has high cards.
pub fn high_cards(cards: &Cards) -> (hand: Option<Hand>)
    requires
        cards.wf(),
    ensures
        hand == cards.judged_as(HandName::HighCards),
{
    match cards {
        Cards::JokerCards { joker: _, rank_cards: _ } => Some(
            Hand { name: HandName::HighCards, card: Card::JokerCard { value: Joker {  } } },
        ),
        Cards::NoJokerCards { rank_cards } => Some(
            Hand {
                name: HandName::HighCards,
                card: Card::RankCard { value: rank_cards[rank_cards.len() - 1] },
            },
        ),
    }
}

/// One pair: one group of two; with the joker, four different numbers.
pub fn one_pair(cards: &Cards) -> (hand: Option<Hand>)
    requires
        cards.wf(),
    ensures
        hand == cards.judged_as(HandName::OnePair),
{
    match cards {
        Cards::JokerCards { joker: _, rank_cards } => by_joker(
            HandName::OnePair,
            n_same_numbers_expect_m_count(1, 4, rank_cards.as_slice()),
        ),
        Cards::NoJokerCards { rank_cards } => by_card(
            HandName::OnePair,
            n_same_numbers_expect_m_count(2, 1, rank_cards.as_slice()),
        ),
    }
}

/// Two pairs: two groups of two; with the joker, one.
pub fn two_pair(cards: &Cards) -> (hand: Option<Hand>)
    requires
        cards.wf(),
    ensures
        hand == cards.judged_as(HandName::TwoPair),
{
    match cards {
        Cards::JokerCards { joker: _, rank_cards } => by_joker(
            HandName::TwoPair,
            n_same_numbers_expect_m_count(2, 1, rank_cards.as_slice()),
        ),
        Cards::NoJokerCards { rank_cards } => by_card(
            HandName::TwoPair,
            n_same_numbers_expect_m_count(2, 2, rank_cards.as_slice()),
        ),
    }
}

/// Three of a kind: one group of three and no group of two; with the
/// joker, one group of two.
pub fn three_of_a_kind(cards: &Cards) -> (hand: Option<Hand>)
    requires
        cards.wf(),
    ensures
        hand == cards.judged_as(HandName::ThreeOfAKind),
{
    match cards {
        Cards::JokerCards { joker: _, rank_cards } => by_joker(
            HandName::ThreeOfAKind,
            n_same_numbers_expect_m_count(2, 1, rank_cards.as_slice()),
        ),
        Cards::NoJokerCards { rank_cards } => {
            let high = n_same_numbers_expect_m_count(3, 1, rank_cards.as_slice());
            let (pairs, _) = groups_of_size(2, rank_cards.as_slice());
            if pairs == 0 {
                by_card(HandName::ThreeOfAKind, high)
            } else {
                None
            }
        },
    }
}

/// A straight: five numbers in a row; with the joker, four numbers that
/// take four of five places in a row.
pub fn straight(cards: &Cards) -> (hand: Option<Hand>)
    requires
        cards.wf(),
    ensures
        hand == cards.judged_as(HandName::Straight),
{
    match cards {
        Cards::JokerCards { joker: _, rank_cards } => {
            let ranks = rank_cards.as_slice();
            let mut found = sequential(ranks, vec![0, 1, 2, 3]);
            if found.is_none() {
                found = sequential(ranks, vec![0, 2, 3, 4]);
            }
            if found.is_none() {
                found = sequential(ranks, vec![0, 1, 3, 4]);
            }
            if found.is_none() {
                found = sequential(ranks, vec![0, 1, 2, 4]);
            }
            proof {
                lemma_run_but_one(ranks@);
            }
            by_joker(HandName::Straight, found)
        },
        Cards::NoJokerCards { rank_cards } => {
            let found = sequential(rank_cards.as_slice(), vec![0, 1, 2, 3, 4]);
            by_card(HandName::Straight, found)
        },
    }
}

/// A flush: one suit.
pub fn flush(cards: &Cards) -> (hand: Option<Hand>)
    requires
        cards.wf(),
    ensures
        hand == cards.judged_as(HandName::Flush),
{
    match cards {
        Cards::JokerCards { joker: _, rank_cards } => by_joker(
            HandName::Flush,
            same_suits(rank_cards.as_slice()),
        ),
        Cards::NoJokerCards { rank_cards } => by_card(
            HandName::Flush,
            same_suits(rank_cards.as_slice()),
        ),
    }
}

/// A full house: a group of three and a group of two, supported by a card
/// of the three; with the joker, two groups of two.
pub fn full_house(cards: &Cards) -> (hand: Option<Hand>)
    requires
        cards.wf(),
    ensures
        hand == cards.judged_as(HandName::FullHouse),
{
    match cards {
        Cards::JokerCards { joker: _, rank_cards } => by_joker(
            HandName::FullHouse,
            n_same_numbers_expect_m_count(2, 2, rank_cards.as_slice()),
        ),
        Cards::NoJokerCards { rank_cards } => {
            let high = n_same_numbers_expect_m_count(3, 1, rank_cards.as_slice());
            let low = n_same_numbers_expect_m_count(2, 1, rank_cards.as_slice());
            if high.is_some() && low.is_some() {
                by_card(HandName::FullHouse, high)
            } else {
                None
            }
        },
    }
}

/// Four of a kind: one group of four; with the joker, one group of three,
/// or the four cards alike.
pub fn four_of_a_kind(cards: &Cards) -> (hand: Option<Hand>)
    requires
        cards.wf(),
    ensures
        hand == cards.judged_as(HandName::FourOfAKind),
{
    match cards {
        Cards::JokerCards { joker: _, rank_cards } => {
            let mut found = n_same_numbers_expect_m_count(3, 1, rank_cards.as_slice());
            if found.is_none() {
                found = n_same_numbers_expect_m_count(4, 1, rank_cards.as_slice());
            }
            by_joker(HandName::FourOfAKind, found)
        },
        Cards::NoJokerCards { rank_cards } => by_card(
            HandName::FourOfAKind,
            n_same_numbers_expect_m_count(4, 1, rank_cards.as_slice()),
        ),
    }
}

/// The judgment of `flush`, under another name, where `straight` holds too.
fn straight_and_flush(cards: &Cards, name: HandName) -> (hand: Option<Hand>)
    requires
        cards.wf(),
    ensures
        hand == if cards.fits(HandName::Straight) && cards.fits(HandName::Flush) {
            Some(Hand { name, card: support(cards.has_joker(), cards.ranks(), HandName::Flush) })
        } else {
            None
        },
{
    if straight(cards).is_none() {
        return None;
    }
    match flush(cards) {
        Some(hand) => Some(Hand { name, card: hand.card }),
        None => None,
    }
}

/// A straight flush: a straight and a flush at once.
pub fn straight_flush(cards: &Cards) -> (hand: Option<Hand>)
    requires
        cards.wf(),
    ensures
        hand == cards.judged_as(HandName::StraightFlush),
{
    straight_and_flush(cards, HandName::StraightFlush)
}

/// A royal straight flush: a straight flush from the ten up; with the
/// joker, from the ten or the jack up.
pub fn royal_straight_flush(cards: &Cards) -> (hand: Option<Hand>)
    requires
        cards.wf(),
    ensures
        hand == cards.judged_as(HandName::RoyalStraightFlush),
{
    match cards {
        Cards::JokerCards { joker: _, rank_cards } => {
            if rank_cards[0].number == 10 || rank_cards[0].number == 11 {
                straight_and_flush(cards, HandName::RoyalStraightFlush)
            } else {
                None
            }
        },
        Cards::NoJokerCards { rank_cards } => {
            if rank_cards[0].number == 10 {
                straight_and_flush(cards, HandName::RoyalStraightFlush)
            } else {
                None
            }
        },
    }
}

/// The first judgment in a list of judgments that may be missing.
pub fn first_found(found: &Vec<Option<Hand>>) -> (hand: Option<Hand>)
    ensures
        match hand {
            Some(h) => exists|i: int|
                0 <= i < found@.len() && #[trigger] found@[i] == Some(h) && forall|j: int|
                    0 <= j < i ==> #[trigger] found@[j] is None,
            None => forall|j: int| 0 <= j < found@.len() ==> #[trigger] found@[j] is None,
        },
{
    let mut i: usize = 0;
    while i < found.len()
        invariant
            i <= found@.len(),
            forall|j: int| 0 <= j < i ==> #[trigger] found@[j] is None,
        decreases found@.len() - i,
    {
        if let Some(h) = found[i] {
            return Some(h);
        }
        i += 1;
    }
    None
}

/// Judges a hand: tries the categories from the highest to the lowest and
/// gives the first that the hand falls under.
pub fn judge(cards: &Cards) -> (hand: Hand)
    requires
        cards.wf(),
    ensures
        hand == cards.judgment(),
        cards.fits(hand.name),
        forall|name: HandName| cards.fits(name) ==> name.priority() <= hand.name.priority(),
{
    let found = vec![
        royal_straight_flush(cards),
        straight_flush(cards),
        four_of_a_kind(cards),
        full_house(cards),
        flush(cards),
        straight(cards),
        three_of_a_kind(cards),
        two_pair(cards),
        one_pair(cards),
        high_cards(cards),
    ];
    match first_found(&found) {
        Some(hand) => hand,
        // Not taken: the list ends with the high cards, which every hand has.
        None => Hand { name: HandName::HighCards, card: Card::JokerCard { value: Joker {  } } },
    }
}

/// Four numbers take four of five places in a row in one of four ways.
proof fn lemma_run_but_one(s: Seq<Rank>)
    requires
        s.len() == 4,
    ensures
        is_run_but_one(s) <==> follows_pattern(s, seq![0u8, 1u8, 2u8, 3u8]) || follows_pattern(
            s,
            seq![0u8, 2u8, 3u8, 4u8],
        ) || follows_pattern(s, seq![0u8, 1u8, 3u8, 4u8]) || follows_pattern(
            s,
            seq![0u8, 1u8, 2u8, 4u8],
        ),
{
    lemma_pattern_places(s, seq![0u8, 1u8, 2u8, 3u8]);
    lemma_pattern_places(s, seq![0u8, 2u8, 3u8, 4u8]);
    lemma_pattern_places(s, seq![0u8, 1u8, 3u8, 4u8]);
    lemma_pattern_places(s, seq![0u8, 1u8, 2u8, 4u8]);
}

/// What a pattern of four says, place by place.
proof fn lemma_pattern_places(s: Seq<Rank>, p: Seq<u8>)
    requires
        s.len() == 4,
        p.len() == 4,
    ensures
        follows_pattern(s, p) <==> s[0].number == s[0].number + p[0] && s[1].number == s[0].number
            + p[1] && s[2].number == s[0].number + p[2] && s[3].number == s[0].number + p[3],
{
}

} // verus!
