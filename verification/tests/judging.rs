use poker_hand::card::Suit::{C, D, H, S};
use poker_hand::card::{Cards, Joker, Rank, Suit};
use poker_hand::groups::{groups_of_size, n_same_numbers_expect_m_count};
use poker_hand::hand::HandName::{
    Flush, FourOfAKind, FullHouse, OnePair, RoyalStraightFlush, Straight,
    StraightFlush, ThreeOfAKind, TwoPair,
};
use poker_hand::hand::{
    first_found, flush, four_of_a_kind, full_house, high_cards, judge, one_pair,
    royal_straight_flush, same_suits, sequential, straight, straight_flush, three_of_a_kind,
    two_pair, Hand, HandName,
};

fn card(number: u8, suit: Suit) -> Rank {
    Rank { number, suit }
}

fn plain_hands() -> Vec<&'static str> {
    vec![
        "S-10 S-J S-Q S-K S-A",
        "H-9 H-10 H-J H-Q H-K",
        "H-2 H-3 H-4 H-5 H-6",
        "S-9 H-9 D-9 C-9 H-K",
        "S-9 H-9 D-9 C-9 H-2",
        "S-9 H-9 D-9 C-K H-K",
        "S-9 H-9 D-K C-K H-K",
        "H-2 H-9 H-J H-Q H-K",
        "H-9 S-10 H-J H-Q H-K",
        "H-10 S-J H-Q H-K D-A",
        "S-9 H-9 D-9 C-2 H-K",
        "S-9 H-9 D-2 C-2 H-K",
        "S-9 H-9 D-2 C-K H-K",
        "S-9 H-9 D-3 C-2 H-K",
        "S-9 H-7 D-3 C-2 H-K",
        "S-2 H-4 S-7 D-9 C-K",
    ]
}

fn all_matches(cards: &Cards) -> Vec<Hand> {
    [
        royal_straight_flush(cards),
        straight_flush(cards),
        four_of_a_kind(cards),
        full_house(cards),
        flush(cards),
        straight(cards),
        three_of_a_kind(cards),
        two_pair(cards),
        one_pair(cards),
        high_cards(cards),
    ]
    .into_iter()
    .flatten()
    .collect()
}

fn ranks_of(cards: &Cards) -> Vec<Rank> {
    match cards {
        Cards::JokerCards { rank_cards, .. } => rank_cards.clone(),
        Cards::NoJokerCards { rank_cards } => rank_cards.clone(),
    }
}

#[test]
fn judge_gives_the_highest_category_that_fits() {
    let mut texts = plain_hands();
    texts.extend(["S-2 H-3 S-4 D-5 Joker", "S-2 H-2 S-4 D-4 Joker", "S-10 S-J S-Q S-K Joker", "S-5 H-5 D-5 C-5 Joker"]);
    for text in texts {
        let cards = Cards::parse(text).unwrap();
        let judged = judge(&cards);
        let found = all_matches(&cards);
        assert!(found.contains(&judged), "{}", text);
        assert_eq!(found[0], judged, "{}", text);
        for other in found {
            assert!(other.name.level() <= judged.name.level(), "{}", text);
        }
    }
}

#[test]
fn straight_and_flush_are_never_reported_alone() {
    for text in ["H-2 H-3 H-4 H-5 H-6", "S-10 S-J S-Q S-K S-A", "H-2 H-3 H-4 Joker H-6", "C-J C-Q C-K C-A Joker"] {
        let cards = Cards::parse(text).unwrap();
        assert!(straight(&cards).is_some() && flush(&cards).is_some());
        let name = judge(&cards).name;
        assert!(name == StraightFlush || name == RoyalStraightFlush, "{}", text);
    }
}

#[test]
fn joker_in_place_of_a_card_does_not_lower_the_hand() {
    for text in plain_hands() {
        let cards = Cards::parse(text).unwrap();
        let before = judge(&cards).name;
        let ranks = ranks_of(&cards);
        for out in 0..5 {
            let mut rest = ranks.clone();
            rest.remove(out);
            let with_joker = Cards::JokerCards { joker: Joker {}, rank_cards: rest };
            assert!(with_joker.is_valid());
            let after = judge(&with_joker).name;
            assert!(before.level() <= after.level(), "{} without card {}", text, out);
        }
    }
}

#[test]
fn joker_in_place_of_a_card_by_category() {
    let expected: [(&str, HandName, [HandName; 5]); 7] = [
        ("S-10 S-J S-Q S-K S-A", RoyalStraightFlush, [RoyalStraightFlush; 5]),
        ("S-9 H-9 D-9 C-9 H-K", FourOfAKind, [FourOfAKind; 5]),
        ("S-9 H-9 D-9 C-K H-K", FullHouse, [FullHouse, FullHouse, FullHouse, FourOfAKind, FourOfAKind]),
        ("S-9 H-9 D-9 C-2 H-K", ThreeOfAKind, [FourOfAKind, ThreeOfAKind, ThreeOfAKind, ThreeOfAKind, FourOfAKind]),
        ("S-9 H-9 D-2 C-2 H-K", TwoPair, [ThreeOfAKind, ThreeOfAKind, ThreeOfAKind, ThreeOfAKind, FullHouse]),
        ("S-9 H-9 D-3 C-2 H-K", OnePair, [ThreeOfAKind, ThreeOfAKind, OnePair, OnePair, ThreeOfAKind]),
        ("H-9 S-10 H-J H-Q H-K", Straight, [Straight, StraightFlush, Straight, Straight, Straight]),
    ];
    for (text, before, after) in expected {
        let cards = Cards::parse(text).unwrap();
        assert_eq!(judge(&cards).name, before);
        let ranks = ranks_of(&cards);
        for out in 0..5 {
            let mut rest = ranks.clone();
            rest.remove(out);
            let with_joker = Cards::JokerCards { joker: Joker {}, rank_cards: rest };
            assert_eq!(judge(&with_joker).name, after[out], "{} without card {}", text, out);
        }
    }
}

#[test]
fn groups_are_counted_by_size() {
    let ranks = [card(2, S), card(2, H), card(5, S), card(5, D), card(5, C)];
    assert_eq!(groups_of_size(2, &ranks), (1, Some(&card(2, S))));
    assert_eq!(groups_of_size(3, &ranks), (1, Some(&card(5, S))));
    assert_eq!(groups_of_size(1, &ranks), (0, None));
    assert_eq!(groups_of_size(0, &ranks), (0, None));
    assert_eq!(groups_of_size(5, &ranks), (0, None));
    assert_eq!(groups_of_size(2, &[]), (0, None));
}

#[test]
fn group_head_is_first_card_of_highest_group() {
    let ranks = [card(9, C), card(3, D), card(9, H), card(3, S), card(7, S), card(255, S), card(0, H)];
    assert_eq!(groups_of_size(2, &ranks), (2, Some(&card(9, C))));
    assert_eq!(groups_of_size(1, &ranks), (3, Some(&card(255, S))));
    assert_eq!(n_same_numbers_expect_m_count(2, 2, &ranks), Some(&card(9, C)));
    assert_eq!(n_same_numbers_expect_m_count(2, 1, &ranks), None);
    assert_eq!(n_same_numbers_expect_m_count(1, 3, &ranks), Some(&card(255, S)));
    assert_eq!(n_same_numbers_expect_m_count(4, 0, &ranks), None);
    assert_eq!(n_same_numbers_expect_m_count(0, 0, &ranks), None);
}

#[test]
fn sequential_holds_numbers_to_a_pattern() {
    let ranks = [card(3, S), card(5, H), card(6, D), card(7, C)];
    assert_eq!(sequential(&ranks, vec![0, 2, 3, 4]), Some(&card(7, C)));
    assert_eq!(sequential(&ranks, vec![0, 1, 2, 3]), None);
    assert_eq!(sequential(&ranks, vec![0, 2, 3]), None);
    assert_eq!(sequential(&ranks, vec![0, 2, 3, 4, 5]), None);
    let falling = [card(250, S), card(3, H)];
    assert_eq!(sequential(&falling, vec![0, 9]), None);
    assert_eq!(sequential(&falling, vec![0, 255]), None);
}

#[test]
fn same_suits_wants_one_suit() {
    assert_eq!(same_suits(&[card(3, D), card(9, D), card(4, D)]), Some(&card(4, D)));
    assert_eq!(same_suits(&[card(3, D), card(9, D), card(4, H)]), None);
    assert_eq!(same_suits(&[card(3, C)]), Some(&card(3, C)));
}

#[test]
fn first_found_takes_the_first_judgment() {
    let a = Hand { name: Flush, card: poker_hand::card::Card::JokerCard { value: Joker {} } };
    let b = Hand { name: OnePair, card: poker_hand::card::Card::RankCard { value: card(4, H) } };
    assert_eq!(first_found(&vec![None, Some(a), None, Some(b)]), Some(a));
    assert_eq!(first_found(&vec![Some(b), Some(a)]), Some(b));
    assert_eq!(first_found(&vec![None, None]), None);
    assert_eq!(first_found(&vec![]), None);
    assert_eq!(TwoPair.level(), 2);
    assert_eq!(FullHouse.level(), 6);
}
