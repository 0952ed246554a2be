//! Cards, hands of cards, and the text form of both.

use crate::words::{
    all_distinct, lemma_split_len, lemma_total_len_bound, split_on, split_words, texts,
};
use vstd::prelude::*;

verus! {

/// The four suits. Their order (spades lowest, clubs highest) only serves to
/// put the cards of a hand in a fixed sequence.
#[derive(Debug, PartialOrd, Ord, PartialEq, Eq, Structural, Copy, Clone)]
pub enum Suit {
    S,
    H,
    D,
    C,
}

/// A standard card: a number from 2 to 14 (11 is the jack, 12 the queen,
/// 13 the king, 14 the ace) and a suit.
#[derive(Debug, PartialOrd, Ord, PartialEq, Eq, Structural, Copy, Clone)]
pub struct Rank {
    pub number: u8,
    pub suit: Suit,
}

/// The wildcard. It has neither number nor suit.
#[derive(Debug, PartialOrd, Ord, PartialEq, Eq, Structural, Copy, Clone)]
pub struct Joker {}

/// Either kind of card, as reported with a judgment.
#[derive(Debug, PartialEq, Eq, Structural, Copy, Clone)]
#[allow(inconsistent_fields)]
pub enum Card {
    RankCard { value: Rank },
    JokerCard { value: Joker },
}

/// A hand: five cards, one of which may be the joker. The standard cards
/// stand in ascending order, so no card occurs twice.
#[derive(Debug, PartialOrd, Ord, PartialEq, Eq)]
pub enum Cards {
    JokerCards { joker: Joker, rank_cards: Vec<Rank> },
    NoJokerCards { rank_cards: Vec<Rank> },
}

/// The one failure of reading a hand: the text is not a hand.
#[derive(Debug, PartialEq, Eq, Structural, Copy, Clone)]
pub struct FormatError {}

/// A length that no text of a hand exceeds: that of five words of five
/// characters and the four spaces between them.
pub const HAND_TEXT_LIMIT: usize = 29;

impl Suit {
    /// Position of the suit in the order of suits.
    pub open spec fn spec_index(self) -> int {
        match self {
            Suit::S => 0,
            Suit::H => 1,
            Suit::D => 2,
            Suit::C => 3,
        }
    }

    /// Computes [`Suit::spec_index`].
    pub fn index(self) -> (i: u8)
        ensures
            i == self.spec_index(),
    {
        match self {
            Suit::S => 0,
            Suit::H => 1,
            Suit::D => 2,
            Suit::C => 3,
        }
    }
}

/// The suit that a letter names.
pub open spec fn suit_of(c: char) -> Option<Suit> {
    match c {
        'S' => Some(Suit::S),
        'H' => Some(Suit::H),
        'D' => Some(Suit::D),
        'C' => Some(Suit::C),
        _ => None,
    }
}

/// The number that a one-letter rank names: a digit from 2 to 9, or a face.
pub open spec fn number_of_letter(c: char) -> Option<u8> {
    match c {
        '2' => Some(2u8),
        '3' => Some(3u8),
        '4' => Some(4u8),
        '5' => Some(5u8),
        '6' => Some(6u8),
        '7' => Some(7u8),
        '8' => Some(8u8),
        '9' => Some(9u8),
        'J' => Some(11u8),
        'Q' => Some(12u8),
        'K' => Some(13u8),
        'A' => Some(14u8),
        _ => None,
    }
}

/// The number that a rank names. The ranks are `2` to `10`, `J`, `Q`, `K`
/// and `A`, each in this one spelling.
pub open spec fn number_of(t: Seq<char>) -> Option<u8> {
    if t.len() == 1 {
        number_of_letter(t[0])
    } else if t.len() == 2 && t[0] == '1' && t[1] == '0' {
        Some(10u8)
    } else {
        None
    }
}

/// The card that a word names: a suit letter, a hyphen and a rank.
pub open spec fn card_of(t: Seq<char>) -> Option<Rank> {
    if t.len() >= 3 && t[1] == '-' && suit_of(t[0]) is Some && number_of(t.skip(2)) is Some {
        Some(Rank { number: number_of(t.skip(2))->0, suit: suit_of(t[0])->0 })
    } else {
        None
    }
}

/// The word that names the joker.
pub open spec fn joker_word() -> Seq<char> {
    seq!['J', 'o', 'k', 'e', 'r']
}

fn read_suit(c: char) -> (suit: Option<Suit>)
    ensures
        suit == suit_of(c),
{
    match c {
        'S' => Some(Suit::S),
        'H' => Some(Suit::H),
        'D' => Some(Suit::D),
        'C' => Some(Suit::C),
        _ => None,
    }
}

fn read_number_letter(c: char) -> (number: Option<u8>)
    ensures
        number == number_of_letter(c),
{
    match c {
        '2' => Some(2),
        '3' => Some(3),
        '4' => Some(4),
        '5' => Some(5),
        '6' => Some(6),
        '7' => Some(7),
        '8' => Some(8),
        '9' => Some(9),
        'J' => Some(11),
        'Q' => Some(12),
        'K' => Some(13),
        'A' => Some(14),
        _ => None,
    }
}

impl Rank {
    /// Whether the number is one that a card can carry.
    pub open spec fn wf(self) -> bool {
        2 <= self.number <= 14
    }

    /// The order of cards: by number, and by suit among equal numbers.
    pub open spec fn precedes(self, other: Rank) -> bool {
        self.number < other.number || (self.number == other.number && self.suit.spec_index()
            < other.suit.spec_index())
    }

    /// Decides [`Rank::precedes`].
    pub fn comes_before(&self, other: &Rank) -> (b: bool)
        ensures
            b == self.precedes(*other),
    {
        self.number < other.number || (self.number == other.number && self.suit.index()
            < other.suit.index())
    }

    /// Reads one card from a word such as `S-10` or `H-A`. A word that is
    /// no card gives `None`.
    pub fn parse(s: &str) -> (card: Option<Rank>)
        ensures
            card == card_of(s@),
            card is Some ==> card->0.wf(),
    {
        let len = s.unicode_len();
        if len < 3 || len > 4 {
            return None;
        }
        if s.get_char(1) != '-' {
            return None;
        }
        let number_opt = if len == 3 {
            read_number_letter(s.get_char(2))
        } else if s.get_char(2) == '1' && s.get_char(3) == '0' {
            Some(10)
        } else {
            None
        };
        let suit_opt = read_suit(s.get_char(0));
        match (suit_opt, number_opt) {
            (Some(suit), Some(number)) => Some(Rank { number, suit }),
            _ => None,
        }
    }
}

/// Two words that name the same card are the same word.
pub proof fn lemma_card_of_injective(a: Seq<char>, b: Seq<char>)
    requires
        card_of(a) is Some,
        card_of(a) == card_of(b),
    ensures
        a == b,
{
}

/// Whether each card of `s` precedes every later one.
pub open spec fn ascending(s: Seq<Rank>) -> bool {
    forall|i: int, j: int| 0 <= i < j < s.len() ==> (#[trigger] s[i]).precedes(#[trigger] s[j])
}

/// Whether one of the first `n` words names the card `r`.
pub open spec fn names_card(words: Seq<Seq<char>>, n: int, r: Rank) -> bool {
    exists|j: int| 0 <= j < n && #[trigger] card_of(words[j]) == Some(r)
}

/// Whether `s` is the text of a hand: five words with one space between
/// them, no two of them alike, each the joker's word or a card's.
pub open spec fn is_hand_text(s: Seq<char>) -> bool {
    let words = split_on(s, ' ');
    &&& words.len() == 5
    &&& words.no_duplicates()
    &&& forall|i: int, j: int|
        0 <= i < j < 5 ==> !(#[trigger] words[i] == joker_word() && #[trigger] words[j]
            == joker_word())
    &&& forall|i: int|
        0 <= i < 5 ==> #[trigger] words[i] == joker_word() || card_of(words[i]) is Some
}

impl Cards {
    /// The standard cards of the hand.
    pub open spec fn ranks(&self) -> Seq<Rank> {
        match self {
            Cards::JokerCards { joker: _, rank_cards } => rank_cards@,
            Cards::NoJokerCards { rank_cards } => rank_cards@,
        }
    }

    /// Whether the hand holds the joker.
    pub open spec fn has_joker(&self) -> bool {
        self is JokerCards
    }

    /// The invariant of a hand: four standard cards beside the joker, five
    /// without it, in strictly ascending order, each with a number that a
    /// card can carry.
    pub open spec fn wf(&self) -> bool {
        &&& self.ranks().len() == if self.has_joker() { 4int } else { 5int }
        &&& ascending(self.ranks())
        &&& forall|i: int| 0 <= i < self.ranks().len() ==> (#[trigger] self.ranks()[i]).wf()
    }

    /// Decides [`Cards::wf`], for a hand that was put together by hand.
    pub fn is_valid(&self) -> (b: bool)
        ensures
            b == self.wf(),
    {
        let (rank_cards, count): (&Vec<Rank>, usize) = match self {
            Cards::JokerCards { joker: _, rank_cards } => (rank_cards, 4),
            Cards::NoJokerCards { rank_cards } => (rank_cards, 5),
        };
        if rank_cards.len() != count {
            return false;
        }
        let mut i: usize = 0;
        while i < count
            invariant
                i <= count,
                count == rank_cards@.len(),
                rank_cards@ == self.ranks(),
                forall|j: int| 0 <= j < i ==> (#[trigger] rank_cards@[j]).wf(),
                forall|j: int|
                    0 < j < i ==> (#[trigger] rank_cards@[j - 1]).precedes(rank_cards@[j]),
            decreases count - i,
        {
            let card = &rank_cards[i];
            if card.number < 2 || card.number > 14 {
                return false;
            }
            if i > 0 && !rank_cards[i - 1].comes_before(card) {
                return false;
            }
            i += 1;
        }
        proof {
            lemma_neighbours_ascend(rank_cards@);
        }
        true
    }

    /// Reads a hand from five words with one space between them, such as
    /// `S-2 H-A D-J Joker C-10`. The result holds the joker if one of the
    /// words names it, and the cards that the other words name, in order.
    pub fn parse(s: &str) -> (hand: Result<Cards, FormatError>)
        ensures
            hand is Ok <==> is_hand_text(s@),
            hand matches Ok(cards) ==> {
                &&& cards.wf()
                &&& cards.has_joker() == split_on(s@, ' ').contains(joker_word())
                &&& forall|r: Rank|
                    cards.ranks().contains(r) <==> names_card(split_on(s@, ' '), 5, r)
            },
    {
        // A longer text is no hand, and is not even cut into words.
        if s.unicode_len() > HAND_TEXT_LIMIT {
            proof {
                if is_hand_text(s@) {
                    lemma_hand_text_is_short(s@);
                }
            }
            return Err(FormatError {});
        }
        let words = split_words(s);
        let ghost named = texts(words@);
        if words.len() != 5 {
            return Err(FormatError {});
        }
        if !all_distinct(&words) {
            return Err(FormatError {});
        }
        let mut jokers: usize = 0;
        let mut rank_cards: Vec<Rank> = Vec::new();
        let mut i: usize = 0;
        while i < 5
            invariant
                i <= 5,
                named == texts(words@),
                named == split_on(s@, ' '),
                named.len() == 5,
                named.no_duplicates(),
                jokers <= 1,
                jokers + rank_cards@.len() == i,
                jokers == 1 <==> exists|j: int| 0 <= j < i && #[trigger] named[j] == joker_word(),
                forall|j: int|
                    0 <= j < i ==> #[trigger] named[j] == joker_word() || card_of(named[j]) is Some,
                ascending(rank_cards@),
                forall|j: int| 0 <= j < rank_cards@.len() ==> (#[trigger] rank_cards@[j]).wf(),
                forall|r: Rank| rank_cards@.contains(r) <==> names_card(named, i as int, r),
            decreases 5 - i,
        {
            let word = words[i];
            if is_joker(word) {
                assert(jokers == 0);
                jokers += 1;
            } else {
                match Rank::parse(word) {
                    Some(card) => {
                        proof {
                            if rank_cards@.contains(card) {
                                let j = choose|j: int|
                                    0 <= j < i && #[trigger] card_of(named[j]) == Some(card);
                                lemma_card_of_injective(named[j], named[i as int]);
                            }
                        }
                        let ghost held = rank_cards@;
                        insert_in_order(&mut rank_cards, card);
                        proof {
                            assert forall|j: int| 0 <= j < rank_cards@.len() implies (#[trigger]
                                rank_cards@[j]).wf() by {
                                assert(held.contains(rank_cards@[j]) || rank_cards@[j] == card);
                            }
                            assert forall|r: Rank| rank_cards@.contains(r) <==> names_card(
                                named,
                                i + 1,
                                r,
                            ) by {
                                if r == card {
                                    assert(card_of(named[i as int]) == Some(r));
                                }
                            }
                        }
                    },
                    None => {
                        return Err(FormatError {});
                    },
                }
            }
            i += 1;
        }
        if jokers == 1 {
            Ok(Cards::JokerCards { joker: Joker {  }, rank_cards })
        } else {
            Ok(Cards::NoJokerCards { rank_cards })
        }
    }
}

/// Cards of which each precedes the next are in ascending order.
pub proof fn lemma_neighbours_ascend(s: Seq<Rank>)
    requires
        forall|j: int| 0 < j < s.len() ==> (#[trigger] s[j - 1]).precedes(s[j]),
    ensures
        ascending(s),
{
    assert forall|i: int, j: int| 0 <= i < j < s.len() implies (#[trigger] s[i]).precedes(
        #[trigger] s[j],
    ) by {
        lemma_precedes_upto(s, i, j);
    }
}

/// A card precedes each later one, where each precedes the next.
proof fn lemma_precedes_upto(s: Seq<Rank>, i: int, j: int)
    requires
        forall|j: int| 0 < j < s.len() ==> (#[trigger] s[j - 1]).precedes(s[j]),
        0 <= i < j < s.len(),
    ensures
        s[i].precedes(s[j]),
    decreases j - i,
{
    assert(s[j - 1].precedes(s[j]));
    if i < j - 1 {
        lemma_precedes_upto(s, i, j - 1);
    }
}

/// Cards in ascending order hold no card twice.
pub proof fn lemma_ascending_no_duplicates(s: Seq<Rank>)
    requires
        ascending(s),
    ensures
        s.no_duplicates(),
{
}

/// The text of a hand has at most [`HAND_TEXT_LIMIT`] characters.
pub proof fn lemma_hand_text_is_short(s: Seq<char>)
    requires
        is_hand_text(s),
    ensures
        s.len() <= HAND_TEXT_LIMIT,
{
    let words = split_on(s, ' ');
    lemma_split_len(s, ' ');
    lemma_total_len_bound(words, 5);
}

/// Whether `word` is the joker's.
fn is_joker(word: &str) -> (b: bool)
    ensures
        b == (word@ == joker_word()),
{
    if word.unicode_len() != 5 {
        return false;
    }
    let b = word.get_char(0) == 'J' && word.get_char(1) == 'o' && word.get_char(2) == 'k'
        && word.get_char(3) == 'e' && word.get_char(4) == 'r';
    assert(b ==> word@ =~= joker_word());
    b
}

/// Puts `card` at its place among the cards of `cards`.
fn insert_in_order(cards: &mut Vec<Rank>, card: Rank)
    requires
        ascending(old(cards)@),
        !old(cards)@.contains(card),
    ensures
        ascending(final(cards)@),
        final(cards)@.len() == old(cards)@.len() + 1,
        forall|r: Rank| final(cards)@.contains(r) <==> old(cards)@.contains(r) || r == card,
{
    let mut at: usize = 0;
    while at < cards.len() && cards[at].comes_before(&card)
        invariant
            at <= cards@.len(),
            cards@ == old(cards)@,
            forall|j: int| 0 <= j < at ==> (#[trigger] cards@[j]).precedes(card),
        decreases cards@.len() - at,
    {
        at += 1;
    }
    let ghost before = cards@;
    cards.insert(at, card);
    proof {
        let after = cards@;
        assert forall|r: Rank| after.contains(r) <==> before.contains(r) || r == card by {
            if before.contains(r) {
                let k = choose|k: int| 0 <= k < before.len() && before[k] == r;
                if k < at {
                    assert(after[k] == r);
                } else {
                    assert(after[k + 1] == r);
                }
            }
            if r == card {
                assert(after[at as int] == r);
            }
        }
    }
}

} // verus!
