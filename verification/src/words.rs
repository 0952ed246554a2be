//! Cutting a line of text into words, and telling whether the words differ.

use itertools::Itertools;
use vstd::prelude::*;

verus! {

/// The pieces into which the occurrences of `sep` cut `s`. There is one
/// piece more than there are separators: two separators in a row, or one
/// at either end, leave an empty piece.
pub open spec fn split_on(s: Seq<char>, sep: char) -> Seq<Seq<char>>
    decreases s.len(),
{
    if s.len() == 0 {
        seq![Seq::<char>::empty()]
    } else {
        let before = split_on(s.drop_last(), sep);
        if s.last() == sep {
            before.push(Seq::<char>::empty())
        } else {
            before.drop_last().push(before.last().push(s.last()))
        }
    }
}

/// The characters of each word.
pub open spec fn texts(words: Seq<&str>) -> Seq<Seq<char>> {
    words.map_values(|w: &str| w@)
}

/// What is left of `s` when every item that occurred earlier is dropped.
pub open spec fn first_occurrences(s: Seq<Seq<char>>) -> Seq<Seq<char>>
    decreases s.len(),
{
    if s.len() == 0 {
        s
    } else if s.drop_last().contains(s.last()) {
        first_occurrences(s.drop_last())
    } else {
        first_occurrences(s.drop_last()).push(s.last())
    }
}

/// Dropping the repeated items shortens a sequence exactly when it has some.
pub proof fn lemma_first_occurrences_len(s: Seq<Seq<char>>)
    ensures
        first_occurrences(s).len() <= s.len(),
        first_occurrences(s).len() == s.len() <==> s.no_duplicates(),
    decreases s.len(),
{
    if s.len() > 0 {
        let init = s.drop_last();
        lemma_first_occurrences_len(init);
        if !init.contains(s.last()) && init.no_duplicates() {
            assert forall|i: int, j: int|
                0 <= i < s.len() && 0 <= j < s.len() && i != j implies s[i] != s[j] by {
                if i < init.len() {
                    assert(s[i] == init[i]);
                }
                if j < init.len() {
                    assert(s[j] == init[j]);
                }
            }
        }
    }
}

/// The characters of all words together.
pub open spec fn total_len(words: Seq<Seq<char>>) -> nat
    decreases words.len(),
{
    if words.len() == 0 {
        0
    } else {
        total_len(words.drop_last()) + words.last().len()
    }
}

/// The pieces of a text hold all its characters but the separators, of
/// which there is one fewer than there are pieces.
pub proof fn lemma_split_len(s: Seq<char>, sep: char)
    ensures
        split_on(s, sep).len() >= 1,
        total_len(split_on(s, sep)) + split_on(s, sep).len() - 1 == s.len(),
    decreases s.len(),
{
    if s.len() == 0 {
        let only = seq![Seq::<char>::empty()];
        assert(total_len(only) == total_len(only.drop_last()) + only.last().len());
    } else {
        lemma_split_len(s.drop_last(), sep);
        let before = split_on(s.drop_last(), sep);
        if s.last() == sep {
            let now = before.push(Seq::<char>::empty());
            assert(now.drop_last() =~= before);
        } else {
            let now = before.drop_last().push(before.last().push(s.last()));
            assert(now.drop_last() =~= before.drop_last());
        }
    }
}

/// Words of at most `most` characters each have at most `most` characters
/// for each word.
pub proof fn lemma_total_len_bound(words: Seq<Seq<char>>, most: nat)
    requires
        forall|i: int| 0 <= i < words.len() ==> (#[trigger] words[i]).len() <= most,
    ensures
        total_len(words) <= words.len() * most,
    decreases words.len(),
{
    if words.len() > 0 {
        let init = words.drop_last();
        lemma_total_len_bound(init, most);
        assert(words.len() * most == init.len() * most + most) by (nonlinear_arith)
            requires
                words.len() == init.len() + 1,
        ;
    }
}

/// Cuts `s` at each space.
pub fn split_words(s: &str) -> (words: Vec<&str>)
    ensures
        texts(words@) == split_on(s@, ' '),
{
    let len = s.unicode_len();
    let mut words: Vec<&str> = Vec::new();
    let mut start: usize = 0;
    let mut i: usize = 0;
    assert(s@.subrange(0, 0) =~= Seq::<char>::empty());
    while i < len
        invariant
            len == s@.len(),
            start <= i <= len,
            texts(words@).push(s@.subrange(start as int, i as int)) == split_on(
                s@.subrange(0, i as int),
                ' ',
            ),
        decreases len - i,
    {
        let ghost next = s@.subrange(0, i + 1);
        assert(next.drop_last() =~= s@.subrange(0, i as int));
        if s.get_char(i) == ' ' {
            words.push(s.substring_char(start, i));
            start = i + 1;
            assert(s@.subrange(start as int, i + 1) =~= Seq::<char>::empty());
        } else {
            let ghost piece = s@.subrange(start as int, i as int);
            assert(piece.push(s@[i as int]) =~= s@.subrange(start as int, i + 1));
        }
        i += 1;
    }
    words.push(s.substring_char(start, len));
    assert(s@.subrange(0, len as int) =~= s@);
    words
}

/// The words without their repetitions, by `Itertools::unique`: of equal
/// words the first stays, and the words that stay keep their order.
#[verifier::external_body]
fn unique_words<'a>(words: &Vec<&'a str>) -> (kept: Vec<&'a str>)
    ensures
        texts(kept@) == first_occurrences(texts(words@)),
{
    words.iter().copied().unique().collect_vec()
}

/// Whether no word occurs twice.
pub fn all_distinct(words: &Vec<&str>) -> (b: bool)
    ensures
        b == texts(words@).no_duplicates(),
{
    let kept = unique_words(words);
    proof {
        lemma_first_occurrences_len(texts(words@));
    }
    kept.len() == words.len()
}

} // verus!
