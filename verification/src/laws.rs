//! Deck-level laws: what a freshly built deck contains, and what survives
//! a rearrangement.

use vstd::prelude::*;

use crate::deck::Card;
use crate::deck::Rank;
use crate::deck::Suit;
use crate::deck::all_ranks;
use crate::deck::all_suits;
use crate::deck::canonical_card;
use crate::deck::canonical_deck;
use crate::deck::canonical_index;
use crate::deck::has_suit;
use crate::deck::rank_weight;
use crate::deck::suit_weight;

verus! {

/// The rank at a position of the rank table weighs two more than the
/// position; so the table is injective.
proof fn lemma_rank_at(j: int)
    requires
        0 <= j < 13,
    ensures
        rank_weight(all_ranks()[j]) == j + 2,
{
}

/// The suit at a position of the suit table weighs one more than the
/// position; so the table is injective.
proof fn lemma_suit_at(j: int)
    requires
        0 <= j < 4,
    ensures
        suit_weight(all_suits()[j]) == j + 1,
{
}

/// A card's canonical position carries that very card, and lies in range.
proof fn lemma_card_at_canonical_index(c: Card)
    ensures
        0 <= canonical_index(c) < 52,
        canonical_card(canonical_index(c)) == c,
{
    let k = canonical_index(c);
    let rw = rank_weight(c.rank);
    let sw = suit_weight(c.suit);
    assert(k == 13 * (sw - 1) + (rw - 2));
    assert(k % 13 == rw - 2 && k / 13 == sw - 1) by (nonlinear_arith)
        requires
            k == 13 * (sw - 1) + (rw - 2),
            1 <= sw <= 4,
            2 <= rw <= 14,
    ;
    lemma_rank_at(rw - 2);
    lemma_suit_at(sw - 1);
}

/// Distinct positions of a fresh deck carry distinct cards.
proof fn lemma_canonical_card_injective(i: int)
    requires
        0 <= i < 52,
    ensures
        canonical_index(canonical_card(i)) == i,
{
    vstd::arithmetic::div_mod::lemma_fundamental_div_mod(i, 13);
    lemma_rank_at(i % 13);
    lemma_suit_at(i / 13);
}

/// A freshly built deck holds exactly one card of each rank-suit
/// combination: the card stands at its canonical position and nowhere
/// else, so the 52 positions carry 52 distinct cards.
pub proof fn lemma_new_deck_one_of_each(rank: Rank, suit: Suit)
    ensures
        canonical_deck().len() == 52,
        0 <= canonical_index(Card { rank, suit }) < 52,
        canonical_deck()[canonical_index(Card { rank, suit })] == (Card { rank, suit }),
        forall|i: int|
            0 <= i < 52 && i != canonical_index(Card { rank, suit })
                ==> canonical_deck()[i] != (Card { rank, suit }),
{
    let c = Card { rank, suit };
    lemma_card_at_canonical_index(c);
    assert forall|i: int|
        0 <= i < 52 && i != canonical_index(c) implies canonical_deck()[i] != c by {
        lemma_canonical_card_injective(i);
    }
}

/// Filtering commutes with passing from a sequence to its multiset.
proof fn lemma_filter_to_multiset(s: Seq<Card>, p: spec_fn(Card) -> bool)
    ensures
        s.filter(p).to_multiset() == s.to_multiset().filter(p),
    decreases s.len(),
{
    broadcast use vstd::seq_lib::group_to_multiset_ensures;
    broadcast use vstd::multiset::group_multiset_axioms;

    reveal_with_fuel(Seq::filter, 2);
    if s.len() == 0 {
        assert(s.filter(p) =~= Seq::<Card>::empty());
        assert(s.filter(p).to_multiset() =~= s.to_multiset().filter(p));
    } else {
        let last = s.last();
        let rest = s.drop_last();
        lemma_filter_to_multiset(rest, p);
        assert(s =~= rest.push(last));
        assert(s.to_multiset() == rest.push(last).to_multiset());
        if p(last) {
            assert(s.filter(p) == rest.filter(p).push(last));
            assert(s.filter(p).to_multiset() == rest.filter(p).to_multiset().insert(last));
            assert(s.to_multiset().filter(p) =~= rest.to_multiset().filter(p).insert(last));
        } else {
            assert(s.filter(p) == rest.filter(p));
            assert(s.to_multiset().filter(p) =~= rest.to_multiset().filter(p));
        }
    }
}

/// A filter whose predicate holds of every element keeps the whole sequence.
proof fn lemma_filter_keeps_all(s: Seq<Card>, p: spec_fn(Card) -> bool)
    requires
        forall|i: int| 0 <= i < s.len() ==> p(s[i]),
    ensures
        s.filter(p) == s,
    decreases s.len(),
{
    reveal_with_fuel(Seq::filter, 2);
    if s.len() == 0 {
        assert(s.filter(p) =~= s);
    } else {
        lemma_filter_keeps_all(s.drop_last(), p);
        assert(s.filter(p) =~= s);
    }
}

/// A filter whose predicate holds of no element keeps nothing.
proof fn lemma_filter_keeps_none(s: Seq<Card>, p: spec_fn(Card) -> bool)
    requires
        forall|i: int| 0 <= i < s.len() ==> !p(s[i]),
    ensures
        s.filter(p) == Seq::<Card>::empty(),
    decreases s.len(),
{
    reveal_with_fuel(Seq::filter, 2);
    if s.len() == 0 {
        assert(s.filter(p) =~= Seq::<Card>::empty());
    } else {
        lemma_filter_keeps_none(s.drop_last(), p);
    }
}

/// One thirteen-card block of the fresh deck: the cards of the suit at
/// position `k` of the suit table.
proof fn lemma_canonical_block_filter(k: int, suit: Suit)
    requires
        0 <= k < 4,
    ensures
        all_suits()[k] == suit ==> canonical_deck().subrange(13 * k, 13 * k + 13).filter(
            has_suit(suit),
        ).len() == 13,
        all_suits()[k] != suit ==> canonical_deck().subrange(13 * k, 13 * k + 13).filter(
            has_suit(suit),
        ).len() == 0,
{
    let block = canonical_deck().subrange(13 * k, 13 * k + 13);
    assert forall|i: int| 0 <= i < 13 implies block[i].suit == all_suits()[k] by {
        let n = 13 * k + i;
        assert(block[i] == canonical_card(n));
        assert(n / 13 == k) by (nonlinear_arith)
            requires
                n == 13 * k + i,
                0 <= i < 13,
                0 <= k < 4,
        ;
    }
    if all_suits()[k] == suit {
        lemma_filter_keeps_all(block, has_suit(suit));
    } else {
        lemma_filter_keeps_none(block, has_suit(suit));
    }
}

/// A fresh deck filtered by any one suit gives thirteen cards.
proof fn lemma_canonical_filter_suit(suit: Suit)
    ensures
        canonical_deck().filter(has_suit(suit)).len() == 13,
{
    broadcast use Seq::filter_distributes_over_add;

    let d = canonical_deck();
    let b0 = d.subrange(0, 13);
    let b1 = d.subrange(13, 26);
    let b2 = d.subrange(26, 39);
    let b3 = d.subrange(39, 52);
    assert(d =~= b0 + b1 + b2 + b3);
    let p = has_suit(suit);
    assert(d.filter(p) == b0.filter(p) + b1.filter(p) + b2.filter(p) + b3.filter(p));
    lemma_canonical_block_filter(0, suit);
    lemma_canonical_block_filter(1, suit);
    lemma_canonical_block_filter(2, suit);
    lemma_canonical_block_filter(3, suit);
    lemma_suit_at(suit_weight(suit) - 1);
    assert(all_suits()[suit_weight(suit) - 1] == suit);
}

/// However a full deck has been rearranged — shuffled, sorted, both — a
/// filter by suit still selects exactly thirteen cards.
pub proof fn lemma_cards_by_suit_thirteen(cards: Seq<Card>, suit: Suit)
    requires
        cards.to_multiset() == canonical_deck().to_multiset(),
    ensures
        cards.filter(has_suit(suit)).len() == 13,
{
    broadcast use vstd::seq_lib::group_to_multiset_ensures;

    let p = has_suit(suit);
    lemma_filter_to_multiset(cards, p);
    lemma_filter_to_multiset(canonical_deck(), p);
    lemma_canonical_filter_suit(suit);
    assert(cards.filter(p).len() == cards.filter(p).to_multiset().len());
    assert(canonical_deck().filter(p).len() == canonical_deck().filter(p).to_multiset().len());
}

} // verus!
