//! The French deck: suits, ranks, cards, and the 52-card deck itself.

use vstd::prelude::*;

verus! {

use core::cmp::Ordering;
use vstd::std_specs::iter::IteratorSpec;
use vstd::string::StringExecFns;

/// The four suits. The default card order ranks them
/// Spades < Hearts < Diamonds < Clubs, in declaration order.
#[derive(Clone, Copy, Debug, PartialEq, Eq, Hash, Structural)]
pub enum Suit {
    Spades,
    Hearts,
    Diamonds,
    Clubs,
}

/// The thirteen ranks, Two lowest and Ace highest.
#[derive(Clone, Copy, Debug, PartialEq, Eq, Hash, Structural)]
pub enum Rank {
    Two,
    Three,
    Four,
    Five,
    Six,
    Seven,
    Eight,
    Nine,
    Ten,
    Jack,
    Queen,
    King,
    Ace,
}

/// The numeric weight of a suit in the default card order:
/// Spades 1, Hearts 2, Diamonds 3, Clubs 4.
pub open spec fn suit_weight(s: Suit) -> int {
    match s {
        Suit::Spades => 1,
        Suit::Hearts => 2,
        Suit::Diamonds => 3,
        Suit::Clubs => 4,
    }
}

/// The numeric weight of a rank: Two is 2, ..., King is 13, Ace is 14.
pub open spec fn rank_weight(r: Rank) -> int {
    match r {
        Rank::Two => 2,
        Rank::Three => 3,
        Rank::Four => 4,
        Rank::Five => 5,
        Rank::Six => 6,
        Rank::Seven => 7,
        Rank::Eight => 8,
        Rank::Nine => 9,
        Rank::Ten => 10,
        Rank::Jack => 11,
        Rank::Queen => 12,
        Rank::King => 13,
        Rank::Ace => 14,
    }
}

/// The four suits in declaration order.
pub open spec fn all_suits() -> Seq<Suit> {
    seq![Suit::Spades, Suit::Hearts, Suit::Diamonds, Suit::Clubs]
}

/// The thirteen ranks in ascending order of weight.
pub open spec fn all_ranks() -> Seq<Rank> {
    seq![
        Rank::Two,
        Rank::Three,
        Rank::Four,
        Rank::Five,
        Rank::Six,
        Rank::Seven,
        Rank::Eight,
        Rank::Nine,
        Rank::Ten,
        Rank::Jack,
        Rank::Queen,
        Rank::King,
        Rank::Ace,
    ]
}

impl Suit {
    /// All suits, in the order the deck is built in.
    pub fn all() -> (suits: Vec<Suit>)
        ensures
            suits@ == all_suits(),
    {
        let mut suits: Vec<Suit> = Vec::new();
        suits.push(Suit::Spades);
        suits.push(Suit::Hearts);
        suits.push(Suit::Diamonds);
        suits.push(Suit::Clubs);
        proof {
            assert(suits@ =~= all_suits());
        }
        suits
    }
}

impl Rank {
    /// All ranks, in ascending order of weight.
    pub fn all() -> (ranks: Vec<Rank>)
        ensures
            ranks@ == all_ranks(),
    {
        let mut ranks: Vec<Rank> = Vec::new();
        ranks.push(Rank::Two);
        ranks.push(Rank::Three);
        ranks.push(Rank::Four);
        ranks.push(Rank::Five);
        ranks.push(Rank::Six);
        ranks.push(Rank::Seven);
        ranks.push(Rank::Eight);
        ranks.push(Rank::Nine);
        ranks.push(Rank::Ten);
        ranks.push(Rank::Jack);
        ranks.push(Rank::Queen);
        ranks.push(Rank::King);
        ranks.push(Rank::Ace);
        proof {
            assert(ranks@ =~= all_ranks());
        }
        ranks
    }

    /// The rank's numeric weight, 2 through 14.
    pub fn value(self) -> (v: u8)
        ensures
            v as int == rank_weight(self),
    {
        match self {
            Rank::Two => 2,
            Rank::Three => 3,
            Rank::Four => 4,
            Rank::Five => 5,
            Rank::Six => 6,
            Rank::Seven => 7,
            Rank::Eight => 8,
            Rank::Nine => 9,
            Rank::Ten => 10,
            Rank::Jack => 11,
            Rank::Queen => 12,
            Rank::King => 13,
            Rank::Ace => 14,
        }
    }
}

/// The name a suit is printed under.
pub open spec fn suit_label(s: Suit) -> Seq<char> {
    match s {
        Suit::Spades => "Spades"@,
        Suit::Hearts => "Hearts"@,
        Suit::Diamonds => "Diamonds"@,
        Suit::Clubs => "Clubs"@,
    }
}

/// The name a rank is printed under: the digits for Two through Ten, the
/// court names and Ace spelled out.
pub open spec fn rank_label(r: Rank) -> Seq<char> {
    match r {
        Rank::Two => "2"@,
        Rank::Three => "3"@,
        Rank::Four => "4"@,
        Rank::Five => "5"@,
        Rank::Six => "6"@,
        Rank::Seven => "7"@,
        Rank::Eight => "8"@,
        Rank::Nine => "9"@,
        Rank::Ten => "10"@,
        Rank::Jack => "Jack"@,
        Rank::Queen => "Queen"@,
        Rank::King => "King"@,
        Rank::Ace => "Ace"@,
    }
}

/// The text a card is printed as: its rank's name, " of ", its suit's name.
pub open spec fn card_label(c: Card) -> Seq<char> {
    rank_label(c.rank) + " of "@ + suit_label(c.suit)
}

impl Suit {
    /// The suit's name as text.
    pub fn label(&self) -> (s: String)
        ensures
            s@ == suit_label(*self),
    {
        match self {
            Suit::Spades => String::from_str("Spades"),
            Suit::Hearts => String::from_str("Hearts"),
            Suit::Diamonds => String::from_str("Diamonds"),
            Suit::Clubs => String::from_str("Clubs"),
        }
    }
}

impl Rank {
    /// The rank's name as text.
    pub fn label(&self) -> (s: String)
        ensures
            s@ == rank_label(*self),
    {
        match self {
            Rank::Two => String::from_str("2"),
            Rank::Three => String::from_str("3"),
            Rank::Four => String::from_str("4"),
            Rank::Five => String::from_str("5"),
            Rank::Six => String::from_str("6"),
            Rank::Seven => String::from_str("7"),
            Rank::Eight => String::from_str("8"),
            Rank::Nine => String::from_str("9"),
            Rank::Ten => String::from_str("10"),
            Rank::Jack => String::from_str("Jack"),
            Rank::Queen => String::from_str("Queen"),
            Rank::King => String::from_str("King"),
            Rank::Ace => String::from_str("Ace"),
        }
    }
}

/// A playing card: a rank paired with a suit.
#[derive(Clone, Copy, Debug, PartialEq, Eq, Hash, Structural)]
pub struct Card {
    pub rank: Rank,
    pub suit: Suit,
}

impl Card {
    /// Pair a rank with a suit.
    pub fn new(rank: Rank, suit: Suit) -> (c: Card)
        ensures
            c == (Card { rank, suit }),
    {
        Card { rank, suit }
    }

    /// The card's rank weight, the primary sort key of the default order.
    pub fn rank_value(self) -> (v: u8)
        ensures
            v as int == rank_weight(self.rank),
    {
        self.rank.value()
    }

    /// The card's suit weight, the tie-break key of the default order.
    pub fn suit_value(self) -> (v: u8)
        ensures
            v as int == suit_weight(self.suit),
    {
        match self.suit {
            Suit::Spades => 1,
            Suit::Hearts => 2,
            Suit::Diamonds => 3,
            Suit::Clubs => 4,
        }
    }
}

/// The default total order on cards: rank weight first, the suit weight
/// (Spades lowest) only as the tie-break.
pub open spec fn card_cmp(a: Card, b: Card) -> Ordering {
    if rank_weight(a.rank) < rank_weight(b.rank) {
        Ordering::Less
    } else if rank_weight(a.rank) > rank_weight(b.rank) {
        Ordering::Greater
    } else if suit_weight(a.suit) < suit_weight(b.suit) {
        Ordering::Less
    } else if suit_weight(a.suit) > suit_weight(b.suit) {
        Ordering::Greater
    } else {
        Ordering::Equal
    }
}

impl PartialOrd for Card {
    /// Compare by rank weight, then by suit weight.
    fn partial_cmp(&self, other: &Self) -> (r: Option<Ordering>) {
        let ra = self.rank_value();
        let rb = other.rank_value();
        if ra < rb {
            Some(Ordering::Less)
        } else if ra > rb {
            Some(Ordering::Greater)
        } else {
            let sa = self.suit_value();
            let sb = other.suit_value();
            if sa < sb {
                Some(Ordering::Less)
            } else if sa > sb {
                Some(Ordering::Greater)
            } else {
                Some(Ordering::Equal)
            }
        }
    }
}

impl vstd::std_specs::cmp::PartialOrdSpecImpl for Card {
    open spec fn obeys_partial_cmp_spec() -> bool {
        true
    }

    open spec fn partial_cmp_spec(&self, other: &Self) -> Option<Ordering> {
        Some(card_cmp(*self, *other))
    }
}

/// Rank dominates suit in the default card order: a card of strictly
/// greater rank weight beats any other card of lower rank weight, whatever
/// either suit is.
pub proof fn lemma_card_order_rank_dominates(a: Card, b: Card)
    requires
        rank_weight(a.rank) > rank_weight(b.rank),
    ensures
        card_cmp(a, b) == Ordering::Greater,
        card_cmp(b, a) == Ordering::Less,
{
}

/// The spades-high key ranks the suits exactly the other way round from
/// the default card order: the lower a suit's weight, the higher its
/// spades-high priority.
pub proof fn lemma_suit_orders_reversed(a: Suit, b: Suit)
    ensures
        suit_weight(a) < suit_weight(b) <==> spades_priority(a) > spades_priority(b),
{
}

/// The card standing at position `i` of a freshly built deck: suits in
/// declaration order in blocks of thirteen, ranks ascending inside a block.
pub open spec fn canonical_card(i: int) -> Card {
    Card { rank: all_ranks()[i % 13], suit: all_suits()[i / 13] }
}

/// A freshly built deck: all 52 cards, suit-major, rank-minor.
pub open spec fn canonical_deck() -> Seq<Card> {
    Seq::new(52, |i: int| canonical_card(i))
}

/// The position a card takes in a freshly built deck.
pub open spec fn canonical_index(c: Card) -> int {
    13 * (suit_weight(c.suit) - 1) + rank_weight(c.rank) - 2
}

/// An ordered deck of playing cards, 52 distinct ones when freshly built.
#[derive(Clone, Debug, PartialEq, Eq)]
pub struct FrenchDeck {
    cards: Vec<Card>,
}

impl View for FrenchDeck {
    type V = Seq<Card>;

    closed spec fn view(&self) -> Seq<Card> {
        self.cards@
    }
}

impl FrenchDeck {
    /// Build the deck in canonical order: for each suit in declaration
    /// order, the thirteen ranks ascending.
    pub fn new() -> (deck: FrenchDeck)
        ensures
            deck@ == canonical_deck(),
            deck@.len() == 52,
    {
        let suits = Suit::all();
        let ranks = Rank::all();
        let mut cards: Vec<Card> = Vec::with_capacity(52);
        let mut si: usize = 0;
        while si < 4
            invariant
                si <= 4,
                suits@ == all_suits(),
                ranks@ == all_ranks(),
                cards@.len() == 13 * si,
                forall|k: int| 0 <= k < cards@.len() ==> cards@[k] == canonical_card(k),
            decreases 4 - si,
        {
            let mut ri: usize = 0;
            while ri < 13
                invariant
                    si < 4,
                    ri <= 13,
                    suits@ == all_suits(),
                    ranks@ == all_ranks(),
                    cards@.len() == 13 * si + ri,
                    forall|k: int| 0 <= k < cards@.len() ==> cards@[k] == canonical_card(k),
                decreases 13 - ri,
            {
                let card = Card { rank: ranks[ri], suit: suits[si] };
                proof {
                    let n = 13 * si + ri;
                    assert(n % 13 == ri as int && n / 13 == si as int) by (nonlinear_arith)
                        requires
                            n == 13 * si + ri,
                            si < 4,
                            ri < 13,
                    ;
                    assert(canonical_card(n as int) == card);
                }
                cards.push(card);
                ri = ri + 1;
            }
            si = si + 1;
        }
        proof {
            assert(cards@ =~= canonical_deck());
        }
        FrenchDeck { cards }
    }

    /// How many cards the deck holds.
    pub fn len(&self) -> (n: usize)
        ensures
            n == self@.len(),
    {
        self.cards.len()
    }

    /// Whether the deck holds no cards at all.
    pub fn is_empty(&self) -> (b: bool)
        ensures
            b == (self@.len() == 0),
    {
        self.cards.is_empty()
    }

    /// The card at `index`, or `None` when the index is out of range.
    pub fn get(&self, index: usize) -> (r: Option<&Card>)
        ensures
            match r {
                Some(c) => index < self@.len() && *c == self@[index as int],
                None => index >= self@.len(),
            },
    {
        if index < self.cards.len() {
            Some(&self.cards[index])
        } else {
            None
        }
    }

    /// The card at `index`; the caller owes a valid index.
    pub fn at(&self, index: usize) -> (c: &Card)
        requires
            index < self@.len(),
        ensures
            *c == self@[index as int],
    {
        &self.cards[index]
    }

    /// A read-only view of the cards at positions `range`, which must lie
    /// within bounds.
    pub fn slice(&self, range: core::ops::Range<usize>) -> (cards: &[Card])
        requires
            range.start <= range.end <= self@.len(),
        ensures
            cards@ == self@.subrange(range.start as int, range.end as int),
    {
        &self.cards.as_slice()[range]
    }

    /// An iterator over the cards in their current order.
    pub fn iter(&self) -> (it: core::slice::Iter<'_, Card>)
        ensures
            it.remaining() == self@.as_ref(),
    {
        proof {
            broadcast use vstd::std_specs::slice::group_slice_axioms;

        }
        self.cards.as_slice().iter()
    }

    /// Give up the deck and keep its cards.
    pub fn into_vec(self) -> (cards: Vec<Card>)
        ensures
            cards@ == self@,
    {
        self.cards
    }
}

/// The predicate a suit filter selects by: the card wears that suit.
pub open spec fn has_suit(suit: Suit) -> spec_fn(Card) -> bool {
    |c: Card| c.suit == suit
}

/// The predicate that picks the cards of one rank.
pub open spec fn has_rank(rank: Rank) -> spec_fn(Card) -> bool {
    |c: Card| c.rank == rank
}

/// The order `sort_by_rank` sorts in: by rank weight alone, ascending, or
/// descending when `reverse` is set. Suits never enter it.
pub open spec fn rank_le(a: Card, b: Card, reverse: bool) -> bool {
    if reverse {
        rank_weight(b.rank) <= rank_weight(a.rank)
    } else {
        rank_weight(a.rank) <= rank_weight(b.rank)
    }
}

/// Every pair of positions is in order under `rank_le`.
pub open spec fn sorted_by_rank(s: Seq<Card>, reverse: bool) -> bool {
    forall|i: int, j: int| 0 <= i < j < s.len() ==> rank_le(s[i], s[j], reverse)
}

/// Swapping two positions of a sequence leaves its multiset as it was.
proof fn lemma_swap_preserves_multiset(s: Seq<Card>, x: int, y: int)
    requires
        0 <= x < s.len(),
        0 <= y < s.len(),
    ensures
        s.update(x, s[y]).update(y, s[x]).to_multiset() == s.to_multiset(),
{
    broadcast use vstd::seq_lib::group_to_multiset_ensures;
    broadcast use vstd::seq_lib::to_multiset_update;
    broadcast use vstd::multiset::group_multiset_axioms;

    if x == y {
        assert(s.update(x, s[y]).update(y, s[x]) =~= s);
    } else {
        let s1 = s.update(x, s[y]);
        let s2 = s1.update(y, s[x]);
        assert(s1[y] == s[y]);
        assert(s1.to_multiset() == s.to_multiset().insert(s[y]).remove(s[x]));
        assert(s2.to_multiset() == s1.to_multiset().insert(s[x]).remove(s[y]));
        assert(s2.to_multiset() =~= s.to_multiset());
    }
}

/// Swapping two neighbours of which at most one is selected leaves a
/// filter's result as it was: only the order inside a selected pair could
/// change it.
proof fn lemma_adjacent_swap_keeps_filter(s: Seq<Card>, j: int, p: spec_fn(Card) -> bool)
    requires
        1 <= j < s.len(),
        !(p(s[j - 1]) && p(s[j])),
    ensures
        s.update(j - 1, s[j]).update(j, s[j - 1]).filter(p) == s.filter(p),
{
    broadcast use Seq::filter_distributes_over_add;

    let t = s.update(j - 1, s[j]).update(j, s[j - 1]);
    let pre = s.subrange(0, j - 1);
    let post = s.subrange(j + 1, s.len() as int);
    let mid = seq![s[j - 1], s[j]];
    let mid_swapped = seq![s[j], s[j - 1]];
    assert(s =~= pre + mid + post);
    assert(t =~= pre + mid_swapped + post);
    reveal_with_fuel(Seq::filter, 3);
    assert(mid.drop_last() =~= seq![s[j - 1]]);
    assert(mid_swapped.drop_last() =~= seq![s[j]]);
    assert(seq![s[j - 1]].drop_last() =~= Seq::<Card>::empty());
    assert(seq![s[j]].drop_last() =~= Seq::<Card>::empty());
    assert(mid.filter(p) =~= mid_swapped.filter(p));
    assert((pre + mid).filter(p) == pre.filter(p) + mid.filter(p));
    assert((pre + mid_swapped).filter(p) == pre.filter(p) + mid_swapped.filter(p));
    assert(s.filter(p) == (pre + mid).filter(p) + post.filter(p));
    assert(t.filter(p) == (pre + mid_swapped).filter(p) + post.filter(p));
}

/// Holds of position `i` when the card there has the greatest rank weight
/// in `s` and is the last card of that weight: the card that a rank-only
/// maximum scan settles on.
pub open spec fn highest_at(s: Seq<Card>, i: int) -> bool {
    &&& 0 <= i < s.len()
    &&& forall|j: int| 0 <= j < s.len() ==> rank_weight(s[j].rank) <= rank_weight(s[i].rank)
    &&& forall|j: int| i < j < s.len() ==> rank_weight(s[j].rank) < rank_weight(s[i].rank)
}

/// Whether two cards stand in sorting order, by rank weight alone.
fn rank_in_order(a: &Card, b: &Card, reverse: bool) -> (r: bool)
    ensures
        r == rank_le(*a, *b, reverse),
{
    if reverse {
        b.rank_value() <= a.rank_value()
    } else {
        a.rank_value() <= b.rank_value()
    }
}

/// Relies on rand's `SliceRandom::shuffle` with the thread-local generator:
/// a Fisher-Yates shuffle built from swaps, so it permutes the slice in
/// place and keeps the multiset of elements; which permutation comes out
/// depends on the generator's state.
#[verifier::external_body]
fn shuffle_in_place(cards: &mut Vec<Card>)
    ensures
        final(cards)@.to_multiset() == old(cards)@.to_multiset(),
{
    let mut rng = rand::thread_rng();
    rand::seq::SliceRandom::shuffle(cards.as_mut_slice(), &mut rng);
}

impl FrenchDeck {
    /// Put the cards into a random order. The multiset of cards is kept:
    /// the same 52 cards in some permutation, nothing promised of which.
    pub fn shuffle(&mut self)
        ensures
            final(self)@.to_multiset() == old(self)@.to_multiset(),
            final(self)@.len() == old(self)@.len(),
    {
        shuffle_in_place(&mut self.cards);
        proof {
            self@.to_multiset_ensures();
            old(self)@.to_multiset_ensures();
        }
    }

    /// Every card of the given suit, in the order the deck holds them:
    /// a stable filter.
    pub fn cards_by_suit(&self, suit: Suit) -> (matching: Vec<Card>)
        ensures
            matching@ == self@.filter(has_suit(suit)),
    {
        let mut matching: Vec<Card> = Vec::new();
        let mut i: usize = 0;
        while i < self.cards.len()
            invariant
                i <= self@.len(),
                matching@ == self@.subrange(0, i as int).filter(has_suit(suit)),
            decreases self@.len() - i,
        {
            proof {
                let pred = has_suit(suit);
                let pre = self@.subrange(0, i as int);
                let cur = self@.subrange(0, i as int + 1);
                assert(cur.drop_last() =~= pre);
                assert(cur.last() == self@[i as int]);
                reveal_with_fuel(Seq::filter, 2);
                assert(cur.filter(pred) == if pred(self@[i as int]) {
                    pre.filter(pred).push(self@[i as int])
                } else {
                    pre.filter(pred)
                });
            }
            if self.cards[i].suit == suit {
                matching.push(self.cards[i]);
            }
            i = i + 1;
        }
        proof {
            assert(self@.subrange(0, self@.len() as int) =~= self@);
        }
        matching
    }

    /// Sort the cards in place by rank weight alone, ascending, or
    /// descending when `reverse` is set. The sort is stable: the cards of
    /// any one rank keep their relative order, so the multiset of cards is
    /// kept too.
    pub fn sort_by_rank(&mut self, reverse: bool)
        ensures
            final(self)@.to_multiset() == old(self)@.to_multiset(),
            final(self)@.len() == old(self)@.len(),
            sorted_by_rank(final(self)@, reverse),
            forall|r: Rank| #[trigger] final(self)@.filter(has_rank(r)) == old(self)@.filter(
                has_rank(r),
            ),
    {
        let n = self.cards.len();
        let mut i: usize = 1;
        while i < n
            invariant
                1 <= i,
                n == self@.len(),
                self@.to_multiset() == old(self)@.to_multiset(),
                forall|a: int, b: int| 0 <= a < b < i ==> rank_le(self@[a], self@[b], reverse),
                forall|r: Rank| #[trigger] self@.filter(has_rank(r)) == old(self)@.filter(
                    has_rank(r),
                ),
            decreases n - i,
        {
            let mut j: usize = i;
            while j > 0 && !rank_in_order(&self.cards[j - 1], &self.cards[j], reverse)
                invariant
                    j <= i < n,
                    n == self@.len(),
                    self@.to_multiset() == old(self)@.to_multiset(),
                    forall|a: int, b: int|
                        0 <= a < b <= i && b != j ==> rank_le(self@[a], self@[b], reverse),
                    forall|b: int| j < b <= i ==> rank_le(self@[j as int], self@[b], reverse),
                    forall|r: Rank| #[trigger] self@.filter(has_rank(r)) == old(self)@.filter(
                        has_rank(r),
                    ),
                decreases j,
            {
                let ghost pre = self@;
                let lower = self.cards[j - 1];
                let upper = self.cards[j];
                self.cards[j - 1] = upper;
                self.cards[j] = lower;
                proof {
                    assert(self@ =~= pre.update(j - 1, pre[j as int]).update(
                        j as int,
                        pre[j - 1],
                    ));
                    lemma_swap_preserves_multiset(pre, j - 1, j as int);
                    assert forall|r: Rank| #[trigger] self@.filter(has_rank(r)) == old(
                        self,
                    )@.filter(has_rank(r)) by {
                        let p = has_rank(r);
                        assert(!(p(pre[j - 1]) && p(pre[j as int])));
                        lemma_adjacent_swap_keeps_filter(pre, j as int, p);
                    }
                }
                j = j - 1;
            }
            proof {
                assert forall|a: int, b: int|
                    0 <= a < b <= i implies rank_le(self@[a], self@[b], reverse) by {
                    if b == j && a < j - 1 {
                        assert(rank_le(self@[a], self@[j - 1], reverse));
                        assert(rank_le(self@[j - 1], self@[j as int], reverse));
                    }
                }
            }
            i = i + 1;
        }
    }

    /// The card with the greatest rank weight; of several cards of that
    /// weight, the last one in deck order. `None` only on an empty deck.
    pub fn highest_card(&self) -> (r: Option<&Card>)
        ensures
            match r {
                None => self@.len() == 0,
                Some(c) => exists|i: int| #[trigger] highest_at(self@, i) && *c == self@[i],
            },
    {
        if self.cards.len() == 0 {
            return None;
        }
        let mut best: usize = 0;
        let mut i: usize = 1;
        while i < self.cards.len()
            invariant
                best < i <= self@.len(),
                forall|j: int| 0 <= j < i ==> rank_weight(self@[j].rank)
                    <= rank_weight(self@[best as int].rank),
                forall|j: int| best < j < i ==> rank_weight(self@[j].rank)
                    < rank_weight(self@[best as int].rank),
            decreases self@.len() - i,
        {
            if self.cards[i].rank_value() >= self.cards[best].rank_value() {
                best = i;
            }
            i = i + 1;
        }
        proof {
            assert(highest_at(self@, best as int));
        }
        Some(&self.cards[best])
    }
}

impl Default for FrenchDeck {
    /// The same deck as `new`: all 52 cards in canonical order.
    fn default() -> (deck: Self)
        ensures
            deck@ == canonical_deck(),
    {
        Self::new()
    }
}

impl Card {
    /// The card's text, rank first: an ace of spades reads "Ace of Spades".
    pub fn label(&self) -> (s: String)
        ensures
            s@ == card_label(*self),
    {
        let mut s = self.rank.label();
        s.append(" of ");
        let suit = self.suit.label();
        s.append(suit.as_str());
        s
    }
}

/// The spades-high key of a card: its rank weight first, then a suit
/// priority that ranks Spades above Hearts above Diamonds above Clubs,
/// the reverse of the suit direction of the default order.
pub open spec fn spades_priority(s: Suit) -> int {
    match s {
        Suit::Spades => 4,
        Suit::Hearts => 3,
        Suit::Diamonds => 2,
        Suit::Clubs => 1,
    }
}

/// The composite spades-high key of a card, for the alternative total
/// order in which Spades is the strongest suit.
pub fn spades_high_rank(card: &Card) -> (key: (u8, u8))
    ensures
        key.0 as int == rank_weight(card.rank),
        key.1 as int == spades_priority(card.suit),
{
    let suit_priority: u8 = match card.suit {
        Suit::Spades => 4,
        Suit::Hearts => 3,
        Suit::Diamonds => 2,
        Suit::Clubs => 1,
    };
    (card.rank_value(), suit_priority)
}

} // verus!
