use french_deck::Card;
use french_deck::FrenchDeck;
use french_deck::Rank;
use french_deck::Suit;
use french_deck::spades_high_rank;

fn sorted_cards(deck: &FrenchDeck) -> Vec<Card> {
    let mut cards = deck.clone().into_vec();
    cards.sort_by_key(|c| (c.rank_value(), c.suit_value()));
    cards
}

#[test]
fn test_deck_one_of_each() {
    let deck = FrenchDeck::new();
    for suit in Suit::all() {
        for rank in Rank::all() {
            let wanted = Card::new(rank, suit);
            let mut count = 0;
            for card in deck.iter() {
                if *card == wanted {
                    count += 1;
                }
            }
            assert_eq!(count, 1);
        }
    }
}

#[test]
fn test_shuffle_keeps_cards() {
    let mut deck = FrenchDeck::new();
    let before = sorted_cards(&deck);
    deck.shuffle();
    let after = sorted_cards(&deck);
    assert_eq!(before, after);
}

#[test]
fn test_cards_by_suit_after_shuffle() {
    let mut deck = FrenchDeck::new();
    deck.shuffle();
    for suit in Suit::all() {
        let matching = deck.cards_by_suit(suit);
        assert_eq!(matching.len(), 13);
        for card in matching {
            assert_eq!(card.suit, suit);
        }
    }
}

#[test]
fn test_sort_by_rank_ascending() {
    let mut deck = FrenchDeck::new();
    deck.shuffle();
    deck.sort_by_rank(false);
    let cards = deck.into_vec();
    for pair in cards.windows(2) {
        assert!(pair[0].rank_value() <= pair[1].rank_value());
    }
}

#[test]
fn test_sort_by_rank_descending() {
    let mut deck = FrenchDeck::new();
    deck.shuffle();
    deck.sort_by_rank(true);
    let cards = deck.into_vec();
    for pair in cards.windows(2) {
        assert!(pair[0].rank_value() >= pair[1].rank_value());
    }
}

#[test]
fn test_sort_by_rank_is_stable() {
    // Sorting a fresh deck ascending must keep, inside every rank, the
    // suit order the deck was built in: Spades, Hearts, Diamonds, Clubs.
    let mut deck = FrenchDeck::new();
    deck.sort_by_rank(false);
    let cards = deck.into_vec();
    let suits = Suit::all();
    for (i, card) in cards.iter().enumerate() {
        assert_eq!(card.suit, suits[i % 4]);
    }
}

#[test]
fn test_highest_card_fresh_deck() {
    // All four aces share the greatest rank weight; the scan keeps the
    // last of them, the Ace of Clubs on a fresh deck.
    let deck = FrenchDeck::new();
    let highest = deck.highest_card().unwrap();
    assert_eq!(*highest, Card::new(Rank::Ace, Suit::Clubs));
    assert_eq!(highest.rank_value(), 14);
}

#[test]
fn test_slice_first_suit_block() {
    let deck = FrenchDeck::new();
    let block = deck.slice(0..13);
    assert_eq!(block.len(), 13);
    assert_eq!(block[0], Card::new(Rank::Two, Suit::Spades));
    assert_eq!(block[12], Card::new(Rank::Ace, Suit::Spades));
    for card in block {
        assert_eq!(card.suit, Suit::Spades);
    }
}

#[test]
fn test_card_labels() {
    assert_eq!(Card::new(Rank::Ten, Suit::Diamonds).label(), "10 of Diamonds");
    assert_eq!(Card::new(Rank::Two, Suit::Hearts).label(), "2 of Hearts");
    assert_eq!(Card::new(Rank::Queen, Suit::Clubs).label(), "Queen of Clubs");
    assert_eq!(Suit::Hearts.label(), "Hearts");
    assert_eq!(Rank::Jack.label(), "Jack");
}

#[test]
fn test_rank_and_suit_tables() {
    let ranks = Rank::all();
    assert_eq!(ranks.len(), 13);
    assert_eq!(ranks[0], Rank::Two);
    assert_eq!(ranks[12], Rank::Ace);
    for (i, rank) in ranks.iter().enumerate() {
        assert_eq!(rank.value() as usize, i + 2);
    }

    let suits = Suit::all();
    assert_eq!(suits.len(), 4);
    assert_eq!(suits[0], Suit::Spades);
    assert_eq!(suits[3], Suit::Clubs);
}

#[test]
fn test_suit_breaks_rank_ties() {
    // With equal ranks the default order falls back to the suit weight,
    // Spades lowest.
    let two_spades = Card::new(Rank::Two, Suit::Spades);
    let two_hearts = Card::new(Rank::Two, Suit::Hearts);
    assert!(two_hearts > two_spades);
    assert!(two_spades < two_hearts);
    let other_two_spades = Card::new(Rank::Two, Suit::Spades);
    assert_eq!(
        two_spades.partial_cmp(&other_two_spades),
        Some(std::cmp::Ordering::Equal)
    );
}

#[test]
fn test_default_is_fresh_deck() {
    let deck = FrenchDeck::default();
    assert_eq!(deck.len(), 52);
    assert_eq!(*deck.at(0), Card::new(Rank::Two, Suit::Spades));
    assert_eq!(*deck.at(51), Card::new(Rank::Ace, Suit::Clubs));
}

#[test]
fn test_spades_high_beats_default_suit_order() {
    // The spades-high key ranks suits the other way round from the
    // default card order.
    let king_spades = Card::new(Rank::King, Suit::Spades);
    let king_clubs = Card::new(Rank::King, Suit::Clubs);
    assert!(king_clubs > king_spades);
    assert!(spades_high_rank(&king_spades) > spades_high_rank(&king_clubs));
    assert_eq!(spades_high_rank(&king_spades), (13, 4));
    assert_eq!(spades_high_rank(&king_clubs), (13, 1));
}
