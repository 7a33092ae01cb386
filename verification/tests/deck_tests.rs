use french_deck::Card;
use french_deck::FrenchDeck;
use french_deck::Rank;
use french_deck::Suit;
use french_deck::spades_high_rank;

#[test]
fn test_card_creation() {
    let card = Card::new(Rank::Ace, Suit::Spades);
    assert_eq!(card.rank, Rank::Ace);
    assert_eq!(card.suit, Suit::Spades);
    assert_eq!(card.label(), "Ace of Spades");
}

#[test]
fn test_card_comparison() {
    let ace_spades = Card::new(Rank::Ace, Suit::Spades);
    let king_hearts = Card::new(Rank::King, Suit::Hearts);

    assert!(ace_spades > king_hearts);
    assert_eq!(ace_spades.rank_value(), 14);
    assert_eq!(king_hearts.rank_value(), 13);
}

#[test]
fn test_deck_creation() {
    let deck = FrenchDeck::new();
    assert_eq!(deck.len(), 52);
    assert!(!deck.is_empty());

    // First card should be 2 of Spades
    assert_eq!(*deck.at(0), Card::new(Rank::Two, Suit::Spades));

    // Last card should be Ace of Clubs
    assert_eq!(*deck.at(51), Card::new(Rank::Ace, Suit::Clubs));
}

#[test]
fn test_deck_indexing() {
    let deck = FrenchDeck::new();
    let first_card = deck.get(0).unwrap();
    assert_eq!(*first_card, Card::new(Rank::Two, Suit::Spades));

    assert!(deck.get(52).is_none()); // Out of bounds
}

#[test]
fn test_deck_iteration() {
    let deck = FrenchDeck::new();
    let mut count = 0;

    for _card in deck.iter() {
        count += 1;
    }

    assert_eq!(count, 52);
}

#[test]
fn test_cards_by_suit() {
    let deck = FrenchDeck::new();
    let spades = deck.cards_by_suit(Suit::Spades);
    assert_eq!(spades.len(), 13);

    for card in spades {
        assert_eq!(card.suit, Suit::Spades);
    }
}

#[test]
fn test_shuffle() {
    let mut deck1 = FrenchDeck::new();
    let deck2 = deck1.clone();

    deck1.shuffle();

    // Very unlikely (but not impossible) that shuffle produces same order
    // This test might occasionally fail, but demonstrates shuffle works
    assert_ne!(deck1.into_vec(), deck2.into_vec());
}

#[test]
fn test_spades_high_ranking() {
    let ace_spades = Card::new(Rank::Ace, Suit::Spades);
    let ace_clubs = Card::new(Rank::Ace, Suit::Clubs);

    let spades_rank = spades_high_rank(&ace_spades);
    let clubs_rank = spades_high_rank(&ace_clubs);

    assert!(spades_rank > clubs_rank);
    assert_eq!(spades_rank.0, clubs_rank.0); // Same rank value
    assert!(spades_rank.1 > clubs_rank.1); // Different suit priority
}

#[test]
fn it_works() {
    assert_eq!(2 + 2, 4);
}

#[test]
fn test_basic_integration() {
    let deck = FrenchDeck::new();
    assert_eq!(deck.len(), 52);
}
