use rand::rngs::StdRng;
use rand::SeedableRng;
use uno::{
    check_player_count, get_current_hand, light_text, read_player_count, Card, Color, CountError,
    Deck, Game, GameStatus, Rank,
};

const COLORS: [Color; 5] = [Color::Red, Color::Blue, Color::Yellow, Color::Green, Color::Black];

fn all_ranks() -> Vec<Rank> {
    let mut ranks: Vec<Rank> = (0..=9).map(Rank::Number).collect();
    ranks.extend([Rank::DrawTwo, Rank::Reverse, Rank::Skip, Rank::Wild, Rank::WildDrawFour]);
    ranks
}

fn count(cards: &[Card], card: Card) -> usize {
    cards.iter().filter(|c| **c == card).count()
}

fn expected_count(card: Card) -> usize {
    match (card.rank, card.color) {
        (Rank::Wild, Color::Black) | (Rank::WildDrawFour, Color::Black) => 4,
        (Rank::Wild, _) | (Rank::WildDrawFour, _) => 0,
        (_, Color::Black) => 0,
        (Rank::Number(0), _) => 1,
        _ => 2,
    }
}

fn every_card_in(game: &Game) -> Vec<Card> {
    let mut all = game.deck.cards.clone();
    all.extend(game.discard_pile.cards.iter().copied());
    for p in &game.players {
        all.extend(p.hand.cards.iter().copied());
    }
    all
}

fn assert_standard_multiset(cards: &[Card]) {
    assert_eq!(cards.len(), 108);
    for rank in all_ranks() {
        for color in COLORS {
            let card = Card { rank, color };
            assert_eq!(count(cards, card), expected_count(card), "{:?}", card);
        }
    }
}

#[test]
fn fresh_deck_has_standard_composition() {
    let mut deck = Deck { cards: Vec::new() };
    deck.initialize();
    assert_standard_multiset(&deck.cards);
    assert_eq!(deck.cards[0], Card { rank: Rank::Number(0), color: Color::Red });
    assert_eq!(deck.cards[1], Card { rank: Rank::Number(1), color: Color::Red });
    assert_eq!(deck.cards[25], Card { rank: Rank::WildDrawFour, color: Color::Black });
    assert_eq!(deck.cards[26], Card { rank: Rank::Wild, color: Color::Black });
    assert_eq!(deck.cards[27], Card { rank: Rank::Number(0), color: Color::Blue });
}

#[test]
fn initialize_clears_previous_cards() {
    let mut deck = Deck { cards: vec![Card { rank: Rank::Skip, color: Color::Green }; 5] };
    deck.initialize();
    assert_standard_multiset(&deck.cards);
}

#[test]
fn shuffle_is_a_permutation() {
    let mut built = Deck { cards: Vec::new() };
    built.initialize();
    let mut rng = StdRng::seed_from_u64(7);
    let mut deck = Deck { cards: built.cards.clone() };
    deck.shuffle(&mut rng);
    assert_standard_multiset(&deck.cards);
    assert_ne!(deck.cards, built.cards);
}

#[test]
fn new_deck_is_shuffled_standard_deck() {
    let mut rng = StdRng::seed_from_u64(1);
    let deck = Deck::new(&mut rng);
    assert_standard_multiset(&deck.cards);
}

#[test]
fn deal_takes_cards_from_the_front() {
    let mut deck = Deck { cards: Vec::new() };
    deck.initialize();
    let before = deck.cards.clone();
    let dealt = deck.deal(7);
    assert_eq!(dealt, before[..7].to_vec());
    assert_eq!(deck.cards, before[7..].to_vec());
}

#[test]
fn draw_one_takes_from_the_end() {
    let mut deck = Deck { cards: Vec::new() };
    deck.initialize();
    let top = deck.draw_one();
    assert_eq!(top, Some(Card { rank: Rank::Wild, color: Color::Black }));
    assert_eq!(deck.cards.len(), 107);
    let mut empty = Deck { cards: Vec::new() };
    assert_eq!(empty.draw_one(), None);
}

#[test]
fn dealing_leaves_seven_per_player() {
    for n in 2..=10usize {
        let game = Game::with_seed(n, n as u64);
        assert_eq!(game.players.len(), n);
        let in_hands: usize = game.players.iter().map(|p| p.hand.cards.len()).sum();
        assert_eq!(in_hands, 7 * n);
        assert_eq!(game.deck.cards.len(), 108 - 7 * n);
        assert!(game.players.iter().all(|p| p.hand.cards.len() == 7));
        assert!(game.discard_pile.cards.is_empty());
        assert_eq!(game.current_card, None);
        assert_eq!(game.current_player, 0);
        assert_standard_multiset(&every_card_in(&game));
    }
}

#[test]
fn players_are_named_in_order() {
    let game = Game::with_seed(10, 3);
    assert_eq!(game.players[0].name, "Player 1");
    assert_eq!(game.players[1].name, "Player 2");
    assert_eq!(game.players[9].name, "Player 10");
}

#[test]
fn unseeded_game_is_well_formed() {
    let game = Game::new(4);
    assert_eq!(game.deck.cards.len(), 80);
    assert_standard_multiset(&every_card_in(&game));
}

#[test]
fn two_player_seeded_scenario() {
    let game = Game::with_seed(2, 2024);
    assert_eq!(game.players[0].hand.cards.len(), 7);
    assert_eq!(game.players[1].hand.cards.len(), 7);
    assert_eq!(game.deck.cards.len(), 94);
    // The hands and the pile together are one deck: no card is in two places.
    assert_standard_multiset(&every_card_in(&game));
    let again = Game::with_seed(2, 2024);
    assert_eq!(again.players[0].hand.cards, game.players[0].hand.cards);
    assert_eq!(again.players[1].hand.cards, game.players[1].hand.cards);
    assert_eq!(again.deck.cards, game.deck.cards);
}

#[test]
fn next_turn_rotates() {
    for n in 2..=10usize {
        let mut game = Game::with_seed(n, 9);
        for step in 1..=n {
            game.next_turn();
            assert_eq!(game.current_player, step % n);
        }
        assert_eq!(game.current_player, 0);
    }
    let mut game = Game::with_seed(3, 9);
    game.current_player = 2;
    game.next_turn();
    assert_eq!(game.current_player, 0);
}

#[test]
fn draw_moves_top_card_to_current_hand() {
    let mut game = Game::with_seed(3, 11);
    game.next_turn();
    let top = *game.deck.cards.last().unwrap();
    let hand_before = game.players[1].hand.cards.clone();
    game.draw_card();
    assert_eq!(game.players[1].hand.cards.len(), 8);
    assert_eq!(*game.players[1].hand.cards.last().unwrap(), top);
    assert_eq!(game.players[1].hand.cards[..7].to_vec(), hand_before);
    assert_eq!(game.deck.cards.len(), 108 - 21 - 1);
    assert_eq!(game.players[0].hand.cards.len(), 7);
    assert_eq!(game.players[2].hand.cards.len(), 7);
    assert_standard_multiset(&every_card_in(&game));
}

#[test]
fn draw_recycles_discard_pile() {
    let mut game = Game::with_seed(2, 5);
    // Play three cards onto the discard pile, then empty the draw pile.
    for _ in 0..3 {
        game.play_card();
    }
    assert_eq!(game.discard_pile.cards.len(), 3);
    while !game.deck.cards.is_empty() {
        game.next_turn();
        game.draw_card();
    }
    let current = game.current_player;
    let hand_len = game.players[current].hand.cards.len();
    let discarded = game.discard_pile.cards.clone();
    game.draw_card();
    assert!(game.discard_pile.cards.is_empty());
    assert_eq!(game.deck.cards.len(), 2);
    assert_eq!(game.players[current].hand.cards.len(), hand_len + 1);
    let drawn = *game.players[current].hand.cards.last().unwrap();
    assert!(discarded.contains(&drawn));
    assert_standard_multiset(&every_card_in(&game));
}

#[test]
fn shuffle_from_discard_moves_everything() {
    let mut game = Game::with_seed(2, 8);
    game.play_card();
    game.play_card();
    let deck_len = game.deck.cards.len();
    game.shuffle_deck_from_discard();
    assert!(game.discard_pile.cards.is_empty());
    assert_eq!(game.deck.cards.len(), deck_len + 2);
    assert_standard_multiset(&every_card_in(&game));
}

#[test]
fn drawing_can_empty_both_piles() {
    let mut game = Game::with_seed(2, 13);
    while !game.deck.cards.is_empty() {
        game.draw_card();
    }
    assert_eq!(game.players[0].hand.cards.len(), 101);
    assert!(game.deck.cards.is_empty());
    assert!(game.discard_pile.cards.is_empty());
    assert_standard_multiset(&every_card_in(&game));
}

#[test]
fn play_card_moves_last_card_to_discard() {
    let mut game = Game::with_seed(2, 21);
    let last = *game.players[0].hand.cards.last().unwrap();
    let status = game.play_card();
    assert!(matches!(status, GameStatus::GameContinues));
    assert_eq!(game.current_card, Some(last));
    assert_eq!(game.discard_pile.cards, vec![last]);
    assert_eq!(game.players[0].hand.cards.len(), 6);
    assert_eq!(game.deck.cards.len(), 94);
}

#[test]
fn playing_last_card_wins() {
    let mut game = Game::with_seed(2, 4);
    for _ in 0..6 {
        assert!(matches!(game.play_card(), GameStatus::GameContinues));
    }
    match game.play_card() {
        GameStatus::PlayerWon(name) => assert_eq!(name, "Player 1"),
        GameStatus::GameContinues => panic!("the last card should win"),
    }
    assert!(game.players[0].hand.cards.is_empty());
    assert_eq!(game.discard_pile.cards.len(), 7);
    assert_eq!(game.winner.as_deref(), Some("Player 1"));
    // The game is over: later turns change nothing.
    game.next_turn();
    assert_eq!(game.current_player, 0);
    game.draw_card();
    assert!(game.players[0].hand.cards.is_empty());
    assert_eq!(game.deck.cards.len(), 94);
    match game.play_card() {
        GameStatus::PlayerWon(name) => assert_eq!(name, "Player 1"),
        GameStatus::GameContinues => panic!("a won game stays won"),
    }
    assert_eq!(game.discard_pile.cards.len(), 7);
    assert_eq!(game.winner.as_deref(), Some("Player 1"));
}

#[test]
fn no_winner_before_a_hand_is_empty() {
    let mut game = Game::with_seed(3, 6);
    assert_eq!(game.winner, None);
    game.play_card();
    game.next_turn();
    game.draw_card();
    assert_eq!(game.winner, None);
    assert_eq!(game.current_player, 1);
}

fn expected_label(card: &Card) -> String {
    let text = match card.rank {
        Rank::Number(n) => n.to_string(),
        Rank::DrawTwo => "Draw_2".to_string(),
        Rank::Reverse => "Reverse".to_string(),
        Rank::Skip => "Skip".to_string(),
        Rank::Wild => "Wild".to_string(),
        Rank::WildDrawFour => "Wild_+4".to_string(),
    };
    format!("|{}|", text)
}

#[test]
fn current_hand_labels() {
    let mut game = Game::with_seed(2, 30);
    game.next_turn();
    let labels = get_current_hand(&game);
    let hand = &game.players[1].hand.cards;
    assert_eq!(labels.len(), 7);
    for (label, card) in labels.iter().zip(hand.iter()) {
        assert_eq!(*label, expected_label(card));
    }
    let mut deck = Deck { cards: Vec::new() };
    deck.initialize();
    let fixed = [
        (Card { rank: Rank::Number(7), color: Color::Blue }, "|7|"),
        (Card { rank: Rank::DrawTwo, color: Color::Red }, "|Draw_2|"),
        (Card { rank: Rank::WildDrawFour, color: Color::Black }, "|Wild_+4|"),
    ];
    for (card, text) in fixed {
        assert_eq!(card.label(), text);
    }
}

#[test]
fn rank_texts() {
    assert_eq!(Rank::Number(0).text(), "0");
    assert_eq!(Rank::Number(9).text(), "9");
    assert_eq!(Rank::Reverse.text(), "Reverse");
    assert_eq!(Rank::Skip.text(), "Skip");
    assert_eq!(Rank::Wild.text(), "Wild");
    assert_eq!(Card { rank: Rank::Skip, color: Color::Green }.label(), "|Skip|");
}

#[test]
fn label_contrast() {
    assert!(light_text(Color::Red));
    assert!(light_text(Color::Blue));
    assert!(light_text(Color::Black));
    assert!(!light_text(Color::Yellow));
    assert!(!light_text(Color::Green));
}

#[test]
fn player_count_input() {
    assert_eq!(read_player_count("4\n"), Ok(4));
    assert_eq!(read_player_count("  2 "), Ok(2));
    assert_eq!(read_player_count("10"), Ok(10));
    assert_eq!(read_player_count("1"), Err(CountError::OutOfRange));
    assert_eq!(read_player_count("11\n"), Err(CountError::OutOfRange));
    assert_eq!(read_player_count("three"), Err(CountError::NotANumber));
    assert_eq!(read_player_count("-3"), Err(CountError::NotANumber));
    assert_eq!(read_player_count(""), Err(CountError::NotANumber));
    assert_eq!(check_player_count(Some(5)), Ok(5));
    assert_eq!(check_player_count(Some(0)), Err(CountError::OutOfRange));
    assert_eq!(check_player_count(None), Err(CountError::NotANumber));
    assert_eq!(CountError::NotANumber.message(), "Invalid Input.");
    assert_eq!(CountError::OutOfRange.message(), "You can only have 2-10 players.");
}
