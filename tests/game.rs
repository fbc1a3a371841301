use solitaire::build_move::{Destination, Move, Source};
use solitaire::card::Card;
use solitaire::card::Suit;
use solitaire::deck::{is_card_image, read_cards};
use solitaire::solitaire::{Selection, Solitaire};
use std::collections::HashSet;

const RANKS: [&str; 13] = [
    "ace", "2", "3", "4", "5", "6", "7", "8", "9", "10", "jack", "queen", "king",
];
const SUITS: [&str; 4] = ["spades", "hearts", "diamonds", "clubs"];

fn card(name: &str) -> Card {
    Card::new(name.to_string())
}

fn full_deck() -> Vec<Card> {
    let mut cards = Vec::new();
    for s in SUITS {
        for r in RANKS {
            cards.push(card(&format!("{}_of_{}.png", r, s)));
        }
    }
    cards
}

fn empty_game() -> Solitaire {
    Solitaire {
        deck: Vec::new(),
        waste: Vec::new(),
        piles: Default::default(),
        foundations: Default::default(),
        selected: None,
    }
}

fn all_keys(g: &Solitaire) -> Vec<(Suit, u8)> {
    let mut keys = Vec::new();
    let zones = g
        .piles
        .iter()
        .chain(g.foundations.iter())
        .chain(std::iter::once(&g.deck))
        .chain(std::iter::once(&g.waste));
    for zone in zones {
        for c in zone {
            keys.push((c.suit, c.value));
        }
    }
    keys
}

fn assert_full_deck(g: &Solitaire) {
    let keys = all_keys(g);
    assert_eq!(keys.len(), 52);
    let set: HashSet<(Suit, u8)> = keys.into_iter().collect();
    assert_eq!(set.len(), 52);
    for suit in [Suit::Spades, Suit::Hearts, Suit::Diamonds, Suit::Clubs] {
        for value in 1..=13u8 {
            assert!(set.contains(&(suit, value)));
        }
    }
}

#[test]
fn parses_names_of_card_images() {
    let c = card("ace_of_spades.png");
    assert_eq!(c.suit, Suit::Spades);
    assert_eq!(c.value, 1);
    assert!(!c.is_face_up());
    let c = card("10_of_hearts.png");
    assert_eq!((c.suit, c.value), (Suit::Hearts, 10));
    let c = card("jack_of_diamonds.png");
    assert_eq!((c.suit, c.value), (Suit::Diamonds, 11));
    let c = card("queen_of_clubs.png");
    assert_eq!((c.suit, c.value), (Suit::Clubs, 12));
    let c = card("king_of_spades.png");
    assert_eq!((c.suit, c.value), (Suit::Spades, 13));
    let c = card("7_hearts.png");
    assert_eq!((c.suit, c.value), (Suit::Hearts, 7));
    assert_eq!(c.filename, "7_hearts.png");
}

#[test]
fn rejects_names_that_spell_no_card() {
    assert!(Card::parse("black_joker.png".to_string()).is_none());
    assert!(Card::parse("queen_of_diamonds2.png".to_string()).is_none());
    assert!(Card::parse("one_of_spades.png".to_string()).is_none());
    assert!(Card::parse("".to_string()).is_none());
    let c = Card::parse("3_of_clubs.png".to_string()).unwrap();
    assert_eq!((c.suit, c.value), (Suit::Clubs, 3));
}

#[test]
fn colour_id_and_flip() {
    let mut c = card("ace_of_spades.png");
    assert_eq!(c.color(), "black");
    assert!(!c.is_red());
    assert_eq!(c.id(), "ace_of_spades.png-false");
    c.flip();
    assert!(c.is_face_up());
    assert_eq!(c.id(), "ace_of_spades.png-true");
    c.flip();
    assert_eq!(c.id(), "ace_of_spades.png-true");
    let h = card("2_of_hearts.png");
    assert_eq!(h.color(), "red");
    assert!(card("5_of_diamonds.png").is_red());
    assert_eq!(card("5_of_clubs.png").color(), "black");
}

#[test]
fn card_images_are_pngs_but_the_jokers() {
    assert!(is_card_image("ace_of_spades.png"));
    assert!(!is_card_image("red_joker.png"));
    assert!(!is_card_image("black_joker.png"));
    assert!(!is_card_image("face_down.jpg"));
    assert!(!is_card_image("png"));
}

#[test]
fn reads_the_cards_of_a_listing() {
    let names: Vec<String> = ["ace_of_spades.png", "red_joker.png", "face_down.jpg", "2_of_hearts.png"]
        .iter()
        .map(|s| s.to_string())
        .collect();
    let cards = read_cards(&names).unwrap();
    assert_eq!(cards.len(), 2);
    assert_eq!((cards[0].suit, cards[0].value), (Suit::Spades, 1));
    assert_eq!((cards[1].suit, cards[1].value), (Suit::Hearts, 2));
    let bad: Vec<String> = vec!["ace_of_spades.png".to_string(), "ace_of_cups.png".to_string()];
    assert!(read_cards(&bad).is_none());
    assert_eq!(read_cards(&Vec::new()).unwrap().len(), 0);
}

#[test]
fn king_alone_starts_an_empty_pile() {
    let king = card("king_of_spades.png");
    let queen = card("queen_of_spades.png");
    assert!(Solitaire::is_valid_move_to_pile(&[king], &[]));
    assert!(!Solitaire::is_valid_move_to_pile(&[queen], &[]));
    assert!(!Solitaire::is_valid_move_to_pile(&[], &[]));
}

#[test]
fn piles_descend_in_alternating_colours() {
    let nine_h = card("9_of_hearts.png");
    let eight_h = card("8_of_hearts.png");
    let ten_s = card("10_of_spades.png");
    let ten_h = card("10_of_hearts.png");
    assert!(Solitaire::is_valid_move_to_pile(&[nine_h.clone()], &[ten_s.clone()]));
    assert!(!Solitaire::is_valid_move_to_pile(&[nine_h], &[ten_h]));
    assert!(!Solitaire::is_valid_move_to_pile(&[eight_h], &[ten_s]));
}

#[test]
fn ace_alone_starts_a_foundation() {
    let ace = card("ace_of_clubs.png");
    let two = card("2_of_clubs.png");
    assert!(Solitaire::is_valid_move_to_foundation(&[ace], &[]));
    assert!(!Solitaire::is_valid_move_to_foundation(&[two], &[]));
}

#[test]
fn foundations_ascend_in_one_suit() {
    let two_h = card("2_of_hearts.png");
    let ace_h = card("ace_of_hearts.png");
    let ace_s = card("ace_of_spades.png");
    let three_h = card("3_of_hearts.png");
    assert!(Solitaire::is_valid_move_to_foundation(&[two_h.clone()], &[ace_h.clone()]));
    assert!(!Solitaire::is_valid_move_to_foundation(&[two_h], &[ace_s]));
    assert!(!Solitaire::is_valid_move_to_foundation(&[three_h], &[ace_h]));
}

#[test]
fn deal_gives_piles_of_one_to_seven() {
    let g = Solitaire::new(full_deck());
    for (k, pile) in g.piles.iter().enumerate() {
        assert_eq!(pile.len(), k + 1);
        assert!(pile.last().unwrap().is_face_up());
        for c in &pile[..pile.len() - 1] {
            assert!(!c.is_face_up());
        }
    }
    assert_eq!(g.deck.len(), 24);
    assert!(g.waste.is_empty());
    assert!(g.foundations.iter().all(|f| f.is_empty()));
    assert_eq!(g.selected, None);
    assert_full_deck(&g);
}

#[test]
fn deal_keeps_the_given_order() {
    let cards = full_deck();
    let g = Solitaire::deal(cards.clone());
    assert_eq!(g.piles[0][0].filename, cards[0].filename);
    assert_eq!(g.piles[1][0].filename, cards[1].filename);
    assert_eq!(g.piles[1][1].filename, cards[2].filename);
    assert_eq!(g.piles[6][6].filename, cards[27].filename);
    assert_eq!(g.deck[0].filename, cards[28].filename);
    assert_eq!(g.deck[23].filename, cards[51].filename);
}

#[test]
fn new_shuffles_the_cards() {
    let cards = full_deck();
    let dealt = Solitaire::deal(cards.clone());
    let shuffled = Solitaire::new(cards);
    let order = |g: &Solitaire| -> Vec<String> {
        g.piles.iter().flatten().chain(g.deck.iter()).map(|c| c.filename.clone()).collect()
    };
    assert_ne!(order(&dealt), order(&shuffled));
}

#[test]
fn every_card_stays_once_through_play() {
    let mut g = Solitaire::new(full_deck());
    assert_full_deck(&g);
    for step in 0..200usize {
        if step % 3 == 0 {
            g.draw();
        } else {
            let targets = [
                Selection::Waste,
                Selection::Pile(step % 7, 1 + step % 3),
                Selection::Foundation(step % 4),
                Selection::Pile((step / 7) % 7, 1),
            ];
            g.play(targets[step % 4]);
        }
        assert_full_deck(&g);
    }
}

#[test]
fn selection_is_armed_then_cleared() {
    let mut g = Solitaire::new(full_deck());
    g.play(Selection::Pile(2, 1));
    assert_eq!(g.selected, Some(Selection::Pile(2, 1)));
    g.play(Selection::Foundation(0));
    assert_eq!(g.selected, None);
    g.play(Selection::Waste);
    assert_eq!(g.selected, Some(Selection::Waste));
    g.play(Selection::Waste);
    assert_eq!(g.selected, None);
    g.play(Selection::Foundation(3));
    g.clear_selection();
    assert_eq!(g.selected, None);
}

#[test]
fn draw_cycles_the_deck_through_the_waste() {
    let mut g = empty_game();
    g.deck = vec![card("ace_of_spades.png"), card("2_of_hearts.png")];
    g.draw();
    assert_eq!(g.deck.len(), 1);
    assert_eq!(g.deck[0].filename, "ace_of_spades.png");
    assert_eq!(g.waste.len(), 1);
    assert_eq!(g.waste[0].filename, "2_of_hearts.png");
    assert!(g.waste[0].is_face_up());
    g.draw();
    assert!(g.deck.is_empty());
    assert_eq!(g.waste.len(), 2);
    assert_eq!(g.waste[0].filename, "2_of_hearts.png");
    assert_eq!(g.waste[1].filename, "ace_of_spades.png");
    assert!(g.waste[1].is_face_up());
    g.draw();
    assert!(g.waste.is_empty());
    assert_eq!(g.deck.len(), 2);
    assert_eq!(g.deck[0].filename, "ace_of_spades.png");
    assert_eq!(g.deck[1].filename, "2_of_hearts.png");
}

#[test]
fn draw_with_nothing_left_does_nothing() {
    let mut g = empty_game();
    g.draw();
    assert!(g.deck.is_empty());
    assert!(g.waste.is_empty());
}

#[test]
fn a_run_of_three_moves_in_order() {
    let mut g = empty_game();
    g.piles[0] = vec![
        card("king_of_clubs.png"),
        card("4_of_spades.png"),
        card("3_of_diamonds.png"),
        card("9_of_hearts.png"),
    ];
    g.piles[1] = vec![card("10_of_spades.png")];
    g.play(Selection::Pile(0, 3));
    g.play(Selection::Pile(1, 1));
    assert_eq!(g.selected, None);
    assert_eq!(g.piles[0].len(), 1);
    assert_eq!(g.piles[0][0].filename, "king_of_clubs.png");
    assert!(g.piles[0][0].is_face_up());
    let names: Vec<&str> = g.piles[1].iter().map(|c| c.filename.as_str()).collect();
    assert_eq!(
        names,
        vec!["10_of_spades.png", "4_of_spades.png", "3_of_diamonds.png", "9_of_hearts.png"]
    );
    assert_eq!(all_keys(&g).len(), 5);
}

#[test]
fn illegal_moves_change_nothing() {
    let mut g = empty_game();
    g.piles[0] = vec![card("9_of_hearts.png")];
    g.piles[1] = vec![card("10_of_hearts.png")];
    g.play(Selection::Pile(0, 1));
    g.play(Selection::Pile(1, 1));
    assert_eq!(g.piles[0].len(), 1);
    assert_eq!(g.piles[1].len(), 1);
    assert_eq!(g.selected, None);
    // an empty run, a run deeper than the pile, and the same pile
    g.play(Selection::Pile(0, 0));
    g.play(Selection::Pile(2, 1));
    g.play(Selection::Pile(0, 5));
    g.play(Selection::Pile(2, 1));
    g.play(Selection::Pile(0, 1));
    g.play(Selection::Pile(0, 1));
    assert_eq!(g.piles[0].len(), 1);
    assert!(g.piles[2].is_empty());
    // foundation to foundation is never a move
    g.foundations[0] = vec![card("ace_of_hearts.png")];
    g.play(Selection::Foundation(0));
    g.play(Selection::Foundation(1));
    assert_eq!(g.foundations[0].len(), 1);
    assert!(g.foundations[1].is_empty());
}

#[test]
fn moves_to_and_from_foundations_and_waste() {
    let mut g = empty_game();
    g.piles[0] = vec![card("5_of_clubs.png"), card("ace_of_hearts.png")];
    g.play(Selection::Pile(0, 1));
    g.play(Selection::Foundation(2));
    assert_eq!(g.foundations[2].len(), 1);
    assert_eq!(g.foundations[2][0].filename, "ace_of_hearts.png");
    assert!(g.piles[0][0].is_face_up());
    g.waste = vec![card("2_of_hearts.png")];
    g.play(Selection::Waste);
    g.play(Selection::Foundation(2));
    assert_eq!(g.foundations[2].len(), 2);
    assert!(g.waste.is_empty());
    g.waste = vec![card("4_of_hearts.png")];
    g.play(Selection::Waste);
    g.play(Selection::Pile(0, 1));
    assert_eq!(g.piles[0].len(), 2);
    assert_eq!(g.piles[0][1].filename, "4_of_hearts.png");
    g.play(Selection::Foundation(2));
    g.play(Selection::Pile(3, 0));
    assert_eq!(g.foundations[2].len(), 2);
    g.piles[3] = vec![card("3_of_clubs.png")];
    g.play(Selection::Foundation(2));
    g.play(Selection::Pile(3, 0));
    assert_eq!(g.piles[3].len(), 2);
    assert_eq!(g.piles[3][1].filename, "2_of_hearts.png");
    assert_eq!(g.foundations[2].len(), 1);
}

#[test]
fn a_move_is_built_one_end_at_a_time() {
    let m = Move::new();
    assert_eq!(m.source, None);
    assert_eq!(m.destination, None);
    let m = m.source(3);
    assert_eq!(m.source, Some(Source::Pile(3)));
    assert_eq!(m.destination, None);
    let m = m.destination(5);
    assert_eq!(m.source, Some(Source::Pile(3)));
    assert_eq!(m.destination, Some(Destination::Pile(5)));
    m.play();
}
