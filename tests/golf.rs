use std::collections::HashSet;
use trainer::card::{new_deck, Card, Rank, Suit};
use trainer::evolution::{group_best, pick_parents, rank_population, record_generation, MeanScore};
use trainer::game::{Game, Hand, Play, CARDS_PER_HAND, CARDS_PER_ROW};
use trainer::net_interface::{decode_outputs, encode_inputs, rank_offset, INPUT_SIZE, OUTPUT_SIZE};

fn card(suit: Suit, rank: Rank) -> Card {
    Card { suit, rank }
}

fn hand_of(ranks: [Rank; 6], visibility: [bool; 6]) -> Hand {
    Hand {
        cards: ranks.iter().map(|r| card(Suit::Hearts, *r)).collect(),
        visibility: visibility.to_vec(),
        width: CARDS_PER_ROW,
    }
}

fn all_cards(game: &Game) -> Vec<Card> {
    let mut all = game.draw.clone();
    all.extend(game.discard.iter().copied());
    for hand in game.players.iter() {
        all.extend(hand.cards.iter().copied());
    }
    all
}

fn assert_conserved(game: &Game) {
    let all = all_cards(game);
    assert_eq!(all.len(), 52);
    let distinct: HashSet<Card> = all.iter().copied().collect();
    assert_eq!(distinct.len(), 52);
}

#[test]
fn fresh_deck_holds_each_card_once() {
    let deck = new_deck();
    assert_eq!(deck.len(), 52);
    let distinct: HashSet<Card> = deck.iter().copied().collect();
    assert_eq!(distinct.len(), 52);
    assert_eq!(deck[0], card(Suit::Spades, Rank::Ace));
    assert_eq!(deck[12], card(Suit::Spades, Rank::King));
    assert_eq!(deck[13], card(Suit::Clubs, Rank::Ace));
    assert_eq!(deck[51], card(Suit::Diamonds, Rank::King));
}

#[test]
fn score_counts_every_card_whatever_is_visible() {
    let ranks = [Rank::Ace, Rank::King, Rank::Queen, Rank::Ten, Rank::Five, Rank::Two];
    assert_eq!(hand_of(ranks, [false; 6]).score(), 28);
    assert_eq!(hand_of(ranks, [true; 6]).score(), 28);
    assert_eq!(hand_of(ranks, [true, false, true, false, false, false]).score(), 28);
}

#[test]
fn score_of_face_cards_and_numerals() {
    let ranks = [Rank::Jack, Rank::Nine, Rank::Eight, Rank::Seven, Rank::Six, Rank::Three];
    assert_eq!(hand_of(ranks, [false; 6]).score(), 10 + 9 + 8 + 7 + 6 + 3);
    let kings = [Rank::King; 6];
    assert_eq!(hand_of(kings, [true; 6]).score(), 0);
}

#[test]
fn new_game_deals_hands_with_two_revealed() {
    for n in 1..=8 {
        let game = Game::new(n);
        assert_eq!(game.players.len(), n);
        assert_eq!(game.draw.len(), 52 - 6 * n);
        assert!(game.discard.is_empty());
        for hand in game.players.iter() {
            assert_eq!(hand.cards.len(), CARDS_PER_HAND);
            assert_eq!(hand.visibility.len(), CARDS_PER_HAND);
            assert_eq!(hand.visibility.iter().filter(|v| **v).count(), 2);
        }
        assert_conserved(&game);
    }
}

#[test]
fn begin_turn_turns_over_a_card() {
    let mut game = Game::new(2);
    let top_of_draw = *game.draw.last().unwrap();
    let faceup = game.begin_turn();
    assert_eq!(faceup, top_of_draw);
    assert_eq!(game.discard, vec![top_of_draw]);
    assert_eq!(game.draw.len(), 39);
    assert_conserved(&game);
}

#[test]
fn begin_turn_recycles_the_discard_pile() {
    let mut game = Game::new(2);
    let mut pile = std::mem::take(&mut game.draw);
    let moved = pile.clone();
    game.discard.append(&mut pile);
    let faceup = game.begin_turn();
    assert_eq!(faceup, *moved.last().unwrap());
    assert_eq!(game.draw, moved[..moved.len() - 1].to_vec());
    assert_eq!(game.discard, vec![faceup]);
    assert_conserved(&game);
}

#[test]
fn swap_discard_exchanges_with_the_faceup_card() {
    let mut game = Game::new(2);
    let faceup = game.begin_turn();
    let held = game.players[1].cards[4];
    let draw_before = game.draw.clone();
    game.play(1, Play::SwapDiscard(4));
    assert_eq!(game.players[1].cards[4], faceup);
    assert!(game.players[1].visibility[4]);
    assert_eq!(game.players[1].cards.len(), CARDS_PER_HAND);
    assert_eq!(game.discard, vec![held]);
    assert_eq!(game.draw, draw_before);
    assert_conserved(&game);
}

#[test]
fn draw_replaces_a_position_and_discards_it() {
    let mut game = Game::new(3);
    let faceup = game.begin_turn();
    let held = game.players[0].cards[0];
    let top = *game.draw.last().unwrap();
    let draw_len = game.draw.len();
    game.play(0, Play::Draw(0));
    assert_eq!(game.players[0].cards[0], top);
    assert!(game.players[0].visibility[0]);
    assert_eq!(game.draw.len(), draw_len - 1);
    assert_eq!(game.discard, vec![faceup, held]);
    assert_conserved(&game);
}

#[test]
fn nop_changes_nothing() {
    let mut game = Game::new(2);
    game.begin_turn();
    let draw = game.draw.clone();
    let discard = game.discard.clone();
    let cards = game.players[0].cards.clone();
    let vis = game.players[0].visibility.clone();
    game.play(0, Play::Nop);
    assert_eq!(game.draw, draw);
    assert_eq!(game.discard, discard);
    assert_eq!(game.players[0].cards, cards);
    assert_eq!(game.players[0].visibility, vis);
}

#[test]
fn long_game_conserves_the_deck() {
    let mut game = Game::new(4);
    for turn in 0..200usize {
        let player = turn % 4;
        game.begin_turn();
        let play = match turn % 3 {
            0 => Play::Draw(turn % 6),
            1 => Play::SwapDiscard((turn / 3) % 6),
            _ => Play::Nop,
        };
        game.play(player, play);
        assert_conserved(&game);
    }
}

#[test]
fn rank_offsets_number_the_ranks() {
    assert_eq!(rank_offset(&Rank::Ace), 1);
    assert_eq!(rank_offset(&Rank::Ten), 10);
    assert_eq!(rank_offset(&Rank::Jack), 11);
    assert_eq!(rank_offset(&Rank::King), 12);
    assert_eq!(rank_offset(&Rank::Queen), 13);
}

#[test]
fn encoding_sets_one_index_per_block() {
    let hand = hand_of(
        [Rank::Ace, Rank::King, Rank::Queen, Rank::Ten, Rank::Five, Rank::Two],
        [true, false, true, false, false, true],
    );
    let mut out = vec![true; INPUT_SIZE];
    encode_inputs(&hand, &card(Suit::Clubs, Rank::Queen), &mut out);
    let set: Vec<usize> = (0..INPUT_SIZE).filter(|i| out[*i]).collect();
    assert_eq!(set, vec![0, 14 + 13, 28 + 12, 42 + 13, 56 + 13, 70 + 1, 84 + 12]);
}

#[test]
fn faceup_block_does_not_alias_first_position() {
    let hand = hand_of([Rank::Three; 6], [false; 6]);
    let mut out = vec![false; INPUT_SIZE];
    encode_inputs(&hand, &card(Suit::Spades, Rank::Ace), &mut out);
    assert!(!out[0]);
    assert!(out[84]);
    assert_eq!(out.iter().filter(|v| **v).count(), 7);
}

#[test]
fn decode_picks_swap_at_card_argmax() {
    let keys = vec![1, 5, 9, 2, 0, 3, 4, 8, 6];
    assert_eq!(keys.len(), OUTPUT_SIZE);
    assert_eq!(decode_outputs(&keys, CARDS_PER_HAND), Play::SwapDiscard(2));
}

#[test]
fn decode_nop_ignores_card_logits() {
    let keys = vec![1, 5, 9, 2, 0, 3, 10, 8, 6];
    assert_eq!(decode_outputs(&keys, CARDS_PER_HAND), Play::Nop);
}

#[test]
fn decode_draw_and_ties_take_the_first() {
    let keys = vec![7, 3, 7, 2, 7, 1, 4, 4, 9];
    assert_eq!(decode_outputs(&keys, CARDS_PER_HAND), Play::Draw(0));
    let tied = vec![0, 0, 0, 0, 0, 6, 5, 5, 5];
    assert_eq!(decode_outputs(&tied, CARDS_PER_HAND), Play::Nop);
    let tied_swap = vec![0, 2, 0, 2, 0, 0, 1, 5, 5];
    assert_eq!(decode_outputs(&tied_swap, CARDS_PER_HAND), Play::SwapDiscard(1));
}

#[test]
fn group_best_takes_first_lowest() {
    assert_eq!(group_best(&vec![30, 12, 40, 12]), 1);
    assert_eq!(group_best(&vec![5]), 0);
}

#[test]
fn ranking_is_ascending_and_stable() {
    let scores = vec![30, 12, 40, 12, 7, 30];
    assert_eq!(rank_population(&scores), vec![4, 1, 3, 0, 5, 2]);
    assert_eq!(rank_population(&vec![]), Vec::<usize>::new());
}

#[test]
fn elite_never_scores_above_the_rest() {
    let scores = vec![25, 3, 17, 40, 9, 33, 12, 21];
    let order = rank_population(&scores);
    let keep = scores.len() / 4;
    let elite_max = order[..keep].iter().map(|i| scores[*i]).max().unwrap();
    let rest_min = order[keep..].iter().map(|i| scores[*i]).min().unwrap();
    assert!(elite_max <= rest_min);
    assert_eq!(&order[..keep], &[1, 4]);
}

#[test]
fn parents_come_from_the_elite() {
    let parents = pick_parents(3, 16);
    assert_eq!(parents.len(), 16);
    assert!(parents.iter().all(|p| *p < 3));
    let single = pick_parents(1, 8);
    assert_eq!(single, vec![0; 8]);
}

#[test]
fn mean_of_scores_is_exact() {
    let m = MeanScore::of_scores(&vec![10, 20, 31]);
    assert_eq!(m, MeanScore { total: 61, count: 3 });
    assert!(MeanScore { total: 10, count: 4 }.is_lower_than(&MeanScore { total: 11, count: 4 }));
    assert!(!MeanScore { total: 5, count: 2 }.is_lower_than(&MeanScore { total: 10, count: 4 }));
}

#[test]
fn best_mean_only_improves() {
    let mut best: Option<MeanScore> = None;
    assert!(record_generation(&mut best, MeanScore { total: 90, count: 4 }));
    assert_eq!(best, Some(MeanScore { total: 90, count: 4 }));
    assert!(!record_generation(&mut best, MeanScore { total: 100, count: 4 }));
    assert_eq!(best, Some(MeanScore { total: 90, count: 4 }));
    assert!(!record_generation(&mut best, MeanScore { total: 45, count: 2 }));
    assert!(record_generation(&mut best, MeanScore { total: 80, count: 4 }));
    assert_eq!(best, Some(MeanScore { total: 80, count: 4 }));
}
