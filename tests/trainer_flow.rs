use std::collections::HashSet;
use trainer::card::{Card, Rank, Suit, CARD_BACK};
use trainer::evolution::{plan_generation, MeanScore};
use trainer::game::Play;
use trainer::tournament::Tournament;

#[test]
fn glyph_codes_follow_the_unicode_block() {
    assert_eq!(Card { suit: Suit::Spades, rank: Rank::Ace }.glyph_code(), 0x1F0A1);
    assert_eq!(Card { suit: Suit::Hearts, rank: Rank::Ten }.glyph_code(), 0x1F0BA);
    assert_eq!(Card { suit: Suit::Diamonds, rank: Rank::Queen }.glyph_code(), 0x1F0CD);
    assert_eq!(Card { suit: Suit::Clubs, rank: Rank::King }.glyph_code(), 0x1F0DE);
    assert_eq!(CARD_BACK, 0x1F0A0);
}

#[test]
fn tournament_gives_each_player_one_turn_per_hole() {
    let mut t = Tournament::new(3, 4);
    let mut order = Vec::new();
    while let Some(faceup) = t.next_turn() {
        assert_eq!(*t.game.discard.last().unwrap(), faceup);
        order.push(t.turn);
        t.take_turn(Play::Nop);
    }
    assert_eq!(order, vec![0, 1, 2, 0, 1, 2, 0, 1, 2, 0, 1, 2]);
    assert_eq!(t.hole, 4);
    assert!(t.next_turn().is_none());
}

#[test]
fn tournament_scores_follow_the_hands() {
    let mut t = Tournament::new(2, 18);
    let mut k = 0usize;
    while t.next_turn().is_some() {
        t.take_turn(Play::Draw((k / 2) % 6));
        k += 1;
        let mut all: Vec<Card> = t.game.draw.clone();
        all.extend(t.game.discard.iter().copied());
        for hand in t.game.players.iter() {
            all.extend(hand.cards.iter().copied());
        }
        let distinct: HashSet<Card> = all.iter().copied().collect();
        assert_eq!(all.len(), 52);
        assert_eq!(distinct.len(), 52);
    }
    assert_eq!(k, 36);
    let scores = t.scores();
    assert_eq!(scores.len(), 2);
    for (hand, score) in t.game.players.iter().zip(scores.iter()) {
        assert_eq!(hand.score(), *score);
        assert!(hand.visibility.iter().all(|v| *v));
    }
}

#[test]
fn generation_plan_ranks_and_picks_from_the_elite() {
    let scores = vec![30, 12, 40, 12, 7, 30, 25, 19];
    let mut best = None;
    let plan = plan_generation(&scores, 4, 16, &mut best);
    assert_eq!(plan.order, vec![4, 1, 3, 7, 6, 0, 5, 2]);
    assert_eq!(plan.mean, MeanScore { total: 175, count: 8 });
    assert!(plan.improved);
    assert_eq!(best, Some(MeanScore { total: 175, count: 8 }));
    assert_eq!(plan.parents.len(), 16);
    assert!(plan.parents.iter().all(|p| *p < 2));
}

#[test]
fn generation_plan_keeps_a_better_earlier_mean() {
    let mut best = Some(MeanScore { total: 40, count: 4 });
    let plan = plan_generation(&vec![20, 20], 2, 5, &mut best);
    assert!(!plan.improved);
    assert_eq!(best, Some(MeanScore { total: 40, count: 4 }));
    assert_eq!(plan.parents, vec![0; 5]);
}

#[test]
fn best_ever_mean_is_monotone_over_generations() {
    let generations = vec![vec![30, 20], vec![40, 40], vec![10, 20], vec![15, 15], vec![1, 2]];
    let mut best = None;
    let mut history: Vec<MeanScore> = Vec::new();
    for scores in generations.iter() {
        plan_generation(scores, 1, 2, &mut best);
        history.push(best.unwrap());
    }
    for pair in history.windows(2) {
        let (a, b) = (pair[0], pair[1]);
        assert!(b.total * a.count <= a.total * b.count);
    }
    assert_eq!(history.last().copied(), Some(MeanScore { total: 3, count: 2 }));
}
