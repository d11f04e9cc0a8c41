use crate::card::{full_deck, lemma_full_deck_exact, new_deck, rank_points, Card, Deck, CARDS_IN_DECK};
use crate::chance::{sample_two_distinct, shuffle_cards};
use vstd::multiset::Multiset;
use vstd::prelude::*;

verus! {

broadcast use vstd::multiset::group_multiset_axioms, vstd::multiset::group_multiset_properties,
    vstd::seq_lib::group_to_multiset_ensures;

pub const CARDS_PER_ROW: usize = 3;

pub const ROWS_PER_HAND: usize = 2;

pub const CARDS_PER_HAND: usize = CARDS_PER_ROW * ROWS_PER_HAND;

/// A player's grid of cards, with a face-up flag for each position.
pub struct Hand {
    pub cards: Vec<Card>,
    pub visibility: Vec<bool>,
    pub width: usize,
}

/// The turn a player chooses: do nothing, swap a hand position with the
/// face-up discard, or replace a hand position with the top of the draw pile.
#[derive(Debug, Copy, Clone, PartialEq, Eq, Structural)]
pub enum Play {
    Nop,
    SwapDiscard(usize),
    Draw(usize),
}

/// Sum of the points of a sequence of cards.
pub open spec fn points(cards: Seq<Card>) -> nat
    decreases cards.len(),
{
    if cards.len() == 0 {
        0
    } else {
        points(cards.drop_last()) + rank_points(cards.last().rank)
    }
}

/// Positions `a` and `b` are distinct and are the only ones face up.
pub open spec fn revealed_exactly(vis: Seq<bool>, a: int, b: int) -> bool {
    &&& 0 <= a < vis.len()
    &&& 0 <= b < vis.len()
    &&& a != b
    &&& forall|k: int| 0 <= k < vis.len() ==> (#[trigger] vis[k] <==> (k == a || k == b))
}

/// Exactly two positions are face up.
pub open spec fn two_revealed(vis: Seq<bool>) -> bool {
    exists|a: int, b: int| #[trigger] revealed_exactly(vis, a, b)
}

impl Hand {
    pub open spec fn wf(&self) -> bool {
        self.cards@.len() == CARDS_PER_HAND && self.visibility@.len() == CARDS_PER_HAND
    }

    /// Golf score of the hand, counted over every card whether face up or not.
    pub fn score(&self) -> (s: u32)
        requires
            self.wf(),
        ensures
            s == points(self.cards@),
    {
        let mut s: u32 = 0;
        let mut i: usize = 0;
        while i < self.cards.len()
            invariant
                self.wf(),
                i <= self.cards@.len(),
                s == points(self.cards@.take(i as int)),
                s <= 10 * i,
            decreases self.cards@.len() - i,
        {
            let card = self.cards[i];
            let p: u32 = match card.rank {
                crate::card::Rank::Ace => 1,
                crate::card::Rank::Two => 2,
                crate::card::Rank::Three => 3,
                crate::card::Rank::Four => 4,
                crate::card::Rank::Five => 5,
                crate::card::Rank::Six => 6,
                crate::card::Rank::Seven => 7,
                crate::card::Rank::Eight => 8,
                crate::card::Rank::Nine => 9,
                crate::card::Rank::Ten => 10,
                crate::card::Rank::Jack => 10,
                crate::card::Rank::King => 0,
                crate::card::Rank::Queen => 10,
            };
            assert(self.cards@.take(i + 1).drop_last() =~= self.cards@.take(i as int));
            s = s + p;
            i = i + 1;
        }
        assert(self.cards@.take(i as int) =~= self.cards@);
        s
    }
}

/// The cards held in a sequence of hands.
pub open spec fn hands_cards(hs: Seq<Hand>) -> Multiset<Card>
    decreases hs.len(),
{
    if hs.len() == 0 {
        Multiset::empty()
    } else {
        hands_cards(hs.drop_last()).add(hs.last().cards@.to_multiset())
    }
}

/// Replacing one hand changes the held cards by exactly that hand's cards.
proof fn lemma_hands_update(hs: Seq<Hand>, i: int, h: Hand)
    requires
        0 <= i < hs.len(),
    ensures
        hands_cards(hs.update(i, h)).add(hs[i].cards@.to_multiset()) =~= hands_cards(hs).add(
            h.cards@.to_multiset(),
        ),
    decreases hs.len(),
{
    let u = hs.update(i, h);
    let old_ms = hs[i].cards@.to_multiset();
    let new_ms = h.cards@.to_multiset();
    if i == hs.len() - 1 {
        assert(u.drop_last() =~= hs.drop_last());
        assert(u.last() == h);
        assert(hs.last() == hs[i]);
        assert(hands_cards(u) == hands_cards(hs.drop_last()).add(new_ms));
        assert(hands_cards(hs) == hands_cards(hs.drop_last()).add(old_ms));
    } else {
        let d = hs.drop_last();
        assert(u.drop_last() =~= d.update(i, h));
        assert(u.last() == hs.last());
        assert(d[i] == hs[i]);
        lemma_hands_update(d, i, h);
        let last_ms = hs.last().cards@.to_multiset();
        assert(hands_cards(u) == hands_cards(d.update(i, h)).add(last_ms));
        assert(hands_cards(hs) == hands_cards(d).add(last_ms));
        assert(hands_cards(d.update(i, h)).add(old_ms) =~= hands_cards(d).add(new_ms));
        let lhs = hands_cards(u).add(old_ms);
        let rhs = hands_cards(hs).add(new_ms);
        assert forall|c: Card| lhs.count(c) == rhs.count(c) by {
            assert(hands_cards(d.update(i, h)).add(old_ms).count(c) == hands_cards(d).add(
                new_ms,
            ).count(c));
            assert(hands_cards(d.update(i, h)).count(c) + old_ms.count(c) == hands_cards(d).count(c)
                + new_ms.count(c));
        }
    }
}

proof fn lemma_hands_len(hs: Seq<Hand>)
    requires
        forall|i: int| 0 <= i < hs.len() ==> (#[trigger] hs[i]).wf(),
    ensures
        hands_cards(hs).len() == CARDS_PER_HAND * hs.len(),
    decreases hs.len(),
{
    if hs.len() > 0 {
        lemma_hands_len(hs.drop_last());
    }
}

/// The position of a play lies within a hand.
pub open spec fn play_fits(play: Play) -> bool {
    match play {
        Play::Nop => true,
        Play::SwapDiscard(p) => p < CARDS_PER_HAND,
        Play::Draw(p) => p < CARDS_PER_HAND,
    }
}

/// The acting hand and the piles after a play, given them before it.
pub open spec fn applied(
    hand: Hand,
    draw: Seq<Card>,
    discard: Seq<Card>,
    play: Play,
    hand2: Hand,
    draw2: Seq<Card>,
    discard2: Seq<Card>,
) -> bool {
    match play {
        Play::Nop => hand2 == hand && draw2 == draw && discard2 == discard,
        Play::SwapDiscard(p) => {
            &&& hand2.cards@ == hand.cards@.update(p as int, discard.last())
            &&& hand2.visibility@ == hand.visibility@.update(p as int, true)
            &&& draw2 == draw
            &&& discard2 == discard.drop_last().push(hand.cards@[p as int])
        },
        Play::Draw(p) => {
            &&& hand2.cards@ == hand.cards@.update(p as int, draw.last())
            &&& hand2.visibility@ == hand.visibility@.update(p as int, true)
            &&& draw2 == draw.drop_last()
            &&& discard2 == discard.push(hand.cards@[p as int])
        },
    }
}

/// Between `before` and `after`, the card `top` left one pile for position
/// `idx` of hand `p`, and the card held there went onto the discard pile.
pub open spec fn card_moved(before: Game, after: Game, p: int, idx: int, top: Card) -> bool {
    let h = before.players@[p];
    let h2 = after.players@[p];
    &&& 0 <= p < before.players@.len()
    &&& 0 <= idx < h.cards@.len()
    &&& h2.wf()
    &&& h2.cards@ == h.cards@.update(idx, top)
    &&& after.players@ == before.players@.update(p, h2)
    &&& ({
        ||| after.draw@ == before.draw@ && before.discard@ == after.discard@.drop_last().push(top) && after.discard@ == before.discard@.drop_last().push(h.cards@[idx])
        ||| before.draw@ == after.draw@.push(top) && after.discard@ == before.discard@.push(
            h.cards@[idx],
        )
    })
}

pub struct Game {
    pub players: Vec<Hand>,
    pub draw: Deck,
    pub discard: Deck,
}

impl Game {
    /// Every card of the game: draw pile, discard pile and all hands.
    pub open spec fn all_cards(&self) -> Multiset<Card> {
        self.draw@.to_multiset().add(self.discard@.to_multiset()).add(hands_cards(self.players@))
    }

    pub open spec fn wf(&self) -> bool {
        &&& forall|i: int| 0 <= i < self.players@.len() ==> (#[trigger] self.players@[i]).wf()
        &&& self.all_cards() == full_deck().to_multiset()
    }

    /// Both piles hold a card: a play can be applied.
    pub open spec fn turn_ready(&self) -> bool {
        self.draw@.len() > 0 && self.discard@.len() > 0
    }

    /// Shuffles a fresh deck and deals each player a hand with two random
    /// positions face up; the rest of the deck is the draw pile.
    pub fn new(n_players: usize) -> (g: Game)
        requires
            n_players * CARDS_PER_HAND <= CARDS_IN_DECK,
        ensures
            g.wf(),
            g.players@.len() == n_players,
            g.draw@.len() == CARDS_IN_DECK - n_players * CARDS_PER_HAND,
            g.discard@.len() == 0,
            forall|i: int|
                0 <= i < n_players ==> {
                    &&& two_revealed(#[trigger] g.players@[i].visibility@)
                    &&& g.players@[i].width == CARDS_PER_ROW
                },
    {
        let mut deck = new_deck();
        shuffle_cards(&mut deck);
        proof {
            lemma_full_deck_exact();
            assert(deck@.len() == deck@.to_multiset().len());
            assert(full_deck().len() == full_deck().to_multiset().len());
        }
        let mut players: Vec<Hand> = Vec::new();
        assert(deck@.to_multiset().add(hands_cards(players@)) =~= deck@.to_multiset());
        let mut k: usize = 0;
        while k < n_players
            invariant
                k <= n_players,
                n_players * CARDS_PER_HAND <= CARDS_IN_DECK,
                players@.len() == k,
                deck@.len() == CARDS_IN_DECK - k * CARDS_PER_HAND,
                deck@.to_multiset().add(hands_cards(players@)) == full_deck().to_multiset(),
                forall|i: int|
                    0 <= i < k ==> {
                        &&& (#[trigger] players@[i]).wf()
                        &&& two_revealed(players@[i].visibility@)
                        &&& players@[i].width == CARDS_PER_ROW
                    },
            decreases n_players - k,
        {
            let mut cards: Vec<Card> = Vec::new();
            let mut j: usize = 0;
            while j < CARDS_PER_HAND
                invariant
                    j <= CARDS_PER_HAND,
                    cards@.len() == j,
                    k < n_players,
                    n_players * CARDS_PER_HAND <= CARDS_IN_DECK,
                    deck@.len() == CARDS_IN_DECK - k * CARDS_PER_HAND - j,
                    deck@.to_multiset().add(cards@.to_multiset()).add(hands_cards(players@))
                        == full_deck().to_multiset(),
                decreases CARDS_PER_HAND - j,
            {
                let ghost before = deck@;
                assert(deck@.len() > 0) by (nonlinear_arith)
                    requires
                        deck@.len() == CARDS_IN_DECK - k * CARDS_PER_HAND - j,
                        k < n_players,
                        j < CARDS_PER_HAND,
                        n_players * CARDS_PER_HAND <= CARDS_IN_DECK,
                ;
                let c = deck.pop().unwrap();
                assert(before =~= deck@.push(c));
                assert(cards@.push(c).to_multiset() =~= cards@.to_multiset().insert(c));
                cards.push(c);
                j = j + 1;
            }
            assert(deck@.len() == CARDS_IN_DECK - (k + 1) * CARDS_PER_HAND) by (nonlinear_arith)
                requires
                    deck@.len() == CARDS_IN_DECK - k * CARDS_PER_HAND - CARDS_PER_HAND,
            ;
            let mut visibility: Vec<bool> = Vec::new();
            let mut v: usize = 0;
            while v < CARDS_PER_HAND
                invariant
                    v <= CARDS_PER_HAND,
                    visibility@ == Seq::new(v as nat, |x: int| false),
                decreases CARDS_PER_HAND - v,
            {
                visibility.push(false);
                v = v + 1;
            }
            let (a, b) = sample_two_distinct(CARDS_PER_HAND);
            visibility.set(a, true);
            visibility.set(b, true);
            assert(revealed_exactly(visibility@, a as int, b as int));
            let ghost cards_ms = cards@.to_multiset();
            let hand = Hand { cards, visibility, width: CARDS_PER_ROW };
            let ghost before = players@;
            players.push(hand);
            assert(players@.drop_last() =~= before);
            assert(hands_cards(players@) == hands_cards(before).add(cards_ms));
            k = k + 1;
        }
        let g = Game { players, draw: deck, discard: Vec::new() };
        assert(g.all_cards() =~= full_deck().to_multiset());
        g
    }

    /// Makes a face-up card available: when the draw pile is empty the discard
    /// pile becomes the draw pile, and when the discard pile is empty the top
    /// of the draw pile is turned onto it. Returns the face-up card.
    pub fn begin_turn(&mut self) -> (faceup: Card)
        requires
            old(self).wf(),
        ensures
            final(self).wf(),
            final(self).turn_ready(),
            final(self).players == old(self).players,
            faceup == final(self).discard@.last(),
            old(self).turn_ready() ==> *final(self) == *old(self),
            old(self).draw@.len() > 0 && old(self).discard@.len() == 0 ==> {
                &&& final(self).draw@ == old(self).draw@.drop_last()
                &&& final(self).discard@ == seq![old(self).draw@.last()]
            },
            old(self).draw@.len() == 0 ==> {
                &&& final(self).draw@ == old(self).discard@.drop_last()
                &&& final(self).discard@ == seq![old(self).discard@.last()]
            },
    {
        proof {
            self.lemma_pile_count();
        }
        if self.draw.len() == 0 {
            std::mem::swap(&mut self.draw, &mut self.discard);
            assert(self.all_cards() =~= old(self).all_cards());
        }
        if self.discard.len() == 0 {
            let ghost before = *self;
            let top = self.draw.pop().unwrap();
            assert(before.draw@ =~= self.draw@.push(top));
            self.discard.push(top);
            assert(self.discard@ =~= seq![top]);
            assert(self.all_cards() =~= before.all_cards());
        }
        self.discard[self.discard.len() - 1]
    }

    /// Applies a chosen play for `player`. `SwapDiscard(p)` exchanges hand
    /// position `p` with the face-up discard; `Draw(p)` replaces it with the top
    /// of the draw pile and discards the replaced card. Either way position `p`
    /// becomes face up.
    pub fn play(&mut self, player: usize, play: Play)
        requires
            old(self).wf(),
            old(self).turn_ready(),
            player < old(self).players@.len(),
            play_fits(play),
        ensures
            final(self).wf(),
            final(self).players@.len() == old(self).players@.len(),
            forall|i: int|
                0 <= i < old(self).players@.len() && i != player ==> #[trigger] final(self).players@[i]
                    == old(self).players@[i],
            final(self).players@[player as int].width == old(self).players@[player as int].width,
            applied(old(self).players@[player as int], old(self).draw@, old(self).discard@, play,
                final(self).players@[player as int], final(self).draw@, final(self).discard@),
    {
        match play {
            Play::Nop => {
                assert(old(self).players@[player as int] == self.players@[player as int]);
            },
            Play::SwapDiscard(idx) => {
                let ghost before = *self;
                let mut hand = self.players.remove(player);
                let top = self.discard.pop().unwrap();
                let held = hand.cards[idx];
                hand.cards.set(idx, top);
                hand.visibility.set(idx, true);
                self.discard.push(held);
                let ghost new_hand = hand;
                self.players.insert(player, hand);
                proof {
                    assert(self.players@ =~= before.players@.update(player as int, new_hand));
                    assert(before.discard@ =~= before.discard@.drop_last().push(top));
                    assert(self.discard@.drop_last().push(top) =~= before.discard@);
                    self.lemma_conserved(before, player as int, idx as int, top);
                }
            },
            Play::Draw(idx) => {
                let ghost before = *self;
                let mut hand = self.players.remove(player);
                let top = self.draw.pop().unwrap();
                let held = hand.cards[idx];
                hand.cards.set(idx, top);
                hand.visibility.set(idx, true);
                self.discard.push(held);
                let ghost new_hand = hand;
                self.players.insert(player, hand);
                proof {
                    assert(self.players@ =~= before.players@.update(player as int, new_hand));
                    assert(before.draw@ =~= self.draw@.push(top));
                    self.lemma_conserved(before, player as int, idx as int, top);
                }
            },
        }
    }

    /// A move of one card from a pile into a hand position, whose card goes
    /// onto the discard pile, keeps the game's cards.
    proof fn lemma_conserved(&self, before: Game, p: int, idx: int, top: Card)
        requires
            before.wf(),
            card_moved(before, *self, p, idx, top),
        ensures
            self.wf(),
    {
        lemma_hands_update(before.players@, p, self.players@[p]);
        let old_hand = before.players@[p];
        let new_hand = self.players@[p];
        let held = old_hand.cards@[idx];
        assert(new_hand.cards@.to_multiset() == old_hand.cards@.to_multiset().insert(top).remove(held)) by {
            vstd::seq_lib::to_multiset_update(old_hand.cards@, idx, top);
        }
        assert(old_hand.cards@.to_multiset().count(held) > 0) by {
            assert(old_hand.cards@.contains(held));
        }
        if self.draw@ == before.draw@ && before.discard@ == self.discard@.drop_last().push(top) {
            let x = self.discard@.drop_last();
            assert(before.discard@.drop_last() =~= x);
            assert(self.discard@ =~= x.push(held));
            assert(before.discard@.to_multiset() == x.to_multiset().insert(top));
            assert(self.discard@.to_multiset() == x.to_multiset().insert(held));
        } else {
            assert(before.draw@.to_multiset() == self.draw@.to_multiset().insert(top));
            assert(self.discard@.to_multiset() == before.discard@.to_multiset().insert(held));
        }
        let b = before.all_cards();
        let a = self.all_cards();
        assert forall|c: Card| a.count(c) == b.count(c) by {
            assert(hands_cards(self.players@).add(old_hand.cards@.to_multiset()).count(c)
                == hands_cards(before.players@).add(new_hand.cards@.to_multiset()).count(c));
            assert(self.draw@.to_multiset().add(self.discard@.to_multiset()).add(
                new_hand.cards@.to_multiset(),
            ).count(c) == before.draw@.to_multiset().add(before.discard@.to_multiset()).add(
                old_hand.cards@.to_multiset(),
            ).count(c));
        }
        assert(a =~= b);
        assert forall|i: int| 0 <= i < self.players@.len() implies (#[trigger] self.players@[i]).wf() by {
            if i != p {
                assert(self.players@[i] == before.players@[i]);
            }
        }
    }

    /// Deck conservation: in every well-formed game the draw pile, the discard
    /// pile and the hands hold 52 cards together, and each card of the deck
    /// occurs among them exactly once.
    pub proof fn lemma_deck_conservation(&self)
        requires
            self.wf(),
        ensures
            self.draw@.len() + self.discard@.len() + CARDS_PER_HAND * self.players@.len() == CARDS_IN_DECK,
            forall|c: Card| #[trigger] self.all_cards().count(c) == 1,
    {
        self.lemma_pile_count();
        lemma_full_deck_exact();
    }

    /// The piles hold the cards that the hands do not.
    proof fn lemma_pile_count(&self)
        requires
            self.wf(),
        ensures
            self.draw@.len() + self.discard@.len() + CARDS_PER_HAND * self.players@.len() == CARDS_IN_DECK,
            self.draw@.len() + self.discard@.len() >= 4,
    {
        lemma_full_deck_exact();
        lemma_hands_len(self.players@);
        assert(self.draw@.len() == self.draw@.to_multiset().len());
        assert(self.discard@.len() == self.discard@.to_multiset().len());
        assert(full_deck().len() == full_deck().to_multiset().len());
        assert(self.all_cards().len() == CARDS_IN_DECK);
        assert(self.players@.len() <= 8) by (nonlinear_arith)
            requires
                self.draw@.len() + self.discard@.len() + CARDS_PER_HAND * self.players@.len() == CARDS_IN_DECK,
                CARDS_PER_HAND == 6,
        ;
    }
}

} // verus!
