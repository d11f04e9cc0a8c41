use crate::card::{rank_number, Card, Rank};
use crate::game::{Hand, Play, CARDS_PER_HAND};
use vstd::prelude::*;

verus! {

/// Width of a rank block: thirteen ranks and one hidden marker.
pub const BLOCK_SIZE: usize = 14;

/// Start of the face-up card's block, after one block per hand position.
pub const FACEUP_START: usize = BLOCK_SIZE * CARDS_PER_HAND;

pub const INPUT_SIZE: usize = 97;

pub const OUTPUT_SIZE: usize = 9;

/// Number of action logits that follow the card logits: Nop, SwapDiscard, Draw.
pub const N_ACTIONS: usize = 3;

/// 1-based number of a rank within a rank block.
pub fn rank_offset(rank: &Rank) -> (r: usize)
    ensures
        r == rank_number(*rank),
        1 <= r <= 13,
{
    match rank {
        Rank::Ace => 1,
        Rank::Two => 2,
        Rank::Three => 3,
        Rank::Four => 4,
        Rank::Five => 5,
        Rank::Six => 6,
        Rank::Seven => 7,
        Rank::Eight => 8,
        Rank::Nine => 9,
        Rank::Ten => 10,
        Rank::Jack => 11,
        Rank::King => 12,
        Rank::Queen => 13,
    }
}

/// Slot within hand position `p`'s block that is set: the rank of a face-up
/// card, or the hidden marker (slot 13) for a face-down one.
pub open spec fn position_slot(hand: Hand, p: int) -> int {
    if hand.visibility@[p] {
        rank_number(hand.cards@[p].rank) - 1
    } else {
        13
    }
}

/// The feature vector: position `p` owns indices `14p .. 14p + 14`, the face-up
/// card owns the trailing thirteen; exactly one index is set in each block.
pub open spec fn encoding(hand: Hand, faceup: Card) -> Seq<bool> {
    Seq::new(
        INPUT_SIZE as nat,
        |i: int|
            if i < FACEUP_START {
                i % 14 == position_slot(hand, i / 14)
            } else {
                i - FACEUP_START == rank_number(faceup.rank) - 1
            },
    )
}

/// Writes the one-hot observation of `hand` and the face-up card into `output`.
pub fn encode_inputs(hand: &Hand, faceup: &Card, output: &mut Vec<bool>)
    requires
        hand.wf(),
        old(output)@.len() == INPUT_SIZE,
    ensures
        final(output)@ == encoding(*hand, *faceup),
{
    let mut i: usize = 0;
    while i < INPUT_SIZE
        invariant
            hand.wf(),
            output@.len() == INPUT_SIZE,
            i <= INPUT_SIZE,
            forall|j: int| 0 <= j < i ==> output@[j] == #[trigger] encoding(*hand, *faceup)[j],
        decreases INPUT_SIZE - i,
    {
        let hot = if i < FACEUP_START {
            let p = i / BLOCK_SIZE;
            let slot = if hand.visibility[p] {
                rank_offset(&hand.cards[p].rank) - 1
            } else {
                13
            };
            i % BLOCK_SIZE == slot
        } else {
            i - FACEUP_START == rank_offset(&faceup.rank) - 1
        };
        output.set(i, hot);
        i = i + 1;
    }
    assert(output@ =~= encoding(*hand, *faceup));
}

/// `k` is the first position of a largest element of `s`.
pub open spec fn is_first_max(s: Seq<u32>, k: int) -> bool {
    &&& 0 <= k < s.len()
    &&& forall|j: int| 0 <= j < s.len() ==> s[j] <= s[k]
    &&& forall|j: int| 0 <= j < k ==> s[j] < s[k]
}

/// Position of the first largest element of `keys[start..end]`, relative to
/// `start`; 0 for an empty range.
pub fn first_argmax(keys: &Vec<u32>, start: usize, end: usize) -> (k: usize)
    requires
        start <= end <= keys@.len(),
    ensures
        start < end ==> is_first_max(keys@.subrange(start as int, end as int), k as int),
        start == end ==> k == 0,
{
    if start == end {
        return 0;
    }
    let mut best: usize = 0;
    let mut i: usize = start + 1;
    while i < end
        invariant
            start < end <= keys@.len(),
            start + 1 <= i <= end,
            is_first_max(keys@.subrange(start as int, i as int), best as int),
        decreases end - i,
    {
        if keys[i] > keys[start + best] {
            best = i - start;
        }
        assert(keys@.subrange(start as int, i + 1).drop_last() =~= keys@.subrange(start as int, i as int));
        i = i + 1;
    }
    best
}

/// The play that a vector of output keys chooses. The first `n_cards` keys
/// rate hand positions and the next three rate Nop, SwapDiscard and Draw; each
/// choice is the first largest key of its block. Keys order as the network's
/// outputs do.
pub open spec fn decoded(keys: Seq<u32>, n_cards: int, play: Play) -> bool {
    let cards = keys.subrange(0, n_cards);
    let actions = keys.subrange(n_cards, n_cards + 3);
    let card_idx_ok = |k: usize| if n_cards == 0 { k == 0 } else { is_first_max(cards, k as int) };
    match play {
        Play::Nop => is_first_max(actions, 0),
        Play::SwapDiscard(k) => is_first_max(actions, 1) && card_idx_ok(k),
        Play::Draw(k) => is_first_max(actions, 2) && card_idx_ok(k),
    }
}

/// Turns output keys into a play (see `decoded`).
pub fn decode_outputs(keys: &Vec<u32>, n_cards: usize) -> (play: Play)
    requires
        n_cards + N_ACTIONS <= keys@.len(),
    ensures
        decoded(keys@, n_cards as int, play),
{
    let len = keys.len();
    assert(n_cards + N_ACTIONS <= len);
    let card_idx = first_argmax(keys, 0, n_cards);
    let play_idx = first_argmax(keys, n_cards, n_cards + N_ACTIONS);
    if play_idx == 0 {
        Play::Nop
    } else if play_idx == 1 {
        Play::SwapDiscard(card_idx)
    } else {
        Play::Draw(card_idx)
    }
}

/// A sequence has at most one first largest position.
pub proof fn lemma_first_max_unique(s: Seq<u32>, i: int, j: int)
    requires
        is_first_max(s, i),
        is_first_max(s, j),
    ensures
        i == j,
{
    if i < j {
        assert(s[i] < s[j]);
        assert(s[j] <= s[i]);
    } else if j < i {
        assert(s[j] < s[i]);
        assert(s[i] <= s[j]);
    }
}

/// Decoding follows the action block's arg-max: position 0 gives `Nop`
/// whatever the card logits, 1 gives `SwapDiscard(k)` and 2 gives `Draw(k)`,
/// where `k` is the card block's arg-max.
pub proof fn lemma_decode_action_shape(keys: Seq<u32>, n_cards: int, play: Play, a: int, k: usize)
    requires
        0 < n_cards,
        n_cards + N_ACTIONS <= keys.len(),
        decoded(keys, n_cards, play),
        is_first_max(keys.subrange(n_cards, n_cards + 3), a),
        is_first_max(keys.subrange(0, n_cards), k as int),
    ensures
        a == 0 ==> play == Play::Nop,
        a == 1 ==> play == Play::SwapDiscard(k),
        a == 2 ==> play == Play::Draw(k),
{
    let cards = keys.subrange(0, n_cards);
    let actions = keys.subrange(n_cards, n_cards + 3);
    match play {
        Play::Nop => lemma_first_max_unique(actions, 0, a),
        Play::SwapDiscard(c) => {
            lemma_first_max_unique(actions, 1, a);
            lemma_first_max_unique(cards, c as int, k as int);
        },
        Play::Draw(c) => {
            lemma_first_max_unique(actions, 2, a);
            lemma_first_max_unique(cards, c as int, k as int);
        },
    }
}

} // verus!
