use vstd::prelude::*;

verus! {

/// The thirteen ranks, in the order in which the encoding numbers them.
#[derive(Debug, Copy, Clone, Hash, PartialEq, Eq, Structural)]
pub enum Rank {
    Ace,
    Two,
    Three,
    Four,
    Five,
    Six,
    Seven,
    Eight,
    Nine,
    Ten,
    Jack,
    King,
    Queen,
}

#[derive(Debug, Copy, Clone, Hash, PartialEq, Eq, Structural)]
pub enum Suit {
    Spades,
    Hearts,
    Diamonds,
    Clubs,
}

#[derive(Debug, Copy, Clone, Hash, PartialEq, Eq, Structural)]
pub struct Card {
    pub suit: Suit,
    pub rank: Rank,
}

pub type Deck = Vec<Card>;

pub const CARDS_IN_DECK: usize = 52;

/// Golf points of a rank: Ace 1, numerals their face value, Jack and Queen 10, King 0.
pub open spec fn rank_points(r: Rank) -> nat {
    match r {
        Rank::Ace => 1,
        Rank::Two => 2,
        Rank::Three => 3,
        Rank::Four => 4,
        Rank::Five => 5,
        Rank::Six => 6,
        Rank::Seven => 7,
        Rank::Eight => 8,
        Rank::Nine => 9,
        Rank::Ten => 10,
        Rank::Jack => 10,
        Rank::King => 0,
        Rank::Queen => 10,
    }
}

/// Position of a rank in the encoding's rank block, counted from 1.
pub open spec fn rank_number(r: Rank) -> nat {
    match r {
        Rank::Ace => 1,
        Rank::Two => 2,
        Rank::Three => 3,
        Rank::Four => 4,
        Rank::Five => 5,
        Rank::Six => 6,
        Rank::Seven => 7,
        Rank::Eight => 8,
        Rank::Nine => 9,
        Rank::Ten => 10,
        Rank::Jack => 11,
        Rank::King => 12,
        Rank::Queen => 13,
    }
}

/// Suits in dealing order of a fresh deck.
pub open spec fn suit_at(i: int) -> Suit {
    if i == 0 {
        Suit::Spades
    } else if i == 1 {
        Suit::Clubs
    } else if i == 2 {
        Suit::Hearts
    } else {
        Suit::Diamonds
    }
}

pub open spec fn suit_index(s: Suit) -> int {
    match s {
        Suit::Spades => 0,
        Suit::Clubs => 1,
        Suit::Hearts => 2,
        Suit::Diamonds => 3,
    }
}

/// Ranks in dealing order within one suit of a fresh deck.
pub open spec fn rank_at(j: int) -> Rank {
    if j == 0 {
        Rank::Ace
    } else if j == 1 {
        Rank::Two
    } else if j == 2 {
        Rank::Three
    } else if j == 3 {
        Rank::Four
    } else if j == 4 {
        Rank::Five
    } else if j == 5 {
        Rank::Six
    } else if j == 6 {
        Rank::Seven
    } else if j == 7 {
        Rank::Eight
    } else if j == 8 {
        Rank::Nine
    } else if j == 9 {
        Rank::Ten
    } else if j == 10 {
        Rank::Jack
    } else if j == 11 {
        Rank::Queen
    } else {
        Rank::King
    }
}

pub open spec fn rank_index(r: Rank) -> int {
    match r {
        Rank::Ace => 0,
        Rank::Two => 1,
        Rank::Three => 2,
        Rank::Four => 3,
        Rank::Five => 4,
        Rank::Six => 5,
        Rank::Seven => 6,
        Rank::Eight => 7,
        Rank::Nine => 8,
        Rank::Ten => 9,
        Rank::Jack => 10,
        Rank::Queen => 11,
        Rank::King => 12,
    }
}

/// Where a card stands in a fresh deck.
pub open spec fn card_index(c: Card) -> int {
    13 * suit_index(c.suit) + rank_index(c.rank)
}

/// A fresh deck: suits Spades, Clubs, Hearts, Diamonds, each Ace up to King.
pub open spec fn full_deck() -> Seq<Card> {
    Seq::new(52, |i: int| Card { suit: suit_at(i / 13), rank: rank_at(i % 13) })
}

/// Every card of a fresh deck sits at its own index, and each (suit, rank) pair
/// occurs in it exactly once.
pub proof fn lemma_full_deck_exact()
    ensures
        full_deck().len() == 52,
        forall|i: int| 0 <= i < 52 ==> card_index(#[trigger] full_deck()[i]) == i,
        forall|c: Card| #[trigger] full_deck()[card_index(c)] == c,
        forall|c: Card| 0 <= #[trigger] card_index(c) < 52,
        full_deck().no_duplicates(),
        forall|c: Card| #[trigger] full_deck().to_multiset().count(c) == 1,
{
    assert forall|i: int| 0 <= i < 52 implies card_index(#[trigger] full_deck()[i]) == i by {
        let q = i / 13;
        let r = i % 13;
        assert(0 <= q < 4 && 0 <= r < 13 && i == 13 * q + r);
        assert(suit_index(suit_at(q)) == q);
        assert(rank_index(rank_at(r)) == r);
    }
    assert forall|c: Card| #[trigger] full_deck()[card_index(c)] == c by {
        let k = card_index(c);
        assert(k / 13 == suit_index(c.suit) && k % 13 == rank_index(c.rank));
    }
    let d = full_deck();
    d.to_multiset_ensures();
    d.lemma_multiset_has_no_duplicates();
    assert forall|c: Card| #[trigger] d.to_multiset().count(c) == 1 by {
        assert(d[card_index(c)] == c);
        assert(d.contains(c));
    }
}

/// Base code point of a suit's row in the Unicode playing-cards block.
pub open spec fn suit_glyph_base(s: Suit) -> u32 {
    match s {
        Suit::Spades => 0x1F0A0,
        Suit::Hearts => 0x1F0B0,
        Suit::Diamonds => 0x1F0C0,
        Suit::Clubs => 0x1F0D0,
    }
}

/// Column of a rank in the Unicode playing-cards block (the Knight, 0xC, is
/// skipped, so Queen is 0xD and King 0xE).
pub open spec fn rank_glyph_column(r: Rank) -> u32 {
    match r {
        Rank::Ace => 0x1,
        Rank::Two => 0x2,
        Rank::Three => 0x3,
        Rank::Four => 0x4,
        Rank::Five => 0x5,
        Rank::Six => 0x6,
        Rank::Seven => 0x7,
        Rank::Eight => 0x8,
        Rank::Nine => 0x9,
        Rank::Ten => 0xA,
        Rank::Jack => 0xB,
        Rank::Queen => 0xD,
        Rank::King => 0xE,
    }
}

/// Code point of the face-down card back.
pub const CARD_BACK: u32 = 0x1F0A0;

impl Card {
    /// Unicode code point of the card's glyph.
    pub fn glyph_code(&self) -> (c: u32)
        ensures
            c == suit_glyph_base(self.suit) + rank_glyph_column(self.rank),
            0x1F0A1 <= c <= 0x1F0DE,
    {
        let suit: u32 = match self.suit {
            Suit::Spades => 0x1F0A0,
            Suit::Hearts => 0x1F0B0,
            Suit::Diamonds => 0x1F0C0,
            Suit::Clubs => 0x1F0D0,
        };
        let rank: u32 = match self.rank {
            Rank::Ace => 0x1,
            Rank::Two => 0x2,
            Rank::Three => 0x3,
            Rank::Four => 0x4,
            Rank::Five => 0x5,
            Rank::Six => 0x6,
            Rank::Seven => 0x7,
            Rank::Eight => 0x8,
            Rank::Nine => 0x9,
            Rank::Ten => 0xA,
            Rank::Jack => 0xB,
            Rank::Queen => 0xD,
            Rank::King => 0xE,
        };
        suit + rank
    }
}

pub fn rank_at_exec(j: usize) -> (r: Rank)
    requires
        j < 13,
    ensures
        r == rank_at(j as int),
{
    if j == 0 {
        Rank::Ace
    } else if j == 1 {
        Rank::Two
    } else if j == 2 {
        Rank::Three
    } else if j == 3 {
        Rank::Four
    } else if j == 4 {
        Rank::Five
    } else if j == 5 {
        Rank::Six
    } else if j == 6 {
        Rank::Seven
    } else if j == 7 {
        Rank::Eight
    } else if j == 8 {
        Rank::Nine
    } else if j == 9 {
        Rank::Ten
    } else if j == 10 {
        Rank::Jack
    } else if j == 11 {
        Rank::Queen
    } else {
        Rank::King
    }
}

pub fn suit_at_exec(i: usize) -> (s: Suit)
    requires
        i < 4,
    ensures
        s == suit_at(i as int),
{
    if i == 0 {
        Suit::Spades
    } else if i == 1 {
        Suit::Clubs
    } else if i == 2 {
        Suit::Hearts
    } else {
        Suit::Diamonds
    }
}

/// A fresh, unshuffled deck of the 52 distinct cards.
pub fn new_deck() -> (deck: Deck)
    ensures
        deck@ == full_deck(),
{
    let mut deck: Deck = Vec::new();
    let mut i: usize = 0;
    while i < 4
        invariant
            i <= 4,
            deck@ == full_deck().take(13 * i as int),
        decreases 4 - i,
    {
        let suit = suit_at_exec(i);
        let mut j: usize = 0;
        while j < 13
            invariant
                i < 4,
                j <= 13,
                suit == suit_at(i as int),
                deck@ == full_deck().take(13 * i + j),
            decreases 13 - j,
        {
            let rank = rank_at_exec(j);
            proof {
                let k = 13 * i + j;
                assert(k / 13 == i as int && k % 13 == j as int);
            }
            deck.push(Card { suit, rank });
            assert(deck@ =~= full_deck().take(13 * i + j + 1));
            j = j + 1;
        }
        i = i + 1;
    }
    assert(deck@ =~= full_deck());
    deck
}

} // verus!
