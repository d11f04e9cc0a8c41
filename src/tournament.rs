use crate::card::{Card, CARDS_IN_DECK};
use crate::game::{applied, play_fits, points, Game, Play, CARDS_PER_HAND};
use vstd::prelude::*;

verus! {

/// One group's game: `holes` rounds in which every player, in order, takes
/// one turn. The decision for each turn comes from outside; the tournament
/// says whose turn it is, what they see, and when the game is over.
pub struct Tournament {
    pub game: Game,
    pub holes: usize,
    pub hole: usize,
    pub turn: usize,
}

impl Tournament {
    pub open spec fn wf(&self) -> bool {
        &&& self.game.wf()
        &&& self.turn < self.game.players@.len()
        &&& self.hole <= self.holes
    }

    pub open spec fn finished(&self) -> bool {
        self.hole >= self.holes
    }

    /// A fresh game for `n_players` players over `holes` rounds.
    pub fn new(n_players: usize, holes: usize) -> (t: Tournament)
        requires
            0 < n_players,
            n_players * CARDS_PER_HAND <= CARDS_IN_DECK,
        ensures
            t.wf(),
            t.game.players@.len() == n_players,
            t.holes == holes,
            t.hole == 0,
            t.turn == 0,
    {
        Tournament { game: Game::new(n_players), holes, hole: 0, turn: 0 }
    }

    /// Readies the next turn and returns the face-up card that the player
    /// `self.turn` decides on; `None` once every hole has been played.
    pub fn next_turn(&mut self) -> (faceup: Option<Card>)
        requires
            old(self).wf(),
        ensures
            final(self).wf(),
            final(self).holes == old(self).holes,
            final(self).hole == old(self).hole,
            final(self).turn == old(self).turn,
            final(self).game.players == old(self).game.players,
            old(self).finished() ==> faceup.is_none() && *final(self) == *old(self),
            !old(self).finished() ==> {
                &&& final(self).game.turn_ready()
                &&& faceup == Some(final(self).game.discard@.last())
            },
    {
        if self.hole >= self.holes {
            return None;
        }
        let faceup = self.game.begin_turn();
        Some(faceup)
    }

    /// Applies the current player's play and passes the turn on; after the
    /// last player the next hole begins.
    pub fn take_turn(&mut self, play: Play)
        requires
            old(self).wf(),
            !old(self).finished(),
            old(self).game.turn_ready(),
            play_fits(play),
        ensures
            final(self).wf(),
            final(self).holes == old(self).holes,
            final(self).game.players@.len() == old(self).game.players@.len(),
            applied(
                old(self).game.players@[old(self).turn as int],
                old(self).game.draw@,
                old(self).game.discard@,
                play,
                final(self).game.players@[old(self).turn as int],
                final(self).game.draw@,
                final(self).game.discard@,
            ),
            forall|i: int|
                0 <= i < old(self).game.players@.len() && i != old(self).turn ==> #[trigger] final(self).game.players@[i]
                    == old(self).game.players@[i],
            old(self).turn + 1 < old(self).game.players@.len() ==> final(self).turn == old(self).turn + 1
                && final(self).hole == old(self).hole,
            old(self).turn + 1 == old(self).game.players@.len() ==> final(self).turn == 0
                && final(self).hole == old(self).hole + 1,
    {
        self.game.play(self.turn, play);
        let n = self.game.players.len();
        if self.turn < n - 1 {
            self.turn = self.turn + 1;
        } else {
            self.turn = 0;
            self.hole = self.hole + 1;
        }
    }

    /// Each player's final score, in player order.
    pub fn scores(&self) -> (s: Vec<u32>)
        requires
            self.wf(),
        ensures
            s@.len() == self.game.players@.len(),
            forall|i: int| 0 <= i < s@.len() ==> #[trigger] s@[i] == points(self.game.players@[i].cards@),
    {
        let mut s: Vec<u32> = Vec::new();
        let mut i: usize = 0;
        while i < self.game.players.len()
            invariant
                self.wf(),
                i <= self.game.players@.len(),
                s@.len() == i,
                forall|k: int| 0 <= k < i ==> #[trigger] s@[k] == points(self.game.players@[k].cards@),
            decreases self.game.players@.len() - i,
        {
            let score = self.game.players[i].score();
            s.push(score);
            i = i + 1;
        }
        s
    }
}

} // verus!
