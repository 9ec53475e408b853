//! A game in progress: the players' boards, the patch supply and the time track.

use vstd::prelude::*;

use crate::board::{Board, BoardView};
use crate::geometry::{Point, Rotation};
use crate::patch::{Patch, PatchCircle};
use crate::shape::Shape;
use crate::time::{initial_square, TimeTrack, TRACK_LEN};

verus! {

/// One player's quilt board and button purse.
#[derive(Debug)]
struct Player {
    board: Board,
    buttons: u8,
}

impl Player {
    /// A player with an empty nine by nine board and no buttons.
    fn fresh() -> (p: Player)
        ensures
            p.board@.width == 9,
            p.board@.height == 9,
            p.board@.placements.len() == 0,
            p.buttons == 0,
    {
        Player { board: Board::default(), buttons: 0 }
    }
}

/// A game of Patchwork.
///
/// Rules:
/// * Player 1 goes first.
#[derive(Debug)]
pub struct Game {
    current_player: usize,
    patch_circle: PatchCircle,
    players: Vec<Player>,
    time_track: TimeTrack,
}

impl Game {
    /// The index of the player whose turn it is.
    pub closed spec fn current(&self) -> int {
        self.current_player as int
    }

    /// How many players take part.
    pub closed spec fn player_count(&self) -> int {
        self.players@.len() as int
    }

    /// The board of player `i`.
    pub closed spec fn board_of(&self, i: int) -> BoardView {
        self.players@[i].board@
    }

    /// The buttons player `i` holds.
    pub closed spec fn buttons_of(&self, i: int) -> int {
        self.players@[i].buttons as int
    }

    /// The patch supply.
    pub closed spec fn circle(&self) -> &PatchCircle {
        &self.patch_circle
    }

    /// The time track.
    pub closed spec fn track(&self) -> &TimeTrack {
        &self.time_track
    }

    /// A new game: player 1 to move, an empty nine by nine board and no
    /// buttons for everyone, a fresh patch supply and a fresh time track.
    pub fn for_players(num_players: usize) -> (g: Game)
        ensures
            g.current() == 0,
            g.player_count() == num_players,
            forall|i: int|
                0 <= i < num_players ==> (#[trigger] g.board_of(i)).width == 9 && g.board_of(i).height
                    == 9 && g.board_of(i).placements.len() == 0 && g.buttons_of(i) == 0,
            g.circle().spool_at() == 0,
            g.circle().patches_of().len() == Shape::NUM,
            g.track().squares().len() == TRACK_LEN,
            forall|p: int|
                0 <= p < TRACK_LEN ==> #[trigger] g.track().squares()[p] == initial_square(
                    p,
                    num_players as nat,
                ),
            g.track().pointers_of() == Seq::new(num_players as nat, |i: int| (0usize, i as usize)),
    {
        let mut players: Vec<Player> = Vec::new();
        let mut i: usize = 0;
        while i < num_players
            invariant
                i <= num_players,
                players@.len() == i,
                forall|j: int|
                    0 <= j < i ==> (#[trigger] players@[j]).board@.width == 9 && players@[j].board@.height
                        == 9 && players@[j].board@.placements.len() == 0 && players@[j].buttons == 0,
            decreases num_players - i,
        {
            players.push(Player::fresh());
            i = i + 1;
        }
        Game {
            current_player: 0,
            patch_circle: PatchCircle::default(),
            players,
            time_track: TimeTrack::for_players(num_players),
        }
    }

    /// Progress the game by a single turn.
    pub fn turn(&self) {
    }

    /// The patch `k` places after the spool of the supply.
    pub open spec fn choice(&self, k: int) -> Patch {
        self.circle().patches_of()[self.circle().spool_at() + k]
    }

    /// Whether `(a, q)` is what the player is offered: for the first of the
    /// next three patches whose `fit` succeeds, `a` is the anchor `fit` finds
    /// and `q` the patch turned as `fit` finds.
    pub open spec fn picked(&self, player: int, a: Point, q: Patch) -> bool {
        exists|k: int, rot: Rotation|
            0 <= k < 3 && #[trigger] self.board_of(player).first_fit(self.choice(k), a, rot) && q
                == self.choice(k).turned(rot) && forall|i: int|
                0 <= i < k ==> #[trigger] self.board_of(player).no_fit(self.choice(i))
    }

    /// Picks, of the next three patches of the supply, the first that the
    /// player can place on their board, and returns it with the anchor and the
    /// turn that `Board::fit` finds for it.
    pub fn pick_patch(&mut self, player: usize) -> (r: Option<(Point, Patch)>)
        requires
            player < old(self).player_count(),
            old(self).circle().spool_at() + 3 <= old(self).circle().patches_of().len(),
        ensures
            *final(self) == *old(self),
            match r {
                Some((a, q)) => old(self).picked(player as int, a, q),
                None => forall|k: int|
                    0 <= k < 3 ==> #[trigger] old(self).board_of(player as int).no_fit(old(self).choice(k)),
            },
    {
        let choices = self.patch_circle.next(3);
        let board = &self.players[player].board;
        let mut k: usize = 0;
        while k < choices.len()
            invariant
                choices@.len() == 3,
                k <= 3,
                player < self.players@.len(),
                *board == self.players@[player as int].board,
                forall|i: int|
                    0 <= i < 3 ==> (#[trigger] choices@[i]).0 == self.circle().spool_at() + i && *choices@[i].1
                        == self.circle().patches_of()[self.circle().spool_at() + i],
                forall|i: int| 0 <= i < k ==> #[trigger] self.board_of(player as int).no_fit(self.choice(i)),
            decreases 3 - k,
        {
            let patch = choices[k].1;
            assert(*patch == self.choice(k as int));
            match board.fit(patch) {
                Some((point, rotation)) => {
                    let turned = patch.rotated(rotation);
                    assert(self.board_of(player as int).first_fit(self.choice(k as int), point, rotation));
                    assert(old(self).picked(player as int, point, turned));
                    return Some((point, turned));
                },
                None => {},
            }
            k = k + 1;
        }
        None
    }
}

impl Default for Game {
    /// A game for two players.
    fn default() -> (g: Game)
        ensures
            g.current() == 0,
            g.player_count() == 2,
            forall|i: int|
                0 <= i < 2 ==> (#[trigger] g.board_of(i)).width == 9 && g.board_of(i).height == 9
                    && g.board_of(i).placements.len() == 0 && g.buttons_of(i) == 0,
            g.circle().spool_at() == 0,
            g.circle().patches_of().len() == Shape::NUM,
            g.track().squares().len() == TRACK_LEN,
            forall|p: int| 0 <= p < TRACK_LEN ==> #[trigger] g.track().squares()[p] == initial_square(p, 2),
            g.track().pointers_of() == Seq::new(2, |i: int| (0usize, i as usize)),
    {
        Game::for_players(2)
    }
}

} // verus!
