//! The time track: the squares that players' time tokens advance over, with
//! the button and patch markers laid out on it.

use vstd::prelude::*;

verus! {

/// A token on the time track.
#[derive(Copy, Clone, Debug, PartialEq, Eq, Structural)]
pub enum Token {
    Time,
    Button,
    Patch,
}

/// A square of the track.
pub type Position = usize;

/// Where a token stands: its square and an index on it.
pub type Pointer = (Position, usize);

/// The number of squares on the track.
pub const TRACK_LEN: usize = 54;

/// Whether a button marker starts on square `p`: every sixth square from the sixth.
pub open spec fn button_square(p: int) -> bool {
    0 <= p < TRACK_LEN && p % 6 == 5
}

/// Whether a patch marker starts on square `p`.
pub open spec fn patch_square(p: int) -> bool {
    p == 20 || p == 26 || p == 32 || p == 44 || p == 50
}

/// The tokens on square `p` of a fresh track for `n` players.
pub open spec fn initial_square(p: int, n: nat) -> Option<Seq<Token>> {
    if p == 0 {
        Some(Seq::new(n, |i: int| Token::Time))
    } else if button_square(p) {
        Some(seq![Token::Button])
    } else if patch_square(p) {
        Some(seq![Token::Patch])
    } else {
        None
    }
}

/// A track for managing time remaining in the game.
///
/// Rules:
/// * Player 1 goes first.
/// * There are 54 squares on the time track.
#[derive(Debug)]
pub struct TimeTrack {
    pointers: Vec<Pointer>,
    track: Vec<Option<Vec<Token>>>,
}

impl TimeTrack {
    /// The tokens on each square.
    pub closed spec fn squares(&self) -> Seq<Option<Seq<Token>>> {
        Seq::new(
            self.track@.len(),
            |p: int|
                match self.track@[p] {
                    Some(v) => Some(v@),
                    None => None,
                },
        )
    }

    /// Where each player's time token stands.
    pub closed spec fn pointers_of(&self) -> Seq<Pointer> {
        self.pointers@
    }

    /// A fresh track: every player's time token on the first square, and the
    /// button and patch markers on their squares.
    pub fn for_players(num_players: usize) -> (t: TimeTrack)
        ensures
            t.squares().len() == TRACK_LEN,
            forall|p: int| 0 <= p < TRACK_LEN ==> #[trigger] t.squares()[p] == initial_square(p, num_players as nat),
            t.pointers_of() == Seq::new(num_players as nat, |i: int| (0usize, i as usize)),
    {
        let mut track: Vec<Option<Vec<Token>>> = Vec::new();
        let mut p: usize = 0;
        while p < TRACK_LEN
            invariant
                p <= TRACK_LEN,
                track@.len() == p,
                forall|q: int|
                    0 <= q < p ==> match #[trigger] track@[q] {
                        Some(v) => initial_square(q, num_players as nat) == Some(v@),
                        None => initial_square(q, num_players as nat) is None,
                    },
            decreases TRACK_LEN - p,
        {
            let square: Option<Vec<Token>> = if p == 0 {
                let mut times: Vec<Token> = Vec::new();
                let mut i: usize = 0;
                while i < num_players
                    invariant
                        i <= num_players,
                        times@ == Seq::new(i as nat, |j: int| Token::Time),
                    decreases num_players - i,
                {
                    times.push(Token::Time);
                    i = i + 1;
                    assert(times@ =~= Seq::new(i as nat, |j: int| Token::Time));
                }
                Some(times)
            } else if p % 6 == 5 {
                Some(vec![Token::Button])
            } else if p == 20 || p == 26 || p == 32 || p == 44 || p == 50 {
                Some(vec![Token::Patch])
            } else {
                None
            };
            track.push(square);
            p = p + 1;
        }
        let mut pointers: Vec<Pointer> = Vec::new();
        let mut i: usize = 0;
        while i < num_players
            invariant
                i <= num_players,
                pointers@ == Seq::new(i as nat, |j: int| (0usize, j as usize)),
            decreases num_players - i,
        {
            pointers.push((0, i));
            i = i + 1;
            assert(pointers@ =~= Seq::new(i as nat, |j: int| (0usize, j as usize)));
        }
        let t = TimeTrack { track, pointers };
        assert forall|p: int| 0 <= p < TRACK_LEN implies #[trigger] t.squares()[p] == initial_square(p, num_players as nat) by {
            match t.track@[p] {
                Some(v) => {},
                None => {},
            }
        }
        t
    }

    /// How many tokens stand on square `position`.
    pub fn token_count(&self, position: Position) -> (n: usize)
        requires
            position < self.squares().len(),
        ensures
            n == match self.squares()[position as int] {
                Some(tokens) => tokens.len(),
                None => 0,
            },
    {
        match &self.track[position] {
            Some(tokens) => tokens.len(),
            None => 0,
        }
    }

    /// The number of squares on the track.
    pub fn len(&self) -> (n: usize)
        ensures
            n == self.squares().len(),
    {
        self.track.len()
    }

    /// Places a token on a square, and returns a pointer to it.
    pub fn place(&mut self, token: Token, position: Position) -> (r: Pointer)
        requires
            position < old(self).squares().len(),
        ensures
            final(self).squares() == old(self).squares().update(
                position as int,
                Some(
                    match old(self).squares()[position as int] {
                        Some(tokens) => tokens.push(token),
                        None => seq![token],
                    },
                ),
            ),
            final(self).pointers_of() == old(self).pointers_of(),
            r == (position, (final(self).squares()[position as int]->Some_0.len() - 1) as usize),
    {
        let mut tokens: Vec<Token> = Vec::new();
        match &self.track[position] {
            Some(existing) => {
                let mut i: usize = 0;
                while i < existing.len()
                    invariant
                        i <= existing@.len(),
                        tokens@ == existing@.subrange(0, i as int),
                    decreases existing@.len() - i,
                {
                    tokens.push(existing[i]);
                    i = i + 1;
                    assert(tokens@ =~= existing@.subrange(0, i as int));
                }
                assert(tokens@ =~= existing@);
            },
            None => {},
        }
        tokens.push(token);
        let index = tokens.len() - 1;
        self.track.set(position, Some(tokens));
        assert(self.squares() =~= old(self).squares().update(
            position as int,
            Some(
                match old(self).squares()[position as int] {
                    Some(tokens) => tokens.push(token),
                    None => seq![token],
                },
            ),
        ));
        (position, index)
    }
}

} // verus!
