//! Per-team state: membership, the codemaster, the current hint and
//! the remaining guess budget.
//!
//! The bonus-guess rule lives here: when a new hint is issued while
//! guesses (or an earlier bonus) remain, the prior hint is stacked
//! into `previous`; spending guesses consumes the budget first and the
//! stacked bonus only after, so a team keeps guessing while either is
//! left.

use vstd::prelude::*;
use crate::team::Team;
use crate::roster::{Roster, first_with_name, lemma_first_with_name_member};
use crate::error::GameError;
use crate::request;
use crate::bytes::opt_view;

verus! {

/// The half of the hint/guess cycle a team is in.
#[derive(Debug, Clone, Copy, PartialEq, Eq, Structural)]
pub enum State {
    Hint,
    Guess,
}

/// One team's complete state.
#[derive(Debug)]
pub struct GameTeam {
    pub team: Team,
    pub guesses: u8,
    pub hint: Vec<u8>,
    pub previous: Option<Vec<u8>>,
    pub players: Roster,
    pub state: State,
    pub master: Option<usize>,
}

impl GameTeam {
    /// A team never sits in its guessing phase without a master.
    pub open spec fn inv(self) -> bool {
        &&& self.players.wf()
        &&& self.state is Guess ==> self.master is Some
    }

    /// Whether `token` may guess right now: a non-master team member,
    /// during the guessing phase, with budget or a bonus left.
    pub open spec fn spec_can_guess(self, token: usize) -> bool {
        &&& self.players.contains_token(token)
        &&& self.master != Some(token)
        &&& self.state is Guess
        &&& self.guesses > 0 || self.previous is Some
    }

    pub fn new(team: Team) -> (r: GameTeam)
        ensures
            r.team == team,
            r.master is None,
            r.hint@ == Seq::<u8>::empty(),
            r.guesses == 0,
            r.previous is None,
            r.state is Hint,
            r.players@ == Seq::<(usize, Seq<u8>)>::empty(),
            r.inv(),
    {
        GameTeam {
            team,
            master: None,
            hint: Vec::new(),
            guesses: 0,
            previous: None,
            state: State::Hint,
            players: Roster::new(),
        }
    }

    /// Adds (or renames) a member.
    pub fn add_player(&mut self, token: usize, player: Vec<u8>)
        requires
            old(self).inv(),
        ensures
            final(self).inv(),
            final(self).players@ == (if old(self).players.contains_token(token) {
                old(self).players@.update(old(self).players.index_of(token), (token, player@))
            } else {
                old(self).players@.push((token, player@))
            }),
            final(self).players.contains_token(token),
            final(self).team == old(self).team,
            final(self).guesses == old(self).guesses,
            final(self).hint == old(self).hint,
            final(self).previous == old(self).previous,
            final(self).state == old(self).state,
            final(self).master == old(self).master,
    {
        self.players.insert(token, player);
        proof {
            let v = self.players@;
            if old(self).players.contains_token(token) {
                let i = old(self).players.index_of(token);
                assert(v[i].0 == token);
            } else {
                assert(v[v.len() - 1].0 == token);
            }
        }
    }

    /// Removes a member, reporting the name it had.  The master token
    /// is kept even when its player leaves; the game layer resets the
    /// whole game in that case.
    pub fn remove_player(&mut self, token: usize) -> (r: Option<Vec<u8>>)
        requires
            old(self).inv(),
        ensures
            final(self).inv(),
            match r {
                Some(n) => {
                    &&& old(self).players.spec_get(token) == Some(n@)
                    &&& final(self).players@ == old(self).players@.remove(
                        old(self).players.index_of(token),
                    )
                },
                None => {
                    &&& !old(self).players.contains_token(token)
                    &&& final(self).players@ == old(self).players@
                },
            },
            final(self).team == old(self).team,
            final(self).guesses == old(self).guesses,
            final(self).hint == old(self).hint,
            final(self).previous == old(self).previous,
            final(self).state == old(self).state,
            final(self).master == old(self).master,
    {
        self.players.remove(token)
    }

    pub fn nb_players(&self) -> (r: usize)
        ensures
            r == self.players@.len(),
    {
        self.players.len()
    }

    pub fn has_master(&self) -> (r: bool)
        ensures
            r == (self.master is Some),
    {
        self.master.is_some()
    }

    /// Binds the master to the first member carrying the requested
    /// name; on failure nothing changes.  Keeping an earlier binding
    /// on failure (rather than clearing it) preserves the rule that a
    /// team in its guessing phase always has a master, even for a
    /// team sent back to setup mid-guess; the game layer looks both
    /// masters up before binding either, so a failed start never
    /// reaches this method at all.
    pub fn set_master(&mut self, start: &request::Start) -> (r: Result<(), GameError>)
        requires
            old(self).inv(),
        ensures
            final(self).inv(),
            set_master_post(*old(self), *final(self), *start, r),
    {
        let name = start.master(&self.team);
        match self.players.find_token_by_name(name.as_slice()) {
            Some(t) => {
                proof {
                    lemma_first_with_name_member(
                        self.players@,
                        start.spec_master(self.team),
                    );
                }
                self.master = Some(t);
                Ok(())
            },
            None => Err(GameError::MasterNotFound),
        }
    }

    /// Issues a hint: only the master may, and only during the hint
    /// phase.  A budget or bonus still standing stacks the old hint as
    /// the bonus guess.
    pub fn give_hint(&mut self, token: usize, hint: &request::Hint) -> (r: Result<
        (),
        GameError,
    >)
        requires
            old(self).inv(),
        ensures
            final(self).inv(),
            give_hint_post(*old(self), *final(self), token, *hint, r),
    {
        if let Err(e) = self.validate_player(token, true) {
            return Err(e);
        }
        match self.state {
            State::Guess => Err(GameError::WrongPhase),
            State::Hint => {
                if self.guesses > 0 || self.previous.is_some() {
                    let stacked = crate::bytes::copy_bytes(self.hint.as_slice());
                    self.previous = Some(stacked);
                } else {
                    self.previous = None;
                }
                self.hint = crate::bytes::copy_bytes(hint.hint.as_slice());
                self.guesses = hint.guesses;
                self.state = State::Guess;
                Ok(())
            },
        }
    }

    /// Accounts for a revealed tile and names the team to play next.
    pub fn next_team(&mut self, token: usize, tile: crate::board::Tile) -> (r: Result<
        Team,
        GameError,
    >)
        requires
            old(self).inv(),
        ensures
            final(self).inv(),
            next_team_post(*old(self), *final(self), token, tile, r),
    {
        if let Err(e) = self.validate_player(token, false) {
            return Err(e);
        }
        match self.state {
            State::Hint => Err(GameError::WrongPhase),
            State::Guess => {
                let own = match (tile, self.team) {
                    (crate::board::Tile::Red, Team::Red) => true,
                    (crate::board::Tile::Blue, Team::Blue) => true,
                    _ => false,
                };
                if own {
                    Ok(self.decrease_guess())
                } else {
                    self.state = State::Hint;
                    Ok(self.team.opposite())
                }
            },
        }
    }

    /// Spends one guess: the budget first, the stacked bonus after.
    /// The team keeps the turn while either remains.
    pub fn decrease_guess(&mut self) -> (r: Team)
        requires
            old(self).inv(),
            old(self).state is Guess,
        ensures
            final(self).inv(),
            final(self).players == old(self).players,
            final(self).master == old(self).master,
            final(self).team == old(self).team,
            final(self).hint == old(self).hint,
            spec_decrease_guess(*old(self), *final(self), Ok(r)),
    {
        if self.guesses > 0 {
            self.guesses = self.guesses - 1;
        } else {
            self.previous = None;
        }
        if self.guesses > 0 || self.previous.is_some() {
            self.team
        } else {
            self.state = State::Hint;
            self.team.opposite()
        }
    }

    /// Ends the team's guessing at the player's request.
    pub fn pass(&mut self, token: usize) -> (r: Result<(), GameError>)
        requires
            old(self).inv(),
        ensures
            final(self).inv(),
            pass_post(*old(self), *final(self), token, r),
    {
        if let Err(e) = self.validate_player(token, false) {
            return Err(e);
        }
        self.state = State::Hint;
        Ok(())
    }

    /// Checks that `token` is the master (or any member, for
    /// `master == false`).
    fn validate_player(&self, token: usize, master: bool) -> (r: Result<(), GameError>)
        requires
            self.inv(),
        ensures
            master ==> r == (if self.master == Some(token) {
                Ok::<(), GameError>(())
            } else {
                Err::<(), GameError>(GameError::NotMaster)
            }),
            !master ==> r == (if self.players.contains_token(token) {
                Ok::<(), GameError>(())
            } else {
                Err::<(), GameError>(GameError::PlayerNotFound)
            }),
    {
        if master {
            match self.master {
                Some(t) if token == t => Ok(()),
                _ => Err(GameError::NotMaster),
            }
        } else {
            if self.players.contains(token) {
                Ok(())
            } else {
                Err(GameError::PlayerNotFound)
            }
        }
    }

    /// Whether `token` may guess right now.  The master itself never
    /// may.
    pub fn can_guess(&self, token: usize) -> (r: bool)
        requires
            self.inv(),
        ensures
            r == self.spec_can_guess(token),
            self.master == Some(token) ==> r == false,
    {
        if !self.players.contains(token) {
            return false;
        }
        if let Some(master) = self.master {
            if token == master {
                return false;
            }
        }
        match self.state {
            State::Guess => self.guesses > 0 || self.previous.is_some(),
            State::Hint => false,
        }
    }
}

/// The team that plays after a reveal, as a function of the guessing
/// team's state and the revealed tile.
pub open spec fn next_team_result(pre: GameTeam, tile: crate::board::Tile) -> Team {
    if tile == crate::board::team_tile(pre.team) {
        let g1: u8 = if pre.guesses > 0 {
            (pre.guesses - 1) as u8
        } else {
            0
        };
        let prev1: Option<Seq<u8>> = if pre.guesses > 0 {
            opt_view(pre.previous)
        } else {
            None
        };
        if g1 > 0 || prev1 is Some {
            pre.team
        } else {
            pre.team.spec_opposite()
        }
    } else {
        pre.team.spec_opposite()
    }
}

/// What spending one guess does: the budget is consumed before the
/// stacked bonus, and the turn stays with the team while either is
/// nonempty.
pub open spec fn spec_decrease_guess(pre: GameTeam, post: GameTeam, r: Result<
    Team,
    GameError,
>) -> bool {
    let g1: u8 = if pre.guesses > 0 {
        (pre.guesses - 1) as u8
    } else {
        0
    };
    let prev1: Option<Seq<u8>> = if pre.guesses > 0 {
        opt_view(pre.previous)
    } else {
        None
    };
    &&& post.guesses == g1
    &&& opt_view(post.previous) == prev1
    &&& if g1 > 0 || prev1 is Some {
        post.state == pre.state && r == Ok::<Team, GameError>(pre.team)
    } else {
        post.state is Hint && r == Ok::<Team, GameError>(pre.team.spec_opposite())
    }
}

/// What a successful or failed `set_master` does: the master becomes
/// the first member carrying the requested name; on failure nothing
/// changes.
pub open spec fn set_master_post(
    pre: GameTeam,
    post: GameTeam,
    start: crate::request::Start,
    r: Result<(), GameError>,
) -> bool {
    match first_with_name(pre.players@, start.spec_master(pre.team)) {
        Some(t) => {
            &&& r is Ok
            &&& post.master == Some(t)
            &&& post.players.contains_token(t)
            &&& post.players == pre.players
            &&& post.team == pre.team
            &&& post.guesses == pre.guesses
            &&& post.hint == pre.hint
            &&& post.previous == pre.previous
            &&& post.state == pre.state
        },
        None => r == Err::<(), GameError>(GameError::MasterNotFound) && post == pre,
    }
}

/// What `give_hint` does: only the master in the hint phase succeeds;
/// a standing budget or bonus stacks the old hint as the bonus guess.
pub open spec fn give_hint_post(
    pre: GameTeam,
    post: GameTeam,
    token: usize,
    hint: crate::request::Hint,
    r: Result<(), GameError>,
) -> bool {
    &&& (pre.master != Some(token) ==> r == Err::<(), GameError>(GameError::NotMaster) && post
        == pre)
    &&& (pre.master == Some(token) && pre.state is Guess ==> r == Err::<(), GameError>(
        GameError::WrongPhase,
    ) && post == pre)
    &&& (pre.master == Some(token) && pre.state is Hint ==> {
        &&& r is Ok
        &&& post.hint@ == hint.hint@
        &&& post.guesses == hint.guesses
        &&& post.state is Guess
        &&& opt_view(post.previous) == (if pre.guesses > 0 || pre.previous is Some {
            Some(pre.hint@)
        } else {
            None
        })
        &&& post.players == pre.players
        &&& post.master == pre.master
        &&& post.team == pre.team
    })
}

/// What `next_team` does after a reveal: a matching color spends a
/// guess, anything else hands the turn over.
pub open spec fn next_team_post(
    pre: GameTeam,
    post: GameTeam,
    token: usize,
    tile: crate::board::Tile,
    r: Result<Team, GameError>,
) -> bool {
    &&& (!pre.players.contains_token(token) ==> r == Err::<Team, GameError>(
        GameError::PlayerNotFound,
    ) && post == pre)
    &&& (pre.players.contains_token(token) && pre.state is Hint ==> r == Err::<Team, GameError>(
        GameError::WrongPhase,
    ) && post == pre)
    &&& (pre.players.contains_token(token) && pre.state is Guess ==> {
        &&& post.players == pre.players
        &&& post.master == pre.master
        &&& post.team == pre.team
        &&& post.hint == pre.hint
        &&& if tile == crate::board::team_tile(pre.team) {
            spec_decrease_guess(pre, post, r)
        } else {
            &&& post.state is Hint
            &&& post.guesses == pre.guesses
            &&& post.previous == pre.previous
            &&& r == Ok::<Team, GameError>(pre.team.spec_opposite())
        }
    })
}

/// What `pass` does: any member may force the team back to its hint
/// phase.
pub open spec fn pass_post(pre: GameTeam, post: GameTeam, token: usize, r: Result<
    (),
    GameError,
>) -> bool {
    &&& (!pre.players.contains_token(token) ==> r == Err::<(), GameError>(
        GameError::PlayerNotFound,
    ) && post == pre)
    &&& (pre.players.contains_token(token) ==> {
        &&& r is Ok
        &&& post.state is Hint
        &&& post.players == pre.players
        &&& post.master == pre.master
        &&& post.team == pre.team
        &&& post.hint == pre.hint
        &&& post.guesses == pre.guesses
        &&& post.previous == pre.previous
    })
}

/// A team in its guessing phase always has a master bound.
pub proof fn lemma_guess_phase_has_master(t: GameTeam)
    requires
        t.inv(),
        t.state is Guess,
    ensures
        t.master is Some,
{
}

} // verus!
