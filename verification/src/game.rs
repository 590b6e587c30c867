//! The per-room game state machine: two teams, a board, and the
//! admin/turn/termination rules that tie them together.

use vstd::prelude::*;
use crate::board::{Board, Tile, team_tile, winner_of};
use crate::team::Team;
use crate::gameteam::GameTeam;
use crate::gameteam;
use crate::error::{GameError, TurnAction};
use crate::request;

verus! {

/// Where the game as a whole stands.
#[derive(Debug, Clone, Copy, PartialEq, Eq, Structural)]
pub enum State {
    Start,
    Play(Team),
    End(Team),
}

/// One game: the admin's token, the board, the global state and the
/// two team states.
#[derive(Debug)]
pub struct Game {
    pub admin: usize,
    pub board: Board,
    pub state: State,
    pub red: GameTeam,
    pub blue: GameTeam,
}

/// A team fit for play: a master bound to a present member, and at
/// least two members.
pub open spec fn play_ready(t: GameTeam) -> bool {
    &&& t.master matches Some(m) && t.players.contains_token(m)
    &&& t.players@.len() >= 2
}

impl Game {
    /// The game invariant: well-formed parts, correctly colored teams,
    /// and, whenever the game is in play, both teams fit for play.
    pub open spec fn inv(self) -> bool {
        &&& self.board.wf()
        &&& self.red.inv()
        &&& self.blue.inv()
        &&& self.red.team == Team::Red
        &&& self.blue.team == Team::Blue
        &&& self.state matches State::Play(_) ==> play_ready(self.red) && play_ready(self.blue)
    }

    pub open spec fn spec_team(self, t: Team) -> GameTeam {
        match t {
            Team::Red => self.red,
            Team::Blue => self.blue,
        }
    }

    pub fn new(board: Board, admin: usize) -> (r: Game)
        requires
            board.wf(),
        ensures
            r.admin == admin,
            r.board == board,
            r.state is Start,
            r.inv(),
            r.red.players@.len() == 0,
            r.blue.players@.len() == 0,
            r.red.master is None,
            r.blue.master is None,
            r.red.state is Hint,
            r.blue.state is Hint,
            r.red.guesses == 0,
            r.blue.guesses == 0,
            r.red.hint@ == Seq::<u8>::empty(),
            r.blue.hint@ == Seq::<u8>::empty(),
            r.red.previous is None,
            r.blue.previous is None,
    {
        Game {
            admin,
            board,
            state: State::Start,
            red: GameTeam::new(Team::Red),
            blue: GameTeam::new(Team::Blue),
        }
    }

    /// The state of the named team.
    pub fn team(&self, team: &Team) -> (r: &GameTeam)
        ensures
            *r == self.spec_team(*team),
    {
        match team {
            Team::Red => &self.red,
            Team::Blue => &self.blue,
        }
    }

    /// Puts a player on the named team.
    pub fn add_player(&mut self, token: usize, team: Team, player: Vec<u8>)
        requires
            old(self).inv(),
        ensures
            final(self).inv(),
            add_player_post(*old(self), *final(self), token, team, player@),
    {
        match team {
            Team::Red => self.red.add_player(token, player),
            Team::Blue => self.blue.add_player(token, player),
        }
        proof {
            match team {
                Team::Red => lemma_insert_keeps_ready(old(self).red, self.red, token, player@),
                Team::Blue => lemma_insert_keeps_ready(old(self).blue, self.blue, token, player@),
            }
        }
    }

    /// Drops a player from whichever teams hold the token.  A removal
    /// that breaks either team's readiness sends the game back to its
    /// setup state.
    pub fn remove_player(&mut self, token: usize) -> (r: Option<Vec<u8>>)
        requires
            old(self).inv(),
        ensures
            final(self).inv(),
            remove_player_post(*old(self), *final(self), token, r),
            r is Some && (old(self).red.master == Some(token) || old(self).blue.master == Some(
                token,
            ) || final(self).red.players@.len() < 2 || final(self).blue.players@.len() < 2)
                ==> final(self).state is Start,
    {
        let r1 = self.red.remove_player(token);
        let r2 = self.blue.remove_player(token);
        let result = if r1.is_some() {
            r1
        } else {
            r2
        };
        if result.is_some() {
            let red_ok = match self.red.master {
                Some(m) => self.red.players.contains(m) && self.red.nb_players() >= 2,
                None => false,
            };
            let blue_ok = match self.blue.master {
                Some(m) => self.blue.players.contains(m) && self.blue.nb_players() >= 2,
                None => false,
            };
            if !(red_ok && blue_ok) {
                self.state = State::Start;
            }
        }
        proof {
            if old(self).red.master == Some(token) {
                lemma_removed_not_contained(old(self).red, self.red, token);
            }
            if old(self).blue.master == Some(token) {
                lemma_removed_not_contained(old(self).blue, self.blue, token);
            }
        }
        result
    }

    /// How many players sit on the two teams together.
    pub fn nb_players(&self) -> (r: usize)
        requires
            self.red.players@.len() + self.blue.players@.len() <= usize::MAX,
        ensures
            r == self.red.players@.len() + self.blue.players@.len(),
    {
        self.red.nb_players() + self.blue.nb_players()
    }

    /// Every token on either team, red first.
    pub fn tokens(&self) -> (r: Vec<usize>)
        ensures
            r@ == self.red.players.spec_tokens() + self.blue.players.spec_tokens(),
    {
        let mut r = self.red.players.tokens();
        let mut b = self.blue.players.tokens();
        r.append(&mut b);
        r
    }

    /// Starts play: only the admin may, both teams need two players,
    /// the game must still be in setup, and both requested masters
    /// must be found.  Failure leaves the game exactly as it was: the
    /// masters are looked up first and bound only when both exist.
    pub fn start(&mut self, token: usize, start: &request::Start) -> (r: Result<(), GameError>)
        requires
            old(self).inv(),
        ensures
            final(self).inv(),
            start_post(*old(self), *final(self), token, *start, r),
            r is Err ==> *final(self) == *old(self),
    {
        if token != self.admin {
            return Err(GameError::NotAdmin);
        }
        if self.blue.nb_players() < 2 {
            return Err(GameError::MissingPlayers(Team::Blue));
        }
        if self.red.nb_players() < 2 {
            return Err(GameError::MissingPlayers(Team::Red));
        }
        match self.state {
            State::Start => {
                let red_found = self.red.players.find_token_by_name(
                    start.master(&Team::Red).as_slice(),
                );
                let blue_found = self.blue.players.find_token_by_name(
                    start.master(&Team::Blue).as_slice(),
                );
                if red_found.is_none() || blue_found.is_none() {
                    return Err(GameError::MasterNotFound);
                }
                let res_red = self.red.set_master(start);
                let res_blue = self.blue.set_master(start);
                proof {
                    assert(res_red is Ok && res_blue is Ok);
                }
                let t = self.board.start_team();
                self.state = State::Play(t);
                Ok(())
            },
            _ => Err(GameError::AlreadyStarted),
        }
    }

    /// Routes a hint to the team whose turn it is.
    pub fn hint(&mut self, token: usize, hint: &request::Hint) -> (r: Result<(), GameError>)
        requires
            old(self).inv(),
        ensures
            final(self).inv(),
            hint_post(*old(self), *final(self), token, *hint, r),
    {
        match self.state {
            State::Play(team) => {
                match team {
                    Team::Red => self.red.give_hint(token, hint),
                    Team::Blue => self.blue.give_hint(token, hint),
                }
            },
            _ => Err(GameError::Turn(TurnAction::Hint)),
        }
    }

    /// Reveals a cell for the guessing team: a death tile ends the
    /// game for the opponent, anything else passes through the team's
    /// budget accounting; a completed color ends the game either way.
    pub fn guess(&mut self, token: usize, guess: &request::Guess) -> (r: Result<(), GameError>)
        requires
            old(self).inv(),
            guess.x < 5,
            guess.y < 5,
        ensures
            final(self).inv(),
            guess_post(*old(self), *final(self), token, *guess, r),
    {
        match self.state {
            State::Play(team) => {
                let can = match team {
                    Team::Red => self.red.can_guess(token),
                    Team::Blue => self.blue.can_guess(token),
                };
                if !can {
                    return Err(GameError::Turn(TurnAction::Guess));
                }
                let tile = self.board.put_card(guess.x, guess.y);
                match tile {
                    Tile::Death => {
                        self.state = State::End(team.opposite());
                    },
                    _ => {
                        let next = match team {
                            Team::Red => self.red.next_team(token, tile),
                            Team::Blue => self.blue.next_team(token, tile),
                        };
                        match next {
                            Ok(next_team) => {
                                self.state = State::Play(next_team);
                            },
                            Err(e) => {
                                return Err(e);
                            },
                        }
                    },
                }
                if let Some(winner) = self.board.winner() {
                    self.state = State::End(winner);
                }
                Ok(())
            },
            _ => Err(GameError::Turn(TurnAction::Guess)),
        }
    }

    /// Lets a member of the playing team give up its guesses; the turn
    /// moves to the other team.
    pub fn pass(&mut self, token: usize) -> (r: Result<(), GameError>)
        requires
            old(self).inv(),
        ensures
            final(self).inv(),
            pass_post(*old(self), *final(self), token, r),
    {
        match self.state {
            State::Play(team) => {
                let res = match team {
                    Team::Red => self.red.pass(token),
                    Team::Blue => self.blue.pass(token),
                };
                match res {
                    Ok(()) => {
                        self.state = State::Play(team.opposite());
                        Ok(())
                    },
                    Err(e) => Err(e),
                }
            },
            _ => Err(GameError::NotStarted),
        }
    }
}

/// Adding a member never breaks a team's readiness.
proof fn lemma_insert_keeps_ready(pre: GameTeam, post: GameTeam, token: usize, player: Seq<u8>)
    requires
        pre.players.wf(),
        post.players@ == (if pre.players.contains_token(token) {
            pre.players@.update(pre.players.index_of(token), (token, player))
        } else {
            pre.players@.push((token, player))
        }),
        post.master == pre.master,
    ensures
        play_ready(pre) ==> play_ready(post),
{
    if play_ready(pre) {
        let m = pre.master->Some_0;
        let i = choose|i: int| 0 <= i < pre.players@.len() && (#[trigger] pre.players@[i]).0 == m;
        assert(post.players@[i].0 == m);
    }
}

/// After removing `token` from a well-formed roster, `token` is gone.
proof fn lemma_removed_not_contained(pre: GameTeam, post: GameTeam, token: usize)
    requires
        pre.players.wf(),
        pre.players.contains_token(token) ==> post.players@ == pre.players@.remove(
            pre.players.index_of(token),
        ),
        !pre.players.contains_token(token) ==> post.players@ == pre.players@,
    ensures
        !post.players.contains_token(token),
{
    if pre.players.contains_token(token) {
        let idx = pre.players.index_of(token);
        assert forall|i: int| 0 <= i < post.players@.len() implies (
        #[trigger] post.players@[i]).0 != token by {
            if i < idx {
                assert(post.players@[i] == pre.players@[i]);
            } else {
                assert(post.players@[i] == pre.players@[i + 1]);
            }
        }
    } else {
        assert forall|i: int| 0 <= i < post.players@.len() implies (
        #[trigger] post.players@[i]).0 != token by {}
    }
}

/// What `add_player` does: the named team gains (or renames) the
/// member, everything else stands.
pub open spec fn add_player_post(pre: Game, post: Game, token: usize, team: Team, player: Seq<
    u8,
>) -> bool {
    let tpre = pre.spec_team(team);
    let tpost = post.spec_team(team);
    &&& tpost.players@ == (if tpre.players.contains_token(token) {
        tpre.players@.update(tpre.players.index_of(token), (token, player))
    } else {
        tpre.players@.push((token, player))
    })
    &&& tpost.players.contains_token(token)
    &&& tpost.master == tpre.master
    &&& tpost.state == tpre.state
    &&& tpost.guesses == tpre.guesses
    &&& tpost.hint == tpre.hint
    &&& tpost.previous == tpre.previous
    &&& post.spec_team(team.spec_opposite()) == pre.spec_team(team.spec_opposite())
    &&& post.state == pre.state
    &&& post.board == pre.board
    &&& post.admin == pre.admin
}

/// What `remove_player` does: the token leaves both teams; the name
/// reported is the red one if both held it.  A removal that leaves
/// either team without its master among its players, or under two
/// players, resets the game to its setup state.
pub open spec fn remove_player_post(pre: Game, post: Game, token: usize, r: Option<Vec<u8>>) -> bool {
    &&& (match r {
        Some(n) => {
            &&& pre.red.players.contains_token(token) || pre.blue.players.contains_token(token)
            &&& Some(n@) == (if pre.red.players.contains_token(token) {
                pre.red.players.spec_get(token)
            } else {
                pre.blue.players.spec_get(token)
            })
        },
        None => !pre.red.players.contains_token(token) && !pre.blue.players.contains_token(
            token,
        ),
    })
    &&& remove_player_effect(pre, post, token)
}

/// How `remove_player` changes the game, apart from the name it
/// reports.
pub open spec fn remove_player_effect(pre: Game, post: Game, token: usize) -> bool {
    let removed = pre.red.players.contains_token(token) || pre.blue.players.contains_token(token);
    &&& post.red.players@ == (if pre.red.players.contains_token(token) {
        pre.red.players@.remove(pre.red.players.index_of(token))
    } else {
        pre.red.players@
    })
    &&& post.blue.players@ == (if pre.blue.players.contains_token(token) {
        pre.blue.players@.remove(pre.blue.players.index_of(token))
    } else {
        pre.blue.players@
    })
    &&& post.red.master == pre.red.master
    &&& post.blue.master == pre.blue.master
    &&& post.red.state == pre.red.state
    &&& post.blue.state == pre.blue.state
    &&& post.red.hint == pre.red.hint
    &&& post.blue.hint == pre.blue.hint
    &&& post.red.guesses == pre.red.guesses
    &&& post.blue.guesses == pre.blue.guesses
    &&& post.red.previous == pre.red.previous
    &&& post.blue.previous == pre.blue.previous
    &&& post.red.team == pre.red.team
    &&& post.blue.team == pre.blue.team
    &&& post.state == (if removed && !(play_ready(post.red) && play_ready(post.blue)) {
        State::Start
    } else {
        pre.state
    })
    &&& post.board == pre.board
    &&& post.admin == pre.admin
}

/// What `start` does, in the order the checks run: admin, blue
/// quorum, red quorum, setup state, then the two master lookups as
/// one atomic step.  Every failure leaves the game unchanged, so a
/// game in its setup state keeps both masters unbound.
pub open spec fn start_post(pre: Game, post: Game, token: usize, start: request::Start, r: Result<
    (),
    GameError,
>) -> bool {
    &&& (token != pre.admin ==> r == Err::<(), GameError>(GameError::NotAdmin) && post == pre)
    &&& (token == pre.admin && pre.blue.players@.len() < 2 ==> r == Err::<(), GameError>(
        GameError::MissingPlayers(Team::Blue),
    ) && post == pre)
    &&& (token == pre.admin && pre.blue.players@.len() >= 2 && pre.red.players@.len() < 2 ==> r
        == Err::<(), GameError>(GameError::MissingPlayers(Team::Red)) && post == pre)
    &&& (token == pre.admin && pre.blue.players@.len() >= 2 && pre.red.players@.len() >= 2
        && !(pre.state is Start) ==> r == Err::<(), GameError>(GameError::AlreadyStarted) && post
        == pre)
    &&& (token == pre.admin && pre.blue.players@.len() >= 2 && pre.red.players@.len() >= 2
        && pre.state is Start ==> {
        let red_found = crate::roster::first_with_name(
            pre.red.players@,
            start.spec_master(Team::Red),
        );
        let blue_found = crate::roster::first_with_name(
            pre.blue.players@,
            start.spec_master(Team::Blue),
        );
        &&& (red_found is None || blue_found is None ==> r == Err::<(), GameError>(
            GameError::MasterNotFound,
        ) && post == pre)
        &&& (red_found is Some && blue_found is Some ==> {
            &&& r is Ok
            &&& gameteam::set_master_post(pre.red, post.red, start, Ok(()))
            &&& gameteam::set_master_post(pre.blue, post.blue, start, Ok(()))
            &&& post.state == State::Play(pre.board.spec_start_team())
            &&& post.board == pre.board
            &&& post.admin == pre.admin
        })
    })
}

/// What `hint` does: in play, the playing team's hint rules decide;
/// otherwise it is not the hinter's turn.
pub open spec fn hint_post(pre: Game, post: Game, token: usize, hint: request::Hint, r: Result<
    (),
    GameError,
>) -> bool {
    match pre.state {
        State::Play(t) => {
            &&& gameteam::give_hint_post(pre.spec_team(t), post.spec_team(t), token, hint, r)
            &&& post.spec_team(t.spec_opposite()) == pre.spec_team(t.spec_opposite())
            &&& post.state == pre.state
            &&& post.board == pre.board
            &&& post.admin == pre.admin
        },
        _ => r == Err::<(), GameError>(GameError::Turn(TurnAction::Hint)) && post == pre,
    }
}

/// What `guess` does: only a player the playing team lets guess may;
/// the cell is revealed; a death tile hands the win to the opponent at
/// once; otherwise the team's budget decides who plays on; and a color
/// completed by the reveal wins immediately.
pub open spec fn guess_post(pre: Game, post: Game, token: usize, guess: request::Guess, r: Result<
    (),
    GameError,
>) -> bool {
    match pre.state {
        State::Play(t) => {
            let team_pre = pre.spec_team(t);
            let idx = guess.x * 5 + guess.y;
            let tile = pre.board.tiles@[idx as int];
            let cards1 = pre.board.cards@.update(idx as int, true);
            let w = winner_of(pre.board.tiles@, cards1);
            &&& (!team_pre.spec_can_guess(token) ==> r == Err::<(), GameError>(
                GameError::Turn(TurnAction::Guess),
            ) && post == pre)
            &&& (team_pre.spec_can_guess(token) ==> {
                &&& r is Ok
                &&& post.board.cards@ == cards1
                &&& post.board.tiles == pre.board.tiles
                &&& post.board.words == pre.board.words
                &&& post.admin == pre.admin
                &&& (tile is Death ==> {
                    &&& post.red == pre.red
                    &&& post.blue == pre.blue
                    &&& post.state == (if w is Some {
                        State::End(w->Some_0)
                    } else {
                        State::End(t.spec_opposite())
                    })
                })
                &&& (!(tile is Death) ==> {
                    &&& gameteam::next_team_post(
                        team_pre,
                        post.spec_team(t),
                        token,
                        tile,
                        Ok(gameteam::next_team_result(team_pre, tile)),
                    )
                    &&& post.spec_team(t.spec_opposite()) == pre.spec_team(t.spec_opposite())
                    &&& post.state == (if w is Some {
                        State::End(w->Some_0)
                    } else {
                        State::Play(gameteam::next_team_result(team_pre, tile))
                    })
                })
            })
        },
        _ => r == Err::<(), GameError>(GameError::Turn(TurnAction::Guess)) && post == pre,
    }
}

/// What `pass` does: in play, any member of the playing team flips the
/// turn; otherwise the game has not started.
pub open spec fn pass_post(pre: Game, post: Game, token: usize, r: Result<(), GameError>) -> bool {
    match pre.state {
        State::Play(t) => {
            &&& gameteam::pass_post(pre.spec_team(t), post.spec_team(t), token, r)
            &&& post.spec_team(t.spec_opposite()) == pre.spec_team(t.spec_opposite())
            &&& post.board == pre.board
            &&& post.admin == pre.admin
            &&& (r is Ok ==> post.state == State::Play(t.spec_opposite()))
            &&& (r is Err ==> post.state == pre.state)
        },
        _ => r == Err::<(), GameError>(GameError::NotStarted) && post == pre,
    }
}

/// A game in play always has both masters bound and both teams at
/// least two strong.
pub proof fn lemma_play_has_quorum(g: Game)
    requires
        g.inv(),
        g.state matches State::Play(_),
    ensures
        g.red.master is Some,
        g.blue.master is Some,
        g.red.players@.len() >= 2,
        g.blue.players@.len() >= 2,
{
}

/// Revealing the death tile ends the game at once for the opponent
/// of the team that revealed it (unless that same reveal had already
/// been made and a winner stood, which the game never reaches).
pub proof fn lemma_death_ends_game(
    pre: Game,
    post: Game,
    token: usize,
    g: request::Guess,
    r: Result<(), GameError>,
)
    requires
        guess_post(pre, post, token, g, r),
        pre.state matches State::Play(t),
        pre.spec_team(pre.state->Play_0).spec_can_guess(token),
        g.x < 5,
        g.y < 5,
        pre.board.tiles@[g.x * 5 + g.y] is Death,
        winner_of(pre.board.tiles@, pre.board.cards@.update(g.x * 5 + g.y, true)) is None,
    ensures
        r is Ok,
        post.state == State::End(pre.state->Play_0.spec_opposite()),
        post.red == pre.red,
        post.blue == pre.blue,
{
}

/// Once a game has ended, a further guess changes nothing.
pub proof fn lemma_end_absorbs_guess(
    pre: Game,
    post: Game,
    token: usize,
    g: request::Guess,
    r: Result<(), GameError>,
)
    requires
        guess_post(pre, post, token, g, r),
        pre.state matches State::End(_),
    ensures
        post == pre,
        r == Err::<(), GameError>(GameError::Turn(TurnAction::Guess)),
{
}

/// Once a game has ended, a further hint changes nothing.
pub proof fn lemma_end_absorbs_hint(
    pre: Game,
    post: Game,
    token: usize,
    h: request::Hint,
    r: Result<(), GameError>,
)
    requires
        hint_post(pre, post, token, h, r),
        pre.state matches State::End(_),
    ensures
        post == pre,
        r == Err::<(), GameError>(GameError::Turn(TurnAction::Hint)),
{
}

/// Once a game has ended, a pass changes nothing.
pub proof fn lemma_end_absorbs_pass(
    pre: Game,
    post: Game,
    token: usize,
    r: Result<(), GameError>,
)
    requires
        pass_post(pre, post, token, r),
        pre.state matches State::End(_),
    ensures
        post == pre,
        r == Err::<(), GameError>(GameError::NotStarted),
{
}

} // verus!
