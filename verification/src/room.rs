//! A room: one game, its room-level roster, and the request
//! dispatcher that turns a client request into game moves and the
//! broadcast snapshots answering them.

use vstd::prelude::*;
use crate::board::BoardSet;
use crate::error::{BoardError, GameError, RoomError};
use crate::game::Game;
use crate::game;
use crate::ident::fresh_uuid;
use crate::request::{self, Request};
use crate::response;
use crate::roster::Roster;
use crate::bytes::copy_bytes;

verus! {

broadcast use crate::bytes::lemma_bytes_deep_view;

/// The messages a room mutation answers with: each pair is a
/// recipient token and the bytes to send it.
pub type Responses = Vec<(usize, Vec<u8>)>;

/// One room.
#[derive(Debug)]
pub struct Room {
    pub id: u128,
    pub game: Game,
    pub players: Roster,
    pub admin: usize,
}

/// The value of a response list, for contracts.
pub open spec fn responses_view(r: Responses) -> Seq<(usize, Seq<u8>)> {
    r.deep_view()
}

/// The value of a dispatch result, for contracts.
pub open spec fn handle_result_view(r: Result<Responses, RoomError>) -> Result<
    Seq<(usize, Seq<u8>)>,
    RoomError,
> {
    match r {
        Ok(resp) => Ok(resp.deep_view()),
        Err(e) => Err(e),
    }
}

/// The snapshot broadcast: every room member receives the room's
/// current message, in roster order.
pub open spec fn spec_broadcast(rm: Room) -> Seq<(usize, Seq<u8>)> {
    Seq::new(rm.players@.len(), |i: int| (rm.players@[i].0, response::spec_room_msg(rm)))
}

impl Room {
    pub open spec fn inv(self) -> bool {
        &&& self.game.inv()
        &&& self.players.wf()
    }

    pub open spec fn spec_admin(self) -> usize {
        self.admin
    }

    /// Opens a room: a fresh identifier, a fresh board in the asked
    /// language, and the admin alone in the roster under its chosen
    /// name.
    pub fn new(boards: &BoardSet, admin: usize, request: &request::Room) -> (r: Result<
        Room,
        RoomError,
    >)
        requires
            boards.wf(),
        ensures
            r is Ok <==> boards.spec_has_lang(request.language@),
            r matches Err(e) ==> e matches RoomError::Board(be) && be matches BoardError::Language(
                l,
            ) && l@ == request.language@,
            r matches Ok(rm) ==> {
                &&& rm.inv()
                &&& rm.spec_admin() == admin
                &&& rm.game.admin == admin
                &&& rm.game.state is Start
                &&& rm.game.red.players@.len() == 0
                &&& rm.game.blue.players@.len() == 0
                &&& rm.players@ == seq![(admin, request.name@)]
                &&& forall|i: int| 0 <= i < 25 ==> !(#[trigger] rm.game.board.cards@[i])
                &&& exists|k: int|
                    0 <= k < boards.tiles@.len() && rm.game.board.tiles@ == (
                    #[trigger] boards.tiles@[k])@
                &&& rm.game.board.words.deep_view().to_multiset().subset_of(
                    boards.spec_lang_words(request.language@).to_multiset(),
                )
            },
    {
        let board = match boards.new_board(request.language.as_slice()) {
            Ok(b) => b,
            Err(e) => {
                return Err(RoomError::Board(e));
            },
        };
        let mut players = Roster::new();
        players.insert(admin, copy_bytes(request.name.as_slice()));
        let id = fresh_uuid();
        Ok(Room { id, game: Game::new(board, admin), players, admin })
    }

    /// A room stays alive as long as someone other than the admin is
    /// the one leaving and members remain.
    pub fn is_alive(&self, token: usize) -> (r: bool)
        ensures
            r == (token != self.spec_admin() && self.players@.len() > 0),
    {
        token != self.admin && self.players.len() > 0
    }

    /// Removes a player from the roster and the game; everyone left
    /// hears the new snapshot.  A token that was never in the room
    /// changes nothing.
    pub fn remove_player(&mut self, token: usize) -> (r: Responses)
        requires
            old(self).inv(),
        ensures
            final(self).inv(),
            old(self).players.contains_token(token) ==> {
                &&& final(self).players@ == old(self).players@.remove(
                    old(self).players.index_of(token),
                )
                &&& game::remove_player_effect(old(self).game, final(self).game, token)
                &&& final(self).id == old(self).id
                &&& final(self).spec_admin() == old(self).spec_admin()
                &&& responses_view(r) == spec_broadcast(*final(self))
            },
            !old(self).players.contains_token(token) ==> *final(self) == *old(self)
                && responses_view(r) == Seq::<(usize, Seq<u8>)>::empty(),
    {
        match self.players.remove(token) {
            Some(_) => {
                self.game.remove_player(token);
                self.broadcast_snapshot()
            },
            None => {
                let r: Responses = Vec::new();
                assert(r.deep_view() =~= Seq::<(usize, Seq<u8>)>::empty());
                r
            },
        }
    }

    /// The snapshot, addressed to the admin alone; used right after
    /// the room is created.
    pub fn broadcast_room(&self) -> (r: Responses)
        requires
            self.inv(),
        ensures
            responses_view(r) == seq![
                (self.spec_admin(), response::spec_room_msg(*self)),
            ],
    {
        let msg = response::room(self);
        let mut r: Responses = Vec::new();
        r.push((self.admin, msg));
        assert(r.deep_view() =~= seq![(self.spec_admin(), response::spec_room_msg(*self))]);
        r
    }

    /// The snapshot, addressed to every room member in roster order.
    fn broadcast_snapshot(&self) -> (r: Responses)
        requires
            self.inv(),
        ensures
            responses_view(r) == spec_broadcast(*self),
    {
        let msg = response::room(self);
        let toks = self.players.tokens();
        let mut r: Responses = Vec::new();
        let n: usize = toks.len();
        let mut i: usize = 0;
        while i < n
            invariant
                n == toks@.len(),
                toks@ == self.players.spec_tokens(),
                msg@ == response::spec_room_msg(*self),
                self.players@.len() == n,
                i <= n,
                r@.len() == i,
                forall|k: int|
                    0 <= k < i ==> #[trigger] r.deep_view()[k] == (
                        self.players@[k].0,
                        response::spec_room_msg(*self),
                    ),
            decreases n - i,
        {
            let ghost prev = r@;
            let ghost prevd = r.deep_view();
            let m = copy_bytes(msg.as_slice());
            r.push((toks[i], m));
            proof {
                assert forall|k: int| 0 <= k < i + 1 implies #[trigger] r.deep_view()[k] == (
                    self.players@[k].0,
                    response::spec_room_msg(*self),
                ) by {
                    assert(r.deep_view()[k] == r@[k].deep_view());
                    if k < i {
                        assert(r@[k] == prev[k]);
                        assert(prevd[k] == prev[k].deep_view());
                    } else {
                        assert(r@[k].1 == m);
                    }
                }
            }
            i += 1;
        }
        assert(r.deep_view() =~= spec_broadcast(*self));
        r
    }

    /// Routes one request to the room.  A `room` request cannot be
    /// handled here.
    pub fn handle(&mut self, boards: &BoardSet, token: usize, request: &Request) -> (r: Result<
        Responses,
        RoomError,
    >)
        requires
            old(self).inv(),
            boards.wf(),
            request.wf(),
        ensures
            final(self).inv(),
            handle_post(
                *old(self),
                *final(self),
                *boards,
                token,
                *request,
                handle_result_view(r),
            ),
    {
        match request {
            Request::Join(j) => self.join(token, j),
            Request::Team(t) => self.team(token, t),
            Request::Start(s) => self.start(token, s),
            Request::Hint(h) => self.hint(token, h),
            Request::Guess(g) => self.guess(token, g),
            Request::Pass(_) => self.pass(token),
            Request::Reset(rs) => self.reset(boards, token, rs),
            Request::Room(_) => Err(RoomError::Unhandled),
        }
    }

    fn join(&mut self, token: usize, join: &request::Join) -> (r: Result<Responses, RoomError>)
        requires
            old(self).inv(),
        ensures
            final(self).inv(),
            join_post(*old(self), *final(self), token, *join, handle_result_view(r)),
    {
        self.players.insert(token, copy_bytes(join.name.as_slice()));
        Ok(self.broadcast_snapshot())
    }

    fn team(&mut self, token: usize, team: &request::Team) -> (r: Result<Responses, RoomError>)
        requires
            old(self).inv(),
        ensures
            final(self).inv(),
            team_post(*old(self), *final(self), token, *team, handle_result_view(r)),
    {
        let name = match self.players.get(token) {
            Some(n) => n,
            None => {
                return Err(RoomError::Game(GameError::PlayerNotFound));
            },
        };
        self.game.add_player(token, team.team, name);
        Ok(self.broadcast_snapshot())
    }

    fn start(&mut self, token: usize, start: &request::Start) -> (r: Result<Responses, RoomError>)
        requires
            old(self).inv(),
        ensures
            final(self).inv(),
            start_post(*old(self), *final(self), token, *start, handle_result_view(r)),
            r is Err ==> *final(self) == *old(self),
    {
        if let Err(e) = self.game.start(token, start) {
            return Err(RoomError::Game(e));
        }
        let mut responses = self.broadcast_snapshot();
        let tiles_msg = response::tiles(&self.game);
        let ghost base = responses.deep_view();
        let ghost basev = responses@;
        let red_master = match self.game.red.master {
            Some(m) => m,
            None => {
                assert(false);
                0
            },
        };
        let blue_master = match self.game.blue.master {
            Some(m) => m,
            None => {
                assert(false);
                0
            },
        };
        let m1 = copy_bytes(tiles_msg.as_slice());
        responses.push((red_master, m1));
        proof {
            lemma_deep_view_push(basev, responses@, base, responses.deep_view());
        }
        let ghost mid = responses.deep_view();
        let ghost midv = responses@;
        let m2 = copy_bytes(tiles_msg.as_slice());
        responses.push((blue_master, m2));
        proof {
            lemma_deep_view_push(midv, responses@, mid, responses.deep_view());
            assert(responses.deep_view() =~= spec_broadcast(*self) + seq![
                (
                    self.game.red.master->Some_0,
                    crate::json::spec_print(response::spec_tiles_json(self.game)),
                ),
                (
                    self.game.blue.master->Some_0,
                    crate::json::spec_print(response::spec_tiles_json(self.game)),
                ),
            ]);
        }
        Ok(responses)
    }

    fn hint(&mut self, token: usize, hint: &request::Hint) -> (r: Result<Responses, RoomError>)
        requires
            old(self).inv(),
        ensures
            final(self).inv(),
            hint_post(*old(self), *final(self), token, *hint, handle_result_view(r)),
    {
        if let Err(e) = self.game.hint(token, hint) {
            return Err(RoomError::Game(e));
        }
        Ok(self.broadcast_snapshot())
    }

    fn guess(&mut self, token: usize, guess: &request::Guess) -> (r: Result<Responses, RoomError>)
        requires
            old(self).inv(),
            guess.x < 5,
            guess.y < 5,
        ensures
            final(self).inv(),
            guess_post(*old(self), *final(self), token, *guess, handle_result_view(r)),
    {
        if let Err(e) = self.game.guess(token, guess) {
            return Err(RoomError::Game(e));
        }
        Ok(self.broadcast_snapshot())
    }

    fn pass(&mut self, token: usize) -> (r: Result<Responses, RoomError>)
        requires
            old(self).inv(),
        ensures
            final(self).inv(),
            pass_post(*old(self), *final(self), token, handle_result_view(r)),
    {
        if let Err(e) = self.game.pass(token) {
            return Err(RoomError::Game(e));
        }
        Ok(self.broadcast_snapshot())
    }

    fn reset(&mut self, boards: &BoardSet, token: usize, reset: &request::Reset) -> (r: Result<
        Responses,
        RoomError,
    >)
        requires
            old(self).inv(),
            boards.wf(),
        ensures
            final(self).inv(),
            reset_post(*old(self), *final(self), *boards, token, *reset, handle_result_view(r)),
    {
        if token != self.admin {
            return Err(RoomError::Game(GameError::NotAdmin));
        }
        let board = match boards.new_board(reset.language.as_slice()) {
            Ok(b) => b,
            Err(e) => {
                return Err(RoomError::Board(e));
            },
        };
        self.game = Game::new(board, self.admin);
        Ok(self.broadcast_snapshot())
    }
}

/// Pushing one pair onto a response list appends its value to the
/// list's value.
proof fn lemma_deep_view_push(
    prev: Seq<(usize, Vec<u8>)>,
    cur: Seq<(usize, Vec<u8>)>,
    prevd: Seq<(usize, Seq<u8>)>,
    curd: Seq<(usize, Seq<u8>)>,
)
    requires
        cur.len() == prev.len() + 1,
        forall|k: int| 0 <= k < prev.len() ==> cur[k] == prev[k],
        prevd == Seq::new(prev.len(), |i: int| prev[i].deep_view()),
        curd == Seq::new(cur.len(), |i: int| cur[i].deep_view()),
    ensures
        curd == prevd.push(cur.last().deep_view()),
{
    assert(curd =~= prevd.push(cur.last().deep_view()));
}

/// What `join` does: the roster gains (or renames) the member and the
/// room is re-announced to everyone.
pub open spec fn join_post(
    pre: Room,
    post: Room,
    token: usize,
    join: request::Join,
    r: Result<Seq<(usize, Seq<u8>)>, RoomError>,
) -> bool {
    &&& post.players@ == (if pre.players.contains_token(token) {
        pre.players@.update(pre.players.index_of(token), (token, join.name@))
    } else {
        pre.players@.push((token, join.name@))
    })
    &&& post.game == pre.game
    &&& post.id == pre.id
    &&& post.spec_admin() == pre.spec_admin()
    &&& r == Ok::<Seq<(usize, Seq<u8>)>, RoomError>(spec_broadcast(post))
}

/// What `team` does: a room member joins the named team under its
/// room name; anyone else is turned away.
pub open spec fn team_post(
    pre: Room,
    post: Room,
    token: usize,
    team: request::Team,
    r: Result<Seq<(usize, Seq<u8>)>, RoomError>,
) -> bool {
    if !pre.players.contains_token(token) {
        r == Err::<Seq<(usize, Seq<u8>)>, RoomError>(RoomError::Game(GameError::PlayerNotFound))
            && post == pre
    } else {
        &&& game::add_player_post(
            pre.game,
            post.game,
            token,
            team.team,
            pre.players.spec_get(token)->Some_0,
        )
        &&& post.players == pre.players
        &&& post.id == pre.id
        &&& post.spec_admin() == pre.spec_admin()
        &&& r == Ok::<Seq<(usize, Seq<u8>)>, RoomError>(spec_broadcast(post))
    }
}

/// What `start` does: the game's start rules run; on success everyone
/// hears the snapshot and each codemaster privately receives the tile
/// reveal, red's master first.
pub open spec fn start_post(
    pre: Room,
    post: Room,
    token: usize,
    start: request::Start,
    r: Result<Seq<(usize, Seq<u8>)>, RoomError>,
) -> bool {
    &&& post.players == pre.players
    &&& post.id == pre.id
    &&& post.spec_admin() == pre.spec_admin()
    &&& exists|gr: Result<(), GameError>|
        {
            &&& #[trigger] game::start_post(pre.game, post.game, token, start, gr)
            &&& match gr {
                Ok(()) => r == Ok::<Seq<(usize, Seq<u8>)>, RoomError>(
                    spec_broadcast(post) + seq![
                        (
                            post.game.red.master->Some_0,
                            crate::json::spec_print(response::spec_tiles_json(post.game)),
                        ),
                        (
                            post.game.blue.master->Some_0,
                            crate::json::spec_print(response::spec_tiles_json(post.game)),
                        ),
                    ],
                ) && post.game.red.master is Some && post.game.blue.master is Some,
                Err(ge) => r == Err::<Seq<(usize, Seq<u8>)>, RoomError>(RoomError::Game(ge)),
            }
        }
}

/// What `hint` does: the game's hint rules run; on success everyone
/// hears the snapshot.
pub open spec fn hint_post(
    pre: Room,
    post: Room,
    token: usize,
    hint: request::Hint,
    r: Result<Seq<(usize, Seq<u8>)>, RoomError>,
) -> bool {
    &&& post.players == pre.players
    &&& post.id == pre.id
    &&& post.spec_admin() == pre.spec_admin()
    &&& exists|gr: Result<(), GameError>|
        {
            &&& #[trigger] game::hint_post(pre.game, post.game, token, hint, gr)
            &&& match gr {
                Ok(()) => r == Ok::<Seq<(usize, Seq<u8>)>, RoomError>(spec_broadcast(post)),
                Err(ge) => r == Err::<Seq<(usize, Seq<u8>)>, RoomError>(RoomError::Game(ge)),
            }
        }
}

/// What `guess` does: the game's guess rules run; on success everyone
/// hears the snapshot.
pub open spec fn guess_post(
    pre: Room,
    post: Room,
    token: usize,
    guess: request::Guess,
    r: Result<Seq<(usize, Seq<u8>)>, RoomError>,
) -> bool {
    &&& post.players == pre.players
    &&& post.id == pre.id
    &&& post.spec_admin() == pre.spec_admin()
    &&& exists|gr: Result<(), GameError>|
        {
            &&& #[trigger] game::guess_post(pre.game, post.game, token, guess, gr)
            &&& match gr {
                Ok(()) => r == Ok::<Seq<(usize, Seq<u8>)>, RoomError>(spec_broadcast(post)),
                Err(ge) => r == Err::<Seq<(usize, Seq<u8>)>, RoomError>(RoomError::Game(ge)),
            }
        }
}

/// What `pass` does: the game's pass rules run; on success everyone
/// hears the snapshot.
pub open spec fn pass_post(
    pre: Room,
    post: Room,
    token: usize,
    r: Result<Seq<(usize, Seq<u8>)>, RoomError>,
) -> bool {
    &&& post.players == pre.players
    &&& post.id == pre.id
    &&& post.spec_admin() == pre.spec_admin()
    &&& exists|gr: Result<(), GameError>|
        {
            &&& #[trigger] game::pass_post(pre.game, post.game, token, gr)
            &&& match gr {
                Ok(()) => r == Ok::<Seq<(usize, Seq<u8>)>, RoomError>(spec_broadcast(post)),
                Err(ge) => r == Err::<Seq<(usize, Seq<u8>)>, RoomError>(RoomError::Game(ge)),
            }
        }
}

/// What `reset` does: only the admin may; a new game on a fresh board
/// in the asked language replaces the old one, and everyone hears the
/// new snapshot.
pub open spec fn reset_post(
    pre: Room,
    post: Room,
    boards: BoardSet,
    token: usize,
    reset: request::Reset,
    r: Result<Seq<(usize, Seq<u8>)>, RoomError>,
) -> bool {
    if token != pre.spec_admin() {
        r == Err::<Seq<(usize, Seq<u8>)>, RoomError>(RoomError::Game(GameError::NotAdmin)) && post
            == pre
    } else if !boards.spec_has_lang(reset.language@) {
        &&& r matches Err(e) && e matches RoomError::Board(be) && be matches
            BoardError::Language(l) && l@ == reset.language@
        &&& post == pre
    } else {
        &&& post.players == pre.players
        &&& post.id == pre.id
        &&& post.spec_admin() == pre.spec_admin()
        &&& post.game.admin == pre.spec_admin()
        &&& post.game.state is Start
        &&& post.game.red.players@.len() == 0
        &&& post.game.blue.players@.len() == 0
        &&& post.game.board.wf()
        &&& forall|i: int| 0 <= i < 25 ==> !(#[trigger] post.game.board.cards@[i])
        &&& exists|k: int|
            0 <= k < boards.tiles@.len() && post.game.board.tiles@ == (
            #[trigger] boards.tiles@[k])@
        &&& post.game.board.words.deep_view().to_multiset().subset_of(
            boards.spec_lang_words(reset.language@).to_multiset(),
        )
        &&& r == Ok::<Seq<(usize, Seq<u8>)>, RoomError>(spec_broadcast(post))
    }
}

/// What `handle` does, by request kind.
pub open spec fn handle_post(
    pre: Room,
    post: Room,
    boards: BoardSet,
    token: usize,
    request: Request,
    r: Result<Seq<(usize, Seq<u8>)>, RoomError>,
) -> bool {
    match request {
        Request::Join(j) => join_post(pre, post, token, j, r),
        Request::Team(t) => team_post(pre, post, token, t, r),
        Request::Start(s) => start_post(pre, post, token, s, r),
        Request::Hint(h) => hint_post(pre, post, token, h, r),
        Request::Guess(g) => guess_post(pre, post, token, g, r),
        Request::Pass(_) => pass_post(pre, post, token, r),
        Request::Reset(rs) => reset_post(pre, post, boards, token, rs, r),
        Request::Room(_) => r == Err::<Seq<(usize, Seq<u8>)>, RoomError>(RoomError::Unhandled)
            && post == pre,
    }
}

} // verus!
