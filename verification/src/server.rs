//! The server directory: which connection sits in which room, the
//! rooms themselves, and the event handler the socket loop drives.
//!
//! Each incoming event yields the responses to enqueue and the
//! tokens whose sockets must be torn down; performing the socket work
//! stays outside the library.

use vstd::prelude::*;
use crate::board::BoardSet;
use crate::error::RoomError;
use crate::game;
use crate::json::spec_print;
use crate::request::{self, Request};
use crate::response::{self, spec_error_json};
use crate::room::{self, Room, Responses, spec_broadcast};
use crate::stream::{Event, EventKind};
use vstd::pervasive::VecAdditionalExecFns;

verus! {

broadcast use crate::bytes::lemma_bytes_deep_view;

/// What one event asks the socket layer to do: messages to enqueue,
/// and sockets to deregister and drop.
#[derive(Debug)]
pub struct Effects {
    pub responses: Responses,
    pub removed: Vec<usize>,
}

/// The room directory.
#[derive(Debug)]
pub struct Server {
    pub boardset: BoardSet,
    pub players: Vec<(usize, u128)>,
    pub rooms: Vec<(u128, Room)>,
}

/// The error response sent back to one token.
pub open spec fn error_response(token: usize, msg: Seq<u8>) -> Seq<(usize, Seq<u8>)> {
    seq![(token, spec_print(spec_error_json(msg)))]
}

/// The value of an effects pair, for contracts.
pub open spec fn effects_view(e: Effects) -> (Seq<(usize, Seq<u8>)>, Seq<usize>) {
    (e.responses.deep_view(), e.removed@)
}

impl Server {
    /// Distinct tokens, distinct room identifiers, and every room
    /// sound.
    pub open spec fn inv(self) -> bool {
        &&& self.boardset.wf()
        &&& forall|i: int, j: int|
            0 <= i < j < self.players@.len() ==> (#[trigger] self.players@[i]).0 != (
            #[trigger] self.players@[j]).0
        &&& forall|i: int, j: int|
            0 <= i < j < self.rooms@.len() ==> (#[trigger] self.rooms@[i]).0 != (
            #[trigger] self.rooms@[j]).0
        &&& forall|i: int| 0 <= i < self.rooms@.len() ==> (#[trigger] self.rooms@[i]).1.inv()
    }

    pub open spec fn has_player(self, token: usize) -> bool {
        exists|i: int| 0 <= i < self.players@.len() && (#[trigger] self.players@[i]).0 == token
    }

    pub open spec fn player_index(self, token: usize) -> int {
        choose|i: int| 0 <= i < self.players@.len() && (#[trigger] self.players@[i]).0 == token
    }

    /// The room the token is bound to, if any.
    pub open spec fn player_room(self, token: usize) -> Option<u128> {
        if self.has_player(token) {
            Some(self.players@[self.player_index(token)].1)
        } else {
            None
        }
    }

    pub open spec fn has_room(self, id: u128) -> bool {
        exists|i: int| 0 <= i < self.rooms@.len() && (#[trigger] self.rooms@[i]).0 == id
    }

    pub open spec fn room_index(self, id: u128) -> int {
        choose|i: int| 0 <= i < self.rooms@.len() && (#[trigger] self.rooms@[i]).0 == id
    }

    pub fn new(boardset: BoardSet) -> (r: Server)
        requires
            boardset.wf(),
        ensures
            r.inv(),
            r.players@ == Seq::<(usize, u128)>::empty(),
            r.rooms@ == Seq::<(u128, Room)>::empty(),
            r.boardset == boardset,
    {
        Server { boardset, players: Vec::new(), rooms: Vec::new() }
    }

    /// The position of `token` in the player directory.
    fn find_player(&self, token: usize) -> (r: Option<usize>)
        requires
            self.inv(),
        ensures
            match r {
                Some(i) => self.has_player(token) && self.player_index(token) == i && i
                    < self.players@.len(),
                None => !self.has_player(token),
            },
    {
        let n: usize = self.players.len();
        let mut i: usize = 0;
        while i < n
            invariant
                self.inv(),
                n == self.players@.len(),
                i <= n,
                forall|k: int| 0 <= k < i ==> (#[trigger] self.players@[k]).0 != token,
            decreases n - i,
        {
            if self.players[i].0 == token {
                proof {
                    let j = self.player_index(token);
                    assert(self.has_player(token));
                    if i < j {
                        assert(self.players@[i as int].0 != self.players@[j].0);
                    } else if j < i {
                        assert(self.players@[j].0 != self.players@[i as int].0);
                    }
                }
                return Some(i);
            }
            i += 1;
        }
        None
    }

    /// The position of room `id` in the directory.
    fn find_room(&self, id: u128) -> (r: Option<usize>)
        requires
            self.inv(),
        ensures
            match r {
                Some(i) => self.has_room(id) && self.room_index(id) == i && i < self.rooms@.len(),
                None => !self.has_room(id),
            },
    {
        let n: usize = self.rooms.len();
        let mut i: usize = 0;
        while i < n
            invariant
                self.inv(),
                n == self.rooms@.len(),
                i <= n,
                forall|k: int| 0 <= k < i ==> (#[trigger] self.rooms@[k]).0 != id,
            decreases n - i,
        {
            if self.rooms[i].0 == id {
                proof {
                    let j = self.room_index(id);
                    assert(self.has_room(id));
                    if i < j {
                        assert(self.rooms@[i as int].0 != self.rooms@[j].0);
                    } else if j < i {
                        assert(self.rooms@[j].0 != self.rooms@[i as int].0);
                    }
                }
                return Some(i);
            }
            i += 1;
        }
        None
    }

    /// Handles one event from the socket layer.
    pub fn handle_event(&mut self, event: Event) -> (r: Effects)
        requires
            old(self).inv(),
            event.kind matches EventKind::Request(req) ==> req.wf(),
        ensures
            final(self).inv(),
            match event.kind {
                EventKind::Request(req) => handle_request_post(
                    *old(self),
                    *final(self),
                    event.token,
                    req,
                    effects_view(r),
                ),
                EventKind::Error(e) => *final(self) == *old(self) && effects_view(r) == (
                    error_response(event.token, e.spec_message()),
                    Seq::<usize>::empty(),
                ),
                EventKind::Close => remove_player_post(
                    *old(self),
                    *final(self),
                    event.token,
                    effects_view(r),
                ),
            },
    {
        match event.kind {
            EventKind::Request(req) => self.handle_request(event.token, &req),
            EventKind::Error(e) => {
                let msg = e.message();
                let payload = response::error(msg.as_slice());
                let mut responses: Responses = Vec::new();
                responses.push((event.token, payload));
                let eff = Effects { responses, removed: Vec::new() };
                proof {
                    assert(eff.responses.deep_view() =~~= error_response(
                        event.token,
                        e.spec_message(),
                    ));
                    assert(eff.removed@ =~= Seq::<usize>::empty());
                }
                eff
            },
            EventKind::Close => self.remove_player(event.token),
        }
    }

    /// Routes a request: members go to their room; strangers may only
    /// open a room or join an existing one.
    fn handle_request(&mut self, token: usize, req: &Request) -> (r: Effects)
        requires
            old(self).inv(),
            req.wf(),
        ensures
            final(self).inv(),
            handle_request_post(*old(self), *final(self), token, *req, effects_view(r)),
    {
        match self.find_player(token) {
            Some(pi) => {
                let id = self.players[pi].1;
                self.handle_room(token, id, req)
            },
            None => {
                match req {
                    Request::Room(rr) => self.new_room(token, rr),
                    Request::Join(j) => {
                        match self.find_room(j.id) {
                            Some(_) => {
                                self.players.push((token, j.id));
                                proof {
                                    lemma_push_keeps_distinct_players(
                                        old(self).players@,
                                        self.players@,
                                        token,
                                    );
                                    assert(self.players@ == old(self).players@.push(
                                        (token, j.id),
                                    ));
                                    assert(self.players@[self.players@.len() - 1] == (
                                        token,
                                        j.id,
                                    ));
                                    assert(self.has_player(token));
                                    let i = self.player_index(token);
                                    if i < self.players@.len() - 1 {
                                        assert(self.players@[i].0 != self.players@[self.players@.len()
                                            - 1].0);
                                    }
                                    assert(self.player_room(token) == Some(j.id));
                                }
                                self.handle_room(token, j.id, req)
                            },
                            None => self.forbidden(token),
                        }
                    },
                    _ => self.forbidden(token),
                }
            },
        }
    }

    /// The refusal sent to a connection that has no room.
    fn forbidden(&mut self, token: usize) -> (r: Effects)
        requires
            old(self).inv(),
        ensures
            final(self).inv(),
            *final(self) == *old(self),
            effects_view(r) == (
                error_response(token, RoomError::Forbidden.spec_message()),
                Seq::<usize>::empty(),
            ),
    {
        let e = RoomError::Forbidden;
        let msg = e.message();
        let payload = response::error(msg.as_slice());
        let mut responses: Responses = Vec::new();
        responses.push((token, payload));
        let eff = Effects { responses, removed: Vec::new() };
        proof {
            assert(eff.responses.deep_view() =~~= error_response(
                token,
                RoomError::Forbidden.spec_message(),
            ));
            assert(eff.removed@ =~= Seq::<usize>::empty());
        }
        eff
    }

    /// Dispatches into the room `id`; errors go back to the sender
    /// alone.
    fn handle_room(&mut self, token: usize, id: u128, req: &Request) -> (r: Effects)
        requires
            old(self).inv(),
            req.wf(),
        ensures
            final(self).inv(),
            final(self).players == old(self).players,
            final(self).boardset == old(self).boardset,
            handle_room_post(*old(self), *final(self), token, id, *req, effects_view(r)),
    {
        let ri = match self.find_room(id) {
            Some(ri) => ri,
            None => {
                let e = RoomError::NotFound(id);
                let msg = e.message();
                let payload = response::error(msg.as_slice());
                let mut responses: Responses = Vec::new();
                responses.push((token, payload));
                let eff = Effects { responses, removed: Vec::new() };
                proof {
                    assert(eff.responses.deep_view() =~~= error_response(
                        token,
                        RoomError::NotFound(id).spec_message(),
                    ));
                    assert(eff.removed@ =~= Seq::<usize>::empty());
                }
                return eff;
            },
        };
        let (rid, mut room) = self.rooms.remove(ri);
        let ghost room_pre = room;
        let res = room.handle(&self.boardset, token, req);
        let ghost grr = crate::room::handle_result_view(res);
        let ghost room_post = room;
        self.rooms.insert(ri, (rid, room));
        proof {
            assert(self.rooms@ =~= old(self).rooms@.update(ri as int, self.rooms@[ri as int]));
            assert forall|i: int, j: int|
                0 <= i < j < self.rooms@.len() implies (#[trigger] self.rooms@[i]).0 != (
            #[trigger] self.rooms@[j]).0 by {
                assert(old(self).rooms@[i].0 != old(self).rooms@[j].0);
            }
            assert(room_pre == old(self).rooms@[ri as int].1);
            assert(self.rooms@[ri as int] == (rid, room_post));
            assert(room::handle_post(
                old(self).rooms@[ri as int].1,
                self.rooms@[ri as int].1,
                old(self).boardset,
                token,
                *req,
                grr,
            ));
        }
        match res {
            Ok(responses) => {
                let eff = Effects { responses, removed: Vec::new() };
                proof {
                    assert(eff.removed@ =~= Seq::<usize>::empty());
                    assert(grr matches Ok(resp) && effects_view(eff).0 == resp);
                }
                eff
            },
            Err(e) => {
                let msg = e.message();
                let payload = response::error(msg.as_slice());
                let mut responses: Responses = Vec::new();
                responses.push((token, payload));
                let eff = Effects { responses, removed: Vec::new() };
                proof {
                    assert(eff.responses.deep_view() =~~= error_response(token, e.spec_message()));
                    assert(grr == Err::<Seq<(usize, Seq<u8>)>, RoomError>(e));
                    assert(eff.removed@ =~= Seq::<usize>::empty());
                }
                eff
            },
        }
    }

    /// Opens a room for a connection that has none: the new room is
    /// announced to its admin alone.
    fn new_room(&mut self, token: usize, rr: &request::Room) -> (r: Effects)
        requires
            old(self).inv(),
            !old(self).has_player(token),
        ensures
            final(self).inv(),
            new_room_post(*old(self), *final(self), token, *rr, effects_view(r)),
    {
        let room = match Room::new(&self.boardset, token, rr) {
            Ok(room) => room,
            Err(e) => {
                let msg = e.message();
                let payload = response::error(msg.as_slice());
                let mut responses: Responses = Vec::new();
                responses.push((token, payload));
                let eff = Effects { responses, removed: Vec::new() };
                proof {
                    assert(eff.responses.deep_view() =~~= error_response(token, e.spec_message()));
                    assert(eff.removed@ =~= Seq::<usize>::empty());
                }
                return eff;
            },
        };
        let ghost grm = room;
        self.players.push((token, room.id));
        proof {
            lemma_push_keeps_distinct_players(old(self).players@, self.players@, token);
        }
        let responses = room.broadcast_room();
        self.rooms_upsert(room);
        let eff = Effects { responses, removed: Vec::new() };
        proof {
            assert(grm.inv());
            assert(eff.removed@ =~= Seq::<usize>::empty());
            assert(eff.responses.deep_view() =~~= seq![
                (token, response::spec_room_msg(grm)),
            ]);
        }
        eff
    }

    /// Stores a room under its identifier, replacing any room that
    /// happened to carry the same one.
    fn rooms_upsert(&mut self, room: Room)
        requires
            old(self).inv(),
            room.inv(),
        ensures
            final(self).inv(),
            final(self).players == old(self).players,
            final(self).boardset == old(self).boardset,
            final(self).rooms@ == (if old(self).has_room(room.id) {
                old(self).rooms@.update(old(self).room_index(room.id), (room.id, room))
            } else {
                old(self).rooms@.push((room.id, room))
            }),
    {
        match self.find_room(room.id) {
            Some(i) => {
                self.rooms.set(i, (room.id, room));
                proof {
                    assert forall|a: int, b: int|
                        0 <= a < b < self.rooms@.len() implies (#[trigger] self.rooms@[a]).0 != (
                    #[trigger] self.rooms@[b]).0 by {
                        assert(old(self).rooms@[a].0 != old(self).rooms@[b].0);
                    }
                }
            },
            None => {
                self.rooms.push((room.id, room));
                proof {
                    assert forall|a: int, b: int|
                        0 <= a < b < self.rooms@.len() implies (#[trigger] self.rooms@[a]).0 != (
                    #[trigger] self.rooms@[b]).0 by {
                        if b < old(self).rooms@.len() {
                            assert(old(self).rooms@[a].0 != old(self).rooms@[b].0);
                        } else {
                            assert(old(self).rooms@[a].0 != room.id);
                        }
                    }
                }
            },
        }
    }

    /// Unbinds a departed connection.  Its room, if it has one, drops
    /// the player; and if that departure kills the room, the whole
    /// room is torn down, every member socket with it.
    fn remove_player(&mut self, token: usize) -> (r: Effects)
        requires
            old(self).inv(),
        ensures
            final(self).inv(),
            remove_player_post(*old(self), *final(self), token, effects_view(r)),
    {
        let pi = match self.find_player(token) {
            Some(pi) => pi,
            None => {
                let eff = Effects { responses: Vec::new(), removed: Vec::new() };
                proof {
                    assert(eff.responses.deep_view() =~= Seq::<(usize, Seq<u8>)>::empty());
                    assert(eff.removed@ =~= Seq::<usize>::empty());
                }
                return eff;
            },
        };
        let id = self.players[pi].1;
        self.players.remove(pi);
        proof {
            lemma_remove_keeps_distinct_players(old(self).players@, self.players@, pi as int);
        }
        let ghost mid_players = self.players@;
        let ri = match self.find_room(id) {
            Some(ri) => ri,
            None => {
                let eff = Effects { responses: Vec::new(), removed: Vec::new() };
                proof {
                    assert(eff.responses.deep_view() =~= Seq::<(usize, Seq<u8>)>::empty());
                    assert(eff.removed@ =~= Seq::<usize>::empty());
                }
                return eff;
            },
        };
        let (rid, mut room) = self.rooms.remove(ri);
        let responses = room.remove_player(token);
        let ghost groom = room;
        let alive = room.is_alive(token);
        if alive {
            self.rooms.insert(ri, (rid, room));
            proof {
                assert(self.rooms@ =~= old(self).rooms@.update(ri as int, self.rooms@[ri as int]));
                assert forall|i: int, j: int|
                    0 <= i < j < self.rooms@.len() implies (#[trigger] self.rooms@[i]).0 != (
                #[trigger] self.rooms@[j]).0 by {
                    assert(old(self).rooms@[i].0 != old(self).rooms@[j].0);
                }
            }
            let eff = Effects { responses, removed: Vec::new() };
            proof {
                assert(eff.removed@ =~= Seq::<usize>::empty());
            }
            eff
        } else {
            // The admin left (or the room is empty): tear it down and
            // every member socket with it.
            let toks = room.game.tokens();
            let mut kept: Vec<(usize, u128)> = Vec::new();
            let n: usize = self.players.len();
            let mut i: usize = 0;
            while i < n
                invariant
                    n == self.players@.len(),
                    i <= n,
                    self.players@ == mid_players,
                    kept@ =~~= mid_players.subrange(0, i as int).filter(
                        |p: (usize, u128)| !toks@.contains(p.0),
                    ),
                decreases n - i,
            {
                let ghost pre = mid_players.subrange(0, i as int);
                let ghost post = mid_players.subrange(0, i + 1 as int);
                proof {
                    assert(post.drop_last() =~= pre);
                    assert(post.last() == mid_players[i as int]);
                    lemma_filter_step_players(post, toks@);
                }
                let p = self.players[i];
                if !vec_contains(&toks, p.0) {
                    kept.push(p);
                }
                i += 1;
            }
            proof {
                assert(mid_players.subrange(0, n as int) =~= mid_players);
            }
            self.players = kept;
            proof {
                lemma_filter_players_distinct(
                    mid_players,
                    |p: (usize, u128)| !toks@.contains(p.0),
                );
                assert forall|i: int, j: int|
                    0 <= i < j < self.rooms@.len() implies (#[trigger] self.rooms@[i]).0 != (
                #[trigger] self.rooms@[j]).0 by {
                    let i0 = if i < ri { i } else { i + 1 };
                    let j0 = if j < ri { j } else { j + 1 };
                    assert(self.rooms@[i] == old(self).rooms@[i0]);
                    assert(self.rooms@[j] == old(self).rooms@[j0]);
                    assert(old(self).rooms@[i0].0 != old(self).rooms@[j0].0);
                }
            }
            let eff = Effects { responses, removed: toks };
            eff
        }
    }
}

/// Membership in a token list.
fn vec_contains(v: &Vec<usize>, t: usize) -> (r: bool)
    ensures
        r == v@.contains(t),
{
    let n: usize = v.len();
    let mut i: usize = 0;
    while i < n
        invariant
            n == v@.len(),
            i <= n,
            forall|k: int| 0 <= k < i ==> v@[k] != t,
        decreases n - i,
    {
        if v[i] == t {
            return true;
        }
        i += 1;
    }
    false
}

/// Appending a fresh token keeps the directory's tokens distinct.
proof fn lemma_push_keeps_distinct_players(
    pre: Seq<(usize, u128)>,
    post: Seq<(usize, u128)>,
    token: usize,
)
    requires
        forall|i: int, j: int|
            0 <= i < j < pre.len() ==> (#[trigger] pre[i]).0 != (#[trigger] pre[j]).0,
        forall|i: int| 0 <= i < pre.len() ==> (#[trigger] pre[i]).0 != token,
        post.len() == pre.len() + 1,
        forall|i: int| 0 <= i < pre.len() ==> #[trigger] post[i] == pre[i],
        post.last().0 == token,
    ensures
        forall|i: int, j: int|
            0 <= i < j < post.len() ==> (#[trigger] post[i]).0 != (#[trigger] post[j]).0,
{
    assert forall|i: int, j: int|
        0 <= i < j < post.len() implies (#[trigger] post[i]).0 != (#[trigger] post[j]).0 by {
        if j < pre.len() {
            assert(pre[i].0 != pre[j].0);
        } else {
            assert(post[j].0 == token);
            assert(pre[i].0 != token);
        }
    }
}

/// Removing an entry keeps the directory's tokens distinct.
proof fn lemma_remove_keeps_distinct_players(
    pre: Seq<(usize, u128)>,
    post: Seq<(usize, u128)>,
    at: int,
)
    requires
        forall|i: int, j: int|
            0 <= i < j < pre.len() ==> (#[trigger] pre[i]).0 != (#[trigger] pre[j]).0,
        0 <= at < pre.len(),
        post == pre.remove(at),
    ensures
        forall|i: int, j: int|
            0 <= i < j < post.len() ==> (#[trigger] post[i]).0 != (#[trigger] post[j]).0,
{
    assert forall|i: int, j: int|
        0 <= i < j < post.len() implies (#[trigger] post[i]).0 != (#[trigger] post[j]).0 by {
        let i0 = if i < at {
            i
        } else {
            i + 1
        };
        let j0 = if j < at {
            j
        } else {
            j + 1
        };
        assert(post[i] == pre[i0]);
        assert(post[j] == pre[j0]);
        assert(pre[i0].0 != pre[j0].0);
    }
}

/// One filtering step over the player directory.
proof fn lemma_filter_step_players(s: Seq<(usize, u128)>, toks: Seq<usize>)
    requires
        s.len() > 0,
    ensures
        s.filter(|p: (usize, u128)| !toks.contains(p.0)) == if !toks.contains(s.last().0) {
            s.drop_last().filter(|p: (usize, u128)| !toks.contains(p.0)).push(s.last())
        } else {
            s.drop_last().filter(|p: (usize, u128)| !toks.contains(p.0))
        },
{
    reveal(Seq::filter);
}

/// Filtering the directory keeps its tokens distinct.
proof fn lemma_filter_players_distinct(s: Seq<(usize, u128)>, pred: spec_fn((usize, u128)) -> bool)
    requires
        forall|i: int, j: int|
            0 <= i < j < s.len() ==> (#[trigger] s[i]).0 != (#[trigger] s[j]).0,
    ensures
        forall|i: int, j: int|
            0 <= i < j < s.filter(pred).len() ==> (#[trigger] s.filter(pred)[i]).0 != (
            #[trigger] s.filter(pred)[j]).0,
        forall|x: (usize, u128)| #[trigger] s.filter(pred).contains(x) ==> s.contains(x),
    decreases s.len(),
{
    reveal(Seq::filter);
    if s.len() > 0 {
        let dl = s.drop_last();
        assert forall|i: int, j: int|
            0 <= i < j < dl.len() implies (#[trigger] dl[i]).0 != (#[trigger] dl[j]).0 by {
            assert(s[i].0 != s[j].0);
        }
        lemma_filter_players_distinct(dl, pred);
        let fdl = dl.filter(pred);
        if pred(s.last()) {
            assert(s.filter(pred) == fdl.push(s.last()));
            assert forall|i: int, j: int|
                0 <= i < j < s.filter(pred).len() implies (#[trigger] s.filter(pred)[i]).0 != (
            #[trigger] s.filter(pred)[j]).0 by {
                if j < fdl.len() {
                    assert(fdl[i].0 != fdl[j].0);
                } else {
                    assert(s.filter(pred)[j] == s.last());
                    assert(fdl.contains(fdl[i]));
                    assert(dl.contains(fdl[i]));
                    let k = choose|k: int| 0 <= k < dl.len() && dl[k] == fdl[i];
                    assert(s[k].0 != s[s.len() - 1].0);
                }
            }
            assert forall|x: (usize, u128)| #[trigger] s.filter(pred).contains(x) implies s.contains(
                x,
            ) by {
                let k = choose|k: int| 0 <= k < s.filter(pred).len() && s.filter(pred)[k] == x;
                if k < fdl.len() {
                    assert(fdl.contains(x));
                    assert(dl.contains(x));
                    let m = choose|m: int| 0 <= m < dl.len() && dl[m] == x;
                    assert(s[m] == x);
                } else {
                    assert(x == s.last());
                    assert(s[s.len() - 1] == x);
                }
            }
        } else {
            assert(s.filter(pred) == fdl);
            assert forall|x: (usize, u128)| #[trigger] s.filter(pred).contains(x) implies s.contains(
                x,
            ) by {
                assert(dl.contains(x));
                let m = choose|m: int| 0 <= m < dl.len() && dl[m] == x;
                assert(s[m] == x);
            }
        }
    }
}

/// What handling a request does, by where the sender stands.
pub open spec fn handle_request_post(
    pre: Server,
    post: Server,
    token: usize,
    req: Request,
    eff: (Seq<(usize, Seq<u8>)>, Seq<usize>),
) -> bool {
    match pre.player_room(token) {
        Some(id) => handle_room_post(pre, post, token, id, req, eff) && post.players
            == pre.players && post.boardset == pre.boardset,
        None => match req {
            Request::Room(rr) => new_room_post(pre, post, token, rr, eff),
            Request::Join(j) => if pre.has_room(j.id) {
                handle_room_post(pre, post, token, j.id, req, eff) && post.players@
                    == pre.players@.push((token, j.id)) && post.boardset == pre.boardset
            } else {
                eff == (
                    error_response(token, RoomError::Forbidden.spec_message()),
                    Seq::<usize>::empty(),
                ) && post == pre
            },
            _ => eff == (
                error_response(token, RoomError::Forbidden.spec_message()),
                Seq::<usize>::empty(),
            ) && post == pre,
        },
    }
}

/// What dispatching into room `id` does: the room is put through its
/// own dispatch contract; its answers pass through, and a room error
/// goes back to the sender alone.
pub open spec fn handle_room_post(
    pre: Server,
    post: Server,
    token: usize,
    id: u128,
    req: Request,
    eff: (Seq<(usize, Seq<u8>)>, Seq<usize>),
) -> bool {
    &&& eff.1 == Seq::<usize>::empty()
    &&& if !pre.has_room(id) {
        post.rooms == pre.rooms && eff.0 == error_response(
            token,
            RoomError::NotFound(id).spec_message(),
        )
    } else {
        let ri = pre.room_index(id);
        &&& post.rooms@.len() == pre.rooms@.len()
        &&& forall|k: int| 0 <= k < pre.rooms@.len() && k != ri ==> #[trigger] post.rooms@[k]
            == pre.rooms@[k]
        &&& post.rooms@[ri].0 == id
        &&& exists|rr: Result<Seq<(usize, Seq<u8>)>, RoomError>|
            {
                &&& #[trigger] room::handle_post(
                    pre.rooms@[ri].1,
                    post.rooms@[ri].1,
                    pre.boardset,
                    token,
                    req,
                    rr,
                )
                &&& match rr {
                    Ok(resp) => eff.0 == resp,
                    Err(e) => eff.0 == error_response(token, e.spec_message()),
                }
            }
    }
}

/// What opening a room does: on success a fresh room whose admin is
/// the sender, bound in the directory and announced to it alone; if
/// the language is unknown, an error goes back instead.
pub open spec fn new_room_post(
    pre: Server,
    post: Server,
    token: usize,
    rr: request::Room,
    eff: (Seq<(usize, Seq<u8>)>, Seq<usize>),
) -> bool {
    &&& post.boardset == pre.boardset
    &&& eff.1 == Seq::<usize>::empty()
    &&& if !pre.boardset.spec_has_lang(rr.language@) {
        &&& post == pre
        &&& eff.0 == error_response(
            token,
            RoomError::Board(
                crate::error::BoardError::Language(rr.language),
            ).spec_message(),
        )
    } else {
        exists|rm: Room|
            {
                &&& #[trigger] rm.inv()
                &&& rm.admin == token
                &&& rm.game.admin == token
                &&& rm.game.state matches game::State::Start
                &&& rm.players@ == seq![(token, rr.name@)]
                &&& post.players@ == pre.players@.push((token, rm.id))
                &&& post.rooms@ == (if pre.has_room(rm.id) {
                    pre.rooms@.update(pre.room_index(rm.id), (rm.id, rm))
                } else {
                    pre.rooms@.push((rm.id, rm))
                })
                &&& eff.0 == seq![(token, response::spec_room_msg(rm))]
            }
    }
}

/// What a departure does: the token is unbound; its room (if any
/// still exists) drops the player and re-announces itself; and when
/// the departure kills the room, the room goes away, every team
/// member is unbound, and their sockets are handed back for teardown.
pub open spec fn remove_player_post(
    pre: Server,
    post: Server,
    token: usize,
    eff: (Seq<(usize, Seq<u8>)>, Seq<usize>),
) -> bool {
    match pre.player_room(token) {
        None => post == pre && eff == (
            Seq::<(usize, Seq<u8>)>::empty(),
            Seq::<usize>::empty(),
        ),
        Some(id) => {
            let unbound = pre.players@.remove(pre.player_index(token));
            if !pre.has_room(id) {
                &&& post.players@ == unbound
                &&& post.rooms == pre.rooms
                &&& post.boardset == pre.boardset
                &&& eff == (Seq::<(usize, Seq<u8>)>::empty(), Seq::<usize>::empty())
            } else {
                let ri = pre.room_index(id);
                let room_pre = pre.rooms@[ri].1;
                exists|room_post: Room|
                    {
                        &&& #[trigger] room_post.inv()
                        &&& (room_pre.players.contains_token(token) ==> {
                            &&& room_post.players@ == room_pre.players@.remove(
                                room_pre.players.index_of(token),
                            )
                            &&& game::remove_player_effect(room_pre.game, room_post.game, token)
                            &&& eff.0 == spec_broadcast(room_post)
                        })
                        &&& (!room_pre.players.contains_token(token) ==> room_post == room_pre
                            && eff.0 == Seq::<(usize, Seq<u8>)>::empty())
                        &&& if token != room_pre.admin && room_post.players@.len() > 0 {
                            // The room lives on.
                            &&& post.players@ == unbound
                            &&& post.rooms@ == pre.rooms@.update(ri, (id, room_post))
                            &&& post.boardset == pre.boardset
                            &&& eff.1 == Seq::<usize>::empty()
                        } else {
                            // Fate sharing: the room dies and takes
                            // every team member's socket with it.
                            &&& eff.1 == room_post.game.red.players.spec_tokens()
                                + room_post.game.blue.players.spec_tokens()
                            &&& post.players@ == unbound.filter(
                                |p: (usize, u128)| !eff.1.contains(p.0),
                            )
                            &&& post.rooms@ == pre.rooms@.remove(ri)
                            &&& post.boardset == pre.boardset
                        }
                    }
            }
        },
    }
}

} // verus!
