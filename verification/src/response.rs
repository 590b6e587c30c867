//! The server's outgoing messages: the room snapshot, the private
//! tile reveal for the codemasters, and error texts, each as the JSON
//! bytes put on the wire.

use vstd::prelude::*;
use crate::json::{Json, JsonV, json_view, json_views, json_member_views, spec_print, to_bytes,
    lemma_json_views_index, lemma_json_member_views_index};
use crate::board::{Board, Tile};
use crate::team::Team;
use crate::game::{Game, State};
use crate::gameteam::GameTeam;
use crate::gameteam;
use crate::room::Room;
use crate::ident::{spec_uuid_bytes, uuid_bytes};
use crate::text::{s_response, s_error, s_room, s_tiles, s_master, s_hint, s_guesses, s_previous,
    s_players, s_words, s_cards, s_board, s_red, s_blue, s_turn, s_action, s_guess, s_neutral,
    s_death, s_id, s_game, s_state, s_join, s_team, s_play, s_end, b_response, b_error, b_room, b_tiles, b_master, b_hint, b_guesses, b_previous,
    b_players, b_words, b_cards, b_board, b_red, b_blue, b_turn, b_action, b_guess, b_neutral,
    b_death, b_id, b_game, b_state, b_join, b_team, b_play, b_end};
use crate::bytes::copy_bytes;

verus! {

/// The wire word for a tile color.
pub open spec fn spec_tile_str(t: Tile) -> Seq<u8> {
    match t {
        Tile::Neutral => s_neutral(),
        Tile::Blue => s_blue(),
        Tile::Red => s_red(),
        Tile::Death => s_death(),
    }
}

fn tile_str(t: Tile) -> (r: Vec<u8>)
    ensures
        r@ == spec_tile_str(t),
{
    match t {
        Tile::Neutral => b_neutral(),
        Tile::Blue => b_blue(),
        Tile::Red => b_red(),
        Tile::Death => b_death(),
    }
}

/// The published view of one team: its master's name (or null), the
/// current hint, the remaining guesses, the stacked bonus hint, and
/// the member names.
pub open spec fn spec_team_json(t: GameTeam) -> JsonV {
    JsonV::Obj(
        seq![
            (
                s_master(),
                match t.master {
                    Some(tok) => match t.players.spec_get(tok) {
                        Some(n) => JsonV::Str(n),
                        None => JsonV::Null,
                    },
                    None => JsonV::Null,
                },
            ),
            (s_hint(), JsonV::Str(t.hint@)),
            (s_guesses(), JsonV::Int(t.guesses as u64)),
            (
                s_previous(),
                match t.previous {
                    Some(p) => JsonV::Str(p@),
                    None => JsonV::Null,
                },
            ),
            (
                s_players(),
                JsonV::Arr(
                    Seq::new(
                        t.players.spec_names().len(),
                        |i: int| JsonV::Str(t.players.spec_names()[i]),
                    ),
                ),
            ),
        ],
    )
}

fn team_json(t: &GameTeam) -> (r: Json)
    requires
        t.players.wf(),
    ensures
        json_view(r) == spec_team_json(*t),
{
    let master: Json = match t.master {
        Some(tok) => match t.players.get(tok) {
            Some(n) => Json::Str(n),
            None => Json::Null,
        },
        None => Json::Null,
    };
    let previous: Json = match &t.previous {
        Some(p) => Json::Str(copy_bytes(p.as_slice())),
        None => Json::Null,
    };
    let names = t.players.names();
    let mut players: Vec<Json> = Vec::new();
    let n: usize = names.len();
    proof {
        assert(names.deep_view().len() == names@.len());
    }
    let mut i: usize = 0;
    while i < n
        invariant
            n == names@.len(),
            names.deep_view() == t.players.spec_names(),
            names.deep_view().len() == n,
            i <= n,
            players@.len() == i,
            forall|k: int|
                0 <= k < i ==> json_view(#[trigger] players@[k]) == JsonV::Str(
                    names.deep_view()[k],
                ),
        decreases n - i,
    {
        let w = copy_bytes(names[i].as_slice());
        assert(w@ == names.deep_view()[i as int]);
        players.push(Json::Str(w));
        i += 1;
    }
    proof {
        lemma_json_views_index(players@);
        assert(json_views(players@) =~= Seq::new(
            t.players.spec_names().len(),
            |i: int| JsonV::Str(t.players.spec_names()[i]),
        ));
    }
    let mut ms: Vec<(Vec<u8>, Json)> = Vec::new();
    ms.push((b_master(), master));
    ms.push((b_hint(), Json::Str(copy_bytes(t.hint.as_slice()))));
    ms.push((b_guesses(), Json::Int(t.guesses as u64)));
    ms.push((b_previous(), previous));
    ms.push((b_players(), Json::Arr(players)));
    proof {
        lemma_json_member_views_index(ms@);
        assert(json_view(Json::Obj(ms)) == JsonV::Obj(json_member_views(ms@)));
        assert(json_member_views(ms@) =~= spec_team_json(*t)->Obj_0);
    }
    Json::Obj(ms)
}

/// The published board: the word grid, and for each cell either null
/// or the color revealed there.
pub open spec fn spec_board_json(b: Board) -> JsonV {
    JsonV::Obj(
        seq![
            (
                s_words(),
                JsonV::Arr(
                    Seq::new(
                        5,
                        |r: int|
                            JsonV::Arr(
                                Seq::new(5, |c: int| JsonV::Str(b.words@[r * 5 + c]@)),
                            ),
                    ),
                ),
            ),
            (
                s_cards(),
                JsonV::Arr(
                    Seq::new(
                        5,
                        |r: int|
                            JsonV::Arr(
                                Seq::new(
                                    5,
                                    |c: int|
                                        if b.cards@[r * 5 + c] {
                                            JsonV::Str(spec_tile_str(b.tiles@[r * 5 + c]))
                                        } else {
                                            JsonV::Null
                                        },
                                ),
                            ),
                    ),
                ),
            ),
        ],
    )
}

fn board_json(b: &Board) -> (r: Json)
    requires
        b.wf(),
    ensures
        json_view(r) == spec_board_json(*b),
{
    let mut wrows: Vec<Json> = Vec::new();
    let mut crows: Vec<Json> = Vec::new();
    let ghost wspec = Seq::new(
        5,
        |r: int| JsonV::Arr(Seq::new(5, |c: int| JsonV::Str(b.words@[r * 5 + c]@))),
    );
    let ghost cspec = Seq::new(
        5,
        |r: int|
            JsonV::Arr(
                Seq::new(
                    5,
                    |c: int|
                        if b.cards@[r * 5 + c] {
                            JsonV::Str(spec_tile_str(b.tiles@[r * 5 + c]))
                        } else {
                            JsonV::Null
                        },
                ),
            ),
    );
    let mut r: usize = 0;
    while r < 5
        invariant
            b.wf(),
            r <= 5,
            wrows@.len() == r,
            crows@.len() == r,
            wspec == Seq::new(
                5,
                |r: int| JsonV::Arr(Seq::new(5, |c: int| JsonV::Str(b.words@[r * 5 + c]@))),
            ),
            cspec == Seq::new(
                5,
                |r: int|
                    JsonV::Arr(
                        Seq::new(
                            5,
                            |c: int|
                                if b.cards@[r * 5 + c] {
                                    JsonV::Str(spec_tile_str(b.tiles@[r * 5 + c]))
                                } else {
                                    JsonV::Null
                                },
                        ),
                    ),
            ),
            forall|k: int| 0 <= k < r ==> json_view(#[trigger] wrows@[k]) == wspec[k],
            forall|k: int| 0 <= k < r ==> json_view(#[trigger] crows@[k]) == cspec[k],
        decreases 5 - r,
    {
        let mut wrow: Vec<Json> = Vec::new();
        let mut crow: Vec<Json> = Vec::new();
        let mut c: usize = 0;
        while c < 5
            invariant
                b.wf(),
                r < 5,
                c <= 5,
                wrow@.len() == c,
                crow@.len() == c,
                forall|k: int|
                    0 <= k < c ==> json_view(#[trigger] wrow@[k]) == JsonV::Str(
                        b.words@[r * 5 + k]@,
                    ),
                forall|k: int|
                    0 <= k < c ==> json_view(#[trigger] crow@[k]) == (if b.cards@[r * 5 + k] {
                        JsonV::Str(spec_tile_str(b.tiles@[r * 5 + k]))
                    } else {
                        JsonV::Null
                    }),
            decreases 5 - c,
        {
            let idx: usize = r * 5 + c;
            wrow.push(Json::Str(copy_bytes(b.words[idx].as_slice())));
            if b.cards[idx] {
                crow.push(Json::Str(tile_str(b.tiles[idx])));
            } else {
                crow.push(Json::Null);
            }
            c += 1;
        }
        proof {
            lemma_json_views_index(wrow@);
            lemma_json_views_index(crow@);
            assert(json_views(wrow@) =~= Seq::new(
                5,
                |c: int| JsonV::Str(b.words@[r * 5 + c]@),
            ));
            assert(json_views(crow@) =~= Seq::new(
                5,
                |c: int|
                    if b.cards@[r * 5 + c] {
                        JsonV::Str(spec_tile_str(b.tiles@[r * 5 + c]))
                    } else {
                        JsonV::Null
                    },
            ));
        }
        wrows.push(Json::Arr(wrow));
        crows.push(Json::Arr(crow));
        r += 1;
    }
    proof {
        lemma_json_views_index(wrows@);
        lemma_json_views_index(crows@);
        assert(json_views(wrows@) =~= wspec);
        assert(json_views(crows@) =~= cspec);
    }
    let mut ms: Vec<(Vec<u8>, Json)> = Vec::new();
    ms.push((b_words(), Json::Arr(wrows)));
    ms.push((b_cards(), Json::Arr(crows)));
    proof {
        lemma_json_member_views_index(ms@);
        assert(json_member_views(ms@) =~= spec_board_json(*b)->Obj_0);
    }
    Json::Obj(ms)
}

/// Whose turn the snapshot shows: in setup, the team that will open;
/// afterwards the playing or winning team.
pub open spec fn spec_turn(g: Game) -> Team {
    match g.state {
        State::Start => g.board.spec_start_team(),
        State::Play(t) => t,
        State::End(t) => t,
    }
}

/// The published game: board, both teams, whose turn it is, and
/// whether that team is hinting or guessing.
pub open spec fn spec_game_json(g: Game) -> JsonV {
    JsonV::Obj(
        seq![
            (s_board(), spec_board_json(g.board)),
            (s_red(), spec_team_json(g.red)),
            (s_blue(), spec_team_json(g.blue)),
            (s_turn(), JsonV::Str(spec_turn(g).spec_name_bytes())),
            (
                s_action(),
                JsonV::Str(
                    match g.spec_team(spec_turn(g)).state {
                        gameteam::State::Hint => s_hint(),
                        gameteam::State::Guess => s_guess(),
                    },
                ),
            ),
        ],
    )
}

pub fn game_json(g: &Game) -> (r: Json)
    requires
        g.board.wf(),
        g.red.players.wf(),
        g.blue.players.wf(),
    ensures
        json_view(r) == spec_game_json(*g),
{
    let turn: Team = match g.state {
        State::Start => g.board.start_team(),
        State::Play(t) => t,
        State::End(t) => t,
    };
    let action: Vec<u8> = match g.team(&turn).state {
        gameteam::State::Hint => b_hint(),
        gameteam::State::Guess => b_guess(),
    };
    let mut ms: Vec<(Vec<u8>, Json)> = Vec::new();
    ms.push((b_board(), board_json(&g.board)));
    ms.push((b_red(), team_json(&g.red)));
    ms.push((b_blue(), team_json(&g.blue)));
    ms.push((b_turn(), Json::Str(turn.name_bytes())));
    ms.push((b_action(), Json::Str(action)));
    proof {
        lemma_json_member_views_index(ms@);
        assert(json_member_views(ms@) =~= spec_game_json(*g)->Obj_0);
    }
    Json::Obj(ms)
}

/// The error response for a message text.
pub open spec fn spec_error_json(msg: Seq<u8>) -> JsonV {
    JsonV::Obj(seq![(s_response(), JsonV::Str(s_error())), (s_error(), JsonV::Str(msg))])
}

/// Renders the error response carrying `msg`.
pub fn error(msg: &[u8]) -> (r: Vec<u8>)
    ensures
        r@ == spec_print(spec_error_json(msg@)),
{
    let mut ms: Vec<(Vec<u8>, Json)> = Vec::new();
    ms.push((b_response(), Json::Str(b_error())));
    ms.push((b_error(), Json::Str(copy_bytes(msg))));
    proof {
        lemma_json_member_views_index(ms@);
        assert(json_member_views(ms@) =~= spec_error_json(msg@)->Obj_0);
    }
    to_bytes(&Json::Obj(ms))
}

/// The private reveal sent to each codemaster: every cell's color.
pub open spec fn spec_tiles_json(g: Game) -> JsonV {
    JsonV::Obj(
        seq![
            (s_response(), JsonV::Str(s_tiles())),
            (
                s_tiles(),
                JsonV::Arr(
                    Seq::new(
                        5,
                        |r: int|
                            JsonV::Arr(
                                Seq::new(5, |c: int| JsonV::Str(spec_tile_str(g.board.tiles@[r * 5 + c]))),
                            ),
                    ),
                ),
            ),
        ],
    )
}

/// Renders the tile reveal for `g`.
pub fn tiles(g: &Game) -> (r: Vec<u8>)
    requires
        g.board.wf(),
    ensures
        r@ == spec_print(spec_tiles_json(*g)),
{
    let ghost tspec = Seq::new(
        5,
        |r: int|
            JsonV::Arr(Seq::new(5, |c: int| JsonV::Str(spec_tile_str(g.board.tiles@[r * 5 + c])))),
    );
    let mut rows: Vec<Json> = Vec::new();
    let mut r: usize = 0;
    while r < 5
        invariant
            g.board.wf(),
            r <= 5,
            rows@.len() == r,
            tspec == Seq::new(
                5,
                |r: int|
                    JsonV::Arr(
                        Seq::new(5, |c: int| JsonV::Str(spec_tile_str(g.board.tiles@[r * 5 + c]))),
                    ),
            ),
            forall|k: int| 0 <= k < r ==> json_view(#[trigger] rows@[k]) == tspec[k],
        decreases 5 - r,
    {
        let mut row: Vec<Json> = Vec::new();
        let mut c: usize = 0;
        while c < 5
            invariant
                g.board.wf(),
                r < 5,
                c <= 5,
                row@.len() == c,
                forall|k: int|
                    0 <= k < c ==> json_view(#[trigger] row@[k]) == JsonV::Str(
                        spec_tile_str(g.board.tiles@[r * 5 + k]),
                    ),
            decreases 5 - c,
        {
            let idx: usize = r * 5 + c;
            row.push(Json::Str(tile_str(g.board.tiles[idx])));
            c += 1;
        }
        proof {
            lemma_json_views_index(row@);
            assert(json_views(row@) =~= Seq::new(
                5,
                |c: int| JsonV::Str(spec_tile_str(g.board.tiles@[r * 5 + c])),
            ));
        }
        rows.push(Json::Arr(row));
        r += 1;
    }
    proof {
        lemma_json_views_index(rows@);
        assert(json_views(rows@) =~= tspec);
    }
    let mut ms: Vec<(Vec<u8>, Json)> = Vec::new();
    ms.push((b_response(), Json::Str(b_tiles())));
    ms.push((b_tiles(), Json::Arr(rows)));
    proof {
        lemma_json_member_views_index(ms@);
        assert(json_member_views(ms@) =~= spec_tiles_json(*g)->Obj_0);
    }
    to_bytes(&Json::Obj(ms))
}

/// The one-word room state shown to clients: "join" until four
/// players are in the room, "team" while teams form, then "play" and
/// "end".
pub open spec fn spec_state_str(rm: Room) -> Seq<u8> {
    match rm.game.state {
        State::Start => if rm.players@.len() >= 4 {
            s_team()
        } else {
            s_join()
        },
        State::Play(_) => s_play(),
        State::End(_) => s_end(),
    }
}

/// The published room: identifier, game, room-level player names, and
/// the one-word state.
pub open spec fn spec_room_json(rm: Room) -> JsonV {
    JsonV::Obj(
        seq![
            (s_id(), JsonV::Str(spec_uuid_bytes(rm.id))),
            (s_game(), spec_game_json(rm.game)),
            (
                s_players(),
                JsonV::Arr(
                    Seq::new(
                        rm.players.spec_names().len(),
                        |i: int| JsonV::Str(rm.players.spec_names()[i]),
                    ),
                ),
            ),
            (s_state(), JsonV::Str(spec_state_str(rm))),
        ],
    )
}

/// The full broadcast message for a room's snapshot.
pub open spec fn spec_room_msg(rm: Room) -> Seq<u8> {
    spec_print(
        JsonV::Obj(seq![(s_response(), JsonV::Str(s_room())), (s_room(), spec_room_json(rm))]),
    )
}

/// Round trip: the snapshot message a room broadcasts, read back as
/// JSON, is exactly the snapshot's value — every observable field
/// (identifier, board, both teams, turn, action, player names and
/// room state) survives serialization.
pub proof fn lemma_snapshot_roundtrip(rm: Room)
    ensures
        crate::json::spec_parse_text(spec_room_msg(rm)) == Some(
            JsonV::Obj(
                seq![(s_response(), JsonV::Str(s_room())), (s_room(), spec_room_json(rm))],
            ),
        ),
{
    crate::json::lemma_roundtrip(
        JsonV::Obj(seq![(s_response(), JsonV::Str(s_room())), (s_room(), spec_room_json(rm))]),
    );
}

/// Renders the snapshot broadcast for `rm`.
pub fn room(rm: &Room) -> (r: Vec<u8>)
    requires
        rm.inv(),
    ensures
        r@ == spec_room_msg(*rm),
{
    let state: Vec<u8> = match rm.game.state {
        State::Start => if rm.players.len() >= 4 {
            b_team()
        } else {
            b_join()
        },
        State::Play(_) => b_play(),
        State::End(_) => b_end(),
    };
    let names = rm.players.names();
    let mut players: Vec<Json> = Vec::new();
    let n: usize = names.len();
    proof {
        assert(names.deep_view().len() == names@.len());
    }
    let mut i: usize = 0;
    while i < n
        invariant
            n == names@.len(),
            names.deep_view() == rm.players.spec_names(),
            names.deep_view().len() == n,
            i <= n,
            players@.len() == i,
            forall|k: int|
                0 <= k < i ==> json_view(#[trigger] players@[k]) == JsonV::Str(
                    names.deep_view()[k],
                ),
        decreases n - i,
    {
        let w = copy_bytes(names[i].as_slice());
        assert(w@ == names.deep_view()[i as int]);
        players.push(Json::Str(w));
        i += 1;
    }
    proof {
        lemma_json_views_index(players@);
        assert(json_views(players@) =~= Seq::new(
            rm.players.spec_names().len(),
            |i: int| JsonV::Str(rm.players.spec_names()[i]),
        ));
    }
    let mut rs: Vec<(Vec<u8>, Json)> = Vec::new();
    rs.push((b_id(), Json::Str(uuid_bytes(rm.id))));
    rs.push((b_game(), game_json(&rm.game)));
    rs.push((b_players(), Json::Arr(players)));
    rs.push((b_state(), Json::Str(state)));
    proof {
        lemma_json_member_views_index(rs@);
        assert(json_member_views(rs@) =~= spec_room_json(*rm)->Obj_0);
    }
    let mut ms: Vec<(Vec<u8>, Json)> = Vec::new();
    ms.push((b_response(), Json::Str(b_room())));
    ms.push((b_room(), Json::Obj(rs)));
    proof {
        lemma_json_member_views_index(ms@);
        assert(json_member_views(ms@) =~= seq![
            (s_response(), JsonV::Str(s_room())),
            (s_room(), spec_room_json(*rm)),
        ]);
    }
    to_bytes(&Json::Obj(ms))
}

} // verus!
