//! Typed client requests.
//!
//! Every client message is a JSON object `{"request": kind, ...}`;
//! parsing into these types lives beside the JSON reader further down
//! this file.  All text is UTF-8 bytes.

use vstd::prelude::*;
use vstd::string::StringSliceAdditionalSpecFns;
use crate::team::Team as TeamColor;
use crate::error::{RequestError, RequestErrorV};
use crate::json::{Json, JsonV, jv_get, json_member_views, obj_get, parse_text, spec_parse_text};
use crate::ident::{parse_uuid, spec_parse_uuid};
use crate::bytes::copy_bytes;
use crate::text::{s_language, s_name, s_id, s_team, s_blue, s_red, s_hint, s_guesses, s_x, s_y,
    s_request, s_reset, s_room, s_join, s_start, s_guess, s_pass, s_inv_guesses, s_inv_x, s_inv_y,
    b_language, b_name, b_id, b_team, b_blue, b_red, b_hint, b_guesses, b_x, b_y, b_request,
    b_reset, b_room, b_join, b_start, b_guess, b_pass, b_inv_guesses, b_inv_x, b_inv_y};

verus! {

/// `room`: open a new room, self-registering under `name`.
#[derive(Debug)]
pub struct Room {
    pub name: Vec<u8>,
    pub language: Vec<u8>,
}

/// `reset`: replace the room's game with a fresh board.
#[derive(Debug)]
pub struct Reset {
    pub language: Vec<u8>,
}

/// `join`: enter the room `id` under `name`.
#[derive(Debug)]
pub struct Join {
    pub id: u128,
    pub name: Vec<u8>,
}

/// `team`: join one of the two teams.
#[derive(Debug)]
pub struct Team {
    pub team: TeamColor,
}

/// `start`: begin play, naming both team masters.
#[derive(Debug)]
pub struct Start {
    pub blue: Vec<u8>,
    pub red: Vec<u8>,
}

/// `hint`: a hint word and the number of guesses it covers.
#[derive(Debug)]
pub struct Hint {
    pub hint: Vec<u8>,
    pub guesses: u8,
}

/// `guess`: reveal the cell at `(x, y)`.
#[derive(Debug)]
pub struct Guess {
    pub x: usize,
    pub y: usize,
}

/// `pass`: give up the rest of the team's guesses.
#[derive(Debug)]
pub struct Pass {}

/// Any request a client can make.
#[derive(Debug)]
pub enum Request {
    Room(Room),
    Join(Join),
    Team(Team),
    Start(Start),
    Hint(Hint),
    Guess(Guess),
    Pass(Pass),
    Reset(Reset),
}

impl Start {
    pub open spec fn spec_master(self, team: TeamColor) -> Seq<u8> {
        match team {
            TeamColor::Red => self.red@,
            TeamColor::Blue => self.blue@,
        }
    }

    /// The requested master name for `team`.
    pub fn master(&self, team: &TeamColor) -> (r: &Vec<u8>)
        ensures
            r@ == self.spec_master(*team),
    {
        match team {
            TeamColor::Red => &self.red,
            TeamColor::Blue => &self.blue,
        }
    }
}

impl Request {
    /// The bounds that request parsing guarantees and that the state
    /// machine relies on: guessed cells lie on the board.
    pub open spec fn wf(self) -> bool {
        self matches Request::Guess(g) ==> g.x < 5 && g.y < 5
    }
}


/// The value of a request, for contracts.
pub enum RequestV {
    Room { name: Seq<u8>, language: Seq<u8> },
    Join { id: u128, name: Seq<u8> },
    Team { team: TeamColor },
    Start { blue: Seq<u8>, red: Seq<u8> },
    Hint { hint: Seq<u8>, guesses: u8 },
    Guess { x: usize, y: usize },
    Pass,
    Reset { language: Seq<u8> },
}

impl View for Request {
    type V = RequestV;

    open spec fn view(&self) -> RequestV {
        match self {
            Request::Room(r) => RequestV::Room { name: r.name@, language: r.language@ },
            Request::Join(j) => RequestV::Join { id: j.id, name: j.name@ },
            Request::Team(t) => RequestV::Team { team: t.team },
            Request::Start(s) => RequestV::Start { blue: s.blue@, red: s.red@ },
            Request::Hint(h) => RequestV::Hint { hint: h.hint@, guesses: h.guesses },
            Request::Guess(g) => RequestV::Guess { x: g.x, y: g.y },
            Request::Pass(_) => RequestV::Pass,
            Request::Reset(r) => RequestV::Reset { language: r.language@ },
        }
    }
}

/// The string under `key`, if the object has one there.
pub open spec fn jv_get_str(ms: Seq<(Seq<u8>, JsonV)>, key: Seq<u8>) -> Option<Seq<u8>> {
    match jv_get(ms, key) {
        Some(JsonV::Str(s)) => Some(s),
        _ => None,
    }
}

/// The integer under `key`, if the object has one there.
pub open spec fn jv_get_int(ms: Seq<(Seq<u8>, JsonV)>, key: Seq<u8>) -> Option<u64> {
    match jv_get(ms, key) {
        Some(JsonV::Int(n)) => Some(n),
        _ => None,
    }
}

/// What `reset` parses to.
pub open spec fn spec_parse_reset(ms: Seq<(Seq<u8>, JsonV)>) -> Result<RequestV, RequestErrorV> {
    match jv_get_str(ms, s_language()) {
        Some(l) => Ok(RequestV::Reset { language: l }),
        None => Err(RequestErrorV::Parse),
    }
}

/// What `room` parses to: both fields must be strings, and, as the
/// admin registers itself with them, neither may be empty.
pub open spec fn spec_parse_room(ms: Seq<(Seq<u8>, JsonV)>) -> Result<RequestV, RequestErrorV> {
    match (jv_get_str(ms, s_name()), jv_get_str(ms, s_language())) {
        (Some(n), Some(l)) => if n.len() == 0 {
            Err(RequestErrorV::Missing(s_name()))
        } else if l.len() == 0 {
            Err(RequestErrorV::Missing(s_language()))
        } else {
            Ok(RequestV::Room { name: n, language: l })
        },
        _ => Err(RequestErrorV::Parse),
    }
}

/// What `join` parses to: the id must read as a room identifier.
pub open spec fn spec_parse_join(ms: Seq<(Seq<u8>, JsonV)>) -> Result<RequestV, RequestErrorV> {
    match (jv_get_str(ms, s_id()), jv_get_str(ms, s_name())) {
        (Some(ids), Some(n)) => match spec_parse_uuid(ids) {
            Some(id) => Ok(RequestV::Join { id, name: n }),
            None => Err(RequestErrorV::Parse),
        },
        _ => Err(RequestErrorV::Parse),
    }
}

/// What `team` parses to: one of the two color words.
pub open spec fn spec_parse_team(ms: Seq<(Seq<u8>, JsonV)>) -> Result<RequestV, RequestErrorV> {
    match jv_get_str(ms, s_team()) {
        Some(t) => if t == s_blue() {
            Ok(RequestV::Team { team: TeamColor::Blue })
        } else if t == s_red() {
            Ok(RequestV::Team { team: TeamColor::Red })
        } else {
            Err(RequestErrorV::Parse)
        },
        None => Err(RequestErrorV::Parse),
    }
}

/// What `start` parses to: both master names, neither empty.
pub open spec fn spec_parse_start(ms: Seq<(Seq<u8>, JsonV)>) -> Result<RequestV, RequestErrorV> {
    match (jv_get_str(ms, s_blue()), jv_get_str(ms, s_red())) {
        (Some(b), Some(r)) => if b.len() == 0 {
            Err(RequestErrorV::Missing(s_blue()))
        } else if r.len() == 0 {
            Err(RequestErrorV::Missing(s_red()))
        } else {
            Ok(RequestV::Start { blue: b, red: r })
        },
        _ => Err(RequestErrorV::Parse),
    }
}

/// What `hint` parses to: a non-empty word and one to nine guesses.
pub open spec fn spec_parse_hint(ms: Seq<(Seq<u8>, JsonV)>) -> Result<RequestV, RequestErrorV> {
    match (jv_get_str(ms, s_hint()), jv_get_int(ms, s_guesses())) {
        (Some(h), Some(g)) => if g > 255 {
            Err(RequestErrorV::Parse)
        } else if h.len() == 0 {
            Err(RequestErrorV::Missing(s_hint()))
        } else if !(1 <= g <= 9) {
            Err(RequestErrorV::Invalid(s_inv_guesses()))
        } else {
            Ok(RequestV::Hint { hint: h, guesses: g as u8 })
        },
        _ => Err(RequestErrorV::Parse),
    }
}

/// What `guess` parses to: coordinates on the board.
pub open spec fn spec_parse_guess(ms: Seq<(Seq<u8>, JsonV)>) -> Result<RequestV, RequestErrorV> {
    match (jv_get_int(ms, s_x()), jv_get_int(ms, s_y())) {
        (Some(x), Some(y)) => if x > usize::MAX || y > usize::MAX {
            Err(RequestErrorV::Parse)
        } else if x > 4 {
            Err(RequestErrorV::Invalid(s_inv_x()))
        } else if y > 4 {
            Err(RequestErrorV::Invalid(s_inv_y()))
        } else {
            Ok(RequestV::Guess { x: x as usize, y: y as usize })
        },
        _ => Err(RequestErrorV::Parse),
    }
}

/// What any request text parses to, by its `request` field.
pub open spec fn spec_request_of(j: JsonV) -> Result<RequestV, RequestErrorV> {
    match j {
        JsonV::Obj(ms) => match jv_get(ms, s_request()) {
            Some(JsonV::Str(kind)) => if kind == s_reset() {
                spec_parse_reset(ms)
            } else if kind == s_room() {
                spec_parse_room(ms)
            } else if kind == s_join() {
                spec_parse_join(ms)
            } else if kind == s_team() {
                spec_parse_team(ms)
            } else if kind == s_start() {
                spec_parse_start(ms)
            } else if kind == s_hint() {
                spec_parse_hint(ms)
            } else if kind == s_guess() {
                spec_parse_guess(ms)
            } else if kind == s_pass() {
                Ok(RequestV::Pass)
            } else {
                Err(RequestErrorV::Unknown(kind))
            },
            _ => Err(RequestErrorV::Missing(s_request())),
        },
        _ => Err(RequestErrorV::Missing(s_request())),
    }
}

/// What a whole client message parses to.
pub open spec fn spec_from_str(bytes: Seq<u8>) -> Result<RequestV, RequestErrorV> {
    match spec_parse_text(bytes) {
        Some(j) => spec_request_of(j),
        None => Err(RequestErrorV::Parse),
    }
}

/// The string under `key`, copied out.
fn get_str(ms: &Vec<(Vec<u8>, Json)>, key: &[u8]) -> (r: Option<Vec<u8>>)
    ensures
        match r {
            Some(v) => jv_get_str(json_member_views(ms@), key@) == Some(v@),
            None => jv_get_str(json_member_views(ms@), key@) is None,
        },
{
    match obj_get(ms, key) {
        Some(j) => match j {
            Json::Str(s) => Some(copy_bytes(s.as_slice())),
            _ => None,
        },
        None => None,
    }
}

/// The integer under `key`.
fn get_int(ms: &Vec<(Vec<u8>, Json)>, key: &[u8]) -> (r: Option<u64>)
    ensures
        r == jv_get_int(json_member_views(ms@), key@),
{
    match obj_get(ms, key) {
        Some(j) => match j {
            Json::Int(n) => Some(*n),
            _ => None,
        },
        None => None,
    }
}

impl Reset {
    pub fn parse(ms: &Vec<(Vec<u8>, Json)>) -> (r: Result<Request, RequestError>)
        ensures
            result_view(r) == spec_parse_reset(json_member_views(ms@)),
    {
        let key = b_language();
        match get_str(ms, key.as_slice()) {
            Some(l) => Ok(Request::Reset(Reset { language: l })),
            None => Err(RequestError::Parse),
        }
    }
}

impl Room {
    pub fn parse(ms: &Vec<(Vec<u8>, Json)>) -> (r: Result<Request, RequestError>)
        ensures
            result_view(r) == spec_parse_room(json_member_views(ms@)),
    {
        let kn = b_name();
        let kl = b_language();
        match (get_str(ms, kn.as_slice()), get_str(ms, kl.as_slice())) {
            (Some(n), Some(l)) => {
                if n.len() == 0 {
                    Err(RequestError::Missing(b_name()))
                } else if l.len() == 0 {
                    Err(RequestError::Missing(b_language()))
                } else {
                    Ok(Request::Room(Room { name: n, language: l }))
                }
            },
            _ => Err(RequestError::Parse),
        }
    }
}

impl Join {
    pub fn parse(ms: &Vec<(Vec<u8>, Json)>) -> (r: Result<Request, RequestError>)
        ensures
            result_view(r) == spec_parse_join(json_member_views(ms@)),
    {
        let ki = b_id();
        let kn = b_name();
        match (get_str(ms, ki.as_slice()), get_str(ms, kn.as_slice())) {
            (Some(ids), Some(n)) => match parse_uuid(ids.as_slice()) {
                Some(id) => Ok(Request::Join(Join { id, name: n })),
                None => Err(RequestError::Parse),
            },
            _ => Err(RequestError::Parse),
        }
    }
}

impl Team {
    pub fn parse(ms: &Vec<(Vec<u8>, Json)>) -> (r: Result<Request, RequestError>)
        ensures
            result_view(r) == spec_parse_team(json_member_views(ms@)),
    {
        let kt = b_team();
        match get_str(ms, kt.as_slice()) {
            Some(t) => {
                let blue = b_blue();
                let red = b_red();
                if crate::bytes::bytes_eq(t.as_slice(), blue.as_slice()) {
                    Ok(Request::Team(Team { team: TeamColor::Blue }))
                } else if crate::bytes::bytes_eq(t.as_slice(), red.as_slice()) {
                    Ok(Request::Team(Team { team: TeamColor::Red }))
                } else {
                    Err(RequestError::Parse)
                }
            },
            None => Err(RequestError::Parse),
        }
    }
}

impl Start {
    pub fn parse(ms: &Vec<(Vec<u8>, Json)>) -> (r: Result<Request, RequestError>)
        ensures
            result_view(r) == spec_parse_start(json_member_views(ms@)),
    {
        let kb = b_blue();
        let kr = b_red();
        match (get_str(ms, kb.as_slice()), get_str(ms, kr.as_slice())) {
            (Some(b), Some(r)) => {
                if b.len() == 0 {
                    Err(RequestError::Missing(b_blue()))
                } else if r.len() == 0 {
                    Err(RequestError::Missing(b_red()))
                } else {
                    Ok(Request::Start(Start { blue: b, red: r }))
                }
            },
            _ => Err(RequestError::Parse),
        }
    }
}

impl Hint {
    pub fn parse(ms: &Vec<(Vec<u8>, Json)>) -> (r: Result<Request, RequestError>)
        ensures
            result_view(r) == spec_parse_hint(json_member_views(ms@)),
    {
        let kh = b_hint();
        let kg = b_guesses();
        match (get_str(ms, kh.as_slice()), get_int(ms, kg.as_slice())) {
            (Some(h), Some(g)) => {
                if g > 255 {
                    Err(RequestError::Parse)
                } else if h.len() == 0 {
                    Err(RequestError::Missing(b_hint()))
                } else if !(1 <= g && g <= 9) {
                    Err(RequestError::Invalid(b_inv_guesses()))
                } else {
                    Ok(Request::Hint(Hint { hint: h, guesses: g as u8 }))
                }
            },
            _ => Err(RequestError::Parse),
        }
    }
}

impl Guess {
    pub fn parse(ms: &Vec<(Vec<u8>, Json)>) -> (r: Result<Request, RequestError>)
        ensures
            result_view(r) == spec_parse_guess(json_member_views(ms@)),
            r matches Ok(req) ==> req.wf(),
    {
        let kx = b_x();
        let ky = b_y();
        match (get_int(ms, kx.as_slice()), get_int(ms, ky.as_slice())) {
            (Some(x), Some(y)) => {
                if x > usize::MAX as u64 || y > usize::MAX as u64 {
                    Err(RequestError::Parse)
                } else if x > 4 {
                    Err(RequestError::Invalid(b_inv_x()))
                } else if y > 4 {
                    Err(RequestError::Invalid(b_inv_y()))
                } else {
                    Ok(Request::Guess(Guess { x: x as usize, y: y as usize }))
                }
            },
            _ => Err(RequestError::Parse),
        }
    }
}

impl Pass {
    pub fn parse(_ms: &Vec<(Vec<u8>, Json)>) -> (r: Result<Request, RequestError>)
        ensures
            result_view(r) == Ok::<RequestV, RequestErrorV>(RequestV::Pass),
    {
        Ok(Request::Pass(Pass {}))
    }
}

/// The value of a parse result, for contracts.
pub open spec fn result_view(r: Result<Request, RequestError>) -> Result<
    RequestV,
    RequestErrorV,
> {
    match r {
        Ok(req) => Ok(req@),
        Err(e) => Err(e@),
    }
}

impl Request {
    /// Reads one client message.  Whatever comes back is safe to hand
    /// to the state machine.
    pub fn from_str(text: &str) -> (r: Result<Request, RequestError>)
        ensures
            result_view(r) == spec_from_str(text.spec_bytes()),
            r matches Ok(req) ==> req.wf(),
    {
        let bytes: &[u8] = text.as_bytes();
        match parse_text(bytes) {
            None => Err(RequestError::Parse),
            Some(j) => {
                match &j {
                    Json::Obj(ms) => {
                        let kreq = b_request();
                        match obj_get(ms, kreq.as_slice()) {
                            Some(Json::Str(kind)) => {
                                let ks = kind.as_slice();
                                if eqb(ks, b_reset()) {
                                    Reset::parse(ms)
                                } else if eqb(ks, b_room()) {
                                    Room::parse(ms)
                                } else if eqb(ks, b_join()) {
                                    Join::parse(ms)
                                } else if eqb(ks, b_team()) {
                                    Team::parse(ms)
                                } else if eqb(ks, b_start()) {
                                    Start::parse(ms)
                                } else if eqb(ks, b_hint()) {
                                    Hint::parse(ms)
                                } else if eqb(ks, b_guess()) {
                                    Guess::parse(ms)
                                } else if eqb(ks, b_pass()) {
                                    Pass::parse(ms)
                                } else {
                                    Err(RequestError::Unknown(copy_bytes(ks)))
                                }
                            },
                            _ => Err(RequestError::Missing(b_request())),
                        }
                    },
                    _ => Err(RequestError::Missing(b_request())),
                }
            },
        }
    }
}

/// Byte equality against an owned keyword.
fn eqb(a: &[u8], b: Vec<u8>) -> (r: bool)
    ensures
        r == (a@ == b@),
{
    crate::bytes::bytes_eq(a, b.as_slice())
}

} // verus!
