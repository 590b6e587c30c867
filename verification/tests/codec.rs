//! Tests for the JSON codec, identifiers, request parsing and error
//! texts.

use codenames::json::{parse_text, to_bytes, Json};
use codenames::ident::{parse_uuid, uuid_bytes};
use codenames::request::Request;
use codenames::error::{GameError, RequestError, RoomError, TurnAction};
use codenames::team::Team;
use codenames::response;

fn s(v: &[u8]) -> Vec<u8> {
    v.to_vec()
}

#[test]
fn print_scalars() {
    assert_eq!(to_bytes(&Json::Null), b"null".to_vec());
    assert_eq!(to_bytes(&Json::Int(0)), b"0".to_vec());
    assert_eq!(to_bytes(&Json::Int(1234567890123456789)), b"1234567890123456789".to_vec());
    assert_eq!(to_bytes(&Json::Str(s(b"hi"))), b"\"hi\"".to_vec());
}

#[test]
fn print_escapes_quote_and_backslash() {
    assert_eq!(to_bytes(&Json::Str(s(b"a\"b\\c"))), b"\"a\\\"b\\\\c\"".to_vec());
}

#[test]
fn print_escapes_control_bytes() {
    assert_eq!(to_bytes(&Json::Str(s(b"a\x01\n"))), b"\"a\\u0001\\u000a\"".to_vec());
    // The escaped form is valid JSON to an outside reader too.
    let v: serde_json::Value =
        serde_json::from_slice(&to_bytes(&Json::Str(s(b"line\nbreak")))).expect("valid json");
    assert_eq!(v, serde_json::Value::String("line\nbreak".to_string()));
}

#[test]
fn parse_accepts_standard_string_escapes() {
    match parse_text(b"\"a\\n\\t\\r\\b\\f\\/\\u0041\\u000a\"") {
        Some(Json::Str(v)) => assert_eq!(v, b"a\n\t\r\x08\x0c/A\n".to_vec()),
        _ => panic!("expected a string"),
    }
}

#[test]
fn parse_rejects_bad_strings() {
    // A raw control byte inside a string.
    assert!(parse_text(b"\"a\x01b\"").is_none());
    // An unknown escape.
    assert!(parse_text(b"\"a\\qb\"").is_none());
    // A unicode escape beyond the byte-transparent range.
    assert!(parse_text(b"\"\\u00e9\"").is_none());
    assert!(parse_text(b"\"\\u00g1\"").is_none());
}

#[test]
fn print_nested() {
    let j = Json::Obj(vec![
        (s(b"a"), Json::Arr(vec![Json::Int(1), Json::Null, Json::Str(s(b"x"))])),
        (s(b"b"), Json::Obj(vec![])),
    ]);
    assert_eq!(to_bytes(&j), b"{\"a\":[1,null,\"x\"],\"b\":{}}".to_vec());
}

#[test]
fn parse_simple_values() {
    assert!(matches!(parse_text(b"null"), Some(Json::Null)));
    assert!(matches!(parse_text(b"42"), Some(Json::Int(42))));
    assert!(matches!(parse_text(b" \t\r\n 7 "), Some(Json::Int(7))));
    match parse_text(b"\"abc\"") {
        Some(Json::Str(v)) => assert_eq!(v, b"abc".to_vec()),
        _ => panic!("expected a string"),
    }
}

#[test]
fn parse_rejects_junk() {
    assert!(parse_text(b"").is_none());
    assert!(parse_text(b"nul").is_none());
    assert!(parse_text(b"01").is_none());
    assert!(parse_text(b"{\"a\":}").is_none());
    assert!(parse_text(b"[1,]").is_none());
    assert!(parse_text(b"\"open").is_none());
    assert!(parse_text(b"1 2").is_none());
    assert!(parse_text(b"-1").is_none());
    assert!(parse_text(b"1.5").is_none());
    assert!(parse_text(b"18446744073709551616").is_none());
}

#[test]
fn parse_container_roundtrip() {
    let text = b"{ \"k\" : [ 1 , null , \"v\" ] , \"m\" : { } }";
    let j = parse_text(text).expect("parse");
    assert_eq!(to_bytes(&j), b"{\"k\":[1,null,\"v\"],\"m\":{}}".to_vec());
}

#[test]
fn print_then_parse_gives_back_the_value() {
    let j = Json::Obj(vec![
        (s(b"s"), Json::Str(s(b"q\"w\\e"))),
        (s(b"n"), Json::Int(18446744073709551615)),
        (s(b"a"), Json::Arr(vec![Json::Obj(vec![(s(b"x"), Json::Null)])])),
    ]);
    let text = to_bytes(&j);
    let back = parse_text(&text).expect("roundtrip parse");
    assert_eq!(to_bytes(&back), text);
}

#[test]
fn uuid_format_is_hyphenated_lowercase() {
    let id: u128 = 0x0123456789abcdef0123456789abcdef;
    assert_eq!(uuid_bytes(id), b"01234567-89ab-cdef-0123-456789abcdef".to_vec());
    assert_eq!(uuid_bytes(0), b"00000000-0000-0000-0000-000000000000".to_vec());
}

#[test]
fn uuid_parse_accepts_both_forms_and_cases() {
    let id: u128 = 0x0123456789abcdef0123456789abcdef;
    assert_eq!(parse_uuid(b"01234567-89ab-cdef-0123-456789abcdef"), Some(id));
    assert_eq!(parse_uuid(b"01234567-89AB-CDEF-0123-456789ABCDEF"), Some(id));
    assert_eq!(parse_uuid(b"0123456789abcdef0123456789abcdef"), Some(id));
    assert_eq!(parse_uuid(b"01234567-89ab-cdef-0123-456789abcdeg"), None);
    assert_eq!(parse_uuid(b"0123456789abcdef0123456789abcde"), None);
    assert_eq!(parse_uuid(b"01234567x89ab-cdef-0123-456789abcdef"), None);
}

#[test]
fn uuid_roundtrip() {
    let id: u128 = 0xfedcba9876543210fedcba9876543210;
    let text = uuid_bytes(id);
    assert_eq!(parse_uuid(&text), Some(id));
}

#[test]
fn request_room_parses() {
    match Request::from_str("{\"request\":\"room\",\"name\":\"Alice\",\"language\":\"en\"}") {
        Ok(Request::Room(r)) => {
            assert_eq!(r.name, b"Alice".to_vec());
            assert_eq!(r.language, b"en".to_vec());
        },
        _ => panic!("expected a room request"),
    }
}

#[test]
fn request_room_requires_nonempty_fields() {
    match Request::from_str("{\"request\":\"room\",\"name\":\"\",\"language\":\"en\"}") {
        Err(RequestError::Missing(f)) => assert_eq!(f, b"name".to_vec()),
        _ => panic!("expected a missing-field error"),
    }
}

#[test]
fn request_join_parses_uuid() {
    let text = "{\"request\":\"join\",\"id\":\"00000000-0000-0000-0000-0000000000ff\",\"name\":\"Bob\"}";
    match Request::from_str(text) {
        Ok(Request::Join(j)) => {
            assert_eq!(j.id, 0xff);
            assert_eq!(j.name, b"Bob".to_vec());
        },
        _ => panic!("expected a join request"),
    }
}

#[test]
fn request_team_parses_colors() {
    match Request::from_str("{\"request\":\"team\",\"team\":\"blue\"}") {
        Ok(Request::Team(t)) => assert_eq!(t.team, Team::Blue),
        _ => panic!("expected a team request"),
    }
    match Request::from_str("{\"request\":\"team\",\"team\":\"red\"}") {
        Ok(Request::Team(t)) => assert_eq!(t.team, Team::Red),
        _ => panic!("expected a team request"),
    }
    assert!(matches!(
        Request::from_str("{\"request\":\"team\",\"team\":\"green\"}"),
        Err(RequestError::Parse)
    ));
}

#[test]
fn request_start_validates_names() {
    match Request::from_str("{\"request\":\"start\",\"blue\":\"A\",\"red\":\"\"}") {
        Err(RequestError::Missing(f)) => assert_eq!(f, b"red".to_vec()),
        _ => panic!("expected a missing-field error"),
    }
}

#[test]
fn request_hint_bounds_guesses() {
    match Request::from_str("{\"request\":\"hint\",\"hint\":\"sea\",\"guesses\":9}") {
        Ok(Request::Hint(h)) => {
            assert_eq!(h.hint, b"sea".to_vec());
            assert_eq!(h.guesses, 9);
        },
        _ => panic!("expected a hint request"),
    }
    match Request::from_str("{\"request\":\"hint\",\"hint\":\"sea\",\"guesses\":10}") {
        Err(RequestError::Invalid(w)) => {
            assert_eq!(w, b"guesses must be between 1 and 9".to_vec())
        },
        _ => panic!("expected an invalid-value error"),
    }
    assert!(matches!(
        Request::from_str("{\"request\":\"hint\",\"hint\":\"sea\",\"guesses\":0}"),
        Err(RequestError::Invalid(_))
    ));
}

#[test]
fn request_guess_bounds_coordinates() {
    match Request::from_str("{\"request\":\"guess\",\"x\":4,\"y\":0}") {
        Ok(Request::Guess(g)) => {
            assert_eq!(g.x, 4);
            assert_eq!(g.y, 0);
        },
        _ => panic!("expected a guess request"),
    }
    match Request::from_str("{\"request\":\"guess\",\"x\":5,\"y\":0}") {
        Err(RequestError::Invalid(w)) => assert_eq!(w, b"x must be between 0 and 4".to_vec()),
        _ => panic!("expected an invalid-value error"),
    }
    match Request::from_str("{\"request\":\"guess\",\"x\":0,\"y\":7}") {
        Err(RequestError::Invalid(w)) => assert_eq!(w, b"y must be between 0 and 4".to_vec()),
        _ => panic!("expected an invalid-value error"),
    }
}

#[test]
fn request_pass_and_reset_parse() {
    assert!(matches!(
        Request::from_str("{\"request\":\"pass\"}"),
        Ok(Request::Pass(_))
    ));
    match Request::from_str("{\"request\":\"reset\",\"language\":\"de\"}") {
        Ok(Request::Reset(r)) => assert_eq!(r.language, b"de".to_vec()),
        _ => panic!("expected a reset request"),
    }
}

#[test]
fn request_envelope_errors() {
    assert!(matches!(Request::from_str("not json"), Err(RequestError::Parse)));
    match Request::from_str("{\"other\":1}") {
        Err(RequestError::Missing(f)) => assert_eq!(f, b"request".to_vec()),
        _ => panic!("expected a missing-field error"),
    }
    match Request::from_str("{\"request\":\"dance\"}") {
        Err(RequestError::Unknown(k)) => assert_eq!(k, b"dance".to_vec()),
        _ => panic!("expected an unknown-request error"),
    }
    match Request::from_str("{\"request\":7}") {
        Err(RequestError::Missing(f)) => assert_eq!(f, b"request".to_vec()),
        _ => panic!("expected a missing-field error"),
    }
}

#[test]
fn request_accepts_whitespace() {
    assert!(matches!(
        Request::from_str("  { \"request\" : \"pass\" }  "),
        Ok(Request::Pass(_))
    ));
}

#[test]
fn error_messages_match_the_protocol() {
    assert_eq!(
        GameError::MissingPlayers(Team::Blue).message(),
        b"team blue does not have enough players".to_vec()
    );
    assert_eq!(GameError::NotAdmin.message(), b"player is not the admin".to_vec());
    assert_eq!(GameError::NotMaster.message(), b"player is not a master".to_vec());
    assert_eq!(
        GameError::Turn(TurnAction::Hint).message(),
        b"not your turn to give a hint".to_vec()
    );
    assert_eq!(
        GameError::Turn(TurnAction::Guess).message(),
        b"not your turn to give a guess".to_vec()
    );
    assert_eq!(GameError::NotStarted.message(), b"game has not started".to_vec());
    assert_eq!(GameError::AlreadyStarted.message(), b"game has already started".to_vec());
    assert_eq!(GameError::MasterNotFound.message(), b"master not found".to_vec());
    assert_eq!(GameError::PlayerNotFound.message(), b"player not found".to_vec());
    assert_eq!(GameError::WrongPhase.message(), b"not time to give a hint".to_vec());
    assert_eq!(
        RoomError::Game(GameError::NotAdmin).message(),
        b"game error: player is not the admin".to_vec()
    );
    assert_eq!(
        RoomError::Board(codenames::error::BoardError::Language(b"xx".to_vec())).message(),
        b"board error: language 'xx' not found".to_vec()
    );
    assert_eq!(RequestError::Parse.message(), b"parse error: invalid request".to_vec());
}

#[test]
fn error_response_shape() {
    let payload = response::error(b"boom");
    assert_eq!(payload, b"{\"response\":\"error\",\"error\":\"boom\"}".to_vec());
    let v: serde_json::Value = serde_json::from_slice(&payload).expect("valid json");
    assert_eq!(v["response"], "error");
    assert_eq!(v["error"], "boom");
}
