//! End-to-end tests: the server directory driven by typed events,
//! checked against the JSON the clients would see.

use codenames::board::{parse_board_set, BoardSet, Tile};
use codenames::request::{self, Request};
use codenames::server::Server;
use codenames::stream::{Event, EventKind};
use codenames::team::Team;

/// One language, 25 words, and a single tile map: cells 0..9 blue,
/// 9..17 red, 17..24 neutral, cell 24 the death tile.
fn boardset() -> BoardSet {
    let mut words = Vec::new();
    for i in 0..25usize {
        words.push(format!("w{:02}", i).into_bytes());
    }
    let mut map = Vec::new();
    for i in 0..25usize {
        map.push(if i < 9 {
            Tile::Blue
        } else if i < 17 {
            Tile::Red
        } else if i < 24 {
            Tile::Neutral
        } else {
            Tile::Death
        });
    }
    BoardSet { words: vec![(b"en".to_vec(), words)], tiles: vec![map] }
}

fn req(token: usize, r: Request) -> Event {
    Event { token, kind: EventKind::Request(r) }
}

fn snapshot(payload: &[u8]) -> serde_json::Value {
    let v: serde_json::Value = serde_json::from_slice(payload).expect("valid json");
    assert_eq!(v["response"], "room");
    v["room"].clone()
}

fn names(v: &serde_json::Value) -> Vec<String> {
    v.as_array()
        .expect("array")
        .iter()
        .map(|x| x.as_str().expect("string").to_string())
        .collect()
}

/// Builds the five-player room of the scenarios: Alice (1, admin) and
/// Bob (2) on blue, Carol (3) and Dave (4) on red.
fn full_room(server: &mut Server) {
    server.handle_event(req(1, Request::Room(request::Room {
        name: b"Alice".to_vec(),
        language: b"en".to_vec(),
    })));
    let id = server.rooms[0].0;
    for (tok, name) in [(2usize, "Bob"), (3, "Carol"), (4, "Dave")] {
        server.handle_event(req(tok, Request::Join(request::Join {
            id,
            name: name.as_bytes().to_vec(),
        })));
    }
    for (tok, team) in [(1usize, Team::Blue), (2, Team::Blue), (3, Team::Red), (4, Team::Red)] {
        server.handle_event(req(tok, Request::Team(request::Team { team })));
    }
    let eff = server.handle_event(req(1, Request::Start(request::Start {
        blue: b"Alice".to_vec(),
        red: b"Carol".to_vec(),
    })));
    // Broadcast to the four members plus the two private tile reveals.
    assert_eq!(eff.responses.len(), 6);
}

#[test]
fn create_and_join() {
    let mut server = Server::new(boardset());
    // S1: Alice opens a room and alone receives the snapshot.
    let eff = server.handle_event(req(1, Request::Room(request::Room {
        name: b"Alice".to_vec(),
        language: b"en".to_vec(),
    })));
    assert_eq!(eff.responses.len(), 1);
    assert_eq!(eff.responses[0].0, 1);
    assert!(eff.removed.is_empty());
    let snap = snapshot(&eff.responses[0].1);
    assert_eq!(snap["state"], "join");
    assert_eq!(names(&snap["players"]), vec!["Alice"]);
    let id_text = snap["id"].as_str().expect("id string").to_string();
    let id = codenames::ident::parse_uuid(id_text.as_bytes()).expect("well-formed id");
    assert_eq!(server.rooms[0].0, id);

    // Bob joins: both hear the new roster.
    let eff = server.handle_event(req(2, Request::Join(request::Join {
        id,
        name: b"Bob".to_vec(),
    })));
    assert_eq!(eff.responses.len(), 2);
    assert_eq!(eff.responses[0].0, 1);
    assert_eq!(eff.responses[1].0, 2);
    let snap = snapshot(&eff.responses[1].1);
    assert_eq!(names(&snap["players"]), vec!["Alice", "Bob"]);
}

#[test]
fn start_needs_enough_players() {
    // S2: with three players the start is refused, to the admin only.
    let mut server = Server::new(boardset());
    server.handle_event(req(1, Request::Room(request::Room {
        name: b"Alice".to_vec(),
        language: b"en".to_vec(),
    })));
    let id = server.rooms[0].0;
    for (tok, name) in [(2usize, "Bob"), (3, "Carol")] {
        server.handle_event(req(tok, Request::Join(request::Join {
            id,
            name: name.as_bytes().to_vec(),
        })));
    }
    for (tok, team) in [(1usize, Team::Blue), (2, Team::Blue), (3, Team::Red)] {
        server.handle_event(req(tok, Request::Team(request::Team { team })));
    }
    let eff = server.handle_event(req(1, Request::Start(request::Start {
        blue: b"Alice".to_vec(),
        red: b"Carol".to_vec(),
    })));
    assert_eq!(eff.responses.len(), 1);
    assert_eq!(eff.responses[0].0, 1);
    let v: serde_json::Value = serde_json::from_slice(&eff.responses[0].1).expect("json");
    assert_eq!(v["response"], "error");
    assert_eq!(v["error"], "game error: team red does not have enough players");
}

#[test]
fn start_reveals_tiles_to_the_masters_only() {
    // S3: on a successful start everyone sees play; Alice and Carol
    // privately receive the full tile map.
    let mut server = Server::new(boardset());
    server.handle_event(req(1, Request::Room(request::Room {
        name: b"Alice".to_vec(),
        language: b"en".to_vec(),
    })));
    let id = server.rooms[0].0;
    for (tok, name) in [(2usize, "Bob"), (3, "Carol"), (4, "Dave")] {
        server.handle_event(req(tok, Request::Join(request::Join {
            id,
            name: name.as_bytes().to_vec(),
        })));
    }
    for (tok, team) in [(1usize, Team::Blue), (2, Team::Blue), (3, Team::Red), (4, Team::Red)] {
        server.handle_event(req(tok, Request::Team(request::Team { team })));
    }
    let eff = server.handle_event(req(1, Request::Start(request::Start {
        blue: b"Alice".to_vec(),
        red: b"Carol".to_vec(),
    })));
    assert_eq!(eff.responses.len(), 6);
    for k in 0..4 {
        let snap = snapshot(&eff.responses[k].1);
        assert_eq!(snap["state"], "play");
        assert_eq!(snap["game"]["turn"], "blue");
    }
    // The private reveals go to the masters, red's first.
    let tile_recipients: Vec<usize> = eff.responses[4..].iter().map(|p| p.0).collect();
    assert_eq!(tile_recipients, vec![3, 1]);
    let v: serde_json::Value = serde_json::from_slice(&eff.responses[4].1).expect("json");
    assert_eq!(v["response"], "tiles");
    assert_eq!(v["tiles"][0][0], "blue");
    assert_eq!(v["tiles"][4][4], "death");
    // The snapshots went to the four members, one each.
    let mut snap_recipients: Vec<usize> = eff.responses[..4].iter().map(|p| p.0).collect();
    snap_recipients.sort();
    assert_eq!(snap_recipients, vec![1, 2, 3, 4]);
}

#[test]
fn hint_and_guesses_update_the_snapshot() {
    // S4: a hint, then a correct guess within budget.
    let mut server = Server::new(boardset());
    full_room(&mut server);
    let eff = server.handle_event(req(1, Request::Hint(request::Hint {
        hint: b"ocean".to_vec(),
        guesses: 2,
    })));
    assert_eq!(eff.responses.len(), 4);
    let snap = snapshot(&eff.responses[0].1);
    assert_eq!(snap["game"]["blue"]["hint"], "ocean");
    assert_eq!(snap["game"]["blue"]["guesses"], 2);
    assert_eq!(snap["game"]["action"], "guess");

    let eff = server.handle_event(req(2, Request::Guess(request::Guess { x: 0, y: 0 })));
    let snap = snapshot(&eff.responses[0].1);
    assert_eq!(snap["game"]["board"]["cards"][0][0], "blue");
    assert!(snap["game"]["board"]["cards"][0][1].is_null());
    assert_eq!(snap["game"]["turn"], "blue");
    assert_eq!(snap["game"]["blue"]["guesses"], 1);
}

#[test]
fn budget_exhaustion_flips_the_turn() {
    // S5: blue spends its budget without a bonus; red answers in kind.
    let mut server = Server::new(boardset());
    full_room(&mut server);
    server.handle_event(req(1, Request::Hint(request::Hint {
        hint: b"ocean".to_vec(),
        guesses: 2,
    })));
    server.handle_event(req(2, Request::Guess(request::Guess { x: 0, y: 0 })));
    let eff = server.handle_event(req(2, Request::Guess(request::Guess { x: 0, y: 1 })));
    let snap = snapshot(&eff.responses[0].1);
    assert_eq!(snap["game"]["turn"], "red");
    assert_eq!(snap["game"]["action"], "hint");

    server.handle_event(req(3, Request::Hint(request::Hint {
        hint: b"tree".to_vec(),
        guesses: 1,
    })));
    // Red's one correct guess spends the budget with no bonus owed.
    let eff = server.handle_event(req(4, Request::Guess(request::Guess { x: 1, y: 4 })));
    let snap = snapshot(&eff.responses[0].1);
    assert_eq!(snap["game"]["turn"], "blue");
    assert_eq!(snap["game"]["red"]["guesses"], 0);
}

#[test]
fn death_guess_ends_the_game() {
    // S6: the death cell hands the game to red at once.
    let mut server = Server::new(boardset());
    full_room(&mut server);
    server.handle_event(req(1, Request::Hint(request::Hint {
        hint: b"oops".to_vec(),
        guesses: 2,
    })));
    let eff = server.handle_event(req(2, Request::Guess(request::Guess { x: 4, y: 4 })));
    let snap = snapshot(&eff.responses[0].1);
    assert_eq!(snap["state"], "end");
    assert_eq!(snap["game"]["turn"], "red");
}

#[test]
fn admin_departure_tears_the_room_down() {
    // S7: when the admin goes, every team member's socket goes too.
    let mut server = Server::new(boardset());
    full_room(&mut server);
    let eff = server.handle_event(Event { token: 1, kind: EventKind::Close });
    // Alice already left the game itself, so the sockets torn down
    // with the room are the other members'.
    let mut removed = eff.removed.clone();
    removed.sort();
    assert_eq!(removed, vec![2, 3, 4]);
    assert!(server.rooms.is_empty());
    assert!(server.players.is_empty());
}

#[test]
fn non_admin_departure_keeps_the_room() {
    let mut server = Server::new(boardset());
    full_room(&mut server);
    let eff = server.handle_event(Event { token: 4, kind: EventKind::Close });
    assert!(eff.removed.is_empty());
    assert_eq!(server.rooms.len(), 1);
    // The remaining members hear the new roster, and the game fell
    // back to its setup state for want of red players.
    assert_eq!(eff.responses.len(), 3);
    let snap = snapshot(&eff.responses[0].1);
    assert_eq!(snap["state"], "join");
}

#[test]
fn strangers_may_only_open_or_join() {
    let mut server = Server::new(boardset());
    let eff = server.handle_event(req(9, Request::Pass(request::Pass {})));
    let v: serde_json::Value = serde_json::from_slice(&eff.responses[0].1).expect("json");
    assert_eq!(v["response"], "error");
    assert_eq!(v["error"], "forbidden");

    let eff = server.handle_event(req(9, Request::Join(request::Join {
        id: 7,
        name: b"Zoe".to_vec(),
    })));
    let v: serde_json::Value = serde_json::from_slice(&eff.responses[0].1).expect("json");
    assert_eq!(v["error"], "forbidden");
}

#[test]
fn unknown_language_is_reported() {
    let mut server = Server::new(boardset());
    let eff = server.handle_event(req(1, Request::Room(request::Room {
        name: b"Alice".to_vec(),
        language: b"xx".to_vec(),
    })));
    let v: serde_json::Value = serde_json::from_slice(&eff.responses[0].1).expect("json");
    assert_eq!(v["error"], "board error: language 'xx' not found");
    assert!(server.rooms.is_empty());
}

#[test]
fn reset_is_admin_only_and_replaces_the_game() {
    let mut server = Server::new(boardset());
    full_room(&mut server);
    let eff = server.handle_event(req(2, Request::Reset(request::Reset {
        language: b"en".to_vec(),
    })));
    let v: serde_json::Value = serde_json::from_slice(&eff.responses[0].1).expect("json");
    assert_eq!(v["error"], "game error: player is not the admin");

    let eff = server.handle_event(req(1, Request::Reset(request::Reset {
        language: b"en".to_vec(),
    })));
    let snap = snapshot(&eff.responses[0].1);
    assert_eq!(snap["state"], "team");
    assert_eq!(snap["game"]["blue"]["players"].as_array().expect("array").len(), 0);
}

#[test]
fn snapshot_roundtrips_through_serde() {
    // The snapshot the library prints parses back, through an outside
    // JSON reader and through the library's own, to the same fields.
    let mut server = Server::new(boardset());
    full_room(&mut server);
    let eff = server.handle_event(req(1, Request::Hint(request::Hint {
        hint: b"ocean".to_vec(),
        guesses: 2,
    })));
    let payload = &eff.responses[0].1;
    let outside: serde_json::Value = serde_json::from_slice(payload).expect("valid json");
    let inside = codenames::json::parse_text(payload).expect("own parse");
    assert_eq!(codenames::json::to_bytes(&inside), payload.clone());
    assert_eq!(outside["room"]["game"]["blue"]["hint"], "ocean");
    let words = &outside["room"]["game"]["board"]["words"];
    let mut seen: Vec<String> = Vec::new();
    for r in 0..5 {
        for c in 0..5 {
            seen.push(words[r][c].as_str().expect("word").to_string());
        }
    }
    seen.sort();
    let expected: Vec<String> = (0..25).map(|i| format!("w{:02}", i)).collect();
    assert_eq!(seen, expected);
}

#[test]
fn board_file_parses_and_rejects() {
    let good = br#"{
        "words": {"en": ["a","b","c","d","e","f","g","h","i","j","k","l","m",
                          "n","o","p","q","r","s","t","u","v","w","x","y"]},
        "tiles": [[["blue","blue","blue","blue","blue"],
                   ["blue","blue","blue","blue","red"],
                   ["red","red","red","red","red"],
                   ["red","red","neutral","neutral","neutral"],
                   ["neutral","neutral","neutral","neutral","death"]]]
    }"#;
    let bs = parse_board_set(good).expect("well-formed board file");
    assert_eq!(bs.words.len(), 1);
    assert_eq!(bs.words[0].0, b"en".to_vec());
    assert_eq!(bs.words[0].1.len(), 25);
    assert_eq!(bs.tiles.len(), 1);
    assert_eq!(bs.tiles[0].len(), 25);
    assert_eq!(bs.tiles[0][24], Tile::Death);

    // Too few words.
    let short = br#"{"words": {"en": ["a"]}, "tiles": [[["blue","blue","blue","blue","blue"],
        ["blue","blue","blue","blue","red"],["red","red","red","red","red"],
        ["red","red","neutral","neutral","neutral"],
        ["neutral","neutral","neutral","neutral","death"]]]}"#;
    assert!(parse_board_set(short).is_none());
    // No tile maps.
    assert!(parse_board_set(b"{\"words\":{},\"tiles\":[]}").is_none());
    // Unknown tile word.
    let bad = br#"{"words": {"en": ["a","b","c","d","e","f","g","h","i","j","k","l","m",
        "n","o","p","q","r","s","t","u","v","w","x","y"]},
        "tiles": [[["pink","blue","blue","blue","blue"],
        ["blue","blue","blue","blue","red"],["red","red","red","red","red"],
        ["red","red","neutral","neutral","neutral"],
        ["neutral","neutral","neutral","neutral","death"]]]}"#;
    assert!(parse_board_set(bad).is_none());
}

#[test]
fn rooms_are_independent() {
    let mut server = Server::new(boardset());
    server.handle_event(req(1, Request::Room(request::Room {
        name: b"Alice".to_vec(),
        language: b"en".to_vec(),
    })));
    server.handle_event(req(2, Request::Room(request::Room {
        name: b"Zoe".to_vec(),
        language: b"en".to_vec(),
    })));
    assert_eq!(server.rooms.len(), 2);
    assert_ne!(server.rooms[0].0, server.rooms[1].0);
    // A join into the second room reaches only it.
    let id2 = server.rooms[1].0;
    let eff = server.handle_event(req(3, Request::Join(request::Join {
        id: id2,
        name: b"Max".to_vec(),
    })));
    assert_eq!(eff.responses.len(), 2);
    let snap = snapshot(&eff.responses[0].1);
    assert_eq!(names(&snap["players"]), vec!["Zoe", "Max"]);
}
