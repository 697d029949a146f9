use reprise::sync::new_games_label;
use reprise::library::empty_library;
use reprise::models::{Game, Settings, UtcTime};
use reprise::sync::{
    find_two, header_get, months_newest_first, network_available, parse_game_url, parse_header_line,
    parse_pgn_headers, record_from_pub_api, regex_lite_game_url, settings_username, sync_message,
    sync_username, ApiGame, RecordFate, SyncState, EARLY_SYNC_BATCH,
};

const PGN: &str = "[Event \"Live Chess\"]\n[White \"Alice\"]\n[Black \"Bob\"]\n[Result \"0-1\"]\n[WhiteElo \"1500\"]\n[ECO \"C20\"]\n\n1. e4 e5 2. Qh5 Nc6 3. Bc4 Nf6 4. Qxf7# 0-1\n";

fn api(url: &str) -> ApiGame {
    ApiGame {
        url: Some(url.to_string()),
        pgn: Some(PGN.to_string()),
        white_username: Some("alice".to_string()),
        black_username: Some("bob".to_string()),
        white_rating: Some(1490),
        black_rating: Some(1510),
        end_time: Some(1_700_000_000),
        time_control: Some("600".to_string()),
    }
}

#[test]
fn probe_counts_success_and_not_found() {
    assert!(network_available(Some(200)));
    assert!(network_available(Some(404)));
    assert!(!network_available(Some(500)));
    assert!(!network_available(None));
}

#[test]
fn pgn_headers_parse() {
    assert_eq!(
        parse_header_line("[White \"Alice\"]"),
        Some(("White".to_string(), "Alice".to_string()))
    );
    assert_eq!(parse_header_line("1. e4"), None);
    let h = parse_pgn_headers(PGN);
    assert_eq!(header_get(&h, "Black").map(|s| s.as_str()), Some("Bob"));
    assert_eq!(header_get(&h, "Site"), None);
}

#[test]
fn game_urls_name_type_and_id() {
    let live = Some(("live".to_string(), "123".to_string()));
    assert_eq!(parse_game_url("https://www.chess.com/game/live/123"), live);
    assert_eq!(regex_lite_game_url("https://www.chess.com/game/daily/77x"), Some(("daily".to_string(), "77".to_string())));
    assert_eq!(find_two("https://www.chess.com/game/456", "/game/"), Some(("live".to_string(), "456".to_string())));
    assert_eq!(parse_game_url("https://www.chess.com/member/bob"), None);
}

#[test]
fn archive_entry_becomes_a_record() {
    let now = UtcTime { secs: 5, nanos: 0 };
    let g = record_from_pub_api(&api("https://www.chess.com/game/live/42"), "ALICE", now).unwrap();
    assert_eq!(g.id, "42");
    assert_eq!(g.game_type, "live");
    assert_eq!(g.white, "Alice");
    assert_eq!(g.user_color.as_deref(), Some("white"));
    assert_eq!(g.opponent.as_deref(), Some("Bob"));
    assert_eq!(g.white_elo, Some(1500));
    assert_eq!(g.black_elo, Some(1510));
    assert_eq!(g.result.as_deref(), Some("0-1"));
    assert_eq!(g.time_control.as_deref(), Some("600"));
    assert_eq!(g.played_at, Some(UtcTime { secs: 1_700_000_000, nanos: 0 }));
    assert_eq!(g.end_ply, Some(7));
    assert_eq!(g.end_uci.as_deref(), Some("h5f7"));
    assert!(!g.reviewed);
    let mut no_pgn = api("https://www.chess.com/game/live/42");
    no_pgn.pgn = None;
    assert!(record_from_pub_api(&no_pgn, "alice", now).is_none());
    assert!(record_from_pub_api(&api("https://example.com/x"), "alice", now).is_none());
}

fn record(id: &str) -> Game {
    record_from_pub_api(&api(&format!("https://www.chess.com/game/live/{id}")), "alice", UtcTime { secs: 0, nanos: 0 }).unwrap()
}

#[test]
fn sync_imports_each_game_once() {
    let mut lib = empty_library("db.json".to_string());
    lib.games.push(record("1"));
    let mut st = SyncState::new(&lib);
    st.start_month();
    assert_eq!(st.accept(&mut lib, Some(record("1"))), RecordFate::Known);
    assert_eq!(st.accept(&mut lib, Some(record("2"))), RecordFate::Imported);
    assert_eq!(st.accept(&mut lib, Some(record("2"))), RecordFate::Known);
    assert_eq!(st.accept(&mut lib, None), RecordFate::Unreadable);
    assert_eq!(lib.games.len(), 2);
    assert_eq!((st.imported, st.skipped, st.fetched), (1, 2, 4));
    assert!(!st.month_caught_up());
    st.start_month();
    assert_eq!(st.accept(&mut lib, Some(record("1"))), RecordFate::Known);
    assert!(st.month_caught_up());
    assert!(!st.wants_early_flush());
    for i in 10..(10 + EARLY_SYNC_BATCH) {
        st.accept(&mut lib, Some(record(&i.to_string())));
    }
    assert!(st.wants_early_flush());
    st.mark_early_sent();
    assert!(!st.wants_early_flush());
}

#[test]
fn sync_user_and_messages() {
    let mut s = Settings::new();
    assert_eq!(sync_username(&s), None);
    s.my_username = Some("  ".to_string());
    assert_eq!(sync_username(&s), None);
    assert_eq!(settings_username(&s), Some("  "));
    s.my_username = Some("bob".to_string());
    assert_eq!(sync_username(&s).as_deref(), Some("bob"));
    assert_eq!(sync_message(2, 3, 5), "Synced 2 new \u{b7} 3 known \u{b7} 5 scanned");
    assert_eq!(sync_message(0, 3, 3), "Up to date \u{b7} 3 known \u{b7} 3 scanned");
}

#[test]
fn archive_months_newest_first() {
    let urls = vec![
        "https://api.chess.com/pub/player/bob/games/2024/01".to_string(),
        "https://api.chess.com/pub/player/bob/games/2024/03".to_string(),
        "https://api.chess.com/pub/player/bob/games/2023/12".to_string(),
    ];
    let r = months_newest_first(urls);
    assert!(r[0].ends_with("2024/03"));
    assert!(r[1].ends_with("2024/01"));
    assert!(r[2].ends_with("2023/12"));
}

#[test]
fn new_game_notices() {
    assert_eq!(new_games_label(1), "1 new game");
    assert_eq!(new_games_label(3), "3 new games");
    assert_eq!(new_games_label(0), "0 new games");
}
