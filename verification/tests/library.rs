use reprise::library::games_to_append;
use reprise::library::{
    empty_library, index_games, index_path_for, lite_games, load_analyses_for, load_game_analysis, sorted_games,
    StoredAnalysis,
};
use reprise::models::{AnalyzedMove, Game, GameAnalysis, UtcTime};

fn game(id: &str, secs: Option<i64>) -> Game {
    Game {
        id: id.to_string(),
        game_type: "live".to_string(),
        url: None,
        white: "a".to_string(),
        black: "b".to_string(),
        white_elo: None,
        black_elo: None,
        result: None,
        time_control: None,
        eco: None,
        termination: None,
        played_at: secs.map(|s| UtcTime { secs: s, nanos: 0 }),
        user_color: None,
        opponent: None,
        my_username: None,
        pgn: "1. e4 e5 2. Nf3 *".to_string(),
        end_fen: None,
        end_ply: None,
        end_uci: None,
        has_analysis: false,
        reviewed: false,
        analysis: None,
    }
}

fn analysis(n: u32) -> GameAnalysis {
    let moves = (1..=n)
        .map(|p| AnalyzedMove {
            ply: p,
            san: "e4".to_string(),
            uci: None,
            color: "white".to_string(),
            fen_before: String::new(),
            fen_after: String::new(),
            classification: "best".to_string(),
            loss_cp: None,
            eval_played_text: None,
            eval_before_best_text: None,
            eval_white_best: None,
            eval_white_played: None,
            best_moves: vec![],
            teaching: None,
            ideal_after_played: None,
        })
        .collect();
    GameAnalysis { engine: None, depth: Some(n), analyzed_at: None, moves }
}

fn ids(gs: &[Game]) -> Vec<String> {
    gs.iter().map(|g| g.id.clone()).collect()
}

#[test]
fn newest_games_first_undated_last() {
    let gs = vec![game("a", Some(10)), game("b", None), game("c", Some(30)), game("d", Some(10))];
    let sorted = sorted_games(gs);
    assert_eq!(ids(&sorted), vec!["c", "a", "d", "b"]);
    let mut lib = empty_library("db.json".to_string());
    lib.games = vec![game("x", Some(1)), game("y", Some(2))];
    lib.sort_newest_first();
    assert_eq!(ids(&lib.games), vec!["y", "x"]);
}

#[test]
fn index_path_sits_beside_the_database() {
    assert_eq!(index_path_for("data/db.json"), "data/db-index.json");
    assert_eq!(index_path_for("db.json"), "db-index.json");
}

#[test]
fn marking_reviewed_twice_changes_once() {
    let mut lib = empty_library("db.json".to_string());
    lib.games = vec![game("a", None), game("b", None), game("b", None)];
    assert!(lib.mark_reviewed("b", "live"));
    assert!(!lib.mark_reviewed("b", "live"));
    assert!(lib.games[1].reviewed);
    assert!(!lib.games[2].reviewed);
    assert!(!lib.mark_reviewed("zz", "live"));
    assert_eq!(lib.find("b", "live").map(|g| g.reviewed), Some(true));
    assert!(lib.find("b", "daily").is_none());
}

#[test]
fn open_games_analysed_first() {
    let mut lib = empty_library("db.json".to_string());
    let mut b = game("b", None);
    b.has_analysis = true;
    lib.games = vec![game("a", None), b, game("c", None)];
    assert_eq!(lib.still_open(2).iter().map(|g| g.id.clone()).collect::<Vec<_>>(), vec!["b", "a"]);
    assert_eq!(lib.recent(2).len(), 2);
    let un = lib.unanalyzed_ids();
    assert_eq!(un, vec![("a".to_string(), "live".to_string()), ("c".to_string(), "live".to_string())]);
    assert!(lib.mark_analyzed("a", "live"));
    assert!(lib.games[0].has_analysis);
    assert_eq!(lib.unanalyzed_ids().len(), 1);
}

#[test]
fn end_positions_filled_from_pgn() {
    let mut lib = empty_library("db.json".to_string());
    lib.games = vec![game("a", None)];
    assert_eq!(lib.backfill_end_positions(), 1);
    assert_eq!(lib.games[0].end_ply, Some(3));
    assert_eq!(lib.games[0].end_uci.as_deref(), Some("g1f3"));
    assert!(lib.games[0].end_fen.is_some());
    assert_eq!(lib.backfill_end_positions(), 0);
}

#[test]
fn index_rows_drop_analysis_keep_flag() {
    let mut a = game("a", None);
    a.analysis = Some(analysis(2));
    let mut b = game("b", None);
    b.analysis = Some(analysis(0));
    b.has_analysis = true;
    let rows = index_games(vec![a.clone(), b]);
    // Only the analysis goes; the flag is written as it is.
    assert!(!rows[0].has_analysis && rows[0].analysis.is_none());
    assert!(rows[1].has_analysis && rows[1].analysis.is_none());
    assert_eq!(rows[0].pgn, a.pgn);
}

#[test]
fn database_rows_marked_by_analysis_presence() {
    let mut a = game("a", None);
    a.analysis = Some(analysis(0));
    let b = game("b", None);
    let rows = lite_games(vec![a, b]);
    assert!(rows[0].has_analysis && rows[0].analysis.is_none());
    assert!(!rows[1].has_analysis);
}

#[test]
fn stored_analyses_found_by_key() {
    let stored = || {
        vec![
            StoredAnalysis { id: "a".to_string(), game_type: "live".to_string(), analysis: Some(analysis(0)) },
            StoredAnalysis { id: "a".to_string(), game_type: "live".to_string(), analysis: Some(analysis(3)) },
            StoredAnalysis { id: "b".to_string(), game_type: "live".to_string(), analysis: Some(analysis(1)) },
            StoredAnalysis { id: "a".to_string(), game_type: "live".to_string(), analysis: Some(analysis(4)) },
        ]
    };
    assert_eq!(load_game_analysis(stored(), "a", "live").unwrap().moves.len(), 3);
    assert!(load_game_analysis(stored(), "c", "live").is_none());
    let keys = vec![("a".to_string(), "live".to_string()), ("b".to_string(), "live".to_string())];
    let found = load_analyses_for(stored(), &keys);
    assert_eq!(found.len(), 2);
    assert_eq!(found[0].id, "a");
    assert_eq!(found[0].analysis.moves.len(), 3);
    assert_eq!(found[1].id, "b");
}

#[test]
fn analyze_jobs_and_review_marks() {
    let mut lib = empty_library("db.json".to_string());
    let mut a = game("a", Some(2));
    a.has_analysis = true;
    lib.games = vec![game("n", Some(3)), a, game("c", Some(1))];
    let jobs = lib.unanalyzed_jobs();
    assert_eq!(jobs.len(), 2);
    assert_eq!(jobs[0], ("n".to_string(), "live".to_string(), "1. e4 e5 2. Nf3 *".to_string()));
    assert_eq!(lib.newest_unanalyzed().map(|j| j.0), Some("n".to_string()));
    // Only an analysed game is marked reviewed.
    assert!(!lib.mark_reviewed_if_analyzed("n", "live"));
    assert!(!lib.games[0].reviewed);
    assert!(lib.mark_reviewed_if_analyzed("a", "live"));
    assert!(!lib.mark_reviewed_if_analyzed("a", "live"));
    lib.games.swap(0, 1);
    assert_eq!(lib.newest_unanalyzed(), None);
}

#[test]
fn preview_uses_index_or_replays_once() {
    let mut lib = empty_library("db.json".to_string());
    let mut kept = game("k", None);
    kept.end_fen = Some("kept fen".to_string());
    kept.end_ply = Some(9);
    kept.end_uci = Some("a2a3".to_string());
    lib.games = vec![kept, game("r", None)];
    let t = lib.preview_tail(0).unwrap();
    assert_eq!((t.fen.as_str(), t.ply, t.last_uci.as_deref()), ("kept fen", 9, Some("a2a3")));
    let t = lib.preview_tail(1).unwrap();
    assert_eq!(t.ply, 3);
    assert_eq!(t.last_uci.as_deref(), Some("g1f3"));
    assert_eq!(lib.games[1].end_ply, Some(3));
    assert_eq!(lib.games[1].end_fen.as_deref(), Some(t.fen.as_str()));
    assert!(lib.preview_tail(2).is_none());
}

#[test]
fn only_unknown_keys_are_appended() {
    let stored = vec![("1".to_string(), "live".to_string()), ("2".to_string(), "daily".to_string())];
    let new_games = vec![game("1", None), game("2", None), game("3", None), game("3", None)];
    // "2" is stored as a daily game only; both copies of "3" go in, as the database held neither.
    assert_eq!(games_to_append(&stored, &new_games), vec![1, 2, 3]);
    assert_eq!(games_to_append(&stored, &Vec::new()), Vec::<usize>::new());
}
