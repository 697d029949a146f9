use reprise::models::{color_is_mine, default_version, opt_time_is_before, AnalyzedMove, Game, GameAnalysis, UtcTime};

fn mv(ply: u32, color: &str, class: &str, loss: i32) -> AnalyzedMove {
    AnalyzedMove {
        ply,
        san: format!("m{ply}"),
        uci: None,
        color: color.to_string(),
        fen_before: String::new(),
        fen_after: String::new(),
        classification: class.to_string(),
        loss_cp: Some(loss),
        eval_played_text: None,
        eval_before_best_text: None,
        eval_white_best: None,
        eval_white_played: None,
        best_moves: vec![],
        teaching: None,
        ideal_after_played: None,
    }
}

fn game(moves: Vec<AnalyzedMove>, color: Option<&str>, result: Option<&str>) -> Game {
    Game {
        id: "1".to_string(),
        game_type: "live".to_string(),
        url: None,
        white: "w".to_string(),
        black: "b".to_string(),
        white_elo: None,
        black_elo: None,
        result: result.map(|r| r.to_string()),
        time_control: None,
        eco: None,
        termination: None,
        played_at: None,
        user_color: color.map(|c| c.to_string()),
        opponent: None,
        my_username: None,
        pgn: String::new(),
        end_fen: None,
        end_ply: None,
        end_uci: None,
        has_analysis: false,
        reviewed: false,
        analysis: Some(GameAnalysis { engine: None, depth: None, analyzed_at: None, moves }),
    }
}

#[test]
fn pivotal_moments_are_the_five_costliest_in_ply_order() {
    let moves = vec![
        mv(1, "white", "inaccuracy", 60),
        mv(2, "black", "blunder", 900),
        mv(3, "white", "mistake", 200),
        mv(5, "white", "blunder", 400),
        mv(7, "white", "inaccuracy", 50),
        mv(9, "white", "mistake", 150),
        mv(11, "white", "inaccuracy", 70),
        mv(13, "white", "best", 0),
    ];
    let g = game(moves, Some("white"), Some("1-0"));
    let plies: Vec<u32> = g.pivotal_moments().iter().map(|m| m.ply).collect();
    assert_eq!(plies, vec![1, 3, 5, 9, 11]);
    assert_eq!(g.pivotal_indices(), vec![0, 2, 3, 5, 6]);
    let black = game(vec![mv(2, "b", "blunder", 900)], Some("black"), None);
    assert_eq!(black.pivotal_moments().len(), 1);
}

#[test]
fn titles_and_outcomes() {
    let mut g = game(vec![], Some("black"), Some("1-0"));
    assert_eq!(g.title(), "w vs b");
    assert_eq!(g.outcome_for_user(), "lost");
    g.opponent = Some("w".to_string());
    assert_eq!(g.title(), "vs w");
    g.result = Some("1/2-1/2".to_string());
    assert_eq!(g.outcome_for_user(), "drew");
    g.result = None;
    assert_eq!(g.outcome_for_user(), "\u{2014}");
    assert!(!g.is_analyzed());
    g.has_analysis = true;
    assert!(g.is_analyzed());
}

#[test]
fn colours_and_instants() {
    assert!(color_is_mine("w", None));
    assert!(color_is_mine("black", Some("b")));
    assert!(!color_is_mine("white", Some("b")));
    assert!(color_is_mine("black", Some("black")));
    let a = Some(UtcTime { secs: 1, nanos: 5 });
    let b = Some(UtcTime { secs: 1, nanos: 6 });
    assert!(opt_time_is_before(a, b));
    assert!(!opt_time_is_before(b, a));
    assert!(opt_time_is_before(None, a));
    assert!(!opt_time_is_before(a, None));
    assert_eq!(default_version(), 1);
}
