use reprise::engine::{choose_stockfish, StockfishPick};
use reprise::engine::{
    centipawn_loss, classify_loss, format_score, is_bestmove_line, is_pv_info_line, keep_deepest,
    parse_info_line, pool_config_for, score_to_cp, PvTable, Score, ScoreKind,
};

fn cp(v: i32) -> Score {
    Score { kind: ScoreKind::Cp, value: v }
}

fn mate(v: i32) -> Score {
    Score { kind: ScoreKind::Mate, value: v }
}

#[test]
fn info_lines_parse() {
    let l = parse_info_line("info depth 18 seldepth 24 multipv 2 score cp -35 nodes 1000 pv e2e4 e7e5 g1f3").unwrap();
    assert_eq!(l.depth, Some(18));
    assert_eq!(l.multipv, 2);
    assert_eq!(l.score, cp(-35));
    assert_eq!(l.pv, vec!["e2e4", "e7e5", "g1f3"]);
    let m = parse_info_line("info depth 5 score mate 3 pv d1h5").unwrap();
    assert_eq!(m.score, mate(3));
    assert_eq!(m.multipv, 1);
    assert!(parse_info_line("info depth 5 nodes 10").is_none());
    assert!(parse_info_line("info depth 5 score cp").is_none());
    assert!(is_pv_info_line("info depth 3 score cp 10 pv e2e4"));
    assert!(!is_pv_info_line("info string hello"));
    assert!(is_bestmove_line("bestmove e2e4 ponder e7e5"));
}

#[test]
fn scores_and_losses() {
    assert_eq!(score_to_cp(&mate(2)), 99_998);
    assert_eq!(score_to_cp(&mate(-1)), -99_999);
    assert_eq!(format_score(Some(&cp(35)), "w"), "+0.35");
    assert_eq!(format_score(Some(&cp(35)), "b"), "-0.35");
    assert_eq!(format_score(Some(&cp(0)), "w"), "0.00");
    assert_eq!(format_score(Some(&mate(3)), "b"), "M-3");
    assert_eq!(format_score(None, "w"), "\u{2014}");
    assert_eq!(centipawn_loss(Some(&cp(50)), Some(&cp(-20))), 70);
    assert_eq!(centipawn_loss(Some(&cp(-20)), Some(&cp(50))), 0);
    assert_eq!(centipawn_loss(None, Some(&cp(50))), 0);
}

#[test]
fn loss_grades() {
    assert_eq!(classify_loss(10, None, None), "best");
    assert_eq!(classify_loss(25, None, None), "excellent");
    assert_eq!(classify_loss(50, None, None), "good");
    assert_eq!(classify_loss(100, None, None), "inaccuracy");
    assert_eq!(classify_loss(300, None, None), "mistake");
    assert_eq!(classify_loss(301, None, None), "blunder");
    assert_eq!(classify_loss(300, Some(&mate(2)), Some(&cp(500))), "blunder");
    assert_eq!(classify_loss(150, Some(&cp(0)), Some(&mate(-4))), "mistake");
    assert_eq!(classify_loss(250, Some(&cp(0)), Some(&mate(-4))), "blunder");
}

#[test]
fn pv_table_keeps_deepest_line_per_rank() {
    let mut t = PvTable::new();
    t.observe("info depth 10 multipv 2 score cp 5 pv d2d4");
    t.observe("info depth 10 multipv 1 score cp 20 pv e2e4");
    t.observe("info depth 12 multipv 1 score cp 25 pv e2e4 e7e5");
    t.observe("info depth 11 multipv 1 score cp 99 pv a2a3");
    t.observe("bestmove e2e4");
    let lines = t.into_lines().lines;
    assert_eq!(lines.len(), 2);
    assert_eq!(lines[0].multipv, 1);
    assert_eq!(lines[0].depth, Some(12));
    assert_eq!(lines[0].pv, vec!["e2e4", "e7e5"]);
    assert_eq!(lines[1].multipv, 2);
}

#[test]
fn deepest_single_line() {
    let a = keep_deepest(None, "info depth 8 score cp 10 pv e2e4");
    let b = keep_deepest(a, "info depth 7 score cp 40 pv d2d4");
    assert_eq!(b.as_ref().unwrap().depth, Some(8));
    let c = keep_deepest(b, "info depth 9 score cp 12 pv g1f3");
    assert_eq!(c.as_ref().unwrap().pv, vec!["g1f3"]);
    let d = keep_deepest(c, "info string nothing");
    assert_eq!(d.unwrap().depth, Some(9));
}

#[test]
fn pool_size_by_cpus() {
    let small = pool_config_for(2);
    assert_eq!(small.workers, 2);
    let big = pool_config_for(48);
    assert_eq!(big.workers, 8);
    assert_eq!(big.hash_mb, 256);
}

#[test]
fn stockfish_found_in_order() {
    assert_eq!(choose_stockfish(true, true, &vec![true]), StockfishPick::FromEnv);
    assert_eq!(choose_stockfish(false, true, &vec![true]), StockfishPick::Bundled);
    assert_eq!(choose_stockfish(false, false, &vec![false, true, true]), StockfishPick::OnPath(1));
    assert_eq!(choose_stockfish(false, false, &vec![false]), StockfishPick::Missing);
}
