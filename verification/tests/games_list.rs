use reprise::games_list::{
    build_list_model, game_row_label, jump_section, matches_query, more_label, next_walk_row,
    select_after_rebuild, selected_key, shown_for, step_walk, Heading, ListRow, RebuildMode, Section,
    WalkStep,
};
use reprise::models::{Game, UtcTime};

fn game(id: &str, reviewed: bool) -> Game {
    Game {
        id: id.to_string(),
        game_type: "live".to_string(),
        url: None,
        white: "me".to_string(),
        black: format!("opp{id}"),
        white_elo: None,
        black_elo: None,
        result: Some("1-0".to_string()),
        time_control: Some("600".to_string()),
        eco: Some("C20".to_string()),
        termination: None,
        played_at: None,
        user_color: Some("white".to_string()),
        opponent: Some(format!("Opp{id}")),
        my_username: Some("me".to_string()),
        pgn: String::new(),
        end_fen: None,
        end_ply: None,
        end_uci: None,
        has_analysis: false,
        reviewed,
        analysis: None,
    }
}

fn games(n: usize) -> Vec<Game> {
    (0..n).map(|i| game(&format!("{i}"), i % 3 == 0)).collect()
}

#[test]
fn query_matches_players_and_opening() {
    let g = game("1", false);
    assert!(matches_query(&g, ""));
    assert!(matches_query(&g, "opp1"));
    assert!(matches_query(&g, "c20"));
    assert!(!matches_query(&g, "sicilian"));
}

#[test]
fn unfiltered_list_has_three_sections() {
    let gs = games(10);
    let m = build_list_model(&gs, "  ", RebuildMode::Reset, 0);
    assert_eq!(m.query, "");
    assert_eq!(m.all_ids.len(), 10);
    assert_eq!(m.all_shown, 10);
    assert_eq!(m.rows[0], ListRow::Header { title: Heading::RecentlyReviewed });
    // Reviewed games are 0, 3, 6, 9: only three are shown.
    assert_eq!(m.rows[1], ListRow::Game { lib_idx: 0, section: Section::Reviewed });
    assert_eq!(m.rows[3], ListRow::Game { lib_idx: 6, section: Section::Reviewed });
    assert_eq!(m.rows[4], ListRow::Header { title: Heading::Recent });
    assert_eq!(m.rows[5], ListRow::Game { lib_idx: 1, section: Section::Recent });
    let all_header = 4 + 1 + 6;
    assert_eq!(m.rows[all_header], ListRow::Header { title: Heading::AllGames });
    assert_eq!(m.rows.len(), all_header + 1 + 10);
    assert!(!m.walk.contains(&0));
    assert_eq!(m.walk.len(), 3 + 6 + 10);
    assert_eq!(Heading::RecentlyReviewed.label(), "Recently reviewed");
}

#[test]
fn filtered_list_shows_matches_only() {
    let gs = games(10);
    let m = build_list_model(&gs, " OPP7 ", RebuildMode::Reset, 0);
    assert_eq!(m.query, "opp7");
    assert_eq!(m.all_ids, vec![7]);
    assert_eq!(m.rows, vec![
        ListRow::Header { title: Heading::Matches },
        ListRow::Game { lib_idx: 7, section: Section::All },
    ]);
    assert_eq!(m.walk, vec![1]);
}

#[test]
fn paging_loads_forty_more_at_a_time() {
    assert_eq!(shown_for(RebuildMode::Reset, 0, 100), 40);
    assert_eq!(shown_for(RebuildMode::LoadMore, 40, 100), 80);
    assert_eq!(shown_for(RebuildMode::LoadMore, 80, 100), 100);
    assert_eq!(shown_for(RebuildMode::Soft, 80, 100), 80);
    assert_eq!(shown_for(RebuildMode::Soft, 10, 100), 40);
    assert_eq!(shown_for(RebuildMode::Reset, 0, 7), 7);
    let gs = games(50);
    let m = build_list_model(&gs, "", RebuildMode::Reset, 0);
    assert_eq!(m.all_shown, 40);
    assert_eq!(*m.rows.last().unwrap(), ListRow::More { section: Section::All });
    let m2 = build_list_model(&gs, "", RebuildMode::LoadMore, m.all_shown);
    assert_eq!(m2.all_shown, 50);
    assert!(!matches!(m2.rows.last().unwrap(), ListRow::More { .. }));
}

#[test]
fn walk_down_then_up_returns() {
    let walk = vec![1, 2, 3, 5, 6];
    assert_eq!(next_walk_row(&walk, 3, 1), Some(5));
    assert_eq!(next_walk_row(&walk, 5, -1), Some(3));
    assert_eq!(next_walk_row(&walk, 6, 1), Some(1));
    assert_eq!(next_walk_row(&walk, 1, -1), Some(6));
    // From a row not in the walk the step starts at its first row.
    assert_eq!(next_walk_row(&walk, 0, 1), Some(2));
    assert_eq!(next_walk_row(&vec![], 0, 1), None);
}

#[test]
fn row_label_marks_and_dates() {
    let mut g = game("3", false);
    g.played_at = Some(UtcTime { secs: 0, nanos: 0 });
    let (text, spinning) = game_row_label(&g, &None);
    assert_eq!(text, "\u{b7}  01 Jan  \u{b7}  vs Opp3  \u{b7}  1-0");
    assert!(!spinning);
    g.reviewed = true;
    g.opponent = None;
    g.result = None;
    let key = Some(("3".to_string(), "live".to_string()));
    let (text, spinning) = game_row_label(&g, &key);
    assert_eq!(text, "\u{2713}  01 Jan  \u{b7}  vs Opp  \u{b7}  \u{2014}");
    assert!(spinning);
    g.reviewed = false;
    g.has_analysis = true;
    g.played_at = None;
    let (text, _) = game_row_label(&g, &None);
    assert_eq!(text, "\u{25c7}  \u{2014}  \u{b7}  vs Opp  \u{b7}  \u{2014}");
    assert_eq!(more_label(12), "\u{2193}  load more (12 left)");
}

#[test]
fn selection_after_rebuild_and_sections() {
    let gs = games(50);
    let m = build_list_model(&gs, "", RebuildMode::LoadMore, 40);
    // After "load more" the first game of the last page (the last forty shown) is
    // selected.
    let sel = select_after_rebuild(&m, &gs, true, &None).unwrap();
    assert_eq!(m.rows[sel], ListRow::Game { lib_idx: 10, section: Section::All });
    // Otherwise the game selected before.
    let key = Some(("4".to_string(), "live".to_string()));
    let sel = select_after_rebuild(&m, &gs, false, &key).unwrap();
    assert_eq!(m.rows[sel], ListRow::Game { lib_idx: 4, section: Section::Recent });
    assert_eq!(selected_key(&m, &gs, Some(sel)), key);
    // Failing both, the first row of the walk.
    let gone = Some(("x".to_string(), "live".to_string()));
    assert_eq!(select_after_rebuild(&m, &gs, false, &gone), Some(m.walk[0]));
    // Jumping to a section lands on its first row.
    let r = jump_section(&m, Section::Recent).unwrap();
    assert_eq!(m.rows[r], ListRow::Game { lib_idx: 1, section: Section::Recent });
}

#[test]
fn stepping_past_load_more_loads_more() {
    let gs = games(50);
    let m = build_list_model(&gs, "", RebuildMode::Reset, 0);
    let more = m.rows.len() - 1;
    assert_eq!(step_walk(&m, more, 1), WalkStep::LoadMore);
    assert_eq!(step_walk(&m, more, -1), WalkStep::Select(more - 1));
    // The game above "load more" is the key kept for it.
    let above = match m.rows[more - 1] {
        ListRow::Game { lib_idx, .. } => lib_idx,
        _ => panic!("expected a game row"),
    };
    assert_eq!(
        selected_key(&m, &gs, Some(more)),
        Some((gs[above].id.clone(), "live".to_string()))
    );
    assert_eq!(selected_key(&m, &gs, Some(0)), None);
}

#[test]
fn blank_query_is_empty_and_ascii_query_lowered() {
    let gs: Vec<Game> = Vec::new();
    assert_eq!(build_list_model(&gs, "   ", RebuildMode::Reset, 0).query, "");
    assert_eq!(build_list_model(&gs, " OpP ", RebuildMode::Reset, 0).query, "opp");
}
