use reprise::playback::VariationKind;
use reprise::session::{
    badge_text, on_analysis_loaded, on_background, AutoAnalyze, BadgeNote, BenchAction, BenchKey, BenchKeys, BenchView,
    BgEvent, LibraryUpdate, LoadAction, LoadMsg, LoadOutcome, LoaderState, Notice, Page, StatusNote, SyncUiState,
};

fn loader() -> LoaderState {
    LoaderState {
        load_gen: 4,
        current: Some(("g1".to_string(), "live".to_string())),
        status_gen: 9,
        analyzing: false,
        sync: SyncUiState::UpToDate,
    }
}

fn msg(load_gen: u64, id: &str, outcome: LoadOutcome) -> LoadMsg {
    LoadMsg { load_gen, id: id.to_string(), game_type: "live".to_string(), status_token: 9, outcome }
}

#[test]
fn stale_loads_are_dropped() {
    let st = loader();
    assert_eq!(on_analysis_loaded(&st, &msg(3, "g1", LoadOutcome::Loaded)), LoadAction::Drop);
    assert_eq!(on_analysis_loaded(&st, &msg(4, "g2", LoadOutcome::Loaded)), LoadAction::Drop);
}

#[test]
fn loads_show_the_game_and_take_a_free_badge() {
    let mut st = loader();
    assert_eq!(
        on_analysis_loaded(&st, &msg(4, "g1", LoadOutcome::Loaded)),
        LoadAction::Show { store: true, badge: Some(BadgeNote::Hide) }
    );
    assert_eq!(
        on_analysis_loaded(&st, &msg(4, "g1", LoadOutcome::NotStored)),
        LoadAction::Show { store: false, badge: Some(BadgeNote::NoAnalysisStored) }
    );
    st.sync = SyncUiState::Syncing;
    assert_eq!(
        on_analysis_loaded(&st, &msg(4, "g1", LoadOutcome::Failed)),
        LoadAction::Show { store: false, badge: None }
    );
    assert_eq!(badge_text(BadgeNote::LoadFailed), "Failed to load analysis");
    assert_eq!(badge_text(BadgeNote::NoAnalysisStored), "No analysis stored");
}

fn view(page: Page) -> BenchView {
    BenchView { page, analyzing: false, current: Some(("g1".to_string(), "live".to_string())) }
}

#[test]
fn launch_library_does_not_start_analysis() {
    let p = on_background(&view(Page::Playbench), &BgEvent::LibraryReady);
    assert_eq!(p.library, LibraryUpdate::Replace);
    assert_eq!(p.sync_state, Some(SyncUiState::Syncing));
    assert_eq!(p.auto_analyze, AutoAnalyze::No);
}

#[test]
fn sync_results_decide_analysis_and_status() {
    let v = view(Page::Library);
    let none = on_background(&v, &BgEvent::SyncFinished { imported: 0, offline: false });
    assert_eq!(none.library, LibraryUpdate::UpdateOnly);
    assert_eq!(none.status, StatusNote::UpToDate);
    assert_eq!(none.auto_analyze, AutoAnalyze::No);
    assert!(none.refresh_library_page);
    let some = on_background(&v, &BgEvent::SyncFinished { imported: 3, offline: false });
    assert_eq!(some.status, StatusNote::NewGames(3));
    assert_eq!(some.auto_analyze, AutoAnalyze::Now);
    let off = on_background(&v, &BgEvent::SyncFinished { imported: 0, offline: true });
    assert_eq!(off.sync_state, Some(SyncUiState::NeedsRefresh));
    assert_eq!(off.status, StatusNote::Keep);
    assert_eq!(on_background(&v, &BgEvent::SyncProgress).auto_analyze, AutoAnalyze::Now);
}

fn finished(id: &str, ok: bool) -> BgEvent {
    BgEvent::AnalyzeFinished { id: id.to_string(), game_type: "live".to_string(), ok, blocking: true, count_as_review: true }
}

#[test]
fn finished_analysis_of_the_game_shown_waits_for_the_notice() {
    let p = on_background(&view(Page::Playbench), &finished("g1", true));
    assert!(p.mark_reviewed && p.mark_analyzed && p.end_busy && p.end_analyzing);
    assert_eq!(p.notice, Notice::AnalysisFinished);
    assert_eq!(p.auto_analyze, AutoAnalyze::AfterNotice);
    let other = on_background(&view(Page::Playbench), &finished("g2", true));
    assert!(!other.mark_reviewed);
    assert_eq!(other.auto_analyze, AutoAnalyze::Now);
    let failed = on_background(&view(Page::Playbench), &finished("g1", false));
    assert_eq!(failed.notice, Notice::AnalysisFailed);
    assert_eq!(failed.auto_analyze, AutoAnalyze::No);
    assert!(!failed.refresh_progress_page);
    let listed = on_background(&view(Page::Library), &finished("g1", false));
    assert_eq!(listed.notice, Notice::Nothing);
}

#[test]
fn count_then_g_goes_to_that_ply_and_bare_g_to_the_last() {
    let mut k = BenchKeys::new();
    assert_eq!(k.on_key(BenchKey::Digit(1), false, 40, 0), BenchAction::CountTimer);
    assert_eq!(k.on_key(BenchKey::Digit(2), false, 40, 0), BenchAction::CountTimer);
    assert_eq!(k.on_key(BenchKey::Modifier, false, 40, 0), BenchAction::Swallow);
    assert_eq!(k.on_key(BenchKey::ShiftG, false, 40, 0), BenchAction::ShowPly(12));
    assert_eq!(k.on_key(BenchKey::ShiftG, false, 40, 0), BenchAction::ShowPly(40));
    assert_eq!(k.on_key(BenchKey::LowerG, false, 40, 0), BenchAction::Swallow);
}

#[test]
fn count_keeps_four_digits() {
    let mut k = BenchKeys::new();
    for d in [1u8, 2, 3, 4] {
        assert_eq!(k.on_key(BenchKey::Digit(d), false, 9, 0), BenchAction::CountTimer);
    }
    assert_eq!(k.on_key(BenchKey::Digit(5), false, 9, 0), BenchAction::Swallow);
    assert_eq!(k.on_key(BenchKey::LowerG, false, 9, 0), BenchAction::ShowPly(1234));
    // A count is dropped by Escape, and by the wait running out.
    k.on_key(BenchKey::Digit(7), false, 9, 0);
    k.on_key(BenchKey::CountTimeout, false, 9, 0);
    assert_eq!(k.on_key(BenchKey::LowerG, false, 9, 0), BenchAction::Swallow);
    // Another key drops the count and still acts.
    k.on_key(BenchKey::Digit(7), false, 9, 0);
    assert_eq!(k.on_key(BenchKey::Right, false, 9, 0), BenchAction::Step(1));
    assert_eq!(k.on_key(BenchKey::LowerG, false, 9, 0), BenchAction::Swallow);
}

#[test]
fn analyze_and_view_chords() {
    let mut k = BenchKeys::new();
    assert_eq!(k.on_key(BenchKey::KeyA, false, 9, 0), BenchAction::ChordTimer);
    assert_eq!(k.on_key(BenchKey::KeyA, false, 9, 0), BenchAction::AnalyzeAll);
    assert_eq!(k.on_key(BenchKey::ChordTimeout, false, 9, 0), BenchAction::Swallow);
    k.on_key(BenchKey::KeyA, false, 9, 0);
    assert_eq!(k.on_key(BenchKey::ChordTimeout, false, 9, 0), BenchAction::AnalyzeOne);
    k.on_key(BenchKey::KeyA, false, 9, 0);
    assert_eq!(k.on_key(BenchKey::KeyN, false, 9, 0), BenchAction::StepPivotal(1));
    assert_eq!(k.on_key(BenchKey::ChordTimeout, false, 9, 0), BenchAction::Swallow);
    assert_eq!(k.on_key(BenchKey::KeyV, false, 9, 0), BenchAction::Swallow);
    assert_eq!(k.on_key(BenchKey::KeyP, false, 9, 0), BenchAction::EnterVariation(VariationKind::Punished));
    k.on_key(BenchKey::KeyV, false, 9, 0);
    assert_eq!(k.on_key(BenchKey::Other, false, 9, 0), BenchAction::Swallow);
    assert_eq!(k.on_key(BenchKey::KeyP, false, 9, 0), BenchAction::StepPivotal(-1));
}

#[test]
fn keys_in_a_line_step_the_line() {
    let mut k = BenchKeys::new();
    assert_eq!(k.on_key(BenchKey::End, true, 9, 5), BenchAction::ShowVariationPly(5));
    assert_eq!(k.on_key(BenchKey::Digit(3), true, 9, 5), BenchAction::Swallow);
    assert_eq!(k.on_key(BenchKey::Escape, true, 9, 5), BenchAction::ExitVariation);
    assert_eq!(k.on_key(BenchKey::Escape, false, 9, 5), BenchAction::EscapeAll);
    assert_eq!(k.on_key(BenchKey::CtrlA, false, 9, 5), BenchAction::SendToAgent);
    assert_eq!(k.on_key(BenchKey::Other, false, 9, 5), BenchAction::Pass);
}
