//! The playbench's decisions on what comes back from background work: a loaded analysis,
//! the messages of sync and analysis runs. Each is a function from what the page knows
//! and the event to what it does; the front end performs the action.
use vstd::prelude::*;

use crate::playback::VariationKind;
use crate::text::str_eq;

verus! {

/// How sync shows on the playbench.
#[derive(Debug, Clone, Copy, PartialEq, Eq, Structural)]
pub enum SyncUiState {
    Syncing,
    UpToDate,
    NeedsRefresh,
}

/// What the playbench knows when a load of a game's analysis comes back: the number of
/// the latest load asked for, the game shown (id and game type), the number of the
/// status text shown, whether an analysis runs, and how sync stands.
pub struct LoaderState {
    pub load_gen: u64,
    pub current: Option<(String, String)>,
    pub status_gen: u64,
    pub analyzing: bool,
    pub sync: SyncUiState,
}

/// How a load of a stored analysis ended.
#[derive(Debug, Clone, Copy, PartialEq, Eq, Structural)]
pub enum LoadOutcome {
    /// The analysis was read.
    Loaded,
    /// The game has no analysis stored.
    NotStored,
    /// Reading it failed.
    Failed,
}

/// A load that came back: which load, for which game, the status number when it was
/// asked for, and how it ended.
pub struct LoadMsg {
    pub load_gen: u64,
    pub id: String,
    pub game_type: String,
    pub status_token: u64,
    pub outcome: LoadOutcome,
}

/// What happens to the status badge.
#[derive(Debug, Clone, Copy, PartialEq, Eq, Structural)]
pub enum BadgeNote {
    Hide,
    NoAnalysisStored,
    LoadFailed,
}

/// What the page does with a load.
#[derive(Debug, Clone, Copy, PartialEq, Eq)]
pub enum LoadAction {
    /// The load is stale (a later one was asked for, or another game is shown): ignore it.
    Drop,
    /// Leave any line being tried and show the game again; `store`: keep the analysis
    /// with the game first and open at its first pivotal moment. `badge`: the status
    /// text to take over (the status number is then moved on), or `None` to leave it.
    Show { store: bool, badge: Option<BadgeNote> },
}

/// The load is the latest one asked for, of the game shown.
pub open spec fn load_is_current(st: LoaderState, msg: LoadMsg) -> bool {
    &&& msg.load_gen == st.load_gen
    &&& st.current matches Some(k) && k.0@ == msg.id@ && k.1@ == msg.game_type@
}

/// The badge is free: no analysis runs, no sync is shown, and the status text is the
/// one shown when the load was asked for.
pub open spec fn badge_is_free(st: LoaderState, msg: LoadMsg) -> bool {
    !st.analyzing && st.sync != SyncUiState::Syncing && st.status_gen == msg.status_token
}

pub open spec fn outcome_badge(o: LoadOutcome) -> BadgeNote {
    match o {
        LoadOutcome::Loaded => BadgeNote::Hide,
        LoadOutcome::NotStored => BadgeNote::NoAnalysisStored,
        LoadOutcome::Failed => BadgeNote::LoadFailed,
    }
}

/// What to do with a load that came back.
pub fn on_analysis_loaded(st: &LoaderState, msg: &LoadMsg) -> (a: LoadAction)
    ensures
        a is Drop <==> !load_is_current(*st, *msg),
        load_is_current(*st, *msg) ==> a == (LoadAction::Show {
            store: msg.outcome == LoadOutcome::Loaded,
            badge: if badge_is_free(*st, *msg) { Some(outcome_badge(msg.outcome)) } else { None },
        }),
{
    if msg.load_gen != st.load_gen {
        return LoadAction::Drop;
    }
    let same = match &st.current {
        Some(k) => str_eq(k.0.as_str(), msg.id.as_str()) && str_eq(k.1.as_str(), msg.game_type.as_str()),
        None => false,
    };
    if !same {
        return LoadAction::Drop;
    }
    let free = !st.analyzing && st.sync != SyncUiState::Syncing && st.status_gen == msg.status_token;
    let badge = if free {
        Some(
            match msg.outcome {
                LoadOutcome::Loaded => BadgeNote::Hide,
                LoadOutcome::NotStored => BadgeNote::NoAnalysisStored,
                LoadOutcome::Failed => BadgeNote::LoadFailed,
            },
        )
    } else {
        None
    };
    LoadAction::Show { store: msg.outcome == LoadOutcome::Loaded, badge }
}

pub open spec fn badge_text_spec(n: BadgeNote) -> Seq<char> {
    match n {
        BadgeNote::Hide => Seq::empty(),
        BadgeNote::NoAnalysisStored => "No analysis stored"@,
        BadgeNote::LoadFailed => "Failed to load analysis"@,
    }
}

/// The badge's text (empty where it is hidden).
pub fn badge_text(n: BadgeNote) -> (s: String)
    ensures
        s@ == badge_text_spec(n),
{
    match n {
        BadgeNote::Hide => String::new(),
        BadgeNote::NoAnalysisStored => "No analysis stored".to_string(),
        BadgeNote::LoadFailed => "Failed to load analysis".to_string(),
    }
}

/// The page shown.
#[derive(Debug, Clone, Copy, PartialEq, Eq, Structural)]
pub enum Page {
    Playbench,
    Library,
    Progress,
}

/// What the playbench knows when a background message comes: the page shown, whether
/// an analysis badge is up, and the game shown (id and game type).
pub struct BenchView {
    pub page: Page,
    pub analyzing: bool,
    pub current: Option<(String, String)>,
}

/// A message of the background work (the library it carries stays with the caller).
pub enum BgEvent {
    /// The library was read from disk.
    LibraryReady,
    /// The list previews' final positions were filled in.
    EndFenReady,
    /// Sync needs a chess.com user name.
    NeedUsername,
    /// Sync imported an early batch of new games.
    SyncProgress,
    /// Sync ended: how many games it imported, and whether it was offline.
    SyncFinished { imported: usize, offline: bool },
    /// An analysis run reports progress.
    AnalyzeProgress,
    /// An analysis run ended, for the game with this key; `blocking`: it held the page
    /// busy; `count_as_review`: it marks the game reviewed when it is the one shown.
    AnalyzeFinished { id: String, game_type: String, ok: bool, blocking: bool, count_as_review: bool },
}

/// What becomes of the playbench's library.
#[derive(Debug, Clone, Copy, PartialEq, Eq, Structural)]
pub enum LibraryUpdate {
    Keep,
    /// Take the new library and show its games again.
    Replace,
    /// Take the new library, leaving the game shown as it is.
    UpdateOnly,
}

/// The status text.
#[derive(Debug, Clone, Copy, PartialEq, Eq)]
pub enum StatusNote {
    Keep,
    /// "New games found…".
    NewGamesFound,
    /// How many games a sync brought (`new_games_label`).
    NewGames(usize),
    /// "Up to date".
    UpToDate,
    /// The progress text of the analysis run.
    AnalyzeProgress,
    /// Clear the analysis status, or show sync's again if it needs one.
    ClearOrRestoreSync,
}

/// When to start analysing the newest unanalysed game.
#[derive(Debug, Clone, Copy, PartialEq, Eq, Structural)]
pub enum AutoAnalyze {
    No,
    Now,
    /// After the user acknowledges the finished-analysis notice (the board then moves
    /// to the first pivotal moment).
    AfterNotice,
}

/// A notice to show over the playbench.
#[derive(Debug, Clone, Copy, PartialEq, Eq, Structural)]
pub enum Notice {
    Nothing,
    AnalysisFailed,
    AnalysisFinished,
}

/// What the page does with a background message.
#[derive(Debug, Clone, Copy, PartialEq, Eq)]
pub struct BgPlan {
    pub library: LibraryUpdate,
    pub sync_state: Option<SyncUiState>,
    pub status: StatusNote,
    pub prompt_username: bool,
    /// Drop the analysing marks on both pages.
    pub end_analyzing: bool,
    /// Mark the games of the run analysed.
    pub mark_analyzed: bool,
    /// Release the busy page.
    pub end_busy: bool,
    /// Mark the game shown reviewed.
    pub mark_reviewed: bool,
    pub refresh_analyze_cluster: bool,
    pub refresh_library_page: bool,
    pub refresh_progress_page: bool,
    pub notice: Notice,
    pub auto_analyze: AutoAnalyze,
}

/// The game with this key is the one shown.
pub open spec fn is_viewing(v: BenchView, id: Seq<char>, game_type: Seq<char>) -> bool {
    v.current matches Some(k) && k.0@ == id && k.1@ == game_type
}

pub open spec fn plan_library(ev: BgEvent) -> LibraryUpdate {
    match ev {
        BgEvent::LibraryReady | BgEvent::SyncProgress => LibraryUpdate::Replace,
        BgEvent::SyncFinished { imported, .. } => if imported > 0 {
            LibraryUpdate::Replace
        } else {
            LibraryUpdate::UpdateOnly
        },
        BgEvent::EndFenReady => LibraryUpdate::UpdateOnly,
        _ => LibraryUpdate::Keep,
    }
}

pub open spec fn plan_sync_state(ev: BgEvent) -> Option<SyncUiState> {
    match ev {
        BgEvent::LibraryReady => Some(SyncUiState::Syncing),
        BgEvent::NeedUsername => Some(SyncUiState::NeedsRefresh),
        BgEvent::SyncFinished { offline, .. } => Some(
            if offline { SyncUiState::NeedsRefresh } else { SyncUiState::UpToDate },
        ),
        _ => None,
    }
}

/// Sync's note is not put over a running analysis's badge, nor shown when offline.
pub open spec fn plan_status(v: BenchView, ev: BgEvent) -> StatusNote {
    match ev {
        BgEvent::SyncProgress => StatusNote::NewGamesFound,
        BgEvent::SyncFinished { imported, offline } => if offline || v.analyzing {
            StatusNote::Keep
        } else if imported > 0 {
            StatusNote::NewGames(imported)
        } else {
            StatusNote::UpToDate
        },
        BgEvent::AnalyzeProgress => StatusNote::AnalyzeProgress,
        BgEvent::AnalyzeFinished { .. } => StatusNote::ClearOrRestoreSync,
        _ => StatusNote::Keep,
    }
}

/// Analysis starts on its own only once sync has imported games (never on the library
/// read at launch), or after a run ends well: at once, unless the game shown was
/// analysed on the playbench, where it waits for the notice.
pub open spec fn plan_auto(v: BenchView, ev: BgEvent) -> AutoAnalyze {
    match ev {
        BgEvent::SyncProgress => AutoAnalyze::Now,
        BgEvent::SyncFinished { imported, .. } => if imported > 0 {
            AutoAnalyze::Now
        } else {
            AutoAnalyze::No
        },
        BgEvent::AnalyzeFinished { id, game_type, ok, .. } => if !ok {
            AutoAnalyze::No
        } else if v.page != Page::Library && is_viewing(v, id@, game_type@) {
            AutoAnalyze::AfterNotice
        } else {
            AutoAnalyze::Now
        },
        _ => AutoAnalyze::No,
    }
}

pub open spec fn plan_notice(v: BenchView, ev: BgEvent) -> Notice {
    match ev {
        BgEvent::AnalyzeFinished { id, game_type, ok, .. } => if !ok {
            if v.page == Page::Library { Notice::Nothing } else { Notice::AnalysisFailed }
        } else if v.page != Page::Library && is_viewing(v, id@, game_type@) {
            Notice::AnalysisFinished
        } else {
            Notice::Nothing
        },
        _ => Notice::Nothing,
    }
}

/// The library page is refreshed when shown, on every message that brings games or
/// marks; the progress page when shown on those that change the games, and after any
/// run that ended well.
pub open spec fn plan_refresh_library(v: BenchView, ev: BgEvent) -> bool {
    v.page == Page::Library && match ev {
        BgEvent::LibraryReady | BgEvent::SyncProgress | BgEvent::SyncFinished { .. } | BgEvent::AnalyzeFinished {
            ..
        } => true,
        _ => false,
    }
}

pub open spec fn plan_refresh_progress(v: BenchView, ev: BgEvent) -> bool {
    match ev {
        BgEvent::LibraryReady | BgEvent::EndFenReady | BgEvent::SyncProgress | BgEvent::SyncFinished { .. } => v.page
            == Page::Progress,
        BgEvent::AnalyzeFinished { ok, .. } => ok,
        _ => false,
    }
}

/// What to do with a background message.
pub fn on_background(v: &BenchView, ev: &BgEvent) -> (p: BgPlan)
    ensures
        p.library == plan_library(*ev),
        p.sync_state == plan_sync_state(*ev),
        p.status == plan_status(*v, *ev),
        p.prompt_username == (*ev is NeedUsername),
        p.end_analyzing == (*ev is AnalyzeFinished),
        p.mark_analyzed == (*ev matches BgEvent::AnalyzeFinished { ok, .. } && ok),
        p.end_busy == (*ev matches BgEvent::AnalyzeFinished { blocking, .. } && blocking),
        p.mark_reviewed == (*ev matches BgEvent::AnalyzeFinished { id, game_type, ok, count_as_review, .. }
            && ok && count_as_review && v.page != Page::Library && is_viewing(*v, id@, game_type@)),
        p.refresh_analyze_cluster == (*ev is SyncProgress || *ev is SyncFinished || *ev is AnalyzeFinished),
        p.refresh_library_page == plan_refresh_library(*v, *ev),
        p.refresh_progress_page == plan_refresh_progress(*v, *ev),
        p.notice == plan_notice(*v, *ev),
        p.auto_analyze == plan_auto(*v, *ev),
{
    let on_library = v.page == Page::Library;
    let on_progress = v.page == Page::Progress;
    let mut p = BgPlan {
        library: LibraryUpdate::Keep,
        sync_state: None,
        status: StatusNote::Keep,
        prompt_username: false,
        end_analyzing: false,
        mark_analyzed: false,
        end_busy: false,
        mark_reviewed: false,
        refresh_analyze_cluster: false,
        refresh_library_page: false,
        refresh_progress_page: false,
        notice: Notice::Nothing,
        auto_analyze: AutoAnalyze::No,
    };
    match ev {
        BgEvent::LibraryReady => {
            p.library = LibraryUpdate::Replace;
            p.sync_state = Some(SyncUiState::Syncing);
            p.refresh_library_page = on_library;
            p.refresh_progress_page = on_progress;
        },
        BgEvent::EndFenReady => {
            p.library = LibraryUpdate::UpdateOnly;
            p.refresh_progress_page = on_progress;
        },
        BgEvent::NeedUsername => {
            p.sync_state = Some(SyncUiState::NeedsRefresh);
            p.prompt_username = true;
        },
        BgEvent::SyncProgress => {
            p.library = LibraryUpdate::Replace;
            p.status = StatusNote::NewGamesFound;
            p.refresh_analyze_cluster = true;
            p.refresh_library_page = on_library;
            p.refresh_progress_page = on_progress;
            p.auto_analyze = AutoAnalyze::Now;
        },
        BgEvent::SyncFinished { imported, offline } => {
            p.library = if *imported > 0 {
                LibraryUpdate::Replace
            } else {
                LibraryUpdate::UpdateOnly
            };
            p.sync_state = Some(
                if *offline {
                    SyncUiState::NeedsRefresh
                } else {
                    SyncUiState::UpToDate
                },
            );
            if !*offline && !v.analyzing {
                p.status = if *imported > 0 {
                    StatusNote::NewGames(*imported)
                } else {
                    StatusNote::UpToDate
                };
            }
            p.refresh_analyze_cluster = true;
            p.refresh_library_page = on_library;
            p.refresh_progress_page = on_progress;
            if *imported > 0 {
                p.auto_analyze = AutoAnalyze::Now;
            }
        },
        BgEvent::AnalyzeProgress => {
            p.status = StatusNote::AnalyzeProgress;
        },
        BgEvent::AnalyzeFinished { id, game_type, ok, blocking, count_as_review } => {
            p.end_analyzing = true;
            p.status = StatusNote::ClearOrRestoreSync;
            p.mark_analyzed = *ok;
            p.end_busy = *blocking;
            p.refresh_analyze_cluster = true;
            p.refresh_progress_page = *ok;
            let viewing = match &v.current {
                Some(k) => str_eq(k.0.as_str(), id.as_str()) && str_eq(k.1.as_str(), game_type.as_str()),
                None => false,
            };
            if !*ok {
                p.refresh_library_page = on_library;
                if !on_library {
                    p.notice = Notice::AnalysisFailed;
                }
            } else if on_library {
                p.refresh_library_page = true;
                p.auto_analyze = AutoAnalyze::Now;
            } else if viewing {
                p.mark_reviewed = *count_as_review;
                p.notice = Notice::AnalysisFinished;
                p.auto_analyze = AutoAnalyze::AfterNotice;
            } else {
                p.auto_analyze = AutoAnalyze::Now;
            }
        },
    }
    p
}

/// A key on the playbench (after the modal and help layers have had theirs), or the end
/// of one of its two waits.
#[derive(Debug, Clone, Copy, PartialEq, Eq, Structural)]
pub enum BenchKey {
    /// A digit key (main row or keypad), its value.
    Digit(u8),
    /// `G`.
    ShiftG,
    /// `g`.
    LowerG,
    Left,
    Right,
    Home,
    End,
    KeyN,
    KeyP,
    KeyB,
    KeyA,
    KeyS,
    KeyO,
    KeyD,
    KeyV,
    /// `?`.
    Help,
    Escape,
    /// Shift, Control, Alt and the like on their own.
    Modifier,
    CtrlA,
    CtrlE,
    /// Any other key with Control held.
    CtrlOther,
    Other,
    /// The typed count waited too long for `G`.
    CountTimeout,
    /// A lone `a` waited long enough for a second one.
    ChordTimeout,
}

/// What the playbench does after a key.
#[derive(Debug, Clone, Copy, PartialEq, Eq)]
pub enum BenchAction {
    /// Let the key go on to other handlers.
    Pass,
    /// Take the key and do nothing more.
    Swallow,
    /// A digit joined the count: (re)start the wait for `G`.
    CountTimer,
    /// A lone `a`: start the wait for a second one.
    ChordTimer,
    Step(i32),
    ShowPly(usize),
    ShowVariationPly(usize),
    StepPivotal(i32),
    EnterVariation(VariationKind),
    ExitVariation,
    AnalyzeOne,
    AnalyzeAll,
    Sync,
    OpenLibrary,
    OpenProgress,
    ToggleHelp,
    /// Leave any line being tried and close the key help.
    EscapeAll,
    SendToAgent,
    SendWeekly,
}

/// The key state: `v` waiting for `p` or `b`; a first `a` waiting for a second; the
/// count typed before `G`, as its number of digits (0: none) and its value.
#[derive(Debug, Clone, Copy, PartialEq, Eq, Structural)]
pub struct KeysView {
    pub view_chord: bool,
    pub analyze_armed: bool,
    pub count_digits: u8,
    pub count_value: u32,
}

/// The playbench's key state.
pub struct BenchKeys {
    view_chord: bool,
    analyze_armed: bool,
    count_digits: u8,
    count_value: u32,
}

impl View for BenchKeys {
    type V = KeysView;

    closed spec fn view(&self) -> KeysView {
        KeysView {
            view_chord: self.view_chord,
            analyze_armed: self.analyze_armed,
            count_digits: self.count_digits,
            count_value: self.count_value,
        }
    }
}

/// Ten to the power of `d`, for `d` up to four.
pub open spec fn count_cap(d: int) -> int {
    if d <= 0 {
        1
    } else if d == 1 {
        10
    } else if d == 2 {
        100
    } else if d == 3 {
        1000
    } else {
        10000
    }
}

/// At most four digits are kept, and the value is what they spell.
pub open spec fn count_ok(k: KeysView) -> bool {
    k.count_digits <= 4 && k.count_value < count_cap(k.count_digits as int)
}

/// A key once the chords have had their say, with the count state `k`.
pub open spec fn plain_key(k: KeysView, key: BenchKey, in_variation: bool, last_ply: usize, variation_last: usize) -> (
    KeysView,
    BenchAction,
) {
    if in_variation {
        match key {
            BenchKey::Right => (k, BenchAction::Step(1i32)),
            BenchKey::Left => (k, BenchAction::Step(-1i32)),
            BenchKey::Home => (k, BenchAction::ShowVariationPly(0)),
            BenchKey::End => (k, BenchAction::ShowVariationPly(variation_last)),
            BenchKey::KeyV => (KeysView { view_chord: true, ..k }, BenchAction::Swallow),
            BenchKey::Escape => (k, BenchAction::ExitVariation),
            _ => (k, BenchAction::Swallow),
        }
    } else {
        match key {
            BenchKey::Digit(d) => if k.count_digits >= 4 {
                (k, BenchAction::Swallow)
            } else {
                (
                    KeysView {
                        count_digits: (k.count_digits + 1) as u8,
                        count_value: (k.count_value * 10 + d) as u32,
                        ..k
                    },
                    BenchAction::CountTimer,
                )
            },
            BenchKey::ShiftG | BenchKey::LowerG => if k.count_digits > 0 {
                (KeysView { count_digits: 0, count_value: 0, ..k }, BenchAction::ShowPly(k.count_value as usize))
            } else if key == BenchKey::ShiftG {
                (k, BenchAction::ShowPly(last_ply))
            } else {
                (k, BenchAction::Swallow)
            },
            _ => if k.count_digits > 0 && key == BenchKey::Escape {
                (KeysView { count_digits: 0, count_value: 0, ..k }, BenchAction::Swallow)
            } else if k.count_digits > 0 && key == BenchKey::Modifier {
                (k, BenchAction::Swallow)
            } else {
                let k1 = KeysView { count_digits: 0, count_value: 0, ..k };
                let k2 = if k.count_digits > 0 { k1 } else { k };
                match key {
                    BenchKey::Right => (k2, BenchAction::Step(1i32)),
                    BenchKey::Left => (k2, BenchAction::Step(-1i32)),
                    BenchKey::Home => (k2, BenchAction::ShowPly(0)),
                    BenchKey::End => (k2, BenchAction::ShowPly(last_ply)),
                    BenchKey::KeyN => (k2, BenchAction::StepPivotal(1i32)),
                    BenchKey::KeyP => (k2, BenchAction::StepPivotal(-1i32)),
                    BenchKey::KeyA => (KeysView { analyze_armed: true, ..k2 }, BenchAction::ChordTimer),
                    BenchKey::KeyS => (k2, BenchAction::Sync),
                    BenchKey::KeyO => (k2, BenchAction::OpenLibrary),
                    BenchKey::KeyD => (k2, BenchAction::OpenProgress),
                    BenchKey::KeyV => (KeysView { view_chord: true, ..k2 }, BenchAction::Swallow),
                    BenchKey::Help => (k2, BenchAction::ToggleHelp),
                    BenchKey::Escape => (
                        KeysView { view_chord: false, analyze_armed: false, ..k2 },
                        BenchAction::EscapeAll,
                    ),
                    _ => (k2, BenchAction::Pass),
                }
            },
        }
    }
}

/// The key state and action after a key: the waits first, then Control chords, then a
/// pending `v` (which takes the next key whatever it is), then a pending `a` (a second
/// `a` analyses all, Escape drops it, any other key drops it and goes on), then the
/// key itself: in a line being tried, stepping it; else a count typed before `G`
/// (`<digits>G` goes to that ply, a bare `G` to the last one) and the plain keys.
pub open spec fn bench_step(k: KeysView, key: BenchKey, in_variation: bool, last_ply: usize, variation_last: usize) -> (
    KeysView,
    BenchAction,
) {
    match key {
        BenchKey::CountTimeout => (KeysView { count_digits: 0, count_value: 0, ..k }, BenchAction::Swallow),
        BenchKey::ChordTimeout => if k.analyze_armed {
            (KeysView { analyze_armed: false, ..k }, BenchAction::AnalyzeOne)
        } else {
            (k, BenchAction::Swallow)
        },
        BenchKey::CtrlA => (k, BenchAction::SendToAgent),
        BenchKey::CtrlE => (k, BenchAction::SendWeekly),
        BenchKey::CtrlOther => (k, BenchAction::Pass),
        _ => if k.view_chord {
            let k1 = KeysView { analyze_armed: false, ..k };
            match key {
                BenchKey::KeyP => (
                    KeysView { view_chord: false, ..k1 },
                    BenchAction::EnterVariation(VariationKind::Punished),
                ),
                BenchKey::KeyB => (KeysView { view_chord: false, ..k1 }, BenchAction::EnterVariation(VariationKind::Best)),
                BenchKey::KeyV => (k1, BenchAction::Swallow),
                _ => (KeysView { view_chord: false, ..k1 }, BenchAction::Swallow),
            }
        } else if k.analyze_armed && key == BenchKey::KeyA {
            (KeysView { analyze_armed: false, ..k }, BenchAction::AnalyzeAll)
        } else if k.analyze_armed && key == BenchKey::Escape {
            (KeysView { analyze_armed: false, ..k }, BenchAction::Swallow)
        } else {
            plain_key(KeysView { analyze_armed: false, ..k }, key, in_variation, last_ply, variation_last)
        },
    }
}

/// The typed count never has more than four digits, whatever keys come.
pub proof fn law_count_capped(k: KeysView, key: BenchKey, in_variation: bool, last_ply: usize, variation_last: usize)
    requires
        count_ok(k),
        key matches BenchKey::Digit(d) ==> d < 10,
    ensures
        count_ok(bench_step(k, key, in_variation, last_ply, variation_last).0),
{
}

impl BenchKeys {
    #[verifier::type_invariant]
    spec fn keys_inv(self) -> bool {
        count_ok(self@)
    }

    /// No chord pending and no count typed.
    pub fn new() -> (k: BenchKeys)
        ensures
            k@ == (KeysView { view_chord: false, analyze_armed: false, count_digits: 0, count_value: 0 }),
    {
        BenchKeys { view_chord: false, analyze_armed: false, count_digits: 0, count_value: 0 }
    }

    /// A key (or the end of a wait), given whether a line is being tried and the last ply
    /// of the game and of that line.
    pub fn on_key(&mut self, key: BenchKey, in_variation: bool, last_ply: usize, variation_last: usize) -> (a: BenchAction)
        requires
            key matches BenchKey::Digit(d) ==> d < 10,
        ensures
            (final(self)@, a) == bench_step(old(self)@, key, in_variation, last_ply, variation_last),
    {
        proof {
            use_type_invariant(&*self);
        }
        let k = KeysView {
            view_chord: self.view_chord,
            analyze_armed: self.analyze_armed,
            count_digits: self.count_digits,
            count_value: self.count_value,
        };
        let (n, a) = step_keys(k, key, in_variation, last_ply, variation_last);
        proof {
            law_count_capped(k, key, in_variation, last_ply, variation_last);
        }
        *self = BenchKeys {
            view_chord: n.view_chord,
            analyze_armed: n.analyze_armed,
            count_digits: n.count_digits,
            count_value: n.count_value,
        };
        a
    }
}

fn plain_key_exec(k: KeysView, key: BenchKey, in_variation: bool, last_ply: usize, variation_last: usize) -> (r: (
    KeysView,
    BenchAction,
))
    requires
        count_ok(k),
        key matches BenchKey::Digit(d) ==> d < 10,
    ensures
        r == plain_key(k, key, in_variation, last_ply, variation_last),
{
    if in_variation {
        return match key {
            BenchKey::Right => (k, BenchAction::Step(1i32)),
            BenchKey::Left => (k, BenchAction::Step(-1i32)),
            BenchKey::Home => (k, BenchAction::ShowVariationPly(0)),
            BenchKey::End => (k, BenchAction::ShowVariationPly(variation_last)),
            BenchKey::KeyV => (KeysView { view_chord: true, ..k }, BenchAction::Swallow),
            BenchKey::Escape => (k, BenchAction::ExitVariation),
            _ => (k, BenchAction::Swallow),
        };
    }
    match key {
        BenchKey::Digit(d) => {
            if k.count_digits >= 4 {
                (k, BenchAction::Swallow)
            } else {
                (
                    KeysView { count_digits: k.count_digits + 1, count_value: k.count_value * 10 + d as u32, ..k },
                    BenchAction::CountTimer,
                )
            }
        },
        BenchKey::ShiftG | BenchKey::LowerG => {
            if k.count_digits > 0 {
                (KeysView { count_digits: 0, count_value: 0, ..k }, BenchAction::ShowPly(k.count_value as usize))
            } else if key == BenchKey::ShiftG {
                (k, BenchAction::ShowPly(last_ply))
            } else {
                (k, BenchAction::Swallow)
            }
        },
        _ => {
            if k.count_digits > 0 && key == BenchKey::Escape {
                return (KeysView { count_digits: 0, count_value: 0, ..k }, BenchAction::Swallow);
            }
            if k.count_digits > 0 && key == BenchKey::Modifier {
                return (k, BenchAction::Swallow);
            }
            let k2 = if k.count_digits > 0 {
                KeysView { count_digits: 0, count_value: 0, ..k }
            } else {
                k
            };
            match key {
                BenchKey::Right => (k2, BenchAction::Step(1i32)),
                BenchKey::Left => (k2, BenchAction::Step(-1i32)),
                BenchKey::Home => (k2, BenchAction::ShowPly(0)),
                BenchKey::End => (k2, BenchAction::ShowPly(last_ply)),
                BenchKey::KeyN => (k2, BenchAction::StepPivotal(1i32)),
                BenchKey::KeyP => (k2, BenchAction::StepPivotal(-1i32)),
                BenchKey::KeyA => (KeysView { analyze_armed: true, ..k2 }, BenchAction::ChordTimer),
                BenchKey::KeyS => (k2, BenchAction::Sync),
                BenchKey::KeyO => (k2, BenchAction::OpenLibrary),
                BenchKey::KeyD => (k2, BenchAction::OpenProgress),
                BenchKey::KeyV => (KeysView { view_chord: true, ..k2 }, BenchAction::Swallow),
                BenchKey::Help => (k2, BenchAction::ToggleHelp),
                BenchKey::Escape => (KeysView { view_chord: false, analyze_armed: false, ..k2 }, BenchAction::EscapeAll),
                _ => (k2, BenchAction::Pass),
            }
        },
    }
}

fn step_keys(k: KeysView, key: BenchKey, in_variation: bool, last_ply: usize, variation_last: usize) -> (r: (
    KeysView,
    BenchAction,
))
    requires
        count_ok(k),
        key matches BenchKey::Digit(d) ==> d < 10,
    ensures
        r == bench_step(k, key, in_variation, last_ply, variation_last),
{
    match key {
        BenchKey::CountTimeout => (KeysView { count_digits: 0, count_value: 0, ..k }, BenchAction::Swallow),
        BenchKey::ChordTimeout => {
            if k.analyze_armed {
                (KeysView { analyze_armed: false, ..k }, BenchAction::AnalyzeOne)
            } else {
                (k, BenchAction::Swallow)
            }
        },
        BenchKey::CtrlA => (k, BenchAction::SendToAgent),
        BenchKey::CtrlE => (k, BenchAction::SendWeekly),
        BenchKey::CtrlOther => (k, BenchAction::Pass),
        _ => {
            if k.view_chord {
                let k1 = KeysView { analyze_armed: false, ..k };
                match key {
                    BenchKey::KeyP => (
                        KeysView { view_chord: false, ..k1 },
                        BenchAction::EnterVariation(VariationKind::Punished),
                    ),
                    BenchKey::KeyB => (
                        KeysView { view_chord: false, ..k1 },
                        BenchAction::EnterVariation(VariationKind::Best),
                    ),
                    BenchKey::KeyV => (k1, BenchAction::Swallow),
                    _ => (KeysView { view_chord: false, ..k1 }, BenchAction::Swallow),
                }
            } else if k.analyze_armed && key == BenchKey::KeyA {
                (KeysView { analyze_armed: false, ..k }, BenchAction::AnalyzeAll)
            } else if k.analyze_armed && key == BenchKey::Escape {
                (KeysView { analyze_armed: false, ..k }, BenchAction::Swallow)
            } else {
                plain_key_exec(KeysView { analyze_armed: false, ..k }, key, in_variation, last_ply, variation_last)
            }
        },
    }
}

} // verus!
