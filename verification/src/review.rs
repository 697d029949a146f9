//! The review page: walking a game's pivotal moments, stepping through the whole game,
//! and trying the engine's line from a moment.
use vstd::prelude::*;

use crate::chess_util::{
    apply_san_line, best_move_squares, fens_along, is_number_token, is_result_token, line_moves, uci_squares, Square,
};
use crate::models::{opt_text, outcome_text, pivotal_idx, AnalyzedMove, Game};
use crate::playback::{
    analysis_fens, analysis_ucis, has_moves, max_ply, pivotal_plies, pivotal_plies_of, some_ucis, wrap,
};
use crate::rules::{board_make_move, board_san_move, fen_readable, start_fen_spec, Position};
use crate::text::{
    chars_of, nat_chars, nat_text, push_chars, push_str, split_whitespace, split_ws, string_from_chars, trim_end_in,
    trim_end_in_chars,
};

verus! {

/// How the review page moves through a game.
#[derive(Debug, Clone, Copy, PartialEq, Eq, Structural)]
pub enum ReviewMode {
    /// Walking the pivotal moments.
    Walk,
    /// Stepping through the whole game.
    StepThrough,
    /// Stepping through the engine's line from a moment.
    Fork,
}

/// A game open on the review page: the position after each ply (the start first), the
/// moves as written and as UCI text, the ply shown, the mode, the pivotal moment
/// walked to, whether the engine's move is drawn, and the line being tried.
#[derive(Debug, Clone)]
pub struct ReviewState {
    pub game: Game,
    pub fens: Vec<String>,
    pub sans: Vec<String>,
    pub ucis: Vec<Option<String>>,
    pub ply: usize,
    pub mode: ReviewMode,
    pub pivotal_idx: usize,
    pub show_arrow: bool,
    pub fork_fens: Vec<String>,
    pub fork_ply: usize,
}

/// A PGN word as the timeline reads it: without `!` and `?` at its end.
pub open spec fn timeline_token(t: Seq<char>) -> Seq<char> {
    trim_end_in(t, seq!['!', '?'])
}

/// Reading PGN words on the board built from `start` after `played`: words that are
/// empty, tags or move numbers are passed over, a move that does not read is passed
/// over, and a result or a move that does not play ends the reading. The moves made (as
/// UCI text) and the words they were read from.
pub open spec fn timeline_scan(
    start: Seq<char>,
    played: Seq<Seq<char>>,
    sans: Seq<Seq<char>>,
    tokens: Seq<Seq<char>>,
) -> (Seq<Seq<char>>, Seq<Seq<char>>)
    decreases tokens.len(),
{
    if tokens.len() == 0 {
        (played, sans)
    } else {
        let t = timeline_token(tokens[0]);
        if t.len() == 0 || t[0] == '[' || is_number_token(t) {
            timeline_scan(start, played, sans, tokens.drop_first())
        } else if is_result_token(t) {
            (played, sans)
        } else {
            match board_san_move(start, played, t) {
                None => timeline_scan(start, played, sans, tokens.drop_first()),
                Some(u) => if board_make_move(start, played, u) {
                    timeline_scan(start, played.push(u), sans.push(t), tokens.drop_first())
                } else {
                    (played, sans)
                },
            }
        }
    }
}

/// The timeline of a game: from its analysis when it has analysed moves, else by reading
/// its PGN text word by word from the start.
pub open spec fn timeline(g: Game) -> (Seq<Seq<char>>, Seq<Seq<char>>, Seq<Option<Seq<char>>>) {
    if has_moves(g) {
        let ms = g.analysis->0.moves@;
        (analysis_fens(ms), Seq::new(ms.len(), |k: int| ms[k].san@), analysis_ucis(ms))
    } else {
        let (played, sans) = timeline_scan(start_fen_spec(), Seq::empty(), Seq::empty(), split_ws(g.pgn@));
        (fens_along(start_fen_spec(), played), sans, some_ucis(played))
    }
}

fn timeline_from_analysis(moves: &Vec<AnalyzedMove>) -> (r: (Vec<String>, Vec<String>, Vec<Option<String>>))
    requires
        moves@.len() > 0,
    ensures
        r.0.deep_view() == analysis_fens(moves@),
        r.1.deep_view() == Seq::new(moves@.len(), |k: int| moves@[k].san@),
        r.2.deep_view() == analysis_ucis(moves@),
{
    let mut fens: Vec<String> = Vec::new();
    fens.push(moves[0].fen_before.clone());
    let mut sans: Vec<String> = Vec::new();
    let mut ucis: Vec<Option<String>> = Vec::new();
    let mut i: usize = 0;
    while i < moves.len()
        invariant
            moves@.len() > 0,
            0 <= i <= moves@.len(),
            fens.deep_view() == seq![moves@[0].fen_before@] + Seq::new(i as nat, |k: int| moves@[k].fen_after@),
            sans.deep_view() == Seq::new(i as nat, |k: int| moves@[k].san@),
            ucis.deep_view() == Seq::new(i as nat, |k: int| crate::models::opt_text(moves@[k].uci)),
        decreases moves@.len() - i,
    {
        let ghost fb = fens.deep_view();
        let ghost sb = sans.deep_view();
        let ghost ub = ucis.deep_view();
        fens.push(moves[i].fen_after.clone());
        sans.push(moves[i].san.clone());
        ucis.push(crate::playback::copy_text(&moves[i].uci));
        assert(fens.deep_view() =~= fb.push(moves@[i as int].fen_after@));
        assert(sans.deep_view() =~= sb.push(moves@[i as int].san@));
        assert(ucis.deep_view() =~= ub.push(crate::models::opt_text(moves@[i as int].uci)));
        assert(fens.deep_view() =~= seq![moves@[0].fen_before@] + Seq::new((i + 1) as nat, |k: int| moves@[k].fen_after@));
        assert(sans.deep_view() =~= Seq::new((i + 1) as nat, |k: int| moves@[k].san@));
        assert(ucis.deep_view() =~= Seq::new((i + 1) as nat, |k: int| crate::models::opt_text(moves@[k].uci)));
        i = i + 1;
    }
    (fens, sans, ucis)
}

fn timeline_from_pgn(pgn: &str) -> (r: (Vec<String>, Vec<String>, Vec<Option<String>>))
    ensures
        ({
            let (played, sans) = timeline_scan(start_fen_spec(), Seq::empty(), Seq::empty(), split_ws(pgn@));
            &&& r.0.deep_view() == fens_along(start_fen_spec(), played)
            &&& r.1.deep_view() == sans
            &&& r.2.deep_view() == some_ucis(played)
        }),
{
    let mut board = Position::initial();
    let ghost start = start_fen_spec();
    let cs = chars_of(pgn);
    let tokens = split_whitespace(&cs);
    let ghost all = tokens.deep_view();
    let mut fens: Vec<String> = Vec::new();
    fens.push(board.fen());
    let mut sans: Vec<String> = Vec::new();
    let mut ucis: Vec<Option<String>> = Vec::new();
    let mut i: usize = 0;
    proof {
        assert(all.skip(0) == all);
        assert(board.played().take(0) == board.played());
        assert(fens.deep_view() =~= fens_along(start, board.played()));
        assert(ucis.deep_view() =~= some_ucis(board.played()));
        assert(sans.deep_view() =~= Seq::<Seq<char>>::empty());
    }
    while i < tokens.len()
        invariant
            board.castles_standard(),
            0 <= i <= tokens@.len(),
            all == tokens.deep_view(),
            all == split_ws(pgn@),
            start == start_fen_spec(),
            board.start() == start,
            timeline_scan(start, Seq::empty(), Seq::empty(), all) == timeline_scan(
                start,
                board.played(),
                sans.deep_view(),
                all.skip(i as int),
            ),
            fens.deep_view() == fens_along(start, board.played()),
            ucis.deep_view() == some_ucis(board.played()),
        decreases tokens@.len() - i,
    {
        proof {
            assert(all.skip(i as int)[0] == tokens@[i as int]@);
            assert(all.skip(i as int).drop_first() == all.skip(i + 1));
        }
        let marks = ['!', '?'];
        assert(marks@ == seq!['!', '?']);
        let t = trim_end_in_chars(&tokens[i], &marks);
        if t.len() == 0 || t[0] == '[' || is_number_text(&t) {
            i = i + 1;
            continue;
        }
        if is_result_text(&t) {
            return (fens, sans, ucis);
        }
        let word = string_from_chars(&t);
        let mv = match board.san_to_move(word.as_str()) {
            Some(m) => m,
            None => {
                i = i + 1;
                continue;
            },
        };
        let uci = mv.to_uci();
        let ghost before = board.played();
        if !board.make_move(&mv) {
            return (fens, sans, ucis);
        }
        let ghost ub = ucis.deep_view();
        let ghost fb = fens.deep_view();
        let ghost sb = sans.deep_view();
        ucis.push(Some(uci));
        fens.push(board.fen());
        sans.push(word);
        proof {
            let np = board.played();
            assert(np == before.push(mv.uci()));
            assert(ucis.deep_view() =~= ub.push(Some(mv.uci())));
            assert(ucis.deep_view() =~= some_ucis(np));
            assert(sans.deep_view() =~= sb.push(t@));
            assert(fens.deep_view() =~= fb.push(crate::rules::board_fen(start, np)));
            assert forall|k: int| 0 <= k < fb.len() implies #[trigger] np.take(k) == before.take(k) by {
                assert(np.take(k) =~= before.take(k));
            }
            assert(np.take(np.len() as int) == np);
            assert(fens.deep_view() =~= fens_along(start, np));
        }
        i = i + 1;
    }
    assert(all.skip(i as int).len() == 0);
    (fens, sans, ucis)
}

fn is_number_text(t: &Vec<char>) -> (r: bool)
    ensures
        r == is_number_token(t@),
{
    let mut i: usize = 0;
    while i < t.len()
        invariant
            0 <= i <= t@.len(),
            forall|j: int| 0 <= j < i ==> crate::text::is_digit(#[trigger] t@[j]) || t@[j] == '.',
        decreases t@.len() - i,
    {
        let c = t[i];
        if !(('0' <= c && c <= '9') || c == '.') {
            return false;
        }
        i = i + 1;
    }
    true
}

fn is_result_text(t: &Vec<char>) -> (r: bool)
    ensures
        r == is_result_token(t@),
{
    let a = ['1', '-', '0'];
    let b = ['0', '-', '1'];
    let c = ['1', '/', '2', '-', '1', '/', '2'];
    let d = ['*'];
    assert(a@ == seq!['1', '-', '0']);
    assert(b@ == seq!['0', '-', '1']);
    assert(c@ == seq!['1', '/', '2', '-', '1', '/', '2']);
    assert(d@ == seq!['*']);
    crate::text::chars_eq(t, &a) || crate::text::chars_eq(t, &b) || crate::text::chars_eq(t, &c)
        || crate::text::chars_eq(t, &d)
}

/// The positions, moves as written, and moves as UCI text of a game.
pub fn build_ply_timeline(game: &Game) -> (r: (Vec<String>, Vec<String>, Vec<Option<String>>))
    ensures
        (r.0.deep_view(), r.1.deep_view(), r.2.deep_view()) == timeline(*game),
{
    match &game.analysis {
        Some(a) if a.moves.len() > 0 => timeline_from_analysis(&a.moves),
        _ => timeline_from_pgn(game.pgn.as_str()),
    }
}

/// The first analysed move of a ply.
pub open spec fn find_move(moves: Seq<AnalyzedMove>, ply: usize) -> Option<int>
    decreases moves.len(),
{
    if moves.len() == 0 {
        None
    } else {
        match find_move(moves.drop_last(), ply) {
            Some(k) => Some(k),
            None => if moves.last().ply as usize == ply {
                Some(moves.len() - 1)
            } else {
                None
            },
        }
    }
}

proof fn lemma_find_move_prefix(s: Seq<AnalyzedMove>, ply: usize, j: int)
    requires
        0 < j <= s.len(),
        find_move(s.take(j), ply) is Some,
    ensures
        find_move(s, ply) == find_move(s.take(j), ply),
    decreases s.len() - j,
{
    if j < s.len() {
        assert(s.take(j + 1).drop_last() =~= s.take(j));
        lemma_find_move_prefix(s, ply, j + 1);
    } else {
        assert(s.take(j) =~= s);
    }
}

/// The analysed move of a ply, if the game's analysis has one.
pub fn analyzed_at_ply(game: &Game, ply: usize) -> (r: Option<&AnalyzedMove>)
    ensures
        match game.analysis {
            None => r is None,
            Some(a) => match find_move(a.moves@, ply) {
                Some(k) => r == Some(&a.moves@[k]),
                None => r is None,
            },
        },
{
    let a = match &game.analysis {
        Some(a) => a,
        None => return None,
    };
    let mut i: usize = 0;
    while i < a.moves.len()
        invariant
            game.analysis == Some(*a),
            0 <= i <= a.moves@.len(),
            find_move(a.moves@.take(i as int), ply) is None,
        decreases a.moves@.len() - i,
    {
        assert(a.moves@.take(i + 1).drop_last() =~= a.moves@.take(i as int));
        assert(a.moves@.take(i + 1).last() == a.moves@[i as int]);
        if a.moves[i].ply as usize == ply {
            proof {
                lemma_find_move_prefix(a.moves@, ply, (i + 1) as int);
            }
            return Some(&a.moves[i]);
        }
        i = i + 1;
    }
    assert(a.moves@.take(i as int) =~= a.moves@);
    None
}

/// `x` kept within `0 ..= hi`.
pub open spec fn clamp_to(x: int, hi: int) -> int {
    if x < 0 {
        0
    } else if x > hi {
        hi
    } else {
        x
    }
}

/// `ply` moved by `dir` and kept within `0 ..= max`.
fn clamped_step(ply: usize, dir: i32, max: usize) -> (r: usize)
    ensures
        r == clamp_to(ply + dir, max as int),
{
    if dir >= 0 {
        let d = dir as usize;
        if ply >= max || max - ply <= d {
            max
        } else {
            ply + d
        }
    } else {
        let d: u64 = (-(dir as i64)) as u64;
        if (ply as u64) <= d {
            0
        } else {
            let n = ply - (d as usize);
            if n < max {
                n
            } else {
                max
            }
        }
    }
}

/// The engine's line from an analysed move's position, when it has one.
pub open spec fn fork_line(m: AnalyzedMove) -> Option<Seq<Seq<char>>> {
    if m.best_moves@.len() > 0 {
        crate::playback::opt_words(m.best_moves@[0].pv_san)
    } else {
        None
    }
}

/// The positions of the engine's line from the analysed move of a ply, when that move
/// has a line and all of it plays.
pub open spec fn fork_fens_at(g: Game, ply: usize) -> Option<Seq<Seq<char>>> {
    match g.analysis {
        Some(a) => match find_move(a.moves@, ply) {
            Some(k) => {
                let m = a.moves@[k];
                match fork_line(m) {
                    Some(pv) => if fen_readable(m.fen_before@) && line_moves(m.fen_before@, Seq::empty(), pv) is Some {
                        Some(fens_along(m.fen_before@, line_moves(m.fen_before@, Seq::empty(), pv)->0))
                    } else {
                        None
                    },
                    None => None,
                }
            },
            None => None,
        },
        None => None,
    }
}

impl ReviewState {
    /// A game opened for review: at its first pivotal moment (the start without one),
    /// walking, with the engine's move drawn.
    pub fn open(game: Game) -> (st: ReviewState)
        ensures
            st.game == game,
            (st.fens.deep_view(), st.sans.deep_view(), st.ucis.deep_view()) == timeline(game),
            st.ply == if pivotal_plies(game).len() > 0 { pivotal_plies(game)[0] as int } else { 0 },
            st.mode == ReviewMode::Walk,
            st.pivotal_idx == 0,
            st.show_arrow,
            st.fork_fens@.len() == 0,
            st.fork_ply == 0,
    {
        let (fens, sans, ucis) = build_ply_timeline(&game);
        let pm = pivotal_plies_of(&game);
        let ply = if pm.len() > 0 {
            pm[0]
        } else {
            0
        };
        ReviewState {
            game,
            fens,
            sans,
            ucis,
            ply,
            mode: ReviewMode::Walk,
            pivotal_idx: 0,
            show_arrow: true,
            fork_fens: Vec::new(),
            fork_ply: 0,
        }
    }

    /// Walk `dir` pivotal moments round the game's list; without pivotal moments, step
    /// through the game instead.
    pub fn step_pivotal(&mut self, dir: i32)
        ensures
            *final(self) == stepped_pivotal(*old(self), dir as int),
    {
        let pm = pivotal_plies_of(&self.game);
        if pm.len() == 0 {
            self.mode = ReviewMode::StepThrough;
            return;
        }
        self.mode = ReviewMode::Walk;
        let next = wrap(self.pivotal_idx, dir, pm.len());
        self.pivotal_idx = next;
        self.ply = pm[next];
    }

    /// Step `dir` plies, kept within the game: along the line being tried when in it,
    /// else through the game.
    pub fn step_through(&mut self, dir: i32)
        ensures
            *final(self) == stepped_through(*old(self), dir as int),
    {
        if self.mode == ReviewMode::Fork {
            let n = self.fork_fens.len();
            let max: usize = if n > 0 {
                n - 1
            } else {
                0
            };
            self.fork_ply = clamped_step(self.fork_ply, dir, max);
            return;
        }
        self.mode = ReviewMode::StepThrough;
        let n = self.fens.len();
        let max: usize = if n > 0 {
            n - 1
        } else {
            0
        };
        self.ply = clamped_step(self.ply, dir, max);
    }

    /// Try the engine's line from the analysed move of the ply shown, one move in. Nothing
    /// changes when that ply has no analysed move with a line, or the line does not play.
    pub fn enter_fork_best(&mut self)
        ensures
            fork_entered(*old(self), *final(self)),
    {
        let fens = match analyzed_at_ply(&self.game, self.ply) {
            Some(am) => {
                if am.best_moves.len() == 0 {
                    return;
                }
                match &am.best_moves[0].pv_san {
                    Some(pv) => {
                        let line = pv.as_slice();
                        assert(line.deep_view() =~= pv.deep_view());
                        apply_san_line(am.fen_before.as_str(), line)
                    },
                    None => return,
                }
            },
            None => return,
        };
        match fens {
            Some(f) => {
                let n = f.len();
                assert(f@.len() == f.deep_view().len());
                self.fork_fens = f;
                self.fork_ply = if n > 1 {
                    1
                } else {
                    n - 1
                };
                self.mode = ReviewMode::Fork;
            },
            None => {},
        }
    }
}

/// The state after stepping `dir` plies, kept within the game: along the line being
/// tried when in it, else through the game (in step-through mode).
pub open spec fn stepped_through(s: ReviewState, dir: int) -> ReviewState {
    if s.mode == ReviewMode::Fork {
        ReviewState { fork_ply: clamp_to(s.fork_ply + dir, max_ply(s.fork_fens@)) as usize, ..s }
    } else {
        ReviewState {
            mode: ReviewMode::StepThrough,
            ply: clamp_to(s.ply + dir, max_ply(s.fens@)) as usize,
            ..s
        }
    }
}

/// `fin` is `s` after trying the engine's line from the ply shown: the line's positions,
/// one move in, in fork mode; or `s` itself where the ply has no line that plays.
pub open spec fn fork_entered(s: ReviewState, fin: ReviewState) -> bool {
    match fork_fens_at(s.game, s.ply) {
        Some(fens) => {
            &&& fin.fork_fens.deep_view() == fens
            &&& fin.fork_ply == if fens.len() > 1 { 1int } else { fens.len() - 1 }
            &&& fin.mode == ReviewMode::Fork
            &&& fin.game == s.game
            &&& fin.fens == s.fens
            &&& fin.sans == s.sans
            &&& fin.ucis == s.ucis
            &&& fin.ply == s.ply
            &&& fin.pivotal_idx == s.pivotal_idx
            &&& fin.show_arrow == s.show_arrow
        },
        None => fin == s,
    }
}

/// A control of the review page: a key or its button.
#[derive(Debug, Clone, Copy, PartialEq, Eq, Structural)]
pub enum ReviewKey {
    /// `n`: the next pivotal moment.
    NextMoment,
    /// `p`: the previous pivotal moment.
    PrevMoment,
    /// Left or `h`: a ply back.
    StepBack,
    /// Right or `l`: a ply on.
    StepForward,
    /// `e`: try the engine's line.
    TryBest,
    /// `a`: show or hide the best-move arrow.
    ToggleArrow,
    /// `f`: turn the board round.
    Flip,
    /// Escape: leave the line being tried.
    Escape,
    /// The step-through button.
    StepMode,
}

/// What the page does after a control: draw the new state, or turn the board round
/// (the state is unchanged).
#[derive(Debug, Clone, Copy, PartialEq, Eq, Structural)]
pub enum ReviewAction {
    Redraw,
    FlipBoard,
}

/// The state after a control of the review page, where it is not `TryBest` (whose
/// result `fork_entered` relates).
pub open spec fn after_key(s: ReviewState, key: ReviewKey) -> ReviewState {
    match key {
        ReviewKey::NextMoment => stepped_pivotal(s, 1),
        ReviewKey::PrevMoment => stepped_pivotal(s, -1),
        ReviewKey::StepBack => stepped_through(s, -1),
        ReviewKey::StepForward => stepped_through(s, 1),
        ReviewKey::ToggleArrow => ReviewState { show_arrow: !s.show_arrow, ..s },
        ReviewKey::Escape => if s.mode == ReviewMode::Fork {
            ReviewState { mode: ReviewMode::Walk, ..s }
        } else {
            s
        },
        ReviewKey::StepMode => ReviewState { mode: ReviewMode::StepThrough, ..s },
        _ => s,
    }
}

impl ReviewState {
    /// Show or hide the best-move arrow.
    pub fn toggle_arrow(&mut self)
        ensures
            *final(self) == after_key(*old(self), ReviewKey::ToggleArrow),
    {
        self.show_arrow = !self.show_arrow;
    }

    /// Leave the line being tried, back to walking the moments; outside a line nothing
    /// changes.
    pub fn leave_fork(&mut self)
        ensures
            *final(self) == after_key(*old(self), ReviewKey::Escape),
    {
        if self.mode == ReviewMode::Fork {
            self.mode = ReviewMode::Walk;
        }
    }

    /// Step through the whole game from the ply shown.
    pub fn step_mode(&mut self)
        ensures
            *final(self) == after_key(*old(self), ReviewKey::StepMode),
    {
        self.mode = ReviewMode::StepThrough;
    }

    /// A control of the review page: the state changes as `after_key` says (as
    /// `fork_entered` says for `TryBest`), and the page redraws, or turns the board round
    /// for `Flip`.
    pub fn on_key(&mut self, key: ReviewKey) -> (a: ReviewAction)
        ensures
            key == ReviewKey::TryBest ==> fork_entered(*old(self), *final(self)),
            key != ReviewKey::TryBest ==> *final(self) == after_key(*old(self), key),
            a == (if key == ReviewKey::Flip { ReviewAction::FlipBoard } else { ReviewAction::Redraw }),
    {
        match key {
            ReviewKey::NextMoment => self.step_pivotal(1),
            ReviewKey::PrevMoment => self.step_pivotal(-1),
            ReviewKey::StepBack => self.step_through(-1),
            ReviewKey::StepForward => self.step_through(1),
            ReviewKey::TryBest => self.enter_fork_best(),
            ReviewKey::ToggleArrow => self.toggle_arrow(),
            ReviewKey::Flip => return ReviewAction::FlipBoard,
            ReviewKey::Escape => self.leave_fork(),
            ReviewKey::StepMode => self.step_mode(),
        }
        ReviewAction::Redraw
    }
}

/// The state after walking `dir` pivotal moments: with none, stepping through the game
/// from where it stands; else the moment `dir` away, wrapping round, and its ply.
pub open spec fn stepped_pivotal(s: ReviewState, dir: int) -> ReviewState {
    let pm = pivotal_plies(s.game);
    if pm.len() == 0 {
        ReviewState { mode: ReviewMode::StepThrough, ..s }
    } else {
        let next = (s.pivotal_idx + dir) % (pm.len() as int);
        ReviewState { mode: ReviewMode::Walk, pivotal_idx: next as usize, ply: pm[next], ..s }
    }
}

/// Walking to the next pivotal moment and back returns to the moment left, at its ply;
/// a state standing on that moment in walk mode comes back unchanged.
pub proof fn law_step_pivotal_undone(st: ReviewState)
    requires
        st.pivotal_idx < pivotal_plies(st.game).len(),
        pivotal_plies(st.game).len() <= usize::MAX,
    ensures
        ({
            let back = stepped_pivotal(stepped_pivotal(st, 1), -1);
            &&& back.pivotal_idx == st.pivotal_idx
            &&& back.ply == pivotal_plies(st.game)[st.pivotal_idx as int]
            &&& back.mode == ReviewMode::Walk
            &&& (st.mode == ReviewMode::Walk && st.ply == pivotal_plies(st.game)[st.pivotal_idx as int])
                ==> back == st
        }),
{
    let pm = pivotal_plies(st.game);
    let n = pm.len() as int;
    let i = st.pivotal_idx as int;
    crate::playback::law_pivotal_round_trip(pm, st.pivotal_idx, st.ply);
    if i + 1 < n {
        vstd::arithmetic::div_mod::lemma_small_mod((i + 1) as nat, n as nat);
        vstd::arithmetic::div_mod::lemma_small_mod(i as nat, n as nat);
    } else {
        vstd::arithmetic::div_mod::lemma_mod_self_0(n);
        vstd::arithmetic::div_mod::lemma_small_mod(0, n as nat);
        vstd::arithmetic::div_mod::lemma_mod_add_multiples_vanish(-1, n);
        vstd::arithmetic::div_mod::lemma_small_mod((n - 1) as nat, n as nat);
    }
    let fwd = stepped_pivotal(st, 1);
    assert(fwd.game == st.game);
    let back = stepped_pivotal(fwd, -1);
    assert(back.pivotal_idx == st.pivotal_idx);
}

/// What the review page shows: the heading, the mode, the moment and teaching text, the
/// position (when one is set), the move highlighted, and the engine's move drawn.
#[derive(Debug, Clone)]
pub struct ReviewView {
    pub headline: String,
    pub mode_label: String,
    pub moment: String,
    pub teaching: String,
    pub fen: Option<String>,
    pub last_uci: Option<String>,
    pub arrow: Option<(Square, Square)>,
}

/// The squares of the engine's first move from an analysed move's position, when it
/// reads there.
pub open spec fn best_arrow(m: AnalyzedMove) -> Option<(Square, Square)> {
    if m.best_moves@.len() > 0 && m.best_moves@[0].san is Some && fen_readable(m.fen_before@) && board_san_move(
        m.fen_before@,
        Seq::empty(),
        m.best_moves@[0].san->0@,
    ) is Some {
        Some(uci_squares(board_san_move(m.fen_before@, Seq::empty(), m.best_moves@[0].san->0@)->0))
    } else {
        None
    }
}

/// The `k`th pivotal moment of a game.
pub open spec fn pivotal_move(g: Game, k: int) -> AnalyzedMove {
    let a = g.analysis->0;
    a.moves@[pivotal_idx(a.moves@, opt_text(g.user_color))[k] as int]
}

pub open spec fn text_at(s: Seq<String>, i: int) -> Option<Seq<char>> {
    if 0 <= i < s.len() {
        Some(s[i]@)
    } else {
        None
    }
}

pub open spec fn walk_moment(m: AnalyzedMove, idx: nat, n: nat) -> Seq<char> {
    "Pivotal Moment "@ + nat_text(idx + 1) + "/"@ + nat_text(n) + " \u{b7} ply "@ + nat_text(m.ply as nat) + " \u{b7} "@
        + m.color@ + " played "@ + m.san@ + " ("@ + m.classification@ + ")"@
}

pub open spec fn walk_teaching(m: AnalyzedMove) -> Seq<char> {
    match m.teaching {
        Some(t) if t.summary is Some => t.summary->0@,
        _ => "Eval "@ + match m.eval_played_text {
            Some(e) => e@,
            None => "?"@,
        } + " \u{2192} best "@ + match m.eval_before_best_text {
            Some(e) => e@,
            None => "?"@,
        },
    }
}

pub open spec fn step_san(sans: Seq<String>, ply: int) -> Seq<char> {
    if ply == 0 {
        "start"@
    } else {
        match text_at(sans, ply - 1) {
            Some(t) => t,
            None => Seq::empty(),
        }
    }
}

/// The review page's texts and board for a state.
pub open spec fn review_view(st: ReviewState, v: ReviewView) -> bool {
    &&& v.headline@ == st.game.title_text() + " \u{b7} "@ + outcome_text(
        opt_text(st.game.result),
        opt_text(st.game.user_color),
    )@
    &&& match st.mode {
        ReviewMode::Walk => {
            let n = pivotal_plies(st.game).len();
            &&& v.mode_label@ == "WALK \u{b7} pivotal moments"@
            &&& if n == 0 {
                &&& v.moment@ == "No pivotal moments in this game. Step through the moves quietly."@
                &&& v.teaching@ == Seq::<char>::empty()
                &&& opt_text(v.fen) == text_at(st.fens@, st.ply as int)
                &&& v.last_uci is None
                &&& v.arrow is None
            } else {
                let k = if st.pivotal_idx < n { st.pivotal_idx as int } else { n - 1 };
                let m = pivotal_move(st.game, k);
                &&& v.moment@ == walk_moment(m, st.pivotal_idx as nat, n)
                &&& v.teaching@ == walk_teaching(m)
                &&& opt_text(v.fen) == Some(
                    match text_at(st.fens@, m.ply as int) {
                        Some(f) => f,
                        None => Seq::empty(),
                    },
                )
                &&& opt_text(v.last_uci) == opt_text(m.uci)
                &&& v.arrow == if st.show_arrow { best_arrow(m) } else { None }
            }
        },
        ReviewMode::StepThrough => {
            let found = match st.game.analysis {
                Some(a) => match find_move(a.moves@, st.ply) {
                    Some(i) => Some(a.moves@[i]),
                    None => None,
                },
                None => None,
            };
            &&& v.mode_label@ == "STEP \u{b7} full game"@
            &&& opt_text(v.fen) == text_at(st.fens@, st.ply as int)
            &&& opt_text(v.last_uci) == if st.ply > 0 && st.ply - 1 < st.ucis@.len() {
                opt_text(st.ucis@[st.ply - 1])
            } else {
                None
            }
            &&& v.moment@ == "Ply "@ + nat_text(st.ply as nat) + "/"@ + nat_text(max_ply(st.fens@) as nat) + " \u{b7} "@
                + step_san(st.sans@, st.ply as int)
            &&& match found {
                Some(m) => {
                    &&& v.teaching@ == match m.teaching {
                        Some(t) if t.summary is Some => t.summary->0@,
                        _ => Seq::empty(),
                    }
                    &&& v.arrow == if st.show_arrow { best_arrow(m) } else { None }
                },
                None => v.teaching@ == Seq::<char>::empty() && v.arrow is None,
            }
        },
        ReviewMode::Fork => {
            &&& v.mode_label@ == "FORK \u{b7} other line"@
            &&& opt_text(v.fen) == text_at(st.fork_fens@, st.fork_ply as int)
            &&& v.last_uci is None
            &&& v.arrow is None
            &&& v.moment@ == "Fork step "@ + nat_text(st.fork_ply as nat) + "/"@ + nat_text(max_ply(st.fork_fens@) as nat)
                + " \u{2014} Esc returns to the pivotal moment"@
            &&& v.teaching@ == "This is the line that kept the story intact."@
        },
    }
}

fn arrow_of(m: &AnalyzedMove) -> (r: Option<(Square, Square)>)
    ensures
        r == best_arrow(*m),
{
    if m.best_moves.len() == 0 {
        return None;
    }
    match &m.best_moves[0].san {
        Some(san) => best_move_squares(m.fen_before.as_str(), san.as_str()),
        None => None,
    }
}

fn fen_at(fens: &Vec<String>, i: usize) -> (r: Option<String>)
    ensures
        opt_text(r) == text_at(fens@, i as int),
{
    if i < fens.len() {
        Some(fens[i].clone())
    } else {
        None
    }
}

fn push_nat(out: &mut Vec<char>, n: usize)
    ensures
        final(out)@ == old(out)@ + nat_text(n as nat),
{
    let d = nat_chars(n as u64);
    push_chars(out, &d);
}

impl ReviewState {
    /// What the review page shows for this state.
    pub fn view(&self) -> (v: ReviewView)
        requires
            self.pivotal_idx < usize::MAX,
        ensures
            review_view(*self, v),
    {
        let mut headline = chars_of(self.game.title().as_str());
        push_str(&mut headline, " \u{b7} ");
        push_str(&mut headline, self.game.outcome_for_user());
        let headline = string_from_chars(&headline);
        match self.mode {
            ReviewMode::Walk => self.walk_view(headline),
            ReviewMode::StepThrough => self.step_view(headline),
            ReviewMode::Fork => {
                let n = self.fork_fens.len();
                let max: usize = if n > 0 {
                    n - 1
                } else {
                    0
                };
                let mut moment = chars_of("Fork step ");
                push_nat(&mut moment, self.fork_ply);
                push_str(&mut moment, "/");
                push_nat(&mut moment, max);
                push_str(&mut moment, " \u{2014} Esc returns to the pivotal moment");
                ReviewView {
                    headline,
                    mode_label: "FORK \u{b7} other line".to_string(),
                    moment: string_from_chars(&moment),
                    teaching: "This is the line that kept the story intact.".to_string(),
                    fen: fen_at(&self.fork_fens, self.fork_ply),
                    last_uci: None,
                    arrow: None,
                }
            },
        }
    }

    fn walk_view(&self, headline: String) -> (v: ReviewView)
        requires
            self.mode == ReviewMode::Walk,
            self.pivotal_idx < usize::MAX,
            headline@ == self.game.title_text() + " \u{b7} "@ + outcome_text(
                opt_text(self.game.result),
                opt_text(self.game.user_color),
            )@,
        ensures
            review_view(*self, v),
    {
        let pm = self.game.pivotal_moments();
        let n = pm.len();
        proof {
            assert(n == pivotal_plies(self.game).len());
        }
        if n == 0 {
            return ReviewView {
                headline,
                mode_label: "WALK \u{b7} pivotal moments".to_string(),
                moment: "No pivotal moments in this game. Step through the moves quietly.".to_string(),
                teaching: String::new(),
                fen: fen_at(&self.fens, self.ply),
                last_uci: None,
                arrow: None,
            };
        }
        let k = if self.pivotal_idx < n {
            self.pivotal_idx
        } else {
            n - 1
        };
        let m = pm[k];
        assert(*m == pivotal_move(self.game, k as int));
        let mut moment = chars_of("Pivotal Moment ");
        push_nat(&mut moment, self.pivotal_idx + 1);
        push_str(&mut moment, "/");
        push_nat(&mut moment, n);
        push_str(&mut moment, " \u{b7} ply ");
        push_nat(&mut moment, m.ply as usize);
        push_str(&mut moment, " \u{b7} ");
        push_str(&mut moment, m.color.as_str());
        push_str(&mut moment, " played ");
        push_str(&mut moment, m.san.as_str());
        push_str(&mut moment, " (");
        push_str(&mut moment, m.classification.as_str());
        push_str(&mut moment, ")");
        let teaching: String = match &m.teaching {
            Some(t) if t.summary.is_some() => crate::playback::copy_text(&t.summary).unwrap(),
            _ => {
                let mut out = chars_of("Eval ");
                match &m.eval_played_text {
                    Some(e) => push_str(&mut out, e.as_str()),
                    None => push_str(&mut out, "?"),
                }
                push_str(&mut out, " \u{2192} best ");
                match &m.eval_before_best_text {
                    Some(e) => push_str(&mut out, e.as_str()),
                    None => push_str(&mut out, "?"),
                }
                string_from_chars(&out)
            },
        };
        let fen = match fen_at(&self.fens, m.ply as usize) {
            Some(f) => f,
            None => String::new(),
        };
        let arrow = if self.show_arrow {
            arrow_of(m)
        } else {
            None
        };
        ReviewView {
            headline,
            mode_label: "WALK \u{b7} pivotal moments".to_string(),
            moment: string_from_chars(&moment),
            teaching,
            fen: Some(fen),
            last_uci: crate::playback::copy_text(&m.uci),
            arrow,
        }
    }

    fn step_view(&self, headline: String) -> (v: ReviewView)
        requires
            self.mode == ReviewMode::StepThrough,
            headline@ == self.game.title_text() + " \u{b7} "@ + outcome_text(
                opt_text(self.game.result),
                opt_text(self.game.user_color),
            )@,
        ensures
            review_view(*self, v),
    {
        let n = self.fens.len();
        let max: usize = if n > 0 {
            n - 1
        } else {
            0
        };
        let last_uci = if self.ply > 0 && self.ply - 1 < self.ucis.len() {
            crate::playback::copy_text(&self.ucis[self.ply - 1])
        } else {
            None
        };
        let mut moment = chars_of("Ply ");
        push_nat(&mut moment, self.ply);
        push_str(&mut moment, "/");
        push_nat(&mut moment, max);
        push_str(&mut moment, " \u{b7} ");
        if self.ply == 0 {
            push_str(&mut moment, "start");
        } else if self.ply - 1 < self.sans.len() {
            push_str(&mut moment, self.sans[self.ply - 1].as_str());
        }
        let (teaching, arrow) = match analyzed_at_ply(&self.game, self.ply) {
            Some(m) => {
                let t: String = match &m.teaching {
                    Some(t) if t.summary.is_some() => crate::playback::copy_text(&t.summary).unwrap(),
                    _ => String::new(),
                };
                let a = if self.show_arrow {
                    arrow_of(m)
                } else {
                    None
                };
                (t, a)
            },
            None => (String::new(), None),
        };
        ReviewView {
            headline,
            mode_label: "STEP \u{b7} full game".to_string(),
            moment: string_from_chars(&moment),
            teaching,
            fen: fen_at(&self.fens, self.ply),
            last_uci,
            arrow,
        }
    }
}

} // verus!
