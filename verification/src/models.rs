//! The records the library keeps: games, their analysis, and the user's settings.
use vstd::prelude::*;

use crate::text::str_eq;

verus! {

/// A UTC instant: whole seconds since the Unix epoch and the nanoseconds past them.
/// Instants are ordered by seconds, then nanoseconds.
#[derive(Debug, Clone, Copy, PartialEq, Eq, Structural)]
pub struct UtcTime {
    pub secs: i64,
    pub nanos: u32,
}

/// `a` comes strictly before `b`.
pub open spec fn time_before(a: UtcTime, b: UtcTime) -> bool {
    a.secs < b.secs || (a.secs == b.secs && a.nanos < b.nanos)
}

/// Optional instants ordered as `Option` orders them: no instant comes first.
pub open spec fn opt_time_before(a: Option<UtcTime>, b: Option<UtcTime>) -> bool {
    match (a, b) {
        (None, Some(_)) => true,
        (Some(x), Some(y)) => time_before(x, y),
        _ => false,
    }
}

pub fn opt_time_is_before(a: Option<UtcTime>, b: Option<UtcTime>) -> (r: bool)
    ensures
        r == opt_time_before(a, b),
{
    match (a, b) {
        (None, Some(_)) => true,
        (Some(x), Some(y)) => x.secs < y.secs || (x.secs == y.secs && x.nanos < y.nanos),
        _ => false,
    }
}

#[derive(Debug, Clone)]
pub struct Settings {
    pub my_username: Option<String>,
}

impl Settings {
    pub fn new() -> (s: Settings)
        ensures
            s.my_username is None,
    {
        Settings { my_username: None }
    }
}

#[derive(Debug, Clone)]
pub struct Teaching {
    pub summary: Option<String>,
    pub why_played: Option<String>,
    pub why_best: Option<String>,
}

#[derive(Debug, Clone)]
pub struct PlayedLine {
    pub pv_san: Option<Vec<String>>,
}

#[derive(Debug, Clone)]
pub struct BestMove {
    pub uci: Option<String>,
    pub san: Option<String>,
    pub eval_text: Option<String>,
    pub pv_san: Option<Vec<String>>,
}

/// One analysed move. Evaluations from White's side are kept in centipawns.
#[derive(Debug, Clone)]
pub struct AnalyzedMove {
    pub ply: u32,
    pub san: String,
    pub uci: Option<String>,
    pub color: String,
    pub fen_before: String,
    pub fen_after: String,
    pub classification: String,
    pub loss_cp: Option<i32>,
    pub eval_played_text: Option<String>,
    pub eval_before_best_text: Option<String>,
    pub eval_white_best: Option<i64>,
    pub eval_white_played: Option<i64>,
    pub best_moves: Vec<BestMove>,
    pub teaching: Option<Teaching>,
    pub ideal_after_played: Option<PlayedLine>,
}

#[derive(Debug, Clone)]
pub struct GameAnalysis {
    pub engine: Option<String>,
    pub depth: Option<u32>,
    pub analyzed_at: Option<String>,
    pub moves: Vec<AnalyzedMove>,
}

#[derive(Debug, Clone)]
pub struct Game {
    pub id: String,
    pub game_type: String,
    pub url: Option<String>,
    pub white: String,
    pub black: String,
    pub white_elo: Option<i32>,
    pub black_elo: Option<i32>,
    pub result: Option<String>,
    pub time_control: Option<String>,
    pub eco: Option<String>,
    pub termination: Option<String>,
    pub played_at: Option<UtcTime>,
    pub user_color: Option<String>,
    pub opponent: Option<String>,
    pub my_username: Option<String>,
    pub pgn: String,
    /// Final position snapshot for list preview.
    pub end_fen: Option<String>,
    pub end_ply: Option<u32>,
    pub end_uci: Option<String>,
    /// Set when an analysis is known to exist without loading it.
    pub has_analysis: bool,
    /// Opened for review with its analysis.
    pub reviewed: bool,
    pub analysis: Option<GameAnalysis>,
}

#[derive(Debug, Clone)]
pub struct LibraryFile {
    pub version: u32,
    pub games: Vec<Game>,
    pub settings: Settings,
    pub updated_at: Option<String>,
}

/// The file format version written when none is stored.
pub fn default_version() -> (v: u32)
    ensures
        v == 1,
{
    1
}

// ---------------------------------------------------------------------------
// Colours and outcomes
// ---------------------------------------------------------------------------

/// Names under which White is written.
pub open spec fn is_white_name(c: Seq<char>) -> bool {
    c == "white"@ || c == "w"@
}

pub fn names_white(c: &str) -> (b: bool)
    ensures
        b == is_white_name(c@),
{
    str_eq(c, "white") || str_eq(c, "w")
}

/// A move was made by the user: its colour names White exactly when the user's colour
/// does (White when the user's colour is unknown).
pub open spec fn color_mine(move_color: Seq<char>, user_color: Option<Seq<char>>) -> bool {
    let user_white = match user_color {
        Some(u) => is_white_name(u),
        None => true,
    };
    user_white == is_white_name(move_color)
}

pub fn color_is_mine(move_color: &str, user_color: Option<&str>) -> (b: bool)
    ensures
        b == color_mine(move_color@, match user_color { Some(u) => Some(u@), None => None }),
{
    let user_white = match user_color {
        Some(u) => names_white(u),
        None => true,
    };
    user_white == names_white(move_color)
}

pub open spec fn opt_text(o: Option<String>) -> Option<Seq<char>> {
    match o {
        Some(s) => Some(s@),
        None => None,
    }
}

/// How a game ended for the user: "won", "lost", "drew", or "—" where the result is
/// missing or not one of the three. The user is White unless said otherwise.
pub open spec fn outcome_text(result: Option<Seq<char>>, user_color: Option<Seq<char>>) -> &'static str {
    let color = match user_color {
        Some(c) => c,
        None => "white"@,
    };
    match result {
        None => "—",
        Some(r) => if (r == "1-0"@ && color == "white"@) || (r == "0-1"@ && color == "black"@) {
            "won"
        } else if (r == "0-1"@ && color == "white"@) || (r == "1-0"@ && color == "black"@) {
            "lost"
        } else if r == "1/2-1/2"@ {
            "drew"
        } else {
            "—"
        },
    }
}

/// The result seen from the other side: "1-0" and "0-1" swapped, any other kept.
pub open spec fn result_for_other_side(r: Seq<char>) -> Seq<char> {
    if r == "1-0"@ {
        "0-1"@
    } else if r == "0-1"@ {
        "1-0"@
    } else {
        r
    }
}

/// How a game ended for the user is the same for either colour: a Black user's outcome
/// of a result is a White user's outcome of that result seen from the other side. A
/// White user wins "1-0", loses "0-1" and draws "1/2-1/2" (so a Black user wins "0-1"
/// and loses "1-0"); a user without a colour counts as White, and a game without a
/// result has no outcome.
pub proof fn law_outcome_colour_symmetric(r: Seq<char>, other: Option<Seq<char>>)
    ensures
        outcome_text(Some(r), Some("black"@)) == outcome_text(Some(result_for_other_side(r)), Some("white"@)),
        outcome_text(Some("1-0"@), Some("white"@)) == "won",
        outcome_text(Some("0-1"@), Some("white"@)) == "lost",
        outcome_text(Some("1/2-1/2"@), Some("white"@)) == "drew",
        outcome_text(Some("1/2-1/2"@), Some("black"@)) == "drew",
        outcome_text(Some(r), None) == outcome_text(Some(r), Some("white"@)),
        outcome_text(None, other) == "—",
{
    reveal_strlit("1-0");
    reveal_strlit("0-1");
    reveal_strlit("1/2-1/2");
    reveal_strlit("white");
    reveal_strlit("black");
    assert("1-0"@ != "0-1"@) by {
        assert("1-0"@[0] != "0-1"@[0]);
    }
    assert("1-0"@ != "1/2-1/2"@) by {
        assert("1-0"@.len() != "1/2-1/2"@.len());
    }
    assert("0-1"@ != "1/2-1/2"@) by {
        assert("0-1"@.len() != "1/2-1/2"@.len());
    }
    assert("white"@ != "black"@) by {
        assert("white"@[0] != "black"@[0]);
    }
}

// ---------------------------------------------------------------------------
// Pivotal moments
// ---------------------------------------------------------------------------

/// The grades that make a move of the user's a pivotal moment.
pub open spec fn is_pivotal_class(c: Seq<char>) -> bool {
    c == "inaccuracy"@ || c == "mistake"@ || c == "blunder"@
}

pub open spec fn loss_or_zero(m: AnalyzedMove) -> int {
    match m.loss_cp {
        Some(l) => l as int,
        None => 0,
    }
}

pub open spec fn is_pivotal(m: AnalyzedMove, user_color: Option<Seq<char>>) -> bool {
    color_mine(m.color@, user_color) && is_pivotal_class(m.classification@)
}

/// Move `i` ranks above move `j`: it lost more, or as much and came earlier.
pub open spec fn ranks_above(moves: Seq<AnalyzedMove>, i: int, j: int) -> bool {
    loss_or_zero(moves[i]) > loss_or_zero(moves[j]) || (loss_or_zero(moves[i]) == loss_or_zero(
        moves[j],
    ) && i < j)
}

/// Move `i` is shown before move `j`: an earlier ply, or the same ply and ranked above.
pub open spec fn shows_before(moves: Seq<AnalyzedMove>, i: int, j: int) -> bool {
    moves[i].ply < moves[j].ply || (moves[i].ply == moves[j].ply && ranks_above(moves, i, j))
}

/// `idx` picks the pivotal moments: at most five of the user's inaccuracies, mistakes
/// and blunders, the costliest (the earlier on a tie), shown in ply order. Fewer than
/// five only when there are no more.
pub open spec fn pivotal_selection(
    moves: Seq<AnalyzedMove>,
    user_color: Option<Seq<char>>,
    idx: Seq<usize>,
) -> bool {
    &&& idx.len() <= 5
    &&& forall|k: int| 0 <= k < idx.len() ==> idx[k] < moves.len() && is_pivotal(
        #[trigger] moves[idx[k] as int],
        user_color,
    )
    &&& forall|k: int, l: int| 0 <= k < l < idx.len() ==> shows_before(moves, idx[k] as int, idx[l] as int)
    &&& forall|j: int| 0 <= j < moves.len() && is_pivotal(#[trigger] moves[j], user_color) ==> (idx.contains(
        j as usize,
    ) || (idx.len() == 5 && forall|k: int| 0 <= k < idx.len() ==> ranks_above(moves, idx[k] as int, j)))
}

fn loss_of(m: &AnalyzedMove) -> (l: i32)
    ensures
        l == loss_or_zero(*m),
{
    match m.loss_cp {
        Some(l) => l,
        None => 0,
    }
}

fn rank_above(moves: &Vec<AnalyzedMove>, i: usize, j: usize) -> (b: bool)
    requires
        i < moves@.len(),
        j < moves@.len(),
    ensures
        b == ranks_above(moves@, i as int, j as int),
{
    let li = loss_of(&moves[i]);
    let lj = loss_of(&moves[j]);
    li > lj || (li == lj && i < j)
}

fn show_before(moves: &Vec<AnalyzedMove>, i: usize, j: usize) -> (b: bool)
    requires
        i < moves@.len(),
        j < moves@.len(),
    ensures
        b == shows_before(moves@, i as int, j as int),
{
    moves[i].ply < moves[j].ply || (moves[i].ply == moves[j].ply && rank_above(moves, i, j))
}

/// Removes from `rest` the move ranked highest (`by_rank`) or shown first (otherwise).
fn take_first(moves: &Vec<AnalyzedMove>, rest: &mut Vec<usize>, by_rank: bool) -> (r: usize)
    requires
        old(rest)@.len() > 0,
        old(rest)@.no_duplicates(),
        forall|k: int| 0 <= k < old(rest)@.len() ==> #[trigger] old(rest)@[k] < moves@.len(),
    ensures
        old(rest)@.contains(r),
        final(rest)@ == old(rest)@.remove(old(rest)@.index_of(r)),
        final(rest)@.no_duplicates(),
        forall|k: int| 0 <= k < final(rest)@.len() ==> #[trigger] final(rest)@[k] != r && (if by_rank {
            ranks_above(moves@, r as int, final(rest)@[k] as int)
        } else {
            shows_before(moves@, r as int, final(rest)@[k] as int)
        }),
{
    let ghost s = rest@;
    let mut p: usize = 0;
    let mut q: usize = 1;
    while q < rest.len()
        invariant
            rest@ == s,
            s.len() > 0,
            s.no_duplicates(),
            forall|k: int| 0 <= k < s.len() ==> #[trigger] s[k] < moves@.len(),
            p < q <= s.len(),
            forall|k: int| 0 <= k < q && k != p ==> (if by_rank {
                ranks_above(moves@, s[p as int] as int, #[trigger] s[k] as int)
            } else {
                shows_before(moves@, s[p as int] as int, s[k] as int)
            }),
        decreases s.len() - q,
    {
        let better = if by_rank {
            rank_above(moves, rest[q], rest[p])
        } else {
            show_before(moves, rest[q], rest[p])
        };
        if better {
            proof {
                assert forall|k: int| 0 <= k < q + 1 && k != q implies (if by_rank {
                    ranks_above(moves@, s[q as int] as int, #[trigger] s[k] as int)
                } else {
                    shows_before(moves@, s[q as int] as int, s[k] as int)
                }) by {
                    if k != p {
                        assert(s[k] != s[p as int]);
                    }
                }
            }
            p = q;
        } else {
            proof {
                assert(s[q as int] != s[p as int]);
            }
        }
        q = q + 1;
    }
    let r = rest.remove(p);
    proof {
        assert(s.index_of(r) == p as int) by {
            assert(s[p as int] == r);
            assert(s.contains(r));
            let i = s.index_of(r);
            assert(0 <= i < s.len() && s[i] == r);
            if i != p as int {
                assert(s[i] != s[p as int]);
            }
        }
        assert forall|k: int| 0 <= k < rest@.len() implies #[trigger] rest@[k] != r && (if by_rank {
            ranks_above(moves@, r as int, rest@[k] as int)
        } else {
            shows_before(moves@, r as int, rest@[k] as int)
        }) by {
            let k0 = if k < p { k } else { k + 1 };
            assert(rest@[k] == s[k0]);
            assert(k0 != p);
        }
        assert(rest@.no_duplicates()) by {
            assert forall|a: int, b: int| 0 <= a < b < rest@.len() implies rest@[a] != rest@[b] by {
                let a0 = if a < p { a } else { a + 1 };
                let b0 = if b < p { b } else { b + 1 };
                assert(rest@[a] == s[a0] && rest@[b] == s[b0]);
            }
        }
    }
    r
}

pub open spec fn opt_str(o: Option<&str>) -> Option<Seq<char>> {
    match o {
        Some(s) => Some(s@),
        None => None,
    }
}

fn user_color_of(g: &Game) -> (r: Option<&str>)
    ensures
        opt_str(r) == opt_text(g.user_color),
{
    match &g.user_color {
        Some(s) => Some(s.as_str()),
        None => None,
    }
}

fn move_is_pivotal(m: &AnalyzedMove, user_color: Option<&str>) -> (b: bool)
    ensures
        b == is_pivotal(*m, opt_str(user_color)),
{
    let c = m.classification.as_str();
    let graded = str_eq(c, "inaccuracy") || str_eq(c, "mistake") || str_eq(c, "blunder");
    graded && color_is_mine(m.color.as_str(), user_color)
}

/// The pivotal moments of these moves for a user of this colour.
pub open spec fn pivotal_idx(moves: Seq<AnalyzedMove>, user_color: Option<Seq<char>>) -> Seq<usize> {
    choose|idx: Seq<usize>| pivotal_selection(moves, user_color, idx)
}

/// The indices of the pivotal moments among `moves`.
pub fn pivotal_indices_of(moves: &Vec<AnalyzedMove>, uc: Option<&str>) -> (idx: Vec<usize>)
    ensures
        pivotal_selection(moves@, opt_str(uc), idx@),
        idx@ == pivotal_idx(moves@, opt_str(uc)),
{
        let ghost ucv = opt_str(uc);
        let ghost ms = moves@;
        let n = moves.len();
        let mut rest: Vec<usize> = Vec::new();
        let mut j: usize = 0;
        while j < n
            invariant
                n == ms.len(),
                ms == moves@,
                ucv == opt_str(uc),
                0 <= j <= n,
                forall|a: int, b: int| 0 <= a < b < rest@.len() ==> rest@[a] < rest@[b],
                forall|k: int| 0 <= k < rest@.len() ==> #[trigger] rest@[k] < j && is_pivotal(
                    ms[rest@[k] as int],
                    ucv,
                ),
                forall|i: int| 0 <= i < j && is_pivotal(#[trigger] ms[i], ucv) ==> rest@.contains(
                    i as usize,
                ),
            decreases n - j,
        {
            if move_is_pivotal(&moves[j], uc) {
                let ghost before = rest@;
                rest.push(j);
                proof {
                    assert forall|i: int| 0 <= i < j + 1 && is_pivotal(#[trigger] ms[i], ucv) implies rest@.contains(
                        i as usize,
                    ) by {
                        if i < j {
                            let w = choose|w: int| 0 <= w < before.len() && before[w] == i as usize;
                            assert(rest@[w] == i as usize);
                        } else {
                            assert(rest@[before.len() as int] == j);
                        }
                    }
                }
            } else {
                proof {
                    assert forall|i: int| 0 <= i < j + 1 && is_pivotal(#[trigger] ms[i], ucv) implies rest@.contains(
                        i as usize,
                    ) by {
                        if i == j {
                            assert(!is_pivotal(ms[i], ucv));
                        }
                    }
                }
            }
            j = j + 1;
        }
        let mut top: Vec<usize> = Vec::new();
        while top.len() < 5 && rest.len() > 0
            invariant
                n == ms.len(),
                ms == moves@,
                top@.len() <= 5,
                rest@.no_duplicates(),
                top@.no_duplicates(),
                forall|k: int| 0 <= k < rest@.len() ==> #[trigger] rest@[k] < n && is_pivotal(
                    ms[rest@[k] as int],
                    ucv,
                ),
                forall|k: int| 0 <= k < top@.len() ==> #[trigger] top@[k] < n && is_pivotal(
                    ms[top@[k] as int],
                    ucv,
                ),
                forall|a: int, b: int| 0 <= a < top@.len() && 0 <= b < rest@.len() ==> top@[a] != rest@[b]
                    && ranks_above(ms, #[trigger] top@[a] as int, #[trigger] rest@[b] as int),
                forall|i: int| 0 <= i < n && is_pivotal(#[trigger] ms[i], ucv) ==> top@.contains(
                    i as usize,
                ) || rest@.contains(i as usize),
            decreases rest@.len(),
        {
            let ghost r0 = rest@;
            let ghost t0 = top@;
            proof {
                assert forall|k: int| 0 <= k < r0.len() implies #[trigger] r0[k] < moves@.len() by {}
            }
            let r = take_first(moves, &mut rest, true);
            top.push(r);
            proof {
                let p = r0.index_of(r);
                assert(r0[p] == r);
                assert forall|k: int| 0 <= k < rest@.len() implies #[trigger] rest@[k] < n && is_pivotal(
                    ms[rest@[k] as int],
                    ucv,
                ) by {
                    let k0 = if k < p { k } else { k + 1 };
                    assert(rest@[k] == r0[k0]);
                }
                assert forall|k: int| 0 <= k < top@.len() implies #[trigger] top@[k] < n && is_pivotal(
                    ms[top@[k] as int],
                    ucv,
                ) by {
                    if k < t0.len() {
                        assert(top@[k] == t0[k]);
                    }
                }
                assert(top@.no_duplicates()) by {
                    assert forall|a: int, b: int| 0 <= a < b < top@.len() implies top@[a] != top@[b] by {
                        if b == t0.len() {
                            assert(t0[a] != r0[p]);
                        } else {
                            assert(top@[a] == t0[a] && top@[b] == t0[b]);
                        }
                    }
                }
                assert forall|a: int, b: int| 0 <= a < top@.len() && 0 <= b < rest@.len() implies top@[a]
                    != rest@[b] && ranks_above(ms, #[trigger] top@[a] as int, #[trigger] rest@[b] as int) by {
                    let b0 = if b < p { b } else { b + 1 };
                    assert(rest@[b] == r0[b0]);
                    if a < t0.len() {
                        assert(top@[a] == t0[a]);
                    }
                }
                assert forall|i: int| 0 <= i < n && is_pivotal(#[trigger] ms[i], ucv) implies top@.contains(
                    i as usize,
                ) || rest@.contains(i as usize) by {
                    if t0.contains(i as usize) {
                        let w = choose|w: int| 0 <= w < t0.len() && t0[w] == i as usize;
                        assert(top@[w] == i as usize);
                    } else {
                        let w = choose|w: int| 0 <= w < r0.len() && r0[w] == i as usize;
                        if w == p {
                            assert(top@[t0.len() as int] == i as usize);
                        } else {
                            let w1 = if w < p { w } else { w - 1 };
                            assert(rest@[w1] == i as usize);
                        }
                    }
                }
            }
        }
        let ghost chosen = top@;
        let ghost leftover = rest@;
        let mut out: Vec<usize> = Vec::new();
        while top.len() > 0
            invariant
                n == ms.len(),
                ms == moves@,
                chosen.len() <= 5,
                out@.len() + top@.len() == chosen.len(),
                top@.no_duplicates(),
                forall|k: int| 0 <= k < top@.len() ==> #[trigger] top@[k] < n && chosen.contains(top@[k]),
                forall|k: int| 0 <= k < out@.len() ==> #[trigger] out@[k] < n && chosen.contains(out@[k]),
                forall|x: usize| #[trigger] chosen.contains(x) ==> out@.contains(x) || top@.contains(x),
                forall|a: int, b: int| 0 <= a < b < out@.len() ==> shows_before(
                    ms,
                    #[trigger] out@[a] as int,
                    #[trigger] out@[b] as int,
                ),
                forall|a: int, b: int| 0 <= a < out@.len() && 0 <= b < top@.len() ==> shows_before(
                    ms,
                    #[trigger] out@[a] as int,
                    #[trigger] top@[b] as int,
                ),
            decreases top@.len(),
        {
            let ghost r0 = top@;
            let ghost o0 = out@;
            proof {
                assert forall|k: int| 0 <= k < r0.len() implies #[trigger] r0[k] < moves@.len() by {}
            }
            let r = take_first(moves, &mut top, false);
            out.push(r);
            proof {
                let p = r0.index_of(r);
                assert(r0[p] == r);
                assert forall|k: int| 0 <= k < top@.len() implies #[trigger] top@[k] < n && chosen.contains(
                    top@[k],
                ) by {
                    let k0 = if k < p { k } else { k + 1 };
                    assert(top@[k] == r0[k0]);
                }
                assert forall|k: int| 0 <= k < out@.len() implies #[trigger] out@[k] < n && chosen.contains(
                    out@[k],
                ) by {
                    if k < o0.len() {
                        assert(out@[k] == o0[k]);
                    } else {
                        assert(out@[k] == r0[p]);
                    }
                }
                assert forall|x: usize| #[trigger] chosen.contains(x) implies out@.contains(x) || top@.contains(x) by {
                    if o0.contains(x) {
                        let w = choose|w: int| 0 <= w < o0.len() && o0[w] == x;
                        assert(out@[w] == x);
                    } else {
                        let w = choose|w: int| 0 <= w < r0.len() && r0[w] == x;
                        if w == p {
                            assert(out@[o0.len() as int] == x);
                        } else {
                            let w1 = if w < p { w } else { w - 1 };
                            assert(top@[w1] == x);
                        }
                    }
                }
                assert forall|a: int, b: int| 0 <= a < b < out@.len() implies shows_before(
                    ms,
                    #[trigger] out@[a] as int,
                    #[trigger] out@[b] as int,
                ) by {
                    assert(out@[a] == o0[a]);
                    if b < o0.len() {
                        assert(out@[b] == o0[b]);
                    } else {
                        assert(out@[b] == r0[p]);
                    }
                }
                assert forall|a: int, b: int| 0 <= a < out@.len() && 0 <= b < top@.len() implies shows_before(
                    ms,
                    #[trigger] out@[a] as int,
                    #[trigger] top@[b] as int,
                ) by {
                    let b0 = if b < p { b } else { b + 1 };
                    assert(top@[b] == r0[b0]);
                    if a < o0.len() {
                        assert(out@[a] == o0[a]);
                    }
                }
            }
        }
        proof {
            let idx = out@;
            assert forall|k: int| 0 <= k < idx.len() implies idx[k] < ms.len() && is_pivotal(
                #[trigger] ms[idx[k] as int],
                ucv,
            ) by {
                let w = choose|w: int| 0 <= w < chosen.len() && chosen[w] == idx[k];
                assert(chosen[w] < n && is_pivotal(ms[chosen[w] as int], ucv));
            }
            assert forall|i: int| 0 <= i < ms.len() && is_pivotal(#[trigger] ms[i], ucv) implies (idx.contains(
                i as usize,
            ) || (idx.len() == 5 && forall|k: int| 0 <= k < idx.len() ==> ranks_above(
                ms,
                idx[k] as int,
                i,
            ))) by {
                if chosen.contains(i as usize) {
                } else {
                    let w = choose|w: int| 0 <= w < leftover.len() && leftover[w] == i as usize;
                    assert forall|k: int| 0 <= k < idx.len() implies ranks_above(ms, idx[k] as int, i) by {
                        let c = choose|c: int| 0 <= c < chosen.len() && chosen[c] == idx[k];
                        assert(ranks_above(ms, chosen[c] as int, leftover[w] as int));
                    }
                }
            }
        }
        proof {
            assert(pivotal_selection(ms, ucv, out@));
            let p = pivotal_idx(ms, ucv);
            assert(pivotal_selection(ms, ucv, p));
            lemma_pivotal_selection_unique(ms, ucv, out@, p);
        }
        out
}

proof fn lemma_selection_no_dup(ms: Seq<AnalyzedMove>, uc: Option<Seq<char>>, a: Seq<usize>)
    requires
        pivotal_selection(ms, uc, a),
    ensures
        a.no_duplicates(),
{
    assert forall|i: int, j: int| 0 <= i < a.len() && 0 <= j < a.len() && i != j implies a[i] != a[j] by {
        if i < j {
            assert(shows_before(ms, a[i] as int, a[j] as int));
        } else {
            assert(shows_before(ms, a[j] as int, a[i] as int));
        }
    }
}

proof fn lemma_selection_members(ms: Seq<AnalyzedMove>, uc: Option<Seq<char>>, a: Seq<usize>, b: Seq<usize>)
    requires
        pivotal_selection(ms, uc, a),
        pivotal_selection(ms, uc, b),
    ensures
        forall|x: usize| a.contains(x) ==> b.contains(x),
{
    assert forall|x: usize| a.contains(x) implies b.contains(x) by {
        if !b.contains(x) {
            let ia = choose|i: int| 0 <= i < a.len() && a[i] == x;
            assert(is_pivotal(ms[a[ia] as int], uc));
            assert(is_pivotal(ms[x as int], uc));
            assert(b.len() == 5 && forall|k: int| 0 <= k < b.len() ==> ranks_above(ms, b[k] as int, x as int));
            if exists|y: usize| b.contains(y) && !a.contains(y) {
                let y = choose|y: usize| b.contains(y) && !a.contains(y);
                let ib = choose|i: int| 0 <= i < b.len() && b[i] == y;
                assert(is_pivotal(ms[b[ib] as int], uc));
                assert(ranks_above(ms, y as int, x as int));
                assert(ranks_above(ms, a[ia] as int, y as int));
            } else {
                lemma_selection_no_dup(ms, uc, a);
                lemma_selection_no_dup(ms, uc, b);
                b.unique_seq_to_set();
                a.lemma_cardinality_of_set();
                assert(b.to_set().subset_of(a.to_set().remove(x))) by {
                    assert forall|y: usize| b.to_set().contains(y) implies a.to_set().remove(x).contains(y) by {
                        assert(b.contains(y));
                    }
                }
                vstd::set_lib::lemma_len_subset(b.to_set(), a.to_set().remove(x));
                assert(a.to_set().contains(x));
            }
        }
    }
}

proof fn lemma_sorted_members_equal(ms: Seq<AnalyzedMove>, a: Seq<usize>, b: Seq<usize>)
    requires
        forall|k: int, l: int| 0 <= k < l < a.len() ==> shows_before(ms, a[k] as int, a[l] as int),
        forall|k: int, l: int| 0 <= k < l < b.len() ==> shows_before(ms, b[k] as int, b[l] as int),
        forall|x: usize| a.contains(x) <==> b.contains(x),
    ensures
        a == b,
    decreases a.len(),
{
    if a.len() == 0 {
        if b.len() > 0 {
            assert(b.contains(b[0]));
        }
        assert(b =~= a);
    } else {
        assert(a.contains(a[0]));
        if b.len() == 0 {
            assert(false);
        }
        assert(b.contains(b[0]));
        let j = choose|j: int| 0 <= j < b.len() && b[j] == a[0];
        let i = choose|i: int| 0 <= i < a.len() && a[i] == b[0];
        if j > 0 {
            assert(shows_before(ms, b[0] as int, b[j] as int));
            if i > 0 {
                assert(shows_before(ms, a[0] as int, a[i] as int));
            }
        }
        assert(a[0] == b[0]);
        let a1 = a.drop_first();
        let b1 = b.drop_first();
        assert forall|x: usize| a1.contains(x) <==> b1.contains(x) by {
            if a1.contains(x) {
                let k = choose|k: int| 0 <= k < a1.len() && a1[k] == x;
                assert(a.contains(x));
                assert(shows_before(ms, a[0] as int, a[k + 1] as int));
                let m = choose|m: int| 0 <= m < b.len() && b[m] == x;
                if m == 0 {
                    assert(false);
                }
                assert(b1[m - 1] == x);
            }
            if b1.contains(x) {
                let k = choose|k: int| 0 <= k < b1.len() && b1[k] == x;
                assert(b.contains(x));
                assert(shows_before(ms, b[0] as int, b[k + 1] as int));
                let m = choose|m: int| 0 <= m < a.len() && a[m] == x;
                if m == 0 {
                    assert(false);
                }
                assert(a1[m - 1] == x);
            }
        }
        assert forall|k: int, l: int| 0 <= k < l < a1.len() implies shows_before(ms, a1[k] as int, a1[l] as int) by {
            assert(a1[k] == a[k + 1] && a1[l] == a[l + 1]);
        }
        assert forall|k: int, l: int| 0 <= k < l < b1.len() implies shows_before(ms, b1[k] as int, b1[l] as int) by {
            assert(b1[k] == b[k + 1] && b1[l] == b[l + 1]);
        }
        lemma_sorted_members_equal(ms, a1, b1);
        assert(a =~= seq![a[0]] + a1);
        assert(b =~= seq![b[0]] + b1);
    }
}

/// The pivotal moments are determined: two selections from the same moves for the same
/// user are the same.
pub proof fn lemma_pivotal_selection_unique(
    ms: Seq<AnalyzedMove>,
    uc: Option<Seq<char>>,
    a: Seq<usize>,
    b: Seq<usize>,
)
    requires
        pivotal_selection(ms, uc, a),
        pivotal_selection(ms, uc, b),
    ensures
        a == b,
{
    lemma_selection_members(ms, uc, a, b);
    lemma_selection_members(ms, uc, b, a);
    lemma_sorted_members_equal(ms, a, b);
}

impl Game {
    /// "vs {opponent}" when the opponent is known, else "{white} vs {black}".
    pub open spec fn title_text(self) -> Seq<char> {
        match self.opponent {
            Some(o) if o@.len() > 0 => "vs "@ + o@,
            _ => self.white@ + " vs "@ + self.black@,
        }
    }

    pub fn title(&self) -> (t: String)
        ensures
            t@ == self.title_text(),
    {
        let mut out: Vec<char> = Vec::new();
        match &self.opponent {
            Some(o) if !o.as_str().is_empty() => {
                crate::text::push_str(&mut out, "vs ");
                crate::text::push_str(&mut out, o.as_str());
                proof {
                    reveal_strlit("vs ");
                }
            },
            _ => {
                crate::text::push_str(&mut out, self.white.as_str());
                crate::text::push_str(&mut out, " vs ");
                crate::text::push_str(&mut out, self.black.as_str());
                proof {
                    reveal_strlit(" vs ");
                }
            },
        }
        crate::text::string_from_chars(&out)
    }

    /// Analysed: known to have an analysis, or holding one with at least one move.
    pub open spec fn analyzed(self) -> bool {
        self.has_analysis || (self.analysis is Some && self.analysis->0.moves@.len() > 0)
    }

    pub fn is_analyzed(&self) -> (b: bool)
        ensures
            b == self.analyzed(),
    {
        self.has_analysis || match &self.analysis {
            Some(a) => a.moves.len() > 0,
            None => false,
        }
    }

    /// Analysed and opened for review.
    pub fn is_reviewed(&self) -> (b: bool)
        ensures
            b == self.reviewed,
    {
        self.reviewed
    }

    pub fn outcome_for_user(&self) -> (o: &'static str)
        ensures
            o == outcome_text(opt_text(self.result), opt_text(self.user_color)),
    {
        let result = match &self.result {
            None => return "—",
            Some(r) => r.as_str(),
        };
        let color = match &self.user_color {
            Some(c) => c.as_str(),
            None => "white",
        };
        proof {
            reveal_strlit("white");
        }
        let white = str_eq(color, "white");
        let black = str_eq(color, "black");
        let win_w = str_eq(result, "1-0");
        let win_b = str_eq(result, "0-1");
        if (win_w && white) || (win_b && black) {
            "won"
        } else if (win_b && white) || (win_w && black) {
            "lost"
        } else if str_eq(result, "1/2-1/2") {
            "drew"
        } else {
            "—"
        }
    }

    /// The indices, in the analysis, of the pivotal moments (none without an analysis).
    pub fn pivotal_indices(&self) -> (idx: Vec<usize>)
        ensures
            match self.analysis {
                None => idx@.len() == 0,
                Some(a) => idx@ == pivotal_idx(a.moves@, opt_text(self.user_color)) && pivotal_selection(
                    a.moves@,
                    opt_text(self.user_color),
                    idx@,
                ),
            },
    {
        match &self.analysis {
            None => Vec::new(),
            Some(a) => pivotal_indices_of(&a.moves, user_color_of(self)),
        }
    }

    /// The pivotal moments: at most five of the user's inaccuracies, mistakes and
    /// blunders, the costliest (the earlier on a tie), in ply order.
    pub fn pivotal_moments(&self) -> (ms: Vec<&AnalyzedMove>)
        ensures
            match self.analysis {
                None => ms@.len() == 0,
                Some(a) => {
                    let idx = pivotal_idx(a.moves@, opt_text(self.user_color));
                    &&& ms@.len() == idx.len()
                    &&& forall|k: int| 0 <= k < idx.len() ==> *ms@[k] == a.moves@[#[trigger] idx[k] as int]
                },
            },
    {
        let idx = self.pivotal_indices();
        let mut ms: Vec<&AnalyzedMove> = Vec::new();
        match &self.analysis {
            None => ms,
            Some(a) => {
                let mut k: usize = 0;
                while k < idx.len()
                    invariant
                        self.analysis == Some(*a),
                        pivotal_selection(a.moves@, opt_text(self.user_color), idx@),
                        0 <= k <= idx@.len(),
                        ms@.len() == k,
                        forall|q: int| 0 <= q < k ==> *ms@[q] == a.moves@[#[trigger] idx@[q] as int],
                    decreases idx@.len() - k,
                {
                    let i = idx[k];
                    assert(is_pivotal(a.moves@[idx@[k as int] as int], opt_text(self.user_color)));
                    ms.push(&a.moves[i]);
                    k = k + 1;
                }
                ms
            },
        }
    }
}

} // verus!
