//! The end-of-week review pack: which games belong to the week, how each is written
//! down for the reader, and the prompt that asks for the review.
use vstd::prelude::*;

use crate::engine::{hundredths_chars, hundredths_text};
use crate::library::{KeyedAnalysis, Library};
use crate::models::{
    outcome_text, opt_text, pivotal_idx, pivotal_indices_of, pivotal_selection, time_before,
    AnalyzedMove, Game, GameAnalysis, UtcTime,
};
use crate::text::{
    int_text, push_int, str_eq,
    chars_of, find_first, occurs_at, find_lit, is_whitespace, is_ws, nat_chars, nat_text, push_chars, push_str,
    slice_chars, string_from_chars, strip_brace_chars, strip_braces, trim, trim_chars,
};

verus! {

/// Result of packing this week's games for the agent.
pub struct WeeklyReviewPack {
    pub game_count: usize,
    pub analyzed_count: usize,
    pub week_label: String,
    /// Relative path for the agent's working directory, e.g. `chess/2026-09-14.md`.
    pub review_relpath: String,
    pub prompt: String,
}

// ---------------------------------------------------------------------------
// Names and labels
// ---------------------------------------------------------------------------

/// The English ordinal suffix: "th" for 11 to 13 (mod 100), else by the last digit.
pub open spec fn ordinal_suffix(n: nat) -> Seq<char> {
    let m = n % 100;
    if 11 <= m <= 13 {
        "th"@
    } else if n % 10 == 1 {
        "st"@
    } else if n % 10 == 2 {
        "nd"@
    } else if n % 10 == 3 {
        "rd"@
    } else {
        "th"@
    }
}

pub open spec fn ordinal_text(n: nat) -> Seq<char> {
    nat_text(n) + ordinal_suffix(n)
}

/// `1st`, `2nd`, `3rd`, `4th`, ..., `11th`, ..., `21st`.
pub fn ordinal(n: usize) -> (s: String)
    ensures
        s@ == ordinal_text(n as nat),
{
    let m = n % 100;
    let suffix = if 11 <= m && m <= 13 {
        "th"
    } else if n % 10 == 1 {
        "st"
    } else if n % 10 == 2 {
        "nd"
    } else if n % 10 == 3 {
        "rd"
    } else {
        "th"
    };
    let mut out = nat_chars(n as u64);
    push_str(&mut out, suffix);
    proof {
        reveal_strlit("th");
        reveal_strlit("st");
        reveal_strlit("nd");
        reveal_strlit("rd");
    }
    string_from_chars(&out)
}

/// The review file of a week, named by its Monday: the label up to its first space
/// (all of it without one), under `chess/` with `.md`.
pub open spec fn review_relpath_text(week_label: Seq<char>) -> Seq<char> {
    let monday = match find_first(week_label, " "@) {
        Some(p) => week_label.subrange(0, p),
        None => week_label,
    };
    "chess/"@ + monday + ".md"@
}

pub fn review_relpath_for_week(week_label: &str) -> (p: String)
    ensures
        p@ == review_relpath_text(week_label@),
{
    let cs = chars_of(week_label);
    let monday = match find_lit(&cs, " ") {
        Some(p) => slice_chars(&cs, 0, p),
        None => cs,
    };
    let mut out: Vec<char> = Vec::new();
    push_str(&mut out, "chess/");
    push_chars(&mut out, &monday);
    push_str(&mut out, ".md");
    string_from_chars(&out)
}

// ---------------------------------------------------------------------------
// Compact movetext
// ---------------------------------------------------------------------------

/// Runs of whitespace written as one space.
pub open spec fn collapse_ws(s: Seq<char>) -> Seq<char>
    decreases s.len(),
{
    if s.len() == 0 {
        Seq::empty()
    } else {
        let r = collapse_ws(s.drop_last());
        if is_ws(s.last()) {
            if s.len() > 1 && is_ws(s[s.len() - 2]) {
                r
            } else {
                r.push(' ')
            }
        } else {
            r.push(s.last())
        }
    }
}

/// Text outside `{...}` comments, whitespace runs collapsed to one space, trimmed.
pub open spec fn comments_stripped(s: Seq<char>) -> Seq<char> {
    trim(collapse_ws(strip_braces(s)))
}

pub fn strip_brace_comments(s: &str) -> (r: String)
    ensures
        r@ == comments_stripped(s@),
{
    let cs = chars_of(s);
    let out = strip_brace_chars(&cs);
    let mut compact: Vec<char> = Vec::new();
    let mut prev_space = false;
    let mut i: usize = 0;
    while i < out.len()
        invariant
            0 <= i <= out@.len(),
            compact@ == collapse_ws(out@.take(i as int)),
            prev_space == (i > 0 && is_ws(out@[i - 1])),
        decreases out@.len() - i,
    {
        let ch = out[i];
        proof {
            assert(out@.take(i + 1).drop_last() =~= out@.take(i as int));
            assert(out@.take(i + 1).last() == ch);
            if i > 0 {
                assert(out@.take(i + 1)[i - 1] == out@[i - 1]);
            }
        }
        if is_whitespace(ch) {
            if !prev_space {
                compact.push(' ');
            }
            prev_space = true;
        } else {
            compact.push(ch);
            prev_space = false;
        }
        i = i + 1;
    }
    assert(out@.take(out@.len() as int) =~= out@);
    let t = trim_chars(&compact);
    string_from_chars(&t)
}

pub open spec fn is_digit_char(c: char) -> bool {
    '0' <= c <= '9'
}

/// Where the run of digits that starts at `i` ends.
pub open spec fn digit_run_end(b: Seq<char>, i: int) -> int
    decreases b.len() - i,
{
    if 0 <= i < b.len() && is_digit_char(b[i]) {
        digit_run_end(b, i + 1)
    } else {
        i
    }
}

/// The characters of `b` from `i` on, except that a run of digits followed by `...` is
/// dropped together with the dots and one space after them.
pub open spec fn markers_dropped(b: Seq<char>, i: int) -> Seq<char>
    decreases b.len() - i,
{
    if i < 0 || i >= b.len() {
        Seq::empty()
    } else if is_digit_char(b[i]) {
        let j = digit_run_end(b, i);
        proof {
            lemma_digit_run_end(b, i + 1);
        }
        if j + 2 < b.len() && b[j] == '.' && b[j + 1] == '.' && b[j + 2] == '.' {
            let k = j + 3;
            let k2 = if k < b.len() && b[k] == ' ' {
                k + 1
            } else {
                k
            };
            markers_dropped(b, k2)
        } else {
            b.subrange(i, j) + markers_dropped(b, j)
        }
    } else {
        seq![b[i]] + markers_dropped(b, i + 1)
    }
}

pub proof fn lemma_digit_run_end(b: Seq<char>, i: int)
    requires
        0 <= i <= b.len(),
    ensures
        i <= digit_run_end(b, i) <= b.len(),
        forall|k: int| i <= k < digit_run_end(b, i) ==> is_digit_char(#[trigger] b[k]),
        digit_run_end(b, i) < b.len() ==> !is_digit_char(b[digit_run_end(b, i)]),
    decreases b.len() - i,
{
    if i < b.len() && is_digit_char(b[i]) {
        lemma_digit_run_end(b, i + 1);
    }
}

/// Drops black's `12...` move markers (and one space after them); every other
/// character is kept as it is.
pub fn strip_black_move_markers(s: &str) -> (r: String)
    ensures
        r@ == markers_dropped(s@, 0),
{
    let cs = chars_of(s);
    let ghost b = cs@;
    let n = cs.len();
    let mut out: Vec<char> = Vec::new();
    let mut i: usize = 0;
    while i < n
        invariant
            n == b.len(),
            b == cs@,
            0 <= i <= n,
            out@ + markers_dropped(b, i as int) == markers_dropped(b, 0),
        decreases n - i,
    {
        if cs[i] >= '0' && cs[i] <= '9' {
            let start = i;
            proof {
                lemma_digit_run_end(b, i as int);
            }
            while i < n && cs[i] >= '0' && cs[i] <= '9'
                invariant
                    n == b.len(),
                    b == cs@,
                    start <= i <= n,
                    digit_run_end(b, start as int) == digit_run_end(b, i as int),
                    forall|k: int| start <= k < i ==> is_digit_char(#[trigger] b[k]),
                decreases n - i,
            {
                i = i + 1;
            }
            let ghost j = i as int;
            assert(digit_run_end(b, j) == j);
            if n - i > 2 && cs[i] == '.' && cs[i + 1] == '.' && cs[i + 2] == '.' {
                i = i + 3;
                if i < n && cs[i] == ' ' {
                    i = i + 1;
                }
            } else {
                let ghost o0 = out@;
                let mut k: usize = start;
                while k < i
                    invariant
                        n == b.len(),
                        b == cs@,
                        start <= k <= i <= n,
                        out@ == o0 + b.subrange(start as int, k as int),
                    decreases i - k,
                {
                    out.push(cs[k]);
                    proof {
                        assert(b.subrange(start as int, k + 1) =~= b.subrange(start as int, k as int).push(
                            b[k as int],
                        ));
                    }
                    k = k + 1;
                }
                proof {
                    assert(out@ + markers_dropped(b, i as int) =~= o0 + markers_dropped(b, start as int));
                }
            }
        } else {
            let c: char = cs[i];
            let ghost o0 = out@;
            out.push(c);
            proof {
                assert(markers_dropped(b, i as int) == seq![b[i as int]] + markers_dropped(b, i + 1));
                assert(out@ + markers_dropped(b, i + 1) =~= o0 + markers_dropped(b, i as int));
            }
            i = i + 1;
        }
    }
    string_from_chars(&out)
}

/// The movetext after the first blank line (the whole text without one), trimmed.
pub open spec fn movetext_part(pgn: Seq<char>) -> Seq<char> {
    match find_first(pgn, "\n\n"@) {
        Some(p) => trim(pgn.subrange(p + 2, pgn.len() as int)),
        None => trim(pgn),
    }
}

/// Movetext only: clock and other comments stripped, black `N...` markers removed.
pub open spec fn compact_movetext_text(pgn: Seq<char>) -> Seq<char> {
    markers_dropped(comments_stripped(movetext_part(pgn)), 0)
}

pub fn compact_movetext(pgn: &str) -> (r: String)
    ensures
        r@ == compact_movetext_text(pgn@),
{
    let cs = chars_of(pgn);
    proof {
        reveal_strlit("\n\n");
    }
    let part = match find_lit(&cs, "\n\n") {
        Some(p) => {
            let n = cs.len();
            assert(occurs_at(cs@, "\n\n"@, p as int));
            let rest = slice_chars(&cs, p + 2, n);
            trim_chars(&rest)
        },
        None => trim_chars(&cs),
    };
    let part_s = string_from_chars(&part);
    let no_comments = strip_brace_comments(part_s.as_str());
    strip_black_move_markers(no_comments.as_str())
}

// ---------------------------------------------------------------------------
// The week's games and how each is named
// ---------------------------------------------------------------------------

/// Played within the week, both ends included.
pub open spec fn in_week(at: Option<UtcTime>, start: UtcTime, end: UtcTime) -> bool {
    match at {
        Some(t) => !time_before(t, start) && !time_before(end, t),
        None => false,
    }
}

/// The games of `s` played within the week, in order.
pub open spec fn week_games(s: Seq<Game>, start: UtcTime, end: UtcTime) -> Seq<Game>
    decreases s.len(),
{
    if s.len() == 0 {
        Seq::empty()
    } else if in_week(s.last().played_at, start, end) {
        week_games(s.drop_last(), start, end).push(s.last())
    } else {
        week_games(s.drop_last(), start, end)
    }
}

/// `t` is at or after `a` (seconds, then nanoseconds).
pub open spec fn at_or_after(t: UtcTime, a: UtcTime) -> bool {
    t.secs > a.secs || (t.secs == a.secs && t.nanos >= a.nanos)
}

/// A game played at `at` lies between `start` and `end`, both included.
pub open spec fn lies_between(at: Option<UtcTime>, start: UtcTime, end: UtcTime) -> bool {
    match at {
        Some(t) => at_or_after(t, start) && at_or_after(end, t),
        None => false,
    }
}

/// The week's games are exactly the dated games of the library played at or after the
/// week's start and at or before its end, in library order: every game kept lies in the
/// week, and every game of the library that lies in it is kept.
pub proof fn law_week_games_in_week(s: Seq<Game>, start: UtcTime, end: UtcTime)
    ensures
        forall|k: int|
            0 <= k < week_games(s, start, end).len() ==> lies_between(
                (#[trigger] week_games(s, start, end)[k]).played_at,
                start,
                end,
            ),
        forall|j: int|
            0 <= j < s.len() && lies_between((#[trigger] s[j]).played_at, start, end) ==> week_games(s, start, end).contains(s[j]),
        week_games(s, start, end).len() <= s.len(),
    decreases s.len(),
{
    if s.len() > 0 {
        let w0 = week_games(s.drop_last(), start, end);
        law_week_games_in_week(s.drop_last(), start, end);
        assert forall|j: int|
            0 <= j < s.len() && lies_between((#[trigger] s[j]).played_at, start, end) implies week_games(s, start, end).contains(s[j]) by {
            if j < s.len() - 1 {
                assert(s.drop_last()[j] == s[j]);
                let i = choose|i: int| 0 <= i < w0.len() && w0[i] == s[j];
                if in_week(s.last().played_at, start, end) {
                    assert(week_games(s, start, end)[i] == s[j]);
                }
            } else {
                assert(week_games(s, start, end).last() == s[j]);
            }
        }
    }
}

fn played_in_week(g: &Game, start: UtcTime, end: UtcTime) -> (b: bool)
    ensures
        b == in_week(g.played_at, start, end),
{
    match g.played_at {
        Some(t) => {
            let before_start = t.secs < start.secs || (t.secs == start.secs && t.nanos < start.nanos);
            let after_end = end.secs < t.secs || (end.secs == t.secs && end.nanos < t.nanos);
            !before_start && !after_end
        },
        None => false,
    }
}

/// The games of the library played between `start` and `end` (the week's bounds).
pub fn games_this_week(library: &Library, start: UtcTime, end: UtcTime) -> (r: Vec<&Game>)
    ensures
        r@.len() == week_games(library.games@, start, end).len(),
        forall|k: int| 0 <= k < r@.len() ==> *r@[k] == week_games(library.games@, start, end)[k],
{
    let ghost g = library.games@;
    let n = library.games.len();
    let mut r: Vec<&Game> = Vec::new();
    let mut i: usize = 0;
    while i < n
        invariant
            n == g.len(),
            g == library.games@,
            0 <= i <= n,
            r@.len() == week_games(g.take(i as int), start, end).len(),
            forall|k: int| 0 <= k < r@.len() ==> *r@[k] == week_games(g.take(i as int), start, end)[k],
        decreases n - i,
    {
        assert(g.take(i + 1).drop_last() =~= g.take(i as int));
        if played_in_week(&library.games[i], start, end) {
            r.push(&library.games[i]);
        }
        i = i + 1;
    }
    assert(g.take(n as int) =~= g);
    r
}

/// "{opponent} {date}": the opponent's name ("unknown" when missing or empty) and the
/// local date the game was played ("unknown-date" without one).
pub open spec fn ref_base_text(g: Game, local_date: Option<Seq<char>>) -> Seq<char> {
    let opp = match g.opponent {
        Some(o) if o@.len() > 0 => o@,
        _ => "unknown"@,
    };
    let date = match local_date {
        Some(d) => d,
        None => "unknown-date"@,
    };
    opp + " "@ + date
}

pub fn game_ref_base(game: &Game, local_date: Option<&str>) -> (r: String)
    ensures
        r@ == ref_base_text(*game, match local_date { Some(d) => Some(d@), None => None }),
{
    let mut out: Vec<char> = Vec::new();
    match &game.opponent {
        Some(o) if !o.as_str().is_empty() => push_str(&mut out, o.as_str()),
        _ => push_str(&mut out, "unknown"),
    }
    push_str(&mut out, " ");
    match local_date {
        Some(d) => push_str(&mut out, d),
        None => push_str(&mut out, "unknown-date"),
    }
    string_from_chars(&out)
}

/// How many times `t` occurs in `s`.
pub open spec fn count_of(s: Seq<Seq<char>>, t: Seq<char>) -> nat
    decreases s.len(),
{
    if s.len() == 0 {
        0
    } else {
        count_of(s.drop_last(), t) + if s.last() == t { 1nat } else { 0nat }
    }
}

/// The name of game `k`: its base, with "(1st)", "(2nd)", ... when the same base
/// names more than one game.
pub open spec fn ref_text(bases: Seq<Seq<char>>, k: int) -> Seq<char> {
    if count_of(bases, bases[k]) > 1 {
        bases[k] + " ("@ + ordinal_text(count_of(bases.take(k + 1), bases[k])) + ")"@
    } else {
        bases[k]
    }
}

fn count_in(bases: &Vec<String>, upto: usize, t: &str) -> (c: usize)
    requires
        upto <= bases@.len(),
    ensures
        c == count_of(bases.deep_view().take(upto as int), t@),
{
    let ghost b = bases.deep_view();
    let mut c: usize = 0;
    let mut i: usize = 0;
    while i < upto
        invariant
            b == bases.deep_view(),
            upto <= bases@.len(),
            0 <= i <= upto,
            c == count_of(b.take(i as int), t@),
            c <= i,
        decreases upto - i,
    {
        assert(b.take(i + 1).drop_last() =~= b.take(i as int));
        assert(bases@[i as int]@ == b[i as int]);
        if str_eq(bases[i].as_str(), t) {
            c = c + 1;
        }
        i = i + 1;
    }
    c
}

/// The names of games from their bases: a base that names several games gets its
/// ordinal among them.
pub fn game_refs(bases: &Vec<String>) -> (r: Vec<String>)
    ensures
        r@.len() == bases@.len(),
        forall|k: int| 0 <= k < r@.len() ==> #[trigger] r@[k]@ == ref_text(bases.deep_view(), k),
{
    let ghost b = bases.deep_view();
    let n = bases.len();
    let mut r: Vec<String> = Vec::new();
    let mut k: usize = 0;
    while k < n
        invariant
            n == bases@.len(),
            b == bases.deep_view(),
            0 <= k <= n,
            r@.len() == k,
            forall|q: int| 0 <= q < k ==> #[trigger] r@[q]@ == ref_text(b, q),
        decreases n - k,
    {
        let base = bases[k].as_str();
        assert(bases@[k as int]@ == b[k as int]);
        let total = count_in(bases, n, base);
        assert(b.take(n as int) =~= b);
        if total > 1 {
            let seen = count_in(bases, k + 1, base);
            let mut out = chars_of(base);
            push_str(&mut out, " (");
            let o = ordinal(seen);
            push_str(&mut out, o.as_str());
            push_str(&mut out, ")");
            r.push(string_from_chars(&out));
        } else {
            r.push(bases[k].clone());
        }
        k = k + 1;
    }
    r
}

// ---------------------------------------------------------------------------
// One game, written down
// ---------------------------------------------------------------------------

pub open spec fn or_unknown(o: Option<String>) -> Seq<char> {
    match o {
        Some(s) => s@,
        None => "?"@,
    }
}

fn push_or_unknown(out: &mut Vec<char>, o: &Option<String>)
    ensures
        final(out)@ == old(out)@ + or_unknown(*o),
{
    match o {
        Some(s) => push_str(out, s.as_str()),
        None => push_str(out, "?"),
    }
}

pub open spec fn elo_text(mine: Option<i32>, theirs: Option<i32>) -> Seq<char> {
    match (mine, theirs) {
        (Some(a), Some(b)) => " elo "@ + int_text(a as int) + "/"@ + int_text(b as int),
        (Some(a), None) => " elo "@ + int_text(a as int),
        _ => Seq::empty(),
    }
}

pub open spec fn eco_text(eco: Option<String>) -> Seq<char> {
    match eco {
        Some(e) if e@.len() > 0 => " eco "@ + e@,
        _ => Seq::empty(),
    }
}

/// The head of a game's entry: name, time control, the user's colour and name, ratings
/// (the user's first), opening code, result and outcome, then the compact movetext.
pub open spec fn game_head_text(game_ref: Seq<char>, g: Game, me: Seq<char>) -> Seq<char> {
    let color = or_unknown(g.user_color);
    let (mine, theirs) = if color == "black"@ {
        (g.black_elo, g.white_elo)
    } else {
        (g.white_elo, g.black_elo)
    };
    game_ref + " | tc="@ + or_unknown(g.time_control) + " me="@ + color + " ("@ + me + ")"@
        + elo_text(mine, theirs) + eco_text(g.eco) + " "@ + or_unknown(g.result) + " ("@
        + outcome_text(opt_text(g.result), opt_text(g.user_color))@ + ")\nmoves: "@
        + compact_movetext_text(g.pgn@) + "\n"@
}

/// Words joined with single spaces.
pub open spec fn join_words(ws: Seq<Seq<char>>) -> Seq<char>
    decreases ws.len(),
{
    if ws.len() == 0 {
        Seq::empty()
    } else if ws.len() == 1 {
        ws[0]
    } else {
        join_words(ws.drop_last()) + " "@ + ws.last()
    }
}

/// The engine's first line as " [m1 m2 m3 m4]" (nothing when it has no words).
pub open spec fn pv_text(pv: Option<Vec<String>>) -> Seq<char> {
    match pv {
        Some(v) => {
            let take = join_words(v.deep_view().take(if v@.len() < 4 { v@.len() as int } else { 4 }));
            if take.len() == 0 {
                Seq::empty()
            } else {
                " ["@ + take + "]"@
            }
        },
        None => Seq::empty(),
    }
}

pub open spec fn pivot_loss(m: AnalyzedMove) -> Seq<char> {
    match m.loss_cp {
        Some(cp) => hundredths_text(cp as int),
        None => "?"@,
    }
}

pub open spec fn pivot_best_san(m: AnalyzedMove) -> Seq<char> {
    if m.best_moves@.len() > 0 {
        or_unknown(m.best_moves@[0].san)
    } else {
        "?"@
    }
}

pub open spec fn pivot_best_eval(m: AnalyzedMove) -> Seq<char> {
    match m.eval_before_best_text {
        Some(t) => t@,
        None => if m.best_moves@.len() > 0 {
            or_unknown(m.best_moves@[0].eval_text)
        } else {
            "?"@
        },
    }
}

pub open spec fn pivot_pv(m: AnalyzedMove) -> Seq<char> {
    if m.best_moves@.len() > 0 {
        pv_text(m.best_moves@[0].pv_san)
    } else {
        Seq::empty()
    }
}

/// One pivotal moment: "- ply N SAN class -LOSS →EVAL best SAN@EVAL [PV]".
pub open spec fn pivot_line(m: AnalyzedMove) -> Seq<char> {
    "- ply "@ + nat_text(m.ply as nat) + " "@ + m.san@ + " "@ + m.classification@ + " -"@
        + pivot_loss(m) + " →"@ + or_unknown(m.eval_played_text) + " best "@ + pivot_best_san(m)
        + "@"@ + pivot_best_eval(m) + pivot_pv(m) + "\n"@
}

/// The lines of the moves at `idx`, one after another.
pub open spec fn pivot_lines(moves: Seq<AnalyzedMove>, idx: Seq<usize>) -> Seq<char>
    decreases idx.len(),
{
    if idx.len() == 0 {
        Seq::empty()
    } else {
        pivot_lines(moves, idx.drop_last()) + pivot_line(moves[idx.last() as int])
    }
}

/// The pivots part of a game's entry.
pub open spec fn pivots_text(g: Game, analysis: Option<GameAnalysis>) -> Seq<char> {
    match analysis {
        None => "pivots: (unanalyzed)\n"@,
        Some(a) => {
            let idx = pivotal_idx(a.moves@, opt_text(g.user_color));
            if idx.len() == 0 {
                "pivots: (none)\n"@
            } else {
                "pivots:\n"@ + pivot_lines(a.moves@, idx)
            }
        },
    }
}

pub open spec fn game_text(game_ref: Seq<char>, g: Game, analysis: Option<GameAnalysis>, me: Seq<char>) -> Seq<char> {
    game_head_text(game_ref, g, me) + pivots_text(g, analysis)
}

fn push_words(out: &mut Vec<char>, v: &Vec<String>)
    ensures
        final(out)@ == old(out)@ + pv_text(Some(*v)),
{
    let n: usize = if v.len() < 4 {
        v.len()
    } else {
        4
    };
    let ghost w = v.deep_view().take(n as int);
    let mut take: Vec<char> = Vec::new();
    let mut i: usize = 0;
    while i < n
        invariant
            n <= v@.len(),
            w == v.deep_view().take(n as int),
            0 <= i <= n,
            take@ == join_words(w.take(i as int)),
        decreases n - i,
    {
        assert(w.take(i + 1).drop_last() =~= w.take(i as int));
        assert(v@[i as int]@ == w[i as int]);
        if i > 0 {
            push_str(&mut take, " ");
        } else {
            assert(w.take(1)[0] == w[0]);
        }
        push_str(&mut take, v[i].as_str());
        i = i + 1;
    }
    assert(w.take(n as int) =~= w);
    if take.len() > 0 {
        push_str(out, " [");
        push_chars(out, &take);
        push_str(out, "]");
    }
}

fn push_loss(out: &mut Vec<char>, m: &AnalyzedMove)
    ensures
        final(out)@ == old(out)@ + pivot_loss(*m),
{
    match m.loss_cp {
        Some(cp) => {
            let l = hundredths_chars(cp as i64);
            push_chars(out, &l);
        },
        None => push_str(out, "?"),
    }
}

fn push_best(out: &mut Vec<char>, m: &AnalyzedMove)
    ensures
        final(out)@ == old(out)@ + pivot_best_san(*m) + "@"@ + pivot_best_eval(*m) + pivot_pv(*m),
{
    let ghost o0 = out@;
    if m.best_moves.len() > 0 {
        push_or_unknown(out, &m.best_moves[0].san);
    } else {
        push_str(out, "?");
    }
    push_str(out, "@");
    match &m.eval_before_best_text {
        Some(t) => push_str(out, t.as_str()),
        None => {
            if m.best_moves.len() > 0 {
                push_or_unknown(out, &m.best_moves[0].eval_text);
            } else {
                push_str(out, "?");
            }
        },
    }
    if m.best_moves.len() > 0 {
        match &m.best_moves[0].pv_san {
            Some(v) => push_words(out, v),
            None => {},
        }
    }
    assert(out@ =~= o0 + pivot_best_san(*m) + "@"@ + pivot_best_eval(*m) + pivot_pv(*m));
}

fn push_pivot_line(out: &mut Vec<char>, m: &AnalyzedMove)
    ensures
        final(out)@ == old(out)@ + pivot_line(*m),
{
    let ghost o0 = out@;
    push_str(out, "- ply ");
    let plies = nat_chars(m.ply as u64);
    push_chars(out, &plies);
    push_str(out, " ");
    push_str(out, m.san.as_str());
    push_str(out, " ");
    push_str(out, m.classification.as_str());
    push_str(out, " -");
    push_loss(out, m);
    push_str(out, " →");
    push_or_unknown(out, &m.eval_played_text);
    push_str(out, " best ");
    push_best(out, m);
    push_str(out, "\n");
    assert(out@ =~= o0 + pivot_line(*m));
}

fn push_opt_elo(out: &mut Vec<char>, mine: Option<i32>, theirs: Option<i32>)
    ensures
        final(out)@ == old(out)@ + elo_text(mine, theirs),
{
    match (mine, theirs) {
        (Some(a), Some(b)) => {
            push_str(out, " elo ");
            push_int(out, a as i64);
            push_str(out, "/");
            push_int(out, b as i64);
        },
        (Some(a), None) => {
            push_str(out, " elo ");
            push_int(out, a as i64);
        },
        _ => {},
    }
}

/// A game's entry in the weekly pack: its head and its pivotal moments.
pub fn format_game(game_ref: &str, game: &Game, analysis: Option<&GameAnalysis>, me: &str) -> (r: String)
    ensures
        r@ == game_text(game_ref@, *game, match analysis { Some(a) => Some(*a), None => None }, me@),
{
    let mut out = chars_of(game_ref);
    push_str(&mut out, " | tc=");
    push_or_unknown(&mut out, &game.time_control);
    push_str(&mut out, " me=");
    push_or_unknown(&mut out, &game.user_color);
    push_str(&mut out, " (");
    push_str(&mut out, me);
    push_str(&mut out, ")");
    let is_black = match &game.user_color {
        Some(c) => str_eq(c.as_str(), "black"),
        None => {
            proof {
                reveal_strlit("?");
                reveal_strlit("black");
            }
            false
        },
    };
    if is_black {
        push_opt_elo(&mut out, game.black_elo, game.white_elo);
    } else {
        push_opt_elo(&mut out, game.white_elo, game.black_elo);
    }
    match &game.eco {
        Some(e) if !e.as_str().is_empty() => {
            push_str(&mut out, " eco ");
            push_str(&mut out, e.as_str());
        },
        _ => {},
    }
    push_str(&mut out, " ");
    push_or_unknown(&mut out, &game.result);
    push_str(&mut out, " (");
    push_str(&mut out, game.outcome_for_user());
    push_str(&mut out, ")\nmoves: ");
    let mt = compact_movetext(game.pgn.as_str());
    push_str(&mut out, mt.as_str());
    push_str(&mut out, "\n");
    let ghost head = out@;
    assert(head == game_head_text(game_ref@, *game, me@));
    match analysis {
        None => push_str(&mut out, "pivots: (unanalyzed)\n"),
        Some(a) => {
            let uc: Option<&str> = match &game.user_color {
                Some(c) => Some(c.as_str()),
                None => None,
            };
            let idx = pivotal_indices_of(&a.moves, uc);
            assert(crate::models::opt_str(uc) == opt_text(game.user_color));
            if idx.len() == 0 {
                push_str(&mut out, "pivots: (none)\n");
            } else {
                push_str(&mut out, "pivots:\n");
                let ghost start = out@;
                let mut k: usize = 0;
                while k < idx.len()
                    invariant
                        pivotal_selection(a.moves@, opt_text(game.user_color), idx@),
                        0 <= k <= idx@.len(),
                        out@ == start + pivot_lines(a.moves@, idx@.take(k as int)),
                    decreases idx@.len() - k,
                {
                    assert(idx@.take(k + 1).drop_last() =~= idx@.take(k as int));
                    let i = idx[k];
                    assert(crate::models::is_pivotal(a.moves@[idx@[k as int] as int], opt_text(game.user_color)));
                    push_pivot_line(&mut out, &a.moves[i]);
                    k = k + 1;
                }
                assert(idx@.take(idx@.len() as int) =~= idx@);
            }
        },
    }
    string_from_chars(&out)
}

// ---------------------------------------------------------------------------
// The pack
// ---------------------------------------------------------------------------

/// The first game that names the user.
pub open spec fn first_username(wg: Seq<Game>) -> Option<Seq<char>>
    decreases wg.len(),
{
    if wg.len() == 0 {
        None
    } else {
        match wg[0].my_username {
            Some(u) => Some(u@),
            None => first_username(wg.drop_first()),
        }
    }
}

/// Who the review is for: the user name in the settings, else the first one a game of
/// the week carries, else "me".
pub open spec fn me_text(settings_name: Option<String>, wg: Seq<Game>) -> Seq<char> {
    match settings_name {
        Some(u) => u@,
        None => match first_username(wg) {
            Some(u) => u,
            None => "me"@,
        },
    }
}

/// The analysis loaded for a game: the first with its key.
pub open spec fn analysis_lookup(analyses: Seq<KeyedAnalysis>, g: Game) -> Option<GameAnalysis>
    decreases analyses.len(),
{
    if analyses.len() == 0 {
        None
    } else if analyses[0].id@ == g.id@ && analyses[0].game_type@ == g.game_type@ {
        Some(analyses[0].analysis)
    } else {
        analysis_lookup(analyses.drop_first(), g)
    }
}

/// The entries of the first `n` games, each followed by a blank line's newline.
pub open spec fn pack_body(
    refs: Seq<Seq<char>>,
    wg: Seq<Game>,
    analyses: Seq<KeyedAnalysis>,
    me: Seq<char>,
    n: int,
) -> Seq<char>
    decreases n,
{
    if n <= 0 {
        Seq::empty()
    } else {
        pack_body(refs, wg, analyses, me, n - 1) + game_text(
            refs[n - 1],
            wg[n - 1],
            analysis_lookup(analyses, wg[n - 1]),
            me,
        ) + "\n"@
    }
}

/// How many of the first `n` games have an analysis.
pub open spec fn analyzed_in(wg: Seq<Game>, analyses: Seq<KeyedAnalysis>, n: int) -> nat
    decreases n,
{
    if n <= 0 {
        0
    } else {
        analyzed_in(wg, analyses, n - 1) + if analysis_lookup(analyses, wg[n - 1]) is Some {
            1nat
        } else {
            0nat
        }
    }
}

pub open spec fn prompt_text(
    me: Seq<char>,
    week_label: Seq<char>,
    games: nat,
    analyzed: nat,
    relpath: Seq<char>,
    body: Seq<char>,
) -> Seq<char> {
    "Weekly chess review for "@ + me + ". Week "@ + week_label + ". "@ + nat_text(games) + " games ("@
        + nat_text(analyzed) + PROMPT_TASK@ + relpath + PROMPT_NOTATION@ + body
}

pub const PROMPT_TASK: &'static str = " analyzed).\n\nTask: Review these games. Describe 4 mistakes to improve next week:\n- 2 patterns common to both colors (mistakes I make as White and as Black)\n- 1 mistake specific to when I play White\n- 1 mistake specific to when I play Black\nLink examples across games where you can. For each, give concise practical steps I can apply next week. No fluff — I will re-run this next week to check progress.\n\nWhen citing a game, use its title exactly (opponent name + date; with 1st/2nd/… when shown). When citing a mistake, always include the ply number (e.g. ply 17) so I can jump to it in Reprise.\n\nWrite the full review as markdown to ";

pub const PROMPT_NOTATION: &'static str = " (create the chess/ directory if needed; path is relative to your working directory).\n\nNotation: me=my color; pivots=my top 5 worst moves by centipawn loss (ply N, SAN, class, loss, eval after play, best alternative).\n\n";

fn lookup_analysis<'a>(analyses: &'a Vec<KeyedAnalysis>, g: &Game) -> (r: Option<&'a GameAnalysis>)
    ensures
        match analysis_lookup(analyses@, *g) {
            Some(a) => r matches Some(x) && *x == a,
            None => r is None,
        },
{
    let mut i: usize = 0;
    assert(analyses@.skip(0) =~= analyses@);
    while i < analyses.len()
        invariant
            0 <= i <= analyses@.len(),
            analysis_lookup(analyses@, *g) == analysis_lookup(analyses@.skip(i as int), *g),
        decreases analyses@.len() - i,
    {
        let ghost rest = analyses@.skip(i as int);
        assert(rest.drop_first() =~= analyses@.skip(i + 1));
        assert(rest[0] == analyses@[i as int]);
        if str_eq(analyses[i].id.as_str(), g.id.as_str()) && str_eq(
            analyses[i].game_type.as_str(),
            g.game_type.as_str(),
        ) {
            return Some(&analyses[i].analysis);
        }
        i = i + 1;
    }
    None
}

fn me_of<'a>(library: &'a Library, wg: &Vec<&'a Game>) -> (r: &'a str)
    ensures
        r@ == me_text(library.settings.my_username, wg@.map_values(|g: &Game| *g)),
{
    let ghost w = wg@.map_values(|g: &Game| *g);
    match &library.settings.my_username {
        Some(u) => u.as_str(),
        None => {
            let mut i: usize = 0;
            assert(w.skip(0) =~= w);
            while i < wg.len()
                invariant
                    library.settings.my_username is None,
                    w == wg@.map_values(|g: &Game| *g),
                    0 <= i <= wg@.len(),
                    first_username(w) == first_username(w.skip(i as int)),
                decreases wg@.len() - i,
            {
                let ghost rest = w.skip(i as int);
                assert(rest.drop_first() =~= w.skip(i + 1));
                assert(rest[0] == *wg@[i as int]);
                match &wg[i].my_username {
                    Some(u) => {
                        return u.as_str();
                    },
                    None => {},
                }
                i = i + 1;
            }
            proof {
                reveal_strlit("me");
            }
            "me"
        },
    }
}

/// The keys (id, game type) of games, in order.
pub fn game_keys(games: &Vec<&Game>) -> (keys: Vec<(String, String)>)
    ensures
        keys@.len() == games@.len(),
        forall|k: int| 0 <= k < keys@.len() ==> #[trigger] keys@[k].0@ == games@[k].id@ && keys@[k].1@ == games@[k].game_type@,
{
    let mut keys: Vec<(String, String)> = Vec::new();
    let mut i: usize = 0;
    while i < games.len()
        invariant
            0 <= i <= games@.len(),
            keys@.len() == i,
            forall|k: int| 0 <= k < i ==> #[trigger] keys@[k].0@ == games@[k].id@ && keys@[k].1@ == games@[k].game_type@,
        decreases games@.len() - i,
    {
        let id = games[i].id.clone();
        let gt = games[i].game_type.clone();
        keys.push((id, gt));
        assert(keys@[i as int].0@ == games@[i as int].id@);
        i = i + 1;
    }
    keys
}

/// The weekly review pack: the week's games (played between `start` and `end`), each
/// named by opponent and the local date it was played (`local_dates`, one per game of
/// the week), written down with its analysis where one was loaded, under the prompt
/// that asks for the review.
pub fn build_pack(
    library: &Library,
    start: UtcTime,
    end: UtcTime,
    week_label: &str,
    local_dates: &Vec<Option<String>>,
    analyses: &Vec<KeyedAnalysis>,
) -> (pack: WeeklyReviewPack)
    requires
        local_dates@.len() == week_games(library.games@, start, end).len(),
    ensures
        ({
            let wg = week_games(library.games@, start, end);
            let bases = Seq::new(
                wg.len(),
                |k: int| ref_base_text(wg[k], opt_text(local_dates@[k])),
            );
            let refs = Seq::new(wg.len(), |k: int| ref_text(bases, k));
            let me = me_text(library.settings.my_username, wg);
            let analyzed = analyzed_in(wg, analyses@, wg.len() as int);
            &&& pack.game_count == wg.len()
            &&& pack.analyzed_count == analyzed
            &&& pack.week_label@ == week_label@
            &&& pack.review_relpath@ == review_relpath_text(week_label@)
            &&& pack.prompt@ == prompt_text(
                me,
                week_label@,
                wg.len(),
                analyzed,
                review_relpath_text(week_label@),
                pack_body(refs, wg, analyses@, me, wg.len() as int),
            )
        }),
{
    let wg = games_this_week(library, start, end);
    let ghost w = week_games(library.games@, start, end);
    assert(wg@.map_values(|g: &Game| *g) =~= w);
    let me = me_of(library, &wg);
    let n = wg.len();
    let mut bases: Vec<String> = Vec::new();
    let mut k: usize = 0;
    while k < n
        invariant
            n == w.len(),
            n == local_dates@.len(),
            wg@.len() == n,
            forall|q: int| 0 <= q < n ==> *wg@[q] == w[q],
            0 <= k <= n,
            bases@.len() == k,
            forall|q: int| 0 <= q < k ==> #[trigger] bases@[q]@ == ref_base_text(w[q], opt_text(local_dates@[q])),
        decreases n - k,
    {
        let d: Option<&str> = match &local_dates[k] {
            Some(d) => Some(d.as_str()),
            None => None,
        };
        bases.push(game_ref_base(wg[k], d));
        k = k + 1;
    }
    let ghost bs = Seq::new(w.len(), |q: int| ref_base_text(w[q], opt_text(local_dates@[q])));
    assert(bases.deep_view() =~= bs) by {
        assert forall|q: int| 0 <= q < n implies bases.deep_view()[q] == bs[q] by {
            assert(bases@[q]@ == bases.deep_view()[q]);
        }
    }
    let refs = game_refs(&bases);
    let ghost rs = Seq::new(w.len(), |q: int| ref_text(bs, q));
    let mut body: Vec<char> = Vec::new();
    let mut analyzed: usize = 0;
    let mut i: usize = 0;
    while i < n
        invariant
            n == w.len(),
            wg@.len() == n,
            forall|q: int| 0 <= q < n ==> *wg@[q] == w[q],
            refs@.len() == n,
            forall|q: int| 0 <= q < n ==> #[trigger] refs@[q]@ == rs[q],
            rs == Seq::new(w.len(), |q: int| ref_text(bs, q)),
            0 <= i <= n,
            body@ == pack_body(rs, w, analyses@, me@, i as int),
            analyzed == analyzed_in(w, analyses@, i as int),
            analyzed <= i,
        decreases n - i,
    {
        let a = lookup_analysis(analyses, wg[i]);
        if a.is_some() {
            analyzed = analyzed + 1;
        }
        let entry = format_game(refs[i].as_str(), wg[i], a, me);
        push_str(&mut body, entry.as_str());
        push_str(&mut body, "\n");
        i = i + 1;
    }
    let relpath = review_relpath_for_week(week_label);
    let mut prompt: Vec<char> = Vec::new();
    push_str(&mut prompt, "Weekly chess review for ");
    push_str(&mut prompt, me);
    push_str(&mut prompt, ". Week ");
    push_str(&mut prompt, week_label);
    push_str(&mut prompt, ". ");
    let gc = nat_chars(n as u64);
    push_chars(&mut prompt, &gc);
    push_str(&mut prompt, " games (");
    let ac = nat_chars(analyzed as u64);
    push_chars(&mut prompt, &ac);
    push_str(&mut prompt, PROMPT_TASK);
    push_str(&mut prompt, relpath.as_str());
    push_str(&mut prompt, PROMPT_NOTATION);
    push_chars(&mut prompt, &body);
    let label = string_from_chars(&chars_of(week_label));
    WeeklyReviewPack {
        game_count: n,
        analyzed_count: analyzed,
        week_label: label,
        review_relpath: relpath,
        prompt: string_from_chars(&prompt),
    }
}

} // verus!
