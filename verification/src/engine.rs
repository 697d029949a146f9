//! UCI engine output: reading `info` lines, scores, and how a move's loss is graded.
//!
//! Talking to the engine process is left to the program around the library; what is
//! decided from the engine's words is here.
use vstd::prelude::*;

use crate::text::{
    chars_of, int_text, is_lit, nat_chars, nat_text, parse_i32, parse_i32_spec, parse_u32,
    parse_u32_spec, push_int, split_whitespace, split_ws, starts_with_lit, find_lit, find_first,
    string_from_chars, digit_to_char, digit_char,
};

verus! {

#[derive(Debug, Clone, Copy, PartialEq, Eq, Structural)]
pub enum ScoreKind {
    Cp,
    Mate,
}

#[derive(Debug, Clone, Copy, PartialEq, Eq, Structural)]
pub struct Score {
    pub kind: ScoreKind,
    pub value: i32,
}

#[derive(Debug, Clone)]
pub struct InfoLine {
    pub depth: Option<u32>,
    pub multipv: u32,
    pub score: Score,
    pub pv: Vec<String>,
}

/// What an `InfoLine` holds, with the principal variation as text.
pub struct InfoView {
    pub depth: Option<u32>,
    pub multipv: u32,
    pub score: Score,
    pub pv: Seq<Seq<char>>,
}

impl View for InfoLine {
    type V = InfoView;

    open spec fn view(&self) -> InfoView {
        InfoView { depth: self.depth, multipv: self.multipv, score: self.score, pv: self.pv.deep_view() }
    }
}

#[derive(Debug, Clone)]
pub struct AnalyzeLines {
    pub lines: Vec<InfoLine>,
}

pub struct PoolConfig {
    pub workers: usize,
    pub threads_per_worker: usize,
    pub hash_mb: u32,
}

/// Pool size for a machine with `cpus` processors: a third of them as workers
/// (2 to 8), the rest shared out as threads (at least 2 each), 256 MB hash.
pub open spec fn pool_workers(cpus: int) -> int {
    let w = cpus / 3;
    if w < 2 {
        2
    } else if w > 8 {
        8
    } else {
        w
    }
}

pub fn pool_config_for(cpus: usize) -> (cfg: PoolConfig)
    ensures
        cfg.workers == pool_workers(cpus as int),
        cfg.threads_per_worker == if (cpus as int) / pool_workers(cpus as int) < 2 {
            2
        } else {
            (cpus as int) / pool_workers(cpus as int)
        },
        cfg.hash_mb == 256,
{
    let w = cpus / 3;
    let workers: usize = if w < 2 {
        2
    } else if w > 8 {
        8
    } else {
        w
    };
    let t = cpus / workers;
    let threads_per_worker: usize = if t < 2 {
        2
    } else {
        t
    };
    PoolConfig { workers, threads_per_worker, hash_mb: 256 }
}

/// `PathBuf::join` of a relative path onto `base` (Unix): a `/` between them unless
/// `base` is empty or already ends with one.
pub open spec fn join_relative(base: Seq<char>, rel: Seq<char>) -> Seq<char> {
    if base.len() == 0 {
        rel
    } else if base.last() == '/' {
        base + rel
    } else {
        base + seq!['/'] + rel
    }
}

pub fn join_path(base: &str, rel: &str) -> (p: String)
    ensures
        p@ == join_relative(base@, rel@),
{
    let mut out = chars_of(base);
    if out.len() > 0 && out[out.len() - 1] != '/' {
        out.push('/');
    }
    let mut r = chars_of(rel);
    out.append(&mut r);
    string_from_chars(&out)
}

/// The bundled engine under the package directory: `<dir>/bin/stockfish`.
pub fn default_bin_stockfish(manifest_dir: &str) -> (p: String)
    ensures
        p@ == join_relative(manifest_dir@, "bin/stockfish"@),
{
    join_path(manifest_dir, "bin/stockfish")
}

// ---------------------------------------------------------------------------
// `info` lines
// ---------------------------------------------------------------------------

/// Reading the words of an `info` line from word `i` on, with what has been read so
/// far: `None` where a `score` is cut short or its value is not an `i32`; otherwise the
/// depth, multipv, score and principal variation read.
pub open spec fn info_scan(
    parts: Seq<Seq<char>>,
    i: int,
    depth: Option<u32>,
    multipv: u32,
    score: Option<Score>,
) -> Option<(Option<u32>, u32, Option<Score>, Seq<Seq<char>>)>
    decreases parts.len() - i + 2,
{
    if i < 0 || i >= parts.len() {
        Some((depth, multipv, score, Seq::empty()))
    } else if parts[i] == "depth"@ {
        let d = if i + 1 < parts.len() {
            parse_u32_spec(parts[i + 1])
        } else {
            None
        };
        info_scan(parts, i + 2, d, multipv, score)
    } else if parts[i] == "multipv"@ {
        let m = if i + 1 < parts.len() {
            match parse_u32_spec(parts[i + 1]) {
                Some(v) => v,
                None => 1,
            }
        } else {
            1
        };
        info_scan(parts, i + 2, depth, m, score)
    } else if parts[i] == "score"@ {
        if i + 2 >= parts.len() {
            None
        } else {
            match parse_i32_spec(parts[i + 2]) {
                Some(v) => {
                    let kind = if parts[i + 1] == "mate"@ {
                        ScoreKind::Mate
                    } else {
                        ScoreKind::Cp
                    };
                    info_scan(parts, i + 3, depth, multipv, Some(Score { kind, value: v }))
                },
                None => None,
            }
        }
    } else if parts[i] == "pv"@ {
        Some((depth, multipv, score, parts.subrange(i + 1, parts.len() as int)))
    } else {
        info_scan(parts, i + 1, depth, multipv, score)
    }
}

/// The UCI `info` line a text holds: it needs a score; depth and multipv are optional
/// (multipv 1 by default), the principal variation is every word after `pv`.
pub open spec fn info_line_of(line: Seq<char>) -> Option<InfoView> {
    match info_scan(split_ws(line), 0, None, 1, None) {
        Some((depth, multipv, Some(score), pv)) => Some(InfoView { depth, multipv, score, pv }),
        _ => None,
    }
}

fn strings_of(words: &Vec<Vec<char>>, from: usize) -> (out: Vec<String>)
    requires
        from <= words@.len(),
    ensures
        out.deep_view() == words.deep_view().subrange(from as int, words@.len() as int),
{
    let mut out: Vec<String> = Vec::new();
    let mut k: usize = from;
    while k < words.len()
        invariant
            from <= k <= words@.len(),
            out.deep_view() == words.deep_view().subrange(from as int, k as int),
        decreases words@.len() - k,
    {
        let ghost before = out.deep_view();
        let s = string_from_chars(&words[k]);
        out.push(s);
        proof {
            assert(words@[k as int]@ =~= words.deep_view()[k as int]);
            assert(out.deep_view() =~= before.push(words@[k as int]@));
            assert(words.deep_view().subrange(from as int, k + 1) =~= words.deep_view().subrange(
                from as int,
                k as int,
            ).push(words.deep_view()[k as int]));
        }
        k = k + 1;
    }
    out
}

pub fn parse_info_line(line: &str) -> (r: Option<InfoLine>)
    ensures
        r matches Some(l) ==> info_line_of(line@) == Some(l@),
        r is None ==> info_line_of(line@) is None,
{
    let cs = chars_of(line);
    let parts = split_whitespace(&cs);
    let ghost ps = parts.deep_view();
    let mut depth: Option<u32> = None;
    let mut multipv: u32 = 1;
    let mut score: Option<Score> = None;
    let n = parts.len();
    let mut i: usize = 0;
    while i < n
        invariant
            n == parts@.len(),
            ps == parts.deep_view(),
            ps == split_ws(line@),
            i <= n,
            info_scan(ps, 0, None, 1, None) == info_scan(ps, i as int, depth, multipv, score),
        decreases n - i,
    {
        proof {
            assert forall|k: int| 0 <= k < n implies #[trigger] ps[k] == parts@[k]@ by {
                assert(parts@[k]@ =~= ps[k]);
            }
        }
        let ghost depth_old = depth;
        let ghost multipv_old = multipv;
        if is_lit(&parts[i], "depth") {
            depth = if i + 1 < n {
                parse_u32(&parts[i + 1])
            } else {
                None
            };
            let ghost j = i as int + 2;
            assert(info_scan(ps, i as int, depth_old, multipv, score) == info_scan(ps, j, depth, multipv, score));
            i = if n - i >= 2 {
                i + 2
            } else {
                n
            };
            assert(info_scan(ps, j, depth, multipv, score) == info_scan(ps, i as int, depth, multipv, score));
        } else if is_lit(&parts[i], "multipv") {
            multipv = if i + 1 < n {
                match parse_u32(&parts[i + 1]) {
                    Some(v) => v,
                    None => 1,
                }
            } else {
                1
            };
            let ghost j = i as int + 2;
            assert(info_scan(ps, i as int, depth, multipv_old, score) == info_scan(ps, j, depth, multipv, score));
            i = if n - i >= 2 {
                i + 2
            } else {
                n
            };
            assert(info_scan(ps, j, depth, multipv, score) == info_scan(ps, i as int, depth, multipv, score));
        } else if is_lit(&parts[i], "score") {
            if n - i < 3 {
                return None;
            }
            let mate = is_lit(&parts[i + 1], "mate");
            let value = match parse_i32(&parts[i + 2]) {
                Some(v) => v,
                None => return None,
            };
            score = Some(
                Score {
                    kind: if mate {
                        ScoreKind::Mate
                    } else {
                        ScoreKind::Cp
                    },
                    value,
                },
            );
            i = i + 3;
        } else if is_lit(&parts[i], "pv") {
            let pv = strings_of(&parts, i + 1);
            return match score {
                Some(sc) => Some(InfoLine { depth, multipv, score: sc, pv }),
                None => None,
            };
        } else {
            i = i + 1;
        }
    }
    let pv: Vec<String> = Vec::new();
    assert(pv.deep_view() =~= Seq::<Seq<char>>::empty());
    match score {
        Some(sc) => Some(InfoLine { depth, multipv, score: sc, pv }),
        None => None,
    }
}

// ---------------------------------------------------------------------------
// Scores
// ---------------------------------------------------------------------------

/// The score an optional reference points at.
pub open spec fn opt_score(s: Option<&Score>) -> Option<Score> {
    match s {
        Some(x) => Some(*x),
        None => None,
    }
}

/// A score in centipawns, mates counted as ±100000 less the distance to mate.
pub open spec fn score_cp(score: Score) -> int {
    match score.kind {
        ScoreKind::Mate => if score.value > 0 {
            100_000 - score.value
        } else {
            -100_000 - score.value
        },
        ScoreKind::Cp => score.value as int,
    }
}

pub fn score_to_cp(score: &Score) -> (cp: i32)
    ensures
        cp == score_cp(*score),
{
    match score.kind {
        ScoreKind::Mate => {
            if score.value > 0 {
                100_000 - score.value
            } else {
                -100_000 - score.value
            }
        },
        ScoreKind::Cp => score.value,
    }
}

/// `n / 100` written with two decimals (`-0.05`, `12.30`).
pub open spec fn hundredths_text(n: int) -> Seq<char> {
    let a = if n < 0 {
        -n
    } else {
        n
    };
    let body = nat_text((a / 100) as nat) + seq!['.', digit_char(((a % 100) / 10) as nat), digit_char(
        (a % 10) as nat,
    )];
    if n < 0 {
        seq!['-'] + body
    } else {
        body
    }
}

pub fn hundredths_chars(n: i64) -> (r: Vec<char>)
    requires
        n > i64::MIN,
    ensures
        r@ == hundredths_text(n as int),
{
    let a: u64 = if n < 0 {
        (-n) as u64
    } else {
        n as u64
    };
    let mut out: Vec<char> = Vec::new();
    if n < 0 {
        out.push('-');
    }
    let mut whole = nat_chars(a / 100);
    out.append(&mut whole);
    out.push('.');
    out.push(digit_to_char((a % 100) / 10));
    out.push(digit_to_char(a % 10));
    proof {
        let body = nat_text((a / 100) as nat) + seq!['.', digit_char(((a % 100) / 10) as nat), digit_char(
            (a % 10) as nat,
        )];
        if n < 0 {
            assert(out@ =~= seq!['-'] + body);
        } else {
            assert(out@ =~= body);
        }
    }
    out
}

/// How `format_score` writes a score for the side to move (`"b"` turns it to White's
/// view): `M<n>` for mates, pawns with two decimals and a `+` when positive otherwise,
/// `-0.00` for an even score seen from Black (a negated float zero).
pub open spec fn score_text(score: Option<Score>, side_to_move: Seq<char>) -> Seq<char> {
    match score {
        None => "—"@,
        Some(s) => {
            let black = side_to_move == "b"@;
            if s.kind == ScoreKind::Mate {
                seq!['M'] + int_text(
                    if black {
                        -s.value
                    } else {
                        s.value as int
                    },
                )
            } else {
                let w = if black {
                    -s.value
                } else {
                    s.value as int
                };
                if black && s.value == 0 {
                    "-0.00"@
                } else if w > 0 {
                    seq!['+'] + hundredths_text(w)
                } else {
                    hundredths_text(w)
                }
            }
        },
    }
}

/// Negating a mate distance overflows for `i32::MIN` seen from Black.
pub open spec fn score_text_defined(score: Option<Score>, side_to_move: Seq<char>) -> bool {
    match score {
        Some(s) => s.kind == ScoreKind::Mate && side_to_move == "b"@ ==> s.value != i32::MIN,
        None => true,
    }
}

pub fn format_score(score: Option<&Score>, side_to_move: &str) -> (r: String)
    requires
        score_text_defined(opt_score(score), side_to_move@),
    ensures
        r@ == score_text(opt_score(score), side_to_move@),
{
    let score = match score {
        Some(s) => s,
        None => {
            return string_from_chars(&chars_of("—"));
        },
    };
    let side = chars_of(side_to_move);
    let black = is_lit(&side, "b");
    if score.kind == ScoreKind::Mate {
        let mate: i64 = if black {
            -(score.value as i64)
        } else {
            score.value as i64
        };
        let mut out: Vec<char> = Vec::new();
        out.push('M');
        push_int(&mut out, mate);
        assert(out@ =~= seq!['M'] + int_text(mate as int));
        return string_from_chars(&out);
    }
    let w: i64 = if black {
        -(score.value as i64)
    } else {
        score.value as i64
    };
    if black && score.value == 0 {
        return string_from_chars(&chars_of("-0.00"));
    }
    let mut out: Vec<char> = Vec::new();
    if w > 0 {
        out.push('+');
    }
    let mut body = hundredths_chars(w);
    out.append(&mut body);
    if w > 0 {
        assert(out@ =~= seq!['+'] + hundredths_text(w as int));
    } else {
        assert(out@ =~= hundredths_text(w as int));
    }
    string_from_chars(&out)
}

/// The centipawns lost by playing `played` where `best` was available (never
/// negative; zero when either score is missing).
pub open spec fn cp_loss(best: Option<Score>, played: Option<Score>) -> int {
    match (best, played) {
        (Some(b), Some(p)) => if score_cp(b) - score_cp(p) > 0 {
            score_cp(b) - score_cp(p)
        } else {
            0
        },
        _ => 0,
    }
}

/// The subtraction stays within `i32`.
pub open spec fn cp_loss_defined(best: Option<Score>, played: Option<Score>) -> bool {
    match (best, played) {
        (Some(b), Some(p)) => i32::MIN <= score_cp(b) - score_cp(p) <= i32::MAX,
        _ => true,
    }
}

pub fn centipawn_loss(best: Option<&Score>, played: Option<&Score>) -> (loss: i32)
    requires
        cp_loss_defined(opt_score(best), opt_score(played)),
    ensures
        loss == cp_loss(opt_score(best), opt_score(played)),
{
    match (best, played) {
        (Some(b), Some(p)) => {
            let d = score_to_cp(b) - score_to_cp(p);
            if d > 0 {
                d
            } else {
                0
            }
        },
        _ => 0,
    }
}

/// The grade of a move: a missed forced mate (300 cp or more lost, no mate kept) and a
/// move into a forced mate are graded first; otherwise by the loss: best up to 10,
/// excellent up to 25, good up to 50, inaccuracy up to 100, mistake up to 300, blunder.
pub open spec fn loss_class(loss_cp: int, best: Option<Score>, played: Option<Score>) -> &'static str {
    if best is Some && played is Some && best->0.kind == ScoreKind::Mate && best->0.value > 0
        && played->0.kind != ScoreKind::Mate && loss_cp >= 300 {
        "blunder"
    } else if best is Some && played is Some && played->0.kind == ScoreKind::Mate
        && played->0.value < 0 {
        if loss_cp >= 200 {
            "blunder"
        } else {
            "mistake"
        }
    } else if loss_cp <= 10 {
        "best"
    } else if loss_cp <= 25 {
        "excellent"
    } else if loss_cp <= 50 {
        "good"
    } else if loss_cp <= 100 {
        "inaccuracy"
    } else if loss_cp <= 300 {
        "mistake"
    } else {
        "blunder"
    }
}

pub fn classify_loss(loss_cp: i32, best: Option<&Score>, played: Option<&Score>) -> (c: &'static str)
    ensures
        c == loss_class(loss_cp as int, opt_score(best), opt_score(played)),
{
    if let (Some(best), Some(played)) = (best, played) {
        if best.kind == ScoreKind::Mate && best.value > 0 && played.kind != ScoreKind::Mate
            && loss_cp >= 300 {
            return "blunder";
        }
        if played.kind == ScoreKind::Mate && played.value < 0 {
            return if loss_cp >= 200 {
                "blunder"
            } else {
                "mistake"
            };
        }
    }
    if loss_cp <= 10 {
        "best"
    } else if loss_cp <= 25 {
        "excellent"
    } else if loss_cp <= 50 {
        "good"
    } else if loss_cp <= 100 {
        "inaccuracy"
    } else if loss_cp <= 300 {
        "mistake"
    } else {
        "blunder"
    }
}

// ---------------------------------------------------------------------------
// Collecting the lines of one search
// ---------------------------------------------------------------------------

/// Is this engine output an `info` line that carries a principal variation?
pub open spec fn is_pv_info(line: Seq<char>) -> bool {
    &&& line.len() >= 5
    &&& line.take(5) == "info "@
    &&& find_first(line, " pv "@) is Some
}

pub fn is_pv_info_line(line: &str) -> (b: bool)
    ensures
        b == is_pv_info(line@),
{
    let cs = chars_of(line);
    if !starts_with_lit(&cs, "info ") {
        proof {
            reveal_strlit("info ");
        }
        return false;
    }
    proof {
        reveal_strlit("info ");
    }
    find_lit(&cs, " pv ").is_some()
}

/// Does this engine output end a search?
pub open spec fn is_bestmove(line: Seq<char>) -> bool {
    line.len() >= 8 && line.take(8) == "bestmove"@
}

pub fn is_bestmove_line(line: &str) -> (b: bool)
    ensures
        b == is_bestmove(line@),
{
    let cs = chars_of(line);
    proof {
        reveal_strlit("bestmove");
    }
    starts_with_lit(&cs, "bestmove")
}

/// The depth a line was searched to, 0 where it does not say.
pub open spec fn depth_or_zero(l: InfoView) -> int {
    match l.depth {
        Some(d) => d as int,
        None => 0,
    }
}

/// A new line takes the place of the kept one unless the kept one went deeper.
pub open spec fn replaces(new: InfoView, kept: InfoView) -> bool {
    depth_or_zero(new) >= depth_or_zero(kept)
}

/// The table of lines, one per multipv and ordered by it, after `x` is offered to it.
pub open spec fn pv_insert(s: Seq<InfoView>, x: InfoView) -> Seq<InfoView>
    decreases s.len(),
{
    if s.len() == 0 {
        seq![x]
    } else if x.multipv < s[0].multipv {
        seq![x] + s
    } else if x.multipv == s[0].multipv {
        if replaces(x, s[0]) {
            seq![x] + s.drop_first()
        } else {
            s
        }
    } else {
        seq![s[0]] + pv_insert(s.drop_first(), x)
    }
}

/// The line kept for multipv `k`, if any.
pub open spec fn pv_entry(s: Seq<InfoView>, k: u32) -> Option<InfoView>
    decreases s.len(),
{
    if s.len() == 0 {
        None
    } else if s[0].multipv == k {
        Some(s[0])
    } else {
        pv_entry(s.drop_first(), k)
    }
}

/// Lines ordered by strictly increasing multipv: one line for each.
pub open spec fn pv_sorted(s: Seq<InfoView>) -> bool {
    forall|i: int, j: int| 0 <= i < j < s.len() ==> s[i].multipv < s[j].multipv
}

pub open spec fn info_views(s: Seq<InfoLine>) -> Seq<InfoView> {
    s.map_values(|l: InfoLine| l@)
}

/// The lines of one search: for each multipv the deepest line seen (the later one on a
/// tie), in multipv order.
pub struct PvTable {
    lines: Vec<InfoLine>,
}

impl View for PvTable {
    type V = Seq<InfoView>;

    closed spec fn view(&self) -> Seq<InfoView> {
        info_views(self.lines@)
    }
}

proof fn lemma_pv_insert_shape(s: Seq<InfoView>, x: InfoView)
    requires
        pv_sorted(s),
    ensures
        pv_sorted(pv_insert(s, x)),
        pv_insert(s, x).len() >= 1,
        forall|i: int| 0 <= i < pv_insert(s, x).len() ==> (#[trigger] pv_insert(s, x)[i] == x
            || s.contains(pv_insert(s, x)[i])),
        pv_insert(s, x)[0].multipv == x.multipv || (s.len() > 0 && pv_insert(s, x)[0] == s[0]),
    decreases s.len(),
{
    if s.len() == 0 {
    } else if x.multipv < s[0].multipv {
        let r = pv_insert(s, x);
        assert forall|i: int| 0 <= i < r.len() implies (r[i] == x || s.contains(r[i])) by {
            if i > 0 {
                assert(r[i] == s[i - 1]);
            }
        }
    } else if x.multipv == s[0].multipv {
        let r = pv_insert(s, x);
        if replaces(x, s[0]) {
            assert forall|i: int| 0 <= i < r.len() implies (r[i] == x || s.contains(r[i])) by {
                if i > 0 {
                    assert(r[i] == s[i]);
                }
            }
        }
    } else {
        let t = s.drop_first();
        lemma_pv_insert_shape(t, x);
        let r = pv_insert(s, x);
        let rt = pv_insert(t, x);
        assert(r =~= seq![s[0]] + rt);
        assert forall|i: int| 0 <= i < r.len() implies (r[i] == x || s.contains(r[i])) by {
            if i > 0 {
                assert(r[i] == rt[i - 1]);
                if rt[i - 1] != x {
                    let k = choose|k: int| 0 <= k < t.len() && t[k] == rt[i - 1];
                    assert(s[k + 1] == rt[i - 1]);
                }
            } else {
                assert(s[0] == r[0]);
            }
        }
        assert forall|i: int, j: int| 0 <= i < j < r.len() implies r[i].multipv < r[j].multipv by {
            if i == 0 {
                let y = rt[j - 1];
                if y != x {
                    let k = choose|k: int| 0 <= k < t.len() && t[k] == y;
                    assert(s[k + 1] == y);
                }
            }
        }
    }
}

/// What offering `x` does to the line kept for each multipv: the entry for `x`'s
/// multipv becomes `x` unless a deeper line is kept; every other entry stays.
pub proof fn lemma_pv_entry_after_insert(s: Seq<InfoView>, x: InfoView, k: u32)
    requires
        pv_sorted(s),
    ensures
        pv_entry(pv_insert(s, x), k) == (if k == x.multipv && (pv_entry(s, k) is None
            || replaces(x, pv_entry(s, k)->0)) {
            Some(x)
        } else {
            pv_entry(s, k)
        }),
    decreases s.len(),
{
    if s.len() == 0 {
        assert(pv_insert(s, x).drop_first() =~= Seq::<InfoView>::empty());
    } else if x.multipv < s[0].multipv {
        let r = pv_insert(s, x);
        assert(r.drop_first() =~= s);
        if k == x.multipv {
            lemma_pv_entry_below(s, k);
        }
    } else if x.multipv == s[0].multipv {
        let r = pv_insert(s, x);
        if replaces(x, s[0]) {
            assert(r.drop_first() =~= s.drop_first());
        }
    } else {
        let t = s.drop_first();
        lemma_pv_entry_after_insert(t, x, k);
        let r = pv_insert(s, x);
        assert(r.drop_first() =~= pv_insert(t, x));
    }
}

proof fn lemma_pv_entry_below(s: Seq<InfoView>, k: u32)
    requires
        pv_sorted(s),
        s.len() > 0,
        k < s[0].multipv,
    ensures
        pv_entry(s, k) is None,
    decreases s.len(),
{
    let t = s.drop_first();
    assert(s[0].multipv != k);
    if t.len() > 0 {
        assert(pv_sorted(t)) by {
            assert forall|i: int, j: int| 0 <= i < j < t.len() implies t[i].multipv < t[j].multipv by {
                assert(t[i] == s[i + 1] && t[j] == s[j + 1]);
            }
        }
        assert(t[0] == s[1]);
        lemma_pv_entry_below(t, k);
    }
}

/// Offering lines keeps the table ordered by multipv with one line for each.
pub proof fn lemma_pv_insert_sorted(s: Seq<InfoView>, x: InfoView)
    requires
        pv_sorted(s),
    ensures
        pv_sorted(pv_insert(s, x)),
{
    lemma_pv_insert_shape(s, x);
}

impl PvTable {
    pub fn new() -> (t: PvTable)
        ensures
            t@ == Seq::<InfoView>::empty(),
    {
        let t = PvTable { lines: Vec::new() };
        assert(t@ =~= Seq::<InfoView>::empty());
        t
    }

    /// Offers a parsed line: it takes its multipv's place unless a deeper line is kept.
    pub fn offer(&mut self, x: InfoLine)
        ensures
            final(self)@ == pv_insert(old(self)@, x@),
    {
        let ghost s0 = self@;
        let n = self.lines.len();
        let mut i: usize = 0;
        while i < n && self.lines[i].multipv < x.multipv
            invariant
                n == self.lines@.len(),
                0 <= i <= n,
                self@ == s0,
                forall|j: int| 0 <= j < i ==> #[trigger] s0[j].multipv < x@.multipv,
            decreases n - i,
        {
            i = i + 1;
        }
        proof {
            lemma_pv_insert_skip(s0, x@, i as int);
        }
        if i < n && self.lines[i].multipv == x.multipv {
            let kept = self.lines[i].depth;
            let newd = x.depth;
            let kd: u32 = match kept { Some(d) => d, None => 0 };
            let nd: u32 = match newd { Some(d) => d, None => 0 };
            if nd >= kd {
                self.lines.set(i, x);
                proof {
                    let r = s0.subrange(i as int, s0.len() as int);
                    assert(r.drop_first() =~= s0.subrange(i + 1, s0.len() as int));
                    assert(self@ =~= s0.subrange(0, i as int) + (seq![x@] + r.drop_first()));
                }
            } else {
                proof {
                    assert(s0 =~= s0.subrange(0, i as int) + s0.subrange(i as int, s0.len() as int));
                }
            }
        } else {
            self.lines.insert(i, x);
            proof {
                let r = s0.subrange(i as int, s0.len() as int);
                assert(self@ =~= s0.subrange(0, i as int) + pv_insert(r, x@));
            }
        }
    }

    /// Offers one line of engine output: an `info` line with a principal variation
    /// that parses is offered; anything else leaves the table as it was.
    pub fn observe(&mut self, line: &str)
        ensures
            final(self)@ == (if is_pv_info(line@) && info_line_of(line@) is Some {
                pv_insert(old(self)@, info_line_of(line@)->0)
            } else {
                old(self)@
            }),
    {
        if is_pv_info_line(line) {
            if let Some(parsed) = parse_info_line(line) {
                self.offer(parsed);
            }
        }
    }

    /// The kept lines, in multipv order.
    pub fn into_lines(self) -> (a: AnalyzeLines)
        ensures
            info_views(a.lines@) == self@,
    {
        AnalyzeLines { lines: self.lines }
    }
}

/// Skipping the lines with a smaller multipv before offering `x`.
proof fn lemma_pv_insert_skip(s: Seq<InfoView>, x: InfoView, i: int)
    requires
        0 <= i <= s.len(),
        forall|j: int| 0 <= j < i ==> #[trigger] s[j].multipv < x.multipv,
    ensures
        pv_insert(s, x) == s.subrange(0, i) + pv_insert(s.subrange(i, s.len() as int), x),
    decreases i,
{
    if i == 0 {
        assert(s.subrange(0, 0) + pv_insert(s.subrange(0, s.len() as int), x) =~= pv_insert(s, x)) by {
            assert(s.subrange(0, s.len() as int) =~= s);
        }
    } else {
        let t = s.drop_first();
        assert forall|j: int| 0 <= j < i - 1 implies #[trigger] t[j].multipv < x.multipv by {
            assert(t[j] == s[j + 1]);
        }
        lemma_pv_insert_skip(t, x, i - 1);
        assert(t.subrange(i - 1, t.len() as int) =~= s.subrange(i, s.len() as int));
        assert(s.subrange(0, i) =~= seq![s[0]] + t.subrange(0, i - 1));
        assert(pv_insert(s, x) == seq![s[0]] + pv_insert(t, x));
        assert(seq![s[0]] + (t.subrange(0, i - 1) + pv_insert(s.subrange(i, s.len() as int), x))
            =~= s.subrange(0, i) + pv_insert(s.subrange(i, s.len() as int), x));
    }
}

/// The deepest line a single-move search reports (the later one on a tie), after one
/// more line of engine output.
pub open spec fn deepest_after(last: Option<InfoView>, line: Seq<char>) -> Option<InfoView> {
    if is_pv_info(line) && info_line_of(line) is Some {
        let x = info_line_of(line)->0;
        match last {
            Some(p) => if replaces(x, p) { Some(x) } else { last },
            None => Some(x),
        }
    } else {
        last
    }
}

pub open spec fn opt_view(l: Option<InfoLine>) -> Option<InfoView> {
    match l {
        Some(x) => Some(x@),
        None => None,
    }
}

/// Keeps the deepest line of a single-move search as engine output comes in.
pub fn keep_deepest(last: Option<InfoLine>, line: &str) -> (r: Option<InfoLine>)
    ensures
        opt_view(r) == deepest_after(opt_view(last), line@),
{
    if !is_pv_info_line(line) {
        return last;
    }
    match parse_info_line(line) {
        None => last,
        Some(parsed) => {
            let take = match &last {
                None => true,
                Some(p) => {
                    let pd: u32 = match p.depth { Some(d) => d, None => 0 };
                    let nd: u32 = match parsed.depth { Some(d) => d, None => 0 };
                    nd >= pd
                },
            };
            if take {
                Some(parsed)
            } else {
                last
            }
        },
    }
}

/// Where the engine is taken from.
#[derive(Debug, Clone, Copy, PartialEq, Eq, Structural)]
pub enum StockfishPick {
    /// The file `STOCKFISH_PATH` names.
    FromEnv,
    /// The bundled `bin/stockfish`.
    Bundled,
    /// The search-path candidate at this place (a directory of `PATH` joined with
    /// `stockfish`).
    OnPath(usize),
    Missing,
}

/// The first place among the candidates whose file exists.
pub open spec fn first_existing(exists_at: Seq<bool>, from: int) -> Option<int>
    decreases exists_at.len() - from,
{
    if from < 0 || from >= exists_at.len() {
        None
    } else if exists_at[from] {
        Some(from)
    } else {
        first_existing(exists_at, from + 1)
    }
}

/// The engine's place, in this order: the file `STOCKFISH_PATH` names, when it is set
/// and that file exists; the bundled binary, when it exists; the first search-path
/// candidate that exists; else none.
pub fn choose_stockfish(env_names_file: bool, bundled_exists: bool, on_path_exists: &Vec<bool>) -> (r: StockfishPick)
    ensures
        r == (if env_names_file {
            StockfishPick::FromEnv
        } else if bundled_exists {
            StockfishPick::Bundled
        } else {
            match first_existing(on_path_exists@, 0) {
                Some(i) => StockfishPick::OnPath(i as usize),
                None => StockfishPick::Missing,
            }
        }),
{
    if env_names_file {
        return StockfishPick::FromEnv;
    }
    if bundled_exists {
        return StockfishPick::Bundled;
    }
    let mut i: usize = 0;
    while i < on_path_exists.len()
        invariant
            !env_names_file && !bundled_exists,
            0 <= i <= on_path_exists@.len(),
            first_existing(on_path_exists@, 0) == first_existing(on_path_exists@, i as int),
        decreases on_path_exists@.len() - i,
    {
        assert(first_existing(on_path_exists@, i as int) == if on_path_exists@[i as int] {
            Some(i as int)
        } else {
            first_existing(on_path_exists@, i + 1)
        });
        if on_path_exists[i] {
            return StockfishPick::OnPath(i);
        }
        i = i + 1;
    }
    assert(first_existing(on_path_exists@, i as int) is None);
    StockfishPick::Missing
}

} // verus!
