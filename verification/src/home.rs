//! The home page: how many games there are, and the queue of games still worth opening.
use vstd::prelude::*;

use crate::library::{analyzed_of, unanalyzed_of, Library};
use crate::models::{opt_text, outcome_text, Game};
use crate::playback::{format_instant, instant_format, pivotal_plies, pivotal_plies_of};
use crate::text::{chars_of, nat_chars, nat_text, push_chars, push_str, string_from_chars};

verus! {

/// How many games the queue shows.
pub const QUEUE_LEN: usize = 8;

pub open spec fn min_nat(a: nat, b: nat) -> nat {
    if a < b {
        a
    } else {
        b
    }
}

/// The status line: games, analysed games, and how many the queue shows.
pub open spec fn home_status_text(games: Seq<Game>) -> Seq<char> {
    nat_text(games.len()) + " games \u{b7} "@ + nat_text(analyzed_of(games).len()) + " analyzed \u{b7} showing "@
        + nat_text(min_nat(QUEUE_LEN as nat, analyzed_of(games).len() + unanalyzed_of(games).len()))
        + " still open"@
}

fn push_count(out: &mut Vec<char>, n: usize)
    ensures
        final(out)@ == old(out)@ + nat_text(n as nat),
{
    let d = nat_chars(n as u64);
    push_chars(out, &d);
}

pub fn home_status(library: &Library) -> (r: String)
    ensures
        r@ == home_status_text(library.games@),
{
    let ghost g = library.games@;
    let n = library.games.len();
    let mut analyzed: usize = 0;
    let mut i: usize = 0;
    while i < n
        invariant
            n == g.len(),
            g == library.games@,
            0 <= i <= n,
            analyzed == analyzed_of(g.take(i as int)).len(),
            analyzed <= i,
        decreases n - i,
    {
        assert(g.take(i + 1).drop_last() =~= g.take(i as int));
        if library.games[i].is_analyzed() {
            analyzed = analyzed + 1;
        }
        i = i + 1;
    }
    assert(g.take(n as int) =~= g);
    let open = library.still_open(QUEUE_LEN);
    let mut out: Vec<char> = Vec::new();
    push_count(&mut out, n);
    push_str(&mut out, " games \u{b7} ");
    push_count(&mut out, analyzed);
    push_str(&mut out, " analyzed \u{b7} showing ");
    push_count(&mut out, open.len());
    push_str(&mut out, " still open");
    string_from_chars(&out)
}

/// The second line of a queued game: its outcome and pivotal moments once analysed.
pub open spec fn queue_subtitle(g: Game) -> Seq<char> {
    let n = pivotal_plies(g).len();
    if !g.analyzed() {
        "Waiting for analysis"@
    } else if n == 0 {
        "Analyzed \u{b7} no pivotal moments \u{2014} a quiet game"@
    } else {
        outcome_text(opt_text(g.result), opt_text(g.user_color))@ + " \u{b7} "@ + nat_text(n) + " pivotal moment"@ + if n
            == 1 {
            Seq::empty()
        } else {
            "s"@
        }
    }
}

/// The first line of a queued game: its title and the month and day it was played.
pub open spec fn queue_head(g: Game) -> Seq<char> {
    let when = match g.played_at {
        Some(t) => match instant_format(t.secs, t.nanos, "%b %d"@) {
            Some(w) => w,
            None => "\u{2014}"@,
        },
        None => "\u{2014}"@,
    };
    g.title_text() + "  \u{b7}  "@ + when
}

/// The two lines of a game in the queue.
pub fn queue_row_texts(game: &Game) -> (r: (String, String))
    ensures
        r.0@ == queue_head(*game),
        r.1@ == queue_subtitle(*game),
{
    let mut head = chars_of(game.title().as_str());
    push_str(&mut head, "  \u{b7}  ");
    let when = match game.played_at {
        Some(t) => format_instant(t, "%b %d"),
        None => None,
    };
    match when {
        Some(w) => push_str(&mut head, w.as_str()),
        None => push_str(&mut head, "\u{2014}"),
    }
    let sub: String = if !game.is_analyzed() {
        "Waiting for analysis".to_string()
    } else {
        let pm = pivotal_plies_of(game);
        let n = pm.len();
        if n == 0 {
            "Analyzed \u{b7} no pivotal moments \u{2014} a quiet game".to_string()
        } else {
            let mut out = chars_of(game.outcome_for_user());
            push_str(&mut out, " \u{b7} ");
            push_count(&mut out, n);
            push_str(&mut out, " pivotal moment");
            if n != 1 {
                push_str(&mut out, "s");
            }
            string_from_chars(&out)
        }
    };
    (string_from_chars(&head), sub)
}

} // verus!
