//! Character-level text helpers shared by the parsers and formatters.
//!
//! Text is handled as `Vec<char>` in code and as `Seq<char>` in contracts;
//! `&str` and `String` values are converted at the edges.
use vstd::prelude::*;

verus! {

// ---------------------------------------------------------------------------
// Character classes
// ---------------------------------------------------------------------------

/// Unicode `White_Space`, the set `char::is_whitespace` documents.
pub open spec fn is_ws(c: char) -> bool {
    ||| ('\u{9}' <= c && c <= '\u{d}')
    ||| c == ' '
    ||| c == '\u{85}'
    ||| c == '\u{a0}'
    ||| c == '\u{1680}'
    ||| ('\u{2000}' <= c && c <= '\u{200a}')
    ||| c == '\u{2028}'
    ||| c == '\u{2029}'
    ||| c == '\u{202f}'
    ||| c == '\u{205f}'
    ||| c == '\u{3000}'
}

pub fn is_whitespace(c: char) -> (b: bool)
    ensures
        b == is_ws(c),
{
    ('\u{9}' <= c && c <= '\u{d}') || c == ' ' || c == '\u{85}' || c == '\u{a0}' || c
        == '\u{1680}' || ('\u{2000}' <= c && c <= '\u{200a}') || c == '\u{2028}' || c
        == '\u{2029}' || c == '\u{202f}' || c == '\u{205f}' || c == '\u{3000}'
}

pub open spec fn is_digit(c: char) -> bool {
    '0' <= c && c <= '9'
}

pub open spec fn is_upper(c: char) -> bool {
    'A' <= c && c <= 'Z'
}

pub open spec fn is_lower(c: char) -> bool {
    'a' <= c && c <= 'z'
}

/// ASCII lowercase of one character (other characters unchanged).
pub open spec fn lower(c: char) -> char {
    if is_upper(c) {
        ((c as u32) + 32) as char
    } else {
        c
    }
}

pub fn to_ascii_lower(c: char) -> (r: char)
    ensures
        r == lower(c),
{
    if 'A' <= c && c <= 'Z' {
        let u: u32 = (c as u32) + 32;
        assert(0x61 <= u <= 0x7a);
        char_from_ascii(u)
    } else {
        c
    }
}

/// The character with ASCII code `u`.
pub fn char_from_ascii(u: u32) -> (c: char)
    requires
        u < 128,
    ensures
        c == u as char,
        c as u32 == u,
{
    let b: u8 = u as u8;
    b as char
}

pub open spec fn digit_char(d: nat) -> char
    recommends
        d < 10,
{
    ((d + 48) as u32) as char
}

pub open spec fn digit_value(c: char) -> nat {
    ((c as u32) - 48) as nat
}

pub fn digit_to_char(d: u64) -> (c: char)
    requires
        d < 10,
    ensures
        c == digit_char(d as nat),
        is_digit(c),
        digit_value(c) == d,
{
    let u: u32 = (d as u32) + 48;
    char_from_ascii(u)
}

// ---------------------------------------------------------------------------
// Conversions between `&str` / `String` and characters
// ---------------------------------------------------------------------------

/// The characters of `s`, in order.
pub fn chars_of(s: &str) -> (v: Vec<char>)
    ensures
        v@ == s@,
{
    let mut v: Vec<char> = Vec::new();
    for c in it: s.chars()
        invariant
            v@ == it.seq().take(it.index() as int),
    {
        v.push(c);
    }
    v
}

/// `String: FromIterator<char>`: a `String` holding exactly the characters of `cs`.
#[verifier::external_body]
pub(crate) fn string_from_chars(cs: &[char]) -> (s: String)
    ensures
        s@ == cs@,
{
    cs.iter().collect()
}

/// Appends the characters of `s` to `out`.
pub fn push_str(out: &mut Vec<char>, s: &str)
    ensures
        final(out)@ == old(out)@ + s@,
{
    let mut cs = chars_of(s);
    out.append(&mut cs);
}

/// Appends the characters of `s` to `out`.
pub fn push_chars(out: &mut Vec<char>, s: &[char])
    ensures
        final(out)@ == old(out)@ + s@,
{
    let ghost start = out@;
    let mut i: usize = 0;
    while i < s.len()
        invariant
            0 <= i <= s@.len(),
            out@ == start + s@.take(i as int),
        decreases s@.len() - i,
    {
        out.push(s[i]);
        i = i + 1;
        assert(s@.take(i as int) == s@.take(i - 1).push(s@[i - 1]));
    }
    assert(s@.take(s@.len() as int) == s@);
}

/// A fresh vector with the characters of `s`.
pub fn copy_chars(s: &[char]) -> (v: Vec<char>)
    ensures
        v@ == s@,
{
    let mut v: Vec<char> = Vec::new();
    push_chars(&mut v, s);
    v
}

/// The characters `s[from..to]`.
pub fn slice_chars(s: &[char], from: usize, to: usize) -> (v: Vec<char>)
    requires
        from <= to <= s@.len(),
    ensures
        v@ == s@.subrange(from as int, to as int),
{
    let mut v: Vec<char> = Vec::new();
    let mut i: usize = from;
    while i < to
        invariant
            from <= i <= to <= s@.len(),
            v@ == s@.subrange(from as int, i as int),
        decreases to - i,
    {
        v.push(s[i]);
        i = i + 1;
        assert(s@.subrange(from as int, i as int) == s@.subrange(from as int, i - 1).push(
            s@[i - 1],
        ));
    }
    v
}

pub fn chars_eq(a: &[char], b: &[char]) -> (r: bool)
    ensures
        r == (a@ == b@),
{
    if a.len() != b.len() {
        return false;
    }
    let mut i: usize = 0;
    while i < a.len()
        invariant
            a@.len() == b@.len(),
            0 <= i <= a@.len(),
            forall|j: int| 0 <= j < i ==> a@[j] == b@[j],
        decreases a@.len() - i,
    {
        if a[i] != b[i] {
            return false;
        }
        i = i + 1;
    }
    assert(a@ =~= b@);
    true
}

/// Do two texts hold the same characters?
pub fn str_eq(a: &str, b: &str) -> (r: bool)
    ensures
        r == (a@ == b@),
{
    let ac = chars_of(a);
    let bc = chars_of(b);
    chars_eq(&ac, &bc)
}

/// Does `s` equal the literal `lit`?
pub fn is_lit(s: &[char], lit: &str) -> (r: bool)
    ensures
        r == (s@ == lit@),
{
    let l = chars_of(lit);
    chars_eq(s, &l)
}

/// Does `s` start with `p`?
pub fn starts_with(s: &[char], p: &[char]) -> (r: bool)
    ensures
        r == (p@.len() <= s@.len() && s@.take(p@.len() as int) == p@),
{
    if p.len() > s.len() {
        return false;
    }
    let mut i: usize = 0;
    while i < p.len()
        invariant
            p@.len() <= s@.len(),
            0 <= i <= p@.len(),
            forall|j: int| 0 <= j < i ==> s@[j] == p@[j],
        decreases p@.len() - i,
    {
        if s[i] != p[i] {
            assert(s@.take(p@.len() as int)[i as int] != p@[i as int]);
            return false;
        }
        i = i + 1;
    }
    assert(s@.take(p@.len() as int) =~= p@);
    true
}

/// Does `s` start with the literal `lit`?
pub fn starts_with_lit(s: &[char], lit: &str) -> (r: bool)
    ensures
        r == (lit@.len() <= s@.len() && s@.take(lit@.len() as int) == lit@),
{
    let l = chars_of(lit);
    starts_with(s, &l)
}

/// Does `s` contain the character `c`?
pub fn contains_char(s: &[char], c: char) -> (r: bool)
    ensures
        r == s@.contains(c),
{
    let mut i: usize = 0;
    while i < s.len()
        invariant
            0 <= i <= s@.len(),
            forall|j: int| 0 <= j < i ==> s@[j] != c,
        decreases s@.len() - i,
    {
        if s[i] == c {
            assert(s@[i as int] == c);
            return true;
        }
        i = i + 1;
    }
    false
}

/// Is `p` found in `s` at position `i`?
pub open spec fn occurs_at(s: Seq<char>, p: Seq<char>, i: int) -> bool {
    0 <= i && i + p.len() <= s.len() && s.subrange(i, i + p.len()) == p
}

/// The first position at which `p` occurs in `s` (as `str::find` reports it).
#[verifier::opaque]
pub open spec fn find_first(s: Seq<char>, p: Seq<char>) -> Option<int> {
    if exists|i: int| occurs_at(s, p, i) {
        Some(choose|i: int| occurs_at(s, p, i) && forall|j: int| 0 <= j < i ==> !occurs_at(s, p, j))
    } else {
        None
    }
}

proof fn lemma_find_first_is(s: Seq<char>, p: Seq<char>, i: int)
    requires
        occurs_at(s, p, i),
        forall|j: int| 0 <= j < i ==> !occurs_at(s, p, j),
    ensures
        find_first(s, p) == Some(i),
{
    reveal(find_first);
    let k = choose|k: int| occurs_at(s, p, k) && forall|j: int| 0 <= j < k ==> !occurs_at(s, p, j);
    if k < i {
        assert(!occurs_at(s, p, k));
    }
    if i < k {
        assert(!occurs_at(s, p, i));
    }
}

fn matches_at(s: &[char], p: &[char], i: usize) -> (r: bool)
    requires
        p@.len() <= s@.len(),
        i <= s@.len() - p@.len(),
    ensures
        r == occurs_at(s@, p@, i as int),
{
    let end: usize = s.len() - (s.len() - p.len() - i);
    let w = slice_chars(s, i, end);
    chars_eq(&w, p)
}

/// Position of the first occurrence of `p` in `s`.
pub fn find(s: &[char], p: &[char]) -> (r: Option<usize>)
    ensures
        r matches Some(i) ==> find_first(s@, p@) == Some(i as int) && occurs_at(s@, p@, i as int),
        r is None ==> find_first(s@, p@) is None,
{
    if p.len() > s.len() {
        assert forall|i: int| !occurs_at(s@, p@, i) by {}
        reveal(find_first);
        return None;
    }
    let last = s.len() - p.len();
    let mut i: usize = 0;
    while i < last
        invariant
            p@.len() <= s@.len(),
            last == s@.len() - p@.len(),
            0 <= i <= last,
            forall|j: int| 0 <= j < i ==> !occurs_at(s@, p@, j),
        decreases last - i,
    {
        if matches_at(s, p, i) {
            proof {
                lemma_find_first_is(s@, p@, i as int);
            }
            return Some(i);
        }
        i = i + 1;
    }
    if matches_at(s, p, i) {
        proof {
            lemma_find_first_is(s@, p@, i as int);
        }
        return Some(i);
    }
    assert forall|j: int| !occurs_at(s@, p@, j) by {
        if 0 <= j && j + p@.len() <= s@.len() {
            assert(j <= i);
        }
    }
    reveal(find_first);
    None
}

/// `p` occurs somewhere in `s` (`str::contains`).
pub open spec fn contains_text(s: Seq<char>, p: Seq<char>) -> bool {
    find_first(s, p) is Some
}

pub fn text_contains(s: &str, p: &str) -> (r: bool)
    ensures
        r == contains_text(s@, p@),
{
    let sc = chars_of(s);
    let pc = chars_of(p);
    find(&sc, &pc).is_some()
}

/// What `str::to_lowercase` gives for a text.
pub uninterp spec fn lowercase(s: Seq<char>) -> Seq<char>;

/// A text as `to_lowercase` folds it: for ASCII text the ASCII lower case of each
/// character, otherwise what `str::to_lowercase` gives.
pub open spec fn folded(s: Seq<char>) -> Seq<char> {
    if vstd::utf8::is_ascii_chars(s) {
        s.map_values(|c: char| lower(c))
    } else {
        lowercase(s)
    }
}

/// `str::to_lowercase`: the text in lower case (Unicode rules, no locale). For ASCII
/// text the std documentation gives the ASCII lower case, character for character (so
/// the empty text stays empty); for other text the Unicode mapping is left unstated.
#[verifier::external_body]
pub(crate) fn to_lowercase(s: &str) -> (r: String)
    ensures
        r@ == lowercase(s@),
        vstd::utf8::is_ascii_chars(s@) ==> r@ == s@.map_values(|c: char| lower(c)),
{
    s.to_lowercase()
}

/// `t` without the characters of `cs` at its end (`trim_end_matches` with a set).
pub open spec fn trim_end_in(t: Seq<char>, cs: Seq<char>) -> Seq<char>
    decreases t.len(),
{
    if t.len() > 0 && cs.contains(t.last()) {
        trim_end_in(t.drop_last(), cs)
    } else {
        t
    }
}

/// `t` without the characters of `cs` at its start (`trim_start_matches` with a set).
pub open spec fn trim_start_in(t: Seq<char>, cs: Seq<char>) -> Seq<char>
    decreases t.len(),
{
    if t.len() > 0 && cs.contains(t[0]) {
        trim_start_in(t.drop_first(), cs)
    } else {
        t
    }
}

fn char_in(c: char, cs: &[char]) -> (r: bool)
    ensures
        r == cs@.contains(c),
{
    let mut i: usize = 0;
    while i < cs.len()
        invariant
            0 <= i <= cs@.len(),
            forall|j: int| 0 <= j < i ==> cs@[j] != c,
        decreases cs@.len() - i,
    {
        if cs[i] == c {
            assert(cs@[i as int] == c);
            return true;
        }
        i = i + 1;
    }
    false
}

pub fn trim_end_in_chars(t: &[char], cs: &[char]) -> (r: Vec<char>)
    ensures
        r@ == trim_end_in(t@, cs@),
{
    let mut n: usize = t.len();
    assert(t@.take(t@.len() as int) == t@);
    while n > 0 && char_in(t[n - 1], cs)
        invariant
            0 <= n <= t@.len(),
            trim_end_in(t@, cs@) == trim_end_in(t@.take(n as int), cs@),
        decreases n,
    {
        assert(t@.take(n as int).drop_last() == t@.take(n - 1));
        n = n - 1;
    }
    slice_chars(t, 0, n)
}

pub fn trim_start_in_chars(t: &[char], cs: &[char]) -> (r: Vec<char>)
    ensures
        r@ == trim_start_in(t@, cs@),
{
    let mut k: usize = 0;
    assert(t@.skip(0) == t@);
    while k < t.len() && char_in(t[k], cs)
        invariant
            0 <= k <= t@.len(),
            trim_start_in(t@, cs@) == trim_start_in(t@.skip(k as int), cs@),
        decreases t@.len() - k,
    {
        assert(t@.skip(k as int).drop_first() == t@.skip(k + 1));
        k = k + 1;
    }
    assert(t@.subrange(k as int, t@.len() as int) == t@.skip(k as int));
    slice_chars(t, k, t.len())
}

/// ASCII upper case of one character (other characters unchanged).
pub open spec fn upper(c: char) -> char {
    if is_lower(c) {
        ((c as u32) - 32) as char
    } else {
        c
    }
}

/// What `char::to_uppercase` yields for a character, collected.
pub uninterp spec fn upper_of(c: char) -> Seq<char>;

/// `char::to_uppercase`, collected into a `String`. For an ASCII character the std
/// documentation gives the ASCII upper case, one character; for any other character
/// the Unicode mapping is left unstated.
#[verifier::external_body]
pub(crate) fn char_to_upper(c: char) -> (r: String)
    ensures
        r@ == upper_of(c),
        (c as u32) < 128 ==> r@ == seq![upper(c)],
{
    c.to_uppercase().collect()
}

/// The texts joined with `sep` between each two (`[..].join(sep)`).
pub open spec fn join_with(ws: Seq<Seq<char>>, sep: Seq<char>) -> Seq<char>
    decreases ws.len(),
{
    if ws.len() == 0 {
        Seq::empty()
    } else if ws.len() == 1 {
        ws[0]
    } else {
        join_with(ws.drop_last(), sep) + sep + ws.last()
    }
}

/// Append the first `count` texts of `ws`, joined with `sep`.
pub fn push_joined(out: &mut Vec<char>, ws: &Vec<String>, count: usize, sep: &str)
    requires
        count <= ws@.len(),
    ensures
        final(out)@ == old(out)@ + join_with(ws.deep_view().take(count as int), sep@),
{
    let ghost w = ws.deep_view();
    let ghost o0 = out@;
    let mut i: usize = 0;
    while i < count
        invariant
            count <= ws@.len(),
            w == ws.deep_view(),
            0 <= i <= count,
            out@ == o0 + join_with(w.take(i as int), sep@),
        decreases count - i,
    {
        assert(w.take(i + 1).drop_last() =~= w.take(i as int));
        assert(ws@[i as int]@ == w[i as int]);
        assert(w.take(i + 1).last() == w[i as int]);
        if i > 0 {
            push_str(out, sep);
            push_str(out, ws[i].as_str());
            assert(out@ =~= o0 + join_with(w.take(i + 1), sep@));
        } else {
            push_str(out, ws[i].as_str());
            assert(out@ =~= o0 + join_with(w.take(i + 1), sep@));
        }
        i = i + 1;
    }
}

pub fn find_lit(s: &[char], lit: &str) -> (r: Option<usize>)
    ensures
        r matches Some(i) ==> find_first(s@, lit@) == Some(i as int) && occurs_at(s@, lit@, i as int),
        r is None ==> find_first(s@, lit@) is None,
{
    let p = chars_of(lit);
    find(s, &p)
}

// ---------------------------------------------------------------------------
// Trimming and splitting on whitespace
// ---------------------------------------------------------------------------

/// `s` without leading whitespace.
pub open spec fn trim_start(s: Seq<char>) -> Seq<char>
    decreases s.len(),
{
    if s.len() > 0 && is_ws(s[0]) {
        trim_start(s.drop_first())
    } else {
        s
    }
}

/// `s` without trailing whitespace.
pub open spec fn trim_end(s: Seq<char>) -> Seq<char>
    decreases s.len(),
{
    if s.len() > 0 && is_ws(s.last()) {
        trim_end(s.drop_last())
    } else {
        s
    }
}

/// `str::trim`: `s` without leading and trailing whitespace.
pub open spec fn trim(s: Seq<char>) -> Seq<char> {
    trim_end(trim_start(s))
}

proof fn lemma_trim_start_suffix(s: Seq<char>, i: int)
    requires
        0 <= i <= s.len(),
        forall|j: int| 0 <= j < i ==> is_ws(s[j]),
    ensures
        trim_start(s) == trim_start(s.subrange(i, s.len() as int)),
    decreases i,
{
    if i > 0 {
        assert(s.drop_first().subrange(i - 1, s.drop_first().len() as int) =~= s.subrange(
            i,
            s.len() as int,
        ));
        lemma_trim_start_suffix(s.drop_first(), i - 1);
    } else {
        assert(s.subrange(0, s.len() as int) =~= s);
    }
}

proof fn lemma_trim_end_prefix(s: Seq<char>, i: int)
    requires
        0 <= i <= s.len(),
        forall|j: int| i <= j < s.len() ==> is_ws(s[j]),
    ensures
        trim_end(s) == trim_end(s.subrange(0, i)),
    decreases s.len() - i,
{
    if i < s.len() {
        assert(s.drop_last().subrange(0, i) =~= s.subrange(0, i));
        lemma_trim_end_prefix(s.drop_last(), i);
    } else {
        assert(s.subrange(0, s.len() as int) =~= s);
    }
}

pub fn trim_chars(s: &[char]) -> (r: Vec<char>)
    ensures
        r@ == trim(s@),
{
    let mut a: usize = 0;
    while a < s.len() && is_whitespace(s[a])
        invariant
            0 <= a <= s@.len(),
            forall|j: int| 0 <= j < a ==> is_ws(s@[j]),
        decreases s@.len() - a,
    {
        a = a + 1;
    }
    proof {
        lemma_trim_start_suffix(s@, a as int);
    }
    let ghost rest = s@.subrange(a as int, s@.len() as int);
    assert(rest.len() == 0 || !is_ws(rest[0]));
    assert(trim_start(rest) == rest);
    let mut b: usize = s.len();
    while b > a && is_whitespace(s[b - 1])
        invariant
            a <= b <= s@.len(),
            forall|j: int| b <= j < s@.len() ==> is_ws(s@[j]),
        decreases b - a,
    {
        b = b - 1;
    }
    proof {
        let r2 = rest;
        assert forall|j: int| (b - a) <= j < r2.len() implies is_ws(r2[j]) by {
            assert(r2[j] == s@[a + j]);
        }
        lemma_trim_end_prefix(r2, b - a);
        let kept = r2.subrange(0, b - a);
        assert(kept =~= s@.subrange(a as int, b as int));
        assert(kept.len() == 0 || !is_ws(kept.last()));
    }
    slice_chars(s, a, b)
}

/// Where whitespace splitting stands after reading `s`: the finished words and the
/// word still being read.
pub open spec fn ws_state(s: Seq<char>) -> (Seq<Seq<char>>, Seq<char>)
    decreases s.len(),
{
    if s.len() == 0 {
        (Seq::empty(), Seq::empty())
    } else {
        let (done, cur) = ws_state(s.drop_last());
        let c = s.last();
        if is_ws(c) {
            if cur.len() > 0 {
                (done.push(cur), Seq::empty())
            } else {
                (done, Seq::empty())
            }
        } else {
            (done, cur.push(c))
        }
    }
}

/// `str::split_whitespace`: the maximal runs of non-whitespace characters of `s`.
pub open spec fn split_ws(s: Seq<char>) -> Seq<Seq<char>> {
    let (done, cur) = ws_state(s);
    if cur.len() > 0 {
        done.push(cur)
    } else {
        done
    }
}

pub fn split_whitespace(s: &[char]) -> (words: Vec<Vec<char>>)
    ensures
        words.deep_view() == split_ws(s@),
{
    let mut done: Vec<Vec<char>> = Vec::new();
    let mut cur: Vec<char> = Vec::new();
    let mut i: usize = 0;
    assert(done.deep_view() =~= Seq::<Seq<char>>::empty());
    while i < s.len()
        invariant
            0 <= i <= s@.len(),
            done.deep_view() == ws_state(s@.take(i as int)).0,
            cur@ == ws_state(s@.take(i as int)).1,
        decreases s@.len() - i,
    {
        let c = s[i];
        let ghost before = done.deep_view();
        assert(s@.take(i + 1).drop_last() == s@.take(i as int));
        assert(s@.take(i + 1).last() == c);
        if is_whitespace(c) {
            if cur.len() > 0 {
                let ghost w = cur@;
                assert(cur.deep_view() =~= w);
                done.push(cur);
                cur = Vec::new();
                assert(done.deep_view() =~= before.push(w));
            } else {
                cur = Vec::new();
            }
        } else {
            cur.push(c);
        }
        i = i + 1;
    }
    assert(s@.take(s@.len() as int) == s@);
    let ghost before = done.deep_view();
    if cur.len() > 0 {
        let ghost w = cur@;
        assert(cur.deep_view() =~= w);
        done.push(cur);
        assert(done.deep_view() =~= before.push(w));
    }
    done
}

// ---------------------------------------------------------------------------
// Lines
// ---------------------------------------------------------------------------

/// A line as `str::lines` yields it: without a `\r` that preceded its `\n`.
pub open spec fn strip_cr(l: Seq<char>) -> Seq<char> {
    if l.len() > 0 && l.last() == '\r' {
        l.drop_last()
    } else {
        l
    }
}

/// Reading `s` left to right: the lines ended by a `\n` so far (each without its
/// `\r\n` or `\n`), and the line being read.
pub open spec fn line_scan(s: Seq<char>) -> (Seq<Seq<char>>, Seq<char>)
    decreases s.len(),
{
    if s.len() == 0 {
        (Seq::empty(), Seq::empty())
    } else {
        let (done, cur) = line_scan(s.drop_last());
        if s.last() == '\n' {
            (done.push(strip_cr(cur)), Seq::empty())
        } else {
            (done, cur.push(s.last()))
        }
    }
}

/// `str::lines`: the lines of `s`; a last line without a line ending counts when it is
/// not empty.
pub open spec fn text_lines(s: Seq<char>) -> Seq<Seq<char>> {
    let (done, cur) = line_scan(s);
    if cur.len() > 0 {
        done.push(cur)
    } else {
        done
    }
}

pub fn lines_of(s: &[char]) -> (lines: Vec<Vec<char>>)
    ensures
        lines.deep_view() == text_lines(s@),
{
    let mut done: Vec<Vec<char>> = Vec::new();
    let mut cur: Vec<char> = Vec::new();
    let mut i: usize = 0;
    assert(done.deep_view() =~= Seq::<Seq<char>>::empty());
    while i < s.len()
        invariant
            0 <= i <= s@.len(),
            done.deep_view() == line_scan(s@.take(i as int)).0,
            cur@ == line_scan(s@.take(i as int)).1,
        decreases s@.len() - i,
    {
        let c = s[i];
        let ghost before = done.deep_view();
        assert(s@.take(i + 1).drop_last() == s@.take(i as int));
        assert(s@.take(i + 1).last() == c);
        if c == '\n' {
            let n = cur.len();
            if n > 0 && cur[n - 1] == '\r' {
                cur.pop();
            }
            let ghost w = cur@;
            assert(cur.deep_view() =~= w);
            done.push(cur);
            cur = Vec::new();
            assert(done.deep_view() =~= before.push(w));
        } else {
            cur.push(c);
        }
        i = i + 1;
    }
    assert(s@.take(s@.len() as int) == s@);
    let ghost before = done.deep_view();
    if cur.len() > 0 {
        let ghost w = cur@;
        assert(cur.deep_view() =~= w);
        done.push(cur);
        assert(done.deep_view() =~= before.push(w));
    }
    done
}

// ---------------------------------------------------------------------------
// Decimal numbers
// ---------------------------------------------------------------------------

/// The decimal digits of `n`, as `Display` writes them.
pub open spec fn nat_text(n: nat) -> Seq<char>
    decreases n,
{
    if n < 10 {
        seq![digit_char(n)]
    } else {
        nat_text(n / 10).push(digit_char(n % 10))
    }
}

/// An integer as `Display` writes it: a `-` before a negative number.
pub open spec fn int_text(i: int) -> Seq<char> {
    if i < 0 {
        seq!['-'] + nat_text((-i) as nat)
    } else {
        nat_text(i as nat)
    }
}

pub fn nat_chars(n: u64) -> (r: Vec<char>)
    ensures
        r@ == nat_text(n as nat),
    decreases n,
{
    if n < 10 {
        let c = digit_to_char(n);
        let mut v: Vec<char> = Vec::new();
        v.push(c);
        assert(v@ =~= seq![digit_char(n as nat)]);
        v
    } else {
        let mut v = nat_chars(n / 10);
        let c = digit_to_char(n % 10);
        v.push(c);
        v
    }
}

pub fn int_chars(i: i64) -> (r: Vec<char>)
    ensures
        r@ == int_text(i as int),
{
    if i < 0 {
        let m: u64 = if i == i64::MIN {
            9223372036854775808u64
        } else {
            (-i) as u64
        };
        let mut v: Vec<char> = Vec::new();
        v.push('-');
        let mut d = nat_chars(m);
        v.append(&mut d);
        assert(v@ =~= seq!['-'] + nat_text((-i) as nat));
        v
    } else {
        nat_chars(i as u64)
    }
}

/// Appends the decimal text of `i` to `out`.
pub fn push_int(out: &mut Vec<char>, i: i64)
    ensures
        final(out)@ == old(out)@ + int_text(i as int),
{
    let mut d = int_chars(i);
    out.append(&mut d);
}

/// The value of a run of decimal digits.
pub open spec fn digits_value(s: Seq<char>) -> nat
    decreases s.len(),
{
    if s.len() == 0 {
        0
    } else {
        digits_value(s.drop_last()) * 10 + digit_value(s.last())
    }
}

pub open spec fn all_digits(s: Seq<char>) -> bool {
    forall|i: int| 0 <= i < s.len() ==> is_digit(#[trigger] s[i])
}

/// Integer text as `FromStr` for integers accepts it: an optional sign (a `-` only when
/// `signed`) followed by at least one decimal digit, nothing else.
pub open spec fn int_syntax_value(s: Seq<char>, signed: bool) -> Option<int> {
    let neg = signed && s.len() > 0 && s[0] == '-';
    let has_sign = s.len() > 0 && (s[0] == '+' || neg);
    let body = if has_sign {
        s.drop_first()
    } else {
        s
    };
    if body.len() > 0 && all_digits(body) {
        if neg {
            Some(-(digits_value(body) as int))
        } else {
            Some(digits_value(body) as int)
        }
    } else {
        None
    }
}

/// `str::parse::<u32>`, as `Option`.
pub open spec fn parse_u32_spec(s: Seq<char>) -> Option<u32> {
    match int_syntax_value(s, false) {
        Some(v) => if 0 <= v <= u32::MAX {
            Some(v as u32)
        } else {
            None
        },
        None => None,
    }
}

/// `str::parse::<i32>`, as `Option`.
pub open spec fn parse_i32_spec(s: Seq<char>) -> Option<i32> {
    match int_syntax_value(s, true) {
        Some(v) => if i32::MIN <= v <= i32::MAX {
            Some(v as i32)
        } else {
            None
        },
        None => None,
    }
}

const DIGITS_CAP: u64 = 0x1_0000_0000_0000;

/// The digits of `body`, their value capped at `DIGITS_CAP`; `None` unless all are digits
/// and there is at least one.
fn capped_digits(body: &[char]) -> (r: Option<u64>)
    ensures
        r is Some <==> (body@.len() > 0 && all_digits(body@)),
        r matches Some(v) ==> (v == if digits_value(body@) < DIGITS_CAP as nat {
            digits_value(body@)
        } else {
            DIGITS_CAP as nat
        }),
{
    if body.len() == 0 {
        return None;
    }
    let mut acc: u64 = 0;
    let mut i: usize = 0;
    while i < body.len()
        invariant
            0 <= i <= body@.len(),
            all_digits(body@.take(i as int)),
            acc == if digits_value(body@.take(i as int)) < DIGITS_CAP as nat {
                digits_value(body@.take(i as int))
            } else {
                DIGITS_CAP as nat
            },
        decreases body@.len() - i,
    {
        let c = body[i];
        if !('0' <= c && c <= '9') {
            assert(!all_digits(body@));
            return None;
        }
        let d: u64 = ((c as u32) - 48) as u64;
        assert(body@.take(i + 1).drop_last() == body@.take(i as int));
        assert(body@.take(i + 1).last() == c);
        if acc < DIGITS_CAP {
            let nv = acc * 10 + d;
            acc = if nv < DIGITS_CAP {
                nv
            } else {
                DIGITS_CAP
            };
        }
        i = i + 1;
        assert(all_digits(body@.take(i as int)));
    }
    assert(body@.take(body@.len() as int) == body@);
    Some(acc)
}

pub fn parse_u32(s: &[char]) -> (r: Option<u32>)
    ensures
        r == parse_u32_spec(s@),
{
    let has_sign = s.len() > 0 && s[0] == '+';
    let body = if has_sign {
        slice_chars(s, 1, s.len())
    } else {
        copy_chars(s)
    };
    assert(has_sign ==> body@ == s@.drop_first());
    match capped_digits(&body) {
        Some(v) => {
            if v <= 0xffff_ffff {
                Some(v as u32)
            } else {
                None
            }
        },
        None => None,
    }
}

pub fn parse_i32(s: &[char]) -> (r: Option<i32>)
    ensures
        r == parse_i32_spec(s@),
{
    let neg = s.len() > 0 && s[0] == '-';
    let has_sign = s.len() > 0 && (s[0] == '+' || neg);
    let body = if has_sign {
        slice_chars(s, 1, s.len())
    } else {
        copy_chars(s)
    };
    assert(has_sign ==> body@ == s@.drop_first());
    match capped_digits(&body) {
        Some(v) => {
            if neg {
                if v <= 0x8000_0000 {
                    let w: i64 = -(v as i64);
                    Some(w as i32)
                } else {
                    None
                }
            } else {
                if v <= 0x7fff_ffff {
                    Some(v as i32)
                } else {
                    None
                }
            }
        },
        None => None,
    }
}

// ---------------------------------------------------------------------------
// Brace comments
// ---------------------------------------------------------------------------

/// Reading `s` left to right with `{...}` comments (nesting counted, a stray `}`
/// ignored): the open-comment depth reached and the characters kept outside comments.
pub open spec fn brace_scan(s: Seq<char>) -> (nat, Seq<char>)
    decreases s.len(),
{
    if s.len() == 0 {
        (0, Seq::empty())
    } else {
        let (d, out) = brace_scan(s.drop_last());
        let c = s.last();
        if c == '{' {
            (d + 1, out)
        } else if c == '}' {
            (if d > 0 {
                (d - 1) as nat
            } else {
                0
            }, out)
        } else if d == 0 {
            (d, out.push(c))
        } else {
            (d, out)
        }
    }
}

/// The characters of `s` outside `{...}` comments.
pub open spec fn strip_braces(s: Seq<char>) -> Seq<char> {
    brace_scan(s).1
}

proof fn lemma_brace_depth(s: Seq<char>)
    ensures
        brace_scan(s).0 <= s.len(),
    decreases s.len(),
{
    if s.len() > 0 {
        lemma_brace_depth(s.drop_last());
    }
}

pub fn strip_brace_chars(s: &[char]) -> (r: Vec<char>)
    ensures
        r@ == strip_braces(s@),
{
    let mut out: Vec<char> = Vec::new();
    let mut depth: usize = 0;
    let mut i: usize = 0;
    while i < s.len()
        invariant
            0 <= i <= s@.len(),
            (depth as nat, out@) == brace_scan(s@.take(i as int)),
        decreases s@.len() - i,
    {
        let c = s[i];
        proof {
            assert(s@.take(i + 1).drop_last() == s@.take(i as int));
            assert(s@.take(i + 1).last() == c);
            lemma_brace_depth(s@.take(i as int));
        }
        if c == '{' {
            depth = depth + 1;
        } else if c == '}' {
            depth = if depth > 0 {
                depth - 1
            } else {
                0
            };
        } else if depth == 0 {
            out.push(c);
        }
        i = i + 1;
    }
    assert(s@.take(s@.len() as int) == s@);
    out
}

// ---------------------------------------------------------------------------
// UTF-8 lengths
// ---------------------------------------------------------------------------

/// The number of bytes UTF-8 uses for `c`.
pub open spec fn char_width(c: char) -> nat {
    if (c as u32) < 0x80 {
        1
    } else if (c as u32) < 0x800 {
        2
    } else if (c as u32) < 0x10000 {
        3
    } else {
        4
    }
}

pub fn utf8_width(c: char) -> (w: usize)
    ensures
        w == char_width(c),
{
    let u = c as u32;
    if u < 0x80 {
        1
    } else if u < 0x800 {
        2
    } else if u < 0x10000 {
        3
    } else {
        4
    }
}

/// `str::len` of text with these characters: its length in UTF-8 bytes.
pub open spec fn text_bytes(s: Seq<char>) -> nat
    decreases s.len(),
{
    if s.len() == 0 {
        0
    } else {
        text_bytes(s.drop_last()) + char_width(s.last())
    }
}

/// The number of leading characters of `s` that take up exactly `b` bytes, if a
/// character starts there.
pub open spec fn chars_in_bytes(s: Seq<char>, b: int) -> Option<int>
    decreases s.len(),
{
    if b == 0 {
        Some(0)
    } else if s.len() == 0 || b < char_width(s[0]) {
        None
    } else {
        match chars_in_bytes(s.drop_first(), b - char_width(s[0])) {
            Some(k) => Some(k + 1),
            None => None,
        }
    }
}

proof fn lemma_text_bytes_take_push(s: Seq<char>, i: int)
    requires
        0 <= i < s.len(),
    ensures
        text_bytes(s.take(i + 1)) == text_bytes(s.take(i)) + char_width(s[i]),
{
    assert(s.take(i + 1).drop_last() == s.take(i));
}

proof fn lemma_text_bytes_first(s: Seq<char>)
    requires
        s.len() > 0,
    ensures
        text_bytes(s) == char_width(s[0]) + text_bytes(s.drop_first()),
    decreases s.len(),
{
    if s.len() == 1 {
        assert(s.drop_last().len() == 0);
        assert(s.drop_first().len() == 0);
        assert(text_bytes(s.drop_last()) == 0);
        assert(text_bytes(s.drop_first()) == 0);
        assert(s.last() == s[0]);
    } else {
        lemma_text_bytes_first(s.drop_last());
        assert(s.drop_last().drop_first() == s.drop_first().drop_last());
        assert(s.drop_first().last() == s.last());
        assert(s.drop_last()[0] == s[0]);
    }
}

/// A prefix `s.take(p)` has `text_bytes(s.take(p))` bytes, and `chars_in_bytes` finds it.
proof fn lemma_chars_in_bytes_take(s: Seq<char>, p: int)
    requires
        0 <= p <= s.len(),
    ensures
        chars_in_bytes(s, text_bytes(s.take(p)) as int) == Some(p),
    decreases p,
{
    if p == 0 {
        assert(s.take(0).len() == 0);
    } else {
        lemma_text_bytes_first(s.take(p));
        assert(s.take(p).drop_first() == s.drop_first().take(p - 1));
        lemma_chars_in_bytes_take(s.drop_first(), p - 1);
    }
}

/// The characters that `chars_in_bytes` counts are characters of `s`.
pub proof fn lemma_chars_in_bytes_le(s: Seq<char>, b: int)
    ensures
        chars_in_bytes(s, b) matches Some(k) ==> 0 <= k <= s.len(),
    decreases s.len(),
{
    if b != 0 && s.len() > 0 && b >= char_width(s[0]) {
        lemma_chars_in_bytes_le(s.drop_first(), b - char_width(s[0]));
    }
}

/// If `b` is not the byte length of some prefix, `chars_in_bytes` says so.
proof fn lemma_chars_in_bytes_none(s: Seq<char>, b: int, p: int)
    requires
        0 <= p < s.len(),
        text_bytes(s.take(p)) < b < text_bytes(s.take(p + 1)),
    ensures
        chars_in_bytes(s, b) is None,
    decreases p,
{
    lemma_text_bytes_take_push(s, p);
    if p == 0 {
        assert(s.take(0).len() == 0);
    } else {
        lemma_text_bytes_first(s.take(p));
        lemma_text_bytes_first(s.take(p + 1));
        assert(s.take(p).drop_first() == s.drop_first().take(p - 1));
        assert(s.take(p + 1).drop_first() == s.drop_first().take(p));
        lemma_chars_in_bytes_none(s.drop_first(), b - char_width(s[0]), p - 1);
    }
}

/// The character index at which byte offset `b` of `s` falls, when a character starts
/// there (`b` at most the byte length).
pub fn char_index_of_byte(s: &[char], b: usize) -> (r: Option<usize>)
    requires
        b <= text_bytes(s@),
    ensures
        r matches Some(p) ==> chars_in_bytes(s@, b as int) == Some(p as int),
        r is None ==> chars_in_bytes(s@, b as int) is None,
{
    let mut p: usize = 0;
    let mut acc: usize = 0;
    while acc < b
        invariant
            0 <= p <= s@.len(),
            acc == text_bytes(s@.take(p as int)),
            acc <= b,
            b <= text_bytes(s@),
        decreases s@.len() - p,
    {
        if p >= s.len() {
            assert(s@.take(p as int) == s@);
            return None;
        }
        proof {
            lemma_text_bytes_take_push(s@, p as int);
            lemma_text_bytes_prefix_le(s@, p + 1);
        }
        let w = utf8_width(s[p]);
        if w > b - acc {
            proof {
                lemma_chars_in_bytes_none(s@, b as int, p as int);
            }
            return None;
        }
        acc = acc + w;
        p = p + 1;
    }
    proof {
        lemma_chars_in_bytes_take(s@, p as int);
    }
    Some(p)
}

proof fn lemma_text_bytes_prefix_le(s: Seq<char>, p: int)
    requires
        0 <= p <= s.len(),
    ensures
        text_bytes(s.take(p)) <= text_bytes(s),
    decreases s.len() - p,
{
    if p < s.len() {
        lemma_text_bytes_take_push(s, p);
        lemma_text_bytes_prefix_le(s, p + 1);
    } else {
        assert(s.take(p) == s);
    }
}

/// The UTF-8 length of `s`.
pub fn bytes_len(s: &[char]) -> (n: usize)
    requires
        text_bytes(s@) <= usize::MAX,
    ensures
        n == text_bytes(s@),
{
    let mut n: usize = 0;
    let mut i: usize = 0;
    while i < s.len()
        invariant
            0 <= i <= s@.len(),
            n == text_bytes(s@.take(i as int)),
            text_bytes(s@) <= usize::MAX,
        decreases s@.len() - i,
    {
        proof {
            lemma_text_bytes_take_push(s@, i as int);
            lemma_text_bytes_prefix_le(s@, i + 1);
        }
        n = n + utf8_width(s[i]);
        i = i + 1;
    }
    assert(s@.take(s@.len() as int) == s@);
    n
}

} // verus!
