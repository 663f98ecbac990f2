//! The scoreboard line grammar: a full line is a game-clock token, an
//! optional literal `s` unit marker, an optional shot-clock token of at
//! most two digits, and four mandatory whitespace-separated numeric
//! tokens (home score, away score, home fouls, away fouls), where away
//! fouls is a single digit. `parse` validates a line against this
//! grammar and extracts the six fields verbatim.
use vstd::prelude::*;

verus! {

/// The whitespace characters the grammar accepts between tokens.
pub open spec fn is_ws_char(c: char) -> bool {
    c == ' ' || c == '\t' || c == '\n' || c == '\r' || c == '\u{b}' || c == '\u{c}'
}

/// The decimal digits.
pub open spec fn is_digit_char(c: char) -> bool {
    '0' <= c && c <= '9'
}

/// Length of the maximal run of digits starting at position `i`.
pub open spec fn digit_run_len(s: Seq<char>, i: int) -> nat
    decreases s.len() - i when 0 <= i <= s.len()
{
    if i < 0 || i >= s.len() || !is_digit_char(s[i]) {
        0
    } else {
        1 + digit_run_len(s, i + 1)
    }
}

/// Length of the maximal run of whitespace starting at position `i`.
pub open spec fn ws_run_len(s: Seq<char>, i: int) -> nat
    decreases s.len() - i when 0 <= i <= s.len()
{
    if i < 0 || i >= s.len() || !is_ws_char(s[i]) {
        0
    } else {
        1 + ws_run_len(s, i + 1)
    }
}

/// Every character of `t` is a digit.
pub open spec fn all_digits(t: Seq<char>) -> bool {
    forall|i: int| 0 <= i < t.len() ==> is_digit_char(t[i])
}

/// Every character of `t` is whitespace.
pub open spec fn all_ws(t: Seq<char>) -> bool {
    forall|i: int| 0 <= i < t.len() ==> is_ws_char(t[i])
}

/// Every character of `t` is whitespace or the literal `s` unit marker.
pub open spec fn unit_or_ws(t: Seq<char>) -> bool {
    forall|i: int| 0 <= i < t.len() ==> (is_ws_char(t[i]) || t[i] == 's')
}

/// A game-clock token: one or two digits, a colon, exactly two digits,
/// and an optional `.` plus one digit.
pub open spec fn is_clock_token(t: Seq<char>) -> bool {
    let k = digit_run_len(t, 0) as int;
    &&& 1 <= k <= 2
    &&& (t.len() == k + 3 || t.len() == k + 5)
    &&& t[k] == ':'
    &&& is_digit_char(t[k + 1])
    &&& is_digit_char(t[k + 2])
    &&& (t.len() == k + 5 ==> t[k + 3] == '.' && is_digit_char(t[k + 4]))
}

/// A run of `k` digits bounded by a non-digit or the end is the maximal
/// run.
pub proof fn lemma_digit_run_exact(s: Seq<char>, i: int, k: int)
    requires
        0 <= i,
        0 <= k,
        i + k <= s.len(),
        forall|j: int| i <= j < i + k ==> is_digit_char(s[j]),
        i + k == s.len() || !is_digit_char(s[i + k]),
    ensures
        digit_run_len(s, i) == k,
    decreases k,
{
    if k > 0 {
        lemma_digit_run_exact(s, i + 1, k - 1);
    }
}

/// A run of `k` whitespace characters bounded by non-whitespace or the
/// end is the maximal run.
pub proof fn lemma_ws_run_exact(s: Seq<char>, i: int, k: int)
    requires
        0 <= i,
        0 <= k,
        i + k <= s.len(),
        forall|j: int| i <= j < i + k ==> is_ws_char(s[j]),
        i + k == s.len() || !is_ws_char(s[i + k]),
    ensures
        ws_run_len(s, i) == k,
    decreases k,
{
    if k > 0 {
        lemma_ws_run_exact(s, i + 1, k - 1);
    }
}

/// The characters inside the maximal digit run are digits, and the run
/// stops at the end or at a non-digit.
pub proof fn lemma_digit_run_digits(s: Seq<char>, i: int)
    requires
        0 <= i <= s.len(),
    ensures
        i + digit_run_len(s, i) <= s.len(),
        forall|j: int| i <= j < i + digit_run_len(s, i) ==> is_digit_char(s[j]),
        i + digit_run_len(s, i) == s.len() || !is_digit_char(s[i + digit_run_len(s, i)]),
    decreases s.len() - i,
{
    if i < s.len() && is_digit_char(s[i]) {
        lemma_digit_run_digits(s, i + 1);
    }
}

/// The characters inside the maximal whitespace run are whitespace, and
/// the run stops at the end or at a non-whitespace character.
pub proof fn lemma_ws_run_ws(s: Seq<char>, i: int)
    requires
        0 <= i <= s.len(),
    ensures
        i + ws_run_len(s, i) <= s.len(),
        forall|j: int| i <= j < i + ws_run_len(s, i) ==> is_ws_char(s[j]),
        i + ws_run_len(s, i) == s.len() || !is_ws_char(s[i + ws_run_len(s, i)]),
    decreases s.len() - i,
{
    if i < s.len() && is_ws_char(s[i]) {
        lemma_ws_run_ws(s, i + 1);
    }
}

/// A parsed scoreboard record: the six fields exactly as they appear in
/// the line, carried as raw text. No numeric conversion is done, so no
/// leading characters are lost.
#[derive(Debug, PartialEq, Eq)]
pub struct ScoreboardUpdate {
    pub game_clock: String,
    pub shot_clock: String,
    pub home_score: String,
    pub away_score: String,
    pub home_fouls: String,
    pub away_fouls: String,
}

/// The mathematical counterpart of `ScoreboardUpdate`: each field as a
/// sequence of characters.
pub ghost struct SpecUpdate {
    pub game_clock: Seq<char>,
    pub shot_clock: Seq<char>,
    pub home_score: Seq<char>,
    pub away_score: Seq<char>,
    pub home_fouls: Seq<char>,
    pub away_fouls: Seq<char>,
}

impl View for ScoreboardUpdate {
    type V = SpecUpdate;

    open spec fn view(&self) -> SpecUpdate {
        SpecUpdate {
            game_clock: self.game_clock@,
            shot_clock: self.shot_clock@,
            home_score: self.home_score@,
            away_score: self.away_score@,
            home_fouls: self.home_fouls@,
            away_fouls: self.away_fouls@,
        }
    }
}

/// The line did not match the scoreboard grammar.
#[derive(Debug, Clone, Copy, PartialEq, Eq)]
pub struct ParseError;

/// Position just past the game-clock token, if the line starts with one:
/// one or two digits, a colon, exactly two digits, and an optional `.`
/// plus one digit. The leading digit run is maximal, so a run of three
/// or more digits before the colon never matches.
pub open spec fn spec_clock_end(s: Seq<char>) -> Option<int> {
    let k = digit_run_len(s, 0) as int;
    if 1 <= k <= 2 && k + 2 < s.len() && s[k] == ':' && is_digit_char(s[k + 1]) && is_digit_char(
        s[k + 2],
    ) {
        if k + 4 < s.len() && s[k + 3] == '.' && is_digit_char(s[k + 4]) {
            Some(k + 5)
        } else {
            Some(k + 3)
        }
    } else {
        None
    }
}

/// One mandatory numeric token: at least one whitespace character at `i`,
/// then a nonempty digit run; gives the token's start and end positions.
pub open spec fn spec_ws_token(s: Seq<char>, i: int) -> Option<(int, int)> {
    let w = ws_run_len(s, i) as int;
    let r = digit_run_len(s, i + w) as int;
    if w >= 1 && r >= 1 {
        Some((i + w, i + w + r))
    } else {
        None
    }
}

/// The last three mandatory tokens starting at `i` (away score, home
/// fouls, away fouls): away fouls is a single digit and ends the line.
pub open spec fn spec_tail3(s: Seq<char>, i: int) -> Option<((int, int), (int, int), (int, int))> {
    match spec_ws_token(s, i) {
        Some(t2) => match spec_ws_token(s, t2.1) {
            Some(t3) => match spec_ws_token(s, t3.1) {
                Some(t4) => if t4.1 - t4.0 == 1 && t4.1 == s.len() {
                    Some((t2, t3, t4))
                } else {
                    None
                },
                None => None,
            },
            None => None,
        },
        None => None,
    }
}

/// All four mandatory tokens starting at `i`: home score, then the
/// remaining three.
pub open spec fn spec_tail4(s: Seq<char>, i: int) -> Option<
    ((int, int), ((int, int), (int, int), (int, int))),
> {
    match spec_ws_token(s, i) {
        Some(t1) => match spec_tail3(s, t1.1) {
            Some(rest) => Some((t1, rest)),
            None => None,
        },
        None => None,
    }
}

/// The grammar's verdict on a full line: `Some` with the six captured
/// fields when the whole line matches, `None` otherwise.
///
/// After the game clock come optional whitespace, an optional literal
/// `s` unit marker, and optional whitespace; then a digit run of one or
/// two digits is first read as the shot clock, provided the four
/// mandatory tokens complete the line after it. When that reading
/// cannot complete the line — in particular when only four numeric
/// tokens follow the clock — the shot clock is absent (the empty
/// string), the digit run is the home score, and at least one
/// whitespace character must stand before it.
pub open spec fn spec_parse(s: Seq<char>) -> Option<SpecUpdate> {
    match spec_clock_end(s) {
        None => None,
        Some(p) => {
            let a = p + ws_run_len(s, p);
            let has_unit = a < s.len() && s[a] == 's';
            let b = if has_unit {
                a + 1 + ws_run_len(s, a + 1)
            } else {
                a
            };
            let ws_before = if has_unit {
                ws_run_len(s, a + 1) as int
            } else {
                a - p
            };
            let r = digit_run_len(s, b) as int;
            let with_shot = if 1 <= r <= 2 {
                spec_tail4(s, b + r)
            } else {
                None
            };
            match with_shot {
                Some((t1, (t2, t3, t4))) => Some(
                    SpecUpdate {
                        game_clock: s.subrange(0, p),
                        shot_clock: s.subrange(b, b + r),
                        home_score: s.subrange(t1.0, t1.1),
                        away_score: s.subrange(t2.0, t2.1),
                        home_fouls: s.subrange(t3.0, t3.1),
                        away_fouls: s.subrange(t4.0, t4.1),
                    },
                ),
                None => {
                    if ws_before >= 1 && r >= 1 {
                        match spec_tail3(s, b + r) {
                            Some((t2, t3, t4)) => Some(
                                SpecUpdate {
                                    game_clock: s.subrange(0, p),
                                    shot_clock: Seq::<char>::empty(),
                                    home_score: s.subrange(b, b + r),
                                    away_score: s.subrange(t2.0, t2.1),
                                    home_fouls: s.subrange(t3.0, t3.1),
                                    away_fouls: s.subrange(t4.0, t4.1),
                                },
                            ),
                            None => None,
                        }
                    } else {
                        None
                    }
                },
            }
        },
    }
}

/// Counts the digits at position `i`, the executable side of
/// `digit_run_len`.
fn digit_run(s: &str, i: usize) -> (r: usize)
    requires
        i <= s@.len(),
    ensures
        r == digit_run_len(s@, i as int),
        i + r <= s@.len(),
{
    let n = s.unicode_len();
    let mut j = i;
    loop
        invariant
            n == s@.len(),
            i <= j <= n,
            digit_run_len(s@, i as int) == j - i + digit_run_len(s@, j as int),
        ensures
            i <= j <= n,
            digit_run_len(s@, i as int) == j - i,
        decreases n - j,
    {
        if j == n {
            break;
        }
        let c = s.get_char(j);
        if !('0' <= c && c <= '9') {
            break;
        }
        j = j + 1;
    }
    j - i
}

/// Counts the whitespace at position `i`, the executable side of
/// `ws_run_len`.
fn ws_run(s: &str, i: usize) -> (r: usize)
    requires
        i <= s@.len(),
    ensures
        r == ws_run_len(s@, i as int),
        i + r <= s@.len(),
{
    let n = s.unicode_len();
    let mut j = i;
    loop
        invariant
            n == s@.len(),
            i <= j <= n,
            ws_run_len(s@, i as int) == j - i + ws_run_len(s@, j as int),
        ensures
            i <= j <= n,
            ws_run_len(s@, i as int) == j - i,
        decreases n - j,
    {
        if j == n {
            break;
        }
        let c = s.get_char(j);
        if !(c == ' ' || c == '\t' || c == '\n' || c == '\r' || c == '\u{b}' || c == '\u{c}') {
            break;
        }
        j = j + 1;
    }
    j - i
}

/// Scans one mandatory numeric token, the executable side of
/// `spec_ws_token`.
fn ws_token(s: &str, i: usize) -> (r: Option<(usize, usize)>)
    requires
        i <= s@.len() <= usize::MAX,
    ensures
        (match r {
            Some(t) => {
                &&& spec_ws_token(s@, i as int) == Some((t.0 as int, t.1 as int))
                &&& i <= t.0 <= t.1 <= s@.len()
            },
            None => spec_ws_token(s@, i as int) is None,
        }),
{
    let w = ws_run(s, i);
    let start = i + w;
    let len = digit_run(s, start);
    if w >= 1 && len >= 1 {
        Some((start, start + len))
    } else {
        None
    }
}

/// Scans the last three mandatory tokens, the executable side of
/// `spec_tail3`.
fn tail3(s: &str, i: usize) -> (r: Option<((usize, usize), (usize, usize), (usize, usize))>)
    requires
        i <= s@.len() <= usize::MAX,
    ensures
        (match r {
            Some(t) => {
                &&& spec_tail3(s@, i as int) == Some(
                    (
                        ((t.0).0 as int, (t.0).1 as int),
                        ((t.1).0 as int, (t.1).1 as int),
                        ((t.2).0 as int, (t.2).1 as int),
                    ),
                )
                &&& i <= (t.0).0 <= (t.0).1 <= (t.1).0 <= (t.1).1 <= (t.2).0 <= (t.2).1 <= s@.len()
            },
            None => spec_tail3(s@, i as int) is None,
        }),
{
    match ws_token(s, i) {
        Some(t2) => match ws_token(s, t2.1) {
            Some(t3) => match ws_token(s, t3.1) {
                Some(t4) => {
                    let n = s.unicode_len();
                    if t4.1 - t4.0 == 1 && t4.1 == n {
                        Some((t2, t3, t4))
                    } else {
                        None
                    }
                },
                None => None,
            },
            None => None,
        },
        None => None,
    }
}

/// Copies the characters `from..to` of the line into a fresh `String`.
fn field(s: &str, from: usize, to: usize) -> (r: String)
    requires
        from <= to <= s@.len(),
    ensures
        r@ == s@.subrange(from as int, to as int),
{
    s.substring_char(from, to).to_owned()
}

/// Validates `line` against the scoreboard grammar and extracts the six
/// fields verbatim: every field of a returned record is the exact
/// substring the grammar captures, untrimmed and untransformed, and a
/// `ParseError` comes exactly on the lines the grammar rejects.
pub fn parse(line: &str) -> (r: Result<ScoreboardUpdate, ParseError>)
    ensures
        (match r {
            Ok(u) => spec_parse(line@) == Some(u@),
            Err(_) => spec_parse(line@) is None,
        }),
{
    let n = line.unicode_len();
    // The game-clock token.
    let k = digit_run(line, 0);
    if !(1 <= k && k <= 2 && k + 2 < n && line.get_char(k) == ':' && is_digit(line.get_char(k + 1))
        && is_digit(line.get_char(k + 2))) {
        assert(spec_clock_end(line@) is None);
        return Err(ParseError);
    }
    let p = if k + 4 < n && line.get_char(k + 3) == '.' && is_digit(line.get_char(k + 4)) {
        k + 5
    } else {
        k + 3
    };
    assert(spec_clock_end(line@) == Some(p as int));
    // The optional unit marker and the digit run after it.
    let a = p + ws_run(line, p);
    let has_unit = a < n && line.get_char(a) == 's';
    let (b, ws_before) = if has_unit {
        let w = ws_run(line, a + 1);
        (a + 1 + w, w)
    } else {
        (a, a - p)
    };
    let r = digit_run(line, b);
    // First reading: the run is the shot clock.
    if 1 <= r && r <= 2 {
        match ws_token(line, b + r) {
            Some(t1) => match tail3(line, t1.1) {
                Some((t2, t3, t4)) => {
                    return Ok(
                        ScoreboardUpdate {
                            game_clock: field(line, 0, p),
                            shot_clock: field(line, b, b + r),
                            home_score: field(line, t1.0, t1.1),
                            away_score: field(line, t2.0, t2.1),
                            home_fouls: field(line, t3.0, t3.1),
                            away_fouls: field(line, t4.0, t4.1),
                        },
                    );
                },
                None => {},
            },
            None => {},
        }
    }
    assert(({
        let bi = b as int;
        let ri = digit_run_len(line@, bi) as int;
        (if 1 <= ri <= 2 {
            spec_tail4(line@, bi + ri)
        } else {
            None
        }) is None
    }));
    // Second reading: the shot clock is absent and the run is the home
    // score, which must have whitespace before it.
    if ws_before >= 1 && r >= 1 {
        match tail3(line, b + r) {
            Some((t2, t3, t4)) => {
                let u = ScoreboardUpdate {
                    game_clock: field(line, 0, p),
                    shot_clock: String::new(),
                    home_score: field(line, b, b + r),
                    away_score: field(line, t2.0, t2.1),
                    home_fouls: field(line, t3.0, t3.1),
                    away_fouls: field(line, t4.0, t4.1),
                };
                return Ok(u);
            },
            None => {},
        }
        return Err(ParseError);
    }
    Err(ParseError)
}

/// The executable digit test.
fn is_digit(c: char) -> (r: bool)
    ensures
        r == is_digit_char(c),
{
    '0' <= c && c <= '9'
}

/// The line is exactly the record's six fields in order with the given
/// gaps between them: after the game clock only whitespace and the unit
/// marker, elsewhere whitespace, and a nonempty separator before each of
/// the last three mandatory fields.
pub open spec fn fields_in_order(
    s: Seq<char>,
    u: SpecUpdate,
    gaps: (Seq<char>, Seq<char>, Seq<char>, Seq<char>, Seq<char>),
) -> bool {
    &&& s == u.game_clock + gaps.0 + u.shot_clock + gaps.1 + u.home_score + gaps.2 + u.away_score
        + gaps.3 + u.home_fouls + gaps.4 + u.away_fouls
    &&& unit_or_ws(gaps.0)
    &&& all_ws(gaps.1)
    &&& all_ws(gaps.2) && gaps.2.len() >= 1
    &&& all_ws(gaps.3) && gaps.3.len() >= 1
    &&& all_ws(gaps.4) && gaps.4.len() >= 1
}

/// What one mandatory token gives: nonempty whitespace, then a nonempty
/// maximal digit run.
proof fn lemma_ws_token_shape(s: Seq<char>, i: int)
    requires
        0 <= i <= s.len(),
        spec_ws_token(s, i) is Some,
    ensures
        ({
            let t = spec_ws_token(s, i)->Some_0;
            &&& i < t.0 && t.0 < t.1 <= s.len()
            &&& t.0 == i + ws_run_len(s, i)
            &&& t.1 == t.0 + digit_run_len(s, t.0)
            &&& all_ws(s.subrange(i, t.0))
            &&& all_digits(s.subrange(t.0, t.1))
            &&& (t.1 == s.len() || !is_digit_char(s[t.1]))
        }),
{
    lemma_ws_run_ws(s, i);
    let t0 = i + ws_run_len(s, i);
    lemma_digit_run_digits(s, t0);
    assert(all_ws(s.subrange(i, t0)));
    assert(all_digits(s.subrange(t0, t0 + digit_run_len(s, t0) as int)));
}

/// Law: every successfully parsed line is its captured fields, verbatim
/// and in order — nothing is trimmed or transformed — with the four
/// mandatory numeric fields all present and nonempty, the shot clock at
/// most two digits (possibly none), and away fouls exactly one digit.
/// A line from which one of the four mandatory tokens is missing
/// therefore never parses.
#[verifier::rlimit(100)]
pub proof fn lemma_parse_decomposition(s: Seq<char>)
    requires
        spec_parse(s) is Some,
    ensures
        ({
            let u = spec_parse(s)->Some_0;
            &&& is_clock_token(u.game_clock)
            &&& all_digits(u.shot_clock) && u.shot_clock.len() <= 2
            &&& all_digits(u.home_score) && u.home_score.len() >= 1
            &&& all_digits(u.away_score) && u.away_score.len() >= 1
            &&& all_digits(u.home_fouls) && u.home_fouls.len() >= 1
            &&& all_digits(u.away_fouls) && u.away_fouls.len() == 1
            &&& exists|gaps: (Seq<char>, Seq<char>, Seq<char>, Seq<char>, Seq<char>)|
                fields_in_order(s, u, gaps)
        }),
{
    let u = spec_parse(s)->Some_0;
    let k = digit_run_len(s, 0) as int;
    let p = spec_clock_end(s)->Some_0;
    lemma_digit_run_digits(s, 0);
    // The game-clock token.
    let gc = s.subrange(0, p);
    assert(forall|j: int| 0 <= j < k ==> is_digit_char(gc[j]));
    lemma_digit_run_exact(gc, 0, k);
    assert(is_clock_token(gc));
    // The region after the clock: whitespace, the optional unit marker,
    // whitespace, then the first digit run.
    let a = p + ws_run_len(s, p);
    lemma_ws_run_ws(s, p);
    let has_unit = a < s.len() && s[a] == 's';
    let b: int = if has_unit {
        a + 1 + ws_run_len(s, a + 1)
    } else {
        a
    };
    if has_unit {
        lemma_ws_run_ws(s, a + 1);
    }
    assert(unit_or_ws(s.subrange(p, b)));
    let r = digit_run_len(s, b) as int;
    lemma_digit_run_digits(s, b);
    let with_shot = if 1 <= r <= 2 {
        spec_tail4(s, b + r)
    } else {
        Option::<((int, int), ((int, int), (int, int), (int, int)))>::None
    };
    if with_shot is Some {
        let (t1, (t2, t3, t4)) = with_shot->Some_0;
        lemma_ws_token_shape(s, b + r);
        lemma_ws_token_shape(s, t1.1);
        lemma_ws_token_shape(s, t2.1);
        lemma_ws_token_shape(s, t3.1);
        let gaps = (
            s.subrange(p, b),
            s.subrange(b + r, t1.0),
            s.subrange(t1.1, t2.0),
            s.subrange(t2.1, t3.0),
            s.subrange(t3.1, t4.0),
        );
        assert(s =~= u.game_clock + gaps.0 + u.shot_clock + gaps.1 + u.home_score + gaps.2
            + u.away_score + gaps.3 + u.home_fouls + gaps.4 + u.away_fouls);
        assert(fields_in_order(s, u, gaps));
    } else {
        let (t2, t3, t4) = spec_tail3(s, b + r)->Some_0;
        lemma_ws_token_shape(s, b + r);
        lemma_ws_token_shape(s, t2.1);
        lemma_ws_token_shape(s, t3.1);
        let gaps = (
            s.subrange(p, b),
            Seq::<char>::empty(),
            s.subrange(b + r, t2.0),
            s.subrange(t2.1, t3.0),
            s.subrange(t3.1, t4.0),
        );
        assert(s =~= u.game_clock + gaps.0 + u.shot_clock + gaps.1 + u.home_score + gaps.2
            + u.away_score + gaps.3 + u.home_fouls + gaps.4 + u.away_fouls);
        assert(fields_in_order(s, u, gaps));
    }
}

/// Law: shot-clock absence is legal and never causes failure. A line
/// made of a game-clock token, then whitespace, then exactly four
/// whitespace-separated numeric tokens — the last a single digit ending
/// the line — parses, the shot clock is the empty string, and the four
/// tokens are the four mandatory fields.
#[verifier::rlimit(100)]
pub proof fn lemma_shot_clock_absent(
    c: Seq<char>,
    w1: Seq<char>,
    t1: Seq<char>,
    w2: Seq<char>,
    t2: Seq<char>,
    w3: Seq<char>,
    t3: Seq<char>,
    w4: Seq<char>,
    t4: Seq<char>,
)
    requires
        is_clock_token(c),
        all_ws(w1) && w1.len() >= 1,
        all_digits(t1) && t1.len() >= 1,
        all_ws(w2) && w2.len() >= 1,
        all_digits(t2) && t2.len() >= 1,
        all_ws(w3) && w3.len() >= 1,
        all_digits(t3) && t3.len() >= 1,
        all_ws(w4) && w4.len() >= 1,
        all_digits(t4) && t4.len() == 1,
    ensures
        ({
            let s = c + w1 + t1 + w2 + t2 + w3 + t3 + w4 + t4;
            spec_parse(s) == Some(
                SpecUpdate {
                    game_clock: c,
                    shot_clock: Seq::<char>::empty(),
                    home_score: t1,
                    away_score: t2,
                    home_fouls: t3,
                    away_fouls: t4,
                },
            )
        }),
{
    let s = c + w1 + t1 + w2 + t2 + w3 + t3 + w4 + t4;
    let p1 = c.len() as int;
    let p2 = p1 + w1.len();
    let p3 = p2 + t1.len();
    let p4 = p3 + w2.len();
    let p5 = p4 + t2.len();
    let p6 = p5 + w3.len();
    let p7 = p6 + t3.len();
    let p8 = p7 + w4.len();
    let p9 = p8 + t4.len();
    assert(s.len() == p9);
    assert(forall|j: int| 0 <= j < p1 ==> s[j] == c[j]);
    assert(forall|j: int| p1 <= j < p2 ==> s[j] == w1[j - p1]);
    assert(forall|j: int| p2 <= j < p3 ==> s[j] == t1[j - p2]);
    assert(forall|j: int| p3 <= j < p4 ==> s[j] == w2[j - p3]);
    assert(forall|j: int| p4 <= j < p5 ==> s[j] == t2[j - p4]);
    assert(forall|j: int| p5 <= j < p6 ==> s[j] == w3[j - p5]);
    assert(forall|j: int| p6 <= j < p7 ==> s[j] == t3[j - p6]);
    assert(forall|j: int| p7 <= j < p8 ==> s[j] == w4[j - p7]);
    assert(forall|j: int| p8 <= j < p9 ==> s[j] == t4[j - p8]);
    // The game clock.
    let k = digit_run_len(c, 0) as int;
    lemma_digit_run_digits(c, 0);
    lemma_digit_run_exact(s, 0, k);
    assert(spec_clock_end(s) == Some(p1));
    // Whitespace, then the home-score run: no unit marker stands here.
    lemma_ws_run_exact(s, p1, w1.len() as int);
    assert(!(s[p2] == 's'));
    lemma_digit_run_exact(s, p2, t1.len() as int);
    // The three tokens after the run.
    lemma_ws_run_exact(s, p3, w2.len() as int);
    lemma_digit_run_exact(s, p4, t2.len() as int);
    lemma_ws_run_exact(s, p5, w3.len() as int);
    lemma_digit_run_exact(s, p6, t3.len() as int);
    lemma_ws_run_exact(s, p7, w4.len() as int);
    lemma_digit_run_exact(s, p8, t4.len() as int);
    assert(spec_ws_token(s, p3) == Some((p4, p5)));
    assert(spec_ws_token(s, p5) == Some((p6, p7)));
    assert(spec_ws_token(s, p7) == Some((p8, p9)));
    // Reading the run as the shot clock leaves only three tokens, so
    // that reading cannot complete the line.
    if t1.len() <= 2 {
        lemma_ws_run_exact(s, p9, 0);
        assert(spec_ws_token(s, p9) is None);
        assert(spec_tail3(s, p5) is None);
        assert(spec_tail4(s, p3) is None);
    }
    // The shot-clock-absent reading completes it.
    assert(spec_tail3(s, p3) == Some(((p4, p5), (p6, p7), (p8, p9))));
    let u = spec_parse(s)->Some_0;
    assert(u.game_clock =~= c);
    assert(u.home_score =~= t1);
    assert(u.away_score =~= t2);
    assert(u.home_fouls =~= t3);
    assert(u.away_fouls =~= t4);
}

/// Law: a fifth numeric token is read as the shot clock. A line made of
/// a game-clock token, optional whitespace, a token of one or two
/// digits, and four more whitespace-separated numeric tokens — the last
/// a single digit ending the line — parses with the first token as the
/// shot clock and the rest as the four mandatory fields.
#[verifier::rlimit(100)]
pub proof fn lemma_shot_clock_present(
    c: Seq<char>,
    w1: Seq<char>,
    t0: Seq<char>,
    w2: Seq<char>,
    t1: Seq<char>,
    w3: Seq<char>,
    t2: Seq<char>,
    w4: Seq<char>,
    t3: Seq<char>,
    w5: Seq<char>,
    t4: Seq<char>,
)
    requires
        is_clock_token(c),
        all_ws(w1),
        all_digits(t0) && 1 <= t0.len() <= 2,
        all_ws(w2) && w2.len() >= 1,
        all_digits(t1) && t1.len() >= 1,
        all_ws(w3) && w3.len() >= 1,
        all_digits(t2) && t2.len() >= 1,
        all_ws(w4) && w4.len() >= 1,
        all_digits(t3) && t3.len() >= 1,
        all_ws(w5) && w5.len() >= 1,
        all_digits(t4) && t4.len() == 1,
    ensures
        ({
            let s = c + w1 + t0 + w2 + t1 + w3 + t2 + w4 + t3 + w5 + t4;
            spec_parse(s) == Some(
                SpecUpdate {
                    game_clock: c,
                    shot_clock: t0,
                    home_score: t1,
                    away_score: t2,
                    home_fouls: t3,
                    away_fouls: t4,
                },
            )
        }),
{
    let s = c + w1 + t0 + w2 + t1 + w3 + t2 + w4 + t3 + w5 + t4;
    let p1 = c.len() as int;
    let p2 = p1 + w1.len();
    let p3 = p2 + t0.len();
    let p4 = p3 + w2.len();
    let p5 = p4 + t1.len();
    let p6 = p5 + w3.len();
    let p7 = p6 + t2.len();
    let p8 = p7 + w4.len();
    let p9 = p8 + t3.len();
    let p10 = p9 + w5.len();
    let p11 = p10 + t4.len();
    assert(s.len() == p11);
    assert(forall|j: int| 0 <= j < p1 ==> s[j] == c[j]);
    assert(forall|j: int| p1 <= j < p2 ==> s[j] == w1[j - p1]);
    assert(forall|j: int| p2 <= j < p3 ==> s[j] == t0[j - p2]);
    assert(forall|j: int| p3 <= j < p4 ==> s[j] == w2[j - p3]);
    assert(forall|j: int| p4 <= j < p5 ==> s[j] == t1[j - p4]);
    assert(forall|j: int| p5 <= j < p6 ==> s[j] == w3[j - p5]);
    assert(forall|j: int| p6 <= j < p7 ==> s[j] == t2[j - p6]);
    assert(forall|j: int| p7 <= j < p8 ==> s[j] == w4[j - p7]);
    assert(forall|j: int| p8 <= j < p9 ==> s[j] == t3[j - p8]);
    assert(forall|j: int| p9 <= j < p10 ==> s[j] == w5[j - p9]);
    assert(forall|j: int| p10 <= j < p11 ==> s[j] == t4[j - p10]);
    // The game clock.
    let k = digit_run_len(c, 0) as int;
    lemma_digit_run_digits(c, 0);
    lemma_digit_run_exact(s, 0, k);
    assert(spec_clock_end(s) == Some(p1));
    // Whitespace, then the shot-clock run: no unit marker stands here.
    lemma_ws_run_exact(s, p1, w1.len() as int);
    assert(!(s[p2] == 's'));
    lemma_digit_run_exact(s, p2, t0.len() as int);
    // The four mandatory tokens after the run.
    lemma_ws_run_exact(s, p3, w2.len() as int);
    lemma_digit_run_exact(s, p4, t1.len() as int);
    lemma_ws_run_exact(s, p5, w3.len() as int);
    lemma_digit_run_exact(s, p6, t2.len() as int);
    lemma_ws_run_exact(s, p7, w4.len() as int);
    lemma_digit_run_exact(s, p8, t3.len() as int);
    lemma_ws_run_exact(s, p9, w5.len() as int);
    lemma_digit_run_exact(s, p10, t4.len() as int);
    assert(spec_ws_token(s, p3) == Some((p4, p5)));
    assert(spec_ws_token(s, p5) == Some((p6, p7)));
    assert(spec_ws_token(s, p7) == Some((p8, p9)));
    assert(spec_ws_token(s, p9) == Some((p10, p11)));
    assert(spec_tail3(s, p5) == Some(((p6, p7), (p8, p9), (p10, p11))));
    assert(spec_tail4(s, p3) == Some(((p4, p5), ((p6, p7), (p8, p9), (p10, p11)))));
    let u = spec_parse(s)->Some_0;
    assert(u.game_clock =~= c);
    assert(u.shot_clock =~= t0);
    assert(u.home_score =~= t1);
    assert(u.away_score =~= t2);
    assert(u.home_fouls =~= t3);
    assert(u.away_fouls =~= t4);
}

} // verus!
