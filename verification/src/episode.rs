//! One locally discovered media file mapped to a remote identity, and the
//! filename parser that extracts its season, episode and extension.
//!
//! The parser tries three patterns in a fixed order, each increasingly
//! permissive, and within one pattern prefers the rightmost occurrence:
//! 1. an explicit marker: `S` or `s` + two digits, optional separators,
//!    `E` or `e` + two digits;
//! 2. a numeric pair: one or two digits, `x` or `.`, one or two digits,
//!    preceded by a non-digit;
//! 3. a compact triple: a separator, a digit 1-9 (season), two digits
//!    (episode).
//! Every pattern also demands a final `.extension` of lower-case letters
//! and digits after the last dot of the name, and the season/episode part
//! must end at or before that last dot.

use vstd::prelude::*;

use crate::certainty::Certainty;

verus! {

/// Why a filename could not be turned into an [`Episode`].
#[derive(Clone, Copy, Debug, PartialEq, Eq, Structural)]
pub enum ParseError {
    /// The resolver found no show for the folder name.
    BadShow,
    /// No filename pattern matched.
    BadFilename,
    /// The path could not be read as text.
    BadPath,
    /// A pattern matched but the extension is not allowed.
    BadExtension,
}

impl ParseError {
    /// A short description of the failure, for diagnostics.
    pub fn describe(&self) -> &'static str {
        match self {
            ParseError::BadShow => "could not match TV show to existing entry",
            ParseError::BadFilename => "could not calculate season / episode number from filename",
            ParseError::BadPath => "could not find TV show name",
            ParseError::BadExtension => "file extension is not permitted",
        }
    }
}

pub open spec fn is_digit(c: char) -> bool {
    '0' as int <= c as int && c as int <= '9' as int
}

pub open spec fn digit_val(c: char) -> int {
    c as int - '0' as int
}

pub open spec fn is_lower_alnum(c: char) -> bool {
    ('a' as int <= c as int && c as int <= 'z' as int) || is_digit(c)
}

/// A whitespace character, over the Unicode white-space set.
pub open spec fn is_space(c: char) -> bool {
    let u = c as int;
    ||| 9 <= u <= 13
    ||| u == 32
    ||| u == 0x85
    ||| u == 0xA0
    ||| u == 0x1680
    ||| 0x2000 <= u <= 0x200A
    ||| u == 0x2028
    ||| u == 0x2029
    ||| u == 0x202F
    ||| u == 0x205F
    ||| u == 0x3000
}

/// Separator characters permitted between the season and episode markers:
/// whitespace, dash and dot.
pub open spec fn is_sep(c: char) -> bool {
    is_space(c) || c == '-' || c == '.'
}

pub open spec fn is_s_mark(c: char) -> bool {
    c == 'S' || c == 's'
}

pub open spec fn is_e_mark(c: char) -> bool {
    c == 'E' || c == 'e'
}

/// The last index at which `t` occurs in `s`, or -1 if it does not occur.
pub open spec fn last_index_of(s: Seq<char>, t: char) -> int
    decreases s.len(),
{
    if s.len() == 0 {
        -1
    } else if s[s.len() - 1] == t {
        s.len() - 1
    } else {
        last_index_of(s.drop_last(), t)
    }
}

pub proof fn lemma_last_index_of(s: Seq<char>, t: char)
    ensures
        last_index_of(s, t) >= -1,
        last_index_of(s, t) >= 0 <==> s.contains(t),
        last_index_of(s, t) >= 0 ==> last_index_of(s, t) < s.len() && s[last_index_of(s, t)] == t,
        forall|j: int| last_index_of(s, t) < j < s.len() ==> s[j] != t,
    decreases s.len(),
{
    if s.len() > 0 && s[s.len() - 1] != t {
        lemma_last_index_of(s.drop_last(), t);
        assert(forall|j: int| 0 <= j < s.len() - 1 ==> s.drop_last()[j] == s[j]);
        if s.contains(t) {
            let w = choose|w: int| 0 <= w < s.len() && s[w] == t;
            assert(w < s.len() - 1);
            assert(s.drop_last()[w] == t);
            assert(s.drop_last().contains(t));
        }
        if s.drop_last().contains(t) {
            assert(s.contains(t)) by {
                let w = choose|w: int| 0 <= w < s.len() - 1 && s.drop_last()[w] == t;
                assert(s[w] == t);
            }
        }
        assert forall|j: int| last_index_of(s, t) < j < s.len() implies s[j] != t by {
            if j < s.len() - 1 {
                assert(s.drop_last()[j] == s[j]);
            }
        }
    }
}

/// Whether the name ends in `.extension` with a non-empty extension of
/// lower-case letters and digits after its last dot.
pub open spec fn has_valid_ext(s: Seq<char>) -> bool {
    let d = last_index_of(s, '.');
    &&& d >= 0
    &&& d + 1 < s.len()
    &&& forall|j: int| d < j < s.len() ==> is_lower_alnum(#[trigger] s[j])
}

/// Whether some string in the list has exactly the given characters.
pub open spec fn contains_string(v: Seq<String>, x: Seq<char>) -> bool {
    exists|j: int| 0 <= j < v.len() && (#[trigger] v[j])@ == x
}

/// The extension of the name: what follows the last dot.
pub open spec fn ext_of(s: Seq<char>) -> Seq<char> {
    s.skip(last_index_of(s, '.') + 1)
}

/// The first index at or after `k` that does not hold a separator.
pub open spec fn sep_run_end(s: Seq<char>, k: int) -> int
    decreases s.len() - k,
{
    if k < 0 || k >= s.len() || !is_sep(s[k]) {
        k
    } else {
        sep_run_end(s, k + 1)
    }
}

/// The exclusive end of a pattern-1 match starting at `i`, or -1.
/// The match is `S`/`s`, two digits, a run of separators, `E`/`e`, two
/// digits.
pub open spec fn pat1_end(s: Seq<char>, i: int) -> int {
    if 0 <= i && i + 3 <= s.len() && is_s_mark(s[i]) && is_digit(s[i + 1]) && is_digit(s[i + 2]) {
        let j = sep_run_end(s, i + 3);
        if j + 3 <= s.len() && is_e_mark(s[j]) && is_digit(s[j + 1]) && is_digit(s[j + 2]) {
            j + 3
        } else {
            -1
        }
    } else {
        -1
    }
}

/// A pattern-1 match at `i` whose season/episode part ends at or before
/// the last dot `d`.
pub open spec fn pat1_ok(s: Seq<char>, i: int, d: int) -> bool {
    pat1_end(s, i) >= 0 && pat1_end(s, i) <= d
}

/// The largest start index at most `i` with a valid pattern-1 match, or -1.
pub open spec fn pat1_find(s: Seq<char>, i: int, d: int) -> int
    decreases i + 1,
{
    if i < 0 {
        -1
    } else if pat1_ok(s, i, d) {
        i
    } else {
        pat1_find(s, i - 1, d)
    }
}

pub open spec fn pat1_season(s: Seq<char>, i: int) -> int {
    digit_val(s[i + 1]) * 10 + digit_val(s[i + 2])
}

pub open spec fn pat1_episode(s: Seq<char>, i: int) -> int {
    let j = sep_run_end(s, i + 3);
    digit_val(s[j + 1]) * 10 + digit_val(s[j + 2])
}

/// A pattern-2 match at `p` with season digit count `sl` and episode digit
/// count `el`: a non-digit at `p`, `sl` digits, `x` or `.`, `el` digits,
/// ending at or before the last dot `d`.
pub open spec fn pat2_combo(s: Seq<char>, p: int, sl: int, el: int, d: int) -> bool {
    &&& 0 <= p
    &&& p + 2 + sl + el <= s.len()
    &&& !is_digit(s[p])
    &&& forall|k: int| p + 1 <= k < p + 1 + sl ==> is_digit(#[trigger] s[k])
    &&& (s[p + 1 + sl] == 'x' || s[p + 1 + sl] == '.')
    &&& forall|k: int| p + 2 + sl <= k < p + 2 + sl + el ==> is_digit(#[trigger] s[k])
    &&& p + 2 + sl + el <= d
}

/// The digit counts chosen by a pattern-2 match at `p`: longer counts are
/// preferred, season first, mirroring greedy matching.
pub open spec fn pat2_at(s: Seq<char>, p: int, d: int) -> Option<(int, int)> {
    if pat2_combo(s, p, 2, 2, d) {
        Some((2int, 2int))
    } else if pat2_combo(s, p, 2, 1, d) {
        Some((2int, 1int))
    } else if pat2_combo(s, p, 1, 2, d) {
        Some((1int, 2int))
    } else if pat2_combo(s, p, 1, 1, d) {
        Some((1int, 1int))
    } else {
        None
    }
}

/// The largest position at most `p` with a pattern-2 match, or -1.
pub open spec fn pat2_find(s: Seq<char>, p: int, d: int) -> int
    decreases p + 1,
{
    if p < 0 {
        -1
    } else if pat2_at(s, p, d) is Some {
        p
    } else {
        pat2_find(s, p - 1, d)
    }
}

/// The value of the `n` digits starting at `k`.
pub open spec fn digits_val(s: Seq<char>, k: int, n: int) -> int {
    if n == 1 {
        digit_val(s[k])
    } else {
        digit_val(s[k]) * 10 + digit_val(s[k + 1])
    }
}

pub open spec fn pat2_season(s: Seq<char>, p: int, d: int) -> int {
    let (sl, el) = pat2_at(s, p, d)->Some_0;
    digits_val(s, p + 1, sl)
}

pub open spec fn pat2_episode(s: Seq<char>, p: int, d: int) -> int {
    let (sl, el) = pat2_at(s, p, d)->Some_0;
    digits_val(s, p + 2 + sl, el)
}

/// A pattern-3 match at `q`: a separator, a season digit 1-9, two episode
/// digits, ending at or before the last dot `d`.
pub open spec fn pat3_ok(s: Seq<char>, q: int, d: int) -> bool {
    &&& 0 <= q
    &&& q + 4 <= s.len()
    &&& is_sep(s[q])
    &&& is_digit(s[q + 1])
    &&& digit_val(s[q + 1]) >= 1
    &&& is_digit(s[q + 2])
    &&& is_digit(s[q + 3])
    &&& q + 4 <= d
}

/// The largest position at most `q` with a pattern-3 match, or -1.
pub open spec fn pat3_find(s: Seq<char>, q: int, d: int) -> int
    decreases q + 1,
{
    if q < 0 {
        -1
    } else if pat3_ok(s, q, d) {
        q
    } else {
        pat3_find(s, q - 1, d)
    }
}

/// What parsing a filename yields: season, episode and extension, or
/// nothing if no pattern matches.
pub open spec fn parse_spec(s: Seq<char>) -> Option<(int, int, Seq<char>)> {
    if !has_valid_ext(s) {
        None
    } else {
        let d = last_index_of(s, '.');
        let i1 = pat1_find(s, s.len() - 1, d);
        let p2 = pat2_find(s, s.len() - 1, d);
        let q3 = pat3_find(s, s.len() - 1, d);
        if i1 >= 0 {
            Some((pat1_season(s, i1), pat1_episode(s, i1), ext_of(s)))
        } else if p2 >= 0 {
            Some((pat2_season(s, p2, d), pat2_episode(s, p2, d), ext_of(s)))
        } else if q3 >= 0 {
            Some((digit_val(s[q3 + 1]), digits_val(s, q3 + 2, 2), ext_of(s)))
        } else {
            None
        }
    }
}

fn is_digit_c(c: char) -> (r: bool)
    ensures
        r == is_digit(c),
{
    let u = c as u32;
    48 <= u && u <= 57
}

fn is_lower_alnum_c(c: char) -> (r: bool)
    ensures
        r == is_lower_alnum(c),
{
    let u = c as u32;
    (97 <= u && u <= 122) || (48 <= u && u <= 57)
}

fn is_sep_c(c: char) -> (r: bool)
    ensures
        r == is_sep(c),
{
    let u = c as u32;
    (9 <= u && u <= 13) || u == 32 || u == 0x85 || u == 0xA0 || u == 0x1680 || (0x2000 <= u && u
        <= 0x200A) || u == 0x2028 || u == 0x2029 || u == 0x202F || u == 0x205F || u == 0x3000 || c
        == '-' || c == '.'
}

fn sep_run_end_x(s: &Vec<char>, k: usize) -> (r: usize)
    requires
        k <= s@.len(),
    ensures
        r == sep_run_end(s@, k as int),
        k <= r <= s@.len(),
{
    let mut cur = k;
    while cur < s.len() && is_sep_c(s[cur])
        invariant
            k <= cur <= s@.len(),
            sep_run_end(s@, k as int) == sep_run_end(s@, cur as int),
        decreases s@.len() - cur,
    {
        cur = cur + 1;
    }
    cur
}

fn pat1_end_x(s: &Vec<char>, i: usize) -> (r: Option<usize>)
    requires
        i < s@.len(),
    ensures
        r is Some <==> pat1_end(s@, i as int) >= 0,
        r matches Some(e) ==> e == pat1_end(s@, i as int) && e <= s@.len(),
{
    let n_vec = s.len();
    if n_vec - i < 3 {
        return None;
    }
    let c0 = s[i];
    if !(c0 == 'S' || c0 == 's') {
        return None;
    }
    if !is_digit_c(s[i + 1]) || !is_digit_c(s[i + 2]) {
        return None;
    }
    let j = sep_run_end_x(s, i + 3);
    if n_vec - j < 3 {
        return None;
    }
    let cj = s[j];
    if !(cj == 'E' || cj == 'e') {
        return None;
    }
    if !is_digit_c(s[j + 1]) || !is_digit_c(s[j + 2]) {
        return None;
    }
    Some(j + 3)
}

fn pat2_combo_x(s: &Vec<char>, p: usize, sl: usize, el: usize, d: usize) -> (r: bool)
    requires
        p < s@.len(),
        1 <= sl <= 2,
        1 <= el <= 2,
        d < s@.len(),
    ensures
        r == pat2_combo(s@, p as int, sl as int, el as int, d as int),
{
    let n_vec = s.len();
    if n_vec - p < 2 + sl + el {
        return false;
    }
    if is_digit_c(s[p]) {
        return false;
    }
    if !is_digit_c(s[p + 1]) || (sl == 2 && !is_digit_c(s[p + 2])) {
        return false;
    }
    let m = s[p + 1 + sl];
    if !(m == 'x' || m == '.') {
        return false;
    }
    if !is_digit_c(s[p + 2 + sl]) || (el == 2 && !is_digit_c(s[p + 2 + sl + 1])) {
        return false;
    }
    p + 2 + sl + el <= d
}

fn digits_val_x(s: &Vec<char>, k: usize, n: usize) -> (r: u32)
    requires
        n == 1 || n == 2,
        k + n <= s@.len(),
        forall|j: int| k <= j < k + n ==> is_digit(#[trigger] s@[j]),
    ensures
        r == digits_val(s@, k as int, n as int),
        r <= 99,
{
    let n_vec = s.len();
    if n == 1 {
        s[k] as u32 - 48
    } else {
        (s[k] as u32 - 48) * 10 + (s[k + 1] as u32 - 48)
    }
}

/// Parse a filename into season, episode and extension, mirroring the
/// ordered pattern list: explicit `S..E..` marker first, then the numeric
/// pair, then the compact triple.
#[verifier::rlimit(100)]
pub fn parse_filename(filename: &str) -> (r: Option<(u32, u32, String)>)
    ensures
        r is Some <==> parse_spec(filename@) is Some,
        r matches Some(t) ==> parse_spec(filename@) matches Some(u) && t.0 as int == u.0
            && t.1 as int == u.1 && t.2@ == u.2,
{
    let s = to_chars_local(filename);
    let n = s.len();
    proof {
        lemma_last_index_of(s@, '.');
    }
    // Locate the last dot.
    let mut k = n;
    let mut d_found: Option<usize> = None;
    while k > 0 && d_found.is_none()
        invariant
            k <= n,
            n == s@.len(),
            d_found is None ==> forall|j: int| k <= j < n ==> s@[j] != '.',
            d_found matches Some(dd) ==> dd < n && s@[dd as int] == '.' && (forall|j: int|
                dd < j < n ==> s@[j] != '.'),
        decreases k,
    {
        k = k - 1;
        if s[k] == '.' {
            d_found = Some(k);
        }
    }
    let d = match d_found {
        Some(d) => d,
        None => {
            proof {
                assert(!s@.contains('.')) by {
                    if s@.contains('.') {
                        let w = choose|w: int| 0 <= w < s@.len() && s@[w] == '.';
                        assert(s@[w] != '.');
                    }
                }
                lemma_last_index_of(s@, '.');
                assert(!has_valid_ext(s@));
            }
            return None;
        },
    };
    proof {
        assert(last_index_of(s@, '.') == d) by {
            assert(s@.contains('.'));
            if last_index_of(s@, '.') > d {
                assert(s@[last_index_of(s@, '.')] == '.');
            }
            if last_index_of(s@, '.') < d {
                assert(s@[d as int] == '.');
            }
        }
    }
    // Validate the extension after it.
    if d + 1 >= n {
        proof {
            assert(!has_valid_ext(s@));
        }
        return None;
    }
    let mut j = d + 1;
    while j < n
        invariant
            s@ == filename@,
            d + 1 <= j <= n,
            n == s@.len(),
            d == last_index_of(s@, '.'),
            d + 1 < n,
            forall|t: int| d < t < j ==> is_lower_alnum(#[trigger] s@[t]),
        decreases n - j,
    {
        if !is_lower_alnum_c(s[j]) {
            proof {
                assert(!has_valid_ext(s@));
            }
            return None;
        }
        j = j + 1;
    }
    proof {
        assert(has_valid_ext(s@));
    }
    let ext = filename.substring_char(d + 1, n).to_owned();
    proof {
        assert(ext@ =~= ext_of(s@));
    }
    // Pattern 1: rightmost explicit marker.
    let mut i = n;
    while i > 0
        invariant
            s@ == filename@,
            i <= n,
            n == s@.len(),
            d == last_index_of(s@, '.'),
            has_valid_ext(s@),
            d < n,
            ext@ == ext_of(s@),
            pat1_find(s@, n as int - 1, d as int) == pat1_find(s@, i as int - 1, d as int),
        decreases i,
    {
        i = i - 1;
        match pat1_end_x(&s, i) {
            Some(e) => {
                if e <= d {
                    let season = digits_val_x(&s, i + 1, 2);
                    proof {
                        assert(pat1_ok(s@, i as int, d as int));
                        assert(pat1_find(s@, i as int, d as int) == i);
                    }
                    let j_run = sep_run_end_x(&s, i + 3);
                    let episode = digits_val_x(&s, j_run + 1, 2);
                    return Some((season, episode, ext));
                }
            },
            None => {},
        }
    }
    proof {
        assert(pat1_find(s@, n as int - 1, d as int) == -1);
    }
    // Pattern 2: rightmost numeric pair.
    let mut p = n;
    while p > 0
        invariant
            s@ == filename@,
            p <= n,
            n == s@.len(),
            d == last_index_of(s@, '.'),
            has_valid_ext(s@),
            d < n,
            ext@ == ext_of(s@),
            pat1_find(s@, n as int - 1, d as int) == -1,
            pat2_find(s@, n as int - 1, d as int) == pat2_find(s@, p as int - 1, d as int),
        decreases p,
    {
        p = p - 1;
        let c22 = pat2_combo_x(&s, p, 2, 2, d);
        let c21 = pat2_combo_x(&s, p, 2, 1, d);
        let c12 = pat2_combo_x(&s, p, 1, 2, d);
        let c11 = pat2_combo_x(&s, p, 1, 1, d);
        if c22 || c21 || c12 || c11 {
            let (sl, el): (usize, usize) = if c22 {
                (2, 2)
            } else if c21 {
                (2, 1)
            } else if c12 {
                (1, 2)
            } else {
                (1, 1)
            };
            proof {
                assert(pat2_at(s@, p as int, d as int) == Some((sl as int, el as int)));
                assert(pat2_find(s@, p as int, d as int) == p);
            }
            let season = digits_val_x(&s, p + 1, sl);
            let episode = digits_val_x(&s, p + 2 + sl, el);
            return Some((season, episode, ext));
        }
        proof {
            assert(pat2_at(s@, p as int, d as int) is None);
        }
    }
    proof {
        assert(pat2_find(s@, n as int - 1, d as int) == -1);
    }
    // Pattern 3: rightmost compact triple.
    let mut q = n;
    while q > 0
        invariant
            s@ == filename@,
            q <= n,
            n == s@.len(),
            d == last_index_of(s@, '.'),
            has_valid_ext(s@),
            d < n,
            ext@ == ext_of(s@),
            pat1_find(s@, n as int - 1, d as int) == -1,
            pat2_find(s@, n as int - 1, d as int) == -1,
            pat3_find(s@, n as int - 1, d as int) == pat3_find(s@, q as int - 1, d as int),
        decreases q,
    {
        q = q - 1;
        if n - q >= 4 && is_sep_c(s[q]) && is_digit_c(s[q + 1]) && s[q + 1] != '0' && is_digit_c(
            s[q + 2],
        ) && is_digit_c(s[q + 3]) && d >= 4 && q <= d - 4 {
            proof {
                assert(digit_val(s@[q as int + 1]) >= 1);
                assert(pat3_ok(s@, q as int, d as int));
                assert(pat3_find(s@, q as int, d as int) == q);
            }
            let season = digits_val_x(&s, q + 1, 1);
            let episode = digits_val_x(&s, q + 2, 2);
            return Some((season, episode, ext));
        }
        proof {
            assert(!pat3_ok(s@, q as int, d as int));
        }
    }
    proof {
        assert(pat3_find(s@, n as int - 1, d as int) == -1);
    }
    None
}

fn to_chars_local(s: &str) -> (r: Vec<char>)
    ensures
        r@ == s@,
{
    crate::text::to_chars(s)
}

/// One locally discovered media file mapped to a remote identity.
///
/// Identity and ordering are over (show name, season, episode, extension)
/// only: the local path and the resolution certainty are excluded, so two
/// values standing for the same remote target compare equal.
#[derive(Debug)]
pub struct Episode {
    pub local_path: String,
    pub show_name: String,
    pub show_certainty: Certainty,
    pub season_num: u32,
    pub episode_num: u32,
    pub ext: String,
}

/// The mathematical value of an [`Episode`].
pub struct EpisodeView {
    pub local_path: Seq<char>,
    pub show_name: Seq<char>,
    pub show_certainty: Certainty,
    pub season_num: int,
    pub episode_num: int,
    pub ext: Seq<char>,
}

impl View for Episode {
    type V = EpisodeView;

    open spec fn view(&self) -> EpisodeView {
        EpisodeView {
            local_path: self.local_path@,
            show_name: self.show_name@,
            show_certainty: self.show_certainty,
            season_num: self.season_num as int,
            episode_num: self.episode_num as int,
            ext: self.ext@,
        }
    }
}

/// The identity key of an episode: show name, season, episode, extension.
pub open spec fn ep_key(e: EpisodeView) -> (Seq<char>, int, int, Seq<char>) {
    (e.show_name, e.season_num, e.episode_num, e.ext)
}

impl Clone for Episode {
    /// A clone carries the same value.
    fn clone(&self) -> (r: Self)
        ensures
            r@ == self@,
    {
        Episode {
            local_path: self.local_path.clone(),
            show_name: self.show_name.clone(),
            show_certainty: self.show_certainty,
            season_num: self.season_num,
            episode_num: self.episode_num,
            ext: self.ext.clone(),
        }
    }
}

impl PartialEq for Episode {
    fn eq(&self, other: &Self) -> (r: bool) {
        self.show_name == other.show_name && self.season_num == other.season_num
            && self.episode_num == other.episode_num && self.ext == other.ext
    }
}

impl Eq for Episode {

}

impl vstd::std_specs::cmp::PartialEqSpecImpl for Episode {
    open spec fn obeys_eq_spec() -> bool {
        true
    }

    open spec fn eq_spec(&self, other: &Episode) -> bool {
        ep_key(self@) == ep_key(other@)
    }
}

/// The canonical remote filename of an episode with the given key parts:
/// `S{season:02}E{episode:02}.{extension}`.
pub open spec fn remote_filename_spec(season: int, episode: int, ext: Seq<char>) -> Seq<char> {
    seq!['S'] + crate::text::pad2_digits(season as nat) + seq!['E'] + crate::text::pad2_digits(
        episode as nat,
    ) + seq!['.'] + ext
}

/// The canonical remote path of an episode below the library root:
/// `{show}/{remote filename}`.
pub open spec fn remote_subpath_spec(e: EpisodeView) -> Seq<char> {
    e.show_name + seq!['/'] + remote_filename_spec(e.season_num, e.episode_num, e.ext)
}

impl Episode {
    /// A well-formed episode: its certainty is a valid score.
    pub open spec fn wf(self) -> bool {
        self.show_certainty.wf()
    }

    /// Build an episode from a filename, attaching the resolved show.
    /// Fails with `BadFilename` when no pattern matches, and with
    /// `BadExtension` when a pattern matched but the extension is not in
    /// the allow-list; the extension check happens only after a successful
    /// match.
    pub fn from(
        path: &str,
        filename: &str,
        show_name: &str,
        show_certainty: Certainty,
        allowed_exts: &Vec<String>,
    ) -> (r: Result<Episode, ParseError>)
        ensures
            parse_spec(filename@) is None ==> r == Err::<Episode, ParseError>(
                ParseError::BadFilename,
            ),
            parse_spec(filename@) matches Some(t) ==> {
                &&& !contains_string(allowed_exts@, t.2) ==> r == Err::<Episode, ParseError>(
                    ParseError::BadExtension,
                )
                &&& contains_string(allowed_exts@, t.2) ==> (r matches Ok(e)
                    && e@.local_path == path@ && e@.show_name == show_name@ && e@.show_certainty
                    == show_certainty && e@.season_num == t.0 && e@.episode_num == t.1 && e@.ext
                    == t.2)
            },
    {
        let parsed = parse_filename(filename);
        match parsed {
            None => Err(ParseError::BadFilename),
            Some((season_num, episode_num, ext)) => {
                let mut found = false;
                let mut k: usize = 0;
                while k < allowed_exts.len()
                    invariant
                        k <= allowed_exts@.len(),
                        found == exists|j: int| 0 <= j < k && (#[trigger] allowed_exts@[j])@ == ext@,
                    decreases allowed_exts@.len() - k,
                {
                    let cand: &String = &allowed_exts[k];
                    if cand.eq(&ext) {
                        found = true;
                        proof {
                            assert((allowed_exts@[k as int])@ == ext@);
                        }
                    }
                    k = k + 1;
                }
                proof {
                    assert(found == contains_string(allowed_exts@, ext@));
                }
                if !found {
                    return Err(ParseError::BadExtension);
                }
                Ok(
                    Episode {
                        local_path: path.to_owned(),
                        show_name: show_name.to_owned(),
                        show_certainty,
                        season_num,
                        episode_num,
                        ext,
                    },
                )
            },
        }
    }

    /// The canonical filename of this episode on the remote side.
    pub fn remote_filename(&self) -> (r: String)
        ensures
            r@ == remote_filename_spec(self@.season_num, self@.episode_num, self@.ext),
    {
        proof {
            reveal_strlit("S");
            reveal_strlit("E");
            reveal_strlit(".");
        }
        let mut s = "S".to_owned();
        s.append(crate::text::pad2(self.season_num).as_str());
        s.append("E");
        s.append(crate::text::pad2(self.episode_num).as_str());
        s.append(".");
        s.append(self.ext.as_str());
        proof {
            assert(s@ =~= remote_filename_spec(self@.season_num, self@.episode_num, self@.ext));
        }
        s
    }

    /// The canonical path of this episode below the remote library root.
    pub fn remote_subpath(&self) -> (r: String)
        ensures
            r@ == remote_subpath_spec(self@),
    {
        proof {
            reveal_strlit("/");
        }
        let mut s = self.show_name.clone();
        s.append("/");
        s.append(self.remote_filename().as_str());
        proof {
            assert(s@ =~= remote_subpath_spec(self@));
        }
        s
    }
}


proof fn lemma_digit_char_val(d: int)
    requires
        0 <= d <= 9,
    ensures
        is_digit(crate::text::digit_char(d)),
        digit_val(crate::text::digit_char(d)) == d,
{
}

proof fn lemma_pad2_val(n: nat)
    requires
        n <= 99,
    ensures
        crate::text::pad2_digits(n).len() == 2,
        is_digit(crate::text::pad2_digits(n)[0]),
        is_digit(crate::text::pad2_digits(n)[1]),
        digit_val(crate::text::pad2_digits(n)[0]) * 10 + digit_val(crate::text::pad2_digits(n)[1])
            == n,
{
    if n < 10 {
        lemma_digit_char_val(n as int);
    } else {
        lemma_digit_char_val(n as int / 10);
        lemma_digit_char_val(n as int % 10);
        assert(crate::text::dec_digits(n / 10) =~= seq![
            crate::text::digit_char((n / 10) as int),
        ]);
        assert(crate::text::dec_digits(n) =~= seq![
            crate::text::digit_char((n / 10) as int),
            crate::text::digit_char((n % 10) as int),
        ]);
    }
}

proof fn lemma_sep_run_end_ge(s: Seq<char>, k: int)
    ensures
        sep_run_end(s, k) >= k,
    decreases s.len() - k,
{
    if !(k < 0 || k >= s.len() || !is_sep(s[k])) {
        lemma_sep_run_end_ge(s, k + 1);
    }
}

proof fn lemma_pat1_find_step(s: Seq<char>, i: int, i0: int, d: int)
    requires
        -1 <= i0 <= i,
        forall|j: int| i0 < j <= i ==> !(#[trigger] pat1_ok(s, j, d)),
    ensures
        pat1_find(s, i, d) == pat1_find(s, i0, d),
    decreases i - i0,
{
    if i > i0 {
        assert(!pat1_ok(s, i, d));
        lemma_pat1_find_step(s, i - 1, i0, d);
    }
}

/// Parsing its own canonical remote filename gives an episode's season,
/// episode and extension back exactly: `S{ss}E{ee}.{ext}` parses to
/// (ss, ee, ext) whenever both numbers fit in two digits and the
/// extension is non-empty lower-case letters and digits.
pub proof fn lemma_parse_remote_filename(season: int, episode: int, ext: Seq<char>)
    requires
        0 <= season <= 99,
        0 <= episode <= 99,
        ext.len() > 0,
        forall|j: int| 0 <= j < ext.len() ==> is_lower_alnum(#[trigger] ext[j]),
    ensures
        parse_spec(remote_filename_spec(season, episode, ext)) == Some((season, episode, ext)),
{
    let s = remote_filename_spec(season, episode, ext);
    let p2s = crate::text::pad2_digits(season as nat);
    let p2e = crate::text::pad2_digits(episode as nat);
    lemma_pad2_val(season as nat);
    lemma_pad2_val(episode as nat);
    assert(s.len() == 7 + ext.len());
    assert(s[0] == 'S');
    assert(s[1] == p2s[0] && s[2] == p2s[1]);
    assert(s[3] == 'E');
    assert(s[4] == p2e[0] && s[5] == p2e[1]);
    assert(s[6] == '.');
    assert(forall|j: int| 7 <= j < s.len() ==> s[j] == ext[j - 7]);
    // The last dot sits right before the extension.
    lemma_last_index_of(s, '.');
    assert(s.contains('.'));
    let d = last_index_of(s, '.');
    assert(d == 6) by {
        if d > 6 {
            assert(is_lower_alnum(ext[d - 7]));
            assert(s[d] == '.');
        }
        if d < 6 {
            assert(s[6] == '.');
        }
    }
    assert(has_valid_ext(s));
    assert(ext_of(s) =~= ext);
    // Pattern 1 matches at position 0 and nowhere later.
    assert(sep_run_end(s, 3) == 3);
    assert(pat1_end(s, 0) == 6);
    assert(pat1_ok(s, 0, 6));
    assert(pat1_find(s, 0, 6) == 0);
    assert forall|j: int| 0 < j <= s.len() - 1 implies !(#[trigger] pat1_ok(s, j, 6)) by {
        if pat1_end(s, j) >= 0 {
            lemma_sep_run_end_ge(s, j + 3);
            assert(pat1_end(s, j) >= j + 6);
        }
    }
    lemma_pat1_find_step(s, s.len() - 1, 0, 6);
    assert(pat1_find(s, s.len() - 1, 6) == 0);
    assert(pat1_season(s, 0) == season);
    assert(pat1_episode(s, 0) == episode);
}

} // verus!
