//! The Jaro similarity of two character sequences, computed exactly.
//!
//! The score is the usual Jaro metric: with `m` matching characters found
//! greedily within a sliding window, and `t` the number of times the
//! matched position in the second sequence steps backwards, the score is
//! `(m/|a| + m/|b| + (m-t)/m) / 3`. It is kept as an exact fraction of
//! integers, so comparisons against thresholds are exact.

use vstd::prelude::*;

use crate::certainty::Certainty;

verus! {

/// Sequences longer than this take no part in similarity scoring: the
/// bound keeps every product in the score's fraction inside 64 bits.
pub const MAX_SIM_LEN: usize = 1048576;

/// The running state of the greedy matching scan.
pub struct JaroState {
    /// Which positions of `b` are already matched.
    pub used: Seq<bool>,
    /// How many matches were made.
    pub m: int,
    /// How many times the matched position stepped backwards.
    pub t: int,
    /// The matched position of the previous match.
    pub bmi: int,
}

pub open spec fn jaro_init(b_len: int) -> JaroState {
    JaroState { used: Seq::new(b_len as nat, |i: int| false), m: 0, t: 0, bmi: 0 }
}

/// The first unmatched position in `[lo, hi)` holding character `c`.
pub open spec fn first_unused_match(
    b: Seq<char>,
    used: Seq<bool>,
    c: char,
    lo: int,
    hi: int,
) -> Option<int>
    decreases hi - lo,
{
    if lo >= hi {
        None
    } else if 0 <= lo < b.len() && b[lo] == c && !used[lo] {
        Some(lo)
    } else {
        first_unused_match(b, used, c, lo + 1, hi)
    }
}

/// One step of the scan: try to match `a_i`, the character of `a` at
/// position `i`, inside its window of `b`.
pub open spec fn jaro_step(a_i: char, i: int, b: Seq<char>, sr: int, st: JaroState) -> JaroState {
    let lo = if i > sr {
        i - sr
    } else {
        0
    };
    let hi_incl = if b.len() - 1 <= i + sr {
        b.len() - 1
    } else {
        i + sr
    };
    if lo > hi_incl {
        st
    } else {
        match first_unused_match(b, st.used, a_i, lo, hi_incl + 1) {
            None => st,
            Some(j) => JaroState {
                used: st.used.update(j, true),
                m: st.m + 1,
                t: st.t + if j < st.bmi {
                    1int
                } else {
                    0int
                },
                bmi: j,
            },
        }
    }
}

/// The state after scanning the first `i` characters of `a`.
pub open spec fn jaro_scan(a: Seq<char>, b: Seq<char>, sr: int, i: int) -> JaroState
    decreases i,
{
    if i <= 0 {
        jaro_init(b.len() as int)
    } else {
        jaro_step(a[i - 1], i - 1, b, sr, jaro_scan(a, b, sr, i - 1))
    }
}

/// The Jaro similarity of `a` and `b` as an exact fraction
/// (numerator, denominator).
pub open spec fn jaro_frac_spec(a: Seq<char>, b: Seq<char>) -> (int, int) {
    let la = a.len() as int;
    let lb = b.len() as int;
    if la == 0 && lb == 0 {
        (1int, 1int)
    } else if la == 0 || lb == 0 {
        (0int, 1int)
    } else if la == 1 && lb == 1 {
        if a[0] == b[0] {
            (1int, 1int)
        } else {
            (0int, 1int)
        }
    } else {
        let sr = (if la >= lb {
            la
        } else {
            lb
        }) / 2 - 1;
        let st = jaro_scan(a, b, sr, la);
        if st.m == 0 {
            (0int, 1int)
        } else {
            (st.m * st.m * lb + st.m * st.m * la + (st.m - st.t) * la * lb, 3 * la * lb * st.m)
        }
    }
}

pub open spec fn count_true(s: Seq<bool>) -> int
    decreases s.len(),
{
    if s.len() == 0 {
        0
    } else {
        count_true(s.drop_last()) + if s.last() {
            1int
        } else {
            0int
        }
    }
}

proof fn lemma_count_true_le_len(s: Seq<bool>)
    ensures
        0 <= count_true(s) <= s.len(),
    decreases s.len(),
{
    if s.len() > 0 {
        lemma_count_true_le_len(s.drop_last());
    }
}

proof fn lemma_count_true_update(s: Seq<bool>, j: int)
    requires
        0 <= j < s.len(),
        !s[j],
    ensures
        count_true(s.update(j, true)) == count_true(s) + 1,
    decreases s.len(),
{
    let u = s.update(j, true);
    if j == s.len() - 1 {
        assert(u.drop_last() =~= s.drop_last());
        assert(u.last());
        assert(!s.last());
    } else {
        assert(u.drop_last() =~= s.drop_last().update(j, true));
        lemma_count_true_update(s.drop_last(), j);
        assert(u.last() == s.last());
    }
}

/// Facts maintained by the scan: the match count never exceeds either
/// length, the backward-step count stays below the match count, and the
/// match bookkeeping stays in range.
pub proof fn lemma_jaro_scan_wf(a: Seq<char>, b: Seq<char>, sr: int, i: int)
    requires
        0 <= i <= a.len(),
        sr >= 0,
        b.len() > 0,
    ensures
        ({
            let st = jaro_scan(a, b, sr, i);
            &&& st.used.len() == b.len()
            &&& 0 <= st.m <= i
            &&& st.m <= b.len()
            &&& st.m == count_true(st.used)
            &&& (st.m == 0 ==> st.t == 0)
            &&& (st.m == 0 ==> st.bmi == 0)
            &&& (st.m > 0 ==> 0 <= st.t <= st.m - 1)
            &&& 0 <= st.bmi < b.len()
        }),
    decreases i,
{
    if i == 0 {
        let st = jaro_scan(a, b, sr, 0);
        assert(count_true(st.used) == 0) by {
            lemma_count_all_false(b.len() as int);
        }
    } else {
        lemma_jaro_scan_wf(a, b, sr, i - 1);
        let prev = jaro_scan(a, b, sr, i - 1);
        let st = jaro_scan(a, b, sr, i);
        let lo = if i - 1 > sr {
            i - 1 - sr
        } else {
            0
        };
        let hi_incl = if b.len() - 1 <= i - 1 + sr {
            b.len() - 1
        } else {
            i - 1 + sr
        };
        if lo > hi_incl {
        } else {
            match first_unused_match(b, prev.used, a[i - 1], lo, hi_incl + 1) {
                None => {},
                Some(j) => {
                    lemma_first_unused_match_in_range(b, prev.used, a[i - 1], lo, hi_incl + 1);
                    lemma_count_true_update(prev.used, j);
                    lemma_count_true_le_len(st.used);
                },
            }
        }
    }
}

proof fn lemma_count_all_false(n: int)
    requires
        n >= 0,
    ensures
        count_true(Seq::new(n as nat, |i: int| false)) == 0,
    decreases n,
{
    if n > 0 {
        let s = Seq::new(n as nat, |i: int| false);
        assert(s.drop_last() =~= Seq::new((n - 1) as nat, |i: int| false));
        lemma_count_all_false(n - 1);
    }
}

proof fn lemma_first_unused_match_in_range(
    b: Seq<char>,
    used: Seq<bool>,
    c: char,
    lo: int,
    hi: int,
)
    ensures
        first_unused_match(b, used, c, lo, hi) matches Some(j) ==> lo <= j < hi && 0 <= j
            < b.len() && b[j] == c && !used[j],
    decreases hi - lo,
{
    if lo < hi {
        lemma_first_unused_match_in_range(b, used, c, lo + 1, hi);
    }
}

/// The exact Jaro similarity of `a` and `b`, as a certainty score.
#[verifier::loop_isolation(false)]
#[verifier::rlimit(100)]
pub fn jaro(a: &Vec<char>, b: &Vec<char>) -> (r: Certainty)
    requires
        a@.len() <= MAX_SIM_LEN,
        b@.len() <= MAX_SIM_LEN,
    ensures
        r.num == jaro_frac_spec(a@, b@).0,
        r.den == jaro_frac_spec(a@, b@).1,
        r.wf(),
{
    let la = a.len();
    let lb = b.len();
    if la == 0 && lb == 0 {
        return Certainty::one();
    }
    if la == 0 || lb == 0 {
        return Certainty::zero();
    }
    if la == 1 && lb == 1 {
        if a[0] == b[0] {
            return Certainty::one();
        } else {
            return Certainty::zero();
        }
    }
    let maxl = if la >= lb {
        la
    } else {
        lb
    };
    let sr = maxl / 2 - 1;
    let mut used: Vec<bool> = Vec::new();
    let mut z: usize = 0;
    while z < lb
        invariant
            z <= lb,
            used@ =~= Seq::new(z as nat, |i: int| false),
        decreases lb - z,
    {
        used.push(false);
        z = z + 1;
        proof {
            assert(used@ =~= Seq::new(z as nat, |i: int| false));
        }
    }
    let mut m: usize = 0;
    let mut t: usize = 0;
    let mut bmi: usize = 0;
    let mut i: usize = 0;
    let ghost srg: int = sr as int;
    while i < la
        invariant
            i <= la,
            la == a@.len(),
            lb == b@.len(),
            lb > 0,
            srg == sr as int,
            sr >= 0,
            sr < 1048576,
            la <= MAX_SIM_LEN,
            lb <= MAX_SIM_LEN,
            ({
                let st = jaro_scan(a@, b@, srg, i as int);
                used@ == st.used && m as int == st.m && t as int == st.t && bmi as int == st.bmi
            }),
            used@.len() == lb,
            m <= i,
            bmi < lb,
            t <= m,
        decreases la - i,
    {
        let lo = if i > sr {
            i - sr
        } else {
            0
        };
        let hi_incl = if lb - 1 <= i + sr {
            lb - 1
        } else {
            i + sr
        };
        let ghost st_pre = jaro_scan(a@, b@, srg, i as int);
        if lo <= hi_incl {
            let mut j = lo;
            let mut matched = false;
            while j <= hi_incl && !matched
                invariant
                    lo <= j,
                    j <= hi_incl + 1,
                    hi_incl < lb,
                    lb == b@.len(),
                    la == a@.len(),
                    la <= 1048576,
                    i < la,
                    st_pre.m <= i,
                    st_pre.t <= st_pre.m,
                    st_pre.used.len() == lb,
                    used@.len() == lb,
                    bmi < lb,
                    t <= m,
                    m <= i + 1,
                    !matched ==> first_unused_match(b@, used@, a@[i as int], lo as int, hi_incl + 1)
                        == first_unused_match(b@, used@, a@[i as int], j as int, hi_incl + 1),
                    !matched ==> used@ == st_pre.used && m as int == st_pre.m && t as int
                        == st_pre.t && bmi as int == st_pre.bmi,
                    matched ==> ({
                        let st = jaro_step(a@[i as int], i as int, b@, srg, st_pre);
                        used@ == st.used && m as int == st.m && t as int == st.t && bmi as int
                            == st.bmi
                    }),
                decreases hi_incl + 1 - j, (if matched {
                    0int
                } else {
                    1int
                }),
            {
                if !used[j] && a[i] == b[j] {
                    proof {
                        assert(first_unused_match(b@, used@, a@[i as int], j as int, hi_incl + 1)
                            == Some(j as int));
                        assert(first_unused_match(b@, used@, a@[i as int], lo as int, hi_incl + 1)
                            == Some(j as int));
                    }
                    used.set(j, true);
                    m = m + 1;
                    if j < bmi {
                        t = t + 1;
                    }
                    bmi = j;
                    matched = true;
                    proof {
                        let st = jaro_step(a@[i as int], i as int, b@, srg, st_pre);
                        assert(st.used == st_pre.used.update(j as int, true));
                    }
                } else {
                    proof {
                        assert(first_unused_match(b@, used@, a@[i as int], j as int, hi_incl + 1)
                            == first_unused_match(
                            b@,
                            used@,
                            a@[i as int],
                            j as int + 1,
                            hi_incl + 1,
                        ));
                    }
                    j = j + 1;
                }
            }
            proof {
                if !matched {
                    assert(first_unused_match(b@, used@, a@[i as int], lo as int, hi_incl + 1)
                        is None);
                    assert(jaro_step(a@[i as int], i as int, b@, srg, st_pre) == st_pre);
                }
            }
        } else {
            proof {
                assert(jaro_step(a@[i as int], i as int, b@, srg, st_pre) == st_pre);
            }
        }
        i = i + 1;
        proof {
            assert(jaro_scan(a@, b@, srg, i as int) == jaro_step(
                a@[i as int - 1],
                i as int - 1,
                b@,
                srg,
                st_pre,
            ));
        }
    }
    proof {
        lemma_jaro_scan_wf(a@, b@, srg, la as int);
    }
    if m == 0 {
        return Certainty::zero();
    }
    let m64 = m as u64;
    let la64 = la as u64;
    let lb64 = lb as u64;
    let t64 = t as u64;
    proof {
        assert(m64 <= 0x100000 && la64 <= 0x100000 && lb64 <= 0x100000 && t64 < m64);
        lemma_jaro_products_bounded(m64 as int, t64 as int, la64 as int, lb64 as int);
    }
    let diff = m64 - t64;
    proof {
        assert(diff == m64 - t64);
        assert(diff * la64 * lb64 == (m64 as int - t64 as int) * la64 * lb64);
    }
    let num = m64 * m64 * lb64 + m64 * m64 * la64 + diff * la64 * lb64;
    let den = 3 * la64 * lb64 * m64;
    Certainty { num, den }
}

proof fn lemma_jaro_products_bounded(m: int, t: int, la: int, lb: int) by (nonlinear_arith)
    requires
        1 <= m <= la,
        m <= lb,
        0 <= t < m,
        la <= 0x100000,
        lb <= 0x100000,
    ensures
        m * m <= 0x10000000000,
        m * m * lb + m * m * la + (m - t) * la * lb <= 3 * la * lb * m,
        m * m * lb >= 0,
        m * m * la >= 0,
        (m - t) * la * lb >= 1,
        3 * la * lb * m <= 0x3000000000000000,
        m * m * lb <= 0x1000000000000000,
        m * m * la <= 0x1000000000000000,
        (m - t) * la <= 0x10000000000,
        (m - t) * la * lb <= 0x1000000000000000,
        la * lb <= 0x10000000000,
        3 * la * lb <= 0x30000000000,
        3 * la * lb * m > 0,
{
}


/// The views of a list of known show names.
pub open spec fn known_views(v: Seq<String>) -> Seq<Seq<char>> {
    v.map_values(|s: String| s@)
}

/// Both strings are short enough to take part in similarity scoring.
pub open spec fn eligible(a: Seq<char>, b: Seq<char>) -> bool {
    a.len() <= MAX_SIM_LEN && b.len() <= MAX_SIM_LEN
}

/// The result of the fuzzy scan from index `i` onward, carrying the best
/// score seen so far (`bn / bd`) and the best matching name `bm`.
/// A score at or above 9/10 returns its show at once; otherwise the single
/// strictly-best score wins, and is returned only if it reaches 7/10.
pub open spec fn fuzzy_from(
    known: Seq<Seq<char>>,
    name: Seq<char>,
    i: int,
    bn: int,
    bd: int,
    bm: Option<Seq<char>>,
) -> Option<(Seq<char>, (int, int))>
    decreases known.len() - i,
{
    if i < 0 || i >= known.len() {
        match bm {
            None => None,
            Some(s) => if crate::certainty::frac_le(7, 10, bn, bd) {
                Some((s, (bn, bd)))
            } else {
                None
            },
        }
    } else if !eligible(name, known[i]) {
        fuzzy_from(known, name, i + 1, bn, bd, bm)
    } else {
        let f = jaro_frac_spec(name, known[i]);
        if crate::certainty::frac_le(9, 10, f.0, f.1) {
            Some((known[i], f))
        } else if crate::certainty::frac_lt(bn, bd, f.0, f.1) {
            fuzzy_from(known, name, i + 1, f.0, f.1, Some(known[i]))
        } else {
            fuzzy_from(known, name, i + 1, bn, bd, bm)
        }
    }
}

/// What resolving a name against a fixed set of known shows yields:
/// an exact member is returned with certainty 1, anything else goes
/// through the fuzzy scan.
pub open spec fn strsim_resolve_spec(known: Seq<Seq<char>>, name: Seq<char>) -> Option<
    (Seq<char>, (int, int)),
> {
    if known.contains(name) {
        Some((name, (1int, 1int)))
    } else {
        fuzzy_from(known, name, 0, 0, 1, None)
    }
}

/// Resolves candidate names against the set of shows already known to the
/// remote library: exact membership first, then Jaro similarity.
pub struct StrsimResolver {
    pub known_shows: Vec<String>,
}

impl StrsimResolver {
    /// Build a resolver over a copy of the known show names.
    pub fn new(known_shows: &Vec<String>) -> (r: StrsimResolver)
        ensures
            known_views(r.known_shows@) == known_views(known_shows@),
    {
        let mut ks: Vec<String> = Vec::new();
        let mut k: usize = 0;
        while k < known_shows.len()
            invariant
                k <= known_shows@.len(),
                ks@ =~= known_shows@.take(k as int),
            decreases known_shows@.len() - k,
        {
            ks.push(known_shows[k].clone());
            k = k + 1;
            proof {
                assert(ks@ =~= known_shows@.take(k as int));
            }
        }
        proof {
            assert(ks@ =~= known_shows@);
            assert(known_views(ks@) =~= known_views(known_shows@));
        }
        StrsimResolver { known_shows: ks }
    }

    /// Resolve a candidate name: a known name comes back unchanged with
    /// certainty exactly 1; otherwise the fuzzy scan decides.
    #[verifier::loop_isolation(false)]
    pub fn resolve(&self, name: &str) -> (r: Option<(String, Certainty)>)
        ensures
            ({
                let spec_r = strsim_resolve_spec(known_views(self.known_shows@), name@);
                match r {
                    None => spec_r is None,
                    Some((s, c)) => spec_r matches Some(u) && s@ == u.0 && c.num == u.1.0 && c.den
                        == u.1.1,
                }
            }),
    {
        let ghost kv = known_views(self.known_shows@);
        // Exact membership.
        let name_string = name.to_owned();
        let mut k: usize = 0;
        while k < self.known_shows.len()
            invariant
                k <= self.known_shows@.len(),
                forall|j: int| 0 <= j < k ==> kv[j] != name@,
            decreases self.known_shows@.len() - k,
        {
            if self.known_shows[k].eq(&name_string) {
                proof {
                    assert(kv[k as int] == name@);
                    assert(kv.contains(name@));
                }
                return Some((name_string, Certainty::one()));
            }
            k = k + 1;
        }
        proof {
            assert(!kv.contains(name@)) by {
                if kv.contains(name@) {
                    let w = choose|w: int| 0 <= w < kv.len() && kv[w] == name@;
                    assert(kv[w] != name@);
                }
            }
        }
        // Fuzzy scan.
        let nc = crate::text::to_chars(name);
        let mut best = Certainty::zero();
        let mut best_idx: Option<usize> = None;
        let mut i: usize = 0;
        while i < self.known_shows.len()
            invariant
                i <= self.known_shows@.len(),
                best.wf(),
                best_idx matches Some(b) ==> b < self.known_shows@.len(),
                fuzzy_from(kv, name@, 0, 0, 1, None) == fuzzy_from(
                    kv,
                    name@,
                    i as int,
                    best.num as int,
                    best.den as int,
                    match best_idx {
                        None => None,
                        Some(b) => Some(kv[b as int]),
                    },
                ),
                best_idx is None ==> best == (Certainty { num: 0u64, den: 1u64 }),
            decreases self.known_shows@.len() - i,
        {
            let kc = crate::text::to_chars(self.known_shows[i].as_str());
            if nc.len() <= MAX_SIM_LEN && kc.len() <= MAX_SIM_LEN {
                let score = jaro(&nc, &kc);
                if score.at_least(9, 10) {
                    return Some((self.known_shows[i].clone(), score));
                }
                if score.gt(&best) {
                    best = score;
                    best_idx = Some(i);
                }
            }
            i = i + 1;
        }
        match best_idx {
            None => None,
            Some(b) => {
                if best.at_least(7, 10) {
                    Some((self.known_shows[b].clone(), best))
                } else {
                    None
                }
            },
        }
    }
}


/// Cross-multiplied fraction comparison is transitive (denominators
/// positive); a strict step anywhere keeps the combined comparison strict.
pub proof fn lemma_frac_trans(an: int, ad: int, bn: int, bd: int, cn: int, cd: int)
    by (nonlinear_arith)
    requires
        ad > 0,
        bd > 0,
        cd > 0,
    ensures
        crate::certainty::frac_le(an, ad, bn, bd) && crate::certainty::frac_le(bn, bd, cn, cd)
            ==> crate::certainty::frac_le(an, ad, cn, cd),
        crate::certainty::frac_le(an, ad, bn, bd) && crate::certainty::frac_lt(bn, bd, cn, cd)
            ==> crate::certainty::frac_lt(an, ad, cn, cd),
        crate::certainty::frac_lt(an, ad, bn, bd) && crate::certainty::frac_le(bn, bd, cn, cd)
            ==> crate::certainty::frac_lt(an, ad, cn, cd),
{
}

proof fn lemma_jaro_num_le_den(m: int, t: int, la: int, lb: int) by (nonlinear_arith)
    requires
        1 <= m <= la,
        m <= lb,
        0 <= t < m,
    ensures
        m * m * lb + m * m * la + (m - t) * la * lb <= 3 * la * lb * m,
        m * m * lb + m * m * la + (m - t) * la * lb >= 1,
        3 * la * lb * m > 0,
{
}

/// The Jaro fraction is a well-formed score: a positive denominator and a
/// value in [0, 1].
pub proof fn lemma_jaro_frac_wf(a: Seq<char>, b: Seq<char>)
    ensures
        jaro_frac_spec(a, b).1 > 0,
        0 <= jaro_frac_spec(a, b).0 <= jaro_frac_spec(a, b).1,
{
    let la = a.len() as int;
    let lb = b.len() as int;
    if la == 0 && lb == 0 {
    } else if la == 0 || lb == 0 {
    } else if la == 1 && lb == 1 {
    } else {
        let sr = (if la >= lb { la } else { lb }) / 2 - 1;
        let st = jaro_scan(a, b, sr, la);
        lemma_jaro_scan_wf(a, b, sr, la);
        if st.m > 0 {
            lemma_jaro_num_le_den(st.m, st.t, la, lb);
        }
    }
}

/// A known name resolves to itself with certainty exactly 1.
pub proof fn lemma_exact_resolution(known: Seq<Seq<char>>, name: Seq<char>)
    requires
        known.contains(name),
    ensures
        strsim_resolve_spec(known, name) == Some((name, (1int, 1int))),
{
}

/// The first eligible show whose similarity reaches 9/10 is returned at
/// once, with that similarity as certainty, whatever came before it.
pub proof fn lemma_fuzzy_perfect(
    known: Seq<Seq<char>>,
    name: Seq<char>,
    i: int,
    i0: int,
    bn: int,
    bd: int,
    bm: Option<Seq<char>>,
)
    requires
        0 <= i <= i0 < known.len(),
        eligible(name, known[i0]),
        crate::certainty::frac_le(9, 10, jaro_frac_spec(name, known[i0]).0, jaro_frac_spec(name, known[i0]).1),
        forall|j: int| i <= j < i0 && eligible(name, #[trigger] known[j]) ==> !crate::certainty::frac_le(
            9,
            10,
            jaro_frac_spec(name, known[j]).0,
            jaro_frac_spec(name, known[j]).1,
        ),
    ensures
        fuzzy_from(known, name, i, bn, bd, bm) == Some(
            (known[i0], jaro_frac_spec(name, known[i0])),
        ),
    decreases i0 - i,
{
    if i < i0 {
        if !eligible(name, known[i]) {
            lemma_fuzzy_perfect(known, name, i + 1, i0, bn, bd, bm);
        } else {
            let f = jaro_frac_spec(name, known[i]);
            if crate::certainty::frac_lt(bn, bd, f.0, f.1) {
                lemma_fuzzy_perfect(known, name, i + 1, i0, f.0, f.1, Some(known[i]));
            } else {
                lemma_fuzzy_perfect(known, name, i + 1, i0, bn, bd, bm);
            }
        }
    }
}

/// The best score and match that the fuzzy scan tracks from `i` onward.
pub open spec fn fuzzy_best(
    known: Seq<Seq<char>>,
    name: Seq<char>,
    i: int,
    bn: int,
    bd: int,
    bm: Option<Seq<char>>,
) -> (int, int, Option<Seq<char>>)
    decreases known.len() - i,
{
    if i < 0 || i >= known.len() {
        (bn, bd, bm)
    } else if !eligible(name, known[i]) {
        fuzzy_best(known, name, i + 1, bn, bd, bm)
    } else {
        let f = jaro_frac_spec(name, known[i]);
        if crate::certainty::frac_lt(bn, bd, f.0, f.1) {
            fuzzy_best(known, name, i + 1, f.0, f.1, Some(known[i]))
        } else {
            fuzzy_best(known, name, i + 1, bn, bd, bm)
        }
    }
}

/// When no eligible show reaches 9/10, the scan returns the tracked best
/// match exactly when its score reaches 7/10, and nothing otherwise.
pub proof fn lemma_fuzzy_below_perfect(
    known: Seq<Seq<char>>,
    name: Seq<char>,
    i: int,
    bn: int,
    bd: int,
    bm: Option<Seq<char>>,
)
    requires
        forall|j: int| i <= j < known.len() && eligible(name, #[trigger] known[j])
            ==> !crate::certainty::frac_le(
            9,
            10,
            jaro_frac_spec(name, known[j]).0,
            jaro_frac_spec(name, known[j]).1,
        ),
    ensures
        fuzzy_from(known, name, i, bn, bd, bm) == ({
            let b = fuzzy_best(known, name, i, bn, bd, bm);
            match b.2 {
                None => None::<(Seq<char>, (int, int))>,
                Some(s) => if crate::certainty::frac_le(7, 10, b.0, b.1) {
                    Some((s, (b.0, b.1)))
                } else {
                    None
                },
            }
        }),
    decreases known.len() - i,
{
    if 0 <= i < known.len() {
        if !eligible(name, known[i]) {
            lemma_fuzzy_below_perfect(known, name, i + 1, bn, bd, bm);
        } else {
            let f = jaro_frac_spec(name, known[i]);
            if crate::certainty::frac_lt(bn, bd, f.0, f.1) {
                lemma_fuzzy_below_perfect(known, name, i + 1, f.0, f.1, Some(known[i]));
            } else {
                lemma_fuzzy_below_perfect(known, name, i + 1, bn, bd, bm);
            }
        }
    }
}

/// What the tracked best is made of: it is the starting score or the
/// similarity of some eligible show, and it is at or above the starting
/// score and every eligible similarity seen.
pub proof fn lemma_fuzzy_best_props(
    known: Seq<Seq<char>>,
    name: Seq<char>,
    i: int,
    bn: int,
    bd: int,
    bm: Option<Seq<char>>,
)
    requires
        0 <= i,
        bd > 0,
    ensures
        ({
            let b = fuzzy_best(known, name, i, bn, bd, bm);
            &&& b.1 > 0
            &&& (b.0 == bn && b.1 == bd && b.2 == bm) || (exists|j: int|
                i <= j < known.len() && eligible(name, #[trigger] known[j]) && b.2 == Some(known[j])
                    && (b.0, b.1) == jaro_frac_spec(name, known[j]))
            &&& crate::certainty::frac_le(bn, bd, b.0, b.1)
            &&& forall|j: int| i <= j < known.len() && eligible(name, #[trigger] known[j])
                ==> crate::certainty::frac_le(
                jaro_frac_spec(name, known[j]).0,
                jaro_frac_spec(name, known[j]).1,
                b.0,
                b.1,
            )
        }),
    decreases known.len() - i,
{
    if i < 0 || i >= known.len() {
    } else if !eligible(name, known[i]) {
        lemma_fuzzy_best_props(known, name, i + 1, bn, bd, bm);
    } else {
        let f = jaro_frac_spec(name, known[i]);
        lemma_jaro_frac_wf(name, known[i]);
        let b = fuzzy_best(known, name, i, bn, bd, bm);
        if crate::certainty::frac_lt(bn, bd, f.0, f.1) {
            lemma_fuzzy_best_props(known, name, i + 1, f.0, f.1, Some(known[i]));
            lemma_frac_trans(bn, bd, f.0, f.1, b.0, b.1);
            if b.0 == f.0 && b.1 == f.1 && b.2 == Some(known[i]) {
                assert(i <= i < known.len() && eligible(name, known[i]) && b.2 == Some(known[i])
                    && (b.0, b.1) == jaro_frac_spec(name, known[i]));
            }
            assert forall|j: int|
                i <= j < known.len() && eligible(name, #[trigger] known[j]) implies
                crate::certainty::frac_le(
                jaro_frac_spec(name, known[j]).0,
                jaro_frac_spec(name, known[j]).1,
                b.0,
                b.1,
            ) by {
                if j == i {
                    assert(crate::certainty::frac_le(f.0, f.1, b.0, b.1));
                }
            }
        } else {
            lemma_fuzzy_best_props(known, name, i + 1, bn, bd, bm);
            lemma_frac_trans(f.0, f.1, bn, bd, b.0, b.1);
            assert forall|j: int|
                i <= j < known.len() && eligible(name, #[trigger] known[j]) implies
                crate::certainty::frac_le(
                jaro_frac_spec(name, known[j]).0,
                jaro_frac_spec(name, known[j]).1,
                b.0,
                b.1,
            ) by {
                if j == i {
                    assert(crate::certainty::frac_le(f.0, f.1, bn, bd));
                    assert(crate::certainty::frac_le(f.0, f.1, b.0, b.1));
                }
            }
        }
    }
}



/// The tracked best either never changed, or it names the first show
/// attaining its score: a strict-greater update keeps the earliest
/// maximum, so every eligible similarity before the returned index is
/// strictly below the best. Returns that index, or -1 when unchanged.
pub proof fn lemma_fuzzy_best_first(
    known: Seq<Seq<char>>,
    name: Seq<char>,
    i: int,
    bn: int,
    bd: int,
    bm: Option<Seq<char>>,
) -> (w: int)
    requires
        0 <= i,
        bd > 0,
    ensures
        ({
            let b = fuzzy_best(known, name, i, bn, bd, bm);
            ||| (w == -1 && b.0 == bn && b.1 == bd && b.2 == bm)
            ||| (i <= w < known.len() && eligible(name, known[w]) && b.2 == Some(known[w]) && (
                b.0,
                b.1,
            ) == jaro_frac_spec(name, known[w]) && crate::certainty::frac_lt(bn, bd, b.0, b.1) && (
            forall|j2: int|
                i <= j2 < w && eligible(name, #[trigger] known[j2])
                    ==> crate::certainty::frac_lt(
                    jaro_frac_spec(name, known[j2]).0,
                    jaro_frac_spec(name, known[j2]).1,
                    b.0,
                    b.1,
                )))
        }),
    decreases known.len() - i,
{
    if i < 0 || i >= known.len() {
        -1
    } else if !eligible(name, known[i]) {
        let w = lemma_fuzzy_best_first(known, name, i + 1, bn, bd, bm);
        let b = fuzzy_best(known, name, i, bn, bd, bm);
        if w >= 0 {
            assert forall|j2: int|
                i <= j2 < w && eligible(name, #[trigger] known[j2]) implies
                crate::certainty::frac_lt(
                jaro_frac_spec(name, known[j2]).0,
                jaro_frac_spec(name, known[j2]).1,
                b.0,
                b.1,
            ) by {}
        }
        w
    } else {
        let f = jaro_frac_spec(name, known[i]);
        lemma_jaro_frac_wf(name, known[i]);
        let b = fuzzy_best(known, name, i, bn, bd, bm);
        if crate::certainty::frac_lt(bn, bd, f.0, f.1) {
            let w = lemma_fuzzy_best_first(known, name, i + 1, f.0, f.1, Some(known[i]));
            if w == -1 {
                assert(b.0 == f.0 && b.1 == f.1 && b.2 == Some(known[i]));
                i
            } else {
                lemma_jaro_frac_wf(name, known[w]);
                lemma_frac_trans(bn, bd, f.0, f.1, b.0, b.1);
                assert forall|j2: int|
                    i <= j2 < w && eligible(name, #[trigger] known[j2]) implies
                    crate::certainty::frac_lt(
                    jaro_frac_spec(name, known[j2]).0,
                    jaro_frac_spec(name, known[j2]).1,
                    b.0,
                    b.1,
                ) by {
                    if j2 == i {
                        assert(crate::certainty::frac_lt(f.0, f.1, b.0, b.1));
                    }
                }
                w
            }
        } else {
            let w = lemma_fuzzy_best_first(known, name, i + 1, bn, bd, bm);
            if w == -1 {
                -1
            } else {
                lemma_jaro_frac_wf(name, known[w]);
                lemma_frac_trans(f.0, f.1, bn, bd, b.0, b.1);
                assert forall|j2: int|
                    i <= j2 < w && eligible(name, #[trigger] known[j2]) implies
                    crate::certainty::frac_lt(
                    jaro_frac_spec(name, known[j2]).0,
                    jaro_frac_spec(name, known[j2]).1,
                    b.0,
                    b.1,
                ) by {
                    if j2 == i {
                        assert(crate::certainty::frac_le(f.0, f.1, bn, bd));
                        assert(crate::certainty::frac_lt(f.0, f.1, b.0, b.1));
                    }
                }
                w
            }
        }
    }
}

/// The law of the perfect threshold: for a name that is not itself known,
/// the first eligible known show whose similarity reaches 9/10 is the
/// resolution, with that similarity as its certainty.
pub proof fn lemma_resolve_perfect(known: Seq<Seq<char>>, name: Seq<char>, i0: int)
    requires
        !known.contains(name),
        0 <= i0 < known.len(),
        eligible(name, known[i0]),
        crate::certainty::frac_le(
            9,
            10,
            jaro_frac_spec(name, known[i0]).0,
            jaro_frac_spec(name, known[i0]).1,
        ),
        forall|j: int| 0 <= j < i0 && eligible(name, #[trigger] known[j])
            ==> !crate::certainty::frac_le(
            9,
            10,
            jaro_frac_spec(name, known[j]).0,
            jaro_frac_spec(name, known[j]).1,
        ),
    ensures
        strsim_resolve_spec(known, name) == Some((known[i0], jaro_frac_spec(name, known[i0]))),
{
    lemma_fuzzy_perfect(known, name, 0, i0, 0, 1, None);
}

/// The law of the good threshold: when no eligible show reaches 9/10, the
/// resolution is the single strictly-best match, and only if its
/// similarity reaches 7/10; the returned certainty is at or above every
/// eligible similarity, and the returned show is the first to attain it:
/// every eligible similarity before it is strictly below (a strict-greater
/// update keeps the earliest maximum, so ties go to the earlier show).
pub proof fn lemma_resolve_good(known: Seq<Seq<char>>, name: Seq<char>)
    requires
        !known.contains(name),
        forall|j: int| 0 <= j < known.len() && eligible(name, #[trigger] known[j])
            ==> !crate::certainty::frac_le(
            9,
            10,
            jaro_frac_spec(name, known[j]).0,
            jaro_frac_spec(name, known[j]).1,
        ),
    ensures
        strsim_resolve_spec(known, name) == ({
            let b = fuzzy_best(known, name, 0, 0, 1, None);
            match b.2 {
                None => None::<(Seq<char>, (int, int))>,
                Some(s) => if crate::certainty::frac_le(7, 10, b.0, b.1) {
                    Some((s, (b.0, b.1)))
                } else {
                    None
                },
            }
        }),
        strsim_resolve_spec(known, name) matches Some(r) ==> (exists|j: int|
            0 <= j < known.len() && eligible(name, #[trigger] known[j]) && r.0 == known[j] && r.1
                == jaro_frac_spec(name, known[j])) && (forall|j: int|
            0 <= j < known.len() && eligible(name, #[trigger] known[j])
                ==> crate::certainty::frac_le(
                jaro_frac_spec(name, known[j]).0,
                jaro_frac_spec(name, known[j]).1,
                r.1.0,
                r.1.1,
            )),
        strsim_resolve_spec(known, name) matches Some(r) ==> exists|j: int|
            0 <= j < known.len() && eligible(name, #[trigger] known[j]) && r.0 == known[j] && r.1
                == jaro_frac_spec(name, known[j]) && (forall|j2: int|
                0 <= j2 < j && eligible(name, #[trigger] known[j2])
                    ==> crate::certainty::frac_lt(
                    jaro_frac_spec(name, known[j2]).0,
                    jaro_frac_spec(name, known[j2]).1,
                    r.1.0,
                    r.1.1,
                )),
{
    lemma_fuzzy_below_perfect(known, name, 0, 0, 1, None);
    lemma_fuzzy_best_props(known, name, 0, 0, 1, None);
    let w = lemma_fuzzy_best_first(known, name, 0, 0, 1, None);
    let b = fuzzy_best(known, name, 0, 0, 1, None);
    if strsim_resolve_spec(known, name) is Some {
        assert(w >= 0);
        assert(0 <= w < known.len() && eligible(name, known[w]));
    }
}

/// The law below the good threshold: when every eligible similarity is
/// below 7/10, resolution of an unknown name yields nothing.
pub proof fn lemma_resolve_none(known: Seq<Seq<char>>, name: Seq<char>)
    requires
        !known.contains(name),
        forall|j: int| 0 <= j < known.len() && eligible(name, #[trigger] known[j])
            ==> !crate::certainty::frac_le(
            7,
            10,
            jaro_frac_spec(name, known[j]).0,
            jaro_frac_spec(name, known[j]).1,
        ),
    ensures
        strsim_resolve_spec(known, name) is None,
{
    assert forall|j: int| 0 <= j < known.len() && eligible(name, #[trigger] known[j]) implies
        !crate::certainty::frac_le(
        9,
        10,
        jaro_frac_spec(name, known[j]).0,
        jaro_frac_spec(name, known[j]).1,
    ) by {
        lemma_jaro_frac_wf(name, known[j]);
    }
    lemma_fuzzy_below_perfect(known, name, 0, 0, 1, None);
    lemma_fuzzy_best_props(known, name, 0, 0, 1, None);
    let b = fuzzy_best(known, name, 0, 0, 1, None);
    match b.2 {
        None => {},
        Some(s) => {
            assert(!crate::certainty::frac_le(7, 10, b.0, b.1));
        },
    }
}


/// For eligible strings, the score's denominator is positive and fits
/// comfortably in 64 bits, and so does the numerator.
pub proof fn lemma_jaro_frac_fits(a: Seq<char>, b: Seq<char>)
    requires
        eligible(a, b),
    ensures
        0 < jaro_frac_spec(a, b).1 <= 0x3000000000000000,
        0 <= jaro_frac_spec(a, b).0 <= jaro_frac_spec(a, b).1,
{
    lemma_jaro_frac_wf(a, b);
    let la = a.len() as int;
    let lb = b.len() as int;
    if la == 0 && lb == 0 {
    } else if la == 0 || lb == 0 {
    } else if la == 1 && lb == 1 {
    } else {
        let sr = (if la >= lb { la } else { lb }) / 2 - 1;
        let st = jaro_scan(a, b, sr, la);
        lemma_jaro_scan_wf(a, b, sr, la);
        if st.m > 0 {
            lemma_jaro_products_bounded(st.m, st.t, la, lb);
        }
    }
}

/// Every score the fuzzy scan can return fits in 64 bits, provided the
/// starting best does.
pub proof fn lemma_fuzzy_from_fits(
    known: Seq<Seq<char>>,
    name: Seq<char>,
    i: int,
    bn: int,
    bd: int,
    bm: Option<Seq<char>>,
)
    requires
        0 <= bn <= bd,
        0 < bd <= 0x3000000000000000,
    ensures
        fuzzy_from(known, name, i, bn, bd, bm) matches Some(u) ==> 0 <= u.1.0 <= u.1.1 && 0
            < u.1.1 <= 0x3000000000000000,
    decreases known.len() - i,
{
    if i < 0 || i >= known.len() {
    } else if !eligible(name, known[i]) {
        lemma_fuzzy_from_fits(known, name, i + 1, bn, bd, bm);
    } else {
        let f = jaro_frac_spec(name, known[i]);
        lemma_jaro_frac_fits(name, known[i]);
        if crate::certainty::frac_le(9, 10, f.0, f.1) {
        } else if crate::certainty::frac_lt(bn, bd, f.0, f.1) {
            lemma_fuzzy_from_fits(known, name, i + 1, f.0, f.1, Some(known[i]));
        } else {
            lemma_fuzzy_from_fits(known, name, i + 1, bn, bd, bm);
        }
    }
}

/// Every score that resolution can return fits in 64 bits.
pub proof fn lemma_strsim_result_fits(known: Seq<Seq<char>>, name: Seq<char>)
    ensures
        strsim_resolve_spec(known, name) matches Some(u) ==> 0 <= u.1.0 <= u.1.1 && 0 < u.1.1
            <= 0x3000000000000000,
{
    if !known.contains(name) {
        lemma_fuzzy_from_fits(known, name, 0, 0, 1, None);
    }
}

} // verus!
