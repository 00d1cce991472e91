//! The diff engine and the deterministic sync order: which locally
//! discovered episodes are missing remotely, and in what order they are
//! transferred.

use vstd::prelude::*;

use crate::episode::{ep_key, remote_filename_spec, Episode, EpisodeView};
use crate::inventory::RemoteInventory;
use crate::strsim::known_views;
use crate::text::{lemma_lex_le_total, lex_le, str_lex_le};

verus! {

/// The views of a list of episodes.
pub open spec fn ep_views(v: Seq<Episode>) -> Seq<EpisodeView> {
    v.map_values(|e: Episode| e@)
}

/// Whether an episode is kept for transfer: its show must already have an
/// inventory entry, and that entry must not already hold the episode's
/// canonical remote filename. A show absent from the inventory is
/// excluded outright, so brand-new remote show folders are never created
/// by a sync run.
pub open spec fn keep(e: EpisodeView, inv: Map<Seq<char>, Seq<Seq<char>>>) -> bool {
    inv.contains_key(e.show_name) && !inv[e.show_name].contains(
        remote_filename_spec(e.season_num, e.episode_num, e.ext),
    )
}

/// An episode whose computed remote filename already exists for its show
/// is excluded from the sync set.
pub proof fn lemma_diff_excludes_present(e: EpisodeView, inv: Map<Seq<char>, Seq<Seq<char>>>)
    requires
        inv.contains_key(e.show_name),
        inv[e.show_name].contains(remote_filename_spec(e.season_num, e.episode_num, e.ext)),
    ensures
        !keep(e, inv),
{
}

/// An episode whose show has no inventory entry at all is excluded, even
/// when no filename collides.
pub proof fn lemma_diff_excludes_unknown_show(e: EpisodeView, inv: Map<Seq<char>, Seq<Seq<char>>>)
    requires
        !inv.contains_key(e.show_name),
    ensures
        !keep(e, inv),
{
}

proof fn lemma_filter_one(s: Seq<EpisodeView>, pred: spec_fn(EpisodeView) -> bool, x: EpisodeView)
    ensures
        s.push(x).filter(pred) == if pred(x) {
            s.filter(pred).push(x)
        } else {
            s.filter(pred)
        },
{
    reveal(Seq::filter);
    assert(s.push(x).drop_last() =~= s);
    assert(s.push(x).last() == x);
    if pred(x) {
        assert(s.push(x).filter(pred) =~= s.filter(pred).push(x));
    }
}

/// Filter the local episodes down to those not already present remotely.
#[verifier::loop_isolation(false)]
pub fn diff_eps(local: Vec<Episode>, remote: &RemoteInventory) -> (r: Vec<Episode>)
    requires
        remote.wf(),
    ensures
        ep_views(r@) == ep_views(local@).filter(|e: EpisodeView| keep(e, remote.map_view())),
{
    let ghost pred = |e: EpisodeView| keep(e, remote.map_view());
    let mut r: Vec<Episode> = Vec::new();
    let mut i: usize = 0;
    proof {
        reveal(Seq::filter);
        assert(ep_views(local@).take(0) =~= Seq::<EpisodeView>::empty());
        assert(ep_views(r@) =~= ep_views(local@).take(0).filter(pred));
    }
    while i < local.len()
        invariant
            i <= local@.len(),
            ep_views(r@) == ep_views(local@).take(i as int).filter(pred),
        decreases local@.len() - i,
    {
        let ghost done = ep_views(r@);
        let ep = &local[i];
        let filename = ep.remote_filename();
        let kept = remote.contains_show(&ep.show_name) && !remote.has_episode(
            &ep.show_name,
            &filename,
        );
        proof {
            assert(kept == pred(local@[i as int]@));
        }
        if kept {
            r.push(ep.clone());
        }
        i = i + 1;
        proof {
            lemma_filter_one(ep_views(local@).take(i as int - 1), pred, local@[i as int - 1]@);
            assert(ep_views(local@).take(i as int) =~= ep_views(local@).take(i as int - 1).push(
                local@[i as int - 1]@,
            ));
            if kept {
                assert(ep_views(r@) =~= done.push(local@[i as int - 1]@));
            }
        }
    }
    proof {
        assert(ep_views(local@).take(local@.len() as int) =~= ep_views(local@));
    }
    r
}

/// The deterministic ordering of the sync set: lexicographic over
/// (show name, season, episode, extension); local path and certainty take
/// no part.
pub open spec fn ep_le(a: EpisodeView, b: EpisodeView) -> bool {
    if a.show_name != b.show_name {
        lex_le(a.show_name, b.show_name)
    } else if a.season_num != b.season_num {
        a.season_num <= b.season_num
    } else if a.episode_num != b.episode_num {
        a.episode_num <= b.episode_num
    } else {
        lex_le(a.ext, b.ext)
    }
}

/// The sync-set order is total.
pub proof fn lemma_ep_le_total(a: EpisodeView, b: EpisodeView)
    ensures
        ep_le(a, b) || ep_le(b, a),
{
    lemma_lex_le_total(a.show_name, b.show_name);
    lemma_lex_le_total(a.ext, b.ext);
}

proof fn lemma_lex_le_antisym(a: Seq<char>, b: Seq<char>)
    requires
        lex_le(a, b),
        lex_le(b, a),
    ensures
        a == b,
    decreases a.len(),
{
    if a.len() > 0 && b.len() > 0 && a[0] == b[0] {
        lemma_lex_le_antisym(a.skip(1), b.skip(1));
        assert(seq![a[0]] + a.skip(1) =~= a);
        assert(seq![b[0]] + b.skip(1) =~= b);
    } else if a.len() == 0 {
        assert(b.len() == 0);
        assert(a =~= b);
    }
}

proof fn lemma_lex_le_trans(a: Seq<char>, b: Seq<char>, c: Seq<char>)
    requires
        lex_le(a, b),
        lex_le(b, c),
    ensures
        lex_le(a, c),
    decreases a.len(),
{
    if a.len() > 0 && b.len() > 0 && c.len() > 0 && a[0] == b[0] && b[0] == c[0] {
        lemma_lex_le_trans(a.skip(1), b.skip(1), c.skip(1));
    }
}

/// The sync-set order is transitive.
pub proof fn lemma_ep_le_trans(a: EpisodeView, b: EpisodeView, c: EpisodeView)
    ensures
        ep_le(a, b) && ep_le(b, c) ==> ep_le(a, c),
{
    if ep_le(a, b) && ep_le(b, c) {
        if a.show_name != b.show_name || b.show_name != c.show_name {
            if a.show_name == b.show_name {
            } else if b.show_name == c.show_name {
            } else {
                lemma_lex_le_trans(a.show_name, b.show_name, c.show_name);
                if a.show_name == c.show_name {
                    lemma_lex_le_antisym(a.show_name, b.show_name);
                }
            }
        } else {
            if a.season_num == b.season_num && a.episode_num == b.episode_num && b.season_num
                == c.season_num && b.episode_num == c.episode_num {
                lemma_lex_le_trans(a.ext, b.ext, c.ext);
                if a.ext == c.ext {
                    lemma_lex_le_antisym(a.ext, b.ext);
                }
            }
        }
    }
}

/// Pairwise sortedness in the sync-set order.
pub open spec fn sorted_eps(s: Seq<EpisodeView>) -> bool {
    forall|i: int, j: int| 0 <= i < j < s.len() ==> ep_le(#[trigger] s[i], #[trigger] s[j])
}

/// Whether `a` comes at or before `b` in the sync order.
pub fn ep_le_x(a: &Episode, b: &Episode) -> (r: bool)
    ensures
        r == ep_le(a@, b@),
{
    if !a.show_name.eq(&b.show_name) {
        str_lex_le(a.show_name.as_str(), b.show_name.as_str())
    } else if a.season_num != b.season_num {
        a.season_num <= b.season_num
    } else if a.episode_num != b.episode_num {
        a.episode_num <= b.episode_num
    } else {
        str_lex_le(a.ext.as_str(), b.ext.as_str())
    }
}

/// Sort episodes into the deterministic sync order. The result holds the
/// same episodes (as a multiset of values) in sorted order.
#[verifier::loop_isolation(false)]
pub fn sort_eps(v: Vec<Episode>) -> (r: Vec<Episode>)
    ensures
        sorted_eps(ep_views(r@)),
        ep_views(r@).to_multiset() == ep_views(v@).to_multiset(),
{
    broadcast use vstd::seq_lib::group_to_multiset_ensures;

    let mut r: Vec<Episode> = Vec::new();
    let mut i: usize = 0;
    proof {
        assert(ep_views(v@).take(0) =~= Seq::<EpisodeView>::empty());
        assert(ep_views(r@) =~= Seq::<EpisodeView>::empty());
    }
    while i < v.len()
        invariant
            i <= v@.len(),
            sorted_eps(ep_views(r@)),
            ep_views(r@).to_multiset() == ep_views(v@).take(i as int).to_multiset(),
        decreases v@.len() - i,
    {
        let ghost old_r = ep_views(r@);
        let x = v[i].clone();
        let ghost xv = v@[i as int]@;
        proof {
            assert(x@ == xv);
        }
        // Find the first position whose element is at or after x.
        let mut p: usize = 0;
        while p < r.len() && ep_le_x(&r[p], &x)
            invariant
                p <= r@.len(),
                forall|j: int| 0 <= j < p ==> ep_le(#[trigger] ep_views(r@)[j], xv),
            decreases r@.len() - p,
        {
            p = p + 1;
        }
        proof {
            if p < r@.len() {
                assert(!ep_le(ep_views(r@)[p as int], xv));
                lemma_ep_le_total(ep_views(r@)[p as int], xv);
            }
        }
        r.insert(p, x);
        i = i + 1;
        proof {
            assert(ep_views(r@) =~= old_r.insert(p as int, xv));
            assert forall|a: int, b: int| 0 <= a < b < ep_views(r@).len() implies ep_le(
                #[trigger] ep_views(r@)[a],
                #[trigger] ep_views(r@)[b],
            ) by {
                let s = ep_views(r@);
                if a == p {
                    // x against a later element: x <= old_r[p] <= old_r[b-1]
                    if b > p {
                        assert(s[b] == old_r[b - 1]);
                        if b - 1 == p {
                        } else {
                            lemma_ep_le_trans(xv, old_r[p as int], old_r[b - 1]);
                        }
                    }
                } else if b == p {
                    assert(s[a] == old_r[a]);
                } else if a < p && b < p {
                    assert(s[a] == old_r[a] && s[b] == old_r[b]);
                } else if a < p && b > p {
                    assert(s[a] == old_r[a] && s[b] == old_r[b - 1]);
                    if b - 1 == a {
                    } else if a < p && p <= b - 1 && b - 1 < old_r.len() {
                        assert(ep_le(old_r[a], old_r[b - 1]));
                    }
                } else {
                    assert(s[a] == old_r[a - 1] && s[b] == old_r[b - 1]);
                }
            }
            assert(ep_views(v@).take(i as int) =~= ep_views(v@).take(i as int - 1).push(xv));
            assert(ep_views(v@).take(i as int).to_multiset() =~= ep_views(v@).take(
                i as int - 1,
            ).to_multiset().insert(xv));
        }
    }
    proof {
        assert(ep_views(v@).take(v@.len() as int) =~= ep_views(v@));
    }
    r
}

/// The sync set: the local episodes missing remotely, in deterministic
/// sorted order.
pub fn build_sync_set(local: Vec<Episode>, remote: &RemoteInventory) -> (r: Vec<Episode>)
    requires
        remote.wf(),
    ensures
        sorted_eps(ep_views(r@)),
        ep_views(r@).to_multiset() == ep_views(local@).filter(
            |e: EpisodeView| keep(e, remote.map_view()),
        ).to_multiset(),
{
    let d = diff_eps(local, remote);
    sort_eps(d)
}

/// The distinct show names of the episodes, in order of first appearance:
/// the shows whose remote listings a run must fetch.
pub open spec fn first_shows(eps: Seq<EpisodeView>) -> Seq<Seq<char>>
    decreases eps.len(),
{
    if eps.len() == 0 {
        Seq::empty()
    } else {
        let p = first_shows(eps.drop_last());
        if p.contains(eps.last().show_name) {
            p
        } else {
            p.push(eps.last().show_name)
        }
    }
}

/// The show names whose remote listings must be fetched: each distinct
/// show once, in order of first appearance.
#[verifier::loop_isolation(false)]
pub fn shows_to_query(local: &Vec<Episode>) -> (r: Vec<String>)
    ensures
        known_views(r@) == first_shows(ep_views(local@)),
{
    let mut r: Vec<String> = Vec::new();
    let mut i: usize = 0;
    proof {
        assert(ep_views(local@).take(0) =~= Seq::<EpisodeView>::empty());
        assert(known_views(r@) =~= first_shows(ep_views(local@).take(0)));
    }
    while i < local.len()
        invariant
            i <= local@.len(),
            known_views(r@) == first_shows(ep_views(local@).take(i as int)),
        decreases local@.len() - i,
    {
        let ghost done = known_views(r@);
        let show = &local[i].show_name;
        let mut seen = false;
        let mut k: usize = 0;
        while k < r.len()
            invariant
                k <= r@.len(),
                seen == exists|j: int| 0 <= j < k && (#[trigger] r@[j])@ == show@,
            decreases r@.len() - k,
        {
            if r[k].eq(show) {
                seen = true;
                proof {
                    assert((r@[k as int])@ == show@);
                }
            }
            k = k + 1;
        }
        proof {
            if seen {
                let w = choose|j: int| 0 <= j < r@.len() && (#[trigger] r@[j])@ == show@;
                assert(known_views(r@)[w] == show@);
                assert(done.contains(show@));
            }
            if done.contains(show@) {
                let w = choose|j: int| 0 <= j < done.len() && done[j] == show@;
                assert((r@[w])@ == show@);
                assert(seen);
            }
        }
        if !seen {
            r.push(show.clone());
        }
        i = i + 1;
        proof {
            let pre = ep_views(local@).take(i as int - 1);
            let cur = ep_views(local@).take(i as int);
            assert(cur.drop_last() =~= pre);
            assert(cur.last() == local@[i as int - 1]@);
            if seen {
                assert(known_views(r@) =~= first_shows(cur));
            } else {
                assert(known_views(r@) =~= done.push(show@));
            }
        }
    }
    proof {
        assert(ep_views(local@).take(local@.len() as int) =~= ep_views(local@));
    }
    r
}

} // verus!
