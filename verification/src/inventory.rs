//! The remote inventory: which episode filenames each canonical show
//! already has on the remote side. Keys are unique; no order is promised.

use vstd::prelude::*;

use crate::strsim::known_views;

verus! {

/// The mapping an association list stands for: later entries win, but
/// well-formed inventories have unique keys.
pub open spec fn inv_map(entries: Seq<(String, Vec<String>)>) -> Map<Seq<char>, Seq<Seq<char>>>
    decreases entries.len(),
{
    if entries.len() == 0 {
        Map::empty()
    } else {
        inv_map(entries.drop_last()).insert(
            entries.last().0@,
            known_views(entries.last().1@),
        )
    }
}

/// A mapping from canonical show name to the episode filenames already
/// present remotely for it.
pub struct RemoteInventory {
    pub entries: Vec<(String, Vec<String>)>,
}

impl RemoteInventory {
    /// Well-formed: show names occur at most once.
    pub open spec fn wf(self) -> bool {
        forall|i: int, j: int|
            0 <= i < j < self.entries@.len() ==> (#[trigger] self.entries@[i]).0@ != (
            #[trigger] self.entries@[j]).0@
    }

    /// The mapping this inventory stands for.
    pub open spec fn map_view(self) -> Map<Seq<char>, Seq<Seq<char>>> {
        inv_map(self.entries@)
    }

    /// An empty inventory.
    pub fn new() -> (r: RemoteInventory)
        ensures
            r.wf(),
            r.map_view() == Map::<Seq<char>, Seq<Seq<char>>>::empty(),
    {
        RemoteInventory { entries: Vec::new() }
    }

    /// Whether the inventory has an entry for the show.
    #[verifier::loop_isolation(false)]
    pub fn contains_show(&self, show: &String) -> (r: bool)
        requires
            self.wf(),
        ensures
            r == self.map_view().contains_key(show@),
    {
        proof {
            lemma_inv_map_keys(self.entries@);
        }
        let mut i: usize = 0;
        while i < self.entries.len()
            invariant
                i <= self.entries@.len(),
                forall|j: int| 0 <= j < i ==> (#[trigger] self.entries@[j]).0@ != show@,
            decreases self.entries@.len() - i,
        {
            if self.entries[i].0.eq(show) {
                proof {
                    assert((self.entries@[i as int]).0@ == show@);
                }
                return true;
            }
            i = i + 1;
        }
        proof {
            if self.map_view().contains_key(show@) {
                let w = choose|w: int|
                    0 <= w < self.entries@.len() && (#[trigger] self.entries@[w]).0@ == show@;
            }
        }
        false
    }

    /// Add a show's remote filenames; the show must be new.
    pub fn insert(&mut self, show: String, eps: Vec<String>)
        requires
            old(self).wf(),
            !old(self).map_view().contains_key(show@),
        ensures
            final(self).wf(),
            final(self).map_view() == old(self).map_view().insert(show@, known_views(eps@)),
    {
        proof {
            lemma_inv_map_keys(self.entries@);
        }
        let ghost old_entries = self.entries@;
        self.entries.push((show, eps));
        proof {
            assert(self.entries@.drop_last() =~= old_entries);
            assert forall|i: int, j: int| 0 <= i < j < self.entries@.len() implies (
            #[trigger] self.entries@[i]).0@ != (#[trigger] self.entries@[j]).0@ by {
                if j == self.entries@.len() - 1 {
                    assert(old_entries[i] == self.entries@[i]);
                }
            }
        }
    }

    /// Whether the show has an entry and that entry already holds the
    /// filename.
    #[verifier::loop_isolation(false)]
    pub fn has_episode(&self, show: &String, filename: &String) -> (r: bool)
        requires
            self.wf(),
        ensures
            r == (self.map_view().contains_key(show@) && self.map_view()[show@].contains(
                filename@,
            )),
    {
        proof {
            lemma_inv_map_keys(self.entries@);
        }
        let mut i: usize = 0;
        while i < self.entries.len()
            invariant
                i <= self.entries@.len(),
                forall|j: int| 0 <= j < i ==> (#[trigger] self.entries@[j]).0@ != show@,
            decreases self.entries@.len() - i,
        {
            if self.entries[i].0.eq(show) {
                proof {
                    assert((self.entries@[i as int]).0@ == show@);
                    assert(self.map_view().contains_key(show@));
                    assert(self.map_view()[show@] == known_views(self.entries@[i as int].1@));
                }
                let eps = &self.entries[i].1;
                let mut k: usize = 0;
                while k < eps.len()
                    invariant
                        k <= eps@.len(),
                        known_views(eps@) == self.map_view()[show@],
                        forall|j: int| 0 <= j < k ==> (#[trigger] eps@[j])@ != filename@,
                    decreases eps@.len() - k,
                {
                    if eps[k].eq(filename) {
                        proof {
                            assert(known_views(eps@)[k as int] == filename@);
                            assert(self.map_view()[show@].contains(filename@));
                        }
                        return true;
                    }
                    k = k + 1;
                }
                proof {
                    if self.map_view()[show@].contains(filename@) {
                        let w = choose|w: int|
                            0 <= w < known_views(eps@).len() && known_views(eps@)[w] == filename@;
                        assert((eps@[w])@ == filename@);
                    }
                }
                return false;
            }
            i = i + 1;
        }
        proof {
            if self.map_view().contains_key(show@) {
                let w = choose|w: int|
                    0 <= w < self.entries@.len() && (#[trigger] self.entries@[w]).0@ == show@;
            }
        }
        false
    }
}

/// What the mapping of a unique-key association list holds: exactly the
/// listed keys, each at its listed filenames.
pub proof fn lemma_inv_map_keys(entries: Seq<(String, Vec<String>)>)
    requires
        forall|i: int, j: int|
            0 <= i < j < entries.len() ==> (#[trigger] entries[i]).0@ != (#[trigger] entries[j]).0@,
    ensures
        forall|k: Seq<char>|
            inv_map(entries).contains_key(k) <==> exists|i: int|
                0 <= i < entries.len() && (#[trigger] entries[i]).0@ == k,
        forall|i: int|
            0 <= i < entries.len() ==> inv_map(entries)[(#[trigger] entries[i]).0@] == known_views(
                entries[i].1@,
            ),
    decreases entries.len(),
{
    if entries.len() > 0 {
        let prefix = entries.drop_last();
        lemma_inv_map_keys(prefix);
        assert(forall|x: int| 0 <= x < prefix.len() ==> #[trigger] prefix[x] == entries[x]);
        assert forall|k: Seq<char>|
            inv_map(entries).contains_key(k) <==> exists|i: int|
                0 <= i < entries.len() && (#[trigger] entries[i]).0@ == k by {
            if inv_map(entries).contains_key(k) {
                if k == entries.last().0@ {
                    assert((entries[entries.len() - 1]).0@ == k);
                } else {
                    assert(inv_map(prefix).contains_key(k));
                    assert(exists|i: int|
                        0 <= i < prefix.len() && (#[trigger] prefix[i]).0@ == k);
                    let w = choose|w: int|
                        0 <= w < prefix.len() && (#[trigger] prefix[w]).0@ == k;
                    assert(prefix[w] == entries[w]);
                    assert((entries[w]).0@ == k);
                }
            }
            if exists|i: int| 0 <= i < entries.len() && (#[trigger] entries[i]).0@ == k {
                let w = choose|w: int| 0 <= w < entries.len() && (#[trigger] entries[w]).0@ == k;
                if w < entries.len() - 1 {
                    assert((prefix[w]).0@ == k);
                    assert(exists|i: int|
                        0 <= i < prefix.len() && (#[trigger] prefix[i]).0@ == k);
                    assert(inv_map(prefix).contains_key(k));
                }
            }
        }
        assert forall|i: int| 0 <= i < entries.len() implies inv_map(entries)[(
        #[trigger] entries[i]).0@] == known_views(entries[i].1@) by {
            if i < entries.len() - 1 {
                assert((prefix[i]).0@ == entries[i].0@);
                assert(entries[i].0@ != entries.last().0@);
            }
        }
    }
}

} // verus!
