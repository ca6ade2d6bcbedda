//! A small association map keyed by peer address.
//!
//! The peer book, the ping and handshake registries and the connection
//! table all map addresses to a record. This map keeps its entries in a
//! vector with pairwise distinct keys and presents itself in contracts
//! as a mathematical `Map` from address images to records.

use vstd::prelude::*;
use crate::addr::{PeerAddress, AddrV, wf_addr};

verus! {

/// Whether some entry of `s` has key image `a`.
pub open spec fn has_entry<V>(s: Seq<(AddrV, V)>, a: AddrV) -> bool {
    exists|i: int| 0 <= i < s.len() && s[i].0 == a
}

/// The index of the entry with key image `a`.
pub open spec fn entry_index<V>(s: Seq<(AddrV, V)>, a: AddrV) -> int {
    choose|i: int| 0 <= i < s.len() && s[i].0 == a
}

/// The map read off an entry sequence.
pub open spec fn entries_map<V>(s: Seq<(AddrV, V)>) -> Map<AddrV, V> {
    Map::new(|a: AddrV| has_entry(s, a), |a: AddrV| s[entry_index(s, a)].1)
}

/// Pairwise distinct keys.
pub open spec fn distinct_keys<V>(s: Seq<(AddrV, V)>) -> bool {
    forall|i: int, j: int| 0 <= i < j < s.len() ==> (#[trigger] s[i].0) != (#[trigger] s[j].0)
}

/// With distinct keys, any index whose key is `a` is the looked-up one.
proof fn lemma_index_unique<V>(s: Seq<(AddrV, V)>, a: AddrV, i: int)
    requires
        distinct_keys(s),
        0 <= i < s.len(),
        s[i].0 == a,
    ensures
        has_entry(s, a),
        entry_index(s, a) == i,
        entries_map(s)[a] == s[i].1,
{
    assert(has_entry(s, a));
    let j = entry_index(s, a);
    assert(0 <= j < s.len() && s[j].0 == a);
    if i < j {
        assert(s[i].0 != s[j].0);
    } else if j < i {
        assert(s[j].0 != s[i].0);
    }
}

/// Removing entry `j` removes exactly its key from the map.
proof fn lemma_map_remove<V>(s: Seq<(AddrV, V)>, j: int)
    requires
        distinct_keys(s),
        0 <= j < s.len(),
    ensures
        distinct_keys(s.remove(j)),
        entries_map(s.remove(j)) == entries_map(s).remove(s[j].0),
{
    let t = s.remove(j);
    assert(forall|i: int| 0 <= i < j ==> t[i] == s[i]);
    assert(forall|i: int| j <= i < t.len() ==> t[i] == s[i + 1]);
    assert(distinct_keys(t)) by {
        assert forall|x: int, y: int| 0 <= x < y < t.len() implies (#[trigger] t[x].0) != (
        #[trigger] t[y].0) by {
            let sx = if x < j { x } else { x + 1 };
            let sy = if y < j { y } else { y + 1 };
            assert(t[x] == s[sx] && t[y] == s[sy]);
            assert(s[sx].0 != s[sy].0);
        }
    }
    assert forall|k: AddrV| #[trigger] has_entry(t, k) == (has_entry(s, k) && k != s[j].0) by {
        if has_entry(t, k) {
            let i = entry_index(t, k);
            assert(0 <= i < t.len() && t[i].0 == k);
            let si = if i < j { i } else { i + 1 };
            assert(s[si] == t[i]);
            lemma_index_unique(s, k, si);
            assert(k != s[j].0);
        }
        if has_entry(s, k) && k != s[j].0 {
            let i = entry_index(s, k);
            assert(0 <= i < s.len() && s[i].0 == k);
            assert(i != j);
            let ti = if i < j { i } else { i - 1 };
            assert(t[ti] == s[i]);
            assert(has_entry(t, k));
        }
    }
    assert forall|k: AddrV| has_entry(t, k) implies #[trigger] entries_map(t)[k]
        == entries_map(s)[k] by {
        let i = entry_index(t, k);
        assert(0 <= i < t.len() && t[i].0 == k);
        let si = if i < j { i } else { i + 1 };
        assert(s[si] == t[i]);
        lemma_index_unique(s, k, si);
        lemma_index_unique(t, k, i);
    }
    assert(entries_map(t).dom() =~= entries_map(s).remove(s[j].0).dom());
    assert(entries_map(t) =~= entries_map(s).remove(s[j].0));
}

/// Appending a fresh key inserts exactly that binding.
proof fn lemma_map_push<V>(s: Seq<(AddrV, V)>, a: AddrV, v: V)
    requires
        distinct_keys(s),
        !has_entry(s, a),
    ensures
        distinct_keys(s.push((a, v))),
        entries_map(s.push((a, v))) == entries_map(s).insert(a, v),
{
    let t = s.push((a, v));
    assert(forall|i: int| 0 <= i < s.len() ==> t[i] == s[i]);
    assert(t[t.len() - 1] == (a, v));
    assert(distinct_keys(t)) by {
        assert forall|x: int, y: int| 0 <= x < y < t.len() implies (#[trigger] t[x].0) != (
        #[trigger] t[y].0) by {
            if y < t.len() - 1 {
                assert(s[x].0 != s[y].0);
            } else {
                assert(t[y].0 == a);
                assert(t[x] == s[x]);
                if t[x].0 == a {
                    assert(has_entry(s, a));
                }
            }
        }
    }
    assert forall|k: AddrV| #[trigger] has_entry(t, k) == (has_entry(s, k) || k == a) by {
        if k == a {
            lemma_index_unique(t, k, t.len() - 1);
        } else {
            if has_entry(s, k) {
                let i = entry_index(s, k);
                assert(0 <= i < s.len() && s[i].0 == k);
                assert(t[i] == s[i]);
                assert(has_entry(t, k));
            }
            if has_entry(t, k) {
                let i = entry_index(t, k);
                assert(0 <= i < t.len() && t[i].0 == k);
                assert(i != t.len() - 1);
                assert(s[i] == t[i]);
                assert(has_entry(s, k));
            }
        }
    }
    assert forall|k: AddrV| has_entry(t, k) implies #[trigger] entries_map(t)[k] == (if k == a {
        v
    } else {
        entries_map(s)[k]
    }) by {
        if k == a {
            lemma_index_unique(t, k, t.len() - 1);
        } else {
            let i = entry_index(t, k);
            assert(0 <= i < t.len() && t[i].0 == k);
            assert(i != t.len() - 1);
            assert(s[i] == t[i]);
            lemma_index_unique(s, k, i);
            lemma_index_unique(t, k, i);
        }
    }
    assert(entries_map(t).dom() =~= entries_map(s).insert(a, v).dom());
    assert(entries_map(t) =~= entries_map(s).insert(a, v));
}

/// Every entry of a distinct-keyed sequence is in its map, with its
/// own record.
pub proof fn lemma_entry_present<V>(s: Seq<(AddrV, V)>, j: int)
    requires
        distinct_keys(s),
        0 <= j < s.len(),
    ensures
        entries_map(s).dom().contains(s[j].0),
        entries_map(s)[s[j].0] == s[j].1,
{
    lemma_index_unique(s, s[j].0, j);
}

/// An association map from peer addresses to copyable records.
pub struct AddrMap<V> {
    pub entries: Vec<(PeerAddress, V)>,
}

impl<V: Copy> View for AddrMap<V> {
    type V = Map<AddrV, V>;

    open spec fn view(&self) -> Map<AddrV, V> {
        entries_map(self.seq_view())
    }
}

impl<V: Copy> AddrMap<V> {
    /// The entry sequence, with addresses taken to their images.
    pub open spec fn seq_view(&self) -> Seq<(AddrV, V)> {
        self.entries@.map_values(|p: (PeerAddress, V)| (p.0@, p.1))
    }

    /// Keys are distinct and well formed.
    pub open spec fn wf(&self) -> bool {
        &&& distinct_keys(self.seq_view())
        &&& forall|k: int| 0 <= k < self.seq_view().len() ==> wf_addr(
            (#[trigger] self.seq_view()[k]).0)
    }

    /// The number of entries.
    pub open spec fn spec_len(&self) -> nat {
        self.entries@.len()
    }

    pub fn new() -> (r: AddrMap<V>)
        ensures
            r.wf(),
            r@ == Map::<AddrV, V>::empty(),
            r.spec_len() == 0,
    {
        let r = AddrMap { entries: Vec::new() };
        proof {
            assert(r@ =~= Map::<AddrV, V>::empty());
        }
        r
    }

    pub fn len(&self) -> (r: usize)
        ensures
            r == self.spec_len(),
    {
        self.entries.len()
    }

    /// Whether the map holds an entry for `a`.
    pub fn has(&self, a: &PeerAddress) -> (r: bool)
        ensures
            r == self@.contains_key(a@),
    {
        let ghost s = self.seq_view();
        let n = self.entries.len();
        let mut j: usize = 0;
        while j < n
            invariant
                j <= n,
                n == self.entries@.len(),
                s == self.seq_view(),
                forall|k: int| 0 <= k < j ==> (#[trigger] s[k]).0 != a@,
            decreases n - j,
        {
            if self.entries[j].0.same(a) {
                proof {
                    assert(s[j as int].0 == a@);
                    assert(has_entry(s, a@));
                }
                return true;
            }
            j = j + 1;
        }
        proof {
            assert(!has_entry(s, a@));
        }
        false
    }

    /// The record stored for `a`, if any.
    pub fn lookup(&self, a: &PeerAddress) -> (r: Option<V>)
        requires
            self.wf(),
        ensures
            match r {
                Some(v) => self@.contains_key(a@) && self@[a@] == v,
                None => !self@.contains_key(a@),
            },
    {
        let ghost s = self.seq_view();
        let n = self.entries.len();
        let mut j: usize = 0;
        while j < n
            invariant
                j <= n,
                n == self.entries@.len(),
                s == self.seq_view(),
                distinct_keys(s),
                forall|k: int| 0 <= k < j ==> (#[trigger] s[k]).0 != a@,
            decreases n - j,
        {
            if self.entries[j].0.same(a) {
                let v = self.entries[j].1;
                proof {
                    assert(s[j as int] == (self.entries@[j as int].0@, self.entries@[j as int].1));
                    lemma_index_unique(s, a@, j as int);
                }
                return Some(v);
            }
            j = j + 1;
        }
        proof {
            assert(!has_entry(s, a@));
        }
        None
    }

    /// An entry-for-entry copy of this map.
    pub fn duplicate(&self) -> (r: AddrMap<V>)
        ensures
            r.seq_view() == self.seq_view(),
            r@ == self@,
            r.spec_len() == self.spec_len(),
    {
        let n = self.entries.len();
        let mut entries: Vec<(PeerAddress, V)> = Vec::new();
        let mut j: usize = 0;
        while j < n
            invariant
                j <= n,
                n == self.entries@.len(),
                entries@.len() == j,
                forall|k: int| 0 <= k < j ==> (#[trigger] entries@[k].0)@
                    == self.entries@[k].0@ && entries@[k].1 == self.entries@[k].1,
            decreases n - j,
        {
            let dup = self.entries[j].0.duplicate();
            let v = self.entries[j].1;
            entries.push((dup, v));
            j = j + 1;
        }
        let r = AddrMap { entries };
        proof {
            assert(r.seq_view() =~= self.seq_view());
        }
        r
    }

    /// Removes the entry for `a`, returning its record.
    pub fn take_out(&mut self, a: &PeerAddress) -> (r: Option<V>)
        requires
            old(self).wf(),
        ensures
            final(self).wf(),
            final(self)@ == old(self)@.remove(a@),
            !final(self)@.contains_key(a@),
            match r {
                Some(v) => old(self)@.contains_key(a@) && old(self)@[a@] == v
                    && final(self).spec_len() == old(self).spec_len() - 1,
                None => !old(self)@.contains_key(a@) && *final(self) == *old(self),
            },
    {
        let ghost s0 = self.seq_view();
        let n = self.entries.len();
        let mut j: usize = 0;
        while j < n
            invariant
                j <= n,
                n == self.entries@.len(),
                s0 == self.seq_view(),
                old(self).wf(),
                *self == *old(self),
                s0 == old(self).seq_view(),
                forall|k: int| 0 <= k < j ==> (#[trigger] s0[k]).0 != a@,
            decreases n - j,
        {
            if self.entries[j].0.same(a) {
                let v = self.entries[j].1;
                proof {
                    assert(s0[j as int] == (self.entries@[j as int].0@, self.entries@[j as int].1));
                    lemma_index_unique(s0, a@, j as int);
                }
                let _ = self.entries.remove(j);
                proof {
                    let s1 = self.seq_view();
                    assert(s1 =~= s0.remove(j as int));
                    lemma_map_remove(s0, j as int);
                    assert(!has_entry(s1, a@));
                    assert(forall|k: int| 0 <= k < s1.len() ==> s1[k]
                        == s0.remove(j as int)[k]);
                    assert(self.wf()) by {
                        assert forall|k: int| 0 <= k < s1.len() implies wf_addr(
                            (#[trigger] s1[k]).0) by {
                            let si = if k < j { k } else { k + 1 };
                            assert(s1[k] == s0[si]);
                        }
                    }
                }
                return Some(v);
            }
            j = j + 1;
        }
        proof {
            assert(!has_entry(s0, a@));
            assert(self@ =~= old(self)@.remove(a@));
        }
        None
    }

    /// Stores `v` for `a`, replacing any earlier record.
    pub fn put(&mut self, a: &PeerAddress, v: V)
        requires
            old(self).wf(),
            a.wf(),
        ensures
            final(self).wf(),
            final(self)@ == old(self)@.insert(a@, v),
            final(self).spec_len() == old(self).spec_len() + (if old(self)@.contains_key(a@) {
                0int
            } else {
                1int
            }),
    {
        let ghost had = self@.contains_key(a@);
        self.take_out(a);
        let ghost s1 = self.seq_view();
        let dup = a.duplicate();
        self.entries.push((dup, v));
        proof {
            let s2 = self.seq_view();
            assert(s2 =~= s1.push((a@, v)));
            lemma_map_push(s1, a@, v);
            assert(self@ =~= old(self)@.insert(a@, v)) by {
                assert(self@ == old(self)@.remove(a@).insert(a@, v));
                assert(old(self)@.remove(a@).insert(a@, v) =~= old(self)@.insert(a@, v));
            }
            assert(self.wf()) by {
                assert forall|k: int| 0 <= k < s2.len() implies wf_addr((#[trigger] s2[k]).0) by {
                    if k < s2.len() - 1 {
                        assert(s2[k] == s1[k]);
                    } else {
                        assert(s2[k].0 == a@);
                    }
                }
            }
        }
    }
}

} // verus!
