//! The store: a mapping from key to value that keeps insertion order, so
//! that position-based selection (`Number` and `Range` expressions) is
//! deterministic. Keys are unique; an update overwrites a key's value in
//! place without moving it.

use vstd::prelude::*;
use crate::text::str_eq;

verus! {

/// One key-value pair as the store's view sees it.
pub type EntryView = (Seq<char>, Seq<char>);

/// No two entries share a key.
pub open spec fn spec_keys_unique(s: Seq<EntryView>) -> bool {
    forall|i: int, j: int| 0 <= i < j < s.len() ==> (#[trigger] s[i]).0 != (#[trigger] s[j]).0
}

/// The index of the first entry with key `k`, if any.
pub open spec fn spec_find_key(s: Seq<EntryView>, k: Seq<char>) -> Option<int>
    decreases s.len(),
{
    if s.len() == 0 {
        None
    } else if s[0].0 == k {
        Some(0)
    } else {
        match spec_find_key(s.drop_first(), k) {
            Some(i) => Some(i + 1),
            None => None,
        }
    }
}

pub open spec fn spec_has_key(s: Seq<EntryView>, k: Seq<char>) -> bool {
    spec_find_key(s, k) is Some
}

/// The value stored under `k`, if any.
pub open spec fn spec_get(s: Seq<EntryView>, k: Seq<char>) -> Option<Seq<char>> {
    match spec_find_key(s, k) {
        Some(i) => Some(s[i].1),
        None => None,
    }
}

/// The store after writing `v` under `k`: overwritten in place when the key
/// exists, appended at the end when it does not.
pub open spec fn spec_upsert(s: Seq<EntryView>, k: Seq<char>, v: Seq<char>) -> Seq<EntryView> {
    match spec_find_key(s, k) {
        Some(i) => s.update(i, (k, v)),
        None => s.push((k, v)),
    }
}

/// The entries at positions `[lo, lo + count)` of iteration order, clamped
/// to the store's length.
pub open spec fn spec_window(s: Seq<EntryView>, lo: int, count: int) -> Seq<EntryView> {
    let a = if lo < s.len() { lo } else { s.len() as int };
    let b = if lo + count < s.len() { lo + count } else { s.len() as int };
    if a <= b {
        s.subrange(a, b)
    } else {
        Seq::empty()
    }
}

/// The store with the window `[lo, lo + count)` excised.
pub open spec fn spec_excise(s: Seq<EntryView>, lo: int, count: int) -> Seq<EntryView> {
    let a = if lo < s.len() { lo } else { s.len() as int };
    let b = if lo + count < s.len() { lo + count } else { s.len() as int };
    if a <= b {
        s.take(a) + s.skip(b)
    } else {
        s
    }
}

/// Where `spec_find_key` points when a scan has found `k` at `i` first.
pub proof fn lemma_find_key_at(s: Seq<EntryView>, k: Seq<char>, i: int)
    requires
        0 <= i < s.len(),
        s[i].0 == k,
        forall|j: int| 0 <= j < i ==> (#[trigger] s[j]).0 != k,
    ensures
        spec_find_key(s, k) == Some(i),
    decreases i,
{
    if i == 0 {
    } else {
        lemma_find_key_at(s.drop_first(), k, i - 1);
    }
}

/// A scan that saw every key establishes absence.
pub proof fn lemma_find_key_none(s: Seq<EntryView>, k: Seq<char>)
    requires
        forall|j: int| 0 <= j < s.len() ==> (#[trigger] s[j]).0 != k,
    ensures
        spec_find_key(s, k) is None,
    decreases s.len(),
{
    if s.len() > 0 {
        lemma_find_key_none(s.drop_first(), k);
    }
}

/// What a found index means: the key is there and nowhere earlier.
pub proof fn lemma_find_key_sound(s: Seq<EntryView>, k: Seq<char>)
    ensures
        match spec_find_key(s, k) {
            Some(i) => 0 <= i < s.len() && s[i].0 == k && (forall|j: int|
                0 <= j < i ==> (#[trigger] s[j]).0 != k),
            None => forall|j: int| 0 <= j < s.len() ==> (#[trigger] s[j]).0 != k,
        },
    decreases s.len(),
{
    if s.len() == 0 {
    } else if s[0].0 == k {
    } else {
        let sd = s.drop_first();
        lemma_find_key_sound(sd, k);
        match spec_find_key(sd, k) {
            Some(i) => {
                assert(s[i + 1] == sd[i]);
                assert forall|j: int| 0 <= j < i + 1 implies (#[trigger] s[j]).0 != k by {
                    if j > 0 {
                        assert(sd[j - 1] == s[j]);
                    }
                }
            },
            None => {
                assert forall|j: int| 0 <= j < s.len() implies (#[trigger] s[j]).0 != k by {
                    if j > 0 {
                        assert(sd[j - 1] == s[j]);
                    }
                }
            },
        }
    }
}

/// Removing any window keeps the keys unique.
pub proof fn lemma_unique_excise(s: Seq<EntryView>, a: int, b: int)
    requires
        spec_keys_unique(s),
        0 <= a <= b <= s.len(),
    ensures
        spec_keys_unique(s.take(a) + s.skip(b)),
{
    let t = s.take(a) + s.skip(b);
    assert forall|i: int, j: int| 0 <= i < j < t.len() implies (#[trigger] t[i]).0 != (
    #[trigger] t[j]).0 by {
        let si = if i < a { i } else { i + (b - a) };
        let sj = if j < a { j } else { j + (b - a) };
        assert(t[i] == s[si]);
        assert(t[j] == s[sj]);
    }
}

/// The store itself: an insertion-ordered vector of unique-keyed pairs.
pub struct Store {
    entries: Vec<(String, String)>,
}

impl View for Store {
    type V = Seq<EntryView>;

    closed spec fn view(&self) -> Seq<EntryView> {
        self.entries.deep_view()
    }
}

impl Store {
    /// The store's invariant: keys are unique.
    pub open spec fn wf(&self) -> bool {
        spec_keys_unique(self@)
    }

    /// An empty store.
    pub fn new() -> (r: Store)
        ensures
            r@ == Seq::<EntryView>::empty(),
            r.wf(),
    {
        let r = Store { entries: Vec::new() };
        proof {
            assert(r@ =~= Seq::<EntryView>::empty());
        }
        r
    }

    /// How many entries the store holds.
    pub fn len(&self) -> (r: usize)
        ensures
            r == self@.len(),
    {
        self.entries.len()
    }

    /// The index of the entry with key `id`, if any.
    fn find(&self, id: &str) -> (r: Option<usize>)
        ensures
            match r {
                Some(i) => spec_find_key(self@, id@) == Some(i as int) && i < self@.len()
                    && self@[i as int].0 == id@,
                None => spec_find_key(self@, id@) is None,
            },
    {
        let n = self.entries.len();
        let mut i: usize = 0;
        while i < n
            invariant
                n == self@.len(),
                i <= n,
                forall|j: int| 0 <= j < i ==> (#[trigger] self@[j]).0 != id@,
            decreases n - i,
        {
            if str_eq(self.entries[i].0.as_str(), id) {
                proof {
                    lemma_find_key_at(self@, id@, i as int);
                }
                return Some(i);
            }
            i += 1;
        }
        proof {
            lemma_find_key_none(self@, id@);
        }
        None
    }

    /// Look the key up.
    pub fn get(&self, id: &str) -> (r: Option<&String>)
        ensures
            match r {
                Some(v) => spec_get(self@, id@) == Some(v@),
                None => spec_get(self@, id@) is None,
            },
    {
        match self.find(id) {
            Some(i) => Some(&self.entries[i].1),
            None => None,
        }
    }

    /// Insert or overwrite: the value lands under `id`, at the key's old
    /// position when it existed, at the end otherwise.
    pub fn upsert(&mut self, id: String, data: String)
        requires
            old(self).wf(),
        ensures
            final(self)@ == spec_upsert(old(self)@, id@, data@),
            final(self).wf(),
    {
        let ghost s0 = self@;
        match self.find(id.as_str()) {
            Some(i) => {
                let _ = self.entries.remove(i);
                self.entries.insert(i, (id, data));
                proof {
                    assert(self@ =~= s0.update(i as int, (id@, data@)));
                    lemma_find_key_sound(s0, id@);
                    assert forall|x: int, y: int|
                        0 <= x < y < self@.len() implies (#[trigger] self@[x]).0 != (
                    #[trigger] self@[y]).0 by {
                        if x != i && y != i {
                            assert(self@[x] == s0[x]);
                            assert(self@[y] == s0[y]);
                        } else if x == i {
                            assert(self@[y] == s0[y]);
                            assert(s0[y].0 != id@) by {
                                if s0[y].0 == id@ {
                                    assert(s0[i as int].0 == s0[y].0);
                                }
                            }
                        } else {
                            assert(self@[x] == s0[x]);
                            assert(s0[x].0 != id@);
                        }
                    }
                }
            },
            None => {
                proof {
                    lemma_find_key_sound(s0, id@);
                }
                self.entries.push((id, data));
                proof {
                    assert(self@ =~= s0.push((id@, data@)));
                }
            },
        }
    }

    /// Remove the entry with key `id`, handing its value back.
    pub fn remove(&mut self, id: &str) -> (r: Option<String>)
        requires
            old(self).wf(),
        ensures
            final(self).wf(),
            match spec_find_key(old(self)@, id@) {
                Some(i) => final(self)@ == old(self)@.remove(i) && r is Some
                    && r.unwrap()@ == old(self)@[i].1,
                None => final(self)@ == old(self)@ && r is None,
            },
    {
        let ghost s0 = self@;
        match self.find(id) {
            Some(i) => {
                let (_, v) = self.entries.remove(i);
                proof {
                    assert(self@ =~= s0.remove(i as int));
                    assert(s0.remove(i as int) =~= s0.take(i as int) + s0.skip(i as int + 1));
                    lemma_unique_excise(s0, i as int, i as int + 1);
                }
                Some(v)
            },
            None => None,
        }
    }

    /// The entries at positions `[start, start + count)`, clamped to the
    /// store's size, cloned in iteration order.
    pub fn select_window(&self, start: usize, count: usize) -> (r: Vec<(String, String)>)
        ensures
            r.deep_view() == spec_window(self@, start as int, count as int),
    {
        let n = self.entries.len();
        let lo = if start < n {
            start
        } else {
            n
        };
        let avail = n - lo;
        let take = if count < avail {
            count
        } else {
            avail
        };
        let mut r: Vec<(String, String)> = Vec::new();
        let mut i: usize = lo;
        while i < lo + take
            invariant
                n == self@.len(),
                lo <= i <= lo + take,
                lo + take <= n,
                r.deep_view() =~= self@.subrange(lo as int, i as int),
            decreases lo + take - i,
        {
            let ghost prev = r.deep_view();
            r.push((self.entries[i].0.clone(), self.entries[i].1.clone()));
            proof {
                assert(r.deep_view() =~= prev.push(self@[i as int]));
                assert(r.deep_view() =~= self@.subrange(lo as int, i as int + 1));
            }
            i += 1;
        }
        proof {
            assert(r.deep_view() =~= spec_window(self@, start as int, count as int));
        }
        r
    }

    /// Remove the entries at positions `[start, start + count)`, clamped to
    /// the store's size, handing them back in iteration order.
    pub fn remove_window(&mut self, start: usize, count: usize) -> (r: Vec<(String, String)>)
        requires
            old(self).wf(),
        ensures
            final(self).wf(),
            r.deep_view() == spec_window(old(self)@, start as int, count as int),
            final(self)@ == spec_excise(old(self)@, start as int, count as int),
    {
        let ghost s0 = self@;
        let n = self.entries.len();
        let lo = if start < n {
            start
        } else {
            n
        };
        let avail = n - lo;
        let take = if count < avail {
            count
        } else {
            avail
        };
        let mut r: Vec<(String, String)> = Vec::new();
        let mut k: usize = 0;
        while k < take
            invariant
                n == s0.len(),
                lo + take <= n,
                k <= take,
                r.deep_view() =~= s0.subrange(lo as int, lo as int + k as int),
                self@ =~= s0.take(lo as int) + s0.skip(lo as int + k as int),
            decreases take - k,
        {
            let ghost prev = r.deep_view();
            let ghost sp = self@;
            proof {
                assert(self.entries@.len() == self@.len());
                assert(self@.len() == s0.len() - k as int);
            }
            let e = self.entries.remove(lo);
            r.push(e);
            proof {
                assert(self@ =~= sp.remove(lo as int));
                assert(sp[lo as int] == s0[lo as int + k as int]);
                assert(r.deep_view() =~= prev.push(s0[lo as int + k as int]));
                assert(r.deep_view() =~= s0.subrange(lo as int, lo as int + k as int + 1));
                assert(self@ =~= s0.take(lo as int) + s0.skip(lo as int + k as int + 1));
            }
            k += 1;
        }
        proof {
            assert(r.deep_view() =~= spec_window(s0, start as int, count as int));
            assert(self@ =~= spec_excise(s0, start as int, count as int));
            lemma_unique_excise(s0, lo as int, lo as int + take as int);
        }
        r
    }
}

} // verus!
