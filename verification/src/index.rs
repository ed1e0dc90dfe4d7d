//! The shared index: the latest scanner snapshot, replaced whole and read
//! as a point-in-time copy.

use vstd::prelude::*;
use crate::record::{
    AppInfo, AppInfoV, views_of, key_of, snapshot_wf, keys_ascending, paths_distinct, key_chars,
    take_at_most, lemma_adjacent_keys_sorted,
};
use crate::text::{chars_lt, lex_lt};

verus! {

/// The current snapshot of discoverable launch targets.  A replacement
/// swaps in the whole new snapshot at once; a read hands out a consistent
/// copy.  Before the first replacement it is empty.
pub struct Index {
    records: Vec<AppInfo>,
}

impl View for Index {
    type V = Seq<AppInfoV>;

    closed spec fn view(&self) -> Seq<AppInfoV> {
        views_of(self.records@)
    }
}

impl Index {
    /// The index is a well-formed snapshot.
    pub open spec fn wf(&self) -> bool {
        snapshot_wf(self@)
    }

    /// The empty index that stands before the first scan completes.
    pub fn empty() -> (r: Index)
        ensures
            r@ == Seq::<AppInfoV>::empty(),
            r.wf(),
    {
        let r = Index { records: Vec::new() };
        proof {
            assert(r@ =~= Seq::<AppInfoV>::empty());
        }
        r
    }

    /// How many records the snapshot holds.
    pub fn len(&self) -> (n: usize)
        ensures
            n == self@.len(),
    {
        self.records.len()
    }

    /// Replaces the whole snapshot at once with a well-formed one.
    pub fn replace(&mut self, snapshot: Vec<AppInfo>)
        requires
            snapshot_wf(views_of(snapshot@)),
        ensures
            final(self)@ == views_of(snapshot@),
            final(self).wf(),
    {
        self.records = snapshot;
    }

    /// Replaces the snapshot only after checking that it is well-formed;
    /// says whether it did.  A rejected snapshot leaves the index as it was.
    pub fn try_replace(&mut self, snapshot: Vec<AppInfo>) -> (ok: bool)
        ensures
            ok == snapshot_wf(views_of(snapshot@)),
            ok ==> final(self)@ == views_of(snapshot@),
            !ok ==> final(self)@ == old(self)@,
            old(self).wf() ==> final(self).wf(),
    {
        if snapshot_is_wf(&snapshot) {
            self.replace(snapshot);
            true
        } else {
            false
        }
    }

    /// A consistent point-in-time copy of the whole snapshot.
    pub fn read_all(&self) -> (r: Vec<AppInfo>)
        ensures
            views_of(r@) == self@,
    {
        let n = self.records.len();
        let r = crate::record::clone_records_prefix(&self.records, n);
        proof {
            assert(views_of(self.records@).take(n as int) =~= views_of(self.records@));
        }
        r
    }

    /// The first `limit` records of the snapshot, copied.
    pub fn first_n(&self, limit: usize) -> (r: Vec<AppInfo>)
        ensures
            views_of(r@) == take_at_most(self@, limit as int),
    {
        let n = if limit < self.records.len() {
            limit
        } else {
            self.records.len()
        };
        crate::record::clone_records_prefix(&self.records, n)
    }

    /// The records themselves, for ranking against a query.
    pub(crate) fn records_ref(&self) -> (r: &Vec<AppInfo>)
        ensures
            views_of(r@) == self@,
    {
        &self.records
    }
}

/// Whether the records form a well-formed snapshot: keys strictly
/// ascending, paths pairwise distinct.
pub fn snapshot_is_wf(v: &Vec<AppInfo>) -> (r: bool)
    ensures
        r == snapshot_wf(views_of(v@)),
{
    let ghost s = views_of(v@);
    let mut keys: Vec<Vec<char>> = Vec::new();
    let mut i: usize = 0;
    while i < v.len()
        invariant
            i <= v@.len(),
            s == views_of(v@),
            keys@.len() == i,
            forall|k: int| 0 <= k < i ==> keys@[k]@ == key_of(#[trigger] s[k]),
        decreases v@.len() - i,
    {
        keys.push(key_chars(&v[i]));
        i = i + 1;
    }
    if v.len() > 1 {
        let m = v.len() - 1;
        let mut j: usize = 0;
        while j < m
            invariant
                j <= m,
                m == v@.len() - 1,
                s == views_of(v@),
                s.len() == v@.len(),
                keys@.len() == v@.len(),
                forall|k: int| 0 <= k < v@.len() ==> keys@[k]@ == key_of(#[trigger] s[k]),
                forall|k: int| 0 <= k < j ==> lex_lt(key_of(#[trigger] s[k]), key_of(s[k + 1])),
            decreases m - j,
        {
            if !chars_lt(&keys[j], &keys[j + 1]) {
                proof {
                    assert(!lex_lt(key_of(s[j as int]), key_of(s[j + 1])));
                    if keys_ascending(s) {
                        assert(lex_lt(key_of(s[j as int]), key_of(s[j + 1])));
                    }
                }
                return false;
            }
            j = j + 1;
        }
        proof {
            assert forall|a: int, b: int| 0 <= a < b < s.len() implies lex_lt(
                key_of(#[trigger] s[a]),
                key_of(#[trigger] s[b]),
            ) by {
                lemma_adjacent_keys_sorted(s, a, b);
            }
        }
    }
    let mut a: usize = 0;
    while a < v.len()
        invariant
            a <= v@.len(),
            s == views_of(v@),
            s.len() == v@.len(),
            forall|x: int, y: int|
                0 <= x < y < s.len() && x < a ==> (#[trigger] s[x]).path != (#[trigger] s[y]).path,
        decreases v@.len() - a,
    {
        let mut b: usize = a + 1;
        while b < v.len()
            invariant
                a < b <= v@.len() || (a < v@.len() && b == a + 1),
                a < v@.len(),
                s == views_of(v@),
                s.len() == v@.len(),
                forall|x: int, y: int|
                    0 <= x < y < s.len() && x < a ==> (#[trigger] s[x]).path != (
                    #[trigger] s[y]).path,
                forall|y: int| a < y < b ==> (#[trigger] s[y]).path != s[a as int].path,
            decreases v@.len() - b,
        {
            if v[a].path == v[b].path {
                proof {
                    assert(s[a as int].path == s[b as int].path);
                    if paths_distinct(s) {
                        assert(s[a as int].path != s[b as int].path);
                    }
                }
                return false;
            }
            b = b + 1;
        }
        a = a + 1;
    }
    true
}

} // verus!
