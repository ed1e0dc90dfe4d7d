//! The bounded most-recently-launched history: unique by path, newest
//! first, at most twenty entries.

use vstd::prelude::*;
use crate::record::{AppInfo, AppInfoV, views_of, paths_distinct, take_at_most};

verus! {

/// How many launches the history holds at most.
pub const MAX_RECENT: usize = 20;

/// The entries without the given path, in order.
pub open spec fn spec_drop_path(s: Seq<AppInfoV>, p: Seq<char>) -> Seq<AppInfoV>
    decreases s.len(),
{
    if s.len() == 0 {
        s
    } else if s[0].path == p {
        spec_drop_path(s.drop_first(), p)
    } else {
        seq![s[0]] + spec_drop_path(s.drop_first(), p)
    }
}

/// What recording a launch leaves: the launched record in front, the
/// earlier entries without its path behind it, cut to capacity.
pub open spec fn spec_record_launch(s: Seq<AppInfoV>, a: AppInfoV) -> Seq<AppInfoV> {
    let merged = seq![a] + spec_drop_path(s, a.path);
    if merged.len() <= MAX_RECENT {
        merged
    } else {
        merged.take(MAX_RECENT as int)
    }
}

/// A well-formed history: within capacity, no path twice.
pub open spec fn recent_wf(s: Seq<AppInfoV>) -> bool {
    s.len() <= MAX_RECENT && paths_distinct(s)
}

/// Dropping a path keeps the order of the rest, loses that path entirely,
/// and keeps distinct paths distinct; with distinct paths it removes at
/// most the one entry that carried the path.
proof fn lemma_drop_path_props(s: Seq<AppInfoV>, p: Seq<char>)
    requires
        paths_distinct(s),
    ensures
        ({
            let d = spec_drop_path(s, p);
            &&& d.len() <= s.len()
            &&& forall|k: int| 0 <= k < d.len() ==> (#[trigger] d[k]).path != p
            &&& forall|k: int| 0 <= k < d.len() ==> s.contains(#[trigger] d[k])
            &&& paths_distinct(d)
            &&& (exists|j: int| 0 <= j < s.len() && (#[trigger] s[j]).path == p) ==> d.len()
                == s.len() - 1
            &&& (forall|j: int| 0 <= j < s.len() ==> (#[trigger] s[j]).path != p) ==> d.len()
                == s.len()
        }),
    decreases s.len(),
{
    if s.len() > 0 {
        let t = s.drop_first();
        assert(forall|k: int| 0 <= k < t.len() ==> #[trigger] t[k] == s[k + 1]);
        lemma_drop_path_props(t, p);
        let dt = spec_drop_path(t, p);
        assert forall|k: int| 0 <= k < dt.len() implies s.contains(#[trigger] dt[k]) by {
            assert(t.contains(dt[k]));
            let w = choose|w: int| 0 <= w < t.len() && t[w] == dt[k];
            assert(s[w + 1] == dt[k]);
        }
        if s[0].path == p {
            assert forall|k: int| 0 <= k < t.len() implies (#[trigger] t[k]).path != p by {
                assert(t[k] == s[k + 1]);
                assert(s[0].path != s[k + 1].path);
            }
            assert(dt.len() == t.len());
        } else {
            if exists|j: int| 0 <= j < s.len() && (#[trigger] s[j]).path == p {
                let j = choose|j: int| 0 <= j < s.len() && (#[trigger] s[j]).path == p;
                assert(j >= 1);
                assert(t[j - 1].path == p);
                assert(dt.len() == t.len() - 1);
            }
            if forall|j: int| 0 <= j < s.len() ==> (#[trigger] s[j]).path != p {
                assert forall|k: int| 0 <= k < t.len() implies (#[trigger] t[k]).path != p by {
                    assert(t[k] == s[k + 1]);
                }
                assert(dt.len() == t.len());
            }
            let d = spec_drop_path(s, p);
            assert(d == seq![s[0]] + dt);
            assert(d[0] == s[0]);
            assert(forall|k: int| 0 <= k < dt.len() ==> #[trigger] d[k + 1] == dt[k]);
            assert forall|i: int, j: int| 0 <= i < j < d.len() implies (#[trigger] d[i]).path != (
            #[trigger] d[j]).path by {
                if i == 0 {
                    assert(d[j] == dt[j - 1]);
                    assert(t.contains(dt[j - 1]));
                    let w = choose|w: int| 0 <= w < t.len() && t[w] == dt[j - 1];
                    assert(s[w + 1] == dt[j - 1]);
                    assert(s[0].path != s[w + 1].path);
                } else {
                    assert(d[i] == dt[i - 1]);
                    assert(d[j] == dt[j - 1]);
                }
            }
            assert forall|k: int| 0 <= k < d.len() implies s.contains(#[trigger] d[k]) by {
                if k == 0 {
                    assert(s.contains(s[0]));
                } else {
                    assert(d[k] == dt[k - 1]);
                }
            }
        }
    }
}

/// The bounded most-recently-launched history.
pub struct RecentList {
    entries: Vec<AppInfo>,
}

impl View for RecentList {
    type V = Seq<AppInfoV>;

    closed spec fn view(&self) -> Seq<AppInfoV> {
        views_of(self.entries@)
    }
}

impl RecentList {
    /// The history is well-formed: within capacity, no path twice.
    pub open spec fn wf(&self) -> bool {
        recent_wf(self@)
    }

    /// The empty history.
    pub fn empty() -> (r: RecentList)
        ensures
            r@ == Seq::<AppInfoV>::empty(),
            r.wf(),
    {
        let r = RecentList { entries: Vec::new() };
        proof {
            assert(r@ =~= Seq::<AppInfoV>::empty());
        }
        r
    }

    /// How many launches the history holds.
    pub fn len(&self) -> (n: usize)
        ensures
            n == self@.len(),
    {
        self.entries.len()
    }

    /// Records a launch: any earlier entry with the same path leaves, the
    /// record moves to the front, and the history is cut to capacity.
    pub fn record_launch(&mut self, app: AppInfo)
        requires
            old(self).wf(),
        ensures
            final(self)@ == spec_record_launch(old(self)@, app@),
            final(self).wf(),
    {
        let ghost s = self@;
        let ghost p = app@.path;
        proof {
            lemma_drop_path_props(s, p);
        }
        let mut kept: Vec<AppInfo> = Vec::new();
        let mut i: usize = 0;
        proof {
            assert(views_of(kept@) =~= spec_drop_path(s.take(0), p));
            assert(s.take(0) =~= Seq::<AppInfoV>::empty());
        }
        while i < self.entries.len()
            invariant
                i <= self.entries@.len(),
                s == views_of(self.entries@),
                s.len() == self.entries@.len(),
                p == app@.path,
                views_of(kept@) == spec_drop_path(s.take(i as int), p),
            decreases self.entries@.len() - i,
        {
            let ghost pre = views_of(kept@);
            let e = &self.entries[i];
            proof {
                assert(e@ == s[i as int]);
                lemma_drop_path_snoc(s.take(i as int), s[i as int], p);
                assert(s.take(i as int).push(s[i as int]) =~= s.take(i + 1));
            }
            if !strings_equal(&e.path, &app.path) {
                let ghost old_kept = kept@;
                let x = e.clone();
                kept.push(x);
                proof {
                    assert(kept@ == old_kept.push(x));
                    assert forall|k: int| 0 <= k < kept@.len() implies views_of(kept@)[k]
                        == (pre + seq![s[i as int]])[k] by {
                        if k < pre.len() {
                            assert(kept@[k] == old_kept[k]);
                            assert(views_of(old_kept)[k] == pre[k]);
                        } else {
                            assert(kept@[k] == x);
                        }
                    }
                    assert(views_of(kept@) =~= pre + seq![s[i as int]]);
                }
            }
            i = i + 1;
        }
        proof {
            assert(s.take(s.len() as int) =~= s);
        }
        kept.insert(0, app);
        proof {
            assert(views_of(kept@) =~= seq![app@] + spec_drop_path(s, p)) by {
                let merged = seq![app@] + spec_drop_path(s, p);
                assert(kept@.len() == merged.len());
                assert forall|k: int| 0 <= k < kept@.len() implies views_of(kept@)[k] == merged[k]
                    by {
                    if k == 0 {
                        assert(kept@[0] == app);
                    }
                }
            }
        }
        if kept.len() > MAX_RECENT {
            let ghost before = views_of(kept@);
            kept.truncate(MAX_RECENT);
            proof {
                assert(kept@.len() == MAX_RECENT);
                assert forall|k: int| 0 <= k < kept@.len() implies views_of(kept@)[k]
                    == before.take(MAX_RECENT as int)[k] by {
                    assert(views_of(kept@)[k] == kept@[k]@);
                }
                assert(views_of(kept@) =~= before.take(MAX_RECENT as int));
            }
        }
        self.entries = kept;
        proof {
            let merged = seq![app@] + spec_drop_path(s, p);
            assert(merged[0] == app@);
            assert(forall|k: int|
                0 <= k < spec_drop_path(s, p).len() ==> #[trigger] merged[k + 1] == spec_drop_path(
                    s,
                    p,
                )[k]);
            assert forall|i2: int, j2: int|
                0 <= i2 < j2 < spec_record_launch(s, app@).len() implies (
            #[trigger] spec_record_launch(s, app@)[i2]).path != (#[trigger] spec_record_launch(
                s,
                app@,
            )[j2]).path by {
                let d = spec_drop_path(s, p);
                assert(spec_record_launch(s, app@)[i2] == merged[i2]);
                assert(spec_record_launch(s, app@)[j2] == merged[j2]);
                if i2 == 0 {
                    assert(merged[j2] == d[j2 - 1]);
                    assert(d[j2 - 1].path != p);
                } else {
                    assert(merged[i2] == d[i2 - 1]);
                    assert(merged[j2] == d[j2 - 1]);
                }
            }
        }
    }

    /// The most recent launches first, at most `limit` of them, copied.
    pub fn first_n(&self, limit: usize) -> (r: Vec<AppInfo>)
        ensures
            views_of(r@) == take_at_most(self@, limit as int),
    {
        let n = if limit < self.entries.len() {
            limit
        } else {
            self.entries.len()
        };
        crate::record::clone_records_prefix(&self.entries, n)
    }
}

/// Recording a launch puts the record in front, leaves its path nowhere
/// else, keeps the history well-formed, and, when the path was already
/// present, does not grow the history.
pub proof fn lemma_record_launch_shape(s: Seq<AppInfoV>, a: AppInfoV)
    requires
        recent_wf(s),
    ensures
        ({
            let t = spec_record_launch(s, a);
            &&& 1 <= t.len() <= MAX_RECENT
            &&& t[0] == a
            &&& forall|k: int| 1 <= k < t.len() ==> (#[trigger] t[k]).path != a.path
            &&& recent_wf(t)
            &&& (exists|j: int| 0 <= j < s.len() && (#[trigger] s[j]).path == a.path) ==> t.len()
                == s.len()
        }),
{
    lemma_drop_path_props(s, a.path);
    let p = a.path;
    let d = spec_drop_path(s, p);
    let merged = seq![a] + d;
    let t = spec_record_launch(s, a);
    assert(merged[0] == a);
    assert(forall|k: int| 0 <= k < d.len() ==> #[trigger] merged[k + 1] == d[k]);
    assert forall|i: int, j: int| 0 <= i < j < merged.len() implies (#[trigger] merged[i]).path
        != (#[trigger] merged[j]).path by {
        if i == 0 {
            assert(merged[j] == d[j - 1]);
            assert(d[j - 1].path != p);
        } else {
            assert(merged[i] == d[i - 1]);
            assert(merged[j] == d[j - 1]);
        }
    }
    if merged.len() <= MAX_RECENT {
        assert(t == merged);
    } else {
        assert(t == merged.take(MAX_RECENT as int));
    }
}

/// Appending one entry to the dropped sequence keeps or drops it by its
/// path.
proof fn lemma_drop_path_snoc(s: Seq<AppInfoV>, x: AppInfoV, p: Seq<char>)
    ensures
        spec_drop_path(s.push(x), p) == if x.path == p {
            spec_drop_path(s, p)
        } else {
            spec_drop_path(s, p) + seq![x]
        },
    decreases s.len(),
{
    reveal_with_fuel(spec_drop_path, 3);
    if s.len() == 0 {
        assert(s.push(x)[0] == x);
        assert(s.push(x).drop_first() =~= Seq::<AppInfoV>::empty());
        if x.path == p {
            assert(spec_drop_path(s.push(x), p) =~= spec_drop_path(s, p));
        } else {
            assert(spec_drop_path(s.push(x), p) =~= spec_drop_path(s, p) + seq![x]);
        }
    } else {
        assert(s.push(x)[0] == s[0]);
        assert(s.push(x).drop_first() =~= s.drop_first().push(x));
        lemma_drop_path_snoc(s.drop_first(), x, p);
        if s[0].path == p {
        } else {
            if x.path == p {
            } else {
                assert(seq![s[0]] + (spec_drop_path(s.drop_first(), p) + seq![x]) =~= (seq![s[0]]
                    + spec_drop_path(s.drop_first(), p)) + seq![x]);
            }
        }
    }
}

/// Whether two strings hold the same characters.
fn strings_equal(a: &String, b: &String) -> (r: bool)
    ensures
        r == (a@ == b@),
{
    *a == *b
}

} // verus!
