//! Building an index snapshot from walked entries: qualifying entries yield
//! records, later records with an already-taken key are dropped, and the
//! survivors are sorted by lowercased name.

use vstd::prelude::*;
use crate::record::{
    AppInfo, AppInfoV, views_of, key_of, keys_ascending, paths_distinct, snapshot_wf, key_chars,
};
use crate::scanner::{
    WalkEntry, WalkEntryV, entry_views, spec_qualifies, spec_create, entry_qualifies,
    create_app_info, walk_tree, MAX_SCAN_DEPTH,
};
use crate::text::{
    lex_lt, string_views, chars_eq, chars_lt, lemma_lex_total, lemma_lex_trans, lemma_lex_irrefl,
};

verus! {

/// The keys taken by the records collected so far.
pub open spec fn keys_of(s: Seq<AppInfoV>) -> Set<Seq<char>> {
    Set::new(|k: Seq<char>| exists|j: int| 0 <= j < s.len() && key_of(s[j]) == k)
}

/// The records the qualifying entries yield, in entry order, the first
/// occurrence of each key winning, given the keys already taken.
pub open spec fn spec_collect(
    entries: Seq<WalkEntryV>,
    exts: Seq<Seq<char>>,
    seen: Set<Seq<char>>,
) -> Seq<AppInfoV>
    decreases entries.len(),
{
    if entries.len() == 0 {
        Seq::empty()
    } else {
        let e = entries[0];
        let rest = entries.drop_first();
        if spec_qualifies(e, exts) {
            match spec_create(e.path) {
                Option::Some(r) => {
                    if !seen.contains(key_of(r)) {
                        seq![r] + spec_collect(rest, exts, seen.insert(key_of(r)))
                    } else {
                        spec_collect(rest, exts, seen)
                    }
                },
                Option::None => spec_collect(rest, exts, seen),
            }
        } else {
            spec_collect(rest, exts, seen)
        }
    }
}

/// Collected records carry fresh, pairwise distinct keys, and each is
/// exactly what its own path yields.
proof fn lemma_collect_props(entries: Seq<WalkEntryV>, exts: Seq<Seq<char>>, seen: Set<Seq<char>>)
    ensures
        ({
            let c = spec_collect(entries, exts, seen);
            &&& forall|i: int, j: int|
                0 <= i < j < c.len() ==> key_of(#[trigger] c[i]) != key_of(#[trigger] c[j])
            &&& forall|i: int| 0 <= i < c.len() ==> !seen.contains(key_of(#[trigger] c[i]))
            &&& forall|i: int|
                0 <= i < c.len() ==> spec_create((#[trigger] c[i]).path) == Option::Some(c[i])
        }),
    decreases entries.len(),
{
    if entries.len() > 0 {
        let e = entries[0];
        let rest = entries.drop_first();
        let c = spec_collect(entries, exts, seen);
        if spec_qualifies(e, exts) && spec_create(e.path) is Some && !seen.contains(
            key_of(spec_create(e.path)->0),
        ) {
            let r = spec_create(e.path)->0;
            let seen2 = seen.insert(key_of(r));
            lemma_collect_props(rest, exts, seen2);
            let tail = spec_collect(rest, exts, seen2);
            assert(c == seq![r] + tail);
            assert(c[0] == r);
            assert(forall|i: int| 0 <= i < tail.len() ==> c[i + 1] == #[trigger] tail[i]);
            assert(r.path == e.path);
            assert forall|i: int, j: int| 0 <= i < j < c.len() implies key_of(#[trigger] c[i])
                != key_of(#[trigger] c[j]) by {
                if i == 0 {
                    assert(c[j] == tail[j - 1]);
                    assert(!seen2.contains(key_of(tail[j - 1])));
                } else {
                    assert(c[i] == tail[i - 1]);
                    assert(c[j] == tail[j - 1]);
                }
            }
            assert forall|i: int| 0 <= i < c.len() implies !seen.contains(
                key_of(#[trigger] c[i]),
            ) by {
                if i > 0 {
                    assert(c[i] == tail[i - 1]);
                    assert(!seen2.contains(key_of(tail[i - 1])));
                }
            }
            assert forall|i: int| 0 <= i < c.len() implies spec_create((#[trigger] c[i]).path)
                == Option::Some(c[i]) by {
                if i > 0 {
                    assert(c[i] == tail[i - 1]);
                }
            }
        } else {
            lemma_collect_props(rest, exts, seen);
        }
    }
}

/// A record inserted among records with strictly smaller keys first.
pub open spec fn spec_insert_by_name(s: Seq<AppInfoV>, r: AppInfoV) -> Seq<AppInfoV>
    decreases s.len(),
{
    if s.len() > 0 && !lex_lt(key_of(r), key_of(s[0])) {
        seq![s[0]] + spec_insert_by_name(s.drop_first(), r)
    } else {
        seq![r] + s
    }
}

/// The records sorted by key, inserting one after another in order.
pub open spec fn spec_sort_by_name(s: Seq<AppInfoV>) -> Seq<AppInfoV>
    decreases s.len(),
{
    if s.len() == 0 {
        s
    } else {
        spec_insert_by_name(spec_sort_by_name(s.drop_last()), s.last())
    }
}

/// Where the insertion scan stops is where the record lands.
proof fn lemma_insert_by_name_at(s: Seq<AppInfoV>, r: AppInfoV, pos: int)
    requires
        0 <= pos <= s.len(),
        forall|k: int| 0 <= k < pos ==> !lex_lt(key_of(r), key_of(#[trigger] s[k])),
        pos < s.len() ==> lex_lt(key_of(r), key_of(s[pos])),
    ensures
        spec_insert_by_name(s, r) == s.take(pos) + seq![r] + s.skip(pos),
    decreases pos,
{
    if pos == 0 {
        assert(spec_insert_by_name(s, r) =~= s.take(0) + seq![r] + s.skip(0));
    } else {
        assert(!lex_lt(key_of(r), key_of(s[0])));
        let d = s.drop_first();
        assert(forall|k: int| 0 <= k < pos - 1 ==> #[trigger] d[k] == s[k + 1]);
        lemma_insert_by_name_at(d, r, pos - 1);
        assert(seq![s[0]] + (d.take(pos - 1) + seq![r] + d.skip(pos - 1)) =~= s.take(pos)
            + seq![r] + s.skip(pos));
    }
}

/// Inserting a record with a fresh key keeps the keys strictly ascending and
/// adds exactly that record.
proof fn lemma_insert_by_name_props(s: Seq<AppInfoV>, r: AppInfoV)
    requires
        keys_ascending(s),
        forall|k: int| 0 <= k < s.len() ==> key_of(#[trigger] s[k]) != key_of(r),
    ensures
        ({
            let t = spec_insert_by_name(s, r);
            &&& t.len() == s.len() + 1
            &&& keys_ascending(t)
            &&& forall|x: AppInfoV| t.contains(x) == (s.contains(x) || x == r)
        }),
    decreases s.len(),
{
    let t = spec_insert_by_name(s, r);
    if s.len() > 0 && !lex_lt(key_of(r), key_of(s[0])) {
        let d = s.drop_first();
        assert(forall|k: int| 0 <= k < d.len() ==> #[trigger] d[k] == s[k + 1]);
        lemma_insert_by_name_props(d, r);
        let tail = spec_insert_by_name(d, r);
        assert(t == seq![s[0]] + tail);
        assert(t[0] == s[0]);
        assert(forall|i: int| 0 <= i < tail.len() ==> #[trigger] t[i + 1] == tail[i]);
        lemma_lex_total(key_of(s[0]), key_of(r));
        assert(lex_lt(key_of(s[0]), key_of(r)));
        assert forall|i: int, j: int| 0 <= i < j < t.len() implies lex_lt(
            key_of(#[trigger] t[i]),
            key_of(#[trigger] t[j]),
        ) by {
            if i == 0 {
                assert(t[j] == tail[j - 1]);
                assert(tail.contains(tail[j - 1]));
                if d.contains(tail[j - 1]) {
                    let w = choose|w: int| 0 <= w < d.len() && d[w] == tail[j - 1];
                    assert(s[w + 1] == tail[j - 1]);
                    assert(lex_lt(key_of(s[0]), key_of(s[w + 1])));
                } else {
                    assert(tail[j - 1] == r);
                }
            } else {
                assert(t[i] == tail[i - 1]);
                assert(t[j] == tail[j - 1]);
            }
        }
        assert forall|x: AppInfoV| t.contains(x) == (s.contains(x) || x == r) by {
            if t.contains(x) {
                let w = choose|w: int| 0 <= w < t.len() && t[w] == x;
                if w == 0 {
                    assert(s.contains(s[0]));
                } else {
                    assert(tail[w - 1] == x);
                    assert(tail.contains(x));
                    if d.contains(x) {
                        let v = choose|v: int| 0 <= v < d.len() && d[v] == x;
                        assert(s[v + 1] == x);
                        assert(s.contains(x));
                    }
                }
            }
            if s.contains(x) {
                let w = choose|w: int| 0 <= w < s.len() && s[w] == x;
                if w == 0 {
                    assert(t[0] == x);
                    assert(t.contains(x));
                } else {
                    assert(d[w - 1] == x);
                    assert(d.contains(x));
                    assert(tail.contains(x));
                    let v = choose|v: int| 0 <= v < tail.len() && tail[v] == x;
                    assert(t[v + 1] == x);
                    assert(t.contains(x));
                }
            }
            if x == r {
                assert(tail.contains(r));
                let v = choose|v: int| 0 <= v < tail.len() && tail[v] == x;
                assert(t[v + 1] == x);
                assert(t.contains(x));
            }
        }
    } else {
        assert(t == seq![r] + s);
        assert(t[0] == r);
        assert(forall|i: int| 0 <= i < s.len() ==> #[trigger] t[i + 1] == s[i]);
        if s.len() > 0 {
            lemma_lex_total(key_of(r), key_of(s[0]));
        }
        assert forall|i: int, j: int| 0 <= i < j < t.len() implies lex_lt(
            key_of(#[trigger] t[i]),
            key_of(#[trigger] t[j]),
        ) by {
            if i == 0 {
                assert(t[j] == s[j - 1]);
                if j - 1 > 0 {
                    assert(lex_lt(key_of(s[0]), key_of(s[j - 1])));
                    lemma_lex_trans(key_of(r), key_of(s[0]), key_of(s[j - 1]));
                }
            } else {
                assert(t[i] == s[i - 1]);
                assert(t[j] == s[j - 1]);
            }
        }
        assert forall|x: AppInfoV| t.contains(x) == (s.contains(x) || x == r) by {
            if t.contains(x) {
                let w = choose|w: int| 0 <= w < t.len() && t[w] == x;
                if w > 0 {
                    assert(s[w - 1] == x);
                    assert(s.contains(x));
                }
            }
            if s.contains(x) {
                let w = choose|w: int| 0 <= w < s.len() && s[w] == x;
                assert(t[w + 1] == x);
                assert(t.contains(x));
            }
            if x == r {
                assert(t[0] == x);
                assert(t.contains(x));
            }
        }
    }
}

/// Sorting records with pairwise distinct keys yields the same records with
/// keys strictly ascending.
proof fn lemma_sort_by_name_props(s: Seq<AppInfoV>)
    requires
        forall|i: int, j: int|
            0 <= i < j < s.len() ==> key_of(#[trigger] s[i]) != key_of(#[trigger] s[j]),
    ensures
        ({
            let t = spec_sort_by_name(s);
            &&& t.len() == s.len()
            &&& keys_ascending(t)
            &&& forall|x: AppInfoV| t.contains(x) == s.contains(x)
        }),
    decreases s.len(),
{
    let t = spec_sort_by_name(s);
    if s.len() > 0 {
        let p = s.drop_last();
        assert(forall|i: int| 0 <= i < p.len() ==> #[trigger] p[i] == s[i]);
        lemma_sort_by_name_props(p);
        let sp = spec_sort_by_name(p);
        assert forall|k: int| 0 <= k < sp.len() implies key_of(#[trigger] sp[k]) != key_of(
            s.last(),
        ) by {
            assert(sp.contains(sp[k]));
            assert(p.contains(sp[k]));
            let w = choose|w: int| 0 <= w < p.len() && p[w] == sp[k];
            assert(s[w] == sp[k]);
            assert(key_of(s[w]) != key_of(s[s.len() - 1]));
        }
        lemma_insert_by_name_props(sp, s.last());
        assert forall|x: AppInfoV| t.contains(x) == s.contains(x) by {
            if t.contains(x) {
                if sp.contains(x) {
                    assert(p.contains(x));
                    let w = choose|w: int| 0 <= w < p.len() && p[w] == x;
                    assert(s[w] == x);
                    assert(s.contains(x));
                } else {
                    assert(x == s.last());
                    assert(s.contains(s[s.len() - 1]));
                }
            }
            if s.contains(x) {
                let w = choose|w: int| 0 <= w < s.len() && s[w] == x;
                if w < s.len() - 1 {
                    assert(p[w] == x);
                    assert(p.contains(x));
                } else {
                    assert(x == s.last());
                }
            }
        }
    }
}

/// The snapshot an entry list and extension list determine: qualifying
/// entries yield records, first key in wins, and the result is sorted by
/// lowercased name.
pub open spec fn spec_build(entries: Seq<WalkEntryV>, exts: Seq<Seq<char>>) -> Seq<AppInfoV> {
    spec_sort_by_name(spec_collect(entries, exts, Set::empty()))
}

/// Every record of a built snapshot is exactly what its own path yields, so
/// a path whose stem the denylist suppresses, or one that no entry
/// qualified for, stands nowhere in the snapshot; and no key stands twice.
pub proof fn lemma_build_records_from_paths(entries: Seq<WalkEntryV>, exts: Seq<Seq<char>>)
    ensures
        ({
            let b = spec_build(entries, exts);
            &&& forall|k: int|
                0 <= k < b.len() ==> spec_create((#[trigger] b[k]).path) == Option::Some(b[k])
            &&& forall|i: int, j: int|
                0 <= i < j < b.len() ==> key_of(#[trigger] b[i]) != key_of(#[trigger] b[j])
        }),
{
    let c = spec_collect(entries, exts, Set::empty());
    let b = spec_build(entries, exts);
    lemma_collect_props(entries, exts, Set::empty());
    lemma_sort_by_name_props(c);
    assert forall|k: int| 0 <= k < b.len() implies spec_create((#[trigger] b[k]).path)
        == Option::Some(b[k]) by {
        assert(b.contains(b[k]));
        assert(c.contains(b[k]));
        let w = choose|w: int| 0 <= w < c.len() && c[w] == b[k];
        assert(spec_create(c[w].path) == Option::Some(c[w]));
    }
    assert forall|i: int, j: int| 0 <= i < j < b.len() implies key_of(#[trigger] b[i]) != key_of(
        #[trigger] b[j],
    ) by {
        assert(lex_lt(key_of(b[i]), key_of(b[j])));
        lemma_lex_irrefl(key_of(b[i]));
    }
}

/// The record of a tree's first qualifying, undenied entry stands in the
/// built snapshot; with keys standing only once, a later entry of the same
/// cleaned name adds nothing.
pub proof fn lemma_build_keeps_first(entries: Seq<WalkEntryV>, exts: Seq<Seq<char>>)
    requires
        entries.len() > 0,
        spec_qualifies(entries[0], exts),
        spec_create(entries[0].path) is Some,
    ensures
        spec_build(entries, exts).contains(spec_create(entries[0].path)->0),
{
    let c = spec_collect(entries, exts, Set::empty());
    let r = spec_create(entries[0].path)->0;
    assert(!Set::<Seq<char>>::empty().contains(key_of(r)));
    assert(c[0] == r);
    assert(c.contains(r));
    lemma_collect_props(entries, exts, Set::empty());
    lemma_sort_by_name_props(c);
}

/// Collects the records of the qualifying entries, in entry order, dropping
/// every record whose key an earlier record took; also returns each kept
/// record's key.
fn collect_candidates(entries: &Vec<WalkEntry>, exts: &Vec<String>) -> (r: (
    Vec<AppInfo>,
    Vec<Vec<char>>,
))
    ensures
        views_of(r.0@) == spec_collect(entry_views(entries@), string_views(exts@), Set::empty()),
        r.1@.len() == r.0@.len(),
        forall|k: int| 0 <= k < r.0@.len() ==> r.1@[k]@ == key_of(#[trigger] views_of(r.0@)[k]),
{
    let ghost evs = entry_views(entries@);
    let ghost xts = string_views(exts@);
    let mut recs: Vec<AppInfo> = Vec::new();
    let mut keys: Vec<Vec<char>> = Vec::new();
    let mut i: usize = 0;
    proof {
        assert(views_of(recs@) =~= Seq::<AppInfoV>::empty());
        assert(evs.skip(0) =~= evs);
        assert(keys_of(views_of(recs@)) =~= Set::<Seq<char>>::empty());
        assert(views_of(recs@) + spec_collect(evs, xts, Set::empty()) =~= spec_collect(
            evs,
            xts,
            Set::empty(),
        ));
    }
    while i < entries.len()
        invariant
            i <= evs.len(),
            evs == entry_views(entries@),
            xts == string_views(exts@),
            evs.len() == entries@.len(),
            keys@.len() == recs@.len(),
            forall|k: int| 0 <= k < recs@.len() ==> keys@[k]@ == key_of(#[trigger] views_of(recs@)[k]),
            spec_collect(evs, xts, Set::empty()) == views_of(recs@) + spec_collect(
                evs.skip(i as int),
                xts,
                keys_of(views_of(recs@)),
            ),
        decreases evs.len() - i,
    {
        let ghost pre = views_of(recs@);
        let ghost rest = evs.skip(i as int);
        proof {
            assert(rest[0] == evs[i as int]);
            assert(rest.drop_first() =~= evs.skip(i + 1));
            assert(evs[i as int] == entries@[i as int]@);
        }
        let e = &entries[i];
        if entry_qualifies(e, exts) {
            match create_app_info(&e.path) {
                Option::Some(a) => {
                    let k = key_chars(&a);
                    let mut dup = false;
                    let mut j: usize = 0;
                    while j < keys.len()
                        invariant
                            j <= keys@.len(),
                            keys@.len() == recs@.len(),
                            k@ == key_of(a@),
                            forall|m: int|
                                0 <= m < recs@.len() ==> keys@[m]@ == key_of(
                                    #[trigger] views_of(recs@)[m],
                                ),
                            dup == exists|m: int| 0 <= m < j && (#[trigger] keys@[m])@ == k@,
                        decreases keys@.len() - j,
                    {
                        if chars_eq(&keys[j], &k) {
                            dup = true;
                        }
                        j = j + 1;
                    }
                    proof {
                        if dup {
                            let m = choose|m: int| 0 <= m < keys@.len() && (#[trigger] keys@[m])@
                                == k@;
                            assert(key_of(pre[m]) == key_of(a@));
                            assert(keys_of(pre).contains(key_of(a@)));
                        } else {
                            if keys_of(pre).contains(key_of(a@)) {
                                let m = choose|m: int|
                                    0 <= m < pre.len() && key_of(#[trigger] pre[m]) == key_of(a@);
                                assert(keys@[m]@ == k@);
                            }
                        }
                    }
                    if !dup {
                        proof {
                            assert(spec_collect(rest, xts, keys_of(pre)) == seq![a@]
                                + spec_collect(rest.drop_first(), xts, keys_of(pre).insert(
                                key_of(a@),
                            )));
                        }
                        recs.push(a);
                        keys.push(k);
                        proof {
                            assert(views_of(recs@) =~= pre + seq![views_of(recs@)[pre.len() as int]]);
                            assert(views_of(recs@)[pre.len() as int] == recs@[pre.len() as int]@);
                            assert(keys_of(views_of(recs@)) =~= keys_of(pre).insert(
                                key_of(views_of(recs@)[pre.len() as int]),
                            )) by {
                                let post = views_of(recs@);
                                assert forall|q: Seq<char>|
                                    keys_of(post).contains(q) == keys_of(pre).insert(
                                        key_of(post[pre.len() as int]),
                                    ).contains(q) by {
                                    if keys_of(post).contains(q) {
                                        let w = choose|w: int|
                                            0 <= w < post.len() && key_of(#[trigger] post[w]) == q;
                                        if w < pre.len() {
                                            assert(pre[w] == post[w]);
                                            assert(keys_of(pre).contains(q));
                                        }
                                    }
                                    if keys_of(pre).contains(q) {
                                        let w = choose|w: int|
                                            0 <= w < pre.len() && key_of(#[trigger] pre[w]) == q;
                                        assert(post[w] == pre[w]);
                                        assert(keys_of(post).contains(q));
                                    }
                                }
                            }
                            assert(views_of(recs@) + spec_collect(evs.skip(i + 1), xts, keys_of(
                                views_of(recs@),
                            )) =~= pre + spec_collect(rest, xts, keys_of(pre)));
                        }
                    } else {
                        proof {
                            assert(spec_collect(rest, xts, keys_of(pre)) == spec_collect(
                                rest.drop_first(),
                                xts,
                                keys_of(pre),
                            ));
                        }
                    }
                },
                Option::None => {
                    proof {
                        assert(spec_collect(rest, xts, keys_of(pre)) == spec_collect(
                            rest.drop_first(),
                            xts,
                            keys_of(pre),
                        ));
                    }
                },
            }
        } else {
            proof {
                assert(spec_collect(rest, xts, keys_of(pre)) == spec_collect(
                    rest.drop_first(),
                    xts,
                    keys_of(pre),
                ));
            }
        }
        i = i + 1;
    }
    proof {
        assert(evs.skip(evs.len() as int) =~= Seq::<WalkEntryV>::empty());
        assert(views_of(recs@) + spec_collect(
            Seq::<WalkEntryV>::empty(),
            xts,
            keys_of(views_of(recs@)),
        ) =~= views_of(recs@));
    }
    (recs, keys)
}

/// Sorts the collected records by their keys, strictly ascending.
fn sort_records(recs: Vec<AppInfo>, keys: Vec<Vec<char>>) -> (r: Vec<AppInfo>)
    requires
        keys@.len() == recs@.len(),
        forall|k: int| 0 <= k < recs@.len() ==> keys@[k]@ == key_of(#[trigger] views_of(recs@)[k]),
    ensures
        views_of(r@) == spec_sort_by_name(views_of(recs@)),
{
    let ghost all = views_of(recs@);
    let mut out: Vec<AppInfo> = Vec::new();
    let mut okeys: Vec<Vec<char>> = Vec::new();
    let mut i: usize = 0;
    while i < recs.len()
        invariant
            i <= recs@.len(),
            all == views_of(recs@),
            all.len() == recs@.len(),
            keys@.len() == recs@.len(),
            forall|k: int| 0 <= k < recs@.len() ==> keys@[k]@ == key_of(#[trigger] views_of(recs@)[k]),
            okeys@.len() == out@.len(),
            forall|k: int| 0 <= k < out@.len() ==> okeys@[k]@ == key_of(#[trigger] views_of(out@)[k]),
            views_of(out@) == spec_sort_by_name(all.take(i as int)),
        decreases recs@.len() - i,
    {
        let ghost pre = views_of(out@);
        let x = recs[i].clone();
        let kref = &keys[i];
        let xkey = crate::text::chars_range(kref, 0, kref.len());
        proof {
            assert(kref@.subrange(0, kref@.len() as int) =~= kref@);
            assert(xkey@ == key_of(all[i as int]));
            assert(x@ == all[i as int]);
        }
        let mut pos: usize = 0;
        while pos < out.len() && !chars_lt(&xkey, &okeys[pos])
            invariant
                pos <= out@.len(),
                okeys@.len() == out@.len(),
                xkey@ == key_of(x@),
                forall|k: int| 0 <= k < out@.len() ==> okeys@[k]@ == key_of(#[trigger] views_of(out@)[k]),
                forall|k: int| 0 <= k < pos ==> !lex_lt(key_of(x@), key_of(#[trigger] views_of(out@)[k])),
            decreases out@.len() - pos,
        {
            pos = pos + 1;
        }
        proof {
            lemma_insert_by_name_at(pre, x@, pos as int);
            assert(all.take(i + 1).drop_last() =~= all.take(i as int));
            assert(all.take(i + 1).last() == all[i as int]);
        }
        out.insert(pos, x);
        okeys.insert(pos, xkey);
        proof {
            assert(views_of(out@) =~= pre.take(pos as int) + seq![all[i as int]] + pre.skip(
                pos as int,
            ));
        }
        i = i + 1;
    }
    proof {
        assert(all.take(all.len() as int) =~= all);
    }
    out
}

/// Builds the deduplicated, sorted snapshot that an entry list and extension
/// list determine.  The result is a well-formed snapshot.
pub fn build_snapshot(entries: &Vec<WalkEntry>, file_extensions: &Vec<String>) -> (r: Vec<AppInfo>)
    ensures
        views_of(r@) == spec_build(entry_views(entries@), string_views(file_extensions@)),
        snapshot_wf(views_of(r@)),
{
    let ghost evs = entry_views(entries@);
    let ghost xts = string_views(file_extensions@);
    let cr = collect_candidates(entries, file_extensions);
    let ghost c = spec_collect(evs, xts, Set::empty());
    proof {
        lemma_collect_props(evs, xts, Set::empty());
    }
    let out = sort_records(cr.0, cr.1);
    proof {
        lemma_sort_by_name_props(c);
        let t = views_of(out@);
        assert(t == spec_sort_by_name(c));
        assert forall|i: int, j: int| 0 <= i < j < t.len() implies (#[trigger] t[i]).path != (
        #[trigger] t[j]).path by {
            assert(lex_lt(key_of(t[i]), key_of(t[j])));
            lemma_lex_irrefl(key_of(t[i]));
            assert(t.contains(t[i]));
            assert(t.contains(t[j]));
            assert(c.contains(t[i]));
            assert(c.contains(t[j]));
            let wi = choose|w: int| 0 <= w < c.len() && c[w] == t[i];
            let wj = choose|w: int| 0 <= w < c.len() && c[w] == t[j];
            assert(spec_create(t[i].path) == Option::Some(t[i]));
            assert(spec_create(t[j].path) == Option::Some(t[j]));
            if t[i].path == t[j].path {
                assert(t[i] == t[j]);
                assert(false);
            }
        }
    }
    out
}

/// Walks every configured root and builds the snapshot of what was found.
/// What the walks return depends on the disk; whatever it is, the result is
/// a well-formed snapshot.
pub fn scan_for_applications(scan_paths: &Vec<String>, file_extensions: &Vec<String>) -> (r: Vec<
    AppInfo,
>)
    ensures
        snapshot_wf(views_of(r@)),
{
    let mut entries: Vec<WalkEntry> = Vec::new();
    let mut i: usize = 0;
    while i < scan_paths.len()
        decreases scan_paths@.len() - i,
    {
        let mut es = walk_tree(&scan_paths[i], MAX_SCAN_DEPTH);
        entries.append(&mut es);
        i = i + 1;
    }
    build_snapshot(&entries, file_extensions)
}

} // verus!
