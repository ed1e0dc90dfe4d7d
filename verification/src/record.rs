//! The record describing one discoverable launch target, its mathematical
//! view, and the well-formedness of an index snapshot.

use vstd::prelude::*;
use crate::score::Score;
use crate::text::{lex_lt, lower_of, lemma_lex_trans, lowercase, chars_of};

verus! {

/// One discoverable launch target.
pub struct AppInfo {
    /// Human-readable name derived from the file name.
    pub name: String,
    /// Full filesystem path, the record's unique key.
    pub path: String,
    /// Opaque reference to an icon; never resolved here.
    pub icon_path: Option<String>,
    /// Best-effort metadata, absent if unavailable.
    pub description: Option<String>,
    /// Relevance for the query of the search call that returned the record;
    /// zero on records no search call scored.
    pub score: Score,
}

/// The mathematical content of an `AppInfo`.
pub struct AppInfoV {
    pub name: Seq<char>,
    pub path: Seq<char>,
    pub icon_path: Option<Seq<char>>,
    pub description: Option<Seq<char>>,
    pub score: Score,
}

impl View for AppInfo {
    type V = AppInfoV;

    open spec fn view(&self) -> AppInfoV {
        AppInfoV {
            name: self.name@,
            path: self.path@,
            icon_path: match self.icon_path {
                Option::Some(s) => Option::Some(s@),
                Option::None => Option::None,
            },
            description: match self.description {
                Option::Some(s) => Option::Some(s@),
                Option::None => Option::None,
            },
            score: self.score,
        }
    }
}

impl DeepView for AppInfo {
    type V = AppInfoV;

    open spec fn deep_view(&self) -> AppInfoV {
        self.view()
    }
}

fn clone_opt_string(o: &Option<String>) -> (r: Option<String>)
    ensures
        r == *o,
{
    match o {
        Option::None => Option::None,
        Option::Some(s) => Option::Some(s.clone()),
    }
}

impl Clone for AppInfo {
    fn clone(&self) -> (r: Self)
        ensures
            r == *self,
    {
        AppInfo {
            name: self.name.clone(),
            path: self.path.clone(),
            icon_path: clone_opt_string(&self.icon_path),
            description: clone_opt_string(&self.description),
            score: self.score,
        }
    }
}

/// The views of a sequence of records.
pub open spec fn views_of(s: Seq<AppInfo>) -> Seq<AppInfoV> {
    Seq::new(s.len(), |i: int| s[i]@)
}

/// The key under which a record is deduplicated and sorted: its lowercased
/// display name.
pub open spec fn key_of(r: AppInfoV) -> Seq<char> {
    lower_of(r.name)
}

/// The same record carrying the given score.
pub open spec fn with_score(r: AppInfoV, s: Score) -> AppInfoV {
    AppInfoV { score: s, ..r }
}

/// Keys ascend strictly through the sequence: it is sorted by lowercased
/// name, and no two records share a key.
pub open spec fn keys_ascending(s: Seq<AppInfoV>) -> bool {
    forall|i: int, j: int|
        0 <= i < j < s.len() ==> lex_lt(#[trigger] key_of(s[i]), #[trigger] key_of(s[j]))
}

/// No two records share a path.
pub open spec fn paths_distinct(s: Seq<AppInfoV>) -> bool {
    forall|i: int, j: int|
        0 <= i < j < s.len() ==> (#[trigger] s[i].path) != (#[trigger] s[j].path)
}

/// A well-formed index snapshot: strictly sorted by key, so no two records
/// share a key, and no two records share a path.
pub open spec fn snapshot_wf(s: Seq<AppInfoV>) -> bool {
    keys_ascending(s) && paths_distinct(s)
}

/// At most the first `n` elements of a sequence of record views.
pub open spec fn take_at_most(s: Seq<AppInfoV>, n: int) -> Seq<AppInfoV> {
    if n <= s.len() {
        s.take(n)
    } else {
        s
    }
}

/// The characters of a record's key.
pub(crate) fn key_chars(r: &AppInfo) -> (k: Vec<char>)
    ensures
        k@ == key_of(r@),
{
    let low = lowercase(r.name.as_str());
    chars_of(low.as_str())
}

/// Copies of the first `n` records.
pub(crate) fn clone_records_prefix(v: &Vec<AppInfo>, n: usize) -> (r: Vec<AppInfo>)
    requires
        n <= v@.len(),
    ensures
        views_of(r@) == views_of(v@).take(n as int),
{
    let ghost vs = views_of(v@);
    let mut r: Vec<AppInfo> = Vec::new();
    let mut i: usize = 0;
    proof {
        assert(views_of(r@) =~= vs.take(0));
    }
    while i < n
        invariant
            i <= n <= v@.len(),
            vs == views_of(v@),
            r@.len() == i,
            views_of(r@) == vs.take(i as int),
        decreases n - i,
    {
        let ghost old_r = r@;
        let x = v[i].clone();
        proof {
            assert(x == v@[i as int]);
        }
        r.push(x);
        proof {
            assert(r@ == old_r.push(x));
            assert forall|k: int| 0 <= k < r@.len() implies views_of(r@)[k] == vs.take(i + 1)[k] by {
                if k < i {
                    assert(r@[k] == old_r[k]);
                    assert(views_of(old_r)[k] == vs.take(i as int)[k]);
                } else {
                    assert(r@[k] == x);
                    assert(vs.take(i + 1)[k] == vs[i as int]);
                }
            }
            assert(views_of(r@) =~= vs.take(i + 1));
        }
        i = i + 1;
    }
    r
}

/// A sequence whose adjacent keys ascend strictly is strictly sorted
/// throughout.
pub proof fn lemma_adjacent_keys_sorted(s: Seq<AppInfoV>, i: int, j: int)
    requires
        forall|k: int| 0 <= k < s.len() - 1 ==> lex_lt(#[trigger] key_of(s[k]), key_of(s[k + 1])),
        0 <= i < j < s.len(),
    ensures
        lex_lt(key_of(s[i]), key_of(s[j])),
    decreases j - i,
{
    if j > i + 1 {
        lemma_adjacent_keys_sorted(s, i, j - 1);
        assert(lex_lt(key_of(s[j - 1]), key_of(s[j])));
        lemma_lex_trans(key_of(s[i]), key_of(s[j - 1]), key_of(s[j]));
    }
}

} // verus!
