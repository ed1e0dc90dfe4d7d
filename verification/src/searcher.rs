//! The orchestrator: owns the index and the launch history, serves ranked
//! searches over whatever snapshot currently stands, and commits scan
//! results.

use vstd::prelude::*;
use vstd::string::StringExecFns;
use crate::index::Index;
use crate::recent::{RecentList, recent_wf, spec_record_launch};
use crate::record::{AppInfo, AppInfoV, views_of, key_of, snapshot_wf, take_at_most};
use crate::rank::{rank_candidates, spec_rank};
use crate::snapshot::scan_for_applications;
use crate::text::{string_views, lex_lt};

verus! {

/// What a recent-list read owes: the launch history, newest first; before
/// any launch, the alphabetical front of the index, so the result is never
/// needlessly empty.
pub open spec fn spec_recent(recent: Seq<AppInfoV>, index: Seq<AppInfoV>, limit: int) -> Seq<
    AppInfoV,
> {
    if recent.len() > 0 {
        take_at_most(recent, limit)
    } else {
        take_at_most(index, limit)
    }
}

/// What a search owes: the recent-list read for the empty query, the ranked
/// index for any other.
pub open spec fn spec_search(
    index: Seq<AppInfoV>,
    recent: Seq<AppInfoV>,
    q: Seq<char>,
    limit: int,
) -> Seq<AppInfoV> {
    if q.len() == 0 {
        spec_recent(recent, index, limit)
    } else {
        spec_rank(index, q, limit)
    }
}

/// A search for the empty query and a recent-list read owe the same result.
pub proof fn lemma_empty_query_is_recent(
    index: Seq<AppInfoV>,
    recent: Seq<AppInfoV>,
    q: Seq<char>,
    limit: int,
)
    requires
        q.len() == 0,
    ensures
        spec_search(index, recent, q, limit) == spec_recent(recent, index, limit),
{
}

/// Owns the index and the launch history and serves the presentation layer.
pub struct AppSearcher {
    index: Index,
    recent: RecentList,
    scan_paths: Vec<String>,
    file_extensions: Vec<String>,
}

impl AppSearcher {
    /// The current index snapshot.
    pub closed spec fn index_view(&self) -> Seq<AppInfoV> {
        self.index@
    }

    /// The current launch history, most recent first.
    pub closed spec fn recent_view(&self) -> Seq<AppInfoV> {
        self.recent@
    }

    /// The configured scan roots.
    pub closed spec fn scan_paths_view(&self) -> Seq<Seq<char>> {
        string_views(self.scan_paths@)
    }

    /// The configured extension allowlist.
    pub closed spec fn extensions_view(&self) -> Seq<Seq<char>> {
        string_views(self.file_extensions@)
    }

    /// Index and history are well-formed.
    pub open spec fn wf(&self) -> bool {
        snapshot_wf(self.index_view()) && recent_wf(self.recent_view())
    }

    /// A searcher over the given scan roots with the default extension
    /// allowlist, an empty index and an empty history.
    pub fn new(scan_paths: Vec<String>) -> (r: AppSearcher)
        ensures
            r.index_view() == Seq::<AppInfoV>::empty(),
            r.recent_view() == Seq::<AppInfoV>::empty(),
            r.scan_paths_view() == string_views(scan_paths@),
            r.extensions_view() == seq![".exe"@, ".msi"@, ".bat"@, ".cmd"@, ".com"@, ".lnk"@],
            r.wf(),
    {
        let mut exts: Vec<String> = Vec::new();
        exts.push(String::from_str(".exe"));
        exts.push(String::from_str(".msi"));
        exts.push(String::from_str(".bat"));
        exts.push(String::from_str(".cmd"));
        exts.push(String::from_str(".com"));
        exts.push(String::from_str(".lnk"));
        proof {
            assert(string_views(exts@) =~= seq![
                ".exe"@,
                ".msi"@,
                ".bat"@,
                ".cmd"@,
                ".com"@,
                ".lnk"@,
            ]);
        }
        AppSearcher {
            index: Index::empty(),
            recent: RecentList::empty(),
            scan_paths,
            file_extensions: exts,
        }
    }

    /// Serves a query: the empty query reads the recent list; any other
    /// query ranks the current snapshot, highest score first, index order
    /// breaking ties, at most `limit` records, scores filled in.
    pub fn search(&self, query: &str, limit: usize) -> (r: Vec<AppInfo>)
        ensures
            views_of(r@) == spec_search(
                self.index_view(),
                self.recent_view(),
                query@,
                limit as int,
            ),
            query@.len() == 0 ==> views_of(r@) == spec_recent(
                self.recent_view(),
                self.index_view(),
                limit as int,
            ),
            query@.len() > 0 ==> r@.len() <= limit,
            query@.len() > 0 ==> forall|i: int|
                0 <= i < r@.len() ==> (#[trigger] views_of(r@)[i]).score.positive(),
            query@.len() > 0 ==> forall|i: int, j: int|
                0 <= i < j < r@.len() ==> !(#[trigger] views_of(r@)[i]).score.lt(
                    (#[trigger] views_of(r@)[j]).score,
                ),
            query@.len() > 0 && self.wf() ==> forall|i: int, j: int|
                0 <= i < j < r@.len() && (#[trigger] views_of(r@)[i]).score.eqv(
                    (#[trigger] views_of(r@)[j]).score,
                ) ==> lex_lt(key_of(views_of(r@)[i]), key_of(views_of(r@)[j])),
    {
        if query.is_empty() {
            self.get_recent_apps(limit)
        } else {
            rank_candidates(self.index.records_ref(), query, limit)
        }
    }

    /// The most recent launches, newest first; before any launch, the
    /// alphabetical front of the index.
    pub fn get_recent_apps(&self, limit: usize) -> (r: Vec<AppInfo>)
        ensures
            views_of(r@) == spec_recent(self.recent_view(), self.index_view(), limit as int),
    {
        if self.recent.len() > 0 {
            self.recent.first_n(limit)
        } else {
            self.index.first_n(limit)
        }
    }

    /// Records a successful launch in the history: the record moves to the
    /// front, its path appears only once, and the history stays within
    /// capacity.
    pub fn add_to_recent(&mut self, app: AppInfo)
        requires
            recent_wf(old(self).recent_view()),
        ensures
            final(self).recent_view() == spec_record_launch(old(self).recent_view(), app@),
            recent_wf(final(self).recent_view()),
            final(self).index_view() == old(self).index_view(),
            final(self).scan_paths_view() == old(self).scan_paths_view(),
            final(self).extensions_view() == old(self).extensions_view(),
    {
        self.recent.record_launch(app);
    }

    /// Atomically replaces the index with a well-formed snapshot.
    pub fn replace_index(&mut self, snapshot: Vec<AppInfo>)
        requires
            snapshot_wf(views_of(snapshot@)),
        ensures
            final(self).index_view() == views_of(snapshot@),
            snapshot_wf(final(self).index_view()),
            final(self).recent_view() == old(self).recent_view(),
            final(self).scan_paths_view() == old(self).scan_paths_view(),
            final(self).extensions_view() == old(self).extensions_view(),
    {
        self.index.replace(snapshot);
    }

    /// Installs a snapshot only after checking that it is well-formed; says
    /// whether it did.  A rejected snapshot leaves the index as it was.
    pub fn install_snapshot(&mut self, snapshot: Vec<AppInfo>) -> (ok: bool)
        ensures
            ok == snapshot_wf(views_of(snapshot@)),
            ok ==> final(self).index_view() == views_of(snapshot@),
            !ok ==> final(self).index_view() == old(self).index_view(),
            final(self).recent_view() == old(self).recent_view(),
            final(self).scan_paths_view() == old(self).scan_paths_view(),
            final(self).extensions_view() == old(self).extensions_view(),
            old(self).wf() ==> final(self).wf(),
    {
        self.index.try_replace(snapshot)
    }

    /// Runs one scan over the configured roots and atomically replaces the
    /// index with whatever it found.
    pub fn scan_and_replace(&mut self)
        ensures
            snapshot_wf(final(self).index_view()),
            final(self).recent_view() == old(self).recent_view(),
            final(self).scan_paths_view() == old(self).scan_paths_view(),
            final(self).extensions_view() == old(self).extensions_view(),
    {
        let snap = scan_for_applications(&self.scan_paths, &self.file_extensions);
        self.index.replace(snap);
    }

    /// The configured scan roots.
    pub fn scan_paths(&self) -> (r: &Vec<String>)
        ensures
            string_views(r@) == self.scan_paths_view(),
    {
        &self.scan_paths
    }

    /// The configured extension allowlist.
    pub fn file_extensions(&self) -> (r: &Vec<String>)
        ensures
            string_views(r@) == self.extensions_view(),
    {
        &self.file_extensions
    }
}

} // verus!
