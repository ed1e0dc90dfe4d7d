use fade_launcher::record::AppInfo;
use fade_launcher::score::Score;
use fade_launcher::searcher::AppSearcher;

fn record(name: &str, path: &str) -> AppInfo {
    AppInfo {
        name: name.to_string(),
        path: path.to_string(),
        icon_path: None,
        description: None,
        score: Score { base: 0, name_bytes: 0 },
    }
}

fn searcher_with(records: Vec<AppInfo>) -> AppSearcher {
    let mut s = AppSearcher::new(Vec::new());
    assert!(s.install_snapshot(records), "snapshot was rejected");
    s
}

/// The exact fraction of a score, for comparisons in tests.
fn value(s: &Score) -> (u128, u128) {
    (s.numerator(), s.denominator())
}

fn score_ge(a: &Score, b: &Score) -> bool {
    let (an, ad) = value(a);
    let (bn, bd) = value(b);
    an * bd >= bn * ad
}

#[test]
fn search_respects_limit_and_orders_by_score() {
    let s = searcher_with(vec![
        record("Alpha", "C:\\alpha.exe"),
        record("Alphabet", "C:\\alphabet.exe"),
        record("Beta Alpha", "C:\\beta_alpha.exe"),
        record("Gamma", "C:\\gamma.exe"),
    ]);
    let r = s.search("alpha", 10);
    assert_eq!(r.len(), 3);
    for rec in &r {
        assert!(rec.score.is_positive());
    }
    for w in r.windows(2) {
        assert!(score_ge(&w[0].score, &w[1].score));
    }
    let limited = s.search("alpha", 2);
    assert_eq!(limited.len(), 2);
    assert_eq!(limited[0].name, r[0].name);
    assert_eq!(limited[1].name, r[1].name);
}

#[test]
fn search_excludes_non_matching_records() {
    let s = searcher_with(vec![record("Alpha", "C:\\alpha.exe"), record("Beta", "C:\\beta.exe")]);
    let r = s.search("zzz", 10);
    assert!(r.is_empty());
}

#[test]
fn empty_query_equals_recent() {
    let mut s = searcher_with(vec![
        record("Alpha", "C:\\alpha.exe"),
        record("Beta", "C:\\beta.exe"),
        record("Gamma", "C:\\gamma.exe"),
    ]);
    s.add_to_recent(record("Beta", "C:\\beta.exe"));
    let from_search = s.search("", 5);
    let from_recent = s.get_recent_apps(5);
    assert_eq!(from_search.len(), from_recent.len());
    for (a, b) in from_search.iter().zip(from_recent.iter()) {
        assert_eq!(a.name, b.name);
        assert_eq!(a.path, b.path);
    }
}

#[test]
fn recent_falls_back_to_index_front() {
    let s = searcher_with(vec![
        record("Alpha", "C:\\alpha.exe"),
        record("Beta", "C:\\beta.exe"),
        record("Gamma", "C:\\gamma.exe"),
    ]);
    let r = s.get_recent_apps(2);
    assert_eq!(r.len(), 2);
    assert_eq!(r[0].name, "Alpha");
    assert_eq!(r[1].name, "Beta");
}

#[test]
fn exact_outranks_prefix_outranks_substring() {
    let s = searcher_with(vec![
        record("Term", "C:\\a.exe"),
        record("Terminal", "C:\\b.exe"),
        record("Xterminator", "C:\\c.exe"),
    ]);
    let r = s.search("term", 10);
    assert_eq!(r.len(), 3);
    assert_eq!(r[0].name, "Term");
    assert_eq!(r[1].name, "Terminal");
    assert_eq!(r[2].name, "Xterminator");
}

#[test]
fn uppercase_query_matches_case_insensitively() {
    let s = searcher_with(vec![record("Chrome", "C:\\chrome.exe")]);
    let r = s.search("CHROME", 10);
    assert_eq!(r.len(), 1);
    assert_eq!(r[0].name, "Chrome");
}

#[test]
fn end_to_end_example_scores() {
    let s = searcher_with(vec![
        record("Calculator", "C:\\calc.exe"),
        record("Chrome", "C:\\chrome.exe"),
    ]);

    let r = s.search("ch", 10);
    assert_eq!(r.len(), 1);
    assert_eq!(r[0].name, "Chrome");
    // prefix 50 + contains 25 + path 10 = 85, bonus 20/7: (85 * 7 + 20) / 7
    assert_eq!(r[0].score.numerator(), 615);
    assert_eq!(r[0].score.denominator(), 7);

    let r = s.search("c", 10);
    assert_eq!(r.len(), 2);
    // both reach base 85; Chrome's shorter name gives the bigger bonus
    assert_eq!(r[0].name, "Chrome");
    assert_eq!(r[1].name, "Calculator");
    assert_eq!(r[1].score.numerator(), 955);
    assert_eq!(r[1].score.denominator(), 11);
}

#[test]
fn tied_scores_keep_ascending_name_order() {
    // same name lengths and same match clauses give exactly tied scores
    let s = searcher_with(vec![
        record("Arc One", "C:\\x\\one.exe"),
        record("Arc Two", "C:\\x\\two.exe"),
    ]);
    let r = s.search("arc", 10);
    assert_eq!(r.len(), 2);
    assert_eq!(r[0].score.numerator(), r[1].score.numerator());
    assert_eq!(r[0].score.denominator(), r[1].score.denominator());
    assert_eq!(r[0].name, "Arc One");
    assert_eq!(r[1].name, "Arc Two");
}

#[test]
fn install_snapshot_rejects_unsorted_records() {
    let mut s = AppSearcher::new(Vec::new());
    let ok = s.install_snapshot(vec![
        record("Zebra", "C:\\zebra.exe"),
        record("Apple", "C:\\apple.exe"),
    ]);
    assert!(!ok);
    assert!(s.search("apple", 10).is_empty());
}

#[test]
fn install_snapshot_rejects_duplicate_paths() {
    let mut s = AppSearcher::new(Vec::new());
    let ok = s.install_snapshot(vec![
        record("Apple", "C:\\same.exe"),
        record("Zebra", "C:\\same.exe"),
    ]);
    assert!(!ok);
}

#[test]
fn relevance_score_formula_is_exact() {
    let s = fade_launcher::rank::calculate_relevance_score("Chrome", "C:\\chrome.exe", "ch");
    assert_eq!(s.base, 85);
    assert_eq!(s.name_bytes, 6);
    assert_eq!(s.numerator(), 615);
    assert_eq!(s.denominator(), 7);

    let exact = fade_launcher::rank::calculate_relevance_score("Chrome", "C:\\chrome.exe", "chrome");
    // exact 100 + prefix 50 + contains 25 + path 10 = 185
    assert_eq!(exact.base, 185);

    let none = fade_launcher::rank::calculate_relevance_score("Chrome", "C:\\chrome.exe", "zzz");
    assert_eq!(none.base, 0);
    assert!(!none.is_positive());
    assert_eq!(none.numerator(), 0);
}

#[test]
fn score_comparison_is_exact_across_lengths() {
    // 75 + 20/21 < 85 + 20/1? No: compare 75+20/21 against 75+20/1.
    let long_name = Score { base: 75, name_bytes: 20 };
    let short_name = Score { base: 75, name_bytes: 0 };
    assert!(long_name.ranks_below(&short_name));
    assert!(!short_name.ranks_below(&long_name));
    // a base lead of 10 can lose to a shortness bonus of 20
    let lead = Score { base: 85, name_bytes: 19 };
    let bonus = Score { base: 75, name_bytes: 0 };
    assert!(lead.ranks_below(&bonus));
    // and exactly ties when the lead matches the bonus difference
    let a = Score { base: 85, name_bytes: 1 };
    let b = Score { base: 75, name_bytes: 0 };
    assert!(!a.ranks_below(&b));
    assert!(!b.ranks_below(&a));
}
