use fade_launcher::index::{snapshot_is_wf, Index};
use fade_launcher::recent::RecentList;
use fade_launcher::record::AppInfo;
use fade_launcher::score::Score;

fn record(name: &str, path: &str) -> AppInfo {
    AppInfo {
        name: name.to_string(),
        path: path.to_string(),
        icon_path: None,
        description: None,
        score: Score { base: 0, name_bytes: 0 },
    }
}

#[test]
fn index_is_empty_before_the_first_replacement() {
    let idx = Index::empty();
    assert_eq!(idx.len(), 0);
    assert!(idx.read_all().is_empty());
}

#[test]
fn replacement_is_total_and_reads_are_copies() {
    let mut idx = Index::empty();
    assert!(idx.try_replace(vec![
        record("Apple", "C:\\apple.exe"),
        record("Zebra", "C:\\zebra.exe"),
    ]));
    let all = idx.read_all();
    assert_eq!(all.len(), 2);
    assert_eq!(all[0].name, "Apple");
    assert_eq!(all[1].name, "Zebra");
    assert!(idx.try_replace(vec![record("Only", "C:\\only.exe")]));
    let all = idx.read_all();
    assert_eq!(all.len(), 1);
    assert_eq!(all[0].name, "Only");
    let front = idx.first_n(5);
    assert_eq!(front.len(), 1);
}

#[test]
fn snapshot_check_accepts_sorted_unique_records() {
    assert!(snapshot_is_wf(&vec![
        record("Apple", "C:\\apple.exe"),
        record("Zebra", "C:\\zebra.exe"),
    ]));
    assert!(!snapshot_is_wf(&vec![
        record("Zebra", "C:\\zebra.exe"),
        record("Apple", "C:\\apple.exe"),
    ]));
    assert!(!snapshot_is_wf(&vec![
        record("Same", "C:\\a.exe"),
        record("same", "C:\\b.exe"),
    ]));
}

#[test]
fn recent_list_keeps_newest_first_and_unique_paths() {
    let mut r = RecentList::empty();
    assert_eq!(r.len(), 0);
    r.record_launch(record("A", "C:\\a.exe"));
    r.record_launch(record("B", "C:\\b.exe"));
    r.record_launch(record("A", "C:\\a.exe"));
    assert_eq!(r.len(), 2);
    let out = r.first_n(10);
    assert_eq!(out[0].path, "C:\\a.exe");
    assert_eq!(out[1].path, "C:\\b.exe");
}
