use fade_launcher::launch::{launch_method, LaunchError, LaunchMethod};
use fade_launcher::record::AppInfo;
use fade_launcher::score::Score;
use fade_launcher::searcher::AppSearcher;

fn record(name: &str, path: &str) -> AppInfo {
    AppInfo {
        name: name.to_string(),
        path: path.to_string(),
        icon_path: None,
        description: None,
        score: Score { base: 0, name_bytes: 0 },
    }
}

#[test]
fn recent_list_is_capped_at_twenty_most_recent_first() {
    let mut s = AppSearcher::new(Vec::new());
    for i in 0..21 {
        s.add_to_recent(record(&format!("App {}", i), &format!("C:\\apps\\{}.exe", i)));
    }
    let r = s.get_recent_apps(100);
    assert_eq!(r.len(), 20);
    // the newest launch stands in front; the very first fell off the end
    assert_eq!(r[0].path, "C:\\apps\\20.exe");
    assert_eq!(r[19].path, "C:\\apps\\1.exe");
}

#[test]
fn relaunching_moves_the_entry_to_the_front_without_growing() {
    let mut s = AppSearcher::new(Vec::new());
    for i in 0..21 {
        s.add_to_recent(record(&format!("App {}", i), &format!("C:\\apps\\{}.exe", i)));
    }
    s.add_to_recent(record("App 5", "C:\\apps\\5.exe"));
    let r = s.get_recent_apps(100);
    assert_eq!(r.len(), 20);
    assert_eq!(r[0].path, "C:\\apps\\5.exe");
    // its old occurrence is gone: the path appears exactly once
    let occurrences = r.iter().filter(|a| a.path == "C:\\apps\\5.exe").count();
    assert_eq!(occurrences, 1);
}

#[test]
fn recent_read_honors_the_limit() {
    let mut s = AppSearcher::new(Vec::new());
    for i in 0..5 {
        s.add_to_recent(record(&format!("App {}", i), &format!("C:\\apps\\{}.exe", i)));
    }
    let r = s.get_recent_apps(3);
    assert_eq!(r.len(), 3);
    assert_eq!(r[0].path, "C:\\apps\\4.exe");
}

#[test]
fn shortcut_extension_dispatches_through_the_shell() {
    assert_eq!(launch_method("C:\\Apps\\tool.lnk"), LaunchMethod::ShellOpen);
    assert_eq!(launch_method("C:\\Apps\\tool.exe"), LaunchMethod::DirectSpawn);
    assert_eq!(launch_method("C:\\Apps\\noext"), LaunchMethod::DirectSpawn);
    // the original compares the extension literally, so an uppercase
    // shortcut extension is spawned directly
    assert_eq!(launch_method("C:\\Apps\\tool.LNK"), LaunchMethod::DirectSpawn);
}

#[test]
fn failed_launch_leaves_the_recent_list_unchanged() {
    let mut s = AppSearcher::new(Vec::new());
    s.add_to_recent(record("Alpha", "C:\\alpha.exe"));
    // a spawn failure surfaces as a LaunchError and the caller then does
    // not record the launch
    let err = LaunchError::new("C:\\missing.exe".to_string(), "not found".to_string());
    assert_eq!(err.path, "C:\\missing.exe");
    assert_eq!(err.cause, "not found");
    assert_eq!(err.message(), "failed to launch C:\\missing.exe: not found");
    let r = s.get_recent_apps(10);
    assert_eq!(r.len(), 1);
    assert_eq!(r[0].path, "C:\\alpha.exe");
}
