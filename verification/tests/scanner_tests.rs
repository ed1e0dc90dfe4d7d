use fade_launcher::scanner::{clean_app_name, create_app_info, get_file_description, WalkEntry};
use fade_launcher::snapshot::build_snapshot;

fn exts() -> Vec<String> {
    vec![
        ".exe".to_string(),
        ".msi".to_string(),
        ".bat".to_string(),
        ".cmd".to_string(),
        ".com".to_string(),
        ".lnk".to_string(),
    ]
}

fn file(path: &str) -> WalkEntry {
    WalkEntry { path: path.to_string(), is_file: true }
}

#[test]
fn same_cleaned_name_yields_one_record() {
    let entries = vec![file("C:\\one\\App.exe"), file("C:\\two\\app.bat")];
    let snap = build_snapshot(&entries, &exts());
    assert_eq!(snap.len(), 1);
    assert_eq!(snap[0].name, "App");
    assert_eq!(snap[0].path, "C:\\one\\App.exe");
}

#[test]
fn denylisted_stem_yields_no_record() {
    let entries = vec![file("C:\\apps\\Setup.exe")];
    let snap = build_snapshot(&entries, &exts());
    assert!(snap.is_empty());
    assert!(create_app_info(&"C:\\apps\\Setup.exe".to_string()).is_none());
    assert!(create_app_info(&"C:\\apps\\MyUpdateTool.exe".to_string()).is_none());
    assert!(create_app_info(&"C:\\apps\\uninstall-helper.exe".to_string()).is_none());
}

#[test]
fn snapshot_is_sorted_by_name_case_insensitively() {
    let entries = vec![
        file("C:\\x\\banana.exe"),
        file("C:\\x\\Apple.exe"),
        file("C:\\x\\cherry.exe"),
    ];
    let snap = build_snapshot(&entries, &exts());
    assert_eq!(snap.len(), 3);
    assert_eq!(snap[0].name, "Apple");
    assert_eq!(snap[1].name, "Banana");
    assert_eq!(snap[2].name, "Cherry");
}

#[test]
fn extension_filter_is_case_insensitive_and_exact() {
    let entries = vec![
        file("C:\\x\\good.EXE"),
        file("C:\\x\\skip.txt"),
        file("C:\\x\\noext"),
        WalkEntry { path: "C:\\x\\dir.exe".to_string(), is_file: false },
    ];
    let snap = build_snapshot(&entries, &exts());
    assert_eq!(snap.len(), 1);
    assert_eq!(snap[0].path, "C:\\x\\good.EXE");
}

#[test]
fn first_occurrence_of_a_name_wins() {
    let entries = vec![file("C:\\first\\Tool.exe"), file("C:\\second\\tool.exe")];
    let snap = build_snapshot(&entries, &exts());
    assert_eq!(snap.len(), 1);
    assert_eq!(snap[0].path, "C:\\first\\Tool.exe");
}

#[test]
fn cleaning_title_cases_and_joins_words() {
    assert_eq!(clean_app_name("my_app"), "My App");
    assert_eq!(clean_app_name("visual-studio.code"), "Visual Studio Code");
    assert_eq!(clean_app_name("already Clean"), "Already Clean");
    assert_eq!(clean_app_name("a b"), "A B");
    assert_eq!(clean_app_name("__x__"), "X");
    assert_eq!(clean_app_name(""), "");
}

#[test]
fn created_record_has_cleaned_name_and_no_metadata() {
    let a = create_app_info(&"C:\\apps\\cool_tool.exe".to_string()).unwrap();
    assert_eq!(a.name, "Cool Tool");
    assert_eq!(a.path, "C:\\apps\\cool_tool.exe");
    assert!(a.icon_path.is_none());
    assert!(a.description.is_none());
    assert!(!a.score.is_positive());
    assert!(get_file_description(&"C:\\apps\\cool_tool.exe".to_string()).is_none());
}
