use fade_launcher::config::{
    assemble_scan_paths, get_default_scan_paths, split_path_list, HotkeyConfig, SearchConfig,
};

#[test]
fn search_config_defaults_match_the_documented_values() {
    let c = SearchConfig::default();
    assert_eq!(c.max_results, 10);
    assert!(c.scan_paths.is_empty());
    assert_eq!(c.file_extensions, vec![".exe", ".lnk", ".bat", ".cmd"]);
    assert_eq!(c.exclude_patterns, vec!["unins", "setup", "install"]);
    assert!(c.enable_fuzzy_search);
}

#[test]
fn hotkey_config_defaults_match_the_documented_values() {
    let c = HotkeyConfig::default();
    assert_eq!(c.toggle_launcher, "Ctrl+Space");
    assert_eq!(c.clear_search, "Escape");
    assert_eq!(c.launch_first, "Enter");
}

#[test]
fn path_list_splitting_drops_empty_pieces() {
    assert_eq!(split_path_list("a;;b;"), vec!["a", "b"]);
    assert_eq!(split_path_list(""), Vec::<String>::new());
    assert_eq!(split_path_list(";;;"), Vec::<String>::new());
    assert_eq!(split_path_list("C:\\one;C:\\two"), vec!["C:\\one", "C:\\two"]);
}

#[test]
fn scan_paths_are_assembled_in_their_fixed_order() {
    let r = assemble_scan_paths(
        Some("C:\\Program Files".to_string()),
        Some("C:\\Program Files (x86)".to_string()),
        Some("C:\\Users\\u\\AppData\\Local".to_string()),
        Some("C:\\Users\\u\\AppData\\Roaming".to_string()),
        Some("C:\\Users\\u\\Desktop".to_string()),
        Some("C:\\bin;C:\\tools".to_string()),
    );
    assert_eq!(
        r,
        vec![
            "C:\\Program Files".to_string(),
            "C:\\Program Files (x86)".to_string(),
            "C:\\Users\\u\\AppData\\Local\\Microsoft\\WindowsApps".to_string(),
            "C:\\Users\\u\\AppData\\Roaming\\Microsoft\\Windows\\Start Menu\\Programs".to_string(),
            "C:\\Users\\u\\Desktop".to_string(),
            "C:\\bin".to_string(),
            "C:\\tools".to_string(),
        ]
    );
}

#[test]
fn missing_environment_values_are_simply_skipped() {
    let r = assemble_scan_paths(None, None, None, None, None, Some("C:\\bin".to_string()));
    assert_eq!(r, vec!["C:\\bin".to_string()]);
}

#[test]
fn default_scan_paths_start_with_the_program_file_roots() {
    let r = get_default_scan_paths(
        Some("C:\\Program Files".to_string()),
        Some("C:\\Program Files (x86)".to_string()),
        None,
    );
    assert!(r.len() >= 2);
    assert_eq!(r[0], "C:\\Program Files");
    assert_eq!(r[1], "C:\\Program Files (x86)");
}
