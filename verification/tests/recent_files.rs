use bashellit::recent::{
    add_recent_file, contains_path, get_recent_files, remove_recent_file, AppSettings, BashFile,
    RecentEntry, MAX_RECENT_FILES,
};

fn file(path: &str) -> BashFile {
    BashFile {
        name: format!("{}.sh", path),
        path: path.to_string(),
        content: format!("echo {}", path),
    }
}

fn entry(path: &str) -> RecentEntry {
    RecentEntry::File(file(path))
}

fn other(raw: &str) -> RecentEntry {
    RecentEntry::Other(raw.to_string())
}

fn paths(entries: &[RecentEntry]) -> Vec<&str> {
    entries
        .iter()
        .map(|e| match e {
            RecentEntry::File(f) => f.path.as_str(),
            RecentEntry::Other(raw) => raw.as_str(),
        })
        .collect()
}

#[test]
fn opened_file_goes_to_the_front() {
    let entries = add_recent_file(Vec::new(), file("a"));
    assert_eq!(entries, vec![entry("a")]);
    let entries = add_recent_file(entries, file("b"));
    let entries = add_recent_file(entries, file("c"));
    assert_eq!(paths(&entries), vec!["c", "b", "a"]);
}

#[test]
fn reopened_file_moves_to_the_front() {
    let entries = vec![entry("a"), entry("b"), entry("c"), entry("b")];
    let mut newer = file("b");
    newer.content = "changed".to_string();
    let entries = add_recent_file(entries, newer.clone());
    assert_eq!(paths(&entries), vec!["b", "a", "c"]);
    assert_eq!(entries[0], RecentEntry::File(newer));
}

#[test]
fn no_more_than_twenty_files_are_remembered() {
    assert_eq!(MAX_RECENT_FILES, 20);
    let mut entries = Vec::new();
    for i in 0..25 {
        entries = add_recent_file(entries, file(&format!("f{}", i)));
        assert_eq!(entries.len(), std::cmp::min(i + 1, 20));
        assert_eq!(entries[0], entry(&format!("f{}", i)));
    }
    assert_eq!(entries[19], entry("f5"));
    let entries = add_recent_file(entries, file("f10"));
    assert_eq!(entries.len(), 20);
    assert_eq!(entries[0], entry("f10"));
    assert_eq!(entries[1], entry("f24"));
    assert_eq!(entries[19], entry("f5"));
}

#[test]
fn longer_list_is_cut() {
    let mut entries = Vec::new();
    for i in 0..30 {
        entries.push(entry(&format!("f{}", i)));
    }
    let entries = add_recent_file(entries, file("new"));
    assert_eq!(entries.len(), 20);
    assert_eq!(entries[0], entry("new"));
    assert_eq!(entries[1], entry("f0"));
    assert_eq!(entries[19], entry("f18"));
}

#[test]
fn removed_path_leaves_the_list() {
    let entries = vec![entry("a"), entry("b"), entry("a"), entry("c")];
    assert_eq!(
        paths(&remove_recent_file(entries.clone(), "a")),
        vec!["b", "c"]
    );
    assert_eq!(
        paths(&remove_recent_file(entries.clone(), "x")),
        vec!["a", "b", "a", "c"]
    );
    assert_eq!(paths(&remove_recent_file(entries, "c")), vec!["a", "b", "a"]);
    assert!(remove_recent_file(Vec::new(), "a").is_empty());
}

#[test]
fn entries_that_describe_no_script_stay_where_they_are() {
    let entries = vec![other("42"), entry("a"), other("a"), entry("b")];
    assert_eq!(
        remove_recent_file(entries.clone(), "a"),
        vec![other("42"), other("a"), entry("b")]
    );
    assert_eq!(
        add_recent_file(entries.clone(), file("b")),
        vec![entry("b"), other("42"), entry("a"), other("a")]
    );
    assert_eq!(get_recent_files(entries), vec![file("a"), file("b")]);
    assert!(get_recent_files(vec![other("{}")]).is_empty());
    assert!(get_recent_files(Vec::new()).is_empty());
}

#[test]
fn default_settings() {
    let settings = AppSettings::default();
    assert_eq!(settings.theme, "light");
    assert!(settings.recent_files.is_empty());
    assert_eq!(settings.active_file, None);
}

#[test]
fn imported_script_is_added_once_and_opened() {
    let mut settings = AppSettings::default();
    assert!(settings.import_file("/a.sh".to_string()));
    assert!(settings.import_file("/b.sh".to_string()));
    assert!(!settings.import_file("/a.sh".to_string()));
    assert_eq!(
        settings.recent_files,
        vec!["/a.sh".to_string(), "/b.sh".to_string()]
    );
    assert_eq!(settings.active_file, Some("/a.sh".to_string()));
    assert_eq!(settings.theme, "light");
    assert!(contains_path(&settings.recent_files, "/b.sh"));
    assert!(!contains_path(&settings.recent_files, "/b"));
}

#[test]
fn removed_script_is_closed_if_it_was_open() {
    let mut settings = AppSettings {
        theme: "dark".to_string(),
        recent_files: vec!["/a.sh".to_string(), "/b.sh".to_string(), "/a.sh".to_string()],
        active_file: Some("/a.sh".to_string()),
    };
    settings.remove_file("/a.sh");
    assert_eq!(settings.recent_files, vec!["/b.sh".to_string()]);
    assert_eq!(settings.active_file, None);
    settings.select_file("/b.sh".to_string());
    settings.remove_file("/c.sh");
    assert_eq!(settings.recent_files, vec!["/b.sh".to_string()]);
    assert_eq!(settings.active_file, Some("/b.sh".to_string()));
    assert_eq!(settings.theme, "dark");
}

#[test]
fn selected_script_is_opened() {
    let mut settings = AppSettings::default();
    settings.select_file("/x.sh".to_string());
    assert_eq!(settings.active_file, Some("/x.sh".to_string()));
    assert!(settings.recent_files.is_empty());
}
