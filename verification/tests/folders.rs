use txxxt::folders::{complete_folders, completion_prefix, list_folders, partial_name, DirEntry};

fn entry(name: &str, is_dir: bool) -> DirEntry {
    DirEntry { name: name.to_string(), is_dir }
}

fn names(listed: &[DirEntry]) -> Vec<String> {
    listed.iter().map(|e| e.name.clone()).collect()
}

#[test]
fn partial_name_follows_last_slash() {
    assert_eq!(partial_name("~/Doc"), "Doc");
    assert_eq!(partial_name("~/Documents/"), "");
    assert_eq!(partial_name("abc"), "abc");
    assert_eq!(partial_name(""), "");
}

#[test]
fn completion_prefix_keeps_parent() {
    assert_eq!(completion_prefix("~/Doc"), "~/");
    assert_eq!(completion_prefix("~/a/"), "~/a/");
    assert_eq!(completion_prefix("abc"), "");
}

#[test]
fn listing_matches_case_insensitively_and_sorts() {
    let found = vec![
        entry("downloads", true),
        entry("Desktop", true),
        entry("docs.txt", false),
        entry(".dotfiles", true),
        entry("Music", true),
        entry("Documents", true),
    ];
    let listed = list_folders("~/d", &found);
    assert_eq!(names(&listed), vec!["Desktop", "Documents", "downloads"]);
    assert!(listed.iter().all(|e| e.is_dir));
}

#[test]
fn listing_shows_hidden_only_after_a_dot() {
    let found = vec![entry(".config", true), entry("x", true), entry(".cache", true)];
    assert_eq!(names(&list_folders("~/.", &found)), vec![".cache", ".config"]);
    assert_eq!(names(&list_folders("~/", &found)), vec!["x"]);
}

#[test]
fn listing_stops_at_ten() {
    let found: Vec<DirEntry> = (0..15).rev().map(|i| entry(&format!("d{:02}", i), true)).collect();
    let listed = list_folders("/tmp/", &found);
    assert_eq!(listed.len(), 10);
    assert_eq!(listed[0].name, "d00");
    assert_eq!(listed[9].name, "d09");
}

#[test]
fn completions_carry_parent_and_slash() {
    let found = vec![
        entry("Downloads", true),
        entry("docs", true),
        entry("Documents", true),
        entry("dogs.txt", false),
        entry("Music", true),
    ];
    assert_eq!(
        complete_folders("~/do", &found),
        vec!["~/docs/", "~/Documents/", "~/Downloads/"]
    );
    assert!(complete_folders("~/zz", &found).is_empty());
}

#[test]
fn names_equal_but_for_case_keep_found_order() {
    let found = vec![entry("docs", true), entry("Apps", true), entry("DOCS", true), entry("Docs", true)];
    assert_eq!(names(&list_folders("/x/", &found)), vec!["Apps", "docs", "DOCS", "Docs"]);
    let found2 = vec![entry("Docs", true), entry("docs", true)];
    assert_eq!(complete_folders("/x/D", &found2), vec!["/x/Docs/", "/x/docs/"]);
}

#[test]
fn typed_name_is_matched_case_insensitively() {
    let found = vec![entry("Downloads", true), entry("docs", true), entry("Music", true)];
    assert_eq!(complete_folders("~/DO", &found), vec!["~/docs/", "~/Downloads/"]);
}
