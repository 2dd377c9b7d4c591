use cloudtg::cache::{
    build_dir_path, cleanup_step, find_local_download, is_name_variant, local_copies,
    local_download_info, preferred_target_path, resolve_target_path, sanitize_component,
    split_name, CacheEntry, CleanupStep,
};
use cloudtg::index::Index;
use cloudtg::model::DirectoryEntry;

fn file(name: &str, size: i64) -> CacheEntry {
    CacheEntry { name: name.to_string(), is_file: true, size: Some(size) }
}

fn dir(id: &str, parent: Option<&str>, name: &str) -> DirectoryEntry {
    DirectoryEntry {
        id: id.to_string(),
        parent_id: parent.map(|p| p.to_string()),
        name: name.to_string(),
        tg_msg_id: Some(1),
        updated_at: 0,
        is_broken: false,
    }
}

#[test]
fn sanitize_component_rejects_relative_segments() {
    assert_eq!(sanitize_component("."), "_");
    assert_eq!(sanitize_component(".."), "_");
    assert_eq!(sanitize_component("  ..  "), "_");
}

#[test]
fn sanitize_component_replaces_forbidden_chars() {
    assert_eq!(sanitize_component("a/b\\c:d"), "a_b_c_d");
    assert_eq!(sanitize_component("name\0with\rbad\nchars"), "name_with_bad_chars");
}

#[test]
fn sanitize_component_trims_and_keeps_the_rest() {
    assert_eq!(sanitize_component("  Документы  "), "Документы");
    assert_eq!(sanitize_component("a\u{85}b\u{7f}c"), "a_b_c");
    assert_eq!(sanitize_component("..."), "...");
    assert_eq!(sanitize_component("\t"), "_");
    assert_eq!(sanitize_component("   "), "");
}

#[test]
fn preferred_target_falls_back_on_an_empty_name() {
    assert_eq!(preferred_target_path("report.txt"), "report.txt");
    assert_eq!(preferred_target_path("   "), "файл");
    assert_eq!(preferred_target_path(".."), "_");
}

#[test]
fn split_name_cuts_at_the_last_dot() {
    assert_eq!(split_name("report.txt"), ("report".to_string(), ".txt".to_string()));
    assert_eq!(split_name("a.tar.gz"), ("a.tar".to_string(), ".gz".to_string()));
    assert_eq!(split_name(".bashrc"), (".bashrc".to_string(), "".to_string()));
    assert_eq!(split_name("noext"), ("noext".to_string(), "".to_string()));
    assert_eq!(split_name("dot."), ("dot".to_string(), ".".to_string()));
    assert_eq!(split_name(""), ("".to_string(), "".to_string()));
}

#[test]
fn name_variants_are_numbered_in_brackets() {
    assert!(is_name_variant("report", "report"));
    assert!(is_name_variant("report", "report (2)"));
    assert!(is_name_variant("report", "report (15)"));
    assert!(!is_name_variant("report", "report ()"));
    assert!(!is_name_variant("report", "report (2"));
    assert!(!is_name_variant("report", "report (a)"));
    assert!(!is_name_variant("report", "report(2)"));
    assert!(!is_name_variant("report", "reports (2)"));
    assert!(!is_name_variant("report", "repor"));
    assert!(!is_name_variant("report", "report (2) "));
}

#[test]
fn find_local_download_returns_existing_when_size_unknown() {
    let entries = vec![file("report.txt", 6)];
    let found = find_local_download(&entries, "report.txt", 0);
    assert_eq!(found, Some(0));
}

#[test]
fn find_local_download_falls_back_when_size_mismatch() {
    let entries = vec![file("report.txt", 6)];
    let found = find_local_download(&entries, "report.txt", 1024);
    assert_eq!(found, Some(0));
}

#[test]
fn local_download_info_returns_actual_local_size() {
    let entries = vec![file("report.txt", 11)];
    let (downloaded, local_size) = local_download_info(&entries, "report.txt", 0);
    assert!(downloaded);
    assert_eq!(local_size, Some(11));
    assert_eq!(local_download_info(&entries, "other.txt", 0), (false, None));
}

#[test]
fn a_numbered_variant_is_better_than_none() {
    let entries = vec![file("notes.txt", 3), file("report (2).txt", 50)];
    assert_eq!(find_local_download(&entries, "report.txt", 1024), Some(1));
    assert_eq!(find_local_download(&entries, "report.txt", 0), Some(1));
}

#[test]
fn a_copy_of_the_expected_size_is_preferred() {
    let entries = vec![file("report.txt", 10), file("report (1).txt", 20), file("report (2).txt", 20)];
    assert_eq!(find_local_download(&entries, "report.txt", 20), Some(1));
    assert_eq!(find_local_download(&entries, "report.txt", 10), Some(0));
    assert_eq!(find_local_download(&entries, "report.txt", 99), Some(0));
}

#[test]
fn only_regular_files_with_the_same_extension_are_copies() {
    let entries = vec![
        CacheEntry { name: "report.txt".to_string(), is_file: false, size: None },
        file("report.pdf", 1),
        file("report", 1),
        CacheEntry { name: "report (3).txt".to_string(), is_file: true, size: None },
    ];
    assert_eq!(find_local_download(&entries, "report.txt", 7), Some(3));
    assert_eq!(find_local_download(&vec![file("report.pdf", 1)], "report.txt", 0), None);
    assert_eq!(find_local_download(&Vec::new(), "report.txt", 0), None);
}

#[test]
fn local_copies_lists_every_variant() {
    let entries = vec![file("a.txt", 1), file("report (2).txt", 2), file("report.txt", 3), file("report.md", 4)];
    assert_eq!(local_copies(&entries, "report.txt"), vec![1, 2]);
    assert_eq!(local_copies(&entries, "none.txt"), Vec::<usize>::new());
}

#[test]
fn resolve_target_avoids_taken_names() {
    let entries = vec![file("report.txt", 10), file("report (1).txt", 20)];
    assert_eq!(resolve_target_path(&Vec::new(), "report.txt", 5), "report.txt");
    assert_eq!(resolve_target_path(&entries, "report.txt", 10), "report.txt");
    assert_eq!(resolve_target_path(&entries, "report.txt", 5), "report (2).txt");
    assert_eq!(resolve_target_path(&entries, "report.txt", 0), "report (2).txt");
    assert_eq!(resolve_target_path(&entries, "a/b.txt", 0), "a_b.txt");
}

#[test]
fn resolve_target_stops_at_ninety_nine() {
    let mut entries = vec![file("r", 1)];
    for i in 1..=99 {
        entries.push(file(&format!("r ({i})"), 1));
    }
    assert_eq!(resolve_target_path(&entries, "r", 0), "r (99)");
    entries.remove(42);
    assert_eq!(resolve_target_path(&entries, "r", 0), "r (42)");
}

#[test]
fn dir_path_runs_from_the_top_down() {
    let mut index = Index::new();
    index.put_dir(dir("A", None, "Docs"));
    index.put_dir(dir("B", Some("A"), "2024: plans"));
    index.put_dir(dir("C", Some("B"), ".."));
    assert_eq!(build_dir_path(&index, "C"), vec!["Docs", "2024_ plans", "_"]);
    assert_eq!(build_dir_path(&index, "A"), vec!["Docs"]);
    assert_eq!(build_dir_path(&index, "missing"), Vec::<String>::new());
}

#[test]
fn dir_path_skips_placeholders_and_blank_names() {
    let mut index = Index::new();
    index.put_dir(dir("A", Some("ROOT"), "Неизвестная папка"));
    index.put_dir(dir("B", Some("A"), "   "));
    index.put_dir(dir("C", Some("B"), "Photos"));
    assert_eq!(build_dir_path(&index, "C"), vec!["Photos"]);
}

#[test]
fn dir_path_ends_on_a_cycle() {
    let mut index = Index::new();
    index.put_dir(dir("A", Some("B"), "a"));
    index.put_dir(dir("B", Some("A"), "b"));
    let path = build_dir_path(&index, "A");
    assert_eq!(path.len(), 64);
    assert_eq!(path[63], "a");
    assert_eq!(path[62], "b");
}

#[test]
fn cleanup_removes_empty_dirs_below_the_root_only() {
    let root = vec!["cache".to_string(), "downloads".to_string()];
    let deep = vec!["cache".to_string(), "downloads".to_string(), "Docs".to_string(), "2024".to_string()];
    let up = vec!["cache".to_string(), "downloads".to_string(), "Docs".to_string()];
    assert_eq!(cleanup_step(&root, &deep, true), CleanupStep::RemoveAndAscend(up.clone()));
    assert_eq!(cleanup_step(&root, &up, true), CleanupStep::RemoveAndAscend(root.clone()));
    assert_eq!(cleanup_step(&root, &root, true), CleanupStep::Stop);
    assert_eq!(cleanup_step(&root, &deep, false), CleanupStep::Stop);
    let elsewhere = vec!["cache".to_string(), "other".to_string(), "x".to_string()];
    assert_eq!(cleanup_step(&root, &elsewhere, true), CleanupStep::Stop);
    assert_eq!(cleanup_step(&root, &vec!["cache".to_string()], true), CleanupStep::Stop);
}
