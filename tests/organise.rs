use clarity::classify::{file_extension, get_file_category, Category};
use clarity::config::default_config;
use clarity::engine::{category_folders, check_root, plan_moves, preview_counts, Entry, OrganiseError};
use clarity::guard::is_protected;

fn file(name: &str) -> Entry {
    Entry { name: name.to_string(), is_file: true }
}

fn folder(name: &str) -> Entry {
    Entry { name: name.to_string(), is_file: false }
}

fn category(name: &str, exts: &[&str]) -> Category {
    Category { name: name.to_string(), extensions: exts.iter().map(|e| e.to_string()).collect() }
}

fn moves_of(entries: &Vec<Entry>, cats: &Vec<Category>) -> Vec<(String, String)> {
    plan_moves(entries, cats).into_iter().map(|m| (m.file_name, m.category)).collect()
}

#[test]
fn default_config_contents() {
    let c = default_config();
    let names: Vec<&str> = c.categories.iter().map(|c| c.name.as_str()).collect();
    assert_eq!(names, vec!["Images", "Documents", "Videos", "Audio", "Archives"]);
    assert_eq!(c.categories[0].extensions, vec!["jpg", "jpeg", "png", "gif", "bmp", "svg"]);
    assert_eq!(c.categories[1].extensions, vec!["pdf", "docx", "doc", "txt", "xlsx", "pptx"]);
    assert_eq!(c.categories[2].extensions, vec!["mp4", "mov", "avi", "mkv"]);
    assert_eq!(c.categories[3].extensions, vec!["mp3", "wav", "flac"]);
    assert_eq!(c.categories[4].extensions, vec!["zip", "rar", "7z"]);
    assert!(c.safe_paths.is_empty());
    assert_eq!(c.unsafe_paths, vec!["C:\\Windows", "C:\\Program Files", "/etc", "/bin"]);
}

#[test]
fn extensions_of_file_names() {
    assert_eq!(file_extension("a.jpg"), Some("jpg".to_string()));
    assert_eq!(file_extension("archive.tar.gz"), Some("gz".to_string()));
    assert_eq!(file_extension("trailing."), Some("".to_string()));
    assert_eq!(file_extension("..hidden"), Some("hidden".to_string()));
    assert_eq!(file_extension("README"), None);
    assert_eq!(file_extension(".bashrc"), None);
    assert_eq!(file_extension(".."), None);
    assert_eq!(file_extension(""), None);
    assert_eq!(file_extension("fotó.png"), Some("png".to_string()));
}

#[test]
fn category_lookup_folds_case() {
    let c = default_config();
    assert_eq!(get_file_category("jpg", &c.categories), Some("Images".to_string()));
    assert_eq!(get_file_category("JPG", &c.categories), Some("Images".to_string()));
    assert_eq!(get_file_category("Pdf", &c.categories), Some("Documents".to_string()));
    assert_eq!(get_file_category("7z", &c.categories), Some("Archives".to_string()));
    assert_eq!(get_file_category("xyz", &c.categories), None);
    assert_eq!(get_file_category("", &c.categories), None);
}

#[test]
fn empty_configuration_classifies_nothing() {
    let cats: Vec<Category> = Vec::new();
    assert_eq!(get_file_category("jpg", &cats), None);
    let entries = vec![file("a.jpg")];
    assert!(preview_counts(&entries, &cats).is_empty());
    assert!(plan_moves(&entries, &cats).is_empty());
}

#[test]
fn overlapping_extension_goes_to_exactly_one_category() {
    let cats = vec![category("Dup1", &["log"]), category("Dup2", &["log"])];
    let got = get_file_category("log", &cats).unwrap();
    assert!(got == "Dup1" || got == "Dup2");
    let entries = vec![file("server.log")];
    let rows = preview_counts(&entries, &cats);
    assert_eq!(rows.len(), 1);
    assert_eq!(rows[0].1, 1);
    assert!(rows[0].0 == "Dup1" || rows[0].0 == "Dup2");
    let moves = moves_of(&entries, &cats);
    assert_eq!(moves.len(), 1);
    assert_eq!(moves[0].0, "server.log");
}

#[test]
fn protection_by_equality_prefix_and_suffix() {
    let unsafe_paths = default_config().unsafe_paths;
    assert!(is_protected("/etc", &unsafe_paths));
    assert!(is_protected("/etc/nginx", &unsafe_paths));
    assert!(is_protected("/home/user/etc", &unsafe_paths));
    assert!(is_protected("/usr/bin", &unsafe_paths));
    assert!(is_protected("C:\\Windows\\System32", &unsafe_paths));
    assert!(is_protected("C:\\Program Files", &unsafe_paths));
    assert!(!is_protected("/home/user/Downloads", &unsafe_paths));
    assert!(!is_protected("/et", &unsafe_paths));
    assert!(!is_protected("", &unsafe_paths));
    assert!(!is_protected("/etc", &Vec::new()));
}

#[test]
fn protected_root_is_refused_with_its_path() {
    let c = default_config();
    match check_root("/etc/ssl", &c) {
        Err(OrganiseError::ProtectedPath(p)) => assert_eq!(p, "/etc/ssl"),
        _ => panic!("expected a protected-path refusal"),
    }
    assert!(check_root("/bin", &c).is_err());
    assert!(check_root("/home/user/Downloads", &c).is_ok());
}

#[test]
fn preview_and_commit_of_mixed_root() {
    let c = default_config();
    let entries = vec![file("a.jpg"), file("b.txt"), file("c.xyz")];
    let mut rows = preview_counts(&entries, &c.categories);
    rows.sort();
    assert_eq!(rows, vec![("Documents".to_string(), 1), ("Images".to_string(), 1)]);
    let moves = moves_of(&entries, &c.categories);
    assert_eq!(
        moves,
        vec![
            ("a.jpg".to_string(), "Images".to_string()),
            ("b.txt".to_string(), "Documents".to_string()),
        ]
    );
    assert_eq!(
        category_folders(&c),
        vec!["Images", "Documents", "Videos", "Audio", "Archives"]
    );
}

#[test]
fn preview_counts_add_up_to_moves() {
    let c = default_config();
    let entries = vec![
        file("a.jpg"),
        file("b.PNG"),
        file("song.mp3"),
        file("notes.txt"),
        file("clip.mkv"),
        file("other.bin"),
        folder("photos.jpg"),
        file("noext"),
    ];
    let rows = preview_counts(&entries, &c.categories);
    assert_eq!(
        rows,
        vec![
            ("Images".to_string(), 2),
            ("Documents".to_string(), 1),
            ("Videos".to_string(), 1),
            ("Audio".to_string(), 1),
        ]
    );
    let total: usize = rows.iter().map(|r| r.1).sum();
    assert_eq!(total, plan_moves(&entries, &c.categories).len());
}

#[test]
fn second_commit_moves_nothing() {
    let c = default_config();
    let before = vec![file("a.jpg"), file("b.txt"), file("c.xyz")];
    assert_eq!(plan_moves(&before, &c.categories).len(), 2);
    let after = vec![
        file("c.xyz"),
        folder("Images"),
        folder("Documents"),
        folder("Videos"),
        folder("Audio"),
        folder("Archives"),
    ];
    assert!(plan_moves(&after, &c.categories).is_empty());
    let rows = preview_counts(&after, &c.categories);
    assert!(rows.is_empty());
}

#[test]
fn unclassified_file_is_left_alone() {
    let c = default_config();
    let entries = vec![file("c.xyz"), file("a.jpg")];
    let moves = moves_of(&entries, &c.categories);
    assert!(moves.iter().all(|m| m.0 != "c.xyz"));
    assert_eq!(preview_counts(&entries, &c.categories), vec![("Images".to_string(), 1)]);
}

#[test]
fn directories_and_hidden_files_are_skipped() {
    let c = default_config();
    let entries = vec![folder("Images"), folder("x.jpg"), file(".jpg"), file("README")];
    assert!(preview_counts(&entries, &c.categories).is_empty());
    assert!(plan_moves(&entries, &c.categories).is_empty());
}

#[test]
fn empty_root_has_empty_preview() {
    let c = default_config();
    let entries: Vec<Entry> = Vec::new();
    assert!(preview_counts(&entries, &c.categories).is_empty());
    assert!(plan_moves(&entries, &c.categories).is_empty());
}
