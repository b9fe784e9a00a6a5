use std::path::PathBuf;

use tuimux::files::{sort_entries, FileEntry, FileListing};

#[test]
fn directories_sort_before_files() {
    let mut v = vec![
        FileEntry {
            name: "zfile".into(),
            is_dir: false,
            size_bytes: 1,
            size_display: "1B".into(),
        },
        FileEntry {
            name: "adir".into(),
            is_dir: true,
            size_bytes: 0,
            size_display: "dir".into(),
        },
        FileEntry {
            name: "bfile".into(),
            is_dir: false,
            size_bytes: 1,
            size_display: "1B".into(),
        },
        FileEntry {
            name: "Cdir".into(),
            is_dir: true,
            size_bytes: 0,
            size_display: "dir".into(),
        },
    ];
    sort_entries(&mut v);
    let names: Vec<&str> = v.iter().map(|e| e.name.as_str()).collect();
    assert_eq!(names, vec!["adir", "Cdir", "bfile", "zfile"]);
}

#[test]
fn entries_render_sizes_and_directory_marker() {
    let file = FileEntry::from_metadata("notes.txt".to_string(), false, 1536);
    assert_eq!(file.size_display, "1.5K");
    let dir = FileEntry::from_metadata("src".to_string(), true, 4096);
    assert_eq!(dir.size_display, "dir");
    assert_eq!(dir.size_bytes, 4096);
}

#[test]
fn listing_sorts_its_entries_and_keeps_the_error() {
    let entries = vec![
        FileEntry::from_metadata("b.rs".to_string(), false, 10),
        FileEntry::from_metadata("Z".to_string(), true, 0),
        FileEntry::from_metadata("a.rs".to_string(), false, 20),
        FileEntry::from_metadata("ÉCOLE".to_string(), false, 1),
        FileEntry::from_metadata("école2".to_string(), false, 1),
    ];
    let listing = FileListing::from_entries(PathBuf::from("."), entries, Some("partial read".to_string()));
    let names: Vec<&str> = listing.entries.iter().map(|e| e.name.as_str()).collect();
    assert_eq!(names, vec!["Z", "a.rs", "b.rs", "ÉCOLE", "école2"]);
    assert_eq!(listing.error.as_deref(), Some("partial read"));
    assert_eq!(listing.base_path, PathBuf::from("."));
}

#[test]
fn names_equal_but_for_case_keep_their_order() {
    let mut v = vec![
        FileEntry::from_metadata("README".to_string(), false, 3),
        FileEntry::from_metadata("lib".to_string(), true, 0),
        FileEntry::from_metadata("readme".to_string(), false, 1),
        FileEntry::from_metadata("Readme".to_string(), false, 2),
        FileEntry::from_metadata("LIB".to_string(), true, 0),
    ];
    sort_entries(&mut v);
    let names: Vec<&str> = v.iter().map(|e| e.name.as_str()).collect();
    assert_eq!(names, vec!["lib", "LIB", "README", "readme", "Readme"]);
}
