use yfiles::fs_engine::{
    format_size_decimal, icon_for, inspect_entry, is_image_path, FileEntry, FileMeta, SortKind,
};
use yfiles::listing::order_listing;

fn entry(name: &str, is_dir: bool, size: u64, modified: Option<i64>) -> FileEntry {
    let meta = FileMeta { is_dir, len: size, mode: 0o100644, modified, modified_local: None };
    FileEntry::from_path(format!("/d/{}", name), &meta)
}

fn sample_directory() -> Vec<FileEntry> {
    vec![
        entry("notes.txt", false, 12, Some(10)),
        entry("Projects", true, 0, Some(20)),
        entry(".hidden_probe", false, 1, Some(30)),
        entry("visible_probe", false, 1, Some(40)),
        entry("archive", true, 0, None),
        entry("a.png", false, 300, Some(5)),
    ]
}

#[test]
fn listing_returns_sorted_dirs_first() {
    for sort in [SortKind::Name, SortKind::Size, SortKind::Modified, SortKind::Kind] {
        let entries = order_listing(sample_directory(), true, sort);
        let first_file_idx = entries.iter().position(|e| !e.is_dir);
        let last_dir_idx = entries.iter().rposition(|e| e.is_dir);
        if let (Some(first_file), Some(last_dir)) = (first_file_idx, last_dir_idx) {
            assert!(last_dir < first_file, "dirs first in {:?}", entries.iter().map(|e| &e.name).collect::<Vec<_>>());
        }
    }
}

#[test]
fn listing_hides_dotfiles_unless_asked() {
    let without_hidden = order_listing(sample_directory(), false, SortKind::Name);
    let with_hidden = order_listing(sample_directory(), true, SortKind::Name);
    assert!(!without_hidden.iter().any(|e| e.name == ".hidden_probe"));
    assert!(with_hidden.iter().any(|e| e.name == ".hidden_probe"));
    assert!(without_hidden.iter().any(|e| e.name == "visible_probe"));
    assert_eq!(with_hidden.len(), 6);
    assert_eq!(without_hidden.len(), 5);
    for sort in [SortKind::Name, SortKind::Size, SortKind::Modified, SortKind::Kind] {
        let all = order_listing(sample_directory(), true, sort);
        let vis = order_listing(sample_directory(), false, sort);
        let expected: Vec<FileEntry> = all.into_iter().filter(|e| !e.is_hidden).collect();
        assert_eq!(vis, expected);
    }
}

#[test]
fn is_image_path_recognises_jpeg_and_png() {
    assert!(is_image_path("/home/user/photos/img.jpg"));
    assert!(is_image_path("/home/user/photos/pic.png"));
    assert!(!is_image_path("/home/user/docs/report.pdf"));
}

#[test]
fn image_extension_is_case_insensitive() {
    assert!(is_image_path("/p/IMG.JPEG"));
    assert!(is_image_path("/p/a.Svg"));
    assert!(!is_image_path("/p/noext"));
}

#[test]
fn sort_keywords_round_trip() {
    for k in [SortKind::Name, SortKind::Size, SortKind::Modified, SortKind::Kind] {
        assert_eq!(SortKind::parse(k.as_str()), Some(k));
    }
    assert_eq!(SortKind::parse("Name"), None);
    assert_eq!(SortKind::parse(""), None);
}

#[test]
fn entry_fields_from_path() {
    let e = entry("Photo.Markdown", false, 1400, Some(5));
    assert_eq!(e.name, "Photo.Markdown");
    assert_eq!(e.extension, "markdown");
    assert_eq!(e.icon, "file:mark");
    assert!(!e.is_hidden);
    assert_eq!(e.mode, 0o644);
    assert_eq!(e.size_display, format_size_decimal(1400));
    assert_eq!(e.size_display, humansize::format_size(1400u64, humansize::DECIMAL));
    let d = entry(".config", true, 4096, None);
    assert!(d.is_hidden);
    assert_eq!(d.size, 0);
    assert_eq!(d.mime, "inode/directory");
    assert_eq!(d.icon, "icon:folder");
    assert_eq!(d.size_display, "");
    let n = entry("README", false, 3, None);
    assert_eq!(n.icon, "file:·");
    assert_eq!(n.mime, "application/octet-stream");
    let png = entry("x.png", false, 3, None);
    assert_eq!(png.mime, "image/png");
}

#[test]
fn icon_badge_cut_on_char_boundary() {
    assert_eq!(icon_for("", "jpeg", false), "file:jpeg");
    assert_eq!(icon_for("", "ÄÖÜ", false), "file:äö");
    let meta = FileMeta { is_dir: false, len: 1, mode: 0, modified: None, modified_local: None };
    // "aéé" lower-cased is five bytes with byte 4 inside a character
    assert!(FileEntry::try_from_path("/x/f.aéé".to_string(), &meta).is_none());
    assert!(FileEntry::try_from_path("/x/f.éé".to_string(), &meta).is_some());
}

#[test]
fn listing_orders_dirs_first_then_by_kind() {
    let entries = vec![
        entry("b.txt", false, 10, Some(3)),
        entry("A.txt", false, 30, Some(1)),
        entry("zdir", true, 0, Some(2)),
        entry("c.md", false, 20, None),
        entry(".h", false, 1, Some(9)),
        entry("adir", true, 0, None),
    ];
    let names = |v: Vec<FileEntry>| v.into_iter().map(|e| e.name).collect::<Vec<_>>();
    assert_eq!(names(order_listing(entries.clone(), false, SortKind::Name)),
        vec!["adir", "zdir", "A.txt", "b.txt", "c.md"]);
    assert_eq!(names(order_listing(entries.clone(), true, SortKind::Size)),
        vec!["zdir", "adir", "A.txt", "c.md", "b.txt", ".h"]);
    assert_eq!(names(order_listing(entries.clone(), true, SortKind::Modified)),
        vec!["zdir", "adir", ".h", "b.txt", "A.txt", "c.md"]);
    assert_eq!(names(order_listing(entries.clone(), false, SortKind::Kind)),
        vec!["adir", "zdir", "c.md", "A.txt", "b.txt"]);
}

#[test]
fn inspect_entry_fields() {
    let e = entry("clip.mp4", false, 5, None);
    let i = inspect_entry(e.clone(), Some(3));
    assert_eq!(i.mode_display, "0644");
    assert!(i.is_video);
    assert!(!i.is_image && !i.is_audio);
    assert_eq!(i.child_count, None);
    let d = entry("dir", true, 0, None);
    assert_eq!(inspect_entry(d, Some(3)).child_count, Some(3));
}

#[test]
fn modification_time_text_is_empty_only_when_unknown() {
    let known = FileMeta {
        is_dir: false,
        len: 1,
        mode: 0o100644,
        modified: None,
        modified_local: Some("1969-12-31 23:00".to_string()),
    };
    assert_eq!(FileEntry::from_path("/t/old.txt".to_string(), &known).modified_display, "1969-12-31 23:00");
    let unknown = FileMeta { modified_local: None, ..known };
    assert_eq!(FileEntry::from_path("/t/old.txt".to_string(), &unknown).modified_display, "");
}
