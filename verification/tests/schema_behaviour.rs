use yfiles::fs_engine::{format_size_decimal, inspect_entry, FileEntry, FileMeta};
use yfiles::schema::{
    browse_document, document, place_candidates, places_document, preview_document,
    preview_target, viewer_document, Document, PathFacts, Row, ToolButton, Widget,
};
use yfiles::server::PaneState;
use yfiles::state::{Store, ViewerState};

fn entry(dir: &str, name: &str, is_dir: bool, size: u64, when: &str) -> FileEntry {
    let meta = FileMeta {
        is_dir,
        len: size,
        mode: 0o100644,
        modified: None,
        modified_local: if when.is_empty() { None } else { Some(when.to_string()) },
    };
    FileEntry::from_path(format!("{}/{}", dir, name), &meta)
}

fn pane_at(path: &str) -> PaneState {
    PaneState::new(Store::new("/home/u".to_string(), path.to_string()))
}

fn rows(d: &Document) -> Vec<Row> {
    d.widgets
        .iter()
        .filter_map(|w| match w {
            Widget::Row(r) => Some(r.clone()),
            _ => None,
        })
        .collect()
}

fn labels(ws: &[Widget]) -> Vec<(String, bool)> {
    ws.iter()
        .filter_map(|w| match w {
            Widget::Label { text, muted } => Some((text.clone(), *muted)),
            _ => None,
        })
        .collect()
}

fn sample() -> Vec<FileEntry> {
    vec![
        entry("/home/u/docs", "Photos", true, 0, "2024-01-02 10:00"),
        entry("/home/u/docs", "notes.TXT", false, 1500, "2024-01-03 09:30"),
        entry("/home/u/docs", "todo.txt", false, 20, ""),
        entry("/home/u/docs", "report.pdf", false, 0, ""),
    ]
}

#[test]
fn browse_document_lists_every_entry_with_toolbars() {
    let pane = pane_at("/home/u/docs");
    let d = browse_document(&pane, &sample(), Some(2_000_000));
    assert_eq!(d.title, "/home/u/docs");
    match &d.widgets[0] {
        Widget::Toolbar { id, buttons } => {
            assert_eq!(id, "breadcrumbs");
            let actions: Vec<_> = buttons.iter().map(|b| b.action.as_str()).collect();
            assert_eq!(actions, vec!["navigate:/", "navigate:/home", "navigate:/home/u", "navigate:/home/u/docs"]);
            assert_eq!(buttons[0].label, "/");
            assert_eq!(buttons[3].label, "docs");
            assert_eq!(buttons[3].title.as_deref(), Some("/home/u/docs"));
        }
        other => panic!("unexpected first widget {:?}", other),
    }
    match &d.widgets[1] {
        Widget::Toolbar { id, buttons } => {
            assert_eq!(id, "actions");
            assert_eq!(buttons.len(), 4);
            assert_eq!(buttons[2].label, "Show hidden");
        }
        other => panic!("unexpected second widget {:?}", other),
    }
    assert!(matches!(&d.widgets[2], Widget::SearchBox { value, .. } if value.is_empty()));
    assert!(matches!(&d.widgets[3], Widget::Tabs { id, active, .. } if id == "view_mode" && active == "details"));
    assert!(matches!(&d.widgets[4], Widget::Tabs { id, active, tabs, .. } if id == "sort" && active == "name" && tabs.len() == 4));
    let r = rows(&d);
    assert_eq!(r.len(), 4);
    assert_eq!(r[0].title, "Photos");
    assert_eq!(r[0].icon, "icon:folder");
    assert_eq!(r[0].subtitle.as_deref(), Some(""));
    assert_eq!(r[1].subtitle.as_deref(), Some(format!("{}  •  2024-01-03 09:30", format_size_decimal(1500)).as_str()));
    assert_eq!(r[2].subtitle.as_deref(), Some(format_size_decimal(20).as_str()));
    assert_eq!(r[1].row_action, "open_path");
    assert_eq!(r[1].id, "/home/u/docs/notes.TXT");
    assert_eq!(r[1].actions, vec![ToolButton {
        action: "trash".to_string(),
        label: "icon:trash".to_string(),
        title: Some("Move to Trash (Delete)".to_string()),
    }]);
    assert_eq!(r[1].menu.len(), 3);
    assert!(r.iter().all(|x| x.selected == Some(false) && x.rename.is_none()));
    let footer = d.footer.unwrap();
    assert_eq!(labels(&footer), vec![(format!("4 items  •  Free: {}", format_size_decimal(2_000_000)), false)]);
}

#[test]
fn browse_document_marks_selection_and_rename_by_path() {
    let mut pane = pane_at("/home/u/docs");
    pane.store.selected = Some("/home/u/docs/todo.txt/".to_string());
    pane.renaming = Some("/home/u/docs//Photos".to_string());
    pane.show_new_folder = true;
    pane.store.show_hidden = true;
    let d = browse_document(&pane, &sample(), None);
    assert!(matches!(&d.widgets[2], Widget::TextInput { id, action, .. } if id == "new_folder_name" && action == "create_folder"));
    match &d.widgets[1] {
        Widget::Toolbar { buttons, .. } => assert_eq!(buttons[2].label, "Hide hidden"),
        other => panic!("unexpected widget {:?}", other),
    }
    let r = rows(&d);
    assert_eq!(r[2].selected, Some(true));
    assert_eq!(r.iter().filter(|x| x.selected == Some(true)).count(), 1);
    assert_eq!(r[0].rename.as_deref(), Some("Photos"));
    assert_eq!(labels(&d.footer.unwrap()), vec![("4 items Selected: todo.txt  •  Free: ".to_string(), false)]);
}

#[test]
fn browse_document_filters_case_insensitively() {
    let mut pane = pane_at("/home/u/docs");
    pane.filter = "  TxT ".to_string();
    let d = browse_document(&pane, &sample(), None);
    let titles: Vec<_> = rows(&d).into_iter().map(|r| r.title).collect();
    assert_eq!(titles, vec!["notes.TXT", "todo.txt"]);
    pane.filter = "zzz".to_string();
    let d = browse_document(&pane, &sample(), None);
    assert!(rows(&d).is_empty());
    assert_eq!(labels(&d.widgets), vec![("No match for \"zzz\".".to_string(), true)]);
}

#[test]
fn browse_document_of_empty_folder_says_so() {
    let pane = pane_at("/");
    let d = browse_document(&pane, &Vec::new(), None);
    assert_eq!(labels(&d.widgets), vec![("Empty folder.".to_string(), true)]);
    assert_eq!(labels(&d.footer.unwrap()), vec![("0 items  •  Free: ".to_string(), false)]);
}

#[test]
fn viewer_document_shows_position_and_filmstrip() {
    let v = ViewerState {
        image_path: "/p/b.JPEG".to_string(),
        images: vec!["/p/a.png".to_string(), "/p/b.JPEG".to_string(), "/p/c".to_string()],
        index: 1,
    };
    let d = viewer_document(&v);
    assert_eq!(d.title, "b.JPEG");
    assert_eq!(labels(&d.widgets), vec![("b.JPEG  —  2 / 3".to_string(), false)]);
    assert!(d.widgets.iter().any(|w| matches!(w, Widget::Markdown { source, .. } if source == "![b.JPEG](file:///p/b.JPEG)")));
    let r = rows(&d);
    let icons: Vec<_> = r.iter().map(|x| x.icon.as_str()).collect();
    assert_eq!(icons, vec!["file:png", "file:jpeg", "file:·"]);
    assert_eq!(r[1].selected, Some(true));
    assert_eq!(r[0].row_action, "viewer_jump:/p/a.png");
    assert_eq!(r[0].id, "strip:/p/a.png");
    let footer = d.footer.unwrap();
    assert_eq!(labels(&footer), vec![("/p/b.JPEG  2 / 3".to_string(), false)]);
    assert!(matches!(&footer[1], Widget::Button { action, .. } if action == "close_viewer"));
}

#[test]
fn viewer_with_empty_filmstrip_counts_one() {
    let v = ViewerState { image_path: "/p/x.gif".to_string(), images: vec![], index: 0 };
    let d = viewer_document(&v);
    assert_eq!(labels(&d.widgets), vec![("x.gif  —  1 / 1".to_string(), false)]);
    assert!(rows(&d).is_empty());
    assert!(!d.widgets.iter().any(|w| matches!(w, Widget::Section { .. })));
}

#[test]
fn document_prefers_the_viewer() {
    let mut pane = pane_at("/p");
    let browse = document(&pane, &Vec::new(), None);
    assert_eq!(browse.title, "/p");
    pane.store.viewer = Some(ViewerState { image_path: "/p/a.png".to_string(), images: vec!["/p/a.png".to_string()], index: 0 });
    let shown = document(&pane, &Vec::new(), None);
    assert_eq!(shown.title, "a.png");
}

#[test]
fn places_document_lists_places_devices_tabs_recent() {
    let cands = place_candidates("/home/u");
    let paths: Vec<_> = cands.iter().map(|c| c.1.as_str()).collect();
    assert_eq!(paths, vec!["/home/u", "/", "/home/u/Documents", "/home/u/Downloads", "/home/u/Pictures", "/home/u/Videos"]);
    let mut pane = pane_at("/home/u/Pictures");
    pane.store.tabs = vec!["/home/u".to_string(), "/home/u/Pictures/".to_string()];
    pane.store.recent = (0..9).map(|i| format!("/r/{}", i)).collect();
    let mounts: Vec<String> = (0..12).map(|i| format!("/mnt/m{}", i)).collect();
    let present = vec![false, false, true, false, true, false];
    let d = places_document(&pane, "/home/u", &present, &mounts);
    assert_eq!(d.title, "Places & Tabs");
    assert!(d.footer.is_none());
    let r = rows(&d);
    let place_titles: Vec<_> = r.iter().filter(|x| x.id.starts_with("place:")).map(|x| x.title.as_str()).collect();
    assert_eq!(place_titles, vec!["Home", "Root", "Documents", "Pictures"]);
    let pictures = r.iter().find(|x| x.id == "place:/home/u/Pictures").unwrap();
    assert_eq!(pictures.selected, Some(true));
    assert_eq!(pictures.row_action, "navigate:/home/u/Pictures");
    assert_eq!(r.iter().filter(|x| x.id.starts_with("mount:")).count(), 10);
    let tabs: Vec<_> = r.iter().filter(|x| x.id.starts_with("tab:")).collect();
    assert_eq!(tabs.len(), 2);
    assert_eq!(tabs[0].title, "u");
    assert_eq!(tabs[1].selected, Some(true));
    assert_eq!(tabs[1].row_action, "switch_tab:/home/u/Pictures/");
    assert_eq!(tabs[0].actions[0].action, "close_tab:/home/u");
    let recent: Vec<_> = r.iter().filter(|x| x.id.starts_with("recent:")).collect();
    assert_eq!(recent.len(), 8);
    assert_eq!(recent[0].selected, None);
    let sections: Vec<_> = d
        .widgets
        .iter()
        .filter_map(|w| match w {
            Widget::Section { text, action, .. } => Some((text.as_str(), action.is_some())),
            _ => None,
        })
        .collect();
    assert_eq!(sections, vec![("Places", false), ("Devices", false), ("Tabs", true), ("Recent", false)]);
}

#[test]
fn places_without_mounts_or_recent_omit_their_sections() {
    let pane = pane_at("/");
    let d = places_document(&pane, "/root", &vec![], &vec![]);
    let r = rows(&d);
    assert_eq!(r.len(), 2);
    assert_eq!(r[1].selected, Some(true));
    assert_eq!(r[1].title, "Root");
    assert!(!d.widgets.iter().any(|w| matches!(w, Widget::Section { text, .. } if text == "Devices" || text == "Recent")));
}

#[test]
fn preview_document_for_a_file_lists_properties() {
    let mut pane = pane_at("/home/u");
    pane.store.selected = Some("/home/u/a.png".to_string());
    assert_eq!(preview_target(&pane), "/home/u/a.png");
    let e = entry("/home/u", "a.png", false, 10, "2024-05-06 07:08");
    let info = inspect_entry(e, None);
    let facts = PathFacts { is_file: true, is_dir: false, info: Ok(info) };
    let d = preview_document(&pane, &facts);
    assert_eq!(d.title, "Preview & Properties");
    assert!(matches!(&d.widgets[1], Widget::Markdown { source, .. } if source == "![a.png](file:///home/u/a.png)"));
    let texts: Vec<_> = labels(&d.widgets).into_iter().map(|l| l.0).collect();
    assert_eq!(texts, vec![
        "Name: a.png".to_string(),
        "Path: /home/u/a.png".to_string(),
        "Type: image/png".to_string(),
        format!("Size: {}", format_size_decimal(10)),
        "Modified: 2024-05-06 07:08".to_string(),
        "Permissions: 0644".to_string(),
    ]);
    assert_eq!(labels(&d.footer.unwrap()), vec![("/home/u/a.png".to_string(), false)]);
}

#[test]
fn preview_document_reports_kind_and_failures() {
    let pane = pane_at("/srv/data");
    let facts = PathFacts { is_file: false, is_dir: true, info: Err("stat /srv/data".to_string()) };
    let d = preview_document(&pane, &facts);
    assert_eq!(labels(&d.widgets), vec![
        ("Folder".to_string(), false),
        ("Cannot inspect: stat /srv/data".to_string(), true),
    ]);
    let mut pane = pane_at("/x");
    pane.store.selected = Some("/x/archive.".to_string());
    let facts = PathFacts { is_file: true, is_dir: false, info: Err("gone".to_string()) };
    let d = preview_document(&pane, &facts);
    assert_eq!(labels(&d.widgets)[0].0, "File  •  no extension");
    pane.store.selected = Some("/x/archive.tar.gz".to_string());
    let d = preview_document(&pane, &facts);
    assert_eq!(labels(&d.widgets)[0].0, "File  •  gz");
    let dir = entry("/x", "sub", true, 0, "");
    let info = inspect_entry(dir, Some(7));
    pane.store.selected = Some("/x/sub".to_string());
    let d = preview_document(&pane, &PathFacts { is_file: false, is_dir: true, info: Ok(info) });
    assert!(labels(&d.widgets).iter().any(|l| l.0 == "Items: 7"));
    assert!(!labels(&d.widgets).iter().any(|l| l.0.starts_with("Size: ")));
}

#[test]
fn preview_document_follows_the_viewer() {
    let mut pane = pane_at("/p");
    pane.store.viewer = Some(ViewerState { image_path: "/p/a.png".to_string(), images: vec!["/p/a.png".to_string()], index: 0 });
    assert_eq!(preview_target(&pane), "/p/a.png");
    let e = entry("/p", "a.png", false, 3, "2020-01-01 00:00");
    let facts = PathFacts { is_file: true, is_dir: false, info: Ok(inspect_entry(e, None)) };
    let d = preview_document(&pane, &facts);
    assert_eq!(d.title, "Preview");
    assert!(d.footer.is_none());
    let texts: Vec<_> = labels(&d.widgets).into_iter().map(|l| l.0).collect();
    assert_eq!(texts, vec![
        format!("{}  •  image/png", format_size_decimal(3)),
        "Modified: 2020-01-01 00:00".to_string(),
        "Mode: 0644".to_string(),
    ]);
    match d.widgets.last().unwrap() {
        Widget::Toolbar { id, buttons } => {
            assert_eq!(id, "viewer_preview_actions");
            assert!(buttons.iter().all(|b| b.title.is_none()));
        }
        other => panic!("unexpected widget {:?}", other),
    }
}

#[test]
fn blank_filter_lists_every_entry_in_listing_order() {
    let mut pane = pane_at("/home/u/docs");
    pane.filter = " \t ".to_string();
    let entries = sample();
    let d = browse_document(&pane, &entries, None);
    let ids: Vec<_> = rows(&d).into_iter().map(|r| r.id).collect();
    let paths: Vec<_> = entries.iter().map(|e| e.path.clone()).collect();
    assert_eq!(ids, paths);
}
