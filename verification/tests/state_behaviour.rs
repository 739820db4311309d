use std::path::Path;
use yfiles::fs_engine::{FileEntry, FileMeta, SortKind};
use yfiles::state::{
    sanitize_filename, OpenPlan, PathKind, Resolved, SessionData, Store, StoreError, ViewMode,
    ViewerState,
};

fn store_at(p: &str) -> Store {
    let mut s = Store::new("/home/u".to_string(), p.to_string());
    s.settle(true, "/".to_string());
    s
}

#[test]
fn sanitize_rejects_slash() {
    assert_eq!(sanitize_filename("a/b"), "");
    assert_eq!(sanitize_filename("  my folder  "), "my folder");
}

#[test]
fn sanitize_is_idempotent_and_rejects_nul() {
    for n in ["  x ", "a\0b", "\t", "ok.txt"] {
        let once = sanitize_filename(n);
        assert_eq!(sanitize_filename(&once), once);
    }
    assert_eq!(sanitize_filename("a\0b"), "");
}

#[test]
fn breadcrumb_segments_cover_path() {
    let mut store = store_at("/");
    store.current_path = "/home/user/documents".to_string();
    let segs = store.breadcrumb_segments();
    assert!(segs.last().unwrap().1 == "/home/user/documents");
    let labels: Vec<_> = segs.iter().map(|s| s.0.as_str()).collect();
    assert_eq!(labels, vec!["/", "home", "user", "documents"]);
    assert_eq!(segs[1].1, "/home");
}

#[test]
fn navigate_persists_and_restores() {
    let mut store = store_at("/home/u");
    store.navigate("/tmp/yfiles-store-test-1".to_string(), PathKind::Directory).unwrap();
    let saved = store.session_data();
    let mut store2 = Store::new("/home/u".to_string(), "/home/u".to_string());
    store2.apply_session(saved);
    store2.settle(true, "/".to_string());
    assert_eq!(store2.current_path, "/tmp/yfiles-store-test-1");
    assert_eq!(store2.tabs, store.tabs);
}

#[test]
fn navigate_updates_tabs_recent_and_epoch() {
    let mut s = store_at("/a");
    s.selected = Some("/a/x".to_string());
    let e0 = s.epoch;
    assert_eq!(
        s.navigate("/b".to_string(), PathKind::Missing),
        Err(StoreError::DoesNotExist("/b".to_string()))
    );
    assert_eq!(s.epoch, e0);
    assert_eq!(
        s.navigate("/b".to_string(), PathKind::Other),
        Err(StoreError::NotADirectory("/b".to_string()))
    );
    s.navigate("/b".to_string(), PathKind::Directory).unwrap();
    assert_eq!(s.current_path, "/b");
    assert_eq!(s.selected, None);
    assert_eq!(s.tabs, vec!["/a".to_string(), "/b".to_string()]);
    assert_eq!(s.recent, vec!["/b".to_string()]);
    assert_eq!(s.epoch, e0 + 1);
    s.navigate("/a/".to_string(), PathKind::Directory).unwrap();
    assert_eq!(s.tabs.len(), 2, "/a/ is the same path as /a");
    s.navigate("/b".to_string(), PathKind::Directory).unwrap();
    assert_eq!(s.recent, vec!["/b".to_string(), "/a/".to_string()]);
}

#[test]
fn recent_and_tabs_are_bounded() {
    let mut s = store_at("/r");
    for i in 0..30 {
        s.navigate(format!("/d{}", i), PathKind::Directory).unwrap();
    }
    assert_eq!(s.recent.len(), 20);
    assert_eq!(s.recent[0], "/d29");
    assert_eq!(s.tabs.len(), 20);
    assert_eq!(s.tabs[19], "/d29");
}

#[test]
fn recent_never_repeats_a_path() {
    let mut s = store_at("/r");
    for p in ["/a", "/b", "/a/", "/c//d", "/b", "/c/d/."] {
        s.navigate(p.to_string(), PathKind::Directory).unwrap();
    }
    assert_eq!(s.recent, vec!["/c/d/.", "/b", "/a/"]);
    assert_eq!(s.tabs, vec!["/r", "/a", "/b", "/c//d"]);
}

#[test]
fn navigate_up_and_root() {
    let mut s = store_at("/a/b");
    assert_eq!(s.up_target(), Some("/a".to_string()));
    s.navigate_up(Resolved { path: "/a".to_string(), kind: PathKind::Directory }).unwrap();
    assert_eq!(s.current_path, "/a");
    let mut r = store_at("/");
    assert_eq!(r.up_target(), None);
    assert_eq!(
        r.navigate_up(Resolved { path: "/".to_string(), kind: PathKind::Directory }),
        Err(StoreError::AlreadyAtRoot)
    );
    assert_eq!(StoreError::AlreadyAtRoot.message(), "already at root");
}

#[test]
fn close_tab_keeps_one() {
    let mut s = store_at("/a");
    s.navigate("/b".to_string(), PathKind::Directory).unwrap();
    let e = s.epoch;
    assert_eq!(s.close_tab("/a"), None);
    assert_eq!(s.tabs, vec!["/b".to_string()]);
    assert_eq!(s.epoch, e + 1);
    assert_eq!(s.close_tab("/b/"), Some("/b".to_string()));
    assert_eq!(s.tabs, vec!["/b".to_string()]);
    assert_eq!(s.epoch, e + 1);
    // Entering the next tab moves the version once, whether it succeeds...
    s.enter_next_tab(Resolved { path: "/b".to_string(), kind: PathKind::Directory }).unwrap();
    assert_eq!(s.epoch, e + 2);
    // ...or fails.
    let mut t = store_at("/a");
    t.navigate("/gone".to_string(), PathKind::Directory).unwrap();
    let f = t.epoch;
    let next = t.close_tab("/gone").unwrap();
    assert_eq!(t.epoch, f);
    assert_eq!(
        t.enter_next_tab(Resolved { path: next, kind: PathKind::Missing }),
        Err(StoreError::DoesNotExist("/a".to_string()))
    );
    assert_eq!(t.epoch, f + 1);
    assert_eq!(t.current_path, "/gone");
}

#[test]
fn viewer_steps_over_an_empty_filmstrip_do_nothing() {
    let mut s = store_at("/p");
    s.viewer = Some(ViewerState { image_path: "/p/x.png".to_string(), images: vec![], index: usize::MAX });
    let e = s.epoch;
    s.viewer_next();
    s.viewer_prev();
    assert_eq!(s.epoch, e);
    assert_eq!(s.viewer.as_ref().unwrap().index, usize::MAX);
}

#[test]
fn occupied_destinations_are_refused() {
    assert_eq!(Store::free_destination("/a/b".to_string(), true), Err(StoreError::DestinationExists("/a/b".to_string())));
    assert_eq!(Store::free_destination("/a/b".to_string(), false), Ok("/a/b".to_string()));
}

#[test]
fn restored_store_has_no_viewer() {
    let mut s = Store::new("/home/u".to_string(), "/home/u".to_string());
    let saved = store_at("/srv").session_data();
    s.apply_session(saved);
    s.settle(false, "/home/u".to_string());
    assert!(s.viewer.is_none());
    assert_eq!(s.view_mode, ViewMode::Details);
    assert_eq!(s.current_path, "/home/u");
    assert!(!s.tabs.is_empty());
}

#[test]
fn toggles_and_selection() {
    let mut s = store_at("/a");
    let h = s.show_hidden;
    s.toggle_hidden();
    s.toggle_hidden();
    assert_eq!(s.show_hidden, h);
    s.set_sort(SortKind::Size);
    assert_eq!(s.sort, SortKind::Size);
    s.select("/a/f".to_string());
    assert_eq!(s.selected.as_deref(), Some("/a/f"));
}

#[test]
fn folder_and_rename_targets() {
    let s = store_at("/a");
    let plan = s.folder_target("  new one ").unwrap();
    assert_eq!(plan.name, "new one");
    assert_eq!(plan.path, "/a/new one");
    assert_eq!(s.folder_target(" ").unwrap_err(), StoreError::FolderNameEmpty);
    assert_eq!(s.rename_target("/x/y/old.txt", "new.txt").unwrap(), "/x/y/new.txt");
    assert_eq!(s.rename_target("/x/old.txt", "a/b").unwrap_err(), StoreError::NewNameEmpty);
}

#[test]
fn cleaned_names_stay_inside_the_folder() {
    for dir in ["/a", "/a/", "/", "rel/dir", ""] {
        let s = store_at(dir);
        let plan = s.folder_target(" child ").unwrap();
        assert_eq!(Path::new(&plan.path).parent().unwrap(), Path::new(dir));
        assert_eq!(Path::new(&plan.path).file_name().unwrap(), "child");
    }
    // `..` is the one cleaned name that climbs out.
    let s = store_at("/a/b");
    assert_eq!(s.folder_target("..").unwrap().path, "/a/b/..");
}

fn image(path: &str) -> FileEntry {
    let meta = FileMeta { is_dir: false, len: 1, mode: 0, modified: None, modified_local: None };
    FileEntry::from_path(path.to_string(), &meta)
}

#[test]
fn viewer_cycle_and_rename_and_trash() {
    let mut s = store_at("/p");
    match s.open("/p/b.png".to_string(), false) {
        OpenPlan::View(d) => assert_eq!(d, "/p"),
        other => panic!("unexpected {:?}", other),
    }
    let listing = vec![image("/p/a.png"), image("/p/b.png"), image("/p/notes.txt"), image("/p/c.jpg")];
    s.open_viewer("/p/b.png".to_string(), &listing);
    let v = s.viewer.clone().unwrap();
    assert_eq!(v.images, vec!["/p/a.png", "/p/b.png", "/p/c.jpg"]);
    assert_eq!(v.index, 1);
    s.viewer_next();
    s.viewer_next();
    assert_eq!(s.viewer.as_ref().unwrap().index, 0);
    s.viewer_prev();
    assert_eq!(s.viewer.as_ref().unwrap().image_path, "/p/c.jpg");
    assert_eq!(s.selected.as_deref(), Some("/p/c.jpg"));
    s.viewer_next();
    s.viewer_prev();
    assert_eq!(s.viewer.as_ref().unwrap().index, 2);
    s.apply_rename("/p/c.jpg", "/p/d.jpg".to_string());
    let v: ViewerState = s.viewer.clone().unwrap();
    assert_eq!(v.image_path, "/p/d.jpg");
    assert_eq!(v.images[2], "/p/d.jpg");
    assert_eq!(s.selected.as_deref(), Some("/p/d.jpg"));
    s.apply_trash("/p/d.jpg");
    assert!(s.viewer.is_none());
    assert!(s.selected.is_none());
    assert_eq!(s.open("/p/notes.txt".to_string(), false), OpenPlan::Select);
    assert_eq!(s.selected.as_deref(), Some("/p/notes.txt"));
    assert_eq!(s.open("/p".to_string(), true), OpenPlan::Navigate);
}

#[test]
fn session_filters_relative_tabs_and_bad_values() {
    let mut s = store_at("/a");
    s.apply_session(SessionData {
        current_path: None,
        tabs: Some(vec![Some("/x".to_string()), None, Some("rel".to_string())]),
        show_hidden: Some(true),
        sort: Some("bogus".to_string()),
        recent: Some(vec![None, Some("/r".to_string()), None]),
        epoch: Some(0),
    });
    assert_eq!(s.tabs, vec!["/x".to_string()]);
    assert_eq!(s.recent, vec!["/r".to_string()]);
    assert!(s.show_hidden);
    assert_eq!(s.sort, SortKind::Name);
    assert_eq!(s.epoch, 1);
    assert_eq!(Store::state_dir("/home/u"), "/home/u/.yggterm/yfiles");
    assert_eq!(s.session_path(), "/home/u/.yggterm/yfiles/session.json");
}

#[test]
fn error_messages() {
    let cases = [
        (StoreError::DoesNotExist("/x".to_string()), "path does not exist: /x"),
        (StoreError::NotADirectory("/f".to_string()), "not a directory: /f"),
        (StoreError::AlreadyAtRoot, "already at root"),
        (StoreError::FolderNameEmpty, "folder name is empty"),
        (StoreError::NewNameEmpty, "new name is empty"),
        (StoreError::DestinationExists("/a/b".to_string()), "destination exists: /a/b"),
    ];
    for (e, text) in cases {
        assert_eq!(e.message(), text);
    }
}

#[test]
fn session_round_trip_keeps_state_and_drops_relative_tabs() {
    let mut s = store_at("/srv");
    s.navigate("/srv/a".to_string(), PathKind::Directory).unwrap();
    s.toggle_hidden();
    s.set_sort(SortKind::Modified);
    s.tabs.push("relative/tab".to_string());
    let data = s.session_data();
    assert_eq!(data.sort.as_deref(), Some("modified"));
    let mut t = Store::new("/home/u".to_string(), "/elsewhere".to_string());
    t.apply_session(data);
    assert_eq!(t.current_path, s.current_path);
    assert_eq!(t.show_hidden, s.show_hidden);
    assert_eq!(t.sort, s.sort);
    assert_eq!(t.recent, s.recent);
    assert_eq!(t.epoch, s.epoch);
    assert_eq!(t.tabs, vec!["/srv", "/srv/a"]);
}

#[test]
fn view_mode_keywords_round_trip() {
    for m in [ViewMode::Details, ViewMode::Icons] {
        assert_eq!(ViewMode::parse(m.as_str()), Some(m));
    }
    assert_eq!(ViewMode::parse("Icons"), None);
    let mut s = store_at("/");
    let e = s.epoch;
    s.set_view_mode(ViewMode::Icons);
    assert_eq!(s.view_mode, ViewMode::Icons);
    assert_eq!(s.epoch, e + 1);
}
