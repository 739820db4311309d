use yfiles::control::{ping_request, post_request, reply_body};
use yfiles::server::{
    content_length_header, expand_home, reply_head, request_line, route, ActionRequest, Effect,
    PaneState, Route,
};
use yfiles::state::{PathKind, Store};
use yfiles::fs_engine::SortKind;

fn pane() -> PaneState {
    let mut s = Store::new("/h".to_string(), "/a".to_string());
    s.settle(true, "/".to_string());
    PaneState::new(s)
}

fn req(action: &str, values: &[(&str, &str)]) -> ActionRequest {
    ActionRequest {
        action: action.to_string(),
        values: values.iter().map(|(k, v)| (k.to_string(), v.to_string())).collect(),
    }
}

#[test]
fn navigate_actions() {
    let home = Some("/home/me".to_string());
    let mut p = pane();
    assert_eq!(
        p.handle_action(&req("navigate:/etc", &[]), &home),
        Effect::Navigate { path: "/etc".to_string(), report: true }
    );
    assert_eq!(
        p.handle_action(&req("navigate", &[("path_input", "~/docs")]), &home),
        Effect::Navigate { path: "/home/me/docs".to_string(), report: true }
    );
    assert_eq!(p.handle_action(&req("navigate", &[]), &home), Effect::Done);
    assert_eq!(
        p.handle_action(&req("~/x", &[]), &home),
        Effect::Navigate { path: "/home/me/x".to_string(), report: false }
    );
    assert_eq!(p.handle_action(&req("bogus", &[]), &home), Effect::Done);
    assert_eq!(p.handle_action(&req("navigate_up", &[]), &home), Effect::NavigateUp);
}

#[test]
fn filter_and_local_actions() {
    let mut p = pane();
    let e = p.store.epoch;
    assert_eq!(p.handle_action(&req("filter", &[("filter", "abc")]), &None), Effect::Done);
    assert_eq!(p.filter, "abc");
    assert_eq!(p.store.epoch, e + 1);
    p.handle_action(&req("toggle_new_folder", &[]), &None);
    assert!(p.show_new_folder);
    assert_eq!(p.handle_action(&req("toggle_hidden", &[]), &None), Effect::Persist);
    assert!(p.store.show_hidden);
    assert_eq!(p.handle_action(&req("set_sort", &[("value", "size")]), &None), Effect::Persist);
    assert_eq!(p.store.sort, SortKind::Size);
    assert_eq!(p.handle_action(&req("set_sort:nope", &[]), &None), Effect::Done);
    assert_eq!(p.store.sort, SortKind::Size);
    assert_eq!(p.handle_action(&req("set_view_mode:icons", &[]), &None), Effect::Done);
    assert_eq!(p.store.view_mode.as_str(), "icons");
}

#[test]
fn folder_rename_trash_actions() {
    let mut p = pane();
    assert_eq!(
        p.handle_action(&req("create_folder", &[("new_folder_name", "  ")]), &None),
        Effect::Toast("folder name is empty".to_string())
    );
    assert_eq!(
        p.handle_action(&req("create_folder", &[("value", "n")]), &None),
        Effect::CreateFolder("n".to_string())
    );
    assert_eq!(
        p.handle_action(&req("start_rename", &[]), &None),
        Effect::Toast("nothing selected to rename".to_string())
    );
    assert_eq!(
        p.handle_action(&req("trash_selected", &[]), &None),
        Effect::Toast("nothing selected".to_string())
    );
    p.handle_action(&req("properties:/a/f.txt", &[]), &None);
    assert_eq!(p.store.selected.as_deref(), Some("/a/f.txt"));
    p.handle_action(&req("start_rename", &[]), &None);
    assert_eq!(p.renaming.as_deref(), Some("/a/f.txt"));
    assert_eq!(
        p.handle_action(&req("rename_apply", &[("rename:/a/f.txt", "g.txt")]), &None),
        Effect::Rename { target: "/a/f.txt".to_string(), new_name: "g.txt".to_string() }
    );
    assert_eq!(
        p.handle_action(&req("rename_apply", &[("value", " ")]), &None),
        Effect::Toast("name is empty".to_string())
    );
    p.handle_action(&req("rename_cancel", &[]), &None);
    assert_eq!(p.renaming, None);
    assert_eq!(
        p.handle_action(&req("trash_selected", &[]), &None),
        Effect::Trash("/a/f.txt".to_string())
    );
    assert_eq!(
        p.handle_action(&req("trash", &[("value", "/a/z")]), &None),
        Effect::Trash("/a/z".to_string())
    );
}

#[test]
fn tab_and_open_actions() {
    let mut p = pane();
    assert_eq!(
        p.handle_action(&req("switch_tab:/b", &[]), &None),
        Effect::SwitchTab("/b".to_string())
    );
    assert_eq!(
        p.handle_action(&req("close_tab", &[("value", "/a")]), &None),
        Effect::CloseTab("/a".to_string())
    );
    assert_eq!(p.handle_action(&req("new_tab_here", &[]), &None), Effect::Done);
    p.store.navigate("/b".to_string(), PathKind::Directory).unwrap();
    p.store.tabs.clear();
    assert_eq!(p.handle_action(&req("new_tab_here", &[]), &None), Effect::Persist);
    assert_eq!(p.store.tabs, vec!["/b".to_string()]);
    assert_eq!(
        p.handle_action(&req("open_path:/b/x", &[]), &None),
        Effect::Open { path: "/b/x".to_string(), report: true }
    );
    assert_eq!(
        p.handle_action(&req("viewer_jump:/b/x.png", &[]), &None),
        Effect::Open { path: "/b/x.png".to_string(), report: false }
    );
    assert_eq!(p.version_of(), p.store.epoch.to_string());
}

#[test]
fn request_parsing() {
    assert_eq!(request_line("GET /pane/doc?x=1 HTTP/1.1\r\n"), ("GET".to_string(), "/pane/doc".to_string()));
    assert_eq!(request_line(""), ("".to_string(), "/".to_string()));
    assert_eq!(content_length_header("Content-Length: 42\r\n"), Some(42));
    assert_eq!(content_length_header("content-LENGTH:abc"), Some(0));
    assert_eq!(content_length_header("Host: x"), None);
    assert_eq!(route("POST", "/action"), Route::Action);
    assert_eq!(route("GET", "/ping"), Route::Ping);
    assert_eq!(route("GET", "/action"), Route::NotFound);
    assert_eq!(expand_home("~", &Some("/h".to_string())), "/h");
    assert_eq!(expand_home("~x", &Some("/h".to_string())), "~x");
}

#[test]
fn reply_head_announces_the_body_in_bytes() {
    let body = "{\"title\":\"café\"}";
    assert_eq!(
        reply_head(200, body),
        format!(
            "HTTP/1.1 200 OK\r\nContent-Type: application/json\r\nContent-Length: {}\r\nConnection: close\r\n\r\n",
            body.len()
        )
    );
    assert!(reply_head(404, "{}").starts_with("HTTP/1.1 404 OK\r\n"));
}

#[test]
fn client_requests_read_back_on_the_daemon_side() {
    let payload = "{\"path\":\"/tmp/naïve\"}";
    let req = post_request("/open", "127.0.0.1:4000", payload);
    assert_eq!(
        req,
        format!(
            "POST /open HTTP/1.1\r\nHost: 127.0.0.1:4000\r\nContent-Type: application/json\r\nContent-Length: {}\r\nConnection: close\r\n\r\n{}",
            payload.len(),
            payload
        )
    );
    let mut lines = req.split_inclusive('\n');
    let first = lines.next().unwrap();
    assert_eq!(request_line(first), ("POST".to_string(), "/open".to_string()));
    let announced = lines.find_map(content_length_header);
    assert_eq!(announced, Some(payload.len()));
    let ping = ping_request("127.0.0.1:4000");
    assert_eq!(ping, "GET /ping HTTP/1.1\r\nHost: 127.0.0.1:4000\r\nConnection: close\r\n\r\n");
    let first = ping.split_inclusive('\n').next().unwrap();
    assert_eq!(route(&request_line(first).0, &request_line(first).1), Route::Ping);
}

#[test]
fn client_reads_back_the_reply_body() {
    for body in ["{}", "{\"ok\":true,\"document_version\":\"7\"}", "{\"t\":\"ünïcode\"}"] {
        let raw = format!("{}{}", reply_head(200, body), body);
        assert_eq!(reply_body(&raw).as_deref(), Some(body));
    }
}

#[test]
fn actions_touch_only_what_they_name() {
    let mut p = pane();
    let before_tabs = p.store.tabs.clone();
    let e = p.store.epoch;
    assert_eq!(p.handle_action(&req("properties:/tmp/a:b.txt", &[]), &None), Effect::Done);
    assert_eq!(p.store.selected.as_deref(), Some("/tmp/a:b.txt"));
    assert!(p.renaming.is_none());
    assert_eq!(p.store.tabs, before_tabs);
    assert_eq!(p.store.epoch, e + 1);

    let mut q = pane();
    let e = q.store.epoch;
    assert_eq!(
        q.handle_action(&req("start_rename", &[]), &None),
        Effect::Toast("nothing selected to rename".to_string())
    );
    assert!(q.renaming.is_none());
    assert_eq!(q.store.epoch, e);

    let mut f = pane();
    let e = f.store.epoch;
    assert_eq!(f.handle_action(&req("filter", &[("filter", "abc")]), &None), Effect::Done);
    assert_eq!(f.filter, "abc");
    assert_eq!(f.store.epoch, e + 1);
    assert_eq!(f.store.current_path, "/a");

    let mut u = pane();
    assert_eq!(
        u.handle_action(&req("~/music", &[]), &Some("/home/me".to_string())),
        Effect::Navigate { path: "/home/me/music".to_string(), report: false }
    );
    assert_eq!(u.handle_action(&req("bogus", &[]), &None), Effect::Done);
}
