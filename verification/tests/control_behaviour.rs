use yfiles::control::{control_url_text, Startup, StartupAction, STARTUP_WAITS};
use base64::Engine;
use yfiles::control::{
    control_address, control_url_path, move_destination, move_sources, rename_destination,
    reply_body, valid_new_name,
};
use yfiles::manifest::{manifest_path, manifest_value};
use yfiles::osc::osc_frame;

#[test]
fn manifest_names_match_the_file_stem_and_binary_is_absolute() {
    let value = manifest_value("/usr/local/bin/yfiles");
    assert_eq!(value.name, "yfiles");
    assert!(value.binary.starts_with('/'));
    assert_eq!(value.verbs.len(), 1);
    assert_eq!(manifest_path("/h/.yggterm/apps"), "/h/.yggterm/apps/yfiles.json");
}

#[test]
fn control_url_parsing() {
    assert_eq!(control_url_path("/h"), "/h/.yggterm/yfiles/control-url");
    assert_eq!(control_address("http://127.0.0.1:5/x"), Some("127.0.0.1:5".to_string()));
    assert_eq!(control_address("http://127.0.0.1:5"), Some("127.0.0.1:5".to_string()));
    assert_eq!(control_address("https://x"), None);
    let raw = "HTTP/1.1 200 OK\r\nA: b\r\n\r\n{\"ok\":true}";
    assert_eq!(reply_body(raw), raw.split("\r\n\r\n").nth(1).map(|s| s.to_string()));
    assert_eq!(reply_body("no body"), None);
    assert_eq!(reply_body("h\r\n\r\nb1\r\n\r\nb2"), Some("b1".to_string()));
}

#[test]
fn headless_verb_arguments() {
    assert!(valid_new_name("new.txt"));
    assert!(!valid_new_name("a/b"));
    assert!(!valid_new_name("  "));
    assert_eq!(rename_destination("/w/old.txt", "new.txt"), "/w/new.txt");
    assert_eq!(rename_destination("old.txt", "new.txt"), "new.txt");
    assert_eq!(move_sources(" /a.txt, ,/b.txt ,"), vec!["/a.txt".to_string(), "/b.txt".to_string()]);
    assert_eq!(move_destination("/arch", "/w/a.txt"), Some("/arch/a.txt".to_string()));
    assert_eq!(move_destination("/arch", "/"), None);
}

#[test]
fn osc_frame_layout() {
    let f = osc_frame("sidebar", "close", "{\"session\":\"s1\"}");
    let enc = base64::engine::general_purpose::STANDARD.encode("{\"session\":\"s1\"}");
    assert_eq!(f, format!("\u{1b}]7717;sidebar;close;{}\u{7}", enc));
    assert_eq!(osc_frame("v", "a", "ab"), "\u{1b}]7717;v;a;YWI=\u{7}");
}

#[test]
fn startup_spawns_once_then_waits_fifty_times() {
    assert_eq!(control_url_text("  http://127.0.0.1:4000\n"), Some("http://127.0.0.1:4000".to_string()));
    assert_eq!(control_url_text(" \n"), None);
    let mut s = Startup::new();
    assert_eq!(s.step(None), StartupAction::Spawn);
    let mut waits = 0;
    loop {
        match s.step(None) {
            StartupAction::Wait => waits += 1,
            StartupAction::GiveUp => break,
            other => panic!("unexpected {:?}", other),
        }
    }
    assert_eq!(waits + 1, STARTUP_WAITS);
    let mut t = Startup::new();
    assert_eq!(t.step(None), StartupAction::Spawn);
    assert_eq!(t.step(None), StartupAction::Wait);
    assert_eq!(t.step(Some("http://x".to_string())), StartupAction::Use("http://x".to_string()));
    let mut u = Startup::new();
    assert_eq!(u.step(Some("http://y".to_string())), StartupAction::Use("http://y".to_string()));
    assert!(!u.spawned);
}

#[test]
fn published_control_url_reads_back() {
    let url = yfiles::control::control_url(4817);
    assert_eq!(url, "http://127.0.0.1:4817");
    assert_eq!(control_address(&url).as_deref(), Some("127.0.0.1:4817"));
    assert_eq!(control_url_text(&format!("{}\n", url)).as_deref(), Some(url.as_str()));
}
