use hyprland_window::desktop::DesktopEntry;
use hyprland_window::icon::{find_icon, resolve_icon};

fn entry(name: &str, icon: &str, wm_class: Option<&str>, exec_cmd: &str) -> DesktopEntry {
    DesktopEntry {
        exec_cmd: exec_cmd.to_string(),
        path: None,
        name: name.to_string(),
        keywords: Vec::new(),
        icon: icon.to_string(),
        term: false,
        startup_wm_class: wm_class.map(|s| s.to_string()),
    }
}

#[test]
fn exact_class_match_beats_name_match() {
    let entries = vec![
        entry("My foo viewer", "icon-name-match", None, "fooview"),
        entry("Other", "icon-exact-match", Some("Foo"), "other"),
    ];
    let class = String::from("Foo");
    let icon = resolve_icon(&class, None, &entries);
    assert_eq!(icon, "icon-exact-match");
}

#[test]
fn wm_class_match_is_case_sensitive() {
    let entries = vec![entry("Bar", "icon1", Some("Foo"), "bar")];
    let class = String::from("foo");
    let icon = resolve_icon(&class, None, &entries);
    assert_eq!(icon, "foo");
}

#[test]
fn name_match_is_case_insensitive_substring() {
    let entries = vec![entry("MyFooApp", "icon-by-name", None, "myfooapp")];
    let class = String::from("FOO");
    let icon = resolve_icon(&class, None, &entries);
    assert_eq!(icon, "icon-by-name");
}

#[test]
fn first_name_match_in_scan_order_wins() {
    let entries = vec![
        entry("foo one", "icon-first", None, "one"),
        entry("foo two", "icon-second", None, "two"),
    ];
    let class = String::from("foo");
    assert_eq!(resolve_icon(&class, None, &entries), "icon-first");
}

#[test]
fn process_name_matches_launch_command() {
    let entries = vec![entry("Viewer", "icon-by-exec", None, "run-viewer --windowed")];
    let class = String::from("zzz");
    let pname = String::from("run-viewer");
    let icon = resolve_icon(&class, Some(&pname), &entries);
    assert_eq!(icon, "icon-by-exec");
}

#[test]
fn class_is_last_resort() {
    let entries = vec![entry("Viewer", "icon1", Some("other"), "viewer")];
    let class = String::from("some-class");
    assert_eq!(resolve_icon(&class, None, &entries), "some-class");
    let empty: Vec<DesktopEntry> = Vec::new();
    assert_eq!(resolve_icon(&class, None, &empty), "some-class");
}

#[test]
fn failed_process_lookup_falls_back_to_class() {
    let empty: Vec<DesktopEntry> = Vec::new();
    let class = String::from("ghost-window");
    let icon = find_icon(&class, u32::MAX, &empty);
    assert_eq!(icon, "ghost-window");
}

#[test]
fn find_icon_prefers_catalog_over_process() {
    let entries = vec![entry("Anything", "icon-exact", Some("firefox"), "x")];
    let class = String::from("firefox");
    let icon = find_icon(&class, u32::MAX, &entries);
    assert_eq!(icon, "icon-exact");
}
