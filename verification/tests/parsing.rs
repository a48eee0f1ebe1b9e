use hyprland_window::desktop::{build_catalog, icon_from_content, strip_field_codes, DesktopEntry};

fn strip(s: &str) -> String {
    let chars: Vec<char> = s.chars().collect();
    strip_field_codes(&chars).into_iter().collect()
}

#[test]
fn parse_minimal_application() {
    let content = "[Desktop Entry]\nType=Application\nName=Firefox\nExec=firefox %u\nIcon=firefox";
    let e = DesktopEntry::parse(content).expect("entry should parse");
    assert_eq!(e.name, "Firefox");
    assert_eq!(e.exec_cmd, "firefox ");
    assert_eq!(e.icon, "firefox");
    assert!(e.path.is_none());
    assert!(e.startup_wm_class.is_none());
    assert!(!e.term);
    assert!(e.keywords.is_empty());
}

#[test]
fn parse_defaults_icon_when_absent() {
    let content = "[Desktop Entry]\nType=Application\nName=App\nExec=app";
    let e = DesktopEntry::parse(content).unwrap();
    assert_eq!(e.icon, "application-x-executable");
}

#[test]
fn parse_drops_type_link() {
    let content = "[Desktop Entry]\nType=Link\nName=App\nExec=app";
    assert!(DesktopEntry::parse(content).is_none());
}

#[test]
fn parse_drops_missing_type() {
    let content = "[Desktop Entry]\nName=App\nExec=app";
    assert!(DesktopEntry::parse(content).is_none());
}

#[test]
fn parse_drops_nodisplay_true() {
    let content = "[Desktop Entry]\nType=Application\nNoDisplay=true\nName=App\nExec=app";
    assert!(DesktopEntry::parse(content).is_none());
}

#[test]
fn parse_drops_nodisplay_malformed() {
    let content = "[Desktop Entry]\nType=Application\nNoDisplay=yes\nName=App\nExec=app";
    assert!(DesktopEntry::parse(content).is_none());
}

#[test]
fn parse_keeps_nodisplay_false() {
    let content = "[Desktop Entry]\nType=Application\nNoDisplay=false\nName=App\nExec=app";
    assert!(DesktopEntry::parse(content).is_some());
}

#[test]
fn parse_drops_missing_name() {
    let content = "[Desktop Entry]\nType=Application\nExec=app";
    assert!(DesktopEntry::parse(content).is_none());
}

#[test]
fn parse_drops_missing_exec() {
    let content = "[Desktop Entry]\nType=Application\nName=App";
    assert!(DesktopEntry::parse(content).is_none());
}

#[test]
fn parse_last_duplicate_key_wins() {
    let content = "[Desktop Entry]\nType=Application\nName=First\nName=Second\nExec=app";
    let e = DesktopEntry::parse(content).unwrap();
    assert_eq!(e.name, "Second");
}

#[test]
fn parse_reads_only_primary_section() {
    let content = "[Desktop Entry]\nType=Application\nName=App\nExec=app\n[Desktop Action new]\nName=Other\nIcon=other";
    let e = DesktopEntry::parse(content).unwrap();
    assert_eq!(e.name, "App");
    assert_eq!(e.icon, "application-x-executable");
}

#[test]
fn parse_ignores_preamble_before_header() {
    let content = "# a comment\nName=Stray\n[Desktop Entry]\nType=Application\nName=App\nExec=app";
    let e = DesktopEntry::parse(content).unwrap();
    assert_eq!(e.name, "App");
}

#[test]
fn parse_handles_crlf_line_endings() {
    let content = "[Desktop Entry]\r\nType=Application\r\nName=App\r\nExec=app\r\n";
    let e = DesktopEntry::parse(content).unwrap();
    assert_eq!(e.name, "App");
    assert_eq!(e.exec_cmd, "app");
}

#[test]
fn parse_splits_keywords() {
    let content = "[Desktop Entry]\nType=Application\nName=App\nExec=app\nKeywords=web;browser;";
    let e = DesktopEntry::parse(content).unwrap();
    assert_eq!(e.keywords, vec!["web", "browser", ""]);
}

#[test]
fn parse_terminal_is_case_insensitive() {
    let yes = "[Desktop Entry]\nType=Application\nName=A\nExec=a\nTerminal=TRUE";
    assert!(DesktopEntry::parse(yes).unwrap().term);
    let no = "[Desktop Entry]\nType=Application\nName=A\nExec=a\nTerminal=false";
    assert!(!DesktopEntry::parse(no).unwrap().term);
    let absent = "[Desktop Entry]\nType=Application\nName=A\nExec=a";
    assert!(!DesktopEntry::parse(absent).unwrap().term);
}

#[test]
fn parse_reads_startup_wm_class_and_path() {
    let content =
        "[Desktop Entry]\nType=Application\nName=A\nExec=a\nStartupWMClass=firefox\nPath=/opt/a";
    let e = DesktopEntry::parse(content).unwrap();
    assert_eq!(e.startup_wm_class.as_deref(), Some("firefox"));
    assert_eq!(e.path.as_deref(), Some("/opt/a"));
}

#[test]
fn parse_without_primary_section() {
    assert!(DesktopEntry::parse("").is_none());
    assert!(DesktopEntry::parse("[Other]\nType=Application\nName=A\nExec=a").is_none());
}

#[test]
fn strip_removes_every_field_code() {
    for code in ['f', 'F', 'u', 'U', 'd', 'D', 'n', 'N', 'i', 'c', 'k', 'v', 'm'] {
        let cmd = format!("run %{} --flag", code);
        assert_eq!(strip(&cmd), "run  --flag");
        let leading = format!("%{}tail", code);
        assert_eq!(strip(&leading), "tail");
    }
}

#[test]
fn strip_keeps_unrecognized_sequences() {
    assert_eq!(strip("run %x %z"), "run %x %z");
    assert_eq!(strip("100%"), "100%");
    assert_eq!(strip(""), "");
}

#[test]
fn strip_scans_left_to_right() {
    assert_eq!(strip("%%fu"), "%u");
    assert_eq!(strip("%f%u"), "");
}

#[test]
fn icon_from_content_reads_icon() {
    let content = "[Desktop Entry]\nType=Application\nName=A\nExec=a\nIcon=my-icon";
    assert_eq!(icon_from_content(content), "my-icon");
}

#[test]
fn icon_from_content_falls_back() {
    assert_eq!(icon_from_content("not a desktop file"), "application-x-executable");
    let hidden = "[Desktop Entry]\nType=Application\nNoDisplay=true\nName=A\nExec=a\nIcon=x";
    assert_eq!(icon_from_content(hidden), "application-x-executable");
}

#[test]
fn catalog_keeps_scan_order_and_filters() {
    let good1 = String::from("[Desktop Entry]\nType=Application\nName=One\nExec=one\nIcon=i1");
    let link = String::from("[Desktop Entry]\nType=Link\nName=Two\nExec=two\nIcon=i2");
    let good2 = String::from("[Desktop Entry]\nType=Application\nName=Three\nExec=three\nIcon=i3");
    let catalog = build_catalog(&vec![good1, link, good2]);
    assert_eq!(catalog.len(), 2);
    assert_eq!(catalog[0].icon, "i1");
    assert_eq!(catalog[1].icon, "i3");
}
