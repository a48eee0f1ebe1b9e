use hyprland_window::desktop::DesktopEntry;
use hyprland_window::rank::score_and_filter;
use hyprland_window::window::{find_by_id, number_windows, WindowData, WindowRecord};
use hyprland_window::{get_matches, Config, Context};

fn window(address: &str, class: &str, title: &str, pid: u32, id: u64) -> WindowRecord {
    WindowRecord {
        address: address.to_string(),
        class: class.to_string(),
        title: title.to_string(),
        pid,
        id,
    }
}

fn firefox_entry() -> DesktopEntry {
    DesktopEntry {
        exec_cmd: String::from("firefox "),
        path: None,
        name: String::from("Firefox"),
        keywords: Vec::new(),
        icon: String::from("firefox"),
        term: false,
        startup_wm_class: Some(String::from("firefox")),
    }
}

fn context(windows: Vec<WindowRecord>, entries: Vec<DesktopEntry>, config: Config) -> Context {
    Context { config, hyprland_clients: windows, desktop_entries: entries }
}

#[test]
fn end_to_end_scenario() {
    let ctx = context(
        vec![window("0x1", "firefox", "Mozilla Firefox", 100, 0)],
        vec![firefox_entry()],
        Config { max_entries: 3, score_threshold: 50 },
    );
    let results = get_matches("firefox", &ctx);
    assert_eq!(results.len(), 1);
    assert_eq!(results[0].title, "Mozilla Firefox");
    assert_eq!(results[0].icon, "firefox");
    assert_eq!(results[0].id, 0);
}

#[test]
fn selection_resolves_address() {
    let windows = vec![
        window("0x9", "kitty", "terminal", 7, 0),
        window("0x1", "firefox", "Mozilla Firefox", 100, 1),
    ];
    let ctx = context(windows, vec![firefox_entry()], Config {
        max_entries: 3,
        score_threshold: 50,
    });
    let results = get_matches("firefox", &ctx);
    assert_eq!(results.len(), 1);
    let id = results[0].id;
    let pos = find_by_id(&ctx.hyprland_clients, id).expect("selected id must exist");
    assert_eq!(ctx.hyprland_clients[pos].address, "0x1");
}

#[test]
fn find_by_id_missing() {
    let windows = vec![window("0x1", "a", "b", 1, 0)];
    assert!(find_by_id(&windows, 42).is_none());
}

#[test]
fn truncation_caps_results() {
    let mut windows = Vec::new();
    for i in 0..5u64 {
        windows.push(window("0x0", "firefox", &format!("tab {}", i), 10, i));
    }
    let ctx = context(windows, Vec::new(), Config { max_entries: 3, score_threshold: 50 });
    let results = get_matches("firefox", &ctx);
    assert_eq!(results.len(), 3);
}

#[test]
fn empty_title_never_offered() {
    let windows = vec![
        window("0x1", "firefox", "   ", 1, 0),
        window("0x2", "firefox", "Mozilla Firefox", 2, 1),
    ];
    let ctx = context(windows, Vec::new(), Config { max_entries: 3, score_threshold: 50 });
    let results = get_matches("firefox", &ctx);
    assert_eq!(results.len(), 1);
    assert_eq!(results[0].id, 1);
}

#[test]
fn threshold_is_strict() {
    let windows = vec![window("0x1", "firefox", "Mozilla Firefox", 1, 0)];
    let scored = score_and_filter("firefox", &windows, 0);
    assert_eq!(scored.len(), 1);
    let score = scored[0].score;
    assert!(score > 0);
    let at_threshold = score_and_filter("firefox", &windows, score as i64);
    assert!(at_threshold.is_empty());
    let below_threshold = score_and_filter("firefox", &windows, score as i64 - 1);
    assert_eq!(below_threshold.len(), 1);
}

#[test]
fn higher_score_ranks_first() {
    let windows = vec![
        window("0x1", "", "a fox here", 1, 0),
        window("0x2", "fox", "something", 2, 1),
    ];
    let ctx = context(windows, Vec::new(), Config { max_entries: 10, score_threshold: -1 });
    let results = get_matches("fox", &ctx);
    assert_eq!(results.len(), 2);
    assert_eq!(results[0].id, 1);
    assert_eq!(results[1].id, 0);
}

#[test]
fn no_windows_yields_no_results() {
    let ctx = context(Vec::new(), vec![firefox_entry()], Config {
        max_entries: 3,
        score_threshold: 50,
    });
    assert!(get_matches("firefox", &ctx).is_empty());
}

#[test]
fn non_matching_query_yields_no_results() {
    let windows = vec![window("0x1", "firefox", "Mozilla Firefox", 1, 0)];
    let ctx = context(windows, Vec::new(), Config { max_entries: 3, score_threshold: 50 });
    assert!(get_matches("qqqqzzzz", &ctx).is_empty());
}

#[test]
fn number_windows_assigns_sequential_ids() {
    let data = vec![
        WindowData {
            address: String::from("0xa"),
            class: String::from("a"),
            title: String::from("A"),
            pid: 1,
        },
        WindowData {
            address: String::from("0xb"),
            class: String::from("b"),
            title: String::from("B"),
            pid: 2,
        },
    ];
    let numbered = number_windows(&data);
    assert_eq!(numbered.len(), 2);
    assert_eq!(numbered[0].id, 0);
    assert_eq!(numbered[1].id, 1);
    assert_eq!(numbered[1].address, "0xb");
    assert_eq!(numbered[1].pid, 2);
}

#[test]
fn config_and_context_defaults() {
    let c = Config::default();
    assert_eq!(c.max_entries, 3);
    assert_eq!(c.score_threshold, 50);
    let ctx = Context::empty();
    assert_eq!(ctx.config.max_entries, 3);
    assert_eq!(ctx.config.score_threshold, 50);
    assert!(ctx.hyprland_clients.is_empty());
    assert!(ctx.desktop_entries.is_empty());
}
