use skyline::config::CompositorBackendKind;
use skyline::debounce::Debouncer;
use skyline::debounce::IDLE_WAIT_MS;
use skyline::fonts::emoji_font_name;
use skyline::fonts::font_choice;
use skyline::fonts::nerd_font_candidates;
use skyline::fonts::FontChoice;
use skyline::icons::desktop_entry_icon;
use skyline::icons::icon_name_candidates;
use skyline::icons::is_raster;
use skyline::icons::theme_name_list;
use skyline::icons::theme_root_candidates;
use skyline::live::generation_current;
use skyline::live::LiveServiceConfig;
use skyline::startup::bar_at_bottom;
use skyline::sys::is_gpu_card_name;
use skyline::startup::parse_cli;
use skyline::startup::resolve_backend;
use skyline::startup::CliCommand;
use skyline::tray::argb_to_rgba;
use skyline::tray::TrayItemSnapshot;
use skyline::tray::TrayPixmap;
use skyline::watch::is_relevant;
use skyline::watch::EventPath;
use skyline::watch::WatchEventKind;
use skyline::weather::area_label;

fn args(a: &[&str]) -> Vec<String> {
    a.iter().map(|s| s.to_string()).collect()
}

#[test]
fn command_line() {
    assert_eq!(parse_cli(&args(&["skyline"])), CliCommand::Run { config: None });
    assert_eq!(
        parse_cli(&args(&["skyline", "--config", "/tmp/a.toml"])),
        CliCommand::Run { config: Some("/tmp/a.toml".to_string()) }
    );
    assert_eq!(
        parse_cli(&args(&["skyline", "-c", "a", "-c", "b", "--verbose"])),
        CliCommand::Run { config: Some("b".to_string()) }
    );
    assert_eq!(parse_cli(&args(&["skyline", "-c"])), CliCommand::Run { config: None });
    assert_eq!(
        parse_cli(&args(&["skyline", "-c", "x", "--write-example-config", "-h"])),
        CliCommand::WriteExampleConfig
    );
    assert_eq!(parse_cli(&args(&["skyline", "-h", "--write-example-config"])), CliCommand::Help);
    // A value that looks like a flag is still the config path.
    assert_eq!(
        parse_cli(&args(&["skyline", "--config", "--help"])),
        CliCommand::Run { config: Some("--help".to_string()) }
    );
}

#[test]
fn backend_detection() {
    type K = CompositorBackendKind;
    assert_eq!(resolve_backend(K::Auto, true, true), K::Niri);
    assert_eq!(resolve_backend(K::Auto, false, true), K::Hyprland);
    assert_eq!(resolve_backend(K::Auto, false, false), K::Disabled);
    assert_eq!(resolve_backend(K::Hyprland, true, false), K::Hyprland);
    assert_eq!(resolve_backend(K::Disabled, true, true), K::Disabled);
}

#[test]
fn bar_edge() {
    assert!(bar_at_bottom("bottom"));
    assert!(!bar_at_bottom("top"));
    assert!(!bar_at_bottom("Bottom"));
}

#[test]
fn debounced_bursts_fire_once() {
    let mut d = Debouncer::new(250);
    assert_eq!(d.wait_ms(0), IDLE_WAIT_MS);
    d.notify(1_000);
    d.notify(1_100);
    assert_eq!(d.wait_ms(1_200), 150);
    assert!(!d.timeout(1_300));
    assert!(d.timeout(1_350));
    assert!(!d.timeout(1_400));
    assert_eq!(d.wait_ms(1_400), IDLE_WAIT_MS);
    d.notify(u64::MAX - 10);
    assert_eq!(d.pending_until, Some(u64::MAX));
}

#[test]
fn font_names() {
    assert_eq!(font_choice("  "), FontChoice::Default);
    assert_eq!(font_choice("DEFAULT"), FontChoice::Default);
    assert_eq!(font_choice("Mono"), FontChoice::Monospace);
    assert_eq!(font_choice("serif"), FontChoice::Serif);
    assert_eq!(font_choice(" Inter "), FontChoice::Named("Inter".to_string()));
    assert_eq!(emoji_font_name("Inter", "  "), "Inter");
    assert_eq!(emoji_font_name("Inter", "Noto Color Emoji"), "Noto Color Emoji");
    assert_eq!(nerd_font_candidates()[0], "DejaVuSansM Nerd Font Propo");
    assert_eq!(nerd_font_candidates().len(), 12);
}

#[test]
fn live_settings() {
    let mut live = LiveServiceConfig::new("%H:%M".to_string(), 10, true, 15_000);
    assert_eq!(live.sys_refresh_ms, 50);
    assert_eq!(live.custom_generation, 0);
    assert!(!live.start_tray());
    assert!(live.start_tray());
    assert_eq!(live.next_custom_generation(), 1);
    live.apply("%a %H:%M".to_string(), 2_000, false, 10_000);
    assert_eq!(live.clock_format, "%a %H:%M");
    assert_eq!(live.sys_refresh_ms, 2_000);
    assert_eq!(live.custom_generation, 1);
    assert!(live.tray_started);
    assert_eq!(live.volume_max_centi, 10_000);
}

#[test]
fn raster_extensions() {
    assert!(is_raster(Some("png")));
    assert!(is_raster(Some("JPEG")));
    assert!(!is_raster(Some("svg")));
    assert!(!is_raster(None));
}

#[test]
fn theme_search_order() {
    let c = theme_root_candidates("firefox");
    assert_eq!(c.len(), 325);
    assert_eq!(c[0], vec!["24x24", "status", "firefox.png"]);
    assert_eq!(c[1], vec!["24x24", "status", "firefox.xpm"]);
    assert_eq!(c[5], vec!["24x24", "apps", "firefox.png"]);
    assert_eq!(c[40], vec!["22x22", "status", "firefox.png"]);
    assert_eq!(c[319], vec!["scalable", "emblems", "firefox.webp"]);
    assert_eq!(c[320], vec!["firefox.png"]);
    assert_eq!(c[324], vec!["firefox.webp"]);
    assert_eq!(theme_name_list()[0], "hicolor");
}

fn item(app_id: &str, title: &str) -> TrayItemSnapshot {
    TrayItemSnapshot {
        id: ":1.5/StatusNotifierItem".to_string(),
        app_id: app_id.to_string(),
        title: title.to_string(),
        icon_name: Some("nm-signal-75".to_string()),
        icon_theme_path: None,
        attention_icon_name: Some("nm-alert".to_string()),
        needs_attention: true,
        icon_pixmap: None,
        status: "NeedsAttention".to_string(),
    }
}

#[test]
fn tray_icon_names() {
    assert_eq!(
        icon_name_candidates(&item("org.kde.StatusNotifierItem-1", "Network Manager")),
        vec![
            "nm-alert",
            "nm-signal-75",
            "org.kde.StatusNotifierItem-1",
            "StatusNotifierItem-1",
            "network-manager",
        ]
    );
    let mut quiet = item("a", "X");
    quiet.needs_attention = false;
    quiet.icon_name = None;
    assert_eq!(icon_name_candidates(&quiet), vec!["a"]);
}

#[test]
fn desktop_entries() {
    let contents = "[Desktop Entry]\nName=Firefox Web Browser\nIcon= \nIcon=firefox \nExec=firefox %u\n";
    assert_eq!(desktop_entry_icon("firefox", contents, "Firefox").as_deref(), Some("firefox"));
    assert_eq!(desktop_entry_icon("org.mozilla.firefox", contents, "firefox").as_deref(), Some("firefox"));
    // Matched through the Name= line.
    assert_eq!(desktop_entry_icon("browser", contents, "Firefox Web").as_deref(), Some("firefox"));
    assert_eq!(desktop_entry_icon("gimp", "[Desktop Entry]\nIcon=gimp\n", "Steam"), None);
    assert_eq!(desktop_entry_icon("steam", "[Desktop Entry]\nName=Steam\n", "steam"), None);
}

#[test]
fn forecast_place() {
    assert_eq!(area_label(Some("Paris"), Some("Ile-de-France")), "Paris, Ile-de-France");
    assert_eq!(area_label(Some("Berlin"), Some("BERLIN")), "Berlin");
    assert_eq!(area_label(Some("Oslo"), None), "Oslo");
    assert_eq!(area_label(Some(""), Some("x")), "Local");
    assert_eq!(area_label(None, None), "Local");
}

#[test]
fn pixmaps_become_rgba() {
    let px = TrayPixmap { width: 1, height: 2, bytes: vec![255, 1, 2, 3, 128, 4, 5, 6, 9] };
    assert_eq!(argb_to_rgba(&px), Some((1, 2, vec![1, 2, 3, 255, 4, 5, 6, 128])));
    let short = TrayPixmap { width: 2, height: 2, bytes: vec![0; 15] };
    assert_eq!(argb_to_rgba(&short), None);
    let negative = TrayPixmap { width: -3, height: 2, bytes: vec![0; 40] };
    assert_eq!(argb_to_rgba(&negative), None);
}

#[test]
fn gpu_card_entries() {
    assert!(is_gpu_card_name("card0"));
    assert!(is_gpu_card_name("card12"));
    assert!(!is_gpu_card_name("card0-DP-1"));
    assert!(!is_gpu_card_name("renderD128"));
}

#[test]
fn custom_generation_check() {
    assert!(generation_current(3, 3));
    assert!(!generation_current(4, 3));
}

fn event_path(parts: &[&str], name: Option<&str>) -> EventPath {
    EventPath { components: parts.iter().map(|s| s.to_string()).collect(), file_name: name.map(|s| s.to_string()) }
}

#[test]
fn config_file_events() {
    let path: Vec<String> = vec!["/".into(), "home".into(), "me".into(), ".config".into(), "skyline".into(), "config.toml".into()];
    let name = Some("config.toml".to_string());
    let same = event_path(&["/", "home", "me", ".config", "skyline", "config.toml"], Some("config.toml"));
    let other = event_path(&["/", "home", "me", ".config", "skyline", "other.toml"], Some("other.toml"));
    let tmp = event_path(&["/", "tmp", "config.toml"], Some("config.toml"));
    assert!(is_relevant(WatchEventKind::Modify, &vec![same.clone()], &path, &name));
    assert!(!is_relevant(WatchEventKind::Access, &vec![same.clone()], &path, &name));
    assert!(!is_relevant(WatchEventKind::Other, &vec![same], &path, &name));
    assert!(!is_relevant(WatchEventKind::Create, &vec![other.clone()], &path, &name));
    assert!(is_relevant(WatchEventKind::Remove, &vec![other.clone(), tmp], &path, &name));
    // A config path without a file name matches every path.
    assert!(is_relevant(WatchEventKind::Any, &vec![other], &vec!["..".to_string()], &None));
}
