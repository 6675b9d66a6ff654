use skyline::config::default_custom_modules;
use skyline::config::default_tray_enabled;
use skyline::config::default_cpu_meter;
use skyline::config::default_memory_meter;
use skyline::config::ModuleClicks;
use skyline::compositor::CompositorState;
use skyline::compositor::WindowInfo;
use skyline::compositor::WorkspaceInfo;
use skyline::config::default_interval;
use skyline::config::migrate_legacy_module_keys;
use skyline::config::ClickActions;
use skyline::config::ModuleKind;
use skyline::config::NetworkConfig;
use skyline::labels::decimal_string;
use skyline::labels::focus_token_for;
use skyline::labels::network_label;
use skyline::labels::parse_meter_format;
use skyline::labels::truncate;
use skyline::labels::window_title;
use skyline::labels::workspace_label;
use skyline::labels::MeterPart;
use skyline::network::NetworkSnapshot;

#[test]
fn truncation_adds_an_ellipsis() {
    assert_eq!(truncate("hello", 5), "hello");
    assert_eq!(truncate("hello world", 5), "hell…");
    assert_eq!(truncate("héllo wörld", 6), "héllo…");
    assert_eq!(truncate("abc", 0), "…");
    assert_eq!(truncate("", 0), "");
}

#[test]
fn decimal_numbers() {
    assert_eq!(decimal_string(0), "0");
    assert_eq!(decimal_string(42), "42");
    assert_eq!(decimal_string(u64::MAX), u64::MAX.to_string());
}

fn net(connected: bool, label: &str, iface: Option<&str>) -> NetworkSnapshot {
    NetworkSnapshot {
        connected,
        label: label.to_string(),
        strength: None,
        interface: iface.map(|s| s.to_string()),
        kind: None,
    }
}

fn net_cfg(show_name: bool, max_chars: usize) -> NetworkConfig {
    NetworkConfig { show_strength: false, show_name, max_chars, clicks: ClickActions::default() }
}

#[test]
fn network_island_text() {
    assert_eq!(network_label(&net(true, "HomeWiFi", Some("wlan0")), &net_cfg(true, 24)), "HomeWiFi");
    assert_eq!(network_label(&net(true, "HomeWiFi", Some("wlan0")), &net_cfg(false, 24)), "wlan0");
    assert_eq!(network_label(&net(true, "HomeWiFi", None), &net_cfg(false, 24)), "HomeWiFi");
    assert_eq!(network_label(&net(false, "x", None), &net_cfg(true, 24)), "offline");
    assert_eq!(network_label(&net(true, "VeryLongNetworkName", None), &net_cfg(true, 8)), "VeryLon…");
    assert_eq!(network_label(&net(true, "abc", None), &net_cfg(true, 0)), "…");
}

fn ws(name: &str, index: u8) -> WorkspaceInfo {
    WorkspaceInfo { id: 1, name: name.to_string(), index, output: None, active: false, urgent: false }
}

#[test]
fn workspace_button_labels() {
    assert_eq!(workspace_label(&ws("12345", 3)), "12345");
    assert_eq!(workspace_label(&ws("web", 3)), "web");
    assert_eq!(workspace_label(&ws("mail", 3)), "3");
    assert_eq!(workspace_label(&ws("日本", 7)), "7");
    assert_eq!(workspace_label(&ws("", 7)), "");
}

fn state_with_windows() -> CompositorState {
    CompositorState {
        focused_output: None,
        outputs: Vec::new(),
        workspaces: Vec::new(),
        windows: vec![
            WindowInfo {
                id: 5,
                title: "A rather long window title".to_string(),
                app_id: None,
                workspace_id: None,
                output: Some("DP-1".to_string()),
                focused: true,
                focus_token: String::new(),
            },
            WindowInfo {
                id: 6,
                title: "other".to_string(),
                app_id: None,
                workspace_id: None,
                output: Some("DP-2".to_string()),
                focused: false,
                focus_token: "0xabc".to_string(),
            },
        ],
        focused_window: None,
    }
}

#[test]
fn window_island_title() {
    let st = state_with_windows();
    assert_eq!(window_title(&st, Some("DP-1"), 10), "A rather …");
    assert_eq!(window_title(&st, Some("DP-2"), 10), "");
}

#[test]
fn hyprland_focus_tokens() {
    let st = state_with_windows();
    assert_eq!(focus_token_for(&st, 5).as_deref(), Some("5"));
    assert_eq!(focus_token_for(&st, 6).as_deref(), Some("0xabc"));
    assert_eq!(focus_token_for(&st, 7), None);
}

fn parts(fmt: &str) -> Vec<String> {
    parse_meter_format(fmt)
        .into_iter()
        .map(|p| match p {
            MeterPart::Label => "L".to_string(),
            MeterPart::Bar => "B".to_string(),
            MeterPart::Percent => "P".to_string(),
            MeterPart::Text(t) => format!("T({t})"),
        })
        .collect()
}

#[test]
fn meter_formats() {
    assert_eq!(parts("{label} {bar} {percent}"), vec!["L", "T( )", "B", "T( )", "P"]);
    assert_eq!(parts("{meter}{pct}%"), vec!["B", "P", "T(%)"]);
    assert_eq!(parts("cpu {oops} {bar"), vec!["T(cpu )", "T({oops})", "T( {bar)"]);
    assert_eq!(parts(""), vec!["L", "B", "P"]);
}

#[test]
fn module_names_round_trip() {
    for name in ["workspaces", "window", "taskbar", "clock", "cpu", "memory", "gpu", "network", "volume", "brightness", "tray", "custom:weather"] {
        assert_eq!(ModuleKind::from_config_str(name).as_config_str(), name);
    }
    assert_eq!(ModuleKind::from_config_str("weather").as_config_str(), "custom:weather");
    assert_eq!(ModuleKind::from_config_str("custom:custom:x").as_config_str(), "custom:x");
}

#[test]
fn legacy_step_keys_move_to_sections() {
    let raw = "[modules]\nvolume_step = 0.05\nbrightness_step=5\nleft = [\"clock\"]\n";
    assert_eq!(
        migrate_legacy_module_keys(raw),
        "[modules]\nleft = [\"clock\"]\n\n[modules.volume]\nstep = 0.05\n\n[modules.brightness]\nstep = 5\n"
    );
    let untouched = "[modules]\nleft = []";
    assert_eq!(migrate_legacy_module_keys(untouched), untouched);
    let has_section = "volume_step = 1\n[modules.volume]\nstep = 2\n";
    assert_eq!(migrate_legacy_module_keys(has_section), "[modules.volume]\nstep = 2\n");
}

#[test]
fn click_actions_and_defaults() {
    let none = ClickActions::default();
    assert!(!none.has_any());
    let some = ClickActions { on_click: None, on_right_click: Some("x".to_string()) };
    assert!(some.has_any());
    assert_eq!(default_interval(), 5_000);
}

#[test]
fn migrating_twice_is_migrating_once() {
    let raw = "volume_step = 0.05\r\n[bar]\nheight = 30\nbrightness_step=5\r";
    let once = migrate_legacy_module_keys(raw);
    assert_eq!(
        once,
        "[bar]\nheight = 30\n\n[modules.volume]\nstep = 0.05\n\n[modules.brightness]\nstep = 5\n"
    );
    assert_eq!(migrate_legacy_module_keys(&once), once);
}

#[test]
fn default_click_commands() {
    let clicks = ModuleClicks::default();
    assert_eq!(clicks.click_command(&ModuleKind::Volume, false), Some("wpctl set-mute @DEFAULT_AUDIO_SINK@ toggle"));
    assert_eq!(clicks.click_command(&ModuleKind::Volume, true), Some("pwvucontrol"));
    assert_eq!(clicks.click_command(&ModuleKind::Cpu, false), Some("alacritty -e btop"));
    assert_eq!(clicks.click_command(&ModuleKind::Gpu, false), Some("alacritty -e amdgpu_top"));
    assert_eq!(clicks.click_command(&ModuleKind::Memory, false), None);
    assert_eq!(clicks.click_command(&ModuleKind::Clock, false), None);
    assert_eq!(default_memory_meter().label, "RAM");
    assert_eq!(default_cpu_meter().format, "{label} {bar}");
    assert!(default_tray_enabled());
    assert!(default_custom_modules().is_empty());
}
