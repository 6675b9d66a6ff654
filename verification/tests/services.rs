use skyline::audio::keep_bluetooth;
use skyline::audio::label_cut_fits;
use skyline::audio::short_device_label;
use skyline::audio::sink_bluetooth;
use skyline::audio::sink_bluetooth_checked;
use skyline::audio::sink_event;
use skyline::audio::sink_name_is_bluetooth;
use skyline::audio::sink_is_bt;
use skyline::audio::status_bluetooth;
use skyline::audio::status_bluetooth_checked;
use skyline::audio::status_bluetooth_source;
use skyline::audio::SinkPort;
use skyline::custom::command_text;
use skyline::custom::run_period_ms;
use skyline::custom::text_from_output;
use skyline::network::dbm_to_percent;
use skyline::network::is_ethernet;
use skyline::network::iwd_step;
use skyline::network::offline;
use skyline::network::IwdAction;
use skyline::network::IwdReply;
use skyline::network::parse_quoted;
use skyline::tray::best_pixmap;
use skyline::tray::item_to_snapshot;
use skyline::tray::sort_by_title;
use skyline::tray::visible_entry_rows;
use skyline::tray::TrayItemSource;
use skyline::tray::TrayMenuEntry;
use skyline::tray::TrayMenuSnapshot;
use skyline::tray::TrayPixmap;
use skyline::weather::ampm_fits;
use skyline::weather::emoji_for_code;
use skyline::weather::emoji_from_desc;
use skyline::weather::emoji_from_wwo_code;
use skyline::weather::encode_location;
use skyline::weather::is_night_at;
use skyline::weather::parse_ampm_minutes;
use skyline::weather::refresh_interval_ms;
use skyline::weather::sleep_slice;
use skyline::weather::wttr_url;

#[test]
fn signal_dbm_maps_to_percent() {
    assert_eq!(dbm_to_percent(-70), 50);
    assert_eq!(dbm_to_percent(-40), 100);
    assert_eq!(dbm_to_percent(-100), 0);
    assert_eq!(dbm_to_percent(-120), 0);
    assert_eq!(dbm_to_percent(-30), 100);
    assert_eq!(dbm_to_percent(-99), 1);
}

#[test]
fn ethernet_interface_names() {
    assert!(is_ethernet("enp3s0"));
    assert!(is_ethernet("eth0"));
    assert!(!is_ethernet("wlan0"));
}

#[test]
fn offline_snapshot() {
    let s = offline();
    assert!(!s.connected);
    assert_eq!(s.label, "offline");
}

#[test]
fn wttr_urls() {
    assert_eq!(wttr_url(""), "https://wttr.in/?format=j1");
    assert_eq!(wttr_url("  New York "), "https://wttr.in/New+York?format=j1");
    assert_eq!(encode_location("São Paulo"), "S%C3%A3o+Paulo");
    assert_eq!(encode_location("a/b&c"), "a%2Fb%26c");
}

#[test]
fn ampm_times() {
    assert_eq!(parse_ampm_minutes("07:05 PM"), Some(1145));
    assert_eq!(parse_ampm_minutes("12:30 AM"), Some(30));
    assert_eq!(parse_ampm_minutes("12:00 pm"), Some(720));
    assert_eq!(parse_ampm_minutes("6:15 AM"), Some(375));
    assert_eq!(parse_ampm_minutes("6:15"), None);
    assert_eq!(parse_ampm_minutes("6:15 XM"), None);
}

#[test]
fn night_between_sunset_and_sunrise() {
    let rise = Some("06:00 AM".to_string());
    let set = Some("08:00 PM".to_string());
    assert!(is_night_at(5 * 60, &rise, &set));
    assert!(!is_night_at(12 * 60, &rise, &set));
    assert!(is_night_at(20 * 60, &rise, &set));
    assert!(!is_night_at(23 * 60, &None, &set));
}

#[test]
fn weather_glyphs() {
    assert_eq!(emoji_from_wwo_code(113, true), Some("🌙"));
    assert_eq!(emoji_from_wwo_code(113, false), Some("☀️"));
    assert_eq!(emoji_from_wwo_code(389, false), Some("⛈️"));
    assert_eq!(emoji_from_wwo_code(1, false), None);
    assert_eq!(emoji_from_desc("Light snow and rain", false), "🌨️");
    assert_eq!(emoji_from_desc("Partly cloudy", false), "⛅");
    assert_eq!(emoji_from_desc("Something else", false), "🌡️");
    assert_eq!(emoji_for_code(Some(1), "Clear", true), "🌙");
    assert_eq!(emoji_for_code(Some(116), "Clear", true), "⛅");
}

#[test]
fn refresh_and_sleep_slices() {
    assert_eq!(refresh_interval_ms(5_000), 60_000);
    assert_eq!(refresh_interval_ms(900_000), 900_000);
    assert_eq!(sleep_slice(1_000, 900), 100);
    assert_eq!(sleep_slice(1_000, 0), 200);
}

#[test]
fn custom_island_text() {
    assert_eq!(command_text("  first line\nsecond\n", false), "first line");
    assert_eq!(command_text("{\"text\": \"42°C\", \"class\": \"hot\"}\n", true), "42°C");
    // JSON without a string `text` field falls back to the first line.
    assert_eq!(command_text("{\"text\": 5}\nmore", true), "{\"text\": 5}");
    assert_eq!(command_text("plain output", true), "plain output");
    assert_eq!(command_text("   \n", false), "");
    assert_eq!(text_from_output("a\nb", Some("x".to_string())), "x");
    assert_eq!(run_period_ms(100), 500);
    assert_eq!(run_period_ms(5_000), 5_000);
}

#[test]
fn bluetooth_sink_names() {
    assert!(sink_name_is_bluetooth("bluez_output.AC_80_0A_2F_5C_1D.1"));
    assert!(sink_name_is_bluetooth("My BlueTooth Speaker"));
    assert!(!sink_name_is_bluetooth("alsa_output.pci-0000_00_1f.3.analog-stereo"));
}

#[test]
fn device_labels() {
    assert_eq!(short_device_label("bluez_output.AC_80_0A_2F_5C_1D.1"), Some("AC 80 0A 2F 5C 1D.1".chars().take(17).collect::<String>() + "…"));
    assert_eq!(short_device_label("bluez_sink.WH-1000XM4.a2dp_sink"), Some("sink".to_string()));
    assert_eq!(short_device_label("  Soundcore Life Q30  "), Some("Soundcore Life Q30".to_string()));
    assert_eq!(short_device_label("   "), None);
}

#[test]
fn sink_bluetooth_from_ports() {
    let ports = vec![SinkPort {
        name: "headset-output".to_string(),
        description: "Bluetooth Headset".to_string(),
    }];
    let (bt, label) = sink_bluetooth(true, "sink.1", "", &ports);
    assert!(bt);
    assert_eq!(label.as_deref(), Some("sink"));
    let (bt, label) = sink_bluetooth(true, "bluez_output.X", "Pixel Buds Pro", &Vec::new());
    assert!(bt);
    assert_eq!(label.as_deref(), Some("Pixel Buds Pro"));
    let (bt, label) = sink_bluetooth(false, "bluez_output.X", "", &Vec::new());
    assert!(!bt && label.is_none());
}

#[test]
fn wpctl_status_bluetooth_line() {
    let status = "Audio\n ├─ Sinks:\n │      48. Built-in Audio Analog Stereo [vol: 0.40]\n │  *   67. Jabra Elite bluez [vol: 0.55]\n";
    let found = status_bluetooth(status);
    assert_eq!(found, Some(Some("Jabra Elite bluez [vol: 0".to_string()).map(|s| {
        let cut: String = s.chars().take(17).collect();
        cut + "…"
    })));
    assert_eq!(status_bluetooth("no default here\n"), None);
}

#[test]
fn pactl_events() {
    assert!(sink_event("Event 'change' on sink #0"));
    assert!(sink_event("Event 'change' on server #1"));
    assert!(!sink_event("Event 'new' on client #23"));
}

#[test]
fn tray_pixmap_choice() {
    let small = TrayPixmap { width: 16, height: 16, bytes: vec![0; 16 * 16 * 4] };
    let big = TrayPixmap { width: 32, height: 32, bytes: vec![1; 32 * 32 * 4] };
    let short = TrayPixmap { width: 64, height: 64, bytes: vec![0; 10] };
    let big2 = TrayPixmap { width: 32, height: 32, bytes: vec![2; 32 * 32 * 4] };
    let list = vec![small.clone(), big.clone(), short, big2.clone()];
    assert_eq!(best_pixmap(Some(&list)), Some(big2));
    assert_eq!(best_pixmap(None), None);
    assert_eq!(best_pixmap(Some(&Vec::new())), None);
}

fn source(id: &str, title: Option<&str>) -> TrayItemSource {
    TrayItemSource {
        id: id.to_string(),
        title: title.map(|t| t.to_string()),
        status: "Active".to_string(),
        needs_attention: false,
        icon_name: Some(String::new()),
        icon_theme_path: None,
        attention_icon_name: Some("alert".to_string()),
        icon_pixmap: None,
        attention_icon_pixmap: None,
    }
}

#[test]
fn tray_item_titles_fall_back() {
    let a = item_to_snapshot(":1.42/Item", &source("nm-applet", Some("")));
    assert_eq!(a.title, "nm-applet");
    assert_eq!(a.icon_name, None);
    assert_eq!(a.attention_icon_name.as_deref(), Some("alert"));
    let b = item_to_snapshot(":1.43/Item", &source("", None));
    assert_eq!(b.title, ":1.43/Item");
    let c = item_to_snapshot(":1.44/Item", &source("x", Some("Steam")));
    assert_eq!(c.title, "Steam");
    assert_eq!(c.id, ":1.44/Item");
    assert_eq!(c.app_id, "x");
}

#[test]
fn attention_pixmaps_when_asking_for_attention() {
    let mut s = source("x", Some("X"));
    s.needs_attention = true;
    s.icon_pixmap = Some(vec![TrayPixmap { width: 1, height: 1, bytes: vec![0; 4] }]);
    s.attention_icon_pixmap = Some(vec![TrayPixmap { width: 2, height: 2, bytes: vec![9; 16] }]);
    let snap = item_to_snapshot("a", &s);
    assert_eq!(snap.icon_pixmap.map(|p| p.width), Some(2));
    s.attention_icon_pixmap = None;
    let snap = item_to_snapshot("a", &s);
    assert_eq!(snap.icon_pixmap.map(|p| p.width), Some(1));
}

#[test]
fn tray_items_sorted_by_title_stably() {
    let items = vec![
        item_to_snapshot("3", &source("c", Some("Zulip"))),
        item_to_snapshot("1", &source("a", Some("Discord"))),
        item_to_snapshot("2", &source("b", Some("Discord"))),
        item_to_snapshot("4", &source("d", Some("Audio"))),
    ];
    let sorted = sort_by_title(items);
    let ids: Vec<&str> = sorted.iter().map(|i| i.id.as_str()).collect();
    assert_eq!(ids, vec!["4", "1", "2", "3"]);
}

#[test]
fn tray_menu_rows() {
    let m = TrayMenuSnapshot {
        item_id: "a".to_string(),
        entries: vec![
            TrayMenuEntry {
                id: 1,
                label: "Open".to_string(),
                enabled: true,
                visible: true,
                separator: false,
                children: Vec::new(),
            },
            TrayMenuEntry {
                id: 2,
                label: "Hidden".to_string(),
                enabled: true,
                visible: false,
                separator: false,
                children: Vec::new(),
            },
        ],
    };
    assert_eq!(visible_entry_rows(Some(&m)), 1);
    assert_eq!(visible_entry_rows(None), 1);
}

#[test]
fn label_cuts_on_character_boundaries() {
    assert!(label_cut_fits("Soundcore Life Q30"));
    assert!(label_cut_fits("bluez_output.AC_80_0A_2F_5C_1D.1"));
    assert!(label_cut_fits("   "));
    // Ten two-byte characters: every prefix has an even byte count, so no
    // cut after 17 bytes exists.
    assert!(!label_cut_fits("ÄÄÄÄÄÄÄÄÄÄ"));
    // One ASCII letter first: the cut after eight characters is 17 bytes.
    assert!(label_cut_fits("aÄÄÄÄÄÄÄÄÄ"));
    assert_eq!(short_device_label("aÄÄÄÄÄÄÄÄÄ"), Some("aÄÄÄÄÄÄÄÄ…".to_string()));
}

#[test]
fn sink_detection_alone() {
    let ports = vec![SinkPort { name: "bluez-a2dp".to_string(), description: String::new() }];
    assert!(sink_is_bt(true, "sink.1", "", &ports));
    assert!(!sink_is_bt(false, "bluez_output.X", "", &ports));
    assert!(sink_is_bt(true, "alsa", "My Bluetooth Box", &Vec::new()));
    assert!(!sink_is_bt(true, "alsa_output.pci", "Built-in Audio", &Vec::new()));
}

#[test]
fn wpctl_status_source_text() {
    let status = "Audio\n ├─ Sinks:\n │      48. Built-in Audio Analog Stereo [vol: 0.40]\n │  *   67. Jabra Elite bluez [vol: 0.55]\n";
    assert_eq!(status_bluetooth_source(status), Some("Jabra Elite bluez [vol: 0".to_string()));
    assert_eq!(status_bluetooth_source(" *  12. Speakers\n"), None);
}

#[test]
fn mute_toggle_keeps_bluetooth_label() {
    let fresh = (false, None);
    let prev = (true, Some("Buds".to_string()));
    assert_eq!(keep_bluetooth(fresh, prev.clone()), (true, Some("Buds".to_string())));
    assert_eq!(keep_bluetooth((true, Some("New".to_string())), prev), (true, Some("New".to_string())));
    assert_eq!(keep_bluetooth((false, None), (false, None)), (false, None));
}

#[test]
fn quoted_values() {
    assert_eq!(parse_quoted("  \"Home WiFi\" trailing"), Some("Home WiFi".to_string()));
    assert_eq!(parse_quoted("bare-value "), Some("bare-value".to_string()));
    assert_eq!(parse_quoted("\"unterminated"), None);
    assert_eq!(parse_quoted("   "), None);
}

#[test]
fn ampm_conversion_bounds() {
    assert!(ampm_fits("07:05 PM"));
    assert!(ampm_fits("not a time"));
    assert!(!ampm_fits("4294967295:00 PM"));
}

#[test]
fn night_without_sun_times_is_day() {
    assert!(!is_night_at(0, &None, &None));
    assert!(!is_night_at(120, &Some("06:30 AM".to_string()), &None));
}

#[test]
fn iwd_search_steps() {
    let some = |s: &str| Some(s.to_string());
    assert!(matches!(iwd_step("wlan0", IwdReply::DeviceName(some("wlan0"))), IwdAction::AskStationState));
    assert!(matches!(iwd_step("wlan0", IwdReply::DeviceName(some("wlan1"))), IwdAction::NextDevice));
    assert!(matches!(iwd_step("wlan0", IwdReply::DeviceName(None)), IwdAction::NextDevice));
    assert!(matches!(iwd_step("wlan0", IwdReply::StationState(some("connected"))), IwdAction::AskConnectedNetwork));
    assert!(matches!(iwd_step("wlan0", IwdReply::StationState(some("disconnected"))), IwdAction::NextDevice));
    match iwd_step("wlan0", IwdReply::ConnectedNetwork(some("/net/connman/iwd/0/3/abc_psk"))) {
        IwdAction::AskNetworkName(p) => assert_eq!(p, "/net/connman/iwd/0/3/abc_psk"),
        other => panic!("unexpected {other:?}"),
    }
    assert!(matches!(iwd_step("wlan0", IwdReply::ConnectedNetwork(None)), IwdAction::NextDevice));
    match iwd_step("wlan0", IwdReply::NetworkName(some("Home"))) {
        IwdAction::Answer(a) => assert_eq!(a.as_deref(), Some("Home")),
        other => panic!("unexpected {other:?}"),
    }
    assert!(matches!(iwd_step("wlan0", IwdReply::NetworkName(None)), IwdAction::Answer(None)));
}

#[test]
fn checked_bluetooth_detection() {
    assert_eq!(
        sink_bluetooth_checked(true, "bluez_output.X", "Pixel Buds Pro", &Vec::new()),
        Some((true, Some("Pixel Buds Pro".to_string())))
    );
    assert_eq!(sink_bluetooth_checked(true, "alsa_output.pci", "", &Vec::new()), Some((false, None)));
    // A Bluetooth sink whose label cannot be cut on a character boundary.
    assert_eq!(sink_bluetooth_checked(true, "bluez_output.X", "ÄÄÄÄÄÄÄÄÄÄ", &Vec::new()), None);
    assert_eq!(status_bluetooth_checked(" *  12. Speakers\n"), Some(None));
    assert_eq!(status_bluetooth_checked(" *  12. bluez ÄÄÄÄÄÄÄÄÄÄ\n"), None);
    assert_eq!(
        status_bluetooth_checked(" *  12. Buds bluez\n"),
        Some(Some(Some("Buds bluez".to_string())))
    );
}
