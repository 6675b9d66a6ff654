use skyline::backend::address_to_id;
use skyline::backend::hyprland_snapshot;
use skyline::backend::merge_outputs;
use skyline::backend::needs_output_refresh;
use skyline::backend::niri_snapshot;
use skyline::backend::HyprClient;
use skyline::backend::HyprMonitor;
use skyline::backend::HyprWorkspace;
use skyline::backend::LogicalGeometry;
use skyline::backend::NiriOutput;
use skyline::backend::NiriWindow;
use skyline::backend::NiriWorkspace;
use skyline::compositor::CompositorState;
use skyline::compositor::OutputInfo;
use skyline::compositor::WindowInfo;
use skyline::compositor::WorkspaceInfo;

fn output(name: &str, x: i32, y: i32, width: u32, height: u32) -> OutputInfo {
    OutputInfo { name: name.to_string(), x, y, width, height }
}

fn workspace(id: u64, name: &str, index: u8, out: Option<&str>, active: bool) -> WorkspaceInfo {
    WorkspaceInfo {
        id,
        name: name.to_string(),
        index,
        output: out.map(|s| s.to_string()),
        active,
        urgent: false,
    }
}

fn window(id: u64, title: &str, ws: Option<u64>, out: Option<&str>, focused: bool) -> WindowInfo {
    WindowInfo {
        id,
        title: title.to_string(),
        app_id: None,
        workspace_id: ws,
        output: out.map(|s| s.to_string()),
        focused,
        focus_token: id.to_string(),
    }
}

fn two_monitor_state() -> CompositorState {
    CompositorState {
        focused_output: Some("DP-1".to_string()),
        outputs: vec![output("DP-1", 0, 0, 2560, 1440), output("HDMI-A-1", 2560, 0, 1920, 1080)],
        workspaces: vec![
            workspace(1, "1", 1, Some("DP-1"), true),
            workspace(2, "2", 2, Some("DP-1"), false),
            workspace(3, "1", 1, Some("HDMI-A-1"), true),
        ],
        windows: vec![
            window(30, "editor", Some(1), Some("DP-1"), true),
            window(10, "terminal", Some(1), Some("DP-1"), false),
            window(20, "video", Some(3), Some("HDMI-A-1"), false),
            window(5, "hidden", Some(2), Some("DP-1"), false),
        ],
        focused_window: None,
    }
}

#[test]
fn output_names_follow_geometry_list() {
    let st = two_monitor_state();
    assert_eq!(st.output_names(), vec!["DP-1".to_string(), "HDMI-A-1".to_string()]);
}

#[test]
fn output_names_from_workspaces_are_sorted_and_distinct() {
    let mut st = two_monitor_state();
    st.outputs.clear();
    st.workspaces.push(workspace(4, "x", 3, Some("DP-1"), false));
    st.workspaces.push(workspace(5, "y", 4, None, false));
    assert_eq!(st.output_names(), vec!["DP-1".to_string(), "HDMI-A-1".to_string()]);
}

#[test]
fn workspaces_for_one_output() {
    let st = two_monitor_state();
    let ids: Vec<u64> = st.workspaces_for_output(Some("DP-1")).iter().map(|w| w.id).collect();
    assert_eq!(ids, vec![1, 2]);
    // No output: those of the focused output, else all.
    let focused: Vec<u64> = st.workspaces_for_output(None).iter().map(|w| w.id).collect();
    assert_eq!(focused, vec![1, 2]);
    let mut unfocused = st.clone();
    unfocused.focused_output = None;
    let all: Vec<u64> = unfocused.workspaces_for_output(None).iter().map(|w| w.id).collect();
    assert_eq!(all, vec![1, 2, 3]);
}

#[test]
fn taskbar_lists_active_workspace_windows_by_id() {
    let st = two_monitor_state();
    let ids: Vec<u64> = st.taskbar_windows(Some("DP-1")).iter().map(|w| w.id).collect();
    assert_eq!(ids, vec![10, 30]);
    let other: Vec<u64> = st.taskbar_windows(Some("HDMI-A-1")).iter().map(|w| w.id).collect();
    assert_eq!(other, vec![20]);
}

#[test]
fn focused_window_only_on_its_output() {
    let st = two_monitor_state();
    assert_eq!(st.focused_window_for_output(Some("DP-1")).map(|w| w.id), Some(30));
    assert!(st.focused_window_for_output(Some("HDMI-A-1")).is_none());
}

#[test]
fn output_at_point() {
    let st = two_monitor_state();
    assert_eq!(st.output_at(100, 100), Some("DP-1"));
    assert_eq!(st.output_at(2560, 5), Some("HDMI-A-1"));
    assert_eq!(st.output_at(-1, 5), None);
}

#[test]
fn hyprland_addresses_parse_as_hex() {
    assert_eq!(address_to_id("0x55d1a2b3c4e0"), 0x55d1a2b3c4e0);
    assert_eq!(address_to_id("ff"), 255);
    assert_eq!(address_to_id("0x0x10"), 16);
    // Not hex: hashed, the same way every time.
    assert_eq!(address_to_id("zz"), address_to_id("zz"));
    assert_ne!(address_to_id("zz"), address_to_id("zy"));
}

#[test]
fn niri_outputs_keep_previous_geometry_while_off() {
    let previous = vec![output("DP-1", 1920, 0, 2560, 1440)];
    let fetched = vec![
        NiriOutput { name: "DP-1".to_string(), logical: None },
        NiriOutput {
            name: "eDP-1".to_string(),
            logical: Some(LogicalGeometry { x: 0, y: 0, width: 1920, height: 1200 }),
        },
        NiriOutput { name: "HDMI-A-1".to_string(), logical: None },
    ];
    let outs = merge_outputs(fetched, &previous);
    let names: Vec<&str> = outs.iter().map(|o| o.name.as_str()).collect();
    assert_eq!(names, vec!["eDP-1", "HDMI-A-1", "DP-1"]);
    assert_eq!((outs[2].x, outs[2].width), (1920, 2560));
    assert_eq!((outs[1].x, outs[1].width), (0, 0));
}

#[test]
fn niri_snapshot_orders_and_focuses() {
    let workspaces = vec![
        NiriWorkspace {
            id: 7,
            idx: 2,
            name: None,
            output: Some("DP-1".to_string()),
            is_urgent: false,
            is_active: false,
            is_focused: false,
        },
        NiriWorkspace {
            id: 3,
            idx: 1,
            name: Some("web".to_string()),
            output: Some("DP-1".to_string()),
            is_urgent: true,
            is_active: true,
            is_focused: true,
        },
    ];
    let windows = vec![
        NiriWindow {
            id: 42,
            title: Some("shell".to_string()),
            app_id: Some("foot".to_string()),
            workspace_id: Some(3),
            is_focused: true,
        },
        NiriWindow { id: 9, title: None, app_id: None, workspace_id: Some(99), is_focused: false },
    ];
    let outputs = vec![output("DP-1", 0, 0, 1920, 1080)];
    let st = niri_snapshot(&workspaces, &windows, &outputs);
    let ws: Vec<(u64, &str)> = st.workspaces.iter().map(|w| (w.id, w.name.as_str())).collect();
    assert_eq!(ws, vec![(3, "web"), (7, "2")]);
    assert!(st.workspaces[0].urgent && st.workspaces[0].active);
    let wins: Vec<u64> = st.windows.iter().map(|w| w.id).collect();
    assert_eq!(wins, vec![9, 42]);
    assert_eq!(st.windows[0].title, "");
    assert_eq!(st.windows[0].output, None);
    assert_eq!(st.windows[1].output.as_deref(), Some("DP-1"));
    assert_eq!(st.windows[1].focus_token, "42");
    assert_eq!(st.focused_window.as_ref().map(|w| w.id), Some(42));
    assert_eq!(st.focused_output.as_deref(), Some("DP-1"));
    assert_eq!(st.outputs.len(), 1);
}

#[test]
fn niri_focused_output_falls_back_to_focused_window() {
    let workspaces = vec![NiriWorkspace {
        id: 1,
        idx: 1,
        name: None,
        output: None,
        is_urgent: false,
        is_active: true,
        is_focused: true,
    }];
    let windows = vec![NiriWindow {
        id: 5,
        title: Some("a".to_string()),
        app_id: None,
        workspace_id: Some(1),
        is_focused: true,
    }];
    let st = niri_snapshot(&workspaces, &windows, &Vec::new());
    assert_eq!(st.focused_output, None);
    assert_eq!(st.focused_window.as_ref().map(|w| w.id), Some(5));
}

#[test]
fn hyprland_snapshot_marks_monitor_workspaces() {
    let workspaces = vec![
        HyprWorkspace { id: 2, name: "2".to_string(), monitor: "DP-1".to_string() },
        HyprWorkspace { id: 1, name: "1".to_string(), monitor: "DP-1".to_string() },
        HyprWorkspace { id: 5, name: "5".to_string(), monitor: "HDMI-A-1".to_string() },
        HyprWorkspace { id: -98, name: "special".to_string(), monitor: "DP-1".to_string() },
    ];
    let monitors = vec![
        HyprMonitor {
            name: "HDMI-A-1".to_string(),
            x: 2560,
            y: 0,
            width: 1920,
            height: 1080,
            active_workspace_id: 5,
        },
        HyprMonitor {
            name: "DP-1".to_string(),
            x: 0,
            y: 0,
            width: 2560,
            height: 1440,
            active_workspace_id: 1,
        },
    ];
    let clients = vec![
        HyprClient {
            address: "0x1a".to_string(),
            title: "term".to_string(),
            class: "foot".to_string(),
            workspace_id: 1,
        },
        HyprClient {
            address: "0x2b".to_string(),
            title: "mpv".to_string(),
            class: "mpv".to_string(),
            workspace_id: 5,
        },
    ];
    let focused = Some(clients[1].clone());
    let st = hyprland_snapshot(
        Some(1),
        Some(monitors[1].clone()),
        &workspaces,
        Some(monitors.clone()),
        &clients,
        focused,
    );
    let ws: Vec<(u64, u8, bool)> = st.workspaces.iter().map(|w| (w.id, w.index, w.active)).collect();
    assert_eq!(ws, vec![(1, 1, true), (2, 2, false), ((-98i32) as u64, 98, false), (5, 5, true)]);
    let outs: Vec<&str> = st.outputs.iter().map(|o| o.name.as_str()).collect();
    assert_eq!(outs, vec!["DP-1", "HDMI-A-1"]);
    assert_eq!(st.windows[0].id, 0x1a);
    assert_eq!(st.windows[0].output.as_deref(), Some("DP-1"));
    assert_eq!(st.windows[1].output.as_deref(), Some("HDMI-A-1"));
    assert!(!st.windows[0].focused && st.windows[1].focused);
    assert_eq!(st.focused_window.as_ref().map(|w| w.focus_token.as_str()), Some("0x2b"));
    assert_eq!(st.focused_output.as_deref(), Some("DP-1"));
}

#[test]
fn hyprland_focused_client_outside_the_list() {
    let focused = HyprClient {
        address: "0x99".to_string(),
        title: "popup".to_string(),
        class: "app".to_string(),
        workspace_id: 3,
    };
    let active = HyprMonitor {
        name: "eDP-1".to_string(),
        x: 0,
        y: 0,
        width: 1920,
        height: 1200,
        active_workspace_id: 3,
    };
    let st = hyprland_snapshot(None, Some(active), &Vec::new(), None, &Vec::new(), Some(focused));
    let fw = st.focused_window.expect("focused window");
    assert_eq!(fw.id, 0x99);
    assert!(fw.focused);
    assert_eq!(fw.output.as_deref(), Some("eDP-1"));
    assert!(st.outputs.is_empty());
}

#[test]
fn niri_output_refresh_policy() {
    assert!(needs_output_refresh(true, true, 0));
    assert!(needs_output_refresh(false, false, 0));
    assert!(needs_output_refresh(false, true, 2_000));
    assert!(!needs_output_refresh(false, true, 1_999));
}
