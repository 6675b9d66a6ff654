use skyline::bar::apply_order;
use skyline::bar::BarState;
use skyline::bar::HoverTipKind;
use skyline::bar::PopupGroup;
use skyline::bar::PopupKind;
use skyline::compositor::CompositorState;
use skyline::compositor::OutputInfo;
use skyline::compositor::WorkspaceInfo;
use skyline::config::CustomModuleConfig;
use skyline::custom::CustomSnapshot;
use skyline::tray::TrayMenuEntry;
use skyline::tray::TrayMenuSnapshot;

fn menu(item: &str, visible: &[bool]) -> TrayMenuSnapshot {
    TrayMenuSnapshot {
        item_id: item.to_string(),
        entries: visible
            .iter()
            .enumerate()
            .map(|(i, v)| TrayMenuEntry {
                id: i as i32,
                label: format!("entry {i}"),
                enabled: true,
                visible: *v,
                separator: false,
                children: Vec::new(),
            })
            .collect(),
    }
}

fn kinds(s: &BarState) -> Vec<(u64, String)> {
    s.popups
        .iter()
        .map(|p| {
            let k = match &p.kind {
                PopupKind::TrayMenu { item_id } => format!("menu:{item_id}"),
                PopupKind::HoverTooltip { kind } => format!("tip:{kind:?}"),
            };
            (p.id, k)
        })
        .collect()
}

fn output(name: &str, x: i32, width: u32) -> OutputInfo {
    OutputInfo { name: name.to_string(), x, y: 0, width, height: 1080 }
}

fn outputs_state(outs: Vec<OutputInfo>) -> CompositorState {
    CompositorState {
        focused_output: None,
        outputs: outs,
        workspaces: Vec::new(),
        windows: Vec::new(),
        focused_window: None,
    }
}

#[test]
fn tray_menu_request_then_arrival_opens_popup() {
    let mut s = BarState::new(None);
    let req = s.tray_open_menu("nm-applet".to_string(), Some(1));
    assert!(req.request_menu);
    assert!(req.close.is_empty());
    assert_eq!(s.pending_tray.as_ref().map(|p| p.parent), Some(1));
    // Contents for another item are dropped.
    assert!(!s.tray_menu_arrived(menu("other", &[true])));
    assert!(s.tray_menu.is_none());
    assert!(s.tray_menu_arrived(menu("nm-applet", &[true, false, true])));
    let plan = s.open_tray_menu_popup("nm-applet".to_string(), 100, None);
    assert_eq!(plan.parent, Some(1));
    assert_eq!(plan.rows, 2);
    assert!(plan.pending.is_some());
    assert!(s.pending_tray.is_none());
    assert_eq!(kinds(&s), vec![(100, "menu:nm-applet".to_string())]);
}

#[test]
fn second_right_click_on_same_item_closes_its_menu() {
    let mut s = BarState::new(None);
    s.tray_open_menu("a".to_string(), Some(1));
    s.tray_menu_arrived(menu("a", &[true]));
    s.open_tray_menu_popup("a".to_string(), 7, None);
    let req = s.tray_open_menu("a".to_string(), Some(1));
    assert!(!req.request_menu);
    assert_eq!(req.close, vec![7]);
    assert!(s.popups.is_empty());
    assert!(s.tray_menu.is_none() && s.pending_tray.is_none());
}

#[test]
fn refreshed_contents_of_an_open_menu_do_not_reopen_it() {
    let mut s = BarState::new(None);
    s.tray_open_menu("a".to_string(), Some(1));
    s.tray_menu_arrived(menu("a", &[true]));
    s.open_tray_menu_popup("a".to_string(), 7, None);
    assert!(!s.tray_menu_arrived(menu("a", &[true, true])));
    assert_eq!(s.tray_menu.as_ref().map(|m| m.entries.len()), Some(2));
    assert_eq!(s.popups.len(), 1);
}

#[test]
fn menu_without_any_bar_does_not_open() {
    let mut s = BarState::new(None);
    let req = s.tray_open_menu("a".to_string(), None);
    assert!(req.request_menu);
    assert!(s.pending_tray.is_none());
    assert!(!s.tray_menu_arrived(menu("a", &[true])));
    let plan = s.open_tray_menu_popup("a".to_string(), 3, None);
    assert_eq!(plan.parent, None);
    assert_eq!(plan.rows, 1);
    assert!(s.popups.is_empty());
}

#[test]
fn click_outside_the_menu_dismisses_it() {
    let mut s = BarState::new(None);
    s.tray_open_menu("a".to_string(), Some(1));
    s.tray_menu_arrived(menu("a", &[true]));
    s.open_tray_menu_popup("a".to_string(), 7, None);
    // A click inside the menu keeps it.
    assert!(s.pointer_pressed(7).is_empty());
    assert_eq!(s.popups.len(), 1);
    assert_eq!(s.pointer_pressed(1), vec![7]);
    assert!(s.popups.is_empty());
    assert!(s.tray_menu.is_none());
    // Nothing open: nothing happens.
    assert!(s.pointer_pressed(1).is_empty());
}

#[test]
fn hover_tooltips_replace_each_other() {
    let mut s = BarState::new(None);
    let p = s.open_hover_tooltip(HoverTipKind::Clock, true, 10, Some(1));
    assert!(p.opened && p.close.is_empty());
    // Already open: nothing changes.
    let again = s.open_hover_tooltip(HoverTipKind::Clock, true, 11, Some(1));
    assert!(!again.opened && again.close.is_empty());
    // Without lines nothing opens.
    let empty = s.open_hover_tooltip(HoverTipKind::Weather, false, 12, Some(1));
    assert!(!empty.opened);
    let w = s.open_hover_tooltip(HoverTipKind::Weather, true, 13, Some(1));
    assert!(w.opened);
    assert_eq!(w.close, vec![10]);
    assert_eq!(kinds(&s), vec![(13, "tip:Weather".to_string())]);
    assert_eq!(s.close_hover_tooltip(HoverTipKind::Clock), Vec::<u64>::new());
    assert_eq!(s.close_hover_tooltip(HoverTipKind::Weather), vec![13]);
}

#[test]
fn closing_groups_leaves_the_others() {
    let mut s = BarState::new(None);
    s.open_hover_tooltip(HoverTipKind::Clock, true, 10, Some(1));
    s.tray_open_menu("a".to_string(), Some(1));
    s.tray_menu_arrived(menu("a", &[true]));
    s.open_tray_menu_popup("a".to_string(), 20, None);
    assert_eq!(s.close_tray_popups(), vec![20]);
    assert_eq!(kinds(&s), vec![(10, "tip:Clock".to_string())]);
    assert_eq!(s.close_all_hover_tooltips(), vec![10]);
    assert!(s.take_group(PopupGroup::TrayMenus).is_empty());
}

#[test]
fn closed_menu_surface_forgets_the_menu() {
    let mut s = BarState::new(None);
    s.tray_open_menu("a".to_string(), Some(1));
    s.tray_menu_arrived(menu("a", &[true]));
    s.open_tray_menu_popup("a".to_string(), 20, None);
    s.popup_closed(20);
    assert!(s.popups.is_empty());
    assert!(s.tray_menu.is_none());
}

/// Each output's width gap to a bar `w` pixels wide, as its `f32` bits.
fn gaps(st: &CompositorState, w: f32) -> Option<Vec<u32>> {
    Some(st.outputs.iter().map(|o| (o.width as f32 - w).abs().to_bits()).collect())
}

#[test]
fn exact_fit_is_under_two_pixels() {
    let st = outputs_state(vec![output("L", 0, 1000), output("R", 1000, 1001)]);
    // L is exactly two pixels off, which is no exact fit: R is.
    let mut s = BarState::new(None);
    s.pin_bar_output(1, gaps(&st, 1002.0), &st);
    assert_eq!(s.pins[0].output, "R");
    // Just under two pixels off: L fits too and comes first in geometry.
    let mut t = BarState::new(None);
    t.pin_bar_output(1, gaps(&st, 1001.999), &st);
    assert_eq!(t.pins[0].output, "L");
    // Sixty-four pixels off is too far for the closest match: the first free
    // monitor in geometry order is taken.
    let far = outputs_state(vec![output("A", 0, 3000), output("B", 3000, 1000)]);
    let mut u = BarState::new(None);
    u.pin_bar_output(1, gaps(&far, 1064.0), &far);
    assert_eq!(u.pins[0].output, "A");
    let mut v = BarState::new(None);
    v.pin_bar_output(1, gaps(&far, 1063.5), &far);
    assert_eq!(v.pins[0].output, "B");
}

#[test]
fn bars_pin_to_distinct_monitors_by_width() {
    let st = outputs_state(vec![output("HDMI-A-1", 2560, 1920), output("DP-1", 0, 2560)]);
    let mut s = BarState::new(None);
    // 2560 px wide surface: the DP-1 monitor.
    s.pin_bar_output(1, gaps(&st, 2560.0), &st);
    // Same width again: DP-1 is taken, closest free is HDMI but 640 px off.
    s.pin_bar_output(2, gaps(&st, 2560.0), &st);
    let pins: Vec<(u64, &str)> = s.pins.iter().map(|p| (p.bar, p.output.as_str())).collect();
    assert_eq!(pins, vec![(1, "DP-1"), (2, "HDMI-A-1")]);
    // Within two pixels: an exact match.
    let mut t = BarState::new(None);
    t.pin_bar_output(5, gaps(&st, 1919.5), &st);
    assert_eq!(t.pins[0].output, "HDMI-A-1");
    // 20 px off (fractional scaling): the closest monitor still wins.
    let mut u = BarState::new(None);
    u.pin_bar_output(6, gaps(&st, 1900.0), &st);
    assert_eq!(u.pins[0].output, "HDMI-A-1");
}

#[test]
fn bar_without_width_takes_first_free_monitor() {
    let st = outputs_state(vec![output("DP-1", 0, 2560), output("HDMI-A-1", 2560, 1920)]);
    let mut s = BarState::new(None);
    assert_eq!(s.output_for_bar(1, &st).as_deref(), Some("DP-1"));
    assert_eq!(s.output_for_bar(2, &st).as_deref(), Some("HDMI-A-1"));
    assert_eq!(s.output_for_bar(1, &st).as_deref(), Some("DP-1"));
    // No free monitor left.
    assert_eq!(s.output_for_bar(3, &st), None);
    s.window_closed(1);
    assert_eq!(s.output_for_bar(3, &st).as_deref(), Some("DP-1"));
}

#[test]
fn bound_output_wins() {
    let st = outputs_state(vec![output("DP-1", 0, 2560)]);
    let mut s = BarState::new(Some("eDP-1".to_string()));
    assert_eq!(s.output_for_bar(1, &st).as_deref(), Some("eDP-1"));
    assert!(s.pins.is_empty());
}

#[test]
fn pins_to_vanished_monitors_are_dropped() {
    let st = outputs_state(vec![output("DP-1", 0, 2560), output("HDMI-A-1", 2560, 1920)]);
    let mut s = BarState::new(None);
    s.output_for_bar(1, &st);
    s.output_for_bar(2, &st);
    let after = outputs_state(vec![output("HDMI-A-1", 0, 1920)]);
    s.refresh_bar_output_pins(&after);
    let pins: Vec<(u64, &str)> = s.pins.iter().map(|p| (p.bar, p.output.as_str())).collect();
    assert_eq!(pins, vec![(2, "HDMI-A-1")]);
    // No monitor known at all: pins stay.
    s.refresh_bar_output_pins(&outputs_state(Vec::new()));
    assert_eq!(s.pins.len(), 1);
}

#[test]
fn workspace_outputs_pin_in_name_order() {
    let st = CompositorState {
        focused_output: None,
        outputs: Vec::new(),
        workspaces: vec![
            WorkspaceInfo {
                id: 1,
                name: "1".to_string(),
                index: 1,
                output: Some("HDMI-A-1".to_string()),
                active: true,
                urgent: false,
            },
            WorkspaceInfo {
                id: 2,
                name: "2".to_string(),
                index: 1,
                output: Some("DP-2".to_string()),
                active: true,
                urgent: false,
            },
        ],
        windows: Vec::new(),
        focused_window: None,
    };
    let mut s = BarState::new(None);
    assert_eq!(s.output_for_bar(9, &st).as_deref(), Some("DP-2"));
}

#[test]
fn custom_texts_and_reload() {
    let mut s = BarState::new(None);
    assert!(s.set_custom_text(CustomSnapshot { id: "a".to_string(), text: "1".to_string() }));
    assert!(!s.set_custom_text(CustomSnapshot { id: "a".to_string(), text: "1".to_string() }));
    assert!(s.set_custom_text(CustomSnapshot { id: "b".to_string(), text: "x".to_string() }));
    assert!(s.set_custom_text(CustomSnapshot { id: "a".to_string(), text: "2".to_string() }));
    assert_eq!(s.custom_text("a").map(|t| t.as_str()), Some("2"));
    assert_eq!(s.custom.len(), 2);
    let keep = vec![CustomModuleConfig {
        id: "b".to_string(),
        command: "true".to_string(),
        args: Vec::new(),
        interval_ms: 1000,
        on_click: None,
        on_right_click: None,
        json: false,
    }];
    s.apply_reload(&keep, Some("DP-1".to_string()));
    assert_eq!(s.custom_text("a"), None);
    assert_eq!(s.custom_text("b").map(|t| t.as_str()), Some("x"));
    assert_eq!(s.bound_output.as_deref(), Some("DP-1"));
}

#[test]
fn only_the_five_latest_errors_are_kept() {
    let mut s = BarState::new(None);
    for i in 0..7 {
        s.push_error(format!("e{i}"));
    }
    assert_eq!(s.errors, vec!["e2", "e3", "e4", "e5", "e6"]);
}

#[test]
fn compositor_bursts_apply_the_latest_snapshot_last() {
    assert_eq!(apply_order(&vec![true, false, true, false]), vec![1, 3, 2]);
    assert_eq!(apply_order(&vec![false, false]), vec![0, 1]);
    assert_eq!(apply_order(&vec![true]), vec![0]);
    assert!(apply_order(&Vec::new()).is_empty());
}
