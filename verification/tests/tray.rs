use signal_desk_egui::adapters::tray::widget_visible_after;
use signal_desk_egui::app_core::contract::AppEvent;
use signal_desk_egui::adapters::tray::{
    default_tray_icon_rgba, map_tray_click_to_command, menu_event_to_command, TrayButtonState,
    TrayIconEventKind, TrayMenuIds, TrayMouseButton,
};
use signal_desk_egui::app_core::contract::AppCommand;

fn test_ids() -> TrayMenuIds {
    TrayMenuIds {
        show_main: "show-main".to_string(),
        widget: "toggle-widget".to_string(),
        exit: "exit".to_string(),
    }
}

#[test]
fn widget_menu_maps_to_show_when_hidden() {
    let ids = test_ids();
    let command = menu_event_to_command(&ids.widget.clone(), &ids, false);
    assert!(matches!(command, Some(AppCommand::RequestShowWidget)));
}

#[test]
fn widget_menu_maps_to_hide_when_visible() {
    let ids = test_ids();
    let command = menu_event_to_command(&ids.widget.clone(), &ids, true);
    assert!(matches!(command, Some(AppCommand::RequestHideWidget)));
}

#[test]
fn show_main_menu_maps_to_show_command() {
    let ids = test_ids();
    let command = menu_event_to_command(&ids.show_main.clone(), &ids, true);
    assert!(matches!(command, Some(AppCommand::RequestShowMainWindow)));
}

#[test]
fn exit_menu_maps_to_exit_command() {
    let ids = test_ids();
    let command = menu_event_to_command(&ids.exit.clone(), &ids, true);
    assert!(matches!(command, Some(AppCommand::RequestExitApp)));
}

#[test]
fn unknown_menu_entry_maps_to_nothing() {
    let ids = test_ids();
    assert!(menu_event_to_command("separator", &ids, true).is_none());
    assert!(menu_event_to_command("", &ids, false).is_none());
}

#[test]
fn left_click_maps_to_request_show_main_window() {
    let event = TrayIconEventKind::Click {
        button: TrayMouseButton::Left,
        button_state: TrayButtonState::Up,
    };
    let mapped = map_tray_click_to_command(&event);
    assert!(matches!(mapped, Some(AppCommand::RequestShowMainWindow)));
}

#[test]
fn other_tray_events_map_to_nothing() {
    let press = TrayIconEventKind::Click {
        button: TrayMouseButton::Left,
        button_state: TrayButtonState::Down,
    };
    let right = TrayIconEventKind::Click {
        button: TrayMouseButton::Right,
        button_state: TrayButtonState::Up,
    };
    assert!(map_tray_click_to_command(&press).is_none());
    assert!(map_tray_click_to_command(&right).is_none());
    assert!(map_tray_click_to_command(&TrayIconEventKind::Other).is_none());
}

fn pixel(rgba: &[u8], x: usize, y: usize) -> [u8; 4] {
    let i = (y * 32 + x) * 4;
    [rgba[i], rgba[i + 1], rgba[i + 2], rgba[i + 3]]
}

#[test]
fn tray_icon_has_frame_bar_and_trend_lines() {
    let rgba = default_tray_icon_rgba();
    assert_eq!(rgba.len(), 32 * 32 * 4);
    assert_eq!(pixel(&rgba, 0, 0), [26, 30, 36, 255]);
    assert_eq!(pixel(&rgba, 31, 17), [26, 30, 36, 255]);
    assert_eq!(pixel(&rgba, 16, 7), [245, 173, 0, 255]);
    assert_eq!(pixel(&rgba, 16, 11), [245, 173, 0, 255]);
    assert_eq!(pixel(&rgba, 7, 11), [72, 196, 142, 255]);
    assert_eq!(pixel(&rgba, 25, 20), [72, 196, 142, 255]);
    assert_eq!(pixel(&rgba, 26, 20), [33, 39, 46, 255]);
    assert_eq!(pixel(&rgba, 5, 5), [33, 39, 46, 255]);
}

#[test]
fn tray_follows_widget_visibility_events() {
    assert!(!widget_visible_after(
        true,
        &AppEvent::WidgetVisibilityChanged { visible: false }
    ));
    assert!(widget_visible_after(
        false,
        &AppEvent::WidgetVisibilityChanged { visible: true }
    ));
    assert!(widget_visible_after(
        true,
        &AppEvent::PollFailed {
            error: "x".to_string()
        }
    ));
    assert!(!widget_visible_after(
        false,
        &AppEvent::SnapshotUpdated(Default::default())
    ));
}
