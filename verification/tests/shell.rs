use signal_desk_egui::adapters::floating_widget::hit_test::WidgetHitZone;
use signal_desk_egui::app_core::contract::{ShellCommand, WindowId};
use signal_desk_egui::shell::widget_window::{
    ensure_layered_style, hit_zone_to_lresult, title_to_utf16, HTCLIENT, HTTRANSPARENT,
    WS_EX_LAYERED, WS_EX_NOACTIVATE, WS_EX_TOOLWINDOW,
};
use signal_desk_egui::shell::window_manager::{window_op_for, WindowOp};
use signal_desk_egui::shell::{shell_effect, MainWindowShellEffect, ShellEffect};

#[test]
fn main_window_shell_effect_maps_main_window_commands() {
    assert_eq!(
        shell_effect(&ShellCommand::ShowWindow(WindowId::Main)),
        Some(ShellEffect::MainWindow(MainWindowShellEffect::Show))
    );
    assert_eq!(
        shell_effect(&ShellCommand::FocusWindow(WindowId::Main)),
        Some(ShellEffect::MainWindow(MainWindowShellEffect::Show))
    );
    assert_eq!(
        shell_effect(&ShellCommand::HideWindow(WindowId::Main)),
        Some(ShellEffect::MainWindow(MainWindowShellEffect::Hide))
    );
    assert_eq!(
        shell_effect(&ShellCommand::ExitProcess),
        Some(ShellEffect::MainWindow(MainWindowShellEffect::Exit))
    );
}

#[test]
fn shell_effect_maps_widget_visibility_commands() {
    assert_eq!(
        shell_effect(&ShellCommand::ShowWindow(WindowId::Widget)),
        Some(ShellEffect::WidgetVisibility(true))
    );
    assert_eq!(
        shell_effect(&ShellCommand::HideWindow(WindowId::Widget)),
        Some(ShellEffect::WidgetVisibility(false))
    );
}

#[test]
fn shell_effect_ignores_non_handled_widget_commands() {
    assert_eq!(
        shell_effect(&ShellCommand::FocusWindow(WindowId::Widget)),
        None
    );
}

#[test]
fn hide_widget_only_touches_widget_window() {
    let (window, op) = window_op_for(&ShellCommand::HideWindow(WindowId::Widget));
    assert_eq!(window, WindowId::Widget);
    assert_eq!(op, WindowOp::Hide);
}

#[test]
fn exit_process_requests_main_close() {
    assert_eq!(
        window_op_for(&ShellCommand::ExitProcess),
        (WindowId::Main, WindowOp::RequestClose)
    );
}

#[test]
fn show_and_focus_act_on_the_named_window() {
    assert_eq!(
        window_op_for(&ShellCommand::ShowWindow(WindowId::Main)),
        (WindowId::Main, WindowOp::Show)
    );
    assert_eq!(
        window_op_for(&ShellCommand::FocusWindow(WindowId::Widget)),
        (WindowId::Widget, WindowOp::Focus)
    );
}

#[test]
fn ensure_layered_style_sets_required_bit() {
    let style = ensure_layered_style(0);
    assert_ne!(style & 0x0008_0000, 0);
    assert_eq!(WS_EX_LAYERED, 0x0008_0000);
}

#[test]
fn ensure_layered_style_preserves_existing_bits() {
    let existing = 0x20_isize;
    let updated = ensure_layered_style(existing);
    assert_ne!(updated & 0x20, 0);
}

#[test]
fn ensure_layered_style_adds_toolwindow_and_noactivate() {
    let updated = ensure_layered_style(0);
    assert_ne!(updated & WS_EX_TOOLWINDOW, 0);
    assert_ne!(updated & WS_EX_NOACTIVATE, 0);
    assert_eq!(WS_EX_TOOLWINDOW, 0x80);
    assert_eq!(WS_EX_NOACTIVATE, 0x0800_0000);
}

#[test]
fn ensure_layered_style_is_idempotent() {
    let once = ensure_layered_style(0x10_0000);
    assert_eq!(ensure_layered_style(once), once);
    assert_eq!(once, 0x10_0000 | 0x0008_0000 | 0x80 | 0x0800_0000);
}

#[test]
fn widget_hit_zone_maps_to_win32_codes() {
    assert_eq!(hit_zone_to_lresult(WidgetHitZone::Transparent), -1);
    assert_eq!(hit_zone_to_lresult(WidgetHitZone::Drag), 1);
    assert_eq!(HTTRANSPARENT, -1);
    assert_eq!(HTCLIENT, 1);
}

#[test]
fn titles_are_encoded_as_nul_terminated_utf16() {
    let expected: Vec<u16> = "Signal Desk Widget"
        .encode_utf16()
        .chain(std::iter::once(0))
        .collect();
    assert_eq!(title_to_utf16("Signal Desk Widget"), expected);
    let wide: Vec<u16> = "新信号😀".encode_utf16().chain(std::iter::once(0)).collect();
    assert_eq!(title_to_utf16("新信号😀"), wide);
    assert_eq!(title_to_utf16(""), vec![0]);
}
