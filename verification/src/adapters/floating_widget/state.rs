//! What the widget shows.
use vstd::prelude::*;

use crate::app::UiColor;
use crate::app_core::contract::AppSnapshot;
use crate::text::{decimal, u64_to_decimal};

verus! {

/// The health of polling as the widget's dot shows it.
#[derive(Debug, Clone, Copy, PartialEq, Eq, Structural)]
pub enum WidgetConnectionState {
    Unknown,
    Healthy,
    Failed,
}

/// The unread count and the polling health.
#[derive(Debug, Clone, PartialEq, Eq)]
pub struct WidgetViewModel {
    pub unread_text: String,
    pub connection_state: WidgetConnectionState,
}

/// The connection state of the last poll's health: none yet, good, failed.
pub open spec fn connection_of(last_poll_ok: Option<bool>) -> WidgetConnectionState {
    match last_poll_ok {
        Some(true) => WidgetConnectionState::Healthy,
        Some(false) => WidgetConnectionState::Failed,
        None => WidgetConnectionState::Unknown,
    }
}

/// The widget's text is the unread count; its dot the polling health.
pub fn build_view_model(snapshot: &AppSnapshot) -> (vm: WidgetViewModel)
    ensures
        vm.unread_text@ == decimal(snapshot.unread_count as nat),
        vm.connection_state == connection_of(snapshot.last_poll_ok),
{
    WidgetViewModel {
        unread_text: u64_to_decimal(snapshot.unread_count as u64),
        connection_state: match snapshot.last_poll_ok {
            Some(true) => WidgetConnectionState::Healthy,
            Some(false) => WidgetConnectionState::Failed,
            None => WidgetConnectionState::Unknown,
        },
    }
}

/// Green for healthy, red for failed, grey before the first poll.
pub fn connection_color(state: WidgetConnectionState) -> (c: UiColor)
    ensures
        state == WidgetConnectionState::Healthy ==> c == UiColor::Rgb(48, 181, 122),
        state == WidgetConnectionState::Failed ==> c == UiColor::Rgb(214, 84, 105),
        state == WidgetConnectionState::Unknown ==> c == UiColor::LightGray,
{
    match state {
        WidgetConnectionState::Healthy => UiColor::Rgb(48, 181, 122),
        WidgetConnectionState::Failed => UiColor::Rgb(214, 84, 105),
        WidgetConnectionState::Unknown => UiColor::LightGray,
    }
}

} // verus!
