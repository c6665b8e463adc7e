//! When to alert about new signals, what the alert says and how it is given.
use vstd::prelude::*;

use crate::collections::key_views;
use crate::domain::{KeyView, SignalKey};
use crate::text::{append_str, decimal, u64_to_decimal};

verus! {

/// Alerts come at most once in this many milliseconds.
pub const ALERT_THROTTLE_MS: i64 = 30_000i64;

/// The title and text of an alert.
#[derive(Debug, Clone, PartialEq, Eq)]
pub struct AlertContent {
    pub title: String,
    pub body: String,
}

/// Whether a notification plays the system sound.
#[derive(Debug, Clone, Copy, PartialEq, Eq, Structural)]
pub enum ToastSoundMode {
    Default,
    Silent,
}

/// How an alert is given: a notification (with or without sound) and a beep.
#[derive(Debug, Clone, Copy, PartialEq, Eq, Structural)]
pub struct AlertDispatchPlan {
    pub show_toast: bool,
    pub toast_sound: Option<ToastSoundMode>,
    pub play_beep: bool,
}

/// An alert to give: what it says and how.
#[derive(Debug, Clone, PartialEq, Eq)]
pub struct AlertRequest {
    pub content: AlertContent,
    pub plan: AlertDispatchPlan,
}

/// The title of every alert.
pub open spec fn alert_title() -> Seq<char> {
    "Signal Desk 新信号"@
}

/// The text of an alert about `keys`: the first key, and how many more there
/// are where there are more.
pub open spec fn alert_body(keys: Seq<KeyView>) -> Seq<char> {
    let first = keys[0];
    let head = first.0 + " "@ + first.1 + " "@ + first.2;
    if keys.len() == 1 {
        head + " 出现新信号"@
    } else {
        head + " +"@ + decimal((keys.len() - 1) as nat) + " 条新信号"@
    }
}

/// The notification shows where notifications are on, with the system sound
/// where sound is on; without a notification, sound means a beep.
pub open spec fn dispatch_plan(show_toast: bool, play_sound: bool) -> AlertDispatchPlan {
    if show_toast {
        AlertDispatchPlan {
            show_toast: true,
            toast_sound: Some(if play_sound { ToastSoundMode::Default } else { ToastSoundMode::Silent }),
            play_beep: false,
        }
    } else {
        AlertDispatchPlan { show_toast: false, toast_sound: None, play_beep: play_sound }
    }
}

/// An alert is given where there is something new, notifications or sound
/// are on, and the last alert is at least the throttle interval ago.
pub open spec fn alert_fires(
    last_alert_ms: Option<i64>,
    now_ms: i64,
    count: nat,
    notifications_enabled: bool,
    sound_enabled: bool,
) -> bool {
    &&& count > 0
    &&& (notifications_enabled || sound_enabled)
    &&& match last_alert_ms {
        Some(last) => now_ms - last >= ALERT_THROTTLE_MS,
        None => true,
    }
}

/// The content of the alert about `new_unread`.
pub fn build_alert_content(new_unread: &[SignalKey]) -> (c: AlertContent)
    requires
        new_unread@.len() > 0,
    ensures
        c.title@ == alert_title(),
        c.body@ == alert_body(key_views(new_unread@)),
{
    let first = &new_unread[0];
    let mut body = String::new();
    append_str(&mut body, first.symbol.as_str());
    append_str(&mut body, " ");
    append_str(&mut body, first.period.as_str());
    append_str(&mut body, " ");
    append_str(&mut body, first.signal_type.as_str());
    let n = new_unread.len();
    if n == 1 {
        append_str(&mut body, " 出现新信号");
    } else {
        append_str(&mut body, " +");
        let more = u64_to_decimal((n - 1) as u64);
        append_str(&mut body, more.as_str());
        append_str(&mut body, " 条新信号");
    }
    assert(key_views(new_unread@)[0] == first@);
    assert(body@ =~= alert_body(key_views(new_unread@)));
    AlertContent { title: "Signal Desk 新信号".to_string(), body }
}

/// How to give an alert with the given settings.
pub fn build_dispatch_plan(show_toast: bool, play_sound: bool) -> (p: AlertDispatchPlan)
    ensures
        p == dispatch_plan(show_toast, play_sound),
{
    if show_toast {
        let toast_sound = if play_sound {
            Some(ToastSoundMode::Default)
        } else {
            Some(ToastSoundMode::Silent)
        };
        return AlertDispatchPlan { show_toast: true, toast_sound, play_beep: false };
    }
    AlertDispatchPlan { show_toast: false, toast_sound: None, play_beep: play_sound }
}

/// Remembers when the last alert was given.
#[derive(Debug)]
pub struct AlertEngine {
    pub last_alert_ms: Option<i64>,
}

impl Default for AlertEngine {
    /// An engine that has given no alert yet.
    fn default() -> (e: Self)
        ensures
            e.last_alert_ms is None,
    {
        AlertEngine { last_alert_ms: None }
    }
}

impl AlertEngine {
    /// The alert to give about `new_unread` at `now_ms`, if one is due; a
    /// given alert starts a new throttle interval.
    pub fn plan_alert(
        &mut self,
        now_ms: i64,
        new_unread: &[SignalKey],
        notifications_enabled: bool,
        sound_enabled: bool,
    ) -> (r: Option<AlertRequest>)
        ensures
            alert_fires(
                old(self).last_alert_ms,
                now_ms,
                new_unread@.len(),
                notifications_enabled,
                sound_enabled,
            ) ==> {
                &&& final(self).last_alert_ms == Some(now_ms)
                &&& r matches Some(req) && req.content.title@ == alert_title()
                    && req.content.body@ == alert_body(key_views(new_unread@)) && req.plan
                    == dispatch_plan(notifications_enabled, sound_enabled)
            },
            !alert_fires(
                old(self).last_alert_ms,
                now_ms,
                new_unread@.len(),
                notifications_enabled,
                sound_enabled,
            ) ==> final(self).last_alert_ms == old(self).last_alert_ms && r is None,
    {
        if new_unread.len() == 0 || (!notifications_enabled && !sound_enabled) {
            return None;
        }
        if let Some(last_ms) = self.last_alert_ms {
            let elapsed: i128 = now_ms as i128 - last_ms as i128;
            if elapsed < 30_000 {
                return None;
            }
        }
        let content = build_alert_content(new_unread);
        let plan = build_dispatch_plan(notifications_enabled, sound_enabled);
        self.last_alert_ms = Some(now_ms);
        Some(AlertRequest { content, plan })
    }

    /// Whether an alert about `new_unread` is given at `now_ms`; a given
    /// alert starts a new throttle interval.
    pub fn on_new_unread(
        &mut self,
        now_ms: i64,
        new_unread: &[SignalKey],
        notifications_enabled: bool,
        sound_enabled: bool,
    ) -> (fired: bool)
        ensures
            fired == alert_fires(
                old(self).last_alert_ms,
                now_ms,
                new_unread@.len(),
                notifications_enabled,
                sound_enabled,
            ),
            final(self).last_alert_ms == (if fired {
                Some(now_ms)
            } else {
                old(self).last_alert_ms
            }),
    {
        self.plan_alert(now_ms, new_unread, notifications_enabled, sound_enabled).is_some()
    }
}

/// At most one alert in any 30 seconds: after an alert at `fired_at_ms`,
/// none is given before 30 seconds have passed, and one is given from then
/// on where there is something new and notifications or sound are on.
pub proof fn law_alert_throttle(
    fired_at_ms: i64,
    now_ms: i64,
    count: nat,
    notifications_enabled: bool,
    sound_enabled: bool,
)
    ensures
        now_ms - fired_at_ms < ALERT_THROTTLE_MS ==> !alert_fires(
            Some(fired_at_ms),
            now_ms,
            count,
            notifications_enabled,
            sound_enabled,
        ),
        now_ms - fired_at_ms >= ALERT_THROTTLE_MS && count > 0 && (notifications_enabled
            || sound_enabled) ==> alert_fires(
            Some(fired_at_ms),
            now_ms,
            count,
            notifications_enabled,
            sound_enabled,
        ),
{
}

/// A sound never plays twice: the beep plays only without a notification,
/// and the notification's sound is the only other sound.
pub proof fn law_single_sound(show_toast: bool, play_sound: bool)
    ensures
        dispatch_plan(show_toast, play_sound).play_beep ==> !dispatch_plan(
            show_toast,
            play_sound,
        ).show_toast,
        dispatch_plan(show_toast, play_sound).show_toast == show_toast,
        (dispatch_plan(show_toast, play_sound).play_beep || dispatch_plan(
            show_toast,
            play_sound,
        ).toast_sound == Some(ToastSoundMode::Default)) == play_sound,
{
}

} // verus!
