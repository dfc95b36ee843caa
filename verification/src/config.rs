//! The persistent settings and the rules that apply them.

use vstd::prelude::*;
use crate::theme::ThemeKind;

verus! {

/// Settings kept in `~/.config/bt-monitor/config.toml`. A field missing
/// from the file takes its default.
#[derive(Copy, Clone, Debug, PartialEq, Eq, Structural)]
pub struct Config {
    pub theme: ThemeKind,
    pub refresh_interval_secs: u64,
    pub close_to_tray: bool,
    pub low_battery_alert: bool,
    pub low_battery_threshold: u8,
    pub autostart: bool,
}

/// Default refresh interval, in seconds.
pub fn default_refresh() -> (s: u64)
    ensures
        s == 3,
{
    3
}

/// Default of the switches that are on unless turned off.
pub fn default_true() -> (b: bool)
    ensures
        b,
{
    true
}

/// Default battery percentage under which a device counts as low.
pub fn default_battery_threshold() -> (p: u8)
    ensures
        p == 20,
{
    20
}

impl Default for Config {
    fn default() -> (c: Config)
        ensures
            c == (Config {
                theme: ThemeKind::Aurora,
                refresh_interval_secs: 3,
                close_to_tray: true,
                low_battery_alert: true,
                low_battery_threshold: 20,
                autostart: false,
            }),
    {
        Config {
            theme: ThemeKind::default(),
            refresh_interval_secs: default_refresh(),
            close_to_tray: true,
            low_battery_alert: true,
            low_battery_threshold: default_battery_threshold(),
            autostart: false,
        }
    }
}

/// The refresh intervals the settings page offers, in seconds.
pub const REFRESH_OPTIONS: [u64; 5] = [1, 3, 5, 10, 30];

/// The effective refresh interval of a configured value.
pub open spec fn effective_refresh_secs_spec(configured: u64) -> u64 {
    if configured >= 1 {
        configured
    } else {
        1
    }
}

/// The interval the backend refreshes at: the configured one, but never
/// below one second.
pub fn effective_refresh_secs(configured: u64) -> (s: u64)
    ensures
        s == effective_refresh_secs_spec(configured),
{
    if configured >= 1 {
        configured
    } else {
        1
    }
}

/// Decides whether the backend's refresh timer must be restarted: when the
/// effective interval differs from the one it runs at, the new interval.
pub fn refresh_timer_update(running_secs: u64, configured: u64) -> (r: Option<u64>)
    ensures
        r == if effective_refresh_secs_spec(configured) != running_secs {
            Some(effective_refresh_secs_spec(configured))
        } else {
            None::<u64>
        },
{
    let current = effective_refresh_secs(configured);
    if current != running_secs {
        Some(current)
    } else {
        None
    }
}

/// Brings the autostart setting in line with whether the desktop entry is
/// actually installed: the file on disk wins. Returns whether the setting
/// changed and therefore has to be saved.
pub fn reconcile_autostart(config: &mut Config, installed: bool) -> (changed: bool)
    ensures
        changed == (old(config).autostart != installed),
        final(config).autostart == installed,
        *final(config) == (Config { autostart: installed, ..*old(config) }),
{
    if config.autostart != installed {
        config.autostart = installed;
        true
    } else {
        false
    }
}

/// What applying the edits made on the settings page involves.
#[derive(Copy, Clone, Debug, PartialEq, Eq, Structural)]
pub struct SettingsEffects {
    /// The settings changed and are saved.
    pub save: bool,
    /// The autostart entry is installed (`Some(true)`) or removed
    /// (`Some(false)`): only when the autostart switch changed.
    pub set_autostart: Option<bool>,
}

/// The settings page saves only when something changed, and touches the
/// autostart entry only when the autostart switch changed.
pub fn settings_effects(before: Config, after: Config) -> (e: SettingsEffects)
    ensures
        e.save == (before != after),
        e.set_autostart == if after.autostart != before.autostart {
            Some(after.autostart)
        } else {
            None::<bool>
        },
{
    let save = before != after;
    let set_autostart = if after.autostart != before.autostart {
        Some(after.autostart)
    } else {
        None
    };
    SettingsEffects { save, set_autostart }
}

} // verus!
