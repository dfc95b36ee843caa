use bluetooth_monitor::autostart::{autostart_file_name, desktop_entry, APP_ID};
use bluetooth_monitor::config::{
    default_battery_threshold, default_refresh, default_true, effective_refresh_secs, reconcile_autostart,
    refresh_timer_update, settings_effects, Config, REFRESH_OPTIONS,
};
use bluetooth_monitor::theme::ThemeKind;

#[test]
fn config_defaults() {
    let c = Config::default();
    assert_eq!(c.theme, ThemeKind::Aurora);
    assert_eq!(c.refresh_interval_secs, 3);
    assert!(c.close_to_tray);
    assert!(c.low_battery_alert);
    assert_eq!(c.low_battery_threshold, 20);
    assert!(!c.autostart);
    assert_eq!(default_refresh(), 3);
    assert!(default_true());
    assert_eq!(default_battery_threshold(), 20);
    assert_eq!(REFRESH_OPTIONS, [1, 3, 5, 10, 30]);
}

#[test]
fn refresh_interval_rules() {
    assert_eq!(effective_refresh_secs(0), 1);
    assert_eq!(effective_refresh_secs(1), 1);
    assert_eq!(effective_refresh_secs(30), 30);
    assert_eq!(refresh_timer_update(3, 3), None);
    assert_eq!(refresh_timer_update(3, 10), Some(10));
    assert_eq!(refresh_timer_update(1, 0), None);
    assert_eq!(refresh_timer_update(5, 0), Some(1));
}

#[test]
fn autostart_follows_the_file_on_disk() {
    let mut c = Config::default();
    assert!(reconcile_autostart(&mut c, true));
    assert!(c.autostart);
    assert!(!reconcile_autostart(&mut c, true));
    assert!(reconcile_autostart(&mut c, false));
    assert!(!c.autostart);
    assert_eq!(c.refresh_interval_secs, 3);
}

#[test]
fn desktop_entry_contents() {
    assert_eq!(APP_ID, "bluetooth-monitor");
    assert_eq!(autostart_file_name(), "bluetooth-monitor.desktop");
    let e = desktop_entry("/usr/bin/bluetooth-monitor");
    assert!(e.starts_with("[Desktop Entry]\nType=Application\n"));
    assert!(e.contains("\nExec=/usr/bin/bluetooth-monitor\nIcon=bluetooth-monitor\n"));
    assert!(e.contains("Hidden=false\nX-GNOME-Autostart-enabled=true\n"));
    assert!(e.ends_with("Categories=Network;System;Utility;\n"));
}

#[test]
fn theme_names() {
    let labels: Vec<&str> = ThemeKind::ALL.iter().map(|k| k.label()).collect();
    assert_eq!(labels, vec!["Aurora", "Nova", "Command", "Radiant"]);
    assert_eq!(ThemeKind::Command.tagline(), "Terminal green");
    assert_eq!(ThemeKind::Radiant.tagline(), "Light editorial");
    assert_eq!(ThemeKind::default(), ThemeKind::Aurora);
}

#[test]
fn settings_saved_only_on_change() {
    let before = Config::default();
    let same = settings_effects(before, before);
    assert!(!same.save);
    assert_eq!(same.set_autostart, None);
    let faster = Config { refresh_interval_secs: 1, ..before };
    let e = settings_effects(before, faster);
    assert!(e.save);
    assert_eq!(e.set_autostart, None);
    let on = Config { autostart: true, ..before };
    let e = settings_effects(before, on);
    assert!(e.save);
    assert_eq!(e.set_autostart, Some(true));
    assert_eq!(settings_effects(on, before).set_autostart, Some(false));
}
