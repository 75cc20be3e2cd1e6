use gnome_brightness::autostart::{desktop_entry, DESKTOP_FILE_NAME};
use gnome_brightness::cli::{gtk_args, wants_verbose};
use gnome_brightness::config::{default_theme, default_window_height, default_window_width, Config};
use gnome_brightness::monitor::Monitor;
use gnome_brightness::preferences::{input_value_at, selected_input_index, theme_for_index, theme_index};
use gnome_brightness::tray::{preset_levels, preset_targets, tray_action, TrayAction, TrayEvent};
use gnome_brightness::window::{
    apply_nicknames, apply_overall_level, average_percent, color_scheme, next_theme, percent_label,
    set_monitor_level, shown_percent, theme_icon_name, ColorScheme,
};

fn monitor(id: u32, value: u8, max: u8, supported: bool) -> Monitor {
    Monitor {
        display_id: id,
        edid_key: format!("KEY:{id}:SN"),
        name: format!("Monitor {id}"),
        value,
        max_value: max,
        supports_brightness: supported,
    }
}

fn strings(args: &[&str]) -> Vec<String> {
    args.iter().map(|a| a.to_string()).collect()
}

#[test]
fn percent_rounds_down_and_handles_zero_max() {
    assert_eq!(monitor(1, 5, 100, true).percent(), 5);
    assert_eq!(monitor(1, 40, 80, true).percent(), 50);
    assert_eq!(monitor(1, 1, 3, true).percent(), 33);
    assert_eq!(monitor(1, 7, 0, true).percent(), 0);
    assert_eq!(monitor(1, 100, 100, true).percent(), 100);
    // A reading above the maximum wraps as the u8 cast does: 255 * 100 / 1 = 25500.
    assert_eq!(monitor(1, 255, 1, true).percent(), (25500u32 % 256) as u8);
}

#[test]
fn defaults_fill_in_missing_settings() {
    let cfg = Config::default();
    assert_eq!(cfg.theme, "system");
    assert_eq!(default_theme(), "system");
    assert!(cfg.nicknames.is_empty());
    assert!(!cfg.start_minimized);
    assert_eq!(cfg.window_width, 720);
    assert_eq!(cfg.window_height, 420);
    assert_eq!(default_window_width(), 720);
    assert_eq!(default_window_height(), 420);
}

#[test]
fn nickname_written_is_read_back() {
    let mut cfg = Config::default();
    cfg.set_nickname("DEL:A:1", "Left screen");
    cfg.set_nickname("GSM:B:2", "  Right  ");
    assert_eq!(cfg.nickname("DEL:A:1"), Some("Left screen".to_string()));
    assert_eq!(cfg.nickname("GSM:B:2"), Some("  Right  ".to_string()));
    assert_eq!(cfg.nickname("OTHER"), None);
    cfg.set_nickname("DEL:A:1", "Desk");
    assert_eq!(cfg.nickname("DEL:A:1"), Some("Desk".to_string()));
    assert_eq!(cfg.nicknames.len(), 2);
    cfg.set_nickname("DEL:A:1", "   \t");
    assert_eq!(cfg.nickname("DEL:A:1"), None);
    assert_eq!(cfg.nickname("GSM:B:2"), Some("  Right  ".to_string()));
    cfg.remove_nickname("GSM:B:2");
    assert!(cfg.nicknames.is_empty());
}

#[test]
fn nicknames_rename_monitors() {
    let mut cfg = Config::default();
    cfg.insert_nickname("KEY:2:SN", "Projector");
    let mut monitors = vec![monitor(1, 10, 100, true), monitor(2, 20, 100, false)];
    apply_nicknames(&mut monitors, &cfg);
    assert_eq!(monitors[0].name, "Monitor 1");
    assert_eq!(monitors[1].name, "Projector");
    assert_eq!(monitors[1].value, 20);
    assert_eq!(monitors[1].edid_key, "KEY:2:SN");
}

#[test]
fn average_of_supported_monitors() {
    let monitors = vec![monitor(1, 40, 80, true), monitor(2, 90, 100, false), monitor(3, 25, 100, true)];
    assert_eq!(average_percent(&monitors), (50 + 25) / 2);
    assert_eq!(average_percent(&[]), 0);
    assert_eq!(average_percent(&[monitor(1, 30, 100, false)]), 0);
}

#[test]
fn overall_slider_sets_supported_monitors() {
    let mut monitors = vec![monitor(1, 40, 80, true), monitor(2, 90, 100, false), monitor(3, 25, 50, true)];
    let ids = apply_overall_level(&mut monitors, 70);
    assert_eq!(ids, vec![1, 3]);
    assert_eq!((monitors[0].value, monitors[0].max_value), (70, 100));
    assert_eq!((monitors[1].value, monitors[1].max_value), (90, 100));
    assert_eq!((monitors[2].value, monitors[2].max_value), (70, 100));
    assert_eq!(average_percent(&monitors), 70);
    assert_eq!(monitors[0].percent(), 70);
}

#[test]
fn monitor_slider_sets_first_matching_monitor() {
    let mut monitors = vec![monitor(1, 40, 80, true), monitor(2, 9, 10, false), monitor(2, 5, 10, true)];
    set_monitor_level(&mut monitors, 2, 33);
    assert_eq!((monitors[1].value, monitors[1].max_value), (33, 100));
    assert_eq!((monitors[2].value, monitors[2].max_value), (5, 10));
    assert_eq!(monitors[1].percent(), 33);
    set_monitor_level(&mut monitors, 9, 1);
    assert_eq!((monitors[0].value, monitors[0].max_value), (40, 80));
}

#[test]
fn shown_percent_and_labels() {
    assert_eq!(shown_percent(&monitor(1, 40, 80, true)), 50);
    assert_eq!(shown_percent(&monitor(1, 40, 80, false)), 0);
    assert_eq!(percent_label(0), "0%");
    assert_eq!(percent_label(7), "7%");
    assert_eq!(percent_label(75), "75%");
    assert_eq!(percent_label(100), "100%");
    assert_eq!(percent_label(255), "255%");
}

#[test]
fn theme_toggle_and_icons() {
    assert_eq!(next_theme("dark"), "light");
    assert_eq!(next_theme("light"), "dark");
    assert_eq!(next_theme("system"), "dark");
    assert_eq!(next_theme(&next_theme("dark")), "dark");
    let mut cfg = Config::default();
    assert_eq!(theme_icon_name(&cfg), "weather-clear-symbolic");
    assert_eq!(color_scheme(&cfg), ColorScheme::Default);
    cfg.theme = "dark".to_string();
    assert_eq!(theme_icon_name(&cfg), "weather-clear-night-symbolic");
    assert_eq!(color_scheme(&cfg), ColorScheme::ForceDark);
    cfg.theme = "light".to_string();
    assert_eq!(theme_icon_name(&cfg), "weather-clear-symbolic");
    assert_eq!(color_scheme(&cfg), ColorScheme::ForceLight);
}

#[test]
fn theme_chooser_rows() {
    assert_eq!(theme_index("system"), 0);
    assert_eq!(theme_index("light"), 1);
    assert_eq!(theme_index("dark"), 2);
    assert_eq!(theme_index("sepia"), 0);
    assert_eq!(theme_for_index(0), "system");
    assert_eq!(theme_for_index(1), "light");
    assert_eq!(theme_for_index(2), "dark");
    assert_eq!(theme_for_index(7), "system");
    for row in 0..3 {
        assert_eq!(theme_index(theme_for_index(row)), row);
    }
}

#[test]
fn input_chooser_selects_current_source() {
    let sources = vec![(0x0f, "DP-1".to_string()), (0x11, "HDMI-1".to_string()), (0x12, "HDMI-2".to_string())];
    assert_eq!(selected_input_index(&sources, Some(0x11)), 1);
    assert_eq!(selected_input_index(&sources, Some(0x99)), 0);
    assert_eq!(selected_input_index(&sources, None), 0);
    assert_eq!(input_value_at(&sources, 2), Some(0x12));
    assert_eq!(input_value_at(&sources, 3), None);
    let row = selected_input_index(&sources, Some(0x12));
    assert_eq!(input_value_at(&sources, row), Some(0x12));
}

#[test]
fn tray_events_and_presets() {
    assert_eq!(preset_levels(), vec![0, 25, 50, 75, 100]);
    assert_eq!(tray_action(TrayEvent::ToggleWindow, true), TrayAction::HideWindow);
    assert_eq!(tray_action(TrayEvent::ToggleWindow, false), TrayAction::PresentWindow);
    assert_eq!(tray_action(TrayEvent::Detect, true), TrayAction::PresentWindow);
    assert_eq!(tray_action(TrayEvent::Preset(25), false), TrayAction::ApplyPreset(25));
    assert_eq!(tray_action(TrayEvent::Quit, true), TrayAction::Quit);
    let monitors = vec![monitor(4, 1, 2, false), monitor(5, 1, 2, true), monitor(6, 1, 2, true)];
    assert_eq!(preset_targets(&monitors), vec![5, 6]);
}

#[test]
fn desktop_entry_runs_the_executable() {
    let entry = desktop_entry("/usr/bin/gnome-brightness");
    assert_eq!(
        entry,
        "[Desktop Entry]\nType=Application\nName=GnomeBrightness\nComment=Control external monitor brightness over DDC/CI\nExec=/usr/bin/gnome-brightness\nIcon=io.github.weversonl.GnomeBrightness\nTerminal=false\nCategories=GTK;Utility;Settings;\nStartupNotify=true\nX-GNOME-UsesNotifications=false\n"
    );
    assert_eq!(DESKTOP_FILE_NAME, "io.github.weversonl.GnomeBrightness.desktop");
}

#[test]
fn verbose_flag_handling() {
    assert!(!wants_verbose(&strings(&["app"])));
    assert!(wants_verbose(&strings(&["app", "-v"])));
    assert!(wants_verbose(&strings(&["app", "x", "--verbose"])));
    assert!(!wants_verbose(&strings(&["-v"])));
    assert!(!wants_verbose(&strings(&["app", "-verbose"])));
    assert!(!wants_verbose(&[]));
    assert_eq!(gtk_args(&strings(&["app", "-v", "--x", "--verbose"])), strings(&["app", "--x"]));
    assert_eq!(gtk_args(&strings(&["app", "--gapplication-service"])), strings(&["app", "--gapplication-service"]));
}
