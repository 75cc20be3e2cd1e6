use gnome_brightness::ddc::{
    brightness_from_getvcp, current_input_from_getvcp, detect_monitors, friendly_name,
    get_input_sources_and_current, input_sources_from_capabilities, InputSourcesStep, parse_current_input,
    parse_detect, parse_getvcp_brief, parse_input_sources,
};

#[test]
fn parses_detect_brief() {
    let sample = "\
Display 1
   I2C bus:          /dev/i2c-8
   DRM connector:    card1-DP-1
   drm_connector_id: 383
   Monitor:          DEL:AW2725DM:JFH5F94

Display 2
   I2C bus:          /dev/i2c-9
   DRM connector:    card1-DP-2
   drm_connector_id: 393
   Monitor:          GSM:LG ULTRAGEAR:
";
    let parsed = parse_detect(sample);
    assert_eq!(parsed.len(), 2);
    assert_eq!(parsed[0], (1, "DEL:AW2725DM:JFH5F94".to_string(), "DEL AW2725DM".to_string()));
    assert_eq!(parsed[1], (2, "GSM:LG ULTRAGEAR:".to_string(), "GSM LG ULTRAGEAR".to_string()));
}

#[test]
fn parses_getvcp_brief() {
    assert_eq!(parse_getvcp_brief("VCP 10 C 5 100"), Some((5, 100)));
    assert_eq!(parse_getvcp_brief("some noise\nVCP 10 C 80 100\n"), Some((80, 100)));
    assert_eq!(parse_getvcp_brief("no vcp line here"), None);
}

#[test]
fn parses_input_sources_from_capabilities() {
    let sample = "\
   Feature: 52 (Active control)
   Feature: 60 (Input Source)
      Values:
         0f: DisplayPort-1
         11: HDMI-1
         12: HDMI-2
   Feature: AC (Horizontal frequency)
";
    let parsed = parse_input_sources(sample);
    assert_eq!(
        parsed,
        vec![
            (0x0f, "DisplayPort-1".to_string()),
            (0x11, "HDMI-1".to_string()),
            (0x12, "HDMI-2".to_string()),
        ]
    );
}

#[test]
fn parses_input_sources_missing_feature() {
    assert_eq!(parse_input_sources("   Feature: 10 (Brightness)\n"), Vec::new());
}

#[test]
fn parses_current_input() {
    assert_eq!(parse_current_input("VCP 60 SNC x0f"), Some(0x0f));
    assert_eq!(parse_current_input("no vcp line here"), None);
}

#[test]
fn detect_skips_monitor_lines_before_any_display() {
    let sample = "Monitor: AAA:BBB:CCC\nDisplay 3\n   Monitor: X:Y:Z\n";
    assert_eq!(parse_detect(sample), vec![(3, "X:Y:Z".to_string(), "X Y".to_string())]);
}

#[test]
fn detect_clears_display_on_unparsable_number() {
    let sample = "Display 1\n Monitor: A:B:C\nDisplay x\n Monitor: D:E:F\nDisplay +7\r\n Monitor: G:H:I\r\n";
    assert_eq!(
        parse_detect(sample),
        vec![
            (1, "A:B:C".to_string(), "A B".to_string()),
            (7, "G:H:I".to_string(), "G H".to_string()),
        ]
    );
}

#[test]
fn detect_of_empty_output_is_empty() {
    assert!(parse_detect("").is_empty());
    assert!(parse_detect("Invalid display\n   No monitor here\n").is_empty());
}

#[test]
fn detect_rejects_display_number_past_u32() {
    let sample = "Display 4294967296\nMonitor: A:B:C\nDisplay 4294967295\nMonitor: D:E:F\n";
    assert_eq!(parse_detect(sample), vec![(4294967295, "D:E:F".to_string(), "D E".to_string())]);
}

#[test]
fn friendly_name_cases() {
    assert_eq!(friendly_name("DEL:AW2725DM:JFH5F94"), "DEL AW2725DM");
    assert_eq!(friendly_name("GSM:LG ULTRAGEAR:"), "GSM LG ULTRAGEAR");
    assert_eq!(friendly_name("ACME"), "ACME");
    assert_eq!(friendly_name(":MODEL:SERIAL"), "MODEL");
    assert_eq!(friendly_name("MFG::SERIAL"), "MFG");
    assert_eq!(friendly_name(" MFG : MODEL : S"), "MFG MODEL");
    assert_eq!(friendly_name(""), "");
}

#[test]
fn getvcp_brief_edge_cases() {
    assert_eq!(parse_getvcp_brief("   VCP 10 C 255 255"), Some((255, 255)));
    assert_eq!(parse_getvcp_brief("VCP 10 C 256 100"), None);
    assert_eq!(parse_getvcp_brief("VCP 10 C 50"), None);
    assert_eq!(parse_getvcp_brief("VCP 10 C x 100"), None);
    assert_eq!(parse_getvcp_brief("VCP 10 C +7 100 extra"), Some((7, 100)));
    assert_eq!(parse_getvcp_brief("VCP 10 C 1 2\nVCP 10 C 3 4"), Some((1, 2)));
    assert_eq!(parse_getvcp_brief("VCP 10 ERR\nVCP 10 C 3 4"), None);
}

#[test]
fn current_input_edge_cases() {
    assert_eq!(parse_current_input("VCP 60 SNC 0x11"), Some(0x11));
    assert_eq!(parse_current_input("VCP 60 SNC xFF"), Some(0xff));
    assert_eq!(parse_current_input("VCP 60 SNC 0f"), None);
    assert_eq!(parse_current_input("VCP 60 SNC x100"), None);
    assert_eq!(parse_current_input("VCP 60"), None);
    assert_eq!(parse_current_input("  VCP 60 SNC x1b  \n"), Some(0x1b));
}

#[test]
fn input_sources_stop_at_first_non_value_line() {
    let sample = "Feature: 60 (Input Source)\n   VALUES:\n   01: VGA-1\n   zz: Bad\n   03: DVI-1\n";
    assert_eq!(parse_input_sources(sample), vec![(0x01, "VGA-1".to_string())]);
    let sample = "Feature: 60 (Input)\n   0f:  Name with spaces  \n\n   11: After blank\n";
    assert_eq!(parse_input_sources(sample), vec![(0x0f, "Name with spaces".to_string())]);
}

#[test]
fn input_sources_use_only_the_first_feature_block() {
    let sample = "Feature: 60 (A)\n 01: One\nFeature: 61 (B)\nFeature: 60 (C)\n 02: Two\n";
    assert_eq!(parse_input_sources(sample), vec![(0x01, "One".to_string())]);
}

#[test]
fn replies_of_failed_runs_are_empty() {
    assert_eq!(brightness_from_getvcp(false, "VCP 10 C 5 100"), None);
    assert_eq!(brightness_from_getvcp(true, "VCP 10 C 5 100"), Some((5, 100)));
    assert_eq!(current_input_from_getvcp(false, "VCP 60 SNC x0f"), None);
    assert_eq!(current_input_from_getvcp(true, "VCP 60 SNC x0f"), Some(0x0f));
    assert!(input_sources_from_capabilities(None).is_empty());
    assert_eq!(
        input_sources_from_capabilities(Some("Feature: 60 (I)\n 0f: DP-1\n")),
        vec![(0x0f, "DP-1".to_string())]
    );
}

#[test]
fn detect_monitors_probes_each_display_once_in_order() {
    let output = "Display 1\n Monitor: DEL:AW2725DM:S\nDisplay 2\n Monitor: GSM:LG:\n";
    let mut detection = detect_monitors(Some(output));
    let mut probed = Vec::new();
    while let Some(id) = detection.next_probe() {
        probed.push(id);
        detection.record_probe(if id == 1 { Some((40, 80)) } else { None });
    }
    assert_eq!(probed, vec![1, 2]);
    detection.record_probe(Some((9, 9)));
    let monitors = detection.into_monitors();
    assert_eq!(monitors.len(), 2);
    assert_eq!(monitors[0].display_id, 1);
    assert_eq!(monitors[0].edid_key, "DEL:AW2725DM:S");
    assert_eq!(monitors[0].name, "DEL AW2725DM");
    assert_eq!((monitors[0].value, monitors[0].max_value), (40, 80));
    assert!(monitors[0].supports_brightness);
    assert_eq!(monitors[1].display_id, 2);
    assert_eq!(monitors[1].name, "GSM LG");
    assert_eq!((monitors[1].value, monitors[1].max_value), (0, 100));
    assert!(!monitors[1].supports_brightness);
    let mut none = detect_monitors(None);
    assert_eq!(none.next_probe(), None);
    none.record_probe(Some((1, 1)));
    assert!(none.into_monitors().is_empty());
}

#[test]
fn input_sources_and_current_asks_current_only_with_sources() {
    match get_input_sources_and_current(5, Vec::new()) {
        InputSourcesStep::Done(sources, current) => {
            assert!(sources.is_empty());
            assert_eq!(current, None);
        }
        InputSourcesStep::QueryCurrent(..) => panic!("queried the current input without sources"),
    }
    match get_input_sources_and_current(5, vec![(0x11, "HDMI-1".to_string())]) {
        InputSourcesStep::QueryCurrent(id, sources) => {
            assert_eq!(id, 5);
            assert_eq!(sources, vec![(0x11, "HDMI-1".to_string())]);
        }
        InputSourcesStep::Done(..) => panic!("did not query the current input"),
    }
}
