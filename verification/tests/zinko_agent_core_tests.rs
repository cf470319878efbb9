use std::sync::mpsc;
use zinko_agent_core::app::{Tab, ZinkoApp};
use zinko_agent_core::telemetry::{
    get_all_wmi_identifiers, get_system_serial, identifier_looks_like_placeholder,
    is_placeholder_identifier, is_placeholder_serial_text, query_wmic, serial_from_output,
    serial_from_text, serial_search_finished, serial_sources, wmi_identifier_queries, wmic_value_from_text,
};
use zinko_agent_core::text::{contains_str, same_text, tabular_value_lines, trim_range};

fn stdout(text: &str) -> Option<Vec<u8>> {
    Some(text.as_bytes().to_vec())
}

#[test]
fn test_telemetry_history_window() {
    let (_tx, rx) = mpsc::channel::<String>();
    let mut app = ZinkoApp::new(rx);
    let data = "test".to_string();

    // Push more than max_history
    for _ in 0..110 {
        app.update_data(data.clone());
    }

    assert!(app.telemetry_history.len() <= 100);
}

#[test]
fn test_new_app_state() {
    let (_tx, rx) = mpsc::channel::<u32>();
    let app = ZinkoApp::new(rx);
    assert!(app.telemetry_history.is_empty());
    assert!(app.last_received.is_none());
    assert_eq!(app.max_history, 100);
    assert!(app.current_tab == Tab::Dashboard);
    assert!(app.wmi_identifiers.is_none());
}

#[test]
fn test_history_keeps_most_recent_in_order() {
    let (_tx, rx) = mpsc::channel::<u32>();
    let mut app = ZinkoApp::new(rx);
    for i in 0..250u32 {
        app.update_data(i);
    }
    assert_eq!(app.telemetry_history.len(), 100);
    let kept: Vec<u32> = app.telemetry_history.iter().copied().collect();
    let expected: Vec<u32> = (150..250).collect();
    assert_eq!(kept, expected);
    assert_eq!(app.last_received, Some(249));
}

#[test]
fn test_history_below_limit_keeps_everything() {
    let (_tx, rx) = mpsc::channel::<u32>();
    let mut app = ZinkoApp::new(rx);
    app.update_data(7);
    app.update_data(8);
    let kept: Vec<u32> = app.telemetry_history.iter().copied().collect();
    assert_eq!(kept, vec![7, 8]);
    assert_eq!(app.last_received, Some(8));
}

#[test]
fn test_history_with_smaller_limit() {
    let (_tx, rx) = mpsc::channel::<u32>();
    let mut app = ZinkoApp::new(rx);
    app.max_history = 2;
    for i in 1..=5u32 {
        app.update_data(i);
    }
    let kept: Vec<u32> = app.telemetry_history.iter().copied().collect();
    assert_eq!(kept, vec![4, 5]);
}

#[test]
fn test_identifiers_requested_once() {
    let (_tx, rx) = mpsc::channel::<u32>();
    let mut app = ZinkoApp::new(rx);
    assert!(app.update_data(1));
    app.cache_wmi_identifiers(vec![("BIOS Serial".to_string(), "XYZ".to_string())]);
    assert!(!app.update_data(2));
    app.cache_wmi_identifiers(vec![("BIOS Serial".to_string(), "OTHER".to_string())]);
    assert_eq!(
        app.wmi_identifiers,
        Some(vec![("BIOS Serial".to_string(), "XYZ".to_string())])
    );
}

#[test]
fn test_tab_equality() {
    assert!(Tab::Privacy == Tab::Privacy);
    assert!(Tab::Privacy != Tab::SystemInfo);
}

#[test]
fn test_trim_range() {
    let chars: Vec<char> = " \t ab c \r".chars().collect();
    assert_eq!(trim_range(&chars, 0, chars.len()), (3, 7));
    let blank: Vec<char> = "  \u{3000}".chars().collect();
    let (a, b) = trim_range(&blank, 0, blank.len());
    assert_eq!(a, b);
}

#[test]
fn test_tabular_value_lines() {
    let text = "SerialNumber  \r\n  ABC123  \r\n\r\n\u{a0}\r\nDEF\n";
    assert_eq!(tabular_value_lines(text), vec!["ABC123".to_string(), "DEF".to_string()]);
    assert!(tabular_value_lines("OnlyHeader\r\n").is_empty());
    assert!(tabular_value_lines("").is_empty());
}

#[test]
fn test_wmic_value() {
    assert_eq!(wmic_value_from_text("Vendor\r\nLENOVO  \r\n\r\n"), "LENOVO");
    assert_eq!(wmic_value_from_text("Vendor\r\n\r\n"), "N/A");
    assert_eq!(wmic_value_from_text(""), "N/A");
    assert_eq!(query_wmic(&stdout("Name\r\n  ThinkPad X1  \r\n")), "ThinkPad X1");
    assert_eq!(query_wmic(&None), "N/A");
}

#[test]
fn test_wmic_value_invalid_utf8() {
    let bytes = vec![b'H', b'\n', 0xff, b'X', b'\n'];
    assert_eq!(query_wmic(&Some(bytes)), "\u{fffd}X");
}

#[test]
fn test_wmi_identifier_queries() {
    let queries = wmi_identifier_queries();
    assert_eq!(queries.len(), 6);
    assert_eq!(queries[0], ("System Serial (csproduct)", "csproduct", "identifyingnumber"));
    assert_eq!(queries[5], ("Disk Serial", "diskdrive", "serialnumber"));
}

#[test]
fn test_get_all_wmi_identifiers() {
    let outputs = vec![
        stdout("IdentifyingNumber\r\nPF0ABC\r\n"),
        None,
        stdout("SerialNumber\r\n\r\n"),
        stdout("Vendor\r\nLENOVO\r\n"),
    ];
    let ids = get_all_wmi_identifiers(&outputs);
    assert_eq!(ids.len(), 6);
    assert_eq!(ids[0], ("System Serial (csproduct)".to_string(), "PF0ABC".to_string()));
    assert_eq!(ids[1], ("Motherboard Serial".to_string(), "N/A".to_string()));
    assert_eq!(ids[2], ("BIOS Serial".to_string(), "N/A".to_string()));
    assert_eq!(ids[3], ("System Manufacturer".to_string(), "LENOVO".to_string()));
    assert_eq!(ids[4], ("System Model".to_string(), "N/A".to_string()));
    assert_eq!(ids[5], ("Disk Serial".to_string(), "N/A".to_string()));
}

#[test]
fn test_serial_sources_order() {
    assert_eq!(
        serial_sources(),
        vec![
            ("csproduct", "identifyingnumber"),
            ("baseboard", "serialnumber"),
            ("bios", "serialnumber"),
            ("diskdrive", "serialnumber"),
        ]
    );
}

#[test]
fn test_placeholder_serials() {
    assert!(is_placeholder_serial_text("default string"));
    assert!(is_placeholder_serial_text("00000000"));
    assert!(!is_placeholder_serial_text("Default String"));
    assert!(!is_placeholder_serial_text("PF0ABC"));
}

#[test]
fn test_serial_skips_placeholders() {
    assert_eq!(
        serial_from_text("SerialNumber\r\nTo Be Filled By O.E.M.\r\nNone\r\n  R90XYZ \r\n"),
        Some("R90XYZ".to_string())
    );
    assert_eq!(serial_from_text("SerialNumber\r\nDefault string\r\n"), None);
    assert_eq!(serial_from_output(&None), None);
}

#[test]
fn test_system_serial_priority() {
    let outputs = vec![
        stdout("IdentifyingNumber\r\nSystem Serial Number\r\n"),
        stdout("SerialNumber\r\nMB-777\r\n"),
        stdout("SerialNumber\r\nBIOS-1\r\n"),
        None,
    ];
    assert_eq!(get_system_serial(&outputs, Some("HOST".to_string())), "MB-777");
}

#[test]
fn test_system_serial_fallbacks() {
    let outputs = vec![None, stdout("SerialNumber\r\n0\r\n"), stdout(""), None];
    assert_eq!(get_system_serial(&outputs, Some("DESKTOP-1".to_string())), "DESKTOP-1");
    assert_eq!(get_system_serial(&outputs, None), "ZINKO-UNKNOWN-DEV");
}

#[test]
fn test_placeholder_identifiers() {
    assert!(is_placeholder_identifier("N/A"));
    assert!(is_placeholder_identifier("To be filled by O.E.M."));
    assert!(is_placeholder_identifier("DEFAULT STRING"));
    assert!(!is_placeholder_identifier("PF0ABC12"));
    assert!(!is_placeholder_identifier("n/a"));
    assert!(is_placeholder_identifier("System Serial Number"));
    assert!(is_placeholder_identifier("Chassis Serial Number"));
    assert!(is_placeholder_identifier("NONE"));
    assert!(is_placeholder_identifier("00000000"));
    assert!(!is_placeholder_identifier("000000001"));
    assert!(identifier_looks_like_placeholder("Not Available", "not available"));
    assert!(identifier_looks_like_placeholder("X", "xdefaulty"));
    assert!(!identifier_looks_like_placeholder("X", "x"));
}

#[test]
fn test_text_helpers() {
    assert!(same_text("abc", "abc"));
    assert!(!same_text("abc", "abd"));
    assert!(!same_text("abc", "ab"));
    assert!(contains_str("to be filled by o.e.m.", "o.e.m."));
    assert!(contains_str("abc", ""));
    assert!(!contains_str("ab", "abc"));
    assert!(!contains_str("default", "defaulx"));
}

#[test]
fn test_serial_search_finished() {
    assert!(!serial_search_finished(&vec![]));
    assert!(!serial_search_finished(&vec![None, stdout("SerialNumber\r\nDefault string\r\n")]));
    assert!(serial_search_finished(&vec![None, stdout("SerialNumber\r\nMB-777\r\n")]));
    assert!(serial_search_finished(&vec![None, None, None, None]));
}

#[test]
fn test_newest_sample_is_latest() {
    let (_tx, rx) = mpsc::channel::<u32>();
    let mut app = ZinkoApp::new(rx);
    for i in 0..105u32 {
        app.update_data(i);
        assert_eq!(app.telemetry_history.back(), app.last_received.as_ref());
        assert_eq!(app.telemetry_history.len(), std::cmp::min(i as usize + 1, 100));
    }
}
