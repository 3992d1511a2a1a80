use bluetooth_wrapper::command::{command_outcome, launch_failure, piped_command_line, rfkill_report};
use bluetooth_wrapper::devices::{info_reports_connected, newly_discovered, parse_devices};
use bluetooth_wrapper::menu::{
    answers_yes, device_choice, main_menu_action, menu_options, select_by_number, MenuAction,
    MenuOption, Selection,
};
use bluetooth_wrapper::report::{
    action_progress, action_report, action_succeeded, adapter_info_lines, device_listing,
    listing_is_printable, listing_report, power_progress, power_report, DeviceAction,
};
use bluetooth_wrapper::text::{
    chars_of, lines_of, parse_usize_str, splitn3_space_chars, str_contains, string_of, trim_str,
};
use bluetooth_wrapper::{get_available_devices, get_connected_devices, is_bluetooth_powered};

fn pair(a: &str, n: &str) -> (String, String) {
    (a.to_string(), n.to_string())
}

fn lines_as_strings(s: &str) -> Vec<String> {
    let v = chars_of(s);
    lines_of(&v).iter().map(|l| string_of(l)).collect()
}

const SAMPLES: &[&str] = &[
    "",
    "\n",
    "a",
    "a\n",
    "a\r\nb\n\nc\r",
    "foo\nbar\n\r\nbaz\r",
    "\r\n\r\n",
    "  spaced  out \t",
    "Device AA:BB Name With  Spaces\nController 00:11 host\n",
    "\u{3000}wide\u{2003}\u{85}",
    "tab\tand\u{A0}nbsp\u{A0}",
];

// ---- text -------------------------------------------------------------

#[test]
fn chars_and_strings_round_trip() {
    for s in SAMPLES {
        let v = chars_of(s);
        assert_eq!(v, s.chars().collect::<Vec<char>>());
        assert_eq!(string_of(&v), *s);
    }
}

#[test]
fn lines_agree_with_std() {
    for s in SAMPLES {
        let expected: Vec<String> = s.lines().map(|l| l.to_string()).collect();
        assert_eq!(lines_as_strings(s), expected, "input {:?}", s);
    }
    assert_eq!(lines_as_strings("a\r\nb\n\nc\r"), vec!["a", "b", "", "c\r"]);
    assert!(lines_as_strings("").is_empty());
}

#[test]
fn law_lines_have_no_newline_on_samples() {
    for s in SAMPLES {
        for l in lines_as_strings(s) {
            assert!(!l.contains('\n'));
        }
    }
}

#[test]
fn trim_agrees_with_std() {
    for s in SAMPLES {
        assert_eq!(trim_str(s), s.trim(), "input {:?}", s);
    }
    assert_eq!(trim_str("  a b \t\n"), "a b");
    assert_eq!(trim_str("\u{3000}x\u{2028}"), "x");
    assert_eq!(trim_str(" \u{200B}x"), "\u{200B}x");
}

#[test]
fn law_trim_idempotent_on_samples() {
    for s in SAMPLES {
        let once = trim_str(s);
        assert_eq!(trim_str(&once), once);
    }
}

#[test]
fn contains_agrees_with_std() {
    let cases = [
        ("Powered: yes", "Powered: yes"),
        ("xx Powered: yes\n", "Powered: yes"),
        ("Powered: no", "Powered: yes"),
        ("", ""),
        ("abc", ""),
        ("", "a"),
        ("aab", "ab"),
        ("ab", "abc"),
    ];
    for (h, n) in cases {
        assert_eq!(str_contains(h, n), h.contains(n), "{:?} in {:?}", n, h);
    }
}

#[test]
fn splitn_agrees_with_std() {
    let cases = ["Device", "Device AA", "Device AA Name", "Device AA Name Two", "Device  X", "", " ", "a b c d"];
    for s in cases {
        let v = chars_of(s);
        let parts: Vec<String> = splitn3_space_chars(&v).iter().map(|p| string_of(p)).collect();
        let expected: Vec<String> = s.splitn(3, ' ').map(|p| p.to_string()).collect();
        assert_eq!(parts, expected, "input {:?}", s);
    }
}

#[test]
fn parse_usize_agrees_with_std() {
    let cases = [
        "0", "42", "+7", "", "+", "-1", "-0", "1a", " 1", "007", "++5",
        "18446744073709551615", "18446744073709551616", "4294967295", "4294967296",
        "99999999999999999999999",
    ];
    for s in cases {
        assert_eq!(parse_usize_str(s), s.parse::<usize>().ok(), "input {:?}", s);
    }
    assert_eq!(parse_usize_str("+12"), Some(12));
    assert_eq!(parse_usize_str("x"), None);
}

// ---- devices ----------------------------------------------------------

const LISTING: &str = "Device AA:BB:CC:DD:EE:FF My Headphones\n\
Device 11:22:33:44:55:66 Phone\n\
Controller 00:00:00:00:00:00 host [default]\n\
Device 77:88:99:AA:BB:CC\n\
DeviceX 01:02 Odd Name";

#[test]
fn parse_devices_reads_device_lines() {
    assert_eq!(
        parse_devices(LISTING),
        vec![
            pair("AA:BB:CC:DD:EE:FF", "My Headphones"),
            pair("11:22:33:44:55:66", "Phone"),
            pair("01:02", "Odd Name"),
        ]
    );
    assert!(parse_devices("").is_empty());
    assert_eq!(parse_devices("Device A  B"), vec![pair("A", " B")]);
    assert_eq!(parse_devices("Device A \r\n"), vec![pair("A", "")]);
}

#[test]
fn law_device_line_reassembles_on_sample() {
    for (a, n) in parse_devices(LISTING) {
        assert!(!a.contains(' '));
        let line_found = LISTING.lines().any(|l| {
            let first = l.splitn(2, ' ').next().unwrap();
            l == format!("{} {} {}", first, a, n)
        });
        assert!(line_found);
    }
}

#[test]
fn available_devices_from_result() {
    assert_eq!(get_available_devices(&Ok(LISTING.to_string())).len(), 3);
    assert!(get_available_devices(&Err("Command failed".to_string())).is_empty());
}

#[test]
fn connected_devices_follow_info() {
    let devices = get_available_devices(&Ok(LISTING.to_string()));
    let infos = vec![
        Ok("Name: My Headphones\n\tConnected: yes\n".to_string()),
        Ok("Name: Phone\n\tConnected: no".to_string()),
        Err("Command failed: x (error: exit status: 1)".to_string()),
    ];
    let connected = get_connected_devices(&devices, &infos);
    assert_eq!(connected, vec![pair("AA:BB:CC:DD:EE:FF", "My Headphones")]);
    // law: the connected devices are available devices
    for d in &connected {
        assert!(devices.contains(d));
    }
    assert!(info_reports_connected(&Ok("Connected: yes".to_string())));
    assert!(!info_reports_connected(&Err("Connected: yes".to_string())));
    assert!(get_connected_devices(&Vec::new(), &Vec::new()).is_empty());
}

#[test]
fn powered_from_show() {
    assert!(is_bluetooth_powered(&Ok("Controller 00\n\tPowered: yes\n".to_string())));
    assert!(!is_bluetooth_powered(&Ok("Controller 00\n\tPowered: no\n".to_string())));
    assert!(!is_bluetooth_powered(&Err("Powered: yes".to_string())));
}

#[test]
fn newly_discovered_leaves_out_paired() {
    let paired = vec![pair("11:22:33:44:55:66", "Phone")];
    let after = "Device 11:22:33:44:55:66 Phone\nDevice CC:CC Speaker\nDevice DD:DD Watch\n";
    let new = newly_discovered(&paired, after);
    assert_eq!(new, vec![pair("CC:CC", "Speaker"), pair("DD:DD", "Watch")]);
    // law: discovered devices are listed and unknown; every unknown listed one is discovered
    let listed = parse_devices(after);
    for d in &new {
        assert!(listed.contains(d));
        assert!(!paired.iter().any(|p| p.0 == d.0));
    }
    for d in &listed {
        if !paired.iter().any(|p| p.0 == d.0) {
            assert!(new.contains(d));
        }
    }
    assert!(newly_discovered(&paired, "").is_empty());
}

// ---- reports ----------------------------------------------------------

#[test]
fn action_reports() {
    let ok = |s: &str| Ok::<String, String>(s.to_string());
    assert_eq!(
        action_report(DeviceAction::Connect, "AA", &ok("Attempting to connect\nConnection successful")),
        "Successfully connected to device AA"
    );
    assert_eq!(
        action_report(DeviceAction::Connect, "AA", &ok("Failed to connect")),
        "Connection attempt completed, but success unclear.\nOutput: Failed to connect"
    );
    assert_eq!(
        action_report(DeviceAction::Disconnect, "AA", &Err("boom".to_string())),
        "Error disconnecting from device: boom"
    );
    assert_eq!(
        action_report(DeviceAction::Pair, "AA", &ok("Pairing successful")),
        "Successfully paired with device AA"
    );
    assert_eq!(
        action_report(DeviceAction::Remove, "AA", &ok("Device has been removed")),
        "Successfully removed device AA"
    );
    assert_eq!(
        action_report(DeviceAction::Remove, "AA", &ok("not available")),
        "Remove attempt completed, but success unclear.\nOutput: not available"
    );
    assert_eq!(action_report(DeviceAction::Pair, "AA", &Err("e".to_string())), "Error pairing with device: e");
    assert_eq!(action_report(DeviceAction::Remove, "AA", &Err("e".to_string())), "Error removing device: e");
    assert_eq!(action_report(DeviceAction::Connect, "AA", &Err("e".to_string())), "Error connecting to device: e");
    assert_eq!(
        action_report(DeviceAction::Disconnect, "AA", &ok("Successful disconnected")),
        "Disconnection attempt completed, but success unclear.\nOutput: Successful disconnected"
    );
    assert_eq!(action_progress(DeviceAction::Connect, "AA"), "Connecting to device AA...");
    assert_eq!(action_progress(DeviceAction::Disconnect, "AA"), "Disconnecting from device AA...");
    assert_eq!(action_progress(DeviceAction::Pair, "AA"), "Pairing with device AA...");
    assert_eq!(action_progress(DeviceAction::Remove, "AA"), "Removing paired device AA...");
    assert_eq!(DeviceAction::Disconnect.command_word(), "disconnect");
}

#[test]
fn law_success_is_successful_on_samples() {
    for a in [DeviceAction::Connect, DeviceAction::Disconnect, DeviceAction::Pair] {
        for out in ["Connection successful", "successful", "Pairing successful", "nothing", ""] {
            assert_eq!(action_succeeded(a, out), out.contains("successful"));
        }
    }
    assert!(action_succeeded(DeviceAction::Remove, "Device has been removed"));
    assert!(!"Device has been removed".contains("successful"));
}

#[test]
fn power_reports() {
    assert_eq!(power_progress(true), "Turning Bluetooth on...");
    assert_eq!(power_progress(false), "Turning Bluetooth off...");
    assert_eq!(power_report(true, &Ok(String::new())), "Bluetooth turned on successfully.");
    assert_eq!(power_report(false, &Ok(String::new())), "Bluetooth turned off successfully.");
    assert_eq!(power_report(true, &Err("x".to_string())), "Error turning Bluetooth on: x");
    assert_eq!(power_report(false, &Err("x".to_string())), "Error turning Bluetooth off: x");
}

#[test]
fn info_lines_are_trimmed() {
    let out = "Controller 00:11 (public)\n\tName: host\n   \n\tPowered: yes\n";
    let lines = adapter_info_lines(out);
    assert_eq!(lines, vec!["  Controller 00:11 (public)", "  Name: host", "  Powered: yes"]);
    for l in &lines {
        let t = &l[2..];
        assert!(!t.is_empty());
        assert_eq!(t.trim(), t);
    }
    assert!(adapter_info_lines("").is_empty());
}

#[test]
fn listing_lines() {
    assert!(listing_is_printable(LISTING));
    assert_eq!(
        device_listing(LISTING),
        vec![
            "  AA:BB:CC:DD:EE:FF - My Headphones",
            "  11:22:33:44:55:66 - Phone",
            "  77:88:99:AA:BB:CC",
            "  01:02 - Odd Name",
        ]
    );
    assert!(!listing_is_printable("Device\n"));
    assert!(!listing_is_printable("Devices:none"));
    assert!(listing_is_printable("Controller x"));
    assert_eq!(listing_report("", "No paired devices found."), vec!["No paired devices found."]);
    assert_eq!(listing_report("Device A B", "No devices found."), vec!["  A - B"]);
}

#[test]
fn law_listing_shows_devices_on_sample() {
    let out = "Device AA:BB Headphones\nController 00 host\nDevice CC:DD Phone X";
    let expected: Vec<String> =
        parse_devices(out).iter().map(|(a, n)| format!("  {} - {}", a, n)).collect();
    assert_eq!(device_listing(out), expected);
}

// ---- command results --------------------------------------------------

#[test]
fn command_outcomes() {
    assert_eq!(command_outcome(true, b"  out put \n", b"ignored", "exit status: 0"), Ok("out put".to_string()));
    assert_eq!(
        command_outcome(false, b"", b" No default controller\n", "exit status: 1"),
        Err("Command failed: No default controller (error: exit status: 1)".to_string())
    );
    // ill-formed UTF-8 becomes U+FFFD
    assert_eq!(command_outcome(true, b"ok\xff", b"", ""), Ok("ok\u{FFFD}".to_string()));
    assert_eq!(command_outcome(true, "h\u{e9}".as_bytes(), b"", ""), Ok("h\u{e9}".to_string()));
    assert_eq!(launch_failure("No such file"), "Failed to execute bluetoothctl: No such file");
    assert_eq!(piped_command_line("scan on"), "echo 'scan on' | bluetoothctl");
}

#[test]
fn law_outcome_output_is_trimmed_on_samples() {
    for s in SAMPLES {
        if let Ok(o) = command_outcome(true, s.as_bytes(), b"", "") {
            assert_eq!(o.trim(), o);
        }
    }
}

#[test]
fn rfkill_reports() {
    assert_eq!(rfkill_report(true, true, b""), "Bluetooth adapter blocked at hardware level.");
    assert_eq!(rfkill_report(false, true, b""), "Bluetooth adapter unblocked at hardware level.");
    assert_eq!(rfkill_report(true, false, b"denied\n"), "Failed to block Bluetooth: denied\n");
    assert_eq!(rfkill_report(false, false, b"\xfe"), "Failed to unblock Bluetooth: \u{FFFD}");
}

// ---- menu -------------------------------------------------------------

#[test]
fn main_menu_actions() {
    assert_eq!(main_menu_action(true, 0, '1'), MenuAction::PowerOff);
    assert_eq!(main_menu_action(false, 0, '1'), MenuAction::PowerOn);
    assert_eq!(main_menu_action(true, 0, '2'), MenuAction::ConnectMenu);
    assert_eq!(main_menu_action(true, 1, '2'), MenuAction::DisconnectOnlyDevice);
    assert_eq!(main_menu_action(true, 3, '2'), MenuAction::ChooseDeviceToDisconnect);
    assert_eq!(main_menu_action(true, 0, '3'), MenuAction::Ignore);
    assert_eq!(main_menu_action(true, 2, '3'), MenuAction::ConnectMenu);
    assert_eq!(main_menu_action(true, 0, '6'), MenuAction::Scan);
    assert_eq!(main_menu_action(true, 0, 't'), MenuAction::TerminateAdapter);
    assert_eq!(main_menu_action(true, 0, 'r'), MenuAction::RestartAdapter);
    assert_eq!(main_menu_action(true, 0, 's'), MenuAction::Ignore);
    assert_eq!(main_menu_action(true, 0, 'S'), MenuAction::Ignore);
    assert_eq!(main_menu_action(true, 0, 'x'), MenuAction::Invalid);
    assert_eq!(main_menu_action(false, 0, '2'), MenuAction::Invalid);
    assert_eq!(main_menu_action(false, 0, 's'), MenuAction::Invalid);
    assert_eq!(main_menu_action(false, 0, '6'), MenuAction::Invalid);
}

#[test]
fn law_quit_and_powered_off_on_samples() {
    for powered in [true, false] {
        for n in [0usize, 1, 5] {
            assert_eq!(main_menu_action(powered, n, 'q'), MenuAction::Quit);
            assert_eq!(main_menu_action(powered, n, 'Q'), MenuAction::Quit);
        }
    }
    for c in ['1', '2', '3', '6', 't', 'r', 's', 'q', 'x', ' '] {
        let a = main_menu_action(false, 2, c);
        assert!(matches!(a, MenuAction::PowerOn | MenuAction::Quit | MenuAction::Invalid));
    }
}

#[test]
fn menu_option_lists() {
    assert_eq!(menu_options(false, false), vec![MenuOption::TurnOn, MenuOption::Quit]);
    assert_eq!(menu_options(true, false), vec![MenuOption::TurnOff, MenuOption::Connect, MenuOption::Scan, MenuOption::Terminate, MenuOption::Restart, MenuOption::Quit]);
    assert_eq!(
        menu_options(true, true),
        vec![MenuOption::TurnOff, MenuOption::Disconnect, MenuOption::ConnectAnother, MenuOption::Scan, MenuOption::Terminate, MenuOption::Restart, MenuOption::Quit]
    );
    assert_eq!(MenuOption::Terminate.label(), "Terminate Bluetooth adapter (hardware)");
    assert_eq!(MenuOption::ConnectAnother.key(), '3');
}

#[test]
fn law_listed_options_are_accepted_on_samples() {
    for powered in [true, false] {
        for n in [0usize, 1, 4] {
            for o in menu_options(powered, n > 0) {
                let a = main_menu_action(powered, n, o.key());
                assert!(a != MenuAction::Invalid && a != MenuAction::Ignore, "{:?}", o);
            }
        }
    }
}

#[test]
fn device_choices() {
    assert_eq!(device_choice('q', 3), Selection::Cancel);
    assert_eq!(device_choice('Q', 0), Selection::Cancel);
    assert_eq!(device_choice('1', 3), Selection::Pick(0));
    assert_eq!(device_choice('3', 3), Selection::Pick(2));
    assert_eq!(device_choice('4', 3), Selection::Invalid);
    assert_eq!(device_choice('0', 3), Selection::Invalid);
    assert_eq!(device_choice('a', 3), Selection::Invalid);
    assert_eq!(device_choice('\u{0663}', 9), Selection::Invalid);
    assert!(answers_yes('y') && answers_yes('Y') && !answers_yes('n'));
}

#[test]
fn numbers_select_devices() {
    assert_eq!(select_by_number("2", 3), Some(1));
    assert_eq!(select_by_number(" 3 \n", 3), Some(2));
    assert_eq!(select_by_number("+1", 3), Some(0));
    assert_eq!(select_by_number("0", 3), None);
    assert_eq!(select_by_number("4", 3), None);
    assert_eq!(select_by_number("two", 3), None);
    assert_eq!(select_by_number("", 3), None);
    assert_eq!(select_by_number("99999999999999999999999", 3), None);
}

#[test]
fn law_picks_are_in_range_on_samples() {
    for count in 0usize..4 {
        for c in ['0', '1', '2', '3', '9', 'q', 'z'] {
            if let Selection::Pick(i) = device_choice(c, count) {
                assert!(i < count);
            }
        }
        for s in ["1", "2", "3", "4", "x"] {
            if let Some(i) = select_by_number(s, count) {
                assert!(i < count);
            }
        }
    }
}
