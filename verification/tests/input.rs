use den::input::{detect, has_key_bit, has_key_bit_wide, joystick_number, Input, NodeInfo, BTN_GAMEPAD};

fn gamepad_caps() -> String {
    let width = usize::BITS as usize;
    let mut words = vec!["0".to_string(); 12];
    let index = words.len() - 1 - (BTN_GAMEPAD / width);
    words[index] = format!("{:x}", 1u64 << (BTN_GAMEPAD % width));
    words.join(" ")
}

/// What sysfs shows for a device directory listed on its own: no `device`
/// link below it, so nothing to read.
fn device_dir(name: &str) -> NodeInfo {
    NodeInfo {
        file_name: name.to_string(),
        caps: String::new(),
        name: String::new(),
        device_key: Some("device".to_string()),
        vendor: String::new(),
        product: String::new(),
    }
}

/// A node whose `device` link resolves to `device`, which reports `name`,
/// its ids and its key capabilities.
fn node(file: &str, device: &str, name: &str, id: (&str, &str), caps: &str) -> NodeInfo {
    NodeInfo {
        file_name: file.to_string(),
        caps: caps.to_string(),
        name: name.to_string(),
        device_key: Some(device.to_string()),
        vendor: id.0.to_string(),
        product: id.1.to_string(),
    }
}

#[test]
fn a_capability_bit_is_read_from_the_right_end() {
    for width in [32, 64] {
        assert!(has_key_bit_wide("0 0 1", 0, width), "{width}");
        assert!(!has_key_bit_wide("1 0 0", 0, width), "{width}");
        assert!(has_key_bit_wide("1 0", width, width), "{width}");
        assert!(!has_key_bit_wide("1 0", width - 1, width), "{width}");
        assert!(!has_key_bit_wide("0", 1000, width), "{width}");
    }
    assert!(has_key_bit(&gamepad_caps(), BTN_GAMEPAD));
    assert!(!has_key_bit(&gamepad_caps(), 0x11));
    let keyboard = "10000 0 0 0 0 100 0 0 0 0 0 0";
    assert!(!has_key_bit(keyboard, BTN_GAMEPAD));
    assert!(!has_key_bit("", BTN_GAMEPAD));
    assert!(!has_key_bit("zzzz", 0));
}

#[test]
fn a_pad_the_old_keyword_list_missed_is_found() {
    let nodes = vec![
        device_dir("input5"),
        node("js0", "input5", "Microsoft X-Box 360 pad", ("045e", "028e"), &gamepad_caps()),
    ];
    let pads = detect(&nodes);
    assert_eq!(pads.len(), 1, "{pads:#?}");
    assert_eq!(pads[0].name, "Microsoft X-Box 360 pad");
    assert_eq!(pads[0].id, "js0");
    assert_eq!(pads[0].index, Some(0));
    assert_eq!(pads[0].identity, "045e:028e:microsoft-x-box-360-pad");
}

#[test]
fn a_keyboard_and_a_mouse_are_not_gamepads() {
    let nodes = vec![
        node("input1", "input1", "AT Translated Set 2 keyboard", ("0001", "0001"), "1 0 0 0 0 0"),
        node("input2", "input2", "Logitech USB Optical Mouse", ("046d", "c05a"), "0 0 0 0 0 0"),
    ];
    assert!(detect(&nodes).is_empty());
}

#[test]
fn one_pad_seen_twice_is_one_pad() {
    let nodes = vec![
        node("event7", "input5", "8BitDo SN30 Pro", ("2dc8", "6001"), &gamepad_caps()),
        device_dir("input5"),
        node("js0", "input5", "8BitDo SN30 Pro", ("2dc8", "6001"), &gamepad_caps()),
    ];
    let pads = detect(&nodes);
    assert_eq!(pads.len(), 1, "the same pad was reported twice: {pads:#?}");
    assert_eq!(pads[0].id, "js0", "the joystick node is the one to keep");
}

#[test]
fn a_pad_with_no_joystick_node_is_still_found() {
    let nodes = vec![
        device_dir("input9"),
        node(
            "event9",
            "input9",
            "Sony Interactive Entertainment Wireless Controller",
            ("054c", "09cc"),
            &gamepad_caps(),
        ),
    ];
    let pads = detect(&nodes);
    assert_eq!(pads.len(), 1, "{pads:#?}");
    assert_eq!(pads[0].index, Some(0));
}

#[test]
fn two_of_the_same_pad_keep_separate_identities() {
    let nodes = vec![
        device_dir("input5"),
        node("js0", "input5", "Microsoft X-Box 360 pad", ("045e", "028e"), &gamepad_caps()),
        device_dir("input6"),
        node("js1", "input6", "Microsoft X-Box 360 pad", ("045e", "028e"), &gamepad_caps()),
    ];
    let pads = detect(&nodes);
    assert_eq!(pads.len(), 2);
    assert_eq!(pads[0].index, Some(0));
    assert_eq!(pads[1].index, Some(1));
    assert_ne!(pads[0].identity, pads[1].identity);
    assert_eq!(pads[1].identity, "045e:028e:microsoft-x-box-360-pad#2");
}

#[test]
fn pads_come_back_in_joystick_order() {
    let nodes = vec![
        device_dir("input7"),
        node("js10", "input7", "Pad Ten", ("0001", "0010"), &gamepad_caps()),
        device_dir("input6"),
        node("js2", "input6", "Pad Two", ("0001", "0002"), &gamepad_caps()),
    ];
    let pads = detect(&nodes);
    assert_eq!(pads.iter().map(|p| p.name.as_str()).collect::<Vec<_>>(), vec!["Pad Two", "Pad Ten"]);
    assert_eq!(pads.iter().map(|p| p.index).collect::<Vec<_>>(), vec![Some(0), Some(1)]);
}

#[test]
fn a_lone_pad_on_a_high_joystick_number_is_still_slot_zero() {
    let nodes = vec![
        device_dir("input5"),
        node("js1", "input5", "8BitDo SN30 Pro", ("2dc8", "6001"), &gamepad_caps()),
    ];
    let pads = detect(&nodes);
    assert_eq!(pads.len(), 1, "{pads:#?}");
    assert_eq!(pads[0].index, Some(0));
}

#[test]
fn a_joystick_node_without_gamepad_buttons_is_not_a_pad() {
    let nodes = vec![
        device_dir("input3"),
        node("js0", "input3", "ST LIS3LV02DL Accelerometer", ("0000", "0000"), "0 0 0 0 0 0"),
        device_dir("input5"),
        node("js1", "input5", "Microsoft X-Box 360 pad", ("045e", "028e"), &gamepad_caps()),
    ];
    let pads = detect(&nodes);
    assert_eq!(pads.len(), 1, "{pads:#?}");
    assert_eq!(pads[0].name, "Microsoft X-Box 360 pad");
    assert_eq!(pads[0].index, Some(0));
}

#[test]
fn detect_is_quiet_where_there_is_no_sysfs() {
    assert!(detect(&Vec::new()).is_empty());
    let input = Input::with_root("/definitely/not/a/sysfs".to_string());
    assert_eq!(input.root(), "/definitely/not/a/sysfs");
    assert!(input.controllers(&Vec::new()).is_empty());
}

#[test]
fn a_joystick_number_is_read_after_js() {
    assert_eq!(joystick_number("js0"), Some(0));
    assert_eq!(joystick_number("js12"), Some(12));
    assert_eq!(joystick_number("js"), None);
    assert_eq!(joystick_number("event3"), None);
    assert_eq!(joystick_number("jsx"), None);
}

#[test]
fn a_pad_without_ids_is_known_by_its_slug() {
    let nodes = vec![node("js0", "input5", "  --Odd Pad!-- ", ("", ""), &gamepad_caps())];
    let pads = detect(&nodes);
    assert_eq!(pads[0].identity, "odd-pad");
}

#[test]
fn two_of_the_same_pad_are_numbered_in_joystick_order() {
    let nodes = vec![
        device_dir("input7"),
        node("js10", "input7", "8BitDo SN30 Pro", ("2dc8", "6001"), &gamepad_caps()),
        device_dir("input6"),
        node("js2", "input6", "8BitDo SN30 Pro", ("2dc8", "6001"), &gamepad_caps()),
    ];
    let pads = detect(&nodes);
    assert_eq!(pads.len(), 2);
    assert_eq!(pads[0].id, "js2");
    assert_eq!(pads[0].identity, "2dc8:6001:8bitdo-sn30-pro");
    assert_eq!(pads[1].id, "js10");
    assert_eq!(pads[1].identity, "2dc8:6001:8bitdo-sn30-pro#2");
}
