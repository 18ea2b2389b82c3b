use rsc::uevent::{parse_received, parse_uevent, Uevent};

fn build_buf(parts: &[&str]) -> Vec<u8> {
    let mut buf = Vec::new();
    for p in parts {
        buf.extend_from_slice(p.as_bytes());
        buf.push(0);
    }
    buf
}

#[test]
fn test_parse_battery_change_event() {
    let buf = build_buf(&[
        "change@/devices/platform/battery/power_supply/battery",
        "ACTION=change",
        "DEVPATH=/devices/platform/battery/power_supply/battery",
        "SUBSYSTEM=power_supply",
        "POWER_SUPPLY_CAPACITY=85",
        "POWER_SUPPLY_STATUS=Charging",
        "SEQNUM=12345",
    ]);
    let ev = parse_uevent(&buf).expect("parse failed");
    assert_eq!(ev.action, "change");
    assert_eq!(ev.subsystem, "power_supply");
    assert!(ev.devpath.contains("/power_supply/battery"));
    assert_eq!(ev.capacity.as_deref(), Some("85"));
    assert_eq!(ev.status.as_deref(), Some("Charging"));
    assert_eq!(ev.seqnum.as_deref(), Some("12345"));
    assert!(ev.is_relevant());
    // Verify summary doesn't panic and includes key fields.
    let s = ev.summary();
    assert!(s.contains("action=change"));
    assert!(s.contains("cap=85"));
}

#[test]
fn test_parse_irrelevant_input_event() {
    let buf = build_buf(&[
        "add@/devices/platform/input0",
        "ACTION=add",
        "DEVPATH=/devices/platform/input0",
        "SUBSYSTEM=input",
    ]);
    let ev = parse_uevent(&buf).expect("parse failed");
    assert_eq!(ev.subsystem, "input");
    assert!(ev.capacity.is_none());
    assert!(ev.status.is_none());
    assert!(!ev.is_relevant());
}

#[test]
fn test_parse_charger_plug_event() {
    // When charger plugs in, kernel emits uevent for the charger
    // device AND the battery device. We care about the battery one.
    let buf = build_buf(&[
        "change@/devices/platform/mt_charger/power_supply/mt_charger",
        "ACTION=change",
        "DEVPATH=/devices/platform/mt_charger/power_supply/mt_charger",
        "SUBSYSTEM=power_supply",
    ]);
    let ev = parse_uevent(&buf).expect("parse failed");
    // Charger event — not /battery, so NOT relevant for us.
    assert!(!ev.is_relevant());
}

#[test]
fn test_parse_empty_buffer() {
    assert!(parse_uevent(&[]).is_none());
}

#[test]
fn test_parse_garbage_buffer() {
    // No NUL-separated strings — should not panic.
    let buf = b"just some random bytes without nulls";
    let ev = parse_uevent(buf).expect("should not return None");
    assert!(!ev.is_relevant());
    assert!(ev.capacity.is_none());
}

#[test]
fn test_parse_event_without_payload_fields() {
    // Some kernels emit uevents without POWER_SUPPLY_CAPACITY etc.
    // Parser must handle missing fields gracefully (Option::None).
    let buf = build_buf(&[
        "change@/devices/platform/battery/power_supply/battery",
        "ACTION=change",
        "DEVPATH=/devices/platform/battery/power_supply/battery",
        "SUBSYSTEM=power_supply",
        // No POWER_SUPPLY_* fields — just a generic change notification.
    ]);
    let ev = parse_uevent(&buf).expect("parse failed");
    assert!(ev.is_relevant());
    assert!(ev.capacity.is_none());
    assert!(ev.status.is_none());
    assert!(ev.seqnum.is_none());
}

#[test]
fn header_gives_action_and_devpath() {
    let ev = parse_uevent(b"add@/devices/a@b\0SUBSYSTEM=usb\0").expect("an event");
    assert_eq!(ev.action, "add");
    assert_eq!(ev.devpath, "/devices/a@b");
    assert_eq!(ev.subsystem, "usb");
}

#[test]
fn explicit_fields_win_over_the_header() {
    let ev = parse_uevent(b"add@/a\0ACTION=remove\0DEVPATH=/b\0").expect("an event");
    assert_eq!(ev.action, "remove");
    assert_eq!(ev.devpath, "/b");
}

#[test]
fn last_identity_field_and_first_payload_field_win() {
    let buf = build_buf(&[
        "change@/x",
        "ACTION=one",
        "ACTION=two",
        "SUBSYSTEM=a",
        "SUBSYSTEM=b",
        "DEVPATH=/p",
        "DEVPATH=/q",
        "POWER_SUPPLY_CAPACITY=1",
        "POWER_SUPPLY_CAPACITY=2",
        "POWER_SUPPLY_STATUS=Full",
        "POWER_SUPPLY_STATUS=Charging",
        "SEQNUM=7",
        "SEQNUM=8",
    ]);
    let ev = parse_uevent(&buf).expect("an event");
    assert_eq!(ev.action, "two");
    assert_eq!(ev.subsystem, "b");
    assert_eq!(ev.devpath, "/q");
    assert_eq!(ev.capacity.as_deref(), Some("1"));
    assert_eq!(ev.status.as_deref(), Some("Full"));
    assert_eq!(ev.seqnum.as_deref(), Some("7"));
}

#[test]
fn fields_in_the_first_string_do_not_count() {
    let ev = parse_uevent(b"ACTION=change\0SUBSYSTEM=power_supply\0").expect("an event");
    assert_eq!(ev.action, "");
    assert_eq!(ev.subsystem, "power_supply");
}

#[test]
fn empty_strings_between_nuls_are_skipped() {
    let ev = parse_uevent(b"\0\0change@/d\0\0\0ACTION=x\0").expect("an event");
    assert_eq!(ev.action, "x");
    assert_eq!(ev.devpath, "/d");
}

#[test]
fn only_nuls_are_no_event() {
    assert!(parse_uevent(&[0, 0, 0]).is_none());
    let fallback = parse_received(&[0, 0, 0]);
    assert!(fallback.is_parse_failure());
    assert!(!fallback.is_relevant());
    assert!(fallback.capacity.is_none() && fallback.status.is_none());
}

#[test]
fn received_event_is_the_parsed_event() {
    let buf = build_buf(&["change@/d", "SUBSYSTEM=power_supply"]);
    assert_eq!(Some(parse_received(&buf)), parse_uevent(&buf));
    assert!(!parse_received(&buf).is_parse_failure());
}

#[test]
fn invalid_bytes_are_replaced() {
    let ev = parse_uevent(b"change@/d\0SUBSYSTEM=a\xffb\0").expect("an event");
    assert_eq!(ev.subsystem, "a\u{fffd}b");
}

#[test]
fn any_action_is_relevant() {
    for action in ["add", "remove", "change", "bind", ""] {
        let ev = Uevent {
            action: action.to_string(),
            devpath: "/devices/x/power_supply/battery".to_string(),
            subsystem: "power_supply".to_string(),
            capacity: None,
            status: None,
            seqnum: None,
        };
        assert!(ev.is_relevant());
    }
}

#[test]
fn relevance_needs_both_conditions() {
    let mut ev = Uevent {
        action: String::new(),
        devpath: "/power_supply/battery".to_string(),
        subsystem: "power_supply2".to_string(),
        capacity: None,
        status: None,
        seqnum: None,
    };
    assert!(!ev.is_relevant());
    ev.subsystem = "power_supply".to_string();
    assert!(ev.is_relevant());
    ev.devpath = "power_supply/battery".to_string();
    assert!(!ev.is_relevant());
}

#[test]
fn summary_in_full() {
    let mut ev = Uevent {
        action: "change".to_string(),
        devpath: "/d".to_string(),
        subsystem: "power_supply".to_string(),
        capacity: None,
        status: None,
        seqnum: None,
    };
    assert_eq!(
        ev.summary(),
        "action=change subsystem=power_supply devpath=/d cap=- status=- seq=-"
    );
    ev.capacity = Some("85".to_string());
    ev.status = Some("Charging".to_string());
    ev.seqnum = Some("9".to_string());
    assert_eq!(
        ev.summary(),
        "action=change subsystem=power_supply devpath=/d cap=85 status=Charging seq=9"
    );
}

#[test]
fn blank_event_without_header_counts_as_failure() {
    let ev = parse_uevent(b"garbage").expect("an event");
    assert!(ev.is_parse_failure());
}

#[test]
fn outer_nuls_do_not_count() {
    let bytes = b"change@/d\0SUBSYSTEM=a\xe2\x82";
    let mut padded = vec![0, 0];
    padded.extend_from_slice(bytes);
    padded.extend_from_slice(&[0, 0, 0]);
    assert_eq!(parse_uevent(&padded), parse_uevent(bytes));
}

#[test]
fn other_keys_are_ignored() {
    let plain = build_buf(&["change@/d", "SUBSYSTEM=power_supply", "SEQNUM=4"]);
    let more = build_buf(&[
        "change@/d",
        "POWER_SUPPLY_NAME=battery",
        "SUBSYSTEM=power_supply",
        "no key at all",
        "SEQNUM=4",
        "action=add",
    ]);
    assert_eq!(parse_uevent(&more), parse_uevent(&plain));
}
