use rsc::battery::{parse_number, read_capacity, read_charge_state, ChargeState, NumberFault};
use rsc::io_error::{IoError, IoErrorKind};

fn failure() -> IoError {
    IoError { kind: IoErrorKind::NotFound, code: Some(2), message: "gone".to_string() }
}

#[test]
fn capacity_is_read_with_white_space_around() {
    assert_eq!(read_capacity(Ok("85\n".to_string())), Ok(85));
    assert_eq!(read_capacity(Ok("  0\t\n".to_string())), Ok(0));
    assert_eq!(read_capacity(Ok("255".to_string())), Ok(255));
    assert_eq!(read_capacity(Ok("+7".to_string())), Ok(7));
    assert_eq!(read_capacity(Ok("007".to_string())), Ok(7));
}

#[test]
fn capacity_that_is_no_number_is_invalid_data() {
    for (content, fault) in [
        ("", NumberFault::Empty),
        (" \n", NumberFault::Empty),
        ("+", NumberFault::InvalidDigit),
        ("-1", NumberFault::InvalidDigit),
        ("8 5", NumberFault::InvalidDigit),
        ("99x", NumberFault::InvalidDigit),
        ("256", NumberFault::TooLarge),
        ("256x", NumberFault::TooLarge),
        ("1000", NumberFault::TooLarge),
    ] {
        let error = read_capacity(Ok(content.to_string())).expect_err("an error");
        assert_eq!(error.kind, IoErrorKind::InvalidData);
        assert_eq!(error.code, None);
        assert_eq!(error.message, fault.to_text());
        assert_eq!(parse_number(content.trim()), Err(fault));
    }
}

#[test]
fn numbers_are_read_as_std_reads_them() {
    for s in ["", "0", "00", "+0", "++0", "-0", "12", "255", "256", "2555", "25a", "300x", "\u{663}"]
    {
        match s.parse::<u8>() {
            Ok(n) => assert_eq!(parse_number(s), Ok(n)),
            Err(e) => {
                assert_eq!(parse_number(s).expect_err("a fault").to_text(), e.to_string());
            }
        }
    }
}

#[test]
fn every_capacity_reads_back() {
    for n in 0..=255u8 {
        assert_eq!(read_capacity(Ok(format!("{n}\n"))), Ok(n));
    }
}

#[test]
fn failed_reads_are_handed_on() {
    assert_eq!(read_capacity(Err(failure())), Err(failure()));
    assert_eq!(read_charge_state(Err(failure())), Err(failure()));
}

#[test]
fn status_words() {
    for (word, state) in [
        ("Charging\n", ChargeState::Charging),
        ("Discharging\n", ChargeState::Discharging),
        ("Full\n", ChargeState::Full),
        (" Not charging\n", ChargeState::NotCharging),
        ("Unknown\n", ChargeState::Unknown),
        ("charging", ChargeState::Unknown),
        ("NotCharging", ChargeState::Unknown),
        ("", ChargeState::Unknown),
    ] {
        assert_eq!(read_charge_state(Ok(word.to_string())), Ok(state));
    }
}

#[test]
fn only_charging_is_charging() {
    assert!(ChargeState::Charging.is_charging());
    assert!(!ChargeState::Discharging.is_charging());
    assert!(!ChargeState::Full.is_charging());
    assert!(!ChargeState::NotCharging.is_charging());
    assert!(!ChargeState::Unknown.is_charging());
}

#[test]
fn state_names() {
    assert_eq!(ChargeState::Charging.to_text(), "Charging");
    assert_eq!(ChargeState::Discharging.to_text(), "Discharging");
    assert_eq!(ChargeState::Full.to_text(), "Full");
    assert_eq!(ChargeState::NotCharging.to_text(), "NotCharging");
    assert_eq!(ChargeState::Unknown.to_text(), "Unknown");
}
