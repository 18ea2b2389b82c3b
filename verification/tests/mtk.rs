use rsc::charging::{cut_off_charging, resume_charging, ChargingRun};
use rsc::io_error::{IoError, IoErrorKind};
use rsc::mtk::{
    interruptible_sleep, paths_exist, verify_sysctl, write_sysctl, Action, Knob, MtkError, Outcome,
    Setting, SleepSlice, WriteReply, SLEEP_SLICE_NS,
};
use rsc::thermal::{disable_thermal_delimiter, enable_thermal_delimiter, ThermalRun};

fn failure(kind: IoErrorKind) -> IoError {
    IoError { kind, code: Some(13), message: "Permission denied".to_string() }
}

fn fault(name: &str) -> MtkError {
    MtkError::PathMissing(name.to_string())
}

fn write(knob: Knob, setting: Setting) -> Action {
    Action::Write { knob, setting }
}

fn verify(knob: Knob, setting: Setting) -> Action {
    Action::Verify { knob, setting }
}

fn settle() -> Action {
    Action::Sleep { millis: 50 }
}

/// Runs to the end; the actions in `failing` (by their place) fail with their own
/// place as the error.
fn drive_charging(mut run: ChargingRun, failing: &[usize]) -> (Vec<Action>, Outcome) {
    let mut actions = Vec::new();
    while let Some(action) = run.pending() {
        let place = actions.len();
        actions.push(action);
        let outcome = if failing.contains(&place) { Err(fault(&place.to_string())) } else { Ok(()) };
        run = run.advance(outcome);
    }
    match run.finish() {
        Ok(outcome) => (actions, outcome),
        Err(_) => panic!("the run is not over"),
    }
}

fn drive_thermal(mut run: ThermalRun, failing: &[usize]) -> (Vec<Action>, Outcome) {
    let mut actions = Vec::new();
    while let Some(action) = run.pending() {
        let place = actions.len();
        actions.push(action);
        let outcome = if failing.contains(&place) { Err(fault(&place.to_string())) } else { Ok(()) };
        run = run.advance(outcome);
    }
    match run.finish() {
        Ok(outcome) => (actions, outcome),
        Err(_) => panic!("the run is not over"),
    }
}

#[test]
fn cutting_resets_enables_and_cuts() {
    let (actions, outcome) = drive_charging(cut_off_charging(), &[]);
    assert_eq!(
        actions,
        vec![
            write(Knob::EnPowerPath, Setting::Off),
            settle(),
            write(Knob::EnPowerPath, Setting::On),
            settle(),
            write(Knob::CurrentCmd, Setting::Cut),
        ]
    );
    assert_eq!(outcome, Ok(()));
}

#[test]
fn resuming_resets_enables_and_uncuts() {
    let (actions, outcome) = drive_charging(resume_charging(), &[]);
    assert_eq!(actions.len(), 5);
    assert_eq!(actions[0], write(Knob::EnPowerPath, Setting::Off));
    assert_eq!(actions[2], write(Knob::EnPowerPath, Setting::On));
    assert_eq!(actions[4], write(Knob::CurrentCmd, Setting::Uncut));
    assert_eq!(outcome, Ok(()));
}

#[test]
fn failed_power_path_ends_the_run() {
    for start in [cut_off_charging, resume_charging] {
        let (actions, outcome) = drive_charging(start(), &[0]);
        assert_eq!(actions.len(), 1);
        assert_eq!(outcome, Err(fault("0")));
        let (actions, outcome) = drive_charging(start(), &[2]);
        assert_eq!(actions.len(), 3);
        assert_eq!(outcome, Err(fault("2")));
    }
}

#[test]
fn failed_flag_is_rolled_back() {
    let (actions, outcome) = drive_charging(cut_off_charging(), &[4]);
    assert_eq!(actions.len(), 6);
    assert_eq!(actions[5], write(Knob::CurrentCmd, Setting::Uncut));
    assert_eq!(outcome, Err(fault("4")));
    let (actions, outcome) = drive_charging(resume_charging(), &[4]);
    assert_eq!(actions[5], write(Knob::CurrentCmd, Setting::Cut));
    assert_eq!(outcome, Err(fault("4")));
}

#[test]
fn failed_rollback_does_not_change_the_error() {
    let (actions, outcome) = drive_charging(cut_off_charging(), &[4, 5]);
    assert_eq!(actions.len(), 6);
    assert_eq!(outcome, Err(fault("4")));
}

#[test]
fn unfinished_runs_have_no_result() {
    match cut_off_charging().finish() {
        Ok(_) => panic!("nothing has happened yet"),
        Err(run) => assert_eq!(run.pending(), Some(write(Knob::EnPowerPath, Setting::Off))),
    }
    assert!(enable_thermal_delimiter().finish().is_err());
}

#[test]
fn delimiter_is_written_and_verified() {
    let (actions, outcome) = drive_thermal(enable_thermal_delimiter(), &[]);
    assert_eq!(
        actions,
        vec![
            write(Knob::DisableNafg, Setting::On),
            write(Knob::NtcDisableNafg, Setting::On),
            verify(Knob::DisableNafg, Setting::On),
            verify(Knob::NtcDisableNafg, Setting::On),
        ]
    );
    assert_eq!(outcome, Ok(()));
    let (actions, outcome) = drive_thermal(disable_thermal_delimiter(), &[]);
    assert_eq!(
        actions,
        vec![
            write(Knob::DisableNafg, Setting::Off),
            write(Knob::NtcDisableNafg, Setting::Off),
            verify(Knob::DisableNafg, Setting::Off),
            verify(Knob::NtcDisableNafg, Setting::Off),
        ]
    );
    assert_eq!(outcome, Ok(()));
}

#[test]
fn delimiter_failures_are_rolled_back() {
    let (actions, outcome) = drive_thermal(enable_thermal_delimiter(), &[0]);
    assert_eq!(actions.len(), 1);
    assert_eq!(outcome, Err(fault("0")));

    let (actions, outcome) = drive_thermal(enable_thermal_delimiter(), &[1]);
    assert_eq!(actions[2..], [write(Knob::DisableNafg, Setting::Off)]);
    assert_eq!(outcome, Err(fault("1")));

    let both = [write(Knob::DisableNafg, Setting::Off), write(Knob::NtcDisableNafg, Setting::Off)];
    let (actions, outcome) = drive_thermal(enable_thermal_delimiter(), &[2]);
    assert_eq!(actions[3..], both);
    assert_eq!(outcome, Err(fault("2")));

    let (actions, outcome) = drive_thermal(enable_thermal_delimiter(), &[3, 4, 5]);
    assert_eq!(actions[4..], both);
    assert_eq!(outcome, Err(fault("3")));

    let (actions, outcome) = drive_thermal(disable_thermal_delimiter(), &[1]);
    assert_eq!(actions[2..], [write(Knob::DisableNafg, Setting::On)]);
    assert_eq!(outcome, Err(fault("1")));

    let (actions, outcome) = drive_thermal(disable_thermal_delimiter(), &[3]);
    assert_eq!(
        actions[4..],
        [write(Knob::DisableNafg, Setting::On), write(Knob::NtcDisableNafg, Setting::On)]
    );
    assert_eq!(outcome, Err(fault("3")));
}

#[test]
fn knobs_and_settings() {
    assert_eq!(Knob::EnPowerPath.path(), "/proc/mtk_battery_cmd/en_power_path");
    assert_eq!(Knob::CurrentCmd.path(), "/proc/mtk_battery_cmd/current_cmd");
    assert_eq!(Knob::DisableNafg.path(), "/sys/devices/platform/battery/disable_nafg");
    assert_eq!(Knob::NtcDisableNafg.path(), "/sys/devices/platform/battery/ntc_disable_nafg");
    assert_eq!(Setting::Off.text(), "0");
    assert_eq!(Setting::On.text(), "1");
    assert_eq!(Setting::Cut.text(), "1 1");
    assert_eq!(Setting::Uncut.text(), "0 0");
}

#[test]
fn what_a_write_comes_to() {
    assert_eq!(write_sysctl("/p", WriteReply::Written), Ok(()));
    assert_eq!(
        write_sysctl("/p", WriteReply::OpenFailed(failure(IoErrorKind::NotFound))),
        Err(MtkError::PathMissing("/p".to_string()))
    );
    assert_eq!(
        write_sysctl("/p", WriteReply::OpenFailed(failure(IoErrorKind::Other))),
        Err(MtkError::Io(failure(IoErrorKind::Other)))
    );
    assert_eq!(
        write_sysctl("/p", WriteReply::WriteFailed(failure(IoErrorKind::NotFound))),
        Err(MtkError::Io(failure(IoErrorKind::NotFound)))
    );
}

#[test]
fn what_a_verification_comes_to() {
    assert_eq!(verify_sysctl("/p", "1", Ok("1\n".to_string())), Ok(()));
    assert_eq!(verify_sysctl("/p", " 1 ", Ok("1".to_string())), Ok(()));
    assert_eq!(
        verify_sysctl("/p", "1", Ok(" 0\n".to_string())),
        Err(MtkError::VerificationFailed("/p: expected '1', got '0'".to_string()))
    );
    assert_eq!(
        verify_sysctl("/p", "1", Err(failure(IoErrorKind::NotFound))),
        Err(MtkError::Io(failure(IoErrorKind::NotFound)))
    );
}

#[test]
fn errors_in_words() {
    assert_eq!(MtkError::from(failure(IoErrorKind::Other)).to_text(), "io: Permission denied");
    assert_eq!(MtkError::PathMissing("/p".to_string()).to_text(), "path missing: /p");
    assert_eq!(
        MtkError::VerificationFailed("/p: expected '1', got '0'".to_string()).to_text(),
        "verification failed: /p: expected '1', got '0'"
    );
}

#[test]
fn all_four_paths_are_needed() {
    assert!(paths_exist(true, true, true, true));
    assert!(!paths_exist(false, true, true, true));
    assert!(!paths_exist(true, false, true, true));
    assert!(!paths_exist(true, true, false, true));
    assert!(!paths_exist(true, true, true, false));
}

#[test]
fn sleep_goes_in_slices() {
    assert_eq!(
        interruptible_sleep(50_000_000, true),
        Some(SleepSlice { sleep_ns: 10_000_000, remaining_ns: 40_000_000 })
    );
    assert_eq!(
        interruptible_sleep(10_000_000, true),
        Some(SleepSlice { sleep_ns: 10_000_000, remaining_ns: 0 })
    );
    assert_eq!(interruptible_sleep(7, true), Some(SleepSlice { sleep_ns: 7, remaining_ns: 0 }));
    assert_eq!(interruptible_sleep(0, true), None);
    assert_eq!(interruptible_sleep(50_000_000, false), None);
}

#[test]
fn whole_sleep_lasts_as_asked() {
    let mut remaining: u128 = 53_000_001;
    let mut slept: u128 = 0;
    let mut looks = 0;
    while let Some(slice) = interruptible_sleep(remaining, true) {
        assert!(slice.sleep_ns <= SLEEP_SLICE_NS);
        slept += slice.sleep_ns;
        remaining = slice.remaining_ns;
        looks += 1;
    }
    assert_eq!(slept, 53_000_001);
    assert_eq!(looks, 6);
}

#[test]
fn cutting_and_resuming_mirror_each_other() {
    let turned = |action: &Action| match *action {
        Action::Write { knob, setting: Setting::Cut } => write(knob, Setting::Uncut),
        Action::Write { knob, setting: Setting::Uncut } => write(knob, Setting::Cut),
        other => other,
    };
    for failing in [vec![], vec![0], vec![2], vec![4], vec![4, 5], vec![1, 3]] {
        let (cut, cut_outcome) = drive_charging(cut_off_charging(), &failing);
        let (resume, resume_outcome) = drive_charging(resume_charging(), &failing);
        assert_eq!(cut.iter().map(turned).collect::<Vec<_>>(), resume);
        assert_eq!(cut_outcome, resume_outcome);
    }
}
