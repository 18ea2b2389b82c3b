//! The MediaTek battery command interface: its knobs, what can be written to
//! them, and what a write or a read of one comes to.
//!
//! Runs over the knobs ask for one action at a time and are told how it went;
//! see [`crate::charging`] and [`crate::thermal`].

use vstd::prelude::*;
use vstd::string::StringExecFns;

use crate::io_error::{IoError, IoErrorKind};
use crate::text::{is_space, law_trim, lemma_trim_around, same_text, trim, trimmed};

pub use crate::charging::{cut_off_charging, resume_charging};
pub use crate::thermal::{disable_thermal_delimiter, enable_thermal_delimiter};

verus! {

/// How long the driver is given after each write of the power path.
pub const RESUME_RESET_DELAY_MS: u64 = 50;

/// The longest a sleep goes on without a look at the stop flag, in nanoseconds.
pub const SLEEP_SLICE_NS: u128 = 10_000_000;

/// What can go wrong with a knob.
#[derive(Debug, Clone, PartialEq, Eq)]
pub enum MtkError {
    /// The system reported a failure.
    Io(IoError),
    /// The device has no such knob.
    PathMissing(String),
    /// The write went through, but the knob does not hold the value.
    VerificationFailed(String),
}

/// The driver's knobs.
#[derive(Debug, Clone, Copy, PartialEq, Eq, Structural)]
pub enum Knob {
    EnPowerPath,
    CurrentCmd,
    DisableNafg,
    NtcDisableNafg,
}

/// What is written to a knob.
#[derive(Debug, Clone, Copy, PartialEq, Eq, Structural)]
pub enum Setting {
    /// `0`
    Off,
    /// `1`
    On,
    /// `1 1`: charging is cut.
    Cut,
    /// `0 0`: charging is not cut.
    Uncut,
}

/// What a run asks for.
#[derive(Debug, Clone, Copy, PartialEq, Eq, Structural)]
pub enum Action {
    /// Write the setting to the knob.
    Write { knob: Knob, setting: Setting },
    /// Read the knob back and compare it with the setting.
    Verify { knob: Knob, setting: Setting },
    /// Sleep, unless the daemon is to stop.
    Sleep { millis: u64 },
}

/// How an action went. A sleep always goes well.
pub type Outcome = Result<(), MtkError>;

/// How a write went.
pub enum WriteReply {
    /// The value was written.
    Written,
    /// The file could not be opened.
    OpenFailed(IoError),
    /// The file was opened, but the value could not be written out.
    WriteFailed(IoError),
}

impl Knob {
    /// Where the knob is.
    pub open spec fn location(self) -> Seq<char> {
        match self {
            Knob::EnPowerPath => "/proc/mtk_battery_cmd/en_power_path"@,
            Knob::CurrentCmd => "/proc/mtk_battery_cmd/current_cmd"@,
            Knob::DisableNafg => "/sys/devices/platform/battery/disable_nafg"@,
            Knob::NtcDisableNafg => "/sys/devices/platform/battery/ntc_disable_nafg"@,
        }
    }

    /// Where the knob is.
    pub fn path(&self) -> (r: &'static str)
        ensures
            r@ == self.location(),
    {
        match self {
            Knob::EnPowerPath => "/proc/mtk_battery_cmd/en_power_path",
            Knob::CurrentCmd => "/proc/mtk_battery_cmd/current_cmd",
            Knob::DisableNafg => "/sys/devices/platform/battery/disable_nafg",
            Knob::NtcDisableNafg => "/sys/devices/platform/battery/ntc_disable_nafg",
        }
    }
}

impl Setting {
    /// What is written.
    pub open spec fn written(self) -> Seq<char> {
        match self {
            Setting::Off => "0"@,
            Setting::On => "1"@,
            Setting::Cut => "1 1"@,
            Setting::Uncut => "0 0"@,
        }
    }

    /// What is written.
    pub fn text(&self) -> (r: &'static str)
        ensures
            r@ == self.written(),
    {
        match self {
            Setting::Off => "0",
            Setting::On => "1",
            Setting::Cut => "1 1",
            Setting::Uncut => "0 0",
        }
    }
}

impl From<IoError> for MtkError {
    fn from(e: IoError) -> (r: MtkError) {
        MtkError::Io(e)
    }
}

impl vstd::std_specs::convert::FromSpecImpl<IoError> for MtkError {
    open spec fn obeys_from_spec() -> bool {
        true
    }

    open spec fn from_spec(e: IoError) -> MtkError {
        MtkError::Io(e)
    }
}

impl MtkError {
    /// The error in words.
    pub open spec fn words(self) -> Seq<char> {
        match self {
            MtkError::Io(e) => "io: "@ + e.message@,
            MtkError::PathMissing(p) => "path missing: "@ + p@,
            MtkError::VerificationFailed(s) => "verification failed: "@ + s@,
        }
    }

    /// The error in words, as text.
    pub fn to_text(&self) -> (r: String)
        ensures
            r@ == self.words(),
    {
        let mut out = String::new();
        match self {
            MtkError::Io(e) => {
                out.append("io: ");
                out.append(e.message.as_str());
            },
            MtkError::PathMissing(p) => {
                out.append("path missing: ");
                out.append(p.as_str());
            },
            MtkError::VerificationFailed(s) => {
                out.append("verification failed: ");
                out.append(s.as_str());
            },
        }
        proof {
            assert(out@ =~= self.words());
        }
        out
    }
}

/// What a write to `path` comes to: a file that is not there is a missing path,
/// every other failure is the system's.
pub fn write_sysctl(path: &str, reply: WriteReply) -> (r: Outcome)
    ensures
        match reply {
            WriteReply::Written => r == Ok::<(), MtkError>(()),
            WriteReply::OpenFailed(e) => if e.kind == IoErrorKind::NotFound {
                r matches Err(MtkError::PathMissing(p)) && p@ == path@
            } else {
                r == Err::<(), MtkError>(MtkError::Io(e))
            },
            WriteReply::WriteFailed(e) => r == Err::<(), MtkError>(MtkError::Io(e)),
        },
{
    match reply {
        WriteReply::Written => Ok(()),
        WriteReply::OpenFailed(e) => {
            if e.kind == IoErrorKind::NotFound {
                Err(MtkError::PathMissing(path.to_owned()))
            } else {
                Err(MtkError::from(e))
            }
        },
        WriteReply::WriteFailed(e) => Err(MtkError::from(e)),
    }
}

/// What is said of a knob that does not hold what was written.
pub open spec fn mismatch(path: Seq<char>, expected: Seq<char>, actual: Seq<char>) -> Seq<char> {
    path + ": expected '"@ + expected + "', got '"@ + trimmed(actual) + "'"@
}

/// What reading `path` back comes to: a failed read is the system's failure, and
/// a content other than `expected`, white space at the ends aside, a failed
/// verification.
pub fn verify_sysctl(path: &str, expected: &str, content: Result<String, IoError>) -> (r: Outcome)
    ensures
        match content {
            Err(e) => r == Err::<(), MtkError>(MtkError::Io(e)),
            Ok(actual) => if trimmed(actual@) == trimmed(expected@) {
                r == Ok::<(), MtkError>(())
            } else {
                r matches Err(MtkError::VerificationFailed(s)) && s@ == mismatch(
                    path@,
                    expected@,
                    actual@,
                )
            },
        },
{
    match content {
        Err(e) => Err(MtkError::from(e)),
        Ok(actual) => {
            let held = trim(actual.as_str());
            if same_text(held.as_str(), trim(expected).as_str()) {
                return Ok(());
            }
            let mut s = String::new();
            s.append(path);
            s.append(": expected '");
            s.append(expected);
            s.append("', got '");
            s.append(held.as_str());
            s.append("'");
            proof {
                assert(s@ =~= mismatch(path@, expected@, actual@));
            }
            Err(MtkError::VerificationFailed(s))
        },
    }
}

/// Whether the device has the whole interface.
pub fn paths_exist(
    en_power_path: bool,
    current_cmd: bool,
    disable_nafg: bool,
    ntc_disable_nafg: bool,
) -> (r: bool)
    ensures
        r == (en_power_path && current_cmd && disable_nafg && ntc_disable_nafg),
{
    en_power_path && current_cmd && disable_nafg && ntc_disable_nafg
}

/// One slice of a sleep: how long to sleep now, and what is then left.
#[derive(Debug, Clone, Copy, PartialEq, Eq, Structural)]
pub struct SleepSlice {
    pub sleep_ns: u128,
    pub remaining_ns: u128,
}

/// The next slice of a sleep with `remaining_ns` to go; none where the sleep is
/// over or the daemon is to stop.
pub open spec fn next_slice(remaining_ns: u128, running: bool) -> Option<SleepSlice> {
    if remaining_ns == 0 || !running {
        None
    } else if remaining_ns < SLEEP_SLICE_NS {
        Some(SleepSlice { sleep_ns: remaining_ns, remaining_ns: 0 })
    } else {
        Some(
            SleepSlice {
                sleep_ns: SLEEP_SLICE_NS,
                remaining_ns: (remaining_ns - SLEEP_SLICE_NS) as u128,
            },
        )
    }
}

/// Sleeps in slices, so that a request to stop is noticed soon.
pub fn interruptible_sleep(remaining_ns: u128, running: bool) -> (r: Option<SleepSlice>)
    ensures
        r == next_slice(remaining_ns, running),
{
    if remaining_ns == 0 || !running {
        return None;
    }
    let step: u128 = if remaining_ns < SLEEP_SLICE_NS {
        remaining_ns
    } else {
        SLEEP_SLICE_NS
    };
    Some(SleepSlice { sleep_ns: step, remaining_ns: remaining_ns - step })
}

/// What the knobs hold after some actions, where a write that goes well sets its
/// knob and nothing else changes one.
pub open spec fn held(
    knobs: Map<Knob, Setting>,
    actions: Seq<Action>,
    outcomes: Seq<Outcome>,
) -> Map<Knob, Setting>
    decreases actions.len(),
{
    if actions.len() == 0 {
        knobs
    } else {
        let next = match actions[0] {
            Action::Write { knob, setting } if outcomes[0] is Ok => knobs.insert(knob, setting),
            _ => knobs,
        };
        held(next, actions.drop_first(), outcomes.drop_first())
    }
}

/// The stretches that a sleep of `remaining_ns` is slept in, where the daemon is
/// still to run at each look as `running` says.
pub open spec fn slices(remaining_ns: u128, running: Seq<bool>) -> Seq<u128>
    decreases running.len(),
{
    if running.len() == 0 {
        seq![]
    } else {
        match next_slice(remaining_ns, running[0]) {
            Some(slice) => {
                seq![slice.sleep_ns] + slices(slice.remaining_ns, running.drop_first())
            },
            None => seq![],
        }
    }
}

/// The sum of some stretches of time.
pub open spec fn total(s: Seq<u128>) -> nat
    decreases s.len(),
{
    if s.len() == 0 {
        0
    } else {
        (s[0] + total(s.drop_first())) as nat
    }
}

/// A sleep never lasts longer than asked, no stretch of it is longer than a
/// slice, and once the daemon is to stop there is no further one.
pub proof fn law_sleep_is_bounded(remaining_ns: u128, running: Seq<bool>)
    ensures
        total(slices(remaining_ns, running)) <= remaining_ns,
        forall|i: int|
            0 <= i < slices(remaining_ns, running).len() ==> 0 < #[trigger] slices(
                remaining_ns,
                running,
            )[i] <= SLEEP_SLICE_NS,
        forall|i: int|
            0 <= i < running.len() && !#[trigger] running[i] ==> slices(
                remaining_ns,
                running,
            ).len() <= i,
    decreases running.len(),
{
    if running.len() > 0 {
        match next_slice(remaining_ns, running[0]) {
            Some(slice) => {
                let rest = running.drop_first();
                law_sleep_is_bounded(slice.remaining_ns, rest);
                let tail = slices(slice.remaining_ns, rest);
                let all = slices(remaining_ns, running);
                assert(all.drop_first() =~= tail);
                assert forall|i: int| 0 <= i < all.len() implies 0 < #[trigger] all[i]
                    <= SLEEP_SLICE_NS by {
                    if i > 0 {
                        assert(all[i] == tail[i - 1]);
                    }
                }
                assert forall|i: int|
                    0 <= i < running.len() && !#[trigger] running[i] implies all.len() <= i by {
                    assert(rest[i - 1] == running[i]);
                }
            },
            None => {},
        }
    }
}

/// A sleep that is not interrupted lasts as long as asked.
pub proof fn law_sleep_is_complete(remaining_ns: u128, running: Seq<bool>)
    requires
        forall|i: int| 0 <= i < running.len() ==> #[trigger] running[i],
        running.len() * SLEEP_SLICE_NS >= remaining_ns,
    ensures
        total(slices(remaining_ns, running)) == remaining_ns,
    decreases running.len(),
{
    if running.len() > 0 {
        let rest = running.drop_first();
        assert(running[0]);
        assert forall|i: int| 0 <= i < rest.len() implies #[trigger] rest[i] by {
            assert(rest[i] == running[i + 1]);
        }
        match next_slice(remaining_ns, running[0]) {
            Some(slice) => {
                assert(rest.len() * SLEEP_SLICE_NS >= slice.remaining_ns) by (nonlinear_arith)
                    requires
                        rest.len() == running.len() - 1,
                        running.len() * SLEEP_SLICE_NS >= remaining_ns,
                        slice.remaining_ns == 0 || slice.remaining_ns == remaining_ns
                            - SLEEP_SLICE_NS,
                ;
                law_sleep_is_complete(slice.remaining_ns, rest);
                assert(slices(remaining_ns, running).drop_first() =~= slices(
                    slice.remaining_ns,
                    rest,
                ));
            },
            None => {},
        }
    } else {
        assert(remaining_ns == 0) by (nonlinear_arith)
            requires
                running.len() == 0,
                running.len() * SLEEP_SLICE_NS >= remaining_ns,
        ;
    }
}

/// Where each knob is.
pub proof fn law_knob_paths(knob: Knob)
    ensures
        knob == Knob::EnPowerPath ==> knob.location() == "/proc/mtk_battery_cmd/en_power_path"@,
        knob == Knob::CurrentCmd ==> knob.location() == "/proc/mtk_battery_cmd/current_cmd"@,
        knob == Knob::DisableNafg ==> knob.location()
            == "/sys/devices/platform/battery/disable_nafg"@,
        knob == Knob::NtcDisableNafg ==> knob.location()
            == "/sys/devices/platform/battery/ntc_disable_nafg"@,
{
}

/// What each setting is written as.
pub proof fn law_setting_texts(setting: Setting)
    ensures
        setting == Setting::Off ==> setting.written() == "0"@,
        setting == Setting::On ==> setting.written() == "1"@,
        setting == Setting::Cut ==> setting.written() == "1 1"@,
        setting == Setting::Uncut ==> setting.written() == "0 0"@,
{
}

/// An error names its kind and then says all that is known of it.
pub proof fn law_error_words(e: IoError, text: String)
    ensures
        MtkError::Io(e).words() == "io: "@ + e.message@,
        MtkError::PathMissing(text).words() == "path missing: "@ + text@,
        MtkError::VerificationFailed(text).words() == "verification failed: "@ + text@,
{
}

/// A failed verification names the path, the value that was written and the value
/// that was found, the latter without the white space around it.
pub proof fn law_mismatch_names_both_values(
    path: Seq<char>,
    expected: Seq<char>,
    before: Seq<char>,
    actual: Seq<char>,
    after: Seq<char>,
)
    requires
        forall|i: int| 0 <= i < before.len() ==> is_space(#[trigger] before[i]),
        forall|i: int| 0 <= i < after.len() ==> is_space(#[trigger] after[i]),
        actual.len() > 0 ==> !is_space(actual[0]) && !is_space(actual.last()),
    ensures
        mismatch(path, expected, before + actual + after) == path + ": expected '"@ + expected
            + "', got '"@ + actual + "'"@,
{
    let all = before + actual + after;
    if actual.len() > 0 {
        lemma_trim_around(before, actual, after);
    } else {
        law_trim(all);
        assert forall|i: int| 0 <= i < all.len() implies is_space(#[trigger] all[i]) by {
            if i < before.len() {
                assert(all[i] == before[i]);
            } else {
                assert(all[i] == after[i - before.len()]);
            }
        }
        assert(trimmed(all) =~= actual);
    }
}

/// A sleep goes on for ten milliseconds at a time, or for what is left where that
/// is less, and nothing of it is lost. A sleep that is over, or that is to stop,
/// does not go on.
pub proof fn law_sleep_slice(remaining_ns: u128)
    ensures
        next_slice(remaining_ns, false) is None,
        next_slice(0, true) is None,
        remaining_ns > 0 ==> (next_slice(remaining_ns, true) matches Some(slice) && {
            &&& slice.sleep_ns == if remaining_ns < 10_000_000 {
                remaining_ns
            } else {
                10_000_000
            }
            &&& slice.sleep_ns + slice.remaining_ns == remaining_ns
        }),
{
}

} // verus!
