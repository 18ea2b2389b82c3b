//! The battery's charge level and charging state, as the kernel reports them.
//!
//! - `Charging`: the battery is receiving current.
//! - `Discharging`: the battery is powering the device.
//! - `Not charging`: bypass mode. The device runs on charger power and the
//!   battery is idle, so its level stays where it is.
//! - `Full`: the battery is full and the driver has cut the charging path.
//! - `Unknown`: the driver could not tell, or wrote something else.

use vstd::prelude::*;

use crate::io_error::{IoError, IoErrorKind};
use crate::text::{
    chars_of, decimal, digit, digits_value, is_space, lemma_trim_around, same_text, trim, trimmed,
};

verus! {

/// Where the kernel reports the charge level.
pub const CAPACITY_PATH: &'static str = "/sys/class/power_supply/battery/capacity";

/// Where the kernel reports the charging state.
pub const STATUS_PATH: &'static str = "/sys/class/power_supply/battery/status";

/// The charging state.
#[derive(Debug, Clone, Copy, PartialEq, Eq, Structural)]
pub enum ChargeState {
    Charging,
    Discharging,
    Full,
    NotCharging,
    Unknown,
}

/// The state that the kernel's word stands for.
pub open spec fn state_of(word: Seq<char>) -> ChargeState {
    if word == "Charging"@ {
        ChargeState::Charging
    } else if word == "Discharging"@ {
        ChargeState::Discharging
    } else if word == "Full"@ {
        ChargeState::Full
    } else if word == "Not charging"@ {
        ChargeState::NotCharging
    } else {
        ChargeState::Unknown
    }
}

impl ChargeState {
    /// The state's name.
    pub open spec fn name(self) -> Seq<char> {
        match self {
            ChargeState::Charging => "Charging"@,
            ChargeState::Discharging => "Discharging"@,
            ChargeState::Full => "Full"@,
            ChargeState::NotCharging => "NotCharging"@,
            ChargeState::Unknown => "Unknown"@,
        }
    }

    /// Whether current is flowing into the battery. A full battery and one in
    /// bypass mode receive none.
    pub fn is_charging(&self) -> (r: bool)
        ensures
            r == (*self == ChargeState::Charging),
    {
        match self {
            ChargeState::Charging => true,
            _ => false,
        }
    }

    /// The state's name as text.
    pub fn to_text(&self) -> (r: String)
        ensures
            r@ == self.name(),
    {
        let name: &str = match self {
            ChargeState::Charging => "Charging",
            ChargeState::Discharging => "Discharging",
            ChargeState::Full => "Full",
            ChargeState::NotCharging => "NotCharging",
            ChargeState::Unknown => "Unknown",
        };
        name.to_owned()
    }
}

/// Why a text is no number from 0 to 255.
#[derive(Debug, Clone, Copy, PartialEq, Eq, Structural)]
pub enum NumberFault {
    Empty,
    InvalidDigit,
    TooLarge,
}

impl NumberFault {
    /// The fault in words.
    pub open spec fn words(self) -> Seq<char> {
        match self {
            NumberFault::Empty => "cannot parse integer from empty string"@,
            NumberFault::InvalidDigit => "invalid digit found in string"@,
            NumberFault::TooLarge => "number too large to fit in target type"@,
        }
    }

    /// The fault in words, as text.
    pub fn to_text(&self) -> (r: String)
        ensures
            r@ == self.words(),
    {
        let words: &str = match self {
            NumberFault::Empty => "cannot parse integer from empty string",
            NumberFault::InvalidDigit => "invalid digit found in string",
            NumberFault::TooLarge => "number too large to fit in target type",
        };
        words.to_owned()
    }
}

/// Whether `c` is a decimal digit.
pub open spec fn is_digit(c: char) -> bool {
    '0' <= c <= '9'
}

/// The number whose digits are those of `acc` followed by `s`. The first
/// character that is no digit, or that takes the number past 255, is the fault.
pub open spec fn read_digits(acc: nat, s: Seq<char>) -> Result<nat, NumberFault>
    decreases s.len(),
{
    if s.len() == 0 {
        Ok(acc)
    } else if !is_digit(s[0]) {
        Err(NumberFault::InvalidDigit)
    } else {
        let next = (acc * 10 + (s[0] as int - 48)) as nat;
        if next > 255 {
            Err(NumberFault::TooLarge)
        } else {
            read_digits(next, s.drop_first())
        }
    }
}

/// The number from 0 to 255 that `s` denotes: one or more decimal digits, with a
/// plus sign in front or without.
pub open spec fn number(s: Seq<char>) -> Result<nat, NumberFault> {
    if s.len() == 0 {
        Err(NumberFault::Empty)
    } else if s.len() > 1 && s[0] == '+' {
        read_digits(0, s.drop_first())
    } else {
        read_digits(0, s)
    }
}

/// Reads a number from 0 to 255.
pub fn parse_number(s: &str) -> (r: Result<u8, NumberFault>)
    ensures
        match r {
            Ok(n) => number(s@) == Ok::<nat, NumberFault>(n as nat),
            Err(fault) => number(s@) == Err::<nat, NumberFault>(fault),
        },
{
    let cs = chars_of(s);
    if cs.len() == 0 {
        return Err(NumberFault::Empty);
    }
    let mut i: usize = if cs.len() > 1 && cs[0] == '+' {
        1
    } else {
        0
    };
    let mut acc: u8 = 0;
    proof {
        assert(cs@.skip(0) =~= cs@);
        assert(cs@.skip(1) =~= cs@.drop_first());
    }
    while i < cs.len()
        invariant
            i <= cs@.len(),
            cs@ == s@,
            number(s@) == read_digits(acc as nat, cs@.skip(i as int)),
        decreases cs@.len() - i,
    {
        let c: char = cs[i];
        proof {
            assert(cs@.skip(i as int)[0] == c);
            assert(cs@.skip(i as int).drop_first() =~= cs@.skip(i + 1));
        }
        if !('0' <= c && c <= '9') {
            return Err(NumberFault::InvalidDigit);
        }
        let next: u32 = acc as u32 * 10 + (c as u32 - 48);
        if next > 255 {
            return Err(NumberFault::TooLarge);
        }
        acc = next as u8;
        i = i + 1;
    }
    Ok(acc)
}

/// Takes what was read from the capacity file: a failed read is handed on, and a
/// content that is no number from 0 to 255, white space aside, is invalid data.
pub fn read_capacity(content: Result<String, IoError>) -> (r: Result<u8, IoError>)
    ensures
        match content {
            Err(e) => r == Err::<u8, IoError>(e),
            Ok(text) => match number(trimmed(text@)) {
                Ok(n) => r matches Ok(v) && v == n,
                Err(fault) => r matches Err(e) && e.kind == IoErrorKind::InvalidData
                    && e.code is None && e.message@ == fault.words(),
            },
        },
{
    match content {
        Err(e) => Err(e),
        Ok(text) => match parse_number(trim(text.as_str()).as_str()) {
            Ok(n) => Ok(n),
            Err(fault) => Err(
                IoError { kind: IoErrorKind::InvalidData, code: None, message: fault.to_text() },
            ),
        },
    }
}

/// Takes what was read from the status file: a failed read is handed on, and a
/// content that is none of the known words, white space aside, is `Unknown`.
pub fn read_charge_state(content: Result<String, IoError>) -> (r: Result<ChargeState, IoError>)
    ensures
        match content {
            Err(e) => r == Err::<ChargeState, IoError>(e),
            Ok(text) => r == Ok::<ChargeState, IoError>(state_of(trimmed(text@))),
        },
{
    match content {
        Err(e) => Err(e),
        Ok(text) => {
            let word = trim(text.as_str());
            let state = if same_text(word.as_str(), "Charging") {
                ChargeState::Charging
            } else if same_text(word.as_str(), "Discharging") {
                ChargeState::Discharging
            } else if same_text(word.as_str(), "Full") {
                ChargeState::Full
            } else if same_text(word.as_str(), "Not charging") {
                ChargeState::NotCharging
            } else {
                ChargeState::Unknown
            };
            Ok(state)
        },
    }
}

/// Reading a run of digits and then more is reading all of them.
proof fn lemma_read_digits_concat(acc: nat, a: Seq<char>, b: Seq<char>)
    requires
        read_digits(acc, a) is Ok,
    ensures
        read_digits(acc, a + b) == read_digits(read_digits(acc, a)->Ok_0, b),
    decreases a.len(),
{
    if a.len() == 0 {
        assert(a + b =~= b);
    } else {
        let next = (acc * 10 + (a[0] as int - 48)) as nat;
        assert((a + b).drop_first() =~= a.drop_first() + b);
        lemma_read_digits_concat(next, a.drop_first(), b);
    }
}

/// The digits of a number denote it.
proof fn lemma_number_of_decimal(n: nat)
    requires
        n <= 255,
    ensures
        read_digits(0, decimal(n)) == Ok::<nat, NumberFault>(n),
        is_digit(decimal(n)[0]),
        is_digit(decimal(n).last()),
    decreases n,
{
    let last = seq![digit(n % 10)];
    if n < 10 {
        assert(read_digits(0, decimal(n)) == read_digits(n, decimal(n).drop_first()));
    } else {
        lemma_number_of_decimal(n / 10);
        assert(decimal(n) =~= decimal(n / 10) + last);
        lemma_read_digits_concat(0, decimal(n / 10), last);
        assert(read_digits(n / 10, last) == read_digits(n, last.drop_first()));
    }
}

/// A charge level that was written in digits is read back, whatever white space
/// stands around it.
pub proof fn law_capacity_reads_back(n: nat, before: Seq<char>, after: Seq<char>)
    requires
        n <= 255,
        forall|i: int| 0 <= i < before.len() ==> is_space(#[trigger] before[i]),
        forall|i: int| 0 <= i < after.len() ==> is_space(#[trigger] after[i]),
    ensures
        number(trimmed(before + decimal(n) + after)) == Ok::<nat, NumberFault>(n),
{
    lemma_number_of_decimal(n);
    lemma_trim_around(before, decimal(n), after);
}

/// Each of the kernel's words is read as its own state, whatever white space
/// stands around it.
pub proof fn law_words_read_as_states(before: Seq<char>, after: Seq<char>)
    requires
        forall|i: int| 0 <= i < before.len() ==> is_space(#[trigger] before[i]),
        forall|i: int| 0 <= i < after.len() ==> is_space(#[trigger] after[i]),
    ensures
        state_of(trimmed(before + "Charging"@ + after)) == ChargeState::Charging,
        state_of(trimmed(before + "Discharging"@ + after)) == ChargeState::Discharging,
        state_of(trimmed(before + "Full"@ + after)) == ChargeState::Full,
        state_of(trimmed(before + "Not charging"@ + after)) == ChargeState::NotCharging,
        state_of(trimmed(before + "Unknown"@ + after)) == ChargeState::Unknown,
{
    reveal_strlit("Charging");
    reveal_strlit("Discharging");
    reveal_strlit("Full");
    reveal_strlit("Not charging");
    reveal_strlit("Unknown");
    lemma_trim_around(before, "Charging"@, after);
    lemma_trim_around(before, "Discharging"@, after);
    lemma_trim_around(before, "Full"@, after);
    lemma_trim_around(before, "Not charging"@, after);
    lemma_trim_around(before, "Unknown"@, after);
    assert("Full"@[0] == 'F');
    assert("Charging"@[0] == 'C');
    assert("Discharging"@[0] == 'D');
    assert("Not charging"@[0] == 'N');
    assert("Unknown"@[0] == 'U');
}

/// Reading digits takes each of them, until the number is too large.
proof fn lemma_read_digits(ds: Seq<char>, rest: Seq<char>)
    requires
        forall|i: int| 0 <= i < ds.len() ==> '0' <= #[trigger] ds[i] <= '9',
    ensures
        digits_value(ds) >= 0,
        digits_value(ds) <= 255 ==> read_digits(0, ds + rest) == read_digits(
            digits_value(ds) as nat,
            rest,
        ),
        digits_value(ds) > 255 ==> read_digits(0, ds + rest) == Err::<nat, NumberFault>(
            NumberFault::TooLarge,
        ),
    decreases ds.len(),
{
    if ds.len() == 0 {
        assert(ds + rest =~= rest);
    } else {
        let front = ds.drop_last();
        let c = ds.last();
        let tail = seq![c] + rest;
        assert(ds[ds.len() - 1] == c);
        assert forall|i: int| 0 <= i < front.len() implies '0' <= #[trigger] front[i] <= '9' by {
            assert(front[i] == ds[i]);
        }
        lemma_read_digits(front, tail);
        assert(front + tail =~= ds + rest);
        assert(tail.drop_first() =~= rest);
        assert(tail[0] == c);
    }
}

/// A run of digits denotes its value, as long as that is at most 255; a larger one
/// is too large. A plus sign in front makes no difference.
pub proof fn law_number_of_digits(ds: Seq<char>)
    requires
        ds.len() > 0,
        forall|i: int| 0 <= i < ds.len() ==> '0' <= #[trigger] ds[i] <= '9',
    ensures
        digits_value(ds) <= 255 ==> number(ds) == Ok::<nat, NumberFault>(digits_value(ds) as nat),
        digits_value(ds) > 255 ==> number(ds) == Err::<nat, NumberFault>(NumberFault::TooLarge),
        number(seq!['+'] + ds) == number(ds),
{
    let none: Seq<char> = seq![];
    lemma_read_digits(ds, none);
    assert(ds + none =~= ds);
    assert('0' <= ds[0]);
    assert((seq!['+'] + ds).drop_first() =~= ds);
}

/// The first character that is no digit is a fault, unless the digits before it
/// are too large already. Only a plus sign with something behind it may stand in
/// front, and an empty text is a fault of its own.
pub proof fn law_number_faults(ds: Seq<char>, c: char, rest: Seq<char>)
    requires
        forall|i: int| 0 <= i < ds.len() ==> '0' <= #[trigger] ds[i] <= '9',
        !('0' <= c <= '9'),
    ensures
        number(seq![]) == Err::<nat, NumberFault>(NumberFault::Empty),
        ({
            let fault = if digits_value(ds) <= 255 {
                NumberFault::InvalidDigit
            } else {
                NumberFault::TooLarge
            };
            &&& ds.len() > 0 || c != '+' || rest.len() == 0 ==> number(ds + seq![c] + rest) == Err::<
                nat,
                NumberFault,
            >(fault)
            &&& number(seq!['+'] + (ds + seq![c] + rest)) == Err::<nat, NumberFault>(fault)
        }),
{
    let all = ds + seq![c] + rest;
    lemma_read_digits(ds, seq![c] + rest);
    assert(ds + (seq![c] + rest) =~= all);
    assert((seq![c] + rest)[0] == c);
    assert((seq!['+'] + all).drop_first() =~= all);
    if ds.len() > 0 {
        assert('0' <= ds[0]);
        assert(all[0] == ds[0]);
    } else {
        assert(all[0] == c);
    }
}

/// Each state has one word, written exactly so; every other word is unknown.
pub proof fn law_states_of_words(word: Seq<char>)
    ensures
        state_of(word) == ChargeState::Charging <==> word == "Charging"@,
        state_of(word) == ChargeState::Discharging <==> word == "Discharging"@,
        state_of(word) == ChargeState::Full <==> word == "Full"@,
        state_of(word) == ChargeState::NotCharging <==> word == "Not charging"@,
{
    reveal_strlit("Charging");
    reveal_strlit("Discharging");
    reveal_strlit("Full");
    reveal_strlit("Not charging");
    assert("Full"@[0] == 'F');
    assert("Charging"@[0] == 'C');
    assert("Discharging"@[0] == 'D');
    assert("Not charging"@[0] == 'N');
}

/// Each state shows as its own name.
pub proof fn law_state_names(state: ChargeState)
    ensures
        state == ChargeState::Charging ==> state.name() == "Charging"@,
        state == ChargeState::Discharging ==> state.name() == "Discharging"@,
        state == ChargeState::Full ==> state.name() == "Full"@,
        state == ChargeState::NotCharging ==> state.name() == "NotCharging"@,
        state == ChargeState::Unknown ==> state.name() == "Unknown"@,
{
}

/// Each fault is told in its own words.
pub proof fn law_fault_words(fault: NumberFault)
    ensures
        fault == NumberFault::Empty ==> fault.words() == "cannot parse integer from empty string"@,
        fault == NumberFault::InvalidDigit ==> fault.words() == "invalid digit found in string"@,
        fault == NumberFault::TooLarge ==> fault.words()
            == "number too large to fit in target type"@,
{
}

} // verus!
