//! The time of day, as it stands at the front of a log line.

use vstd::prelude::*;

verus! {

/// How a time is written: `2026-07-12 11:23:22 +08:00`.
pub const TIMESTAMP_FORMAT: &'static str = "%Y-%m-%d %H:%M:%S %:z";

/// Whether `s` holds two decimal digits at `i` that denote a number from `low` to
/// `high`.
pub open spec fn two_digits(s: Seq<char>, i: int, low: int, high: int) -> bool {
    &&& '0' <= s[i] <= '9'
    &&& '0' <= s[i + 1] <= '9'
    &&& low <= (s[i] as int - 48) * 10 + (s[i + 1] as int - 48) <= high
}

/// Whether `s` is made of decimal digits.
pub open spec fn all_digits(s: Seq<char>) -> bool {
    forall|i: int| 0 <= i < s.len() ==> '0' <= #[trigger] s[i] <= '9'
}

/// Whether `s` is a year: four digits, or a plus sign and five or six digits.
pub open spec fn is_year(s: Seq<char>) -> bool {
    ||| s.len() == 4 && all_digits(s)
    ||| 6 <= s.len() <= 7 && s[0] == '+' && all_digits(s.drop_first())
}

/// Whether `s` is a time as it is logged: year, month, day, hour, minute, second
/// and the offset from UTC.
pub open spec fn is_timestamp(s: Seq<char>) -> bool {
    let t = s.skip(s.len() - 22);
    &&& s.len() >= 26
    &&& is_year(s.take(s.len() - 22))
    &&& t[0] == '-' && two_digits(t, 1, 1, 12)
    &&& t[3] == '-' && two_digits(t, 4, 1, 31)
    &&& t[6] == ' ' && two_digits(t, 7, 0, 23)
    &&& t[9] == ':' && two_digits(t, 10, 0, 59)
    &&& t[12] == ':' && two_digits(t, 13, 0, 60)
    &&& t[15] == ' ' && (t[16] == '+' || t[16] == '-') && two_digits(t, 17, 0, 24)
    &&& t[19] == ':' && two_digits(t, 20, 0, 59)
}

/// The current local time, from `chrono::Local::now` and `DateTime::format`. The
/// result is a time in the given format. Which time it is depends on the clock
/// and on the time zone of the device, and is not stated. chrono panics where the
/// clock stands before 1970, where the time zone is 24 hours or more from UTC, and
/// where the clock stands so far out of range that the time zone has no offset for
/// it; no precondition can speak of the clock or of the time zone.
#[verifier::external_body]
fn local_time(format: &str) -> (r: String)
    requires
        format@ == TIMESTAMP_FORMAT@,
    ensures
        is_timestamp(r@),
{
    chrono::Local::now().format(format).to_string()
}

/// The current local time, as it stands at the front of a log line.
pub fn timestamp() -> (r: String)
    ensures
        is_timestamp(r@),
{
    local_time(TIMESTAMP_FORMAT)
}

/// A time of a year with four digits has 26 characters, laid out as
/// `2026-07-12 11:23:22 +08:00`: digits but for the signs between them, and each
/// number in its range. With more digits to the year, all else stands the same
/// from the end.
pub proof fn law_timestamp_layout(s: Seq<char>)
    requires
        is_timestamp(s),
    ensures
        s.len() >= 26,
        ({
            let e = s.len() - 22;
            &&& s[e] == '-' && s[e + 3] == '-'
            &&& s[e + 6] == ' ' && s[e + 15] == ' '
            &&& s[e + 9] == ':' && s[e + 12] == ':' && s[e + 19] == ':'
            &&& s[e + 16] == '+' || s[e + 16] == '-'
            &&& forall|i: int|
                e < i < s.len() && i != e + 3 && i != e + 6 && i != e + 9 && i != e + 12 && i != e
                    + 15 && i != e + 16 && i != e + 19 ==> '0' <= #[trigger] s[i] <= '9'
            &&& forall|i: int| 1 <= i < e ==> '0' <= #[trigger] s[i] <= '9'
            &&& '0' <= s[0] <= '9' <==> e == 4
            &&& e > 4 ==> s[0] == '+'
        }),
{
    let e = s.len() - 22;
    let t = s.skip(e);
    let y = s.take(e);
    assert(forall|i: int| 0 <= i < 22 ==> #[trigger] t[i] == s[e + i]);
    assert forall|i: int|
        e < i < s.len() && i != e + 3 && i != e + 6 && i != e + 9 && i != e + 12 && i != e + 15 && i
            != e + 16 && i != e + 19 implies '0' <= #[trigger] s[i] <= '9' by {
        assert(s[i] == t[i - e]);
    }
    assert forall|i: int| 1 <= i < e implies '0' <= #[trigger] s[i] <= '9' by {
        if e == 4 {
            assert(y[i] == s[i]);
        } else {
            assert(y.drop_first()[i - 1] == s[i]);
        }
    }
    assert(y[0] == s[0]);
}

} // verus!
