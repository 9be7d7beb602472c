//! Wall-clock timestamps in the `HH:MM:SS` form that chat lines carry.

use vstd::prelude::*;

use crate::text::{push_char, push_str, two_digit_string, two_digits};

verus! {

/// The time of day, in UTC, `secs` seconds after the Unix epoch, as `HH:MM:SS`.
pub open spec fn hms(secs: nat) -> Seq<char> {
    let day = secs % 86400;
    two_digits(day / 3600) + seq![':'] + two_digits((day % 3600) / 60) + seq![':'] + two_digits(
        day % 60,
    )
}

/// The time of day `secs` seconds after the Unix epoch, as `HH:MM:SS`.
pub fn hms_string(secs: u64) -> (r: String)
    ensures
        r@ == hms(secs as nat),
{
    let day = secs % 86_400;
    let hour = day / 3_600;
    let minute = (day % 3_600) / 60;
    let second = day % 60;
    let mut r = two_digit_string(hour);
    push_char(&mut r, ':');
    let m = two_digit_string(minute);
    push_str(&mut r, m.as_str());
    push_char(&mut r, ':');
    let s = two_digit_string(second);
    push_str(&mut r, s.as_str());
    r
}

#[verifier::external_type_specification]
#[verifier::external_body]
pub struct ExSystemTime(std::time::SystemTime);

/// The current time of the system clock. Trusted: std's `SystemTime::now`; nothing is
/// promised of the value, which depends on the machine's clock.
#[verifier::external_body]
fn system_now() -> std::time::SystemTime {
    std::time::SystemTime::now()
}

/// How long after the Unix epoch `t` is, or `None` where `t` stands before it. Trusted:
/// std's `SystemTime::duration_since` with `UNIX_EPOCH`, its error turned into `None`;
/// nothing is promised of the value.
#[verifier::external_body]
fn since_epoch(t: &std::time::SystemTime) -> Option<std::time::Duration> {
    t.duration_since(std::time::UNIX_EPOCH).ok()
}

/// The whole seconds of `d`. Trusted: std's `Duration::as_secs`; a duration is opaque here,
/// so nothing is stated of the value.
#[verifier::external_body]
fn whole_seconds(d: &std::time::Duration) -> u64 {
    d.as_secs()
}

/// The time of day `secs` seconds after the Unix epoch, as `HH:MM:SS`, or midnight where
/// the clock stood before the epoch (`None`).
pub fn hms_since_epoch(secs: Option<u64>) -> (r: String)
    ensures
        r@ == hms(
            match secs {
                Some(s) => s as nat,
                None => 0,
            },
        ),
{
    match secs {
        Some(s) => hms_string(s),
        None => hms_string(0),
    }
}

/// The current time of day (UTC) as `HH:MM:SS`.
pub fn now_hms() -> (r: String)
    ensures
        exists|secs: u64| r@ == hms(secs as nat),
{
    let secs = match since_epoch(&system_now()) {
        Some(d) => Some(whole_seconds(&d)),
        None => None,
    };
    let r = hms_since_epoch(secs);
    proof {
        let n: u64 = match secs {
            Some(s) => s,
            None => 0,
        };
        assert(r@ == hms(n as nat));
    }
    r
}

} // verus!
