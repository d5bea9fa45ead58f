//! The wall clock: the seconds since 1970 as the system tells them, and
//! their RFC 2822 text as chrono writes it. Neither reading can panic: a
//! clock before 1970, or a time that chrono cannot represent, gives `None`.
use std::time::{Duration, SystemTime};
use vstd::prelude::*;

verus! {

#[verifier::external_type_specification]
#[verifier::external_body]
pub struct ExSystemTime(std::time::SystemTime);

/// `SystemTime::now`: the current system time. It depends on the clock, so
/// nothing is stated of it.
#[verifier::external_body]
fn system_now() -> (res: SystemTime) {
    SystemTime::now()
}

/// `SystemTime::duration_since(UNIX_EPOCH)`: the time elapsed since
/// 1970-01-01 00:00:00 UTC, or `None` (its `Err`) when `t` lies before it.
/// Which of the two comes back depends on the opaque `t`, so nothing more
/// is stated.
#[verifier::external_body]
fn since_unix_epoch(t: &SystemTime) -> (res: Option<Duration>) {
    match t.duration_since(std::time::UNIX_EPOCH) {
        Ok(d) => Some(d),
        Err(_) => None,
    }
}

/// `Duration::as_secs`: the whole seconds of `d`. `Duration` is opaque here,
/// so nothing is stated of the result.
#[verifier::external_body]
fn whole_seconds(d: &Duration) -> (res: u64) {
    d.as_secs()
}

/// The text that chrono writes for `secs` seconds after 1970 (see
/// `rfc2822_at_secs`).
pub uninterp spec fn rfc2822_at(secs: i64) -> Option<Seq<char>>;

/// `chrono::DateTime::from_timestamp(secs, 0)`, written with
/// `format("%a, %-d %b %Y %H:%M:%S +0000")`: the UTC date and time `secs`
/// seconds after 1970 in the RFC 2822 layout (such as `Tue, 1 Jul 2003
/// 10:52:37 +0000`), or `None` when chrono has no date for it. Unlike
/// `to_rfc2822`, this formatting does not panic for years beyond 9999.
/// chrono's `DateTime` cannot be carried through verified code (its type
/// parameter is bound by chrono's `TimeZone` trait), so the reading and the
/// writing are one trusted item. The result depends on `secs` alone.
#[verifier::external_body]
fn rfc2822_at_secs(secs: i64) -> (res: Option<String>)
    ensures
        match res {
            Some(s) => rfc2822_at(secs) == Some(s@),
            None => rfc2822_at(secs) is None,
        },
{
    match chrono::DateTime::from_timestamp(secs, 0) {
        Some(t) => Some(t.format("%a, %-d %b %Y %H:%M:%S +0000").to_string()),
        None => None,
    }
}

/// A count of whole seconds as an `i64`, or `None` when it does not fit.
pub fn seconds_as_i64(s: u64) -> (res: Option<i64>)
    ensures
        res == (if s <= 0x7fff_ffff_ffff_ffffu64 {
            Some(s as i64)
        } else {
            None::<i64>
        }),
{
    if s <= 0x7fff_ffff_ffff_ffffu64 {
        Some(s as i64)
    } else {
        None
    }
}

/// The whole seconds since 1970 now, or `None` when the clock lies before
/// 1970 or the count does not fit in an `i64` (see `seconds_as_i64`).
pub fn unix_seconds() -> (res: Option<i64>)
    ensures
        res matches Some(s) ==> s >= 0,
{
    match since_unix_epoch(&system_now()) {
        Some(d) => seconds_as_i64(whole_seconds(&d)),
        None => None,
    }
}

/// The RFC 2822 text of a reading of the clock: what chrono writes for
/// `secs`, or empty when there is no reading or chrono has no date for it.
pub open spec fn spec_date_at(secs: Option<i64>) -> Seq<char> {
    match secs {
        Some(s) => match rfc2822_at(s) {
            Some(t) => t,
            None => Seq::empty(),
        },
        None => Seq::empty(),
    }
}

/// The RFC 2822 text of a reading of the clock (see `spec_date_at`).
pub fn date_at(secs: Option<i64>) -> (res: String)
    ensures
        res@ == spec_date_at(secs),
{
    match secs {
        Some(s) => match rfc2822_at_secs(s) {
            Some(text) => text,
            None => String::new(),
        },
        None => String::new(),
    }
}

/// The current date and time in RFC 2822 text: `date_at` of the clock's
/// reading, empty when the clock cannot be read or chrono has no date for it.
pub fn current_date() -> (res: String)
    ensures
        exists|secs: Option<i64>|
            (secs matches Some(s) ==> s >= 0) && res@ == #[trigger] spec_date_at(secs),
{
    let now = unix_seconds();
    let res = date_at(now);
    assert(now matches Some(s) ==> s >= 0);
    res
}

} // verus!
