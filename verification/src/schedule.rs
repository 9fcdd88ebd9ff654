//! Cron expressions, as the `cron` crate reads them.
//!
//! Nothing in this file is proved. Each function hands an expression to the
//! `cron` crate, and its contract gives the answer a name.

use chrono::{FixedOffset, TimeZone};
use cron::Schedule;
use std::str::FromStr;
use vstd::prelude::*;

verus! {

/// The latest instant, in seconds since the Unix epoch, that a schedule is
/// asked about: the last second of the year 9999.
pub const MAX_INSTANT: i64 = 253_402_300_799;

/// Whether `expr` parses as a cron expression.
pub uninterp spec fn cron_expression_valid(expr: Seq<char>) -> bool;

/// The first instant after `after` at which the schedule `expr` fires, read
/// on a clock that is `offset` seconds ahead of UTC; instants are seconds
/// since the Unix epoch. `None` where the schedule never fires again, where
/// `expr` does not parse, and where no clock has that offset.
pub uninterp spec fn cron_next(expr: Seq<char>, after: i64, offset: i32) -> Option<i64>;

/// `Schedule::from_str`: whether `expr` parses.
#[verifier::external_body]
pub(crate) fn is_cron_expression(expr: &str) -> (r: bool)
    ensures
        r == cron_expression_valid(expr@),
{
    Schedule::from_str(expr).is_ok()
}

/// `Schedule::after` on the schedule that `expr` parses to, and the first
/// instant it yields. The schedule's fields are read in the time zone
/// `FixedOffset::east_opt(offset)`, so the answer is the same on every
/// machine.
#[verifier::external_body]
pub(crate) fn next_fire(expr: &str, after: i64, offset: i32) -> (r: Option<i64>)
    requires
        0 <= after <= MAX_INSTANT,
    ensures
        r == cron_next(expr@, after, offset),
{
    let schedule = Schedule::from_str(expr).ok()?;
    let zone = FixedOffset::east_opt(offset)?;
    let start = zone.timestamp_opt(after, 0).single()?;
    let next = schedule.after(&start).next()?;
    Some(next.timestamp())
}

} // verus!
