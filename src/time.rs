//! Local wall-clock timestamps and how they are written in logs and pages.
use vstd::prelude::*;
use chrono::{Datelike, Timelike};
use crate::text::{nat_text, padded_text, pow10, push_char, push_nat, push_padded};

verus! {

/// A local date and time, with the instant it denotes in seconds since the
/// Unix epoch.
#[derive(Clone, Copy, Debug, PartialEq, Eq, Structural)]
pub struct Timestamp {
    pub epoch_secs: i64,
    pub year: i32,
    pub month: u8,
    pub day: u8,
    pub hour: u8,
    pub minute: u8,
    pub second: u8,
}

/// Seconds without a write after which a location counts as missing.
pub const STALE_AFTER_SECS: i64 = 600;

impl Timestamp {
    pub open spec fn wf(&self) -> bool {
        &&& 1 <= self.month <= 12
        &&& 1 <= self.day <= 31
        &&& self.hour < 24
        &&& self.minute < 60
        &&& self.second < 60
    }
}

/// Relies on chrono's `Local::now` with its `timestamp` and calendar
/// accessors, which give a month from 1 to 12, a day from 1 to 31, an hour
/// from 0 to 23, and a minute and a second from 0 to 59.
#[verifier::external_body]
pub(crate) fn local_now() -> (r: Timestamp)
    ensures
        r.wf(),
{
    let now = chrono::Local::now();
    Timestamp {
        epoch_secs: now.timestamp(),
        year: now.year(),
        month: now.month() as u8,
        day: now.day() as u8,
        hour: now.hour() as u8,
        minute: now.minute() as u8,
        second: now.second() as u8,
    }
}

/// The hour on a 12-hour clock, from 1 to 12.
pub open spec fn hour12(h: nat) -> nat {
    if h % 12 == 0 {
        12
    } else {
        h % 12
    }
}

pub open spec fn meridiem(h: nat) -> Seq<char> {
    if h >= 12 {
        seq!['P', 'M']
    } else {
        seq!['A', 'M']
    }
}

/// A year with at least four digits; a sign before years outside 0 to 9999.
pub open spec fn year_text(y: int) -> Seq<char> {
    if 0 <= y <= 9999 {
        padded_text(y as nat, 4)
    } else if y > 9999 {
        seq!['+'] + nat_text(y as nat)
    } else {
        seq!['-'] + padded_text((-y) as nat, 4)
    }
}

/// An integer in its shortest form, with `-` when negative.
pub open spec fn int_text(y: int) -> Seq<char> {
    if y < 0 {
        seq!['-'] + nat_text((-y) as nat)
    } else {
        nat_text(y as nat)
    }
}

/// `MM/DD/YYYY`.
pub open spec fn date_text_spec(t: Timestamp) -> Seq<char> {
    padded_text(t.month as nat, 2) + seq!['/'] + padded_text(t.day as nat, 2) + seq!['/']
        + year_text(t.year as int)
}

/// `hh:mm:ss AM` or `hh:mm:ss PM`.
pub open spec fn time_text_spec(t: Timestamp) -> Seq<char> {
    padded_text(hour12(t.hour as nat), 2) + seq![':'] + padded_text(t.minute as nat, 2) + seq![
        ':',
    ] + padded_text(t.second as nat, 2) + seq![' '] + meridiem(t.hour as nat)
}

/// `M/D/Y h:mm:ss AM`, without padding of month, day, year and hour.
pub open spec fn short_text_spec(t: Timestamp) -> Seq<char> {
    nat_text(t.month as nat) + seq!['/'] + nat_text(t.day as nat) + seq!['/'] + int_text(
        t.year as int,
    ) + seq![' '] + nat_text(hour12(t.hour as nat)) + seq![':'] + padded_text(t.minute as nat, 2)
        + seq![':'] + padded_text(t.second as nat, 2) + seq![' '] + meridiem(t.hour as nat)
}

/// Whether a location last written at `last` (never, if `None`) counts as
/// missing at `now`: never written, or not for more than ten minutes.
pub open spec fn is_stale_spec(last: Option<Timestamp>, now: Timestamp) -> bool {
    match last {
        None => true,
        Some(t) => now.epoch_secs - t.epoch_secs > STALE_AFTER_SECS,
    }
}

pub fn is_stale(last: Option<Timestamp>, now: &Timestamp) -> (r: bool)
    ensures
        r == is_stale_spec(last, *now),
{
    match last {
        None => true,
        Some(t) => (now.epoch_secs as i128) - (t.epoch_secs as i128) > STALE_AFTER_SECS as i128,
    }
}

fn push_two(out: &mut String, v: u8)
    requires
        v < 100,
    ensures
        final(out)@ == old(out)@ + padded_text(v as nat, 2),
{
    proof {
        assert(pow10(2) == 100) by {
            reveal_with_fuel(pow10, 3);
        }
    }
    push_padded(out, v as u64, 2);
}

fn push_meridiem(out: &mut String, h: u8)
    ensures
        final(out)@ == old(out)@ + meridiem(h as nat),
{
    if h >= 12 {
        push_char(out, 'P');
    } else {
        push_char(out, 'A');
    }
    push_char(out, 'M');
    assert(final(out)@ =~= old(out)@ + meridiem(h as nat));
}

fn push_year(out: &mut String, y: i32)
    ensures
        final(out)@ == old(out)@ + year_text(y as int),
{
    proof {
        assert(pow10(4) == 10000) by {
            reveal_with_fuel(pow10, 5);
        }
    }
    if 0 <= y && y <= 9999 {
        push_padded(out, y as u64, 4);
    } else if y > 9999 {
        push_char(out, '+');
        push_nat(out, y as u64);
    } else {
        push_char(out, '-');
        let a = (-(y as i64)) as u64;
        if a < 10000 {
            push_padded(out, a, 4);
        } else {
            push_nat(out, a);
            assert(padded_text(a as nat, 4) == nat_text(a as nat)) by {
                crate::text::lemma_nat_text(a as nat);
                if nat_text(a as nat).len() < 4 {
                    crate::text::lemma_pow10_monotone(nat_text(a as nat).len() as nat, 4);
                }
            }
        }
    }
    assert(final(out)@ =~= old(out)@ + year_text(y as int));
}

impl Timestamp {
    /// The date as `MM/DD/YYYY`.
    pub fn date_text(&self) -> (r: String)
        requires
            self.wf(),
        ensures
            r@ == date_text_spec(*self),
    {
        let mut out = String::new();
        push_two(&mut out, self.month);
        push_char(&mut out, '/');
        push_two(&mut out, self.day);
        push_char(&mut out, '/');
        push_year(&mut out, self.year);
        assert(out@ =~= date_text_spec(*self));
        out
    }

    /// The time of day as `hh:mm:ss AM` or `hh:mm:ss PM`.
    pub fn time_text(&self) -> (r: String)
        requires
            self.wf(),
        ensures
            r@ == time_text_spec(*self),
    {
        let mut out = String::new();
        let h = if self.hour % 12 == 0 {
            12
        } else {
            self.hour % 12
        };
        push_two(&mut out, h);
        push_char(&mut out, ':');
        push_two(&mut out, self.minute);
        push_char(&mut out, ':');
        push_two(&mut out, self.second);
        push_char(&mut out, ' ');
        push_meridiem(&mut out, self.hour);
        assert(out@ =~= time_text_spec(*self));
        out
    }

    /// Date and time as `M/D/Y h:mm:ss AM`, the form of the serial
    /// collector's log.
    pub fn short_text(&self) -> (r: String)
        requires
            self.wf(),
        ensures
            r@ == short_text_spec(*self),
    {
        let mut out = String::new();
        push_nat(&mut out, self.month as u64);
        push_char(&mut out, '/');
        push_nat(&mut out, self.day as u64);
        push_char(&mut out, '/');
        if self.year < 0 {
            push_char(&mut out, '-');
            push_nat(&mut out, (-(self.year as i64)) as u64);
        } else {
            push_nat(&mut out, self.year as u64);
        }
        push_char(&mut out, ' ');
        let h = if self.hour % 12 == 0 {
            12
        } else {
            self.hour % 12
        };
        push_nat(&mut out, h as u64);
        push_char(&mut out, ':');
        push_two(&mut out, self.minute);
        push_char(&mut out, ':');
        push_two(&mut out, self.second);
        push_char(&mut out, ' ');
        push_meridiem(&mut out, self.hour);
        assert(out@ =~= short_text_spec(*self));
        out
    }
}

} // verus!
