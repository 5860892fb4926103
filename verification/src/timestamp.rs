//! Pure value conversion from an elapsed duration to the
//! hours/minutes/seconds/milliseconds breakdown used for display, and the
//! digit formatting of that breakdown.

use vstd::prelude::*;

use crate::interval::{Interval, NANOS_PER_SEC};

use std::time::Duration;

verus! {

/// The ASCII digit zero.
pub const ASCII_ZERO: u8 = 48;

/// The ASCII colon that separates the fields of a displayed time.
pub const ASCII_COLON: u8 = 58;

/// An elapsed duration as the pair a duration type stores: whole seconds
/// plus a sub-second remainder in nanoseconds.
#[derive(Clone, Copy, Debug, PartialEq, Eq, Structural)]
pub struct Timestamp {
    pub seconds: u64,
    pub subsecs: u32,
}

/// An elapsed duration broken down for display.
#[derive(Clone, Copy, Debug, PartialEq, Eq, Structural)]
pub struct ExpandedTimestamp {
    pub hours: u64,
    pub minutes: u64,
    pub seconds: u64,
    pub milliseconds: u32,
}

impl Timestamp {
    /// Well-formed: the nanosecond part is a sub-second remainder.
    pub open spec fn wf(self) -> bool {
        self.subsecs < NANOS_PER_SEC
    }

    /// The elapsed time this timestamp stands for, in nanoseconds.
    pub open spec fn interval_view(self) -> nat {
        self.seconds as nat * (NANOS_PER_SEC as nat) + self.subsecs as nat
    }

    /// The timestamp for an elapsed interval.
    pub fn from_interval(iv: &Interval) -> (r: Timestamp)
        requires
            iv.wf(),
        ensures
            r.wf(),
            r.seconds == iv.secs,
            r.subsecs == iv.nanos,
    {
        Timestamp { seconds: iv.secs, subsecs: iv.nanos }
    }

    /// The timestamp for a duration of the standard library.
    pub fn from_duration(d: &Duration) -> (r: Timestamp)
        ensures
            r.wf(),
    {
        Timestamp { seconds: d.as_secs(), subsecs: d.subsec_nanos() }
    }

    /// The same elapsed time as an interval of this library.
    pub fn interval(&self) -> (r: Interval)
        requires
            self.wf(),
        ensures
            r.wf(),
            r.secs == self.seconds,
            r.nanos == self.subsecs,
    {
        Interval { secs: self.seconds, nanos: self.subsecs }
    }

    /// The same elapsed time as a duration of the standard library.
    pub fn duration(&self) -> Duration
        requires
            self.wf(),
    {
        Duration::new(self.seconds, self.subsecs)
    }

    /// The breakdown for display: whole hours, minutes and seconds of the
    /// minute, and whole milliseconds of the sub-second remainder.
    pub fn expanded(&self) -> (r: ExpandedTimestamp)
        requires
            self.wf(),
        ensures
            r.hours == self.seconds as nat / 3600,
            r.minutes == (self.seconds as nat / 60) % 60,
            r.seconds == self.seconds as nat % 60,
            r.milliseconds == self.subsecs as nat / 1_000_000,
            r.minutes < 60,
            r.seconds < 60,
            r.milliseconds < 1000,
    {
        let total_secs = self.seconds;
        let millis = self.subsecs / 1_000_000;
        let mins = total_secs / 60;
        let hours = mins / 60;
        let mins = mins % 60;
        let secs = total_secs % 60;
        proof {
            vstd::arithmetic::div_mod::lemma_div_denominator(total_secs as int, 60, 60);
        }
        ExpandedTimestamp { hours, minutes: mins, seconds: secs, milliseconds: millis }
    }
}

// ---------------------------------------------------------------------------
// Digit formatting
// ---------------------------------------------------------------------------

/// The decimal digits of `n`, most significant first, as ASCII bytes.
pub open spec fn dec_digits(n: nat) -> Seq<u8>
    decreases n,
{
    if n < 10 {
        seq![(ASCII_ZERO + n) as u8]
    } else {
        dec_digits(n / 10) + seq![(ASCII_ZERO + n % 10) as u8]
    }
}

/// The decimal digits of `n`, padded with zeros to at least two places.
pub open spec fn dec_digits_pad2(n: nat) -> Seq<u8> {
    if n < 10 {
        seq![ASCII_ZERO] + dec_digits(n)
    } else {
        dec_digits(n)
    }
}

/// The decimal digits of `n`, padded with zeros to at least three places.
pub open spec fn dec_digits_pad3(n: nat) -> Seq<u8> {
    if n < 10 {
        seq![ASCII_ZERO, ASCII_ZERO] + dec_digits(n)
    } else if n < 100 {
        seq![ASCII_ZERO] + dec_digits(n)
    } else {
        dec_digits(n)
    }
}

/// ASCII bytes read as the characters they stand for.
pub open spec fn ascii_chars(s: Seq<u8>) -> Seq<char> {
    s.map_values(|b: u8| b as char)
}

/// The bytes of the displayed time: zero-padded minutes and seconds, with
/// the hours in front only once there are any.
pub open spec fn simple_text_bytes(t: ExpandedTimestamp) -> Seq<u8> {
    if t.hours > 0 {
        dec_digits_pad2(t.hours as nat) + seq![ASCII_COLON] + dec_digits_pad2(t.minutes as nat)
            + seq![ASCII_COLON] + dec_digits_pad2(t.seconds as nat)
    } else {
        dec_digits_pad2(t.minutes as nat) + seq![ASCII_COLON] + dec_digits_pad2(t.seconds as nat)
    }
}

/// The bytes of the displayed milliseconds: three zero-padded places.
pub open spec fn millis_text_bytes(t: ExpandedTimestamp) -> Seq<u8> {
    dec_digits_pad3(t.milliseconds as nat)
}

/// Every byte a decimal rendering produces is an ASCII digit.
pub proof fn lemma_dec_digits_ascii(n: nat)
    ensures
        forall|i: int|
            0 <= i < dec_digits(n).len() ==> ASCII_ZERO <= #[trigger] dec_digits(n)[i]
                <= ASCII_ZERO + 9,
    decreases n,
{
    if n >= 10 {
        lemma_dec_digits_ascii(n / 10);
        assert forall|i: int|
            0 <= i < dec_digits(n).len() implies ASCII_ZERO <= #[trigger] dec_digits(n)[i]
            <= ASCII_ZERO + 9 by {
            if i < dec_digits(n / 10).len() {
                assert(dec_digits(n)[i] == dec_digits(n / 10)[i]);
            }
        }
    }
}

/// Append the decimal digits of `n`.
fn push_decimal(out: &mut Vec<u8>, n: u64)
    ensures
        final(out)@ == old(out)@ + dec_digits(n as nat),
    decreases n,
{
    if n >= 10 {
        push_decimal(out, n / 10);
        out.push(ASCII_ZERO + (n % 10) as u8);
        proof {
            assert(final(out)@ =~= old(out)@ + dec_digits(n as nat));
        }
    } else {
        out.push(ASCII_ZERO + n as u8);
        proof {
            assert(final(out)@ =~= old(out)@ + dec_digits(n as nat));
        }
    }
}

/// Append the decimal digits of `n`, zero-padded to at least two places.
fn push_decimal_pad2(out: &mut Vec<u8>, n: u64)
    ensures
        final(out)@ == old(out)@ + dec_digits_pad2(n as nat),
{
    if n < 10 {
        out.push(ASCII_ZERO);
    }
    push_decimal(out, n);
    proof {
        assert(final(out)@ =~= old(out)@ + dec_digits_pad2(n as nat));
    }
}

/// Append the decimal digits of `n`, zero-padded to at least three places.
fn push_decimal_pad3(out: &mut Vec<u8>, n: u64)
    ensures
        final(out)@ == old(out)@ + dec_digits_pad3(n as nat),
{
    if n < 10 {
        out.push(ASCII_ZERO);
        out.push(ASCII_ZERO);
    } else if n < 100 {
        out.push(ASCII_ZERO);
    }
    push_decimal(out, n);
    proof {
        assert(final(out)@ =~= old(out)@ + dec_digits_pad3(n as nat));
    }
}

/// Relies on String::from_utf8: bytes below 0x80 are valid UTF-8 and decode
/// one-for-one to the characters they stand for.
#[verifier::external_body]
fn ascii_to_string(v: Vec<u8>) -> (r: String)
    requires
        forall|i: int| 0 <= i < v@.len() ==> v@[i] < 0x80,
    ensures
        r@ == ascii_chars(v@),
{
    match String::from_utf8(v) {
        Ok(s) => s,
        Err(_) => String::new(),
    }
}

impl ExpandedTimestamp {
    /// The displayed time, `MM:SS` or `HH:MM:SS`.
    pub fn simple_text(&self) -> (r: String)
        ensures
            r@ == ascii_chars(simple_text_bytes(*self)),
    {
        let mut buf: Vec<u8> = Vec::new();
        if self.hours > 0 {
            push_decimal_pad2(&mut buf, self.hours);
            buf.push(ASCII_COLON);
        }
        push_decimal_pad2(&mut buf, self.minutes);
        buf.push(ASCII_COLON);
        push_decimal_pad2(&mut buf, self.seconds);
        proof {
            assert(buf@ =~= simple_text_bytes(*self));
            lemma_dec_digits_ascii(self.hours as nat);
            lemma_dec_digits_ascii(self.minutes as nat);
            lemma_dec_digits_ascii(self.seconds as nat);
        }
        ascii_to_string(buf)
    }

    /// The displayed milliseconds, three places.
    pub fn millis_text(&self) -> (r: String)
        ensures
            r@ == ascii_chars(millis_text_bytes(*self)),
    {
        let mut buf: Vec<u8> = Vec::new();
        push_decimal_pad3(&mut buf, self.milliseconds as u64);
        proof {
            assert(buf@ =~= millis_text_bytes(*self));
            lemma_dec_digits_ascii(self.milliseconds as nat);
        }
        ascii_to_string(buf)
    }
}

} // verus!
