//! Times of day, as they are shown.

use vstd::prelude::*;
use vstd::string::*;

use crate::text::{decimal, push_decimal};

verus! {

/// `n` in decimal, with at least two digits.
pub open spec fn two_digits(n: nat) -> Seq<char> {
    if n < 10 {
        "0"@ + decimal(n)
    } else {
        decimal(n)
    }
}

/// A time of day, as `HH:MM:SS`.
pub open spec fn hms_text(hour: u32, minute: u32, second: u32) -> Seq<char> {
    two_digits(hour as nat) + ":"@ + two_digits(minute as nat) + ":"@ + two_digits(second as nat)
}

fn push_two_digits(out: &mut String, n: u32)
    ensures
        final(out)@ == old(out)@ + two_digits(n as nat),
{
    if n < 10 {
        out.append("0");
    }
    push_decimal(out, n as u64);
    assert(out@ =~= old(out)@ + two_digits(n as nat));
}

/// Writes a time of day as `HH:MM:SS`.
pub fn format_hms(hour: u32, minute: u32, second: u32) -> (s: String)
    ensures
        s@ == hms_text(hour, minute, second),
{
    let mut s = String::new();
    push_two_digits(&mut s, hour);
    s.append(":");
    push_two_digits(&mut s, minute);
    s.append(":");
    push_two_digits(&mut s, second);
    assert(s@ =~= hms_text(hour, minute, second));
    s
}

} // verus!
