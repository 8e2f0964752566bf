//! Text shown by the statistics panel.

use vstd::prelude::*;
use crate::text::{decimal, push_decimal};

verus! {

/// `n` in decimal, at least two digits wide, as `{:02}` formats it.
pub open spec fn two_digits(n: nat) -> Seq<char> {
    if n < 10 {
        seq!['0'] + decimal(n)
    } else {
        decimal(n)
    }
}

/// The session time as `Hh MMm SSs`, or `MMm SSs` under an hour.
pub open spec fn elapsed_text(secs: nat) -> Seq<char> {
    let h = secs / 3600;
    let m = (secs % 3600) / 60;
    let s = secs % 60;
    if h > 0 {
        decimal(h) + "h "@ + two_digits(m) + "m "@ + two_digits(s) + "s"@
    } else {
        two_digits(m) + "m "@ + two_digits(s) + "s"@
    }
}

fn push_two_digits(out: &mut String, n: u64)
    ensures
        final(out)@ == old(out)@ + two_digits(n as nat),
{
    if n < 10 {
        crate::text::push_char(out, '0');
    }
    let ghost mid = out@;
    push_decimal(out, n);
    proof {
        if n < 10 {
            assert(out@ =~= old(out)@ + two_digits(n as nat));
        }
    }
}

/// The session time for `secs` seconds.
pub fn format_elapsed(secs: u64) -> (s: String)
    ensures
        s@ == elapsed_text(secs as nat),
{
    let h = secs / 3600;
    let m = (secs % 3600) / 60;
    let sec = secs % 60;
    let mut out = String::new();
    if h > 0 {
        push_decimal(&mut out, h);
        out.append("h ");
    }
    push_two_digits(&mut out, m);
    out.append("m ");
    push_two_digits(&mut out, sec);
    out.append("s");
    proof {
        assert(out@ =~= elapsed_text(secs as nat));
    }
    out
}

/// The reading time as `N min`.
pub fn read_time_label(minutes: usize) -> (s: String)
    ensures
        s@ == decimal(minutes as nat) + " min"@,
{
    let mut out = String::new();
    push_decimal(&mut out, minutes as u64);
    out.append(" min");
    out
}

} // verus!
