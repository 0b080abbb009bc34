//! Display formatting for durations: the `d.hh:mm:ss` form the front
//! ends print, with the day part present only when a day has passed.

use vstd::prelude::*;
use crate::strutil::{push_dec_u64, spec_dec};

verus! {

/// A two-digit zero-padded decimal field.
pub open spec fn spec_pad2(n: int) -> Seq<char> {
    if n < 10 {
        seq!['0'] + spec_dec(n)
    } else {
        spec_dec(n)
    }
}

/// The display form of a span of `ts` seconds: hours, minutes and
/// seconds zero-padded, preceded by a plain day count and a dot once a
/// whole day has passed.
pub open spec fn spec_fmt_duration(ts: int) -> Seq<char> {
    let sec = ts % 60;
    let min = ts / 60 % 60;
    let hour = ts / 3600 % 24;
    let days = ts / 86400;
    if days > 0 {
        spec_dec(days) + seq!['.'] + spec_pad2(hour) + seq![':'] + spec_pad2(min) + seq![':']
            + spec_pad2(sec)
    } else {
        spec_pad2(hour) + seq![':'] + spec_pad2(min) + seq![':'] + spec_pad2(sec)
    }
}

/// Append a two-digit zero-padded field.
fn push_pad2(out: &mut String, n: u64)
    ensures
        final(out)@ == old(out)@ + spec_pad2(n as int),
{
    if n < 10 {
        out.append("0");
        proof {
            reveal_strlit("0");
        }
    }
    push_dec_u64(out, n);
    proof {
        assert(final(out)@ =~= old(out)@ + spec_pad2(n as int));
    }
}

/// A span of whole seconds, formatted for display.
pub struct FmtDuration(pub u64);

impl FmtDuration {
    /// The `d.hh:mm:ss` rendering of the span.
    pub fn format(&self) -> (r: String)
        ensures
            r@ == spec_fmt_duration(self.0 as int),
    {
        let ts = self.0;
        let sec = ts % 60;
        let min = ts / 60 % 60;
        let hour = ts / 3600 % 24;
        let days = ts / 86400;
        let mut r = String::new();
        if days > 0 {
            push_dec_u64(&mut r, days);
            r.append(".");
            proof {
                reveal_strlit(".");
            }
        }
        push_pad2(&mut r, hour);
        r.append(":");
        push_pad2(&mut r, min);
        r.append(":");
        push_pad2(&mut r, sec);
        proof {
            reveal_strlit(":");
            assert(r@ =~= spec_fmt_duration(ts as int));
        }
        r
    }
}

} // verus!
