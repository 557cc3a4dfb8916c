//! Small reporting helpers around the batch commands.
use vstd::prelude::*;

use crate::text::{dec2_u64, dec_u64, append_dec2_u64, append_dec_u64};

verus! {

/// How an elapsed duration is rendered: `HH:MM:SS` above an hour, `MM:SS`
/// above a minute, else seconds and the whole milliseconds, as `S.MMMs`.
pub open spec fn spec_elapsed(secs: u64, nanos: u32) -> Seq<char> {
    let hours = (secs as nat) / 3600;
    let minutes = (secs as nat) / 60;
    if hours > 0 {
        dec2_u64(hours) + ":"@ + dec2_u64(minutes % 60) + ":"@ + dec2_u64((secs as nat) % 60)
    } else if minutes > 0 {
        dec2_u64(minutes) + ":"@ + dec2_u64((secs as nat) % 60)
    } else {
        dec_u64(secs as nat) + "."@ + dec_u64((nanos as nat) / 1000000) + "s"@
    }
}

/// Renders an elapsed duration, given as whole seconds plus the nanosecond
/// remainder, for progress reporting.
pub fn print_elapsed(secs: u64, nanos: u32) -> (r: String)
    ensures
        r@ == spec_elapsed(secs, nanos),
{
    let hours = secs / 3600;
    let minutes = secs / 60;
    let mut out = String::new();
    if hours > 0 {
        append_dec2_u64(&mut out, hours);
        out.append(":");
        append_dec2_u64(&mut out, minutes % 60);
        out.append(":");
        append_dec2_u64(&mut out, secs % 60);
    } else if minutes > 0 {
        append_dec2_u64(&mut out, minutes);
        out.append(":");
        append_dec2_u64(&mut out, secs % 60);
    } else {
        append_dec_u64(&mut out, secs);
        out.append(".");
        append_dec_u64(&mut out, nanos as u64 / 1000000);
        out.append("s");
    }
    proof {
        assert(out@ =~= spec_elapsed(secs, nanos));
    }
    out
}

} // verus!
