//! Humanized session-duration labels.

use vstd::prelude::*;
use vstd::string::StringExecFns;

use crate::style::{dec_rep, push_dec};

verus! {

/// The humanized duration: `<1m` under a minute, whole minutes under
/// an hour, otherwise hours followed by the minute remainder (omitted
/// when it is zero).
pub open spec fn duration_label(total_secs: nat) -> Seq<char> {
    if total_secs < 60 {
        "<1m"@
    } else if total_secs < 3600 {
        dec_rep(total_secs / 60) + "m"@
    } else {
        let hours = total_secs / 3600;
        let minutes = (total_secs % 3600) / 60;
        if minutes == 0 {
            dec_rep(hours) + "h"@
        } else {
            dec_rep(hours) + "h"@ + dec_rep(minutes) + "m"@
        }
    }
}

/// Formats a duration in seconds as its humanized label.
pub fn format_duration(total_secs: u64) -> (r: String)
    ensures
        r@ == duration_label(total_secs as nat),
{
    if total_secs < 60 {
        return String::from_str("<1m");
    }
    let mut out = String::new();
    if total_secs < 3600 {
        push_dec(&mut out, total_secs / 60);
        out.append("m");
        proof {
            assert(out@ =~= duration_label(total_secs as nat));
        }
        return out;
    }
    let hours = total_secs / 3600;
    let minutes = (total_secs % 3600) / 60;
    push_dec(&mut out, hours);
    out.append("h");
    if minutes > 0 {
        push_dec(&mut out, minutes);
        out.append("m");
    }
    proof {
        assert(out@ =~= duration_label(total_secs as nat));
    }
    out
}

/// The session clock label for an elapsed wall time in seconds.
pub fn clock(elapsed_secs: u64) -> (r: String)
    ensures
        r@ == duration_label(elapsed_secs as nat),
{
    format_duration(elapsed_secs)
}

} // verus!
