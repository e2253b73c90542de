//! Context-window labels: used/total counts and the remaining
//! percentage.

use vstd::prelude::*;
use vstd::string::StringExecFns;

use crate::style::{dec_rep, push_dec};

verus! {

/// The two context fields of a snapshot.
#[derive(Clone, Debug)]
pub struct ContextInfo {
    pub context: String,
    pub remaining: String,
}

/// The context label: `used/total` when both counts are known and the
/// total is positive, the bare used count without a total, and the
/// sentinel `-` otherwise.
pub open spec fn context_label(used: Option<u64>, total: Option<u64>) -> Seq<char> {
    if used is Some && total is Some {
        if total->0 > 0 {
            dec_rep(used->0 as nat) + "/"@ + dec_rep(total->0 as nat)
        } else {
            "-"@
        }
    } else if used is Some {
        dec_rep(used->0 as nat)
    } else {
        "-"@
    }
}

pub fn format_context(used: Option<u64>, total: Option<u64>) -> (r: String)
    ensures
        r@ == context_label(used, total),
{
    match (used, total) {
        (Some(u), Some(t)) => {
            if t > 0 {
                let mut out = String::new();
                push_dec(&mut out, u);
                out.append("/");
                push_dec(&mut out, t);
                proof {
                    assert(out@ =~= context_label(used, total));
                }
                out
            } else {
                String::from_str("-")
            }
        },
        (Some(u), None) => {
            let mut out = String::new();
            push_dec(&mut out, u);
            proof {
                assert(out@ =~= context_label(used, total));
            }
            out
        },
        _ => String::from_str("-"),
    }
}

/// The percentage of the context still free, rounded to the nearest
/// whole percent (halves round up), floored at zero when usage exceeds
/// the total.
pub open spec fn remaining_pct(used: nat, total: nat) -> nat
    recommends
        total > 0,
{
    if used >= total {
        0
    } else {
        ((total - used) as nat * 200 + total) / (2 * total)
    }
}

/// The remaining label: the rounded free percentage followed by
/// `% left` when both counts are known and the total positive, the
/// sentinel `-` otherwise.
pub open spec fn remaining_label(used: Option<u64>, total: Option<u64>) -> Seq<char> {
    if used is Some && total is Some && total->0 > 0 {
        dec_rep(remaining_pct(used->0 as nat, total->0 as nat)) + "% left"@
    } else {
        "-"@
    }
}

pub fn format_remaining(used: Option<u64>, total: Option<u64>) -> (r: String)
    ensures
        r@ == remaining_label(used, total),
{
    match (used, total) {
        (Some(u), Some(t)) => {
            if t > 0 {
                let pct: u64 = if u >= t {
                    0
                } else {
                    let num: u128 = (t - u) as u128 * 200 + t as u128;
                    let den: u128 = 2 * t as u128;
                    let q = num / den;
                    proof {
                        assert(num <= 201 * (t as u128)) by (nonlinear_arith)
                            requires
                                num == (t - u) as u128 * 200 + t as u128,
                                u < t,
                        ;
                        assert(q <= 100) by (nonlinear_arith)
                            requires
                                q == num / den,
                                den == 2 * t as u128,
                                num <= 201 * (t as u128),
                                t > 0,
                        ;
                    }
                    q as u64
                };
                let mut out = String::new();
                push_dec(&mut out, pct);
                out.append("% left");
                proof {
                    assert(out@ =~= remaining_label(used, total));
                }
                out
            } else {
                String::from_str("-")
            }
        },
        _ => String::from_str("-"),
    }
}

} // verus!
