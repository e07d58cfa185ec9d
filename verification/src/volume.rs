//! The traversal interval of a constant-density medium.
//!
//! The medium's boundary intersections and its free-flight sampling (a
//! logarithm of a uniform draw, scaled by the ray length) are irrational
//! and live with the renderer. What is exact is the clipping that precedes
//! the sampling: the entry parameter is raised to the query's start and
//! then to zero, the exit parameter is lowered to the query's end, and the
//! medium is traversed only when some interval remains.

use vstd::prelude::*;
use crate::math::{Rat, rat_wf, rat_lt};

verus! {

/// The parameter interval over which a medium bounded by `entry..exit` is
/// traversed within the query interval `(t_min, t_max)`, or `None` when
/// nothing of it remains.
pub fn medium_span(entry: Rat, exit: Rat, t_min: Rat, t_max: Rat) -> (r: Option<(Rat, Rat)>)
    requires
        rat_wf(entry),
        rat_wf(exit),
        rat_wf(t_min),
        rat_wf(t_max),
    ensures
        ({
            let e = if rat_lt(entry, t_min) {
                t_min
            } else {
                entry
            };
            let x = if rat_lt(t_max, exit) {
                t_max
            } else {
                exit
            };
            if !rat_lt(e, x) {
                r is None
            } else {
                r == Option::Some(
                    (
                        if rat_lt(e, Rat { num: 0i64, den: 1i64 }) {
                            Rat { num: 0i64, den: 1i64 }
                        } else {
                            e
                        },
                        x,
                    ),
                )
            }
        }),
        r matches Option::Some(span) ==> rat_wf(span.0) && rat_wf(span.1),
{
    let zero = Rat::new(0, 1);
    let e = if entry.lt(&t_min) {
        t_min
    } else {
        entry
    };
    let x = if t_max.lt(&exit) {
        t_max
    } else {
        exit
    };
    if !e.lt(&x) {
        return Option::None;
    }
    let clamped = if e.lt(&zero) {
        zero
    } else {
        e
    };
    Option::Some((clamped, x))
}

} // verus!
