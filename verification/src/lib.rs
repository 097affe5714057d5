//! Core of a persistent background task queue: a scheduling and execution
//! engine that tracks tasks across parallelism groups, gates them on
//! dependencies, commits the results of reaped child processes, and decides
//! which OS actions (spawns, signals, stdin writes, saves) the surrounding
//! daemon must perform.
//!
//! The library owns every scheduling and state-transition decision; the
//! unverified daemon around it performs process I/O and feeds the outcomes
//! back in as plain values.

pub mod client;
pub mod clock;
pub mod handler;
pub mod laws;
pub mod messages;
pub mod phases;
pub mod reaper;
pub mod render;
pub mod signals;
pub mod spawn;
pub mod state;
pub mod task;

use vstd::prelude::*;

verus! {

/// The decimal digits of `n`, most significant first.
pub open spec fn dec_digits(n: nat) -> Seq<char>
    decreases n,
{
    if n < 10 {
        seq![digit_char(n)]
    } else {
        dec_digits(n / 10).push(digit_char(n % 10))
    }
}

/// The character for a single decimal digit.
pub open spec fn digit_char(d: nat) -> char {
    (48 + d) as u8 as char
}

/// The decimal rendering of a possibly negative integer.
pub open spec fn dec_int(n: int) -> Seq<char> {
    if n < 0 {
        seq!['-'] + dec_digits((-n) as nat)
    } else {
        dec_digits(n as nat)
    }
}

/// Append the decimal digits of `n` to `out`.
pub fn push_dec_u64(n: u64, out: &mut Vec<char>)
    ensures
        final(out)@ == old(out)@ + dec_digits(n as nat),
    decreases n,
{
    if n >= 10 {
        proof {
            assert(n / 10 < n) by (nonlinear_arith)
                requires n >= 10;
        }
        push_dec_u64(n / 10, out);
    }
    let d: u8 = (n % 10) as u8;
    out.push((48 + d) as char);
    proof {
        assert(out@ =~= old(out)@ + dec_digits(n as nat));
    }
}

}
