//! Which tip the splash screen shows: one of `TIPS_COUNT`, chosen by the clock.

use vstd::prelude::*;
use crate::text::{decimal, push_decimal, push_text, string_from};

verus! {

/// The number of tips that the locale files hold, `tips.0` to `tips.18`.
pub const TIPS_COUNT: usize = 19;

/// The tip shown at the Unix time `timestamp`: its seconds, as a `usize` holds
/// them, modulo `TIPS_COUNT`.
pub open spec fn tip_index(timestamp: i64) -> nat {
    ((timestamp as usize) % (TIPS_COUNT as usize)) as nat
}

/// The message key of the tip shown at `timestamp`: `tips.<index>`.
pub open spec fn tip_key_at(timestamp: i64) -> Seq<char> {
    "tips."@ + decimal(tip_index(timestamp))
}

pub fn tip_key(timestamp: i64) -> (r: String)
    ensures
        r@ == tip_key_at(timestamp),
        tip_index(timestamp) < TIPS_COUNT,
{
    let idx = (timestamp as usize) % TIPS_COUNT;
    let mut cs: Vec<char> = Vec::new();
    push_text(&mut cs, "tips.");
    push_decimal(idx as u64, &mut cs);
    string_from(cs.as_slice())
}

/// `chrono::Local::now().timestamp()`: the seconds since the Unix epoch now.
/// Nothing is stated of the value: it is the time.
#[verifier::external_body]
fn now_timestamp() -> i64 {
    chrono::Local::now().timestamp()
}

/// The message key of the tip to show now.
pub fn current_tip_key() -> (r: String)
    ensures
        exists|t: i64| r@ == tip_key_at(t),
{
    let t = now_timestamp();
    tip_key(t)
}

} // verus!
