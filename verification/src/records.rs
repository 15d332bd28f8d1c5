//! The three record types the tracker stores, and the whole-day distance
//! between two instants.
//!
//! Instants are whole seconds since the Unix epoch (UTC); blood-sugar values
//! are fixed point, in tenths of a mg/dL. Nothing is validated: negative or
//! nonsensical values are stored as given.

use vstd::prelude::*;

verus! {

/// Seconds in one day.
pub const SECS_PER_DAY: i64 = 86400;

/// One blood-sugar measurement and its capture time.
pub struct BloodSugarReading {
    /// The measured value, in tenths of a mg/dL.
    pub value_tenths: i64,
    /// When the value was captured, in seconds since the Unix epoch (UTC).
    pub timestamp: i64,
}

/// One medication record; all three fields are free-form display strings.
pub struct Medication {
    pub name: String,
    pub dosage: String,
    pub frequency: String,
}

/// One appointment record.
pub struct Appointment {
    /// When the appointment takes place, in seconds since the Unix epoch (UTC).
    pub date: i64,
    pub doctor: String,
    pub appointment_type: String,
}

/// The signed number of whole days from `now` to `date`, rounded toward
/// zero: one day is counted only once all of its 86400 seconds have elapsed,
/// in either direction.
pub open spec fn day_diff(date: int, now: int) -> int {
    let d = date - now;
    if d >= 0 {
        d / (SECS_PER_DAY as int)
    } else {
        -((-d) / (SECS_PER_DAY as int))
    }
}

/// Computes `day_diff` on machine integers; the difference and the quotient
/// are taken in 128 bits, where neither can overflow.
pub fn day_diff_days(date: i64, now: i64) -> (r: i64)
    ensures
        r as int == day_diff(date as int, now as int),
{
    let d: i128 = date as i128 - now as i128;
    proof {
        let di = d as int;
        let day = SECS_PER_DAY as int;
        if di >= 0 {
            vstd::arithmetic::div_mod::lemma_div_pos_is_pos(di, day);
            vstd::arithmetic::div_mod::lemma_div_is_ordered(di, 0x1_0000_0000_0000_0000, day);
        } else {
            vstd::arithmetic::div_mod::lemma_div_pos_is_pos(-di, day);
            vstd::arithmetic::div_mod::lemma_div_is_ordered(-di, 0x1_0000_0000_0000_0000, day);
        }
    }
    match d.checked_div(SECS_PER_DAY as i128) {
        Some(q) => q as i64,
        None => {
            proof {
                assert(false);
            }
            0
        },
    }
}

} // verus!
