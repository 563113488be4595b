use vstd::prelude::*;
use vstd::arithmetic::div_mod::{lemma_div_is_ordered, lemma_fundamental_div_mod};
use crate::bytes::le_bytes;
use crate::bytes::push_le_bytes;

verus! {

/// Microseconds in one second.
pub const MICROS_PER_SEC: usize = 1_000_000;

/// A wall-clock-like reading derived from one monotonic tick sample:
/// whole seconds and the microseconds within the current second.
#[derive(Clone, Copy, PartialEq, Eq, Structural, Debug)]
pub struct TimeVal {
    pub sec: usize,
    pub usec: usize,
}

/// The reading a monotonic microsecond count `us` denotes.
pub open spec fn time_val_of(us: usize) -> TimeVal {
    TimeVal {
        sec: (us / MICROS_PER_SEC) as usize,
        usec: (us % MICROS_PER_SEC) as usize,
    }
}

/// Byte image of a reading as written into the task's address space: both
/// fields, eight bytes little-endian each.
pub open spec fn time_val_bytes(tv: TimeVal) -> Seq<u8> {
    le_bytes(tv.sec as nat, 8) + le_bytes(tv.usec as nat, 8)
}

/// Splits a monotonic microsecond count into seconds and the remainder.
pub fn time_val_from_us(us: usize) -> (tv: TimeVal)
    ensures
        tv == time_val_of(us),
{
    TimeVal { sec: us / MICROS_PER_SEC, usec: us % MICROS_PER_SEC }
}

/// Serialises a reading to the byte image the kernel writes out.
pub fn encode_time_val(tv: &TimeVal) -> (out: Vec<u8>)
    ensures
        out@ == time_val_bytes(*tv),
{
    let mut out: Vec<u8> = Vec::new();
    push_le_bytes(&mut out, tv.sec, 8);
    push_le_bytes(&mut out, tv.usec, 8);
    proof {
        assert(out@ =~= time_val_bytes(*tv));
    }
    out
}

/// The microsecond field always stays below one second, and a later tick
/// reading never denotes an earlier (seconds, microseconds) pair in
/// lexicographic order.
pub proof fn lemma_time_val_monotone(us1: usize, us2: usize)
    requires
        us1 <= us2,
    ensures
        0 <= time_val_of(us1).usec < MICROS_PER_SEC,
        time_val_of(us1).sec < time_val_of(us2).sec || (time_val_of(us1).sec == time_val_of(
            us2,
        ).sec && time_val_of(us1).usec <= time_val_of(us2).usec),
{
    lemma_div_is_ordered(us1 as int, us2 as int, MICROS_PER_SEC as int);
    lemma_fundamental_div_mod(us1 as int, MICROS_PER_SEC as int);
    lemma_fundamental_div_mod(us2 as int, MICROS_PER_SEC as int);
}

} // verus!
