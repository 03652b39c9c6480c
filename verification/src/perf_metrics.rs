//! Clock arithmetic and the other platform figures the harness works with.
//!
//! Nothing here reads the platform. The caller reads the tick counter, the
//! time base and the page-fault counter, and hands the readings in.

use vstd::prelude::*;

verus! {

/// What a page-fault query reads when the platform gave no count.
pub const PAGE_FAULTS_UNAVAILABLE: i32 = -1;

/// The ratio by which the platform's clock ticks turn into nanoseconds:
/// one tick lasts `numer / denom` nanoseconds.
#[derive(Clone, Copy, Debug, PartialEq, Eq, Structural)]
pub struct TimebaseInfo {
    pub numer: u32,
    pub denom: u32,
}

impl TimebaseInfo {
    /// The time base of a clock that counts nanoseconds.
    pub fn nanoseconds() -> (info: TimebaseInfo)
        ensures
            info == (TimebaseInfo { numer: 1, denom: 1 }),
    {
        TimebaseInfo { numer: 1, denom: 1 }
    }
}

/// The nanoseconds that `ticks` last under the time base `info`, rounded
/// down. It means something only where `info.denom` is not zero.
pub open spec fn ticks_as_nanos(ticks: nat, info: TimebaseInfo) -> nat {
    (ticks * info.numer as nat) / (info.denom as nat)
}

/// The clock in nanoseconds: the reading `time`, in ticks, scaled by the time
/// base. There is no answer where the denominator is zero, nor where the
/// nanoseconds do not fit in 64 bits.
pub fn high_resolution_clock(time: u64, info: TimebaseInfo) -> (nanos: Option<u64>)
    ensures
        nanos == if info.denom != 0 && ticks_as_nanos(time as nat, info) <= u64::MAX {
            Some(ticks_as_nanos(time as nat, info) as u64)
        } else {
            None
        },
{
    if info.denom == 0 {
        return None;
    }
    assert(time as nat * info.numer as nat <= 0xffff_ffff_ffff_ffff * 0xffff_ffff)
        by (nonlinear_arith)
        requires
            time <= 0xffff_ffff_ffff_ffff,
            info.numer <= 0xffff_ffff,
    ;
    let product: u128 = (time as u128) * (info.numer as u128);
    let quotient: u128 = product / (info.denom as u128);
    if quotient <= u64::MAX as u128 {
        Some(quotient as u64)
    } else {
        None
    }
}

/// Under a one-to-one time base a tick is a nanosecond.
pub proof fn lemma_nanosecond_timebase_is_identity(ticks: nat)
    ensures
        ticks_as_nanos(ticks, TimebaseInfo { numer: 1, denom: 1 }) == ticks,
{
}

/// A longer interval never lasts fewer nanoseconds.
pub proof fn lemma_ticks_as_nanos_is_monotonic(shorter: nat, longer: nat, info: TimebaseInfo)
    requires
        shorter <= longer,
        info.denom != 0,
    ensures
        ticks_as_nanos(shorter, info) <= ticks_as_nanos(longer, info),
{
    let n = info.numer as nat;
    let d = info.denom as nat;
    assert(shorter * n <= longer * n) by (nonlinear_arith)
        requires
            shorter <= longer,
    ;
    assert((shorter * n) / d <= (longer * n) / d) by (nonlinear_arith)
        requires
            shorter * n <= longer * n,
            d > 0,
    ;
}

/// The process's page-fault count, from what the query for the task's
/// figures gave back. The query filled a whole record exactly when it
/// `returned` the `expected` number of bytes, and `faults` is then the count;
/// any other return is a failure, told by `PAGE_FAULTS_UNAVAILABLE`.
pub fn get_page_faults(returned: i32, expected: i32, faults: i32) -> (count: i32)
    ensures
        count == if returned == expected {
            faults
        } else {
            PAGE_FAULTS_UNAVAILABLE
        },
{
    if returned == expected {
        faults
    } else {
        PAGE_FAULTS_UNAVAILABLE
    }
}

/// The page faults between two readings of the counter. A reading below zero
/// tells that the platform gave no count; the statistic is then left out, as
/// it is where the counter went backwards: the difference counts as zero.
pub open spec fn fault_delta(begin: int, end: int) -> nat {
    if 0 <= begin <= end {
        (end - begin) as nat
    } else {
        0
    }
}

/// Computes `fault_delta` of two readings.
pub fn page_fault_delta(begin: i32, end: i32) -> (delta: u64)
    ensures
        delta == fault_delta(begin as int, end as int),
{
    if 0 <= begin && begin <= end {
        (end - begin) as u64
    } else {
        0
    }
}

/// A 48-bit virtual address taken apart along a four-level page table with
/// 16 KiB pages: one bit for the first level, eleven for each of the other
/// three, and fourteen for the offset inside the page.
#[derive(Clone, Copy, Debug, PartialEq, Eq, Structural)]
pub struct VirtualAddress {
    pub l1_index: u16,
    pub l2_index: u16,
    pub l3_index: u16,
    pub l4_index: u16,
    pub offset: u16,
}

impl VirtualAddress {
    /// The parts of the address `pointer`, by division and remainder.
    pub open spec fn of(pointer: nat) -> VirtualAddress {
        VirtualAddress {
            l1_index: ((pointer / 0x8000_0000_0000) % 2) as u16,
            l2_index: ((pointer / 0x10_0000_0000) % 0x800) as u16,
            l3_index: ((pointer / 0x200_0000) % 0x800) as u16,
            l4_index: ((pointer / 0x4000) % 0x800) as u16,
            offset: (pointer % 0x4000) as u16,
        }
    }

    /// The address that the parts stand for: the low 48 bits of what they
    /// were taken from.
    pub open spec fn address(self) -> nat {
        (self.l1_index as nat) * 0x8000_0000_0000 + (self.l2_index as nat) * 0x10_0000_0000 + (
        self.l3_index as nat) * 0x200_0000 + (self.l4_index as nat) * 0x4000 + self.offset as nat
    }

    /// Takes the address `pointer` apart.
    pub fn from_pointer(pointer: usize) -> (va: VirtualAddress)
        ensures
            va == VirtualAddress::of(pointer as nat),
            va.l1_index < 2,
            va.l2_index < 0x800,
            va.l3_index < 0x800,
            va.l4_index < 0x800,
            va.offset < 0x4000,
    {
        let p: u64 = pointer as u64;
        assert((p >> 47) & 0x1 == (p / 0x8000_0000_0000) % 2) by (bit_vector);
        assert((p >> 36) & 0x7FF == (p / 0x10_0000_0000) % 0x800) by (bit_vector);
        assert((p >> 25) & 0x7FF == (p / 0x200_0000) % 0x800) by (bit_vector);
        assert((p >> 14) & 0x7FF == (p / 0x4000) % 0x800) by (bit_vector);
        assert(p & 0x03FFF == p % 0x4000) by (bit_vector);
        VirtualAddress {
            l1_index: ((p >> 47) & 0x1) as u16,
            l2_index: ((p >> 36) & 0x7FF) as u16,
            l3_index: ((p >> 25) & 0x7FF) as u16,
            l4_index: ((p >> 14) & 0x7FF) as u16,
            offset: (p & 0x03FFF) as u16,
        }
    }
}

/// Taking an address apart loses nothing below bit 48: the parts put together
/// again give the address modulo 2^48.
pub proof fn lemma_parts_give_the_address_back(pointer: nat)
    ensures
        VirtualAddress::of(pointer).address() == pointer % 0x1_0000_0000_0000,
{
    let va = VirtualAddress::of(pointer);
    let q14 = pointer / 0x4000;
    let q25 = pointer / 0x200_0000;
    let q36 = pointer / 0x10_0000_0000;
    let q47 = pointer / 0x8000_0000_0000;
    let q48 = pointer / 0x1_0000_0000_0000;
    assert(q25 == q14 / 0x800 && q36 == q25 / 0x800 && q47 == q36 / 0x800 && q48 == q47 / 2)
        by (nonlinear_arith)
        requires
            q14 == pointer / 0x4000,
            q25 == pointer / 0x200_0000,
            q36 == pointer / 0x10_0000_0000,
            q47 == pointer / 0x8000_0000_0000,
            q48 == pointer / 0x1_0000_0000_0000,
    ;
    assert(va.offset == pointer % 0x4000);
    assert(va.l4_index == q14 % 0x800);
    assert(va.l3_index == q25 % 0x800);
    assert(va.l2_index == q36 % 0x800);
    assert(va.l1_index == q47 % 2);
}

/// Two addresses that agree below bit 48 come apart into the same parts.
pub proof fn lemma_parts_depend_on_low_bits_only(a: nat, b: nat)
    requires
        a % 0x1_0000_0000_0000 == b % 0x1_0000_0000_0000,
    ensures
        VirtualAddress::of(a) == VirtualAddress::of(b),
{
    lemma_parts_give_the_address_back(a);
    lemma_parts_give_the_address_back(b);
    let x = VirtualAddress::of(a);
    let y = VirtualAddress::of(b);
    assert(x.address() == y.address());
    assert(x.offset == y.offset && x.l4_index == y.l4_index && x.l3_index == y.l3_index
        && x.l2_index == y.l2_index && x.l1_index == y.l1_index) by (nonlinear_arith)
        requires
            x.address() == y.address(),
            x.address() == (x.l1_index as nat) * 0x8000_0000_0000 + (x.l2_index as nat)
                * 0x10_0000_0000 + (x.l3_index as nat) * 0x200_0000 + (x.l4_index as nat) * 0x4000
                + x.offset as nat,
            y.address() == (y.l1_index as nat) * 0x8000_0000_0000 + (y.l2_index as nat)
                * 0x10_0000_0000 + (y.l3_index as nat) * 0x200_0000 + (y.l4_index as nat) * 0x4000
                + y.offset as nat,
            x.l1_index < 2 && x.l2_index < 0x800 && x.l3_index < 0x800 && x.l4_index < 0x800
                && x.offset < 0x4000,
            y.l1_index < 2 && y.l2_index < 0x800 && y.l3_index < 0x800 && y.l4_index < 0x800
                && y.offset < 0x4000,
    ;
}

} // verus!
