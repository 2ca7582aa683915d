//! A system wide unique identifier built from a process id and a point in time.
//!
//! The layout is `pid << 96 | seconds << 32 | nanoseconds`. The process id takes
//! 32 bits, the seconds the full 64 bits in between and the nanoseconds the lowest
//! 32 bits, so no part is ever truncated.

use vstd::prelude::*;

verus! {

/// The process id part of a packed identifier.
pub open spec fn pid_of(v: u128) -> u32 {
    (v >> 96u128) as u32
}

/// The seconds part of a packed identifier.
pub open spec fn seconds_of(v: u128) -> u64 {
    ((v << 32u128) >> 64u128) as u64
}

/// The nanoseconds part of a packed identifier.
pub open spec fn nanoseconds_of(v: u128) -> u32 {
    v as u32
}

/// The packed identifier of a process id and a point in time.
pub open spec fn pack(pid: u32, seconds: u64, nanoseconds: u32) -> u128 {
    ((pid as u128) << 96u128) | ((seconds as u128) << 32u128) | (nanoseconds as u128)
}

/// A point in time: seconds and nanoseconds since the clock's origin.
#[derive(Debug, Clone, Copy, PartialEq, Eq, Hash)]
pub struct Time {
    pub seconds: u64,
    pub nanoseconds: u32,
}

/// The id of a process.
#[derive(Debug, Clone, Copy, PartialEq, Eq, Hash)]
pub struct ProcessId {
    value: u32,
}

impl ProcessId {
    pub closed spec fn view(&self) -> u32 {
        self.value
    }

    /// Creates a process id from its raw value.
    pub fn new(value: u32) -> (r: Self)
        ensures
            r@ == value,
    {
        ProcessId { value }
    }

    /// Returns the raw value of the process id.
    pub fn value(&self) -> (r: u32)
        ensures
            r == self@,
    {
        self.value
    }
}

/// Error that can occur when a [`UniqueSystemId`] is created.
#[derive(Debug, Clone, Copy, PartialEq, Eq, Hash)]
pub enum UniqueSystemIdCreationError {
    FailedToAcquireTime,
}

/// A system wide unique id. No two living processes create the same id: the id
/// carries the process id of its creator and the time of its creation.
#[derive(Debug, Clone, Copy, PartialEq, Eq, Hash)]
pub struct UniqueSystemId {
    value: u128,
}

impl UniqueSystemId {
    pub closed spec fn view(&self) -> u128 {
        self.value
    }

    /// Builds the id of the process `pid` created at the given point in time.
    pub fn from_parts(pid: ProcessId, time: Time) -> (r: Self)
        ensures
            r@ == pack(pid@, time.seconds, time.nanoseconds),
    {
        let value: u128 = ((pid.value as u128) << 96u128) | ((time.seconds as u128) << 32u128)
            | (time.nanoseconds as u128);
        UniqueSystemId { value }
    }

    /// Restores an id from its raw value.
    pub fn from_value(value: u128) -> (r: Self)
        ensures
            r@ == value,
    {
        UniqueSystemId { value }
    }

    /// Returns the underlying value of the id.
    pub fn value(&self) -> (r: u128)
        ensures
            r == self@,
    {
        self.value
    }

    /// Returns the [`ProcessId`] which was used to create the id.
    pub fn pid(&self) -> (r: ProcessId)
        ensures
            r@ == pid_of(self@),
    {
        ProcessId { value: (self.value >> 96u128) as u32 }
    }

    /// Returns the [`Time`] at which the id was created.
    pub fn creation_time(&self) -> (r: Time)
        ensures
            r.seconds == seconds_of(self@),
            r.nanoseconds == nanoseconds_of(self@),
    {
        let seconds = ((self.value << 32u128) >> 64u128) as u64;
        let nanoseconds = self.value as u32;
        Time { seconds, nanoseconds }
    }
}

/// Decides whether a reading of the clock may go into a new id: its
/// nanoseconds must differ from those of the id created last in this process,
/// so that two ids created at once in one process differ.
pub fn accept_time(previous_nanoseconds: u32, now: Time) -> (r: bool)
    ensures
        r == (now.nanoseconds != previous_nanoseconds),
{
    now.nanoseconds != previous_nanoseconds
}

/// Unpacking a packed identifier gives back the process id and the point in time
/// it was built from.
pub proof fn lemma_unpack_pack(pid: u32, seconds: u64, nanoseconds: u32)
    ensures
        pid_of(pack(pid, seconds, nanoseconds)) == pid,
        seconds_of(pack(pid, seconds, nanoseconds)) == seconds,
        nanoseconds_of(pack(pid, seconds, nanoseconds)) == nanoseconds,
{
    assert(((((pid as u128) << 96u128) | ((seconds as u128) << 32u128) | (nanoseconds as u128))
        >> 96u128) as u32 == pid) by (bit_vector);
    assert(((((((pid as u128) << 96u128) | ((seconds as u128) << 32u128) | (nanoseconds as u128))
        << 32u128) >> 64u128) as u64) == seconds) by (bit_vector);
    assert(((((pid as u128) << 96u128) | ((seconds as u128) << 32u128) | (nanoseconds as u128))
        as u32) == nanoseconds) by (bit_vector);
}

/// Two ids are equal only where they were built from the same process id at the
/// same point in time.
pub proof fn lemma_pack_injective(
    pid_a: u32,
    seconds_a: u64,
    nanoseconds_a: u32,
    pid_b: u32,
    seconds_b: u64,
    nanoseconds_b: u32,
)
    requires
        pack(pid_a, seconds_a, nanoseconds_a) == pack(pid_b, seconds_b, nanoseconds_b),
    ensures
        pid_a == pid_b,
        seconds_a == seconds_b,
        nanoseconds_a == nanoseconds_b,
{
    lemma_unpack_pack(pid_a, seconds_a, nanoseconds_a);
    lemma_unpack_pack(pid_b, seconds_b, nanoseconds_b);
}

} // verus!
