//! Buffers that are handed over once they are full.
use vstd::prelude::*;

verus! {

/// Number of entries that a buffer is made to hold.
pub const BUFFER_CAPACITY: usize = 1024;

/// `Vec::capacity`: the number of entries that the vector can hold without reallocating, hence no
/// fewer than it holds. How many more is up to the allocator.
#[verifier::external_body]
pub(crate) fn capacity_of<T>(buffer: &Vec<T>) -> (capacity: usize)
    ensures
        capacity >= buffer@.len(),
{
    buffer.capacity()
}

/// Some look at the capacity of `buffer` finds `capacity`.
pub closed spec fn has_capacity<T>(buffer: Vec<T>, capacity: usize) -> bool {
    call_ensures(capacity_of::<T>, (&buffer,), capacity)
}

/// The capacity of a buffer is what looking at it gives.
pub(crate) proof fn law_capacity_by_looking<T>(buffer: Vec<T>, capacity: usize)
    ensures
        has_capacity(buffer, capacity) <==> call_ensures(capacity_of::<T>, (&buffer,), capacity),
{
}

/// The buffer holds as much as its capacity, and no less than [`BUFFER_CAPACITY`].
pub open spec fn is_full<T>(buffer: Vec<T>) -> bool {
    buffer@.len() >= BUFFER_CAPACITY && has_capacity(buffer, buffer@.len() as usize)
}

/// The buffer holds less than [`BUFFER_CAPACITY`], or not as much as its capacity.
pub open spec fn is_not_full<T>(buffer: Vec<T>) -> bool {
    buffer@.len() < BUFFER_CAPACITY || exists|capacity: usize|
        capacity != buffer@.len() && #[trigger] has_capacity(buffer, capacity)
}

/// How many entries a buffer of `capacity` is short of [`BUFFER_CAPACITY`].
pub open spec fn short_of(capacity: nat) -> nat {
    if capacity < BUFFER_CAPACITY {
        (BUFFER_CAPACITY - capacity) as nat
    } else {
        0
    }
}

/// How many entries to reserve in a buffer of `capacity`.
pub fn to_reserve(capacity: usize) -> (missing: usize)
    ensures
        missing == short_of(capacity as nat),
{
    if capacity < BUFFER_CAPACITY {
        BUFFER_CAPACITY - capacity
    } else {
        0
    }
}

/// A buffer of `len` entries and `capacity` that has nothing allocated yet, or room for another
/// entry among [`BUFFER_CAPACITY`] or more.
pub open spec fn has_room(len: nat, capacity: nat) -> bool {
    (len == 0 && capacity == 0) || (len < capacity && capacity >= BUFFER_CAPACITY)
}

/// Appending to a buffer that has room, whatever capacities the allocator gives: `reserved` after
/// the missing entries were reserved, and `pushed` after the entry was appended. The buffer is
/// full only with [`BUFFER_CAPACITY`] entries or more; where it is not full, it holds less than
/// its capacity and has room again.
pub proof fn law_buffer_keeps_room(len: nat, capacity: nat, reserved: nat, pushed: nat)
    requires
        has_room(len, capacity),
        reserved >= capacity,
        reserved >= len + short_of(capacity),
        pushed >= reserved,
    ensures
        pushed >= len + 1,
        len + 1 == pushed ==> len + 1 >= BUFFER_CAPACITY,
        len + 1 != pushed ==> len + 1 < pushed && has_room(len + 1, pushed),
{
}

/// Append `entry`. Where that fills the buffer, its contents are handed out and it is left empty.
/// The buffer is full once it holds as much as the allocator gave it room for, see [`take_full`],
/// and never with fewer than [`BUFFER_CAPACITY`] entries.
pub fn push<T>(buffer: &mut Vec<T>, entry: T) -> (full: Option<Vec<T>>)
    ensures
        match full {
            Some(contents) => {
                &&& contents@ == old(buffer)@.push(entry)
                &&& contents@.len() >= BUFFER_CAPACITY
                &&& is_full(contents)
                &&& final(buffer)@ == Seq::<T>::empty()
            },
            None => final(buffer)@ == old(buffer)@.push(entry) && is_not_full(*final(buffer)),
        },
{
    let missing: usize = to_reserve(capacity_of(buffer));
    if missing > 0 {
        buffer.reserve(missing);
    }
    buffer.push(entry);
    // The reserved entries are not used up.
    if buffer.len() < BUFFER_CAPACITY {
        return None;
    }
    let capacity: usize = capacity_of(buffer);
    assert(has_capacity(*buffer, capacity));
    take_full(buffer, capacity)
}

/// Hand out the contents of a buffer that holds as much as its `capacity`.
pub fn take_full<T>(buffer: &mut Vec<T>, capacity: usize) -> (full: Option<Vec<T>>)
    ensures
        if old(buffer)@.len() == capacity {
            &&& full is Some
            &&& full->0 == *old(buffer)
            &&& full->0@ == old(buffer)@
            &&& final(buffer)@ == Seq::<T>::empty()
        } else {
            &&& full is None
            &&& *final(buffer) == *old(buffer)
        },
{
    if buffer.len() == capacity {
        let mut contents: Vec<T> = Vec::new();
        std::mem::swap(&mut contents, buffer);
        Some(contents)
    } else {
        None
    }
}

} // verus!
