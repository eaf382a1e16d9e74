//! The shared coordination segment: a counter followed by the presses in
//! their order of arrival.
//!
//! The segment is a run of 32-bit words that outlives every invocation.
//! Word 0 is the counter; words `1..=counter` are the presses, oldest
//! first. The functions here are the only way the words are read or
//! written, every access is checked against the length of the run, and
//! the caller holds the cross-process lock around each call.

use vstd::prelude::*;
use vstd::string::StringExecFns;

verus! {

/// Size in bytes of the region that the invocations share.
pub const SEGMENT_BYTES: usize = 4096;

/// Number of 32-bit words of the region that hold the counter and the
/// presses. The lock lives in the bytes before them.
pub const SEGMENT_WORDS: usize = 1013;

/// A fault of the coordination between invocations.
#[derive(Debug, Clone, Copy, PartialEq, Eq, Structural)]
pub enum IpcError {
    /// The segment cannot hold what the operation needs: it is full, or
    /// its counter points beyond its last word.
    CapacityExceeded,
}

/// What is said of a segment without room.
pub const CAPACITY_EXCEEDED: &'static str = "the shared segment has no room for another press";

impl IpcError {
    /// The fault in words.
    pub fn message(&self) -> (text: String)
        ensures
            text@ == CAPACITY_EXCEEDED@,
    {
        String::from_str(CAPACITY_EXCEEDED)
    }
}

/// How an attempt to create or to open the segment ended.
#[derive(Debug, Clone, Copy, PartialEq, Eq, Structural)]
pub enum Attempt {
    /// The segment is mapped.
    Mapped,
    /// The name is taken: another invocation created the segment.
    NameTaken,
    /// Any other fault.
    Failed,
}

/// What follows an attempt.
#[derive(Debug, Clone, Copy, PartialEq, Eq, Structural)]
pub enum Attach {
    /// Go on with the mapped segment.
    Proceed,
    /// Open the segment that exists.
    OpenExisting,
    /// Give up: the fault is fatal.
    GiveUp,
}

/// What follows the attempt to create the segment: the first invocation
/// creates it, every later one finds the name taken and opens it, and any
/// other fault is fatal.
pub fn after_create(attempt: Attempt) -> (next: Attach)
    ensures
        attempt == Attempt::Mapped ==> next == Attach::Proceed,
        attempt == Attempt::NameTaken ==> next == Attach::OpenExisting,
        attempt == Attempt::Failed ==> next == Attach::GiveUp,
{
    match attempt {
        Attempt::Mapped => Attach::Proceed,
        Attempt::NameTaken => Attach::OpenExisting,
        Attempt::Failed => Attach::GiveUp,
    }
}

/// What follows the attempt to open the segment that exists: there is
/// no second try, so every fault is fatal.
pub fn after_open(attempt: Attempt) -> (next: Attach)
    ensures
        attempt == Attempt::Mapped ==> next == Attach::Proceed,
        attempt != Attempt::Mapped ==> next == Attach::GiveUp,
{
    match attempt {
        Attempt::Mapped => Attach::Proceed,
        _ => Attach::GiveUp,
    }
}

/// The number of presses written so far.
pub open spec fn counter(words: Seq<u32>) -> int {
    words[0] as int
}

/// The number of presses that the segment can hold.
pub open spec fn capacity(words: Seq<u32>) -> int {
    words.len() - 1
}

/// The segment has a counter, and the counter stays within the slots.
pub open spec fn well_formed(words: Seq<u32>) -> bool {
    words.len() >= 1 && counter(words) <= capacity(words)
}

/// The presses written so far, in their order of arrival.
pub open spec fn arrivals(words: Seq<u32>) -> Seq<u32> {
    words.subrange(1, counter(words) + 1)
}

/// No press has been written yet.
pub open spec fn fresh(words: Seq<u32>) -> bool {
    words.len() >= 1 && counter(words) == 0
}

/// `n` more presses fit, and the counter can count them.
pub open spec fn room_for(words: Seq<u32>, n: int) -> bool {
    well_formed(words) && counter(words) + n <= capacity(words) && counter(words) + n <= u32::MAX
}

/// One more press fits.
pub open spec fn has_room(words: Seq<u32>) -> bool {
    room_for(words, 1)
}

/// The segment after one more press: the counter is raised by one and
/// the press is written at the slot that the new counter names. No other
/// word changes.
pub open spec fn registered(words: Seq<u32>, id: u32) -> Seq<u32> {
    words.update(0, (counter(words) + 1) as u32).update(counter(words) + 1, id)
}

/// How many words for the counter and the presses a mapped region offers
/// behind its lock. The words start right behind the lock, so the lock
/// must end on a word boundary and leave `SEGMENT_WORDS` whole words.
pub fn payload_words(region_bytes: usize, lock_bytes: usize) -> (r: Result<usize, IpcError>)
    ensures
        r is Ok <==> lock_bytes % 4 == 0 && lock_bytes + 4 * SEGMENT_WORDS <= region_bytes,
        r is Ok ==> r == Ok::<usize, IpcError>(SEGMENT_WORDS),
        r is Err ==> r == Err::<usize, IpcError>(IpcError::CapacityExceeded),
{
    if lock_bytes % 4 != 0 || region_bytes < 4 * SEGMENT_WORDS || lock_bytes > region_bytes - 4
        * SEGMENT_WORDS {
        Err(IpcError::CapacityExceeded)
    } else {
        Ok(SEGMENT_WORDS)
    }
}

/// Reads the counter.
pub fn live_counter(words: &[u32]) -> (r: Result<u32, IpcError>)
    ensures
        words@.len() >= 1 ==> r == Ok::<u32, IpcError>(words@[0]),
        words@.len() == 0 ==> r == Err::<u32, IpcError>(IpcError::CapacityExceeded),
{
    if words.len() == 0 {
        Err(IpcError::CapacityExceeded)
    } else {
        Ok(words[0])
    }
}

/// Appends one press: raises the counter and writes `id` at the slot the
/// new counter names, which is the position handed back. A segment
/// without room is left as it was.
pub fn register(words: &mut [u32], id: u32) -> (r: Result<u32, IpcError>)
    ensures
        has_room(old(words)@) ==> r == Ok::<u32, IpcError>((counter(old(words)@) + 1) as u32)
            && final(words)@ == registered(old(words)@, id),
        !has_room(old(words)@) ==> r == Err::<u32, IpcError>(IpcError::CapacityExceeded)
            && final(words)@ == old(words)@,
{
    if words.len() == 0 {
        return Err(IpcError::CapacityExceeded);
    }
    let count: u32 = words[0];
    if count == u32::MAX || count as usize >= words.len() - 1 {
        return Err(IpcError::CapacityExceeded);
    }
    let position: u32 = count + 1;
    words[0] = position;
    words[position as usize] = id;
    Ok(position)
}

/// Reads the presses written so far, oldest first.
pub fn read_arrivals(words: &[u32]) -> (r: Result<Vec<u32>, IpcError>)
    ensures
        well_formed(words@) ==> r is Ok && r->Ok_0@ == arrivals(words@),
        !well_formed(words@) ==> r == Err::<Vec<u32>, IpcError>(IpcError::CapacityExceeded),
{
    if words.len() == 0 {
        return Err(IpcError::CapacityExceeded);
    }
    let count: usize = words[0] as usize;
    if count > words.len() - 1 {
        return Err(IpcError::CapacityExceeded);
    }
    let mut presses: Vec<u32> = Vec::new();
    let mut i: usize = 1;
    while i <= count
        invariant
            1 <= i <= count + 1,
            count == counter(words@),
            count < words@.len(),
            presses@ == words@.subrange(1, i as int),
        decreases count + 1 - i,
    {
        presses.push(words[i]);
        i = i + 1;
    }
    Ok(presses)
}

/// A press that registers on a segment with room lands behind all the
/// presses before it, which stay as they were, and leaves the segment
/// well formed with the counter one higher.
pub proof fn lemma_registered(words: Seq<u32>, id: u32)
    requires
        has_room(words),
    ensures
        well_formed(registered(words, id)),
        registered(words, id).len() == words.len(),
        counter(registered(words, id)) == counter(words) + 1,
        arrivals(registered(words, id)) == arrivals(words).push(id),
{
    let after = registered(words, id);
    assert(arrivals(after) =~= arrivals(words).push(id));
}

} // verus!
