//! The election: each invocation registers its press, waits out the
//! debounce window, and then checks whether it is still the last one.
//!
//! An invocation passes through the states register, wait and elect, and
//! ends in execute or discard. `Invocation` is the state before the
//! press is registered, `Waiting` the state between registration and
//! election, and the two variants of `Election` are the final states.
//! Sleeping and locking happen between the calls, outside this crate.

use vstd::prelude::*;
use crate::segment::{
    arrivals, capacity, counter, fresh, has_room, lemma_registered, live_counter, read_arrivals,
    register, registered, room_for, well_formed, IpcError,
};

verus! {

/// Debounce window in milliseconds when none is given.
pub const DEFAULT_DEBOUNCE_MILLIS: u64 = 250;

/// An invocation that has not registered its press yet.
#[derive(Debug, Clone, Copy, PartialEq, Eq, Structural)]
pub struct Invocation {
    /// The button that was pressed.
    pub id: u32,
}

/// An invocation that has registered its press and waits for its
/// election.
#[derive(Debug, Clone, Copy, PartialEq, Eq, Structural)]
pub struct Waiting {
    /// The button that was pressed.
    pub id: u32,
    /// The value of the counter right after the press was registered.
    pub position: u32,
}

/// How an election ended.
#[derive(Debug, PartialEq, Eq)]
pub enum Election {
    /// No press came later: the invocation stands for the burst, and
    /// `chord` holds all the presses in their order of arrival.
    Execute { chord: Vec<u32> },
    /// A later press was registered, and its invocation decides.
    Discard,
}

/// An invocation that captured `position` finds itself the last one.
pub open spec fn wins(words: Seq<u32>, position: int) -> bool {
    words.len() >= 1 && counter(words) == position
}

impl Invocation {
    /// Starts an invocation for a press of button `id`.
    pub fn new(id: u32) -> (invocation: Invocation)
        ensures
            invocation.id == id,
    {
        Invocation { id }
    }

    /// First critical section: registers the press and captures the
    /// position it got. Fails, leaving the segment as it was, exactly when
    /// the segment has no room.
    pub fn register(self, words: &mut [u32]) -> (r: Result<Waiting, IpcError>)
        ensures
            has_room(old(words)@) ==> r == Ok::<Waiting, IpcError>(
                Waiting { id: self.id, position: (counter(old(words)@) + 1) as u32 },
            ) && final(words)@ == registered(old(words)@, self.id),
            !has_room(old(words)@) ==> r == Err::<Waiting, IpcError>(IpcError::CapacityExceeded)
                && final(words)@ == old(words)@,
    {
        match register(words, self.id) {
            Ok(position) => Ok(Waiting { id: self.id, position }),
            Err(e) => Err(e),
        }
    }
}

impl Waiting {
    /// Second critical section, entered after the debounce window: the
    /// invocation wins exactly when the counter still equals the position
    /// it captured, and then reads the chord. Otherwise it discards without
    /// reading any press. The segment is not changed.
    pub fn elect(&self, words: &[u32]) -> (r: Result<Election, IpcError>)
        ensures
            wins(words@, self.position as int) && well_formed(words@) ==> (r matches Ok(
                Election::Execute { chord },
            ) && chord@ == arrivals(words@)),
            words@.len() >= 1 && !wins(words@, self.position as int) ==> r == Ok::<
                Election,
                IpcError,
            >(Election::Discard),
            words@.len() == 0 || (wins(words@, self.position as int) && !well_formed(words@))
                ==> r == Err::<Election, IpcError>(IpcError::CapacityExceeded),
    {
        match live_counter(words) {
            Err(e) => Err(e),
            Ok(live) => {
                if live == self.position {
                    match read_arrivals(words) {
                        Ok(chord) => Ok(Election::Execute { chord }),
                        Err(e) => Err(e),
                    }
                } else {
                    Ok(Election::Discard)
                }
            },
        }
    }
}

impl Election {
    /// Whether the invocation takes the segment with it when it ends:
    /// the winner does, so that the next burst starts on a fresh segment.
    pub fn owns_segment(&self) -> (owns: bool)
        ensures
            owns == (self is Execute),
    {
        match self {
            Election::Execute { .. } => true,
            Election::Discard => false,
        }
    }
}

/// The segment after the presses `ids` have registered one after the
/// other.
pub open spec fn registered_all(words: Seq<u32>, ids: Seq<u32>) -> Seq<u32>
    decreases ids.len(),
{
    if ids.len() == 0 {
        words
    } else {
        registered(registered_all(words, ids.drop_last()), ids.last())
    }
}

/// The position that press number `i` of `ids` captures when the presses
/// register one after the other on `words`.
pub open spec fn captured(words: Seq<u32>, ids: Seq<u32>, i: int) -> int {
    counter(registered_all(words, ids.take(i + 1)))
}

/// Presses that register one after the other on a segment with room for
/// all of them: every registration succeeds, press number `k` captures
/// the position `k + 1` above the old counter and is written at the slot
/// of that number, the counter ends up raised by the number of presses,
/// and the presses stand behind the earlier ones in their order of
/// arrival.
pub proof fn lemma_registrations_accumulate(words: Seq<u32>, ids: Seq<u32>)
    requires
        room_for(words, ids.len() as int),
    ensures
        well_formed(registered_all(words, ids)),
        registered_all(words, ids).len() == words.len(),
        counter(registered_all(words, ids)) == counter(words) + ids.len(),
        arrivals(registered_all(words, ids)) == arrivals(words) + ids,
        forall|k: int|
            0 <= k < ids.len() ==> has_room(#[trigger] registered_all(words, ids.take(k))),
        forall|k: int| 0 <= k < ids.len() ==> #[trigger] captured(words, ids, k) == counter(words) + k + 1,
        forall|k: int|
            0 <= k < ids.len() ==> registered_all(words, ids)[counter(words) + k + 1] == #[trigger] ids[k],
    decreases ids.len(),
{
    if ids.len() == 0 {
        assert(arrivals(words) + ids =~= arrivals(words));
    } else {
        let front = ids.drop_last();
        let before = registered_all(words, front);
        lemma_registrations_accumulate(words, front);
        lemma_registered(before, ids.last());
        let after = registered_all(words, ids);
        assert(arrivals(after) =~= arrivals(words) + ids);
        assert forall|k: int| 0 <= k < ids.len() implies has_room(
            #[trigger] registered_all(words, ids.take(k)),
        ) by {
            if k < front.len() {
                assert(ids.take(k) =~= front.take(k));
            } else {
                assert(ids.take(k) =~= front);
            }
        }
        assert forall|k: int| 0 <= k < ids.len() implies #[trigger] captured(words, ids, k)
            == counter(words) + k + 1 by {
            if k < front.len() {
                assert(ids.take(k + 1) =~= front.take(k + 1));
                assert(captured(words, front, k) == counter(words) + k + 1);
            } else {
                assert(ids.take(k + 1) =~= ids);
            }
        }
        assert forall|k: int| 0 <= k < ids.len() implies after[counter(words) + k + 1]
            == #[trigger] ids[k] by {
            if k < front.len() {
                assert(before[counter(words) + k + 1] == front[k]);
            }
        }
    }
}

/// On a fresh segment, after `n` presses have registered, the counter is
/// `n`, the slots `1..=n` hold the presses in their order of arrival, and
/// no two presses share a slot: press number `k` has slot `k + 1` to
/// itself.
pub proof fn lemma_fresh_segment_counts_presses(words: Seq<u32>, ids: Seq<u32>)
    requires
        fresh(words),
        ids.len() <= capacity(words),
        ids.len() <= u32::MAX,
    ensures
        counter(registered_all(words, ids)) == ids.len(),
        arrivals(registered_all(words, ids)) == ids,
        forall|k: int| 0 <= k < ids.len() ==> #[trigger] captured(words, ids, k) == k + 1,
        forall|j: int, k: int|
            0 <= j < k < ids.len() ==> captured(words, ids, j) != captured(words, ids, k),
        forall|k: int| 0 <= k < ids.len() ==> registered_all(words, ids)[k + 1] == #[trigger] ids[k],
{
    lemma_registrations_accumulate(words, ids);
    assert(arrivals(words) + ids =~= ids);
}

/// A burst has exactly one winner, and it is the last press.
///
/// The presses `ids` register one after the other. Invocation `i` holds
/// its election when `seen[i]` presses of the burst have registered: its
/// own among them, and, for every invocation but the last, the next one
/// too, because that press came within the debounce window. Then the last
/// invocation finds the counter at its position, and every other one
/// finds it strictly above.
pub proof fn lemma_burst_has_one_winner(words: Seq<u32>, ids: Seq<u32>, seen: Seq<int>)
    requires
        room_for(words, ids.len() as int),
        ids.len() >= 1,
        seen.len() == ids.len(),
        forall|i: int| 0 <= i < ids.len() ==> i + 1 <= #[trigger] seen[i] <= ids.len(),
        forall|i: int| 0 <= i < ids.len() - 1 ==> #[trigger] seen[i] >= i + 2,
    ensures
        forall|i: int|
            0 <= i < ids.len() ==> (wins(
                registered_all(words, ids.take(#[trigger] seen[i])),
                captured(words, ids, i),
            ) <==> i == ids.len() - 1),
        forall|i: int|
            0 <= i < ids.len() - 1 ==> counter(registered_all(words, ids.take(#[trigger] seen[i])))
                > captured(words, ids, i),
{
    lemma_registrations_accumulate(words, ids);
    assert forall|i: int| 0 <= i < ids.len() implies counter(
        registered_all(words, ids.take(#[trigger] seen[i])),
    ) == counter(words) + seen[i] && registered_all(words, ids.take(seen[i])).len() == words.len() by {
        lemma_registrations_accumulate(words, ids.take(seen[i]));
    }
}

/// The winner of a burst reads the presses of the burst behind those
/// that the segment held before; on a segment that was fresh when the
/// burst began, the chord is the burst itself, press for press.
pub proof fn lemma_winner_reads_the_burst(words: Seq<u32>, ids: Seq<u32>)
    requires
        room_for(words, ids.len() as int),
        ids.len() >= 1,
    ensures
        wins(registered_all(words, ids), captured(words, ids, ids.len() - 1)),
        well_formed(registered_all(words, ids)),
        arrivals(registered_all(words, ids)) == arrivals(words) + ids,
        fresh(words) ==> arrivals(registered_all(words, ids)) == ids,
        fresh(words) ==> arrivals(registered_all(words, ids)).len() == ids.len(),
{
    lemma_registrations_accumulate(words, ids);
    assert(ids.take(ids.len() as int) =~= ids);
    if fresh(words) {
        assert(arrivals(words) + ids =~= ids);
    }
}

/// A press with no other press within its debounce window wins with a
/// chord of its own: on a fresh segment it captures position 1, finds the
/// counter unchanged at its election, and reads just itself.
pub proof fn lemma_solitary_press(words: Seq<u32>, id: u32)
    requires
        fresh(words),
        capacity(words) >= 1,
    ensures
        has_room(words),
        counter(registered(words, id)) == 1,
        wins(registered(words, id), 1),
        well_formed(registered(words, id)),
        arrivals(registered(words, id)) == seq![id],
{
    lemma_registered(words, id);
    assert(arrivals(words).push(id) =~= seq![id]);
}

} // verus!
