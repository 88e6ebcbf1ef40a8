use vstd::prelude::*;

verus! {

/// What happens to a validator.
#[derive(Clone, Copy, Debug, PartialEq, Eq, Structural)]
pub enum Event {
    /// A block has reached the validator (block 0 is the start signal).
    BlockReceived { block_id: u64 },
    /// The validator finished a VDF rooted at `input_block_id`, drawing `weight`
    /// for a block at `output_block_height`.
    VdfFinished { input_block_id: u64, output_block_height: u64, weight: u64 },
}

/// An event scheduled at a tick for one validator.
#[derive(Clone, Copy, Debug, PartialEq, Eq, Structural)]
pub struct TimedEvent {
    pub time: u64,
    pub validator_id: usize,
    pub event: Event,
}

/// `e` is scheduled no later than any event of `pool`.
pub open spec fn is_earliest(pool: Seq<TimedEvent>, e: TimedEvent) -> bool {
    forall|j: int| 0 <= j < pool.len() ==> e.time <= #[trigger] pool[j].time
}

/// Removes and returns the earliest event of the pool; of several with the same time, the
/// one scheduled first.
pub fn pop_earliest(pool: &mut Vec<TimedEvent>) -> (r: Option<TimedEvent>)
    ensures
        old(pool)@.len() == 0 <==> r is None,
        r is None ==> final(pool)@ == old(pool)@,
        r matches Some(e) ==> exists|i: int|
            0 <= i < old(pool)@.len() && old(pool)@[i] == e && final(pool)@ == old(pool)@.remove(i)
                && (forall|j: int| 0 <= j < i ==> e.time < #[trigger] old(pool)@[j].time),
        r matches Some(e) ==> is_earliest(old(pool)@, e),
{
    if pool.len() == 0 {
        return None;
    }
    let mut best: usize = 0;
    let mut i: usize = 1;
    while i < pool.len()
        invariant
            1 <= i <= pool.len(),
            best < i,
            forall|j: int| 0 <= j < i ==> pool@[best as int].time <= #[trigger] pool@[j].time,
            forall|j: int| 0 <= j < best ==> pool@[best as int].time < #[trigger] pool@[j].time,
        decreases pool.len() - i,
    {
        if pool[i].time < pool[best].time {
            best = i;
        }
        i = i + 1;
    }
    let e = pool.remove(best);
    Some(e)
}

} // verus!
