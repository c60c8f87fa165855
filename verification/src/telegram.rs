use vstd::prelude::*;

verus! {

/// The offset that follows `offset` once the updates with these ids have
/// been received: one past the last of them, or `offset` when none came.
pub open spec fn offset_step(offset: int, update_ids: Seq<u32>) -> int {
    if update_ids.len() == 0 {
        offset
    } else {
        update_ids.last() + 1
    }
}

/// The ids of the updates received over a run of polls, in the order in
/// which they came; `None` stands for a poll that failed.
pub open spec fn received_ids(answers: Seq<Option<Seq<u32>>>) -> Seq<u32>
    decreases answers.len(),
{
    if answers.len() == 0 {
        Seq::empty()
    } else {
        received_ids(answers.drop_last()) + match answers.last() {
            Some(ids) => ids,
            None => Seq::empty(),
        }
    }
}

/// The offset of the poll that follows these answers, starting from 0 and
/// moved on by each answer as `next_update_offset` moves it.
pub open spec fn offset_after(answers: Seq<Option<Seq<u32>>>) -> int
    decreases answers.len(),
{
    if answers.len() == 0 {
        0
    } else {
        let o = offset_after(answers.drop_last());
        match answers.last() {
            Some(ids) => offset_step(o, ids),
            None => o,
        }
    }
}

/// Polling asks first for offset 0, and after any run of answers (failed
/// polls among them) for the offset one past the id of the last update
/// received so far, or still 0 when none has come.
pub proof fn law_poll_offset_follows_last_update(answers: Seq<Option<Seq<u32>>>)
    ensures
        offset_after(answers) == if received_ids(answers).len() == 0 {
            0
        } else {
            received_ids(answers).last() + 1
        },
    decreases answers.len(),
{
    if answers.len() > 0 {
        law_poll_offset_follows_last_update(answers.drop_last());
        let prev = received_ids(answers.drop_last());
        match answers.last() {
            Some(ids) => {
                if ids.len() == 0 {
                    assert(received_ids(answers) =~= prev);
                } else {
                    assert((prev + ids).last() == ids.last());
                }
            },
            None => {
                assert(received_ids(answers) =~= prev);
            },
        }
    }
}

/// The offset of the next poll for updates: one past the id of the last
/// update received, or the same offset when none came.
pub fn next_update_offset(offset: u32, update_ids: &Vec<u32>) -> (next: u32)
    requires
        forall|i: int| 0 <= i < update_ids.len() ==> #[trigger] update_ids@[i] < u32::MAX,
    ensures
        next == offset_step(offset as int, update_ids@),
{
    let mut next = offset;
    let mut i: usize = 0;
    while i < update_ids.len()
        invariant
            i <= update_ids.len(),
            forall|k: int| 0 <= k < update_ids.len() ==> #[trigger] update_ids@[k] < u32::MAX,
            next == if i == 0 {
                offset as int
            } else {
                update_ids@[i - 1] + 1
            },
        decreases update_ids.len() - i,
    {
        next = update_ids[i] + 1;
        i = i + 1;
    }
    next
}

} // verus!
