use vstd::prelude::*;

verus! {

/// How many of the flags are set.
pub open spec fn count_busy(s: Seq<bool>) -> nat
    decreases s.len(),
{
    if s.len() == 0 {
        0
    } else {
        count_busy(s.drop_last()) + if s.last() { 1nat } else { 0nat }
    }
}

proof fn lemma_count_busy_bound(s: Seq<bool>)
    ensures
        count_busy(s) <= s.len(),
    decreases s.len(),
{
    if s.len() > 0 {
        lemma_count_busy_bound(s.drop_last());
    }
}

/// The number of busy workers, given each worker's busy flag. It never
/// exceeds the number of workers.
pub fn working_num(busy: &Vec<bool>) -> (r: u32)
    requires
        busy@.len() <= u32::MAX,
    ensures
        r == count_busy(busy@),
        r <= busy@.len(),
{
    let mut n: u32 = 0;
    let mut i: usize = 0;
    while i < busy.len()
        invariant
            busy@.len() <= u32::MAX,
            i <= busy@.len(),
            n == count_busy(busy@.subrange(0, i as int)),
            n <= i,
        decreases busy@.len() - i,
    {
        assert(busy@.subrange(0, i + 1).drop_last() =~= busy@.subrange(0, i as int));
        if busy[i] {
            n = n + 1;
        }
        i += 1;
    }
    assert(busy@.subrange(0, busy@.len() as int) =~= busy@);
    proof {
        lemma_count_busy_bound(busy@);
    }
    n
}

} // verus!
