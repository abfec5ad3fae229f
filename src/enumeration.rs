use vstd::prelude::*;

verus! {

/// Module handles that the first enumeration call has room for.
pub const DEFAULT_MODULE_CAPACITY: usize = 1024;

/// Bytes that one module handle takes in an enumeration reply.
pub const HANDLE_BYTES: u32 = 8;

/// What to do after an enumeration call reported the size it needs.
#[derive(Clone, Copy, Debug, PartialEq, Eq)]
pub enum EnumStep {
    /// The buffer was too small: call again with exactly this capacity.
    Grow(usize),
    /// The buffer held everything: this many handles are valid.
    Accept(usize),
}

/// The step that one reply calls for.
pub open spec fn step_of(capacity: usize, required: usize) -> EnumStep {
    if required > capacity {
        EnumStep::Grow(required)
    } else {
        EnumStep::Accept(required)
    }
}

/// Decides on one reply of the growing-buffer protocol: `required` handles
/// were needed, `capacity` were offered.
pub fn next_step(capacity: usize, required: usize) -> (r: EnumStep)
    ensures
        r == step_of(capacity, required),
{
    if required > capacity {
        EnumStep::Grow(required)
    } else {
        EnumStep::Accept(required)
    }
}

/// The number of whole handles in a reply of `bytes` bytes.
pub fn handles_in(bytes: u32) -> (r: usize)
    ensures
        r == bytes / HANDLE_BYTES,
{
    (bytes / HANDLE_BYTES) as usize
}

/// The protocol run against a facility whose reply to call `i` is
/// `replies[i]`, from call `i` on with a buffer of `capacity`: the number of
/// calls made in all, the final capacity and the number of handles taken,
/// or `None` where the replies run out first.
pub open spec fn run_from(replies: Seq<usize>, capacity: usize, i: nat) -> Option<
    (nat, usize, usize),
>
    decreases replies.len() - i,
{
    if i >= replies.len() {
        None
    } else {
        match step_of(capacity, replies[i as int]) {
            EnumStep::Grow(c) => run_from(replies, c, i + 1),
            EnumStep::Accept(n) => Some(((i + 1) as nat, capacity, n)),
        }
    }
}

/// The largest of `m` and the elements of `s`.
pub open spec fn max_of(m: usize, s: Seq<usize>) -> usize
    decreases s.len(),
{
    if s.len() == 0 {
        m
    } else {
        let f = max_of(m, s.drop_last());
        if s.last() > f {
            s.last()
        } else {
            f
        }
    }
}

/// A finished run never truncates: it takes exactly the last reply, which
/// fits the final buffer, and that buffer is the initial one or exactly the
/// size that the last growing reply asked for.
pub proof fn lemma_run_shape(replies: Seq<usize>, capacity: usize, i: nat)
    ensures
        match run_from(replies, capacity, i) {
            Some((calls, cap, taken)) => {
                &&& i < calls <= replies.len()
                &&& taken == replies[calls - 1]
                &&& taken <= cap
                &&& calls == i + 1 ==> cap == capacity
                &&& calls > i + 1 ==> cap == replies[calls - 2]
            },
            None => true,
        },
    decreases replies.len() - i,
{
    if i < replies.len() && replies[i as int] > capacity {
        lemma_run_shape(replies, replies[i as int], i + 1);
    }
}

proof fn lemma_run_bounded(replies: Seq<usize>, initial: usize, k: nat, i: nat)
    requires
        k < replies.len(),
        i <= k,
        forall|j: int| k <= j < replies.len() ==> replies[j] <= max_of(initial, replies.take(k as int)),
    ensures
        match run_from(replies, max_of(initial, replies.take(i as int)), i) {
            Some((calls, _, _)) => calls <= k + 1,
            None => false,
        },
    decreases k - i,
{
    let cap = max_of(initial, replies.take(i as int));
    assert(replies.take(i + 1 as int).drop_last() =~= replies.take(i as int));
    if i == k {
    } else if replies[i as int] > cap {
        lemma_run_bounded(replies, initial, k, i + 1);
    }
}

/// Against a facility that reports a larger size than any before it during
/// its first `k` replies at most, the protocol makes at most `k + 1` calls,
/// and ends on a buffer that holds the whole last reply: the initial one, or
/// one sized exactly to the last size that made it grow.
pub proof fn lemma_growing_buffer(replies: Seq<usize>, initial: usize, k: nat)
    requires
        k < replies.len(),
        forall|j: int| k <= j < replies.len() ==> replies[j] <= max_of(initial, replies.take(k as int)),
    ensures
        run_from(replies, initial, 0) is Some,
        ({
            let (calls, cap, taken) = run_from(replies, initial, 0)->Some_0;
            &&& 1 <= calls <= k + 1
            &&& taken == replies[calls - 1]
            &&& taken <= cap
            &&& calls == 1 ==> cap == initial
            &&& calls > 1 ==> cap == replies[calls - 2]
        }),
{
    assert(replies.take(0) =~= Seq::<usize>::empty());
    lemma_run_bounded(replies, initial, k, 0);
    lemma_run_shape(replies, initial, 0);
}

} // verus!
