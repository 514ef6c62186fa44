//! The actor wrapper itself: the dispatch queue, the worker that drains
//! it, the per-call result slots, and the shutdown protocol.

use vstd::pervasive::unreached;
use vstd::prelude::*;

verus! {

/// A unit of work that the worker can apply to the wrapped state.
///
/// One value of an implementing type is one scheduled operation: it is
/// consumed by `apply`, exactly as a once-callable closure would be. The
/// spec functions give the operation's meaning over the state's view:
/// `enabled` says on which states applying it is permitted, `next` gives
/// the state it leaves behind, and `output` the value it hands back to
/// the caller that scheduled it.
pub trait Operation<T: View>: Sized {
    type Output: View;

    spec fn enabled(&self, s: <T as View>::V) -> bool;

    spec fn next(&self, s: <T as View>::V) -> <T as View>::V;

    spec fn output(&self, s: <T as View>::V) -> <Self::Output as View>::V;

    fn apply(self, state: &mut T) -> (r: Self::Output)
        requires
            self.enabled(old(state)@),
        ensures
            final(state)@ == self.next(old(state)@),
            r@ == self.output(old(state)@),
    ;
}

/// An operation that never changes the state it is applied to.
pub open spec fn read_only<T: View, Op: Operation<T>>(op: Op) -> bool {
    forall|s: <T as View>::V| #[trigger] op.next(s) == s
}

/// The operations of a queue, in submission order, without the
/// handle-liveness flags.
pub open spec fn ops_of<Op>(q: Seq<(Op, bool)>) -> Seq<Op> {
    q.map_values(|e: (Op, bool)| e.0)
}

/// The state after the worker has applied `ops` in order, each exactly
/// once.
pub open spec fn state_after<T: View, Op: Operation<T>>(
    s: <T as View>::V,
    ops: Seq<Op>,
) -> <T as View>::V
    decreases ops.len(),
{
    if ops.len() == 0 {
        s
    } else {
        state_after::<T, Op>(ops[0].next(s), ops.drop_first())
    }
}

/// The outputs the worker produces while applying `ops` in order, by
/// view, one per operation, in the order the operations were submitted.
pub open spec fn outputs_of<T: View, Op: Operation<T>>(
    s: <T as View>::V,
    ops: Seq<Op>,
) -> Seq<<Op::Output as View>::V>
    decreases ops.len(),
{
    if ops.len() == 0 {
        Seq::empty()
    } else {
        seq![ops[0].output(s)] + outputs_of::<T, Op>(ops[0].next(s), ops.drop_first())
    }
}

/// Every operation of `ops` is enabled at its own turn, starting from
/// state `s`.
pub open spec fn all_enabled<T: View, Op: Operation<T>>(s: <T as View>::V, ops: Seq<Op>) -> bool
    decreases ops.len(),
{
    ops.len() == 0 || (ops[0].enabled(s) && all_enabled::<T, Op>(ops[0].next(s), ops.drop_first()))
}

/// Running one queue and then another is the same as running their
/// concatenation: every operation takes effect at its own position,
/// exactly once — none is lost, none is repeated.
pub proof fn lemma_state_after_concat<T: View, Op: Operation<T>>(
    s: <T as View>::V,
    a: Seq<Op>,
    b: Seq<Op>,
)
    ensures
        state_after::<T, Op>(s, a + b) == state_after::<T, Op>(state_after::<T, Op>(s, a), b),
    decreases a.len(),
{
    if a.len() == 0 {
        assert(a + b =~= b);
    } else {
        assert((a + b)[0] == a[0]);
        assert((a + b).drop_first() =~= a.drop_first() + b);
        lemma_state_after_concat::<T, Op>(a[0].next(s), a.drop_first(), b);
    }
}

/// Appending one more operation to a queue folds it onto the state the
/// earlier operations leave behind.
pub proof fn lemma_state_after_push<T: View, Op: Operation<T>>(
    s: <T as View>::V,
    ops: Seq<Op>,
    op: Op,
)
    ensures
        state_after::<T, Op>(s, ops.push(op)) == op.next(state_after::<T, Op>(s, ops)),
{
    assert(ops.push(op) =~= ops + seq![op]);
    lemma_state_after_concat::<T, Op>(s, ops, seq![op]);
    let t = state_after::<T, Op>(s, ops);
    assert(seq![op].drop_first() =~= Seq::<Op>::empty());
    assert(state_after::<T, Op>(t, seq![op]) == state_after::<T, Op>(
        op.next(t),
        Seq::<Op>::empty(),
    ));
    assert(state_after::<T, Op>(op.next(t), Seq::<Op>::empty()) == op.next(t));
}

/// The worker produces one output per operation.
pub proof fn lemma_outputs_len<T: View, Op: Operation<T>>(s: <T as View>::V, ops: Seq<Op>)
    ensures
        outputs_of::<T, Op>(s, ops).len() == ops.len(),
    decreases ops.len(),
{
    if ops.len() != 0 {
        lemma_outputs_len::<T, Op>(ops[0].next(s), ops.drop_first());
    }
}

/// First-in, first-out delivery: the i-th output the worker produces is
/// exactly the output of the i-th operation submitted, evaluated in the
/// state left behind by the operations submitted before it.
pub proof fn lemma_fifo_delivery<T: View, Op: Operation<T>>(
    s: <T as View>::V,
    ops: Seq<Op>,
    i: int,
)
    requires
        0 <= i < ops.len(),
    ensures
        outputs_of::<T, Op>(s, ops).len() == ops.len(),
        outputs_of::<T, Op>(s, ops)[i] == ops[i].output(
            state_after::<T, Op>(s, ops.take(i)),
        ),
    decreases i,
{
    lemma_outputs_len::<T, Op>(s, ops);
    lemma_outputs_len::<T, Op>(ops[0].next(s), ops.drop_first());
    if i == 0 {
        assert(ops.take(0) =~= Seq::<Op>::empty());
    } else {
        lemma_fifo_delivery::<T, Op>(ops[0].next(s), ops.drop_first(), i - 1);
        assert(ops.drop_first()[i - 1] == ops[i]);
        assert(ops.take(i)[0] == ops[0]);
        assert(ops.take(i).drop_first() =~= ops.drop_first().take(i - 1));
    }
}

/// Abandoning the handle of the operation at position `k` leaves the
/// worker untouched: it still runs the same operations, reaches the same
/// state and produces the same outputs.
pub proof fn lemma_dropped_handle_leaves_worker_unchanged<T: View, Op: Operation<T>>(
    s: <T as View>::V,
    q: Seq<(Op, bool)>,
    k: int,
)
    requires
        0 <= k < q.len(),
    ensures
        ops_of(q.update(k, (q[k].0, false))) == ops_of(q),
        state_after::<T, Op>(s, ops_of(q.update(k, (q[k].0, false)))) == state_after::<T, Op>(
            s,
            ops_of(q),
        ),
        outputs_of::<T, Op>(s, ops_of(q.update(k, (q[k].0, false)))) == outputs_of::<T, Op>(
            s,
            ops_of(q),
        ),
{
    assert(ops_of(q.update(k, (q[k].0, false))) =~= ops_of(q));
}

/// What the worker leaves in the delivery log for the operation queued at
/// position `j` of queue `q`, run from state `s`: its output where the
/// caller still holds the handle, nothing where the handle was dropped.
pub open spec fn delivery_ok<T: View, Op: Operation<T>>(
    s: <T as View>::V,
    q: Seq<(Op, bool)>,
    j: int,
    entry: Option<Op::Output>,
) -> bool {
    if q[j].1 {
        entry is Some && entry->0@ == outputs_of::<T, Op>(s, ops_of(q))[j]
    } else {
        entry is None
    }
}

/// The actor wrapper: owns a state value, a FIFO dispatch queue of
/// pending operations, and a delivery log holding one slot per executed
/// operation.
///
/// The concurrent system this stands for runs the worker on its own
/// thread, eagerly; here the worker's progress happens inside the calls
/// that wait on it (`await_result`, `shutdown`), which is where that
/// progress first becomes observable. A handle is the index a call
/// returns; the terminate sentinel appears as the `stopped` flag, raised
/// only after the queue has drained.
pub struct Subsystem<T: View, Op: Operation<T>> {
    state: T,
    queue: Vec<(Op, bool)>,
    log: Vec<Option<Op::Output>>,
    stopped: bool,
}

impl<T: View, Op: Operation<T>> Subsystem<T, Op> {
    /// The view of the wrapped state.
    pub closed spec fn current(self) -> <T as View>::V {
        self.state@
    }

    /// The pending operations, oldest first, each with its handle-held
    /// flag.
    pub closed spec fn queued(self) -> Seq<(Op, bool)> {
        self.queue@
    }

    /// The pending operations without their flags.
    pub open spec fn queued_ops(self) -> Seq<Op> {
        ops_of(self.queued())
    }

    /// The delivery log: one slot per executed operation, in execution
    /// order; a slot is empty where the handle was dropped or the result
    /// already consumed.
    pub closed spec fn delivered(self) -> Seq<Option<Op::Output>> {
        self.log@
    }

    /// Whether the worker has observed the terminate sentinel.
    pub closed spec fn stopped_of(self) -> bool {
        self.stopped
    }

    /// How many operations have ever been scheduled (executed plus
    /// pending).
    pub open spec fn scheduled(self) -> int {
        self.delivered().len() + self.queued().len() as int
    }

    /// Handle `h` still refers to a result that will be, or has been,
    /// delivered and has not been consumed or abandoned.
    pub open spec fn live(self, h: int) -> bool {
        &&& 0 <= h < self.scheduled()
        &&& h < self.delivered().len() ==> self.delivered()[h] is Some
        &&& h >= self.delivered().len() ==> self.queued()[h - self.delivered().len()].1
    }

    /// The view of the result that handle `h` is owed: the delivered
    /// value where the operation has run, otherwise the output it will
    /// produce when the worker reaches it.
    pub open spec fn owed(self, h: int) -> <Op::Output as View>::V
        recommends
            self.live(h),
    {
        if h < self.delivered().len() {
            self.delivered()[h]->0@
        } else {
            outputs_of::<T, Op>(self.current(), self.queued_ops())[h - self.delivered().len()]
        }
    }

    /// Wrap a state value. The wrapper starts running with an empty
    /// queue; nothing has been delivered.
    pub fn new(state: T) -> (s: Self)
        ensures
            s.current() == state@,
            s.queued().len() == 0,
            s.delivered().len() == 0,
            !s.stopped_of(),
    {
        Self { state, queue: Vec::new(), log: Vec::new(), stopped: false }
    }

    /// Schedule a mutating operation. Returns immediately with the
    /// operation's handle; the operation runs strictly after everything
    /// queued before it and strictly before everything queued after it.
    pub fn call_mut(&mut self, op: Op) -> (h: usize)
        requires
            !old(self).stopped_of(),
            old(self).scheduled() < usize::MAX,
        ensures
            h as int == old(self).scheduled(),
            final(self).queued() == old(self).queued().push((op, true)),
            final(self).delivered() == old(self).delivered(),
            final(self).current() == old(self).current(),
            !final(self).stopped_of(),
    {
        let h: usize = self.log.len() + self.queue.len();
        self.queue.push((op, true));
        h
    }

    /// Schedule a read-only operation: the same ordering and delivery as
    /// `call_mut`, for operations that leave the state unchanged.
    pub fn call(&mut self, op: Op) -> (h: usize)
        requires
            !old(self).stopped_of(),
            old(self).scheduled() < usize::MAX,
            read_only::<T, Op>(op),
        ensures
            h as int == old(self).scheduled(),
            final(self).queued() == old(self).queued().push((op, true)),
            final(self).delivered() == old(self).delivered(),
            final(self).current() == old(self).current(),
            !final(self).stopped_of(),
    {
        self.call_mut(op)
    }

    /// Abandon the result of handle `h`: the caller stops waiting for
    /// it. The operation itself still runs (or has already run); only
    /// its delivery is discarded. Nothing else is affected.
    pub fn drop_handle(&mut self, h: usize)
        requires
            (h as int) < old(self).scheduled(),
        ensures
            final(self).current() == old(self).current(),
            final(self).stopped_of() == old(self).stopped_of(),
            final(self).delivered().len() == old(self).delivered().len(),
            final(self).queued().len() == old(self).queued().len(),
            final(self).queued_ops() == old(self).queued_ops(),
            forall|i: int|
                0 <= i < old(self).delivered().len() && i != h ==> final(self).delivered()[i]
                    == old(self).delivered()[i],
            h < old(self).delivered().len() ==> final(self).delivered()[h as int] is None,
            forall|j: int|
                0 <= j < old(self).queued().len() && j + old(self).delivered().len() != h
                    ==> final(self).queued()[j] == old(self).queued()[j],
            h >= old(self).delivered().len() ==> final(self).queued()[h - old(
                self,
            ).delivered().len()] == (old(self).queued()[h - old(self).delivered().len()].0, false),
    {
        let executed: usize = self.log.len();
        if h < executed {
            self.log[h] = None;
        } else {
            let j: usize = h - executed;
            let entry = self.queue.remove(j);
            self.queue.insert(j, (entry.0, false));
            proof {
                assert(self.queue@ =~= old(self).queue@.update(j as int, (old(self).queue@[
                    j as int].0, false)));
                assert(ops_of(self.queue@) =~= ops_of(old(self).queue@));
            }
        }
    }

    /// The worker loop: drain the dispatch queue, applying each pending
    /// operation to the state in FIFO order and logging one delivery per
    /// operation — the output where the handle is still held, an empty
    /// slot where it was dropped. A failed delivery is swallowed: the
    /// worker continues with the next operation regardless.
    pub fn run_pending(&mut self)
        requires
            all_enabled::<T, Op>(old(self).current(), old(self).queued_ops()),
        ensures
            final(self).stopped_of() == old(self).stopped_of(),
            final(self).queued().len() == 0,
            final(self).current() == state_after::<T, Op>(
                old(self).current(),
                old(self).queued_ops(),
            ),
            final(self).delivered().len() == old(self).scheduled(),
            forall|i: int|
                0 <= i < old(self).delivered().len() ==> final(self).delivered()[i] == old(
                    self,
                ).delivered()[i],
            forall|j: int|
                0 <= j < old(self).queued().len() ==> #[trigger] delivery_ok::<T, Op>(
                    old(self).current(),
                    old(self).queued(),
                    j,
                    final(self).delivered()[old(self).delivered().len() + j],
                ),
    {
        let ghost s0 = self.state@;
        let ghost q0 = self.queue@;
        let ghost d0 = self.log@;
        while self.queue.len() != 0
            invariant
                self.stopped == old(self).stopped,
                self.queue@.len() <= q0.len(),
                self.log@.len() == d0.len() + q0.len() - self.queue@.len(),
                self.queue@ == q0.skip(q0.len() - self.queue@.len()),
                self.state@ == state_after::<T, Op>(
                    s0,
                    ops_of(q0).take(q0.len() - self.queue@.len()),
                ),
                all_enabled::<T, Op>(self.state@, ops_of(self.queue@)),
                forall|i: int| 0 <= i < d0.len() ==> self.log@[i] == d0[i],
                forall|j: int|
                    0 <= j < q0.len() - self.queue@.len() ==> #[trigger] delivery_ok::<T, Op>(
                        s0,
                        q0,
                        j,
                        self.log@[d0.len() + j],
                    ),
            decreases self.queue.len(),
        {
            let ghost k: int = q0.len() - self.queue@.len();
            let entry = self.queue.remove(0);
            let alive = entry.1;
            proof {
                assert(q0.skip(k)[0] == (entry.0, alive));
                assert(ops_of(q0.skip(k))[0] == entry.0);
                assert(self.queue@ =~= q0.skip(k + 1));
                assert(ops_of(q0.skip(k)).drop_first() =~= ops_of(q0.skip(k + 1)));
            }
            let out = entry.0.apply(&mut self.state);
            if alive {
                self.log.push(Some(out));
            } else {
                self.log.push(None);
            }
            proof {
                assert(ops_of(q0).take(k + 1) =~= ops_of(q0).take(k).push(ops_of(q0)[k]));
                lemma_state_after_push::<T, Op>(s0, ops_of(q0).take(k), ops_of(q0)[k]);
                assert(ops_of(q0)[k] == q0[k].0);
                assert(q0[k] == (entry.0, alive));
                lemma_fifo_delivery::<T, Op>(s0, ops_of(q0), k);
                assert(delivery_ok::<T, Op>(s0, q0, k, self.log@[d0.len() + k]));
            }
        }
        proof {
            assert(ops_of(q0).take(q0.len() as int) =~= ops_of(q0));
        }
    }

    /// Wait for the result owed to handle `h`: the worker catches up on
    /// everything queued, and the slot delivered to `h` is consumed and
    /// handed back.
    pub fn await_result(&mut self, h: usize) -> (r: Op::Output)
        requires
            all_enabled::<T, Op>(old(self).current(), old(self).queued_ops()),
            old(self).live(h as int),
        ensures
            r@ == old(self).owed(h as int),
            final(self).stopped_of() == old(self).stopped_of(),
            final(self).queued().len() == 0,
            final(self).current() == state_after::<T, Op>(
                old(self).current(),
                old(self).queued_ops(),
            ),
            final(self).delivered().len() == old(self).scheduled(),
            final(self).delivered()[h as int] is None,
            forall|i: int|
                0 <= i < old(self).delivered().len() && i != h ==> final(self).delivered()[i]
                    == old(self).delivered()[i],
            forall|j: int|
                0 <= j < old(self).queued().len() && old(self).delivered().len() + j != h
                    ==> #[trigger] delivery_ok::<T, Op>(
                    old(self).current(),
                    old(self).queued(),
                    j,
                    final(self).delivered()[old(self).delivered().len() + j],
                ),
    {
        self.run_pending();
        proof {
            lemma_outputs_len::<T, Op>(old(self).current(), old(self).queued_ops());
            if h >= old(self).delivered().len() {
                let j: int = h - old(self).delivered().len();
                assert(delivery_ok::<T, Op>(
                    old(self).current(),
                    old(self).queued(),
                    j,
                    self.delivered()[old(self).delivered().len() + j],
                ));
            }
        }
        let ghost mid = self.log@;
        let taken = self.log.remove(h);
        self.log.insert(h, None);
        proof {
            assert(self.log@ =~= mid.update(h as int, None));
        }
        match taken {
            Some(r) => r,
            None => unreached(),
        }
    }

    /// Shut the wrapper down: everything queued before this point runs
    /// to completion, then the worker observes the terminate sentinel
    /// and stops. Shutting down an already-stopped wrapper changes
    /// nothing.
    pub fn shutdown(&mut self)
        requires
            all_enabled::<T, Op>(old(self).current(), old(self).queued_ops()),
        ensures
            final(self).stopped_of(),
            final(self).queued().len() == 0,
            final(self).current() == state_after::<T, Op>(
                old(self).current(),
                old(self).queued_ops(),
            ),
            final(self).delivered().len() == old(self).scheduled(),
            forall|i: int|
                0 <= i < old(self).delivered().len() ==> final(self).delivered()[i] == old(
                    self,
                ).delivered()[i],
            forall|j: int|
                0 <= j < old(self).queued().len() ==> #[trigger] delivery_ok::<T, Op>(
                    old(self).current(),
                    old(self).queued(),
                    j,
                    final(self).delivered()[old(self).delivered().len() + j],
                ),
            old(self).queued().len() == 0 ==> (final(self).delivered() == old(self).delivered()
                && final(self).current() == old(self).current()),
    {
        self.run_pending();
        self.stopped = true;
        proof {
            if old(self).queued().len() == 0 {
                assert(self.delivered() =~= old(self).delivered());
                assert(ops_of(old(self).queued()) =~= Seq::<Op>::empty());
            }
        }
    }
}

} // verus!
