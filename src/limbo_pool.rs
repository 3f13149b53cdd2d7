//! The limbo which dropped streams are sent to if send buffer preservation is enabled.
//!
//! Dropping a named pipe handle discards its send buffer. To let a connection be dropped
//! right after it sent a last message, the sender of that message is kept alive here, in a
//! pool of fixed size, until it completes.
use vstd::prelude::*;

verus! {

/// How many senders a pool holds at most.
pub const LIMBO_SLOTS: usize = 16;

/// Result of an operation that completes with no output but may reject its input, which
/// then comes back to the caller for another try.
pub type MaybeReject<T> = Result<(), T>;

/// A pool of at most `LIMBO_SLOTS` senders, kept in the order in which they came.
pub struct LimboPool<S> {
    senders: Vec<S>,
    count_including_overflow: usize,
}

/// A call of `f` on a slot that held `before`, with the accumulant `acc`, may return `r`.
pub open spec fn attempted<S, T, F: FnMut(&mut S, T) -> MaybeReject<T>>(
    f: F,
    before: S,
    acc: T,
    r: MaybeReject<T>,
) -> bool {
    exists|s: &mut S| *s == before && #[trigger] call_ensures(f, (s, acc), r)
}

/// The slots `before` were offered the accumulant in order: the first `j` rejected it,
/// each handing back `accs[i + 1]`; slot `j`, if there is one, accepted `accs[j]`, and no
/// slot after it was touched; if every slot rejected, `r` holds the last accumulant. `after`
/// is what the slots hold at the end.
pub open spec fn tried_in_order<S, T, F: FnMut(&mut S, T) -> MaybeReject<T>>(
    f: F,
    before: Seq<S>,
    after: Seq<S>,
    acc: T,
    r: MaybeReject<T>,
    j: int,
    accs: Seq<T>,
) -> bool {
    &&& before.len() == after.len()
    &&& 0 <= j <= before.len()
    &&& accs.len() == j + 1
    &&& accs[0] == acc
    &&& forall|i: int|
        0 <= i < j ==> #[trigger] attempted(f, before[i], accs[i], Err(accs[i + 1]))
    &&& forall|i: int| j < i < before.len() ==> #[trigger] after[i] == before[i]
    &&& if j < before.len() {
        &&& r is Ok
        &&& exists|o: MaybeReject<T>| o is Ok && #[trigger] attempted(f, before[j], accs[j], o)
    } else {
        r == Err::<(), T>(accs[j])
    }
}

/// What `linear_try` does: offer `acc` to the slots in order until one accepts it.
pub open spec fn linear_try_outcome<S, T, F: FnMut(&mut S, T) -> MaybeReject<T>>(
    f: F,
    before: Seq<S>,
    after: Seq<S>,
    acc: T,
    r: MaybeReject<T>,
) -> bool {
    exists|j: int, accs: Seq<T>| #[trigger] tried_in_order(f, before, after, acc, r, j, accs)
}

/// What `linear_try_or_create` does once the `linear_try` that left `mid` in the slots
/// returned `r`: on a rejection, a sender made by `createf` from the next index joins the
/// pool where there is room, and `fullf` gets the attempt number where there is none. Both
/// count as one attempt.
pub open spec fn created_or_full<S, T, C: FnOnce(usize, T) -> S, X: FnOnce(usize, T)>(
    createf: C,
    fullf: X,
    mid: Seq<S>,
    r: MaybeReject<T>,
    attempts_before: nat,
    after: Seq<S>,
    attempts_after: nat,
) -> bool {
    match r {
        Ok(()) => after == mid && attempts_after == attempts_before,
        Err(a) => {
            &&& attempts_after == attempts_before + 1
            &&& if mid.len() < LIMBO_SLOTS {
                exists|c: S|
                    #[trigger] call_ensures(createf, (mid.len() as usize, a), c) && after
                        == mid.push(c)
            } else {
                call_ensures(fullf, (attempts_before as usize, a), ()) && after == mid
            }
        },
    }
}

/// What `linear_try_or_create` does to a pool that held `before`, with `attempts_before`
/// attempts counted, leaving `after` and `attempts_after`.
pub open spec fn try_or_create_outcome<
    S,
    T,
    F: FnMut(&mut S, T) -> MaybeReject<T>,
    C: FnOnce(usize, T) -> S,
    X: FnOnce(usize, T),
>(
    tryf: F,
    createf: C,
    fullf: X,
    before: Seq<S>,
    attempts_before: nat,
    after: Seq<S>,
    attempts_after: nat,
    acc: T,
) -> bool {
    exists|mid: Seq<S>, r: MaybeReject<T>|
        #[trigger] linear_try_outcome(tryf, before, mid, acc, r) && created_or_full(
            createf,
            fullf,
            mid,
            r,
            attempts_before,
            after,
            attempts_after,
        )
}

/// What `add_sender` does to a pool that held `before`: `s` joins it where there is room,
/// and comes back otherwise.
pub open spec fn add_sender_outcome<S>(
    before: Seq<S>,
    s: S,
    after: Seq<S>,
    r: MaybeReject<S>,
) -> bool {
    if before.len() < LIMBO_SLOTS {
        r is Ok && after == before.push(s)
    } else {
        r == Err::<(), S>(s) && after == before
    }
}

impl<S> LimboPool<S> {
    /// The senders in the pool, oldest first.
    pub closed spec fn senders(&self) -> Seq<S> {
        self.senders@
    }

    /// How many senders were ever offered to the pool, those turned away included.
    pub closed spec fn attempts(&self) -> nat {
        self.count_including_overflow as nat
    }

    /// The pool holds at most `LIMBO_SLOTS` senders, and no more than were offered.
    pub open spec fn wf(&self) -> bool {
        &&& self.senders().len() <= LIMBO_SLOTS
        &&& self.senders().len() <= self.attempts()
        &&& self.attempts() <= usize::MAX
    }

    /// Number of senders in the pool.
    pub fn count(&self) -> (r: usize)
        ensures
            r == self.senders().len(),
    {
        self.senders.len()
    }

    /// Number of senders ever offered to the pool, those turned away included.
    pub fn count_including_overflow(&self) -> (r: usize)
        ensures
            r == self.attempts(),
    {
        self.count_including_overflow
    }

    /// The sender in slot `i`.
    pub fn sender(&self, i: usize) -> (r: &S)
        requires
            i < self.senders().len(),
        ensures
            *r == self.senders()[i as int],
    {
        &self.senders[i]
    }

    /// Puts `s` in the next free slot, or hands it back when the pool is full. Either way
    /// the attempt is counted.
    pub fn add_sender(&mut self, s: S) -> (r: MaybeReject<S>)
        requires
            old(self).wf(),
            old(self).attempts() < usize::MAX,
        ensures
            final(self).wf(),
            final(self).attempts() == old(self).attempts() + 1,
            add_sender_outcome(old(self).senders(), s, final(self).senders(), r),
    {
        self.count_including_overflow = self.count_including_overflow + 1;
        if self.senders.len() < LIMBO_SLOTS {
            self.senders.push(s);
            Ok(())
        } else {
            Err(s)
        }
    }

    /// Offers `acc` to the senders through `f`, oldest first, until one accepts it. A sender
    /// that rejects it hands it back, and the next one is offered what came back. When every
    /// sender rejected it, the last accumulant is returned.
    pub fn linear_try<T, F: FnMut(&mut S, T) -> MaybeReject<T>>(&mut self, acc: T, f: F) -> (r:
        MaybeReject<T>)
        requires
            old(self).wf(),
            forall|s: &mut S, a: T| call_requires(f, (s, a)),
        ensures
            final(self).wf(),
            final(self).attempts() == old(self).attempts(),
            linear_try_outcome(f, old(self).senders(), final(self).senders(), acc, r),
            forall|i: int|
                0 <= i < old(self).senders().len() && final(self).senders()[i] != old(
                    self,
                ).senders()[i] ==> exists|s: &mut S, a: T, o: MaybeReject<T>|
                    *s == old(self).senders()[i] && mut_ref_future(s) == final(self).senders()[i]
                        && #[trigger] call_ensures(f, (s, a), o),
    {
        let ghost f0 = f;
        let ghost acc0 = acc;
        let mut f = f;
        let mut acc: Option<T> = Some(acc);
        let mut accepted = false;
        let ghost mut accs: Seq<T> = seq![acc0];
        let mut i: usize = 0;
        while i < self.senders.len()
            invariant_except_break
                !accepted,
                acc == Some(accs[i as int]),
                forall|k: int|
                    i <= k < self.senders@.len() ==> #[trigger] self.senders@[k] == old(
                        self,
                    ).senders@[k],
            invariant
                old(self).wf(),
                self.senders@.len() == old(self).senders@.len(),
                self.count_including_overflow == old(self).count_including_overflow,
                0 <= i <= self.senders@.len(),
                f == f0,
                forall|s: &mut S, a: T| call_requires(f0, (s, a)),
                accs.len() == i + 1,
                accs[0] == acc0,
                forall|k: int|
                    0 <= k < i ==> #[trigger] attempted(
                        f0,
                        old(self).senders@[k],
                        accs[k],
                        Err(accs[k + 1]),
                    ),
                forall|k: int|
                    0 <= k < self.senders@.len() && self.senders@[k] != old(self).senders@[k]
                        ==> exists|s: &mut S, a: T, o: MaybeReject<T>|
                        *s == old(self).senders@[k] && mut_ref_future(s) == self.senders@[k]
                            && #[trigger] call_ensures(f0, (s, a), o),
            ensures
                old(self).wf(),
                self.senders@.len() == old(self).senders@.len(),
                self.count_including_overflow == old(self).count_including_overflow,
                accepted ==> tried_in_order(
                    f0,
                    old(self).senders(),
                    self.senders(),
                    acc0,
                    Ok(()),
                    i as int,
                    accs,
                ),
                !accepted ==> i == self.senders@.len() && acc is Some && tried_in_order(
                    f0,
                    old(self).senders(),
                    self.senders(),
                    acc0,
                    Err(acc->Some_0),
                    i as int,
                    accs,
                ),
                forall|k: int|
                    0 <= k < self.senders@.len() && self.senders@[k] != old(self).senders@[k]
                        ==> exists|s: &mut S, a: T, o: MaybeReject<T>|
                        *s == old(self).senders@[k] && mut_ref_future(s) == self.senders@[k]
                            && #[trigger] call_ensures(f0, (s, a), o),
            decreases self.senders@.len() - i,
        {
            let slot = &mut self.senders[i];
            let res = f(slot, acc.unwrap());
            assert(attempted(f0, old(self).senders@[i as int], accs[i as int], res));
            match res {
                Ok(()) => {
                    accepted = true;
                    acc = None;
                    assert(tried_in_order(
                        f0,
                        old(self).senders(),
                        self.senders(),
                        acc0,
                        Ok(()),
                        i as int,
                        accs,
                    ));
                    break;
                },
                Err(back) => {
                    acc = Some(back);
                    proof {
                        accs = accs.push(back);
                    }
                },
            }
            i = i + 1;
        }
        if accepted {
            Ok(())
        } else {
            Err(acc.unwrap())
        }
    }

    /// Performs `linear_try` with `acc` and `tryf`. When every sender rejected the
    /// accumulant, a new sender is made from the next index and what came back, by `createf`,
    /// and put in the pool where there is room; where there is none, `fullf` gets the attempt
    /// number and what came back. Either way the attempt is counted.
    pub fn linear_try_or_create<T, F, C, X>(&mut self, acc: T, tryf: F, createf: C, fullf: X) where
        F: FnMut(&mut S, T) -> MaybeReject<T>,
        C: FnOnce(usize, T) -> S,
        X: FnOnce(usize, T),

        requires
            old(self).wf(),
            old(self).attempts() < usize::MAX,
            forall|s: &mut S, a: T| call_requires(tryf, (s, a)),
            forall|i: usize, a: T| call_requires(createf, (i, a)),
            forall|i: usize, a: T| call_requires(fullf, (i, a)),
        ensures
            final(self).wf(),
            try_or_create_outcome(
                tryf,
                createf,
                fullf,
                old(self).senders(),
                old(self).attempts(),
                final(self).senders(),
                final(self).attempts(),
                acc,
            ),
            forall|i: int|
                0 <= i < old(self).senders().len() && final(self).senders()[i] != old(
                    self,
                ).senders()[i] ==> exists|s: &mut S, a: T, o: MaybeReject<T>|
                    *s == old(self).senders()[i] && mut_ref_future(s) == final(self).senders()[i]
                        && #[trigger] call_ensures(tryf, (s, a), o),
    {
        let r = self.linear_try(acc, tryf);
        let ghost r0 = r;
        let ghost mid = self.senders@;
        match r {
            Ok(()) => {},
            Err(back) => {
                if self.senders.len() < LIMBO_SLOTS {
                    let index = self.senders.len();
                    let s = createf(index, back);
                    let _ = self.add_sender(s);
                    assert(self.senders@ == mid.push(s));
                } else {
                    fullf(self.count_including_overflow, back);
                    self.count_including_overflow = self.count_including_overflow + 1;
                }
            },
        }
        assert(created_or_full(
            createf,
            fullf,
            mid,
            r0,
            old(self).attempts(),
            self.senders(),
            self.attempts(),
        ));
    }
}

impl<S> Default for LimboPool<S> {
    /// An empty pool.
    fn default() -> (r: Self)
        ensures
            r.wf(),
            r.senders() == Seq::<S>::empty(),
            r.attempts() == 0,
    {
        LimboPool { senders: Vec::new(), count_including_overflow: 0 }
    }
}

/// Senders offered one by one to an empty pool all join it, in order, up to
/// `LIMBO_SLOTS`; every one offered after that is handed back as it was.
pub proof fn lemma_add_sender_fills_then_rejects<S>(
    states: Seq<Seq<S>>,
    items: Seq<S>,
    results: Seq<MaybeReject<S>>,
)
    requires
        states.len() == items.len() + 1,
        results.len() == items.len(),
        states[0].len() == 0,
        forall|k: int|
            0 <= k < items.len() ==> #[trigger] add_sender_outcome(
                states[k],
                items[k],
                states[k + 1],
                results[k],
            ),
    ensures
        forall|k: int|
            0 <= k < items.len() && k < LIMBO_SLOTS ==> #[trigger] results[k] is Ok
                && states[k + 1].len() == k + 1 && states[k + 1][k] == items[k],
        forall|k: int|
            0 <= k < items.len() && k >= LIMBO_SLOTS ==> #[trigger] results[k] == Err::<
                (),
                S,
            >(items[k]) && states[k + 1].len() == LIMBO_SLOTS,
    decreases items.len(),
{
    if items.len() > 0 {
        let n = items.len() - 1;
        lemma_add_sender_fills_then_rejects(
            states.take(n + 1),
            items.take(n),
            results.take(n),
        );
        assert forall|k: int| 0 <= k < n implies #[trigger] add_sender_outcome(
            states[k],
            items[k],
            states[k + 1],
            results[k],
        ) by {}
        assert(add_sender_outcome(states[n], items[n], states[n + 1], results[n]));
        if n > 0 {
            assert(results.take(n)[n - 1] == results[n - 1]);
            assert(states.take(n + 1)[n] == states[n]);
        }
        assert forall|k: int|
            0 <= k < items.len() && k < LIMBO_SLOTS implies #[trigger] results[k] is Ok
                && states[k + 1].len() == k + 1 && states[k + 1][k] == items[k] by {
            if k < n {
                assert(results.take(n)[k] == results[k]);
                assert(states.take(n + 1)[k + 1] == states[k + 1]);
            }
        }
        assert forall|k: int|
            0 <= k < items.len() && k >= LIMBO_SLOTS implies #[trigger] results[k] == Err::<
                (),
                S,
            >(items[k]) && states[k + 1].len() == LIMBO_SLOTS by {
            if k < n {
                assert(results.take(n)[k] == results[k]);
                assert(states.take(n + 1)[k + 1] == states[k + 1]);
            }
        }
    }
}

/// When every slot before slot `k` rejects whatever it is offered and slot `k` accepts
/// whatever it is offered, `linear_try` succeeds at slot `k` and leaves every later slot
/// as it was: the slots are offered the accumulant strictly in order.
pub proof fn lemma_first_accepting_slot_wins<S, T, F: FnMut(&mut S, T) -> MaybeReject<T>>(
    f: F,
    before: Seq<S>,
    after: Seq<S>,
    acc: T,
    r: MaybeReject<T>,
    k: int,
)
    requires
        linear_try_outcome(f, before, after, acc, r),
        0 <= k < before.len(),
        forall|i: int, a: T, o: MaybeReject<T>|
            0 <= i < k && #[trigger] attempted(f, before[i], a, o) ==> o is Err,
        forall|a: T, o: MaybeReject<T>| #[trigger] attempted(f, before[k], a, o) ==> o is Ok,
    ensures
        r is Ok,
        forall|i: int| k < i < before.len() ==> #[trigger] after[i] == before[i],
{
    let (j, accs) = choose|j: int, accs: Seq<T>| tried_in_order(f, before, after, acc, r, j, accs);
    if j < k {
        let o = choose|o: MaybeReject<T>| o is Ok && attempted(f, before[j], accs[j], o);
        assert(attempted(f, before[j], accs[j], o));
    } else if j > k {
        assert(attempted(f, before[k], accs[k], Err(accs[k + 1])));
    }
}

/// When every slot rejects the accumulant and hands back just what it was offered,
/// `linear_try` returns the accumulant it was given.
pub proof fn lemma_rejections_hand_back_the_accumulant<
    S,
    T,
    F: FnMut(&mut S, T) -> MaybeReject<T>,
>(f: F, before: Seq<S>, after: Seq<S>, acc: T, r: MaybeReject<T>)
    requires
        linear_try_outcome(f, before, after, acc, r),
        forall|i: int, a: T, o: MaybeReject<T>|
            0 <= i < before.len() && #[trigger] attempted(f, before[i], a, o) ==> o == Err::<
                (),
                T,
            >(a),
    ensures
        r == Err::<(), T>(acc),
        after.len() == before.len(),
{
    let (j, accs) = choose|j: int, accs: Seq<T>| tried_in_order(f, before, after, acc, r, j, accs);
    if j < before.len() {
        let o = choose|o: MaybeReject<T>| o is Ok && attempted(f, before[j], accs[j], o);
        assert(attempted(f, before[j], accs[j], o));
    } else {
        lemma_handed_back_unchanged(f, before, acc, accs, j);
    }
}

proof fn lemma_handed_back_unchanged<S, T, F: FnMut(&mut S, T) -> MaybeReject<T>>(
    f: F,
    before: Seq<S>,
    acc: T,
    accs: Seq<T>,
    k: int,
)
    requires
        0 <= k < accs.len(),
        accs.len() <= before.len() + 1,
        accs[0] == acc,
        forall|i: int|
            0 <= i < accs.len() - 1 ==> #[trigger] attempted(
                f,
                before[i],
                accs[i],
                Err(accs[i + 1]),
            ),
        forall|i: int, a: T, o: MaybeReject<T>|
            0 <= i < before.len() && #[trigger] attempted(f, before[i], a, o) ==> o == Err::<
                (),
                T,
            >(a),
    ensures
        accs[k] == acc,
    decreases k,
{
    if k > 0 {
        lemma_handed_back_unchanged(f, before, acc, accs, k - 1);
        assert(attempted(f, before[k - 1], accs[k - 1], Err(accs[(k - 1) + 1])));
    }
}

/// On an empty pool, `linear_try_or_create` makes a sender from index 0 and the accumulant,
/// which then fills the first slot.
pub proof fn lemma_create_in_empty_pool<
    S,
    T,
    F: FnMut(&mut S, T) -> MaybeReject<T>,
    C: FnOnce(usize, T) -> S,
    X: FnOnce(usize, T),
>(
    tryf: F,
    createf: C,
    fullf: X,
    before: Seq<S>,
    attempts_before: nat,
    after: Seq<S>,
    attempts_after: nat,
    acc: T,
)
    requires
        before.len() == 0,
        try_or_create_outcome(
            tryf,
            createf,
            fullf,
            before,
            attempts_before,
            after,
            attempts_after,
            acc,
        ),
    ensures
        after.len() == 1,
        call_ensures(createf, (0usize, acc), after[0]),
        attempts_after == attempts_before + 1,
{
    let (mid, r) = choose|mid: Seq<S>, r: MaybeReject<T>|
        #[trigger] linear_try_outcome(tryf, before, mid, acc, r) && created_or_full(
            createf,
            fullf,
            mid,
            r,
            attempts_before,
            after,
            attempts_after,
        );
    let (j, accs) = choose|j: int, accs: Seq<T>| tried_in_order(tryf, before, mid, acc, r, j, accs);
    assert(r == Err::<(), T>(acc));
    let c = choose|c: S| #[trigger] call_ensures(createf, (0usize, acc), c) && after == mid.push(c);
    assert(after[0] == c);
}

/// On a full pool whose senders reject whatever they are offered, each of two calls of
/// `linear_try_or_create` hands the accumulant to its `fullf` (a `FnOnce`, so once at most)
/// along with the attempt number, which grows by one from the first call to the second; the
/// pool keeps its size.
pub proof fn lemma_full_pool_counts_attempts<
    S,
    T,
    F1: FnMut(&mut S, T) -> MaybeReject<T>,
    C1: FnOnce(usize, T) -> S,
    X1: FnOnce(usize, T),
    F2: FnMut(&mut S, T) -> MaybeReject<T>,
    C2: FnOnce(usize, T) -> S,
    X2: FnOnce(usize, T),
>(
    tryf1: F1,
    createf1: C1,
    fullf1: X1,
    tryf2: F2,
    createf2: C2,
    fullf2: X2,
    before: Seq<S>,
    attempts_before: nat,
    between: Seq<S>,
    attempts_between: nat,
    after: Seq<S>,
    attempts_after: nat,
    acc1: T,
    acc2: T,
)
    requires
        before.len() == LIMBO_SLOTS,
        try_or_create_outcome(
            tryf1,
            createf1,
            fullf1,
            before,
            attempts_before,
            between,
            attempts_between,
            acc1,
        ),
        try_or_create_outcome(
            tryf2,
            createf2,
            fullf2,
            between,
            attempts_between,
            after,
            attempts_after,
            acc2,
        ),
        forall|i: int, a: T, o: MaybeReject<T>|
            0 <= i < before.len() && #[trigger] attempted(tryf1, before[i], a, o) ==> o is Err,
        forall|i: int, a: T, o: MaybeReject<T>|
            0 <= i < between.len() && #[trigger] attempted(tryf2, between[i], a, o) ==> o is Err,
    ensures
        between.len() == LIMBO_SLOTS,
        after.len() == LIMBO_SLOTS,
        attempts_between == attempts_before + 1,
        attempts_after == attempts_before + 2,
        exists|a: T| #[trigger] call_ensures(fullf1, (attempts_before as usize, a), ()),
        exists|a: T| #[trigger] call_ensures(fullf2, ((attempts_before + 1) as usize, a), ()),
{
    lemma_all_reject_reaches_full(
        tryf1,
        createf1,
        fullf1,
        before,
        attempts_before,
        between,
        attempts_between,
        acc1,
    );
    lemma_all_reject_reaches_full(
        tryf2,
        createf2,
        fullf2,
        between,
        attempts_between,
        after,
        attempts_after,
        acc2,
    );
}

/// On a full pool whose senders reject whatever they are offered, `linear_try_or_create`
/// hands the accumulant to `fullf` along with the attempt count, then counts one more.
pub proof fn lemma_all_reject_reaches_full<
    S,
    T,
    F: FnMut(&mut S, T) -> MaybeReject<T>,
    C: FnOnce(usize, T) -> S,
    X: FnOnce(usize, T),
>(
    tryf: F,
    createf: C,
    fullf: X,
    before: Seq<S>,
    attempts_before: nat,
    after: Seq<S>,
    attempts_after: nat,
    acc: T,
)
    requires
        before.len() == LIMBO_SLOTS,
        try_or_create_outcome(
            tryf,
            createf,
            fullf,
            before,
            attempts_before,
            after,
            attempts_after,
            acc,
        ),
        forall|i: int, a: T, o: MaybeReject<T>|
            0 <= i < before.len() && #[trigger] attempted(tryf, before[i], a, o) ==> o is Err,
    ensures
        after.len() == LIMBO_SLOTS,
        attempts_after == attempts_before + 1,
        exists|a: T| #[trigger] call_ensures(fullf, (attempts_before as usize, a), ()),
{
    let (mid, r) = choose|mid: Seq<S>, r: MaybeReject<T>|
        #[trigger] linear_try_outcome(tryf, before, mid, acc, r) && created_or_full(
            createf,
            fullf,
            mid,
            r,
            attempts_before,
            after,
            attempts_after,
        );
    let (j, accs) = choose|j: int, accs: Seq<T>| tried_in_order(tryf, before, mid, acc, r, j, accs);
    if j < before.len() {
        let o = choose|o: MaybeReject<T>| o is Ok && attempted(tryf, before[j], accs[j], o);
        assert(attempted(tryf, before[j], accs[j], o));
    }
    let a = r->Err_0;
    assert(call_ensures(fullf, (attempts_before as usize, a), ()));
}

} // verus!
