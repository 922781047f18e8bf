//! Keyed counting semaphores with FIFO wait queues of pids.
//!
//! `wait` decrements the count and blocks the caller when it goes negative;
//! `signal` increments it and hands the permit to the head of the queue when
//! one is waiting. While the count is negative, the queue holds exactly that
//! many pids.

use vstd::prelude::*;

use crate::pid::ProcessId;

verus! {

/// Outcome of a semaphore operation.
#[derive(Clone, Copy, PartialEq, Eq, Structural, Debug)]
pub enum SemaphoreResult {
    /// The operation completed without blocking anyone.
    Done,
    /// No semaphore with the given key exists.
    NotExist,
    /// The caller must block; carries its pid.
    Block(ProcessId),
    /// The pid at the head of the queue must be woken.
    WakeUp(ProcessId),
}

/// Abstract state of one semaphore.
pub struct SemModel {
    pub count: int,
    pub waiters: Seq<ProcessId>,
}

impl SemModel {
    /// The queue length always mirrors how negative the count is.
    pub open spec fn wf(self) -> bool {
        &&& self.count < 0 ==> self.waiters.len() == -self.count
        &&& self.count >= 0 ==> self.waiters.len() == 0
    }
}

/// What `wait` does to one semaphore.
pub open spec fn sem_wait_spec(s: SemModel, pid: ProcessId) -> (SemModel, SemaphoreResult) {
    let c = s.count - 1;
    if c >= 0 {
        (SemModel { count: c, waiters: s.waiters }, SemaphoreResult::Done)
    } else {
        (
            SemModel { count: c, waiters: s.waiters.push(pid) },
            SemaphoreResult::Block(pid),
        )
    }
}

/// What `signal` does to one semaphore. The count saturates at the machine
/// bound instead of overflowing; at that point the queue is empty and the
/// permit is simply lost in the count.
pub open spec fn sem_signal_spec(s: SemModel) -> (SemModel, SemaphoreResult) {
    if s.count == i128::MAX {
        (s, SemaphoreResult::Done)
    } else {
        let c = s.count + 1;
        if c <= 0 {
            (
                SemModel { count: c, waiters: s.waiters.drop_first() },
                SemaphoreResult::WakeUp(s.waiters[0]),
            )
        } else {
            (SemModel { count: c, waiters: s.waiters }, SemaphoreResult::Done)
        }
    }
}

/// One keyed semaphore: a signed permit count and the FIFO queue of blocked
/// pids.
pub struct Semaphore {
    pub count: i128,
    pub waiters: Vec<ProcessId>,
}

impl View for Semaphore {
    type V = SemModel;

    open spec fn view(&self) -> SemModel {
        SemModel { count: self.count as int, waiters: self.waiters@ }
    }
}

impl Semaphore {
    /// A semaphore holding `value` permits and no waiters.
    pub fn new(value: i128) -> (s: Semaphore)
        requires
            value >= 0,
        ensures
            s@.count == value,
            s@.waiters =~= Seq::<ProcessId>::empty(),
            s@.wf(),
    {
        Semaphore { count: value, waiters: Vec::new() }
    }

    /// Take a permit or enqueue `pid` at the tail.
    pub fn wait(&mut self, pid: ProcessId) -> (r: SemaphoreResult)
        requires
            old(self)@.wf(),
        ensures
            final(self)@.wf(),
            (final(self)@, r) == sem_wait_spec(old(self)@, pid),
    {
        let n = self.waiters.len();
        proof {
            assert(self.count < 0 ==> self.count == -(n as int));
        }
        let c = self.count - 1;
        self.count = c;
        if c >= 0 {
            SemaphoreResult::Done
        } else {
            self.waiters.push(pid);
            SemaphoreResult::Block(pid)
        }
    }

    /// Cancel the wait parked at queue position `a`: the waiter leaves the
    /// queue, and the permit its wait had claimed goes back into the count.
    pub fn cancel_wait(&mut self, a: usize)
        requires
            old(self)@.wf(),
            a < old(self)@.waiters.len(),
        ensures
            final(self)@.wf(),
            final(self)@.count == old(self)@.count + 1,
            final(self)@.waiters == old(self)@.waiters.remove(a as int),
    {
        proof {
            assert(self.count < 0);
        }
        self.count = self.count + 1;
        self.waiters.remove(a);
    }

    /// Return a permit; hand it straight to the head waiter when one exists.
    pub fn signal(&mut self) -> (r: SemaphoreResult)
        requires
            old(self)@.wf(),
        ensures
            final(self)@.wf(),
            (final(self)@, r) == sem_signal_spec(old(self)@),
    {
        if self.count == i128::MAX {
            return SemaphoreResult::Done;
        }
        let c = self.count + 1;
        self.count = c;
        if c <= 0 {
            let pid = self.waiters.remove(0);
            SemaphoreResult::WakeUp(pid)
        } else {
            SemaphoreResult::Done
        }
    }
}

/// The per-key semaphore table.
pub struct SemaphoreSet {
    pub sems: Vec<(u32, Semaphore)>,
}

/// First semaphore model stored under `key`, scanning from the front.
pub open spec fn spec_get(s: Seq<(u32, Semaphore)>, key: u32) -> Option<SemModel>
    decreases s.len(),
{
    if s.len() == 0 {
        None
    } else if s[0].0 == key {
        Some(s[0].1@)
    } else {
        spec_get(s.drop_first(), key)
    }
}

/// A pid is parked in some semaphore's queue.
pub open spec fn sem_blocked(s: Seq<(u32, Semaphore)>, pid: ProcessId) -> bool {
    exists|i: int| 0 <= i < s.len() && #[trigger] s[i].1@.waiters.contains(pid)
}

/// `s1` is `s0` with the entry for `key` (whose model was `m`) replaced by an
/// entry whose model is `m2`.
pub open spec fn sem_updated_at(
    s0: Seq<(u32, Semaphore)>,
    s1: Seq<(u32, Semaphore)>,
    key: u32,
    m: SemModel,
    m2: SemModel,
) -> bool {
    exists|i: int|
        0 <= i < s0.len() && (#[trigger] s0[i]).0 == key && s0[i].1@ == m && s1 == s0.update(
            i,
            (key, s1[i].1),
        ) && s1[i].1@ == m2
}

impl SemaphoreSet {
    pub open spec fn wf(self) -> bool {
        &&& forall|i: int, j: int|
            0 <= i < j < self.sems@.len() ==> (#[trigger] self.sems@[i].0) != (
            #[trigger] self.sems@[j].0)
        &&& forall|i: int| 0 <= i < self.sems@.len() ==> (#[trigger] self.sems@[i].1)@.wf()
    }

    pub open spec fn spec_len(self) -> nat {
        self.sems@.len()
    }

    /// An empty table.
    pub fn new() -> (s: SemaphoreSet)
        ensures
            s.wf(),
            s.sems@ =~= Seq::<(u32, Semaphore)>::empty(),
    {
        SemaphoreSet { sems: Vec::new() }
    }

    /// Whether a semaphore exists under `key`.
    pub fn contains_key(&self, key: u32) -> (r: bool)
        requires
            self.wf(),
        ensures
            r == (spec_get(self.sems@, key) is Some),
    {
        self.find(key).is_some()
    }

    /// Index of the entry for `key`, if any.
    fn find(&self, key: u32) -> (r: Option<usize>)
        requires
            self.wf(),
        ensures
            match r {
                Some(i) => 0 <= i < self.sems@.len() && self.sems@[i as int].0 == key
                    && spec_get(self.sems@, key) == Some(self.sems@[i as int].1@),
                None => spec_get(self.sems@, key) is None,
            },
    {
        let mut i: usize = 0;
        while i < self.sems.len()
            invariant
                self.wf(),
                0 <= i <= self.sems@.len(),
                forall|j: int| 0 <= j < i ==> (#[trigger] self.sems@[j].0) != key,
            decreases self.sems@.len() - i,
        {
            if self.sems[i].0 == key {
                proof {
                    lemma_spec_get_at(self.sems@, key, i as int);
                }
                return Some(i);
            }
            i = i + 1;
        }
        proof {
            lemma_spec_get_absent(self.sems@, key);
        }
        None
    }

    /// Create a semaphore under `key` with `value` initial permits; fails if
    /// the key is taken.
    pub fn insert(&mut self, key: u32, value: usize) -> (ok: bool)
        requires
            old(self).wf(),
        ensures
            final(self).wf(),
            ok == (spec_get(old(self).sems@, key) is None),
            ok ==> spec_get(final(self).sems@, key) == Some(
                SemModel { count: value as int, waiters: Seq::<ProcessId>::empty() },
            ),
            ok ==> final(self).sems@.last().0 == key && final(self).sems@.last().1@ == (SemModel {
                count: value as int,
                waiters: Seq::<ProcessId>::empty(),
            }),
            ok ==> final(self).sems@ == old(self).sems@.push(
                (key, final(self).sems@.last().1),
            ),
            !ok ==> *final(self) == *old(self),
            forall|k: u32|
                k != key ==> #[trigger] spec_get(final(self).sems@, k) == spec_get(
                    old(self).sems@,
                    k,
                ),
            sem_blocked_unchanged_except(old(self).sems@, final(self).sems@),
    {
        if self.find(key).is_some() {
            return false;
        }
        let count: i128 = value as i128;
        let sem = Semaphore { count, waiters: Vec::new() };
        proof {
            lemma_spec_get_push(self.sems@, key, sem);
            lemma_spec_get_none_absent(self.sems@, key);
            let s2 = self.sems@.push((key, sem));
            assert forall|i: int, j: int| 0 <= i < j < s2.len() implies (#[trigger] s2[i].0) != (
            #[trigger] s2[j].0) by {
                if j < s2.len() - 1 {
                    assert(s2[i] == self.sems@[i] && s2[j] == self.sems@[j]);
                } else {
                    assert(s2[i] == self.sems@[i]);
                }
            }
            assert(sem@.wf());
            assert forall|p: ProcessId| #[trigger]
                sem_blocked(self.sems@.push((key, sem)), p) implies sem_blocked(
                self.sems@,
                p,
            ) by {
                let s2 = self.sems@.push((key, sem));
                let i = choose|i: int| 0 <= i < s2.len() && #[trigger] s2[i].1@.waiters.contains(p);
                assert(i < self.sems@.len() && self.sems@[i].1@.waiters.contains(p));
            }
        }
        self.sems.push((key, sem));
        true
    }

    /// Drop the semaphore under `key`; fails if it is absent or has waiters.
    pub fn remove(&mut self, key: u32) -> (ok: bool)
        requires
            old(self).wf(),
        ensures
            final(self).wf(),
            ok == (match spec_get(old(self).sems@, key) {
                Some(m) => m.waiters.len() == 0,
                None => false,
            }),
            ok ==> spec_get(final(self).sems@, key) is None,
            ok ==> exists|j: int|
                0 <= j < old(self).sems@.len() && (#[trigger] old(self).sems@[j]).0 == key && old(
                    self,
                ).sems@[j].1.waiters@.len() == 0 && final(self).sems@ == old(self).sems@.remove(j),
            !ok ==> *final(self) == *old(self),
            forall|k: u32|
                k != key ==> #[trigger] spec_get(final(self).sems@, k) == spec_get(
                    old(self).sems@,
                    k,
                ),
            sem_blocked_unchanged_except(old(self).sems@, final(self).sems@),
    {
        match self.find(key) {
            None => false,
            Some(i) => {
                if self.sems[i].1.waiters.len() > 0 {
                    false
                } else {
                    let ghost s0 = self.sems@;
                    self.sems.remove(i);
                    proof {
                        lemma_spec_get_remove(s0, key, i as int);
                        assert forall|p: ProcessId| #[trigger]
                            sem_blocked(self.sems@, p) implies sem_blocked(s0, p) by {
                            let j = choose|j: int|
                                0 <= j < self.sems@.len() && #[trigger] self.sems@[
                                    j
                                ].1@.waiters.contains(p);
                            if j < i {
                                assert(s0[j].1@.waiters.contains(p));
                            } else {
                                assert(s0[j + 1].1@.waiters.contains(p));
                            }
                        }
                    }
                    true
                }
            },
        }
    }

    /// `wait` on the semaphore under `key` for `pid`.
    pub fn wait(&mut self, key: u32, pid: ProcessId) -> (r: SemaphoreResult)
        requires
            old(self).wf(),
        ensures
            final(self).wf(),
            match spec_get(old(self).sems@, key) {
                None => r == SemaphoreResult::NotExist && *final(self) == *old(self),
                Some(m) => {
                    let (m2, r2) = sem_wait_spec(m, pid);
                    &&& r == r2
                    &&& spec_get(final(self).sems@, key) == Some(m2)
                    &&& sem_updated_at(old(self).sems@, final(self).sems@, key, m, m2)
                },
            },
            forall|k: u32|
                k != key ==> #[trigger] spec_get(final(self).sems@, k) == spec_get(
                    old(self).sems@,
                    k,
                ),
    {
        match self.find(key) {
            None => SemaphoreResult::NotExist,
            Some(i) => {
                let ghost s0 = self.sems@;
                let entry = &mut self.sems[i];
                let r = entry.1.wait(pid);
                proof {
                    assert(self.sems@ == s0.update(i as int, self.sems@[i as int]));
                    lemma_spec_get_update(s0, key, i as int, self.sems@[i as int].1);
                }
                r
            },
        }
    }

    /// `signal` on the semaphore under `key`.
    pub fn signal(&mut self, key: u32) -> (r: SemaphoreResult)
        requires
            old(self).wf(),
        ensures
            final(self).wf(),
            match spec_get(old(self).sems@, key) {
                None => r == SemaphoreResult::NotExist && *final(self) == *old(self),
                Some(m) => {
                    let (m2, r2) = sem_signal_spec(m);
                    &&& r == r2
                    &&& spec_get(final(self).sems@, key) == Some(m2)
                    &&& sem_updated_at(old(self).sems@, final(self).sems@, key, m, m2)
                },
            },
            forall|k: u32|
                k != key ==> #[trigger] spec_get(final(self).sems@, k) == spec_get(
                    old(self).sems@,
                    k,
                ),
    {
        match self.find(key) {
            None => SemaphoreResult::NotExist,
            Some(i) => {
                let ghost s0 = self.sems@;
                let entry = &mut self.sems[i];
                let r = entry.1.signal();
                proof {
                    assert(self.sems@ == s0.update(i as int, self.sems@[i as int]));
                    lemma_spec_get_update(s0, key, i as int, self.sems@[i as int].1);
                }
                r
            },
        }
    }

    /// Cancel the one parked wait of `w`, wherever it sits; reports whether
    /// one was found. (The process manager parks a pid in at most one
    /// queue.)
    pub fn cancel_waiter(&mut self, w: ProcessId) -> (found: bool)
        requires
            old(self).wf(),
        ensures
            final(self).wf(),
            !found ==> *final(self) == *old(self) && !sem_blocked(old(self).sems@, w),
            found ==> exists|i: int, a: int|
                #[trigger] waiter_removed_at(old(self).sems@, final(self).sems@, w, i, a),
    {
        let mut i: usize = 0;
        while i < self.sems.len()
            invariant
                self.wf(),
                *self == *old(self),
                i <= self.sems@.len(),
                forall|x: int|
                    0 <= x < i ==> !(#[trigger] self.sems@[x].1)@.waiters.contains(w),
            decreases self.sems@.len() - i,
        {
            let wlen = self.sems[i].1.waiters.len();
            let mut a: usize = 0;
            while a < wlen
                invariant
                    self.wf(),
                    *self == *old(self),
                    i < self.sems@.len(),
                    wlen == self.sems@[i as int].1.waiters@.len(),
                    a <= wlen,
                    forall|t: int| 0 <= t < a ==> self.sems@[i as int].1.waiters@[t] != w,
                decreases wlen - a,
            {
                if self.sems[i].1.waiters[a].0 == w.0 {
                    let ghost s0 = self.sems@;
                    let entry = &mut self.sems[i];
                    entry.1.cancel_wait(a);
                    proof {
                        assert(self.sems@ == s0.update(i as int, self.sems@[i as int]));
                        assert(waiter_removed_at(s0, self.sems@, w, i as int, a as int));
                    }
                    return true;
                }
                a = a + 1;
            }
            proof {
                assert(!self.sems@[i as int].1@.waiters.contains(w)) by {
                    if self.sems@[i as int].1@.waiters.contains(w) {
                        let t = choose|t: int|
                            0 <= t < self.sems@[i as int].1@.waiters.len()
                                && self.sems@[i as int].1@.waiters[t] == w;
                    }
                }
            }
            i = i + 1;
        }
        proof {
            assert(!sem_blocked(self.sems@, w)) by {
                if sem_blocked(self.sems@, w) {
                    let x = choose|x: int|
                        0 <= x < self.sems@.len() && #[trigger] self.sems@[x].1@.waiters.contains(
                            w,
                        );
                }
            }
        }
        false
    }
}

/// `s1` is `s0` with the waiter at queue position `a` of entry `i` (which
/// was `w`) cancelled: the waiter left that entry's queue, the entry's
/// count rose by one, and every other entry is untouched.
pub open spec fn waiter_removed_at(
    s0: Seq<(u32, Semaphore)>,
    s1: Seq<(u32, Semaphore)>,
    w: ProcessId,
    i: int,
    a: int,
) -> bool {
    &&& 0 <= i < s0.len()
    &&& 0 <= a < s0[i].1@.waiters.len()
    &&& s0[i].1@.waiters[a] == w
    &&& s1.len() == s0.len()
    &&& s1[i].0 == s0[i].0
    &&& s1[i].1@.count == s0[i].1@.count + 1
    &&& s1[i].1@.waiters == s0[i].1@.waiters.remove(a)
    &&& (forall|j: int| 0 <= j < s0.len() && j != i ==> #[trigger] s1[j] == s0[j])
}

/// Pids parked in the new table were already parked in the old one.
pub open spec fn sem_blocked_unchanged_except(
    s0: Seq<(u32, Semaphore)>,
    s1: Seq<(u32, Semaphore)>,
) -> bool {
    forall|p: ProcessId| #[trigger] sem_blocked(s1, p) ==> sem_blocked(s0, p)
}

proof fn lemma_spec_get_at(s: Seq<(u32, Semaphore)>, key: u32, i: int)
    requires
        0 <= i < s.len(),
        s[i].0 == key,
        forall|j: int| 0 <= j < i ==> (#[trigger] s[j].0) != key,
    ensures
        spec_get(s, key) == Some(s[i].1@),
    decreases i,
{
    if i == 0 {
    } else {
        assert(s.drop_first()[i - 1] == s[i]);
        assert forall|j: int| 0 <= j < i - 1 implies (#[trigger] s.drop_first()[j].0) != key by {
            assert(s.drop_first()[j] == s[j + 1]);
        }
        lemma_spec_get_at(s.drop_first(), key, i - 1);
    }
}

proof fn lemma_spec_get_absent(s: Seq<(u32, Semaphore)>, key: u32)
    requires
        forall|j: int| 0 <= j < s.len() ==> (#[trigger] s[j].0) != key,
    ensures
        spec_get(s, key) is None,
    decreases s.len(),
{
    if s.len() > 0 {
        assert forall|j: int| 0 <= j < s.len() - 1 implies (#[trigger] s.drop_first()[j].0)
            != key by {
            assert(s.drop_first()[j] == s[j + 1]);
        }
        lemma_spec_get_absent(s.drop_first(), key);
    }
}

/// A key that `spec_get` does not find occurs nowhere in the table.
proof fn lemma_spec_get_none_absent(s: Seq<(u32, Semaphore)>, key: u32)
    requires
        spec_get(s, key) is None,
    ensures
        forall|j: int| 0 <= j < s.len() ==> (#[trigger] s[j].0) != key,
    decreases s.len(),
{
    if s.len() > 0 {
        lemma_spec_get_none_absent(s.drop_first(), key);
        assert forall|j: int| 0 <= j < s.len() implies (#[trigger] s[j].0) != key by {
            if j > 0 {
                assert(s.drop_first()[j - 1] == s[j]);
            }
        }
    }
}

proof fn lemma_spec_get_push(s: Seq<(u32, Semaphore)>, key: u32, sem: Semaphore)
    requires
        spec_get(s, key) is None,
    ensures
        spec_get(s.push((key, sem)), key) == Some(sem@),
        forall|k: u32|
            k != key ==> #[trigger] spec_get(s.push((key, sem)), k) == spec_get(s, k),
    decreases s.len(),
{
    let s2 = s.push((key, sem));
    if s.len() == 0 {
        assert(s2[0] == (key, sem));
        assert forall|k: u32| k != key implies #[trigger] spec_get(s2, k) == spec_get(s, k) by {
            assert(s2.drop_first() =~= s);
            assert(spec_get(s2, k) == spec_get(s2.drop_first(), k));
        }
    } else {
        let d = s.drop_first();
        lemma_spec_get_push(d, key, sem);
        assert(s2.drop_first() =~= d.push((key, sem)));
        assert(s2[0] == s[0]);
        assert(s[0].0 != key);
        assert(spec_get(s2, key) == spec_get(d.push((key, sem)), key));
        assert forall|k: u32| k != key implies #[trigger] spec_get(s2, k) == spec_get(s, k) by {
            if s[0].0 != k {
                assert(spec_get(s2, k) == spec_get(d.push((key, sem)), k));
                assert(spec_get(s, k) == spec_get(d, k));
            }
        }
    }
}

proof fn lemma_spec_get_update(s: Seq<(u32, Semaphore)>, key: u32, i: int, sem: Semaphore)
    requires
        0 <= i < s.len(),
        s[i].0 == key,
        forall|j: int| 0 <= j < i ==> (#[trigger] s[j].0) != key,
    ensures
        spec_get(s.update(i, (key, sem)), key) == Some(sem@),
        forall|k: u32|
            k != key ==> #[trigger] spec_get(s.update(i, (key, sem)), k) == spec_get(s, k),
    decreases i,
{
    let s2 = s.update(i, (key, sem));
    if i == 0 {
        assert(s2[0] == (key, sem));
        assert(s2.drop_first() =~= s.drop_first());
        assert forall|k: u32| k != key implies #[trigger] spec_get(s2, k) == spec_get(s, k) by {
            assert(spec_get(s2, k) == spec_get(s2.drop_first(), k));
            assert(spec_get(s, k) == spec_get(s.drop_first(), k));
        }
    } else {
        let d = s.drop_first();
        assert(s2[0] == s[0]);
        assert(s2.drop_first() =~= d.update(i - 1, (key, sem)));
        assert forall|j: int| 0 <= j < i - 1 implies (#[trigger] d[j].0) != key by {
            assert(d[j] == s[j + 1]);
        }
        assert(d[i - 1] == s[i]);
        lemma_spec_get_update(d, key, i - 1, sem);
        assert(spec_get(s2, key) == spec_get(d.update(i - 1, (key, sem)), key));
        assert forall|k: u32| k != key implies #[trigger] spec_get(s2, k) == spec_get(s, k) by {
            if s[0].0 != k {
                assert(spec_get(s2, k) == spec_get(d.update(i - 1, (key, sem)), k));
                assert(spec_get(s, k) == spec_get(d, k));
            }
        }
    }
}

proof fn lemma_spec_get_remove(s: Seq<(u32, Semaphore)>, key: u32, i: int)
    requires
        0 <= i < s.len(),
        s[i].0 == key,
        forall|j: int| 0 <= j < i ==> (#[trigger] s[j].0) != key,
        forall|p: int, q: int| 0 <= p < q < s.len() ==> (#[trigger] s[p].0) != (#[trigger] s[q].0),
    ensures
        spec_get(s.remove(i), key) is None,
        forall|k: u32| k != key ==> #[trigger] spec_get(s.remove(i), k) == spec_get(s, k),
    decreases i,
{
    let s2 = s.remove(i);
    if i == 0 {
        assert(s2 =~= s.drop_first());
        assert forall|j: int| 0 <= j < s2.len() implies (#[trigger] s2[j].0) != key by {
            assert(s2[j] == s[j + 1]);
        }
        lemma_spec_get_absent(s2, key);
        assert forall|k: u32| k != key implies #[trigger] spec_get(s2, k) == spec_get(s, k) by {
            assert(spec_get(s, k) == spec_get(s.drop_first(), k));
        }
    } else {
        let d = s.drop_first();
        assert(s2[0] == s[0]);
        assert(s2.drop_first() =~= d.remove(i - 1));
        assert forall|j: int| 0 <= j < i - 1 implies (#[trigger] d[j].0) != key by {
            assert(d[j] == s[j + 1]);
        }
        assert(d[i - 1] == s[i]);
        assert forall|p: int, q: int| 0 <= p < q < d.len() implies (#[trigger] d[p].0) != (
        #[trigger] d[q].0) by {
            assert(d[p] == s[p + 1]);
            assert(d[q] == s[q + 1]);
        }
        lemma_spec_get_remove(d, key, i - 1);
        assert(spec_get(s2, key) == spec_get(d.remove(i - 1), key));
        assert forall|k: u32| k != key implies #[trigger] spec_get(s2, k) == spec_get(s, k) by {
            if s[0].0 != k {
                assert(spec_get(s2, k) == spec_get(d.remove(i - 1), k));
                assert(spec_get(s, k) == spec_get(d, k));
            }
        }
    }
}

/// Law: a semaphore created with one permit is a mutual-exclusion lock. The
/// first `wait` takes the permit without blocking; any `wait` that arrives
/// while the permit is out blocks its caller.
pub proof fn lemma_sem_mutual_exclusion(s0: SemModel, a: ProcessId, b: ProcessId)
    requires
        s0.wf(),
        s0.count == 1,
    ensures
        ({
            let (s1, r1) = sem_wait_spec(s0, a);
            let (s2, r2) = sem_wait_spec(s1, b);
            &&& r1 == SemaphoreResult::Done
            &&& r2 == SemaphoreResult::Block(b)
        }),
{
}

/// Law: while the permit count is zero or negative, every `wait` blocks its
/// caller — no two processes are ever inside the critical section between
/// matching wait/signal pairs.
pub proof fn lemma_wait_blocks_while_held(s: SemModel, p: ProcessId)
    requires
        s.count <= 0,
    ensures
        sem_wait_spec(s, p).1 == SemaphoreResult::Block(p),
{
}

/// Law: wakeup order is FIFO. With no permits, three waiters A, B, C that
/// block in that order are woken by the following signals in exactly that
/// order.
pub proof fn lemma_sem_fifo_wakeup(s0: SemModel, a: ProcessId, b: ProcessId, c: ProcessId)
    requires
        s0.wf(),
        s0.count == 0,
    ensures
        ({
            let (s1, r1) = sem_wait_spec(s0, a);
            let (s2, r2) = sem_wait_spec(s1, b);
            let (s3, r3) = sem_wait_spec(s2, c);
            let (s4, w1) = sem_signal_spec(s3);
            let (s5, w2) = sem_signal_spec(s4);
            let (s6, w3) = sem_signal_spec(s5);
            &&& r1 == SemaphoreResult::Block(a)
            &&& r2 == SemaphoreResult::Block(b)
            &&& r3 == SemaphoreResult::Block(c)
            &&& w1 == SemaphoreResult::WakeUp(a)
            &&& w2 == SemaphoreResult::WakeUp(b)
            &&& w3 == SemaphoreResult::WakeUp(c)
            &&& s6.count == 0
            &&& s6.waiters.len() == 0
        }),
{
    let (s1, r1) = sem_wait_spec(s0, a);
    let (s2, r2) = sem_wait_spec(s1, b);
    let (s3, r3) = sem_wait_spec(s2, c);
    assert(s3.waiters =~= seq![a, b, c]);
    let (s4, w1) = sem_signal_spec(s3);
    assert(s4.waiters =~= seq![b, c]);
    let (s5, w2) = sem_signal_spec(s4);
    assert(s5.waiters =~= seq![c]);
    let (s6, w3) = sem_signal_spec(s5);
    assert(s6.waiters =~= Seq::<ProcessId>::empty());
}

} // verus!
