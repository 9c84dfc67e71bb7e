//! The global lock with its reentrant counter, and the registry of interpreter and
//! thread states.
use crate::runtime::Runtime;
use vstd::prelude::*;

verus! {

/// What the lock was before an acquisition: the value that its release restores.
#[derive(Clone, Copy, Debug, PartialEq, Eq, Structural)]
pub enum PyGILState_STATE {
    PyGILState_LOCKED,
    PyGILState_UNLOCKED,
}

/// The depth of the lock after one acquisition (`true`) or release (`false`) at
/// depth `d`.
pub open spec fn gil_step(d: int, acquire: bool) -> int {
    if acquire {
        d + 1
    } else {
        d - 1
    }
}

/// The depth after a sequence of acquisitions and releases from depth `d`.
pub open spec fn gil_run(d: int, ops: Seq<bool>) -> int
    decreases ops.len(),
{
    if ops.len() == 0 {
        d
    } else {
        gil_step(gil_run(d, ops.drop_last()), ops.last())
    }
}

/// The number of releases in `ops`, run from depth `d`, that take the lock from held
/// to free.
pub open spec fn unlocks(d: int, ops: Seq<bool>) -> nat
    decreases ops.len(),
{
    if ops.len() == 0 {
        0
    } else {
        let before = gil_run(d, ops.drop_last());
        unlocks(d, ops.drop_last()) + if before == 1 && !ops.last() { 1nat } else { 0nat }
    }
}

/// `n` acquisitions followed by `n` releases.
pub open spec fn nested(n: nat) -> Seq<bool> {
    Seq::new(2 * n, |i: int| i < n)
}

/// The current thread state after one acquisition (`true`) or release (`false`) at
/// lock depth `d`, where `cur` was current and `fresh` is the thread state that an
/// outermost acquisition binds when none is current. The outermost release leaves
/// none current.
pub open spec fn current_step(d: int, cur: Option<usize>, acquire: bool, fresh: usize) -> Option<usize> {
    if acquire {
        if d == 0 && cur is None {
            Some(fresh)
        } else {
            cur
        }
    } else if d == 1 {
        None
    } else {
        cur
    }
}

/// The current thread state after `ops`, run from a free lock with none current,
/// where the first acquisition binds `t`.
pub open spec fn current_run(ops: Seq<bool>, t: usize) -> Option<usize>
    decreases ops.len(),
{
    if ops.len() == 0 {
        None
    } else {
        current_step(gil_run(0, ops.drop_last()), current_run(ops.drop_last(), t), ops.last(), t)
    }
}

/// The lock and the registry agree: while the lock is held, a thread state is current.
pub open spec fn linked(rt: Runtime, ts: ThreadStates) -> bool {
    ts.wf() && (rt.gil_depth > 0 ==> ts.current is Some)
}

/// Proof of holding the global lock: handed out by `acquire_gil`, taken back by
/// `release_gil`. It remembers the state that its release restores.
#[derive(Debug)]
pub struct GILGuard {
    pub state: PyGILState_STATE,
}

impl Runtime {
    /// `PyGILState_Ensure`: takes the lock, or enters it once more where this thread
    /// holds it already; returns the state before. Taking a free lock with no thread
    /// state current binds a new thread state of interpreter `interp` and makes it
    /// current.
    pub fn gil_ensure(&mut self, ts: &mut ThreadStates, interp: usize) -> (r: PyGILState_STATE)
        requires
            old(self).gil_depth < u64::MAX,
            linked(*old(self), *old(ts)),
            old(self).gil_depth == 0 && old(ts).current is None ==> old(ts).interp_alive(interp),
        ensures
            final(self).gil_depth == gil_step(old(self).gil_depth as int, true),
            r == (if old(self).gil_depth > 0 {
                PyGILState_STATE::PyGILState_LOCKED
            } else {
                PyGILState_STATE::PyGILState_UNLOCKED
            }),
            final(self).objs == old(self).objs,
            final(self).pending == old(self).pending,
            final(self).modules == old(self).modules,
            linked(*final(self), *final(ts)),
            final(ts).current == current_step(
                old(self).gil_depth as int,
                old(ts).current,
                true,
                old(ts).threads@.len() as usize,
            ),
            final(ts).interps@ == old(ts).interps@,
            if old(self).gil_depth == 0 && old(ts).current is None {
                final(ts).threads@ == old(ts).threads@.push(
                    ThreadEntry { interp, alive: true, cleared: false, by_lock: true },
                )
            } else {
                final(ts).threads@ == old(ts).threads@
            },
    {
        let r = if self.gil_depth > 0 {
            PyGILState_STATE::PyGILState_LOCKED
        } else {
            PyGILState_STATE::PyGILState_UNLOCKED
        };
        if self.gil_depth == 0 && ts.current.is_none() {
            ts.bind_new(interp);
        }
        self.gil_depth = self.gil_depth + 1;
        r
    }

    /// `PyGILState_Release`: leaves one level of the lock; the lock is free again
    /// once the outermost level is left, which is where `state` is
    /// `PyGILState_UNLOCKED`. The outermost release leaves no thread state current,
    /// and deletes the one that the lock bound.
    pub fn gil_release(&mut self, ts: &mut ThreadStates, state: PyGILState_STATE)
        requires
            old(self).gil_depth > 0,
            (state == PyGILState_STATE::PyGILState_UNLOCKED) == (old(self).gil_depth == 1),
            linked(*old(self), *old(ts)),
        ensures
            final(self).gil_depth == gil_step(old(self).gil_depth as int, false),
            final(self).objs == old(self).objs,
            final(self).pending == old(self).pending,
            final(self).modules == old(self).modules,
            linked(*final(self), *final(ts)),
            final(ts).current == current_step(old(self).gil_depth as int, old(ts).current, false, 0),
            final(ts).interps@ == old(ts).interps@,
            old(self).gil_depth > 1 ==> final(ts).threads@ == old(ts).threads@,
            old(self).gil_depth == 1 ==> (old(ts).current matches Some(t) && final(ts).threads@ == (
                if old(ts).threads@[t as int].by_lock {
                    old(ts).threads@.update(
                        t as int,
                        ThreadEntry { alive: false, cleared: true, ..old(ts).threads@[t as int] },
                    )
                } else {
                    old(ts).threads@
                })),
    {
        self.gil_depth = self.gil_depth - 1;
        if self.gil_depth == 0 {
            let t = ts.current.unwrap();
            if ts.threads[t].by_lock {
                ts.clear_thread_state(t);
                ts.delete_current();
            } else {
                ts.current = None;
            }
        }
    }

    /// `PyGILState_Check`: whether the calling thread holds the lock.
    pub fn gil_check(&self) -> (r: bool)
        ensures
            r == self.gil_held(),
    {
        self.gil_depth > 0
    }

    /// Takes the lock and hands out the proof of holding it.
    pub fn acquire_gil(&mut self, ts: &mut ThreadStates, interp: usize) -> (g: GILGuard)
        requires
            old(self).gil_depth < u64::MAX,
            linked(*old(self), *old(ts)),
            old(self).gil_depth == 0 && old(ts).current is None ==> old(ts).interp_alive(interp),
        ensures
            final(self).gil_depth == old(self).gil_depth + 1,
            final(self).gil_held(),
            final(ts).current is Some,
            final(ts).current == current_step(
                old(self).gil_depth as int,
                old(ts).current,
                true,
                old(ts).threads@.len() as usize,
            ),
            linked(*final(self), *final(ts)),
            g.state == (if old(self).gil_depth > 0 {
                PyGILState_STATE::PyGILState_LOCKED
            } else {
                PyGILState_STATE::PyGILState_UNLOCKED
            }),
            final(self).objs == old(self).objs,
            final(self).pending == old(self).pending,
            final(self).modules == old(self).modules,
    {
        let state = self.gil_ensure(ts, interp);
        GILGuard { state }
    }

    /// Gives back the innermost proof of holding the lock.
    pub fn release_gil(&mut self, ts: &mut ThreadStates, g: GILGuard)
        requires
            old(self).gil_depth > 0,
            (g.state == PyGILState_STATE::PyGILState_UNLOCKED) == (old(self).gil_depth == 1),
            linked(*old(self), *old(ts)),
        ensures
            final(self).gil_depth == old(self).gil_depth - 1,
            final(ts).current == current_step(old(self).gil_depth as int, old(ts).current, false, 0),
            linked(*final(self), *final(ts)),
            final(self).objs == old(self).objs,
            final(self).pending == old(self).pending,
            final(self).modules == old(self).modules,
    {
        self.gil_release(ts, g.state)
    }
}

/// Acquiring the lock `n` times and then releasing it `n` times, starting free with no
/// thread state current: the lock is held at every point in between, with the thread
/// state `t` that the first acquisition bound current throughout; at the end the lock
/// is free, freed exactly once, and no thread state is current.
pub proof fn lemma_nested_balance(n: nat, t: usize)
    requires
        n > 0,
    ensures
        forall|k: int| 0 < k < 2 * n ==> #[trigger] gil_run(0, nested(n).subrange(0, k)) > 0,
        forall|k: int| 0 < k < 2 * n ==> #[trigger] current_run(nested(n).subrange(0, k), t) == Some(t),
        gil_run(0, nested(n)) == 0,
        unlocks(0, nested(n)) == 1,
        current_run(nested(n), t) is None,
{
    assert forall|k: int| 0 <= k <= 2 * n implies #[trigger] gil_run(0, nested(n).subrange(0, k)) == (if k <= n {
        k
    } else {
        2 * n - k
    }) && unlocks(0, nested(n).subrange(0, k)) == (if k == 2 * n { 1nat } else { 0nat })
        && current_run(nested(n).subrange(0, k), t) == (if 0 < k < 2 * n { Some(t) } else { None }) by {
        lemma_nested_prefix(n, k, t);
    }
    assert forall|k: int| 0 < k < 2 * n implies #[trigger] current_run(nested(n).subrange(0, k), t) == Some(t) by {
        lemma_nested_prefix(n, k, t);
    }
    lemma_nested_prefix(n, 2 * n as int, t);
    assert(nested(n).subrange(0, 2 * n as int) =~= nested(n));
}

proof fn lemma_nested_prefix(n: nat, k: int, t: usize)
    requires
        n > 0,
        0 <= k <= 2 * n,
    ensures
        gil_run(0, nested(n).subrange(0, k)) == (if k <= n { k } else { 2 * n - k }),
        unlocks(0, nested(n).subrange(0, k)) == (if k == 2 * n { 1nat } else { 0nat }),
        current_run(nested(n).subrange(0, k), t) == (if 0 < k < 2 * n { Some(t) } else { None }),
    decreases k,
{
    if k > 0 {
        lemma_nested_prefix(n, k - 1, t);
        let s = nested(n).subrange(0, k);
        assert(s.drop_last() =~= nested(n).subrange(0, k - 1));
        assert(s.last() == (k - 1 < n));
    }
}

/// An interpreter state of the registry.
#[derive(Debug)]
pub struct InterpEntry {
    pub alive: bool,
    pub cleared: bool,
}

/// A thread state of the registry: the interpreter it binds to.
#[derive(Debug)]
pub struct ThreadEntry {
    pub interp: usize,
    pub alive: bool,
    pub cleared: bool,
    /// Bound by an outermost lock acquisition, and deleted by the matching release.
    pub by_lock: bool,
}

/// The registry of interpreter and thread states, with the thread state that is
/// current on the calling thread.
#[derive(Debug)]
pub struct ThreadStates {
    pub interps: Vec<InterpEntry>,
    pub threads: Vec<ThreadEntry>,
    pub current: Option<usize>,
}

impl ThreadStates {
    /// Every thread state binds to a known interpreter, and the current one is alive.
    pub open spec fn wf(&self) -> bool {
        &&& forall|t: int| 0 <= t < self.threads@.len() ==> #[trigger] self.threads@[t].interp < self.interps@.len()
        &&& (self.current matches Some(t) ==> self.thread_alive(t))
    }

    pub open spec fn interp_alive(&self, i: usize) -> bool {
        i < self.interps@.len() && self.interps@[i as int].alive
    }

    pub open spec fn thread_alive(&self, t: usize) -> bool {
        t < self.threads@.len() && self.threads@[t as int].alive
    }

    /// An empty registry, with no current thread state.
    pub fn new() -> (r: ThreadStates)
        ensures
            r.wf(),
            r.interps@.len() == 0,
            r.threads@.len() == 0,
            r.current is None,
    {
        ThreadStates { interps: Vec::new(), threads: Vec::new(), current: None }
    }

    /// `PyInterpreterState_New`: a new interpreter state.
    pub fn new_interpreter(&mut self) -> (i: usize)
        requires
            old(self).wf(),
        ensures
            final(self).wf(),
            i == old(self).interps@.len(),
            final(self).interps@ == old(self).interps@.push(InterpEntry { alive: true, cleared: false }),
            final(self).threads@ == old(self).threads@,
            final(self).current == old(self).current,
    {
        let i = self.interps.len();
        self.interps.push(InterpEntry { alive: true, cleared: false });
        assert forall|t: int| 0 <= t < self.threads@.len() implies #[trigger] self.threads@[t].interp < self.interps@.len() by {
            assert(old(self).threads@[t].interp < old(self).interps@.len());
        }
        i
    }

    /// `PyInterpreterState_Clear`: clears a live interpreter state.
    pub fn clear_interpreter(&mut self, i: usize)
        requires
            old(self).wf(),
            old(self).interp_alive(i),
        ensures
            final(self).wf(),
            final(self).interps@ == old(self).interps@.update(i as int, InterpEntry { alive: true, cleared: true }),
            final(self).threads@ == old(self).threads@,
            final(self).current == old(self).current,
    {
        self.interps[i].cleared = true;
    }

    /// `PyInterpreterState_Delete`: deletes an interpreter state, which must have
    /// been cleared first.
    pub fn delete_interpreter(&mut self, i: usize)
        requires
            old(self).wf(),
            old(self).interp_alive(i),
            old(self).interps@[i as int].cleared,
        ensures
            final(self).wf(),
            final(self).interps@ == old(self).interps@.update(i as int, InterpEntry { alive: false, cleared: true }),
            final(self).threads@ == old(self).threads@,
            final(self).current == old(self).current,
    {
        self.interps[i].alive = false;
    }

    /// `PyThreadState_New`: a new thread state bound to a live interpreter.
    pub fn new_thread_state(&mut self, i: usize) -> (t: usize)
        requires
            old(self).wf(),
            old(self).interp_alive(i),
        ensures
            final(self).wf(),
            t == old(self).threads@.len(),
            final(self).threads@ == old(self).threads@.push(ThreadEntry { interp: i, alive: true, cleared: false, by_lock: false }),
            final(self).interps@ == old(self).interps@,
            final(self).current == old(self).current,
    {
        let t = self.threads.len();
        self.threads.push(ThreadEntry { interp: i, alive: true, cleared: false, by_lock: false });
        assert forall|u: int| 0 <= u < self.threads@.len() implies #[trigger] self.threads@[u].interp < self.interps@.len() by {
            if u < t {
                assert(old(self).threads@[u].interp < old(self).interps@.len());
            }
        }
        t
    }

    /// `PyThreadState_Clear`: clears a live thread state.
    pub fn clear_thread_state(&mut self, t: usize)
        requires
            old(self).wf(),
            old(self).thread_alive(t),
        ensures
            final(self).wf(),
            final(self).threads@ == old(self).threads@.update(
                t as int,
                ThreadEntry { cleared: true, ..old(self).threads@[t as int] },
            ),
            final(self).interps@ == old(self).interps@,
            final(self).current == old(self).current,
    {
        self.threads[t].cleared = true;
        assert forall|u: int| 0 <= u < self.threads@.len() implies #[trigger] self.threads@[u].interp < self.interps@.len() by {
            assert(old(self).threads@[u].interp < old(self).interps@.len());
        }
    }

    /// `PyThreadState_Delete`: deletes a live thread state that is not the current
    /// one; the current one goes only through `delete_current`.
    pub fn delete_thread_state(&mut self, t: usize)
        requires
            old(self).wf(),
            old(self).thread_alive(t),
            old(self).current != Some(t),
        ensures
            final(self).wf(),
            final(self).threads@ == old(self).threads@.update(
                t as int,
                ThreadEntry { alive: false, ..old(self).threads@[t as int] },
            ),
            final(self).interps@ == old(self).interps@,
            final(self).current == old(self).current,
    {
        self.threads[t].alive = false;
        assert forall|u: int| 0 <= u < self.threads@.len() implies #[trigger] self.threads@[u].interp < self.interps@.len() by {
            assert(old(self).threads@[u].interp < old(self).interps@.len());
        }
    }

    /// `PyThreadState_DeleteCurrent`: deletes the current thread state; none is
    /// current afterwards.
    pub fn delete_current(&mut self)
        requires
            old(self).wf(),
            old(self).current is Some,
        ensures
            final(self).wf(),
            final(self).current is None,
            old(self).current matches Some(t) && final(self).threads@ == old(self).threads@.update(
                t as int,
                ThreadEntry { alive: false, ..old(self).threads@[t as int] },
            ),
            final(self).interps@ == old(self).interps@,
    {
        let t = self.current.unwrap();
        self.current = None;
        self.threads[t].alive = false;
        assert forall|u: int| 0 <= u < self.threads@.len() implies #[trigger] self.threads@[u].interp < self.interps@.len() by {
            assert(old(self).threads@[u].interp < old(self).interps@.len());
        }
    }

    /// Binds a new thread state of live interpreter `i` and makes it current.
    fn bind_new(&mut self, i: usize)
        requires
            old(self).wf(),
            old(self).interp_alive(i),
        ensures
            final(self).wf(),
            final(self).threads@ == old(self).threads@.push(
                ThreadEntry { interp: i, alive: true, cleared: false, by_lock: true },
            ),
            final(self).interps@ == old(self).interps@,
            final(self).current == Some(old(self).threads@.len() as usize),
    {
        let t = self.threads.len();
        self.threads.push(ThreadEntry { interp: i, alive: true, cleared: false, by_lock: true });
        self.current = Some(t);
        assert forall|u: int| 0 <= u < self.threads@.len() implies #[trigger] self.threads@[u].interp < self.interps@.len() by {
            if u < t {
                assert(old(self).threads@[u].interp < old(self).interps@.len());
            }
        }
    }

    /// `PyThreadState_Get`: the current thread state.
    pub fn get(&self) -> (r: Option<usize>)
        ensures
            r == self.current,
    {
        self.current
    }

    /// `PyThreadState_Swap`: makes `new` current and returns the one it replaces, so
    /// that the caller can put it back.
    pub fn swap(&mut self, new: Option<usize>) -> (r: Option<usize>)
        requires
            old(self).wf(),
            new matches Some(t) ==> old(self).thread_alive(t),
        ensures
            final(self).wf(),
            r == old(self).current,
            final(self).current == new,
            final(self).threads@ == old(self).threads@,
            final(self).interps@ == old(self).interps@,
    {
        let r = self.current;
        self.current = new;
        r
    }
}

/// The current thread state: one is, whenever the lock is held.
pub fn PyThreadState_GET(rt: &Runtime, ts: &ThreadStates) -> (r: Option<usize>)
    requires
        linked(*rt, *ts),
    ensures
        r == ts.current,
        rt.gil_held() ==> r is Some,
{
    ts.get()
}

} // verus!
