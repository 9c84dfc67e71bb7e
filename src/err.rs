//! Owned and borrowed handles, and the conversion of the runtime's out-of-band
//! failure signals into structured errors.
use crate::runtime::{decrefed, increfed, ExcKind, ObjView, Payload, Runtime, NULL};
use vstd::prelude::*;

verus! {

/// A borrowed reference: some other owner is responsible for releasing it, so it
/// offers no release.
#[derive(Clone, Copy, Debug, PartialEq, Eq, Structural)]
pub struct PyObject {
    pub id: usize,
}

/// An owned reference: its holder owes exactly one release. It cannot be copied, and
/// `release` consumes it.
#[derive(Debug)]
pub struct PyPtr {
    id: usize,
}

impl PyPtr {
    /// The object that this reference names.
    pub closed spec fn id(&self) -> usize {
        self.id
    }

    /// Takes charge of a reference that a raw entry point handed out.
    pub(crate) fn from_owned(id: usize) -> (r: PyPtr)
        ensures
            r.id() == id,
    {
        PyPtr { id }
    }

    /// A borrowed view of the same object, valid while `self` lives.
    pub fn as_object(&self) -> (r: PyObject)
        ensures
            r.id == self.id(),
    {
        PyObject { id: self.id }
    }

    /// Releases the reference: the object's count goes down by one.
    pub fn release(self, rt: &mut Runtime)
        requires
            old(rt).wf(),
            old(rt).valid(self.id()),
        ensures
            final(rt).wf(),
            final(rt).heap() == decrefed(old(rt).heap(), self.id()),
            final(rt).pending == old(rt).pending,
            final(rt).gil_depth == old(rt).gil_depth,
            final(rt).modules == old(rt).modules,
    {
        rt.decref(self.id);
    }
}

impl PyObject {
    /// A new owned reference to the same object: its count goes up by one.
    pub fn clone_ref(&self, rt: &mut Runtime) -> (r: PyPtr)
        requires
            old(rt).wf(),
            old(rt).valid(self.id),
        ensures
            r.id() == self.id,
            final(rt).wf(),
            final(rt).heap() == increfed(old(rt).heap(), self.id),
            final(rt).pending == old(rt).pending,
            final(rt).gil_depth == old(rt).gil_depth,
            final(rt).modules == old(rt).modules,
    {
        rt.incref(self.id);
        PyPtr::from_owned(self.id)
    }
}

/// Releasing an owned reference lowers its object's count by exactly one from its
/// value right after the reference was made (by `getattr`, `get_item`, `call`,
/// `clone_ref` or any other operation that hands one out) and changes no other
/// object. Only an immortal object, whose count stands at the largest value, is
/// left as it is.
pub proof fn lemma_release_drops_one(h: Seq<ObjView>, id: usize)
    requires
        id < h.len(),
        1 <= h[id as int].refcnt < u64::MAX,
    ensures
        decrefed(h, id)[id as int].refcnt == h[id as int].refcnt - 1,
        decrefed(h, id).len() == h.len(),
        forall|j: int| 0 <= j < h.len() && j != id ==> #[trigger] decrefed(h, id)[j] == h[j],
{
}

/// Ownership is symmetric: a new owned reference to `id` followed by its release
/// leaves the count of `id` one below its value right after the reference was made,
/// which is its value before, and no other object changes. (Counts at the immortal
/// mark never move, so the count must stay below it.)
pub proof fn lemma_release_undoes_new_reference(h: Seq<ObjView>, id: usize)
    requires
        id < h.len(),
        h[id as int].refcnt < u64::MAX - 1,
    ensures
        decrefed(increfed(h, id), id)[id as int].refcnt == increfed(h, id)[id as int].refcnt - 1,
        decrefed(increfed(h, id), id) == h,
{
    assert(decrefed(increfed(h, id), id) =~= h);
}

/// A fetch from pending slot `p`: what it hands out, and what it leaves in the slot.
pub open spec fn fetched(p: Option<usize>) -> (Option<usize>, Option<usize>) {
    (p, None)
}

/// Fetching is destructive: after one failure, a first fetch hands out the exception
/// and a second one finds nothing pending.
pub proof fn lemma_fetch_twice(p: Option<usize>)
    requires
        p is Some,
    ensures
        fetched(p).0 == p,
        fetched(fetched(p).1).0 is None,
        fetched(fetched(p).1).1 is None,
{
}

/// An error raised by the runtime: an owned reference to its exception object.
#[derive(Debug)]
pub struct PyErr {
    pub value: PyPtr,
}

pub type PyResult<T> = Result<T, PyErr>;

/// The class of an exception object.
pub open spec fn exc_kind(o: ObjView) -> Option<ExcKind> {
    match o.payload {
        Payload::Exception(k) => Some(k),
        _ => None,
    }
}

impl PyErr {
    /// The exception object.
    pub open spec fn id(&self) -> usize {
        self.value.id()
    }

    /// Takes the pending exception, leaving none: a second fetch finds nothing.
    pub fn fetch(rt: &mut Runtime) -> (r: Option<PyErr>)
        ensures
            match fetched(old(rt).pending).0 {
                Some(e) => r matches Some(err) && err.id() == e,
                None => r is None,
            },
            final(rt).pending == fetched(old(rt).pending).1,
            final(rt).objs == old(rt).objs,
            final(rt).gil_depth == old(rt).gil_depth,
            final(rt).modules == old(rt).modules,
    {
        match rt.take_pending() {
            Some(e) => Some(PyErr { value: PyPtr::from_owned(e) }),
            None => None,
        }
    }

    /// The error for a call that signalled failure: the pending exception, or, where
    /// none is pending, a fresh `SystemError`.
    pub fn api_call_failed(rt: &mut Runtime) -> (r: PyErr)
        requires
            old(rt).wf(),
        ensures
            failed_with(*final(rt), *old(rt), r.id()),
    {
        if rt.pending.is_none() {
            rt.raise(ExcKind::SystemError);
        }
        match rt.take_pending() {
            Some(e) => PyErr { value: PyPtr::from_owned(e) },
            None => PyErr { value: PyPtr::from_owned(NULL) },
        }
    }

    /// The class of this error's exception.
    pub fn kind(&self, rt: &Runtime) -> (r: Option<ExcKind>)
        requires
            rt.valid(self.id()),
        ensures
            r == exc_kind(rt.obj(self.id())),
    {
        match rt.objs[self.value.id].payload {
            Payload::Exception(k) => Some(k),
            _ => None,
        }
    }

    /// Whether this error's exception is of class `k`.
    pub fn is_instance(&self, rt: &Runtime, k: ExcKind) -> (r: bool)
        requires
            rt.valid(self.id()),
        ensures
            r == (exc_kind(rt.obj(self.id())) == Some(k)),
    {
        match self.kind(rt) {
            Some(x) => x == k,
            None => false,
        }
    }

    /// Releases the exception object.
    pub fn release(self, rt: &mut Runtime)
        requires
            old(rt).wf(),
            old(rt).valid(self.id()),
        ensures
            final(rt).wf(),
            final(rt).heap() == decrefed(old(rt).heap(), self.id()),
            final(rt).pending == old(rt).pending,
            final(rt).gil_depth == old(rt).gil_depth,
            final(rt).modules == old(rt).modules,
    {
        self.value.release(rt)
    }
}

/// `rt` is `old` after the error `e` was taken: the pending exception where there was
/// one, else a fresh `SystemError`.
pub open spec fn failed_with(rt: Runtime, old: Runtime, e: usize) -> bool {
    &&& rt.wf()
    &&& rt.pending is None
    &&& rt.gil_depth == old.gil_depth
    &&& match old.pending {
        Some(x) => e == x && rt.objs == old.objs && rt.modules == old.modules,
        None => e == old.objs@.len() && rt.modules == old.modules
            && rt.grew(old.heap(), Payload::Exception(ExcKind::SystemError), Seq::empty()),
    }
}

/// `rt` is `old` after an exception of class `kind` was raised and taken as the
/// error `e`: the exception is a fresh object at the end of the heap.
pub open spec fn failed(rt: Runtime, old: Runtime, e: usize, kind: ExcKind) -> bool {
    &&& rt.wf()
    &&& rt.pending is None
    &&& rt.gil_depth == old.gil_depth
    &&& e == old.objs@.len()
    &&& rt.modules == old.modules
    &&& rt.grew(old.heap(), Payload::Exception(kind), Seq::empty())
}

/// A failure is determined by the state it started from: two runs that each raised
/// an exception of class `kind` from `old` and took it as their error hand back the
/// same error handle over the same heap. So a method call that fails in its
/// attribute lookup fails exactly as the lookup alone does.
pub proof fn lemma_failure_is_determined(a: Runtime, b: Runtime, old: Runtime, ea: usize, eb: usize, kind: ExcKind)
    requires
        failed(a, old, ea, kind),
        failed(b, old, eb, kind),
    ensures
        ea == eb,
        a.heap() == b.heap(),
        a.pending == b.pending,
        a.modules == b.modules,
{
    let n = old.heap().len();
    assert(a.heap().subrange(0, n as int) == b.heap().subrange(0, n as int));
    assert forall|i: int| 0 <= i < a.heap().len() implies a.heap()[i] == b.heap()[i] by {
        if i < n {
            assert(a.heap().subrange(0, n as int)[i] == b.heap().subrange(0, n as int)[i]);
        } else {
            assert(a.heap()[i].attrs =~= b.heap()[i].attrs);
            assert(a.heap()[i].items =~= b.heap()[i].items);
            assert(a.heap()[i].elems =~= b.heap()[i].elems);
        }
    }
    assert(a.heap() =~= b.heap());
}

/// `rt` keeps every object of `old`, each of the same kind, and may have more.
pub open spec fn kept(rt: Runtime, old: Runtime) -> bool {
    &&& rt.wf()
    &&& rt.pending is None
    &&& rt.gil_depth == old.gil_depth
    &&& rt.heap().len() >= old.heap().len()
    &&& forall|i: int| 0 <= i < old.heap().len() ==> (#[trigger] rt.heap()[i]).payload == old.heap()[i].payload
}

/// Turns a handle-returning call's result into a result: a new owned reference, or,
/// for the null handle, the error that the call left.
pub fn result_from_owned_ptr(rt: &mut Runtime, p: usize) -> (r: PyResult<PyPtr>)
    requires
        old(rt).wf(),
    ensures
        (p != NULL) == (r is Ok),
        match r {
            Ok(q) => q.id() == p && *final(rt) == *old(rt),
            Err(e) => failed_with(*final(rt), *old(rt), e.id()),
        },
{
    if p != NULL {
        Ok(PyPtr::from_owned(p))
    } else {
        Err(PyErr::api_call_failed(rt))
    }
}

/// Turns a status-returning call's result into a result: any status but `0` means
/// failure and brings the error that the call left.
pub fn error_on_minusone(rt: &mut Runtime, status: i32) -> (r: PyResult<()>)
    requires
        old(rt).wf(),
    ensures
        (status == 0) == (r is Ok),
        match r {
            Ok(_) => *final(rt) == *old(rt),
            Err(e) => failed_with(*final(rt), *old(rt), e.id()),
        },
{
    if status == 0 {
        Ok(())
    } else {
        Err(PyErr::api_call_failed(rt))
    }
}

/// Turns an integer-returning call's result into a result. `-1` is a failure only
/// where an exception is pending; otherwise it is an ordinary value and passes
/// through unchanged.
pub fn result_from_int(rt: &mut Runtime, v: i64) -> (r: PyResult<i64>)
    requires
        old(rt).wf(),
    ensures
        (v == -1 && old(rt).pending is Some) == (r is Err),
        match r {
            Ok(x) => x == v && *final(rt) == *old(rt),
            Err(e) => Some(e.id()) == old(rt).pending && final(rt).pending is None
                && final(rt).objs == old(rt).objs && final(rt).gil_depth == old(rt).gil_depth
                && final(rt).modules == old(rt).modules,
        },
{
    if v == -1 && rt.err_occurred() {
        match PyErr::fetch(rt) {
            Some(e) => Err(e),
            None => Ok(v),
        }
    } else {
        Ok(v)
    }
}

} // verus!
