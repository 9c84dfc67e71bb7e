//! The foreign runtime's object heap and its raw entry points.
//!
//! Objects live in a heap indexed by handle; handle `0` is the null handle and never
//! names a live object. Every raw entry point signals failure out of band, by a null
//! handle or by `-1`, and leaves the raised exception in the runtime's pending slot.
use vstd::prelude::*;
use vstd::string::StringExecFns;

verus! {

/// The null handle.
pub const NULL: usize = 0;

/// The exception classes that the runtime raises.
#[derive(Clone, Copy, Debug, PartialEq, Eq, Structural)]
pub enum ExcKind {
    AttributeError,
    KeyError,
    TypeError,
    SystemError,
    ImportError,
}

/// A key of an attribute table or of a dictionary.
#[derive(Debug)]
pub enum Key {
    Int(i64),
    Str(String),
}

/// A key as the contracts see it.
pub enum KeyView {
    Int(i64),
    Str(Seq<char>),
}

impl View for Key {
    type V = KeyView;

    open spec fn view(&self) -> KeyView {
        match self {
            Key::Int(n) => KeyView::Int(*n),
            Key::Str(s) => KeyView::Str(s@),
        }
    }
}

/// A table of keys and handles, as the contracts see it.
pub type Table = Seq<(KeyView, usize)>;

/// The view of a table.
pub open spec fn table(s: Seq<(Key, usize)>) -> Table {
    Seq::new(s.len(), |i: int| (s[i].0@, s[i].1))
}

/// The value stored under `k` in a table: tables keep one entry per key.
pub open spec fn slot_get(s: Table, k: KeyView) -> Option<usize>
    decreases s.len(),
{
    if s.len() == 0 {
        None
    } else if s.last().0 == k {
        Some(s.last().1)
    } else {
        slot_get(s.drop_last(), k)
    }
}

/// The table `s` with every entry under `k` taken out, the others kept in order.
pub open spec fn without(s: Table, k: KeyView) -> Table
    decreases s.len(),
{
    if s.len() == 0 {
        s
    } else if s.last().0 == k {
        without(s.drop_last(), k)
    } else {
        without(s.drop_last(), k).push(s.last())
    }
}

/// Setting `k` to `v` in a table.
pub open spec fn with_slot(s: Table, k: KeyView, v: usize) -> Table {
    without(s, k).push((k, v))
}

/// Taking a key out of a table hides it and leaves every other key's value alone.
pub proof fn lemma_without_get(s: Table, k: KeyView, k2: KeyView)
    ensures
        slot_get(without(s, k), k2) == (if k == k2 {
            None
        } else {
            slot_get(s, k2)
        }),
    decreases s.len(),
{
    if s.len() > 0 {
        lemma_without_get(s.drop_last(), k, k2);
        let w = without(s.drop_last(), k);
        if s.last().0 != k {
            assert(w.push(s.last()).drop_last() =~= w);
        }
    }
}

/// After setting `k` to `v`, `k` holds `v` and every other key keeps its value.
pub proof fn lemma_with_slot_get(s: Table, k: KeyView, v: usize, k2: KeyView)
    ensures
        slot_get(with_slot(s, k, v), k2) == (if k == k2 {
            Some(v)
        } else {
            slot_get(s, k2)
        }),
{
    lemma_without_get(s, k, k2);
    assert(with_slot(s, k, v).drop_last() =~= without(s, k));
}

/// Every value of a table names an object of a heap of `n` objects.
pub open spec fn slots_in(s: Table, n: nat) -> bool {
    forall|j: int| 0 <= j < s.len() ==> 1 <= #[trigger] s[j].1 < n
}

pub proof fn lemma_without_in(s: Table, k: KeyView, n: nat)
    requires
        slots_in(s, n),
    ensures
        slots_in(without(s, k), n),
    decreases s.len(),
{
    if s.len() > 0 {
        assert(slots_in(s.drop_last(), n)) by {
            assert forall|j: int| 0 <= j < s.drop_last().len() implies 1 <= #[trigger] s.drop_last()[j].1 < n by {
                assert(s.drop_last()[j] == s[j]);
            }
        }
        lemma_without_in(s.drop_last(), k, n);
    }
}

/// A value found in a table is one of its values.
pub proof fn lemma_slot_get_in(s: Table, k: KeyView, n: nat)
    requires
        slots_in(s, n),
    ensures
        slot_get(s, k) matches Some(v) ==> 1 <= v < n,
    decreases s.len(),
{
    if s.len() > 0 {
        assert(s.last().1 == s[s.len() - 1].1);
        assert(slots_in(s.drop_last(), n)) by {
            assert forall|j: int| 0 <= j < s.drop_last().len() implies 1 <= #[trigger] s.drop_last()[j].1 < n by {
                assert(s.drop_last()[j] == s[j]);
            }
        }
        lemma_slot_get_in(s.drop_last(), k, n);
    }
}

/// Compares two keys.
pub fn keys_equal(a: &Key, b: &Key) -> (r: bool)
    ensures
        r == (a@ == b@),
{
    match a {
        Key::Int(x) => match b {
            Key::Int(y) => *x == *y,
            Key::Str(_) => false,
        },
        Key::Str(s) => match b {
            Key::Int(_) => false,
            Key::Str(t) => s.eq(t),
        },
    }
}

/// A copy of a key.
pub fn copy_key(k: &Key) -> (r: Key)
    ensures
        r@ == k@,
{
    match k {
        Key::Int(x) => Key::Int(*x),
        Key::Str(s) => Key::Str(s.clone()),
    }
}

/// Looks `k` up in a table.
pub fn find_slot(s: &Vec<(Key, usize)>, k: &Key) -> (r: Option<usize>)
    ensures
        r == slot_get(table(s@), k@),
{
    let ghost t = table(s@);
    let mut i: usize = s.len();
    assert(t.subrange(0, i as int) =~= t);
    while i > 0
        invariant
            i <= s@.len(),
            t == table(s@),
            slot_get(t, k@) == slot_get(t.subrange(0, i as int), k@),
        decreases i,
    {
        let ghost sub = t.subrange(0, i as int);
        if keys_equal(&s[i - 1].0, k) {
            return Some(s[i - 1].1);
        }
        assert(sub.drop_last() =~= t.subrange(0, i - 1));
        i = i - 1;
    }
    assert(t.subrange(0, 0).len() == 0);
    None
}

/// Takes every entry under `k` out of a table.
pub fn remove_slot(s: &mut Vec<(Key, usize)>, k: &Key)
    ensures
        table(final(s)@) == without(table(old(s)@), k@),
{
    let mut rest: Vec<(Key, usize)> = Vec::new();
    std::mem::swap(s, &mut rest);
    let ghost t = table(rest@);
    let mut i: usize = 0;
    while i < rest.len()
        invariant
            i <= rest@.len(),
            t == table(rest@),
            rest@ == old(s)@,
            table(s@) == without(t.subrange(0, i as int), k@),
        decreases rest@.len() - i,
    {
        assert(t.subrange(0, i + 1).drop_last() =~= t.subrange(0, i as int));
        if !keys_equal(&rest[i].0, k) {
            let kk = copy_key(&rest[i].0);
            let ghost before = table(s@);
            s.push((kk, rest[i].1));
            assert(table(s@) =~= before.push(t[i as int]));
        }
        i = i + 1;
    }
    assert(t.subrange(0, i as int) =~= t);
}

/// Sets `k` to `v` in a table, keeping one entry per key.
pub fn put_slot(s: &mut Vec<(Key, usize)>, k: Key, v: usize)
    ensures
        table(final(s)@) == with_slot(table(old(s)@), k@, v),
{
    remove_slot(s, &k);
    let ghost before = table(s@);
    let ghost kv = k@;
    s.push((k, v));
    assert(table(s@) =~= before.push((kv, v)));
}

/// The built-in callables of the runtime.
#[derive(Clone, Copy, Debug, PartialEq, Eq, Structural)]
pub enum Builtin {
    /// Returns its first positional argument.
    FirstArg,
    /// Returns the number of its positional and keyword arguments.
    CountArgs,
    /// Raises an exception of the given class.
    Raise(ExcKind),
}

/// What an object is. The elements of a tuple or a list are kept beside it.
#[derive(Debug)]
pub enum Payload {
    NoneVal,
    Int(i64),
    Str(String),
    Tuple,
    List,
    Dict,
    Module,
    Class,
    Function(Builtin),
    Exception(ExcKind),
}

/// One object of the heap: its reference count, what it is, its attribute table, the
/// items of a dictionary and the elements of a tuple or a list.
#[derive(Debug)]
pub struct PyObj {
    pub refcnt: u64,
    pub payload: Payload,
    pub attrs: Vec<(Key, usize)>,
    pub items: Vec<(Key, usize)>,
    pub elems: Vec<usize>,
}

/// An object as the contracts see it.
pub struct ObjView {
    pub refcnt: u64,
    pub payload: Payload,
    pub attrs: Table,
    pub items: Table,
    pub elems: Seq<usize>,
}

impl View for PyObj {
    type V = ObjView;

    open spec fn view(&self) -> ObjView {
        ObjView {
            refcnt: self.refcnt,
            payload: self.payload,
            attrs: table(self.attrs@),
            items: table(self.items@),
            elems: self.elems@,
        }
    }
}

/// A reference count after one increment. The largest count marks an immortal
/// object, whose count never moves.
pub open spec fn inc(rc: u64) -> u64 {
    if rc == u64::MAX {
        rc
    } else {
        (rc + 1) as u64
    }
}

/// A reference count after one decrement.
pub open spec fn dec(rc: u64) -> u64 {
    if rc == u64::MAX || rc == 0 {
        rc
    } else {
        (rc - 1) as u64
    }
}

/// The heap after one increment of the count of object `id`.
pub open spec fn increfed(h: Seq<ObjView>, id: usize) -> Seq<ObjView> {
    h.update(id as int, ObjView { refcnt: inc(h[id as int].refcnt), ..h[id as int] })
}

/// The heap after one decrement of the count of object `id`.
pub open spec fn decrefed(h: Seq<ObjView>, id: usize) -> Seq<ObjView> {
    h.update(id as int, ObjView { refcnt: dec(h[id as int].refcnt), ..h[id as int] })
}

/// The heap after one decrement of the count of each object that `w` names.
pub open spec fn decrefed_opt(h: Seq<ObjView>, w: Option<usize>) -> Seq<ObjView> {
    match w {
        Some(id) => decrefed(h, id),
        None => h,
    }
}

/// The heap with the attribute table of `o` replaced.
pub open spec fn with_attrs(h: Seq<ObjView>, o: usize, a: Table) -> Seq<ObjView> {
    h.update(o as int, ObjView { attrs: a, ..h[o as int] })
}

/// The heap with the items of `o` replaced.
pub open spec fn with_items(h: Seq<ObjView>, o: usize, a: Table) -> Seq<ObjView> {
    h.update(o as int, ObjView { items: a, ..h[o as int] })
}

/// The object that a fresh object made from `p`, with no elements, is.
pub open spec fn fresh(p: Payload) -> ObjView {
    ObjView { refcnt: 1, payload: p, attrs: Seq::empty(), items: Seq::empty(), elems: Seq::empty() }
}

/// A freshly made object with one reference.
pub open spec fn is_fresh(o: ObjView, p: Payload, e: Seq<usize>) -> bool {
    o.refcnt == 1 && o.payload == p && o.attrs.len() == 0 && o.items.len() == 0 && o.elems == e
}

pub open spec fn elems_in(e: Seq<usize>, n: nat) -> bool {
    forall|j: int| 0 <= j < e.len() ==> 1 <= #[trigger] e[j] < n
}

/// Every handle held by `o` names an object of a heap of `n` objects.
pub open spec fn obj_in(o: ObjView, n: nat) -> bool {
    &&& slots_in(o.attrs, n)
    &&& slots_in(o.items, n)
    &&& elems_in(o.elems, n)
}

/// Objects that carry an attribute table of their own.
pub open spec fn has_dict(p: Payload) -> bool {
    match p {
        Payload::Module | Payload::Class | Payload::Function(_) | Payload::Exception(_) => true,
        _ => false,
    }
}

/// The foreign runtime: its heap, its pending-exception slot, the nesting depth of
/// the global lock, and its registry of imported modules by name.
pub struct Runtime {
    pub objs: Vec<PyObj>,
    pub pending: Option<usize>,
    pub gil_depth: u64,
    pub modules: Vec<(Key, usize)>,
}

impl Runtime {
    /// The heap as the contracts see it.
    pub open spec fn heap(&self) -> Seq<ObjView> {
        Seq::new(self.objs@.len(), |i: int| self.objs@[i]@)
    }

    /// The heap holds the null slot, and every handle stored anywhere names an object.
    pub open spec fn wf(&self) -> bool {
        &&& self.objs@.len() >= 1
        &&& forall|i: int|
            0 <= i < self.objs@.len() ==> obj_in(#[trigger] self.objs@[i]@, self.objs@.len())
        &&& (self.pending matches Some(e) ==> 1 <= e < self.objs@.len())
        &&& slots_in(table(self.modules@), self.objs@.len())
    }

    /// `id` names an object of the heap.
    pub open spec fn valid(&self, id: usize) -> bool {
        1 <= id < self.objs@.len()
    }

    pub open spec fn obj(&self, id: usize) -> ObjView {
        self.heap()[id as int]
    }

    pub open spec fn refcnt(&self, id: usize) -> u64 {
        self.heap()[id as int].refcnt
    }

    /// The calling thread holds the global lock.
    pub open spec fn gil_held(&self) -> bool {
        self.gil_depth > 0
    }

    /// The runtime may be called: it is well formed, the lock is held and no
    /// exception waits to be fetched.
    pub open spec fn ready(&self) -> bool {
        self.wf() && self.gil_held() && self.pending is None
    }

    /// `self` is `old` after one fresh object was made from `p` and `e`.
    pub open spec fn grew(&self, old: Seq<ObjView>, p: Payload, e: Seq<usize>) -> bool {
        &&& self.heap().len() == old.len() + 1
        &&& self.heap().subrange(0, old.len() as int) == old
        &&& is_fresh(self.heap()[old.len() as int], p, e)
    }

    /// `self` is `old` after an exception of class `kind` was raised: the exception is
    /// a fresh object, held by the pending slot.
    pub open spec fn raised(&self, old: Runtime, kind: ExcKind) -> bool {
        &&& self.wf()
        &&& self.grew(old.heap(), Payload::Exception(kind), Seq::empty())
        &&& self.pending matches Some(e) && e == old.objs@.len()
        &&& self.gil_depth == old.gil_depth
        &&& self.modules == old.modules
    }

    /// `self` is `old` with the heap replaced by `h`, nothing pending.
    pub open spec fn became(&self, old: Runtime, h: Seq<ObjView>) -> bool {
        &&& self.wf()
        &&& self.heap() == h
        &&& self.pending is None
        &&& self.gil_depth == old.gil_depth
        &&& self.modules == old.modules
    }

    /// A runtime whose heap holds the null slot and the module `builtins`, registered
    /// under its name; its lock is not held.
    pub fn new() -> (r: Runtime)
        ensures
            r.wf(),
            r.pending is None,
            r.gil_depth == 0,
            slot_get(table(r.modules@), KeyView::Str("builtins"@)) == Some(1usize),
            r.obj(1).payload is Module,
            slot_get(r.obj(1).attrs, KeyView::Str("__name__"@)) == Some(2usize),
            r.obj(2).payload matches Payload::Str(t) && t@ == "builtins"@,
    {
        let null = PyObj {
            refcnt: 0,
            payload: Payload::NoneVal,
            attrs: Vec::new(),
            items: Vec::new(),
            elems: Vec::new(),
        };
        let mut objs: Vec<PyObj> = Vec::new();
        objs.push(null);
        let mut rt = Runtime { objs, pending: None, gil_depth: 0, modules: Vec::new() };
        assert(table(rt.modules@) =~= Seq::<(KeyView, usize)>::empty());
        let m = rt.new_object(Payload::Module, Vec::new());
        let s = rt.new_object(Payload::Str(String::from_str("builtins")), Vec::new());
        let ghost before = rt;
        rt.put_attr(m, Key::Str(String::from_str("__name__")), s);
        proof {
            lemma_with_slot_get(before.obj(m).attrs, KeyView::Str("__name__"@), s, KeyView::Str("__name__"@));
        }
        let ghost t0 = table(rt.modules@);
        rt.modules.push((Key::Str(String::from_str("builtins")), m));
        assert(table(rt.modules@) =~= t0.push((KeyView::Str("builtins"@), m)));
        assert(table(rt.modules@).drop_last() =~= t0);
        rt
    }

    /// Makes a fresh object with one reference, owned by the caller.
    pub fn new_object(&mut self, p: Payload, e: Vec<usize>) -> (id: usize)
        requires
            old(self).wf(),
            elems_in(e@, old(self).objs@.len()),
        ensures
            final(self).modules == old(self).modules,
            final(self).wf(),
            id == old(self).objs@.len(),
            final(self).grew(old(self).heap(), p, e@),
            final(self).pending == old(self).pending,
            final(self).gil_depth == old(self).gil_depth,
    {
        let ghost n = self.objs@.len();
        let o = PyObj { refcnt: 1, payload: p, attrs: Vec::new(), items: Vec::new(), elems: e };
        assert(obj_in(o@, n + 1));
        let id = self.objs.len();
        self.objs.push(o);
        assert(self.heap().subrange(0, n as int) =~= old(self).heap());
        assert forall|i: int| 0 <= i < self.objs@.len() implies obj_in(#[trigger] self.objs@[i]@, self.objs@.len()) by {
            if i < n {
                lemma_obj_in_grow(old(self).objs@[i]@, n, n + 1);
            }
        }
        id
    }

    /// Adds one reference to object `id`.
    pub(crate) fn incref(&mut self, id: usize)
        requires
            old(self).wf(),
            old(self).valid(id),
        ensures
            final(self).modules == old(self).modules,
            final(self).objs@.len() == old(self).objs@.len(),
            final(self).wf(),
            final(self).heap() == increfed(old(self).heap(), id),
            final(self).pending == old(self).pending,
            final(self).gil_depth == old(self).gil_depth,
    {
        let rc = self.objs[id].refcnt;
        if rc < u64::MAX {
            self.objs[id].refcnt = rc + 1;
        }
        assert(self.heap() =~= increfed(old(self).heap(), id));
        assert forall|i: int| 0 <= i < self.objs@.len() implies obj_in(#[trigger] self.objs@[i]@, self.objs@.len()) by {
            assert(obj_in(old(self).objs@[i]@, self.objs@.len()));
        }
    }

    /// Drops one reference to object `id`.
    pub(crate) fn decref(&mut self, id: usize)
        requires
            old(self).wf(),
            old(self).valid(id),
        ensures
            final(self).modules == old(self).modules,
            final(self).objs@.len() == old(self).objs@.len(),
            final(self).wf(),
            final(self).heap() == decrefed(old(self).heap(), id),
            final(self).pending == old(self).pending,
            final(self).gil_depth == old(self).gil_depth,
    {
        let rc = self.objs[id].refcnt;
        if rc < u64::MAX && rc > 0 {
            self.objs[id].refcnt = rc - 1;
        }
        assert(self.heap() =~= decrefed(old(self).heap(), id));
        assert forall|i: int| 0 <= i < self.objs@.len() implies obj_in(#[trigger] self.objs@[i]@, self.objs@.len()) by {
            assert(obj_in(old(self).objs@[i]@, self.objs@.len()));
        }
    }

    /// Raises an exception of class `kind`: a fresh exception object goes to the
    /// pending slot.
    pub(crate) fn raise(&mut self, kind: ExcKind)
        requires
            old(self).wf(),
            old(self).pending is None,
        ensures
            final(self).modules == old(self).modules,
            final(self).raised(*old(self), kind),
    {
        let id = self.new_object(Payload::Exception(kind), Vec::new());
        self.pending = Some(id);
    }

    /// Sets `k` to `v` in the attribute table of `o`; no count moves.
    pub(crate) fn put_attr(&mut self, o: usize, k: Key, v: usize)
        requires
            old(self).wf(),
            old(self).valid(o),
            old(self).valid(v),
        ensures
            final(self).modules == old(self).modules,
            final(self).objs@.len() == old(self).objs@.len(),
            final(self).wf(),
            final(self).heap() == with_attrs(old(self).heap(), o, with_slot(old(self).obj(o).attrs, k@, v)),
            final(self).pending == old(self).pending,
            final(self).gil_depth == old(self).gil_depth,
    {
        let ghost n = self.objs@.len();
        proof {
            assert(obj_in(self.objs@[o as int]@, n));
            lemma_without_in(self.obj(o).attrs, k@, n);
        }
        put_slot(&mut self.objs[o].attrs, k, v);
        assert(self.heap() =~= with_attrs(old(self).heap(), o, with_slot(old(self).obj(o).attrs, k@, v)));
        assert forall|i: int| 0 <= i < self.objs@.len() implies obj_in(#[trigger] self.objs@[i]@, self.objs@.len()) by {
            assert(obj_in(old(self).objs@[i]@, n));
        }
    }

    /// Takes `k` out of the attribute table of `o`; no count moves.
    pub(crate) fn drop_attr(&mut self, o: usize, k: &Key)
        requires
            old(self).wf(),
            old(self).valid(o),
        ensures
            final(self).modules == old(self).modules,
            final(self).objs@.len() == old(self).objs@.len(),
            final(self).wf(),
            final(self).heap() == with_attrs(old(self).heap(), o, without(old(self).obj(o).attrs, k@)),
            final(self).pending == old(self).pending,
            final(self).gil_depth == old(self).gil_depth,
    {
        let ghost n = self.objs@.len();
        proof {
            assert(obj_in(self.objs@[o as int]@, n));
            lemma_without_in(self.obj(o).attrs, k@, n);
        }
        remove_slot(&mut self.objs[o].attrs, k);
        assert(self.heap() =~= with_attrs(old(self).heap(), o, without(old(self).obj(o).attrs, k@)));
        assert forall|i: int| 0 <= i < self.objs@.len() implies obj_in(#[trigger] self.objs@[i]@, self.objs@.len()) by {
            assert(obj_in(old(self).objs@[i]@, n));
        }
    }

    /// Sets `k` to `v` in the items of `o`; no count moves.
    pub(crate) fn put_item(&mut self, o: usize, k: Key, v: usize)
        requires
            old(self).wf(),
            old(self).valid(o),
            old(self).valid(v),
        ensures
            final(self).modules == old(self).modules,
            final(self).objs@.len() == old(self).objs@.len(),
            final(self).wf(),
            final(self).heap() == with_items(old(self).heap(), o, with_slot(old(self).obj(o).items, k@, v)),
            final(self).pending == old(self).pending,
            final(self).gil_depth == old(self).gil_depth,
    {
        let ghost n = self.objs@.len();
        proof {
            assert(obj_in(self.objs@[o as int]@, n));
            lemma_without_in(self.obj(o).items, k@, n);
        }
        put_slot(&mut self.objs[o].items, k, v);
        assert(self.heap() =~= with_items(old(self).heap(), o, with_slot(old(self).obj(o).items, k@, v)));
        assert forall|i: int| 0 <= i < self.objs@.len() implies obj_in(#[trigger] self.objs@[i]@, self.objs@.len()) by {
            assert(obj_in(old(self).objs@[i]@, n));
        }
    }

    /// Takes `k` out of the items of `o`; no count moves.
    pub(crate) fn drop_item(&mut self, o: usize, k: &Key)
        requires
            old(self).wf(),
            old(self).valid(o),
        ensures
            final(self).modules == old(self).modules,
            final(self).objs@.len() == old(self).objs@.len(),
            final(self).wf(),
            final(self).heap() == with_items(old(self).heap(), o, without(old(self).obj(o).items, k@)),
            final(self).pending == old(self).pending,
            final(self).gil_depth == old(self).gil_depth,
    {
        let ghost n = self.objs@.len();
        proof {
            assert(obj_in(self.objs@[o as int]@, n));
            lemma_without_in(self.obj(o).items, k@, n);
        }
        remove_slot(&mut self.objs[o].items, k);
        assert(self.heap() =~= with_items(old(self).heap(), o, without(old(self).obj(o).items, k@)));
        assert forall|i: int| 0 <= i < self.objs@.len() implies obj_in(#[trigger] self.objs@[i]@, self.objs@.len()) by {
            assert(obj_in(old(self).objs@[i]@, n));
        }
    }

    /// Whether an exception waits to be fetched.
    pub fn err_occurred(&self) -> (r: bool)
        ensures
            r == self.pending is Some,
    {
        self.pending.is_some()
    }

    /// Takes the pending exception out of its slot; its reference passes to the caller.
    pub(crate) fn take_pending(&mut self) -> (r: Option<usize>)
        ensures
            r == old(self).pending,
            final(self).pending is None,
            final(self).objs == old(self).objs,
            final(self).gil_depth == old(self).gil_depth,
            final(self).modules == old(self).modules,
    {
        let r = self.pending;
        self.pending = None;
        r
    }
}

/// A heap that grew by one fresh object without elements is the old heap with that
/// object pushed.
pub proof fn lemma_grew_push(rt: Runtime, h: Seq<ObjView>, p: Payload)
    requires
        rt.grew(h, p, Seq::empty()),
    ensures
        rt.heap() == h.push(fresh(p)),
{
    let last = rt.heap()[h.len() as int];
    assert(last.attrs =~= Seq::empty());
    assert(last.items =~= Seq::empty());
    assert(last.elems =~= Seq::empty());
    assert forall|i: int| 0 <= i < h.len() implies rt.heap()[i] == h[i] by {
        assert(rt.heap().subrange(0, h.len() as int)[i] == rt.heap()[i]);
    }
    assert(rt.heap() =~= h.push(fresh(p)));
}

pub proof fn lemma_obj_in_grow(o: ObjView, n: nat, m: nat)
    requires
        obj_in(o, n),
        n <= m,
    ensures
        obj_in(o, m),
{
}

} // verus!
