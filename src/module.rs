//! Module objects: creation, naming, the export index `__all__`, and the helpers that
//! add members to a module.
use crate::err::{failed, kept, result_from_owned_ptr, PyErr, PyObject, PyPtr, PyResult};
use crate::object::name_key;
use crate::object::kw_handle;
use crate::raw::{after_call, call_effect, CallEffect};
use crate::runtime::{
    decrefed, find_slot, fresh, has_dict, increfed, lemma_grew_push, lemma_slot_get_in, slot_get, table, Builtin, ExcKind, KeyView, ObjView, Payload, Runtime, NULL,
};
use vstd::prelude::*;

verus! {

/// The text of string attribute `name` of object `o`, where it has one.
pub open spec fn str_attr(rt: Runtime, o: usize, name: Seq<char>) -> Option<Seq<char>> {
    match slot_get(rt.obj(o).attrs, KeyView::Str(name)) {
        Some(v) => match rt.obj(v).payload {
            Payload::Str(s) => Some(s@),
            _ => None,
        },
        None => None,
    }
}

/// The text of string attribute `name` of `o`, as `PyModule_GetName` reads a module's
/// name: a `SystemError` where `o` has no such attribute or it is no string. Only
/// reads the attribute table.
pub fn str_attr_of(rt: &mut Runtime, o: PyObject, name: &str) -> (r: PyResult<String>)
    requires
        old(rt).ready(),
        old(rt).valid(o.id),
    ensures
        match str_attr(*old(rt), o.id, name@) {
            Some(t) => r matches Ok(s) && s@ == t && *final(rt) == *old(rt),
            None => r matches Err(e) && failed(*final(rt), *old(rt), e.id(), ExcKind::SystemError),
        },
{
    proof {
        rt.lemma_attr_valid(o.id, KeyView::Str(name@));
    }
    let k = name_key(name);
    let text = match find_slot(&rt.objs[o.id].attrs, &k) {
        Some(v) => match &rt.objs[v].payload {
            Payload::Str(s) => Some(s.clone()),
            _ => None,
        },
        None => None,
    };
    match text {
        Some(s) => Ok(s),
        None => {
            rt.raise(ExcKind::SystemError);
            Err(PyErr::api_call_failed(rt))
        },
    }
}

/// The export index of module `m`, where it has one or can be given one: a list, or
/// no `__all__` at all.
pub open spec fn index_ok(rt: Runtime, m: usize) -> bool {
    match slot_get(rt.obj(m).attrs, KeyView::Str("__all__"@)) {
        Some(v) => rt.obj(v).payload is List,
        None => true,
    }
}

/// The names listed in the export index of module `m` (none where it has none).
pub open spec fn index_elems(rt: Runtime, m: usize) -> Seq<usize> {
    match slot_get(rt.obj(m).attrs, KeyView::Str("__all__"@)) {
        Some(v) => rt.obj(v).elems,
        None => Seq::empty(),
    }
}

/// Object `s` is a string with text `t`.
pub open spec fn is_text(rt: Runtime, s: usize, t: Seq<char>) -> bool {
    rt.obj(s).payload matches Payload::Str(x) && x@ == t
}

/// A module object, held by an owned reference.
#[derive(Debug)]
pub struct PyModule {
    pub ptr: PyPtr,
}

impl PyModule {
    /// The module object.
    pub open spec fn id(&self) -> usize {
        self.ptr.id()
    }

    /// The handle names a module object of `rt`.
    pub open spec fn wf_in(&self, rt: Runtime) -> bool {
        rt.valid(self.id()) && rt.obj(self.id()).payload is Module
    }

    /// A borrowed reference to the module object.
    pub fn as_object(&self) -> (r: PyObject)
        ensures
            r.id == self.id(),
    {
        self.ptr.as_object()
    }

    /// Creates a new module whose `__name__` is `name`. Never fails.
    pub fn new(rt: &mut Runtime, name: &str) -> (r: PyResult<PyModule>)
        requires
            old(rt).ready(),
        ensures
            r matches Ok(m) && m.wf_in(*final(rt)) && m.id() == old(rt).objs@.len()
                && str_attr(*final(rt), m.id(), "__name__"@) == Some(name@)
                && final(rt).obj(m.id()).attrs == seq![(KeyView::Str("__name__"@), (m.id() + 1) as usize)]
                && slot_get(final(rt).obj(m.id()).attrs, KeyView::Str("__all__"@)) is None,
            kept(*final(rt), *old(rt)),
    {
        let ghost before = *rt;
        let m = rt.new_object(Payload::Module, Vec::new());
        let s = rt.new_object(Payload::Str(name.to_owned()), Vec::new());
        let ghost mid = *rt;
        assert(mid.obj(m).payload is Module);
        let k = name_key("__name__");
        rt.raw_setattr(m, k, s);
        proof {
            let h2 = rt.heap();
            assert(h2 == crate::raw::set_heap(mid.heap(), m, KeyView::Str("__name__"@), s, false));
            assert(h2.len() == mid.heap().len());
            assert(rt.objs@.len() == mid.objs@.len());
            assert(h2[m as int] == rt.obj(m));
            assert(h2[m as int].attrs == crate::runtime::with_slot(mid.obj(m).attrs, KeyView::Str("__name__"@), s));
            crate::runtime::lemma_with_slot_get(mid.obj(m).attrs, KeyView::Str("__name__"@), s, KeyView::Str("__name__"@));
        }
        assert(slot_get(rt.obj(m).attrs, KeyView::Str("__name__"@)) == Some(s));
        assert(mid.obj(m).attrs.len() == 0);
        assert(crate::runtime::without(mid.obj(m).attrs, KeyView::Str("__name__"@)) =~= mid.obj(m).attrs);
        assert(rt.obj(m).attrs =~= seq![(KeyView::Str("__name__"@), s)]);
        proof {
            reveal_strlit("__name__");
            reveal_strlit("__all__");
            assert("__name__"@ != "__all__"@) by {
                assert("__name__"@[2] != "__all__"@[2]);
            }
            let t = rt.obj(m).attrs;
            assert(t.drop_last() =~= Seq::<(KeyView, usize)>::empty());
            assert(t.last().0 != KeyView::Str("__all__"@));
            assert(slot_get(t.drop_last(), KeyView::Str("__all__"@)) is None);
            assert(slot_get(t, KeyView::Str("__all__"@)) is None);
        }
        rt.decref(s);
        assert(forall|i: int| 0 <= i < before.objs@.len() ==> #[trigger] rt.objs@[i].payload == rt.heap()[i].payload);
        assert(forall|i: int| 0 <= i < before.objs@.len() ==> #[trigger] before.objs@[i].payload == before.heap()[i].payload);
        assert(forall|i: int| 0 <= i < before.objs@.len() ==> #[trigger] mid.heap()[i] == before.heap()[i]) by {
            assert forall|i: int| 0 <= i < before.objs@.len() implies #[trigger] mid.heap()[i] == before.heap()[i] by {
                assert(mid.heap().subrange(0, m as int + 1)[i] == mid.heap()[i]);
            }
        }
        Ok(PyModule { ptr: PyPtr::from_owned(m) })
    }

    /// The export index (`__all__`) of the module, created empty where there is none;
    /// a `TypeError` where `__all__` is no list.
    pub fn index(&self, rt: &mut Runtime) -> (r: PyResult<PyPtr>)
        requires
            old(rt).ready(),
            self.wf_in(*old(rt)),
        ensures
            kept(*final(rt), *old(rt)),
            index_ok(*old(rt), self.id()) == (r is Ok),
            match r {
                Ok(p) => slot_get(final(rt).obj(self.id()).attrs, KeyView::Str("__all__"@)) == Some(p.id())
                    && final(rt).valid(p.id())
                    && final(rt).obj(p.id()).payload is List
                    && final(rt).obj(p.id()).elems == index_elems(*old(rt), self.id()),
                Err(e) => final(rt).valid(e.id())
                    && final(rt).obj(e.id()).payload == Payload::Exception(ExcKind::TypeError)
                    && index_failed(*final(rt), *old(rt), self.id(), e.id()),
            },
            r is Ok ==> same_index(*final(rt), *old(rt), self.id()),
            match slot_get(old(rt).obj(self.id()).attrs, KeyView::Str("__all__"@)) {
                Some(v) => old(rt).obj(v).payload is List ==> (r matches Ok(p) && p.id() == v
                    && final(rt).became(*old(rt), increfed(old(rt).heap(), v))),
                None => r matches Ok(p) && p.id() == old(rt).heap().len() + 1,
            },
    {
        let ghost before = *rt;
        proof {
            rt.lemma_attr_valid(self.id(), KeyView::Str("__all__"@));
        }
        let all = self.as_object().getattr(rt, "__all__");
        match all {
            Ok(idx) => {
                let id = idx.as_object().id;
                assert(before.valid(id));
                assert(rt.heap().len() == before.heap().len());
                assert(rt.objs@.len() == before.objs@.len());
                let is_list = match rt.objs[id].payload {
                    Payload::List => true,
                    _ => false,
                };
                assert(slot_get(before.obj(self.id()).attrs, KeyView::Str("__all__"@)) == Some(id));
                assert(rt.obj(id).payload == before.obj(id).payload);
                if is_list {
                    assert(index_ok(before, self.id()));
                    assert(rt.obj(self.id()).attrs == before.obj(self.id()).attrs);
                    Ok(idx)
                } else {
                    assert(!index_ok(before, self.id()));
                    idx.release(rt);
                    let ghost mid = *rt;
                    assert(mid.heap() == decrefed(increfed(before.heap(), id), id));
                    rt.raise(ExcKind::TypeError);
                    let e = PyErr::api_call_failed(rt);
                    assert(index_failed(*rt, before, self.id(), e.id()));
                    assert(forall|i: int| 0 <= i < mid.objs@.len() ==> #[trigger] rt.heap()[i] == rt.heap().subrange(0, mid.objs@.len() as int)[i]);
                    Err(e)
                }
            },
            Err(err) => {
                let ghost after_get = *rt;
                assert(after_get.heap().subrange(0, before.objs@.len() as int)[self.id() as int] == before.heap()[self.id() as int]);
                assert(after_get.obj(self.id()).payload is Module);
                if err.is_instance(rt, ExcKind::AttributeError) {
                    err.release(rt);
                    let ghost mid = *rt;
                    assert(mid.obj(self.id()).payload is Module);
                    let l = rt.new_object(Payload::List, Vec::new());
                    let lp = PyPtr::from_owned(l);
                    assert(forall|i: int| 0 <= i < mid.objs@.len() ==> #[trigger] rt.heap()[i] == rt.heap().subrange(0, mid.objs@.len() as int)[i]);
                    assert(mid.objs@.len() == before.objs@.len() + 1);
                    assert(rt.objs@.len() == mid.objs@.len() + 1);
                    assert(rt.heap().subrange(0, mid.objs@.len() as int)[self.id() as int] == mid.heap()[self.id() as int]);
                    assert(rt.obj(self.id()) == mid.obj(self.id()));
                    assert(rt.obj(self.id()).payload is Module);
                    let ghost mid2 = *rt;
                    let set = self.as_object().setattr(rt, "__all__", lp.as_object());
                    proof {
                        let h2 = rt.heap();
                        assert(set is Ok);
                        assert(h2 == crate::raw::set_heap(mid2.heap(), self.id(), KeyView::Str("__all__"@), l, false));
                        assert(rt.objs@.len() == mid2.objs@.len());
                        assert(h2[self.id() as int] == rt.obj(self.id()));
                        assert(h2[l as int] == rt.obj(l));
                        crate::runtime::lemma_with_slot_get(mid2.obj(self.id()).attrs, KeyView::Str("__all__"@), l, KeyView::Str("__all__"@));
                    }
                    match set {
                        Ok(()) => Ok(lp),
                        Err(e) => {
                            lp.release(rt);
                            Err(e)
                        },
                    }
                } else {
                    Err(err)
                }
            },
        }
    }

    /// Imports the module registered under `name`; an `ImportError` where none is, a
    /// `TypeError` where what is registered is no module.
    pub fn import(rt: &mut Runtime, name: &str) -> (r: PyResult<PyModule>)
        requires
            old(rt).ready(),
        ensures
            final(rt).wf(),
            final(rt).pending is None,
            final(rt).gil_depth == old(rt).gil_depth,
            final(rt).modules == old(rt).modules,
            match slot_get(table(old(rt).modules@), KeyView::Str(name@)) {
                Some(m) => if old(rt).obj(m).payload is Module {
                    r matches Ok(md) && md.id() == m && md.wf_in(*final(rt))
                        && final(rt).became(*old(rt), increfed(old(rt).heap(), m))
                } else {
                    r matches Err(e) && final(rt).valid(e.id())
                        && final(rt).obj(e.id()).payload == Payload::Exception(ExcKind::TypeError)
                },
                None => r matches Err(e) && failed(*final(rt), *old(rt), e.id(), ExcKind::ImportError),
            },
    {
        let ghost before = *rt;
        proof {
            lemma_slot_get_in(table(rt.modules@), KeyView::Str(name@), rt.objs@.len());
        }
        let k = name_key(name);
        let p = rt.raw_import(&k);
        let ghost mid = *rt;
        match result_from_owned_ptr(rt, p) {
            Ok(ptr) => {
                assert(mid.heap().len() == before.heap().len());
                assert(rt.objs@.len() == before.objs@.len());
                assert(rt.heap()[p as int] == rt.objs@[p as int]@);
                assert(rt.obj(p).payload == before.obj(p).payload);
                let is_module = match rt.objs[p].payload {
                    Payload::Module => true,
                    _ => false,
                };
                if is_module {
                    Ok(PyModule { ptr })
                } else {
                    ptr.release(rt);
                    rt.raise(ExcKind::TypeError);
                    let e = PyErr::api_call_failed(rt);
                    Err(e)
                }
            },
            Err(e) => Err(e),
        }
    }

    /// The module's name (its `__name__`); a `SystemError` where it has none.
    pub fn name(&self, rt: &mut Runtime) -> (r: PyResult<String>)
        requires
            old(rt).ready(),
            self.wf_in(*old(rt)),
        ensures
            match str_attr(*old(rt), self.id(), "__name__"@) {
                Some(t) => r matches Ok(s) && s@ == t && *final(rt) == *old(rt),
                None => r matches Err(e) && failed(*final(rt), *old(rt), e.id(), ExcKind::SystemError),
            },
    {
        str_attr_of(rt, self.as_object(), "__name__")
    }

    /// The module's file name (its `__file__`); a `SystemError` where it has none.
    pub fn filename(&self, rt: &mut Runtime) -> (r: PyResult<String>)
        requires
            old(rt).ready(),
            self.wf_in(*old(rt)),
        ensures
            match str_attr(*old(rt), self.id(), "__file__"@) {
                Some(t) => r matches Ok(s) && s@ == t && *final(rt) == *old(rt),
                None => r matches Err(e) && failed(*final(rt), *old(rt), e.id(), ExcKind::SystemError),
            },
    {
        str_attr_of(rt, self.as_object(), "__file__")
    }

    /// Adds attribute `name` with `value` to the module and lists `name` at the end of
    /// its export index; a `TypeError` where `__all__` is no list.
    pub fn add(&self, rt: &mut Runtime, name: &str, value: PyObject) -> (r: PyResult<()>)
        requires
            old(rt).ready(),
            self.wf_in(*old(rt)),
            old(rt).valid(value.id),
        ensures
            kept(*final(rt), *old(rt)),
            index_ok(*old(rt), self.id()) == (r is Ok),
            r is Ok ==> slot_get(final(rt).obj(self.id()).attrs, KeyView::Str(name@)) == Some(value.id),
            r is Ok && name@ != "__all__"@ ==> listed(*final(rt), self.id(), index_elems(*old(rt), self.id()), name@)
                && same_index(*final(rt), *old(rt), self.id()),
            !index_ok(*old(rt), self.id()) ==> (r matches Err(e) && index_failed(*final(rt), *old(rt), self.id(), e.id())),
    {
        let ghost start = *rt;
        let idx = match self.index(rt) {
            Ok(idx) => idx,
            Err(e) => {
                return Err(e);
            },
        };
        let l = idx.as_object().id;
        let ghost s1 = *rt;
        let m = self.as_object().id;
        assert(s1.obj(m).payload is Module);
        let s = rt.new_object(Payload::Str(name.to_owned()), Vec::new());
        let ghost s2 = *rt;
        assert(s2.heap().subrange(0, s1.heap().len() as int)[l as int] == s1.heap()[l as int]);
        assert(s2.heap().subrange(0, s1.heap().len() as int)[m as int] == s1.heap()[m as int]);
        assert(s2.obj(l) == s1.obj(l));
        assert(s2.obj(m) == s1.obj(m));
        assert(s2.obj(l).payload is List);
        let st = rt.raw_list_append(l, s);
        let ghost s3 = *rt;
        assert(st == 0);
        assert(s3.heap() == crate::raw::appended(increfed(s2.heap(), s), l, s));
        assert(s3.heap().len() == s2.heap().len());
        assert(s3.obj(l).elems == s1.obj(l).elems.push(s));
        assert(s3.obj(m).attrs == s1.obj(m).attrs);
        assert(s3.obj(s).payload == s2.obj(s).payload);
        assert(rt.objs@.len() == s2.objs@.len());
        rt.decref(s);
        let ghost s4 = *rt;
        assert(rt.objs@.len() == s2.objs@.len());
        let set = self.as_object().setattr(rt, name, value);
        proof {
            assert(set is Ok);
            assert(rt.heap() == crate::raw::set_heap(s4.heap(), m, KeyView::Str(name@), value.id, false));
            crate::runtime::lemma_with_slot_get(s4.obj(m).attrs, KeyView::Str(name@), value.id, KeyView::Str(name@));
            crate::runtime::lemma_with_slot_get(s4.obj(m).attrs, KeyView::Str(name@), value.id, KeyView::Str("__all__"@));
            let h1 = increfed(s4.heap(), value.id);
            let h2 = crate::runtime::with_attrs(h1, m, crate::runtime::with_slot(s4.obj(m).attrs, KeyView::Str(name@), value.id));
            assert(h1[l as int].elems == s4.heap()[l as int].elems);
            assert(h2[l as int].elems == h1[l as int].elems);
            assert(h2[s as int].payload == s4.heap()[s as int].payload);
            assert(s4.heap().len() == s2.heap().len());
            assert(s2.heap().len() == s1.heap().len() + 1);
            assert(l < s4.heap().len());
            assert(h1.len() == s4.heap().len());
            assert(h2.len() == h1.len());
            s4.lemma_attr_valid(m, KeyView::Str(name@));
            match slot_get(s4.obj(m).attrs, KeyView::Str(name@)) {
                Some(w) => {
                    assert(rt.heap() == crate::runtime::decrefed(h2, w));
                    assert(crate::runtime::decrefed(h2, w).len() == h2.len());
                    assert(rt.heap()[l as int].elems == h2[l as int].elems);
                    assert(rt.heap()[s as int].payload == h2[s as int].payload);
                },
                None => {
                    assert(rt.heap() == h2);
                },
            }
            assert(rt.heap().len() == s4.heap().len());
            assert(rt.obj(l).elems == s4.obj(l).elems);
            assert(rt.obj(s).payload == s4.obj(s).payload);
        }
        let ghost s5 = *rt;
        idx.release(rt);
        assert(rt.obj(m).attrs == s5.obj(m).attrs);
        assert(rt.obj(l).elems == s5.obj(l).elems);
        assert(rt.obj(s).payload == s5.obj(s).payload);
        assert(rt.obj(l).elems.drop_last() =~= s1.obj(l).elems);
        assert(rt.heap().len() == s5.heap().len());
        assert(s5.heap().len() == s4.heap().len());
        assert(s1.heap().len() >= start.heap().len());
        assert forall|i: int| 0 <= i < start.heap().len() implies (#[trigger] rt.heap()[i]).payload == start.heap()[i].payload by {
            assert(s1.heap()[i].payload == start.heap()[i].payload);
            assert(s2.heap().subrange(0, s1.heap().len() as int)[i] == s1.heap()[i]);
            assert(s3.heap()[i].payload == s2.heap()[i].payload);
            assert(s4.heap()[i].payload == s3.heap()[i].payload);
            assert(s5.heap()[i].payload == s4.heap()[i].payload);
        }
        set
    }

    /// Adds `o` under its own name (its `__name__`); a `SystemError` where it has no
    /// name, a `TypeError` where the export index is no list.
    fn add_named(&self, rt: &mut Runtime, o: PyObject) -> (r: PyResult<()>)
        requires
            old(rt).ready(),
            self.wf_in(*old(rt)),
            old(rt).valid(o.id),
        ensures
            added(*final(rt), *old(rt), self.id(), o.id, r),
    {
        let name = match str_attr_of(rt, o, "__name__") {
            Ok(n) => n,
            Err(e) => {
                return Err(e);
            },
        };
        self.add(rt, name.as_str(), o)
    }

    /// Adds class `cls` under its name.
    pub fn add_class(&self, rt: &mut Runtime, cls: PyObject) -> (r: PyResult<()>)
        requires
            old(rt).ready(),
            self.wf_in(*old(rt)),
            old(rt).valid(cls.id),
            old(rt).obj(cls.id).payload is Class,
        ensures
            added(*final(rt), *old(rt), self.id(), cls.id, r),
    {
        self.add_named(rt, cls)
    }

    /// Adds the function or module that a wrapper produced, under its name.
    pub fn add_wrapped(&self, rt: &mut Runtime, wrapped: PyObject) -> (r: PyResult<()>)
        requires
            old(rt).ready(),
            self.wf_in(*old(rt)),
            old(rt).valid(wrapped.id),
        ensures
            added(*final(rt), *old(rt), self.id(), wrapped.id, r),
    {
        self.add_named(rt, wrapped)
    }

    /// Adds `module` as a submodule, under its name.
    pub fn add_submodule(&self, rt: &mut Runtime, module: &PyModule) -> (r: PyResult<()>)
        requires
            old(rt).ready(),
            self.wf_in(*old(rt)),
            module.wf_in(*old(rt)),
        ensures
            added(*final(rt), *old(rt), self.id(), module.id(), r),
    {
        self.add_named(rt, module.as_object())
    }

    /// Adds function `fun` under its name.
    pub fn add_function(&self, rt: &mut Runtime, fun: PyObject) -> (r: PyResult<()>)
        requires
            old(rt).ready(),
            self.wf_in(*old(rt)),
            old(rt).valid(fun.id),
            old(rt).obj(fun.id).payload is Function,
        ensures
            added(*final(rt), *old(rt), self.id(), fun.id, r),
    {
        self.add_named(rt, fun)
    }

    /// Calls member `name` of the module with the positional arguments of tuple
    /// `args` and the keyword arguments of `kwargs`.
    pub fn call(&self, rt: &mut Runtime, name: &str, args: PyObject, kwargs: Option<PyObject>) -> (r: PyResult<PyPtr>)
        requires
            old(rt).ready(),
            self.wf_in(*old(rt)),
            old(rt).valid(args.id),
            kwargs matches Some(k) ==> old(rt).valid(k.id),
        ensures
            final(rt).wf(),
            final(rt).pending is None,
            final(rt).gil_depth == old(rt).gil_depth,
            final(rt).heap().len() >= old(rt).heap().len(),
            match slot_get(old(rt).obj(self.id()).attrs, KeyView::Str(name@)) {
                None => r matches Err(e) && failed(*final(rt), *old(rt), e.id(), ExcKind::AttributeError),
                Some(v) => match call_effect(old(rt).heap(), v, args.id, kw_handle(kwargs)) {
                    CallEffect::Returns(x) => r matches Ok(p) && p.id() == x && final(rt).valid(p.id()),
                    CallEffect::Makes(q) => r matches Ok(p) && p.id() == old(rt).heap().len()
                        && final(rt).valid(p.id()) && final(rt).obj(p.id()).payload == q,
                    CallEffect::Raises(k) => r matches Err(e) && final(rt).valid(e.id())
                        && final(rt).obj(e.id()).payload == Payload::Exception(k),
                },
            },
            slot_get(old(rt).obj(self.id()).attrs, KeyView::Str(name@)) matches Some(v) ==> final(rt).heap()
                == decrefed(after_call(increfed(old(rt).heap(), v), call_effect(old(rt).heap(), v, args.id, kw_handle(kwargs))), v),
    {
        self.as_object().call_method(rt, name, args, kwargs)
    }

    /// Calls member `name` of the module with the positional arguments of tuple
    /// `args` only.
    pub fn call1(&self, rt: &mut Runtime, name: &str, args: PyObject) -> (r: PyResult<PyPtr>)
        requires
            old(rt).ready(),
            self.wf_in(*old(rt)),
            old(rt).valid(args.id),
        ensures
            final(rt).wf(),
            final(rt).pending is None,
            final(rt).gil_depth == old(rt).gil_depth,
            final(rt).heap().len() >= old(rt).heap().len(),
            match slot_get(old(rt).obj(self.id()).attrs, KeyView::Str(name@)) {
                None => r matches Err(e) && failed(*final(rt), *old(rt), e.id(), ExcKind::AttributeError),
                Some(v) => match call_effect(old(rt).heap(), v, args.id, NULL) {
                    CallEffect::Returns(x) => r matches Ok(p) && p.id() == x && final(rt).valid(p.id()),
                    CallEffect::Makes(q) => r matches Ok(p) && p.id() == old(rt).heap().len()
                        && final(rt).valid(p.id()) && final(rt).obj(p.id()).payload == q,
                    CallEffect::Raises(k) => r matches Err(e) && final(rt).valid(e.id())
                        && final(rt).obj(e.id()).payload == Payload::Exception(k),
                },
            },
            slot_get(old(rt).obj(self.id()).attrs, KeyView::Str(name@)) matches Some(v) ==> final(rt).heap()
                == decrefed(after_call(increfed(old(rt).heap(), v), call_effect(old(rt).heap(), v, args.id, NULL)), v),
    {
        self.call(rt, name, args, None)
    }

    /// Calls member `name` of the module without arguments. Where the module has no
    /// such member its `AttributeError` comes back and nothing is called.
    pub fn call0(&self, rt: &mut Runtime, name: &str) -> (r: PyResult<PyPtr>)
        requires
            old(rt).ready(),
            self.wf_in(*old(rt)),
        ensures
            final(rt).wf(),
            final(rt).pending is None,
            final(rt).gil_depth == old(rt).gil_depth,
            match slot_get(old(rt).obj(self.id()).attrs, KeyView::Str(name@)) {
                None => r matches Err(e) && failed(*final(rt), *old(rt), e.id(), ExcKind::AttributeError),
                Some(v) => final(rt).heap() == decrefed(
                    decrefed(
                        after_call(increfed(old(rt).heap(), v).push(fresh(Payload::Tuple)), call0_effect(old(rt).heap(), v)),
                        old(rt).heap().len() as usize,
                    ),
                    v,
                ) && match call0_effect(old(rt).heap(), v) {
                    CallEffect::Returns(x) => r matches Ok(p) && p.id() == x && final(rt).valid(p.id()),
                    CallEffect::Makes(q) => r matches Ok(p) && p.id() == old(rt).heap().len() + 1
                        && final(rt).valid(p.id()) && final(rt).obj(p.id()).payload == q,
                    CallEffect::Raises(k) => r matches Err(e) && final(rt).valid(e.id())
                        && final(rt).obj(e.id()).payload == Payload::Exception(k),
                },
            },
    {
        let ghost before = *rt;
        proof {
            rt.lemma_attr_valid(self.id(), KeyView::Str(name@));
        }
        let f = match self.as_object().getattr(rt, name) {
            Ok(f) => f,
            Err(e) => {
                return Err(e);
            },
        };
        let ghost v = f.id();
        let ghost h1 = rt.heap();
        let t = rt.new_object(Payload::Tuple, Vec::new());
        let tp = PyPtr::from_owned(t);
        proof {
            lemma_grew_push(*rt, h1, Payload::Tuple);
            assert(call_effect(rt.heap(), v, t, NULL) == call0_effect(before.heap(), v));
        }
        let r = f.as_object().call(rt, tp.as_object(), None);
        let ghost mid = *rt;
        assert(mid.heap().len() >= h1.len() + 1);
        tp.release(rt);
        let ghost mid2 = *rt;
        assert(mid2.heap().len() == mid.heap().len());
        assert(rt.objs@.len() == mid.objs@.len());
        f.release(rt);
        assert(rt.heap().len() == mid2.heap().len());
        proof {
            match &r {
                Ok(p) => {
                    assert(rt.obj(p.id()).payload == mid.obj(p.id()).payload);
                },
                Err(e) => {
                    assert(rt.obj(e.id()).payload == mid.obj(e.id()).payload);
                },
            }
        }
        r
    }

    /// Member `name` of the module, as a new owned reference; an `AttributeError`
    /// where there is none.
    pub fn get(&self, rt: &mut Runtime, name: &str) -> (r: PyResult<PyPtr>)
        requires
            old(rt).ready(),
            self.wf_in(*old(rt)),
        ensures
            match slot_get(old(rt).obj(self.id()).attrs, KeyView::Str(name@)) {
                Some(v) => r matches Ok(p) && p.id() == v
                    && final(rt).became(*old(rt), increfed(old(rt).heap(), v)),
                None => r matches Err(e) && failed(*final(rt), *old(rt), e.id(), ExcKind::AttributeError),
            },
    {
        self.as_object().getattr(rt, name)
    }
}

/// The export index of module `m` is a list that holds `before` and then a string
/// with text `name`.
pub open spec fn listed(rt: Runtime, m: usize, before: Seq<usize>, name: Seq<char>) -> bool {
    match slot_get(rt.obj(m).attrs, KeyView::Str("__all__"@)) {
        Some(l) => {
            &&& rt.obj(l).payload is List
            &&& rt.obj(l).elems.len() == before.len() + 1
            &&& rt.obj(l).elems.drop_last() == before
            &&& is_text(rt, rt.obj(l).elems.last(), name)
        },
        None => false,
    }
}

/// `rt` is `old` after object `o` was added to module `m` under its name, with
/// result `r`: it succeeds where `o` has a name and the export index can take it.
pub open spec fn added(rt: Runtime, old: Runtime, m: usize, o: usize, r: PyResult<()>) -> bool {
    &&& kept(rt, old)
    &&& match str_attr(old, o, "__name__"@) {
        Some(t) => {
            &&& index_ok(old, m) == (r is Ok)
            &&& r is Ok ==> slot_get(rt.obj(m).attrs, KeyView::Str(t)) == Some(o)
            &&& (r is Ok && t != "__all__"@) ==> listed(rt, m, index_elems(old, m), t) && same_index(rt, old, m)
            &&& !index_ok(old, m) ==> (r matches Err(e) && index_failed(rt, old, m, e.id()))
        },
        None => r matches Err(e) && failed(rt, old, e.id(), ExcKind::SystemError),
    }
}

/// The export index of `m` in `rt` is the list that `old` had, or, where `old` had
/// none, the list made just after the exception of the failed lookup.
pub open spec fn same_index(rt: Runtime, old: Runtime, m: usize) -> bool {
    slot_get(rt.obj(m).attrs, KeyView::Str("__all__"@)) == Some(
        match slot_get(old.obj(m).attrs, KeyView::Str("__all__"@)) {
            Some(l) => l,
            None => (old.heap().len() + 1) as usize,
        },
    )
}

/// `rt` is `old` after a failed lookup of the export index of `m`, which was no list:
/// its count went up and down again, nothing else changed, and a `TypeError` was
/// raised and taken as error `e`.
pub open spec fn index_failed(rt: Runtime, old: Runtime, m: usize, e: usize) -> bool {
    match slot_get(old.obj(m).attrs, KeyView::Str("__all__"@)) {
        Some(v) => {
            &&& e == old.heap().len()
            &&& rt.wf()
            &&& rt.pending is None
            &&& rt.gil_depth == old.gil_depth
            &&& rt.grew(decrefed(increfed(old.heap(), v), v), Payload::Exception(ExcKind::TypeError), Seq::empty())
        },
        None => false,
    }
}

/// What calling `f` without arguments does.
pub open spec fn call0_effect(h: Seq<ObjView>, f: usize) -> CallEffect {
    match h[f as int].payload {
        Payload::Function(Builtin::FirstArg) => CallEffect::Raises(ExcKind::TypeError),
        Payload::Function(Builtin::CountArgs) => CallEffect::Makes(Payload::Int(0)),
        Payload::Function(Builtin::Raise(k)) => CallEffect::Raises(k),
        _ => CallEffect::Raises(ExcKind::TypeError),
    }
}

} // verus!
