//! The object protocol: the generic operations that every object supports. Each makes
//! one raw call and routes its result through the conversion of failure signals into errors.
use crate::err::{error_on_minusone, failed, kept, result_from_int, result_from_owned_ptr, PyErr, PyObject, PyPtr, PyResult};
use crate::raw::{
    after_call, call_effect, compare_of, lemma_del_heap_shape, lemma_set_heap_shape, del_heap, hash_of, item_key, set_heap, size_of, text_of, truth_of,
    CallEffect,
};
use crate::runtime::{decrefed, increfed, lemma_grew_push, obj_in, lemma_slot_get_in, lemma_with_slot_get, lemma_without_in, slots_in, without, slot_get, with_slot, ObjView, ExcKind, Key, KeyView, Payload, Runtime, NULL};
use std::cmp::Ordering;
use vstd::prelude::*;

verus! {

/// The key of an attribute name.
pub fn name_key(name: &str) -> (k: Key)
    ensures
        k@ == KeyView::Str(name@),
{
    Key::Str(name.to_owned())
}

/// The order that a three-way comparison result stands for.
pub open spec fn ordering_of(c: i32) -> Ordering {
    if c < 0 {
        Ordering::Less
    } else if c > 0 {
        Ordering::Greater
    } else {
        Ordering::Equal
    }
}

impl PyObject {
    /// Whether the object has attribute `attr_name`. Never fails.
    pub fn hasattr(&self, rt: &Runtime, attr_name: &str) -> (r: PyResult<bool>)
        requires
            rt.wf(),
            rt.gil_held(),
            rt.valid(self.id),
        ensures
            r matches Ok(b) && b == slot_get(rt.obj(self.id).attrs, KeyView::Str(attr_name@)) is Some,
    {
        let k = name_key(attr_name);
        Ok(rt.raw_hasattr(self.id, &k) != 0)
    }

    /// The value of attribute `attr_name`, as a new owned reference; an
    /// `AttributeError` where there is none.
    pub fn getattr(&self, rt: &mut Runtime, attr_name: &str) -> (r: PyResult<PyPtr>)
        requires
            old(rt).ready(),
            old(rt).valid(self.id),
        ensures
            kept(*final(rt), *old(rt)),
            match slot_get(old(rt).obj(self.id).attrs, KeyView::Str(attr_name@)) {
                Some(v) => r matches Ok(p) && p.id() == v
                    && final(rt).became(*old(rt), increfed(old(rt).heap(), v)),
                None => r matches Err(e) && failed(*final(rt), *old(rt), e.id(), ExcKind::AttributeError),
            },
    {
        let k = name_key(attr_name);
        proof {
            rt.lemma_attr_valid(self.id, k@);
        }
        let p = rt.raw_getattr(self.id, &k);
        result_from_owned_ptr(rt, p)
    }

    /// Sets attribute `attr_name` to `value`; an `AttributeError` where the object has
    /// no attribute table of its own.
    pub fn setattr(&self, rt: &mut Runtime, attr_name: &str, value: PyObject) -> (r: PyResult<()>)
        requires
            old(rt).ready(),
            old(rt).valid(self.id),
            old(rt).valid(value.id),
        ensures
            kept(*final(rt), *old(rt)),
            if crate::runtime::has_dict(old(rt).obj(self.id).payload) {
                r is Ok && final(rt).became(
                    *old(rt),
                    set_heap(old(rt).heap(), self.id, KeyView::Str(attr_name@), value.id, false),
                )
            } else {
                r matches Err(e) && failed(*final(rt), *old(rt), e.id(), ExcKind::AttributeError)
            },
    {
        let k = name_key(attr_name);
        proof {
            assert(obj_in(rt.objs@[self.id as int]@, rt.objs@.len()));
            lemma_set_heap_shape(rt.heap(), self.id, k@, value.id, false);
        }
        let s = rt.raw_setattr(self.id, k, value.id);
        error_on_minusone(rt, s)
    }

    /// Deletes attribute `attr_name`; an `AttributeError` where there is none.
    pub fn delattr(&self, rt: &mut Runtime, attr_name: &str) -> (r: PyResult<()>)
        requires
            old(rt).ready(),
            old(rt).valid(self.id),
        ensures
            kept(*final(rt), *old(rt)),
            match slot_get(old(rt).obj(self.id).attrs, KeyView::Str(attr_name@)) {
                Some(w) => r is Ok && final(rt).became(
                    *old(rt),
                    del_heap(old(rt).heap(), self.id, KeyView::Str(attr_name@), w, false),
                ),
                None => r matches Err(e) && failed(*final(rt), *old(rt), e.id(), ExcKind::AttributeError),
            },
    {
        let k = name_key(attr_name);
        proof {
            rt.lemma_attr_valid(self.id, k@);
            if let Some(w) = slot_get(rt.obj(self.id).attrs, k@) {
                lemma_del_heap_shape(rt.heap(), self.id, k@, w, false);
            }
        }
        let s = rt.raw_delattr(self.id, &k);
        error_on_minusone(rt, s)
    }

    /// The three-way order of the object and `other`; a `TypeError` where they cannot
    /// be compared.
    pub fn compare(&self, rt: &mut Runtime, other: PyObject) -> (r: PyResult<Ordering>)
        requires
            old(rt).ready(),
            old(rt).valid(self.id),
            old(rt).valid(other.id),
        ensures
            kept(*final(rt), *old(rt)),
            match compare_of(old(rt).heap(), self.id, other.id) {
                Some(c) => r matches Ok(o) && o == ordering_of(c) && *final(rt) == *old(rt),
                None => r matches Err(e) && failed(*final(rt), *old(rt), e.id(), ExcKind::TypeError),
            },
    {
        let mut result: i32 = 0;
        let s = rt.raw_compare(self.id, other.id, &mut result);
        match error_on_minusone(rt, s) {
            Ok(()) => Ok(
                if result < 0 {
                    Ordering::Less
                } else if result > 0 {
                    Ordering::Greater
                } else {
                    Ordering::Equal
                },
            ),
            Err(e) => Err(e),
        }
    }

    /// The quoted text form of the object, as a new string object; a `TypeError`
    /// where it has none.
    pub fn repr(&self, rt: &mut Runtime) -> (r: PyResult<PyPtr>)
        requires
            old(rt).ready(),
            old(rt).valid(self.id),
        ensures
            kept(*final(rt), *old(rt)),
            match text_of(old(rt).obj(self.id).payload, true) {
                Some(t) => r matches Ok(p) && p.id() == old(rt).objs@.len() && final(rt).grew_text(*old(rt), t),
                None => r matches Err(e) && failed(*final(rt), *old(rt), e.id(), ExcKind::TypeError),
            },
    {
        let p = rt.raw_repr(self.id);
        result_from_owned_ptr(rt, p)
    }

    /// The text form of the object, as a new string object; a `TypeError` where it
    /// has none.
    pub fn str(&self, rt: &mut Runtime) -> (r: PyResult<PyPtr>)
        requires
            old(rt).ready(),
            old(rt).valid(self.id),
        ensures
            kept(*final(rt), *old(rt)),
            match text_of(old(rt).obj(self.id).payload, false) {
                Some(t) => r matches Ok(p) && p.id() == old(rt).objs@.len() && final(rt).grew_text(*old(rt), t),
                None => r matches Err(e) && failed(*final(rt), *old(rt), e.id(), ExcKind::TypeError),
            },
    {
        let p = rt.raw_str(self.id);
        result_from_owned_ptr(rt, p)
    }

    /// The text form of the object as Unicode text: the same as `str`, all text of
    /// this runtime being Unicode.
    pub fn unistr(&self, rt: &mut Runtime) -> (r: PyResult<PyPtr>)
        requires
            old(rt).ready(),
            old(rt).valid(self.id),
        ensures
            kept(*final(rt), *old(rt)),
            match text_of(old(rt).obj(self.id).payload, false) {
                Some(t) => r matches Ok(p) && p.id() == old(rt).objs@.len() && final(rt).grew_text(*old(rt), t),
                None => r matches Err(e) && failed(*final(rt), *old(rt), e.id(), ExcKind::TypeError),
            },
    {
        self.str(rt)
    }

    /// Whether the object can be called. Never fails.
    pub fn is_callable(&self, rt: &Runtime) -> (r: bool)
        requires
            rt.gil_held(),
            rt.valid(self.id),
        ensures
            r == rt.obj(self.id).payload is Function,
    {
        rt.raw_callable(self.id) != 0
    }

    /// Calls the object with the positional arguments of tuple `args` and the keyword
    /// arguments of `kw`.
    pub fn call(&self, rt: &mut Runtime, args: PyObject, kw: Option<PyObject>) -> (r: PyResult<PyPtr>)
        requires
            old(rt).ready(),
            old(rt).valid(self.id),
            old(rt).valid(args.id),
            kw matches Some(k) ==> old(rt).valid(k.id),
        ensures
            kept(*final(rt), *old(rt)),
            final(rt).wf(),
            final(rt).pending is None,
            final(rt).objs@.len() >= old(rt).objs@.len(),
            match call_effect(old(rt).heap(), self.id, args.id, kw_handle(kw)) {
                CallEffect::Returns(v) => r matches Ok(p) && p.id() == v
                    && final(rt).became(*old(rt), increfed(old(rt).heap(), v)),
                CallEffect::Makes(x) => r matches Ok(p) && p.id() == old(rt).objs@.len()
                    && final(rt).wf() && final(rt).pending is None
                    && final(rt).gil_depth == old(rt).gil_depth
                    && final(rt).grew(old(rt).heap(), x, Seq::empty()),
                CallEffect::Raises(k) => r matches Err(e) && failed(*final(rt), *old(rt), e.id(), k),
            },
            final(rt).heap() == after_call(old(rt).heap(), call_effect(old(rt).heap(), self.id, args.id, kw_handle(kw))),
    {
        let ghost before = *rt;
        let kw_id = match kw {
            Some(k) => k.id,
            None => NULL,
        };
        proof {
            rt.lemma_attr_valid(args.id, KeyView::Int(0));
            if rt.obj(args.id).elems.len() > 0 {
                assert(rt.valid(rt.obj(args.id).elems[0]));
            }
        }
        let p = rt.raw_call(self.id, args.id, kw_id);
        let r = result_from_owned_ptr(rt, p);
        proof {
            match call_effect(before.heap(), self.id, args.id, kw_id) {
                CallEffect::Returns(_) => {},
                CallEffect::Makes(q) => lemma_grew_push(*rt, before.heap(), q),
                CallEffect::Raises(k) => lemma_grew_push(*rt, before.heap(), Payload::Exception(k)),
            }
        }
        r
    }

    /// Calls method `name` of the object: looks the attribute up, then calls it. Where
    /// the lookup fails its error comes back and nothing is called.
    pub fn call_method(&self, rt: &mut Runtime, name: &str, args: PyObject, kw: Option<PyObject>) -> (r: PyResult<PyPtr>)
        requires
            old(rt).ready(),
            old(rt).valid(self.id),
            old(rt).valid(args.id),
            kw matches Some(k) ==> old(rt).valid(k.id),
        ensures
            kept(*final(rt), *old(rt)),
            final(rt).wf(),
            final(rt).pending is None,
            final(rt).gil_depth == old(rt).gil_depth,
            final(rt).heap().len() >= old(rt).heap().len(),
            match slot_get(old(rt).obj(self.id).attrs, KeyView::Str(name@)) {
                None => r matches Err(e) && failed(*final(rt), *old(rt), e.id(), ExcKind::AttributeError),
                Some(v) => match call_effect(old(rt).heap(), v, args.id, kw_handle(kw)) {
                    CallEffect::Returns(x) => r matches Ok(p) && p.id() == x && final(rt).valid(p.id()),
                    CallEffect::Makes(q) => r matches Ok(p) && p.id() == old(rt).heap().len()
                        && final(rt).valid(p.id()) && final(rt).obj(p.id()).payload == q,
                    CallEffect::Raises(k) => r matches Err(e) && final(rt).valid(e.id())
                        && final(rt).obj(e.id()).payload == Payload::Exception(k),
                },
            },
            slot_get(old(rt).obj(self.id).attrs, KeyView::Str(name@)) matches Some(v) ==> final(rt).heap()
                == decrefed(after_call(increfed(old(rt).heap(), v), call_effect(old(rt).heap(), v, args.id, kw_handle(kw))), v),
    {
        proof {
            rt.lemma_attr_valid(self.id, KeyView::Str(name@));
        }
        let ghost before = *rt;
        let m = self.getattr(rt, name);
        match m {
            Ok(f) => {
                assert(rt.heap().len() == rt.objs@.len());
                assert(call_effect(rt.heap(), f.id(), args.id, kw_handle(kw)) == call_effect(
                    before.heap(),
                    f.id(),
                    args.id,
                    kw_handle(kw),
                ));
                let ghost fid = f.id();
                let r = f.as_object().call(rt, args, kw);
                let ghost mid = *rt;
                f.release(rt);
                proof {
                    assert(rt.heap() == crate::runtime::decrefed(mid.heap(), fid));
                    match &r {
                        Ok(p) => {
                            assert(rt.obj(p.id()).payload == mid.obj(p.id()).payload);
                        },
                        Err(e) => {
                            assert(rt.obj(e.id()).payload == mid.obj(e.id()).payload);
                        },
                    }
                }
                r
            },
            Err(e) => Err(e),
        }
    }

    /// The hash of the object; a `TypeError` where it has none. A hash of `-1` with no
    /// exception pending is an ordinary result.
    pub fn hash(&self, rt: &mut Runtime) -> (r: PyResult<i64>)
        requires
            old(rt).ready(),
            old(rt).valid(self.id),
        ensures
            kept(*final(rt), *old(rt)),
            match hash_of(old(rt).heap(), self.id) {
                Some(v) => r matches Ok(x) && x == v && *final(rt) == *old(rt),
                None => r matches Err(e) && failed(*final(rt), *old(rt), e.id(), ExcKind::TypeError),
            },
    {
        let v = rt.raw_hash(self.id);
        result_from_int(rt, v)
    }

    /// Whether the object counts as true.
    pub fn is_true(&self, rt: &mut Runtime) -> (r: PyResult<bool>)
        requires
            old(rt).ready(),
            old(rt).valid(self.id),
        ensures
            kept(*final(rt), *old(rt)),
            r matches Ok(b) && b == truth_of(old(rt).obj(self.id)),
            *final(rt) == *old(rt),
    {
        let v = rt.raw_is_true(self.id);
        match result_from_int(rt, v as i64) {
            Ok(x) => Ok(x != 0),
            Err(e) => Err(e),
        }
    }

    /// The length of the object; a `TypeError` where it has none.
    pub fn len(&self, rt: &mut Runtime) -> (r: PyResult<isize>)
        requires
            old(rt).ready(),
            old(rt).valid(self.id),
        ensures
            kept(*final(rt), *old(rt)),
            match size_of(old(rt).obj(self.id)) {
                Some(n) => if n <= isize::MAX {
                    r matches Ok(x) && x == n && *final(rt) == *old(rt)
                } else {
                    r matches Err(e) && failed(*final(rt), *old(rt), e.id(), ExcKind::SystemError)
                },
                None => r matches Err(e) && failed(*final(rt), *old(rt), e.id(), ExcKind::TypeError),
            },
    {
        let v = rt.raw_size(self.id);
        match result_from_int(rt, v as i64) {
            Ok(x) => Ok(x as isize),
            Err(e) => Err(e),
        }
    }

    /// The item under `key`, as a new owned reference; a `KeyError` where it is
    /// absent, a `TypeError` where the object is no dictionary or `key` no key.
    pub fn get_item(&self, rt: &mut Runtime, key: PyObject) -> (r: PyResult<PyPtr>)
        requires
            old(rt).ready(),
            old(rt).valid(self.id),
            old(rt).valid(key.id),
        ensures
            kept(*final(rt), *old(rt)),
            match item_key(old(rt).heap(), self.id, key.id) {
                Some(k) => match slot_get(old(rt).obj(self.id).items, k) {
                    Some(v) => r matches Ok(p) && p.id() == v
                        && final(rt).became(*old(rt), increfed(old(rt).heap(), v)),
                    None => r matches Err(e) && failed(*final(rt), *old(rt), e.id(), ExcKind::KeyError),
                },
                None => r matches Err(e) && failed(*final(rt), *old(rt), e.id(), ExcKind::TypeError),
            },
    {
        proof {
            if let Some(k) = item_key(rt.heap(), self.id, key.id) {
                rt.lemma_attr_valid(self.id, k);
            }
        }
        let p = rt.raw_getitem(self.id, key.id);
        result_from_owned_ptr(rt, p)
    }

    /// Sets the item under `key` to `value`; a `TypeError` where the object is no
    /// dictionary or `key` no key.
    pub fn set_item(&self, rt: &mut Runtime, key: PyObject, value: PyObject) -> (r: PyResult<()>)
        requires
            old(rt).ready(),
            old(rt).valid(self.id),
            old(rt).valid(key.id),
            old(rt).valid(value.id),
        ensures
            kept(*final(rt), *old(rt)),
            match item_key(old(rt).heap(), self.id, key.id) {
                Some(k) => r is Ok && final(rt).became(*old(rt), set_heap(old(rt).heap(), self.id, k, value.id, true)),
                None => r matches Err(e) && failed(*final(rt), *old(rt), e.id(), ExcKind::TypeError),
            },
    {
        proof {
            assert(obj_in(rt.objs@[self.id as int]@, rt.objs@.len()));
            if let Some(k) = item_key(rt.heap(), self.id, key.id) {
                lemma_set_heap_shape(rt.heap(), self.id, k, value.id, true);
            }
        }
        let s = rt.raw_setitem(self.id, key.id, value.id);
        error_on_minusone(rt, s)
    }

    /// Deletes the item under `key`; a `KeyError` where it is absent, a `TypeError`
    /// where the object is no dictionary or `key` no key.
    pub fn del_item(&self, rt: &mut Runtime, key: PyObject) -> (r: PyResult<()>)
        requires
            old(rt).ready(),
            old(rt).valid(self.id),
            old(rt).valid(key.id),
        ensures
            kept(*final(rt), *old(rt)),
            match item_key(old(rt).heap(), self.id, key.id) {
                Some(k) => match slot_get(old(rt).obj(self.id).items, k) {
                    Some(w) => r is Ok && final(rt).became(*old(rt), del_heap(old(rt).heap(), self.id, k, w, true)),
                    None => r matches Err(e) && failed(*final(rt), *old(rt), e.id(), ExcKind::KeyError),
                },
                None => r matches Err(e) && failed(*final(rt), *old(rt), e.id(), ExcKind::TypeError),
            },
    {
        proof {
            if let Some(k) = item_key(rt.heap(), self.id, key.id) {
                rt.lemma_attr_valid(self.id, k);
                if let Some(w) = slot_get(rt.obj(self.id).items, k) {
                    lemma_del_heap_shape(rt.heap(), self.id, k, w, true);
                }
            }
        }
        let s = rt.raw_delitem(self.id, key.id);
        error_on_minusone(rt, s)
    }
}

/// Setting attribute `k` of `o` to `v` and then looking `k` up gives `v`, setting it
/// to `v` again changes nothing that a lookup sees, and every other attribute keeps
/// its value.
pub proof fn lemma_setattr_then_getattr(h: Seq<ObjView>, o: usize, k: KeyView, v: usize, k2: KeyView)
    requires
        o < h.len(),
        1 <= v < h.len(),
        slots_in(h[o as int].attrs, h.len()),
    ensures
        slot_get(set_heap(h, o, k, v, false)[o as int].attrs, k) == Some(v),
        slot_get(set_heap(set_heap(h, o, k, v, false), o, k, v, false)[o as int].attrs, k2)
            == slot_get(set_heap(h, o, k, v, false)[o as int].attrs, k2),
        k2 != k ==> slot_get(set_heap(h, o, k, v, false)[o as int].attrs, k2) == slot_get(h[o as int].attrs, k2),
{
    let h1 = set_heap(h, o, k, v, false);
    lemma_set_heap_attrs(h, o, k, v);
    lemma_without_in(h[o as int].attrs, k, h.len());
    assert(slots_in(h1[o as int].attrs, h.len())) by {
        let t = h1[o as int].attrs;
        assert forall|j: int| 0 <= j < t.len() implies 1 <= #[trigger] t[j].1 < h.len() by {
            if j < t.len() - 1 {
                assert(t[j] == without(h[o as int].attrs, k)[j]);
            }
        }
    }
    lemma_set_heap_attrs(h1, o, k, v);
    lemma_with_slot_get(h[o as int].attrs, k, v, k);
    lemma_with_slot_get(h[o as int].attrs, k, v, k2);
    lemma_with_slot_get(h1[o as int].attrs, k, v, k2);
}

/// After `o.k = v` the attribute table of `o` is the old one with `k` set to `v`.
proof fn lemma_set_heap_attrs(h: Seq<ObjView>, o: usize, k: KeyView, v: usize)
    requires
        o < h.len(),
        v < h.len(),
        slots_in(h[o as int].attrs, h.len()),
    ensures
        set_heap(h, o, k, v, false).len() == h.len(),
        set_heap(h, o, k, v, false)[o as int].attrs == with_slot(h[o as int].attrs, k, v),
{
    lemma_slot_get_in(h[o as int].attrs, k, h.len());
}

/// The raw handle for optional keyword arguments.
pub open spec fn kw_handle(kw: Option<PyObject>) -> usize {
    match kw {
        Some(k) => k.id,
        None => NULL,
    }
}

} // verus!
