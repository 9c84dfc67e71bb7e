//! The runtime's raw entry points. Each takes and returns plain handles and signals
//! failure out of band: a null handle, or `-1`, with an exception left pending.
use crate::runtime::{
    decrefed, decrefed_opt, fresh, find_slot, increfed, obj_in, slot_get, with_attrs, with_items, with_slot,
    without, has_dict, slots_in, table, Builtin, KeyView, lemma_slot_get_in, ExcKind, Key, ObjView, Payload, Runtime, NULL,
};
use vstd::prelude::*;
use vstd::string::{StrSliceExecFns, StringExecFns};

verus! {

pub open spec fn digit_char(d: nat) -> char {
    if d == 0 { '0' } else if d == 1 { '1' } else if d == 2 { '2' } else if d == 3 { '3' }
    else if d == 4 { '4' } else if d == 5 { '5' } else if d == 6 { '6' } else if d == 7 { '7' }
    else if d == 8 { '8' } else { '9' }
}

/// The decimal digits of `n`.
pub open spec fn digits(n: nat) -> Seq<char>
    decreases n,
{
    if n < 10 {
        seq![digit_char(n)]
    } else {
        digits(n / 10).push(digit_char(n % 10))
    }
}

/// The decimal text of `n`, with `-` before a negative number.
pub open spec fn decimal(n: int) -> Seq<char> {
    if n < 0 {
        seq!['-'] + digits((-n) as nat)
    } else {
        digits(n as nat)
    }
}

/// Relies on the standard `ToString` of `i64`: its decimal digits, with `-` before a
/// negative number.
#[verifier::external_body]
fn int_text(n: i64) -> (r: String)
    ensures
        r@ == decimal(n as int),
{
    n.to_string()
}

/// The text of an object: its `str` form, or with `quoted` its `repr` form. Integers,
/// strings and `None` have one; other objects have none in this runtime.
pub open spec fn text_of(p: Payload, quoted: bool) -> Option<Seq<char>> {
    match p {
        Payload::NoneVal => Some("None"@),
        Payload::Int(n) => Some(decimal(n as int)),
        Payload::Str(s) => Some(if quoted { "'"@ + s@ + "'"@ } else { s@ }),
        _ => None,
    }
}

/// The key that an object stands for in a dictionary: integers and strings only.
pub open spec fn key_of(p: Payload) -> Option<KeyView> {
    match p {
        Payload::Int(n) => Some(KeyView::Int(n)),
        Payload::Str(s) => Some(KeyView::Str(s@)),
        _ => None,
    }
}

/// The outcome of a three-way comparison: an object equals itself, integers compare
/// by value, other pairs cannot be compared.
pub open spec fn compare_of(h: Seq<ObjView>, a: usize, b: usize) -> Option<i32> {
    if a == b {
        Some(0i32)
    } else {
        match h[a as int].payload {
            Payload::Int(x) => match h[b as int].payload {
                Payload::Int(y) => Some(if x < y { -1i32 } else if x > y { 1i32 } else { 0i32 }),
                _ => None,
            },
            _ => None,
        }
    }
}

/// The hash of an object: an integer hashes to itself, a string to its length in
/// characters, an object without value semantics to its handle; containers have none.
pub open spec fn hash_of(h: Seq<ObjView>, o: usize) -> Option<i64> {
    match h[o as int].payload {
        Payload::Int(n) => Some(n),
        Payload::Str(s) => Some(s@.len() as i64),
        Payload::Tuple | Payload::List | Payload::Dict => None,
        _ => Some(o as i64),
    }
}

/// Whether an object counts as true.
pub open spec fn truth_of(o: ObjView) -> bool {
    match o.payload {
        Payload::NoneVal => false,
        Payload::Int(n) => n != 0,
        Payload::Str(s) => s@.len() > 0,
        Payload::Tuple | Payload::List => o.elems.len() > 0,
        Payload::Dict => o.items.len() > 0,
        _ => true,
    }
}

/// The length of an object, where it has one.
pub open spec fn size_of(o: ObjView) -> Option<nat> {
    match o.payload {
        Payload::Str(s) => Some(s@.len()),
        Payload::Tuple | Payload::List => Some(o.elems.len()),
        Payload::Dict => Some(o.items.len()),
        _ => None,
    }
}

/// The heap after `o.k = v` (or `o[k] = v` with `items`): `v` gains a reference and
/// the value it replaces loses one.
pub open spec fn set_heap(h: Seq<ObjView>, o: usize, k: KeyView, v: usize, items: bool) -> Seq<ObjView> {
    if items {
        decrefed_opt(with_items(increfed(h, v), o, with_slot(h[o as int].items, k, v)), slot_get(h[o as int].items, k))
    } else {
        decrefed_opt(with_attrs(increfed(h, v), o, with_slot(h[o as int].attrs, k, v)), slot_get(h[o as int].attrs, k))
    }
}

/// Setting an attribute or an item changes no object's kind and no heap length.
pub proof fn lemma_set_heap_shape(h: Seq<ObjView>, o: usize, k: KeyView, v: usize, items: bool)
    requires
        o < h.len(),
        v < h.len(),
        slots_in(h[o as int].attrs, h.len()),
        slots_in(h[o as int].items, h.len()),
    ensures
        set_heap(h, o, k, v, items).len() == h.len(),
        forall|i: int| 0 <= i < h.len() ==> #[trigger] set_heap(h, o, k, v, items)[i].payload == h[i].payload,
{
    lemma_slot_get_in(h[o as int].attrs, k, h.len());
    lemma_slot_get_in(h[o as int].items, k, h.len());
}

/// Deleting an attribute or an item changes no object's kind and no heap length.
pub proof fn lemma_del_heap_shape(h: Seq<ObjView>, o: usize, k: KeyView, w: usize, items: bool)
    requires
        o < h.len(),
        w < h.len(),
    ensures
        del_heap(h, o, k, w, items).len() == h.len(),
        forall|i: int| 0 <= i < h.len() ==> #[trigger] del_heap(h, o, k, w, items)[i].payload == h[i].payload,
{
}

/// The heap after `del o.k` (or `del o[k]` with `items`), where `k` held `w`.
pub open spec fn del_heap(h: Seq<ObjView>, o: usize, k: KeyView, w: usize, items: bool) -> Seq<ObjView> {
    if items {
        decrefed(with_items(h, o, without(h[o as int].items, k)), w)
    } else {
        decrefed(with_attrs(h, o, without(h[o as int].attrs, k)), w)
    }
}

/// A fresh string object with text `t`.
pub open spec fn is_fresh_text(o: ObjView, t: Seq<char>) -> bool {
    &&& o.refcnt == 1
    &&& o.attrs.len() == 0
    &&& o.items.len() == 0
    &&& o.elems.len() == 0
    &&& o.payload matches Payload::Str(s) && s@ == t
}

/// Copies the key that an object stands for.
fn key_from(p: &Payload) -> (r: Option<Key>)
    ensures
        r matches Some(k) ==> key_of(*p) == Some(k@),
        r is None ==> key_of(*p) is None,
{
    match p {
        Payload::Int(n) => Some(Key::Int(*n)),
        Payload::Str(s) => Some(Key::Str(s.clone())),
        _ => None,
    }
}

impl Runtime {
    /// `self` is `old` with one fresh string object of text `t` at its end.
    pub open spec fn grew_text(&self, old: Runtime, t: Seq<char>) -> bool {
        &&& self.wf()
        &&& self.heap().len() == old.heap().len() + 1
        &&& self.heap().subrange(0, old.heap().len() as int) == old.heap()
        &&& is_fresh_text(self.heap()[old.heap().len() as int], t)
        &&& self.pending is None
        &&& self.gil_depth == old.gil_depth
        &&& self.modules == old.modules
    }

    /// Values found in the tables of an object name objects of the heap.
    pub proof fn lemma_attr_valid(&self, o: usize, k: KeyView)
        requires
            self.wf(),
            self.valid(o),
        ensures
            slot_get(self.obj(o).attrs, k) matches Some(v) ==> self.valid(v),
            slot_get(self.obj(o).items, k) matches Some(v) ==> self.valid(v),
            forall|j: int| 0 <= j < self.obj(o).elems.len() ==> self.valid(#[trigger] self.obj(o).elems[j]),
    {
        assert(obj_in(self.objs@[o as int]@, self.objs@.len()));
        lemma_slot_get_in(self.obj(o).attrs, k, self.objs@.len());
        lemma_slot_get_in(self.obj(o).items, k, self.objs@.len());
    }

    /// `PyObject_GetAttr`: a new reference to the value of attribute `name` of `o`.
    pub fn raw_getattr(&mut self, o: usize, name: &Key) -> (r: usize)
        requires
            old(self).ready(),
            old(self).valid(o),
        ensures
            match slot_get(old(self).obj(o).attrs, name@) {
                Some(v) => r == v && final(self).became(*old(self), increfed(old(self).heap(), v)),
                None => r == NULL && final(self).raised(*old(self), ExcKind::AttributeError),
            },
    {
        proof {
            self.lemma_attr_valid(o, name@);
        }
        match find_slot(&self.objs[o].attrs, name) {
            Some(v) => {
                self.incref(v);
                v
            },
            None => {
                self.raise(ExcKind::AttributeError);
                NULL
            },
        }
    }

    /// `PyObject_HasAttr`: `1` where `o` has attribute `name`, else `0`.
    pub fn raw_hasattr(&self, o: usize, name: &Key) -> (r: i32)
        requires
            self.wf(),
            self.valid(o),
        ensures
            r == (if slot_get(self.obj(o).attrs, name@) is Some { 1i32 } else { 0i32 }),
    {
        match find_slot(&self.objs[o].attrs, name) {
            Some(_) => 1,
            None => 0,
        }
    }

    /// `PyObject_SetAttr`: `0` once attribute `name` of `o` holds `v`; `-1` with an
    /// `AttributeError` pending where `o` has no attribute table of its own.
    pub fn raw_setattr(&mut self, o: usize, name: Key, v: usize) -> (r: i32)
        requires
            old(self).ready(),
            old(self).valid(o),
            old(self).valid(v),
        ensures
            if has_dict(old(self).obj(o).payload) {
                r == 0 && final(self).became(*old(self), set_heap(old(self).heap(), o, name@, v, false))
            } else {
                r == -1 && final(self).raised(*old(self), ExcKind::AttributeError)
            },
    {
        let own_table = match self.objs[o].payload {
            Payload::Module | Payload::Class | Payload::Function(_) | Payload::Exception(_) => true,
            _ => false,
        };
        if !own_table {
            self.raise(ExcKind::AttributeError);
            return -1;
        }
        proof {
            self.lemma_attr_valid(o, name@);
        }
        let prev = find_slot(&self.objs[o].attrs, &name);
        self.incref(v);
        self.put_attr(o, name, v);
        match prev {
            Some(w) => self.decref(w),
            None => {},
        }
        0
    }

    /// `PyObject_DelAttr`: `0` once attribute `name` of `o` is gone; `-1` with an
    /// `AttributeError` pending where there was none to delete.
    pub fn raw_delattr(&mut self, o: usize, name: &Key) -> (r: i32)
        requires
            old(self).ready(),
            old(self).valid(o),
        ensures
            match slot_get(old(self).obj(o).attrs, name@) {
                Some(w) => r == 0 && final(self).became(*old(self), del_heap(old(self).heap(), o, name@, w, false)),
                None => r == -1 && final(self).raised(*old(self), ExcKind::AttributeError),
            },
    {
        proof {
            self.lemma_attr_valid(o, name@);
        }
        match find_slot(&self.objs[o].attrs, name) {
            Some(w) => {
                self.drop_attr(o, name);
                self.decref(w);
                0
            },
            None => {
                self.raise(ExcKind::AttributeError);
                -1
            },
        }
    }

    /// `PyObject_Compare`: `0` with the three-way order of `a` and `b` in `result`;
    /// `-1` with a `TypeError` pending where they cannot be compared.
    pub fn raw_compare(&mut self, a: usize, b: usize, result: &mut i32) -> (r: i32)
        requires
            old(self).ready(),
            old(self).valid(a),
            old(self).valid(b),
        ensures
            match compare_of(old(self).heap(), a, b) {
                Some(c) => r == 0 && *final(result) == c && *final(self) == *old(self),
                None => r == -1 && final(self).raised(*old(self), ExcKind::TypeError),
            },
    {
        if a == b {
            *result = 0;
            return 0;
        }
        let x = match self.objs[a].payload {
            Payload::Int(x) => Some(x),
            _ => None,
        };
        let y = match self.objs[b].payload {
            Payload::Int(y) => Some(y),
            _ => None,
        };
        match (x, y) {
            (Some(x), Some(y)) => {
                *result = if x < y { -1 } else if x > y { 1 } else { 0 };
                0
            },
            _ => {
                self.raise(ExcKind::TypeError);
                -1
            },
        }
    }

    fn raw_text(&mut self, o: usize, quoted: bool) -> (r: usize)
        requires
            old(self).ready(),
            old(self).valid(o),
        ensures
            match text_of(old(self).obj(o).payload, quoted) {
                Some(t) => r == old(self).objs@.len() && final(self).grew_text(*old(self), t),
                None => r == NULL && final(self).raised(*old(self), ExcKind::TypeError),
            },
    {
        let t = match &self.objs[o].payload {
            Payload::NoneVal => Some(String::from_str("None")),
            Payload::Int(n) => Some(int_text(*n)),
            Payload::Str(s) => {
                if quoted {
                    let mut q = String::from_str("'");
                    q.append(s.as_str());
                    q.append("'");
                    Some(q)
                } else {
                    Some(s.clone())
                }
            },
            _ => None,
        };
        match t {
            Some(t) => self.new_object(Payload::Str(t), Vec::new()),
            None => {
                self.raise(ExcKind::TypeError);
                NULL
            },
        }
    }

    /// `PyObject_Str`: a new string object with the text of `o`.
    pub fn raw_str(&mut self, o: usize) -> (r: usize)
        requires
            old(self).ready(),
            old(self).valid(o),
        ensures
            match text_of(old(self).obj(o).payload, false) {
                Some(t) => r == old(self).objs@.len() && final(self).grew_text(*old(self), t),
                None => r == NULL && final(self).raised(*old(self), ExcKind::TypeError),
            },
    {
        self.raw_text(o, false)
    }

    /// `PyObject_Repr`: a new string object with the quoted text of `o`.
    pub fn raw_repr(&mut self, o: usize) -> (r: usize)
        requires
            old(self).ready(),
            old(self).valid(o),
        ensures
            match text_of(old(self).obj(o).payload, true) {
                Some(t) => r == old(self).objs@.len() && final(self).grew_text(*old(self), t),
                None => r == NULL && final(self).raised(*old(self), ExcKind::TypeError),
            },
    {
        self.raw_text(o, true)
    }

    /// `PyCallable_Check`: `1` where `o` is a function, else `0`.
    pub fn raw_callable(&self, o: usize) -> (r: i32)
        requires
            self.valid(o),
        ensures
            r == (if self.obj(o).payload is Function { 1i32 } else { 0i32 }),
    {
        match self.objs[o].payload {
            Payload::Function(_) => 1,
            _ => 0,
        }
    }

    /// `PyObject_Call`: calls function `f` with the positional arguments of tuple
    /// `args` and the keyword arguments of dictionary `kw` (none where `kw` is null).
    pub fn raw_call(&mut self, f: usize, args: usize, kw: usize) -> (r: usize)
        requires
            old(self).ready(),
            old(self).valid(f),
            old(self).valid(args),
            kw == NULL || old(self).valid(kw),
        ensures
            match call_effect(old(self).heap(), f, args, kw) {
                CallEffect::Returns(v) => r == v && final(self).became(*old(self), increfed(old(self).heap(), v)),
                CallEffect::Makes(p) => r == old(self).objs@.len() && final(self).wf()
                    && final(self).pending is None && final(self).gil_depth == old(self).gil_depth
                    && final(self).grew(old(self).heap(), p, Seq::empty()),
                CallEffect::Raises(k) => r == NULL && final(self).raised(*old(self), k),
            },
    {
        let fun = match self.objs[f].payload {
            Payload::Function(b) => Some(b),
            _ => None,
        };
        let tuple = match self.objs[args].payload {
            Payload::Tuple => true,
            _ => false,
        };
        let kw_ok = kw == NULL || match self.objs[kw].payload {
            Payload::Dict => true,
            _ => false,
        };
        match fun {
            Some(b) if tuple && kw_ok => match b {
                Builtin::FirstArg => {
                    if self.objs[args].elems.len() > 0 {
                        let v = self.objs[args].elems[0];
                        proof {
                            assert(obj_in(self.objs@[args as int]@, self.objs@.len()));
                            assert(self.obj(args).elems[0] == v);
                        }
                        self.incref(v);
                        v
                    } else {
                        self.raise(ExcKind::TypeError);
                        NULL
                    }
                },
                Builtin::CountArgs => {
                    let n = self.objs[args].elems.len() as i64;
                    self.new_object(Payload::Int(n), Vec::new())
                },
                Builtin::Raise(k) => {
                    self.raise(k);
                    NULL
                },
            },
            _ => {
                self.raise(ExcKind::TypeError);
                NULL
            },
        }
    }

    /// `PyObject_Hash`: the hash of `o`; `-1` with a `TypeError` pending where it has
    /// none. A hash of `-1` is also an ordinary result.
    pub fn raw_hash(&mut self, o: usize) -> (r: i64)
        requires
            old(self).ready(),
            old(self).valid(o),
        ensures
            match hash_of(old(self).heap(), o) {
                Some(v) => r == v && *final(self) == *old(self),
                None => r == -1 && final(self).raised(*old(self), ExcKind::TypeError),
            },
    {
        let v = match &self.objs[o].payload {
            Payload::Int(n) => Some(*n),
            Payload::Str(s) => Some(s.as_str().unicode_len() as i64),
            Payload::Tuple | Payload::List | Payload::Dict => None,
            _ => Some(o as i64),
        };
        match v {
            Some(v) => v,
            None => {
                self.raise(ExcKind::TypeError);
                -1
            },
        }
    }

    /// `PyObject_IsTrue`: `1` where `o` counts as true, else `0`.
    pub fn raw_is_true(&self, o: usize) -> (r: i32)
        requires
            self.valid(o),
        ensures
            r == (if truth_of(self.obj(o)) { 1i32 } else { 0i32 }),
    {
        let t = match &self.objs[o].payload {
            Payload::NoneVal => false,
            Payload::Int(n) => *n != 0,
            Payload::Str(s) => s.as_str().unicode_len() > 0,
            Payload::Tuple | Payload::List => self.objs[o].elems.len() > 0,
            Payload::Dict => self.objs[o].items.len() > 0,
            _ => true,
        };
        if t { 1 } else { 0 }
    }

    /// `PyObject_Size`: the length of `o`; `-1` with a `TypeError` pending where it
    /// has none, or a `SystemError` where it does not fit.
    pub fn raw_size(&mut self, o: usize) -> (r: isize)
        requires
            old(self).ready(),
            old(self).valid(o),
        ensures
            match size_of(old(self).obj(o)) {
                Some(n) => if n <= isize::MAX {
                    r == n && *final(self) == *old(self)
                } else {
                    r == -1 && final(self).raised(*old(self), ExcKind::SystemError)
                },
                None => r == -1 && final(self).raised(*old(self), ExcKind::TypeError),
            },
    {
        let n = match &self.objs[o].payload {
            Payload::Str(s) => Some(s.as_str().unicode_len()),
            Payload::Tuple | Payload::List => Some(self.objs[o].elems.len()),
            Payload::Dict => Some(self.objs[o].items.len()),
            _ => None,
        };
        match n {
            Some(n) => {
                if n <= isize::MAX as usize {
                    n as isize
                } else {
                    self.raise(ExcKind::SystemError);
                    -1
                }
            },
            None => {
                self.raise(ExcKind::TypeError);
                -1
            },
        }
    }

    /// The key that `key` stands for, where `o` is a dictionary and `key` can be a key.
    fn dict_key(&self, o: usize, key: usize) -> (r: Option<Key>)
        requires
            self.valid(o),
            self.valid(key),
        ensures
            r matches Some(k) ==> item_key(self.heap(), o, key) == Some(k@),
            r is None ==> item_key(self.heap(), o, key) is None,
    {
        match self.objs[o].payload {
            Payload::Dict => key_from(&self.objs[key].payload),
            _ => None,
        }
    }

    /// `PyObject_GetItem`: a new reference to `o[key]`; null with a `TypeError`
    /// pending where `o` is no dictionary or `key` no key, a `KeyError` where it is
    /// absent.
    pub fn raw_getitem(&mut self, o: usize, key: usize) -> (r: usize)
        requires
            old(self).ready(),
            old(self).valid(o),
            old(self).valid(key),
        ensures
            match item_key(old(self).heap(), o, key) {
                Some(k) => match slot_get(old(self).obj(o).items, k) {
                    Some(v) => r == v && final(self).became(*old(self), increfed(old(self).heap(), v)),
                    None => r == NULL && final(self).raised(*old(self), ExcKind::KeyError),
                },
                None => r == NULL && final(self).raised(*old(self), ExcKind::TypeError),
            },
    {
        match self.dict_key(o, key) {
            Some(k) => {
                proof {
                    self.lemma_attr_valid(o, k@);
                }
                match find_slot(&self.objs[o].items, &k) {
                    Some(v) => {
                        self.incref(v);
                        v
                    },
                    None => {
                        self.raise(ExcKind::KeyError);
                        NULL
                    },
                }
            },
            None => {
                self.raise(ExcKind::TypeError);
                NULL
            },
        }
    }

    /// `PyObject_SetItem`: `0` once `o[key]` holds `v`; `-1` with a `TypeError`
    /// pending where `o` is no dictionary or `key` no key.
    pub fn raw_setitem(&mut self, o: usize, key: usize, v: usize) -> (r: i32)
        requires
            old(self).ready(),
            old(self).valid(o),
            old(self).valid(key),
            old(self).valid(v),
        ensures
            match item_key(old(self).heap(), o, key) {
                Some(k) => r == 0 && final(self).became(*old(self), set_heap(old(self).heap(), o, k, v, true)),
                None => r == -1 && final(self).raised(*old(self), ExcKind::TypeError),
            },
    {
        match self.dict_key(o, key) {
            Some(k) => {
                proof {
                    self.lemma_attr_valid(o, k@);
                }
                let prev = find_slot(&self.objs[o].items, &k);
                self.incref(v);
                self.put_item(o, k, v);
                match prev {
                    Some(w) => self.decref(w),
                    None => {},
                }
                0
            },
            None => {
                self.raise(ExcKind::TypeError);
                -1
            },
        }
    }

    /// `PyObject_DelItem`: `0` once `o[key]` is gone; `-1` with a `TypeError` pending
    /// where `o` is no dictionary or `key` no key, a `KeyError` where it is absent.
    pub fn raw_delitem(&mut self, o: usize, key: usize) -> (r: i32)
        requires
            old(self).ready(),
            old(self).valid(o),
            old(self).valid(key),
        ensures
            match item_key(old(self).heap(), o, key) {
                Some(k) => match slot_get(old(self).obj(o).items, k) {
                    Some(w) => r == 0 && final(self).became(*old(self), del_heap(old(self).heap(), o, k, w, true)),
                    None => r == -1 && final(self).raised(*old(self), ExcKind::KeyError),
                },
                None => r == -1 && final(self).raised(*old(self), ExcKind::TypeError),
            },
    {
        match self.dict_key(o, key) {
            Some(k) => {
                proof {
                    self.lemma_attr_valid(o, k@);
                }
                match find_slot(&self.objs[o].items, &k) {
                    Some(w) => {
                        self.drop_item(o, &k);
                        self.decref(w);
                        0
                    },
                    None => {
                        self.raise(ExcKind::KeyError);
                        -1
                    },
                }
            },
            None => {
                self.raise(ExcKind::TypeError);
                -1
            },
        }
    }

    /// `PyImport_Import`: a new reference to the module registered under `name`;
    /// null with an `ImportError` pending where none is.
    pub fn raw_import(&mut self, name: &Key) -> (r: usize)
        requires
            old(self).ready(),
        ensures
            match slot_get(table(old(self).modules@), name@) {
                Some(m) => r == m && final(self).became(*old(self), increfed(old(self).heap(), m)),
                None => r == NULL && final(self).raised(*old(self), ExcKind::ImportError),
            },
            final(self).modules == old(self).modules,
    {
        proof {
            lemma_slot_get_in(table(self.modules@), name@, self.objs@.len());
        }
        match find_slot(&self.modules, name) {
            Some(m) => {
                self.incref(m);
                m
            },
            None => {
                self.raise(ExcKind::ImportError);
                NULL
            },
        }
    }

    /// `PyList_Append`: `0` once `v` ends list `l`, holding a new reference;
    /// `-1` with a `SystemError` pending where `l` is no list.
    pub fn raw_list_append(&mut self, l: usize, v: usize) -> (r: i32)
        requires
            old(self).ready(),
            old(self).valid(l),
            old(self).valid(v),
        ensures
            if old(self).obj(l).payload is List {
                r == 0 && final(self).became(*old(self), appended(increfed(old(self).heap(), v), l, v))
            } else {
                r == -1 && final(self).raised(*old(self), ExcKind::SystemError)
            },
    {
        let is_list = match self.objs[l].payload {
            Payload::List => true,
            _ => false,
        };
        if !is_list {
            self.raise(ExcKind::SystemError);
            return -1;
        }
        self.incref(v);
        let ghost n = self.objs@.len();
        let ghost h1 = self.heap();
        let ghost before = *self;
        self.objs[l].elems.push(v);
        assert(self.heap() =~= appended(h1, l, v));
        assert forall|i: int| 0 <= i < self.objs@.len() implies obj_in(#[trigger] self.objs@[i]@, self.objs@.len()) by {
            assert(obj_in(before.objs@[i]@, n));
        }
        0
    }
}

/// The dictionary key that object `key` stands for in `o`, where `o` is a dictionary.
pub open spec fn item_key(h: Seq<ObjView>, o: usize, key: usize) -> Option<KeyView> {
    if h[o as int].payload is Dict {
        key_of(h[key as int].payload)
    } else {
        None
    }
}

/// The heap with `v` added at the end of the elements of `l`.
pub open spec fn appended(h: Seq<ObjView>, l: usize, v: usize) -> Seq<ObjView> {
    h.update(l as int, ObjView { elems: h[l as int].elems.push(v), ..h[l as int] })
}


/// What a call does: hand back a new reference to an existing object, make a fresh
/// object, or raise.
pub enum CallEffect {
    Returns(usize),
    Makes(Payload),
    Raises(ExcKind),
}

/// What calling `f` with `args` and `kw` does.
pub open spec fn call_effect(h: Seq<ObjView>, f: usize, args: usize, kw: usize) -> CallEffect {
    if !call_ok(h, f, args, kw) {
        CallEffect::Raises(ExcKind::TypeError)
    } else {
        match h[f as int].payload {
            Payload::Function(Builtin::FirstArg) => if h[args as int].elems.len() > 0 {
                CallEffect::Returns(h[args as int].elems[0])
            } else {
                CallEffect::Raises(ExcKind::TypeError)
            },
            Payload::Function(Builtin::CountArgs) => CallEffect::Makes(Payload::Int(h[args as int].elems.len() as i64)),
            Payload::Function(Builtin::Raise(k)) => CallEffect::Raises(k),
            _ => CallEffect::Raises(ExcKind::TypeError),
        }
    }
}

/// The heap after a call with effect `eff` from heap `h`: a new reference to an
/// existing object, or a fresh object or exception at the end.
pub open spec fn after_call(h: Seq<ObjView>, eff: CallEffect) -> Seq<ObjView> {
    match eff {
        CallEffect::Returns(x) => increfed(h, x),
        CallEffect::Makes(q) => h.push(fresh(q)),
        CallEffect::Raises(k) => h.push(fresh(Payload::Exception(k))),
    }
}

/// A call is well formed: a function, a tuple of arguments, and no keywords or a
/// dictionary of them.
pub open spec fn call_ok(h: Seq<ObjView>, f: usize, args: usize, kw: usize) -> bool {
    &&& h[f as int].payload is Function
    &&& h[args as int].payload is Tuple
    &&& (kw == NULL || h[kw as int].payload is Dict)
}

} // verus!
