use pyo3::err::{result_from_int, PyErr, PyObject, PyPtr};
use pyo3::module::PyModule;
use pyo3::pystate::{PyGILState_STATE, PyThreadState_GET, ThreadStates};
use pyo3::runtime::{Builtin, ExcKind, Payload, Runtime};
use std::cmp::Ordering;

fn held() -> Runtime {
    let mut rt = Runtime::new();
    let mut ts = ThreadStates::new();
    let i = ts.new_interpreter();
    let _ = rt.gil_ensure(&mut ts, i);
    rt
}

fn int_obj(rt: &mut Runtime, n: i64) -> PyObject {
    PyObject { id: rt.new_object(Payload::Int(n), Vec::new()) }
}

fn text_obj(rt: &mut Runtime, s: &str) -> PyObject {
    PyObject { id: rt.new_object(Payload::Str(s.to_string()), Vec::new()) }
}

fn text_of(rt: &Runtime, id: usize) -> String {
    match &rt.objs[id].payload {
        Payload::Str(s) => s.clone(),
        other => panic!("not a string: {:?}", other),
    }
}

fn kind_of(rt: &Runtime, e: &PyErr) -> ExcKind {
    e.kind(rt).unwrap()
}

fn id_of(p: &PyPtr) -> usize {
    p.as_object().id
}

#[test]
fn module_import_and_name() {
    let mut rt = held();
    let builtins = PyModule::import(&mut rt, "builtins").unwrap();
    assert_eq!(builtins.name(&mut rt).unwrap(), "builtins");
}

#[test]
fn import_of_unknown_module_is_import_error() {
    let mut rt = held();
    let e = PyModule::import(&mut rt, "nowhere").unwrap_err();
    assert_eq!(kind_of(&rt, &e), ExcKind::ImportError);
    assert!(rt.pending.is_none());
}

#[test]
fn scenario_module_setattr_getattr() {
    let mut rt = Runtime::new();
    let mut ts = ThreadStates::new();
    let i = ts.new_interpreter();
    let g = rt.acquire_gil(&mut ts, i);
    assert_eq!(g.state, PyGILState_STATE::PyGILState_UNLOCKED);
    let m = PyModule::new(&mut rt, "scenario").unwrap();
    let five = int_obj(&mut rt, 5);
    m.as_object().setattr(&mut rt, "x", five).unwrap();
    let x = m.as_object().getattr(&mut rt, "x").unwrap();
    match rt.objs[id_of(&x)].payload {
        Payload::Int(n) => assert_eq!(n, 5),
        _ => panic!("x is not an integer"),
    }
    x.release(&mut rt);
    rt.release_gil(&mut ts, g);
    assert!(!rt.gil_check());
    assert!(rt.pending.is_none());
}

#[test]
fn scenario_get_item_absent_key_is_key_error() {
    let mut rt = held();
    let d = PyObject { id: rt.new_object(Payload::Dict, Vec::new()) };
    let key = text_obj(&mut rt, "absent");
    let e = d.get_item(&mut rt, key).unwrap_err();
    assert_eq!(kind_of(&rt, &e), ExcKind::KeyError);
    assert!(rt.pending.is_none());
}

#[test]
fn items_set_get_delete() {
    let mut rt = held();
    let d = PyObject { id: rt.new_object(Payload::Dict, Vec::new()) };
    let k1 = int_obj(&mut rt, 1);
    let k1_again = int_obj(&mut rt, 1);
    let v = text_obj(&mut rt, "one");
    d.set_item(&mut rt, k1, v).unwrap();
    assert_eq!(d.len(&mut rt).unwrap(), 1);
    let got = d.get_item(&mut rt, k1_again).unwrap();
    assert_eq!(id_of(&got), v.id);
    d.del_item(&mut rt, k1_again).unwrap();
    assert_eq!(d.len(&mut rt).unwrap(), 0);
    let e = d.del_item(&mut rt, k1).unwrap_err();
    assert_eq!(kind_of(&rt, &e), ExcKind::KeyError);
    let not_dict = int_obj(&mut rt, 3);
    let e = not_dict.get_item(&mut rt, k1).unwrap_err();
    assert_eq!(kind_of(&rt, &e), ExcKind::TypeError);
    let e = not_dict.set_item(&mut rt, k1, v).unwrap_err();
    assert_eq!(kind_of(&rt, &e), ExcKind::TypeError);
}

#[test]
fn hash_minus_one_without_error_is_a_value() {
    let mut rt = held();
    let n = int_obj(&mut rt, -1);
    assert_eq!(n.hash(&mut rt).unwrap(), -1);
    assert!(rt.pending.is_none());
}

#[test]
fn hash_minus_one_with_error_is_the_error() {
    let mut rt = held();
    let l = PyObject { id: rt.new_object(Payload::List, Vec::new()) };
    let e = l.hash(&mut rt).unwrap_err();
    assert_eq!(kind_of(&rt, &e), ExcKind::TypeError);
    assert!(rt.pending.is_none());
    let s = text_obj(&mut rt, "four");
    assert_eq!(s.hash(&mut rt).unwrap(), 4);
}

#[test]
fn result_from_int_consults_the_pending_flag() {
    let mut rt = held();
    assert_eq!(result_from_int(&mut rt, -1).unwrap(), -1);
    assert_eq!(result_from_int(&mut rt, 7).unwrap(), 7);
    let o = int_obj(&mut rt, 1);
    let _ = rt.raw_getattr(o.id, &pyo3::object::name_key("missing"));
    let raised = rt.pending.unwrap();
    let e = result_from_int(&mut rt, -1).unwrap_err();
    assert_eq!(e.value.as_object().id, raised);
    assert!(rt.pending.is_none());
}

#[test]
fn fetch_is_destructive() {
    let mut rt = held();
    let o = int_obj(&mut rt, 1);
    let _ = rt.raw_getattr(o.id, &pyo3::object::name_key("missing"));
    let first = PyErr::fetch(&mut rt);
    assert!(first.is_some());
    assert_eq!(kind_of(&rt, first.as_ref().unwrap()), ExcKind::AttributeError);
    let second = PyErr::fetch(&mut rt);
    assert!(second.is_none());
}

#[test]
fn call_method_on_missing_attribute_short_circuits() {
    let mut rt = held();
    let m = PyModule::new(&mut rt, "receiver").unwrap();
    let args = PyObject { id: rt.new_object(Payload::Tuple, Vec::new()) };
    let via_get = m.as_object().getattr(&mut rt, "missing").unwrap_err();
    let before = rt.objs.len();
    let via_call = m.as_object().call_method(&mut rt, "missing", args, None).unwrap_err();
    assert_eq!(kind_of(&rt, &via_get), ExcKind::AttributeError);
    assert_eq!(kind_of(&rt, &via_call), ExcKind::AttributeError);
    assert_eq!(rt.objs.len(), before + 1);
}

#[test]
fn owned_reference_release_drops_count_by_one() {
    let mut rt = held();
    let m = PyModule::new(&mut rt, "counts").unwrap();
    let v = int_obj(&mut rt, 9);
    m.as_object().setattr(&mut rt, "v", v).unwrap();
    let before = rt.objs[v.id].refcnt;
    let p = m.as_object().getattr(&mut rt, "v").unwrap();
    assert_eq!(rt.objs[v.id].refcnt, before + 1);
    let q = v.clone_ref(&mut rt);
    assert_eq!(rt.objs[v.id].refcnt, before + 2);
    q.release(&mut rt);
    p.release(&mut rt);
    assert_eq!(rt.objs[v.id].refcnt, before);
}

#[test]
fn setattr_replaces_and_releases_old_value() {
    let mut rt = held();
    let m = PyModule::new(&mut rt, "replace").unwrap();
    let a = int_obj(&mut rt, 1);
    let b = int_obj(&mut rt, 2);
    m.as_object().setattr(&mut rt, "x", a).unwrap();
    assert_eq!(rt.objs[a.id].refcnt, 2);
    m.as_object().setattr(&mut rt, "x", b).unwrap();
    m.as_object().setattr(&mut rt, "x", b).unwrap();
    assert_eq!(rt.objs[a.id].refcnt, 1);
    assert_eq!(rt.objs[b.id].refcnt, 2);
    let got = m.as_object().getattr(&mut rt, "x").unwrap();
    assert_eq!(id_of(&got), b.id);
    assert!(m.as_object().hasattr(&rt, "x").unwrap());
    m.as_object().delattr(&mut rt, "x").unwrap();
    assert!(!m.as_object().hasattr(&rt, "x").unwrap());
    let e = m.as_object().delattr(&mut rt, "x").unwrap_err();
    assert_eq!(kind_of(&rt, &e), ExcKind::AttributeError);
}

#[test]
fn setattr_on_integer_is_attribute_error() {
    let mut rt = held();
    let n = int_obj(&mut rt, 3);
    let e = n.setattr(&mut rt, "x", n).unwrap_err();
    assert_eq!(kind_of(&rt, &e), ExcKind::AttributeError);
}

#[test]
fn nested_lock_balances() {
    let mut rt = Runtime::new();
    let mut ts = ThreadStates::new();
    let i = ts.new_interpreter();
    assert_eq!(PyThreadState_GET(&rt, &ts), None);
    let outer = rt.acquire_gil(&mut ts, i);
    let t = PyThreadState_GET(&rt, &ts).unwrap();
    let inner = rt.acquire_gil(&mut ts, i);
    assert_eq!(outer.state, PyGILState_STATE::PyGILState_UNLOCKED);
    assert_eq!(inner.state, PyGILState_STATE::PyGILState_LOCKED);
    assert_eq!(PyThreadState_GET(&rt, &ts), Some(t));
    rt.release_gil(&mut ts, inner);
    assert!(rt.gil_check());
    assert_eq!(PyThreadState_GET(&rt, &ts), Some(t));
    rt.release_gil(&mut ts, outer);
    assert!(!rt.gil_check());
    assert_eq!(PyThreadState_GET(&rt, &ts), None);
    assert!(!ts.threads[t].alive);
    for _ in 0..3 {
        let _ = rt.gil_ensure(&mut ts, i);
    }
    let t2 = PyThreadState_GET(&rt, &ts).unwrap();
    rt.gil_release(&mut ts, PyGILState_STATE::PyGILState_LOCKED);
    rt.gil_release(&mut ts, PyGILState_STATE::PyGILState_LOCKED);
    assert!(rt.gil_check());
    assert_eq!(PyThreadState_GET(&rt, &ts), Some(t2));
    rt.gil_release(&mut ts, PyGILState_STATE::PyGILState_UNLOCKED);
    assert!(!rt.gil_check());
    assert_eq!(PyThreadState_GET(&rt, &ts), None);
}

#[test]
fn lock_keeps_a_thread_state_that_was_already_current() {
    let mut rt = Runtime::new();
    let mut ts = ThreadStates::new();
    let i = ts.new_interpreter();
    let a = ts.new_thread_state(i);
    ts.swap(Some(a));
    let g = rt.acquire_gil(&mut ts, i);
    assert_eq!(PyThreadState_GET(&rt, &ts), Some(a));
    rt.release_gil(&mut ts, g);
    assert_eq!(PyThreadState_GET(&rt, &ts), None);
    assert!(ts.threads[a].alive);
}

#[test]
fn compare_orders_integers() {
    let mut rt = held();
    let a = int_obj(&mut rt, 1);
    let b = int_obj(&mut rt, 2);
    assert_eq!(a.compare(&mut rt, b).unwrap(), Ordering::Less);
    assert_eq!(b.compare(&mut rt, a).unwrap(), Ordering::Greater);
    let c = int_obj(&mut rt, 2);
    assert_eq!(b.compare(&mut rt, c).unwrap(), Ordering::Equal);
    let s = text_obj(&mut rt, "a");
    assert_eq!(s.compare(&mut rt, s).unwrap(), Ordering::Equal);
    let e = s.compare(&mut rt, a).unwrap_err();
    assert_eq!(kind_of(&rt, &e), ExcKind::TypeError);
}

#[test]
fn text_forms() {
    let mut rt = held();
    let n = int_obj(&mut rt, -42);
    let r = n.str(&mut rt).unwrap();
    assert_eq!(text_of(&rt, id_of(&r)), "-42");
    let s = text_obj(&mut rt, "hi");
    let r = s.repr(&mut rt).unwrap();
    assert_eq!(text_of(&rt, id_of(&r)), "'hi'");
    let r = s.unistr(&mut rt).unwrap();
    assert_eq!(text_of(&rt, id_of(&r)), "hi");
    let none = PyObject { id: rt.new_object(Payload::NoneVal, Vec::new()) };
    let r = none.repr(&mut rt).unwrap();
    assert_eq!(text_of(&rt, id_of(&r)), "None");
    let d = PyObject { id: rt.new_object(Payload::Dict, Vec::new()) };
    let e = d.str(&mut rt).unwrap_err();
    assert_eq!(kind_of(&rt, &e), ExcKind::TypeError);
}

#[test]
fn truth_and_length() {
    let mut rt = held();
    let zero = int_obj(&mut rt, 0);
    let one = int_obj(&mut rt, 1);
    let empty = text_obj(&mut rt, "");
    let word = text_obj(&mut rt, "word");
    assert!(!zero.is_true(&mut rt).unwrap());
    assert!(one.is_true(&mut rt).unwrap());
    assert!(!empty.is_true(&mut rt).unwrap());
    assert_eq!(word.len(&mut rt).unwrap(), 4);
    let t = PyObject { id: rt.new_object(Payload::Tuple, vec![one.id, zero.id]) };
    assert_eq!(t.len(&mut rt).unwrap(), 2);
    assert!(t.is_true(&mut rt).unwrap());
    let e = one.len(&mut rt).unwrap_err();
    assert_eq!(kind_of(&rt, &e), ExcKind::TypeError);
}

#[test]
fn calls() {
    let mut rt = held();
    let first = PyObject { id: rt.new_object(Payload::Function(Builtin::FirstArg), Vec::new()) };
    let count = PyObject { id: rt.new_object(Payload::Function(Builtin::CountArgs), Vec::new()) };
    let raise = PyObject { id: rt.new_object(Payload::Function(Builtin::Raise(ExcKind::KeyError)), Vec::new()) };
    let seven = int_obj(&mut rt, 7);
    let args = PyObject { id: rt.new_object(Payload::Tuple, vec![seven.id, seven.id]) };
    assert!(first.is_callable(&rt));
    assert!(!seven.is_callable(&rt));
    let r = first.call(&mut rt, args, None).unwrap();
    assert_eq!(id_of(&r), seven.id);
    let r = count.call(&mut rt, args, None).unwrap();
    match rt.objs[id_of(&r)].payload {
        Payload::Int(n) => assert_eq!(n, 2),
        _ => panic!("count is not an integer"),
    }
    let e = raise.call(&mut rt, args, None).unwrap_err();
    assert_eq!(kind_of(&rt, &e), ExcKind::KeyError);
    let e = seven.call(&mut rt, args, None).unwrap_err();
    assert_eq!(kind_of(&rt, &e), ExcKind::TypeError);
    let e = first.call(&mut rt, seven, None).unwrap_err();
    assert_eq!(kind_of(&rt, &e), ExcKind::TypeError);
}

#[test]
fn module_add_lists_names() {
    let mut rt = held();
    let m = PyModule::new(&mut rt, "pkg").unwrap();
    let c = int_obj(&mut rt, 299_792_458);
    m.add(&mut rt, "c", c).unwrap();
    let got = m.get(&mut rt, "c").unwrap();
    assert_eq!(id_of(&got), c.id);
    let idx = m.index(&mut rt).unwrap();
    let elems = rt.objs[id_of(&idx)].elems.clone();
    assert_eq!(elems.len(), 1);
    assert_eq!(text_of(&rt, elems[0]), "c");
}

#[test]
fn module_index_is_made_once() {
    let mut rt = held();
    let m = PyModule::new(&mut rt, "once").unwrap();
    let first = m.index(&mut rt).unwrap();
    let second = m.index(&mut rt).unwrap();
    assert_eq!(id_of(&first), id_of(&second));
    let c = int_obj(&mut rt, 1);
    m.add(&mut rt, "c", c).unwrap();
    let third = m.index(&mut rt).unwrap();
    assert_eq!(id_of(&third), id_of(&first));
}

#[test]
fn module_index_that_is_not_a_list_is_type_error() {
    let mut rt = held();
    let m = PyModule::new(&mut rt, "odd").unwrap();
    let n = int_obj(&mut rt, 1);
    m.as_object().setattr(&mut rt, "__all__", n).unwrap();
    let e = m.index(&mut rt).unwrap_err();
    assert_eq!(kind_of(&rt, &e), ExcKind::TypeError);
    let e = m.add(&mut rt, "y", n).unwrap_err();
    assert_eq!(kind_of(&rt, &e), ExcKind::TypeError);
    assert!(!m.as_object().hasattr(&rt, "y").unwrap());
    let all = m.get(&mut rt, "__all__").unwrap();
    assert_eq!(id_of(&all), n.id);
}

#[test]
fn module_add_function_submodule_and_calls() {
    let mut rt = held();
    let m = PyModule::new(&mut rt, "outer").unwrap();
    let f = PyObject { id: rt.new_object(Payload::Function(Builtin::CountArgs), Vec::new()) };
    let fname = text_obj(&mut rt, "count");
    f.setattr(&mut rt, "__name__", fname).unwrap();
    m.add_function(&mut rt, f).unwrap();
    let r = m.call0(&mut rt, "count").unwrap();
    match rt.objs[id_of(&r)].payload {
        Payload::Int(n) => assert_eq!(n, 0),
        _ => panic!("not an integer"),
    }
    let one = int_obj(&mut rt, 1);
    let args = PyObject { id: rt.new_object(Payload::Tuple, vec![one.id]) };
    let r = m.call1(&mut rt, "count", args).unwrap();
    match rt.objs[id_of(&r)].payload {
        Payload::Int(n) => assert_eq!(n, 1),
        _ => panic!("not an integer"),
    }
    let kw = PyObject { id: rt.new_object(Payload::Dict, Vec::new()) };
    let r = m.call(&mut rt, "count", args, Some(kw)).unwrap();
    match rt.objs[id_of(&r)].payload {
        Payload::Int(n) => assert_eq!(n, 1),
        _ => panic!("not an integer"),
    }
    let sub = PyModule::new(&mut rt, "inner").unwrap();
    m.add_submodule(&mut rt, &sub).unwrap();
    let got = m.get(&mut rt, "inner").unwrap();
    assert_eq!(id_of(&got), sub.as_object().id);
    let cls = PyObject { id: rt.new_object(Payload::Class, Vec::new()) };
    let e = m.add_class(&mut rt, cls).unwrap_err();
    assert_eq!(kind_of(&rt, &e), ExcKind::SystemError);
    let cname = text_obj(&mut rt, "Foo");
    cls.setattr(&mut rt, "__name__", cname).unwrap();
    m.add_class(&mut rt, cls).unwrap();
    m.add_wrapped(&mut rt, f).unwrap();
    let idx = m.index(&mut rt).unwrap();
    let names: Vec<String> = rt.objs[id_of(&idx)].elems.clone().into_iter().map(|i| text_of(&rt, i)).collect();
    assert_eq!(names, vec!["count", "inner", "Foo", "count"]);
    let e = m.filename(&mut rt).unwrap_err();
    assert_eq!(kind_of(&rt, &e), ExcKind::SystemError);
    let e = m.call0(&mut rt, "missing").unwrap_err();
    assert_eq!(kind_of(&rt, &e), ExcKind::AttributeError);
}

#[test]
fn thread_states() {
    let mut ts = ThreadStates::new();
    let i = ts.new_interpreter();
    let a = ts.new_thread_state(i);
    let b = ts.new_thread_state(i);
    let rt = Runtime::new();
    assert_eq!(PyThreadState_GET(&rt, &ts), None);
    assert_eq!(ts.swap(Some(a)), None);
    assert_eq!(ts.swap(Some(b)), Some(a));
    assert_eq!(ts.get(), Some(b));
    ts.clear_thread_state(a);
    ts.delete_thread_state(a);
    assert!(!ts.threads[a].alive);
    ts.delete_current();
    assert_eq!(PyThreadState_GET(&rt, &ts), None);
    assert!(!ts.threads[b].alive);
    ts.clear_interpreter(i);
    ts.delete_interpreter(i);
    assert!(!ts.interps[i].alive);
}
