use dyon_core::module::Module;
use dyon_core::rt::{CallFrame, Runtime};
use dyon_core::val::{Entry, Variable};
use std::rc::Rc;

fn bits(v: f64) -> u64 {
    v.to_bits()
}

fn num(v: f64) -> Variable {
    Variable::F64(v.to_bits(), None)
}

fn text(s: &str) -> Variable {
    Variable::Text(s.to_string())
}

fn new_rt() -> Runtime {
    Runtime {
        stack: vec![],
        call_stack: vec![],
        module: Rc::new(Module { intrinsics: vec![], ext_prelude: vec![], functions: vec![] }),
        arg_err_index: None,
        threads: vec![],
        channels: vec![],
    }
}

#[test]
fn array_mutators() {
    let mut rt = new_rt();
    rt.stack.push(Variable::Array(vec![num(1.0), num(2.0), num(3.0)]));
    // insert 9 at position 1
    rt.stack.push(Variable::Ref(0));
    rt.stack.push(num(1.0));
    rt.stack.push(num(9.0));
    dyon_core::arr::insert(&mut rt).unwrap();
    // swap positions 0 and 3
    rt.stack.push(Variable::Ref(0));
    rt.stack.push(num(0.0));
    rt.stack.push(num(3.0));
    dyon_core::arr::swap(&mut rt).unwrap();
    // remove position 1
    rt.stack.push(Variable::Ref(0));
    rt.stack.push(num(1.0));
    dyon_core::arr::remove(&mut rt).unwrap();
    match rt.stack.pop().unwrap() {
        Variable::F64(b, _) => assert_eq!(b, bits(9.0)),
        _ => panic!("expected number"),
    }
    // reverse the rest
    rt.stack.push(Variable::Ref(0));
    dyon_core::arr::reverse(&mut rt).unwrap();
    match &rt.stack[0] {
        Variable::Array(items) => {
            let got: Vec<u64> = items
                .iter()
                .map(|v| match v {
                    Variable::F64(b, _) => *b,
                    _ => panic!("expected number"),
                })
                .collect();
            assert_eq!(got, vec![bits(1.0), bits(2.0), bits(3.0)]);
        }
        _ => panic!("expected array"),
    }
    // pop the last element
    rt.stack.push(Variable::Ref(0));
    dyon_core::arr::pop(&mut rt).unwrap();
    match rt.stack.pop().unwrap() {
        Variable::F64(b, _) => assert_eq!(b, bits(3.0)),
        _ => panic!("expected number"),
    }
    // out-of-bounds positions are reported
    rt.stack.push(Variable::Ref(0));
    rt.stack.push(num(7.0));
    let e = dyon_core::arr::remove(&mut rt).unwrap_err();
    assert_eq!(e, "Index out of bounds");
    rt.stack.push(Variable::Ref(0));
    rt.stack.push(num(0.0));
    rt.stack.push(num(9.0));
    let e = dyon_core::arr::swap(&mut rt).unwrap_err();
    assert_eq!(e, "Index out of bounds");
    // clear empties in place
    rt.stack.push(Variable::Ref(0));
    dyon_core::arr::clear(&mut rt).unwrap();
    match &rt.stack[0] {
        Variable::Array(items) => assert_eq!(items.len(), 0),
        _ => panic!("expected array"),
    }
    // popping an empty array is reported
    rt.stack.push(Variable::Ref(0));
    let e = dyon_core::arr::pop(&mut rt).unwrap_err();
    assert_eq!(e, "Expected non-empty array");
}

#[test]
fn len_min_max() {
    let mut rt = new_rt();
    rt.stack.push(Variable::Array(vec![num(3.0), num(1.0), num(2.0)]));
    rt.stack.push(Variable::Ref(0));
    dyon_core::arr::len(&mut rt).unwrap();
    match rt.stack.pop().unwrap() {
        Variable::F64(b, _) => assert_eq!(b, bits(3.0)),
        _ => panic!("expected number"),
    }
    rt.stack.push(Variable::Ref(0));
    dyon_core::arr::min(&mut rt).unwrap();
    match rt.stack.pop().unwrap() {
        Variable::F64(b, _) => assert_eq!(b, bits(1.0)),
        _ => panic!("expected number"),
    }
    rt.stack.push(Variable::Ref(0));
    dyon_core::arr::max(&mut rt).unwrap();
    match rt.stack.pop().unwrap() {
        Variable::F64(b, _) => assert_eq!(b, bits(3.0)),
        _ => panic!("expected number"),
    }
    // an array without numbers folds to NaN
    rt.stack.push(Variable::Array(vec![text("x")]));
    dyon_core::arr::min(&mut rt).unwrap();
    match rt.stack.pop().unwrap() {
        Variable::F64(b, _) => assert!(f64::from_bits(b).is_nan()),
        _ => panic!("expected number"),
    }
}

#[test]
fn object_reads() {
    let mut rt = new_rt();
    rt.stack.push(Variable::Object(vec![
        Entry { key: "alpha".to_string(), val: num(1.0) },
        Entry { key: "beta".to_string(), val: num(2.0) },
    ]));
    rt.stack.push(Variable::Ref(0));
    rt.stack.push(text("beta"));
    dyon_core::arr::has(&mut rt).unwrap();
    assert!(matches!(rt.stack.pop().unwrap(), Variable::Bool(true, None)));
    rt.stack.push(Variable::Ref(0));
    rt.stack.push(text("gamma"));
    dyon_core::arr::has(&mut rt).unwrap();
    assert!(matches!(rt.stack.pop().unwrap(), Variable::Bool(false, None)));
    rt.stack.push(Variable::Ref(0));
    dyon_core::arr::keys(&mut rt).unwrap();
    match rt.stack.pop().unwrap() {
        Variable::Array(ks) => {
            assert_eq!(ks.len(), 2);
            match &ks[0] {
                Variable::Text(t) => assert_eq!(t, "alpha"),
                _ => panic!("expected text"),
            }
        }
        _ => panic!("expected array"),
    }
}

#[test]
fn option_and_result_plumbing() {
    let mut rt = new_rt();
    // wrapping deep-clones, unwrapping with a default never fails
    rt.stack.push(num(7.0));
    dyon_core::res::some(&mut rt).unwrap();
    rt.stack.push(num(0.0));
    dyon_core::res::unwrap_or(&mut rt).unwrap();
    match rt.stack.pop().unwrap() {
        Variable::F64(b, _) => assert_eq!(b, bits(7.0)),
        _ => panic!("expected number"),
    }
    rt.stack.push(Variable::Option(None));
    rt.stack.push(num(4.0));
    dyon_core::res::unwrap_or(&mut rt).unwrap();
    match rt.stack.pop().unwrap() {
        Variable::F64(b, _) => assert_eq!(b, bits(4.0)),
        _ => panic!("expected number"),
    }
    // err wraps with an empty trace; unwrap_err yields the message
    rt.stack.push(text("bad"));
    dyon_core::res::err(&mut rt).unwrap();
    dyon_core::res::is_err(&mut rt).unwrap();
    assert!(matches!(rt.stack.pop().unwrap(), Variable::Bool(true, None)));
    rt.stack.push(text("bad"));
    dyon_core::res::err(&mut rt).unwrap();
    dyon_core::res::unwrap_err(&mut rt).unwrap();
    match rt.stack.pop().unwrap() {
        Variable::Text(t) => assert_eq!(t, "bad"),
        _ => panic!("expected text"),
    }
    rt.stack.push(num(1.0));
    dyon_core::res::ok(&mut rt).unwrap();
    dyon_core::res::is_ok(&mut rt).unwrap();
    assert!(matches!(rt.stack.pop().unwrap(), Variable::Bool(true, None)));
    // the wrong variant is a reported argument error
    rt.stack.push(num(1.0));
    let e = dyon_core::res::is_ok(&mut rt).unwrap_err();
    assert_eq!(e, "Expected `result`, found `f64`");
    assert_eq!(rt.arg_err_index, Some(0));
}

#[test]
fn typeof_and_chars() {
    let mut rt = new_rt();
    rt.stack.push(text("hi"));
    dyon_core::rt::_typeof(&mut rt).unwrap();
    match rt.stack.pop().unwrap() {
        Variable::Text(t) => assert_eq!(t, "str"),
        _ => panic!("expected text"),
    }
    rt.stack.push(text("ab"));
    dyon_core::rt::chars(&mut rt).unwrap();
    match rt.stack.pop().unwrap() {
        Variable::Array(items) => {
            assert_eq!(items.len(), 2);
            match &items[1] {
                Variable::Text(t) => assert_eq!(t, "b"),
                _ => panic!("expected text"),
            }
        }
        _ => panic!("expected array"),
    }
}

#[test]
fn vector_and_matrix_components() {
    let mut rt = new_rt();
    rt.stack.push(Variable::Vec4([bits(1.0), bits(2.0), bits(3.0), bits(4.0)]));
    rt.stack.push(num(2.0));
    dyon_core::rt::s(&mut rt).unwrap();
    match rt.stack.pop().unwrap() {
        Variable::F64(b, _) => assert_eq!(b, bits(3.0)),
        _ => panic!("expected number"),
    }
    rt.stack.push(Variable::Vec4([bits(1.0), bits(2.0), bits(3.0), bits(4.0)]));
    rt.stack.push(num(9.0));
    let e = dyon_core::rt::s(&mut rt).unwrap_err();
    assert_eq!(e, "Index out of bounds `9`");
    let m = Box::new([
        [bits(1.0), bits(2.0), bits(3.0), bits(4.0)],
        [bits(5.0), bits(6.0), bits(7.0), bits(8.0)],
        [bits(9.0), bits(10.0), bits(11.0), bits(12.0)],
        [bits(13.0), bits(14.0), bits(15.0), bits(16.0)],
    ]);
    rt.stack.push(Variable::Mat4(m.clone()));
    rt.stack.push(num(1.0));
    dyon_core::rt::cv(&mut rt).unwrap();
    match rt.stack.pop().unwrap() {
        Variable::Vec4(c) => assert_eq!(c, [bits(5.0), bits(6.0), bits(7.0), bits(8.0)]),
        _ => panic!("expected 4-vector"),
    }
    rt.stack.push(Variable::Mat4(m));
    rt.stack.push(num(1.0));
    dyon_core::rt::rv(&mut rt).unwrap();
    match rt.stack.pop().unwrap() {
        Variable::Vec4(c) => assert_eq!(c, [bits(2.0), bits(6.0), bits(10.0), bits(14.0)]),
        _ => panic!("expected 4-vector"),
    }
}

#[test]
fn random_stays_in_unit_interval() {
    let mut rt = new_rt();
    for _ in 0..32 {
        dyon_core::rt::random(&mut rt).unwrap();
        match rt.stack.pop().unwrap() {
            Variable::F64(b, None) => {
                let v = f64::from_bits(b);
                assert!((0.0..1.0).contains(&v));
            }
            _ => panic!("expected number"),
        }
    }
}

#[test]
fn file_intrinsics_report_disabled() {
    let mut rt = new_rt();
    let e = dyon_core::files::save__string_file(&mut rt).unwrap_err();
    assert_eq!(e, "File support is disabled");
    let e = dyon_core::files::load_string__file(&mut rt).unwrap_err();
    assert_eq!(e, "File support is disabled");
    let e = dyon_core::files::save__data_file(&mut rt).unwrap_err();
    assert_eq!(e, "File support is disabled");
}

#[test]
fn meta_json_rendering() {
    let mut rt = new_rt();
    rt.stack.push(Variable::Array(vec![
        Variable::Array(vec![text("start"), text("obj")]),
        Variable::Array(vec![text("str"), text("key"), text("va\"l")]),
        Variable::Array(vec![text("end"), text("obj")]),
    ]));
    dyon_core::meta::json_from_meta_data(&mut rt).unwrap();
    match rt.stack.pop().unwrap() {
        Variable::Text(t) => {
            assert_eq!(
                t,
                "[[\"start\",\"obj\"],[\"str\",\"key\",\"va\\\"l\"],[\"end\",\"obj\"]]"
            );
        }
        _ => panic!("expected text"),
    }
    // a malformed item is reported with the call-stack trace
    rt.call_stack.push(CallFrame {
        index: 0,
        fn_name: "render".to_string(),
        source: "meta source".to_string(),
    });
    rt.stack.push(Variable::Array(vec![num(1.0)]));
    let e = dyon_core::meta::json_from_meta_data(&mut rt).unwrap_err();
    assert!(e.contains("Error when generating JSON:"));
    assert!(e.contains("In function `render` (meta source)"));
}

#[test]
fn meta_range_report_names_message() {
    let mut rt = new_rt();
    rt.stack.push(text("a b c\nd e f"));
    rt.stack.push(num(6.0));
    rt.stack.push(num(1.0));
    rt.stack.push(text("something odd here"));
    dyon_core::meta::errstr__string_start_len_msg(&mut rt).unwrap();
    match rt.stack.pop().unwrap() {
        Variable::Text(t) => {
            assert!(t.contains("something odd here"));
            assert!(t.contains("d e f"));
        }
        _ => panic!("expected text"),
    }
}

#[test]
fn functions_lists_current_module() {
    let mut rt = new_rt();
    rt.module = Rc::new(Module {
        intrinsics: vec!["println".to_string()],
        ext_prelude: vec![],
        functions: vec![],
    });
    dyon_core::dispatch::functions(&mut rt).unwrap();
    match rt.stack.pop().unwrap() {
        Variable::Array(list) => {
            assert_eq!(list.len(), 1);
            match &list[0] {
                Variable::Object(entries) => {
                    assert_eq!(entries[0].key, "name");
                    match &entries[0].val {
                        Variable::Text(t) => assert_eq!(t, "println"),
                        _ => panic!("expected text"),
                    }
                    match &entries[1].val {
                        Variable::Text(t) => assert_eq!(t, "intrinsic"),
                        _ => panic!("expected text"),
                    }
                }
                _ => panic!("expected object"),
            }
        }
        _ => panic!("expected array"),
    }
}
