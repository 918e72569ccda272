use dyon_core::concur::{
    channel_close, channel_send, join__thread, next, register_channel, register_thread, wait_next,
    TaskOutcome, WaitOutcome,
};
use dyon_core::data::load_data;
use dyon_core::dispatch::{_call, call_ret, functions__module, load};
use dyon_core::module::{Instr, LoadedFunction, Lt, Module};
use dyon_core::rt::{CallFrame, Runtime};
use dyon_core::val::{Entry, RustObject, Variable};
use std::rc::Rc;

fn bits(v: f64) -> u64 {
    v.to_bits()
}

fn num(v: f64) -> Variable {
    Variable::F64(v.to_bits(), None)
}

fn text(s: &str) -> Variable {
    Variable::Text(s.to_string())
}

fn new_rt() -> Runtime {
    Runtime {
        stack: vec![],
        call_stack: vec![],
        module: Rc::new(Module { intrinsics: vec![], ext_prelude: vec![], functions: vec![] }),
        arg_err_index: None,
        threads: vec![],
        channels: vec![],
    }
}

fn add_module() -> Module {
    Module {
        intrinsics: vec![],
        ext_prelude: vec![],
        functions: vec![LoadedFunction {
            name: "add".to_string(),
            params: vec![Lt::Unbound, Lt::Unbound],
            returns: true,
            body: vec![Instr::PushArg(0), Instr::PushArg(1), Instr::Add, Instr::Ret],
            source: "fn add(a, b) = a + b".to_string(),
        }],
    }
}

fn caller_rt() -> Runtime {
    let mut rt = new_rt();
    rt.module = Rc::new(Module {
        intrinsics: vec![],
        ext_prelude: vec![],
        functions: vec![LoadedFunction {
            name: "main".to_string(),
            params: vec![],
            returns: false,
            body: vec![],
            source: "main source".to_string(),
        }],
    });
    rt.call_stack.push(CallFrame {
        index: 0,
        fn_name: "main".to_string(),
        source: "main source".to_string(),
    });
    rt
}

#[test]
fn copy_on_write_isolation() {
    // a clone is deep-equal to its source, and a write through a reference
    // to the clone's slot never changes a read of the source
    let mut rt = new_rt();
    rt.stack.push(Variable::Array(vec![num(1.0), num(2.0)]));
    // clone the array: slot 1 holds the deep clone
    rt.stack.push(Variable::Ref(0));
    dyon_core::rt::clone(&mut rt).unwrap();
    match (&rt.stack[0], &rt.stack[1]) {
        (Variable::Array(a), Variable::Array(b)) => {
            assert_eq!(a.len(), b.len());
            for k in 0..a.len() {
                match (&a[k], &b[k]) {
                    (Variable::F64(x, _), Variable::F64(y, _)) => assert_eq!(x, y),
                    _ => panic!("expected numbers"),
                }
            }
        }
        _ => panic!("expected arrays"),
    }
    // write to the clone
    rt.stack.push(Variable::Ref(1));
    rt.stack.push(num(3.0));
    dyon_core::arr::push(&mut rt).unwrap();
    match &rt.stack[0] {
        Variable::Array(a) => assert_eq!(a.len(), 2),
        _ => panic!("expected array"),
    }
    match &rt.stack[1] {
        Variable::Array(b) => assert_eq!(b.len(), 3),
        _ => panic!("expected array"),
    }
}

#[test]
fn why_round_trip() {
    // attach two explanations, then read: the explanations come back in
    // the order they were attached, oldest first
    let mut rt = new_rt();
    rt.stack.push(Variable::Bool(true, None));
    rt.stack.push(text("first"));
    dyon_core::rt::explain_why(&mut rt).unwrap();
    rt.stack.push(text("second"));
    dyon_core::rt::explain_why(&mut rt).unwrap();
    dyon_core::rt::why(&mut rt).unwrap();
    match &rt.stack[0] {
        Variable::Array(chain) => {
            assert_eq!(chain.len(), 2);
            match (&chain[0], &chain[1]) {
                (Variable::Text(a), Variable::Text(b)) => {
                    assert_eq!(a, "first");
                    assert_eq!(b, "second");
                }
                _ => panic!("expected texts"),
            }
        }
        _ => panic!("expected array"),
    }
}

#[test]
fn attach_why_rejects_false_boolean() {
    // a false claim has no reason to give: attaching is a user error
    let mut rt = new_rt();
    rt.stack.push(Variable::Bool(false, None));
    rt.stack.push(text("reason"));
    let e = dyon_core::rt::explain_why(&mut rt).unwrap_err();
    assert_eq!(e, "Must be `true` to have meaning, try add or remove `!`");
    assert_eq!(rt.arg_err_index, Some(0));
    assert_eq!(rt.stack.len(), 0);
}

#[test]
fn attach_where_names_the_number_type() {
    let mut rt = new_rt();
    rt.stack.push(text("not a number"));
    rt.stack.push(text("origin"));
    let e = dyon_core::rt::explain_where(&mut rt).unwrap_err();
    assert_eq!(e, "Expected `f64`, found `str`");
    assert_eq!(rt.arg_err_index, Some(0));
}

#[test]
fn where_reads_oldest_first() {
    let mut rt = new_rt();
    rt.stack.push(num(2.5));
    rt.stack.push(text("measured"));
    dyon_core::rt::explain_where(&mut rt).unwrap();
    rt.stack.push(text("rounded"));
    dyon_core::rt::explain_where(&mut rt).unwrap();
    dyon_core::rt::_where(&mut rt).unwrap();
    match &rt.stack[0] {
        Variable::Array(chain) => {
            assert_eq!(chain.len(), 2);
            match (&chain[0], &chain[1]) {
                (Variable::Text(a), Variable::Text(b)) => {
                    assert_eq!(a, "measured");
                    assert_eq!(b, "rounded");
                }
                _ => panic!("expected texts"),
            }
        }
        _ => panic!("expected array"),
    }
}

#[test]
fn why_requires_true_with_chain() {
    let mut rt = new_rt();
    rt.stack.push(Variable::Bool(true, None));
    let e = dyon_core::rt::why(&mut rt).unwrap_err();
    assert_eq!(e, "This does not make sense, perhaps an array is empty?");
    rt.stack.push(Variable::Bool(false, None));
    let e = dyon_core::rt::why(&mut rt).unwrap_err();
    assert_eq!(e, "Must be `true` to have meaning, try add or remove `!`");
}

#[test]
fn where_rejects_nan() {
    let mut rt = new_rt();
    rt.stack.push(Variable::F64(f64::NAN.to_bits(), Some(Box::new(vec![text("src")]))));
    let e = dyon_core::rt::_where(&mut rt).unwrap_err();
    assert_eq!(e, "Expected number, found `NaN`");
}

#[test]
fn link_head_tip_empty_and_trims() {
    let mut rt = new_rt();
    // an empty link reports absent at both ends
    let v = load_data("link { }").unwrap();
    rt.stack.push(dyon_core::val::deep_clone(&v));
    dyon_core::link::head(&mut rt).unwrap();
    assert!(matches!(rt.stack.pop().unwrap(), Variable::Option(None)));
    rt.stack.push(v);
    dyon_core::link::tip(&mut rt).unwrap();
    assert!(matches!(rt.stack.pop().unwrap(), Variable::Option(None)));
}

#[test]
fn link_repeated_tail_reaches_empty() {
    // three items: three tails empty the link; pushes front-extend, so the
    // head is the last pushed item
    let mut rt = new_rt();
    let v = load_data("link {1 2 3}").unwrap();
    rt.stack.push(v);
    dyon_core::link::head(&mut rt).unwrap();
    match rt.stack.pop().unwrap() {
        Variable::Option(Some(b)) => match *b {
            Variable::F64(x, _) => assert_eq!(x, bits(3.0)),
            _ => panic!("expected number"),
        },
        _ => panic!("expected present"),
    }
    let mut v = load_data("link {1 2 3}").unwrap();
    for _ in 0..3 {
        rt.stack.push(v);
        dyon_core::link::tail(&mut rt).unwrap();
        v = rt.stack.pop().unwrap();
        match &v {
            Variable::Link(_) => {}
            _ => panic!("expected link"),
        }
    }
    rt.stack.push(v);
    dyon_core::link::is_empty(&mut rt).unwrap();
    assert!(matches!(rt.stack.pop().unwrap(), Variable::Bool(true, None)));
}

#[test]
fn load_failure_wraps_diagnostic() {
    let mut rt = caller_rt();
    rt.stack.push(text("fn broken("));
    load(&mut rt, Err("syntax error in `broken.script`".to_string())).unwrap();
    match rt.stack.pop().unwrap() {
        Variable::Result(Err(e)) => match e.message {
            Variable::Text(m) => {
                assert_eq!(m, "When attempting to load module:\nsyntax error in `broken.script`");
                assert!(m.contains("syntax error in `broken.script`"));
            }
            _ => panic!("expected text message"),
        },
        _ => panic!("expected failure result"),
    }
}

#[test]
fn load_twice_gives_identical_tables() {
    let mut rt = caller_rt();
    for _ in 0..2 {
        rt.stack.push(text("fn add(a, b) = a + b"));
        load(&mut rt, Ok(add_module().functions)).unwrap();
        // a successful load pushes the handle wrapped as a success result
        match rt.stack.pop().unwrap() {
            Variable::Result(Ok(inner)) => rt.stack.push(*inner),
            _ => panic!("expected a success result"),
        }
    }
    let mut names = vec![];
    for _ in 0..2 {
        functions__module(&mut rt).unwrap();
        match rt.stack.pop().unwrap() {
            Variable::Array(list) => {
                let mut entry_names = vec![];
                for e in &list {
                    match e {
                        Variable::Object(entries) => {
                            for Entry { key, val } in entries {
                                if key == "name" {
                                    match val {
                                        Variable::Text(t) => entry_names.push(t.clone()),
                                        _ => panic!("expected text"),
                                    }
                                }
                            }
                        }
                        _ => panic!("expected object"),
                    }
                }
                names.push(entry_names);
            }
            _ => panic!("expected array"),
        }
    }
    assert_eq!(names[0], names[1]);
    assert_eq!(names[0], vec!["add".to_string()]);
}

#[test]
fn load_then_dispatch_end_to_end() {
    // load a module from text whose compiler outcome defines add(a, b),
    // then dispatch a call through the fresh handle
    let mut rt = caller_rt();
    rt.stack.push(text("fn add(a, b) = a + b"));
    load(&mut rt, Ok(add_module().functions)).unwrap();
    match rt.stack.pop().unwrap() {
        Variable::Result(Ok(inner)) => rt.stack.push(*inner),
        _ => panic!("expected a success result"),
    }
    rt.stack.push(text("add"));
    rt.stack.push(Variable::Array(vec![num(2.0), num(3.0)]));
    call_ret(&mut rt).unwrap();
    match rt.stack.pop().unwrap() {
        Variable::F64(b, _) => assert_eq!(b, bits(5.0)),
        _ => panic!("expected number"),
    }
}

#[test]
fn dispatch_add_returns_five() {
    let mut rt = caller_rt();
    rt.stack.push(Variable::RustObject(Box::new(RustObject::Module(Rc::new(add_module())))));
    rt.stack.push(text("add"));
    rt.stack.push(Variable::Array(vec![num(2.0), num(3.0)]));
    call_ret(&mut rt).unwrap();
    match rt.stack.pop().unwrap() {
        Variable::F64(b, _) => assert_eq!(b, bits(5.0)),
        _ => panic!("expected number"),
    }
}

#[test]
fn dispatch_wrong_arity_fails_without_effect() {
    let mut rt = caller_rt();
    let depth = rt.stack.len();
    rt.stack.push(Variable::RustObject(Box::new(RustObject::Module(Rc::new(add_module())))));
    rt.stack.push(text("add"));
    rt.stack.push(Variable::Array(vec![num(2.0)]));
    let e = call_ret(&mut rt).unwrap_err();
    assert_eq!(e, "Expected `2` arguments, found `1`");
    assert_eq!(rt.arg_err_index, Some(2));
    assert_eq!(rt.stack.len(), depth);
    assert_eq!(rt.call_stack.len(), 1);
}

#[test]
fn dispatch_missing_function() {
    let mut rt = caller_rt();
    rt.stack.push(Variable::RustObject(Box::new(RustObject::Module(Rc::new(add_module())))));
    rt.stack.push(text("mul"));
    rt.stack.push(Variable::Array(vec![]));
    let e = _call(&mut rt).unwrap_err();
    assert_eq!(e, "Could not find function `mul`");
}

#[test]
fn dispatch_lifetime_check_rejects_dangling_return() {
    let mut rt = caller_rt();
    let m = Module {
        intrinsics: vec![],
        ext_prelude: vec![],
        functions: vec![LoadedFunction {
            name: "keep".to_string(),
            params: vec![Lt::Ret],
            returns: true,
            body: vec![Instr::PushArg(0), Instr::Ret],
            source: "".to_string(),
        }],
    };
    rt.stack.push(Variable::RustObject(Box::new(RustObject::Module(Rc::new(m)))));
    rt.stack.push(text("keep"));
    rt.stack.push(Variable::Array(vec![num(1.0)]));
    let e = call_ret(&mut rt).unwrap_err();
    assert_eq!(e, "Argument `0` requires a reference to outlive the return value");
    assert_eq!(rt.arg_err_index, Some(2));
}

#[test]
fn channel_next_never_blocks() {
    let mut rt = new_rt();
    register_channel(&mut rt);
    // the handle sits on the stack; polling an empty open channel is absent
    next(&mut rt).unwrap();
    assert!(matches!(rt.stack.pop().unwrap(), Variable::Option(None)));
}

#[test]
fn channel_wait_next_delivers_exactly_once() {
    let mut rt = new_rt();
    let id = register_channel(&mut rt);
    channel_send(&mut rt, id, text("hi"));
    match wait_next(&mut rt).unwrap() {
        WaitOutcome::Delivered => {}
        WaitOutcome::WouldBlock => panic!("message was pending"),
    }
    match rt.stack.pop().unwrap() {
        Variable::Option(Some(b)) => match *b {
            Variable::Text(t) => assert_eq!(t, "hi"),
            _ => panic!("expected text"),
        },
        _ => panic!("expected present"),
    }
    // the message was taken: a second wait would have to block
    rt.stack.push(Variable::In(id));
    match wait_next(&mut rt).unwrap() {
        WaitOutcome::WouldBlock => {}
        WaitOutcome::Delivered => panic!("nothing should be pending"),
    }
    // a closed, drained channel delivers absent without failing
    channel_close(&mut rt, id);
    match wait_next(&mut rt).unwrap() {
        WaitOutcome::Delivered => {}
        WaitOutcome::WouldBlock => panic!("closed channels never block"),
    }
    assert!(matches!(rt.stack.pop().unwrap(), Variable::Option(None)));
}

#[test]
fn join_boom_then_already_joined() {
    let mut rt = new_rt();
    let id = register_thread(&mut rt);
    join__thread(&mut rt, TaskOutcome::Failed("boom".to_string())).unwrap();
    match rt.stack.pop().unwrap() {
        Variable::Result(Err(e)) => match e.message {
            Variable::Text(m) => assert_eq!(m, "boom"),
            _ => panic!("expected text"),
        },
        _ => panic!("expected failure"),
    }
    rt.stack.push(Variable::Thread(id));
    join__thread(&mut rt, TaskOutcome::Done(num(1.0))).unwrap();
    match rt.stack.pop().unwrap() {
        Variable::Result(Err(e)) => match e.message {
            Variable::Text(m) => assert_eq!(m, "Thread has already been joined"),
            _ => panic!("expected text"),
        },
        _ => panic!("expected failure"),
    }
}

#[test]
fn join_abnormal_end() {
    let mut rt = new_rt();
    register_thread(&mut rt);
    join__thread(&mut rt, TaskOutcome::Abnormal).unwrap();
    match rt.stack.pop().unwrap() {
        Variable::Result(Err(e)) => match e.message {
            Variable::Text(m) => assert_eq!(m, "Thread did not exit successfully"),
            _ => panic!("expected text"),
        },
        _ => panic!("expected failure"),
    }
}
