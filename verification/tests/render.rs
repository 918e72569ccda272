use dyon_core::fmt::{_str, json_string, unwrap};
use dyon_core::module::Module;
use dyon_core::rt::{CallFrame, Runtime};
use dyon_core::val::{Entry, Error, Variable};
use std::rc::Rc;

fn num(v: f64) -> Variable {
    Variable::F64(v.to_bits(), None)
}

fn text(s: &str) -> Variable {
    Variable::Text(s.to_string())
}

fn new_rt() -> Runtime {
    Runtime {
        stack: vec![],
        call_stack: vec![],
        module: Rc::new(Module { intrinsics: vec![], ext_prelude: vec![], functions: vec![] }),
        arg_err_index: None,
        threads: vec![],
        channels: vec![],
    }
}

fn rendered(rt: &mut Runtime) -> String {
    match rt.stack.pop().unwrap() {
        Variable::Text(t) => t,
        _ => panic!("expected text"),
    }
}

#[test]
fn renders_plain_values() {
    let mut rt = new_rt();
    rt.stack.push(num(5.0));
    _str(&mut rt).unwrap();
    assert_eq!(rendered(&mut rt), "5");
    rt.stack.push(num(-42.0));
    _str(&mut rt).unwrap();
    assert_eq!(rendered(&mut rt), "-42");
    rt.stack.push(Variable::Bool(true, None));
    _str(&mut rt).unwrap();
    assert_eq!(rendered(&mut rt), "true");
    rt.stack.push(text("plain"));
    _str(&mut rt).unwrap();
    assert_eq!(rendered(&mut rt), "plain");
    // a non-integral number renders exactly: 0.5 is 2^52 * 2^-53
    rt.stack.push(num(0.5));
    _str(&mut rt).unwrap();
    assert_eq!(rendered(&mut rt), "4503599627370496*2^-53");
    rt.stack.push(num(f64::NAN));
    _str(&mut rt).unwrap();
    assert_eq!(rendered(&mut rt), "NaN");
    rt.stack.push(num(f64::NEG_INFINITY));
    _str(&mut rt).unwrap();
    assert_eq!(rendered(&mut rt), "-inf");
}

#[test]
fn renders_containers() {
    let mut rt = new_rt();
    rt.stack.push(Variable::Array(vec![num(1.0), text("a\"b")]));
    _str(&mut rt).unwrap();
    assert_eq!(rendered(&mut rt), "[1, \"a\\\"b\"]");
    rt.stack.push(Variable::Object(vec![Entry { key: "k".to_string(), val: num(2.0) }]));
    json_string(&mut rt).unwrap();
    assert_eq!(rendered(&mut rt), "{k: 2}");
    rt.stack.push(Variable::Option(None));
    _str(&mut rt).unwrap();
    assert_eq!(rendered(&mut rt), "none()");
    rt.stack.push(Variable::Option(Some(Box::new(text("x")))));
    _str(&mut rt).unwrap();
    assert_eq!(rendered(&mut rt), "some(\"x\")");
    // at the top level, json escaping quotes the text itself
    rt.stack.push(text("x"));
    json_string(&mut rt).unwrap();
    assert_eq!(rendered(&mut rt), "\"x\"");
    rt.stack.push(Variable::Vec4([
        (1.0f64).to_bits(),
        (2.0f64).to_bits(),
        (0.0f64).to_bits(),
        (0.0f64).to_bits(),
    ]));
    _str(&mut rt).unwrap();
    assert_eq!(rendered(&mut rt), "(1, 2, 0, 0)");
}

#[test]
fn unwrap_yields_inner_values() {
    let mut rt = new_rt();
    rt.stack.push(num(7.0));
    dyon_core::res::some(&mut rt).unwrap();
    unwrap(&mut rt).unwrap();
    match rt.stack.pop().unwrap() {
        Variable::F64(b, _) => assert_eq!(b, (7.0f64).to_bits()),
        _ => panic!("expected number"),
    }
    rt.stack.push(Variable::Option(None));
    let e = unwrap(&mut rt).unwrap_err();
    assert_eq!(e, "Expected `some(_)`");
    assert_eq!(rt.arg_err_index, Some(0));
}

#[test]
fn unwrap_failure_renders_full_diagnostic() {
    let mut rt = new_rt();
    rt.call_stack.push(CallFrame {
        index: 0,
        fn_name: "main".to_string(),
        source: "demo".to_string(),
    });
    rt.stack.push(Variable::Result(Err(Box::new(Error {
        message: text("boom"),
        trace: vec!["first note".to_string(), "second note".to_string()],
    }))));
    let e = unwrap(&mut rt).unwrap_err();
    assert_eq!(e, "In function `main` (demo)\nboom\nfirst note\nsecond note");
}
