use dyon_core::data::load_data;
use dyon_core::val::{Entry, Variable};

fn bits(v: f64) -> u64 {
    v.to_bits()
}

#[test]
fn decodes_numbers() {
    match load_data("1.5").unwrap() {
        Variable::F64(b, None) => assert_eq!(b, bits(1.5)),
        _ => panic!("expected number"),
    }
    match load_data("-20").unwrap() {
        Variable::F64(b, None) => assert_eq!(b, bits(-20.0)),
        _ => panic!("expected number"),
    }
    match load_data("2_000_000.5E-2").unwrap() {
        Variable::F64(b, None) => assert_eq!(b, bits(2_000_000.5E-2)),
        _ => panic!("expected number"),
    }
}

#[test]
fn decodes_booleans() {
    assert!(matches!(load_data("true").unwrap(), Variable::Bool(true, None)));
    assert!(matches!(load_data("false").unwrap(), Variable::Bool(false, None)));
}

#[test]
fn decodes_texts_with_escapes() {
    match load_data("\"he\\\"llo\"").unwrap() {
        Variable::Text(t) => assert_eq!(t, "he\"llo"),
        _ => panic!("expected text"),
    }
    match load_data("\"\\u20AC\"").unwrap() {
        Variable::Text(t) => assert_eq!(t, "\u{20AC}"),
        _ => panic!("expected text"),
    }
    match load_data("\"a\\nb\\tc\"").unwrap() {
        Variable::Text(t) => assert_eq!(t, "a\nb\tc"),
        _ => panic!("expected text"),
    }
}

#[test]
fn decodes_arrays() {
    match load_data("[1, 2, 3]").unwrap() {
        Variable::Array(items) => {
            assert_eq!(items.len(), 3);
            match &items[2] {
                Variable::F64(b, None) => assert_eq!(*b, bits(3.0)),
                _ => panic!("expected number"),
            }
        }
        _ => panic!("expected array"),
    }
}

#[test]
fn decodes_objects_with_last_binding_winning() {
    match load_data("{a: 1, b: \"x\", a: 2}").unwrap() {
        Variable::Object(entries) => {
            assert_eq!(entries.len(), 2);
            let Entry { key, val } = &entries[0];
            assert_eq!(key, "a");
            match val {
                Variable::F64(b, None) => assert_eq!(*b, bits(2.0)),
                _ => panic!("expected number"),
            }
        }
        _ => panic!("expected object"),
    }
}

#[test]
fn decodes_vectors() {
    match load_data("(1, 2, 3, 4)").unwrap() {
        Variable::Vec4(c) => {
            assert_eq!(c, [bits(1.0), bits(2.0), bits(3.0), bits(4.0)]);
        }
        _ => panic!("expected 4-vector"),
    }
    // missing components are zero
    match load_data("(1, 2)").unwrap() {
        Variable::Vec4(c) => {
            assert_eq!(c, [bits(1.0), bits(2.0), bits(0.0), bits(0.0)]);
        }
        _ => panic!("expected 4-vector"),
    }
}

#[test]
fn decodes_colors_normalized() {
    match load_data("#ff8000").unwrap() {
        Variable::Vec4(c) => {
            assert_eq!(c[0], bits(1.0));
            assert_eq!(c[1], bits(128.0 / 255.0));
            assert_eq!(c[2], bits(0.0));
            assert_eq!(c[3], bits(1.0));
        }
        _ => panic!("expected 4-vector"),
    }
}

fn expect_err(r: Result<Variable, String>, want: &str) {
    match r {
        Err(m) => assert_eq!(m, want),
        Ok(_) => panic!("expected the report `{}`", want),
    }
}

#[test]
fn rejects_malformed_literals() {
    expect_err(load_data("@"), "Not implemented");
    expect_err(load_data("{a 1}"), "Expected `:`");
    expect_err(load_data("{: 1}"), "Expected key");
    expect_err(load_data("[1 2]"), "Expected `,`");
    expect_err(load_data("link 1"), "Expected `{`");
    expect_err(load_data("#zz0000"), "Expected hex color");
    expect_err(load_data("( )"), "Expected x component");
    expect_err(load_data("(1 )"), "Expected y component");
}

#[test]
fn rejects_oversized_exponents() {
    // the token reader's exponent accumulator holds nineteen digits; a
    // longer exponent part is reported instead of read
    expect_err(load_data("1e99999999999999999999"), "Number exponent too long");
    expect_err(load_data("1e+99999999999999999999"), "Number exponent too long");
    expect_err(load_data("[2, 1e-99999999999999999999]"), "Number exponent too long");
    // nineteen digits still read (the value saturates far out of range)
    assert!(matches!(
        load_data("1e9999999999999999999").unwrap(),
        Variable::F64(_, None)
    ));
    assert!(matches!(load_data("2.5e-2").unwrap(), Variable::F64(_, None)));
}

#[test]
fn decodes_empty_containers() {
    match load_data("{ }").unwrap() {
        Variable::Object(entries) => assert_eq!(entries.len(), 0),
        _ => panic!("expected object"),
    }
    match load_data("[]").unwrap() {
        Variable::Array(items) => assert_eq!(items.len(), 0),
        _ => panic!("expected array"),
    }
}

#[test]
fn decodes_nested_structures() {
    match load_data("{pts: [(1, 2), (3, 4)], on: true}").unwrap() {
        Variable::Object(entries) => {
            assert_eq!(entries.len(), 2);
            match &entries[0].val {
                Variable::Array(items) => assert_eq!(items.len(), 2),
                _ => panic!("expected array"),
            }
        }
        _ => panic!("expected object"),
    }
}
