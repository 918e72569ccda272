//! Rendering values as text for scripts and diagnostics.
//!
//! Texts render raw at the top level and as escaped, quoted literals
//! inside containers or under JSON escaping. Integer-valued numbers render
//! as decimals; any other finite number renders exactly in the form
//! `m*2^e` of its significand and binary exponent, so no rendering ever
//! loses information.

use vstd::prelude::*;

verus! {

use crate::val::Variable;
use crate::val::Val;
use crate::val::Entry;
use crate::val::val_of;
use crate::val::vals_of;
use crate::val::entry_vals_of;
use crate::num::is_nan_bits;
use crate::num::is_inf_bits;
use crate::num::is_int_bits;
use crate::num::int_of_bits;
use crate::num::sign_of;
use crate::num::exp_of;
use crate::num::frac_of;
use crate::num::nan_bits;
use crate::num::exp_field;
use crate::num::frac_field;
use crate::num::bits_to_int;
use crate::meta::json_string_of;
use crate::meta::json_quote;
use crate::strutil::dec_digits;
use crate::strutil::u64_to_string;
use crate::strutil::concat2;
use crate::strutil::concat3;
use vstd::string::StrSliceExecFns;
use vstd::string::StringExecFns;

/// The text of a number pattern: NaN and the infinities by name, integers
/// in decimal, and any other finite value exactly as significand times a
/// power of two.
pub open spec fn num_text(bits: u64) -> Seq<char> {
    if is_nan_bits(bits) {
        "NaN"@
    } else if is_inf_bits(bits) {
        if sign_of(bits) {
            "-inf"@
        } else {
            "inf"@
        }
    } else if is_int_bits(bits) {
        let n = int_of_bits(bits);
        if n < 0 {
            "-"@ + dec_digits((-n) as nat)
        } else {
            dec_digits(n as nat)
        }
    } else {
        let sign = if sign_of(bits) {
            "-"@
        } else {
            Seq::<char>::empty()
        };
        let m: nat = if exp_of(bits) == 0 {
            frac_of(bits) as nat
        } else {
            (0x10_0000_0000_0000 + frac_of(bits)) as nat
        };
        let e: int = if exp_of(bits) == 0 {
            -1074
        } else {
            exp_of(bits) - 1075
        };
        let etext = if e < 0 {
            "-"@ + dec_digits((-e) as nat)
        } else {
            dec_digits(e as nat)
        };
        sign + dec_digits(m) + "*2^"@ + etext
    }
}

/// Renders a number pattern.
pub fn render_num(bits: u64) -> (r: String)
    ensures
        r@ == num_text(bits),
{
    proof {
        vstd::arithmetic::power2::lemma2_to64();
        vstd::arithmetic::power2::lemma2_to64_rest();
    }
    if nan_bits(bits) {
        return "NaN".to_owned();
    }
    let e = exp_field(bits);
    let f = frac_field(bits);
    if e == 0x7ff {
        if bits / 0x8000_0000_0000_0000 == 1 {
            return "-inf".to_owned();
        }
        return "inf".to_owned();
    }
    match bits_to_int(bits) {
        Option::Some(n) => {
            if n < 0 {
                let digits = u64_to_string((-n) as u64);
                let r = concat2("-", digits.as_str());
                proof {
                    assert(r@ =~= num_text(bits));
                }
                r
            } else {
                let r = u64_to_string(n as u64);
                r
            }
        },
        Option::None => {
            let m: u64 = if e == 0 {
                f
            } else {
                0x10_0000_0000_0000 + f
            };
            let ex: u64 = if e == 0 {
                1074
            } else if e >= 1075 {
                e - 1075
            } else {
                1075 - e
            };
            let neg_e = e < 1075;
            let mut r = if bits / 0x8000_0000_0000_0000 == 1 {
                "-".to_owned()
            } else {
                String::new()
            };
            r.append(u64_to_string(m).as_str());
            r.append(if neg_e && ex > 0 {
                "*2^-"
            } else {
                "*2^"
            });
            r.append(u64_to_string(ex).as_str());
            proof {
                reveal_strlit("*2^");
                reveal_strlit("*2^-");
                reveal_strlit("-");
                assert("*2^-"@ =~= "*2^"@ + "-"@);
                assert(r@ =~= num_text(bits));
            }
            r
        },
    }
}

/// The text of a value. Texts render raw when `json` is off, escaped and
/// quoted when it is on; the elements of containers always render under
/// escaping, so nested texts stay unambiguous.
pub open spec fn val_text(v: Val, json: bool) -> Seq<char>
    decreases v, 1int,
{
    match v {
        Val::Num { bits, .. } => num_text(bits),
        Val::Bool { b, .. } => if b {
            "true"@
        } else {
            "false"@
        },
        Val::Text(t) => if json {
            json_string_of(t)
        } else {
            t
        },
        Val::Vec4(c) => "("@ + num_text(c[0]) + ", "@ + num_text(c[1]) + ", "@ + num_text(c[2])
            + ", "@ + num_text(c[3]) + ")"@,
        Val::Mat4(rows) => "mat4 {"@ + vec_rows_text(rows) + "}"@,
        Val::Array(items) => "["@ + items_text(items) + "]"@,
        Val::Object(es) => "{"@ + entries_text(es) + "}"@,
        Val::Link(items) => "link {"@ + link_items_text(items) + "}"@,
        Val::Opt(o) => match o {
            Option::None => "none()"@,
            Option::Some(inner) => "some("@ + val_text(*inner, true) + ")"@,
        },
        Val::Res(res) => match res {
            Result::Ok(inner) => "ok("@ + val_text(*inner, true) + ")"@,
            Result::Err(e) => "err("@ + val_text(*e.message, true) + ")"@,
        },
        Val::Closure { .. } => "closure"@,
        Val::Thread(_) => "thr"@,
        Val::In(_) => "in"@,
        Val::Rust(_) => "rust_object"@,
        Val::Ref(i) => "ref("@ + dec_digits(i) + ")"@,
        Val::UnsafeRef(i) => "unsafe_ref("@ + dec_digits(i) + ")"@,
        Val::Return => "return"@,
    }
}

/// The comma-joined texts of a sequence of values.
pub open spec fn items_text(items: Seq<Val>) -> Seq<char>
    decreases items, 0int,
{
    if items.len() == 0 {
        Seq::empty()
    } else if items.len() == 1 {
        val_text(items.last(), true)
    } else {
        items_text(items.drop_last()) + ", "@ + val_text(items.last(), true)
    }
}

/// The comma-joined `key: value` texts of an object's entries.
pub open spec fn entries_text(es: Seq<(Seq<char>, Val)>) -> Seq<char>
    decreases es, 0int,
{
    if es.len() == 0 {
        Seq::empty()
    } else if es.len() == 1 {
        es.last().0 + ": "@ + val_text(es.last().1, true)
    } else {
        entries_text(es.drop_last()) + ", "@ + es.last().0 + ": "@ + val_text(es.last().1, true)
    }
}

/// The space-joined texts of a link's items.
pub open spec fn link_items_text(items: Seq<Val>) -> Seq<char>
    decreases items, 0int,
{
    if items.len() == 0 {
        Seq::empty()
    } else if items.len() == 1 {
        val_text(items.last(), true)
    } else {
        link_items_text(items.drop_last()) + " "@ + val_text(items.last(), true)
    }
}

/// The semicolon-joined row texts of a matrix.
pub open spec fn vec_rows_text(rows: Seq<Seq<u64>>) -> Seq<char>
    decreases rows.len(),
{
    if rows.len() == 0 {
        Seq::empty()
    } else if rows.len() == 1 {
        row_text(rows.last())
    } else {
        vec_rows_text(rows.drop_last()) + "; "@ + row_text(rows.last())
    }
}

/// The text of one matrix row.
pub open spec fn row_text(c: Seq<u64>) -> Seq<char> {
    "("@ + num_text(c[0]) + ", "@ + num_text(c[1]) + ", "@ + num_text(c[2]) + ", "@ + num_text(
        c[3],
    ) + ")"@
}

/// Renders one matrix row.
fn render_row(c: &[u64; 4]) -> (r: String)
    ensures
        r@ == row_text(c@),
{
    let mut r = String::from_str("(");
    r.append(render_num(c[0]).as_str());
    r.append(", ");
    r.append(render_num(c[1]).as_str());
    r.append(", ");
    r.append(render_num(c[2]).as_str());
    r.append(", ");
    r.append(render_num(c[3]).as_str());
    r.append(")");
    proof {
        reveal_strlit("(");
        reveal_strlit(", ");
        reveal_strlit(")");
        assert(r@ =~= row_text(c@));
    }
    r
}


/// Renders the elements of an array, comma-joined.
fn render_items_vec(items: &Vec<Variable>) -> (r: String)
    ensures
        r@ == items_text(vals_of(items@)),
    decreases *items, 0int,
{
    let ghost iv = vals_of(items@);
    let n = items.len();
    let mut r = String::new();
    let mut k: usize = 0;
    proof {
        crate::val::lemma_vals_of_len(items@);
        assert(items_text(iv.take(0int)) =~= Seq::<char>::empty());
        assert(r@ =~= items_text(iv.take(0int)));
    }
    while k < n
        invariant
            k <= n == items@.len(),
            iv == vals_of(items@),
            iv.len() == n,
            r@ == items_text(iv.take(k as int)),
        decreases n - k,
    {
        proof {
            crate::val::lemma_vals_of_index(items@, k as int);
            assert(iv.take(k + 1).last() == iv[k as int]);
            assert(iv.take(k + 1).drop_last() =~= iv.take(k as int));
        }
        if k > 0 {
            r.append(", ");
            proof {
                reveal_strlit(", ");
            }
        }
        let piece = render_value(&items[k], true);
        r.append(piece.as_str());
        proof {
            assert(r@ =~= items_text(iv.take(k + 1)));
        }
        k = k + 1;
    }
    proof {
        assert(iv.take(n as int) =~= iv);
    }
    r
}

/// Renders the entries of an object, comma-joined.
fn render_entries_vec(es: &Vec<Entry>) -> (r: String)
    ensures
        r@ == entries_text(entry_vals_of(es@)),
    decreases *es, 0int,
{
    let ghost ev = entry_vals_of(es@);
    let n = es.len();
    let mut r = String::new();
    let mut k: usize = 0;
    proof {
        crate::val::lemma_entry_vals_of_len(es@);
        assert(entries_text(ev.take(0int)) =~= Seq::<char>::empty());
        assert(r@ =~= entries_text(ev.take(0int)));
    }
    while k < n
        invariant
            k <= n == es@.len(),
            ev == entry_vals_of(es@),
            ev.len() == n,
            r@ == entries_text(ev.take(k as int)),
        decreases n - k,
    {
        proof {
            crate::val::lemma_entry_vals_of_index(es@, k as int);
            assert(ev.take(k + 1).last() == ev[k as int]);
            assert(ev.take(k + 1).drop_last() =~= ev.take(k as int));
        }
        if k > 0 {
            r.append(", ");
            proof {
                reveal_strlit(", ");
            }
        }
        let e = &es[k];
        r.append(e.key.as_str());
        r.append(": ");
        let piece = render_value(&e.val, true);
        r.append(piece.as_str());
        proof {
            reveal_strlit(": ");
            assert(r@ =~= entries_text(ev.take(k + 1)));
        }
        k = k + 1;
    }
    proof {
        assert(ev.take(n as int) =~= ev);
    }
    r
}

/// Renders the items of a link, space-joined.
fn render_link_body(l: &crate::link::Link) -> (r: String)
    ensures
        r@ == link_items_text(crate::link::link_view(*l)),
    decreases *l, 0int,
{
    let ghost iv = crate::link::link_view(*l);
    let n = crate::link::link_len(l);
    let mut r = String::new();
    let mut k: usize = 0;
    proof {
        assert(link_items_text(iv.take(0int)) =~= Seq::<char>::empty());
        assert(r@ =~= link_items_text(iv.take(0int)));
    }
    while k < n
        invariant
            k <= n == iv.len(),
            iv == crate::link::link_view(*l),
            r@ == link_items_text(iv.take(k as int)),
        decreases n - k,
    {
        proof {
            assert(iv.take(k + 1).last() == iv[k as int]);
            assert(iv.take(k + 1).drop_last() =~= iv.take(k as int));
        }
        if k > 0 {
            r.append(" ");
            proof {
                reveal_strlit(" ");
            }
        }
        let item = crate::link::link_item(l, k);
        let piece = render_value(item, true);
        r.append(piece.as_str());
        proof {
            assert(r@ =~= link_items_text(iv.take(k + 1)));
        }
        k = k + 1;
    }
    proof {
        assert(iv.take(n as int) =~= iv);
    }
    r
}

/// Renders a matrix.
#[verifier::rlimit(100)]
#[verifier::spinoff_prover]
fn render_mat(m: &Box<[[u64; 4]; 4]>) -> (r: String)
    ensures
        r@ == "mat4 {"@ + vec_rows_text(Seq::new(4, |i: int| m@[i]@)) + "}"@,
{
    let mut r = String::from_str("mat4 {");
    r.append(render_row(&m[0]).as_str());
    r.append("; ");
    r.append(render_row(&m[1]).as_str());
    r.append("; ");
    r.append(render_row(&m[2]).as_str());
    r.append("; ");
    r.append(render_row(&m[3]).as_str());
    r.append("}");
    proof {
        reveal_strlit("; ");
        reveal_strlit("mat4 {");
        reveal_strlit("}");
        let rows = Seq::new(4, |i: int| m@[i]@);
        let r3 = Seq::new(3, |i: int| m@[i]@);
        let r2 = Seq::new(2, |i: int| m@[i]@);
        let r1 = Seq::new(1, |i: int| m@[i]@);
        assert(rows.drop_last() =~= r3);
        assert(r3.drop_last() =~= r2);
        assert(r2.drop_last() =~= r1);
        assert(vec_rows_text(r1) == row_text(r1.last()));
        assert(vec_rows_text(r2) == vec_rows_text(r2.drop_last()) + "; "@ + row_text(r2.last()));
        assert(vec_rows_text(r3) == vec_rows_text(r3.drop_last()) + "; "@ + row_text(r3.last()));
        assert(vec_rows_text(rows) == vec_rows_text(rows.drop_last()) + "; "@ + row_text(
            rows.last(),
        ));
        assert(r@ =~= "mat4 {"@ + vec_rows_text(rows) + "}"@);
    }
    r
}

/// Renders a value as text.
#[verifier::rlimit(100)]
#[verifier::spinoff_prover]
pub fn render_value(v: &Variable, json: bool) -> (r: String)
    ensures
        r@ == val_text(val_of(*v), json),
    decreases *v, 1int,
{
    proof {
        reveal_strlit("(");
        reveal_strlit(")");
        reveal_strlit(", ");
        reveal_strlit("[");
        reveal_strlit("]");
        reveal_strlit("{");
        reveal_strlit("}");
        reveal_strlit("mat4 {");
        reveal_strlit("link {");
    }
    match v {
        Variable::F64(bits, _) => render_num(*bits),
        Variable::Bool(b, _) => {
            if *b {
                "true".to_owned()
            } else {
                "false".to_owned()
            }
        },
        Variable::Text(t) => {
            if json {
                json_quote(t.as_str())
            } else {
                t.clone()
            }
        },
        Variable::Vec4(c) => {
            let r = render_row(c);
            proof {
                assert(r@ =~= val_text(val_of(*v), json));
            }
            r
        },
        Variable::Mat4(m) => {
            let r = render_mat(m);
            proof {
                assert(r@ =~= val_text(val_of(*v), json));
            }
            r
        },
        Variable::Array(items) => {
            let body = render_items_vec(items);
            let r = concat3("[", body.as_str(), "]");
            proof {
                assert(r@ =~= val_text(val_of(*v), json));
            }
            r
        },
        Variable::Object(es) => {
            let body = render_entries_vec(es);
            let r = concat3("{", body.as_str(), "}");
            proof {
                assert(r@ =~= val_text(val_of(*v), json));
            }
            r
        },
        Variable::Link(l) => {
            let body = render_link_body(l);
            let r = concat3("link {", body.as_str(), "}");
            proof {
                assert(val_of(*v)->Link_0 == crate::link::link_view(*l));
                assert(r@ =~= val_text(val_of(*v), json));
            }
            r
        },
        Variable::Option(o) => match o {
            Option::None => {
                let r = "none()".to_owned();
                r
            },
            Option::Some(inner) => {
                let piece = render_value(&**inner, true);
                let r = concat3("some(", piece.as_str(), ")");
                proof {
                    reveal_strlit("some(");
                    assert(r@ =~= val_text(val_of(*v), json));
                }
                r
            },
        },
        Variable::Result(res) => match res {
            Result::Ok(inner) => {
                let piece = render_value(&**inner, true);
                let r = concat3("ok(", piece.as_str(), ")");
                proof {
                    reveal_strlit("ok(");
                    assert(r@ =~= val_text(val_of(*v), json));
                }
                r
            },
            Result::Err(e) => {
                let piece = render_value(&e.message, true);
                let r = concat3("err(", piece.as_str(), ")");
                proof {
                    reveal_strlit("err(");
                    assert(r@ =~= val_text(val_of(*v), json));
                }
                r
            },
        },
        Variable::Closure(_) => "closure".to_owned(),
        Variable::Thread(_) => "thr".to_owned(),
        Variable::In(_) => "in".to_owned(),
        Variable::RustObject(_) => "rust_object".to_owned(),
        Variable::Ref(i) => {
            let digits = u64_to_string(*i as u64);
            let r = concat3("ref(", digits.as_str(), ")");
            proof {
                reveal_strlit("ref(");
                assert(r@ =~= val_text(val_of(*v), json));
            }
            r
        },
        Variable::UnsafeRef(i) => {
            let digits = u64_to_string(*i as u64);
            let r = concat3("unsafe_ref(", digits.as_str(), ")");
            proof {
                reveal_strlit("unsafe_ref(");
                assert(r@ =~= val_text(val_of(*v), json));
            }
            r
        },
        Variable::Return => "return".to_owned(),
    }
}


/// The appended trace lines of a failure diagnostic.
pub open spec fn trace_lines_text(trace: Seq<Seq<char>>) -> Seq<char>
    decreases trace.len(),
{
    if trace.len() == 0 {
        Seq::empty()
    } else {
        trace_lines_text(trace.drop_last()) + "\n"@ + trace.last()
    }
}

/// The full diagnostic of unwrapping a failure: the call-stack trace, the
/// failure's message rendered as text, then each trace line in order.
pub open spec fn unwrap_failure_text(
    frames: Seq<crate::rt::CallFrame>,
    message: Val,
    trace: Seq<Seq<char>>,
) -> Seq<char> {
    crate::meta::trace_text(frames) + "\n"@ + val_text(message, false) + trace_lines_text(trace)
}

/// The report of unwrapping an absent option.
pub open spec fn expected_some_msg() -> Seq<char> {
    "Expected `some(_)`"@
}

/// Pops a wrapped value and pushes a clone of the inside of a present
/// option or success result. An absent option is a reported user error; a
/// failure result fails with the full diagnostic: the call-stack trace,
/// the message rendered as text, and every trace line in order.
pub fn unwrap(rt: &mut crate::rt::Runtime) -> (r: Result<(), String>)
    requires
        old(rt).stack@.len() >= 1,
        crate::rt::ref_in(old(rt).stack@.last(), old(rt).stack@.len() - 1),
    ensures
        crate::rt::tables_unchanged(*old(rt), *final(rt)),
        ({
            let popped = old(rt).stack@.drop_last();
            let v = crate::rt::spec_resolve(popped, old(rt).stack@.last());
            match v {
                Variable::Option(Option::Some(inner)) => r is Ok && vals_of(final(rt).stack@)
                    == vals_of(popped).push(val_of(*inner)) && final(rt).arg_err_index == old(
                    rt,
                ).arg_err_index,
                Variable::Result(Result::Ok(inner)) => r is Ok && vals_of(final(rt).stack@)
                    == vals_of(popped).push(val_of(*inner)) && final(rt).arg_err_index == old(
                    rt,
                ).arg_err_index,
                Variable::Option(Option::None) => r matches Result::Err(m) && m@
                    == expected_some_msg() && final(rt).stack@ == popped && final(rt).arg_err_index
                    == Option::Some(0usize),
                Variable::Result(Result::Err(e)) => r matches Result::Err(m) && m@
                    == unwrap_failure_text(
                    old(rt).call_stack@,
                    val_of(e.message),
                    e.trace.deep_view(),
                ) && final(rt).stack@ == popped && final(rt).arg_err_index == Option::Some(0usize),
                _ => r matches Result::Err(m) && m@ == crate::rt::expected_msg(
                    "some(_) or ok(_)"@,
                    crate::val::spec_type_text(val_of(v)),
                ) && final(rt).stack@ == popped && final(rt).arg_err_index == Option::Some(0usize),
            }
        }),
{
    broadcast use crate::val::lemma_vals_of_push;

    let v = rt.stack.pop().unwrap();
    let found;
    match crate::rt::resolve(&rt.stack, &v) {
        Variable::Option(Option::Some(inner)) => {
            let c = crate::val::deep_clone(&**inner);
            rt.stack.push(c);
            return Result::Ok(());
        },
        Variable::Result(Result::Ok(inner)) => {
            let c = crate::val::deep_clone(&**inner);
            rt.stack.push(c);
            return Result::Ok(());
        },
        Variable::Option(Option::None) => {
            rt.arg_err_index = Option::Some(0);
            return Result::Err("Expected `some(_)`".to_owned());
        },
        Variable::Result(Result::Err(e)) => {
            let ghost gtrace = e.trace.deep_view();
            let mut msg = crate::meta::stack_trace(&rt);
            msg.append("\n");
            let rendered = render_value(&e.message, false);
            msg.append(rendered.as_str());
            proof {
                reveal_strlit("\n");
                assert(trace_lines_text(gtrace.take(0int)) =~= Seq::<char>::empty());
            }
            let n = e.trace.len();
            let mut k: usize = 0;
            while k < n
                invariant
                    k <= n == e.trace@.len(),
                    gtrace == e.trace.deep_view(),
                    gtrace.len() == n,
                    msg@ == crate::meta::trace_text(rt.call_stack@) + "\n"@ + val_text(
                        val_of(e.message),
                        false,
                    ) + trace_lines_text(gtrace.take(k as int)),
                decreases n - k,
            {
                proof {
                    reveal_strlit("\n");
                    assert(gtrace.take(k + 1).last() == gtrace[k as int]);
                    assert(gtrace.take(k + 1).drop_last() =~= gtrace.take(k as int));
                    assert(gtrace[k as int] == e.trace@[k as int]@);
                }
                msg.append("\n");
                msg.append(e.trace[k].as_str());
                k = k + 1;
            }
            proof {
                assert(gtrace.take(n as int) =~= gtrace);
            }
            rt.arg_err_index = Option::Some(0);
            return Result::Err(msg);
        },
        x => {
            found = crate::val::type_text(x);
        },
    }
    let msg = crate::rt::arg_type_err(rt, 0, found, "some(_) or ok(_)");
    Result::Err(msg)
}

/// Pops a value and pushes its plain text: texts stay raw at the top
/// level.
pub fn _str(rt: &mut crate::rt::Runtime) -> (r: Result<(), String>)
    requires
        old(rt).stack@.len() >= 1,
        crate::rt::ref_in(old(rt).stack@.last(), old(rt).stack@.len() - 1),
    ensures
        r is Ok,
        crate::rt::tables_unchanged(*old(rt), *final(rt)),
        final(rt).arg_err_index == old(rt).arg_err_index,
        vals_of(final(rt).stack@) == vals_of(old(rt).stack@.drop_last()).push(
            Val::Text(
                val_text(
                    val_of(
                        crate::rt::spec_resolve(
                            old(rt).stack@.drop_last(),
                            old(rt).stack@.last(),
                        ),
                    ),
                    false,
                ),
            ),
        ),
{
    broadcast use crate::val::lemma_vals_of_push;

    let v = rt.stack.pop().unwrap();
    let t = render_value(crate::rt::resolve(&rt.stack, &v), false);
    rt.stack.push(Variable::Text(t));
    Result::Ok(())
}

/// Pops a value and pushes its text under JSON escaping: texts are quoted
/// and escaped at every level.
pub fn json_string(rt: &mut crate::rt::Runtime) -> (r: Result<(), String>)
    requires
        old(rt).stack@.len() >= 1,
        crate::rt::ref_in(old(rt).stack@.last(), old(rt).stack@.len() - 1),
    ensures
        r is Ok,
        crate::rt::tables_unchanged(*old(rt), *final(rt)),
        final(rt).arg_err_index == old(rt).arg_err_index,
        vals_of(final(rt).stack@) == vals_of(old(rt).stack@.drop_last()).push(
            Val::Text(
                val_text(
                    val_of(
                        crate::rt::spec_resolve(
                            old(rt).stack@.drop_last(),
                            old(rt).stack@.last(),
                        ),
                    ),
                    true,
                ),
            ),
        ),
{
    broadcast use crate::val::lemma_vals_of_push;

    let v = rt.stack.pop().unwrap();
    let t = render_value(crate::rt::resolve(&rt.stack, &v), true);
    rt.stack.push(Variable::Text(t));
    Result::Ok(())
}

} // verus!
