//! Meta-data helpers: rendering parsed meta data as JSON text, and the
//! formatted source-range reports of the external meta parser.
//!
//! Meta data reaches the core as an array of items; each item is an array
//! of texts — the node kind, the node name, and for a leaf its value. The
//! JSON rendering emits the same shape as nested JSON string arrays.

use vstd::prelude::*;

verus! {

use crate::val::Variable;
use crate::val::Val;
use crate::val::val_of;
use crate::val::vals_of;
use crate::val::type_text;
use crate::val::spec_type_text;
use crate::val::lemma_vals_of_push;
use crate::val::lemma_vals_of_len;
use crate::val::lemma_vals_of_index;
use crate::rt::Runtime;
use crate::rt::CallFrame;
use crate::rt::ref_in;
use crate::rt::spec_resolve;
use crate::rt::resolve;
use crate::rt::tables_unchanged;
use crate::rt::arg_type_err;
use crate::rt::expected_msg;
use crate::num::trunc_u64_of;
use crate::num::bits_trunc_u64;
use crate::strutil::concat2;
use crate::strutil::concat3;
use vstd::string::StrSliceExecFns;
use vstd::string::StringExecFns;

/// The JSON escape of one character.
pub open spec fn esc_char(c: char) -> Seq<char> {
    if c == '"' {
        seq!['\\', '"']
    } else if c == '\\' {
        seq!['\\', '\\']
    } else if c == '\n' {
        seq!['\\', 'n']
    } else if c == '\r' {
        seq!['\\', 'r']
    } else if c == '\t' {
        seq!['\\', 't']
    } else {
        seq![c]
    }
}

/// The JSON escape of a text.
pub open spec fn json_escape(s: Seq<char>) -> Seq<char>
    decreases s.len(),
{
    if s.len() == 0 {
        Seq::empty()
    } else {
        esc_char(s.first()) + json_escape(s.drop_first())
    }
}

/// A JSON string literal: the escaped text in double quotes.
pub open spec fn json_string_of(s: Seq<char>) -> Seq<char> {
    seq!['"'] + json_escape(s) + seq!['"']
}

/// Escapes a text for JSON.
fn escape_text(s: &str) -> (r: String)
    ensures
        r@ == json_escape(s@),
{
    let n = s.unicode_len();
    let mut out = String::new();
    let mut i: usize = 0;
    proof {
        assert(json_escape(s@.take(0int)) =~= Seq::<char>::empty());
    }
    while i < n
        invariant
            i <= n == s@.len(),
            out@ == json_escape(s@.take(i as int)),
        decreases n - i,
    {
        proof {
            lemma_json_escape_take_step(s@, i as int);
        }
        let c = s.get_char(i);
        if c == '"' {
            out.append("\\\"");
            proof {
                reveal_strlit("\\\"");
                assert(out@ =~= json_escape(s@.take(i + 1)));
            }
        } else if c == '\\' {
            out.append("\\\\");
            proof {
                reveal_strlit("\\\\");
                assert(out@ =~= json_escape(s@.take(i + 1)));
            }
        } else if c == '\n' {
            out.append("\\n");
            proof {
                reveal_strlit("\\n");
                assert(out@ =~= json_escape(s@.take(i + 1)));
            }
        } else if c == '\r' {
            out.append("\\r");
            proof {
                reveal_strlit("\\r");
                assert(out@ =~= json_escape(s@.take(i + 1)));
            }
        } else if c == '\t' {
            out.append("\\t");
            proof {
                reveal_strlit("\\t");
                assert(out@ =~= json_escape(s@.take(i + 1)));
            }
        } else {
            let piece = s.substring_char(i, i + 1);
            out.append(piece);
            proof {
                assert(piece@ =~= seq![s@[i as int]]);
                assert(out@ =~= json_escape(s@.take(i + 1)));
            }
        }
        i = i + 1;
    }
    proof {
        assert(s@.take(n as int) =~= s@);
    }
    out
}

/// Escaping a prefix one character further appends that character's
/// escape.
proof fn lemma_json_escape_take_step(s: Seq<char>, i: int)
    requires
        0 <= i < s.len(),
    ensures
        json_escape(s.take(i + 1)) == json_escape(s.take(i)) + esc_char(s[i]),
    decreases i,
{
    if i == 0 {
        assert(s.take(1int).first() == s[0]);
        assert(s.take(1int).drop_first() =~= s.take(0int));
        assert(json_escape(s.take(0int)) =~= Seq::<char>::empty());
        assert(json_escape(s.take(1int)) =~= esc_char(s[0]) + json_escape(s.take(0int)));
        assert(json_escape(s.take(1int)) =~= json_escape(s.take(0int)) + esc_char(s[0]));
    } else {
        lemma_json_escape_take_step(s.drop_first(), i - 1);
        assert(s.take(i + 1).first() == s[0]);
        assert(s.take(i + 1).drop_first() =~= s.drop_first().take(i as int));
        assert(s.take(i).first() == s[0]);
        assert(s.take(i).drop_first() =~= s.drop_first().take(i - 1));
        assert(s.drop_first()[i - 1] == s[i]);
        assert(json_escape(s.take(i + 1)) == esc_char(s[0]) + json_escape(
            s.drop_first().take(i as int),
        ));
        assert(json_escape(s.take(i)) == esc_char(s[0]) + json_escape(s.drop_first().take(i - 1)));
        assert(json_escape(s.take(i + 1)) =~= json_escape(s.take(i)) + esc_char(s[i]));
    }
}

/// Renders a text as a JSON string literal.
pub fn json_quote(s: &str) -> (r: String)
    ensures
        r@ == json_string_of(s@),
{
    let body = escape_text(s);
    let r = concat3("\"", body.as_str(), "\"");
    proof {
        reveal_strlit("\"");
        assert(r@ =~= json_string_of(s@));
    }
    r
}

/// One source line of a diagnostic trace.
pub open spec fn frame_line(name: Seq<char>, source: Seq<char>) -> Seq<char> {
    "In function `"@ + name + "` ("@ + source + ")"@
}

/// The diagnostic trace of a call stack, innermost frame first.
pub open spec fn trace_text(frames: Seq<CallFrame>) -> Seq<char>
    decreases frames.len(),
{
    if frames.len() == 0 {
        Seq::empty()
    } else if frames.len() == 1 {
        frame_line(frames.last().fn_name@, frames.last().source@)
    } else {
        frame_line(frames.last().fn_name@, frames.last().source@) + "\n"@ + trace_text(
            frames.drop_last(),
        )
    }
}

/// Renders the trace of the innermost `i` frames.
fn trace_of(frames: &Vec<CallFrame>, i: usize) -> (r: String)
    requires
        i <= frames@.len(),
    ensures
        r@ == trace_text(frames@.take(i as int)),
    decreases i,
{
    if i == 0 {
        let r = String::new();
        proof {
            assert(frames@.take(0int).len() == 0);
            assert(r@ =~= trace_text(frames@.take(0int)));
        }
        r
    } else {
        let f = &frames[i - 1];
        let line = concat3("In function `", f.fn_name.as_str(), "` (");
        let line = concat3(line.as_str(), f.source.as_str(), ")");
        proof {
            assert(line@ =~= frame_line(f.fn_name@, f.source@));
            assert(frames@.take(i as int).last() == frames@[i - 1]);
            assert(frames@.take(i as int).drop_last() =~= frames@.take(i - 1));
        }
        if i == 1 {
            line
        } else {
            let rest = trace_of(frames, i - 1);
            let r = concat3(line.as_str(), "\n", rest.as_str());
            proof {
                assert(r@ =~= trace_text(frames@.take(i as int)));
            }
            r
        }
    }
}

/// Renders the call-stack trace, innermost frame first.
pub fn stack_trace(rt: &Runtime) -> (r: String)
    ensures
        r@ == trace_text(rt.call_stack@),
{
    let n = rt.call_stack.len();
    let r = trace_of(&rt.call_stack, n);
    proof {
        assert(rt.call_stack@.take(n as int) =~= rt.call_stack@);
    }
    r
}

/// The JSON of one meta item: a JSON array of the item's texts, or
/// nothing when the item is not an array of texts.
pub open spec fn item_json(v: Val) -> Option<Seq<char>> {
    match v {
        Val::Array(parts) => if forall|k: int| 0 <= k < parts.len() ==> (#[trigger] parts[k]) matches Val::Text(_) {
            Option::Some(seq!['['] + texts_json(parts) + seq![']'])
        } else {
            Option::None
        },
        _ => Option::None,
    }
}

/// The comma-joined JSON string literals of a sequence of text views.
pub open spec fn texts_json(parts: Seq<Val>) -> Seq<char>
    decreases parts.len(),
{
    if parts.len() == 0 {
        Seq::empty()
    } else {
        let t = match parts.last() {
            Val::Text(t) => t,
            _ => Seq::empty(),
        };
        if parts.len() == 1 {
            json_string_of(t)
        } else {
            texts_json(parts.drop_last()) + seq![','] + json_string_of(t)
        }
    }
}

/// The comma-joined JSON of the items, or the position of the first item
/// that is not an array of texts.
pub open spec fn items_json(items: Seq<Val>) -> Result<Seq<char>, int>
    decreases items.len(),
{
    if items.len() == 0 {
        Result::Ok(Seq::empty())
    } else {
        match items_json(items.drop_last()) {
            Result::Err(i) => Result::Err(i),
            Result::Ok(pre) => match item_json(items.last()) {
                Option::None => Result::Err(items.len() - 1),
                Option::Some(j) => if items.len() == 1 {
                    Result::Ok(j)
                } else {
                    Result::Ok(pre + seq![','] + j)
                },
            },
        }
    }
}

/// The report of a malformed meta item.
pub open spec fn bad_item_msg(trace: Seq<char>) -> Seq<char> {
    trace + "\nError when generating JSON:\nExpected meta item: an array of texts"@
}

/// Renders one meta item as JSON.
fn render_item(stack: &Vec<Variable>, item: &Variable) -> (r: Option<String>)
    requires
        ref_in(*item, stack@.len() as int),
    ensures
        match r {
            Option::Some(t) => item_json(val_of(spec_resolve(stack@, *item))) == Option::Some(t@),
            Option::None => item_json(val_of(spec_resolve(stack@, *item))) is None,
        },
{
    broadcast use lemma_vals_of_len, lemma_vals_of_index;

    let resolved = resolve(stack, item);
    let ghost gres = *resolved;
    match resolved {
        Variable::Array(parts) => {
            let ghost pv = vals_of(parts@);
            proof {
                assert(gres == spec_resolve(stack@, *item));
                assert(gres matches Variable::Array(p) && p@ == parts@);
                assert(val_of(gres) == Val::Array(pv));
            }
            let n = parts.len();
            let mut out = String::from_str("[");
            let mut k: usize = 0;
            proof {
                reveal_strlit("[");
                assert(out@ =~= seq!['['] + texts_json(pv.take(0int)));
            }
            while k < n
                invariant
                    k <= n == parts@.len(),
                    pv == vals_of(parts@),
                    val_of(spec_resolve(stack@, *item)) == Val::Array(pv),
                    pv.len() == n,
                    forall|x: int| 0 <= x < k ==> (#[trigger] pv[x]) matches Val::Text(_),
                    out@ == seq!['['] + texts_json(pv.take(k as int)),
                decreases n - k,
            {
                let t: &String;
                match &parts[k] {
                    Variable::Text(s) => {
                        t = s;
                    },
                    _ => {
                        proof {
                            lemma_vals_of_index(parts@, k as int);
                            assert(pv[k as int] == val_of(parts@[k as int]));
                            assert(!(pv[k as int] is Text));
                            assert(item_json(Val::Array(pv)) is None);
                        }
                        return Option::None;
                    },
                }
                proof {
                    lemma_vals_of_index(parts@, k as int);
                    assert(pv.take(k + 1).last() == pv[k as int]);
                    assert(pv.take(k + 1).drop_last() =~= pv.take(k as int));
                }
                if k > 0 {
                    out.append(",");
                    proof {
                        reveal_strlit(",");
                    }
                }
                let q = json_quote(t.as_str());
                out.append(q.as_str());
                proof {
                    assert(out@ =~= seq!['['] + texts_json(pv.take(k + 1)));
                }
                k = k + 1;
            }
            out.append("]");
            proof {
                reveal_strlit("]");
                assert(pv.take(n as int) =~= pv);
                assert(out@ =~= seq!['['] + texts_json(pv) + seq![']']);
            }
            Option::Some(out)
        },
        x => {
            proof {
                assert(!(val_of(spec_resolve(stack@, *item)) is Array));
            }
            Option::None
        },
    }
}

/// Pops an array of meta items and pushes their JSON rendering; a
/// malformed item is reported with the call-stack trace.
pub fn json_from_meta_data(rt: &mut Runtime) -> (r: Result<(), String>)
    requires
        old(rt).stack@.len() >= 1,
        ref_in(old(rt).stack@.last(), old(rt).stack@.len() - 1),
        (spec_resolve(old(rt).stack@.drop_last(), old(rt).stack@.last()) matches Variable::Array(
            items,
        ) ==> forall|i: int|
            0 <= i < items@.len() ==> ref_in(#[trigger] items@[i], old(rt).stack@.len() - 1)),
    ensures
        tables_unchanged(*old(rt), *final(rt)),
        ({
            let popped = old(rt).stack@.drop_last();
            let v = spec_resolve(popped, old(rt).stack@.last());
            match v {
                Variable::Array(items) => match items_json(
                    crate::dispatch::resolved_vals(popped, items@),
                ) {
                    Result::Ok(j) => r is Ok && vals_of(final(rt).stack@) == vals_of(popped).push(
                        Val::Text(seq!['['] + j + seq![']']),
                    ) && final(rt).arg_err_index == old(rt).arg_err_index,
                    Result::Err(_) => r matches Result::Err(m) && m@ == bad_item_msg(
                        trace_text(old(rt).call_stack@),
                    ) && final(rt).stack@ == popped,
                },
                _ => r matches Result::Err(m) && m@ == expected_msg(
                    "array"@,
                    spec_type_text(val_of(v)),
                ) && final(rt).stack@ == popped && final(rt).arg_err_index == Option::Some(0usize),
            }
        }),
{
    broadcast use lemma_vals_of_push, lemma_vals_of_len, lemma_vals_of_index;

    let v = rt.stack.pop().unwrap();
    let out: Option<String>;
    match resolve(&rt.stack, &v) {
        Variable::Array(items) => {
            let ghost iv = crate::dispatch::resolved_vals(rt.stack@, items@);
            let n = items.len();
            let mut body = String::new();
            let mut k: usize = 0;
            let mut good = true;
            proof {
                assert(items_json(iv.take(0int)) == Result::<Seq<char>, int>::Ok(
                    Seq::<char>::empty(),
                ));
                assert(body@ =~= Seq::<char>::empty());
            }
            while k < n && good
                invariant
                    k <= n == items@.len(),
                    iv == crate::dispatch::resolved_vals(rt.stack@, items@),
                    iv.len() == n,
                    forall|i: int|
                        0 <= i < items@.len() ==> ref_in(
                            #[trigger] items@[i],
                            rt.stack@.len() as int,
                        ),
                    good ==> items_json(iv.take(k as int)) == Result::<Seq<char>, int>::Ok(body@),
                    !good ==> items_json(iv) is Err,
                decreases n - k + (if good {
                    1int
                } else {
                    0int
                }),
            {
                proof {
                    assert(iv.take(k + 1).last() == iv[k as int]);
                    assert(iv.take(k + 1).drop_last() =~= iv.take(k as int));
                }
                let piece = render_item(&rt.stack, &items[k]);
                match piece {
                    Option::Some(j) => {
                        let ghost gj = j@;
                        let ghost pre_body = body@;
                        if k > 0 {
                            body.append(",");
                            proof {
                                reveal_strlit(",");
                            }
                        }
                        body.append(j.as_str());
                        proof {
                            if k == 0 {
                                assert(body@ =~= gj);
                            } else {
                                assert(body@ =~= pre_body + seq![','] + gj);
                            }
                            assert(items_json(iv.take(k + 1)) == Result::<Seq<char>, int>::Ok(
                                body@,
                            ));
                        }
                    },
                    Option::None => {
                        good = false;
                        proof {
                            lemma_items_json_err(iv, k as int);
                        }
                    },
                }
                k = k + 1;
            }
            if good {
                proof {
                    assert(iv.take(n as int) =~= iv);
                }
                let mut text = String::from_str("[");
                text.append(body.as_str());
                text.append("]");
                let ghost gt = text@;
                let nv = Variable::Text(text);
                let ghost gnv = nv;
                rt.stack.push(nv);
                proof {
                    reveal_strlit("[");
                    reveal_strlit("]");
                    assert(val_of(gnv) == Val::Text(gt));
                    assert(gt =~= seq!['['] + items_json(iv)->Ok_0 + seq![']']);
                }
                return Result::Ok(());
            }
            let t = stack_trace(&rt);
            let msg = concat2(
                t.as_str(),
                "\nError when generating JSON:\nExpected meta item: an array of texts",
            );
            proof {
                assert(msg@ =~= bad_item_msg(trace_text(old(rt).call_stack@)));
            }
            return Result::Err(msg);
        },
        x => {
            let found = type_text(x);
            let msg = arg_type_err(rt, 0, found, "array");
            return Result::Err(msg);
        },
    }
}

/// An item with no JSON makes the whole rendering fail.
proof fn lemma_items_json_err(items: Seq<Val>, k: int)
    requires
        0 <= k < items.len(),
        item_json(items[k]) is None,
    ensures
        items_json(items) is Err,
    decreases items.len(),
{
    if items.len() > 0 {
        if k == items.len() - 1 {
            assert(items.last() == items[k]);
        } else {
            lemma_items_json_err(items.drop_last(), k);
        }
    }
}

/// Relies on piston_meta's ParseErrorHandler::write_msg: the formatted
/// report of a message at a source range is a function of the source text,
/// the range and the message alone.
pub uninterp spec fn errstr_text(source: Seq<char>, start: usize, len: usize, msg: Seq<char>) -> Seq<
    char,
>;

/// Relies on piston_meta's ParseErrorHandler: formats a message at a byte
/// range of a source text, as the meta parser's own reports are formatted.
/// The range's end must fit the machine word: the handler adds `start` and
/// `len` when intersecting the range with a line.
#[verifier::external_body]
fn format_range_msg(source: &str, start: usize, len: usize, msg: &str) -> (r: String)
    requires
        start + len <= usize::MAX,
    ensures
        r@ == errstr_text(source@, start, len, msg@),
{
    let mut buf: Vec<u8> = vec![];
    piston_meta::ParseErrorHandler::new(source)
        .write_msg(&mut buf, piston_meta::Range::new(start, len), msg)
        .unwrap();
    String::from_utf8(buf).unwrap()
}

/// The length a range report is clamped to, so that the range's end fits
/// the machine word.
pub open spec fn clamped_range_len(start: usize, len: usize) -> usize {
    if start + len > usize::MAX {
        (usize::MAX - start) as usize
    } else {
        len
    }
}

/// Pops a message, a length, a start offset and a source text, and pushes
/// the formatted report of the message at that range of the source; a
/// length that would run the range past the machine word is clamped, so
/// the report never aborts.
pub fn errstr__string_start_len_msg(rt: &mut Runtime) -> (r: Result<(), String>)
    requires
        old(rt).stack@.len() >= 4,
        forall|j: int|
            old(rt).stack@.len() - 4 <= j < old(rt).stack@.len() ==> ref_in(
                #[trigger] old(rt).stack@[j],
                old(rt).stack@.len() - 4,
            ),
    ensures
        tables_unchanged(*old(rt), *final(rt)),
        ({
            let s0 = old(rt).stack@;
            let popped = s0.drop_last().drop_last().drop_last().drop_last();
            let msgv = spec_resolve(popped, s0.last());
            let lenv = spec_resolve(popped, s0[s0.len() - 2]);
            let startv = spec_resolve(popped, s0[s0.len() - 3]);
            let srcv = spec_resolve(popped, s0[s0.len() - 4]);
            match (msgv, lenv, startv, srcv) {
                (
                    Variable::Text(m),
                    Variable::F64(lb, _),
                    Variable::F64(sb, _),
                    Variable::Text(src),
                ) => r is Ok && vals_of(final(rt).stack@) == vals_of(popped).push(
                    Val::Text(
                        errstr_text(
                            src@,
                            crate::num::trunc_u64_of(sb) as usize,
                            clamped_range_len(
                                crate::num::trunc_u64_of(sb) as usize,
                                crate::num::trunc_u64_of(lb) as usize,
                            ),
                            m@,
                        ),
                    ),
                ) && final(rt).arg_err_index == old(rt).arg_err_index,
                _ => r is Err && final(rt).stack@ == popped,
            }
        }),
{
    broadcast use lemma_vals_of_push;

    let msgv = rt.stack.pop().unwrap();
    let lenv = rt.stack.pop().unwrap();
    let startv = rt.stack.pop().unwrap();
    let srcv = rt.stack.pop().unwrap();
    let msg_s: String;
    match resolve(&rt.stack, &msgv) {
        Variable::Text(t) => {
            msg_s = t.clone();
        },
        x => {
            let found = type_text(x);
            let m = arg_type_err(rt, 3, found, "str");
            return Result::Err(m);
        },
    }
    let len_b: u64;
    match resolve(&rt.stack, &lenv) {
        Variable::F64(b, _) => {
            len_b = *b;
        },
        x => {
            let found = type_text(x);
            let m = arg_type_err(rt, 2, found, "f64");
            return Result::Err(m);
        },
    }
    let start_b: u64;
    match resolve(&rt.stack, &startv) {
        Variable::F64(b, _) => {
            start_b = *b;
        },
        x => {
            let found = type_text(x);
            let m = arg_type_err(rt, 1, found, "f64");
            return Result::Err(m);
        },
    }
    let out: String;
    match resolve(&rt.stack, &srcv) {
        Variable::Text(src) => {
            let start = bits_trunc_u64(start_b) as usize;
            let len = bits_trunc_u64(len_b) as usize;
            let len = if len > usize::MAX - start {
                usize::MAX - start
            } else {
                len
            };
            out = format_range_msg(src.as_str(), start, len, msg_s.as_str());
        },
        x => {
            let found = type_text(x);
            let m = arg_type_err(rt, 0, found, "str");
            return Result::Err(m);
        },
    }
    let ghost gout = out@;
    let nv = Variable::Text(out);
    let ghost gnv = nv;
    rt.stack.push(nv);
    proof {
        assert(val_of(gnv) == Val::Text(gout));
    }
    Result::Ok(())
}

} // verus!
