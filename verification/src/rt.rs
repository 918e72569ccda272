//! The call-frame runtime: the operand stack, the call-frame records, the
//! current module, and the per-argument diagnostics slot, together with the
//! value intrinsics that read and write the stack.
//!
//! Stack references resolve against the stack on every use and are never
//! followed past one step. A reported argument error records which argument
//! was at fault in `arg_err_index`, as the surrounding interpreter expects.

use vstd::prelude::*;

verus! {

use crate::val::Variable;
use crate::val::Val;
use crate::val::val_of;
use crate::val::vals_of;
use crate::val::deep_clone;
use crate::val::type_text;
use crate::val::spec_type_text;
use crate::val::lemma_vals_of_push;
use crate::val::lemma_vals_of_len;
use crate::val::lemma_vals_of_index;
use crate::module::Module;
use crate::num::trunc_u64_of;
use crate::num::bits_trunc_u64;
use crate::num::unit_interval_bits;
use crate::num::unit_to_bits;
use crate::strutil::concat3;
use crate::strutil::u64_to_string;
use crate::strutil::dec_digits;
use vstd::string::StrSliceExecFns;
use vstd::string::StringExecFns;
use std::rc::Rc;

/// One call-frame record: which function runs and which source text its
/// diagnostics cite.
pub struct CallFrame {
    pub index: usize,
    pub fn_name: String,
    pub source: String,
}

/// The modeled state of one inbound channel: the messages delivered by the
/// host but not yet taken, whether the sending side has closed, and whether
/// the host-side guard has been poisoned.
pub struct Channel {
    pub queue: Vec<Variable>,
    pub closed: bool,
    pub poisoned: bool,
}

/// One logical thread of script execution.
pub struct Runtime {
    /// The operand stack.
    pub stack: Vec<Variable>,
    /// The call-frame records, innermost last.
    pub call_stack: Vec<CallFrame>,
    /// The module the current execution runs in.
    pub module: Rc<Module>,
    /// Which argument a just-reported error blames, if any.
    pub arg_err_index: Option<usize>,
    /// Background tasks: true while a task's handle is still joinable.
    pub threads: Vec<bool>,
    /// Inbound channels by handle index.
    pub channels: Vec<Channel>,
}

/// Whether a value's stack reference, if it is one, stays within `n` slots.
pub open spec fn ref_in(v: Variable, n: int) -> bool {
    match v {
        Variable::Ref(i) => i < n,
        _ => true,
    }
}

/// One-step resolution of a stack reference against a stack.
pub open spec fn spec_resolve(stack: Seq<Variable>, v: Variable) -> Variable {
    match v {
        Variable::Ref(i) => if i < stack.len() {
            stack[i as int]
        } else {
            v
        },
        _ => v,
    }
}

/// The parts of a runtime that plain stack intrinsics never touch.
pub open spec fn tables_unchanged(a: Runtime, b: Runtime) -> bool {
    &&& b.call_stack == a.call_stack
    &&& b.module == a.module
    &&& b.threads == a.threads
    &&& b.channels == a.channels
}

/// Resolves a value against the stack: a reference reads its slot, any
/// other value stands for itself.
pub fn resolve<'a>(stack: &'a Vec<Variable>, v: &'a Variable) -> (r: &'a Variable)
    requires
        ref_in(*v, stack@.len() as int),
    ensures
        *r == spec_resolve(stack@, *v),
{
    match v {
        Variable::Ref(i) => &stack[*i],
        _ => v,
    }
}

/// The text of a wrong-argument-type report.
pub open spec fn expected_msg(expected: Seq<char>, found: Seq<char>) -> Seq<char> {
    "Expected `"@ + expected + "`, found `"@ + found + "`"@
}

/// Reports a wrong argument: records which argument was at fault and
/// renders the expected and found type names.
pub fn arg_type_err(rt: &mut Runtime, index: usize, found: &'static str, expected: &str) -> (r:
    String)
    ensures
        final(rt).stack == old(rt).stack,
        tables_unchanged(*old(rt), *final(rt)),
        final(rt).arg_err_index == Option::Some(index),
        r@ == expected_msg(expected@, found@),
{
    rt.arg_err_index = Option::Some(index);
    let mut s = concat3("Expected `", expected, "`, found `");
    s.append(found);
    s.append("`");
    proof {
        assert(s@ =~= expected_msg(expected@, found@));
    }
    s
}

/// The text of the out-of-bounds report for an index.
pub open spec fn index_oob_msg(i: nat) -> Seq<char> {
    "Index out of bounds `"@ + dec_digits(i) + "`"@
}

/// Renders the out-of-bounds report for an index.
pub fn index_oob_err(i: u64) -> (r: String)
    ensures
        r@ == index_oob_msg(i as nat),
{
    let digits = u64_to_string(i);
    let r = concat3("Index out of bounds `", digits.as_str(), "`");
    proof {
        assert(r@ =~= index_oob_msg(i as nat));
    }
    r
}

/// Replaces the top of the stack by a deep clone of what it resolves to.
pub fn clone(rt: &mut Runtime) -> (r: Result<(), String>)
    requires
        old(rt).stack@.len() >= 1,
        ref_in(old(rt).stack@.last(), old(rt).stack@.len() - 1),
    ensures
        r is Ok,
        tables_unchanged(*old(rt), *final(rt)),
        final(rt).arg_err_index == old(rt).arg_err_index,
        vals_of(final(rt).stack@) == vals_of(old(rt).stack@.drop_last()).push(
            val_of(spec_resolve(old(rt).stack@.drop_last(), old(rt).stack@.last())),
        ),
{
    broadcast use lemma_vals_of_push;

    let v = rt.stack.pop().unwrap();
    let c = deep_clone(resolve(&rt.stack, &v));
    rt.stack.push(c);
    Result::Ok(())
}

/// The report for reading a chain that was never attached.
pub open spec fn no_chain_msg() -> Seq<char> {
    "This does not make sense, perhaps an array is empty?"@
}

/// The report for asking a false boolean why it holds.
pub open spec fn false_why_msg() -> Seq<char> {
    "Must be `true` to have meaning, try add or remove `!`"@
}

/// What `why` leaves behind, as a function of the resolved argument.
pub open spec fn why_outcome(stack: Seq<Variable>, v: Variable) -> Result<Seq<Val>, (
    Option<usize>,
    Seq<char>,
)> {
    match v {
        Variable::Bool(true, Option::Some(sec)) => Result::Ok(vals_of(sec@)),
        Variable::Bool(true, Option::None) => Result::Err((Option::Some(0usize), no_chain_msg())),
        Variable::Bool(false, _) => Result::Err((Option::Some(0usize), false_why_msg())),
        _ => Result::Err(
            (Option::Some(0usize), expected_msg("bool"@, spec_type_text(val_of(v)))),
        ),
    }
}

/// Pops a boolean and pushes its provenance chain as an array, oldest
/// explanation first — the order the explanations were attached in. The
/// boolean must be true and must carry a chain; anything else is a
/// reported user error.
pub fn why(rt: &mut Runtime) -> (r: Result<(), String>)
    requires
        old(rt).stack@.len() >= 1,
        ref_in(old(rt).stack@.last(), old(rt).stack@.len() - 1),
    ensures
        tables_unchanged(*old(rt), *final(rt)),
        ({
            let popped = old(rt).stack@.drop_last();
            let v = spec_resolve(popped, old(rt).stack@.last());
            match why_outcome(popped, v) {
                Result::Ok(chain) => r is Ok && vals_of(final(rt).stack@) == vals_of(popped).push(
                    Val::Array(chain),
                ) && final(rt).arg_err_index == old(rt).arg_err_index,
                Result::Err((idx, msg)) => r matches Result::Err(m) && m@ == msg && final(rt).stack@ == popped && final(rt).arg_err_index == idx,
            }
        }),
{
    broadcast use lemma_vals_of_push;

    let v = rt.stack.pop().unwrap();
    let found;
    match resolve(&rt.stack, &v) {
        Variable::Bool(true, Option::Some(sec)) => {
            let arr = crate::val::deep_clone_vec(sec);
            rt.stack.push(Variable::Array(arr));
            return Result::Ok(());
        },
        Variable::Bool(true, Option::None) => {
            rt.arg_err_index = Option::Some(0);
            return Result::Err("This does not make sense, perhaps an array is empty?".to_owned());
        },
        Variable::Bool(false, _) => {
            rt.arg_err_index = Option::Some(0);
            return Result::Err("Must be `true` to have meaning, try add or remove `!`".to_owned());
        },
        x => {
            found = type_text(x);
        },
    }
    let msg = arg_type_err(rt, 0, found, "bool");
    Result::Err(msg)
}

/// The report for reading where a NaN number comes from.
pub open spec fn nan_where_msg() -> Seq<char> {
    "Expected number, found `NaN`"@
}

/// What `_where` leaves behind, as a function of the resolved argument.
pub open spec fn where_outcome(stack: Seq<Variable>, v: Variable) -> Result<Seq<Val>, (
    Option<usize>,
    Seq<char>,
)> {
    match v {
        Variable::F64(bits, Option::Some(sec)) => if crate::num::is_nan_bits(bits) {
            Result::Err((Option::Some(0usize), nan_where_msg()))
        } else {
            Result::Ok(vals_of(sec@))
        },
        Variable::F64(_, Option::None) => Result::Err((Option::Some(0usize), no_chain_msg())),
        _ => Result::Err(
            (Option::Some(0usize), expected_msg("f64"@, spec_type_text(val_of(v)))),
        ),
    }
}

/// Pops a number and pushes its provenance chain as an array, oldest
/// explanation first — the order the explanations were attached in. A NaN
/// can never have its chain read; a number without a chain is a reported
/// user error.
pub fn _where(rt: &mut Runtime) -> (r: Result<(), String>)
    requires
        old(rt).stack@.len() >= 1,
        ref_in(old(rt).stack@.last(), old(rt).stack@.len() - 1),
    ensures
        tables_unchanged(*old(rt), *final(rt)),
        ({
            let popped = old(rt).stack@.drop_last();
            let v = spec_resolve(popped, old(rt).stack@.last());
            match where_outcome(popped, v) {
                Result::Ok(chain) => r is Ok && vals_of(final(rt).stack@) == vals_of(popped).push(
                    Val::Array(chain),
                ) && final(rt).arg_err_index == old(rt).arg_err_index,
                Result::Err((idx, msg)) => r matches Result::Err(m) && m@ == msg && final(rt).stack@ == popped && final(rt).arg_err_index == idx,
            }
        }),
{
    broadcast use lemma_vals_of_push;

    let v = rt.stack.pop().unwrap();
    let found;
    match resolve(&rt.stack, &v) {
        Variable::F64(bits, Option::Some(sec)) => {
            if crate::num::nan_bits(*bits) {
                rt.arg_err_index = Option::Some(0);
                return Result::Err("Expected number, found `NaN`".to_owned());
            }
            let arr = crate::val::deep_clone_vec(sec);
            rt.stack.push(Variable::Array(arr));
            return Result::Ok(());
        },
        Variable::F64(_, Option::None) => {
            rt.arg_err_index = Option::Some(0);
            return Result::Err("This does not make sense, perhaps an array is empty?".to_owned());
        },
        x => {
            found = type_text(x);
        },
    }
    let msg = arg_type_err(rt, 0, found, "f64");
    Result::Err(msg)
}

/// What attaching an explanation leaves as the new chain.
pub open spec fn attached_chain(old_why: Option<Seq<Val>>, e: Val) -> Seq<Val> {
    match old_why {
        Option::None => seq![e],
        Option::Some(c) => c.push(e),
    }
}

/// Pops an explanation and a boolean, and pushes the boolean carrying the
/// explanation appended to its chain (or starting one). Chains are
/// append-only: earlier entries never change. Attaching to a false boolean
/// is a reportable user error: a false claim has no reason to give.
pub fn explain_why(rt: &mut Runtime) -> (r: Result<(), String>)
    requires
        old(rt).stack@.len() >= 2,
        ref_in(old(rt).stack@[old(rt).stack@.len() - 2], old(rt).stack@.len() - 2),
        ref_in(old(rt).stack@.last(), old(rt).stack@.len() - 2),
    ensures
        tables_unchanged(*old(rt), *final(rt)),
        ({
            let s0 = old(rt).stack@;
            let wv = s0.last();
            let popped = s0.drop_last().drop_last();
            let v = spec_resolve(popped, s0[s0.len() - 2]);
            match v {
                Variable::Bool(true, why) => r is Ok && vals_of(final(rt).stack@) == vals_of(
                    popped,
                ).push(
                    Val::Bool {
                        b: true,
                        why: Option::Some(
                            attached_chain(
                                crate::val::chain_view(why),
                                val_of(spec_resolve(popped, wv)),
                            ),
                        ),
                    },
                ) && final(rt).arg_err_index == old(rt).arg_err_index,
                Variable::Bool(false, _) => r matches Result::Err(m) && m@ == false_why_msg()
                    && final(rt).stack@ == popped && final(rt).arg_err_index == Option::Some(
                    0usize,
                ),
                _ => r matches Result::Err(m) && m@ == expected_msg(
                    "bool"@,
                    spec_type_text(val_of(v)),
                ) && final(rt).stack@ == popped && final(rt).arg_err_index == Option::Some(0usize),
            }
        }),
{
    broadcast use lemma_vals_of_push;

    let wv = rt.stack.pop().unwrap();
    let v = rt.stack.pop().unwrap();
    let found;
    match resolve(&rt.stack, &v) {
        Variable::Bool(false, _) => {
            rt.arg_err_index = Option::Some(0);
            return Result::Err("Must be `true` to have meaning, try add or remove `!`".to_owned());
        },
        Variable::Bool(b, why) => {
            let b = *b;
            let ghost old_chain = crate::val::chain_view(*why);
            let mut chain: Vec<Variable> = match why {
                Option::None => Vec::new(),
                Option::Some(sec) => crate::val::deep_clone_vec(sec),
            };
            proof {
                lemma_vals_of_len(chain@);
                assert(vals_of(Seq::<Variable>::empty()) =~= Seq::<Val>::empty());
            }
            let ghost chain_pre = chain@;
            let e = deep_clone(resolve(&rt.stack, &wv));
            let ghost ge = e;
            chain.push(e);
            proof {
                assert(vals_of(chain@) == vals_of(chain_pre).push(val_of(ge)));
                assert(vals_of(chain@) =~= attached_chain(old_chain, val_of(ge)));
            }
            let ghost chain_post = chain@;
            let bx = Box::new(chain);
            let ghost gbx = bx;
            let nv = Variable::Bool(b, Option::Some(bx));
            let ghost gnv = nv;
            rt.stack.push(nv);
            proof {
                assert(val_of(gnv) == Val::Bool { b, why: crate::val::chain_view(Option::Some(gbx)) });
                assert(crate::val::chain_view(Option::Some(gbx)) == Option::Some(vals_of(chain_post)));
                assert(rt.stack@.drop_last() =~= old(rt).stack@.drop_last().drop_last());
                assert(val_of(gnv) == Val::Bool {
                    b,
                    why: Option::Some(
                        attached_chain(
                            old_chain,
                            val_of(spec_resolve(old(rt).stack@.drop_last().drop_last(), wv)),
                        ),
                    ),
                });
            }
            return Result::Ok(());
        },
        x => {
            found = type_text(x);
        },
    }
    let msg = arg_type_err(rt, 0, found, "bool");
    Result::Err(msg)
}

/// Pops an explanation and a number, and pushes the number carrying the
/// explanation appended to its chain (or starting one).
pub fn explain_where(rt: &mut Runtime) -> (r: Result<(), String>)
    requires
        old(rt).stack@.len() >= 2,
        ref_in(old(rt).stack@[old(rt).stack@.len() - 2], old(rt).stack@.len() - 2),
        ref_in(old(rt).stack@.last(), old(rt).stack@.len() - 2),
    ensures
        tables_unchanged(*old(rt), *final(rt)),
        ({
            let s0 = old(rt).stack@;
            let wv = s0.last();
            let popped = s0.drop_last().drop_last();
            let v = spec_resolve(popped, s0[s0.len() - 2]);
            match v {
                Variable::F64(bits, why) => r is Ok && vals_of(final(rt).stack@) == vals_of(
                    popped,
                ).push(
                    Val::Num {
                        bits,
                        why: Option::Some(
                            attached_chain(
                                crate::val::chain_view(why),
                                val_of(spec_resolve(popped, wv)),
                            ),
                        ),
                    },
                ) && final(rt).arg_err_index == old(rt).arg_err_index,
                _ => r matches Result::Err(m) && m@ == expected_msg(
                    "f64"@,
                    spec_type_text(val_of(v)),
                ) && final(rt).stack@ == popped && final(rt).arg_err_index == Option::Some(0usize),
            }
        }),
{
    broadcast use lemma_vals_of_push;

    let wv = rt.stack.pop().unwrap();
    let v = rt.stack.pop().unwrap();
    let found;
    match resolve(&rt.stack, &v) {
        Variable::F64(bits, why) => {
            let bits = *bits;
            let ghost old_chain = crate::val::chain_view(*why);
            let mut chain: Vec<Variable> = match why {
                Option::None => Vec::new(),
                Option::Some(sec) => crate::val::deep_clone_vec(sec),
            };
            proof {
                lemma_vals_of_len(chain@);
                assert(vals_of(Seq::<Variable>::empty()) =~= Seq::<Val>::empty());
            }
            let ghost chain_pre = chain@;
            let e = deep_clone(resolve(&rt.stack, &wv));
            let ghost ge = e;
            chain.push(e);
            proof {
                assert(vals_of(chain@) == vals_of(chain_pre).push(val_of(ge)));
                assert(vals_of(chain@) =~= attached_chain(old_chain, val_of(ge)));
            }
            let ghost chain_post = chain@;
            let bx = Box::new(chain);
            let ghost gbx = bx;
            let nv = Variable::F64(bits, Option::Some(bx));
            let ghost gnv = nv;
            rt.stack.push(nv);
            proof {
                assert(val_of(gnv) == Val::Num { bits, why: crate::val::chain_view(Option::Some(gbx)) });
                assert(crate::val::chain_view(Option::Some(gbx)) == Option::Some(vals_of(chain_post)));
                assert(rt.stack@.drop_last() =~= old(rt).stack@.drop_last().drop_last());
                assert(val_of(gnv) == Val::Num {
                    bits,
                    why: Option::Some(
                        attached_chain(
                            old_chain,
                            val_of(spec_resolve(old(rt).stack@.drop_last().drop_last(), wv)),
                        ),
                    ),
                });
            }
            return Result::Ok(());
        },
        x => {
            found = type_text(x);
        },
    }
    let msg = arg_type_err(rt, 0, found, "f64");
    Result::Err(msg)
}

/// Pops a value and pushes the name of its type.
pub fn _typeof(rt: &mut Runtime) -> (r: Result<(), String>)
    requires
        old(rt).stack@.len() >= 1,
        ref_in(old(rt).stack@.last(), old(rt).stack@.len() - 1),
    ensures
        r is Ok,
        tables_unchanged(*old(rt), *final(rt)),
        final(rt).arg_err_index == old(rt).arg_err_index,
        vals_of(final(rt).stack@) == vals_of(old(rt).stack@.drop_last()).push(
            Val::Text(
                spec_type_text(
                    val_of(spec_resolve(old(rt).stack@.drop_last(), old(rt).stack@.last())),
                ),
            ),
        ),
{
    broadcast use lemma_vals_of_push;

    let v = rt.stack.pop().unwrap();
    let name = type_text(resolve(&rt.stack, &v));
    rt.stack.push(Variable::Text(name.to_owned()));
    Result::Ok(())
}

/// Pops an index and a 4-vector and pushes the component the index names,
/// or reports an out-of-bounds index.
pub fn s(rt: &mut Runtime) -> (r: Result<(), String>)
    requires
        old(rt).stack@.len() >= 2,
        old(rt).stack@.last() matches Variable::F64(_, _),
        old(rt).stack@[old(rt).stack@.len() - 2] matches Variable::Vec4(_),
    ensures
        tables_unchanged(*old(rt), *final(rt)),
        ({
            let s0 = old(rt).stack@;
            let ind = trunc_u64_of(s0.last()->F64_0);
            let c = s0[s0.len() - 2]->Vec4_0;
            if ind >= 4 {
                r matches Result::Err(m) && m@ == index_oob_msg(ind as nat) && final(rt).stack@
                    == s0.drop_last()
            } else {
                r is Ok && final(rt).stack@ == s0.drop_last().drop_last().push(
                    Variable::F64(c@[ind as int], Option::None),
                )
            }
        }),
{
    let v = rt.stack.pop().unwrap();
    let bits = match &v {
        Variable::F64(b, _) => *b,
        _ => {
            proof {
                assert(false);
            }
            0
        },
    };
    let ind = bits_trunc_u64(bits);
    if ind >= 4 {
        return Result::Err(index_oob_err(ind));
    }
    let w = rt.stack.pop().unwrap();
    match &w {
        Variable::Vec4(c) => {
            let x = c[ind as usize];
            rt.stack.push(Variable::F64(x, Option::None));
            Result::Ok(())
        },
        _ => {
            proof {
                assert(false);
            }
            Result::Ok(())
        },
    }
}

/// Pops an index and a 4x4 matrix and pushes the row the index names as a
/// 4-vector, or reports an out-of-bounds index.
pub fn rv(rt: &mut Runtime) -> (r: Result<(), String>)
    requires
        old(rt).stack@.len() >= 2,
        old(rt).stack@.last() matches Variable::F64(_, _),
        old(rt).stack@[old(rt).stack@.len() - 2] matches Variable::Mat4(_),
    ensures
        tables_unchanged(*old(rt), *final(rt)),
        ({
            let s0 = old(rt).stack@;
            let ind = trunc_u64_of(s0.last()->F64_0);
            let m = s0[s0.len() - 2]->Mat4_0;
            if ind >= 4 {
                r matches Result::Err(msg) && msg@ == index_oob_msg(ind as nat) && final(rt).stack@
                    == s0.drop_last()
            } else {
                r is Ok && final(rt).stack@ == s0.drop_last().drop_last().push(
                    Variable::Vec4(
                        [
                            m@[0]@[ind as int],
                            m@[1]@[ind as int],
                            m@[2]@[ind as int],
                            m@[3]@[ind as int],
                        ],
                    ),
                )
            }
        }),
{
    let v = rt.stack.pop().unwrap();
    let bits = match &v {
        Variable::F64(b, _) => *b,
        _ => {
            proof {
                assert(false);
            }
            0
        },
    };
    let ind = bits_trunc_u64(bits);
    if ind >= 4 {
        return Result::Err(index_oob_err(ind));
    }
    let w = rt.stack.pop().unwrap();
    match &w {
        Variable::Mat4(m) => {
            let i = ind as usize;
            let row = [m[0][i], m[1][i], m[2][i], m[3][i]];
            rt.stack.push(Variable::Vec4(row));
            Result::Ok(())
        },
        _ => {
            proof {
                assert(false);
            }
            Result::Ok(())
        },
    }
}

/// Pops an index and a 4x4 matrix and pushes the column the index names,
/// or reports an out-of-bounds index.
pub fn cv(rt: &mut Runtime) -> (r: Result<(), String>)
    requires
        old(rt).stack@.len() >= 2,
        old(rt).stack@.last() matches Variable::F64(_, _),
        old(rt).stack@[old(rt).stack@.len() - 2] matches Variable::Mat4(_),
    ensures
        tables_unchanged(*old(rt), *final(rt)),
        ({
            let s0 = old(rt).stack@;
            let ind = trunc_u64_of(s0.last()->F64_0);
            let m = s0[s0.len() - 2]->Mat4_0;
            if ind >= 4 {
                r matches Result::Err(msg) && msg@ == index_oob_msg(ind as nat) && final(rt).stack@
                    == s0.drop_last()
            } else {
                r is Ok && final(rt).stack@ == s0.drop_last().drop_last().push(
                    Variable::Vec4(
                        [
                            m@[ind as int]@[0],
                            m@[ind as int]@[1],
                            m@[ind as int]@[2],
                            m@[ind as int]@[3],
                        ],
                    ),
                )
            }
        }),
{
    let v = rt.stack.pop().unwrap();
    let bits = match &v {
        Variable::F64(b, _) => *b,
        _ => {
            proof {
                assert(false);
            }
            0
        },
    };
    let ind = bits_trunc_u64(bits);
    if ind >= 4 {
        return Result::Err(index_oob_err(ind));
    }
    let w = rt.stack.pop().unwrap();
    match &w {
        Variable::Mat4(m) => {
            let i = ind as usize;
            let col = [m[i][0], m[i][1], m[i][2], m[i][3]];
            rt.stack.push(Variable::Vec4(col));
            Result::Ok(())
        },
        _ => {
            proof {
                assert(false);
            }
            Result::Ok(())
        },
    }
}

/// Pushes a fresh random number drawn from the unit interval. Relies on
/// rand's `random`, whose standard distribution over 64-bit words is
/// uniform; the word's top 53 bits are scaled into `[0, 1)` exactly.
pub fn random(rt: &mut Runtime) -> (r: Result<(), String>)
    ensures
        r is Ok,
        tables_unchanged(*old(rt), *final(rt)),
        final(rt).arg_err_index == old(rt).arg_err_index,
        final(rt).stack@.len() == old(rt).stack@.len() + 1,
        final(rt).stack@.drop_last() == old(rt).stack@,
        final(rt).stack@.last() matches Variable::F64(b, Option::None) && unit_interval_bits(b),
{
    let w: u64 = rand::random::<u64>();
    let bits = unit_to_bits(w / 2048);
    rt.stack.push(Variable::F64(bits, Option::None));
    proof {
        assert(rt.stack@.drop_last() =~= old(rt).stack@);
    }
    Result::Ok(())
}

/// The single-character texts of a text, in order.
pub open spec fn char_texts(s: Seq<char>) -> Seq<Val> {
    Seq::new(s.len(), |i: int| Val::Text(seq![s[i]]))
}

/// Pops a text and pushes the array of its characters, each as a
/// one-character text.
pub fn chars(rt: &mut Runtime) -> (r: Result<(), String>)
    requires
        old(rt).stack@.len() >= 1,
        ref_in(old(rt).stack@.last(), old(rt).stack@.len() - 1),
    ensures
        tables_unchanged(*old(rt), *final(rt)),
        ({
            let popped = old(rt).stack@.drop_last();
            let v = spec_resolve(popped, old(rt).stack@.last());
            match v {
                Variable::Text(t) => r is Ok && vals_of(final(rt).stack@) == vals_of(popped).push(
                    Val::Array(char_texts(t@)),
                ) && final(rt).arg_err_index == old(rt).arg_err_index,
                _ => r matches Result::Err(m) && m@ == expected_msg(
                    "str"@,
                    spec_type_text(val_of(v)),
                ) && final(rt).stack@ == popped && final(rt).arg_err_index == Option::Some(0usize),
            }
        }),
{
    broadcast use lemma_vals_of_push;

    let v = rt.stack.pop().unwrap();
    let found;
    match resolve(&rt.stack, &v) {
        Variable::Text(t) => {
            let n = t.as_str().unicode_len();
            let mut out: Vec<Variable> = Vec::new();
            let mut i: usize = 0;
            while i < n
                invariant
                    i <= n == t@.len(),
                    out@.len() == i,
                    forall|j: int| 0 <= j < i ==> val_of(#[trigger] out@[j]) == Val::Text(seq![t@[j]]),
                decreases n - i,
            {
                let piece = t.as_str().substring_char(i, i + 1).to_owned();
                proof {
                    assert(piece@ =~= seq![t@[i as int]]);
                }
                out.push(Variable::Text(piece));
                i = i + 1;
            }
            proof {
                lemma_vals_of_len(out@);
                assert forall|j: int| 0 <= j < n implies vals_of(out@)[j] == char_texts(t@)[j] by {
                    lemma_vals_of_index(out@, j);
                }
                assert(vals_of(out@) =~= char_texts(t@));
            }
            let arr = Variable::Array(out);
            rt.stack.push(arr);
            return Result::Ok(());
        },
        x => {
            found = type_text(x);
        },
    }
    let msg = arg_type_err(rt, 0, found, "str");
    Result::Err(msg)
}

} // verus!
