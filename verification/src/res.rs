//! Option and result plumbing: wrapping always deep-clones the value, so a
//! wrapper's validity never depends on the lifetime of what was wrapped;
//! unwrapping yields a clone of the inner value.

use vstd::prelude::*;

verus! {

use crate::val::Variable;
use crate::val::Val;
use crate::val::Error;
use crate::val::ErrVal;
use crate::val::val_of;
use crate::val::vals_of;
use crate::val::deep_clone;
use crate::val::type_text;
use crate::val::spec_type_text;
use crate::val::lemma_vals_of_push;
use crate::rt::Runtime;
use crate::rt::ref_in;
use crate::rt::spec_resolve;
use crate::rt::resolve;
use crate::rt::tables_unchanged;
use crate::rt::arg_type_err;
use crate::rt::expected_msg;

/// Pops a value and pushes it wrapped as a present option. The wrapped
/// value is a deep clone of what the argument resolves to.
pub fn some(rt: &mut Runtime) -> (r: Result<(), String>)
    requires
        old(rt).stack@.len() >= 1,
        ref_in(old(rt).stack@.last(), old(rt).stack@.len() - 1),
    ensures
        r is Ok,
        tables_unchanged(*old(rt), *final(rt)),
        final(rt).arg_err_index == old(rt).arg_err_index,
        vals_of(final(rt).stack@) == vals_of(old(rt).stack@.drop_last()).push(
            Val::Opt(
                Option::Some(
                    Box::new(
                        val_of(spec_resolve(old(rt).stack@.drop_last(), old(rt).stack@.last())),
                    ),
                ),
            ),
        ),
{
    broadcast use lemma_vals_of_push;

    let v = rt.stack.pop().unwrap();
    let c = deep_clone(resolve(&rt.stack, &v));
    let nv = Variable::Option(Option::Some(Box::new(c)));
    let ghost gnv = nv;
    rt.stack.push(nv);
    proof {
        assert(val_of(gnv) == Val::Opt(
            Option::Some(Box::new(val_of(spec_resolve(rt.stack@.drop_last(), v)))),
        ));
    }
    Result::Ok(())
}

/// Pops a value and pushes it wrapped as a success result, deep-cloned.
pub fn ok(rt: &mut Runtime) -> (r: Result<(), String>)
    requires
        old(rt).stack@.len() >= 1,
        ref_in(old(rt).stack@.last(), old(rt).stack@.len() - 1),
    ensures
        r is Ok,
        tables_unchanged(*old(rt), *final(rt)),
        final(rt).arg_err_index == old(rt).arg_err_index,
        vals_of(final(rt).stack@) == vals_of(old(rt).stack@.drop_last()).push(
            Val::Res(
                Result::Ok(
                    Box::new(
                        val_of(spec_resolve(old(rt).stack@.drop_last(), old(rt).stack@.last())),
                    ),
                ),
            ),
        ),
{
    broadcast use lemma_vals_of_push;

    let v = rt.stack.pop().unwrap();
    let c = deep_clone(resolve(&rt.stack, &v));
    let nv = Variable::Result(Result::Ok(Box::new(c)));
    let ghost gnv = nv;
    rt.stack.push(nv);
    proof {
        assert(val_of(gnv) == Val::Res(
            Result::Ok(Box::new(val_of(spec_resolve(rt.stack@.drop_last(), v)))),
        ));
    }
    Result::Ok(())
}

/// Pops a value and pushes it as the message of a failure result with an
/// empty trace, deep-cloned.
pub fn err(rt: &mut Runtime) -> (r: Result<(), String>)
    requires
        old(rt).stack@.len() >= 1,
        ref_in(old(rt).stack@.last(), old(rt).stack@.len() - 1),
    ensures
        r is Ok,
        tables_unchanged(*old(rt), *final(rt)),
        final(rt).arg_err_index == old(rt).arg_err_index,
        vals_of(final(rt).stack@) == vals_of(old(rt).stack@.drop_last()).push(
            Val::Res(
                Result::Err(
                    Box::new(
                        ErrVal {
                            message: Box::new(
                                val_of(
                                    spec_resolve(
                                        old(rt).stack@.drop_last(),
                                        old(rt).stack@.last(),
                                    ),
                                ),
                            ),
                            trace: Seq::empty(),
                        },
                    ),
                ),
            ),
        ),
{
    broadcast use lemma_vals_of_push;

    let v = rt.stack.pop().unwrap();
    let c = deep_clone(resolve(&rt.stack, &v));
    let trace: Vec<String> = Vec::new();
    let ghost gtrace = trace;
    let nv = Variable::Result(Result::Err(Box::new(Error { message: c, trace })));
    let ghost gnv = nv;
    rt.stack.push(nv);
    proof {
        assert(gtrace.deep_view() =~= Seq::<Seq<char>>::empty());
        assert(val_of(gnv) == Val::Res(
            Result::Err(
                Box::new(
                    ErrVal {
                        message: Box::new(val_of(spec_resolve(rt.stack@.drop_last(), v))),
                        trace: Seq::empty(),
                    },
                ),
            ),
        ));
    }
    Result::Ok(())
}

/// Pops a result and pushes whether it is a failure.
pub fn is_err(rt: &mut Runtime) -> (r: Result<(), String>)
    requires
        old(rt).stack@.len() >= 1,
        ref_in(old(rt).stack@.last(), old(rt).stack@.len() - 1),
    ensures
        tables_unchanged(*old(rt), *final(rt)),
        ({
            let popped = old(rt).stack@.drop_last();
            let v = spec_resolve(popped, old(rt).stack@.last());
            match v {
                Variable::Result(res) => r is Ok && vals_of(final(rt).stack@) == vals_of(
                    popped,
                ).push(Val::Bool { b: res is Err, why: Option::None }) && final(rt).arg_err_index
                    == old(rt).arg_err_index,
                _ => r matches Result::Err(m) && m@ == expected_msg(
                    "result"@,
                    spec_type_text(val_of(v)),
                ) && final(rt).stack@ == popped && final(rt).arg_err_index == Option::Some(0usize),
            }
        }),
{
    broadcast use lemma_vals_of_push;

    let v = rt.stack.pop().unwrap();
    let found;
    match resolve(&rt.stack, &v) {
        Variable::Result(res) => {
            let b = res.is_err();
            let nv = Variable::Bool(b, Option::None);
            let ghost gnv = nv;
            rt.stack.push(nv);
            proof {
                assert(val_of(gnv) == Val::Bool { b, why: crate::val::chain_view(Option::None) });
            }
            return Result::Ok(());
        },
        x => {
            found = type_text(x);
        },
    }
    let msg = arg_type_err(rt, 0, found, "result");
    Result::Err(msg)
}

/// Pops a result and pushes whether it is a success.
pub fn is_ok(rt: &mut Runtime) -> (r: Result<(), String>)
    requires
        old(rt).stack@.len() >= 1,
        ref_in(old(rt).stack@.last(), old(rt).stack@.len() - 1),
    ensures
        tables_unchanged(*old(rt), *final(rt)),
        ({
            let popped = old(rt).stack@.drop_last();
            let v = spec_resolve(popped, old(rt).stack@.last());
            match v {
                Variable::Result(res) => r is Ok && vals_of(final(rt).stack@) == vals_of(
                    popped,
                ).push(Val::Bool { b: res is Ok, why: Option::None }) && final(rt).arg_err_index
                    == old(rt).arg_err_index,
                _ => r matches Result::Err(m) && m@ == expected_msg(
                    "result"@,
                    spec_type_text(val_of(v)),
                ) && final(rt).stack@ == popped && final(rt).arg_err_index == Option::Some(0usize),
            }
        }),
{
    broadcast use lemma_vals_of_push;

    let v = rt.stack.pop().unwrap();
    let found;
    match resolve(&rt.stack, &v) {
        Variable::Result(res) => {
            let b = res.is_ok();
            let nv = Variable::Bool(b, Option::None);
            let ghost gnv = nv;
            rt.stack.push(nv);
            proof {
                assert(val_of(gnv) == Val::Bool { b, why: crate::val::chain_view(Option::None) });
            }
            return Result::Ok(());
        },
        x => {
            found = type_text(x);
        },
    }
    let msg = arg_type_err(rt, 0, found, "result");
    Result::Err(msg)
}

/// What `unwrap_or` pushes, as a function of its resolved arguments, when
/// the first argument is an option or a result.
pub open spec fn unwrap_or_value(v: Variable, def: Variable) -> Option<Val> {
    match v {
        Variable::Option(o) => match o {
            Option::Some(inner) => Option::Some(val_of(*inner)),
            Option::None => Option::Some(val_of(def)),
        },
        Variable::Result(res) => match res {
            Result::Ok(inner) => Option::Some(val_of(*inner)),
            Result::Err(_) => Option::Some(val_of(def)),
        },
        _ => Option::None,
    }
}

/// Pops a default and a wrapped value, and pushes the inner value of a
/// present option or success result, or the default for the absent and
/// failure cases — never failing on those.
pub fn unwrap_or(rt: &mut Runtime) -> (r: Result<(), String>)
    requires
        old(rt).stack@.len() >= 2,
        ref_in(old(rt).stack@.last(), old(rt).stack@.len() - 2),
        ref_in(old(rt).stack@[old(rt).stack@.len() - 2], old(rt).stack@.len() - 2),
    ensures
        tables_unchanged(*old(rt), *final(rt)),
        ({
            let s0 = old(rt).stack@;
            let popped = s0.drop_last().drop_last();
            let def = spec_resolve(popped, s0.last());
            let v = spec_resolve(popped, s0[s0.len() - 2]);
            match unwrap_or_value(v, def) {
                Option::Some(out) => r is Ok && vals_of(final(rt).stack@) == vals_of(popped).push(
                    out,
                ) && final(rt).arg_err_index == old(rt).arg_err_index,
                Option::None => r matches Result::Err(m) && m@ == expected_msg(
                    "some(_) or ok(_)"@,
                    spec_type_text(val_of(v)),
                ) && final(rt).stack@ == popped && final(rt).arg_err_index == Option::Some(0usize),
            }
        }),
{
    broadcast use lemma_vals_of_push;

    let def = rt.stack.pop().unwrap();
    let v = rt.stack.pop().unwrap();
    let found;
    match resolve(&rt.stack, &v) {
        Variable::Option(Option::Some(inner)) => {
            let c = deep_clone(&**inner);
            rt.stack.push(c);
            return Result::Ok(());
        },
        Variable::Result(Result::Ok(inner)) => {
            let c = deep_clone(&**inner);
            rt.stack.push(c);
            return Result::Ok(());
        },
        Variable::Option(Option::None) => {
            let c = deep_clone(resolve(&rt.stack, &def));
            rt.stack.push(c);
            return Result::Ok(());
        },
        Variable::Result(Result::Err(_)) => {
            let c = deep_clone(resolve(&rt.stack, &def));
            rt.stack.push(c);
            return Result::Ok(());
        },
        x => {
            found = type_text(x);
        },
    }
    let msg = arg_type_err(rt, 0, found, "some(_) or ok(_)");
    Result::Err(msg)
}

/// Pops a result and pushes the message of its failure; anything else is a
/// reported wrong argument.
pub fn unwrap_err(rt: &mut Runtime) -> (r: Result<(), String>)
    requires
        old(rt).stack@.len() >= 1,
        ref_in(old(rt).stack@.last(), old(rt).stack@.len() - 1),
    ensures
        tables_unchanged(*old(rt), *final(rt)),
        ({
            let popped = old(rt).stack@.drop_last();
            let v = spec_resolve(popped, old(rt).stack@.last());
            match v {
                Variable::Result(Result::Err(e)) => r is Ok && vals_of(final(rt).stack@)
                    == vals_of(popped).push(val_of(e.message)) && final(rt).arg_err_index == old(
                    rt,
                ).arg_err_index,
                _ => r matches Result::Err(m) && m@ == expected_msg(
                    "err(_)"@,
                    spec_type_text(val_of(v)),
                ) && final(rt).stack@ == popped && final(rt).arg_err_index == Option::Some(0usize),
            }
        }),
{
    broadcast use lemma_vals_of_push;

    let v = rt.stack.pop().unwrap();
    let found;
    match resolve(&rt.stack, &v) {
        Variable::Result(Result::Err(e)) => {
            let c = deep_clone(&e.message);
            rt.stack.push(c);
            return Result::Ok(());
        },
        x => {
            found = type_text(x);
        },
    }
    let msg = arg_type_err(rt, 0, found, "err(_)");
    Result::Err(msg)
}

} // verus!
