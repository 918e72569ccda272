//! Array and object intrinsics: length, the in-place mutators that work
//! through a stack reference to an array slot, the NaN-aware folds `min`
//! and `max`, and the object reads `has` and `keys`.
//!
//! A mutator takes a stack reference so the change lands in the referenced
//! slot. Arrays are shared by copy-on-write: the mutation builds the slot's
//! new value, and no other slot or holder changes.

use vstd::prelude::*;

verus! {

use crate::val::Variable;
use crate::val::Val;
use crate::val::Entry;
use crate::val::val_of;
use crate::val::vals_of;
use crate::val::deep_clone;
use crate::val::type_text;
use crate::val::spec_type_text;
use crate::val::lemma_vals_of_push;
use crate::val::lemma_vals_of_len;
use crate::val::lemma_vals_of_index;
use crate::rt::Runtime;
use crate::rt::ref_in;
use crate::rt::spec_resolve;
use crate::rt::resolve;
use crate::rt::tables_unchanged;
use crate::rt::arg_type_err;
use crate::rt::expected_msg;
use crate::num::lt_bits;
use crate::num::is_nan_bits;
use crate::num::less_bits;
use crate::num::nan_bits;
use crate::num::trunc_u64_of;
use crate::num::bits_trunc_u64;
use crate::num::bits_of_int;
use crate::num::int_to_bits;
use crate::strutil::str_eq;

/// The report for a mutator whose target is not a reference to an array.
pub open spec fn not_array_ref_msg() -> Seq<char> {
    "Expected reference to array"@
}

/// The report for popping from an empty array.
pub open spec fn empty_array_msg() -> Seq<char> {
    "Expected non-empty array"@
}

/// The plain out-of-bounds report of the array mutators.
pub open spec fn plain_oob_msg() -> Seq<char> {
    "Index out of bounds"@
}

/// Pops an array and pushes its length as a number.
pub fn len(rt: &mut Runtime) -> (r: Result<(), String>)
    requires
        old(rt).stack@.len() >= 1,
        ref_in(old(rt).stack@.last(), old(rt).stack@.len() - 1),
        (spec_resolve(old(rt).stack@.drop_last(), old(rt).stack@.last()) matches Variable::Array(
            arr,
        ) ==> arr@.len() <= 0x20_0000_0000_0000),
    ensures
        tables_unchanged(*old(rt), *final(rt)),
        ({
            let popped = old(rt).stack@.drop_last();
            let v = spec_resolve(popped, old(rt).stack@.last());
            match v {
                Variable::Array(arr) => r is Ok && vals_of(final(rt).stack@) == vals_of(
                    popped,
                ).push(Val::Num { bits: bits_of_int(arr@.len() as int), why: Option::None })
                    && final(rt).arg_err_index == old(rt).arg_err_index,
                _ => r matches Result::Err(m) && m@ == expected_msg(
                    "array"@,
                    spec_type_text(val_of(v)),
                ) && final(rt).stack@ == popped && final(rt).arg_err_index == Option::Some(0usize),
            }
        }),
{
    broadcast use lemma_vals_of_push;

    let v = rt.stack.pop().unwrap();
    let found;
    match resolve(&rt.stack, &v) {
        Variable::Array(arr) => {
            let n = arr.len();
            let bits = int_to_bits(n as i64);
            let nv = Variable::F64(bits, Option::None);
            let ghost gnv = nv;
            rt.stack.push(nv);
            proof {
                assert(val_of(gnv) == Val::Num {
                    bits: bits_of_int(n as int),
                    why: crate::val::chain_view(Option::None),
                });
            }
            return Result::Ok(());
        },
        x => {
            found = type_text(x);
        },
    }
    let msg = arg_type_err(rt, 0, found, "array");
    Result::Err(msg)
}

/// Whether a value is a reference to an array slot of the stack.
pub open spec fn is_array_ref(stack: Seq<Variable>, v: Variable) -> bool {
    v matches Variable::Ref(i) && i < stack.len() && stack[i as int] matches Variable::Array(_)
}

/// Appends an element to the array slot a reference names. The target slot
/// changes; every other slot is untouched.
fn push_at(stack: &mut Vec<Variable>, ind: usize, item: Variable) -> (r: Result<(), String>)
    requires
        ind < old(stack)@.len(),
    ensures
        match final(stack)@[ind as int] {
            Variable::Array(_) => true,
            _ => true,
        },
        ({
            match old(stack)@[ind as int] {
                Variable::Array(arr) => r is Ok && final(stack)@.len() == old(stack)@.len() && (
                forall|j: int|
                    0 <= j < old(stack)@.len() && j != ind ==> final(stack)@[j] == old(stack)@[j]) && (final(stack)@[ind as int] matches Variable::Array(na) && na@ == arr@
                    + seq![item]),
                _ => r matches Result::Err(m) && m@ == not_array_ref_msg() && final(stack)@ == old(stack)@,
            }
        }),
{
    let slot = stack.remove(ind);
    match slot {
        Variable::Array(mut arr) => {
            arr.push(item);
            proof {
                assert(arr@ =~= old(stack)@[ind as int]->Array_0@ + seq![item]);
            }
            stack.insert(ind, Variable::Array(arr));
            proof {
                assert(final(stack)@ =~= old(stack)@.update(
                    ind as int,
                    final(stack)@[ind as int],
                ));
            }
            Result::Ok(())
        },
        x => {
            stack.insert(ind, x);
            proof {
                assert(final(stack)@ =~= old(stack)@);
            }
            Result::Err("Expected reference to array".to_owned())
        },
    }
}

/// Pops an item and an array reference and appends the item as it stands —
/// references are stored unresolved — to the referenced array.
pub fn push_ref(rt: &mut Runtime) -> (r: Result<(), String>)
    requires
        old(rt).stack@.len() >= 2,
        (old(rt).stack@[old(rt).stack@.len() - 2] matches Variable::Ref(i) ==> i < old(rt).stack@.len() - 2),
    ensures
        tables_unchanged(*old(rt), *final(rt)),
        ({
            let s0 = old(rt).stack@;
            let item = s0.last();
            let target = s0[s0.len() - 2];
            let popped = s0.drop_last().drop_last();
            if is_array_ref(popped, target) {
                let ind = target->Ref_0;
                r is Ok && final(rt).stack@.len() == popped.len() && (forall|j: int|
                    0 <= j < popped.len() && j != ind ==> final(rt).stack@[j] == popped[j]) && (
                final(rt).stack@[ind as int] matches Variable::Array(na) && na@ == popped[ind as int]->Array_0@ + seq![item]) && final(rt).arg_err_index == old(rt).arg_err_index
            } else {
                r matches Result::Err(m) && m@ == not_array_ref_msg() && final(rt).stack@ == popped
                    && final(rt).arg_err_index == Option::Some(0usize)
            }
        }),
{
    let item = rt.stack.pop().unwrap();
    let v = rt.stack.pop().unwrap();
    match v {
        Variable::Ref(ind) => {
            let res = push_at(&mut rt.stack, ind, item);
            if res.is_err() {
                rt.arg_err_index = Option::Some(0);
            }
            res
        },
        _ => {
            rt.arg_err_index = Option::Some(0);
            Result::Err("Expected reference to array".to_owned())
        },
    }
}

/// Pops an item and an array reference and appends a deep clone of what
/// the item resolves to, so the array never aliases the caller's slots.
pub fn push(rt: &mut Runtime) -> (r: Result<(), String>)
    requires
        old(rt).stack@.len() >= 2,
        ref_in(old(rt).stack@.last(), old(rt).stack@.len() - 2),
        (old(rt).stack@[old(rt).stack@.len() - 2] matches Variable::Ref(i) ==> i < old(rt).stack@.len() - 2),
    ensures
        tables_unchanged(*old(rt), *final(rt)),
        ({
            let s0 = old(rt).stack@;
            let popped = s0.drop_last().drop_last();
            let item = spec_resolve(popped, s0.last());
            let target = s0[s0.len() - 2];
            if is_array_ref(popped, target) {
                let ind = target->Ref_0;
                r is Ok && final(rt).stack@.len() == popped.len() && (forall|j: int|
                    0 <= j < popped.len() && j != ind ==> final(rt).stack@[j] == popped[j]) && (
                final(rt).stack@[ind as int] matches Variable::Array(na) && vals_of(na@) == vals_of(
                    popped[ind as int]->Array_0@,
                ).push(val_of(item))) && final(rt).arg_err_index == old(rt).arg_err_index
            } else {
                r matches Result::Err(m) && m@ == not_array_ref_msg() && final(rt).stack@ == popped
                    && final(rt).arg_err_index == Option::Some(0usize)
            }
        }),
{
    broadcast use lemma_vals_of_push;

    let item = rt.stack.pop().unwrap();
    let v = rt.stack.pop().unwrap();
    let item = deep_clone(resolve(&rt.stack, &item));
    match v {
        Variable::Ref(ind) => {
            let ghost gitem = item;
            let res = push_at(&mut rt.stack, ind, item);
            if res.is_err() {
                rt.arg_err_index = Option::Some(0);
            } else {
                proof {
                    let popped = old(rt).stack@.drop_last().drop_last();
                    let na = rt.stack@[ind as int]->Array_0;
                    assert(na@ == popped[ind as int]->Array_0@ + seq![gitem]);
                    assert(na@ =~= popped[ind as int]->Array_0@.push(gitem));
                }
            }
            res
        },
        _ => {
            rt.arg_err_index = Option::Some(0);
            Result::Err("Expected reference to array".to_owned())
        },
    }
}

/// Pops an array reference and pops the referenced array's last element
/// onto the stack; an empty array is a reported error.
pub fn pop(rt: &mut Runtime) -> (r: Result<(), String>)
    requires
        old(rt).stack@.len() >= 1,
        (old(rt).stack@.last() matches Variable::Ref(i) ==> i < old(rt).stack@.len() - 1),
    ensures
        tables_unchanged(*old(rt), *final(rt)),
        ({
            let s0 = old(rt).stack@;
            let target = s0.last();
            let popped = s0.drop_last();
            if is_array_ref(popped, target) {
                let ind = target->Ref_0;
                let arr = popped[ind as int]->Array_0@;
                if arr.len() == 0 {
                    r matches Result::Err(m) && m@ == empty_array_msg() && final(rt).arg_err_index
                        == Option::Some(0usize)
                } else {
                    r is Ok && final(rt).stack@.len() == popped.len() + 1 && (forall|j: int|
                        0 <= j < popped.len() && j != ind ==> final(rt).stack@[j] == popped[j]) && (
                    final(rt).stack@[ind as int] matches Variable::Array(na) && na@
                        == arr.drop_last()) && final(rt).stack@.last() == arr.last() && final(rt).arg_err_index == old(rt).arg_err_index
                }
            } else {
                r matches Result::Err(m) && m@ == not_array_ref_msg() && final(rt).stack@ == popped
                    && final(rt).arg_err_index == Option::Some(0usize)
            }
        }),
{
    let v = rt.stack.pop().unwrap();
    match v {
        Variable::Ref(ind) => {
            let slot = rt.stack.remove(ind);
            match slot {
                Variable::Array(mut arr) => {
                    if arr.len() == 0 {
                        rt.stack.insert(ind, Variable::Array(arr));
                        proof {
                            assert(rt.stack@ =~= old(rt).stack@.drop_last());
                        }
                        rt.arg_err_index = Option::Some(0);
                        return Result::Err("Expected non-empty array".to_owned());
                    }
                    let item = arr.pop().unwrap();
                    rt.stack.insert(ind, Variable::Array(arr));
                    rt.stack.push(item);
                    proof {
                        let popped = old(rt).stack@.drop_last();
                        assert forall|j: int|
                            0 <= j < popped.len() && j != ind implies rt.stack@[j] == popped[j] by {
                        }
                    }
                    Result::Ok(())
                },
                x => {
                    rt.stack.insert(ind, x);
                    proof {
                        assert(rt.stack@ =~= old(rt).stack@.drop_last());
                    }
                    rt.arg_err_index = Option::Some(0);
                    Result::Err("Expected reference to array".to_owned())
                },
            }
        },
        _ => {
            rt.arg_err_index = Option::Some(0);
            Result::Err("Expected reference to array".to_owned())
        },
    }
}

/// Reverses a vector by moving its elements.
fn reversed_move(arr: Vec<Variable>) -> (out: Vec<Variable>)
    ensures
        out@ == arr@.reverse(),
{
    let ghost orig = arr@;
    let mut arr = arr;
    let mut out: Vec<Variable> = Vec::new();
    proof {
        assert(arr@ =~= orig.take(arr@.len() as int));
    }
    while arr.len() > 0
        invariant
            out@.len() + arr@.len() == orig.len(),
            arr@ == orig.take(arr@.len() as int),
            forall|j: int| 0 <= j < out@.len() ==> out@[j] == orig[orig.len() - 1 - j],
        decreases arr@.len(),
    {
        let item = arr.pop().unwrap();
        out.push(item);
        proof {
            assert(arr@ =~= orig.take(arr@.len() as int));
        }
    }
    proof {
        assert(out@ =~= orig.reverse());
    }
    out
}

/// Reverses the referenced array in place.
pub fn reverse(rt: &mut Runtime) -> (r: Result<(), String>)
    requires
        old(rt).stack@.len() >= 1,
        (old(rt).stack@.last() matches Variable::Ref(i) ==> i < old(rt).stack@.len() - 1),
    ensures
        tables_unchanged(*old(rt), *final(rt)),
        ({
            let s0 = old(rt).stack@;
            let target = s0.last();
            let popped = s0.drop_last();
            if is_array_ref(popped, target) {
                let ind = target->Ref_0;
                r is Ok && final(rt).stack@.len() == popped.len() && (forall|j: int|
                    0 <= j < popped.len() && j != ind ==> final(rt).stack@[j] == popped[j]) && (
                final(rt).stack@[ind as int] matches Variable::Array(na) && na@ == popped[ind as int]->Array_0@.reverse()) && final(rt).arg_err_index == old(rt).arg_err_index
            } else {
                r matches Result::Err(m) && m@ == not_array_ref_msg() && final(rt).stack@ == popped
                    && final(rt).arg_err_index == Option::Some(0usize)
            }
        }),
{
    let v = rt.stack.pop().unwrap();
    match v {
        Variable::Ref(ind) => {
            let slot = rt.stack.remove(ind);
            match slot {
                Variable::Array(arr) => {
                    let out = reversed_move(arr);
                    rt.stack.insert(ind, Variable::Array(out));
                    Result::Ok(())
                },
                x => {
                    rt.stack.insert(ind, x);
                    proof {
                        assert(rt.stack@ =~= old(rt).stack@.drop_last());
                    }
                    rt.arg_err_index = Option::Some(0);
                    Result::Err("Expected reference to array".to_owned())
                },
            }
        },
        _ => {
            rt.arg_err_index = Option::Some(0);
            Result::Err("Expected reference to array".to_owned())
        },
    }
}

/// Empties the referenced array in place.
pub fn clear(rt: &mut Runtime) -> (r: Result<(), String>)
    requires
        old(rt).stack@.len() >= 1,
        (old(rt).stack@.last() matches Variable::Ref(i) ==> i < old(rt).stack@.len() - 1),
    ensures
        tables_unchanged(*old(rt), *final(rt)),
        ({
            let s0 = old(rt).stack@;
            let target = s0.last();
            let popped = s0.drop_last();
            if is_array_ref(popped, target) {
                let ind = target->Ref_0;
                r is Ok && final(rt).stack@.len() == popped.len() && (forall|j: int|
                    0 <= j < popped.len() && j != ind ==> final(rt).stack@[j] == popped[j]) && (
                final(rt).stack@[ind as int] matches Variable::Array(na) && na@.len() == 0) && final(rt).arg_err_index == old(rt).arg_err_index
            } else {
                r matches Result::Err(m) && m@ == not_array_ref_msg() && final(rt).stack@ == popped
                    && final(rt).arg_err_index == Option::Some(0usize)
            }
        }),
{
    let v = rt.stack.pop().unwrap();
    match v {
        Variable::Ref(ind) => {
            let slot = rt.stack.remove(ind);
            match slot {
                Variable::Array(_) => {
                    let out: Vec<Variable> = Vec::new();
                    rt.stack.insert(ind, Variable::Array(out));
                    Result::Ok(())
                },
                x => {
                    rt.stack.insert(ind, x);
                    proof {
                        assert(rt.stack@ =~= old(rt).stack@.drop_last());
                    }
                    rt.arg_err_index = Option::Some(0);
                    Result::Err("Expected reference to array".to_owned())
                },
            }
        },
        _ => {
            rt.arg_err_index = Option::Some(0);
            Result::Err("Expected reference to array".to_owned())
        },
    }
}


/// What the index arguments of the positional mutators resolve to: the
/// truncated value of a number, when the argument is one.
pub open spec fn num_index(stack: Seq<Variable>, v: Variable) -> Option<u64> {
    match spec_resolve(stack, v) {
        Variable::F64(bits, _) => Option::Some(trunc_u64_of(bits)),
        _ => Option::None,
    }
}

/// Inserts an element into the array slot a reference names, shifting what
/// follows. An index past the end is reported, changing nothing.
fn insert_at(stack: &mut Vec<Variable>, ind: usize, index: u64, item: Variable) -> (r: Result<
    (),
    String,
>)
    requires
        ind < old(stack)@.len(),
    ensures
        ({
            match old(stack)@[ind as int] {
                Variable::Array(arr) => if index > arr@.len() {
                    r matches Result::Err(m) && m@ == plain_oob_msg() && final(stack)@ == old(stack)@
                } else {
                    r is Ok && final(stack)@.len() == old(stack)@.len() && (forall|j: int|
                        0 <= j < old(stack)@.len() && j != ind ==> final(stack)@[j] == old(stack)@[j]) && (final(stack)@[ind as int] matches Variable::Array(na) && na@ == arr@.insert(
                        index as int,
                        item,
                    ))
                },
                _ => r matches Result::Err(m) && m@ == not_array_ref_msg() && final(stack)@ == old(stack)@,
            }
        }),
{
    let slot = stack.remove(ind);
    match slot {
        Variable::Array(mut arr) => {
            if index > arr.len() as u64 {
                stack.insert(ind, Variable::Array(arr));
                proof {
                    assert(final(stack)@ =~= old(stack)@);
                }
                return Result::Err("Index out of bounds".to_owned());
            }
            arr.insert(index as usize, item);
            stack.insert(ind, Variable::Array(arr));
            Result::Ok(())
        },
        x => {
            stack.insert(ind, x);
            proof {
                assert(final(stack)@ =~= old(stack)@);
            }
            Result::Err("Expected reference to array".to_owned())
        },
    }
}

/// Pops an item, a position and an array reference, and inserts the item
/// as it stands at the position in the referenced array.
pub fn insert_ref(rt: &mut Runtime) -> (r: Result<(), String>)
    requires
        old(rt).stack@.len() >= 3,
        ref_in(old(rt).stack@[old(rt).stack@.len() - 2], old(rt).stack@.len() - 3),
        (old(rt).stack@[old(rt).stack@.len() - 3] matches Variable::Ref(i) ==> i < old(rt).stack@.len() - 3),
    ensures
        tables_unchanged(*old(rt), *final(rt)),
        ({
            let s0 = old(rt).stack@;
            let item = s0.last();
            let popped = s0.drop_last().drop_last().drop_last();
            let target = s0[s0.len() - 3];
            match num_index(popped, s0[s0.len() - 2]) {
                Option::None => r matches Result::Err(m) && m@ == expected_msg(
                    "number"@,
                    spec_type_text(val_of(spec_resolve(popped, s0[s0.len() - 2]))),
                ) && final(rt).arg_err_index == Option::Some(1usize) && final(rt).stack@ == popped,
                Option::Some(index) => if is_array_ref(popped, target) {
                    let ind = target->Ref_0;
                    let arr = popped[ind as int]->Array_0@;
                    if index > arr.len() {
                        r matches Result::Err(m) && m@ == plain_oob_msg() && final(rt).stack@
                            == popped
                    } else {
                        r is Ok && final(rt).stack@.len() == popped.len() && (forall|j: int|
                            0 <= j < popped.len() && j != ind ==> final(rt).stack@[j] == popped[j])
                            && (final(rt).stack@[ind as int] matches Variable::Array(na) && na@
                            == arr.insert(index as int, item))
                    }
                } else {
                    r matches Result::Err(m) && m@ == not_array_ref_msg() && final(rt).stack@
                        == popped && final(rt).arg_err_index == Option::Some(0usize)
                },
            }
        }),
{
    let item = rt.stack.pop().unwrap();
    let index_v = rt.stack.pop().unwrap();
    let v = rt.stack.pop().unwrap();
    let found;
    match resolve(&rt.stack, &index_v) {
        Variable::F64(bits, _) => {
            let index = bits_trunc_u64(*bits);
            match v {
                Variable::Ref(ind) => {
                    let res = insert_at(&mut rt.stack, ind, index, item);
                    if res.is_err() {
                        match &rt.stack[ind] {
                            Variable::Array(_) => {},
                            _ => {
                                rt.arg_err_index = Option::Some(0);
                            },
                        }
                    }
                    return res;
                },
                _ => {
                    rt.arg_err_index = Option::Some(0);
                    return Result::Err("Expected reference to array".to_owned());
                },
            }
        },
        x => {
            found = type_text(x);
        },
    }
    let msg = arg_type_err(rt, 1, found, "number");
    Result::Err(msg)
}

/// Pops an item, a position and an array reference, and inserts a deep
/// clone of what the item resolves to at the position.
pub fn insert(rt: &mut Runtime) -> (r: Result<(), String>)
    requires
        old(rt).stack@.len() >= 3,
        ref_in(old(rt).stack@.last(), old(rt).stack@.len() - 1),
        ref_in(old(rt).stack@[old(rt).stack@.len() - 2], old(rt).stack@.len() - 3),
        (old(rt).stack@[old(rt).stack@.len() - 3] matches Variable::Ref(i) ==> i < old(rt).stack@.len() - 3),
    ensures
        tables_unchanged(*old(rt), *final(rt)),
        ({
            let s0 = old(rt).stack@;
            let item = spec_resolve(s0.drop_last(), s0.last());
            let popped = s0.drop_last().drop_last().drop_last();
            let target = s0[s0.len() - 3];
            match num_index(popped, s0[s0.len() - 2]) {
                Option::None => r matches Result::Err(m) && m@ == expected_msg(
                    "number"@,
                    spec_type_text(val_of(spec_resolve(popped, s0[s0.len() - 2]))),
                ) && final(rt).arg_err_index == Option::Some(1usize) && final(rt).stack@ == popped,
                Option::Some(index) => if is_array_ref(popped, target) {
                    let ind = target->Ref_0;
                    let arr = popped[ind as int]->Array_0@;
                    if index > arr.len() {
                        r matches Result::Err(m) && m@ == plain_oob_msg() && final(rt).stack@
                            == popped
                    } else {
                        r is Ok && final(rt).stack@.len() == popped.len() && (forall|j: int|
                            0 <= j < popped.len() && j != ind ==> final(rt).stack@[j] == popped[j])
                            && (final(rt).stack@[ind as int] matches Variable::Array(na) && vals_of(
                            na@,
                        ) == vals_of(arr).insert(index as int, val_of(item)))
                    }
                } else {
                    r matches Result::Err(m) && m@ == not_array_ref_msg() && final(rt).stack@
                        == popped && final(rt).arg_err_index == Option::Some(0usize)
                },
            }
        }),
{
    let item = rt.stack.pop().unwrap();
    let item = deep_clone(resolve(&rt.stack, &item));
    let index_v = rt.stack.pop().unwrap();
    let v = rt.stack.pop().unwrap();
    let found;
    match resolve(&rt.stack, &index_v) {
        Variable::F64(bits, _) => {
            let index = bits_trunc_u64(*bits);
            match v {
                Variable::Ref(ind) => {
                    let ghost gitem = item;
                    let res = insert_at(&mut rt.stack, ind, index, item);
                    if res.is_err() {
                        match &rt.stack[ind] {
                            Variable::Array(_) => {},
                            _ => {
                                rt.arg_err_index = Option::Some(0);
                            },
                        }
                    } else {
                        proof {
                            let popped = old(rt).stack@.drop_last().drop_last().drop_last();
                            let arr = popped[ind as int]->Array_0@;
                            let na = rt.stack@[ind as int]->Array_0;
                            lemma_vals_of_insert(arr, index as int, gitem);
                        }
                    }
                    return res;
                },
                _ => {
                    rt.arg_err_index = Option::Some(0);
                    return Result::Err("Expected reference to array".to_owned());
                },
            }
        },
        x => {
            found = type_text(x);
        },
    }
    let msg = arg_type_err(rt, 1, found, "number");
    Result::Err(msg)
}

/// Viewing commutes with inserting one value.
proof fn lemma_vals_of_insert(s: Seq<Variable>, i: int, x: Variable)
    requires
        0 <= i <= s.len(),
    ensures
        vals_of(s.insert(i, x)) == vals_of(s).insert(i, val_of(x)),
{
    lemma_vals_of_len(s);
    lemma_vals_of_len(s.insert(i, x));
    assert forall|j: int| 0 <= j < s.len() + 1 implies vals_of(s.insert(i, x))[j] == vals_of(
        s,
    ).insert(i, val_of(x))[j] by {
        lemma_vals_of_index(s.insert(i, x), j);
        if j < i {
            lemma_vals_of_index(s, j);
        } else if j > i {
            lemma_vals_of_index(s, j - 1);
        }
    }
    assert(vals_of(s.insert(i, x)) =~= vals_of(s).insert(i, val_of(x)));
}

/// Pops a position and an array reference, removes the element at the
/// position from the referenced array and pushes it.
pub fn remove(rt: &mut Runtime) -> (r: Result<(), String>)
    requires
        old(rt).stack@.len() >= 2,
        ref_in(old(rt).stack@.last(), old(rt).stack@.len() - 2),
        (old(rt).stack@[old(rt).stack@.len() - 2] matches Variable::Ref(i) ==> i < old(rt).stack@.len() - 2),
    ensures
        tables_unchanged(*old(rt), *final(rt)),
        ({
            let s0 = old(rt).stack@;
            let popped = s0.drop_last().drop_last();
            let target = s0[s0.len() - 2];
            match num_index(popped, s0.last()) {
                Option::None => r matches Result::Err(m) && m@ == expected_msg(
                    "number"@,
                    spec_type_text(val_of(spec_resolve(popped, s0.last()))),
                ) && final(rt).arg_err_index == Option::Some(1usize) && final(rt).stack@ == popped,
                Option::Some(index) => if is_array_ref(popped, target) {
                    let ind = target->Ref_0;
                    let arr = popped[ind as int]->Array_0@;
                    if index >= arr.len() {
                        r matches Result::Err(m) && m@ == plain_oob_msg() && final(rt).stack@
                            == popped
                    } else {
                        r is Ok && final(rt).stack@.len() == popped.len() + 1 && (forall|j: int|
                            0 <= j < popped.len() && j != ind ==> final(rt).stack@[j] == popped[j])
                            && (final(rt).stack@[ind as int] matches Variable::Array(na) && na@
                            == arr.remove(index as int)) && final(rt).stack@.last() == arr[index as int]
                    }
                } else {
                    r matches Result::Err(m) && m@ == not_array_ref_msg() && final(rt).stack@
                        == popped && final(rt).arg_err_index == Option::Some(0usize)
                },
            }
        }),
{
    let index_v = rt.stack.pop().unwrap();
    let v = rt.stack.pop().unwrap();
    let found;
    match resolve(&rt.stack, &index_v) {
        Variable::F64(bits, _) => {
            let index = bits_trunc_u64(*bits);
            match v {
                Variable::Ref(ind) => {
                    let slot = rt.stack.remove(ind);
                    match slot {
                        Variable::Array(mut arr) => {
                            if index >= arr.len() as u64 {
                                rt.stack.insert(ind, Variable::Array(arr));
                                proof {
                                    assert(rt.stack@ =~= old(rt).stack@.drop_last().drop_last());
                                }
                                return Result::Err("Index out of bounds".to_owned());
                            }
                            let item = arr.remove(index as usize);
                            rt.stack.insert(ind, Variable::Array(arr));
                            rt.stack.push(item);
                            return Result::Ok(());
                        },
                        x => {
                            rt.stack.insert(ind, x);
                            proof {
                                assert(rt.stack@ =~= old(rt).stack@.drop_last().drop_last());
                            }
                            rt.arg_err_index = Option::Some(0);
                            return Result::Err("Expected reference to array".to_owned());
                        },
                    }
                },
                _ => {
                    rt.arg_err_index = Option::Some(0);
                    return Result::Err("Expected reference to array".to_owned());
                },
            }
        },
        x => {
            found = type_text(x);
        },
    }
    let msg = arg_type_err(rt, 1, found, "number");
    Result::Err(msg)
}


/// Swaps two elements of a vector by moving them.
fn swapped_move(arr: Vec<Variable>, i: usize, j: usize) -> (out: Vec<Variable>)
    requires
        i < arr@.len(),
        j < arr@.len(),
    ensures
        out@ == arr@.update(i as int, arr@[j as int]).update(j as int, arr@[i as int]),
{
    let ghost arr0 = arr@;
    let mut arr = arr;
    if i != j {
        let lo = if i < j {
            i
        } else {
            j
        };
        let hi = if i < j {
            j
        } else {
            i
        };
        let xhi = arr.remove(hi);
        let ghost ga1 = arr@;
        let xlo = arr.remove(lo);
        let ghost ga2 = arr@;
        arr.insert(lo, xhi);
        let ghost ga3 = arr@;
        arr.insert(hi, xlo);
        proof {
            let want = arr0.update(i as int, arr0[j as int]).update(j as int, arr0[i as int]);
            assert forall|k: int| 0 <= k < arr@.len() implies arr@[k] == want[k] by {
                if k > lo && k < hi {
                    assert(ga2.insert(lo as int, arr0[hi as int])[(k - 1) + 1] == ga2[k - 1]);
                    assert(ga1.remove(lo as int) == ga2);
                    assert(ga2[k - 1] == ga1[(k - 1) + 1]);
                    assert(arr0.remove(hi as int)[k] == arr0[k]);
                } else if k == hi {
                    assert(ga3.insert(hi as int, ga1[lo as int])[hi as int] == ga1[lo as int]);
                } else if k > hi {
                    assert(ga3.insert(hi as int, ga1[lo as int])[(k - 1) + 1] == ga3[k - 1]);
                    assert(ga2.insert(lo as int, arr0[hi as int])[(k - 2) + 1] == ga2[k - 2]);
                    assert(ga2[k - 2] == ga1[(k - 2) + 1]);
                    assert(ga1[k - 1] == arr0[(k - 1) + 1]);
                }
            }
            assert(arr@ =~= want);
        }
    } else {
        proof {
            assert(arr@ =~= arr0.update(i as int, arr0[j as int]).update(j as int, arr0[i as int]));
        }
    }
    arr
}

/// Pops two positions and an array reference and swaps the two elements of
/// the referenced array; a position past the end is reported, changing
/// nothing.
#[verifier::rlimit(50)]
pub fn swap(rt: &mut Runtime) -> (r: Result<(), String>)
    requires
        old(rt).stack@.len() >= 3,
        ref_in(old(rt).stack@.last(), old(rt).stack@.len() - 3),
        ref_in(old(rt).stack@[old(rt).stack@.len() - 2], old(rt).stack@.len() - 3),
        (old(rt).stack@[old(rt).stack@.len() - 3] matches Variable::Ref(i) ==> i < old(rt).stack@.len() - 3),
    ensures
        tables_unchanged(*old(rt), *final(rt)),
        ({
            let s0 = old(rt).stack@;
            let popped = s0.drop_last().drop_last().drop_last();
            let target = s0[s0.len() - 3];
            match (num_index(popped, s0[s0.len() - 2]), num_index(popped, s0.last())) {
                (Option::Some(i), Option::Some(j)) => if is_array_ref(popped, target) {
                    let ind = target->Ref_0;
                    let arr = popped[ind as int]->Array_0@;
                    if i >= arr.len() || j >= arr.len() {
                        r matches Result::Err(m) && m@ == plain_oob_msg() && final(rt).stack@
                            == popped
                    } else {
                        r is Ok && final(rt).stack@.len() == popped.len() && (forall|k: int|
                            0 <= k < popped.len() && k != ind ==> final(rt).stack@[k] == popped[k])
                            && (final(rt).stack@[ind as int] matches Variable::Array(na) && na@
                            == arr.update(i as int, arr[j as int]).update(j as int, arr[i as int]))
                    }
                } else {
                    r matches Result::Err(m) && m@ == not_array_ref_msg() && final(rt).stack@
                        == popped && final(rt).arg_err_index == Option::Some(0usize)
                },
                (Option::Some(_), Option::None) => r matches Result::Err(m) && m@ == expected_msg(
                    "number"@,
                    spec_type_text(val_of(spec_resolve(popped, s0.last()))),
                ) && final(rt).arg_err_index == Option::Some(2usize) && final(rt).stack@ == popped,
                (Option::None, _) => r matches Result::Err(m) && m@ == expected_msg(
                    "number"@,
                    spec_type_text(val_of(spec_resolve(popped, s0[s0.len() - 2]))),
                ) && final(rt).arg_err_index == Option::Some(1usize) && final(rt).stack@ == popped,
            }
        }),
{
    let jv = rt.stack.pop().unwrap();
    let iv = rt.stack.pop().unwrap();
    let v = rt.stack.pop().unwrap();
    let i_bits = match resolve(&rt.stack, &iv) {
        Variable::F64(bits, _) => Option::Some(*bits),
        x => {
            let found = type_text(x);
            let msg = arg_type_err(rt, 1, found, "number");
            return Result::Err(msg);
        },
    };
    let j_bits = match resolve(&rt.stack, &jv) {
        Variable::F64(bits, _) => Option::Some(*bits),
        x => {
            let found = type_text(x);
            let msg = arg_type_err(rt, 2, found, "number");
            return Result::Err(msg);
        },
    };
    let i = bits_trunc_u64(i_bits.unwrap());
    let j = bits_trunc_u64(j_bits.unwrap());
    match v {
        Variable::Ref(ind) => {
            let slot = rt.stack.remove(ind);
            match slot {
                Variable::Array(arr) => {
                    proof {
                        assert(arr.len() == arr@.len());
                    }
                    if i >= arr.len() as u64 || j >= arr.len() as u64 {
                        rt.stack.insert(ind, Variable::Array(arr));
                        proof {
                            assert(rt.stack@ =~= old(rt).stack@.drop_last().drop_last().drop_last());
                        }
                        return Result::Err("Index out of bounds".to_owned());
                    }
                    let out = swapped_move(arr, i as usize, j as usize);
                    rt.stack.insert(ind, Variable::Array(out));
                    Result::Ok(())
                },
                x => {
                    rt.stack.insert(ind, x);
                    proof {
                        assert(rt.stack@ =~= old(rt).stack@.drop_last().drop_last().drop_last());
                    }
                    rt.arg_err_index = Option::Some(0);
                    Result::Err("Expected reference to array".to_owned())
                },
            }
        },
        _ => {
            rt.arg_err_index = Option::Some(0);
            Result::Err("Expected reference to array".to_owned())
        },
    }
}


/// The bit pattern of the quiet NaN the folds start from.
pub open spec fn nan_seed() -> u64 {
    0x7ff8_0000_0000_0000
}

/// One step of the `min` fold: a number strictly below the accumulator, or
/// any number while the accumulator is still NaN, replaces it.
pub open spec fn min_step(acc: u64, v: Variable) -> u64 {
    match v {
        Variable::F64(bits, _) => if lt_bits(bits, acc) || is_nan_bits(acc) {
            bits
        } else {
            acc
        },
        _ => acc,
    }
}

/// One step of the `max` fold.
pub open spec fn max_step(acc: u64, v: Variable) -> u64 {
    match v {
        Variable::F64(bits, _) => if lt_bits(acc, bits) || is_nan_bits(acc) {
            bits
        } else {
            acc
        },
        _ => acc,
    }
}

/// The `min` fold over the resolved elements of an array.
pub open spec fn min_fold(stack: Seq<Variable>, elems: Seq<Variable>) -> u64
    decreases elems.len(),
{
    if elems.len() == 0 {
        nan_seed()
    } else {
        min_step(min_fold(stack, elems.drop_last()), spec_resolve(stack, elems.last()))
    }
}

/// The `max` fold over the resolved elements of an array.
pub open spec fn max_fold(stack: Seq<Variable>, elems: Seq<Variable>) -> u64
    decreases elems.len(),
{
    if elems.len() == 0 {
        nan_seed()
    } else {
        max_step(max_fold(stack, elems.drop_last()), spec_resolve(stack, elems.last()))
    }
}

/// Whether every stack reference among an array's elements stays within
/// the first `n` slots.
pub open spec fn elems_ref_in(elems: Seq<Variable>, n: int) -> bool {
    forall|k: int| 0 <= k < elems.len() ==> ref_in(#[trigger] elems[k], n)
}

/// Pops an array and pushes the least of its resolved numbers; elements
/// that are not numbers are passed over, and an array without numbers
/// gives NaN.
pub fn min(rt: &mut Runtime) -> (r: Result<(), String>)
    requires
        old(rt).stack@.len() >= 1,
        ref_in(old(rt).stack@.last(), old(rt).stack@.len() - 1),
        (spec_resolve(old(rt).stack@.drop_last(), old(rt).stack@.last()) matches Variable::Array(
            arr,
        ) ==> elems_ref_in(arr@, old(rt).stack@.len() - 1)),
    ensures
        tables_unchanged(*old(rt), *final(rt)),
        ({
            let popped = old(rt).stack@.drop_last();
            let v = spec_resolve(popped, old(rt).stack@.last());
            match v {
                Variable::Array(arr) => r is Ok && vals_of(final(rt).stack@) == vals_of(
                    popped,
                ).push(Val::Num { bits: min_fold(popped, arr@), why: Option::None }) && final(rt).arg_err_index == old(rt).arg_err_index,
                _ => r matches Result::Err(m) && m@ == expected_msg(
                    "array"@,
                    spec_type_text(val_of(v)),
                ) && final(rt).stack@ == popped && final(rt).arg_err_index == Option::Some(0usize),
            }
        }),
{
    broadcast use lemma_vals_of_push;

    let v = rt.stack.pop().unwrap();
    let found;
    match resolve(&rt.stack, &v) {
        Variable::Array(arr) => {
            let mut acc: u64 = 0x7ff8_0000_0000_0000;
            let n = arr.len();
            let mut k: usize = 0;
            while k < n
                invariant
                    k <= n == arr@.len(),
                    acc == min_fold(rt.stack@, arr@.take(k as int)),
                    elems_ref_in(arr@, rt.stack@.len() as int),
                decreases n - k,
            {
                proof {
                    assert(arr@.take(k + 1).drop_last() =~= arr@.take(k as int));
                    assert(arr@.take(k + 1).last() == arr@[k as int]);
                }
                match resolve(&rt.stack, &arr[k]) {
                    Variable::F64(bits, _) => {
                        if less_bits(*bits, acc) || nan_bits(acc) {
                            acc = *bits;
                        }
                    },
                    _ => {},
                }
                k = k + 1;
            }
            proof {
                assert(arr@.take(n as int) =~= arr@);
            }
            let nv = Variable::F64(acc, Option::None);
            let ghost gnv = nv;
            rt.stack.push(nv);
            proof {
                assert(val_of(gnv) == Val::Num {
                    bits: min_fold(old(rt).stack@.drop_last(), arr@),
                    why: crate::val::chain_view(Option::None),
                });
            }
            return Result::Ok(());
        },
        x => {
            found = type_text(x);
        },
    }
    let msg = arg_type_err(rt, 0, found, "array");
    Result::Err(msg)
}

/// Pops an array and pushes the greatest of its resolved numbers; elements
/// that are not numbers are passed over, and an array without numbers
/// gives NaN.
pub fn max(rt: &mut Runtime) -> (r: Result<(), String>)
    requires
        old(rt).stack@.len() >= 1,
        ref_in(old(rt).stack@.last(), old(rt).stack@.len() - 1),
        (spec_resolve(old(rt).stack@.drop_last(), old(rt).stack@.last()) matches Variable::Array(
            arr,
        ) ==> elems_ref_in(arr@, old(rt).stack@.len() - 1)),
    ensures
        tables_unchanged(*old(rt), *final(rt)),
        ({
            let popped = old(rt).stack@.drop_last();
            let v = spec_resolve(popped, old(rt).stack@.last());
            match v {
                Variable::Array(arr) => r is Ok && vals_of(final(rt).stack@) == vals_of(
                    popped,
                ).push(Val::Num { bits: max_fold(popped, arr@), why: Option::None }) && final(rt).arg_err_index == old(rt).arg_err_index,
                _ => r matches Result::Err(m) && m@ == expected_msg(
                    "array"@,
                    spec_type_text(val_of(v)),
                ) && final(rt).stack@ == popped && final(rt).arg_err_index == Option::Some(0usize),
            }
        }),
{
    broadcast use lemma_vals_of_push;

    let v = rt.stack.pop().unwrap();
    let found;
    match resolve(&rt.stack, &v) {
        Variable::Array(arr) => {
            let mut acc: u64 = 0x7ff8_0000_0000_0000;
            let n = arr.len();
            let mut k: usize = 0;
            while k < n
                invariant
                    k <= n == arr@.len(),
                    acc == max_fold(rt.stack@, arr@.take(k as int)),
                    elems_ref_in(arr@, rt.stack@.len() as int),
                decreases n - k,
            {
                proof {
                    assert(arr@.take(k + 1).drop_last() =~= arr@.take(k as int));
                    assert(arr@.take(k + 1).last() == arr@[k as int]);
                }
                match resolve(&rt.stack, &arr[k]) {
                    Variable::F64(bits, _) => {
                        if less_bits(acc, *bits) || nan_bits(acc) {
                            acc = *bits;
                        }
                    },
                    _ => {},
                }
                k = k + 1;
            }
            proof {
                assert(arr@.take(n as int) =~= arr@);
            }
            let nv = Variable::F64(acc, Option::None);
            let ghost gnv = nv;
            rt.stack.push(nv);
            proof {
                assert(val_of(gnv) == Val::Num {
                    bits: max_fold(old(rt).stack@.drop_last(), arr@),
                    why: crate::val::chain_view(Option::None),
                });
            }
            return Result::Ok(());
        },
        x => {
            found = type_text(x);
        },
    }
    let msg = arg_type_err(rt, 0, found, "array");
    Result::Err(msg)
}

/// Whether an object holds a key.
pub open spec fn obj_has_key(entries: Seq<Entry>, key: Seq<char>) -> bool {
    exists|k: int| 0 <= k < entries.len() && entries[k].key@ == key
}

/// Whether an object's entries hold a key.
fn obj_contains(entries: &Vec<Entry>, key: &str) -> (r: bool)
    ensures
        r == obj_has_key(entries@, key@),
{
    let n = entries.len();
    let mut k: usize = 0;
    while k < n
        invariant
            k <= n == entries@.len(),
            forall|x: int| 0 <= x < k ==> #[trigger] entries@[x].key@ != key@,
        decreases n - k,
    {
        if str_eq(entries[k].key.as_str(), key) {
            return true;
        }
        k = k + 1;
    }
    false
}

/// Pops a key and an object and pushes whether the object holds the key.
pub fn has(rt: &mut Runtime) -> (r: Result<(), String>)
    requires
        old(rt).stack@.len() >= 2,
        ref_in(old(rt).stack@.last(), old(rt).stack@.len() - 2),
        ref_in(old(rt).stack@[old(rt).stack@.len() - 2], old(rt).stack@.len() - 2),
    ensures
        tables_unchanged(*old(rt), *final(rt)),
        ({
            let s0 = old(rt).stack@;
            let popped = s0.drop_last().drop_last();
            let kv = spec_resolve(popped, s0.last());
            let ov = spec_resolve(popped, s0[s0.len() - 2]);
            match kv {
                Variable::Text(key) => match ov {
                    Variable::Object(entries) => r is Ok && vals_of(final(rt).stack@) == vals_of(
                        popped,
                    ).push(Val::Bool { b: obj_has_key(entries@, key@), why: Option::None }) && final(rt).arg_err_index == old(rt).arg_err_index,
                    _ => r matches Result::Err(m) && m@ == expected_msg(
                        "object"@,
                        spec_type_text(val_of(ov)),
                    ) && final(rt).stack@ == popped && final(rt).arg_err_index == Option::Some(
                        0usize,
                    ),
                },
                _ => r matches Result::Err(m) && m@ == expected_msg(
                    "str"@,
                    spec_type_text(val_of(kv)),
                ) && final(rt).stack@ == popped && final(rt).arg_err_index == Option::Some(1usize),
            }
        }),
{
    broadcast use lemma_vals_of_push;

    let kv = rt.stack.pop().unwrap();
    let ov = rt.stack.pop().unwrap();
    let key_found;
    match resolve(&rt.stack, &kv) {
        Variable::Text(key) => {
            let obj_found;
            match resolve(&rt.stack, &ov) {
                Variable::Object(entries) => {
                    let present = obj_contains(entries, key.as_str());
                    let nv = Variable::Bool(present, Option::None);
                    let ghost gnv = nv;
                    rt.stack.push(nv);
                    proof {
                        assert(val_of(gnv) == Val::Bool {
                            b: present,
                            why: crate::val::chain_view(Option::None),
                        });
                    }
                    return Result::Ok(());
                },
                x => {
                    obj_found = type_text(x);
                },
            }
            let msg = arg_type_err(rt, 0, obj_found, "object");
            return Result::Err(msg);
        },
        x => {
            key_found = type_text(x);
        },
    }
    let msg = arg_type_err(rt, 1, key_found, "str");
    Result::Err(msg)
}

/// The key texts of an object's entries, in storage order.
pub open spec fn key_texts(entries: Seq<Entry>) -> Seq<Val> {
    Seq::new(entries.len(), |k: int| Val::Text(entries[k].key@))
}

/// Pops an object and pushes the array of its keys; a well-formed object
/// lists each key exactly once.
pub fn keys(rt: &mut Runtime) -> (r: Result<(), String>)
    requires
        old(rt).stack@.len() >= 1,
        ref_in(old(rt).stack@.last(), old(rt).stack@.len() - 1),
    ensures
        tables_unchanged(*old(rt), *final(rt)),
        ({
            let popped = old(rt).stack@.drop_last();
            let v = spec_resolve(popped, old(rt).stack@.last());
            match v {
                Variable::Object(entries) => r is Ok && vals_of(final(rt).stack@) == vals_of(
                    popped,
                ).push(Val::Array(key_texts(entries@))) && final(rt).arg_err_index == old(rt).arg_err_index && (crate::val::obj_keys_unique(entries@) ==> (forall|x: int, y: int|
                    0 <= x < y < entries@.len() ==> #[trigger] key_texts(entries@)[x]
                        != #[trigger] key_texts(entries@)[y])),
                _ => r matches Result::Err(m) && m@ == expected_msg(
                    "object"@,
                    spec_type_text(val_of(v)),
                ) && final(rt).stack@ == popped && final(rt).arg_err_index == Option::Some(0usize),
            }
        }),
{
    broadcast use lemma_vals_of_push;

    let v = rt.stack.pop().unwrap();
    let found;
    match resolve(&rt.stack, &v) {
        Variable::Object(entries) => {
            let n = entries.len();
            let mut out: Vec<Variable> = Vec::new();
            let mut k: usize = 0;
            while k < n
                invariant
                    k <= n == entries@.len(),
                    out@.len() == k,
                    forall|x: int|
                        0 <= x < k ==> val_of(#[trigger] out@[x]) == Val::Text(entries@[x].key@),
                decreases n - k,
            {
                out.push(Variable::Text(entries[k].key.clone()));
                k = k + 1;
            }
            proof {
                lemma_vals_of_len(out@);
                assert forall|x: int| 0 <= x < n implies vals_of(out@)[x] == key_texts(entries@)[x] by {
                    lemma_vals_of_index(out@, x);
                }
                assert(vals_of(out@) =~= key_texts(entries@));
            }
            rt.stack.push(Variable::Array(out));
            return Result::Ok(());
        },
        x => {
            found = type_text(x);
        },
    }
    let msg = arg_type_err(rt, 0, found, "object");
    Result::Err(msg)
}

} // verus!
