//! The persistent link: an immutable, cheaply shareable sequence with
//! double-ended trimming.
//!
//! A link is a window into a reference-counted spine. Clones share the
//! spine, so a link observed by several holders is immutable: the one
//! mutator, `push`, builds a fresh spine and leaves every other holder
//! untouched. The four reads and the emptiness test take constant time and
//! copy nothing.

use vstd::prelude::*;

verus! {

use crate::val::Variable;
use crate::val::Val;
use crate::val::vals_of;
use crate::val::deep_clone;
use crate::val::val_of;
use std::rc::Rc;

/// A persistent link: a shared spine and the window of it this handle sees.
pub struct Link {
    items: Rc<Vec<Variable>>,
    start: usize,
    end: usize,
}

impl Link {
    /// The window lies within the spine.
    #[verifier::type_invariant]
    spec fn wf(self) -> bool {
        self.start <= self.end <= self.items@.len()
    }
}

/// The sequence of element views a link presents.
pub closed spec fn link_view(l: Link) -> Seq<Val>
    decreases l, 1int,
{
    if l.start <= l.end <= l.items@.len() {
        vals_of(l.items@).subrange(l.start as int, l.end as int)
    } else {
        Seq::empty()
    }
}

/// Relies on std's Rc::clone: the clone shares the spine allocation, so
/// its value is the same vector.
#[verifier::external_body]
fn clone_spine(items: &Rc<Vec<Variable>>) -> (r: Rc<Vec<Variable>>)
    ensures
        r == *items,
{
    items.clone()
}

/// A fresh, empty link.
pub fn new_link() -> (r: Link)
    ensures
        link_view(r) == Seq::<Val>::empty(),
{
    broadcast use crate::val::lemma_vals_of_len, crate::val::lemma_vals_of_index;

    let items: Vec<Variable> = Vec::new();
    let r = Link { items: Rc::new(items), start: 0, end: 0 };
    proof {
        assert(link_view(r) =~= Seq::<Val>::empty());
    }
    r
}

/// A clone sharing the spine: the same sequence.
pub fn clone_link(l: &Link) -> (r: Link)
    ensures
        link_view(r) == link_view(*l),
{
    broadcast use crate::val::lemma_vals_of_len, crate::val::lemma_vals_of_index;

    proof {
        use_type_invariant(l);
        crate::val::lemma_vals_of_len(l.items@);
    }
    Link { items: clone_spine(&l.items), start: l.start, end: l.end }
}

/// Whether the link is empty. Constant time.
pub fn link_is_empty(l: &Link) -> (r: bool)
    ensures
        r == (link_view(*l).len() == 0),
{
    broadcast use crate::val::lemma_vals_of_len, crate::val::lemma_vals_of_index;

    proof {
        use_type_invariant(l);
        crate::val::lemma_vals_of_len(l.items@);
    }
    l.start == l.end
}

/// The first element, or absent when the link is empty. Constant time.
pub fn link_head(l: &Link) -> (r: Option<Box<Variable>>)
    ensures
        match r {
            Option::Some(v) => link_view(*l).len() > 0 && val_of(*v) == link_view(*l)[0],
            Option::None => link_view(*l).len() == 0,
        },
{
    broadcast use crate::val::lemma_vals_of_len, crate::val::lemma_vals_of_index;

    proof {
        use_type_invariant(l);
        crate::val::lemma_vals_of_len(l.items@);
    }
    if l.start == l.end {
        Option::None
    } else {
        Option::Some(Box::new(deep_clone(&l.items[l.start])))
    }
}

/// The last element, or absent when the link is empty. Constant time.
pub fn link_tip(l: &Link) -> (r: Option<Box<Variable>>)
    ensures
        match r {
            Option::Some(v) => link_view(*l).len() > 0 && val_of(*v) == link_view(*l).last(),
            Option::None => link_view(*l).len() == 0,
        },
{
    broadcast use crate::val::lemma_vals_of_len, crate::val::lemma_vals_of_index;

    proof {
        use_type_invariant(l);
        crate::val::lemma_vals_of_len(l.items@);
    }
    if l.start == l.end {
        Option::None
    } else {
        Option::Some(Box::new(deep_clone(&l.items[l.end - 1])))
    }
}

/// The sub-link with the first element removed; the empty link stays
/// empty. Constant time, sharing the spine.
pub fn link_tail(l: &Link) -> (r: Link)
    ensures
        link_view(r) == if link_view(*l).len() == 0 {
            link_view(*l)
        } else {
            link_view(*l).drop_first()
        },
{
    broadcast use crate::val::lemma_vals_of_len, crate::val::lemma_vals_of_index;

    proof {
        use_type_invariant(l);
        crate::val::lemma_vals_of_len(l.items@);
    }
    let r = if l.start == l.end {
        Link { items: clone_spine(&l.items), start: l.start, end: l.end }
    } else {
        Link { items: clone_spine(&l.items), start: l.start + 1, end: l.end }
    };
    proof {
        if link_view(*l).len() == 0 {
            assert(link_view(r) =~= link_view(*l));
        } else {
            assert(link_view(r) =~= link_view(*l).drop_first());
        }
    }
    r
}

/// The sub-link with the last element removed; the empty link stays
/// empty. Constant time, sharing the spine.
pub fn link_neck(l: &Link) -> (r: Link)
    ensures
        link_view(r) == if link_view(*l).len() == 0 {
            link_view(*l)
        } else {
            link_view(*l).drop_last()
        },
{
    broadcast use crate::val::lemma_vals_of_len, crate::val::lemma_vals_of_index;

    proof {
        use_type_invariant(l);
        crate::val::lemma_vals_of_len(l.items@);
    }
    let r = if l.start == l.end {
        Link { items: clone_spine(&l.items), start: l.start, end: l.end }
    } else {
        Link { items: clone_spine(&l.items), start: l.start, end: l.end - 1 }
    };
    proof {
        if link_view(*l).len() == 0 {
            assert(link_view(r) =~= link_view(*l));
        } else {
            assert(link_view(r) =~= link_view(*l).drop_last());
        }
    }
    r
}

/// Extends the conceptual front with a deep clone of the item, building a
/// fresh spine; other holders of the old spine are untouched. The window
/// representation keeps the structural invariant by construction, so the
/// push always succeeds.
pub fn link_push(l: &mut Link, item: &Variable) -> (r: Result<(), String>)
    ensures
        r is Ok,
        link_view(*final(l)) == seq![val_of(*item)] + link_view(*old(l)),
{
    broadcast use crate::val::lemma_vals_of_len, crate::val::lemma_vals_of_index;

    proof {
        use_type_invariant(&*l);
        crate::val::lemma_vals_of_len(l.items@);
    }
    let mut items: Vec<Variable> = Vec::new();
    items.push(deep_clone(item));
    let mut i: usize = l.start;
    while i < l.end
        invariant
            l.start <= i <= l.end <= l.items@.len(),
            items@.len() == 1 + i - l.start,
            val_of(items@[0]) == val_of(*item),
            forall|j: int|
                1 <= j < items@.len() ==> val_of(items@[j]) == val_of(
                    l.items@[l.start + j - 1],
                ),
        decreases l.end - i,
    {
        items.push(deep_clone(&l.items[i]));
        i = i + 1;
    }
    let end = items.len();
    let next = Link { items: Rc::new(items), start: 0, end };
    proof {
        crate::val::lemma_vals_of_len(next.items@);
        assert forall|j: int| 0 <= j < end implies vals_of(next.items@)[j] == val_of(
            next.items@[j],
        ) by {
            crate::val::lemma_vals_of_index(next.items@, j);
        }
        assert(link_view(next) =~= seq![val_of(*item)] + link_view(*l));
    }
    *l = next;
    Result::Ok(())
}


/// Pops a link and pushes its first element as an option.
pub fn head(rt: &mut crate::rt::Runtime) -> (r: Result<(), String>)
    requires
        old(rt).stack@.len() >= 1,
        crate::rt::ref_in(old(rt).stack@.last(), old(rt).stack@.len() - 1),
    ensures
        crate::rt::tables_unchanged(*old(rt), *final(rt)),
        ({
            let popped = old(rt).stack@.drop_last();
            let v = crate::rt::spec_resolve(popped, old(rt).stack@.last());
            match v {
                Variable::Link(l) => r is Ok && vals_of(final(rt).stack@) == vals_of(popped).push(
                    if link_view(l).len() == 0 {
                        Val::Opt(Option::None)
                    } else {
                        Val::Opt(Option::Some(Box::new(link_view(l)[0])))
                    },
                ) && final(rt).arg_err_index == old(rt).arg_err_index,
                _ => r matches Result::Err(m) && m@ == crate::rt::expected_msg(
                    "link"@,
                    crate::val::spec_type_text(val_of(v)),
                ) && final(rt).stack@ == popped && final(rt).arg_err_index == Option::Some(0usize),
            }
        }),
{
    broadcast use crate::val::lemma_vals_of_push;

    let v = rt.stack.pop().unwrap();
    let found;
    match crate::rt::resolve(&rt.stack, &v) {
        Variable::Link(l) => {
            let o = link_head(l);
            let nv = Variable::Option(o);
            let ghost gnv = nv;
            rt.stack.push(nv);
            proof {
                assert(val_of(gnv) == (match gnv {
                    Variable::Option(Option::None) => Val::Opt(Option::None),
                    Variable::Option(Option::Some(b)) => Val::Opt(
                        Option::Some(Box::new(val_of(*b))),
                    ),
                    _ => Val::Return,
                }));
            }
            return Result::Ok(());
        },
        x => {
            found = crate::val::type_text(x);
        },
    }
    let msg = crate::rt::arg_type_err(rt, 0, found, "link");
    Result::Err(msg)
}

/// Pops a link and pushes its last element as an option.
pub fn tip(rt: &mut crate::rt::Runtime) -> (r: Result<(), String>)
    requires
        old(rt).stack@.len() >= 1,
        crate::rt::ref_in(old(rt).stack@.last(), old(rt).stack@.len() - 1),
    ensures
        crate::rt::tables_unchanged(*old(rt), *final(rt)),
        ({
            let popped = old(rt).stack@.drop_last();
            let v = crate::rt::spec_resolve(popped, old(rt).stack@.last());
            match v {
                Variable::Link(l) => r is Ok && vals_of(final(rt).stack@) == vals_of(popped).push(
                    if link_view(l).len() == 0 {
                        Val::Opt(Option::None)
                    } else {
                        Val::Opt(Option::Some(Box::new(link_view(l).last())))
                    },
                ) && final(rt).arg_err_index == old(rt).arg_err_index,
                _ => r matches Result::Err(m) && m@ == crate::rt::expected_msg(
                    "link"@,
                    crate::val::spec_type_text(val_of(v)),
                ) && final(rt).stack@ == popped && final(rt).arg_err_index == Option::Some(0usize),
            }
        }),
{
    broadcast use crate::val::lemma_vals_of_push;

    let v = rt.stack.pop().unwrap();
    let found;
    match crate::rt::resolve(&rt.stack, &v) {
        Variable::Link(l) => {
            let o = link_tip(l);
            let nv = Variable::Option(o);
            let ghost gnv = nv;
            rt.stack.push(nv);
            proof {
                assert(val_of(gnv) == (match gnv {
                    Variable::Option(Option::None) => Val::Opt(Option::None),
                    Variable::Option(Option::Some(b)) => Val::Opt(
                        Option::Some(Box::new(val_of(*b))),
                    ),
                    _ => Val::Return,
                }));
            }
            return Result::Ok(());
        },
        x => {
            found = crate::val::type_text(x);
        },
    }
    let msg = crate::rt::arg_type_err(rt, 0, found, "link");
    Result::Err(msg)
}

/// Pops a link and pushes the sub-link without its first element.
pub fn tail(rt: &mut crate::rt::Runtime) -> (r: Result<(), String>)
    requires
        old(rt).stack@.len() >= 1,
        crate::rt::ref_in(old(rt).stack@.last(), old(rt).stack@.len() - 1),
    ensures
        crate::rt::tables_unchanged(*old(rt), *final(rt)),
        ({
            let popped = old(rt).stack@.drop_last();
            let v = crate::rt::spec_resolve(popped, old(rt).stack@.last());
            match v {
                Variable::Link(l) => r is Ok && vals_of(final(rt).stack@) == vals_of(popped).push(
                    Val::Link(
                        if link_view(l).len() == 0 {
                            link_view(l)
                        } else {
                            link_view(l).drop_first()
                        },
                    ),
                ) && final(rt).arg_err_index == old(rt).arg_err_index,
                _ => r matches Result::Err(m) && m@ == crate::rt::expected_msg(
                    "link"@,
                    crate::val::spec_type_text(val_of(v)),
                ) && final(rt).stack@ == popped && final(rt).arg_err_index == Option::Some(0usize),
            }
        }),
{
    broadcast use crate::val::lemma_vals_of_push;

    let v = rt.stack.pop().unwrap();
    let found;
    match crate::rt::resolve(&rt.stack, &v) {
        Variable::Link(l) => {
            let t = link_tail(l);
            let nv = Variable::Link(t);
            rt.stack.push(nv);
            return Result::Ok(());
        },
        x => {
            found = crate::val::type_text(x);
        },
    }
    let msg = crate::rt::arg_type_err(rt, 0, found, "link");
    Result::Err(msg)
}

/// Pops a link and pushes the sub-link without its last element.
pub fn neck(rt: &mut crate::rt::Runtime) -> (r: Result<(), String>)
    requires
        old(rt).stack@.len() >= 1,
        crate::rt::ref_in(old(rt).stack@.last(), old(rt).stack@.len() - 1),
    ensures
        crate::rt::tables_unchanged(*old(rt), *final(rt)),
        ({
            let popped = old(rt).stack@.drop_last();
            let v = crate::rt::spec_resolve(popped, old(rt).stack@.last());
            match v {
                Variable::Link(l) => r is Ok && vals_of(final(rt).stack@) == vals_of(popped).push(
                    Val::Link(
                        if link_view(l).len() == 0 {
                            link_view(l)
                        } else {
                            link_view(l).drop_last()
                        },
                    ),
                ) && final(rt).arg_err_index == old(rt).arg_err_index,
                _ => r matches Result::Err(m) && m@ == crate::rt::expected_msg(
                    "link"@,
                    crate::val::spec_type_text(val_of(v)),
                ) && final(rt).stack@ == popped && final(rt).arg_err_index == Option::Some(0usize),
            }
        }),
{
    broadcast use crate::val::lemma_vals_of_push;

    let v = rt.stack.pop().unwrap();
    let found;
    match crate::rt::resolve(&rt.stack, &v) {
        Variable::Link(l) => {
            let t = link_neck(l);
            let nv = Variable::Link(t);
            rt.stack.push(nv);
            return Result::Ok(());
        },
        x => {
            found = crate::val::type_text(x);
        },
    }
    let msg = crate::rt::arg_type_err(rt, 0, found, "link");
    Result::Err(msg)
}

/// Pops a link and pushes whether it is empty.
pub fn is_empty(rt: &mut crate::rt::Runtime) -> (r: Result<(), String>)
    requires
        old(rt).stack@.len() >= 1,
        crate::rt::ref_in(old(rt).stack@.last(), old(rt).stack@.len() - 1),
    ensures
        crate::rt::tables_unchanged(*old(rt), *final(rt)),
        ({
            let popped = old(rt).stack@.drop_last();
            let v = crate::rt::spec_resolve(popped, old(rt).stack@.last());
            match v {
                Variable::Link(l) => r is Ok && vals_of(final(rt).stack@) == vals_of(popped).push(
                    Val::Bool { b: link_view(l).len() == 0, why: Option::None },
                ) && final(rt).arg_err_index == old(rt).arg_err_index,
                _ => r matches Result::Err(m) && m@ == crate::rt::expected_msg(
                    "link"@,
                    crate::val::spec_type_text(val_of(v)),
                ) && final(rt).stack@ == popped && final(rt).arg_err_index == Option::Some(0usize),
            }
        }),
{
    broadcast use crate::val::lemma_vals_of_push;

    let v = rt.stack.pop().unwrap();
    let found;
    match crate::rt::resolve(&rt.stack, &v) {
        Variable::Link(l) => {
            let b = link_is_empty(l);
            let nv = Variable::Bool(b, Option::None);
            let ghost gnv = nv;
            rt.stack.push(nv);
            proof {
                assert(val_of(gnv) == Val::Bool {
                    b,
                    why: crate::val::chain_view(Option::None),
                });
            }
            return Result::Ok(());
        },
        x => {
            found = crate::val::type_text(x);
        },
    }
    let msg = crate::rt::arg_type_err(rt, 0, found, "link");
    Result::Err(msg)
}


/// The number of elements a link presents. Constant time.
pub fn link_len(l: &Link) -> (r: usize)
    ensures
        r == link_view(*l).len(),
{
    proof {
        use_type_invariant(l);
        crate::val::lemma_vals_of_len(l.items@);
    }
    l.end - l.start
}

/// A borrow of one element of a link.
pub fn link_item<'a>(l: &'a Link, k: usize) -> (r: &'a Variable)
    requires
        k < link_view(*l).len(),
    ensures
        val_of(*r) == link_view(*l)[k as int],
        decreases_to!(*l => *r),
{
    proof {
        use_type_invariant(l);
        crate::val::lemma_vals_of_len(l.items@);
        crate::val::lemma_vals_of_index(l.items@, l.start + k);
    }
    let r = &l.items[l.start + k];
    proof {
        assert(decreases_to!(*l => l.items));
        assert(decreases_to!(l.items => l.items@));
        assert(decreases_to!(l.items@ => l.items@[l.start + k]));
    }
    r
}

} // verus!
