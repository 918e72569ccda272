//! The laws the core keeps, stated over the same views its contracts use.

use vstd::prelude::*;

verus! {

use crate::val::Val;
use crate::val::Variable;
use crate::rt::attached_chain;
use crate::module::ModuleView;
use crate::module::FnIndex;
use crate::module::spec_find_function;
use crate::dispatch::dispatch_outcome;
use crate::dispatch::arity_msg;
use crate::dispatch::load_failure_msg;
use crate::dispatch::with_fns;
use crate::dispatch::load_base_view;
use crate::module::FnView;
use crate::val::keys_unique;
use crate::data::p_object;
use crate::data::p_expr;
use crate::data::p_comma;
use crate::data::obj_insert;
use crate::data::ws_end;
use crate::data::token_end;
use crate::data::at_char;
use crate::data::lemma_obj_insert_keeps_unique;

/// The chain a fresh boolean carries after attaching explanations in
/// order, oldest first.
pub open spec fn chain_after(es: Seq<Val>) -> Seq<Val>
    decreases es.len(),
{
    if es.len() == 0 {
        Seq::empty()
    } else if es.len() == 1 {
        attached_chain(Option::None, es.last())
    } else {
        attached_chain(Option::Some(chain_after(es.drop_last())), es.last())
    }
}

/// Attaching explanations in order and then reading yields exactly those
/// explanations, in the order they were attached — oldest first: reading
/// pushes the chain as it stands, and attaching only ever appends.
pub proof fn lemma_attach_then_read(es: Seq<Val>)
    ensures
        chain_after(es) == es,
    decreases es.len(),
{
    if es.len() == 0 {
        assert(chain_after(es) =~= es);
    } else if es.len() == 1 {
        assert(chain_after(es) =~= es);
    } else {
        lemma_attach_then_read(es.drop_last());
        assert(chain_after(es) =~= es);
    }
}

/// The sequence a link presents after `k` repeated tails.
pub open spec fn tails_of(v: Seq<Val>, k: nat) -> Seq<Val>
    decreases k,
{
    if k == 0 {
        v
    } else if v.len() == 0 {
        Seq::empty()
    } else {
        tails_of(v.drop_first(), (k - 1) as nat)
    }
}

/// Repeated tails empty a link in exactly as many steps as it has
/// elements: after fewer steps something is left, after that many nothing.
pub proof fn lemma_tails_reach_empty(v: Seq<Val>, k: nat)
    ensures
        tails_of(v, v.len()).len() == 0,
        k < v.len() ==> tails_of(v, k).len() == v.len() - k,
    decreases v.len(),
{
    if v.len() > 0 {
        lemma_tails_reach_empty(v.drop_first(), if k > 0 {
            (k - 1) as nat
        } else {
            0
        });
        if k < v.len() && k > 0 {
            lemma_tails_reach_empty(v.drop_first(), (k - 1) as nat);
        }
    }
}

/// Trimming the last element and then the first keeps exactly the middle
/// of a link: every element but possibly the first and last.
pub proof fn lemma_tail_of_neck_keeps_middle(v: Seq<Val>)
    requires
        v.len() >= 2,
    ensures
        v.drop_last().drop_first() == v.subrange(1, v.len() - 1),
        forall|j: int| 1 <= j < v.len() - 1 ==> v.drop_last().drop_first()[j - 1] == v[j],
{
    assert(v.drop_last().drop_first() =~= v.subrange(1, v.len() - 1));
}

/// A failed load's message carries the loader's diagnostic whole: the
/// formatted report is the fixed preamble followed by the diagnostic.
pub proof fn lemma_load_failure_contains_detail(detail: Seq<char>)
    ensures
        load_failure_msg(detail).len() == 32 + detail.len(),
        load_failure_msg(detail).subrange(32, 32 + detail.len() as int) == detail,
{
    reveal_strlit("When attempting to load module:\n");
    assert(load_failure_msg(detail).subrange(32, 32 + detail.len() as int) =~= detail);
}

/// Loading the same text twice under the same compiler outcome builds two
/// handles with identical tables: the loaded view holds exactly the
/// compiled functions, the current module's intrinsics and its prelude,
/// nothing else. The handles are independent because a module is immutable
/// once built — no operation of the library changes one — so holding or
/// dispatching through one never affects the other. The text-to-table
/// compiler is an external collaborator, so its determinism is not
/// statable here; this law covers everything after its outcome.
pub proof fn lemma_load_deterministic(mv: ModuleView, fns: Seq<FnView>)
    ensures
        with_fns(load_base_view(mv), fns).fns == fns,
        with_fns(load_base_view(mv), fns).intrinsics == mv.intrinsics,
        with_fns(load_base_view(mv), fns).ext == mv.ext,
{
    assert(Seq::<FnView>::empty() + fns =~= fns);
}

/// A call whose argument count differs from the callee's parameter count
/// is rejected with the arity report before anything runs: the dispatch
/// outcome is that error, whatever the arguments hold.
pub proof fn lemma_arity_mismatch_rejected(
    mv: ModuleView,
    name: Seq<char>,
    stack: Seq<Variable>,
    elems: Seq<Variable>,
    ix: usize,
)
    requires
        spec_find_function(mv, name) == FnIndex::Loaded(ix),
        ix < mv.fns.len(),
        mv.fns[ix as int].params.len() != elems.len(),
    ensures
        dispatch_outcome(mv, name, stack, elems) == Result::<
            Result<Option<Val>, Seq<char>>,
            (Option<usize>, Seq<char>),
        >::Err((Option::Some(2usize), arity_msg(mv.fns[ix as int].params.len(), elems.len()))),
{
}

/// Every object the literal decoder yields at the top of an object
/// expression binds each key at most once: bindings fold in with
/// replace-on-duplicate, which keeps the keys unique from any unique
/// start — the decoder starts from the empty one.
pub proof fn lemma_decoded_object_keys_unique(
    s: Seq<char>,
    i: int,
    es: Seq<(Seq<char>, Val)>,
    wc: bool,
)
    requires
        keys_unique(es),
    ensures
        (p_object(s, i, es, wc) matches Result::Ok(p) ==> (p.0 matches Val::Object(out)
            ==> keys_unique(out))),
    decreases s.len() - i,
{
    if i < 0 || i > s.len() {
    } else {
        let k = ws_end(s, i);
        if at_char(s, k, '}') {
        } else if es.len() > 0 && !wc {
        } else {
            let te = token_end(s, k);
            if te <= k {
            } else {
                let key = s.subrange(k, te);
                let k2 = ws_end(s, te);
                if !at_char(s, k2, ':') {
                } else {
                    let k3 = ws_end(s, k2 + 1);
                    if !(i < k3 <= s.len()) {
                    } else {
                        match p_expr(s, k3) {
                            Result::Err(_) => {},
                            Result::Ok((v, k4)) => {
                                let (wc2, k5) = p_comma(s, k4);
                                if i < k5 <= s.len() {
                                    lemma_obj_insert_keeps_unique(es, key, v);
                                    lemma_decoded_object_keys_unique(
                                        s,
                                        k5,
                                        obj_insert(es, key, v),
                                        wc2,
                                    );
                                }
                            },
                        }
                    }
                }
            }
        }
    }
}

} // verus!
