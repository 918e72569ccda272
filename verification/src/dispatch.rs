//! Module loading and the dynamic dispatcher.
//!
//! Loading builds a fresh module from the host intrinsics and the current
//! external prelude, merges any imports in order (first registration of a
//! foreign name wins), and hands the source text to the external compiler;
//! this core consumes only that compiler's outcome — a table of loaded
//! functions or a diagnostic — and wraps it as a shareable module handle
//! or a failure value.
//!
//! Dispatch resolves a name inside a module handle, checks the argument
//! count and the declared parameter lifetimes before any side effect, deep
//! clones every argument, and runs the callee on a fresh frame whose
//! diagnostics cite the caller's own source.

use vstd::prelude::*;

verus! {

use crate::val::Variable;
use crate::val::Val;
use crate::val::RustObject;
use crate::val::RustVal;
use crate::val::Error;
use crate::val::ErrVal;
use crate::val::val_of;
use crate::val::vals_of;
use crate::val::deep_clone;
use crate::val::type_text;
use crate::val::spec_type_text;
use crate::val::lemma_vals_of_push;
use crate::val::lemma_vals_of_len;
use crate::val::lemma_vals_of_index;
use crate::module::Module;
use crate::module::ModuleView;
use crate::module::LoadedFunction;
use crate::module::FnView;
use crate::module::FnIndex;
use crate::module::Lt;
use crate::module::Instr;
use crate::module::fn_views;
use crate::module::module_view;
use crate::module::merge_ext;
use crate::module::new_module_from;
use crate::module::merge_import;
use crate::module::register_functions;
use crate::module::find_function;
use crate::module::spec_find_function;
use crate::rt::Runtime;
use crate::rt::CallFrame;
use crate::rt::ref_in;
use crate::rt::spec_resolve;
use crate::rt::resolve;
use crate::rt::tables_unchanged;
use crate::rt::arg_type_err;
use crate::rt::expected_msg;
use crate::num::bits_of_int;
use crate::num::int_to_bits;
use crate::num::bits_to_int;
use crate::strutil::concat2;
use crate::strutil::concat3;
use crate::strutil::u64_to_string;
use crate::strutil::dec_digits;
use std::rc::Rc;

/// The diagnostic a failed load wraps.
pub open spec fn load_failure_msg(detail: Seq<char>) -> Seq<char> {
    "When attempting to load module:\n"@ + detail
}

/// The failure value a failed load pushes: the formatted diagnostic as the
/// message, with no trace lines.
pub open spec fn load_failure_val(detail: Seq<char>) -> Val {
    Val::Res(
        Result::Err(
            Box::new(ErrVal { message: Box::new(Val::Text(load_failure_msg(detail))), trace: Seq::empty() }),
        ),
    )
}

/// The handle value a successful load pushes: the fresh module, wrapped
/// as a success result.
pub open spec fn module_handle_val(mv: ModuleView) -> Val {
    Val::Res(Result::Ok(Box::new(Val::Rust(RustVal::Module(mv)))))
}

/// Builds the failure value of a failed load.
fn load_failure(detail: &str) -> (r: Variable)
    ensures
        val_of(r) == load_failure_val(detail@),
{
    let msg = concat2("When attempting to load module:\n", detail);
    let ghost gmsg = msg@;
    let message = Variable::Text(msg);
    let ghost gmessage = message;
    let trace: Vec<String> = Vec::new();
    let ghost gtrace = trace;
    let r = Variable::Result(Result::Err(Box::new(Error { message, trace })));
    proof {
        assert(val_of(gmessage) == Val::Text(gmsg));
        assert(gtrace.deep_view() =~= Seq::<Seq<char>>::empty());
        assert(val_of(r) == Val::Res(
            Result::Err(
                Box::new(
                    ErrVal { message: Box::new(Val::Text(gmsg)), trace: gtrace.deep_view() },
                ),
            ),
        ));
    }
    r
}

/// What a successful load's module view is: the current module's
/// intrinsics and prelude, the imports merged in order, and the compiled
/// functions registered last.
pub open spec fn merged_view(base: ModuleView, imports: Seq<ModuleView>) -> ModuleView
    decreases imports.len(),
{
    if imports.len() == 0 {
        base
    } else {
        merged_view(
            ModuleView {
                intrinsics: base.intrinsics,
                ext: merge_ext(base.ext, imports.first().ext),
                fns: base.fns + imports.first().fns,
            },
            imports.drop_first(),
        )
    }
}

/// The base module view a load starts from.
pub open spec fn load_base_view(mv: ModuleView) -> ModuleView {
    ModuleView { intrinsics: mv.intrinsics, ext: mv.ext, fns: Seq::empty() }
}

/// The view a loaded module has once the compiled functions join.
pub open spec fn with_fns(mv: ModuleView, fns: Seq<FnView>) -> ModuleView {
    ModuleView { intrinsics: mv.intrinsics, ext: mv.ext, fns: mv.fns + fns }
}

/// Loads a module from a source text already on the stack: the external
/// compiler's outcome for that text is consumed here. On success a fresh
/// read-only module handle is pushed, seeded with the current module's
/// intrinsics and external prelude; on failure a failure value wrapping
/// the compiler's diagnostic is pushed. Loading never fails the caller
/// itself unless the argument is not a text.
pub fn load(rt: &mut Runtime, compiled: Result<Vec<LoadedFunction>, String>) -> (r: Result<
    (),
    String,
>)
    requires
        old(rt).stack@.len() >= 1,
        ref_in(old(rt).stack@.last(), old(rt).stack@.len() - 1),
    ensures
        tables_unchanged(*old(rt), *final(rt)),
        ({
            let popped = old(rt).stack@.drop_last();
            let v = spec_resolve(popped, old(rt).stack@.last());
            match v {
                Variable::Text(_) => r is Ok && final(rt).arg_err_index == old(rt).arg_err_index
                    && vals_of(final(rt).stack@) == vals_of(popped).push(
                    match compiled {
                        Result::Ok(fns) => module_handle_val(
                            with_fns(load_base_view(module_view(*old(rt).module)), fn_views(fns@)),
                        ),
                        Result::Err(e) => load_failure_val(e@),
                    },
                ),
                _ => r matches Result::Err(m) && m@ == expected_msg(
                    "string"@,
                    spec_type_text(val_of(v)),
                ) && final(rt).stack@ == popped && final(rt).arg_err_index == Option::Some(0usize),
            }
        }),
{
    broadcast use lemma_vals_of_push;

    let v = rt.stack.pop().unwrap();
    let found;
    match resolve(&rt.stack, &v) {
        Variable::Text(_) => {
            let nv = match compiled {
                Result::Ok(fns) => {
                    let ghost gfns = fns@;
                    let mut m = new_module_from(&rt.module);
                    register_functions(&mut m, fns);
                    proof {
                        assert(module_view(m).fns =~= fn_views(gfns));
                        assert(module_view(m) == with_fns(
                            load_base_view(module_view(*old(rt).module)),
                            fn_views(gfns),
                        ));
                    }
                    let inner = Variable::RustObject(Box::new(RustObject::Module(Rc::new(m))));
                    let ghost ginner = inner;
                    let h = Variable::Result(Result::Ok(Box::new(inner)));
                    let ghost gh = h;
                    proof {
                        assert(val_of(ginner) == Val::Rust(
                            RustVal::Module(
                                with_fns(
                                    load_base_view(module_view(*old(rt).module)),
                                    fn_views(gfns),
                                ),
                            ),
                        ));
                        assert(val_of(gh) == module_handle_val(
                            with_fns(
                                load_base_view(module_view(*old(rt).module)),
                                fn_views(gfns),
                            ),
                        ));
                    }
                    h
                },
                Result::Err(e) => load_failure(e.as_str()),
            };
            let ghost gnv = nv;
            rt.stack.push(nv);
            return Result::Ok(());
        },
        x => {
            found = type_text(x);
        },
    }
    let msg = arg_type_err(rt, 0, found, "string");
    Result::Err(msg)
}

/// The module view an import item resolves to; meaningful only where the
/// item is a module handle.
pub open spec fn import_view(stack: Seq<Variable>, item: Variable) -> ModuleView {
    match spec_resolve(stack, item) {
        Variable::RustObject(r) => match *r {
            RustObject::Module(m) => module_view(*m),
            RustObject::Host { .. } => ModuleView {
                intrinsics: Seq::empty(),
                ext: Seq::empty(),
                fns: Seq::empty(),
            },
        },
        _ => ModuleView { intrinsics: Seq::empty(), ext: Seq::empty(), fns: Seq::empty() },
    }
}

/// Whether an import item resolves to a module handle.
pub open spec fn is_module_item(stack: Seq<Variable>, item: Variable) -> bool {
    spec_resolve(stack, item) matches Variable::RustObject(r) && *r matches RustObject::Module(_)
}

/// The module views of a sequence of import items.
pub open spec fn import_views(stack: Seq<Variable>, items: Seq<Variable>) -> Seq<ModuleView> {
    Seq::new(items.len(), |i: int| import_view(stack, items[i]))
}

/// Whether every import item resolves to a module handle.
pub open spec fn all_module_items(stack: Seq<Variable>, items: Seq<Variable>) -> bool {
    forall|i: int| 0 <= i < items.len() ==> is_module_item(stack, #[trigger] items[i])
}

/// Folding one more import into a merged view merges at the end.
proof fn lemma_merged_view_push(base: ModuleView, imports: Seq<ModuleView>, x: ModuleView)
    ensures
        merged_view(base, imports.push(x)) == (ModuleView {
            intrinsics: merged_view(base, imports).intrinsics,
            ext: merge_ext(merged_view(base, imports).ext, x.ext),
            fns: merged_view(base, imports).fns + x.fns,
        }),
    decreases imports.len(),
{
    if imports.len() == 0 {
        assert(imports.push(x).drop_first() =~= Seq::<ModuleView>::empty());
        assert(imports.push(x).first() == x);
        let step = ModuleView {
            intrinsics: base.intrinsics,
            ext: merge_ext(base.ext, x.ext),
            fns: base.fns + x.fns,
        };
        assert(merged_view(base, imports.push(x)) == merged_view(
            step,
            Seq::<ModuleView>::empty(),
        ));
        assert(merged_view(step, Seq::<ModuleView>::empty()) == step);
        assert(merged_view(base, imports) == base);
    } else {
        assert(imports.push(x).first() == imports.first());
        assert(imports.push(x).drop_first() =~= imports.drop_first().push(x));
        let step = ModuleView {
            intrinsics: base.intrinsics,
            ext: merge_ext(base.ext, imports.first().ext),
            fns: base.fns + imports.first().fns,
        };
        assert(merged_view(base, imports.push(x)) == merged_view(
            step,
            imports.drop_first().push(x),
        ));
        assert(merged_view(base, imports) == merged_view(step, imports.drop_first()));
        lemma_merged_view_push(step, imports.drop_first(), x);
    }
}

/// Merges the import items of an array into a module under construction.
/// Stops at the first item that is not a module handle, reporting it.
fn merge_imports(m: &mut Module, stack: &Vec<Variable>, items: &Vec<Variable>) -> (r: Result<
    (),
    &'static str,
>)
    requires
        forall|i: int| 0 <= i < items@.len() ==> ref_in(#[trigger] items@[i], stack@.len() as int),
    ensures
        ({
            if all_module_items(stack@, items@) {
                r is Ok && module_view(*final(m)) == merged_view(
                    module_view(*old(m)),
                    import_views(stack@, items@),
                )
            } else {
                r matches Result::Err(t) && (exists|i: int|
                    0 <= i < items@.len() && !is_module_item(stack@, #[trigger] items@[i]) && t@
                        == spec_type_text(val_of(spec_resolve(stack@, items@[i]))))
            }
        }),
{
    let n = items.len();
    let mut k: usize = 0;
    proof {
        assert(import_views(stack@, items@).take(0int) =~= Seq::<ModuleView>::empty());
        assert(merged_view(module_view(*m), Seq::<ModuleView>::empty()) == module_view(*m));
    }
    while k < n
        invariant
            k <= n == items@.len(),
            forall|i: int|
                0 <= i < items@.len() ==> ref_in(#[trigger] items@[i], stack@.len() as int),
            forall|i: int| 0 <= i < k ==> is_module_item(stack@, #[trigger] items@[i]),
            module_view(*m) == merged_view(
                module_view(*old(m)),
                import_views(stack@, items@).take(k as int),
            ),
        decreases n - k,
    {
        let item = &items[k];
        match resolve(stack, item) {
            Variable::RustObject(ro) => match &**ro {
                RustObject::Module(imp) => {
                    let ghost prev = module_view(*m);
                    merge_import(m, imp);
                    proof {
                        lemma_merged_view_push(
                            module_view(*old(m)),
                            import_views(stack@, items@).take(k as int),
                            import_view(stack@, items@[k as int]),
                        );
                        assert(import_views(stack@, items@).take(k + 1) =~= import_views(
                            stack@,
                            items@,
                        ).take(k as int).push(import_view(stack@, items@[k as int])));
                    }
                },
                RustObject::Host { .. } => {
                    return Result::Err(type_text(resolve(stack, item)));
                },
            },
            x => {
                return Result::Err(type_text(x));
            },
        }
        k = k + 1;
    }
    proof {
        assert(import_views(stack@, items@).take(n as int) =~= import_views(stack@, items@));
    }
    Result::Ok(())
}

/// Loads a module from a source text and an array of already-loaded import
/// handles, both on the stack. The fresh module starts from the current
/// module's intrinsics and prelude; each import's prelude entries join
/// unless their name is already present — the first registration wins —
/// and each import's loaded functions are registered in order; the
/// external compiler's outcome joins last.
pub fn load__source_imports(rt: &mut Runtime, compiled: Result<Vec<LoadedFunction>, String>) -> (r:
    Result<(), String>)
    requires
        old(rt).stack@.len() >= 2,
        ref_in(old(rt).stack@.last(), old(rt).stack@.len() - 2),
        ref_in(old(rt).stack@[old(rt).stack@.len() - 2], old(rt).stack@.len() - 2),
        (spec_resolve(
            old(rt).stack@.drop_last().drop_last(),
            old(rt).stack@.last(),
        ) matches Variable::Array(items) ==> forall|i: int|
            0 <= i < items@.len() ==> ref_in(#[trigger] items@[i], old(rt).stack@.len() - 2)),
    ensures
        tables_unchanged(*old(rt), *final(rt)),
        ({
            let s0 = old(rt).stack@;
            let popped = s0.drop_last().drop_last();
            let mods = spec_resolve(popped, s0.last());
            let src = spec_resolve(popped, s0[s0.len() - 2]);
            match mods {
                Variable::Array(items) => if !all_module_items(popped, items@) {
                    r matches Result::Err(m) && final(rt).stack@ == popped && final(rt).arg_err_index == Option::Some(1usize)
                } else {
                    match src {
                        Variable::Text(_) => r is Ok && vals_of(final(rt).stack@) == vals_of(
                            popped,
                        ).push(
                            match compiled {
                                Result::Ok(fns) => module_handle_val(
                                    with_fns(
                                        merged_view(
                                            load_base_view(module_view(*old(rt).module)),
                                            import_views(popped, items@),
                                        ),
                                        fn_views(fns@),
                                    ),
                                ),
                                Result::Err(e) => load_failure_val(e@),
                            },
                        ),
                        _ => r matches Result::Err(m) && m@ == expected_msg(
                            "str"@,
                            spec_type_text(val_of(src)),
                        ) && final(rt).stack@ == popped && final(rt).arg_err_index == Option::Some(
                            0usize,
                        ),
                    }
                },
                _ => r matches Result::Err(m) && m@ == expected_msg(
                    "[Module]"@,
                    spec_type_text(val_of(mods)),
                ) && final(rt).stack@ == popped && final(rt).arg_err_index == Option::Some(1usize),
            }
        }),
{
    broadcast use lemma_vals_of_push;

    let mods = rt.stack.pop().unwrap();
    let src = rt.stack.pop().unwrap();
    let mut m = new_module_from(&rt.module);
    let arr_found;
    match resolve(&rt.stack, &mods) {
        Variable::Array(items) => {
            let res = merge_imports(&mut m, &rt.stack, items);
            match res {
                Result::Ok(()) => {},
                Result::Err(t) => {
                    let msg = arg_type_err(rt, 1, t, "[Module]");
                    return Result::Err(msg);
                },
            }
            let src_found;
            match resolve(&rt.stack, &src) {
                Variable::Text(_) => {
                    let nv = match compiled {
                        Result::Ok(fns) => {
                            let ghost gfns = fns@;
                            let ghost gmv = module_view(m);
                            register_functions(&mut m, fns);
                            let inner = Variable::RustObject(
                                Box::new(RustObject::Module(Rc::new(m))),
                            );
                            let ghost ginner = inner;
                            let h = Variable::Result(Result::Ok(Box::new(inner)));
                            proof {
                                assert(val_of(ginner) == Val::Rust(
                                    RustVal::Module(with_fns(gmv, fn_views(gfns))),
                                ));
                                assert(val_of(h) == module_handle_val(
                                    with_fns(gmv, fn_views(gfns)),
                                ));
                            }
                            h
                        },
                        Result::Err(e) => load_failure(e.as_str()),
                    };
                    rt.stack.push(nv);
                    return Result::Ok(());
                },
                x => {
                    src_found = type_text(x);
                },
            }
            let msg = arg_type_err(rt, 0, src_found, "str");
            return Result::Err(msg);
        },
        x => {
            arr_found = type_text(x);
        },
    }
    let msg = arg_type_err(rt, 1, arr_found, "[Module]");
    Result::Err(msg)
}

/// Loads a module from a name, a source text and an array of import
/// handles, all on the stack. The name only serves the external compiler's
/// diagnostics; the merge rules are those of `load__source_imports`.
pub fn module__in_string_imports(
    rt: &mut Runtime,
    compiled: Result<Vec<LoadedFunction>, String>,
) -> (r: Result<(), String>)
    requires
        old(rt).stack@.len() >= 3,
        ref_in(old(rt).stack@.last(), old(rt).stack@.len() - 3),
        ref_in(old(rt).stack@[old(rt).stack@.len() - 2], old(rt).stack@.len() - 3),
        ref_in(old(rt).stack@[old(rt).stack@.len() - 3], old(rt).stack@.len() - 3),
        (spec_resolve(
            old(rt).stack@.drop_last().drop_last().drop_last(),
            old(rt).stack@.last(),
        ) matches Variable::Array(items) ==> forall|i: int|
            0 <= i < items@.len() ==> ref_in(#[trigger] items@[i], old(rt).stack@.len() - 3)),
    ensures
        tables_unchanged(*old(rt), *final(rt)),
        ({
            let s0 = old(rt).stack@;
            let popped = s0.drop_last().drop_last().drop_last();
            let mods = spec_resolve(popped, s0.last());
            let src = spec_resolve(popped, s0[s0.len() - 2]);
            let name = spec_resolve(popped, s0[s0.len() - 3]);
            match src {
                Variable::Text(_) => match name {
                    Variable::Text(_) => match mods {
                        Variable::Array(items) => if !all_module_items(popped, items@) {
                            r matches Result::Err(m) && final(rt).stack@ == popped && final(rt).arg_err_index == Option::Some(2usize)
                        } else {
                            r is Ok && vals_of(final(rt).stack@) == vals_of(popped).push(
                                match compiled {
                                    Result::Ok(fns) => module_handle_val(
                                        with_fns(
                                            merged_view(
                                                load_base_view(module_view(*old(rt).module)),
                                                import_views(popped, items@),
                                            ),
                                            fn_views(fns@),
                                        ),
                                    ),
                                    Result::Err(e) => load_failure_val(e@),
                                },
                            )
                        },
                        _ => r matches Result::Err(m) && m@ == expected_msg(
                            "[Module]"@,
                            spec_type_text(val_of(mods)),
                        ) && final(rt).stack@ == popped && final(rt).arg_err_index == Option::Some(
                            2usize,
                        ),
                    },
                    _ => r matches Result::Err(m) && m@ == expected_msg(
                        "str"@,
                        spec_type_text(val_of(name)),
                    ) && final(rt).stack@ == popped && final(rt).arg_err_index == Option::Some(
                        0usize,
                    ),
                },
                _ => r matches Result::Err(m) && m@ == expected_msg(
                    "str"@,
                    spec_type_text(val_of(src)),
                ) && final(rt).stack@ == popped && final(rt).arg_err_index == Option::Some(1usize),
            }
        }),
{
    broadcast use lemma_vals_of_push;

    let mods = rt.stack.pop().unwrap();
    let src = rt.stack.pop().unwrap();
    let name = rt.stack.pop().unwrap();
    let src_found;
    match resolve(&rt.stack, &src) {
        Variable::Text(_) => {
            let name_found;
            match resolve(&rt.stack, &name) {
                Variable::Text(_) => {
                    let mut m = new_module_from(&rt.module);
                    let arr_found;
                    match resolve(&rt.stack, &mods) {
                        Variable::Array(items) => {
                            let res = merge_imports(&mut m, &rt.stack, items);
                            match res {
                                Result::Ok(()) => {},
                                Result::Err(t) => {
                                    let msg = arg_type_err(rt, 2, t, "[Module]");
                                    return Result::Err(msg);
                                },
                            }
                            let nv = match compiled {
                                Result::Ok(fns) => {
                                    let ghost gfns = fns@;
                                    let ghost gmv = module_view(m);
                                    register_functions(&mut m, fns);
                                    let inner = Variable::RustObject(
                                        Box::new(RustObject::Module(Rc::new(m))),
                                    );
                                    let ghost ginner = inner;
                                    let h = Variable::Result(Result::Ok(Box::new(inner)));
                                    proof {
                                        assert(val_of(ginner) == Val::Rust(
                                            RustVal::Module(with_fns(gmv, fn_views(gfns))),
                                        ));
                                        assert(val_of(h) == module_handle_val(
                                            with_fns(gmv, fn_views(gfns)),
                                        ));
                                    }
                                    h
                                },
                                Result::Err(e) => load_failure(e.as_str()),
                            };
                            rt.stack.push(nv);
                            return Result::Ok(());
                        },
                        x => {
                            arr_found = type_text(x);
                        },
                    }
                    let msg = arg_type_err(rt, 2, arr_found, "[Module]");
                    return Result::Err(msg);
                },
                x => {
                    name_found = type_text(x);
                },
            }
            let msg = arg_type_err(rt, 0, name_found, "str");
            return Result::Err(msg);
        },
        x => {
            src_found = type_text(x);
        },
    }
    let msg = arg_type_err(rt, 1, src_found, "str");
    Result::Err(msg)
}


/// Whether storage `a` outlives storage `b`: a stack reference lives as
/// long as its slot — deeper slots live longer — and anything outlives a
/// value owned by the callee's own frame.
pub open spec fn outlives(a: Variable, b: Variable) -> bool {
    match b {
        Variable::Ref(y) => a matches Variable::Ref(x) && x <= y,
        _ => true,
    }
}

/// The report for a parameter whose argument cannot back its declared
/// lifetime.
pub open spec fn lt_arg_msg(k: nat, j: nat) -> Seq<char> {
    "Argument `"@ + dec_digits(k) + "` does not outlive argument `"@ + dec_digits(j) + "`"@
}

/// The report for a return-lifetime parameter bound to a value that is not
/// a reference.
pub open spec fn lt_ret_msg(k: nat) -> Seq<char> {
    "Argument `"@ + dec_digits(k) + "` requires a reference to outlive the return value"@
}

/// The first lifetime violation among the parameters, with its report:
/// the static check that rejects a call which could let a returned alias
/// outlive its source storage.
pub open spec fn lt_check(params: Seq<Lt>, args: Seq<Variable>, k: int) -> Option<Seq<char>>
    decreases params.len() - k,
{
    if k < 0 || k >= params.len() || params.len() != args.len() {
        Option::None
    } else {
        match params[k] {
            Lt::Unbound => lt_check(params, args, k + 1),
            Lt::Arg(j) => if j < args.len() && outlives(args[k], args[j as int]) {
                lt_check(params, args, k + 1)
            } else {
                Option::Some(lt_arg_msg(k as nat, j as nat))
            },
            Lt::Ret => if args[k] matches Variable::Ref(_) {
                lt_check(params, args, k + 1)
            } else {
                Option::Some(lt_ret_msg(k as nat))
            },
        }
    }
}

/// Runs the static lifetime check of a call: every parameter declared to
/// outlive another parameter (or the caller's return) must be bound to an
/// argument whose backing storage does so.
pub fn lifetime_check(params: &Vec<Lt>, args: &Vec<Variable>) -> (r: Result<(), String>)
    requires
        params@.len() == args@.len(),
    ensures
        match r {
            Result::Ok(()) => lt_check(params@, args@, 0) is None,
            Result::Err(m) => lt_check(params@, args@, 0) matches Option::Some(t) && m@ == t,
        },
{
    let n = params.len();
    let mut k: usize = 0;
    while k < n
        invariant
            k <= n == params@.len() == args@.len(),
            lt_check(params@, args@, 0) == lt_check(params@, args@, k as int),
        decreases n - k,
    {
        match params[k] {
            Lt::Unbound => {},
            Lt::Arg(j) => {
                let good = j < n && match (&args[k], &args[j]) {
                    (Variable::Ref(x), Variable::Ref(y)) => *x <= *y,
                    (_, Variable::Ref(_)) => false,
                    _ => true,
                };
                if !good {
                    let msg = concat3(
                        "Argument `",
                        u64_to_string(k as u64).as_str(),
                        "` does not outlive argument `",
                    );
                    let msg = concat3(msg.as_str(), u64_to_string(j as u64).as_str(), "`");
                    proof {
                        assert(msg@ =~= lt_arg_msg(k as nat, j as nat));
                    }
                    return Result::Err(msg);
                }
            },
            Lt::Ret => {
                let is_ref = match &args[k] {
                    Variable::Ref(_) => true,
                    _ => false,
                };
                if !is_ref {
                    let msg = concat3(
                        "Argument `",
                        u64_to_string(k as u64).as_str(),
                        "` requires a reference to outlive the return value",
                    );
                    proof {
                        assert(msg@ =~= lt_ret_msg(k as nat));
                    }
                    return Result::Err(msg);
                }
            },
        }
        k = k + 1;
    }
    Result::Ok(())
}

/// The report for a body that reads past its arguments or its operand
/// stack: a compiler fault, not a script-level condition.
pub open spec fn bad_body_msg() -> Seq<char> {
    "Invalid function body"@
}

/// The report for arithmetic whose operands are not numbers.
pub open spec fn arith_type_msg() -> Seq<char> {
    "Expected numbers for arithmetic"@
}

/// The report for arithmetic that leaves the exactly-representable
/// integer range.
pub open spec fn arith_range_msg() -> Seq<char> {
    "Arithmetic outside the exact integer range"@
}

/// The exact integer value of a number view, where it has one of
/// magnitude at most 2^53.
pub open spec fn arith_op(op: Instr, a: int, b: int) -> int {
    match op {
        Instr::Add => a + b,
        Instr::Sub => a - b,
        _ => a * b,
    }
}

/// The outcome of one exact arithmetic step on two number patterns.
pub open spec fn arith_result(op: Instr, a: u64, b: u64) -> Result<u64, Seq<char>> {
    if crate::num::is_int_bits(a) && crate::num::is_int_bits(b) {
        let v = arith_op(op, crate::num::int_of_bits(a), crate::num::int_of_bits(b));
        if -0x20_0000_0000_0000 <= v <= 0x20_0000_0000_0000 {
            Result::Ok(bits_of_int(v))
        } else {
            Result::Err(arith_range_msg())
        }
    } else {
        Result::Err(arith_range_msg())
    }
}

/// Performs one exact arithmetic step on two number patterns.
fn arith_combine(op: Instr, a_bits: u64, b_bits: u64) -> (r: Result<u64, String>)
    requires
        op is Add || op is Sub || op is Mul,
    ensures
        match r {
            Result::Ok(bits) => arith_result(op, a_bits, b_bits) == Result::<u64, Seq<char>>::Ok(
                bits,
            ),
            Result::Err(m) => arith_result(op, a_bits, b_bits) matches Result::Err(t) && m@ == t,
        },
{
    let a = bits_to_int(a_bits);
    let b = bits_to_int(b_bits);
    if a.is_none() || b.is_none() {
        return Result::Err("Arithmetic outside the exact integer range".to_owned());
    }
    let a = a.unwrap();
    let b = b.unwrap();
    let v: i64 = match op {
        Instr::Add => a + b,
        Instr::Sub => a - b,
        _ => {
            proof {
                let aa: int = if a >= 0 {
                    a as int
                } else {
                    -(a as int)
                };
                let ab: int = if b >= 0 {
                    b as int
                } else {
                    -(b as int)
                };
                vstd::arithmetic::mul::lemma_mul_upper_bound(
                    aa,
                    0x20_0000_0000_0000int,
                    ab,
                    0x20_0000_0000_0000int,
                );
                assert((a as int) * (b as int) == aa * ab || (a as int) * (b as int) == -(aa
                    * ab)) by (nonlinear_arith)
                    requires
                        (aa == a as int || aa == -(a as int)) && (ab == b as int || ab == -(
                        b as int)),
                ;
                assert(aa * ab >= 0) by (nonlinear_arith)
                    requires
                        aa >= 0 && ab >= 0,
                ;
            }
            let wide = (a as i128) * (b as i128);
            if wide < -0x20_0000_0000_0000i128 || wide > 0x20_0000_0000_0000i128 {
                return Result::Err("Arithmetic outside the exact integer range".to_owned());
            }
            wide as i64
        },
    };
    if v < -0x20_0000_0000_0000i64 || v > 0x20_0000_0000_0000i64 {
        return Result::Err("Arithmetic outside the exact integer range".to_owned());
    }
    let bits = int_to_bits(v);
    Result::Ok(bits)
}

/// One run of a straight-line body from step `i` with operand stack `st`,
/// over the views of the deep-cloned arguments: the produced value, or the
/// report of the first fault. Arithmetic is exact: operands must be
/// integer-valued numbers and the result must stay within magnitude 2^53.
pub open spec fn run_body(body: Seq<Instr>, args: Seq<Val>, i: int, st: Seq<Val>) -> Result<
    Option<Val>,
    Seq<char>,
>
    decreases body.len() - i,
{
    if i < 0 || i >= body.len() {
        Result::Ok(Option::None)
    } else {
        match body[i] {
            Instr::PushArg(k) => if k < args.len() {
                run_body(body, args, i + 1, st.push(args[k as int]))
            } else {
                Result::Err(bad_body_msg())
            },
            Instr::PushNum(b) => run_body(
                body,
                args,
                i + 1,
                st.push(Val::Num { bits: b, why: Option::None }),
            ),
            Instr::PushBool(b) => run_body(
                body,
                args,
                i + 1,
                st.push(Val::Bool { b, why: Option::None }),
            ),
            Instr::Ret => if st.len() >= 1 {
                Result::Ok(Option::Some(st.last()))
            } else {
                Result::Err(bad_body_msg())
            },
            op => if st.len() >= 2 {
                match (st[st.len() - 2], st.last()) {
                    (Val::Num { bits: a, .. }, Val::Num { bits: b, .. }) => match arith_result(
                        op,
                        a,
                        b,
                    ) {
                        Result::Ok(bits) => run_body(
                            body,
                            args,
                            i + 1,
                            st.drop_last().drop_last().push(
                                Val::Num { bits, why: Option::None },
                            ),
                        ),
                        Result::Err(m) => Result::Err(m),
                    },
                    _ => Result::Err(arith_type_msg()),
                }
            } else {
                Result::Err(bad_body_msg())
            },
        }
    }
}

/// Executes a straight-line body over deep-cloned arguments.
#[verifier::rlimit(100)]
fn eval_body(body: &Vec<Instr>, args: &Vec<Variable>) -> (r: Result<Option<Variable>, String>)
    ensures
        match r {
            Result::Ok(out) => run_body(body@, vals_of(args@), 0, Seq::empty()) matches Result::Ok(
                sout,
            ) && (match (out, sout) {
                (Option::Some(v), Option::Some(sv)) => val_of(v) == sv,
                (Option::None, Option::None) => true,
                _ => false,
            }),
            Result::Err(m) => run_body(body@, vals_of(args@), 0, Seq::empty()) matches Result::Err(
                t,
            ) && m@ == t,
        },
{
    broadcast use lemma_vals_of_push, lemma_vals_of_len, lemma_vals_of_index;

    let n = body.len();
    let mut st: Vec<Variable> = Vec::new();
    let mut i: usize = 0;
    proof {
        assert(vals_of(st@) =~= Seq::<Val>::empty());
        lemma_vals_of_len(args@);
    }
    while i < n
        invariant
            i <= n == body@.len(),
            args@.len() == vals_of(args@).len(),
            run_body(body@, vals_of(args@), 0, Seq::empty()) == run_body(
                body@,
                vals_of(args@),
                i as int,
                vals_of(st@),
            ),
        decreases n - i,
    {
        let ghost pre_st = vals_of(st@);
        let ghost pre_st_vars = st@;
        proof {
            lemma_vals_of_len(st@);
        }
        match body[i] {
            Instr::PushArg(k) => {
                if k >= args.len() {
                    return Result::Err("Invalid function body".to_owned());
                }
                let item = deep_clone(&args[k]);
                let ghost gitem = item;
                st.push(item);
                proof {
                    crate::val::lemma_vals_of_push(pre_st_vars, gitem);
                    lemma_vals_of_index(args@, k as int);
                    assert(vals_of(st@) == pre_st.push(val_of(gitem)));
                    assert(vals_of(st@) == pre_st.push(vals_of(args@)[k as int]));
                    assert(run_body(body@, vals_of(args@), i as int, pre_st) == run_body(
                        body@,
                        vals_of(args@),
                        i + 1,
                        pre_st.push(vals_of(args@)[k as int]),
                    ));
                }
            },
            Instr::PushNum(b) => {
                let nv = Variable::F64(b, Option::None);
                let ghost gnv = nv;
                st.push(nv);
                proof {
                    crate::val::lemma_vals_of_push(pre_st_vars, gnv);
                    assert(val_of(gnv) == Val::Num { bits: b, why: crate::val::chain_view(Option::None) });
                    assert(run_body(body@, vals_of(args@), i as int, pre_st) == run_body(
                        body@,
                        vals_of(args@),
                        i + 1,
                        pre_st.push(Val::Num { bits: b, why: Option::None }),
                    ));
                }
            },
            Instr::PushBool(b) => {
                let nv = Variable::Bool(b, Option::None);
                let ghost gnv = nv;
                st.push(nv);
                proof {
                    crate::val::lemma_vals_of_push(pre_st_vars, gnv);
                    assert(val_of(gnv) == Val::Bool { b, why: crate::val::chain_view(Option::None) });
                    assert(run_body(body@, vals_of(args@), i as int, pre_st) == run_body(
                        body@,
                        vals_of(args@),
                        i + 1,
                        pre_st.push(Val::Bool { b, why: Option::None }),
                    ));
                }
            },
            Instr::Ret => {
                proof {
                    lemma_vals_of_len(st@);
                }
                match st.pop() {
                    Option::Some(v) => {
                        proof {
                            lemma_vals_of_index(pre_st_vars, pre_st_vars.len() - 1);
                            assert(pre_st.last() == val_of(v));
                        }
                        return Result::Ok(Option::Some(v));
                    },
                    Option::None => {
                        return Result::Err("Invalid function body".to_owned());
                    },
                }
            },
            op => {
                if st.len() < 2 {
                    return Result::Err("Invalid function body".to_owned());
                }
                let bv = st.pop().unwrap();
                let av = st.pop().unwrap();
                proof {
                    lemma_vals_of_len(st@);
                    lemma_vals_of_index(pre_st_vars, pre_st_vars.len() - 1);
                    lemma_vals_of_index(pre_st_vars, pre_st_vars.len() - 2);
                    assert(bv == pre_st_vars[pre_st_vars.len() - 1]);
                    assert(av == pre_st_vars.drop_last()[pre_st_vars.len() - 2]);
                    assert(av == pre_st_vars[pre_st_vars.len() - 2]);
                    assert(st@ =~= pre_st_vars.drop_last().drop_last());
                    assert forall|j: int| 0 <= j < st@.len() implies vals_of(st@)[j] == pre_st.drop_last().drop_last()[j] by {
                        lemma_vals_of_index(st@, j);
                        lemma_vals_of_index(pre_st_vars, j);
                    }
                    assert(vals_of(st@) =~= pre_st.drop_last().drop_last());
                    assert(pre_st[pre_st.len() - 2] == val_of(av));
                    assert(pre_st.last() == val_of(bv));
                }
                let a_bits = match &av {
                    Variable::F64(x, _) => Option::Some(*x),
                    _ => Option::None,
                };
                let b_bits = match &bv {
                    Variable::F64(x, _) => Option::Some(*x),
                    _ => Option::None,
                };
                if a_bits.is_none() || b_bits.is_none() {
                    return Result::Err("Expected numbers for arithmetic".to_owned());
                }
                let bits = match arith_combine(op, a_bits.unwrap(), b_bits.unwrap()) {
                    Result::Ok(bits) => bits,
                    Result::Err(m) => {
                        return Result::Err(m);
                    },
                };
                let ghost pre_push = st@;
                let nv = Variable::F64(bits, Option::None);
                let ghost gnv = nv;
                st.push(nv);
                proof {
                    crate::val::lemma_vals_of_push(pre_push, gnv);
                    assert(val_of(gnv) == Val::Num {
                        bits,
                        why: crate::val::chain_view(Option::None),
                    });
                    assert(vals_of(st@) == pre_st.drop_last().drop_last().push(
                        Val::Num { bits, why: Option::None },
                    ));
                    assert(run_body(body@, vals_of(args@), i as int, pre_st) == run_body(
                        body@,
                        vals_of(args@),
                        i + 1,
                        pre_st.drop_last().drop_last().push(Val::Num { bits, why: Option::None }),
                    ));
                }
            },
        }
        i = i + 1;
    }
    Result::Ok(Option::None)
}


/// The views of the deep clones dispatch hands the callee: each argument
/// resolved against the caller's stack, then cloned.
pub open spec fn resolved_vals(stack: Seq<Variable>, elems: Seq<Variable>) -> Seq<Val> {
    Seq::new(elems.len(), |i: int| val_of(spec_resolve(stack, elems[i])))
}

/// The report for a call with the wrong number of arguments.
pub open spec fn arity_msg(expected: nat, found: nat) -> Seq<char> {
    "Expected `"@ + dec_digits(expected) + "` arguments, found `"@ + dec_digits(found) + "`"@
}

/// The report for a name that resolves to no loaded function.
pub open spec fn not_found_msg(name: Seq<char>) -> Seq<char> {
    "Could not find function `"@ + name + "`"@
}

/// The report for a call that was expected to produce a value and did not.
pub open spec fn no_ret_msg(name: Seq<char>) -> Seq<char> {
    "Expected some return value `"@ + name + "`"@
}

/// What dispatching a resolved call does, given the callee module's view,
/// the function name, the raw argument values (whose references the
/// lifetime check inspects) and the caller's stack: the produced value, or
/// the report of the check that rejected the call first. Checks run in
/// order — existence, arity, lifetimes — before any side effect.
pub open spec fn dispatch_outcome(
    mv: ModuleView,
    name: Seq<char>,
    stack: Seq<Variable>,
    elems: Seq<Variable>,
) -> Result<Result<Option<Val>, Seq<char>>, (Option<usize>, Seq<char>)> {
    match spec_find_function(mv, name) {
        FnIndex::Loaded(ix) => {
            let f = mv.fns[ix as int];
            if f.params.len() != elems.len() {
                Result::Err(
                    (Option::Some(2usize), arity_msg(f.params.len(), elems.len())),
                )
            } else {
                match lt_check(f.params, elems, 0) {
                    Option::Some(m) => Result::Err((Option::Some(2usize), m)),
                    Option::None => Result::Ok(
                        run_body(f.body, resolved_vals(stack, elems), 0, Seq::empty()),
                    ),
                }
            }
        },
        _ => Result::Err((Option::None, not_found_msg(name))),
    }
}

/// Resolves and deep-clones the elements of an argument array.
fn clone_args(stack: &Vec<Variable>, elems: &Vec<Variable>) -> (r: Vec<Variable>)
    requires
        forall|i: int| 0 <= i < elems@.len() ==> ref_in(#[trigger] elems@[i], stack@.len() as int),
    ensures
        vals_of(r@) == resolved_vals(stack@, elems@),
{
    broadcast use lemma_vals_of_push, lemma_vals_of_len, lemma_vals_of_index;

    let n = elems.len();
    let mut out: Vec<Variable> = Vec::new();
    let mut i: usize = 0;
    while i < n
        invariant
            i <= n == elems@.len(),
            out@.len() == i,
            forall|i0: int| 0 <= i0 < elems@.len() ==> ref_in(#[trigger] elems@[i0], stack@.len() as int),
            forall|j: int|
                0 <= j < i ==> val_of(#[trigger] out@[j]) == val_of(
                    spec_resolve(stack@, elems@[j]),
                ),
        decreases n - i,
    {
        let c = deep_clone(resolve(stack, &elems[i]));
        out.push(c);
        i = i + 1;
    }
    proof {
        lemma_vals_of_len(out@);
        assert forall|j: int| 0 <= j < n implies vals_of(out@)[j] == resolved_vals(
            stack@,
            elems@,
        )[j] by {
            lemma_vals_of_index(out@, j);
        }
        assert(vals_of(out@) =~= resolved_vals(stack@, elems@));
    }
    out
}

/// The shared requires of `_call` and `call_ret`.
pub open spec fn call_pre(rt: Runtime) -> bool {
    &&& rt.stack@.len() >= 3
    &&& ref_in(rt.stack@.last(), rt.stack@.len() - 3)
    &&& ref_in(rt.stack@[rt.stack@.len() - 2], rt.stack@.len() - 3)
    &&& ref_in(rt.stack@[rt.stack@.len() - 3], rt.stack@.len() - 3)
    &&& (spec_resolve(
        rt.stack@.drop_last().drop_last().drop_last(),
        rt.stack@.last(),
    ) matches Variable::Array(elems) ==> forall|i: int|
        0 <= i < elems@.len() ==> ref_in(#[trigger] elems@[i], rt.stack@.len() - 3))
    &&& rt.call_stack@.len() >= 1
    &&& rt.call_stack@.last().index < rt.module.functions@.len()
}

/// The shared ensures of `_call` and `call_ret`: what holds when the three
/// operands do not name a dispatchable call, and how the dispatch outcome
/// maps to the caller-visible result; `pushed` tells whether a produced
/// value is required and pushed.
pub open spec fn call_post(
    pre: Runtime,
    post: Runtime,
    r: Result<(), String>,
    pushed: bool,
) -> bool {
    let s0 = pre.stack@;
    let popped = s0.drop_last().drop_last().drop_last();
    let argsv = spec_resolve(popped, s0.last());
    let namev = spec_resolve(popped, s0[s0.len() - 2]);
    let modv = spec_resolve(popped, s0[s0.len() - 3]);
    match namev {
        Variable::Text(name) => match argsv {
            Variable::Array(elems) => match modv {
                Variable::RustObject(ro) => match *ro {
                    RustObject::Module(m) => match dispatch_outcome(
                        module_view(*m),
                        name@,
                        popped,
                        elems@,
                    ) {
                        Result::Err((idx, msg)) => r matches Result::Err(t) && t@ == msg
                            && post.stack@ == popped && (idx matches Option::Some(x) ==> post.arg_err_index
                            == Option::Some(x)),
                        Result::Ok(run) => match run {
                            Result::Err(msg) => r matches Result::Err(t) && t@ == msg
                                && post.stack@ == popped,
                            Result::Ok(out) => if pushed {
                                match out {
                                    Option::Some(v) => r is Ok && vals_of(post.stack@) == vals_of(
                                        popped,
                                    ).push(v),
                                    Option::None => r matches Result::Err(t) && t@ == no_ret_msg(
                                        name@,
                                    ) && post.stack@ == popped,
                                }
                            } else {
                                r is Ok && post.stack@ == popped
                            },
                        },
                    },
                    RustObject::Host { .. } => r matches Result::Err(t) && t@ == expected_msg(
                        "Module"@,
                        spec_type_text(val_of(modv)),
                    ) && post.stack@ == popped && post.arg_err_index == Option::Some(0usize),
                },
                _ => r matches Result::Err(t) && t@ == expected_msg(
                    "Module"@,
                    spec_type_text(val_of(modv)),
                ) && post.stack@ == popped && post.arg_err_index == Option::Some(0usize),
            },
            _ => r matches Result::Err(t) && t@ == expected_msg(
                "array"@,
                spec_type_text(val_of(argsv)),
            ) && post.stack@ == popped && post.arg_err_index == Option::Some(2usize),
        },
        _ => r matches Result::Err(t) && t@ == expected_msg(
            "text"@,
            spec_type_text(val_of(namev)),
        ) && post.stack@ == popped && post.arg_err_index == Option::Some(1usize),
    }
}

/// The common body of `_call` and `call_ret`.
#[verifier::rlimit(100)]
fn dispatch_call(rt: &mut Runtime, want_value: bool) -> (r: Result<(), String>)
    requires
        call_pre(*old(rt)),
    ensures
        final(rt).call_stack@ == old(rt).call_stack@,
        final(rt).module == old(rt).module,
        final(rt).threads == old(rt).threads,
        final(rt).channels == old(rt).channels,
        call_post(*old(rt), *final(rt), r, want_value),
{
    broadcast use lemma_vals_of_push;

    // the callee's diagnostics cite the caller's own source text
    let caller_index = rt.call_stack[rt.call_stack.len() - 1].index;
    let source = rt.module.functions[caller_index].source.clone();
    let args_o = rt.stack.pop().unwrap();
    let name_o = rt.stack.pop().unwrap();
    let mod_o = rt.stack.pop().unwrap();
    let name_s: String;
    match resolve(&rt.stack, &name_o) {
        Variable::Text(t) => {
            name_s = t.clone();
        },
        x => {
            let found = type_text(x);
            let msg = arg_type_err(rt, 1, found, "text");
            return Result::Err(msg);
        },
    }
    let cloned: Vec<Variable>;
    let m: Rc<Module>;
    let ghost raw_elems: Seq<Variable>;
    match resolve(&rt.stack, &args_o) {
        Variable::Array(elems) => {
            proof {
                raw_elems = elems@;
            }
            let c = clone_args(&rt.stack, elems);
            cloned = c;
        },
        x => {
            let found = type_text(x);
            let msg = arg_type_err(rt, 2, found, "array");
            return Result::Err(msg);
        },
    }
    match resolve(&rt.stack, &mod_o) {
        Variable::RustObject(ro) => match &**ro {
            RustObject::Module(rcm) => {
                m = crate::val::clone_module_handle(rcm);
            },
            RustObject::Host { .. } => {
                let found = type_text(resolve(&rt.stack, &mod_o));
                let msg = arg_type_err(rt, 0, found, "Module");
                return Result::Err(msg);
            },
        },
        x => {
            let found = type_text(x);
            let msg = arg_type_err(rt, 0, found, "Module");
            return Result::Err(msg);
        },
    }
    let fi = find_function(&m, name_s.as_str());
    let ix: usize;
    match fi {
        FnIndex::Loaded(i) => {
            ix = i;
        },
        _ => {
            let msg = concat3("Could not find function `", name_s.as_str(), "`");
            proof {
                assert(msg@ =~= not_found_msg(name_s@));
            }
            return Result::Err(msg);
        },
    }
    proof {
        crate::module::lemma_find_loaded_in_range(
            crate::module::fn_views(m.functions@),
            name_s@,
        );
    }
    proof {
        crate::val::lemma_vals_of_len(cloned@);
    }
    let f = &m.functions[ix];
    if f.params.len() != cloned.len() {
        let msg = concat3(
            "Expected `",
            u64_to_string(f.params.len() as u64).as_str(),
            "` arguments, found `",
        );
        let msg = concat3(msg.as_str(), u64_to_string(cloned.len() as u64).as_str(), "`");
        proof {
            assert(msg@ =~= arity_msg(f.params@.len(), raw_elems.len()));
        }
        rt.arg_err_index = Option::Some(2);
        return Result::Err(msg);
    }
    proof {
        crate::val::lemma_vals_of_len(cloned@);
    }
    match resolve(&rt.stack, &args_o) {
        Variable::Array(elems) => {
            let res = lifetime_check(&f.params, elems);
            match res {
                Result::Ok(()) => {},
                Result::Err(msg) => {
                    rt.arg_err_index = Option::Some(2);
                    return Result::Err(msg);
                },
            }
        },
        _ => {
            proof {
                assert(false);
            }
        },
    }
    // push a frame citing the caller's source, run the body, pop the frame
    let frame = CallFrame { index: ix, fn_name: name_s.clone(), source };
    rt.call_stack.push(frame);
    let run = eval_body(&f.body, &cloned);
    rt.call_stack.pop();
    proof {
        assert(rt.call_stack@ =~= old(rt).call_stack@);
    }
    match run {
        Result::Err(msg) => Result::Err(msg),
        Result::Ok(out) => {
            if want_value {
                match out {
                    Option::Some(v) => {
                        rt.stack.push(v);
                        Result::Ok(())
                    },
                    Option::None => {
                        let msg = concat3("Expected some return value `", name_s.as_str(), "`");
                        proof {
                            assert(msg@ =~= no_ret_msg(name_s@));
                        }
                        Result::Err(msg)
                    },
                }
            } else {
                Result::Ok(())
            }
        },
    }
}

/// Pops a module handle, a function name and an argument array, validates
/// the call — the name and arity must resolve to a loaded function and the
/// lifetime check must pass, all before any side effect — then runs the
/// callee on a fresh frame citing the caller's source and discards what it
/// produced.
pub fn _call(rt: &mut Runtime) -> (r: Result<(), String>)
    requires
        call_pre(*old(rt)),
    ensures
        final(rt).call_stack@ == old(rt).call_stack@,
        final(rt).module == old(rt).module,
        final(rt).threads == old(rt).threads,
        final(rt).channels == old(rt).channels,
        call_post(*old(rt), *final(rt), r, false),
{
    dispatch_call(rt, false)
}

/// Like `_call`, but requires the callee to produce exactly one value,
/// which is pushed for the caller.
pub fn call_ret(rt: &mut Runtime) -> (r: Result<(), String>)
    requires
        call_pre(*old(rt)),
    ensures
        final(rt).call_stack@ == old(rt).call_stack@,
        final(rt).module == old(rt).module,
        final(rt).threads == old(rt).threads,
        final(rt).channels == old(rt).channels,
        call_post(*old(rt), *final(rt), r, true),
{
    dispatch_call(rt, true)
}


/// One entry of the function listing: the name and which table it lives
/// in.
pub open spec fn list_entry(name: Seq<char>, kind: Seq<char>) -> Val {
    Val::Object(seq![("name"@, Val::Text(name)), ("kind"@, Val::Text(kind))])
}

/// The listing of everything callable in a module: intrinsics, then the
/// foreign prelude, then the loaded functions, each with its kind.
pub open spec fn fn_list_val(mv: ModuleView) -> Seq<Val> {
    Seq::new(mv.intrinsics.len(), |i: int| list_entry(mv.intrinsics[i], "intrinsic"@)) + Seq::new(
        mv.ext.len(),
        |i: int| list_entry(mv.ext[i].name, "external"@),
    ) + Seq::new(mv.fns.len(), |i: int| list_entry(mv.fns[i].name, "loaded"@))
}

/// Builds one listing entry.
fn mk_list_entry(name: &String, kind: &'static str) -> (r: Variable)
    ensures
        val_of(r) == list_entry(name@, kind@),
{
    let mut entries: Vec<crate::val::Entry> = Vec::new();
    let ghost gname = name@;
    entries.push(crate::val::Entry { key: "name".to_owned(), val: Variable::Text(name.clone()) });
    entries.push(crate::val::Entry { key: "kind".to_owned(), val: Variable::Text(kind.to_owned()) });
    let r = Variable::Object(entries);
    proof {
        let es = r->Object_0@;
        crate::val::lemma_entry_vals_of_len(es);
        crate::val::lemma_entry_vals_of_index(es, 0);
        crate::val::lemma_entry_vals_of_index(es, 1);
        assert(crate::val::entry_vals_of(es) =~= seq![
            ("name"@, Val::Text(gname)),
            ("kind"@, Val::Text(kind@)),
        ]);
    }
    r
}

/// Builds the listing of a module.
fn list_functions(m: &Module) -> (r: Vec<Variable>)
    ensures
        vals_of(r@) == fn_list_val(module_view(*m)),
{
    broadcast use lemma_vals_of_push, lemma_vals_of_len, lemma_vals_of_index;

    let mut out: Vec<Variable> = Vec::new();
    let ghost mv = module_view(*m);
    let ni = m.intrinsics.len();
    let mut i: usize = 0;
    while i < ni
        invariant
            i <= ni == m.intrinsics@.len(),
            mv == module_view(*m),
            out@.len() == i,
            forall|j: int|
                0 <= j < i ==> val_of(#[trigger] out@[j]) == list_entry(
                    mv.intrinsics[j],
                    "intrinsic"@,
                ),
        decreases ni - i,
    {
        let e = mk_list_entry(&m.intrinsics[i], "intrinsic");
        out.push(e);
        i = i + 1;
    }
    let ne = m.ext_prelude.len();
    let mut j: usize = 0;
    while j < ne
        invariant
            j <= ne == m.ext_prelude@.len(),
            mv == module_view(*m),
            out@.len() == mv.intrinsics.len() + j,
            forall|k: int|
                0 <= k < mv.intrinsics.len() ==> val_of(#[trigger] out@[k]) == list_entry(
                    mv.intrinsics[k],
                    "intrinsic"@,
                ),
            forall|k: int|
                0 <= k < j ==> val_of(#[trigger] out@[mv.intrinsics.len() + k]) == list_entry(
                    mv.ext[k].name,
                    "external"@,
                ),
        decreases ne - j,
    {
        let e = mk_list_entry(&m.ext_prelude[j].name, "external");
        out.push(e);
        j = j + 1;
    }
    let nf = m.functions.len();
    let mut k: usize = 0;
    while k < nf
        invariant
            k <= nf == m.functions@.len(),
            mv == module_view(*m),
            out@.len() == mv.intrinsics.len() + mv.ext.len() + k,
            forall|x: int|
                0 <= x < mv.intrinsics.len() ==> val_of(#[trigger] out@[x]) == list_entry(
                    mv.intrinsics[x],
                    "intrinsic"@,
                ),
            forall|x: int|
                0 <= x < mv.ext.len() ==> val_of(#[trigger] out@[mv.intrinsics.len() + x])
                    == list_entry(mv.ext[x].name, "external"@),
            forall|x: int|
                0 <= x < k ==> val_of(#[trigger] out@[mv.intrinsics.len() + mv.ext.len() + x])
                    == list_entry(mv.fns[x].name, "loaded"@),
        decreases nf - k,
    {
        let e = mk_list_entry(&m.functions[k].name, "loaded");
        out.push(e);
        k = k + 1;
    }
    proof {
        lemma_vals_of_len(out@);
        assert forall|x: int| 0 <= x < out@.len() implies vals_of(out@)[x] == fn_list_val(mv)[x] by {
            lemma_vals_of_index(out@, x);
            if x < mv.intrinsics.len() {
            } else if x < mv.intrinsics.len() + mv.ext.len() {
                assert(val_of(out@[mv.intrinsics.len() + (x - mv.intrinsics.len())]) == list_entry(
                    mv.ext[x - mv.intrinsics.len()].name,
                    "external"@,
                ));
            } else {
                assert(val_of(
                    out@[mv.intrinsics.len() + mv.ext.len() + (x - mv.intrinsics.len()
                        - mv.ext.len())],
                ) == list_entry(mv.fns[x - mv.intrinsics.len() - mv.ext.len()].name, "loaded"@));
            }
        }
        assert(vals_of(out@) =~= fn_list_val(mv));
    }
    out
}

/// Pushes the listing of everything callable in the current module.
pub fn functions(rt: &mut Runtime) -> (r: Result<(), String>)
    ensures
        r is Ok,
        tables_unchanged(*old(rt), *final(rt)),
        final(rt).arg_err_index == old(rt).arg_err_index,
        vals_of(final(rt).stack@) == vals_of(old(rt).stack@).push(
            Val::Array(fn_list_val(module_view(*old(rt).module))),
        ),
{
    broadcast use lemma_vals_of_push;

    let m = crate::val::clone_module_handle(&rt.module);
    let list = list_functions(&m);
    rt.stack.push(Variable::Array(list));
    Result::Ok(())
}

/// Pops a module handle and pushes the listing of everything callable in
/// it.
pub fn functions__module(rt: &mut Runtime) -> (r: Result<(), String>)
    requires
        old(rt).stack@.len() >= 1,
        ref_in(old(rt).stack@.last(), old(rt).stack@.len() - 1),
    ensures
        tables_unchanged(*old(rt), *final(rt)),
        ({
            let popped = old(rt).stack@.drop_last();
            let v = spec_resolve(popped, old(rt).stack@.last());
            match v {
                Variable::RustObject(ro) => match *ro {
                    RustObject::Module(m) => r is Ok && vals_of(final(rt).stack@) == vals_of(
                        popped,
                    ).push(Val::Array(fn_list_val(module_view(*m)))) && final(rt).arg_err_index
                        == old(rt).arg_err_index,
                    RustObject::Host { .. } => r matches Result::Err(t) && t@ == expected_msg(
                        "Module"@,
                        spec_type_text(val_of(v)),
                    ) && final(rt).stack@ == popped && final(rt).arg_err_index == Option::Some(
                        0usize,
                    ),
                },
                _ => r matches Result::Err(t) && t@ == expected_msg(
                    "Module"@,
                    spec_type_text(val_of(v)),
                ) && final(rt).stack@ == popped && final(rt).arg_err_index == Option::Some(0usize),
            }
        }),
{
    broadcast use lemma_vals_of_push;

    let v = rt.stack.pop().unwrap();
    let m: Rc<Module>;
    match resolve(&rt.stack, &v) {
        Variable::RustObject(ro) => match &**ro {
            RustObject::Module(rcm) => {
                m = crate::val::clone_module_handle(rcm);
            },
            RustObject::Host { .. } => {
                let found = type_text(resolve(&rt.stack, &v));
                let msg = arg_type_err(rt, 0, found, "Module");
                return Result::Err(msg);
            },
        },
        x => {
            let found = type_text(x);
            let msg = arg_type_err(rt, 0, found, "Module");
            return Result::Err(msg);
        },
    }
    let list = list_functions(&m);
    rt.stack.push(Variable::Array(list));
    Result::Ok(())
}

} // verus!
