//! Loaded modules: the function table, the intrinsic table and the
//! host-registered foreign-function prelude, all fixed once a module is
//! built, together with name-based function lookup.
//!
//! The text-to-module compiler is an external collaborator: it hands this
//! core a table of loaded functions, each carrying the minimal body
//! representation the core executes (arguments, exact integer-valued
//! number arithmetic, a produced value), its parameter lifetime
//! declarations, and the source context used for diagnostics.

use vstd::prelude::*;

verus! {

use crate::strutil::str_eq;

/// The declared lifetime of a parameter: unbound, outliving another
/// parameter, or tied to the caller's return lifetime.
#[derive(Clone, Copy)]
pub enum Lt {
    Unbound,
    Arg(usize),
    Ret,
}

/// One step of a loaded function's body. Bodies are straight-line:
/// arguments and constants are pushed on the operand stack, arithmetic
/// combines the two topmost numbers exactly (integer-valued operands,
/// integer result), and the final value is produced by `Ret`.
#[derive(Clone, Copy)]
pub enum Instr {
    PushArg(usize),
    PushNum(u64),
    PushBool(bool),
    Add,
    Sub,
    Mul,
    Ret,
}

/// A loaded user function.
pub struct LoadedFunction {
    pub name: String,
    pub params: Vec<Lt>,
    pub returns: bool,
    pub body: Vec<Instr>,
    pub source: String,
}

/// The view of a loaded function.
pub struct FnView {
    pub name: Seq<char>,
    pub params: Seq<Lt>,
    pub returns: bool,
    pub body: Seq<Instr>,
    pub source: Seq<char>,
}

/// The view of a loaded function.
pub open spec fn fn_view(f: LoadedFunction) -> FnView {
    FnView {
        name: f.name@,
        params: f.params@,
        returns: f.returns,
        body: f.body@,
        source: f.source@,
    }
}

/// The views of a function table.
pub open spec fn fn_views(s: Seq<LoadedFunction>) -> Seq<FnView> {
    Seq::new(s.len(), |i: int| fn_view(s[i]))
}

/// A host-registered foreign function: a name, the host's token for the
/// callable, its arity, and whether it produces a value.
pub struct ExtFn {
    pub name: String,
    pub token: u64,
    pub arity: usize,
    pub returns: bool,
}

/// The view of a foreign-function registration.
pub struct ExtView {
    pub name: Seq<char>,
    pub token: u64,
    pub arity: nat,
    pub returns: bool,
}

/// The view of a foreign-function registration.
pub open spec fn ext_view(e: ExtFn) -> ExtView {
    ExtView { name: e.name@, token: e.token, arity: e.arity as nat, returns: e.returns }
}

/// The views of a foreign-function prelude.
pub open spec fn ext_views(s: Seq<ExtFn>) -> Seq<ExtView> {
    Seq::new(s.len(), |i: int| ext_view(s[i]))
}

/// Viewing a function table commutes with appending.
pub proof fn lemma_fn_views_push(s: Seq<LoadedFunction>, f: LoadedFunction)
    ensures
        fn_views(s.push(f)) == fn_views(s).push(fn_view(f)),
{
    assert forall|x: int| 0 <= x < s.len() + 1 implies fn_views(s.push(f))[x] == fn_views(s).push(
        fn_view(f),
    )[x] by {}
    assert(fn_views(s.push(f)) =~= fn_views(s).push(fn_view(f)));
}

/// Viewing a prelude commutes with appending.
pub proof fn lemma_ext_views_push(s: Seq<ExtFn>, e: ExtFn)
    ensures
        ext_views(s.push(e)) == ext_views(s).push(ext_view(e)),
{
    assert forall|x: int| 0 <= x < s.len() + 1 implies ext_views(s.push(e))[x] == ext_views(
        s,
    ).push(ext_view(e))[x] by {}
    assert(ext_views(s.push(e)) =~= ext_views(s).push(ext_view(e)));
}

/// A loaded module: immutable once built, shared read-only by its holders.
pub struct Module {
    pub intrinsics: Vec<String>,
    pub ext_prelude: Vec<ExtFn>,
    pub functions: Vec<LoadedFunction>,
}

/// The view of a module.
pub struct ModuleView {
    pub intrinsics: Seq<Seq<char>>,
    pub ext: Seq<ExtView>,
    pub fns: Seq<FnView>,
}

/// The view of a module.
pub open spec fn module_view(m: Module) -> ModuleView {
    ModuleView {
        intrinsics: m.intrinsics.deep_view(),
        ext: ext_views(m.ext_prelude@),
        fns: fn_views(m.functions@),
    }
}

/// Copies a parameter list.
pub fn copy_params(v: &Vec<Lt>) -> (r: Vec<Lt>)
    ensures
        r@ == v@,
{
    let mut out: Vec<Lt> = Vec::new();
    let mut i: usize = 0;
    while i < v.len()
        invariant
            i <= v@.len(),
            out@ =~= v@.subrange(0, i as int),
        decreases v@.len() - i,
    {
        out.push(v[i]);
        i = i + 1;
    }
    proof {
        assert(out@ =~= v@);
    }
    out
}

/// Copies a body.
pub fn copy_body(v: &Vec<Instr>) -> (r: Vec<Instr>)
    ensures
        r@ == v@,
{
    let mut out: Vec<Instr> = Vec::new();
    let mut i: usize = 0;
    while i < v.len()
        invariant
            i <= v@.len(),
            out@ =~= v@.subrange(0, i as int),
        decreases v@.len() - i,
    {
        out.push(v[i]);
        i = i + 1;
    }
    proof {
        assert(out@ =~= v@);
    }
    out
}

/// Clones a loaded function; the clone has the same view.
pub fn clone_loaded_function(f: &LoadedFunction) -> (r: LoadedFunction)
    ensures
        fn_view(r) == fn_view(*f),
{
    LoadedFunction {
        name: f.name.clone(),
        params: copy_params(&f.params),
        returns: f.returns,
        body: copy_body(&f.body),
        source: f.source.clone(),
    }
}

/// What lookup of a name resolves to.
pub enum FnIndex {
    NotFound,
    Loaded(usize),
    Intrinsic(usize),
    ExternalVoid(usize),
    ExternalReturn(usize),
}

/// The index of the most recent loaded function of the name, if any:
/// later registrations shadow earlier ones.
pub open spec fn find_loaded(fns: Seq<FnView>, name: Seq<char>) -> Option<int>
    decreases fns.len(),
{
    if fns.len() == 0 {
        Option::None
    } else if fns.last().name == name {
        Option::Some(fns.len() - 1)
    } else {
        find_loaded(fns.drop_last(), name)
    }
}

/// The index of the first foreign-function registration of the name, if
/// any: the first registration of a name wins.
pub open spec fn find_ext(ext: Seq<ExtView>, name: Seq<char>) -> Option<int>
    decreases ext.len(),
{
    if ext.len() == 0 {
        Option::None
    } else if ext.first().name == name {
        Option::Some(0)
    } else {
        match find_ext(ext.drop_first(), name) {
            Option::Some(i) => Option::Some(i + 1),
            Option::None => Option::None,
        }
    }
}

/// The index of the first intrinsic of the name, if any.
pub open spec fn find_intrinsic(table: Seq<Seq<char>>, name: Seq<char>) -> Option<int>
    decreases table.len(),
{
    if table.len() == 0 {
        Option::None
    } else if table.first() == name {
        Option::Some(0)
    } else {
        match find_intrinsic(table.drop_first(), name) {
            Option::Some(i) => Option::Some(i + 1),
            Option::None => Option::None,
        }
    }
}

/// A found loaded-function index lies in the table and names the function.
pub proof fn lemma_find_loaded_in_range(fns: Seq<FnView>, name: Seq<char>)
    ensures
        find_loaded(fns, name) matches Option::Some(i) ==> 0 <= i < fns.len() && fns[i].name
            == name,
    decreases fns.len(),
{
    if fns.len() > 0 {
        lemma_find_loaded_in_range(fns.drop_last(), name);
    }
}

/// What a name resolves to inside a module: loaded functions shadow the
/// foreign prelude, which shadows the intrinsics.
pub open spec fn spec_find_function(mv: ModuleView, name: Seq<char>) -> FnIndex {
    if find_loaded(mv.fns, name) is Some {
        FnIndex::Loaded(find_loaded(mv.fns, name)->Some_0 as usize)
    } else if find_ext(mv.ext, name) is Some {
        let i = find_ext(mv.ext, name)->Some_0;
        if mv.ext[i].returns {
            FnIndex::ExternalReturn(i as usize)
        } else {
            FnIndex::ExternalVoid(i as usize)
        }
    } else if find_intrinsic(mv.intrinsics, name) is Some {
        FnIndex::Intrinsic(find_intrinsic(mv.intrinsics, name)->Some_0 as usize)
    } else {
        FnIndex::NotFound
    }
}

/// Resolves a name inside a module.
pub fn find_function(m: &Module, name: &str) -> (r: FnIndex)
    ensures
        r == spec_find_function(module_view(*m), name@),
{
    let ghost fns = fn_views(m.functions@);
    let mut i: usize = m.functions.len();
    proof {
        assert(fns.take(m.functions@.len() as int) =~= fns);
    }
    while i > 0
        invariant
            i <= m.functions@.len(),
            fns == fn_views(m.functions@),
            find_loaded(fns, name@) == find_loaded(fns.take(i as int), name@),
        decreases i,
    {
        i = i - 1;
        proof {
            assert(fns.take(i + 1).last() == fn_view(m.functions@[i as int]));
            assert(fns.take(i + 1).drop_last() =~= fns.take(i as int));
        }
        if str_eq(m.functions[i].name.as_str(), name) {
            return FnIndex::Loaded(i);
        }
    }
    assert(find_loaded(fns.take(0int), name@) is None);
    let ghost ext = ext_views(m.ext_prelude@);
    let mut j: usize = 0;
    while j < m.ext_prelude.len()
        invariant
            j <= m.ext_prelude@.len(),
            ext == ext_views(m.ext_prelude@),
            find_loaded(fn_views(m.functions@), name@) is None,
            forall|k: int| 0 <= k < j ==> ext[k].name != name@,
        decreases m.ext_prelude@.len() - j,
    {
        if str_eq(m.ext_prelude[j].name.as_str(), name) {
            proof {
                lemma_find_ext_first(ext, name@, j as int);
            }
            if m.ext_prelude[j].returns {
                return FnIndex::ExternalReturn(j);
            } else {
                return FnIndex::ExternalVoid(j);
            }
        }
        j = j + 1;
    }
    proof {
        lemma_find_ext_none(ext, name@);
    }
    let ghost table = m.intrinsics.deep_view();
    let mut k: usize = 0;
    while k < m.intrinsics.len()
        invariant
            k <= m.intrinsics@.len(),
            table == m.intrinsics.deep_view(),
            find_loaded(fn_views(m.functions@), name@) is None,
            find_ext(ext_views(m.ext_prelude@), name@) is None,
            forall|x: int| 0 <= x < k ==> table[x] != name@,
        decreases m.intrinsics@.len() - k,
    {
        if str_eq(m.intrinsics[k].as_str(), name) {
            proof {
                lemma_find_intrinsic_first(table, name@, k as int);
            }
            return FnIndex::Intrinsic(k);
        }
        k = k + 1;
    }
    proof {
        lemma_find_intrinsic_none(table, name@);
    }
    FnIndex::NotFound
}

/// A first-match search finds the first match.
proof fn lemma_find_ext_first(ext: Seq<ExtView>, name: Seq<char>, j: int)
    requires
        0 <= j < ext.len(),
        forall|k: int| 0 <= k < j ==> ext[k].name != name,
        ext[j].name == name,
    ensures
        find_ext(ext, name) == Option::Some(j),
    decreases j,
{
    if j == 0 {
        assert(ext.first().name == name);
    } else {
        assert(ext.first().name != name);
        lemma_find_ext_first(ext.drop_first(), name, j - 1);
    }
}

/// A search over mismatches alone finds nothing.
proof fn lemma_find_ext_none(ext: Seq<ExtView>, name: Seq<char>)
    requires
        forall|k: int| 0 <= k < ext.len() ==> ext[k].name != name,
    ensures
        find_ext(ext, name) is None,
    decreases ext.len(),
{
    if ext.len() > 0 {
        lemma_find_ext_none(ext.drop_first(), name);
    }
}

/// A first-match search finds the first match.
proof fn lemma_find_intrinsic_first(table: Seq<Seq<char>>, name: Seq<char>, j: int)
    requires
        0 <= j < table.len(),
        forall|k: int| 0 <= k < j ==> table[k] != name,
        table[j] == name,
    ensures
        find_intrinsic(table, name) == Option::Some(j),
    decreases j,
{
    if j == 0 {
    } else {
        lemma_find_intrinsic_first(table.drop_first(), name, j - 1);
    }
}

/// A search over mismatches alone finds nothing.
proof fn lemma_find_intrinsic_none(table: Seq<Seq<char>>, name: Seq<char>)
    requires
        forall|k: int| 0 <= k < table.len() ==> table[k] != name,
    ensures
        find_intrinsic(table, name) is None,
    decreases table.len(),
{
    if table.len() > 0 {
        lemma_find_intrinsic_none(table.drop_first(), name);
    }
}


/// Whether a prelude already registers a name.
pub open spec fn ext_has_name(ext: Seq<ExtView>, name: Seq<char>) -> bool {
    exists|k: int| 0 <= k < ext.len() && ext[k].name == name
}

/// The prelude that merging an import into a base prelude leaves: entries
/// of the import join in order, except those whose name is already
/// present — the first registration of a name wins.
pub open spec fn merge_ext(acc: Seq<ExtView>, imp: Seq<ExtView>) -> Seq<ExtView>
    decreases imp.len(),
{
    if imp.len() == 0 {
        acc
    } else {
        let acc2 = if ext_has_name(acc, imp.first().name) {
            acc
        } else {
            acc.push(imp.first())
        };
        merge_ext(acc2, imp.drop_first())
    }
}

/// Whether a prelude holds a registration of the name.
fn has_ext(m: &Module, name: &String) -> (r: bool)
    ensures
        r == ext_has_name(ext_views(m.ext_prelude@), name@),
{
    let n = m.ext_prelude.len();
    let mut k: usize = 0;
    while k < n
        invariant
            k <= n == m.ext_prelude@.len(),
            forall|x: int| 0 <= x < k ==> ext_views(m.ext_prelude@)[x].name != name@,
        decreases n - k,
    {
        if str_eq(m.ext_prelude[k].name.as_str(), name.as_str()) {
            assert(ext_views(m.ext_prelude@)[k as int].name == name@);
            return true;
        }
        k = k + 1;
    }
    false
}

/// Copies a foreign-function registration.
fn copy_ext(e: &ExtFn) -> (r: ExtFn)
    ensures
        r == *e,
{
    ExtFn { name: e.name.clone(), token: e.token, arity: e.arity, returns: e.returns }
}

/// A fresh module seeded with an intrinsic table and the base prelude of
/// another module: what every load starts from.
pub fn new_module_from(base: &Module) -> (m: Module)
    ensures
        module_view(m) == (ModuleView {
            intrinsics: module_view(*base).intrinsics,
            ext: module_view(*base).ext,
            fns: Seq::empty(),
        }),
{
    let mut intrinsics: Vec<String> = Vec::new();
    let n = base.intrinsics.len();
    let mut k: usize = 0;
    while k < n
        invariant
            k <= n == base.intrinsics@.len(),
            intrinsics@ =~= base.intrinsics@.take(k as int),
        decreases n - k,
    {
        intrinsics.push(base.intrinsics[k].clone());
        proof {
            assert(intrinsics@ =~= base.intrinsics@.take(k + 1));
        }
        k = k + 1;
    }
    let mut ext_prelude: Vec<ExtFn> = Vec::new();
    let ne = base.ext_prelude.len();
    let mut j: usize = 0;
    while j < ne
        invariant
            j <= ne == base.ext_prelude@.len(),
            ext_prelude@ =~= base.ext_prelude@.take(j as int),
        decreases ne - j,
    {
        let e = copy_ext(&base.ext_prelude[j]);
        ext_prelude.push(e);
        proof {
            assert(ext_prelude@ =~= base.ext_prelude@.take(j + 1));
        }
        j = j + 1;
    }
    let m = Module { intrinsics, ext_prelude, functions: Vec::new() };
    proof {
        assert(m.intrinsics@ =~= base.intrinsics@);
        assert(m.ext_prelude@ =~= base.ext_prelude@);
        assert(m.intrinsics.deep_view() =~= base.intrinsics.deep_view());
        assert(ext_views(m.ext_prelude@) =~= ext_views(base.ext_prelude@));
        assert(fn_views(m.functions@) =~= Seq::<FnView>::empty());
    }
    m
}

/// Merges one import into a module under construction: the import's
/// prelude entries join unless their name is already registered, and its
/// loaded functions are registered after the ones already present.
pub fn merge_import(m: &mut Module, import: &Module)
    ensures
        module_view(*final(m)) == (ModuleView {
            intrinsics: module_view(*old(m)).intrinsics,
            ext: merge_ext(module_view(*old(m)).ext, module_view(*import).ext),
            fns: module_view(*old(m)).fns + module_view(*import).fns,
        }),
{
    let ne = import.ext_prelude.len();
    let mut k: usize = 0;
    proof {
        assert(ext_views(import.ext_prelude@).skip(0int) =~= ext_views(import.ext_prelude@));
    }
    while k < ne
        invariant
            k <= ne == import.ext_prelude@.len(),
            m.intrinsics == old(m).intrinsics,
            m.functions == old(m).functions,
            merge_ext(ext_views(old(m).ext_prelude@), ext_views(import.ext_prelude@)) == merge_ext(
                ext_views(m.ext_prelude@),
                ext_views(import.ext_prelude@).skip(k as int),
            ),
        decreases ne - k,
    {
        let ghost pre = ext_views(m.ext_prelude@);
        let ghost rest = ext_views(import.ext_prelude@).skip(k as int);
        proof {
            assert(rest.first() == ext_views(import.ext_prelude@)[k as int]);
            assert(rest.drop_first() =~= ext_views(import.ext_prelude@).skip(k + 1));
        }
        let e = &import.ext_prelude[k];
        if !has_ext(m, &e.name) {
            let c = copy_ext(e);
            let ghost gc = c;
            let ghost prev_vec = m.ext_prelude@;
            m.ext_prelude.push(c);
            proof {
                lemma_ext_views_push(prev_vec, gc);
                assert(ext_views(m.ext_prelude@) == pre.push(rest.first()));
            }
        }
        k = k + 1;
    }
    proof {
        assert(ext_views(import.ext_prelude@).skip(ne as int) =~= Seq::<ExtView>::empty());
    }
    let nf = import.functions.len();
    let mut j: usize = 0;
    let ghost fns_mid = fn_views(m.functions@);
    let ghost ext_done = m.ext_prelude@;
    proof {
        assert(fn_views(m.functions@) =~= fns_mid + fn_views(import.functions@).take(0int));
    }
    while j < nf
        invariant
            j <= nf == import.functions@.len(),
            m.intrinsics == old(m).intrinsics,
            m.ext_prelude@ == ext_done,
            fn_views(m.functions@) == fns_mid + fn_views(import.functions@).take(j as int),
        decreases nf - j,
    {
        let f = clone_loaded_function(&import.functions[j]);
        let ghost gf = f;
        let ghost prev_vec = m.functions@;
        m.functions.push(f);
        proof {
            lemma_fn_views_push(prev_vec, gf);
            assert(fn_views(import.functions@).take(j + 1) =~= fn_views(
                import.functions@,
            ).take(j as int).push(fn_view(import.functions@[j as int])));
            assert(fn_views(m.functions@) =~= fns_mid + fn_views(import.functions@).take(j + 1));
        }
        j = j + 1;
    }
    proof {
        assert(fn_views(import.functions@).take(nf as int) =~= fn_views(import.functions@));
        assert(fn_views(m.functions@) =~= fns_mid + fn_views(import.functions@));
        assert(m.intrinsics.deep_view() =~= old(m).intrinsics.deep_view());
    }
}

/// Registers a table of compiled functions, in order, after those already
/// present.
pub fn register_functions(m: &mut Module, fns: Vec<LoadedFunction>)
    ensures
        module_view(*final(m)) == (ModuleView {
            intrinsics: module_view(*old(m)).intrinsics,
            ext: module_view(*old(m)).ext,
            fns: module_view(*old(m)).fns + fn_views(fns@),
        }),
{
    let n = fns.len();
    let ghost gfns = fns@;
    let mut fns = fns;
    let ghost fns_mid = fn_views(m.functions@);
    let mut j: usize = 0;
    proof {
        assert(fns@ =~= gfns.skip(0int));
        assert(fn_views(m.functions@) =~= fns_mid + fn_views(gfns).take(0int));
    }
    while j < n
        invariant
            j + fns@.len() == n == gfns.len(),
            fns@ =~= gfns.skip(j as int),
            m.intrinsics == old(m).intrinsics,
            m.ext_prelude == old(m).ext_prelude,
            fn_views(m.functions@) =~= fns_mid + fn_views(gfns).take(j as int),
        decreases n - j,
    {
        let f = fns.remove(0);
        let ghost gf = f;
        proof {
            assert(gf == gfns[j as int]);
            assert(fns@ =~= gfns.skip(j + 1));
        }
        let ghost prev_vec = m.functions@;
        m.functions.push(f);
        proof {
            lemma_fn_views_push(prev_vec, gf);
            assert(fn_views(gfns).take(j + 1) =~= fn_views(gfns).take(j as int).push(
                fn_view(gfns[j as int]),
            ));
            assert(fn_views(m.functions@) =~= fns_mid + fn_views(gfns).take(j + 1));
        }
        j = j + 1;
    }
    proof {
        assert(fn_views(gfns).take(n as int) =~= fn_views(gfns));
        assert(m.intrinsics.deep_view() =~= old(m).intrinsics.deep_view());
    }
}

} // verus!
