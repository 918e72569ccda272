//! The runtime value model: a closed tagged union over every datum a
//! script can hold, together with its mathematical view.
//!
//! Numbers and the components of 4-vectors and 4x4 matrices are carried as
//! 64-bit IEEE-754 patterns (see `num`). Booleans and numbers carry an
//! optional provenance chain: the ordered justification history behind the
//! value. Stack references (`Ref`, `UnsafeRef`) are aliasing handles into
//! the current value stack and never own what they point at.

use vstd::prelude::*;

verus! {

use crate::module::Module;
use crate::module::LoadedFunction;
use crate::module::FnView;
use crate::module::fn_view;
use crate::module::clone_loaded_function;
use std::rc::Rc;

/// One keyed entry of an object.
pub struct Entry {
    pub key: String,
    pub val: Variable,
}

/// A script-level error value: a message (any value) and appended trace
/// lines. Trace lines only ever append; earlier entries never change.
pub struct Error {
    pub message: Variable,
    pub trace: Vec<String>,
}

/// A closure value: a function body together with its captured environment.
pub struct ClosureVal {
    pub fun: LoadedFunction,
    pub env: Vec<Variable>,
}

/// An opaque foreign object: either a loaded module handle (shared,
/// read-only) or a host object named by a type tag and a host-side token,
/// told apart by explicit tag comparison.
pub enum RustObject {
    Module(Rc<Module>),
    Host { tag: u64, token: u64 },
}

/// The tagged union of every runtime value.
pub enum Variable {
    /// A number pattern with an optional provenance chain.
    F64(u64, Option<Box<Vec<Variable>>>),
    /// A boolean with an optional provenance chain.
    Bool(bool, Option<Box<Vec<Variable>>>),
    /// Text.
    Text(String),
    /// A 4-vector of number patterns.
    Vec4([u64; 4]),
    /// A 4x4 matrix of number patterns, by columns.
    Mat4(Box<[[u64; 4]; 4]>),
    /// An ordered sequence; insertion order is significant.
    Array(Vec<Variable>),
    /// A mapping from text keys to values; key order is not significant,
    /// and a well-formed object keeps its keys unique (`obj_keys_unique`):
    /// constructors bind each key at most once, a later binding replacing
    /// the earlier one in place.
    Object(Vec<Entry>),
    /// A persistent link.
    Link(crate::link::Link),
    /// A present or absent boxed value.
    Option(Option<Box<Variable>>),
    /// A success-boxed value or a failure error.
    Result(Result<Box<Variable>, Box<Error>>),
    /// A closure with captured environment.
    Closure(Box<ClosureVal>),
    /// A background-task handle: an index into the runtime's task table.
    Thread(usize),
    /// An inbound-channel handle: an index into the runtime's channel table.
    In(usize),
    /// An opaque foreign object.
    RustObject(Box<RustObject>),
    /// An aliasing handle to a stack slot, subject to lifetime validation.
    Ref(usize),
    /// An aliasing handle not subject to lifetime validation.
    UnsafeRef(usize),
    /// The control marker meaning a return already occurred.
    Return,
}

/// The view of an opaque foreign object.
pub enum RustVal {
    Module(crate::module::ModuleView),
    Host { tag: u64, token: u64 },
}

/// The view of an error value.
pub struct ErrVal {
    pub message: Box<Val>,
    pub trace: Seq<Seq<char>>,
}

/// The mathematical view of a runtime value. Two values are deep-equal
/// exactly when their views are equal.
pub enum Val {
    Num { bits: u64, why: Option<Seq<Val>> },
    Bool { b: bool, why: Option<Seq<Val>> },
    Text(Seq<char>),
    Vec4(Seq<u64>),
    Mat4(Seq<Seq<u64>>),
    Array(Seq<Val>),
    Object(Seq<(Seq<char>, Val)>),
    Link(Seq<Val>),
    Opt(Option<Box<Val>>),
    Res(Result<Box<Val>, Box<ErrVal>>),
    Closure { fun: FnView, env: Seq<Val> },
    Thread(nat),
    In(nat),
    Rust(RustVal),
    Ref(nat),
    UnsafeRef(nat),
    Return,
}

/// The mathematical view of a value.
pub open spec fn val_of(v: Variable) -> Val
    decreases v, 1int,
{
    match v {
        Variable::F64(bits, why) => Val::Num { bits, why: chain_view(why) },
        Variable::Bool(b, why) => Val::Bool { b, why: chain_view(why) },
        Variable::Text(s) => Val::Text(s@),
        Variable::Vec4(c) => Val::Vec4(c@),
        Variable::Mat4(m) => Val::Mat4(Seq::new(4, |i: int| m@[i]@)),
        Variable::Array(arr) => Val::Array(vals_of(arr@)),
        Variable::Object(entries) => Val::Object(entry_vals_of(entries@)),
        Variable::Link(l) => Val::Link(crate::link::link_view(l)),
        Variable::Option(o) => match o {
            Option::None => Val::Opt(Option::None),
            Option::Some(b) => Val::Opt(Option::Some(Box::new(val_of(*b)))),
        },
        Variable::Result(r) => match r {
            Result::Ok(b) => Val::Res(Result::Ok(Box::new(val_of(*b)))),
            Result::Err(e) => Val::Res(
                Result::Err(
                    Box::new(ErrVal { message: Box::new(val_of(e.message)), trace: e.trace.deep_view() }),
                ),
            ),
        },
        Variable::Closure(c) => Val::Closure { fun: fn_view(c.fun), env: vals_of(c.env@) },
        Variable::Thread(i) => Val::Thread(i as nat),
        Variable::In(i) => Val::In(i as nat),
        Variable::RustObject(r) => Val::Rust(
            match *r {
                RustObject::Module(m) => RustVal::Module(crate::module::module_view(*m)),
                RustObject::Host { tag, token } => RustVal::Host { tag, token },
            },
        ),
        Variable::Ref(i) => Val::Ref(i as nat),
        Variable::UnsafeRef(i) => Val::UnsafeRef(i as nat),
        Variable::Return => Val::Return,
    }
}

/// The view of a provenance chain.
pub open spec fn chain_view(c: Option<Box<Vec<Variable>>>) -> Option<Seq<Val>>
    decreases c, 2int,
{
    match c {
        Option::None => Option::None,
        Option::Some(sec) => Option::Some(vals_of(sec@)),
    }
}

/// The views of a sequence of values.
pub open spec fn vals_of(s: Seq<Variable>) -> Seq<Val>
    decreases s, 0int,
{
    if s.len() == 0 {
        Seq::empty()
    } else {
        vals_of(s.drop_last()).push(val_of(s.last()))
    }
}

/// The well-formedness of an object's view: no key is bound twice.
pub open spec fn keys_unique(es: Seq<(Seq<char>, Val)>) -> bool {
    forall|i: int, j: int| 0 <= i < j < es.len() ==> (#[trigger] es[i]).0 != (#[trigger] es[j]).0
}

/// The well-formedness of an object's entries: no key is bound twice.
pub open spec fn obj_keys_unique(entries: Seq<Entry>) -> bool {
    forall|i: int, j: int|
        0 <= i < j < entries.len() ==> (#[trigger] entries[i]).key@ != (
        #[trigger] entries[j]).key@
}

/// The views of a sequence of keyed entries.
pub open spec fn entry_vals_of(s: Seq<Entry>) -> Seq<(Seq<char>, Val)>
    decreases s, 0int,
{
    if s.len() == 0 {
        Seq::empty()
    } else {
        entry_vals_of(s.drop_last()).push((s.last().key@, val_of(s.last().val)))
    }
}

/// A sequence of views is as long as the sequence it views.
pub broadcast proof fn lemma_vals_of_len(s: Seq<Variable>)
    ensures
        #[trigger] vals_of(s).len() == s.len(),
    decreases s.len(),
{
    if s.len() > 0 {
        lemma_vals_of_len(s.drop_last());
    }
}

/// A sequence of views is the view taken at each position.
pub broadcast proof fn lemma_vals_of_index(s: Seq<Variable>, i: int)
    requires
        0 <= i < s.len(),
    ensures
        #[trigger] vals_of(s)[i] == val_of(s[i]),
    decreases s.len(),
{
    lemma_vals_of_len(s);
    if i < s.len() - 1 {
        lemma_vals_of_index(s.drop_last(), i);
    } else {
        lemma_vals_of_len(s.drop_last());
    }
}

/// Viewing commutes with appending one value.
pub broadcast proof fn lemma_vals_of_push(s: Seq<Variable>, x: Variable)
    ensures
        #[trigger] vals_of(s.push(x)) == vals_of(s).push(val_of(x)),
{
    assert(s.push(x).drop_last() =~= s);
    assert(s.push(x).last() == x);
    assert(vals_of(s.push(x)) == vals_of(s.push(x).drop_last()).push(val_of(s.push(x).last())));
}

/// A sequence of entry views is as long as the sequence it views.
pub broadcast proof fn lemma_entry_vals_of_len(s: Seq<Entry>)
    ensures
        #[trigger] entry_vals_of(s).len() == s.len(),
    decreases s.len(),
{
    if s.len() > 0 {
        lemma_entry_vals_of_len(s.drop_last());
    }
}

/// A sequence of entry views is the view taken at each position.
pub broadcast proof fn lemma_entry_vals_of_index(s: Seq<Entry>, i: int)
    requires
        0 <= i < s.len(),
    ensures
        #[trigger] entry_vals_of(s)[i] == (s[i].key@, val_of(s[i].val)),
    decreases s.len(),
{
    lemma_entry_vals_of_len(s);
    if i < s.len() - 1 {
        lemma_entry_vals_of_index(s.drop_last(), i);
    } else {
        lemma_entry_vals_of_len(s.drop_last());
    }
}

/// Relies on std's Rc::clone: the clone shares the module allocation, so
/// its value is the same module.
#[verifier::external_body]
pub fn clone_module_handle(m: &Rc<Module>) -> (r: Rc<Module>)
    ensures
        r == *m,
{
    m.clone()
}

/// Copies a vector of values by value.
pub fn copy_vec_u64_4(v: &[u64; 4]) -> (r: [u64; 4])
    ensures
        r@ == v@,
{
    *v
}

/// Deep-clones a vector of values, element by element.
pub fn deep_clone_vec(arr: &Vec<Variable>) -> (r: Vec<Variable>)
    ensures
        vals_of(r@) == vals_of(arr@),
    decreases *arr,
{
    broadcast use lemma_vals_of_len, lemma_vals_of_index;

    let mut out: Vec<Variable> = Vec::new();
    let n = arr.len();
    let mut i: usize = 0;
    while i < n
        invariant
            i <= n == arr@.len(),
            out@.len() == i,
            forall|j: int| 0 <= j < i ==> val_of(out@[j]) == val_of(arr@[j]),
        decreases n - i,
    {
        let item = deep_clone(&arr[i]);
        out.push(item);
        i = i + 1;
    }
    proof {
        assert(vals_of(out@) =~= vals_of(arr@));
    }
    out
}

/// Deep-clones the entries of an object, key by key.
pub fn deep_clone_entries(entries: &Vec<Entry>) -> (r: Vec<Entry>)
    ensures
        entry_vals_of(r@) == entry_vals_of(entries@),
    decreases *entries,
{
    broadcast use lemma_entry_vals_of_len, lemma_entry_vals_of_index;

    let mut out: Vec<Entry> = Vec::new();
    let n = entries.len();
    let mut i: usize = 0;
    while i < n
        invariant
            i <= n == entries@.len(),
            out@.len() == i,
            forall|j: int|
                0 <= j < i ==> out@[j].key@ == entries@[j].key@ && val_of(out@[j].val) == val_of(
                    entries@[j].val,
                ),
        decreases n - i,
    {
        let e = &entries[i];
        let key = e.key.clone();
        let item = deep_clone(&e.val);
        out.push(Entry { key, val: item });
        i = i + 1;
    }
    proof {
        assert(entry_vals_of(out@) =~= entry_vals_of(entries@));
    }
    out
}

/// Deep-clones a value for write isolation. Nested containers are cloned
/// all the way down; stack references are copied as references, never
/// followed, so deep cloning alone can form no reference cycle. The clone
/// is deep-equal to its source: their views agree.
pub fn deep_clone(v: &Variable) -> (r: Variable)
    ensures
        val_of(r) == val_of(*v),
    decreases *v,
{
    match v {
        Variable::F64(bits, why) => {
            let chain = match why {
                Option::None => Option::None,
                Option::Some(sec) => Option::Some(Box::new(deep_clone_vec(sec))),
            };
            proof {
                assert(chain_view(chain) == chain_view(*why));
            }
            Variable::F64(*bits, chain)
        },
        Variable::Bool(b, why) => {
            let chain = match why {
                Option::None => Option::None,
                Option::Some(sec) => Option::Some(Box::new(deep_clone_vec(sec))),
            };
            proof {
                assert(chain_view(chain) == chain_view(*why));
            }
            Variable::Bool(*b, chain)
        },
        Variable::Text(s) => Variable::Text(s.clone()),
        Variable::Vec4(c) => Variable::Vec4(copy_vec_u64_4(c)),
        Variable::Mat4(m) => Variable::Mat4(Box::new(**m)),
        Variable::Array(arr) => Variable::Array(deep_clone_vec(arr)),
        Variable::Object(entries) => Variable::Object(deep_clone_entries(entries)),
        Variable::Link(l) => Variable::Link(crate::link::clone_link(l)),
        Variable::Option(o) => match o {
            Option::None => Variable::Option(Option::None),
            Option::Some(b) => Variable::Option(Option::Some(Box::new(deep_clone(&**b)))),
        },
        Variable::Result(r) => match r {
            Result::Ok(b) => Variable::Result(Result::Ok(Box::new(deep_clone(&**b)))),
            Result::Err(e) => {
                let msg = deep_clone(&e.message);
                let mut trace: Vec<String> = Vec::new();
                let n = e.trace.len();
                let mut i: usize = 0;
                while i < n
                    invariant
                        i <= n == e.trace@.len(),
                        trace@.len() == i,
                        forall|j: int| 0 <= j < i ==> trace@[j]@ == e.trace@[j]@,
                    decreases n - i,
                {
                    trace.push(e.trace[i].clone());
                    i = i + 1;
                }
                proof {
                    assert(trace.deep_view() =~= e.trace.deep_view());
                }
                Variable::Result(Result::Err(Box::new(Error { message: msg, trace })))
            },
        },
        Variable::Closure(c) => {
            let fun = clone_loaded_function(&c.fun);
            let env = deep_clone_vec(&c.env);
            Variable::Closure(Box::new(ClosureVal { fun, env }))
        },
        Variable::Thread(i) => Variable::Thread(*i),
        Variable::In(i) => Variable::In(*i),
        Variable::RustObject(r) => Variable::RustObject(
            Box::new(
                match &**r {
                    RustObject::Module(m) => RustObject::Module(clone_module_handle(m)),
                    RustObject::Host { tag, token } => RustObject::Host {
                        tag: *tag,
                        token: *token,
                    },
                },
            ),
        ),
        Variable::Ref(i) => Variable::Ref(*i),
        Variable::UnsafeRef(i) => Variable::UnsafeRef(*i),
        Variable::Return => Variable::Return,
    }
}

/// The name of a value's type, as scripts see it.
pub fn type_text(v: &Variable) -> (r: &'static str)
    ensures
        r@ == spec_type_text(val_of(*v)),
{
    match v {
        Variable::Text(_) => "str",
        Variable::F64(_, _) => "f64",
        Variable::Vec4(_) => "vec4",
        Variable::Mat4(_) => "mat4",
        Variable::Return => "return",
        Variable::Bool(_, _) => "bool",
        Variable::Object(_) => "obj",
        Variable::Array(_) => "arr",
        Variable::Link(_) => "link",
        Variable::Ref(_) => "ref",
        Variable::UnsafeRef(_) => "unsafe_ref",
        Variable::RustObject(_) => "rust_object",
        Variable::Option(_) => "opt",
        Variable::Result(_) => "res",
        Variable::Thread(_) => "thr",
        Variable::Closure(_, ..) => "closure",
        Variable::In(_) => "in",
    }
}

/// The name of a view's type.
pub open spec fn spec_type_text(v: Val) -> Seq<char> {
    match v {
        Val::Text(_) => "str"@,
        Val::Num { .. } => "f64"@,
        Val::Vec4(_) => "vec4"@,
        Val::Mat4(_) => "mat4"@,
        Val::Return => "return"@,
        Val::Bool { .. } => "bool"@,
        Val::Object(_) => "obj"@,
        Val::Array(_) => "arr"@,
        Val::Link(_) => "link"@,
        Val::Ref(_) => "ref"@,
        Val::UnsafeRef(_) => "unsafe_ref"@,
        Val::Rust(_) => "rust_object"@,
        Val::Opt(_) => "opt"@,
        Val::Res(_) => "res"@,
        Val::Thread(_) => "thr"@,
        Val::Closure { .. } => "closure"@,
        Val::In(_) => "in"@,
    }
}

} // verus!
