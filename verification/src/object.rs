//! The runtime value model shared by the evaluator and the virtual
//! machine: a tagged union of values, its mathematical mirror
//! (`ObjV`), the structural equality and truthiness the language
//! observes, the runtime error taxonomy, and the textual form of
//! values.

use vstd::prelude::*;
use vstd::string::StringExecFns;

use crate::ast::{
    FuncExpr, StmtV, params_view, stmts_view, expr_text, ExprV, clone_func, block_text,
    idents_text,
};
use crate::builtin::Builtin;
use crate::code::{Bytes, clone_bytes, bytes_text_from};
use crate::strutil::{int_text, dec_rep, append_int, append_dec, push_char};
use crate::token::{TokenType, token_type_text};

verus! {

/// A runtime value.
#[derive(Debug)]
pub enum Object {
    Integer(i64),
    Bool(bool),
    String(String),

    Return(Box<Object>),
    Func(FuncObj),
    CompiledFunc(CompiledFuncObj),
    Builtin(Builtin),
    Array(ArrayObj),
    Hash(HashObj),

    Null,
}

/// An evaluator function value: the literal it came from, and the
/// environment it captured, as an index into the evaluator's
/// environment arena.
#[derive(Debug)]
pub struct FuncObj {
    pub expr: FuncExpr,
    pub env: usize,
}

/// A compiled function: its instructions, the number of local slots
/// it needs (parameters included), and its parameter count.
#[derive(Debug)]
pub struct CompiledFuncObj {
    pub instructions: Bytes,
    pub locals: usize,
    pub params: usize,
}

impl CompiledFuncObj {
    /// Build a compiled function.
    pub fn new(instructions: Bytes, locals: usize, params: usize) -> (r: CompiledFuncObj)
        ensures
            r.instructions@ == instructions@,
            r.locals == locals,
            r.params == params,
    {
        CompiledFuncObj { instructions, locals, params }
    }
}

/// An array value: an ordered sequence of values.
#[derive(Debug)]
pub struct ArrayObj {
    pub elements: Vec<Object>,
}

/// A hash value: key-value pairs in insertion order, keys unique.
#[derive(Debug)]
pub struct HashObj {
    pub pairs: Vec<(Object, Object)>,
}

/// The mathematical mirror of a runtime value.
pub enum ObjV {
    Int(i64),
    Bool(bool),
    Str(Seq<char>),
    Return(Box<ObjV>),
    Func(Seq<Seq<char>>, Seq<StmtV>, int),
    CompiledFunc(Seq<u8>, nat, nat),
    Builtin(Builtin),
    Arr(Seq<ObjV>),
    Hash(Seq<(ObjV, ObjV)>),
    Null,
}

pub open spec fn obj_view(o: Object) -> ObjV
    decreases o,
{
    match o {
        Object::Integer(x) => ObjV::Int(x),
        Object::Bool(b) => ObjV::Bool(b),
        Object::String(s) => ObjV::Str(s@),
        Object::Return(inner) => ObjV::Return(Box::new(obj_view(*inner))),
        Object::Func(f) => ObjV::Func(
            params_view(f.expr.params@),
            stmts_view(f.expr.body@),
            f.env as int,
        ),
        Object::CompiledFunc(c) => ObjV::CompiledFunc(
            c.instructions@,
            c.locals as nat,
            c.params as nat,
        ),
        Object::Builtin(b) => ObjV::Builtin(b),
        Object::Array(a) => ObjV::Arr(objs_view(a.elements@)),
        Object::Hash(h) => ObjV::Hash(obj_pairs_view(h.pairs@)),
        Object::Null => ObjV::Null,
    }
}

pub open spec fn objs_view(os: Seq<Object>) -> Seq<ObjV>
    decreases os,
{
    if os.len() == 0 {
        Seq::empty()
    } else {
        seq![obj_view(os[0])] + objs_view(os.drop_first())
    }
}

pub open spec fn obj_pairs_view(ps: Seq<(Object, Object)>) -> Seq<(ObjV, ObjV)>
    decreases ps,
{
    if ps.len() == 0 {
        Seq::empty()
    } else {
        seq![(obj_view(ps[0].0), obj_view(ps[0].1))] + obj_pairs_view(ps.drop_first())
    }
}

impl View for Object {
    type V = ObjV;

    open spec fn view(&self) -> ObjV {
        obj_view(*self)
    }
}

impl View for ArrayObj {
    type V = Seq<ObjV>;

    open spec fn view(&self) -> Seq<ObjV> {
        objs_view(self.elements@)
    }
}

impl View for HashObj {
    type V = Seq<(ObjV, ObjV)>;

    open spec fn view(&self) -> Seq<(ObjV, ObjV)> {
        obj_pairs_view(self.pairs@)
    }
}

pub proof fn lemma_objs_view_len(os: Seq<Object>)
    ensures
        objs_view(os).len() == os.len(),
        forall|i: int| 0 <= i < os.len() ==> objs_view(os)[i] == obj_view(#[trigger] os[i]),
    decreases os.len(),
{
    if os.len() > 0 {
        lemma_objs_view_len(os.drop_first());
        assert forall|i: int| 0 <= i < os.len() implies objs_view(os)[i] == obj_view(
            #[trigger] os[i],
        ) by {
            if i > 0 {
                assert(os.drop_first()[i - 1] == os[i]);
            }
        }
    }
}

pub proof fn lemma_obj_pairs_view_len(ps: Seq<(Object, Object)>)
    ensures
        obj_pairs_view(ps).len() == ps.len(),
        forall|i: int| 0 <= i < ps.len() ==> obj_pairs_view(ps)[i] == (
            obj_view(#[trigger] ps[i].0),
            obj_view(ps[i].1),
        ),
    decreases ps.len(),
{
    if ps.len() > 0 {
        lemma_obj_pairs_view_len(ps.drop_first());
        assert forall|i: int| 0 <= i < ps.len() implies obj_pairs_view(ps)[i] == (
            obj_view(#[trigger] ps[i].0),
            obj_view(ps[i].1),
        ) by {
            if i > 0 {
                assert(ps.drop_first()[i - 1] == ps[i]);
            }
        }
    }
}

/// The diagnostic tag of a value's kind.
pub open spec fn kind_text(v: ObjV) -> Seq<char> {
    match v {
        ObjV::Int(_) => "INTEGER"@,
        ObjV::Bool(_) => "BOOL"@,
        ObjV::Str(_) => "STRING"@,
        ObjV::Null => "NULL"@,
        ObjV::Return(_) => "RETURN"@,
        ObjV::Func(_, _, _) => "FUNCTION"@,
        ObjV::CompiledFunc(_, _, _) => "COMPILED FUNCTION"@,
        ObjV::Builtin(_) => "BUILTIN"@,
        ObjV::Arr(_) => "ARRAY"@,
        ObjV::Hash(_) => "HASH"@,
    }
}

/// Truthiness: `false`, `null` and the integer zero are false; a
/// return marker has the truthiness of the value it carries; every
/// other value is true.
pub open spec fn truthy(v: ObjV) -> bool
    decreases v,
{
    match v {
        ObjV::Int(x) => x != 0,
        ObjV::Bool(b) => b,
        ObjV::Null => false,
        ObjV::Return(o) => truthy(*o),
        _ => true,
    }
}

/// A value that may key a hash: an integer, a string or a boolean.
pub open spec fn hashable(v: ObjV) -> bool {
    v is Int || v is Str || v is Bool
}

/// The structural equality the language's `==` observes: primitives
/// by value, arrays element by element, hashes as sets of key-value
/// pairs, functions by their structure.
pub open spec fn obj_eq(a: ObjV, b: ObjV) -> bool
    decreases a,
{
    match (a, b) {
        (ObjV::Int(x), ObjV::Int(y)) => x == y,
        (ObjV::Bool(x), ObjV::Bool(y)) => x == y,
        (ObjV::Str(x), ObjV::Str(y)) => x == y,
        (ObjV::Null, ObjV::Null) => true,
        (ObjV::Return(x), ObjV::Return(y)) => obj_eq(*x, *y),
        (ObjV::Builtin(x), ObjV::Builtin(y)) => x == y,
        (ObjV::Func(p1, b1, e1), ObjV::Func(p2, b2, e2)) => p1 == p2 && b1 == b2 && e1 == e2,
        (ObjV::CompiledFunc(i1, l1, n1), ObjV::CompiledFunc(i2, l2, n2)) => i1 == i2 && l1 == l2
            && n1 == n2,
        (ObjV::Arr(x), ObjV::Arr(y)) => x.len() == y.len() && (forall|i: int|
            0 <= i < x.len() ==> obj_eq(#[trigger] x[i], y[i])),
        (ObjV::Hash(x), ObjV::Hash(y)) => hash_sub(x, y) && hash_sup(x, y),
        _ => false,
    }
}

/// Whether a pair of one hash matches a pair of another: keys and
/// values equal by the language's equality.
pub open spec fn pair_matches(x: (ObjV, ObjV), y: (ObjV, ObjV)) -> bool
    decreases x,
{
    obj_eq(x.0, y.0) && obj_eq(x.1, y.1)
}

/// Every pair of `xs` has a matching pair in `ys`.
pub open spec fn hash_sub(xs: Seq<(ObjV, ObjV)>, ys: Seq<(ObjV, ObjV)>) -> bool
    decreases xs,
{
    forall|i: int| #![trigger xs[i]]
        0 <= i < xs.len() ==> exists|j: int|
            0 <= j < ys.len() && pair_matches(xs[i], #[trigger] ys[j])
}

/// Every pair of `ys` has a matching pair in `xs`.
pub open spec fn hash_sup(xs: Seq<(ObjV, ObjV)>, ys: Seq<(ObjV, ObjV)>) -> bool
    decreases xs,
{
    forall|j: int| #![trigger ys[j]]
        0 <= j < ys.len() ==> exists|i: int|
            0 <= i < xs.len() && pair_matches(#[trigger] xs[i], ys[j])
}

/// The value a hash holds under a key, by the language's equality.
pub open spec fn hash_lookup(ps: Seq<(ObjV, ObjV)>, k: ObjV) -> Option<ObjV>
    decreases ps,
{
    if ps.len() == 0 {
        None
    } else if obj_eq(ps[0].0, k) {
        Some(ps[0].1)
    } else {
        hash_lookup(ps.drop_first(), k)
    }
}

/// A hash after binding a key: an existing binding under an equal
/// key keeps its place and its key and takes the new value; a new
/// key goes at the end.
pub open spec fn hash_insert(ps: Seq<(ObjV, ObjV)>, k: ObjV, v: ObjV) -> Seq<(ObjV, ObjV)>
    decreases ps,
{
    if ps.len() == 0 {
        seq![(k, v)]
    } else if obj_eq(ps[0].0, k) {
        seq![(ps[0].0, v)] + ps.drop_first()
    } else {
        seq![ps[0]] + hash_insert(ps.drop_first(), k, v)
    }
}

impl Object {
    /// Truthiness of this value.
    pub fn is_truthy(&self) -> (r: bool)
        ensures
            r == truthy(self@),
        decreases *self,
    {
        match self {
            Object::Integer(x) => *x != 0,
            Object::Bool(b) => *b,
            Object::Null => false,
            Object::Return(o) => o.is_truthy(),
            _ => true,
        }
    }

    /// The diagnostic tag of this value's kind.
    pub fn kind(&self) -> (r: &'static str)
        ensures
            r@ == kind_text(self@),
    {
        match self {
            Object::Integer(_) => "INTEGER",
            Object::Bool(_) => "BOOL",
            Object::String(_) => "STRING",
            Object::Null => "NULL",
            Object::Return(_) => "RETURN",
            Object::Func(_) => "FUNCTION",
            Object::CompiledFunc(_) => "COMPILED FUNCTION",
            Object::Builtin(_) => "BUILTIN",
            Object::Array(_) => "ARRAY",
            Object::Hash(_) => "HASH",
        }
    }

    /// Whether this value may key a hash.
    pub fn is_hashable(&self) -> (r: bool)
        ensures
            r == hashable(self@),
    {
        match self {
            Object::Integer(_) => true,
            Object::String(_) => true,
            Object::Bool(_) => true,
            _ => false,
        }
    }
}

/// The structural equality the language's `==` observes.
#[verifier::loop_isolation(false)]
#[verifier::rlimit(100)]
pub fn object_eq(a: &Object, b: &Object) -> (r: bool)
    ensures
        r == obj_eq(a@, b@),
    decreases *a,
{
    match (a, b) {
        (Object::Integer(x), Object::Integer(y)) => *x == *y,
        (Object::Bool(x), Object::Bool(y)) => *x == *y,
        (Object::String(x), Object::String(y)) => x.eq(y),
        (Object::Null, Object::Null) => true,
        (Object::Return(x), Object::Return(y)) => object_eq(x, y),
        (Object::Builtin(x), Object::Builtin(y)) => *x == *y,
        (Object::Func(f1), Object::Func(f2)) => {
            f1.env == f2.env && crate::ast::idents_eq(&f1.expr.params, &f2.expr.params)
                && crate::ast::stmts_eq(&f1.expr.body, &f2.expr.body)
        }
        (Object::CompiledFunc(c1), Object::CompiledFunc(c2)) => {
            c1.locals == c2.locals && c1.params == c2.params && bytes_eq(
                &c1.instructions,
                &c2.instructions,
            )
        }
        (Object::Array(x), Object::Array(y)) => {
            proof {
                lemma_objs_view_len(x.elements@);
                lemma_objs_view_len(y.elements@);
            }
            if x.elements.len() != y.elements.len() {
                return false;
            }
            let mut i: usize = 0;
            while i < x.elements.len()
                invariant
                    i <= x.elements@.len(),
                    x.elements@.len() == y.elements@.len(),
                    forall|k: int| 0 <= k < i ==> obj_eq(
                        obj_view(#[trigger] x.elements@[k]),
                        obj_view(y.elements@[k]),
                    ),
                decreases x.elements@.len() - i,
            {
                if !object_eq(&x.elements[i], &y.elements[i]) {
                    proof {
                        let xv = objs_view(x.elements@);
                        let yv = objs_view(y.elements@);
                        assert(xv[i as int] == obj_view(x.elements@[i as int]));
                        assert(yv[i as int] == obj_view(y.elements@[i as int]));
                        assert(!obj_eq(xv[i as int], yv[i as int]));
                    }
                    return false;
                }
                i = i + 1;
            }
            proof {
                let xv = objs_view(x.elements@);
                let yv = objs_view(y.elements@);
                assert forall|ii: int| 0 <= ii < xv.len() implies obj_eq(
                    #[trigger] xv[ii],
                    yv[ii],
                ) by {
                    assert(xv[ii] == obj_view(x.elements@[ii]));
                    assert(yv[ii] == obj_view(y.elements@[ii]));
                    assert(obj_eq(obj_view(x.elements@[ii]), obj_view(y.elements@[ii])));
                }
            }
            true
        }
        (Object::Hash(x), Object::Hash(y)) => {
            proof {
                lemma_obj_pairs_view_len(x.pairs@);
                lemma_obj_pairs_view_len(y.pairs@);
            }
            hash_sub_exec(&x.pairs, &y.pairs) && hash_sup_exec(&x.pairs, &y.pairs)
        }
        _ => {
            proof {
                assert(!obj_eq(a@, b@));
            }
            false
        }
    }
}

/// Every pair of `xs` has a matching pair in `ys`, by the
/// language's equality.
#[verifier::loop_isolation(false)]
fn hash_sub_exec(xs: &Vec<(Object, Object)>, ys: &Vec<(Object, Object)>) -> (r: bool)
    ensures
        r == hash_sub(obj_pairs_view(xs@), obj_pairs_view(ys@)),
    decreases xs,
{
    proof {
        lemma_obj_pairs_view_len(xs@);
        lemma_obj_pairs_view_len(ys@);
    }
    let ghost xv = obj_pairs_view(xs@);
    let ghost yv = obj_pairs_view(ys@);
    let mut i: usize = 0;
    while i < xs.len()
        invariant
            i <= xs@.len(),
            forall|k: int| #![trigger xv[k]] 0 <= k < i ==> exists|j: int|
                0 <= j < yv.len() && pair_matches(xv[k], #[trigger] yv[j]),
        decreases xs@.len() - i,
    {
        let mut j: usize = 0;
        let mut found = false;
        while j < ys.len()
            invariant
                j <= ys@.len(),
                i < xs@.len(),
                found ==> exists|j2: int|
                    0 <= j2 < yv.len() && pair_matches(xv[i as int], #[trigger] yv[j2]),
                !found ==> forall|j2: int| 0 <= j2 < j ==> !pair_matches(
                    xv[i as int],
                    #[trigger] yv[j2],
                ),
            decreases ys@.len() - j,
        {
            if object_eq(&xs[i].0, &ys[j].0) && object_eq(&xs[i].1, &ys[j].1) {
                found = true;
                break;
            }
            j = j + 1;
        }
        if !found {
            proof {
                assert(!(exists|j2: int|
                    0 <= j2 < yv.len() && pair_matches(xv[i as int], #[trigger] yv[j2])));
            }
            return false;
        }
        i = i + 1;
    }
    true
}

/// Every pair of `ys` has a matching pair in `xs`, by the
/// language's equality.
#[verifier::loop_isolation(false)]
fn hash_sup_exec(xs: &Vec<(Object, Object)>, ys: &Vec<(Object, Object)>) -> (r: bool)
    ensures
        r == hash_sup(obj_pairs_view(xs@), obj_pairs_view(ys@)),
    decreases xs,
{
    proof {
        lemma_obj_pairs_view_len(xs@);
        lemma_obj_pairs_view_len(ys@);
    }
    let ghost xv = obj_pairs_view(xs@);
    let ghost yv = obj_pairs_view(ys@);
    let mut j: usize = 0;
    while j < ys.len()
        invariant
            j <= ys@.len(),
            forall|k: int| #![trigger yv[k]] 0 <= k < j ==> exists|i: int|
                0 <= i < xv.len() && pair_matches(#[trigger] xv[i], yv[k]),
        decreases ys@.len() - j,
    {
        let mut i: usize = 0;
        let mut found = false;
        while i < xs.len()
            invariant
                i <= xs@.len(),
                j < ys@.len(),
                found ==> exists|i2: int|
                    0 <= i2 < xv.len() && pair_matches(#[trigger] xv[i2], yv[j as int]),
                !found ==> forall|i2: int| 0 <= i2 < i ==> !pair_matches(
                    #[trigger] xv[i2],
                    yv[j as int],
                ),
            decreases xs@.len() - i,
        {
            if object_eq(&xs[i].0, &ys[j].0) && object_eq(&xs[i].1, &ys[j].1) {
                found = true;
                break;
            }
            i = i + 1;
        }
        if !found {
            proof {
                assert(!(exists|i2: int|
                    0 <= i2 < xv.len() && pair_matches(#[trigger] xv[i2], yv[j as int])));
            }
            return false;
        }
        j = j + 1;
    }
    true
}

/// Whether two instruction buffers hold the same bytes.
fn bytes_eq(a: &Bytes, b: &Bytes) -> (r: bool)
    ensures
        r == (a@ == b@),
{
    if a.len() != b.len() {
        return false;
    }
    let mut i: usize = 0;
    while i < a.len()
        invariant
            i <= a@.len(),
            a@.len() == b@.len(),
            forall|k: int| 0 <= k < i ==> a@[k] == b@[k],
        decreases a@.len() - i,
    {
        if a.read(i) != b.read(i) {
            return false;
        }
        i = i + 1;
    }
    proof {
        assert(a@ =~= b@);
    }
    true
}

/// A deep copy of a value; the copy has the same mathematical
/// mirror.
#[verifier::loop_isolation(false)]
pub fn clone_obj(o: &Object) -> (r: Object)
    ensures
        r@ == o@,
    decreases *o,
{
    match o {
        Object::Integer(x) => Object::Integer(*x),
        Object::Bool(b) => Object::Bool(*b),
        Object::String(s) => Object::String(s.clone()),
        Object::Return(inner) => Object::Return(Box::new(clone_obj(inner))),
        Object::Func(f) => Object::Func(FuncObj { expr: clone_func(&f.expr), env: f.env }),
        Object::CompiledFunc(c) => Object::CompiledFunc(
            CompiledFuncObj {
                instructions: clone_bytes(&c.instructions),
                locals: c.locals,
                params: c.params,
            },
        ),
        Object::Builtin(b) => Object::Builtin(*b),
        Object::Array(a) => Object::Array(ArrayObj { elements: clone_objs(&a.elements) }),
        Object::Hash(h) => {
            let mut pairs: Vec<(Object, Object)> = Vec::new();
            let mut i: usize = 0;
            proof {
                lemma_obj_pairs_view_len(h.pairs@);
            }
            while i < h.pairs.len()
                invariant
                    i <= h.pairs@.len(),
                    pairs@.len() == i,
                    forall|k: int| 0 <= k < i ==> (
                        obj_view(#[trigger] pairs@[k].0),
                        obj_view(pairs@[k].1),
                    ) == (obj_view(h.pairs@[k].0), obj_view(h.pairs@[k].1)),
                decreases h.pairs@.len() - i,
            {
                let k = clone_obj(&h.pairs[i].0);
                let v = clone_obj(&h.pairs[i].1);
                pairs.push((k, v));
                i = i + 1;
            }
            proof {
                lemma_obj_pairs_view_len(pairs@);
                assert forall|k: int| 0 <= k < pairs@.len() implies obj_pairs_view(pairs@)[k]
                    == obj_pairs_view(h.pairs@)[k] by {
                    assert((obj_view(pairs@[k].0), obj_view(pairs@[k].1)) == (
                        obj_view(h.pairs@[k].0),
                        obj_view(h.pairs@[k].1),
                    ));
                }
                assert(obj_pairs_view(pairs@) =~= obj_pairs_view(h.pairs@));
            }
            Object::Hash(HashObj { pairs })
        }
        Object::Null => Object::Null,
    }
}

/// A deep copy of a value list.
pub fn clone_objs(os: &Vec<Object>) -> (r: Vec<Object>)
    ensures
        objs_view(r@) == objs_view(os@),
        r@.len() == os@.len(),
    decreases os,
{
    let mut out: Vec<Object> = Vec::new();
    let mut i: usize = 0;
    while i < os.len()
        invariant
            i <= os@.len(),
            out@.len() == i,
            forall|j: int| 0 <= j < i ==> obj_view(#[trigger] out@[j]) == obj_view(os@[j]),
        decreases os@.len() - i,
    {
        out.push(clone_obj(&os[i]));
        i = i + 1;
    }
    proof {
        lemma_objs_view_len(out@);
        lemma_objs_view_len(os@);
        assert forall|j: int| 0 <= j < out@.len() implies objs_view(out@)[j] == objs_view(
            os@,
        )[j] by {
            assert(obj_view(out@[j]) == obj_view(os@[j]));
        }
        assert(objs_view(out@) =~= objs_view(os@));
    }
    out
}

impl HashObj {
    /// An empty hash.
    pub fn new() -> (r: HashObj)
        ensures
            r@ == Seq::<(ObjV, ObjV)>::empty(),
    {
        let pairs: Vec<(Object, Object)> = Vec::new();
        proof {
            assert(obj_pairs_view(pairs@) =~= Seq::<(ObjV, ObjV)>::empty());
        }
        HashObj { pairs }
    }

    /// Bind a key: an existing binding under an equal key keeps its
    /// place and takes the new value; a new key goes at the end.
    #[verifier::loop_isolation(false)]
    pub fn insert(&mut self, k: Object, v: Object)
        ensures
            final(self)@ == hash_insert(old(self)@, k@, v@),
    {
        proof {
            lemma_obj_pairs_view_len(self.pairs@);
        }
        let mut i: usize = 0;
        while i < self.pairs.len()
            invariant
                i <= self.pairs@.len(),
                self == old(self),
                forall|j: int| 0 <= j < i ==> !obj_eq(
                    #[trigger] obj_pairs_view(self.pairs@)[j].0,
                    k@,
                ),
            decreases self.pairs@.len() - i,
        {
            if object_eq(&self.pairs[i].0, &k) {
                let old_key = clone_obj(&self.pairs[i].0);
                self.pairs.set(i, (old_key, v));
                proof {
                    lemma_obj_pairs_view_len(self.pairs@);
                    lemma_obj_pairs_view_len(old(self).pairs@);
                    lemma_hash_insert_at(old(self)@, k@, v@, i as int);
                    assert forall|j: int| 0 <= j < self.pairs@.len() implies obj_pairs_view(
                        self.pairs@,
                    )[j] == hash_insert(old(self)@, k@, v@)[j] by {
                        assert(obj_pairs_view(self.pairs@)[j] == (
                            obj_view(self.pairs@[j].0),
                            obj_view(self.pairs@[j].1),
                        ));
                        if j == i {
                            assert(self.pairs@[j] == (old_key, v));
                            assert(obj_view(old_key) == old(self)@[j].0);
                        } else {
                            assert(self.pairs@[j] == old(self).pairs@[j]);
                            assert(obj_pairs_view(old(self).pairs@)[j] == (
                                obj_view(old(self).pairs@[j].0),
                                obj_view(old(self).pairs@[j].1),
                            ));
                        }
                    }
                    assert(obj_pairs_view(self.pairs@) =~= hash_insert(old(self)@, k@, v@));
                }
                return;
            }
            i = i + 1;
        }
        self.pairs.push((k, v));
        proof {
            lemma_obj_pairs_view_push(old(self).pairs@, k, v);
            lemma_hash_insert_missing(old(self)@, k@, v@);
            assert(obj_pairs_view(self.pairs@) =~= hash_insert(old(self)@, k@, v@));
        }
    }

    /// The value held under a key, by the language's equality.
    #[verifier::loop_isolation(false)]
    pub fn get(&self, k: &Object) -> (r: Option<Object>)
        ensures
            match hash_lookup(self@, k@) {
                Some(v) => r matches Some(o) && o@ == v,
                None => r is None,
            },
    {
        proof {
            lemma_obj_pairs_view_len(self.pairs@);
            assert(obj_pairs_view(self.pairs@).skip(0) =~= obj_pairs_view(self.pairs@));
        }
        let mut i: usize = 0;
        while i < self.pairs.len()
            invariant
                i <= self.pairs@.len(),
                hash_lookup(self@, k@) == hash_lookup(
                    obj_pairs_view(self.pairs@).skip(i as int),
                    k@,
                ),
            decreases self.pairs@.len() - i,
        {
            proof {
                assert(obj_pairs_view(self.pairs@).skip(i as int)[0] == obj_pairs_view(
                    self.pairs@,
                )[i as int]);
                assert(obj_pairs_view(self.pairs@).skip(i as int).drop_first()
                    =~= obj_pairs_view(self.pairs@).skip(i + 1));
            }
            if object_eq(&self.pairs[i].0, k) {
                return Some(clone_obj(&self.pairs[i].1));
            }
            i = i + 1;
        }
        proof {
            assert(obj_pairs_view(self.pairs@).skip(self.pairs@.len() as int) =~= Seq::<
                (ObjV, ObjV),
            >::empty());
        }
        None
    }

    /// The number of bindings held.
    pub fn len(&self) -> (n: usize)
        ensures
            n == self@.len(),
    {
        proof {
            lemma_obj_pairs_view_len(self.pairs@);
        }
        self.pairs.len()
    }
}

proof fn lemma_hash_insert_at(ps: Seq<(ObjV, ObjV)>, k: ObjV, v: ObjV, i: int)
    requires
        0 <= i < ps.len(),
        obj_eq(ps[i].0, k),
        forall|j: int| 0 <= j < i ==> !obj_eq(#[trigger] ps[j].0, k),
    ensures
        hash_insert(ps, k, v) == ps.update(i, (ps[i].0, v)),
    decreases ps.len(),
{
    if i == 0 {
        assert(hash_insert(ps, k, v) == seq![(ps[0].0, v)] + ps.drop_first());
        assert(seq![(ps[0].0, v)] + ps.drop_first() =~= ps.update(0, (ps[0].0, v)));
    } else {
        assert(!obj_eq(ps[0].0, k));
        assert(ps.drop_first()[i - 1] == ps[i]);
        assert forall|j: int| 0 <= j < i - 1 implies !obj_eq(
            #[trigger] ps.drop_first()[j].0,
            k,
        ) by {
            assert(ps.drop_first()[j] == ps[j + 1]);
        }
        lemma_hash_insert_at(ps.drop_first(), k, v, i - 1);
        assert(hash_insert(ps, k, v) == seq![ps[0]] + ps.drop_first().update(i - 1, (ps[i].0, v)));
        assert(seq![ps[0]] + ps.drop_first().update(i - 1, (ps[i].0, v)) =~= ps.update(
            i,
            (ps[i].0, v),
        ));
    }
}

proof fn lemma_hash_insert_missing(ps: Seq<(ObjV, ObjV)>, k: ObjV, v: ObjV)
    requires
        forall|j: int| 0 <= j < ps.len() ==> !obj_eq(#[trigger] ps[j].0, k),
    ensures
        hash_insert(ps, k, v) == ps.push((k, v)),
    decreases ps.len(),
{
    if ps.len() == 0 {
        assert(hash_insert(ps, k, v) =~= ps.push((k, v)));
    } else {
        assert forall|j: int| 0 <= j < ps.drop_first().len() implies !obj_eq(
            #[trigger] ps.drop_first()[j].0,
            k,
        ) by {
            assert(ps.drop_first()[j] == ps[j + 1]);
        }
        lemma_hash_insert_missing(ps.drop_first(), k, v);
        assert(hash_insert(ps, k, v) == seq![ps[0]] + ps.drop_first().push((k, v)));
        assert(seq![ps[0]] + ps.drop_first().push((k, v)) =~= ps.push((k, v)));
    }
}

} // verus!

verus! {

/// The mathematical mirror of a runtime error.
pub enum ErrV {
    TypeMismatch { left: Seq<char>, op: TokenType, right: Seq<char> },
    UnknownOperator { left: Seq<char>, op: TokenType, right: Seq<char> },
    UnknownPrefixOperator { op: TokenType, right: Seq<char> },
    IdentNotFound { name: Seq<char> },
    NotAFunction { kind: Seq<char> },
    CallingNonFunction,
    ArityMismatch { expected: int, got: int },
    WrongNumberOfArgs { expected: int, got: int },
    BuiltinArg { name: Seq<char>, kind: Seq<char> },
    UnusableHashKey { kind: Seq<char> },
    IndexNotSupported { kind: Seq<char> },
    StackOverflow,
    DivisionByZero,
    OutOfFuel,
    UnknownBuiltin { index: int },
    BadOpcode { byte: int },
    StackUnderflow,
    GlobalOutOfRange { index: int },
    TruncatedInstruction,
}

/// A runtime error: the taxonomy of §`len`-style builtin failures,
/// operator failures, lookup failures and machine limits shared by
/// the evaluator and the virtual machine.
#[derive(Debug)]
pub enum RunError {
    TypeMismatch { left: String, op: TokenType, right: String },
    UnknownOperator { left: String, op: TokenType, right: String },
    UnknownPrefixOperator { op: TokenType, right: String },
    IdentNotFound { name: String },
    NotAFunction { kind: String },
    CallingNonFunction,
    ArityMismatch { expected: usize, got: usize },
    WrongNumberOfArgs { expected: usize, got: usize },
    BuiltinArg { name: String, kind: String },
    UnusableHashKey { kind: String },
    IndexNotSupported { kind: String },
    StackOverflow,
    DivisionByZero,
    OutOfFuel,
    UnknownBuiltin { index: u8 },
    BadOpcode { byte: u8 },
    StackUnderflow,
    GlobalOutOfRange { index: u16 },
    TruncatedInstruction,
}

impl View for RunError {
    type V = ErrV;

    open spec fn view(&self) -> ErrV {
        match *self {
            RunError::TypeMismatch { ref left, op, ref right } => ErrV::TypeMismatch {
                left: left@,
                op,
                right: right@,
            },
            RunError::UnknownOperator { ref left, op, ref right } => ErrV::UnknownOperator {
                left: left@,
                op,
                right: right@,
            },
            RunError::UnknownPrefixOperator { op, ref right } => ErrV::UnknownPrefixOperator {
                op,
                right: right@,
            },
            RunError::IdentNotFound { ref name } => ErrV::IdentNotFound { name: name@ },
            RunError::NotAFunction { ref kind } => ErrV::NotAFunction { kind: kind@ },
            RunError::CallingNonFunction => ErrV::CallingNonFunction,
            RunError::ArityMismatch { expected, got } => ErrV::ArityMismatch {
                expected: expected as int,
                got: got as int,
            },
            RunError::WrongNumberOfArgs { expected, got } => ErrV::WrongNumberOfArgs {
                expected: expected as int,
                got: got as int,
            },
            RunError::BuiltinArg { ref name, ref kind } => ErrV::BuiltinArg {
                name: name@,
                kind: kind@,
            },
            RunError::UnusableHashKey { ref kind } => ErrV::UnusableHashKey { kind: kind@ },
            RunError::IndexNotSupported { ref kind } => ErrV::IndexNotSupported { kind: kind@ },
            RunError::StackOverflow => ErrV::StackOverflow,
            RunError::DivisionByZero => ErrV::DivisionByZero,
            RunError::OutOfFuel => ErrV::OutOfFuel,
            RunError::UnknownBuiltin { index } => ErrV::UnknownBuiltin { index: index as int },
            RunError::BadOpcode { byte } => ErrV::BadOpcode { byte: byte as int },
            RunError::StackUnderflow => ErrV::StackUnderflow,
            RunError::GlobalOutOfRange { index } => ErrV::GlobalOutOfRange {
                index: index as int,
            },
            RunError::TruncatedInstruction => ErrV::TruncatedInstruction,
        }
    }
}

/// The message text of a runtime error; these exact texts are part
/// of the observable contract.
pub open spec fn err_text(e: ErrV) -> Seq<char> {
    match e {
        ErrV::TypeMismatch { left, op, right } => "type mismatch: "@ + left + " "@
            + token_type_text(op) + " "@ + right,
        ErrV::UnknownOperator { left, op, right } => "unknown operator: "@ + left + " "@
            + token_type_text(op) + " "@ + right,
        ErrV::UnknownPrefixOperator { op, right } => "unknown operator: "@ + token_type_text(op)
            + right,
        ErrV::IdentNotFound { name } => "identifier not found: "@ + name,
        ErrV::NotAFunction { kind } => "not a function: "@ + kind,
        ErrV::CallingNonFunction => "calling non-function"@,
        ErrV::ArityMismatch { expected, got } => "function expects "@ + int_text(expected)
            + " arguments but "@ + int_text(got) + " were given"@,
        ErrV::WrongNumberOfArgs { expected, got } => "wrong number of arguments. expected "@
            + int_text(expected) + ", got "@ + int_text(got),
        ErrV::BuiltinArg { name, kind } => "argument to `"@ + name + "` not supported, got "@
            + kind,
        ErrV::UnusableHashKey { kind } => "unusable as hash key: "@ + kind,
        ErrV::IndexNotSupported { kind } => "index operator not supported: "@ + kind,
        ErrV::StackOverflow => "stack overflow"@,
        ErrV::DivisionByZero => "division by zero"@,
        ErrV::OutOfFuel => "execution budget exhausted"@,
        ErrV::UnknownBuiltin { index } => "unknown builtin "@ + int_text(index),
        ErrV::BadOpcode { byte } => "invalid opcode "@ + int_text(byte),
        ErrV::StackUnderflow => "stack underflow"@,
        ErrV::GlobalOutOfRange { index } => "global out of range: "@ + int_text(index),
        ErrV::TruncatedInstruction => "truncated instruction"@,
    }
}

impl RunError {
    /// A type mismatch between operand kinds.
    pub fn type_mismatch(left: &'static str, op: TokenType, right: &'static str) -> (r: RunError)
        ensures
            r@ == (ErrV::TypeMismatch { left: left@, op, right: right@ }),
    {
        RunError::TypeMismatch { left: left.to_owned(), op, right: right.to_owned() }
    }

    /// An operator that is not defined on its operand kinds.
    pub fn unknown_operator(left: &'static str, op: TokenType, right: &'static str) -> (r:
        RunError)
        ensures
            r@ == (ErrV::UnknownOperator { left: left@, op, right: right@ }),
    {
        RunError::UnknownOperator { left: left.to_owned(), op, right: right.to_owned() }
    }

    /// A prefix operator that is not defined on its operand kind.
    pub fn unknown_prefix(op: TokenType, right: &'static str) -> (r: RunError)
        ensures
            r@ == (ErrV::UnknownPrefixOperator { op, right: right@ }),
    {
        RunError::UnknownPrefixOperator { op, right: right.to_owned() }
    }

    /// A name bound nowhere in scope.
    pub fn ident_not_found(name: &String) -> (r: RunError)
        ensures
            r@ == (ErrV::IdentNotFound { name: name@ }),
    {
        RunError::IdentNotFound { name: name.clone() }
    }

    /// A call whose callee is no function.
    pub fn not_a_function(kind: &'static str) -> (r: RunError)
        ensures
            r@ == (ErrV::NotAFunction { kind: kind@ }),
    {
        RunError::NotAFunction { kind: kind.to_owned() }
    }

    /// A call with the wrong number of arguments to a function.
    pub fn arity_mismatch(expected: usize, got: usize) -> (r: RunError)
        ensures
            r@ == (ErrV::ArityMismatch { expected: expected as int, got: got as int }),
    {
        RunError::ArityMismatch { expected, got }
    }

    /// A call with the wrong number of arguments to a builtin.
    pub fn wrong_number_of_args(expected: usize, got: usize) -> (r: RunError)
        ensures
            r@ == (ErrV::WrongNumberOfArgs { expected: expected as int, got: got as int }),
    {
        RunError::WrongNumberOfArgs { expected, got }
    }

    /// A builtin applied to a kind it does not support.
    pub fn builtin_arg(name: &'static str, kind: &'static str) -> (r: RunError)
        ensures
            r@ == (ErrV::BuiltinArg { name: name@, kind: kind@ }),
    {
        RunError::BuiltinArg { name: name.to_owned(), kind: kind.to_owned() }
    }

    /// A hash keyed by a kind that cannot key one.
    pub fn unusable_hash_key(kind: &'static str) -> (r: RunError)
        ensures
            r@ == (ErrV::UnusableHashKey { kind: kind@ }),
    {
        RunError::UnusableHashKey { kind: kind.to_owned() }
    }

    /// An index applied to a kind that does not support it.
    pub fn index_not_supported(kind: &'static str) -> (r: RunError)
        ensures
            r@ == (ErrV::IndexNotSupported { kind: kind@ }),
    {
        RunError::IndexNotSupported { kind: kind.to_owned() }
    }

    /// The message text of this error.
    pub fn message(&self) -> (r: String)
        ensures
            r@ == err_text(self@),
    {
        let mut out = String::new();
        match self {
            RunError::TypeMismatch { left, op, right } => {
                out.append("type mismatch: ");
                out.append(left.as_str());
                out.append(" ");
                out.append(op.text());
                out.append(" ");
                out.append(right.as_str());
            }
            RunError::UnknownOperator { left, op, right } => {
                out.append("unknown operator: ");
                out.append(left.as_str());
                out.append(" ");
                out.append(op.text());
                out.append(" ");
                out.append(right.as_str());
            }
            RunError::UnknownPrefixOperator { op, right } => {
                out.append("unknown operator: ");
                out.append(op.text());
                out.append(right.as_str());
            }
            RunError::IdentNotFound { name } => {
                out.append("identifier not found: ");
                out.append(name.as_str());
            }
            RunError::NotAFunction { kind } => {
                out.append("not a function: ");
                out.append(kind.as_str());
            }
            RunError::CallingNonFunction => {
                out.append("calling non-function");
            }
            RunError::ArityMismatch { expected, got } => {
                out.append("function expects ");
                append_usize(&mut out, *expected);
                out.append(" arguments but ");
                append_usize(&mut out, *got);
                out.append(" were given");
            }
            RunError::WrongNumberOfArgs { expected, got } => {
                out.append("wrong number of arguments. expected ");
                append_usize(&mut out, *expected);
                out.append(", got ");
                append_usize(&mut out, *got);
            }
            RunError::BuiltinArg { name, kind } => {
                out.append("argument to `");
                out.append(name.as_str());
                out.append("` not supported, got ");
                out.append(kind.as_str());
            }
            RunError::UnusableHashKey { kind } => {
                out.append("unusable as hash key: ");
                out.append(kind.as_str());
            }
            RunError::IndexNotSupported { kind } => {
                out.append("index operator not supported: ");
                out.append(kind.as_str());
            }
            RunError::StackOverflow => {
                out.append("stack overflow");
            }
            RunError::DivisionByZero => {
                out.append("division by zero");
            }
            RunError::OutOfFuel => {
                out.append("execution budget exhausted");
            }
            RunError::UnknownBuiltin { index } => {
                out.append("unknown builtin ");
                append_usize(&mut out, *index as usize);
            }
            RunError::BadOpcode { byte } => {
                out.append("invalid opcode ");
                append_usize(&mut out, *byte as usize);
            }
            RunError::StackUnderflow => {
                out.append("stack underflow");
            }
            RunError::GlobalOutOfRange { index } => {
                out.append("global out of range: ");
                append_usize(&mut out, *index as usize);
            }
            RunError::TruncatedInstruction => {
                out.append("truncated instruction");
            }
        }
        proof {
            assert(out@ =~= err_text(self@));
        }
        out
    }
}

/// Append an unsigned count as its decimal text.
fn append_usize(out: &mut String, n: usize)
    ensures
        final(out)@ == old(out)@ + int_text(n as int),
{
    append_dec(out, n as u64);
}

/// The textual form of a value: integers in decimal, booleans as
/// `true`/`false`, strings raw, `null`, arrays as `[v1, v2]`, hashes
/// as `{k: v}` in insertion order, functions by their source form,
/// compiled functions by their disassembly.
pub open spec fn obj_text(v: ObjV) -> Seq<char>
    decreases v,
{
    match v {
        ObjV::Int(x) => int_text(x as int),
        ObjV::Bool(b) => if b {
            "true"@
        } else {
            "false"@
        },
        ObjV::Str(s) => s,
        ObjV::Null => "null"@,
        ObjV::Return(o) => obj_text(*o),
        ObjV::Func(params, body, _) => expr_text(ExprV::Func(params, body)),
        ObjV::CompiledFunc(ins, locals, _) => " "@ + bytes_text_from(ins, 0) + " "@ + dec_rep(
            locals,
        ) + " locals"@,
        ObjV::Builtin(_) => "builtin"@,
        ObjV::Arr(elements) => "["@ + obj_list_text(elements) + "]"@,
        ObjV::Hash(pairs) => "{"@ + obj_pair_list_text(pairs) + "}"@,
    }
}

/// Values joined by a comma and a space.
pub open spec fn obj_list_text(es: Seq<ObjV>) -> Seq<char>
    decreases es,
{
    if es.len() == 0 {
        Seq::empty()
    } else if es.len() == 1 {
        obj_text(es[0])
    } else {
        obj_text(es[0]) + ", "@ + obj_list_text(es.drop_first())
    }
}

/// Key-value pairs, each printed as `key: value`, joined by a comma
/// and a space.
pub open spec fn obj_pair_list_text(ps: Seq<(ObjV, ObjV)>) -> Seq<char>
    decreases ps,
{
    if ps.len() == 0 {
        Seq::empty()
    } else if ps.len() == 1 {
        obj_text(ps[0].0) + ": "@ + obj_text(ps[0].1)
    } else {
        obj_text(ps[0].0) + ": "@ + obj_text(ps[0].1) + ", "@ + obj_pair_list_text(ps.drop_first())
    }
}

impl Object {
    /// Append the textual form of this value.
    #[verifier::rlimit(100)]
    #[verifier::loop_isolation(false)]
    pub fn append_text(&self, out: &mut String)
        ensures
            final(out)@ == old(out)@ + obj_text(self@),
        decreases *self,
    {
        match self {
            Object::Integer(x) => {
                append_int(out, *x);
            }
            Object::Bool(b) => {
                if *b {
                    out.append("true");
                } else {
                    out.append("false");
                }
            }
            Object::String(s) => {
                out.append(s.as_str());
            }
            Object::Null => {
                out.append("null");
            }
            Object::Return(o) => {
                o.append_text(out);
            }
            Object::Func(f) => {
                crate::ast::append_func_text(&f.expr, out);
            }
            Object::CompiledFunc(c) => {
                out.append(" ");
                let dis = c.instructions.to_text();
                out.append(dis.as_str());
                out.append(" ");
                append_dec(out, usize_to_u64(c.locals));
                out.append(" locals");
                proof {
                    assert(out@ =~= old(out)@ + obj_text(self@));
                }
            }
            Object::Builtin(_) => {
                out.append("builtin");
            }
            Object::Array(a) => {
                proof {
                    lemma_objs_view_len(a.elements@);
                    assert(a.elements@.skip(0) =~= a.elements@);
                }
                out.append("[");
                let mut i: usize = 0;
                while i < a.elements.len()
                    invariant
                        i <= a.elements@.len(),
                        out@ + obj_list_text(objs_view(a.elements@.skip(i as int))) == old(out)@
                            + "["@ + obj_list_text(objs_view(a.elements@)),
                    decreases a.elements@.len() - i,
                {
                    proof {
                        lemma_objs_view_skip(a.elements@, i as int);
                        let cons = objs_view(a.elements@.skip(i as int));
                        assert(cons[0] == obj_view(a.elements@[i as int]));
                        assert(cons.drop_first() =~= objs_view(a.elements@.skip(i + 1)));
                    }
                    a.elements[i].append_text(out);
                    if i != a.elements.len() - 1 {
                        out.append(", ");
                    }
                    i = i + 1;
                    proof {
                        assert(out@ + obj_list_text(objs_view(a.elements@.skip(i as int)))
                            =~= old(out)@ + "["@ + obj_list_text(objs_view(a.elements@)));
                    }
                }
                out.append("]");
                proof {
                    assert(a.elements@.skip(a.elements@.len() as int) =~= Seq::<Object>::empty());
                    assert(out@ =~= old(out)@ + obj_text(self@));
                }
            }
            Object::Hash(h) => {
                proof {
                    lemma_obj_pairs_view_len(h.pairs@);
                    assert(h.pairs@.skip(0) =~= h.pairs@);
                }
                out.append("{");
                let mut i: usize = 0;
                while i < h.pairs.len()
                    invariant
                        i <= h.pairs@.len(),
                        out@ + obj_pair_list_text(obj_pairs_view(h.pairs@.skip(i as int))) == old(
                            out,
                        )@ + "{"@ + obj_pair_list_text(obj_pairs_view(h.pairs@)),
                    decreases h.pairs@.len() - i,
                {
                    proof {
                        lemma_obj_pairs_view_skip(h.pairs@, i as int);
                        let cons = obj_pairs_view(h.pairs@.skip(i as int));
                        assert(cons[0] == (
                            obj_view(h.pairs@[i as int].0),
                            obj_view(h.pairs@[i as int].1),
                        ));
                        assert(cons.drop_first() =~= obj_pairs_view(h.pairs@.skip(i + 1)));
                    }
                    h.pairs[i].0.append_text(out);
                    out.append(": ");
                    h.pairs[i].1.append_text(out);
                    if i != h.pairs.len() - 1 {
                        out.append(", ");
                    }
                    i = i + 1;
                    proof {
                        assert(out@ + obj_pair_list_text(obj_pairs_view(h.pairs@.skip(i as int)))
                            =~= old(out)@ + "{"@ + obj_pair_list_text(obj_pairs_view(h.pairs@)));
                    }
                }
                out.append("}");
                proof {
                    assert(h.pairs@.skip(h.pairs@.len() as int) =~= Seq::<
                        (Object, Object),
                    >::empty());
                    assert(out@ =~= old(out)@ + obj_text(self@));
                }
            }
        }
    }

    /// The textual form of this value.
    pub fn to_text(&self) -> (r: String)
        ensures
            r@ == obj_text(self@),
    {
        let mut out = String::new();
        self.append_text(&mut out);
        proof {
            assert(Seq::<char>::empty() + obj_text(self@) =~= obj_text(self@));
        }
        out
    }
}

/// A machine count widened to sixty-four bits.
fn usize_to_u64(n: usize) -> (r: u64)
    ensures
        r == n,
{
    n as u64
}

pub proof fn lemma_objs_view_push(os: Seq<Object>, x: Object)
    ensures
        objs_view(os.push(x)) == objs_view(os).push(obj_view(x)),
    decreases os.len(),
{
    lemma_objs_view_len(os);
    lemma_objs_view_len(os.push(x));
    assert forall|j: int| 0 <= j < os.len() + 1 implies objs_view(os.push(x))[j] == objs_view(
        os,
    ).push(obj_view(x))[j] by {
        if j < os.len() {
            assert(os.push(x)[j] == os[j]);
        } else {
            assert(os.push(x)[j] == x);
        }
    }
    assert(objs_view(os.push(x)) =~= objs_view(os).push(obj_view(x)));
}

/// Pushing a pair commutes with taking views.
pub proof fn lemma_obj_pairs_view_push(ps: Seq<(Object, Object)>, k: Object, v: Object)
    ensures
        obj_pairs_view(ps.push((k, v))) == obj_pairs_view(ps).push((obj_view(k), obj_view(v))),
{
    lemma_obj_pairs_view_len(ps);
    lemma_obj_pairs_view_len(ps.push((k, v)));
    assert forall|j: int| 0 <= j < ps.len() + 1 implies obj_pairs_view(ps.push((k, v)))[j]
        == obj_pairs_view(ps).push((obj_view(k), obj_view(v)))[j] by {
        let q = ps.push((k, v));
        assert(obj_pairs_view(q)[j] == (obj_view(q[j].0), obj_view(q[j].1)));
        if j < ps.len() {
            assert(q[j] == ps[j]);
            assert(obj_pairs_view(ps)[j] == (obj_view(ps[j].0), obj_view(ps[j].1)));
        } else {
            assert(q[j] == (k, v));
        }
    }
    assert(obj_pairs_view(ps.push((k, v))) =~= obj_pairs_view(ps).push(
        (obj_view(k), obj_view(v)),
    ));
}

/// Updating one slot commutes with taking views.
pub proof fn lemma_objs_view_update(os: Seq<Object>, i: int, x: Object)
    requires
        0 <= i < os.len(),
    ensures
        objs_view(os.update(i, x)) == objs_view(os).update(i, obj_view(x)),
{
    lemma_objs_view_len(os);
    lemma_objs_view_len(os.update(i, x));
    assert forall|j: int| 0 <= j < os.len() implies objs_view(os.update(i, x))[j] == objs_view(
        os,
    ).update(i, obj_view(x))[j] by {
        if j != i {
            assert(os.update(i, x)[j] == os[j]);
        } else {
            assert(os.update(i, x)[j] == x);
        }
    }
    assert(objs_view(os.update(i, x)) =~= objs_view(os).update(i, obj_view(x)));
}

pub proof fn lemma_objs_view_skip(os: Seq<Object>, i: int)
    requires
        0 <= i < os.len(),
    ensures
        objs_view(os.skip(i)) == seq![obj_view(os[i])] + objs_view(os.skip(i + 1)),
        objs_view(os.skip(i)).len() == os.len() - i,
    decreases os.len() - i,
{
    assert(os.skip(i)[0] == os[i]);
    assert(os.skip(i).drop_first() =~= os.skip(i + 1));
    if i + 1 < os.len() {
        lemma_objs_view_skip(os, i + 1);
    } else {
        assert(os.skip(i + 1) =~= Seq::<Object>::empty());
    }
}

pub proof fn lemma_obj_pairs_view_skip(ps: Seq<(Object, Object)>, i: int)
    requires
        0 <= i < ps.len(),
    ensures
        obj_pairs_view(ps.skip(i)) == seq![(obj_view(ps[i].0), obj_view(ps[i].1))]
            + obj_pairs_view(ps.skip(i + 1)),
        obj_pairs_view(ps.skip(i)).len() == ps.len() - i,
    decreases ps.len() - i,
{
    assert(ps.skip(i)[0] == ps[i]);
    assert(ps.skip(i).drop_first() =~= ps.skip(i + 1));
    if i + 1 < ps.len() {
        lemma_obj_pairs_view_skip(ps, i + 1);
    } else {
        assert(ps.skip(i + 1) =~= Seq::<(Object, Object)>::empty());
    }
}

} // verus!
