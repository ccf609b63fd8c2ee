//! Lexically scoped environments for the evaluator, held in an
//! arena: each environment is a binding store plus an optional outer
//! environment, referenced by index. Outer indices point strictly at
//! older environments, so lookup chains are well founded. Closures
//! keep their captured environment alive by holding its index.

use vstd::prelude::*;

use crate::ast::Ident;
use crate::object::{Object, ObjV, obj_view, clone_obj};

verus! {

/// One environment: its bindings in insertion order (names unique)
/// and the index of the environment it extends, if any.
#[derive(Debug)]
pub struct EnvFrame {
    pub store: Vec<(Ident, Object)>,
    pub outer: Option<usize>,
}

/// The mathematical mirror of one environment.
pub struct FrameV {
    pub store: Seq<(Seq<char>, ObjV)>,
    pub outer: Option<int>,
}

pub open spec fn store_view(s: Seq<(Ident, Object)>) -> Seq<(Seq<char>, ObjV)>
    decreases s,
{
    if s.len() == 0 {
        Seq::empty()
    } else {
        seq![(s[0].0@, obj_view(s[0].1))] + store_view(s.drop_first())
    }
}

pub proof fn lemma_store_view_len(s: Seq<(Ident, Object)>)
    ensures
        store_view(s).len() == s.len(),
        forall|i: int| 0 <= i < s.len() ==> store_view(s)[i] == (
            #[trigger] s[i].0@,
            obj_view(s[i].1),
        ),
    decreases s.len(),
{
    if s.len() > 0 {
        lemma_store_view_len(s.drop_first());
        assert forall|i: int| 0 <= i < s.len() implies store_view(s)[i] == (
            #[trigger] s[i].0@,
            obj_view(s[i].1),
        ) by {
            if i > 0 {
                assert(s.drop_first()[i - 1] == s[i]);
            }
        }
    }
}

impl View for EnvFrame {
    type V = FrameV;

    open spec fn view(&self) -> FrameV {
        FrameV {
            store: store_view(self.store@),
            outer: match self.outer {
                Some(o) => Some(o as int),
                None => None,
            },
        }
    }
}

/// The value bound to a name in one binding store.
pub open spec fn store_lookup(s: Seq<(Seq<char>, ObjV)>, name: Seq<char>) -> Option<ObjV>
    decreases s,
{
    if s.len() == 0 {
        None
    } else if s[0].0 == name {
        Some(s[0].1)
    } else {
        store_lookup(s.drop_first(), name)
    }
}

/// A binding store after binding a name: an existing binding keeps
/// its place and takes the new value; a new name goes at the end.
pub open spec fn store_insert(s: Seq<(Seq<char>, ObjV)>, name: Seq<char>, v: ObjV) -> Seq<
    (Seq<char>, ObjV),
>
    decreases s,
{
    if s.len() == 0 {
        seq![(name, v)]
    } else if s[0].0 == name {
        seq![(s[0].0, v)] + s.drop_first()
    } else {
        seq![s[0]] + store_insert(s.drop_first(), name, v)
    }
}

/// Every outer index points at a strictly older environment.
pub open spec fn env_wf(envs: Seq<FrameV>) -> bool {
    forall|i: int| 0 <= i < envs.len() ==> (#[trigger] envs[i].outer matches Some(o) ==> 0 <= o
        < i)
}

/// The value a name resolves to from an environment: its own store,
/// else the outer chain.
pub open spec fn env_get(envs: Seq<FrameV>, frame: int, name: Seq<char>) -> Option<ObjV>
    decreases (if frame >= 0 {
        frame
    } else {
        0
    }),
{
    if 0 <= frame < envs.len() {
        match store_lookup(envs[frame].store, name) {
            Some(v) => Some(v),
            None => match envs[frame].outer {
                Some(o) => if 0 <= o < frame {
                    env_get(envs, o, name)
                } else {
                    None
                },
                None => None,
            },
        }
    } else {
        None
    }
}

/// The arena after binding a name in an environment's own store.
pub open spec fn env_set(envs: Seq<FrameV>, frame: int, name: Seq<char>, v: ObjV) -> Seq<FrameV> {
    if 0 <= frame < envs.len() {
        envs.update(
            frame,
            FrameV { store: store_insert(envs[frame].store, name, v), outer: envs[frame].outer },
        )
    } else {
        envs
    }
}

/// The environment arena: every environment created in a run, the
/// first one being the global environment.
#[derive(Debug)]
pub struct Environment {
    frames: Vec<EnvFrame>,
}

pub open spec fn frames_view(fs: Seq<EnvFrame>) -> Seq<FrameV> {
    Seq::new(fs.len(), |i: int| fs[i]@)
}

impl View for Environment {
    type V = Seq<FrameV>;

    closed spec fn view(&self) -> Seq<FrameV> {
        frames_view(self.frames@)
    }
}

impl Environment {
    /// A fresh arena holding one empty global environment.
    pub fn new() -> (r: Environment)
        ensures
            r@ =~= seq![FrameV { store: Seq::empty(), outer: None }],
            env_wf(r@),
    {
        let mut frames: Vec<EnvFrame> = Vec::new();
        frames.push(EnvFrame { store: Vec::new(), outer: None });
        proof {
            assert(store_view(Seq::<(Ident, Object)>::empty()) =~= Seq::<
                (Seq<char>, ObjV),
            >::empty());
            assert(frames_view(frames@) =~= seq![FrameV { store: Seq::empty(), outer: None }]);
        }
        Environment { frames }
    }

    /// The number of environments in the arena.
    pub fn len(&self) -> (n: usize)
        ensures
            n == self@.len(),
    {
        self.frames.len()
    }

    /// Create an environment that extends the one at `outer`; its
    /// index is returned.
    pub fn new_enclosed(&mut self, outer: usize) -> (idx: usize)
        ensures
            final(self)@ =~= old(self)@.push(
                FrameV { store: Seq::empty(), outer: Some(outer as int) },
            ),
            idx == old(self)@.len(),
            env_wf(old(self)@) && outer < old(self)@.len() ==> env_wf(final(self)@),
    {
        let idx = self.frames.len();
        self.frames.push(EnvFrame { store: Vec::new(), outer: Some(outer) });
        proof {
            assert(store_view(Seq::<(Ident, Object)>::empty()) =~= Seq::<
                (Seq<char>, ObjV),
            >::empty());
            assert(frames_view(self.frames@) =~= frames_view(old(self).frames@).push(
                FrameV { store: Seq::empty(), outer: Some(outer as int) },
            ));
            if env_wf(old(self)@) && outer < old(self)@.len() {
                assert forall|i: int|
                    0 <= i < final(self)@.len() implies (#[trigger] final(self)@[i].outer matches
                Some(o) ==> 0 <= o < i) by {
                    if i < old(self)@.len() {
                        assert(final(self)@[i] == old(self)@[i]);
                    }
                }
            }
        }
        idx
    }

    /// The value a name resolves to from the environment at `frame`:
    /// its own store, else the outer chain.
    #[verifier::loop_isolation(false)]
    pub fn get(&self, frame: usize, name: &Ident) -> (r: Option<Object>)
        ensures
            match env_get(self@, frame as int, name@) {
                Some(v) => r matches Some(o) && o@ == v,
                None => r is None,
            },
    {
        if frame >= self.frames.len() {
            return None;
        }
        let mut cur = frame;
        loop
            invariant
                cur < self@.len(),
                env_get(self@, frame as int, name@) == env_get(self@, cur as int, name@),
            decreases cur,
        {
            match store_get(&self.frames[cur].store, name) {
                Some(o) => {
                    return Some(o);
                }
                None => {
                    match self.frames[cur].outer {
                        Some(o) => {
                            proof {
                                assert(self@[cur as int].outer == Some(o as int));
                            }
                            if o < cur {
                                cur = o;
                            } else {
                                return None;
                            }
                        }
                        None => {
                            return None;
                        }
                    }
                }
            }
        }
    }

    /// Bind a name in the store of the environment at `frame`.
    pub fn set(&mut self, frame: usize, name: &Ident, value: Object)
        ensures
            final(self)@ =~= env_set(old(self)@, frame as int, name@, value@),
            env_wf(old(self)@) ==> env_wf(final(self)@),
    {
        if frame >= self.frames.len() {
            return;
        }
        let ghost pre = self@;
        let name_c = name.clone();
        let ghost vv = value@;
        store_set(&mut self.frames[frame].store, name_c, value);
        proof {
            assert(self.frames@[frame as int]@ == FrameV {
                store: store_insert(pre[frame as int].store, name@, vv),
                outer: pre[frame as int].outer,
            });
            assert forall|i: int| 0 <= i < self.frames@.len() implies frames_view(self.frames@)[i]
                == env_set(pre, frame as int, name@, vv)[i] by {
                if i != frame {
                    assert(self.frames@[i] == old(self).frames@[i]);
                }
            }
            assert(frames_view(self.frames@) =~= env_set(pre, frame as int, name@, vv));
            if env_wf(pre) {
                assert forall|i: int|
                    0 <= i < final(self)@.len() implies (#[trigger] final(self)@[i].outer matches
                Some(o) ==> 0 <= o < i) by {
                    assert(final(self)@[i].outer == pre[i].outer);
                }
            }
        }
    }
}

/// The value bound to a name in one binding store.
#[verifier::loop_isolation(false)]
fn store_get(s: &Vec<(Ident, Object)>, name: &Ident) -> (r: Option<Object>)
    ensures
        match store_lookup(store_view(s@), name@) {
            Some(v) => r matches Some(o) && o@ == v,
            None => r is None,
        },
{
    proof {
        lemma_store_view_len(s@);
        assert(store_view(s@).skip(0) =~= store_view(s@));
    }
    let mut i: usize = 0;
    while i < s.len()
        invariant
            i <= s@.len(),
            store_lookup(store_view(s@), name@) == store_lookup(
                store_view(s@).skip(i as int),
                name@,
            ),
        decreases s@.len() - i,
    {
        proof {
            assert(store_view(s@).skip(i as int)[0] == store_view(s@)[i as int]);
            assert(store_view(s@).skip(i as int).drop_first() =~= store_view(s@).skip(i + 1));
        }
        if s[i].0.eq(name) {
            return Some(clone_obj(&s[i].1));
        }
        i = i + 1;
    }
    proof {
        assert(store_view(s@).skip(s@.len() as int) =~= Seq::<(Seq<char>, ObjV)>::empty());
    }
    None
}

/// Bind a name in one binding store: an existing binding keeps its
/// place and takes the new value; a new name goes at the end.
#[verifier::loop_isolation(false)]
fn store_set(s: &mut Vec<(Ident, Object)>, name: Ident, value: Object)
    ensures
        store_view(final(s)@) == store_insert(store_view(old(s)@), name@, value@),
{
    proof {
        lemma_store_view_len(s@);
    }
    let mut i: usize = 0;
    while i < s.len()
        invariant
            i <= s@.len(),
            s == old(s),
            forall|j: int| 0 <= j < i ==> #[trigger] store_view(s@)[j].0 != name@,
        decreases s@.len() - i,
    {
        if s[i].0.eq(&name) {
            s.set(i, (name, value));
            proof {
                lemma_store_view_len(s@);
                lemma_store_view_len(old(s)@);
                lemma_store_insert_at(store_view(old(s)@), name@, value@, i as int);
                assert forall|j: int| 0 <= j < s@.len() implies store_view(s@)[j] == store_view(
                    old(s)@,
                ).update(i as int, (store_view(old(s)@)[i as int].0, value@))[j] by {
                    assert(store_view(s@)[j] == (s@[j].0@, obj_view(s@[j].1)));
                    assert(store_view(old(s)@)[j] == (old(s)@[j].0@, obj_view(old(s)@[j].1)));
                    if j == i {
                        assert(s@[j].0@ == name@ && s@[j].1 == value);
                        assert(store_view(old(s)@)[j].0 == old(s)@[j].0@);
                        assert(old(s)@[j].0@ == name@);
                    } else {
                        assert(s@[j] == old(s)@[j]);
                    }
                }
                assert(store_view(s@) =~= store_view(old(s)@).update(
                    i as int,
                    (store_view(old(s)@)[i as int].0, value@),
                ));
            }
            return;
        }
        i = i + 1;
    }
    s.push((name, value));
    proof {
        lemma_store_view_len(s@);
        lemma_store_view_len(old(s)@);
        lemma_store_insert_missing(store_view(old(s)@), name@, value@);
        assert forall|j: int| 0 <= j < s@.len() implies store_view(s@)[j] == store_view(
            old(s)@,
        ).push((name@, value@))[j] by {
            assert(store_view(s@)[j] == (s@[j].0@, obj_view(s@[j].1)));
            if j < old(s)@.len() {
                assert(store_view(old(s)@)[j] == (old(s)@[j].0@, obj_view(old(s)@[j].1)));
                assert(s@[j] == old(s)@[j]);
            } else {
                assert(s@[j] == (name, value));
            }
        }
        assert(store_view(s@) =~= store_view(old(s)@).push((name@, value@)));
    }
}

proof fn lemma_store_insert_at(s: Seq<(Seq<char>, ObjV)>, name: Seq<char>, v: ObjV, i: int)
    requires
        0 <= i < s.len(),
        s[i].0 == name,
        forall|j: int| 0 <= j < i ==> #[trigger] s[j].0 != name,
    ensures
        store_insert(s, name, v) == s.update(i, (s[i].0, v)),
    decreases s.len(),
{
    if i == 0 {
        assert(store_insert(s, name, v) == seq![(s[0].0, v)] + s.drop_first());
        assert(seq![(s[0].0, v)] + s.drop_first() =~= s.update(0, (s[0].0, v)));
    } else {
        assert(s[0].0 != name);
        assert(s.drop_first()[i - 1] == s[i]);
        assert forall|j: int| 0 <= j < i - 1 implies #[trigger] s.drop_first()[j].0 != name by {
            assert(s.drop_first()[j] == s[j + 1]);
        }
        lemma_store_insert_at(s.drop_first(), name, v, i - 1);
        assert(store_insert(s, name, v) == seq![s[0]] + s.drop_first().update(i - 1, (s[i].0, v)));
        assert(seq![s[0]] + s.drop_first().update(i - 1, (s[i].0, v)) =~= s.update(
            i,
            (s[i].0, v),
        ));
    }
}

proof fn lemma_store_insert_missing(s: Seq<(Seq<char>, ObjV)>, name: Seq<char>, v: ObjV)
    requires
        forall|j: int| 0 <= j < s.len() ==> #[trigger] s[j].0 != name,
    ensures
        store_insert(s, name, v) == s.push((name, v)),
    decreases s.len(),
{
    if s.len() == 0 {
        assert(store_insert(s, name, v) =~= s.push((name, v)));
    } else {
        assert forall|j: int| 0 <= j < s.drop_first().len() implies #[trigger] s.drop_first()[j].0
            != name by {
            assert(s.drop_first()[j] == s[j + 1]);
        }
        lemma_store_insert_missing(s.drop_first(), name, v);
        assert(store_insert(s, name, v) == seq![s[0]] + s.drop_first().push((name, v)));
        assert(seq![s[0]] + s.drop_first().push((name, v)) =~= s.push((name, v)));
    }
}

} // verus!
