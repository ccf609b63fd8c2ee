//! The compiler's lexical scope resolver: a chain of scopes, each
//! mapping names to symbols. Defining in the root scope numbers
//! `Global` symbols from zero in definition order; defining in an
//! enclosed scope numbers `Local` symbols per scope from zero;
//! resolution walks outward to the first hit.

use vstd::prelude::*;

use crate::ast::Ident;

verus! {

/// A resolved symbol: its scope and its index into that scope's
/// runtime table.
#[derive(Debug, Clone, Copy, PartialEq, Eq, Structural)]
pub struct Symbol {
    pub scope: Scope,
    pub index: u16,
}

/// Where a symbol lives at run time.
#[derive(Debug, Clone, Copy, PartialEq, Eq, Structural)]
pub enum Scope {
    Global,
    Local,
    Builtin,
}

/// One scope: its bindings in definition order and the count of
/// `define` calls made in it.
#[derive(Debug)]
pub struct TableFrame {
    pub store: Vec<(Ident, Symbol)>,
    pub stored: usize,
}

/// The mathematical mirror of one scope.
pub struct TableFrameV {
    pub store: Seq<(Seq<char>, Symbol)>,
    pub stored: nat,
}

pub open spec fn sym_store_view(s: Seq<(Ident, Symbol)>) -> Seq<(Seq<char>, Symbol)>
    decreases s,
{
    if s.len() == 0 {
        Seq::empty()
    } else {
        seq![(s[0].0@, s[0].1)] + sym_store_view(s.drop_first())
    }
}

pub proof fn lemma_sym_store_view_len(s: Seq<(Ident, Symbol)>)
    ensures
        sym_store_view(s).len() == s.len(),
        forall|i: int| 0 <= i < s.len() ==> sym_store_view(s)[i] == (
            #[trigger] s[i].0@,
            s[i].1,
        ),
    decreases s.len(),
{
    if s.len() > 0 {
        lemma_sym_store_view_len(s.drop_first());
        assert forall|i: int| 0 <= i < s.len() implies sym_store_view(s)[i] == (
            #[trigger] s[i].0@,
            s[i].1,
        ) by {
            if i > 0 {
                assert(s.drop_first()[i - 1] == s[i]);
            }
        }
    }
}

impl View for TableFrame {
    type V = TableFrameV;

    open spec fn view(&self) -> TableFrameV {
        TableFrameV { store: sym_store_view(self.store@), stored: self.stored as nat }
    }
}

/// The symbol bound to a name in one scope.
pub open spec fn sym_lookup(s: Seq<(Seq<char>, Symbol)>, name: Seq<char>) -> Option<Symbol>
    decreases s,
{
    if s.len() == 0 {
        None
    } else if s[0].0 == name {
        Some(s[0].1)
    } else {
        sym_lookup(s.drop_first(), name)
    }
}

/// A scope's bindings after binding a name: an existing binding
/// keeps its place and takes the new symbol; a new name goes at the
/// end.
pub open spec fn sym_insert(s: Seq<(Seq<char>, Symbol)>, name: Seq<char>, sym: Symbol) -> Seq<
    (Seq<char>, Symbol),
>
    decreases s,
{
    if s.len() == 0 {
        seq![(name, sym)]
    } else if s[0].0 == name {
        seq![(s[0].0, sym)] + s.drop_first()
    } else {
        seq![s[0]] + sym_insert(s.drop_first(), name, sym)
    }
}

/// The symbol a name resolves to from the scope at `i` outward.
pub open spec fn resolve_from(frames: Seq<TableFrameV>, i: int, name: Seq<char>) -> Option<Symbol>
    decreases (if i >= 0 {
        i + 1
    } else {
        0
    }),
{
    if 0 <= i < frames.len() {
        match sym_lookup(frames[i].store, name) {
            Some(s) => Some(s),
            None => resolve_from(frames, i - 1, name),
        }
    } else {
        None
    }
}

/// The lexical scope resolver: the chain of scopes, outermost first,
/// the innermost scope last.
#[derive(Debug)]
pub struct SymbolTable {
    frames: Vec<TableFrame>,
}

pub open spec fn sym_frames_view(fs: Seq<TableFrame>) -> Seq<TableFrameV> {
    Seq::new(fs.len(), |i: int| fs[i]@)
}

impl View for SymbolTable {
    type V = Seq<TableFrameV>;

    closed spec fn view(&self) -> Seq<TableFrameV> {
        sym_frames_view(self.frames@)
    }
}

impl SymbolTable {
    /// A resolver holding one empty root scope.
    pub fn empty() -> (r: SymbolTable)
        ensures
            r@ =~= seq![TableFrameV { store: Seq::empty(), stored: 0 }],
    {
        let mut frames: Vec<TableFrame> = Vec::new();
        frames.push(TableFrame { store: Vec::new(), stored: 0 });
        proof {
            assert(sym_store_view(Seq::<(Ident, Symbol)>::empty()) =~= Seq::<
                (Seq<char>, Symbol),
            >::empty());
            assert(sym_frames_view(frames@) =~= seq![
                TableFrameV { store: Seq::empty(), stored: 0 },
            ]);
        }
        SymbolTable { frames }
    }

    /// A resolver whose root is a copy of the given one and whose
    /// innermost scope is fresh.
    pub fn new_enclosed(outer: &SymbolTable) -> (r: SymbolTable)
        ensures
            r@ =~= outer@.push(TableFrameV { store: Seq::empty(), stored: 0 }),
    {
        let mut frames: Vec<TableFrame> = Vec::new();
        let mut i: usize = 0;
        while i < outer.frames.len()
            invariant
                i <= outer.frames@.len(),
                frames@.len() == i,
                forall|j: int| 0 <= j < i ==> #[trigger] frames@[j]@ == outer.frames@[j]@,
            decreases outer.frames@.len() - i,
        {
            frames.push(clone_frame(&outer.frames[i]));
            i = i + 1;
        }
        frames.push(TableFrame { store: Vec::new(), stored: 0 });
        proof {
            assert(sym_store_view(Seq::<(Ident, Symbol)>::empty()) =~= Seq::<
                (Seq<char>, Symbol),
            >::empty());
            assert(sym_frames_view(frames@) =~= sym_frames_view(outer.frames@).push(
                TableFrameV { store: Seq::empty(), stored: 0 },
            ));
        }
        SymbolTable { frames }
    }

    /// The number of scopes on the chain.
    pub fn depth(&self) -> (n: usize)
        ensures
            n == self@.len(),
    {
        self.frames.len()
    }

    /// Open a fresh innermost scope.
    pub fn enter_scope(&mut self)
        ensures
            final(self)@ =~= old(self)@.push(TableFrameV { store: Seq::empty(), stored: 0 }),
    {
        self.frames.push(TableFrame { store: Vec::new(), stored: 0 });
        proof {
            assert(sym_store_view(Seq::<(Ident, Symbol)>::empty()) =~= Seq::<
                (Seq<char>, Symbol),
            >::empty());
            assert(sym_frames_view(self.frames@) =~= sym_frames_view(old(self).frames@).push(
                TableFrameV { store: Seq::empty(), stored: 0 },
            ));
        }
    }

    /// Close the innermost scope, yielding the count of names it
    /// defined.
    pub fn leave_scope(&mut self) -> (n: usize)
        requires
            old(self)@.len() > 1,
        ensures
            final(self)@ =~= old(self)@.drop_last(),
            n == old(self)@.last().stored,
    {
        let f = self.frames.pop().unwrap();
        proof {
            assert(sym_frames_view(self.frames@) =~= sym_frames_view(old(self).frames@).drop_last());
        }
        f.stored
    }

    /// Define a name in the innermost scope: `Global` with the next
    /// global index in the root scope, `Local` with the scope's next
    /// index in an enclosed one.
    pub fn define(&mut self, name: &Ident) -> (s: Symbol)
        requires
            old(self)@.len() >= 1,
        ensures
            s.scope == (if old(self)@.len() > 1 {
                Scope::Local
            } else {
                Scope::Global
            }),
            s.index == old(self)@.last().stored % 0x10000,
            final(self)@ =~= old(self)@.update(
                old(self)@.len() - 1,
                TableFrameV {
                    store: sym_insert(old(self)@.last().store, name@, s),
                    stored: (if old(self)@.last().stored < usize::MAX {
                        old(self)@.last().stored + 1
                    } else {
                        old(self)@.last().stored
                    }) as nat,
                },
            ),
    {
        let scope = if self.frames.len() > 1 {
            Scope::Local
        } else {
            Scope::Global
        };
        let last = self.frames.len() - 1;
        let sym = Symbol { scope, index: (self.frames[last].stored % 0x10000) as u16 };
        let ghost pre = self@;
        let stored = self.frames[last].stored;
        let new_stored = if stored < usize::MAX {
            stored + 1
        } else {
            stored
        };
        frame_insert(&mut self.frames, last, name, sym, new_stored);
        proof {
            assert(sym_frames_view(self.frames@) =~= pre.update(
                pre.len() - 1,
                TableFrameV {
                    store: sym_insert(pre.last().store, name@, sym),
                    stored: new_stored as nat,
                },
            ));
        }
        sym
    }

    /// Define a builtin's name in the innermost scope with a fixed
    /// index; the scope's own counter is untouched.
    pub fn define_builtin(&mut self, name: &Ident, index: u16) -> (s: Symbol)
        requires
            old(self)@.len() >= 1,
        ensures
            s.scope == Scope::Builtin,
            s.index == index,
            final(self)@ =~= old(self)@.update(
                old(self)@.len() - 1,
                TableFrameV {
                    store: sym_insert(old(self)@.last().store, name@, s),
                    stored: old(self)@.last().stored,
                },
            ),
    {
        let sym = Symbol { scope: Scope::Builtin, index };
        let last = self.frames.len() - 1;
        let ghost pre = self@;
        let stored = self.frames[last].stored;
        frame_insert(&mut self.frames, last, name, sym, stored);
        proof {
            assert(sym_frames_view(self.frames@) =~= pre.update(
                pre.len() - 1,
                TableFrameV {
                    store: sym_insert(pre.last().store, name@, sym),
                    stored: pre.last().stored,
                },
            ));
        }
        sym
    }

    /// The symbol a name resolves to, walking outward to the first
    /// hit.
    #[verifier::loop_isolation(false)]
    pub fn resolve(&self, name: &Ident) -> (r: Option<Symbol>)
        ensures
            r == resolve_from(self@, self@.len() - 1, name@),
    {
        if self.frames.len() == 0 {
            return None;
        }
        let mut i: usize = self.frames.len() - 1;
        loop
            invariant
                i < self@.len(),
                resolve_from(self@, self@.len() - 1, name@) == resolve_from(self@, i as int, name@),
            decreases i,
        {
            match frame_lookup(&self.frames[i].store, name) {
                Some(s) => {
                    return Some(s);
                }
                None => {
                    if i == 0 {
                        proof {
                            assert(resolve_from(self@, -1, name@) is None);
                        }
                        return None;
                    }
                    i = i - 1;
                }
            }
        }
    }

    /// A copy of this resolver.
    pub fn duplicate(&self) -> (r: SymbolTable)
        ensures
            r@ == self@,
    {
        let mut frames: Vec<TableFrame> = Vec::new();
        let mut i: usize = 0;
        while i < self.frames.len()
            invariant
                i <= self.frames@.len(),
                frames@.len() == i,
                forall|j: int| 0 <= j < i ==> #[trigger] frames@[j]@ == self.frames@[j]@,
            decreases self.frames@.len() - i,
        {
            frames.push(clone_frame(&self.frames[i]));
            i = i + 1;
        }
        proof {
            assert(sym_frames_view(frames@) =~= sym_frames_view(self.frames@));
        }
        SymbolTable { frames }
    }

    /// The symbol a name resolves to in the innermost scope alone.
    pub fn resolve_innermost(&self, name: &Ident) -> (r: Option<Symbol>)
        requires
            self@.len() >= 1,
        ensures
            r == sym_lookup(self@.last().store, name@),
    {
        frame_lookup(&self.frames[self.frames.len() - 1].store, name)
    }

    /// The symbol a name resolves to in the scopes outside the
    /// innermost one, walking outward to the first hit.
    #[verifier::loop_isolation(false)]
    pub fn resolve_outer(&self, name: &Ident) -> (r: Option<Symbol>)
        requires
            self@.len() >= 1,
        ensures
            r == resolve_from(self@, self@.len() - 2, name@),
    {
        if self.frames.len() < 2 {
            return None;
        }
        let mut i: usize = self.frames.len() - 2;
        loop
            invariant
                i < self@.len(),
                resolve_from(self@, self@.len() - 2, name@) == resolve_from(
                    self@,
                    i as int,
                    name@,
                ),
            decreases i,
        {
            match frame_lookup(&self.frames[i].store, name) {
                Some(s) => {
                    return Some(s);
                }
                None => {
                    if i == 0 {
                        proof {
                            assert(resolve_from(self@, -1, name@) is None);
                        }
                        return None;
                    }
                    i = i - 1;
                }
            }
        }
    }

    /// The number of bindings in the innermost scope.
    pub fn symbols(&self) -> (n: usize)
        requires
            self@.len() >= 1,
        ensures
            n == self@.last().store.len(),
    {
        proof {
            lemma_sym_store_view_len(self.frames@[self.frames@.len() - 1].store@);
        }
        self.frames[self.frames.len() - 1].store.len()
    }
}

/// The symbol bound to a name in one scope.
#[verifier::loop_isolation(false)]
fn frame_lookup(s: &Vec<(Ident, Symbol)>, name: &Ident) -> (r: Option<Symbol>)
    ensures
        r == sym_lookup(sym_store_view(s@), name@),
{
    proof {
        lemma_sym_store_view_len(s@);
        assert(sym_store_view(s@).skip(0) =~= sym_store_view(s@));
    }
    let mut i: usize = 0;
    while i < s.len()
        invariant
            i <= s@.len(),
            sym_lookup(sym_store_view(s@), name@) == sym_lookup(
                sym_store_view(s@).skip(i as int),
                name@,
            ),
        decreases s@.len() - i,
    {
        proof {
            assert(sym_store_view(s@).skip(i as int)[0] == sym_store_view(s@)[i as int]);
            assert(sym_store_view(s@).skip(i as int).drop_first() =~= sym_store_view(s@).skip(
                i + 1,
            ));
        }
        if s[i].0.eq(name) {
            return Some(s[i].1);
        }
        i = i + 1;
    }
    proof {
        assert(sym_store_view(s@).skip(s@.len() as int) =~= Seq::<(Seq<char>, Symbol)>::empty());
    }
    None
}

/// Bind a name in the scope at `at`, and set that scope's counter.
#[verifier::loop_isolation(false)]
fn frame_insert(
    frames: &mut Vec<TableFrame>,
    at: usize,
    name: &Ident,
    sym: Symbol,
    new_stored: usize,
)
    requires
        at < old(frames)@.len(),
    ensures
        final(frames)@.len() == old(frames)@.len(),
        sym_frames_view(final(frames)@) =~= sym_frames_view(old(frames)@).update(
            at as int,
            TableFrameV {
                store: sym_insert(sym_frames_view(old(frames)@)[at as int].store, name@, sym),
                stored: new_stored as nat,
            },
        ),
{
    let mut f = frames.remove(at);
    store_insert_exec(&mut f.store, name, sym);
    f.stored = new_stored;
    frames.insert(at, f);
    proof {
        assert forall|j: int| 0 <= j < frames@.len() implies sym_frames_view(frames@)[j]
            == sym_frames_view(old(frames)@).update(
            at as int,
            TableFrameV {
                store: sym_insert(sym_frames_view(old(frames)@)[at as int].store, name@, sym),
                stored: new_stored as nat,
            },
        )[j] by {
            if j != at {
                assert(frames@[j] == old(frames)@[j]);
            }
        }
    }
}

/// Bind a name in one scope's store: an existing binding keeps its
/// place and takes the new symbol; a new name goes at the end.
#[verifier::loop_isolation(false)]
fn store_insert_exec(s: &mut Vec<(Ident, Symbol)>, name: &Ident, sym: Symbol)
    ensures
        sym_store_view(final(s)@) == sym_insert(sym_store_view(old(s)@), name@, sym),
{
    proof {
        lemma_sym_store_view_len(s@);
    }
    let mut i: usize = 0;
    while i < s.len()
        invariant
            i <= s@.len(),
            s == old(s),
            forall|j: int| 0 <= j < i ==> #[trigger] sym_store_view(s@)[j].0 != name@,
        decreases s@.len() - i,
    {
        if s[i].0.eq(name) {
            s.set(i, (name.clone(), sym));
            proof {
                lemma_sym_store_view_len(s@);
                lemma_sym_store_view_len(old(s)@);
                lemma_sym_insert_at(sym_store_view(old(s)@), name@, sym, i as int);
                assert forall|j: int| 0 <= j < s@.len() implies sym_store_view(s@)[j]
                    == sym_store_view(old(s)@).update(
                    i as int,
                    (sym_store_view(old(s)@)[i as int].0, sym),
                )[j] by {
                    assert(sym_store_view(s@)[j] == (s@[j].0@, s@[j].1));
                    assert(sym_store_view(old(s)@)[j] == (old(s)@[j].0@, old(s)@[j].1));
                    if j == i {
                        assert(s@[j].0@ == name@ && s@[j].1 == sym);
                        assert(old(s)@[j].0@ == name@);
                    } else {
                        assert(s@[j] == old(s)@[j]);
                    }
                }
                assert(sym_store_view(s@) =~= sym_store_view(old(s)@).update(
                    i as int,
                    (sym_store_view(old(s)@)[i as int].0, sym),
                ));
            }
            return;
        }
        i = i + 1;
    }
    s.push((name.clone(), sym));
    proof {
        lemma_sym_store_view_len(s@);
        lemma_sym_store_view_len(old(s)@);
        lemma_sym_insert_missing(sym_store_view(old(s)@), name@, sym);
        assert forall|j: int| 0 <= j < s@.len() implies sym_store_view(s@)[j] == sym_store_view(
            old(s)@,
        ).push((name@, sym))[j] by {
            assert(sym_store_view(s@)[j] == (s@[j].0@, s@[j].1));
            if j < old(s)@.len() {
                assert(s@[j] == old(s)@[j]);
                assert(sym_store_view(old(s)@)[j] == (old(s)@[j].0@, old(s)@[j].1));
            } else {
                assert(s@[j].0@ == name@ && s@[j].1 == sym);
            }
        }
        assert(sym_store_view(s@) =~= sym_store_view(old(s)@).push((name@, sym)));
    }
}

proof fn lemma_sym_insert_at(s: Seq<(Seq<char>, Symbol)>, name: Seq<char>, sym: Symbol, i: int)
    requires
        0 <= i < s.len(),
        s[i].0 == name,
        forall|j: int| 0 <= j < i ==> #[trigger] s[j].0 != name,
    ensures
        sym_insert(s, name, sym) == s.update(i, (s[i].0, sym)),
    decreases s.len(),
{
    if i == 0 {
        assert(seq![(s[0].0, sym)] + s.drop_first() =~= s.update(0, (s[0].0, sym)));
    } else {
        assert(s[0].0 != name);
        assert(s.drop_first()[i - 1] == s[i]);
        assert forall|j: int| 0 <= j < i - 1 implies #[trigger] s.drop_first()[j].0 != name by {
            assert(s.drop_first()[j] == s[j + 1]);
        }
        lemma_sym_insert_at(s.drop_first(), name, sym, i - 1);
        assert(seq![s[0]] + s.drop_first().update(i - 1, (s[i].0, sym)) =~= s.update(
            i,
            (s[i].0, sym),
        ));
    }
}

proof fn lemma_sym_insert_missing(s: Seq<(Seq<char>, Symbol)>, name: Seq<char>, sym: Symbol)
    requires
        forall|j: int| 0 <= j < s.len() ==> #[trigger] s[j].0 != name,
    ensures
        sym_insert(s, name, sym) == s.push((name, sym)),
    decreases s.len(),
{
    if s.len() == 0 {
        assert(sym_insert(s, name, sym) =~= s.push((name, sym)));
    } else {
        assert forall|j: int| 0 <= j < s.drop_first().len() implies #[trigger] s.drop_first()[j].0
            != name by {
            assert(s.drop_first()[j] == s[j + 1]);
        }
        lemma_sym_insert_missing(s.drop_first(), name, sym);
        assert(seq![s[0]] + s.drop_first().push((name, sym)) =~= s.push((name, sym)));
    }
}

/// A copy of one scope.
fn clone_frame(f: &TableFrame) -> (r: TableFrame)
    ensures
        r@ == f@,
{
    let mut store: Vec<(Ident, Symbol)> = Vec::new();
    let mut i: usize = 0;
    while i < f.store.len()
        invariant
            i <= f.store@.len(),
            store@.len() == i,
            forall|j: int| 0 <= j < i ==> #[trigger] store@[j].0@ == f.store@[j].0@
                && store@[j].1 == f.store@[j].1,
        decreases f.store@.len() - i,
    {
        store.push((f.store[i].0.clone(), f.store[i].1));
        i = i + 1;
    }
    proof {
        lemma_sym_store_view_len(store@);
        lemma_sym_store_view_len(f.store@);
        assert forall|j: int| 0 <= j < store@.len() implies sym_store_view(store@)[j]
            == sym_store_view(f.store@)[j] by {
            assert(sym_store_view(store@)[j] == (store@[j].0@, store@[j].1));
            assert(sym_store_view(f.store@)[j] == (f.store@[j].0@, f.store@[j].1));
        }
        assert(sym_store_view(store@) =~= sym_store_view(f.store@));
    }
    TableFrame { store, stored: f.stored }
}

} // verus!
