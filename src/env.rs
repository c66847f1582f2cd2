use vstd::prelude::*;

verus! {

struct EnvData<T> {
    symbol: String,
    level: usize,
    data: T,
}

/// A table of symbols with nested scopes; a later binding shadows an earlier one.
pub struct Env<T> {
    current_level: usize,
    stack: Vec<EnvData<T>>,
}

/// The index of the last entry named `sym`, or -1.
pub open spec fn find_last(syms: Seq<Seq<char>>, sym: Seq<char>) -> int
    decreases syms.len(),
{
    if syms.len() == 0 {
        -1
    } else if syms.last() == sym {
        syms.len() - 1
    } else {
        find_last(syms.drop_last(), sym)
    }
}

proof fn lemma_find_last(syms: Seq<Seq<char>>, sym: Seq<char>)
    ensures
        -1 <= find_last(syms, sym) < syms.len(),
        find_last(syms, sym) >= 0 ==> syms[find_last(syms, sym)] == sym,
        find_last(syms, sym) == -1 <==> !syms.contains(sym),
    decreases syms.len(),
{
    if syms.len() > 0 {
        lemma_find_last(syms.drop_last(), sym);
        if syms.last() != sym {
            if syms.contains(sym) {
                let k = choose|k: int| 0 <= k < syms.len() && syms[k] == sym;
                assert(syms.drop_last()[k] == sym);
            }
            if syms.drop_last().contains(sym) {
                let k = choose|k: int| 0 <= k < syms.len() - 1 && syms.drop_last()[k] == sym;
                assert(syms[k] == sym);
            }
        }
    }
}

impl<T> Env<T> {
    /// The names bound, oldest first.
    pub closed spec fn symbols(&self) -> Seq<Seq<char>> {
        self.stack@.map_values(|e: EnvData<T>| e.symbol@)
    }

    /// The values bound, oldest first.
    pub closed spec fn values(&self) -> Seq<T> {
        self.stack@.map_values(|e: EnvData<T>| e.data)
    }

    /// The scope level of each binding, oldest first.
    pub closed spec fn levels(&self) -> Seq<usize> {
        self.stack@.map_values(|e: EnvData<T>| e.level)
    }

    pub closed spec fn level_spec(&self) -> usize {
        self.current_level
    }

    /// Bindings are ordered by scope, none deeper than the current one.
    pub closed spec fn wf(&self) -> bool {
        &&& forall|i: int, j: int| 0 <= i <= j < self.stack@.len() ==> self.stack@[i].level <= self.stack@[j].level
        &&& forall|i: int| 0 <= i < self.stack@.len() ==> #[trigger] self.stack@[i].level <= self.current_level
    }

    /// There is one name, one value and one level per binding.
    pub proof fn lemma_lengths(&self)
        ensures
            self.symbols().len() == self.values().len(),
            self.levels().len() == self.values().len(),
    {
    }

    /// The value that `sym` is bound to now.
    pub open spec fn binding(&self, sym: Seq<char>) -> Option<T> {
        let k = find_last(self.symbols(), sym);
        if k >= 0 {
            Some(self.values()[k])
        } else {
            None
        }
    }

    pub fn new() -> (r: Self)
        ensures
            r.wf(),
            r.symbols().len() == 0,
            r.values().len() == 0,
            r.level_spec() == 0,
    {
        Self { current_level: 0, stack: Vec::new() }
    }

    /// Opens a nested scope.
    pub fn init_scope(&mut self)
        requires
            old(self).level_spec() < usize::MAX,
        ensures
            old(self).wf() ==> final(self).wf(),
            final(self).level_spec() == old(self).level_spec() + 1,
            final(self).symbols() == old(self).symbols(),
            final(self).values() == old(self).values(),
            final(self).levels() == old(self).levels(),
    {
        self.current_level = self.current_level + 1;
    }

    fn find(&self, sym: &str) -> (r: Option<usize>)
        ensures
            r is None <==> find_last(self.symbols(), sym@) == -1,
            r is Some ==> r->0 == find_last(self.symbols(), sym@),
    {
        proof {
            lemma_find_last(self.symbols(), sym@);
            assert(self.symbols().take(self.stack@.len() as int) =~= self.symbols());
        }
        let key = sym.to_owned();
        let mut i: usize = self.stack.len();
        while i > 0
            invariant
                i <= self.stack@.len(),
                key@ == sym@,
                find_last(self.symbols(), sym@) == find_last(self.symbols().take(i as int), sym@),
            decreases i,
        {
            let ghost s = self.symbols().take(i as int);
            assert(s.last() == self.stack@[i - 1].symbol@);
            if self.stack[i - 1].symbol == key {
                return Some(i - 1);
            }
            assert(s.drop_last() =~= self.symbols().take(i - 1));
            i = i - 1;
        }
        proof {
            assert(self.symbols().take(0) =~= Seq::<Seq<char>>::empty());
        }
        None
    }

    /// Whether `sym` is bound.
    pub fn contains(&mut self, sym: &str) -> (r: bool)
        ensures
            r == old(self).symbols().contains(sym@),
            *final(self) == *old(self),
    {
        proof {
            lemma_find_last(self.symbols(), sym@);
        }
        self.find(sym).is_some()
    }

    /// Replaces the value of the binding of `symbol` that is visible now.
    pub fn update(&mut self, symbol: String, data: T)
        requires
            old(self).symbols().contains(symbol@),
        ensures
            old(self).wf() ==> final(self).wf(),
            final(self).symbols() == old(self).symbols(),
            final(self).levels() == old(self).levels(),
            final(self).level_spec() == old(self).level_spec(),
            final(self).values() == old(self).values().update(
                find_last(old(self).symbols(), symbol@),
                data,
            ),
    {
        proof {
            lemma_find_last(self.symbols(), symbol@);
        }
        let pos = match self.find(symbol.as_str()) {
            Some(p) => p,
            None => 0,
        };
        let old_entry = self.stack.remove(pos);
        let entry = EnvData { symbol: old_entry.symbol, level: old_entry.level, data };
        self.stack.insert(pos, entry);
        proof {
            assert forall|i: int| 0 <= i < self.stack@.len() implies self.stack@[i].level == old(self).stack@[i].level by {
                if i != pos {
                    assert(self.stack@[i] == old(self).stack@[i]);
                }
            }
            assert(self.symbols() =~= old(self).symbols());
            assert(self.levels() =~= old(self).levels());
            assert(self.values() =~= old(self).values().update(pos as int, data));
        }
    }

    /// Binds `symbol` to `data` in the current scope.
    pub fn insert(&mut self, symbol: String, data: T)
        ensures
            old(self).wf() ==> final(self).wf(),
            final(self).symbols() == old(self).symbols().push(symbol@),
            final(self).values() == old(self).values().push(data),
            final(self).levels() == old(self).levels().push(old(self).level_spec()),
            final(self).level_spec() == old(self).level_spec(),
    {
        let ghost s = symbol@;
        let level = self.current_level;
        self.stack.push(EnvData { symbol, level, data });
        proof {
            assert(self.symbols() =~= old(self).symbols().push(s));
            assert(self.values() =~= old(self).values().push(data));
            assert(self.levels() =~= old(self).levels().push(level));
        }
    }

    /// The value that `sym` is bound to now.
    pub fn lookup(&self, sym: &str) -> (r: Option<&T>)
        ensures
            r is Some <==> self.binding(sym@) is Some,
            r is Some ==> *r->0 == self.binding(sym@)->0,
    {
        proof {
            lemma_find_last(self.symbols(), sym@);
        }
        match self.find(sym) {
            Some(p) => Some(&self.stack[p].data),
            None => None,
        }
    }

    pub fn level(&self) -> (r: usize)
        ensures
            r == self.level_spec(),
    {
        self.current_level
    }

    /// The number of bindings held, shadowed ones included.
    pub fn depth(&self) -> (r: usize)
        ensures
            r == self.symbols().len(),
    {
        self.stack.len()
    }

    /// Closes the current scope: drops the bindings made in it, newest first,
    /// and returns them in that order.
    pub fn exit_scope(&mut self) -> (r: Vec<(String, T)>)
        requires
            old(self).level_spec() > 0,
            old(self).wf(),
        ensures
            final(self).wf(),
            final(self).level_spec() == old(self).level_spec() - 1,
            final(self).symbols() == old(self).symbols().take(final(self).symbols().len() as int),
            final(self).values() == old(self).values().take(final(self).symbols().len() as int),
            final(self).levels() == old(self).levels().take(final(self).symbols().len() as int),
            r@.len() + final(self).symbols().len() == old(self).symbols().len(),
            forall|i: int| 0 <= i < final(self).levels().len() ==> #[trigger] final(self).levels()[i] < old(self).level_spec(),
            forall|i: int|
                final(self).levels().len() <= i < old(self).levels().len() ==> #[trigger] old(self).levels()[i]
                    == old(self).level_spec(),
    {
        let mut popped: Vec<(String, T)> = Vec::new();
        while self.stack.len() > 0 && self.stack[self.stack.len() - 1].level == self.current_level
            invariant
                self.current_level == old(self).current_level,
                self.stack@.len() <= old(self).stack@.len(),
                forall|i: int| 0 <= i < self.stack@.len() ==> #[trigger] self.stack@[i] == old(self).stack@[i],
                popped@.len() + self.stack@.len() == old(self).stack@.len(),
                forall|i: int| self.stack@.len() <= i < old(self).stack@.len() ==> #[trigger] old(self).stack@[i].level == self.current_level,
            decreases self.stack.len(),
        {
            let cur = self.stack.pop().unwrap();
            popped.push((cur.symbol, cur.data));
        }
        self.current_level = self.current_level - 1;
        proof {
            let n = self.stack@.len() as int;
            assert(self.symbols() =~= old(self).symbols().take(n));
            assert(self.values() =~= old(self).values().take(n));
            assert(self.levels() =~= old(self).levels().take(n));
            if n > 0 {
                assert(self.levels().last() == self.stack@[n - 1].level);
                assert(old(self).levels()[n - 1] == self.stack@[n - 1].level);
            }
            assert forall|i: int| 0 <= i < self.stack@.len() implies #[trigger] self.stack@[i].level <= self.current_level by {
                assert(self.stack@[i].level <= self.stack@[n - 1].level);
            }
            assert forall|i: int| 0 <= i < self.levels().len() implies #[trigger] self.levels()[i] < old(self).level_spec() by {
                assert(self.stack@[i].level <= self.stack@[n - 1].level);
            }
            assert forall|i: int| self.levels().len() <= i < old(self).levels().len() implies #[trigger] old(self).levels()[i]
                == old(self).level_spec() by {
                assert(old(self).levels()[i] == old(self).stack@[i].level);
            }
        }
        popped
    }
}

} // verus!
