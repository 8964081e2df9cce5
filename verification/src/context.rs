//! The evaluation context: a stack of lexical scopes.
//!
//! A scope maps names to variable values and, in parallel, names to function
//! bindings; the two mappings are pushed and popped together. Lookup walks
//! from the innermost scope outwards; assignment always writes the innermost
//! scope. Scopes are stored as association lists with unique keys, modelled
//! as `Map`s from name to value.

use vstd::prelude::*;

use crate::ast::{Function, FunctionV, RuntimeValue, ValueV};

verus! {

/// The map an association list denotes: later entries override earlier ones
/// (the lists kept here never repeat a key).
pub open spec fn entries_map<T: View, U: View>(s: Seq<(T, U)>) -> Map<T::V, U::V>
    decreases s,
{
    if s.len() == 0 {
        Map::empty()
    } else {
        entries_map(s.drop_last()).insert(s.last().0@, s.last().1@)
    }
}

/// Whether an association list binds each key at most once.
pub open spec fn entries_unique<T: View, U: View>(s: Seq<(T, U)>) -> bool {
    forall|i: int, j: int| 0 <= i < j < s.len() ==> (#[trigger] s[i].0@) != (#[trigger] s[j].0@)
}

/// Appending a fresh binding inserts it into the denoted map.
pub proof fn lemma_entries_push<T: View, U: View>(s: Seq<(T, U)>, x: (T, U))
    ensures
        entries_map(s.push(x)) == entries_map(s).insert(x.0@, x.1@),
{
    assert(s.push(x).drop_last() =~= s);
    assert(s.push(x).last() == x);
}

/// Overwriting the entry that binds a key updates the key in the denoted map.
pub proof fn lemma_entries_update<T: View, U: View>(s: Seq<(T, U)>, j: int, x: (T, U))
    requires
        entries_unique(s),
        0 <= j < s.len(),
        s[j].0@ == x.0@,
    ensures
        entries_map(s.update(j, x)) == entries_map(s).insert(x.0@, x.1@),
    decreases s.len(),
{
    let t = s.update(j, x);
    if j == s.len() - 1 {
        assert(t.drop_last() =~= s.drop_last());
        assert(t.last() == x);
        assert(entries_map(s).insert(x.0@, x.1@) =~= entries_map(s.drop_last()).insert(
            x.0@,
            x.1@,
        ));
    } else {
        assert(t.drop_last() =~= s.drop_last().update(j, x));
        assert(t.last() == s.last());
        assert(entries_unique(s.drop_last()));
        lemma_entries_update(s.drop_last(), j, x);
        assert(s[j].0@ != s.last().0@);
        assert(entries_map(s.drop_last()).insert(x.0@, x.1@).insert(s.last().0@, s.last().1@)
            =~= entries_map(s.drop_last()).insert(s.last().0@, s.last().1@).insert(x.0@, x.1@));
    }
}

/// The entry binding a key gives that key's value in the denoted map.
pub proof fn lemma_entries_found<T: View, U: View>(s: Seq<(T, U)>, j: int)
    requires
        entries_unique(s),
        0 <= j < s.len(),
    ensures
        entries_map(s).contains_key(s[j].0@),
        entries_map(s)[s[j].0@] == s[j].1@,
    decreases s.len(),
{
    if j < s.len() - 1 {
        assert(entries_unique(s.drop_last()));
        lemma_entries_found(s.drop_last(), j);
        assert(s[j].0@ != s.last().0@);
    }
}

/// A key bound by no entry is absent from the denoted map.
pub proof fn lemma_entries_absent<T: View, U: View>(s: Seq<(T, U)>, name: T::V)
    requires
        forall|j: int| 0 <= j < s.len() ==> (#[trigger] s[j].0@) != name,
    ensures
        !entries_map(s).contains_key(name),
    decreases s.len(),
{
    if s.len() > 0 {
        lemma_entries_absent(s.drop_last(), name);
    }
}

/// Mathematical model of one scope: its variable and function bindings.
pub struct ScopeV {
    pub vars: Map<Seq<char>, ValueV>,
    pub funcs: Map<Seq<char>, FunctionV>,
}

/// One lexical scope: variable bindings and function bindings, kept as
/// association lists with unique keys.
#[derive(Debug)]
struct Scope {
    vars: Vec<(String, RuntimeValue)>,
    funcs: Vec<(String, Function)>,
}

impl View for Scope {
    type V = ScopeV;

    closed spec fn view(&self) -> ScopeV {
        ScopeV { vars: entries_map(self.vars@), funcs: entries_map(self.funcs@) }
    }
}

impl Scope {
    /// Both association lists bind each name at most once.
    closed spec fn wf(&self) -> bool {
        entries_unique(self.vars@) && entries_unique(self.funcs@)
    }

    fn new() -> (s: Scope)
        ensures
            s.wf(),
            s@.vars == Map::<Seq<char>, ValueV>::empty(),
            s@.funcs == Map::<Seq<char>, FunctionV>::empty(),
    {
        Scope { vars: Vec::new(), funcs: Vec::new() }
    }

    /// Binds `name` to `value`, overwriting any present binding.
    fn set_var(&mut self, name: String, value: RuntimeValue)
        requires
            old(self).wf(),
        ensures
            final(self).wf(),
            final(self)@.vars == old(self)@.vars.insert(name@, value@),
            final(self)@.funcs == old(self)@.funcs,
    {
        let ghost entries = self.vars@;
        let mut i: usize = 0;
        while i < self.vars.len()
            invariant
                i <= self.vars.len(),
                entries == old(self).vars@,
                self.vars@ == entries,
                self.funcs@ == old(self).funcs@,
                entries_unique(entries),
                entries_unique(self.funcs@),
                forall|j: int| 0 <= j < i ==> (#[trigger] entries[j].0@) != name@,
            decreases self.vars.len() - i,
        {
            if self.vars[i].0 == name {
                self.vars[i] = (name, value);
                proof {
                    let t = self.vars@;
                    assert(t == entries.update(i as int, t[i as int]));
                    assert(t[i as int].0@ == entries[i as int].0@);
                    lemma_entries_update(entries, i as int, t[i as int]);
                    assert forall|a: int, b: int| 0 <= a < b < t.len() implies (#[trigger] t[a].0@)
                        != (#[trigger] t[b].0@) by {
                        assert(t[a].0@ == entries[a].0@);
                        assert(t[b].0@ == entries[b].0@);
                    }
                }
                return ;
            }
            i = i + 1;
        }
        self.vars.push((name, value));
        proof {
            lemma_entries_push(entries, self.vars@.last());
        }
    }

    /// Binds `name` to a function, overwriting any present binding.
    fn set_fn(&mut self, name: String, value: Function)
        requires
            old(self).wf(),
        ensures
            final(self).wf(),
            final(self)@.funcs == old(self)@.funcs.insert(name@, value@),
            final(self)@.vars == old(self)@.vars,
    {
        let ghost entries = self.funcs@;
        let mut i: usize = 0;
        while i < self.funcs.len()
            invariant
                i <= self.funcs.len(),
                entries == old(self).funcs@,
                self.funcs@ == entries,
                self.vars@ == old(self).vars@,
                entries_unique(entries),
                entries_unique(self.vars@),
                forall|j: int| 0 <= j < i ==> (#[trigger] entries[j].0@) != name@,
            decreases self.funcs.len() - i,
        {
            if self.funcs[i].0 == name {
                self.funcs[i] = (name, value);
                proof {
                    let t = self.funcs@;
                    assert(t == entries.update(i as int, t[i as int]));
                    assert(t[i as int].0@ == entries[i as int].0@);
                    lemma_entries_update(entries, i as int, t[i as int]);
                    assert forall|a: int, b: int| 0 <= a < b < t.len() implies (#[trigger] t[a].0@)
                        != (#[trigger] t[b].0@) by {
                        assert(t[a].0@ == entries[a].0@);
                        assert(t[b].0@ == entries[b].0@);
                    }
                }
                return ;
            }
            i = i + 1;
        }
        self.funcs.push((name, value));
        proof {
            lemma_entries_push(entries, self.funcs@.last());
        }
    }

    /// The value bound to `name` here, if any.
    fn get_var(&self, name: &String) -> (r: Option<&RuntimeValue>)
        requires
            self.wf(),
        ensures
            match r {
                Some(v) => self@.vars.contains_key(name@) && v@ == self@.vars[name@],
                None => !self@.vars.contains_key(name@),
            },
    {
        let mut i: usize = 0;
        while i < self.vars.len()
            invariant
                self.wf(),
                i <= self.vars.len(),
                forall|j: int| 0 <= j < i ==> (#[trigger] self.vars@[j].0@) != name@,
            decreases self.vars.len() - i,
        {
            if self.vars[i].0 == *name {
                proof {
                    lemma_entries_found(self.vars@, i as int);
                }
                return Some(&self.vars[i].1);
            }
            i = i + 1;
        }
        proof {
            lemma_entries_absent(self.vars@, name@);
        }
        None
    }

    /// The function bound to `name` here, if any.
    fn get_fn(&self, name: &String) -> (r: Option<&Function>)
        requires
            self.wf(),
        ensures
            match r {
                Some(f) => self@.funcs.contains_key(name@) && f@ == self@.funcs[name@],
                None => !self@.funcs.contains_key(name@),
            },
    {
        let mut i: usize = 0;
        while i < self.funcs.len()
            invariant
                self.wf(),
                i <= self.funcs.len(),
                forall|j: int| 0 <= j < i ==> (#[trigger] self.funcs@[j].0@) != name@,
            decreases self.funcs.len() - i,
        {
            if self.funcs[i].0 == *name {
                proof {
                    lemma_entries_found(self.funcs@, i as int);
                }
                return Some(&self.funcs[i].1);
            }
            i = i + 1;
        }
        proof {
            lemma_entries_absent(self.funcs@, name@);
        }
        None
    }
}

/// The value `name` denotes, searching scopes from innermost to outermost.
pub open spec fn lookup_var(ctx: Seq<ScopeV>, name: Seq<char>) -> Option<ValueV>
    decreases ctx,
{
    if ctx.len() == 0 {
        None
    } else if ctx.last().vars.contains_key(name) {
        Some(ctx.last().vars[name])
    } else {
        lookup_var(ctx.drop_last(), name)
    }
}

/// The function `name` denotes, searching scopes from innermost to outermost.
pub open spec fn lookup_fn(ctx: Seq<ScopeV>, name: Seq<char>) -> Option<FunctionV>
    decreases ctx,
{
    if ctx.len() == 0 {
        None
    } else if ctx.last().funcs.contains_key(name) {
        Some(ctx.last().funcs[name])
    } else {
        lookup_fn(ctx.drop_last(), name)
    }
}

/// An empty scope: no variable and no function bindings.
pub open spec fn empty_scope() -> ScopeV {
    ScopeV {
        vars: Map::<Seq<char>, ValueV>::empty(),
        funcs: Map::<Seq<char>, FunctionV>::empty(),
    }
}

/// The model of a context after binding `name` to `value` in its innermost
/// scope.
pub open spec fn set_var_innermost(ctx: Seq<ScopeV>, name: Seq<char>, value: ValueV) -> Seq<
    ScopeV,
> {
    ctx.update(
        ctx.len() - 1,
        ScopeV { vars: ctx.last().vars.insert(name, value), funcs: ctx.last().funcs },
    )
}

/// The model of a context after binding `name` to a function in its innermost
/// scope.
pub open spec fn set_fn_innermost(ctx: Seq<ScopeV>, name: Seq<char>, value: FunctionV) -> Seq<
    ScopeV,
> {
    ctx.update(
        ctx.len() - 1,
        ScopeV { vars: ctx.last().vars, funcs: ctx.last().funcs.insert(name, value) },
    )
}

/// The context for variable and function bindings during evaluation: a stack
/// of scopes, innermost last.
#[derive(Debug)]
pub struct Context {
    scopes: Vec<Scope>,
}

impl View for Context {
    type V = Seq<ScopeV>;

    closed spec fn view(&self) -> Seq<ScopeV> {
        Seq::new(self.scopes@.len(), |i: int| self.scopes@[i]@)
    }
}

impl Context {
    /// Every scope's association lists bind each name at most once.
    pub closed spec fn wf(&self) -> bool {
        forall|i: int| 0 <= i < self.scopes@.len() ==> (#[trigger] self.scopes@[i]).wf()
    }

    /// Creates a context holding one empty global scope.
    pub fn new() -> (c: Context)
        ensures
            c.wf(),
            c@ =~= seq![empty_scope()],
    {
        let mut scopes: Vec<Scope> = Vec::new();
        scopes.push(Scope::new());
        Context { scopes }
    }

    /// How many scopes are on the stack.
    pub fn depth(&self) -> (n: usize)
        ensures
            n == self@.len(),
    {
        self.scopes.len()
    }

    /// Pushes a fresh empty scope.
    pub fn push_scope(&mut self)
        requires
            old(self).wf(),
        ensures
            final(self).wf(),
            final(self)@ =~= old(self)@.push(empty_scope()),
    {
        self.scopes.push(Scope::new());
    }

    /// Pops the innermost scope, discarding its bindings; does nothing on an
    /// empty stack.
    pub fn pop_scope(&mut self)
        requires
            old(self).wf(),
        ensures
            final(self).wf(),
            old(self)@.len() > 0 ==> final(self)@ =~= old(self)@.drop_last(),
            old(self)@.len() == 0 ==> final(self)@ == old(self)@,
    {
        if self.scopes.len() > 0 {
            let _ = self.scopes.pop();
            proof {
                assert(final(self)@ =~= old(self)@.drop_last());
            }
        }
    }

    /// Binds `name` to `value` in the innermost scope, overwriting any
    /// binding of that name there; bindings in outer scopes are untouched.
    pub fn set_variable(&mut self, name: String, value: RuntimeValue)
        requires
            old(self).wf(),
            old(self)@.len() > 0,
        ensures
            final(self).wf(),
            final(self)@ =~= set_var_innermost(old(self)@, name@, value@),
    {
        let k: usize = self.scopes.len() - 1;
        let mut scope = self.scopes.pop().unwrap();
        scope.set_var(name, value);
        self.scopes.push(scope);
        proof {
            assert(final(self)@ =~= set_var_innermost(old(self)@, name@, value@));
        }
    }

    /// Binds `name` to a function in the innermost scope, overwriting any
    /// binding of that name there.
    pub fn set_function(&mut self, name: String, value: Function)
        requires
            old(self).wf(),
            old(self)@.len() > 0,
        ensures
            final(self).wf(),
            final(self)@ =~= set_fn_innermost(old(self)@, name@, value@),
    {
        let ghost value_v = value@;
        let mut scope = self.scopes.pop().unwrap();
        scope.set_fn(name, value);
        self.scopes.push(scope);
        proof {
            assert(final(self)@ =~= set_fn_innermost(old(self)@, name@, value_v));
        }
    }

    /// The value `name` denotes, searching scopes from innermost to
    /// outermost.
    pub fn get_variable(&self, name: &String) -> (r: Option<&RuntimeValue>)
        requires
            self.wf(),
        ensures
            match r {
                Some(v) => lookup_var(self@, name@) == Some(v@),
                None => lookup_var(self@, name@) is None,
            },
    {
        let mut k: usize = self.scopes.len();
        proof {
            assert(self@.subrange(0, k as int) =~= self@);
        }
        while k > 0
            invariant
                self.wf(),
                k <= self.scopes.len(),
                lookup_var(self@, name@) == lookup_var(self@.subrange(0, k as int), name@),
            decreases k,
        {
            k = k - 1;
            let found = self.scopes[k].get_var(name);
            proof {
                let prefix = self@.subrange(0, k + 1);
                assert(prefix.last() == self@[k as int]);
                assert(prefix.drop_last() =~= self@.subrange(0, k as int));
            }
            if found.is_some() {
                return found;
            }
        }
        proof {
            assert(self@.subrange(0, 0) =~= Seq::<ScopeV>::empty());
        }
        None
    }

    /// The function `name` denotes, searching scopes from innermost to
    /// outermost; the returned binding shares the stored body.
    pub fn get_function(&self, name: &String) -> (r: Option<Function>)
        requires
            self.wf(),
        ensures
            match r {
                Some(f) => lookup_fn(self@, name@) == Some(f@),
                None => lookup_fn(self@, name@) is None,
            },
    {
        let mut k: usize = self.scopes.len();
        proof {
            assert(self@.subrange(0, k as int) =~= self@);
        }
        while k > 0
            invariant
                self.wf(),
                k <= self.scopes.len(),
                lookup_fn(self@, name@) == lookup_fn(self@.subrange(0, k as int), name@),
            decreases k,
        {
            k = k - 1;
            let found = self.scopes[k].get_fn(name);
            proof {
                let prefix = self@.subrange(0, k + 1);
                assert(prefix.last() == self@[k as int]);
                assert(prefix.drop_last() =~= self@.subrange(0, k as int));
            }
            match found {
                Some(f) => {
                    return Some(f.duplicate());
                },
                None => {},
            }
        }
        proof {
            assert(self@.subrange(0, 0) =~= Seq::<ScopeV>::empty());
        }
        None
    }
}

} // verus!
