//! Environments of variable bindings, chained to their enclosing environment.
//!
//! All environments live in one store and are named by their index in it, so
//! that an environment can be shared by the code that runs in it and by the
//! closures that capture it. Each environment maps names to values and may
//! have a parent; a parent always comes before its children in the store, so
//! the chain of parents ends. (Shared, mutable environments behind
//! `Rc<RefCell<..>>` are out of Verus's reach: it does not support `RefCell`.)
//! The environments made after a given point can be dropped together
//! (`truncate`) once nothing refers to them any more.

use vstd::prelude::*;
use crate::span::Location;

verus! {

/// The view of one environment: its bindings and its parent.
pub struct SFrame<V> {
    pub vars: Map<Seq<char>, V>,
    pub parent: Option<usize>,
}

/// The bindings of one environment, in order of definition; a later entry
/// for a name overrides an earlier one.
pub open spec fn bindings_view<V>(vars: Seq<(String, V)>) -> Map<Seq<char>, V>
    decreases vars.len(),
{
    if vars.len() == 0 {
        Map::empty()
    } else {
        bindings_view(vars.drop_last()).insert(vars.last().0@, vars.last().1)
    }
}

pub struct Frame<V> {
    vars: Vec<(String, V)>,
    parent: Option<usize>,
}

pub closed spec fn frame_view<V>(f: Frame<V>) -> SFrame<V> {
    SFrame { vars: bindings_view(f.vars@), parent: f.parent }
}

/// The store of all environments.
pub struct Environments<V> {
    frames: Vec<Frame<V>>,
}

impl<V> View for Environments<V> {
    type V = Seq<SFrame<V>>;

    closed spec fn view(&self) -> Seq<SFrame<V>> {
        self.frames@.map_values(|f: Frame<V>| frame_view(f))
    }
}

/// The environment `distance` hops up the chain from `env`, if the chain is that long.
pub open spec fn ancestor<V>(fs: Seq<SFrame<V>>, env: usize, distance: nat) -> Option<usize>
    decreases distance,
{
    if env >= fs.len() {
        None
    } else if distance == 0 {
        Some(env)
    } else {
        match fs[env as int].parent {
            Some(p) => if p < env { ancestor(fs, p, (distance - 1) as nat) } else { None },
            None => None,
        }
    }
}

/// An ancestor found is an environment of the store.
pub proof fn lemma_ancestor_in_store<V>(fs: Seq<SFrame<V>>, env: usize, distance: nat)
    ensures
        ancestor(fs, env, distance) matches Some(a) ==> a < fs.len(),
    decreases distance,
{
    if env < fs.len() && distance > 0 {
        match fs[env as int].parent {
            Some(p) => if p < env {
                lemma_ancestor_in_store(fs, p, (distance - 1) as nat);
            },
            None => {},
        }
    }
}

/// The value bound to `name` in the environment `distance` hops up from `env`.
pub open spec fn value_at<V>(fs: Seq<SFrame<V>>, env: usize, distance: nat, name: Seq<char>) -> Option<V> {
    match ancestor(fs, env, distance) {
        Some(a) => if fs[a as int].vars.contains_key(name) { Some(fs[a as int].vars[name]) } else { None },
        None => None,
    }
}

/// The store after binding `name` to `value` in environment `a`.
pub open spec fn bound_in<V>(fs: Seq<SFrame<V>>, a: usize, name: Seq<char>, value: V) -> Seq<SFrame<V>> {
    fs.update(a as int, SFrame { vars: fs[a as int].vars.insert(name, value), parent: fs[a as int].parent })
}

proof fn lemma_ancestor_same_parents<V>(fs: Seq<SFrame<V>>, gs: Seq<SFrame<V>>, env: usize, distance: nat)
    requires
        fs.len() == gs.len(),
        forall|i: int| 0 <= i < fs.len() ==> #[trigger] fs[i].parent == gs[i].parent,
    ensures
        ancestor(fs, env, distance) == ancestor(gs, env, distance),
    decreases distance,
{
    if env < fs.len() && distance > 0 {
        assert(fs[env as int].parent == gs[env as int].parent);
        match fs[env as int].parent {
            Some(p) => if p < env {
                lemma_ancestor_same_parents(fs, gs, p, (distance - 1) as nat);
            },
            None => {},
        }
    }
}

/// Binding a name in an environment and then reading it back at any place
/// whose chain leads to that environment gives the value bound; every other
/// lookup gives what it gave before.
pub proof fn lemma_read_after_bind<V>(
    fs: Seq<SFrame<V>>,
    a: usize,
    name: Seq<char>,
    value: V,
    env: usize,
    distance: nat,
    name2: Seq<char>,
)
    requires
        a < fs.len(),
    ensures
        ancestor(bound_in(fs, a, name, value), env, distance) == ancestor(fs, env, distance),
        ancestor(fs, env, distance) == Some(a) && name2 == name
            ==> value_at(bound_in(fs, a, name, value), env, distance, name2) == Some(value),
        !(ancestor(fs, env, distance) == Some(a) && name2 == name)
            ==> value_at(bound_in(fs, a, name, value), env, distance, name2) == value_at(fs, env, distance, name2),
{
    let gs = bound_in(fs, a, name, value);
    assert forall|i: int| 0 <= i < fs.len() implies #[trigger] fs[i].parent == gs[i].parent by {}
    lemma_ancestor_same_parents(fs, gs, env, distance);
    lemma_ancestor_in_store(fs, env, distance);
}

/// The bindings that a call makes: each parameter name bound to the argument
/// at the same place, a later parameter of the same name overriding an
/// earlier one.
pub open spec fn call_bindings<V>(names: Seq<Seq<char>>, args: Seq<V>) -> Map<Seq<char>, V>
    decreases names.len(),
{
    if names.len() == 0 {
        Map::empty()
    } else {
        call_bindings(names.drop_last(), args.take(names.len() - 1)).insert(names.last(), args[names.len() - 1])
    }
}

/// The names of a function's parameters.
pub open spec fn param_names(params: Seq<(String, Location)>) -> Seq<Seq<char>> {
    params.map_values(|p: (String, Location)| p.0@)
}

/// Replacing the last entry for a name gives the bindings with that name
/// bound to the new value.
pub(crate) proof fn lemma_bindings_replace_last<V>(vars: Seq<(String, V)>, i: int, entry: (String, V))
    requires
        0 <= i < vars.len(),
        vars[i].0@ == entry.0@,
        forall|j: int| i < j < vars.len() ==> #[trigger] vars[j].0@ != entry.0@,
    ensures
        bindings_view(vars.update(i, entry)) == bindings_view(vars).insert(entry.0@, entry.1),
    decreases vars.len(),
{
    let u = vars.update(i, entry);
    if i == vars.len() - 1 {
        assert(u.drop_last() =~= vars.drop_last());
        assert(bindings_view(u) =~= bindings_view(vars).insert(entry.0@, entry.1));
    } else {
        assert(u.drop_last() =~= vars.drop_last().update(i, entry));
        assert(vars[vars.len() - 1].0@ != entry.0@);
        lemma_bindings_replace_last(vars.drop_last(), i, entry);
        assert(bindings_view(u) =~= bindings_view(vars).insert(entry.0@, entry.1));
    }
}

/// Finds the entry for `name` that counts: the last one.
pub(crate) fn find_binding<V>(vars: &Vec<(String, V)>, name: &str) -> (r: Option<usize>)
    ensures
        match r {
            Some(i) => i < vars@.len() && vars@[i as int].0@ == name@ && bindings_view(vars@).contains_key(name@)
                && bindings_view(vars@)[name@] == vars@[i as int].1
                && forall|j: int| i < j < vars@.len() ==> #[trigger] vars@[j].0@ != name@,
            None => !bindings_view(vars@).contains_key(name@),
        },
{
    let owned = name.to_owned();
    let mut i = vars.len();
    assert(vars@.take(vars@.len() as int) =~= vars@);
    while i > 0
        invariant
            i <= vars@.len(),
            owned@ == name@,
            bindings_view(vars@).contains_key(name@) == bindings_view(vars@.take(i as int)).contains_key(name@),
            bindings_view(vars@).contains_key(name@) ==> bindings_view(vars@)[name@] == bindings_view(
                vars@.take(i as int),
            )[name@],
            forall|j: int| i <= j < vars@.len() ==> #[trigger] vars@[j].0@ != name@,
        decreases i,
    {
        assert(vars@.take(i as int).drop_last() == vars@.take(i - 1));
        if vars[i - 1].0 == owned {
            return Some(i - 1);
        }
        i = i - 1;
    }
    None
}

impl<V> Environments<V> {
    /// An empty store.
    pub fn new() -> (r: Self)
        ensures
            r@ == Seq::<SFrame<V>>::empty(),
    {
        let r = Environments { frames: Vec::new() };
        assert(r@ =~= Seq::<SFrame<V>>::empty());
        r
    }

    /// The number of environments.
    pub fn len(&self) -> (n: usize)
        ensures
            n == self@.len(),
    {
        self.frames.len()
    }

    /// Adds an environment with no bindings whose parent is `parent`, and
    /// gives its index.
    pub fn new_env(&mut self, parent: Option<usize>) -> (env: usize)
        requires
            parent matches Some(p) ==> p < old(self)@.len(),
            old(self)@.len() < usize::MAX,
        ensures
            env == old(self)@.len(),
            final(self)@ == old(self)@.push(SFrame { vars: Map::empty(), parent }),
    {
        let ghost old_frames = self.frames@;
        let env = self.frames.len();
        self.frames.push(Frame { vars: Vec::new(), parent });
        assert(bindings_view(Seq::<(String, V)>::empty()) == Map::<Seq<char>, V>::empty());
        assert(self@ =~= old(self)@.push(SFrame { vars: Map::empty(), parent }));
        env
    }

    /// Binds `name` to `value` in the environment `env`, replacing any earlier binding there.
    pub fn define(&mut self, env: usize, name: &str, value: V)
        requires
            env < old(self)@.len(),
        ensures
            final(self)@ == bound_in(old(self)@, env, name@, value),
    {
        let ghost old_frames = self.frames@;
        let entry = (name.to_owned(), value);
        let found = find_binding(&self.frames[env].vars, name);
        let frame = &mut self.frames[env];
        let ghost old_vars = frame.vars@;
        match found {
            Some(i) => {
                proof { lemma_bindings_replace_last(old_vars, i as int, entry); }
                frame.vars[i] = entry;
            },
            None => {
                frame.vars.push(entry);
                assert(frame.vars@.drop_last() == old_vars);
            },
        }
        assert(bindings_view(frame.vars@) == bindings_view(old_vars).insert(name@, value));
        assert(self.frames@ =~= old_frames.update(env as int, *frame));
        assert(self@ =~= old(self)@.update(
            env as int,
            SFrame { vars: old(self)@[env as int].vars.insert(name@, value), parent: old(self)@[env as int].parent },
        ));
    }

    /// Makes the environment in which a call runs: a new environment enclosed
    /// by `closure` that binds each parameter to the argument at the same
    /// place, and gives its index.
    pub fn bind_call(&mut self, closure: usize, params: &[(String, Location)], args: Vec<V>) -> (env: usize)
        requires
            closure < old(self)@.len(),
            old(self)@.len() < usize::MAX,
            params@.len() == args@.len(),
        ensures
            env == old(self)@.len(),
            final(self)@ == old(self)@.push(
                SFrame { vars: call_bindings(param_names(params@), args@), parent: Some(closure) },
            ),
    {
        let ghost all_args = args@;
        let ghost names = param_names(params@);
        let env = self.new_env(Some(closure));
        let mut rest = args;
        let mut i: usize = 0;
        assert(all_args.skip(0) =~= all_args);
        assert(names.take(0) =~= Seq::<Seq<char>>::empty());
        while i < params.len()
            invariant
                i <= params@.len(),
                params@.len() == all_args.len(),
                names == param_names(params@),
                env == old(self)@.len(),
                rest@ == all_args.skip(i as int),
                self@ == old(self)@.push(
                    SFrame { vars: call_bindings(names.take(i as int), all_args.take(i as int)), parent: Some(closure) },
                ),
            decreases params@.len() - i,
        {
            let value = rest.remove(0);
            assert(value == all_args[i as int]);
            assert(rest@ =~= all_args.skip(i + 1));
            self.define(env, params[i].0.as_str(), value);
            proof {
                let t = names.take(i + 1);
                assert(t.drop_last() =~= names.take(i as int));
                assert(all_args.take(i + 1).take(i as int) =~= all_args.take(i as int));
                assert(t.last() == params@[i as int].0@);
            }
            i = i + 1;
            assert(self@ =~= old(self)@.push(
                SFrame { vars: call_bindings(names.take(i as int), all_args.take(i as int)), parent: Some(closure) },
            ));
        }
        assert(names.take(i as int) =~= names);
        assert(all_args.take(i as int) =~= all_args);
        env
    }

    /// Drops the environments from index `n` on, keeping the first `n`.
    pub fn truncate(&mut self, n: usize)
        requires
            n <= old(self)@.len(),
        ensures
            final(self)@ == old(self)@.take(n as int),
    {
        self.frames.truncate(n);
        assert(self@ =~= old(self)@.take(n as int));
    }

    /// The index of the environment `distance` hops up the chain from `env`,
    /// if the chain is that long.
    pub fn ancestor_of(&self, env: usize, distance: usize) -> (r: Option<usize>)
        ensures
            r == ancestor(self@, env, distance as nat),
    {
        if env >= self.frames.len() {
            return None;
        }
        let mut current = env;
        let mut d: usize = 0;
        while d < distance
            invariant
                current < self@.len(),
                d <= distance,
                ancestor(self@, env, distance as nat) == ancestor(self@, current, (distance - d) as nat),
            decreases distance - d,
        {
            match self.frames[current].parent {
                Some(p) => {
                    if p >= current {
                        return None;
                    }
                    current = p;
                },
                None => return None,
            }
            d = d + 1;
        }
        Some(current)
    }

    /// The value of `name` in the environment exactly `distance` hops up the
    /// chain from `env`, if that environment binds it. The chain must be at
    /// least that long (`ancestor_of` tells).
    pub fn get_at(&self, env: usize, distance: usize, name: &str) -> (r: Option<&V>)
        requires
            ancestor(self@, env, distance as nat) is Some,
        ensures
            match r {
                Some(v) => value_at(self@, env, distance as nat, name@) == Some(*v),
                None => value_at(self@, env, distance as nat, name@) is None,
            },
    {
        proof { lemma_ancestor_in_store(self@, env, distance as nat); }
        match self.ancestor_of(env, distance) {
            None => None,
            Some(a) => {
                assert(self@[a as int] == frame_view(self.frames@[a as int]));
                let frame = &self.frames[a];
                match find_binding(&frame.vars, name) {
                    Some(i) => Some(&frame.vars[i].1),
                    None => None,
                }
            },
        }
    }

    /// Assigns `value` to `name` in the environment exactly `distance` hops up
    /// the chain from `env`; `true` if that environment binds `name`, else
    /// `false` with nothing changed. The chain must be at least that long
    /// (`ancestor_of` tells).
    pub fn assign_at(&mut self, env: usize, distance: usize, name: &str, value: V) -> (r: bool)
        requires
            ancestor(old(self)@, env, distance as nat) is Some,
        ensures
            r == (value_at(old(self)@, env, distance as nat, name@) is Some),
            r ==> final(self)@ == bound_in(old(self)@, ancestor(old(self)@, env, distance as nat)->0, name@, value),
            !r ==> final(self)@ == old(self)@,
    {
        proof { lemma_ancestor_in_store(self@, env, distance as nat); }
        match self.ancestor_of(env, distance) {
            None => false,
            Some(a) => {
                assert(self@[a as int] == frame_view(self.frames@[a as int]));
                match find_binding(&self.frames[a].vars, name) {
                    Some(_) => {
                        self.define(a, name, value);
                        true
                    },
                    None => false,
                }
            },
        }
    }
}

} // verus!
