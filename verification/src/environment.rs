//! Environments: the scopes in which names are bound at run time.

use vstd::prelude::*;
use vstd::string::StringExecFns;
use crate::error::{Error, ErrorView};
use crate::object::{Object, ObjectView};
use crate::token::Token;

verus! {

/// A reference to an environment of a [`Store`].
///
/// Closures and the running evaluator hold such references side by side:
/// what is written through one of them is seen through all of them.
#[derive(Debug, Clone, Copy, PartialEq, Eq, Structural)]
pub struct Environment {
    pub index: usize,
}

/// A name bound to a value.
#[derive(Debug)]
pub struct Binding {
    pub name: String,
    pub value: Object,
}

/// The contents of one environment: its own bindings, the environment
/// that encloses it, and whether a function has been declared in it. Such
/// a function holds on to the environment for as long as it lives.
#[derive(Debug)]
pub struct Frame {
    pub enclosing: Option<usize>,
    pub bindings: Vec<Binding>,
    pub captured: bool,
}

/// The memory in which all environments of one interpreter live.
#[derive(Debug)]
pub struct Store {
    pub frames: Vec<Frame>,
}

/// The mathematical value of a [`Frame`]: a map from names to values, the
/// enclosing environment, and whether a function holds on to it.
pub struct FrameView {
    pub enclosing: Option<usize>,
    pub values: Map<Seq<char>, ObjectView>,
    pub captured: bool,
}

/// The map that a list of bindings stands for: a later binding of a name
/// hides an earlier one.
pub open spec fn binding_map(bs: Seq<Binding>) -> Map<Seq<char>, ObjectView>
    decreases bs.len(),
{
    if bs.len() == 0 {
        Map::empty()
    } else {
        binding_map(bs.drop_last()).insert(bs.last().name@, bs.last().value@)
    }
}

impl View for Frame {
    type V = FrameView;

    open spec fn view(&self) -> FrameView {
        FrameView {
            enclosing: self.enclosing,
            values: binding_map(self.bindings@),
            captured: self.captured,
        }
    }
}

impl View for Store {
    type V = Seq<FrameView>;

    open spec fn view(&self) -> Seq<FrameView> {
        Seq::new(self.frames@.len(), |i: int| self.frames@[i]@)
    }
}

/// The environment that encloses `env`, if there is one. An environment is
/// always enclosed by an older one.
pub open spec fn parent(store: Seq<FrameView>, env: usize) -> Option<usize> {
    if env < store.len() {
        match store[env as int].enclosing {
            Some(p) => if p < env {
                Some(p)
            } else {
                None
            },
            None => None,
        }
    } else {
        None
    }
}

/// The environment exactly `distance` steps outward from `env`.
pub open spec fn ancestor(store: Seq<FrameView>, env: usize, distance: nat) -> Option<usize>
    decreases distance,
{
    if distance == 0 {
        Some(env)
    } else {
        match parent(store, env) {
            Some(p) => ancestor(store, p, (distance - 1) as nat),
            None => None,
        }
    }
}

/// The value that `env` itself binds `name` to.
pub open spec fn own(store: Seq<FrameView>, env: usize, name: Seq<char>) -> Option<ObjectView> {
    if env < store.len() && store[env as int].values.contains_key(name) {
        Some(store[env as int].values[name])
    } else {
        None
    }
}

/// The nearest environment, from `env` outward, that binds `name`.
pub open spec fn holder(store: Seq<FrameView>, env: usize, name: Seq<char>) -> Option<usize>
    decreases env,
{
    if own(store, env, name) is Some {
        Some(env)
    } else {
        match parent(store, env) {
            Some(p) => holder(store, p, name),
            None => None,
        }
    }
}

/// The value of `name` as seen from `env`: its own binding, or else that of
/// the nearest enclosing environment that has one.
pub open spec fn lookup(store: Seq<FrameView>, env: usize, name: Seq<char>) -> Option<ObjectView> {
    match holder(store, env, name) {
        Some(h) => own(store, h, name),
        None => None,
    }
}

/// The store after `env` binds `name` to `value`.
pub open spec fn bound(store: Seq<FrameView>, env: usize, name: Seq<char>, value: ObjectView) -> Seq<
    FrameView,
> {
    if env < store.len() {
        store.update(
            env as int,
            FrameView { values: store[env as int].values.insert(name, value), ..store[env as int] },
        )
    } else {
        store
    }
}

/// The store after a function has been declared in `env`.
pub open spec fn marked(store: Seq<FrameView>, env: usize) -> Seq<FrameView> {
    if env < store.len() {
        store.update(env as int, FrameView { captured: true, ..store[env as int] })
    } else {
        store
    }
}

/// The store after `env` has been left for the older environment `saved`:
/// the environment that is left is destroyed if it is the youngest of all
/// and no function holds on to it.
pub open spec fn released(store: Seq<FrameView>, env: usize, saved: usize) -> Seq<FrameView> {
    if env + 1 == store.len() && saved < env && !store[env as int].captured {
        store.drop_last()
    } else {
        store
    }
}

/// The value read `distance` steps outward from `env`, in that
/// environment's own bindings.
pub open spec fn value_at(store: Seq<FrameView>, env: usize, distance: nat, name: Seq<char>) -> Option<
    ObjectView,
> {
    match ancestor(store, env, distance) {
        Some(a) => own(store, a, name),
        None => None,
    }
}

/// The error for a name that no environment binds.
pub open spec fn undefined_variable(name: crate::token::TokenView) -> ErrorView {
    ErrorView::RuntimeError(name, "Undefined variable '"@ + name.lexeme + "'."@)
}

proof fn lemma_absent(bs: Seq<Binding>, name: Seq<char>)
    requires
        forall|j: int| 0 <= j < bs.len() ==> bs[j].name@ != name,
    ensures
        !binding_map(bs).contains_key(name),
    decreases bs.len(),
{
    if bs.len() > 0 {
        lemma_absent(bs.drop_last(), name);
    }
}

proof fn lemma_last(bs: Seq<Binding>, i: int, name: Seq<char>)
    requires
        0 <= i < bs.len(),
        bs[i].name@ == name,
        forall|j: int| i < j < bs.len() ==> bs[j].name@ != name,
    ensures
        binding_map(bs).contains_key(name),
        binding_map(bs)[name] == bs[i].value@,
    decreases bs.len(),
{
    if i < bs.len() - 1 {
        lemma_last(bs.drop_last(), i, name);
    }
}

proof fn lemma_update(bs: Seq<Binding>, i: int, b: Binding)
    requires
        0 <= i < bs.len(),
        bs[i].name@ == b.name@,
        forall|j: int| i < j < bs.len() ==> bs[j].name@ != b.name@,
    ensures
        binding_map(bs.update(i, b)) == binding_map(bs).insert(b.name@, b.value@),
    decreases bs.len(),
{
    let after = bs.update(i, b);
    if i == bs.len() - 1 {
        assert(after.drop_last() =~= bs.drop_last());
        assert(binding_map(after) =~= binding_map(bs).insert(b.name@, b.value@));
    } else {
        lemma_update(bs.drop_last(), i, b);
        assert(after.drop_last() =~= bs.drop_last().update(i, b));
        assert(binding_map(after) =~= binding_map(bs).insert(b.name@, b.value@));
    }
}

/// The last binding of `name` in a list.
fn find_last(bindings: &Vec<Binding>, name: &String) -> (r: Option<usize>)
    ensures
        match r {
            Some(i) => i < bindings@.len() && binding_map(bindings@).contains_key(name@)
                && binding_map(bindings@)[name@] == bindings@[i as int].value@
                && bindings@[i as int].name@ == name@ && forall|j: int|
                i < j < bindings@.len() ==> bindings@[j].name@ != name@,
            None => !binding_map(bindings@).contains_key(name@),
        },
{
    let mut i: usize = bindings.len();
    while i > 0
        invariant
            i <= bindings@.len(),
            forall|j: int| i <= j < bindings@.len() ==> bindings@[j].name@ != name@,
        decreases i,
    {
        i -= 1;
        if bindings[i].name == *name {
            proof {
                lemma_last(bindings@, i as int, name@);
            }
            return Some(i);
        }
    }
    proof {
        lemma_absent(bindings@, name@);
    }
    None
}

impl Store {
    /// A store without environments.
    pub fn new() -> (r: Store)
        ensures
            r@ == Seq::<FrameView>::empty(),
    {
        let r = Store { frames: Vec::new() };
        assert(r@ =~= Seq::<FrameView>::empty());
        r
    }

    /// The environment that encloses `env`.
    pub fn parent_of(&self, env: usize) -> (r: Option<usize>)
        ensures
            r == parent(self@, env),
    {
        if env < self.frames.len() {
            match self.frames[env].enclosing {
                Some(p) => if p < env {
                    Some(p)
                } else {
                    None
                },
                None => None,
            }
        } else {
            None
        }
    }

    /// The environment exactly `distance` steps outward from `env`.
    pub fn ancestor_of(&self, env: usize, distance: usize) -> (r: Option<usize>)
        ensures
            r == ancestor(self@, env, distance as nat),
    {
        let mut cur = env;
        let mut left = distance;
        while left > 0
            invariant
                ancestor(self@, cur, left as nat) == ancestor(self@, env, distance as nat),
            decreases left,
        {
            match self.parent_of(cur) {
                Some(p) => {
                    cur = p;
                    left -= 1;
                },
                None => {
                    return None;
                },
            }
        }
        Some(cur)
    }

    /// The value that `env` itself binds `name` to.
    pub fn own_value(&self, env: usize, name: &String) -> (r: Option<Object>)
        ensures
            match own(self@, env, name@) {
                Some(v) => r matches Some(o) && o@ == v,
                None => r is None,
            },
    {
        if env < self.frames.len() {
            match find_last(&self.frames[env].bindings, name) {
                Some(i) => Some(self.frames[env].bindings[i].value.clone()),
                None => None,
            }
        } else {
            None
        }
    }

    /// The nearest environment, from `env` outward, that binds `name`.
    pub fn holder_of(&self, env: usize, name: &String) -> (r: Option<usize>)
        ensures
            r == holder(self@, env, name@),
    {
        let mut cur = env;
        loop
            invariant
                holder(self@, cur, name@) == holder(self@, env, name@),
            decreases cur,
        {
            if cur < self.frames.len() {
                if find_last(&self.frames[cur].bindings, name).is_some() {
                    return Some(cur);
                }
            }
            match self.parent_of(cur) {
                Some(p) => {
                    cur = p;
                },
                None => {
                    return None;
                },
            }
        }
    }

    /// Notes that a function has been declared in `env`.
    pub fn mark(&mut self, env: usize)
        ensures
            final(self)@ == marked(old(self)@, env),
    {
        if env < self.frames.len() {
            self.frames[env].captured = true;
            assert(self@ =~= marked(old(self)@, env));
        }
    }

    /// Leaves `env` for the older environment `saved`, and destroys `env`
    /// if it is the youngest of all and no function holds on to it.
    pub fn release(&mut self, env: usize, saved: usize)
        ensures
            final(self)@ == released(old(self)@, env, saved),
    {
        let n = self.frames.len();
        if n > 0 && env == n - 1 && saved < env && !self.frames[env].captured {
            self.frames.pop();
            assert(self@ =~= old(self)@.drop_last());
        }
    }

    /// Binds `name` to `value` in `env`, over an earlier binding if there
    /// is one.
    pub fn bind(&mut self, env: usize, name: String, value: Object)
        ensures
            final(self)@ == bound(old(self)@, env, name@, value@),
    {
        if env < self.frames.len() {
            let ghost before = self.frames@[env as int].bindings@;
            let binding = Binding { name, value };
            match find_last(&self.frames[env].bindings, &binding.name) {
                Some(i) => {
                    proof {
                        lemma_update(before, i as int, binding);
                    }
                    self.frames[env].bindings.set(i, binding);
                },
                None => {
                    assert(before.push(binding).drop_last() =~= before);
                    self.frames[env].bindings.push(binding);
                },
            }
            assert(self@ =~= bound(old(self)@, env, name@, value@));
        }
    }
}

impl Environment {
    /// Makes an empty environment in the store, enclosed by `enclosing`.
    pub fn new(store: &mut Store, enclosing: Option<Environment>) -> (r: Environment)
        ensures
            r.index == old(store)@.len(),
            final(store)@ == old(store)@.push(
                FrameView {
                    enclosing: match enclosing {
                        Some(e) => Some(e.index),
                        None => None,
                    },
                    values: Map::empty(),
                    captured: false,
                },
            ),
    {
        let index = store.frames.len();
        let outer = match enclosing {
            Some(e) => Some(e.index),
            None => None,
        };
        store.frames.push(Frame { enclosing: outer, bindings: Vec::new(), captured: false });
        assert(store@ =~= old(store)@.push(
            FrameView { enclosing: outer, values: Map::empty(), captured: false },
        ));
        Environment { index }
    }

    /// Binds `name` to `value` in this environment, whether or not it was
    /// bound there before.
    pub fn define(&self, store: &mut Store, name: String, value: &Object)
        ensures
            final(store)@ == bound(old(store)@, self.index, name@, value@),
    {
        store.bind(self.index, name, value.clone());
    }

    /// Reads a variable: from this environment or from the nearest enclosing
    /// one that binds it.
    pub fn get(&self, store: &Store, name: &Token) -> (r: Result<Object, Error>)
        ensures
            match lookup(store@, self.index, name@.lexeme) {
                Some(v) => r matches Ok(o) && o@ == v,
                None => r matches Err(e) && e@ == undefined_variable(name@),
            },
    {
        match store.holder_of(self.index, &name.lexeme) {
            Some(h) => {
                match store.own_value(h, &name.lexeme) {
                    Some(o) => Ok(o),
                    None => Err(undefined(name)),
                }
            },
            None => Err(undefined(name)),
        }
    }

    /// Writes a variable that exists: in this environment or in the nearest
    /// enclosing one that binds it. Fails, and changes nothing, if none does.
    pub fn assign(&self, store: &mut Store, name: &Token, value: &Object) -> (r: Result<(), Error>)
        ensures
            match holder(old(store)@, self.index, name@.lexeme) {
                Some(h) => r is Ok && final(store)@ == bound(
                    old(store)@,
                    h,
                    name@.lexeme,
                    value@,
                ),
                None => r matches Err(e) && e@ == undefined_variable(name@) && final(store)@ == old(store)@,
            },
    {
        match store.holder_of(self.index, &name.lexeme) {
            Some(h) => {
                store.bind(h, name.lexeme.clone(), value.clone());
                Ok(())
            },
            None => Err(undefined(name)),
        }
    }

    /// Reads `name` from the bindings of the environment exactly `distance`
    /// steps outward; `None` if there is no such environment or it does not
    /// bind the name.
    pub fn get_at(&self, store: &Store, distance: usize, name: &String) -> (r: Option<Object>)
        ensures
            match value_at(store@, self.index, distance as nat, name@) {
                Some(v) => r matches Some(o) && o@ == v,
                None => r is None,
            },
    {
        match store.ancestor_of(self.index, distance) {
            Some(a) => store.own_value(a, name),
            None => None,
        }
    }

    /// Writes `name` in the environment exactly `distance` steps outward, if
    /// that environment binds it; otherwise changes nothing and returns
    /// `None`.
    pub fn assign_at(&self, store: &mut Store, distance: usize, name: &Token, value: &Object) -> (r:
        Option<()>)
        ensures
            match ancestor(old(store)@, self.index, distance as nat) {
                Some(a) => if own(old(store)@, a, name@.lexeme) is Some {
                    r is Some && final(store)@ == bound(old(store)@, a, name@.lexeme, value@)
                } else {
                    r is None && final(store)@ == old(store)@
                },
                None => r is None && final(store)@ == old(store)@,
            },
    {
        match store.ancestor_of(self.index, distance) {
            Some(a) => {
                if a < store.frames.len() && find_last(
                    &store.frames[a].bindings,
                    &name.lexeme,
                ).is_some() {
                    store.bind(a, name.lexeme.clone(), value.clone());
                    Some(())
                } else {
                    None
                }
            },
            None => None,
        }
    }
}

/// The error for reading or writing a variable that is not defined.
pub fn undefined(name: &Token) -> (r: Error)
    ensures
        r@ == undefined_variable(name@),
{
    let mut message = String::from_str("Undefined variable '");
    message.append(name.lexeme.as_str());
    message.append("'.");
    Error::RuntimeError(name.clone(), message)
}

} // verus!
