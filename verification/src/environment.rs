use vstd::prelude::*;

use crate::interpreter::{Object, Val};
use crate::token::Token;

verus! {

// The scope chain is a parent-pointer tree ("cactus stack") held in an arena
// and addressed by integer ids. Every node's parent stands earlier in the
// arena, so a lookup that walks parent pointers visibly terminates, and block
// entry and exit are a push and a pop at the arena's end.

#[derive(Clone, PartialEq, Debug)]
pub struct EnvironmentError {
    pub kind: ErrorKind,
}

impl EnvironmentError {
    pub fn new(kind: ErrorKind) -> (e: EnvironmentError)
        ensures
            e.kind == kind,
    {
        EnvironmentError { kind }
    }
}

#[derive(Clone, PartialEq, Debug)]
pub enum ErrorKind {
    UndefinedVariable(Token, String),
}

pub fn env_error(token: &Token, context: &str) -> (e: EnvironmentError)
    ensures
        e.kind matches ErrorKind::UndefinedVariable(t, c) && t == *token && c@ == context@,
{
    EnvironmentError { kind: ErrorKind::UndefinedVariable(token.duplicate(), context.to_owned()) }
}

/// One scope: a mapping from names to values, kept as an association list
/// with pairwise distinct keys.
#[derive(Debug)]
pub struct Environment {
    values: Vec<(String, Object)>,
}

/// The mapping an association list denotes; a later entry would win, though
/// `Environment` never holds a key twice.
pub open spec fn assoc_map(s: Seq<(String, Object)>) -> Map<Seq<char>, Val>
    decreases s.len(),
{
    if s.len() == 0 {
        Map::empty()
    } else {
        assoc_map(s.drop_last()).insert(s.last().0@, s.last().1@)
    }
}

pub open spec fn keys_unique(s: Seq<(String, Object)>) -> bool {
    forall|i: int, j: int| 0 <= i < j < s.len() ==> s[i].0@ != s[j].0@
}

proof fn lemma_keys_unique_prefix(s: Seq<(String, Object)>)
    requires
        keys_unique(s),
        s.len() > 0,
    ensures
        keys_unique(s.drop_last()),
{
    assert forall|i: int, j: int| 0 <= i < j < s.drop_last().len() implies s.drop_last()[i].0@
        != s.drop_last()[j].0@ by {
        assert(s[i].0@ != s[j].0@);
    }
}

proof fn lemma_assoc_found(s: Seq<(String, Object)>, i: int)
    requires
        keys_unique(s),
        0 <= i < s.len(),
    ensures
        assoc_map(s).contains_key(s[i].0@),
        assoc_map(s)[s[i].0@] == s[i].1@,
    decreases s.len(),
{
    if i < s.len() - 1 {
        lemma_keys_unique_prefix(s);
        lemma_assoc_found(s.drop_last(), i);
        assert(s[s.len() - 1].0@ != s[i].0@);
    }
}

proof fn lemma_assoc_absent(s: Seq<(String, Object)>, k: Seq<char>)
    requires
        forall|i: int| 0 <= i < s.len() ==> s[i].0@ != k,
    ensures
        !assoc_map(s).contains_key(k),
    decreases s.len(),
{
    if s.len() > 0 {
        lemma_assoc_absent(s.drop_last(), k);
    }
}

proof fn lemma_assoc_no_key(s: Seq<(String, Object)>, k: Seq<char>)
    requires
        !assoc_map(s).contains_key(k),
    ensures
        forall|i: int| 0 <= i < s.len() ==> s[i].0@ != k,
    decreases s.len(),
{
    if s.len() > 0 {
        assert(assoc_map(s).contains_key(s.last().0@));
        lemma_assoc_no_key(s.drop_last(), k);
        assert forall|i: int| 0 <= i < s.len() implies s[i].0@ != k by {
            if i < s.len() - 1 {
                assert(s.drop_last()[i] == s[i]);
            }
        }
    }
}

proof fn lemma_assoc_update(s: Seq<(String, Object)>, i: int, obj: Object)
    requires
        keys_unique(s),
        0 <= i < s.len(),
    ensures
        assoc_map(s.update(i, (s[i].0, obj))) =~= assoc_map(s).insert(s[i].0@, obj@),
        keys_unique(s.update(i, (s[i].0, obj))),
    decreases s.len(),
{
    let t = s.update(i, (s[i].0, obj));
    assert forall|a: int, b: int| 0 <= a < b < t.len() implies t[a].0@ != t[b].0@ by {
        assert(s[a].0@ != s[b].0@);
    }
    if i == s.len() - 1 {
        assert(t.drop_last() =~= s.drop_last());
        assert(assoc_map(s).insert(s[i].0@, obj@) =~= assoc_map(s.drop_last()).insert(
            s[i].0@,
            obj@,
        ));
    } else {
        lemma_keys_unique_prefix(s);
        lemma_assoc_update(s.drop_last(), i, obj);
        assert(t.drop_last() =~= s.drop_last().update(i, (s[i].0, obj)));
        assert(s.last().0@ != s[i].0@);
        assert(assoc_map(t) =~= assoc_map(s).insert(s[i].0@, obj@));
    }
}

impl View for Environment {
    type V = Map<Seq<char>, Val>;

    closed spec fn view(&self) -> Map<Seq<char>, Val> {
        assoc_map(self.values@)
    }
}

impl Environment {
    pub closed spec fn wf(&self) -> bool {
        keys_unique(self.values@)
    }

    pub fn new() -> (e: Environment)
        ensures
            e@ =~= Map::<Seq<char>, Val>::empty(),
            e.wf(),
    {
        Environment { values: Vec::new() }
    }

    /// Overwrites the first entry holding `name`, if any; reports whether one
    /// was found.
    fn assign_binding(&mut self, name: &str, obj: Object) -> (r: bool)
        requires
            old(self).wf(),
        ensures
            final(self).wf(),
            old(self)@.contains_key(name@) ==> r && final(self)@ =~= old(self)@.insert(name@, obj@),
            !old(self)@.contains_key(name@) ==> !r && *final(self) == *old(self),
    {
        let key: String = name.to_owned();
        let n = self.values.len();
        let mut i: usize = 0;
        while i < n
            invariant
                *self == *old(self),
                self.wf(),
                n == self.values@.len(),
                key@ == name@,
                0 <= i <= n,
                forall|j: int| 0 <= j < i ==> self.values@[j].0@ != name@,
            decreases n - i,
        {
            if self.values[i].0 == key {
                proof {
                    lemma_assoc_found(self.values@, i as int);
                    lemma_assoc_update(self.values@, i as int, obj);
                }
                let entry = &mut self.values[i];
                entry.1 = obj;
                return true;
            }
            i += 1;
        }
        proof {
            lemma_assoc_absent(self.values@, name@);
        }
        false
    }

    /// Inserts or overwrites `name` in this scope.
    fn set_binding(&mut self, name: &str, obj: Object)
        requires
            old(self).wf(),
        ensures
            final(self).wf(),
            final(self)@ =~= old(self)@.insert(name@, obj@),
    {
        let found = self.assign_binding(name, obj.duplicate());
        if !found {
            proof {
                lemma_assoc_no_key(self.values@, name@);
            }
            let ghost prev = self.values@;
            self.values.push((name.to_owned(), obj));
            proof {
                assert(self.values@.drop_last() =~= prev);
                assert(self.values@.last().0@ == name@);
                assert forall|a: int, b: int|
                    0 <= a < b < self.values@.len() implies self.values@[a].0@
                    != self.values@[b].0@ by {
                    if b < self.values@.len() - 1 {
                        assert(prev[a] == self.values@[a]);
                        assert(prev[b] == self.values@[b]);
                    } else {
                        assert(prev[a] == self.values@[a]);
                    }
                }
            }
        }
    }

    /// The value bound to `name` in this scope alone.
    fn get_binding(&self, name: &str) -> (r: Option<&Object>)
        requires
            self.wf(),
        ensures
            match r {
                Some(o) => self@.contains_key(name@) && o@ == self@[name@],
                None => !self@.contains_key(name@),
            },
    {
        let key: String = name.to_owned();
        let n = self.values.len();
        let mut i: usize = 0;
        while i < n
            invariant
                self.wf(),
                n == self.values@.len(),
                key@ == name@,
                0 <= i <= n,
                forall|j: int| 0 <= j < i ==> self.values@[j].0@ != name@,
            decreases n - i,
        {
            if self.values[i].0 == key {
                proof {
                    lemma_assoc_found(self.values@, i as int);
                }
                return Some(&self.values[i].1);
            }
            i += 1;
        }
        proof {
            lemma_assoc_absent(self.values@, name@);
        }
        None
    }
}

impl Default for Environment {
    fn default() -> (e: Environment)
        ensures
            e@ =~= Map::<Seq<char>, Val>::empty(),
            e.wf(),
    {
        Environment::new()
    }
}

/// One arena node: a value and the id of its parent, if any.
#[derive(Debug)]
pub struct Node<T> {
    pub idx: usize,
    pub val: T,
    pub parent: Option<usize>,
}

/// An ordered store of nodes addressed by ids that stay stable under append.
#[derive(Debug)]
pub struct Arena<T> {
    arena: Vec<Node<T>>,
}

impl<T> View for Arena<T> {
    type V = Seq<Node<T>>;

    closed spec fn view(&self) -> Seq<Node<T>> {
        self.arena@
    }
}

impl<T> Arena<T> {
    pub fn new() -> (a: Arena<T>)
        ensures
            a@ =~= Seq::<Node<T>>::empty(),
    {
        Arena { arena: Vec::new() }
    }

    pub fn get(&self, id: usize) -> (r: Option<&Node<T>>)
        ensures
            match r {
                Some(n) => id < self@.len() && *n == self@[id as int],
                None => id >= self@.len(),
            },
    {
        if id < self.arena.len() {
            Some(&self.arena[id])
        } else {
            None
        }
    }

    /// Removes the most recently pushed node; does nothing on an empty arena.
    pub fn pop(&mut self)
        ensures
            old(self)@.len() > 0 ==> final(self)@ =~= old(self)@.drop_last(),
            old(self)@.len() == 0 ==> final(self)@ =~= old(self)@,
    {
        self.arena.pop();
    }

    /// Removes the node at `id`, shifting the ids of all later nodes down.
    pub fn remove(&mut self, id: usize)
        requires
            id < old(self)@.len(),
        ensures
            final(self)@ =~= old(self)@.remove(id as int),
    {
        self.arena.remove(id);
    }

    /// Appends a fresh parentless node and returns its id.
    pub fn push(&mut self, val: T) -> (id: usize)
        ensures
            id == old(self)@.len(),
            final(self)@ =~= old(self)@.push(Node { idx: id, val, parent: None }),
    {
        let idx = self.arena.len();
        self.push_node(Node { idx, val, parent: None });
        idx
    }

    fn push_node(&mut self, node: Node<T>)
        ensures
            final(self)@ =~= old(self)@.push(node),
    {
        self.arena.push(node)
    }

    /// A mutable loan of the node at `id`.
    pub fn get_mut(&mut self, id: usize) -> (r: Option<&mut Node<T>>)
        ensures
            match r {
                Some(n) => id < old(self)@.len() && *n == old(self)@[id as int]
                    && final(self)@ =~= old(self)@.update(id as int, *final(n)),
                None => id >= old(self)@.len() && final(self)@ =~= old(self)@,
            },
    {
        if id < self.arena.len() {
            Some(&mut self.arena[id])
        } else {
            None
        }
    }

    /// Points the node at `id` to a new parent.
    pub fn set_parent(&mut self, id: usize, parent: Option<usize>)
        requires
            id < old(self)@.len(),
        ensures
            final(self)@ =~= old(self)@.update(
                id as int,
                Node { parent, ..old(self)@[id as int] },
            ),
    {
        let node = &mut self.arena[id];
        node.parent = parent;
    }
}

impl<T> Default for Arena<T> {
    fn default() -> (a: Arena<T>)
        ensures
            a@ =~= Seq::<Node<T>>::empty(),
    {
        Arena::new()
    }
}

impl Node<Environment> {
    /// Inserts or overwrites `name` in this node's scope.
    pub fn define(&mut self, name: &str, obj: Object)
        requires
            old(self).val.wf(),
        ensures
            final(self).val.wf(),
            final(self).val@ =~= old(self).val@.insert(name@, obj@),
            final(self).idx == old(self).idx,
            final(self).parent == old(self).parent,
    {
        self.val.set_binding(name, obj);
    }
}

/// What one scope looks like to a contract: its mapping and its parent id.
pub struct ScopeView {
    pub bindings: Map<Seq<char>, Val>,
    pub parent: Option<usize>,
}

/// The value `name` denotes at scope `id`: the nearest binding on the parent
/// chain, searching the scope itself first.
pub open spec fn lookup(scopes: Seq<ScopeView>, id: int, name: Seq<char>) -> Option<Val>
    decreases id,
{
    if id < 0 || id >= scopes.len() {
        None
    } else if scopes[id].bindings.contains_key(name) {
        Some(scopes[id].bindings[name])
    } else {
        match scopes[id].parent {
            Some(p) => if (p as int) < id {
                lookup(scopes, p as int, name)
            } else {
                None
            },
            None => None,
        }
    }
}

/// The scope on the parent chain from `id` that holds the nearest binding of
/// `name`, if any.
pub open spec fn defining_scope(scopes: Seq<ScopeView>, id: int, name: Seq<char>) -> Option<int>
    decreases id,
{
    if id < 0 || id >= scopes.len() {
        None
    } else if scopes[id].bindings.contains_key(name) {
        Some(id)
    } else {
        match scopes[id].parent {
            Some(p) => if (p as int) < id {
                defining_scope(scopes, p as int, name)
            } else {
                None
            },
            None => None,
        }
    }
}

/// A found defining scope is an extant one.
pub proof fn lemma_defining_scope_in_range(scopes: Seq<ScopeView>, id: int, name: Seq<char>)
    ensures
        defining_scope(scopes, id, name) matches Some(d) ==> 0 <= d < scopes.len(),
    decreases id,
{
    if 0 <= id < scopes.len() && !scopes[id].bindings.contains_key(name) {
        match scopes[id].parent {
            Some(p) => {
                if (p as int) < id {
                    lemma_defining_scope_in_range(scopes, p as int, name);
                }
            },
            None => {},
        }
    }
}

/// The scope chain: an arena of scopes and the id of the root.
#[derive(Debug)]
pub struct Cactus {
    pub arena: Arena<Environment>,
    pub cur_env: usize,
}

impl View for Cactus {
    type V = Seq<ScopeView>;

    open spec fn view(&self) -> Seq<ScopeView> {
        self.arena@.map(|i: int, n: Node<Environment>| ScopeView { bindings: n.val@, parent: n.parent })
    }
}

impl Cactus {
    /// Every parent id points at an earlier, extant node, and every scope's
    /// association list is duplicate-free.
    pub open spec fn wf(&self) -> bool {
        &&& self@.len() >= 1
        &&& forall|i: int|
            0 <= i < self@.len() ==> (#[trigger] self@[i].parent matches Some(p) ==> (p as int)
                < i)
        &&& forall|i: int| 0 <= i < self@.len() ==> (#[trigger] self.arena@[i].val).wf()
    }

    pub fn new() -> (c: Cactus)
        ensures
            c.wf(),
            c@.len() == 1,
            c@[0].bindings =~= Map::<Seq<char>, Val>::empty(),
            c@[0].parent is None,
            c.cur_env == 0,
    {
        let mut arena = Arena::new();
        let cur_env = arena.push(Environment::new());
        Cactus { arena, cur_env }
    }

    /// Inserts or overwrites `name` in the scope `cur_env` itself.
    pub fn define(&mut self, name: &str, obj: Object, cur_env: usize)
        requires
            old(self).wf(),
            cur_env < old(self)@.len(),
        ensures
            final(self).wf(),
            final(self)@ =~= old(self)@.update(
                cur_env as int,
                ScopeView {
                    bindings: old(self)@[cur_env as int].bindings.insert(name@, obj@),
                    parent: old(self)@[cur_env as int].parent,
                },
            ),
            final(self).cur_env == old(self).cur_env,
    {
        let node = &mut self.arena.arena[cur_env];
        node.define(name, obj);
        proof {
            let target = old(self)@.update(
                cur_env as int,
                ScopeView {
                    bindings: old(self)@[cur_env as int].bindings.insert(name@, obj@),
                    parent: old(self)@[cur_env as int].parent,
                },
            );
            assert forall|i: int| 0 <= i < self@.len() implies self@[i] == target[i] by {
                if i != cur_env {
                    assert(self.arena@[i] == old(self).arena@[i]);
                }
            }
            assert(self@ =~= target);
            assert forall|i: int| 0 <= i < self@.len() implies (#[trigger] self.arena@[i].val).wf() by {
                if i != cur_env {
                    assert(self.arena@[i] == old(self).arena@[i]);
                    assert(old(self).arena@[i].val.wf());
                }
            }
        }
    }

    /// The value of `name` at scope `cur_env`, walking enclosing scopes.
    pub fn get(&self, name: &Token, cur_env: usize) -> (r: Result<&Object, EnvironmentError>)
        requires
            self.wf(),
            cur_env < self@.len(),
        ensures
            match r {
                Ok(o) => lookup(self@, cur_env as int, name.lexeme@) == Some(o@),
                Err(e) => lookup(self@, cur_env as int, name.lexeme@) is None && (e.kind
                    matches ErrorKind::UndefinedVariable(t, _) && t == *name),
            },
        decreases cur_env,
    {
        let env = match self.arena.get(cur_env) {
            Some(n) => n,
            None => {
                return Err(env_error(name, "while reading a variable"));
            },
        };
        if let Some(obj) = env.val.get_binding(name.lexeme.as_str()) {
            Ok(obj)
        } else if let Some(p) = env.parent {
            self.get(name, p)
        } else {
            Err(env_error(name, "while reading a variable"))
        }
    }

    /// Overwrites the nearest enclosing binding of `name` from `cur_env`.
    pub fn assign(&mut self, name: &Token, obj: Object, cur_env: usize) -> (r: Result<
        (),
        EnvironmentError,
    >)
        requires
            old(self).wf(),
            cur_env < old(self)@.len(),
        ensures
            final(self).wf(),
            final(self)@.len() == old(self)@.len(),
            final(self).cur_env == old(self).cur_env,
            match r {
                Ok(_) => defining_scope(old(self)@, cur_env as int, name.lexeme@) matches Some(d)
                    && final(self)@ =~= old(self)@.update(
                    d,
                    ScopeView {
                        bindings: old(self)@[d].bindings.insert(name.lexeme@, obj@),
                        parent: old(self)@[d].parent,
                    },
                ),
                Err(e) => defining_scope(old(self)@, cur_env as int, name.lexeme@) is None
                    && final(self)@ =~= old(self)@ && (e.kind
                    matches ErrorKind::UndefinedVariable(t, _) && t == *name),
            },
        decreases cur_env,
    {
        let node = &mut self.arena.arena[cur_env];
        let found = node.val.assign_binding(name.lexeme.as_str(), obj.duplicate());
        let parent = node.parent;
        proof {
            assert forall|i: int| 0 <= i < self@.len() implies (#[trigger] self.arena@[i].val).wf() by {
                if i != cur_env {
                    assert(self.arena@[i] == old(self).arena@[i]);
                    assert(old(self).arena@[i].val.wf());
                }
            }
            assert forall|i: int|
                0 <= i < self@.len() && i != cur_env implies self@[i] == old(self)@[i] by {
                assert(self.arena@[i] == old(self).arena@[i]);
            }
        }
        if found {
            proof {
                let d = cur_env as int;
                assert(old(self)@[d].bindings.contains_key(name.lexeme@));
                let target = old(self)@.update(
                    d,
                    ScopeView {
                        bindings: old(self)@[d].bindings.insert(name.lexeme@, obj@),
                        parent: old(self)@[d].parent,
                    },
                );
                assert forall|i: int| 0 <= i < self@.len() implies self@[i] == target[i] by {}
                assert(self@ =~= target);
            }
            return Ok(());
        }
        proof {
            assert(!old(self)@[cur_env as int].bindings.contains_key(name.lexeme@));
            assert forall|i: int| 0 <= i < self@.len() implies self@[i] == old(self)@[i] by {}
            assert(self@ =~= old(self)@);
        }
        match parent {
            Some(p) => self.assign(name, obj, p),
            None => Err(env_error(name, "during assignment")),
        }
    }

    /// Appends a fresh empty scope whose parent is `parent` and returns its
    /// id.
    pub fn push_child(&mut self, parent: usize) -> (id: usize)
        requires
            old(self).wf(),
            parent < old(self)@.len(),
        ensures
            final(self).wf(),
            id == old(self)@.len(),
            final(self)@ =~= old(self)@.push(
                ScopeView { bindings: Map::<Seq<char>, Val>::empty(), parent: Some(parent) },
            ),
            final(self).cur_env == old(self).cur_env,
    {
        let id = self.arena.push(Environment::new());
        self.arena.set_parent(id, Some(parent));
        proof {
            let target = old(self)@.push(
                ScopeView { bindings: Map::<Seq<char>, Val>::empty(), parent: Some(parent) },
            );
            assert forall|i: int| 0 <= i < self@.len() implies self@[i] == target[i] by {
                if i < id {
                    assert(self.arena@[i] == old(self).arena@[i]);
                }
            }
            assert(self@ =~= target);
            assert forall|i: int| 0 <= i < self@.len() implies (#[trigger] self.arena@[i].val).wf() by {
                if i < id {
                    assert(self.arena@[i] == old(self).arena@[i]);
                    assert(old(self).arena@[i].val.wf());
                }
            }
        }
        id
    }

    /// Removes the most recently pushed scope.
    pub fn pop(&mut self)
        requires
            old(self).wf(),
            old(self)@.len() > 1,
        ensures
            final(self).wf(),
            final(self)@ =~= old(self)@.drop_last(),
            final(self).cur_env == old(self).cur_env,
    {
        self.arena.pop();
        proof {
            assert forall|i: int| 0 <= i < self@.len() implies self@[i] == old(self)@.drop_last()[i] by {
                assert(self.arena@[i] == old(self).arena@[i]);
            }
            assert(self@ =~= old(self)@.drop_last());
            assert forall|i: int| 0 <= i < self@.len() implies (#[trigger] self.arena@[i].val).wf() by {
                assert(self.arena@[i] == old(self).arena@[i]);
                assert(old(self).arena@[i].val.wf());
            }
        }
    }
}

// The shadowing law of the scope chain. Inside a block that declares `name`,
// a read of `name` sees the block's own value; once the block's scope is
// popped, a read at the enclosing scope sees exactly what the enclosing
// chain held before.
pub proof fn lemma_lexical_shadowing(
    outer: Seq<ScopeView>,
    inner: Map<Seq<char>, Val>,
    name: Seq<char>,
)
    requires
        outer.len() >= 1,
        inner.contains_key(name),
    ensures
        lookup(
            outer.push(ScopeView { bindings: inner, parent: Some((outer.len() - 1) as usize) }),
            outer.len() as int,
            name,
        ) == Some(inner[name]),
        outer.push(
            ScopeView { bindings: inner, parent: Some((outer.len() - 1) as usize) },
        ).drop_last() =~= outer,
{
    let child = outer.push(
        ScopeView { bindings: inner, parent: Some((outer.len() - 1) as usize) },
    );
    assert(child[outer.len() as int].bindings.contains_key(name));
}

} // verus!
