//! The environment of an evaluation: a stack of lexical scopes and the
//! identities of struct types.

use crate::expression::{ExprView, Expression};
use vstd::hash_map::StringHashMap;
use vstd::hash_set::StringHashSet;
use vstd::prelude::*;

verus! {

/// The id of a struct type.
pub type StructId = usize;

/// How deep evaluations may nest unless the limit is changed: as deep as
/// the machine's stack lets them.
pub const DEFAULT_DEPTH_LIMIT: usize = usize::MAX;

/// One scope: the bindings made in it and the struct types declared in it.
pub struct Scope {
    bindings: StringHashMap<Expression>,
    structs: StringHashMap<StructId>,
}

/// The view of a [`Scope`].
pub struct ScopeView {
    pub bindings: Map<Seq<char>, ExprView>,
    pub structs: Map<Seq<char>, StructId>,
}

/// The state that an evaluation reads and changes.
///
/// The scopes form a stack, innermost last. Struct-type ids come from one
/// counter for the whole context.
pub struct Context {
    scopes: Vec<Scope>,
    struct_count: usize,
    read_files: StringHashSet,
    depth_limit: usize,
}

/// The view of a [`Context`].
pub struct ContextView {
    /// The scopes, outermost first.
    pub scopes: Seq<ScopeView>,
    /// How many struct types have been declared.
    pub struct_count: usize,
    /// The names of the files that were read.
    pub files: Set<Seq<char>>,
    /// How deep evaluations may nest.
    pub depth_limit: usize,
}

impl ScopeView {
    /// The scope in which nothing is bound or declared.
    pub open spec fn empty() -> ScopeView {
        ScopeView { bindings: Map::empty(), structs: Map::empty() }
    }
}

impl ContextView {
    /// The number of scopes.
    pub open spec fn depth(self) -> nat {
        self.scopes.len()
    }

    /// The value that `key` is bound to: that of the innermost scope that
    /// binds it.
    pub open spec fn lookup(self, key: Seq<char>) -> Option<ExprView> {
        lookup_in(self.scopes, key)
    }

    /// The id that the struct name `name` has: that of the innermost scope
    /// that declares it.
    pub open spec fn struct_id(self, name: Seq<char>) -> Option<StructId> {
        struct_id_in(self.scopes, name)
    }

    /// The context with one more, empty, scope.
    pub open spec fn push(self) -> ContextView {
        ContextView { scopes: self.scopes.push(ScopeView::empty()), ..self }
    }

    /// The context without its innermost scope; itself where it has none.
    pub open spec fn pop(self) -> ContextView {
        if self.scopes.len() == 0 {
            self
        } else {
            ContextView { scopes: self.scopes.drop_last(), ..self }
        }
    }

    /// The context with `key` bound to `value` in the innermost scope;
    /// itself where it has no scope.
    pub open spec fn bind(self, key: Seq<char>, value: ExprView) -> ContextView {
        if self.scopes.len() == 0 {
            self
        } else {
            let top = self.scopes.last();
            ContextView {
                scopes: self.scopes.update(
                    self.scopes.len() - 1,
                    ScopeView { bindings: top.bindings.insert(key, value), ..top },
                ),
                ..self
            }
        }
    }

    /// The context without a binding of `key` in the innermost scope.
    pub open spec fn unbind(self, key: Seq<char>) -> ContextView {
        if self.scopes.len() == 0 {
            self
        } else {
            let top = self.scopes.last();
            ContextView {
                scopes: self.scopes.update(
                    self.scopes.len() - 1,
                    ScopeView { bindings: top.bindings.remove(key), ..top },
                ),
                ..self
            }
        }
    }

    /// Whether a struct type can be declared: there is a scope, and the
    /// counter of ids has not run out.
    pub open spec fn can_declare(self) -> bool {
        self.scopes.len() > 0 && self.struct_count < usize::MAX
    }

    /// The context after the struct type `name` was declared in the
    /// innermost scope, under the next id.
    pub open spec fn declare(self, name: Seq<char>) -> ContextView {
        let top = self.scopes.last();
        let id = (self.struct_count + 1) as usize;
        ContextView {
            scopes: self.scopes.update(
                self.scopes.len() - 1,
                ScopeView { structs: top.structs.insert(name, id), ..top },
            ),
            struct_count: id,
            ..self
        }
    }

    /// The index of the innermost scope that binds `key`.
    pub open spec fn holder(self, key: Seq<char>) -> Option<int> {
        holder_in(self.scopes, key)
    }

    /// The context with the value of `key` replaced in the innermost scope
    /// that binds it; itself where none does.
    pub open spec fn assign(self, key: Seq<char>, value: ExprView) -> ContextView {
        match self.holder(key) {
            Some(i) => {
                let s = self.scopes[i];
                ContextView {
                    scopes: self.scopes.update(
                        i,
                        ScopeView { bindings: s.bindings.insert(key, value), ..s },
                    ),
                    ..self
                }
            },
            None => self,
        }
    }
}

/// The binding of `key` in the innermost of `scopes` that has one.
pub open spec fn lookup_in(scopes: Seq<ScopeView>, key: Seq<char>) -> Option<ExprView>
    decreases scopes.len(),
{
    if scopes.len() == 0 {
        None
    } else if scopes.last().bindings.contains_key(key) {
        Some(scopes.last().bindings[key])
    } else {
        lookup_in(scopes.drop_last(), key)
    }
}

/// The index of the innermost of `scopes` that binds `key`.
pub open spec fn holder_in(scopes: Seq<ScopeView>, key: Seq<char>) -> Option<int>
    decreases scopes.len(),
{
    if scopes.len() == 0 {
        None
    } else if scopes.last().bindings.contains_key(key) {
        Some(scopes.len() - 1)
    } else {
        holder_in(scopes.drop_last(), key)
    }
}

/// The id of the struct name `name` in the innermost of `scopes` that
/// declares it.
pub open spec fn struct_id_in(scopes: Seq<ScopeView>, name: Seq<char>) -> Option<StructId>
    decreases scopes.len(),
{
    if scopes.len() == 0 {
        None
    } else if scopes.last().structs.contains_key(name) {
        Some(scopes.last().structs[name])
    } else {
        struct_id_in(scopes.drop_last(), name)
    }
}

/// The innermost scope that binds `key` is one of the scopes, it binds
/// `key`, and there is one exactly where `key` has a value.
pub proof fn lemma_holder_in_range(scopes: Seq<ScopeView>, key: Seq<char>)
    ensures
        holder_in(scopes, key) matches Some(i) ==> 0 <= i < scopes.len()
            && scopes[i].bindings.contains_key(key),
        holder_in(scopes, key) is Some <==> lookup_in(scopes, key) is Some,
    decreases scopes.len(),
{
    if scopes.len() > 0 && !scopes.last().bindings.contains_key(key) {
        lemma_holder_in_range(scopes.drop_last(), key);
    }
}

/// Entering a scope and leaving it again gives the context back.
pub proof fn law_push_pop(c: ContextView)
    ensures
        c.push().pop() == c,
{
    assert(c.push().pop().scopes =~= c.scopes);
}

/// Lexical scoping: a binding made in a scope that was entered is seen
/// while that scope lasts, whatever an outer scope binds the name to; and
/// once the scope is left the context is what it was, so every name has its
/// outer value again.
pub proof fn law_inner_binding_shadows_and_outer_returns(
    c: ContextView,
    key: Seq<char>,
    value: ExprView,
)
    ensures
        c.push().bind(key, value).lookup(key) == Some(value),
        c.push().bind(key, value).pop() == c,
        c.push().bind(key, value).pop().lookup(key) == c.lookup(key),
{
    let inner = c.push().bind(key, value);
    assert(inner.scopes.last().bindings.contains_key(key));
    assert(inner.pop().scopes =~= c.scopes);
}

/// A binding is found under its name as soon as it is made, and changes
/// what no other name is bound to.
pub proof fn law_bind_lookup(c: ContextView, key: Seq<char>, value: ExprView, other: Seq<char>)
    requires
        c.depth() > 0,
    ensures
        c.bind(key, value).lookup(key) == Some(value),
        other != key ==> c.bind(key, value).lookup(other) == c.lookup(other),
        c.bind(key, value).depth() == c.depth(),
{
    let b = c.bind(key, value);
    assert(b.scopes.last().bindings.contains_key(key));
    assert(b.scopes.drop_last() =~= c.scopes.drop_last());
}

/// Struct identity: each declaration gets an id that no earlier one got,
/// whatever the names are.
pub proof fn law_struct_ids_are_fresh(c: ContextView, first: Seq<char>, second: Seq<char>)
    requires
        c.can_declare(),
        c.declare(first).can_declare(),
    ensures
        c.declare(first).struct_count != c.declare(first).declare(second).struct_count,
        c.declare(first).struct_id(first) == Some(c.declare(first).struct_count),
        c.declare(first).declare(second).struct_id(second) == Some(
            c.declare(first).declare(second).struct_count,
        ),
{
    let c1 = c.declare(first);
    assert(c1.scopes.last().structs.contains_key(first));
    let c2 = c1.declare(second);
    assert(c2.scopes.last().structs.contains_key(second));
}

/// What symbols are looked up in.
pub trait Environment {
    /// The value that `key` is bound to.
    fn get(&self, key: &str) -> Option<&Expression>;
}

impl Environment for Context {
    /// The value bound to `key` in the innermost scope that binds it.
    fn get(&self, key: &str) -> (r: Option<&Expression>)
        ensures
            match r {
                Some(e) => self@.lookup(key@) == Some(e@),
                None => self@.lookup(key@) is None,
            },
    {
        Context::get(self, key)
    }
}

impl View for Scope {
    type V = ScopeView;

    closed spec fn view(&self) -> ScopeView {
        ScopeView {
            bindings: self.bindings@.map_values(|e: Expression| e@),
            structs: self.structs@,
        }
    }
}

impl View for Context {
    type V = ContextView;

    closed spec fn view(&self) -> ContextView {
        ContextView {
            scopes: self.scopes@.map_values(|s: Scope| s@),
            struct_count: self.struct_count,
            files: self.read_files@,
            depth_limit: self.depth_limit,
        }
    }
}

impl Scope {
    fn new() -> (s: Scope)
        ensures
            s@ == ScopeView::empty(),
    {
        let s = Scope { bindings: StringHashMap::new(), structs: StringHashMap::new() };
        assert(s@.bindings =~= Map::empty());
        s
    }
}

impl Context {
    /// A context with one empty scope, no struct type, no file read and the
    /// default depth limit.
    pub fn new() -> (ctx: Context)
        ensures
            ctx@ == (ContextView {
                scopes: seq![ScopeView::empty()],
                struct_count: 0,
                files: Set::empty(),
                depth_limit: DEFAULT_DEPTH_LIMIT,
            }),
    {
        let mut scopes: Vec<Scope> = Vec::new();
        scopes.push(Scope::new());
        let ctx = Context {
            scopes,
            struct_count: 0,
            read_files: StringHashSet::new(),
            depth_limit: DEFAULT_DEPTH_LIMIT,
        };
        assert(ctx@.scopes =~= seq![ScopeView::empty()]);
        ctx
    }

    /// How deep evaluations may nest.
    pub fn depth_limit(&self) -> (n: usize)
        ensures
            n == self@.depth_limit,
    {
        self.depth_limit
    }

    /// Sets how deep evaluations may nest.
    pub fn set_depth_limit(&mut self, limit: usize)
        ensures
            final(self)@ == (ContextView { depth_limit: limit, ..old(self)@ }),
    {
        self.depth_limit = limit;
    }

    /// How many struct types have been declared.
    pub fn struct_count(&self) -> (n: usize)
        ensures
            n == self@.struct_count,
    {
        self.struct_count
    }

    /// Brings the context back to `scopes` scopes, by leaving the innermost
    /// or entering empty ones, to a counter of struct types that is no less
    /// than `count`, and to the depth limit `limit`. A context that meets
    /// all three stays as it is.
    pub fn settle(&mut self, scopes: usize, count: usize, limit: usize)
        ensures
            final(self)@.depth() == scopes,
            final(self)@.struct_count >= count,
            final(self)@.struct_count >= old(self)@.struct_count,
            final(self)@.depth_limit == limit,
            final(self)@.files == old(self)@.files,
            old(self)@.depth() == scopes && old(self)@.struct_count >= count && old(self)@.depth_limit == limit ==> final(self)@ == old(self)@,
    {
        while self.scopes.len() > scopes
            invariant
                self@.struct_count == old(self)@.struct_count,
                self@.depth_limit == old(self)@.depth_limit,
                self@.files == old(self)@.files,
                old(self)@.depth() == scopes ==> self@ == old(self)@,
            decreases self.scopes@.len(),
        {
            let _ = self.scopes.pop();
        }
        while self.scopes.len() < scopes
            invariant
                self.scopes@.len() <= scopes,
                self@.struct_count == old(self)@.struct_count,
                self@.depth_limit == old(self)@.depth_limit,
                self@.files == old(self)@.files,
                old(self)@.depth() == scopes ==> self@ == old(self)@,
            decreases scopes - self.scopes@.len(),
        {
            self.scopes.push(Scope::new());
        }
        if self.struct_count < count {
            self.struct_count = count;
        }
        self.depth_limit = limit;
    }

    /// The number of scopes.
    pub fn depth(&self) -> (n: usize)
        ensures
            n == self@.depth(),
    {
        self.scopes.len()
    }

    /// The value bound to `key` in the innermost scope that binds it.
    pub fn get(&self, key: &str) -> (r: Option<&Expression>)
        ensures
            match r {
                Some(e) => self@.lookup(key@) == Some(e@),
                None => self@.lookup(key@) is None,
            },
    {
        let mut i = self.scopes.len();
        assert(self@.scopes.subrange(0, i as int) =~= self@.scopes);
        while i > 0
            invariant
                i <= self.scopes.len(),
                lookup_in(self@.scopes, key@) == lookup_in(self@.scopes.subrange(0, i as int), key@),
            decreases i,
        {
            let ghost cur = self@.scopes.subrange(0, i as int);
            i -= 1;
            assert(cur.drop_last() =~= self@.scopes.subrange(0, i as int));
            assert(cur.last() == self.scopes@[i as int]@);
            match self.scopes[i].bindings.get(key) {
                Some(e) => {
                    return Some(e);
                },
                None => {},
            }
        }
        assert(self@.scopes.subrange(0, 0) =~= Seq::empty());
        None
    }

    /// Binds `key` to `value` in the innermost scope, in place of what it
    /// was bound to there. Without a scope nothing is bound.
    pub fn insert(&mut self, key: &str, value: Expression)
        ensures
            final(self)@ == old(self)@.bind(key@, value@),
    {
        match self.scopes.pop() {
            Some(top) => {
                let mut top = top;
                let ghost before = top@;
                top.bindings.insert(String::from_str(key), value);
                assert(top@.bindings =~= before.bindings.insert(key@, value@));
                self.scopes.push(top);
                assert(self@.scopes =~= old(self)@.bind(key@, value@).scopes);
            },
            None => {},
        }
    }

    /// Replaces the value of `key` in the innermost scope that binds it, and
    /// tells whether there was one. Where none binds `key`, nothing changes.
    pub fn assign(&mut self, key: &str, value: Expression) -> (found: bool)
        ensures
            found == (old(self)@.lookup(key@) is Some),
            final(self)@ == old(self)@.assign(key@, value@),
    {
        let mut i = self.scopes.len();
        assert(self@.scopes.subrange(0, i as int) =~= self@.scopes);
        while i > 0
            invariant
                i <= self.scopes.len(),
                self@ == old(self)@,
                self.scopes@ == old(self).scopes@,
                holder_in(self@.scopes, key@) == holder_in(self@.scopes.subrange(0, i as int), key@),
            decreases i,
        {
            let ghost cur = self@.scopes.subrange(0, i as int);
            i -= 1;
            assert(cur.drop_last() =~= self@.scopes.subrange(0, i as int));
            assert(cur.last() == self.scopes@[i as int]@);
            if self.scopes[i].bindings.contains_key(key) {
                let ghost before = self.scopes@[i as int]@;
                assert(holder_in(old(self)@.scopes, key@) == Some(i as int));
                proof {
                    lemma_holder_in_range(old(self)@.scopes, key@);
                }
                let scope = &mut self.scopes[i];
                scope.bindings.insert(String::from_str(key), value);
                assert(self.scopes@[i as int]@.bindings =~= before.bindings.insert(key@, value@));
                assert(self.scopes@[i as int]@.structs == before.structs);
                assert forall|j: int| 0 <= j < self.scopes@.len() && j != i implies self.scopes@[j]
                    == old(self).scopes@[j] by {}
                assert(self@.scopes =~= old(self)@.assign(key@, value@).scopes);
                return true;
            }
        }
        assert(self@.scopes.subrange(0, 0) =~= Seq::empty());
        proof {
            lemma_holder_in_range(old(self)@.scopes, key@);
        }
        false
    }

    /// Removes the binding of `key` from the innermost scope.
    pub fn remove(&mut self, key: &str)
        ensures
            final(self)@ == old(self)@.unbind(key@),
    {
        match self.scopes.pop() {
            Some(top) => {
                let mut top = top;
                let ghost before = top@;
                top.bindings.remove(key);
                assert(top@.bindings =~= before.bindings.remove(key@));
                self.scopes.push(top);
                assert(self@.scopes =~= old(self)@.unbind(key@).scopes);
            },
            None => {},
        }
    }

    /// Declares the struct type `name` in the innermost scope and gives its
    /// id, which is one more than the last id given. `None`, and no change,
    /// where there is no scope or no id left.
    pub fn define_struct(&mut self, name: &str) -> (r: Option<StructId>)
        ensures
            old(self)@.can_declare() ==> r == Some((old(self)@.struct_count + 1) as usize)
                && final(self)@ == old(self)@.declare(name@),
            !old(self)@.can_declare() ==> r is None && final(self)@ == old(self)@,
    {
        if self.struct_count == usize::MAX {
            return None;
        }
        match self.scopes.pop() {
            Some(top) => {
                let mut top = top;
                let id = self.struct_count + 1;
                top.structs.insert(String::from_str(name), id);
                self.struct_count = id;
                self.scopes.push(top);
                assert(self@.scopes =~= old(self)@.declare(name@).scopes);
                Some(id)
            },
            None => None,
        }
    }

    /// The id of the struct type `name`, from the innermost scope that
    /// declares it.
    pub fn get_struct_id(&self, name: &str) -> (r: Option<StructId>)
        ensures
            r == self@.struct_id(name@),
    {
        let mut i = self.scopes.len();
        assert(self@.scopes.subrange(0, i as int) =~= self@.scopes);
        while i > 0
            invariant
                i <= self.scopes.len(),
                struct_id_in(self@.scopes, name@) == struct_id_in(
                    self@.scopes.subrange(0, i as int),
                    name@,
                ),
            decreases i,
        {
            let ghost cur = self@.scopes.subrange(0, i as int);
            i -= 1;
            assert(cur.drop_last() =~= self@.scopes.subrange(0, i as int));
            assert(cur.last() == self.scopes@[i as int]@);
            match self.scopes[i].structs.get(name) {
                Some(id) => {
                    return Some(*id);
                },
                None => {},
            }
        }
        assert(self@.scopes.subrange(0, 0) =~= Seq::empty());
        None
    }

    /// Enters a new, empty scope.
    pub fn ascend_scope(&mut self)
        ensures
            final(self)@ == old(self)@.push(),
    {
        self.scopes.push(Scope::new());
        assert(self@.scopes =~= old(self)@.push().scopes);
    }

    /// Leaves the innermost scope and drops its bindings.
    pub fn descend_scope(&mut self)
        ensures
            final(self)@ == old(self)@.pop(),
    {
        let _ = self.scopes.pop();
        assert(self@.scopes =~= old(self)@.pop().scopes);
    }

    /// The name of the file that is being evaluated: the string that
    /// `__FILE__` is bound to, if it is bound to one.
    pub fn get_cur_file(&self) -> (r: Option<String>)
        ensures
            match self@.lookup("__FILE__"@) {
                Some(ExprView::Str(s)) => r is Some && r->0@ == s,
                _ => r is None,
            },
    {
        match self.get("__FILE__") {
            Some(Expression::Str(s)) => Some(s.clone()),
            _ => None,
        }
    }

    /// Records that the file `name` was read.
    pub fn add_file(&mut self, name: &str)
        ensures
            final(self)@ == (ContextView { files: old(self)@.files.insert(name@), ..old(self)@ }),
    {
        let _ = self.read_files.insert(String::from_str(name));
    }

    /// Forgets that the file `name` was read.
    pub fn remove_file(&mut self, name: &str)
        ensures
            final(self)@ == (ContextView { files: old(self)@.files.remove(name@), ..old(self)@ }),
    {
        let _ = self.read_files.remove(name);
    }

    /// Whether the file `name` was read.
    pub fn has_read_file(&self, name: &str) -> (r: bool)
        ensures
            r == self@.files.contains(name@),
    {
        self.read_files.contains(name)
    }
}

} // verus!
