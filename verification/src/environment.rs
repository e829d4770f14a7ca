//! Variables: a chain of scopes, the innermost last.

use crate::error::ErrorView;
use crate::error::RloxError;
use crate::token::Token;
use crate::value::LoxValue;
use crate::value::ValueView;
use vstd::prelude::*;
use vstd::string::StringExecFns;

verus! {

/// The variables of one scope.
pub type Scope = Map<Seq<char>, ValueView>;

/// The scope that a list of bindings makes. Were a name bound twice, the
/// later binding would count.
pub open spec fn bindings(entries: Seq<(String, LoxValue)>) -> Scope
    decreases entries.len(),
{
    if entries.len() == 0 {
        Map::empty()
    } else {
        bindings(entries.drop_last()).insert(entries.last().0@, entries.last().1@)
    }
}

/// The value of `name` in the innermost scope that binds it.
pub open spec fn lookup(scopes: Seq<Scope>, name: Seq<char>) -> Option<ValueView>
    decreases scopes.len(),
{
    if scopes.len() == 0 {
        None
    } else if scopes.last().contains_key(name) {
        Some(scopes.last()[name])
    } else {
        lookup(scopes.drop_last(), name)
    }
}

/// The scopes with `name` bound to `value` in the innermost.
pub open spec fn defined(scopes: Seq<Scope>, name: Seq<char>, value: ValueView) -> Seq<Scope> {
    scopes.update(scopes.len() - 1, scopes.last().insert(name, value))
}

/// The scopes with `value` in place of the value of `name`, in the innermost
/// scope that binds it. Where none does, nothing changes.
pub open spec fn assigned(scopes: Seq<Scope>, name: Seq<char>, value: ValueView) -> Seq<Scope>
    decreases scopes.len(),
{
    if scopes.len() == 0 {
        scopes
    } else if scopes.last().contains_key(name) {
        scopes.update(scopes.len() - 1, scopes.last().insert(name, value))
    } else {
        assigned(scopes.drop_last(), name, value).push(scopes.last())
    }
}

/// The scopes with a new, empty scope inside the innermost.
pub open spec fn entered(scopes: Seq<Scope>) -> Seq<Scope> {
    scopes.push(Map::empty())
}

/// The scopes without the innermost.
pub open spec fn exited(scopes: Seq<Scope>) -> Seq<Scope> {
    scopes.drop_last()
}

/// The error of reading a name that no scope binds.
pub open spec fn undefined_variable(name: Seq<char>) -> ErrorView {
    ErrorView::RuntimeError("Undefined variable: "@ + name + "."@)
}

/// The error of assigning to a name that no scope binds.
pub open spec fn undefined_target(name: Seq<char>) -> ErrorView {
    ErrorView::RuntimeError("Can't assign undefined variable: "@ + name + "."@)
}

/// The error of leaving the global scope.
pub open spec fn no_scope_to_exit() -> ErrorView {
    ErrorView::InvariantViolation("Already in the global scope, can't exit."@)
}

/// Whether no binding after the `from`-th is of `name`.
pub open spec fn unbound_after(entries: Seq<(String, LoxValue)>, from: int, name: Seq<char>) -> bool {
    forall|k: int| from < k < entries.len() ==> (#[trigger] entries[k]).0@ != name
}

proof fn lemma_unbound(entries: Seq<(String, LoxValue)>, name: Seq<char>)
    requires
        unbound_after(entries, -1, name),
    ensures
        !bindings(entries).contains_key(name),
    decreases entries.len(),
{
    if entries.len() > 0 {
        assert(entries.last() == entries[entries.len() - 1]);
        lemma_unbound(entries.drop_last(), name);
    }
}

proof fn lemma_bound(entries: Seq<(String, LoxValue)>, at: int, name: Seq<char>)
    requires
        0 <= at < entries.len(),
        entries[at].0@ == name,
        unbound_after(entries, at, name),
    ensures
        bindings(entries).contains_key(name),
        bindings(entries)[name] == entries[at].1@,
    decreases entries.len(),
{
    if at < entries.len() - 1 {
        assert(entries.last() == entries[entries.len() - 1]);
        lemma_bound(entries.drop_last(), at, name);
    }
}

proof fn lemma_rebound(
    entries: Seq<(String, LoxValue)>,
    changed: Seq<(String, LoxValue)>,
    at: int,
    name: Seq<char>,
)
    requires
        0 <= at < entries.len(),
        entries[at].0@ == name,
        unbound_after(entries, at, name),
        changed.len() == entries.len(),
        changed[at].0@ == name,
        forall|k: int| 0 <= k < entries.len() && k != at ==> changed[k] == entries[k],
    ensures
        bindings(changed) == bindings(entries).insert(name, changed[at].1@),
    decreases entries.len(),
{
    if at < entries.len() - 1 {
        assert(entries.last() == entries[entries.len() - 1]);
        assert(changed.last() == entries.last());
        lemma_rebound(entries.drop_last(), changed.drop_last(), at, name);
        assert(bindings(changed) =~= bindings(entries).insert(name, changed[at].1@));
    } else {
        assert(changed.drop_last() =~= entries.drop_last());
        assert(bindings(changed) =~= bindings(entries).insert(name, changed[at].1@));
    }
}

/// The last binding of `name` in a table.
fn find(table: &Vec<(String, LoxValue)>, name: &String) -> (r: Option<usize>)
    ensures
        match r {
            Some(at) => {
                &&& at < table.len()
                &&& table@[at as int].0@ == name@
                &&& bindings(table@).contains_key(name@)
                &&& bindings(table@)[name@] == table@[at as int].1@
                &&& unbound_after(table@, at as int, name@)
            },
            None => !bindings(table@).contains_key(name@),
        },
{
    let mut i: usize = table.len();
    while i > 0
        invariant
            i <= table.len(),
            unbound_after(table@, i - 1, name@),
        decreases i,
    {
        i -= 1;
        if table[i].0 == *name {
            proof {
                lemma_bound(table@, i as int, name@);
            }
            return Some(i);
        }
    }
    proof {
        lemma_unbound(table@, name@);
    }
    None
}

/// One scope, and the place of the scope around it.
#[derive(Debug)]
pub struct EnvInner {
    parent: Option<usize>,
    table: Vec<(String, LoxValue)>,
}

impl View for EnvInner {
    type V = Scope;

    closed spec fn view(&self) -> Scope {
        bindings(self.table@)
    }
}

impl EnvInner {
    /// The place of the enclosing scope in the chain, if there is one.
    pub closed spec fn enclosing(&self) -> Option<usize> {
        self.parent
    }

    /// An empty scope inside the scope at `parent`.
    pub fn from_parent(parent: usize) -> (r: Self)
        ensures
            r@ == Scope::empty(),
            r.enclosing() == Some(parent),
    {
        Self { parent: Some(parent), table: Vec::new() }
    }
}

impl Default for EnvInner {
    /// An empty scope with none around it.
    fn default() -> (r: Self)
        ensures
            r@ == Scope::empty(),
            r.enclosing() is None,
    {
        Self { parent: None, table: Vec::new() }
    }
}

/// The scopes of a running program. The outermost, global scope comes
/// first and is never left.
#[derive(Debug)]
pub struct Environment {
    frames: Vec<EnvInner>,
}

impl View for Environment {
    type V = Seq<Scope>;

    closed spec fn view(&self) -> Seq<Scope> {
        Seq::new(self.frames@.len(), |i: int| self.frames@[i]@)
    }
}

impl Environment {
    /// There is a global scope, and every other scope lies in the one
    /// before it.
    pub closed spec fn wf(&self) -> bool {
        &&& self.frames.len() >= 1
        &&& forall|i: int|
            0 <= i < self.frames.len() ==> (#[trigger] self.frames@[i]).parent == if i == 0 {
                None::<usize>
            } else {
                Some((i - 1) as usize)
            }
    }

    /// The global scope is always there.
    pub proof fn lemma_global_scope(&self)
        requires
            self.wf(),
        ensures
            self@.len() >= 1,
    {
    }

    /// The global scope alone, and empty.
    pub fn new() -> (r: Self)
        ensures
            r.wf(),
            r@ == seq![Scope::empty()],
    {
        let mut frames: Vec<EnvInner> = Vec::new();
        frames.push(EnvInner::default());
        let r = Self { frames };
        assert(r@ =~= seq![Scope::empty()]);
        r
    }

    /// How many scopes are open, the global one included.
    pub fn depth(&self) -> (r: usize)
        ensures
            r == self@.len(),
    {
        self.frames.len()
    }

    /// Define a variable in current scope, in place of one of the same name
    /// if the scope has one.
    pub fn define(&mut self, name: &str, value: LoxValue)
        requires
            old(self).wf(),
        ensures
            final(self).wf(),
            final(self)@ == defined(old(self)@, name@, value@),
    {
        let last = self.frames.len() - 1;
        let key = String::from_str(name);
        let ghost entries = self.frames@[last as int].table@;
        let ghost stored = value@;
        match find(&self.frames[last].table, &key) {
            Some(at) => {
                self.frames[last].table[at].1 = value;
                proof {
                    lemma_rebound(entries, self.frames@[last as int].table@, at as int, name@);
                }
            },
            None => {
                self.frames[last].table.push((key, value));
                proof {
                    assert(self.frames@[last as int].table@.drop_last() =~= entries);
                }
            },
        }
        assert(self@ =~= defined(old(self)@, name@, stored));
    }

    /// Get identifier's value, or fail if no scope binds the identifier.
    pub fn get(&self, name: &Token) -> (r: Result<LoxValue, RloxError>)
        requires
            self.wf(),
        ensures
            match r {
                Ok(value) => lookup(self@, name@.lexeme) == Some(value@),
                Err(e) => lookup(self@, name@.lexeme) is None && e@ == undefined_variable(
                    name@.lexeme,
                ),
            },
    {
        let mut i: usize = self.frames.len();
        assert(self@.take(i as int) =~= self@);
        while i > 0
            invariant
                i <= self.frames.len(),
                lookup(self@, name@.lexeme) == lookup(self@.take(i as int), name@.lexeme),
            decreases i,
        {
            i -= 1;
            proof {
                assert(self@.take(i + 1).drop_last() =~= self@.take(i as int));
                assert(self@.take(i + 1).last() == self.frames@[i as int]@);
            }
            match find(&self.frames[i].table, &name.lexeme) {
                Some(at) => {
                    return Ok(self.frames[i].table[at].1.clone());
                },
                None => {},
            }
        }
        let mut message = String::from_str("Undefined variable: ");
        message.append(name.lexeme.as_str());
        message.append(".");
        Err(RloxError::RuntimeError(message))
    }

    /// Assign a variable with new value, or fail if no scope binds it.
    pub fn assign(&mut self, name: &Token, value: LoxValue) -> (r: Result<(), RloxError>)
        requires
            old(self).wf(),
        ensures
            final(self).wf(),
            final(self)@ == assigned(old(self)@, name@.lexeme, value@),
            match r {
                Ok(_) => lookup(old(self)@, name@.lexeme) is Some,
                Err(e) => {
                    &&& lookup(old(self)@, name@.lexeme) is None
                    &&& e@ == undefined_target(name@.lexeme)
                    &&& final(self)@ == old(self)@
                },
            },
    {
        let ghost before = self@;
        let ghost key = name@.lexeme;
        let mut i: usize = self.frames.len();
        proof {
            assert(before.take(i as int) =~= before);
            assert(before.take(i as int) + before.skip(i as int) =~= before);
            assert(assigned(before, key, value@) + before.skip(i as int) =~= assigned(
                before,
                key,
                value@,
            ));
        }
        while i > 0
            invariant
                i <= self.frames.len(),
                self.wf(),
                self@ == before,
                before == old(self)@,
                key == name@.lexeme,
                lookup(before, key) == lookup(before.take(i as int), key),
                assigned(before, key, value@) == assigned(before.take(i as int), key, value@)
                    + before.skip(i as int),
            decreases i,
        {
            i -= 1;
            proof {
                assert(before.take(i + 1).drop_last() =~= before.take(i as int));
                assert(before.take(i + 1).last() == self.frames@[i as int]@);
                assert(seq![before[i as int]] + before.skip(i + 1) =~= before.skip(i as int));
            }
            match find(&self.frames[i].table, &name.lexeme) {
                Some(at) => {
                    let ghost entries = self.frames@[i as int].table@;
                    let ghost stored = value@;
                    self.frames[i].table[at].1 = value;
                    proof {
                        let changed = self.frames@[i as int].table@;
                        lemma_rebound(entries, changed, at as int, key);
                        assert(self@ =~= before.take(i + 1).update(
                            i as int,
                            before[i as int].insert(key, stored),
                        ) + before.skip(i + 1));
                    }
                    return Ok(());
                },
                None => {
                    proof {
                        assert(assigned(before.take(i as int), key, value@).push(before[i as int])
                            + before.skip(i + 1) =~= assigned(before.take(i as int), key, value@)
                            + before.skip(i as int));
                    }
                },
            }
        }
        proof {
            assert(before.take(0) + before.skip(0) =~= before);
        }
        let mut message = String::from_str("Can't assign undefined variable: ");
        message.append(name.lexeme.as_str());
        message.append(".");
        Err(RloxError::RuntimeError(message))
    }

    /// Enter a new inner scope.
    pub fn enter_scope(&mut self)
        requires
            old(self).wf(),
            old(self)@.len() < usize::MAX,
        ensures
            final(self).wf(),
            final(self)@ == entered(old(self)@),
    {
        let parent = self.frames.len() - 1;
        self.frames.push(EnvInner::from_parent(parent));
        assert(self@ =~= entered(old(self)@));
    }

    /// Exit current scope. The global scope cannot be left: to try is an
    /// error of the caller, and changes nothing.
    pub fn exit_scope(&mut self) -> (r: Result<(), RloxError>)
        requires
            old(self).wf(),
        ensures
            final(self).wf(),
            match r {
                Ok(_) => old(self)@.len() > 1 && final(self)@ == exited(old(self)@),
                Err(e) => old(self)@.len() == 1 && final(self)@ == old(self)@ && e@
                    == no_scope_to_exit(),
            },
    {
        if self.frames.len() > 1 {
            self.frames.pop();
            assert(self@ =~= exited(old(self)@));
            Ok(())
        } else {
            Err(
                RloxError::InvariantViolation(
                    String::from_str("Already in the global scope, can't exit."),
                ),
            )
        }
    }
}

impl Default for Environment {
    /// The global scope alone, and empty.
    fn default() -> (r: Self)
        ensures
            r.wf(),
            r@ == seq![Scope::empty()],
    {
        Environment::new()
    }
}

/// A variable defined in a scope that was just entered hides a variable of
/// the same name outside, and is gone when the scope is left: the scopes are
/// then what they were, so the outer variable has its old value. Assigning to
/// the name inside the scope changes the inner variable only.
pub proof fn law_shadowing(
    scopes: Seq<Scope>,
    name: Seq<char>,
    inner: ValueView,
    later: ValueView,
)
    requires
        scopes.len() >= 1,
    ensures
        lookup(defined(entered(scopes), name, inner), name) == Some(inner),
        exited(defined(entered(scopes), name, inner)) == scopes,
        lookup(exited(defined(entered(scopes), name, inner)), name) == lookup(scopes, name),
        lookup(assigned(defined(entered(scopes), name, inner), name, later), name) == Some(later),
        exited(assigned(defined(entered(scopes), name, inner), name, later)) == scopes,
{
    let inside = defined(entered(scopes), name, inner);
    assert(inside.last().contains_key(name));
    assert(exited(inside) =~= scopes);
    let changed = assigned(inside, name, later);
    assert(changed.last().contains_key(name));
    assert(exited(changed) =~= scopes);
}

/// A name that no scope binds cannot be looked up, and assigning to it
/// changes nothing; a name that some scope binds has the assigned value
/// afterwards, and no scope is added or removed.
pub proof fn law_assignment(scopes: Seq<Scope>, name: Seq<char>, value: ValueView)
    ensures
        assigned(scopes, name, value).len() == scopes.len(),
        lookup(scopes, name) is None ==> assigned(scopes, name, value) == scopes,
        lookup(scopes, name) is Some ==> lookup(assigned(scopes, name, value), name) == Some(
            value,
        ),
    decreases scopes.len(),
{
    if scopes.len() > 0 {
        if scopes.last().contains_key(name) {
            let changed = assigned(scopes, name, value);
            assert(changed.last().contains_key(name));
        } else {
            law_assignment(scopes.drop_last(), name, value);
            let changed = assigned(scopes, name, value);
            assert(changed.drop_last() =~= assigned(scopes.drop_last(), name, value));
            assert(changed.last() == scopes.last());
            if lookup(scopes, name) is None {
                assert(changed =~= scopes);
            }
        }
    }
}

/// Assigning binds no name that was not bound, and unbinds none.
pub proof fn law_assignment_binds_nothing(
    scopes: Seq<Scope>,
    name: Seq<char>,
    value: ValueView,
    other: Seq<char>,
)
    ensures
        lookup(assigned(scopes, name, value), other) is Some <==> lookup(scopes, other) is Some,
    decreases scopes.len(),
{
    if scopes.len() > 0 {
        let changed = assigned(scopes, name, value);
        if scopes.last().contains_key(name) {
            assert(changed.drop_last() =~= scopes.drop_last());
            assert(changed.last().contains_key(other) <==> scopes.last().contains_key(other));
        } else {
            law_assignment_binds_nothing(scopes.drop_last(), name, value, other);
            assert(changed.drop_last() =~= assigned(scopes.drop_last(), name, value));
            assert(changed.last() == scopes.last());
        }
    }
}

/// Whether two scopes agree on `name`: both bind it to one value, or
/// neither binds it.
pub open spec fn same_binding(a: Scope, b: Scope, name: Seq<char>) -> bool {
    &&& a.contains_key(name) == b.contains_key(name)
    &&& a.contains_key(name) ==> a[name] == b[name]
}

/// Whether the scope at `at` still binds `name` in `after`, and the scopes
/// around it agree on `name` with what they were `before`.
pub open spec fn shadowed_below(
    before: Seq<Scope>,
    after: Seq<Scope>,
    at: int,
    name: Seq<char>,
) -> bool {
    &&& after.len() == before.len()
    &&& 0 <= at < after.len()
    &&& after[at].contains_key(name)
    &&& forall|j: int| 0 <= j < at ==> same_binding(#[trigger] after[j], before[j], name)
}

/// Shadowing goes on from step to step.
pub proof fn lemma_shadowed_chain(
    a: Seq<Scope>,
    b: Seq<Scope>,
    c: Seq<Scope>,
    at: int,
    name: Seq<char>,
)
    requires
        shadowed_below(a, b, at, name),
        shadowed_below(b, c, at, name),
    ensures
        shadowed_below(a, c, at, name),
{
    assert forall|j: int| 0 <= j < at implies same_binding(#[trigger] c[j], a[j], name) by {
        assert(same_binding(c[j], b[j], name));
        assert(same_binding(b[j], a[j], name));
    }
}

/// Assigning to one name leaves every scope's binding of another name as
/// it was.
pub proof fn law_assignment_elsewhere(
    scopes: Seq<Scope>,
    target: Seq<char>,
    value: ValueView,
    name: Seq<char>,
)
    requires
        target != name,
    ensures
        assigned(scopes, target, value).len() == scopes.len(),
        forall|j: int|
            0 <= j < scopes.len() ==> same_binding(
                #[trigger] assigned(scopes, target, value)[j],
                scopes[j],
                name,
            ),
    decreases scopes.len(),
{
    if scopes.len() > 0 && !scopes.last().contains_key(target) {
        law_assignment_elsewhere(scopes.drop_last(), target, value, name);
        let changed = assigned(scopes, target, value);
        assert forall|j: int| 0 <= j < scopes.len() implies same_binding(
            #[trigger] changed[j],
            scopes[j],
            name,
        ) by {
            if j < scopes.len() - 1 {
                assert(changed[j] == assigned(scopes.drop_last(), target, value)[j]);
                assert(scopes[j] == scopes.drop_last()[j]);
            }
        }
    }
}

/// A scope that binds a name shields the scopes around it: an assignment,
/// to that name or to any other, leaves their bindings of the name as they
/// were, and the scope goes on binding it.
pub proof fn law_assignment_below(
    scopes: Seq<Scope>,
    target: Seq<char>,
    value: ValueView,
    at: int,
    name: Seq<char>,
)
    requires
        0 <= at < scopes.len(),
        scopes[at].contains_key(name),
    ensures
        shadowed_below(scopes, assigned(scopes, target, value), at, name),
    decreases scopes.len(),
{
    let changed = assigned(scopes, target, value);
    if !scopes.last().contains_key(target) {
        if at == scopes.len() - 1 {
            law_assignment_elsewhere(scopes.drop_last(), target, value, name);
            assert forall|j: int| 0 <= j < at implies same_binding(
                #[trigger] changed[j],
                scopes[j],
                name,
            ) by {
                assert(changed[j] == assigned(scopes.drop_last(), target, value)[j]);
                assert(scopes[j] == scopes.drop_last()[j]);
            }
        } else {
            law_assignment_below(scopes.drop_last(), target, value, at, name);
            assert forall|j: int| 0 <= j < at implies same_binding(
                #[trigger] changed[j],
                scopes[j],
                name,
            ) by {
                assert(changed[j] == assigned(scopes.drop_last(), target, value)[j]);
                assert(scopes[j] == scopes.drop_last()[j]);
            }
            assert(changed[at] == assigned(scopes.drop_last(), target, value)[at]);
        }
    }
}

/// A definition is found again, whatever was bound before.
pub proof fn law_definition(scopes: Seq<Scope>, name: Seq<char>, value: ValueView)
    requires
        scopes.len() >= 1,
    ensures
        defined(scopes, name, value).len() == scopes.len(),
        lookup(defined(scopes, name, value), name) == Some(value),
{
    assert(defined(scopes, name, value).last().contains_key(name));
}

} // verus!
