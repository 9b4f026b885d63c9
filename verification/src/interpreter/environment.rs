//! The environment of the interpreter: lexical scopes that bind names to values.

use crate::bytecode_translation::environment::Name;
use crate::error::{Error, Trouble};
use crate::interpreter::values::Value;
use vstd::prelude::*;

verus! {

/// The first index from `from` on at which `scope` binds `name`.
pub open spec fn find(scope: Seq<(Name, Value)>, name: Name, from: nat) -> Option<nat>
    decreases scope.len() - from,
{
    if from >= scope.len() {
        None
    } else if scope[from as int].0 == name {
        Some(from)
    } else {
        find(scope, name, from + 1)
    }
}

/// The environment as a mathematical value: the scopes, innermost last;
/// scope 0 is the global one.
pub struct Values {
    pub scopes: Seq<Seq<(Name, Value)>>,
}

impl Values {
    /// The environment before anything is declared: an empty global scope.
    pub open spec fn empty() -> Values {
        Values { scopes: seq![Seq::<(Name, Value)>::empty()] }
    }

    /// There is a global scope.
    pub open spec fn wf(self) -> bool {
        self.scopes.len() >= 1
    }

    /// The innermost scope.
    pub open spec fn innermost(self) -> Seq<(Name, Value)> {
        self.scopes.last()
    }

    /// What `name` is bound to, the search going outward from the scope
    /// `dep` scopes outside the innermost.
    pub open spec fn lookup_from(self, name: Name, dep: nat) -> Option<Value>
        decreases self.scopes.len() - dep,
    {
        if dep >= self.scopes.len() {
            None
        } else {
            let scope = self.scopes[self.scopes.len() - 1 - dep];
            match find(scope, name, 0) {
                Some(i) => Some(scope[i as int].1),
                None => self.lookup_from(name, dep + 1),
            }
        }
    }

    /// What `name` is bound to: the innermost binding counts.
    pub open spec fn lookup(self, name: Name) -> Option<Value> {
        self.lookup_from(name, 0)
    }

    /// With `name` bound to `v` in the innermost scope. A variable of that
    /// name in that scope is replaced; a constant of that name there is in the way.
    pub open spec fn declare(self, name: Name, v: Value) -> Result<Values, Error> {
        let last = self.scopes.len() - 1;
        match find(self.innermost(), name, 0) {
            None => Ok(Values { scopes: self.scopes.update(last, self.innermost().push((name, v))) }),
            Some(i) => match self.innermost()[i as int].1 {
                Value::Const(_) => Err(Error::DuplicatedDef),
                Value::Var(_) => Ok(
                    Values {
                        scopes: self.scopes.update(
                            last,
                            self.innermost().update(i as int, (name, v)),
                        ),
                    },
                ),
            },
        }
    }

    /// With the innermost binding of `name` changed to `v`, the search
    /// going outward from the scope `dep` scopes outside the innermost. A
    /// constant cannot be changed.
    pub open spec fn assign_from(self, name: Name, v: Value, dep: nat) -> Result<Values, Error>
        decreases self.scopes.len() - dep,
    {
        if dep >= self.scopes.len() {
            Err(Error::SymbolNotFound)
        } else {
            let index = self.scopes.len() - 1 - dep;
            let scope = self.scopes[index];
            match find(scope, name, 0) {
                Some(i) => match scope[i as int].1 {
                    Value::Const(_) => Err(Error::InterpreterError(Trouble::Constant)),
                    Value::Var(_) => Ok(
                        Values { scopes: self.scopes.update(index, scope.update(i as int, (name, v))) },
                    ),
                },
                None => self.assign_from(name, v, dep + 1),
            }
        }
    }

    /// With the innermost binding of `name` changed to `v`.
    pub open spec fn assign(self, name: Name, v: Value) -> Result<Values, Error> {
        self.assign_from(name, v, 0)
    }

    /// With a new, empty innermost scope.
    pub open spec fn enter(self) -> Values {
        Values { scopes: self.scopes.push(Seq::empty()) }
    }

    /// Without the innermost scope; the global scope stays.
    pub open spec fn exit(self) -> Values {
        if self.scopes.len() <= 1 {
            self
        } else {
            Values { scopes: self.scopes.drop_last() }
        }
    }

    /// The scopes inside the global one.
    pub open spec fn locals(self) -> Seq<Seq<(Name, Value)>> {
        self.scopes.subrange(1, self.scopes.len() as int)
    }

    /// The environment in which a function body runs: the global scope and
    /// one empty scope for the parameters.
    pub open spec fn called(self) -> Values {
        Values { scopes: seq![self.scopes[0], Seq::empty()] }
    }

    /// The environment after a call: the global scope as the callee left
    /// it, and the scopes `locals` of the caller inside it.
    pub open spec fn returned(self, locals: Seq<Seq<(Name, Value)>>) -> Values {
        Values { scopes: seq![self.scopes[0]] + locals }
    }
}

/// The bindings of a scope as mathematical values.
pub open spec fn scope_view(scope: Seq<(String, Value)>) -> Seq<(Name, Value)> {
    Seq::new(scope.len(), |i: int| (scope[i].0@, scope[i].1))
}

/// The scopes as mathematical values.
pub open spec fn scopes_view(scopes: Seq<Vec<(String, Value)>>) -> Seq<Seq<(Name, Value)>> {
    Seq::new(scopes.len(), |i: int| scope_view(scopes[i]@))
}

/// The environment of the interpreter.
#[derive(Debug)]
pub struct Environment {
    values: Vec<Vec<(String, Value)>>,
}

impl View for Environment {
    type V = Values;

    closed spec fn view(&self) -> Values {
        Values { scopes: scopes_view(self.values@) }
    }
}

/// The index at which `scope` binds `ident`.
fn position(scope: &Vec<(String, Value)>, ident: &String) -> (r: Option<usize>)
    ensures
        match find(scope_view(scope@), ident@, 0) {
            Some(i) => r == Some(i as usize) && i < scope.len(),
            None => r is None,
        },
{
    let mut i: usize = 0;
    while i < scope.len()
        invariant
            i <= scope.len(),
            find(scope_view(scope@), ident@, 0) == find(scope_view(scope@), ident@, i as nat),
        decreases scope.len() - i,
    {
        if scope[i].0 == *ident {
            return Some(i);
        }
        i = i + 1;
    }
    None
}

impl Environment {
    /// There is a global scope.
    pub open spec fn wf(&self) -> bool {
        self@.wf()
    }

    /// An environment with an empty global scope.
    pub fn new() -> (env: Self)
        ensures
            env@ == Values::empty(),
            env.wf(),
    {
        let mut values: Vec<Vec<(String, Value)>> = Vec::new();
        values.push(Vec::new());
        let env = Environment { values };
        assert(env@.scopes =~~= Values::empty().scopes);
        env
    }

    /// Binds `ident` to `v` in the innermost scope.
    ///
    /// Fails with `DuplicatedDef`, and changes nothing, where that scope
    /// binds `ident` to a constant already; a variable is replaced.
    pub fn new_value(&mut self, ident: &String, v: Value) -> (r: Result<(), Error>)
        requires
            old(self).wf(),
        ensures
            final(self).wf(),
            match old(self)@.declare(ident@, v) {
                Ok(after) => r is Ok && final(self)@ == after,
                Err(e) => r == Err::<(), Error>(e) && final(self)@ == old(self)@,
            },
    {
        let last = self.values.len() - 1;
        match position(&self.values[last], ident) {
            None => {
                let scope = &mut self.values[last];
                scope.push((ident.clone(), v));
                proof {
                    assert(scope_view(self.values@[last as int]@) =~= old(self)@.innermost().push(
                        (ident@, v),
                    ));
                    assert(self@.scopes =~= old(self)@.declare(ident@, v)->Ok_0.scopes);
                }
                Ok(())
            },
            Some(i) => {
                match self.values[last][i].1 {
                    Value::Const(_) => Err(Error::DuplicatedDef),
                    Value::Var(_) => {
                        let scope = &mut self.values[last];
                        scope.set(i, (ident.clone(), v));
                        proof {
                            assert(scope_view(self.values@[last as int]@) =~= old(
                                self,
                            )@.innermost().update(i as int, (ident@, v)));
                            assert(self@.scopes =~= old(self)@.declare(ident@, v)->Ok_0.scopes);
                        }
                        Ok(())
                    },
                }
            },
        }
    }

    /// Changes the innermost binding of `ident` to `v`.
    ///
    /// Fails with `SymbolNotFound` where no scope binds `ident`, and with
    /// `InterpreterError(Constant)` where the binding is a constant; then
    /// nothing changes.
    pub fn update_value(&mut self, ident: &String, v: Value) -> (r: Result<(), Error>)
        requires
            old(self).wf(),
        ensures
            final(self).wf(),
            match old(self)@.assign(ident@, v) {
                Ok(after) => r is Ok && final(self)@ == after,
                Err(e) => r == Err::<(), Error>(e) && final(self)@ == old(self)@,
            },
    {
        let mut dep: usize = 0;
        let len = self.values.len();
        while dep < len
            invariant
                dep <= len,
                len == self.values.len(),
                self@ == old(self)@,
                self@.assign(ident@, v) == self@.assign_from(ident@, v, dep as nat),
            decreases len - dep,
        {
            let index = len - 1 - dep;
            match position(&self.values[index], ident) {
                Some(i) => {
                    match self.values[index][i].1 {
                        Value::Const(_) => {
                            return Err(Error::InterpreterError(Trouble::Constant));
                        },
                        Value::Var(_) => {
                            let ghost before = scope_view(self.values@[index as int]@);
                            let scope = &mut self.values[index];
                            scope.set(i, (ident.clone(), v));
                            proof {
                                assert(scope_view(self.values@[index as int]@) =~= before.update(
                                    i as int,
                                    (ident@, v),
                                ));
                                assert(self@.scopes =~= old(self)@.assign(
                                    ident@,
                                    v,
                                )->Ok_0.scopes);
                            }
                            return Ok(());
                        },
                    }
                },
                None => {},
            }
            dep = dep + 1;
        }
        Err(Error::SymbolNotFound)
    }

    /// What `ident` is bound to: the innermost binding counts.
    ///
    /// Fails with `SymbolNotFound` where no scope binds `ident`.
    pub fn value(&self, ident: &String) -> (r: Result<Value, Error>)
        requires
            self.wf(),
        ensures
            match self@.lookup(ident@) {
                Some(v) => r == Ok::<Value, Error>(v),
                None => r == Err::<Value, Error>(Error::SymbolNotFound),
            },
    {
        let mut dep: usize = 0;
        let len = self.values.len();
        while dep < len
            invariant
                dep <= len,
                len == self.values.len(),
                self@.lookup(ident@) == self@.lookup_from(ident@, dep as nat),
            decreases len - dep,
        {
            let index = len - 1 - dep;
            match position(&self.values[index], ident) {
                Some(i) => {
                    return Ok(self.values[index][i].1);
                },
                None => {},
            }
            dep = dep + 1;
        }
        Err(Error::SymbolNotFound)
    }

    /// Opens a scope.
    pub fn enter(&mut self)
        requires
            old(self).wf(),
        ensures
            final(self).wf(),
            final(self)@ == old(self)@.enter(),
    {
        self.values.push(Vec::new());
        assert(self@.scopes =~~= old(self)@.enter().scopes);
    }

    /// Closes the innermost scope, unless it is the global one.
    pub fn exit(&mut self)
        requires
            old(self).wf(),
        ensures
            final(self).wf(),
            final(self)@ == old(self)@.exit(),
    {
        if self.values.len() > 1 {
            self.values.pop();
            assert(self@.scopes =~= old(self)@.exit().scopes);
        }
    }

    /// Enters a function: sets the scopes inside the global one aside and
    /// returns them, and opens a scope for the parameters.
    pub fn push_func(&mut self) -> (saved: Vec<Vec<(String, Value)>>)
        requires
            old(self).wf(),
        ensures
            final(self).wf(),
            final(self)@ == old(self)@.called(),
            scopes_view(saved@) == old(self)@.locals(),
    {
        let saved = self.values.split_off(1);
        self.values.push(Vec::new());
        proof {
            assert(self@.scopes =~~= old(self)@.called().scopes);
            assert(scopes_view(saved@) =~= old(self)@.locals());
        }
        saved
    }

    /// Leaves a function: drops its scopes and puts back the scopes `saved`
    /// of the caller.
    pub fn pop_func(&mut self, saved: Vec<Vec<(String, Value)>>)
        requires
            old(self).wf(),
        ensures
            final(self).wf(),
            final(self)@ == old(self)@.returned(scopes_view(saved@)),
    {
        let ghost locals = scopes_view(saved@);
        let mut saved = saved;
        self.values.truncate(1);
        self.values.append(&mut saved);
        proof {
            assert(self@.scopes =~= old(self)@.returned(locals).scopes);
        }
    }
}

} // verus!
