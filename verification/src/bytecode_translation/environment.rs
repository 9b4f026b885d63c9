//! The compile-time environment: lexical scopes that number their names, a
//! table of the functions defined so far, and a stack of loop headers.

use crate::error::Error;
use vstd::prelude::*;

verus! {

/// A name of the source language, as its characters.
pub type Name = Seq<char>;

/// An entry of the function table.
pub struct Function {
    /// The function's name.
    pub name: Name,
    /// The address of its first instruction.
    pub addr: usize,
    /// The names of its formal parameters, in order.
    pub params: Seq<Name>,
}

/// The environment as a mathematical value.
pub struct Scopes {
    /// The scopes, innermost last; scope 0 is the global one. A scope is the
    /// sequence of its names in the order of declaration, so that the slot of
    /// a name is its index.
    pub scopes: Seq<Seq<Name>>,
    /// The functions in the order of definition.
    pub funcs: Seq<Function>,
    /// The addresses of the headers of the enclosing loops, innermost last.
    pub loops: Seq<usize>,
}

/// The first index from `from` on at which `names` holds `name`.
pub open spec fn position(names: Seq<Name>, name: Name, from: nat) -> Option<nat>
    decreases names.len() - from,
{
    if from >= names.len() {
        None
    } else if names[from as int] == name {
        Some(from)
    } else {
        position(names, name, from + 1)
    }
}

/// No name occurs twice.
pub open spec fn distinct(names: Seq<Name>) -> bool {
    forall|i: int, j: int| 0 <= i < j < names.len() ==> names[i] != names[j]
}

/// The first function from index `from` on that is called `name`.
pub open spec fn lookup(funcs: Seq<Function>, name: Name, from: nat) -> Option<Function>
    decreases funcs.len() - from,
{
    if from >= funcs.len() {
        None
    } else if funcs[from as int].name == name {
        Some(funcs[from as int])
    } else {
        lookup(funcs, name, from + 1)
    }
}

impl Scopes {
    /// The environment before anything is declared: an empty global scope.
    pub open spec fn empty() -> Scopes {
        Scopes { scopes: seq![Seq::<Name>::empty()], funcs: Seq::empty(), loops: Seq::empty() }
    }

    /// There is a global scope, no scope declares a name twice, and no two
    /// functions share a name.
    pub open spec fn wf(self) -> bool {
        &&& self.scopes.len() >= 1
        &&& forall|k: int| 0 <= k < self.scopes.len() ==> distinct(#[trigger] self.scopes[k])
        &&& forall|i: int, j: int|
            0 <= i < j < self.funcs.len() ==> self.funcs[i].name != self.funcs[j].name
    }

    /// The scope that lies `dep` scopes outside the innermost.
    pub open spec fn scope(self, dep: int) -> Seq<Name> {
        self.scopes[self.scopes.len() - 1 - dep]
    }

    /// With `name` declared in the scope `dep` scopes outside the innermost:
    /// it gets the next slot of that scope.
    pub open spec fn declare(self, dep: int, name: Name) -> Scopes {
        Scopes {
            scopes: self.scopes.update(
                self.scopes.len() - 1 - dep,
                self.scope(dep).push(name),
            ),
            ..self
        }
    }

    /// Where `name` is found when the search starts `dep` scopes outside the
    /// innermost and goes outward: how many scopes outside the innermost, and
    /// in which slot.
    pub open spec fn resolve_from(self, name: Name, dep: nat) -> Option<(usize, usize)>
        decreases self.scopes.len() - dep,
    {
        if dep >= self.scopes.len() {
            None
        } else {
            match position(self.scope(dep as int), name, 0) {
                Some(slot) => Some((dep as usize, slot as usize)),
                None => self.resolve_from(name, dep + 1),
            }
        }
    }

    /// Where `name` is found: the innermost scope that declares it, counted
    /// from the innermost, and its slot there.
    pub open spec fn resolve(self, name: Name) -> Option<(usize, usize)> {
        self.resolve_from(name, 0)
    }

    /// The function called `name`.
    pub open spec fn function(self, name: Name) -> Option<Function> {
        lookup(self.funcs, name, 0)
    }

    /// With one more function.
    pub open spec fn define(self, f: Function) -> Scopes {
        Scopes { funcs: self.funcs.push(f), ..self }
    }

    /// With a new, empty innermost scope.
    pub open spec fn push_scope(self) -> Scopes {
        Scopes { scopes: self.scopes.push(Seq::empty()), ..self }
    }

    /// Without the innermost scope; the global scope stays.
    pub open spec fn pop_scope(self) -> Scopes {
        if self.scopes.len() <= 1 {
            self
        } else {
            Scopes { scopes: self.scopes.drop_last(), ..self }
        }
    }

    /// Inside one more loop, whose header is at `pc`.
    pub open spec fn push_loop(self, pc: usize) -> Scopes {
        Scopes { loops: self.loops.push(pc), ..self }
    }

    /// Outside the innermost loop, if there is one.
    pub open spec fn pop_loop(self) -> Scopes {
        if self.loops.len() == 0 {
            self
        } else {
            Scopes { loops: self.loops.drop_last(), ..self }
        }
    }
}

/// What `position` finds is the first occurrence, and it finds nothing only
/// where there is none.
pub proof fn lemma_position(names: Seq<Name>, name: Name, from: nat)
    ensures
        match position(names, name, from) {
            Some(i) => from <= i < names.len() && names[i as int] == name && forall|j: int|
                from <= j < i ==> names[j] != name,
            None => forall|j: int| from <= j < names.len() ==> names[j] != name,
        },
    decreases names.len() - from,
{
    if from < names.len() && names[from as int] != name {
        lemma_position(names, name, from + 1);
    }
}

/// A name that is declared anew gets the number of the names before it as
/// its slot, and the names before it keep their slots.
pub proof fn lemma_declared_slot(names: Seq<Name>, name: Name, other: Name)
    requires
        position(names, name, 0) is None,
    ensures
        position(names.push(name), name, 0) == Some(names.len()),
        other != name ==> position(names.push(name), other, 0) == position(names, other, 0),
        distinct(names) ==> distinct(names.push(name)),
{
    lemma_position(names, name, 0);
    lemma_position_push(names, name, name, 0);
    lemma_position_push(names, name, other, 0);
}

/// Where a name is found after one more name was declared.
proof fn lemma_position_push(names: Seq<Name>, name: Name, other: Name, from: nat)
    requires
        from <= names.len(),
    ensures
        position(names.push(name), other, from) == match position(names, other, from) {
            Some(i) => Some(i),
            None => if other == name {
                Some(names.len())
            } else {
                None
            },
        },
    decreases names.len() - from,
{
    let more = names.push(name);
    if from < names.len() {
        assert(more[from as int] == names[from as int]);
        if names[from as int] != other {
            lemma_position_push(names, name, other, from + 1);
        }
    } else {
        assert(more[from as int] == name);
        assert(position(more, other, from + 1) is None);
    }
}

/// The characters of each name.
pub open spec fn names_view(names: Seq<String>) -> Seq<Name> {
    Seq::new(names.len(), |i: int| names[i]@)
}

/// The names of each scope.
pub open spec fn scopes_view(scopes: Seq<Vec<String>>) -> Seq<Seq<Name>> {
    Seq::new(scopes.len(), |i: int| names_view(scopes[i]@))
}

/// An entry of the function table as a mathematical value.
pub open spec fn function_view(f: (String, usize, Vec<String>)) -> Function {
    Function { name: f.0@, addr: f.1, params: names_view(f.2@) }
}

/// The function table as a mathematical value.
pub open spec fn functions_view(funcs: Seq<(String, usize, Vec<String>)>) -> Seq<Function> {
    Seq::new(funcs.len(), |i: int| function_view(funcs[i]))
}

/// The compile-time environment.
#[derive(Debug)]
pub struct Environment {
    values: Vec<Vec<String>>,
    func_entry_addr: Vec<(String, usize, Vec<String>)>,
    pc_stack: Vec<usize>,
}

impl View for Environment {
    type V = Scopes;

    closed spec fn view(&self) -> Scopes {
        Scopes {
            scopes: scopes_view(self.values@),
            funcs: functions_view(self.func_entry_addr@),
            loops: self.pc_stack@,
        }
    }
}

/// The index of the first of `names` that equals `id`.
fn find(names: &Vec<String>, id: &String) -> (r: Option<usize>)
    ensures
        match position(names_view(names@), id@, 0) {
            Some(i) => r == Some(i as usize),
            None => r is None,
        },
{
    let mut i: usize = 0;
    while i < names.len()
        invariant
            i <= names.len(),
            position(names_view(names@), id@, 0) == position(names_view(names@), id@, i as nat),
        decreases names.len() - i,
    {
        if names[i] == *id {
            return Some(i);
        }
        i = i + 1;
    }
    None
}

/// A copy of `names`.
fn copy_names(names: &Vec<String>) -> (r: Vec<String>)
    ensures
        names_view(r@) == names_view(names@),
{
    let mut r: Vec<String> = Vec::new();
    let mut i: usize = 0;
    while i < names.len()
        invariant
            i <= names.len(),
            r.len() == i,
            forall|j: int| 0 <= j < i ==> r@[j]@ == names@[j]@,
        decreases names.len() - i,
    {
        let name = names[i].clone();
        r.push(name);
        i = i + 1;
    }
    assert(names_view(r@) =~= names_view(names@));
    r
}

impl Environment {
    /// Whether the environment is well formed: see `Scopes::wf`.
    pub open spec fn wf(&self) -> bool {
        self@.wf()
    }

    /// An environment with an empty global scope, no functions and no loops.
    pub fn new() -> (env: Self)
        ensures
            env@ == Scopes::empty(),
            env.wf(),
    {
        let mut values: Vec<Vec<String>> = Vec::new();
        values.push(Vec::new());
        let env = Environment { values, func_entry_addr: Vec::new(), pc_stack: Vec::new() };
        assert(env@.scopes =~~= Scopes::empty().scopes);
        assert(env@.funcs =~= Scopes::empty().funcs);
        env
    }

    /// Enters a loop whose header is at `pc`.
    pub fn push_pc(&mut self, pc: usize)
        ensures
            final(self)@ == old(self)@.push_loop(pc),
    {
        self.pc_stack.push(pc);
    }

    /// The header of the innermost loop.
    pub fn pc_stack_top(&self) -> (pc: usize)
        requires
            self@.loops.len() > 0,
        ensures
            pc == self@.loops.last(),
    {
        self.pc_stack[self.pc_stack.len() - 1]
    }

    /// Whether no loop is open.
    pub fn pc_stack_empty(&self) -> (b: bool)
        ensures
            b == (self@.loops.len() == 0),
    {
        self.pc_stack.len() == 0
    }

    /// Leaves the innermost loop and returns its header.
    pub fn pop_pc(&mut self) -> (pc: usize)
        requires
            old(self)@.loops.len() > 0,
        ensures
            pc == old(self)@.loops.last(),
            final(self)@ == old(self)@.pop_loop(),
    {
        self.pc_stack.pop().unwrap()
    }

    /// Opens a scope.
    pub fn new_scope(&mut self)
        ensures
            final(self)@ == old(self)@.push_scope(),
            old(self).wf() ==> final(self).wf(),
    {
        self.values.push(Vec::new());
        assert(self@.scopes =~~= old(self)@.push_scope().scopes);
    }

    /// Closes the innermost scope, unless it is the global one.
    pub fn leave_scope(&mut self)
        ensures
            final(self)@ == old(self)@.pop_scope(),
            old(self).wf() ==> final(self).wf(),
    {
        if self.values.len() > 1 {
            self.values.pop();
            assert(self@.scopes =~= old(self)@.pop_scope().scopes);
        }
    }

    /// Whether the scope `dep` scopes outside the innermost is the global one.
    pub fn is_bottom(&self, dep: usize) -> (b: bool)
        ensures
            b == (dep + 1 == self@.scopes.len()),
    {
        dep < self.values.len() && dep == self.values.len() - 1
    }

    /// Declares `id` in the scope `dep` scopes outside the innermost, where
    /// it gets the next slot.
    ///
    /// Fails with `DuplicatedDef`, and changes nothing, where that scope
    /// declares `id` already.
    pub fn new_val(&mut self, id: String, dep: usize) -> (r: Result<(), Error>)
        requires
            dep < old(self)@.scopes.len(),
        ensures
            match position(old(self)@.scope(dep as int), id@, 0) {
                Some(_) => r == Err::<(), Error>(Error::DuplicatedDef) && final(self)@ == old(
                    self,
                )@,
                None => r is Ok && final(self)@ == old(self)@.declare(dep as int, id@),
            },
            old(self).wf() ==> final(self).wf(),
    {
        let index = self.values.len() - 1 - dep;
        if find(&self.values[index], &id).is_some() {
            return Err(Error::DuplicatedDef);
        }
        proof {
            lemma_declared_slot(old(self)@.scope(dep as int), id@, id@);
        }
        let scope = &mut self.values[index];
        scope.push(id);
        proof {
            assert(names_view(self.values@[index as int]@) =~= old(self)@.scope(dep as int).push(
                id@,
            ));
            assert(self@.scopes =~= old(self)@.declare(dep as int, id@).scopes);
        }
        Ok(())
    }

    /// Finds `id`: how many scopes outside the innermost it is declared, and
    /// its slot there. The innermost scope that declares it counts.
    ///
    /// Fails with `SymbolNotFound` where no scope declares it.
    pub fn get_val(&self, id: String) -> (r: Result<(usize, usize), Error>)
        ensures
            match self@.resolve(id@) {
                Some(found) => r == Ok::<(usize, usize), Error>(found),
                None => r == Err::<(usize, usize), Error>(Error::SymbolNotFound),
            },
    {
        let mut dep: usize = 0;
        while dep < self.values.len()
            invariant
                dep <= self.values.len(),
                self@.resolve(id@) == self@.resolve_from(id@, dep as nat),
            decreases self.values.len() - dep,
        {
            let index = self.values.len() - 1 - dep;
            match find(&self.values[index], &id) {
                Some(pos) => {
                    proof {
                        lemma_position(self@.scope(dep as int), id@, 0);
                    }
                    return Ok((dep, pos));
                },
                None => {},
            }
            dep = dep + 1;
        }
        Err(Error::SymbolNotFound)
    }

    /// How many names the scope `dep` scopes outside the innermost declares.
    pub fn get_values_count(&self, dep: usize) -> (n: usize)
        requires
            dep < self@.scopes.len(),
        ensures
            n == self@.scope(dep as int).len(),
    {
        let index = self.values.len() - 1 - dep;
        self.values[index].len()
    }

    /// Records the function `id` with its entry address and the names of its
    /// formal parameters.
    ///
    /// Fails with `DuplicatedDef`, and changes nothing, where a function of
    /// that name is recorded already.
    pub fn new_func(&mut self, id: String, addr: usize, args: Vec<String>) -> (r: Result<
        (),
        Error,
    >)
        ensures
            match old(self)@.function(id@) {
                Some(_) => r == Err::<(), Error>(Error::DuplicatedDef) && final(self)@ == old(
                    self,
                )@,
                None => r is Ok && final(self)@ == old(self)@.define(
                    Function { name: id@, addr, params: names_view(args@) },
                ),
            },
            old(self).wf() ==> final(self).wf(),
    {
        let mut i: usize = 0;
        while i < self.func_entry_addr.len()
            invariant
                i <= self.func_entry_addr.len(),
                self@.function(id@) == lookup(self@.funcs, id@, i as nat),
            decreases self.func_entry_addr.len() - i,
        {
            if self.func_entry_addr[i].0 == id {
                return Err(Error::DuplicatedDef);
            }
            i = i + 1;
        }
        proof {
            lemma_lookup(self@.funcs, id@, 0);
        }
        self.func_entry_addr.push((id, addr, args));
        assert(self@.funcs =~= old(self)@.funcs.push(
            Function { name: id@, addr, params: names_view(args@) },
        ));
        Ok(())
    }

    /// The entry address and the formal parameters of the function `id`.
    ///
    /// Fails with `SymbolNotFound` where no such function is recorded.
    pub fn get_func_addr(&self, id: String) -> (r: Result<(usize, Vec<String>), Error>)
        ensures
            match self@.function(id@) {
                Some(f) => r matches Ok((addr, params)) && addr == f.addr && names_view(params@)
                    == f.params,
                None => r matches Err(Error::SymbolNotFound),
            },
    {
        let mut i: usize = 0;
        while i < self.func_entry_addr.len()
            invariant
                i <= self.func_entry_addr.len(),
                self@.function(id@) == lookup(self@.funcs, id@, i as nat),
            decreases self.func_entry_addr.len() - i,
        {
            if self.func_entry_addr[i].0 == id {
                let params = copy_names(&self.func_entry_addr[i].2);
                return Ok((self.func_entry_addr[i].1, params));
            }
            i = i + 1;
        }
        Err(Error::SymbolNotFound)
    }

    /// How many scopes are open inside the global one.
    pub fn get_dep(&self) -> (dep: usize)
        requires
            self.wf(),
        ensures
            dep == self@.scopes.len() - 1,
    {
        self.values.len() - 1
    }
}

/// What `lookup` finds is the first function of that name, and it finds
/// nothing only where there is none.
pub proof fn lemma_lookup(funcs: Seq<Function>, name: Name, from: nat)
    ensures
        match lookup(funcs, name, from) {
            Some(f) => exists|i: int| from <= i < funcs.len() && funcs[i] == f && f.name == name,
            None => forall|j: int| from <= j < funcs.len() ==> funcs[j].name != name,
        },
    decreases funcs.len() - from,
{
    if from < funcs.len() && funcs[from as int].name != name {
        lemma_lookup(funcs, name, from + 1);
    }
}

} // verus!
