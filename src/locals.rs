use vstd::prelude::*;

use crate::ast::{DefineVariable, Type, REGISTER_SIZE};

verus! {

/// The symbol table of one function, as the sequence of its variables
/// (name and type) in declaration order. The variable at index `i` lives at
/// `rbp - 8 * (i + 1)`.
pub type Env = Seq<(Seq<char>, Type)>;

/// Most variables one function may declare: their offsets must fit in `usize`.
pub const MAX_LOCALS: usize = usize::MAX / 8 - 1;

/// Index of the first variable named `name`, searching from index `i`.
pub open spec fn lookup_from(env: Env, name: Seq<char>, i: int) -> Option<int>
    decreases env.len() - i,
{
    if i < 0 || i >= env.len() {
        None
    } else if env[i].0 == name {
        Some(i)
    } else {
        lookup_from(env, name, i + 1)
    }
}

pub open spec fn lookup(env: Env, name: Seq<char>) -> Option<int> {
    lookup_from(env, name, 0)
}

/// Frame offset of the variable at index `i`.
pub open spec fn slot_offset(i: int) -> int {
    8 * (i + 1)
}

/// The table after declaring `name`: a name already present keeps its first slot.
pub open spec fn env_add(env: Env, name: Seq<char>, ty: Type) -> Env {
    if lookup(env, name) is Some {
        env
    } else {
        env.push((name, ty))
    }
}

pub proof fn lemma_lookup_from(env: Env, name: Seq<char>, i: int)
    requires
        0 <= i,
    ensures
        lookup_from(env, name, i) matches Some(k) ==> i <= k < env.len() && env[k].0 == name,
        lookup_from(env, name, i) is None ==> forall|k: int| i <= k < env.len() ==> env[k].0 != name,
    decreases env.len() - i,
{
    if i < env.len() && env[i].0 != name {
        lemma_lookup_from(env, name, i + 1);
    }
}

/// Assigns each local variable of a function its frame slot.
#[derive(Debug)]
pub struct LocalVariableAssigner {
    pub local_variables: Vec<(String, Type)>,
    pub current_offset: usize,
}

impl View for LocalVariableAssigner {
    type V = Env;

    open spec fn view(&self) -> Env {
        self.local_variables@.map_values(|e: (String, Type)| (e.0@, e.1))
    }
}

impl LocalVariableAssigner {
    /// The offset counter stands at the last slot in use, and there is room for one more.
    pub open spec fn wf(&self) -> bool {
        &&& self.local_variables@.len() <= MAX_LOCALS
        &&& self.current_offset == 8 * self.local_variables@.len()
    }

    pub fn new() -> (r: Self)
        ensures
            r.wf(),
            r@ == Seq::<(Seq<char>, Type)>::empty(),
    {
        let r = Self { local_variables: Vec::new(), current_offset: 0 };
        assert(r@ =~= Seq::<(Seq<char>, Type)>::empty());
        r
    }

    pub fn clear(&mut self)
        ensures
            final(self).wf(),
            final(self)@ == Seq::<(Seq<char>, Type)>::empty(),
    {
        self.current_offset = 0;
        self.local_variables = Vec::new();
        assert(self@ =~= Seq::<(Seq<char>, Type)>::empty());
    }

    /// Declares `variable`; returns the slot size taken, or `None` when the
    /// name is already declared, which leaves the table as it was.
    pub fn assign_local_variable(&mut self, variable: &DefineVariable) -> (r: Option<usize>)
        requires
            old(self).wf(),
            old(self)@.len() < MAX_LOCALS,
        ensures
            final(self).wf(),
            final(self)@ == env_add(old(self)@, variable.name@, variable.ty),
            r == (if lookup(old(self)@, variable.name@) is Some {
                None::<usize>
            } else {
                Some(REGISTER_SIZE)
            }),
    {
        match self.find(variable.name()) {
            Some(_) => None,
            None => {
                let ghost before = self.local_variables@;
                self.current_offset = self.current_offset + REGISTER_SIZE;
                self.local_variables.push((String::from_str(variable.name()), variable.ty.clone()));
                assert(self@ =~= env_add(before.map_values(|e: (String, Type)| (e.0@, e.1)), variable.name@, variable.ty));
                Some(REGISTER_SIZE)
            },
        }
    }

    fn find(&self, name: &str) -> (r: Option<usize>)
        ensures
            match r {
                Some(i) => lookup(self@, name@) == Some(i as int),
                None => lookup(self@, name@) is None,
            },
    {
        let key = String::from_str(name);
        let mut i: usize = 0;
        while i < self.local_variables.len()
            invariant
                0 <= i <= self.local_variables@.len(),
                key@ == name@,
                lookup(self@, name@) == lookup_from(self@, name@, i as int),
            decreases self.local_variables@.len() - i,
        {
            if self.local_variables[i].0 == key {
                return Some(i);
            }
            i = i + 1;
        }
        None
    }

    /// The slot offset and type of the variable named `variable_name`.
    pub fn get_local_variable(&self, variable_name: &str) -> (r: Option<(usize, Type)>)
        requires
            self.wf(),
        ensures
            match lookup(self@, variable_name@) {
                Some(i) => r matches Some((off, ty)) && off == slot_offset(i) && ty == self@[i].1,
                None => r is None,
            },
    {
        proof {
            lemma_lookup_from(self@, variable_name@, 0);
        }
        match self.find(variable_name) {
            Some(i) => {
                let off = REGISTER_SIZE * (i + 1);
                Some((off, self.local_variables[i].1.clone()))
            },
            None => None,
        }
    }
}

} // verus!
