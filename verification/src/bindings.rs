//! Variables bound by name, for hosts that do not know a program's indices.

use crate::arith::{agrees, total, Operation, Oracle};
use crate::bytecode::Program;
use crate::error::{Error, ErrorKind, Fault};
use crate::pool::{distinct, find_name, index_of, lemma_index_of, lemma_index_of_push, names};
use crate::vm::{evaluate, gives, Context};
use vstd::prelude::*;

verus! {

/// Values of variables, by name: what a host that knows no indices hands
/// over. Each name is held once.
#[derive(Debug, Clone)]
pub struct Bindings {
    pub names: Vec<String>,
    pub values: Vec<u64>,
}

impl Bindings {
    /// Names and values run in parallel, and no name is held twice.
    pub open spec fn wf(&self) -> bool {
        &&& self.names@.len() == self.values@.len()
        &&& distinct(names(self.names@))
    }

    /// The value bound to a name, if any.
    pub open spec fn lookup(&self, name: Seq<char>) -> Option<u64> {
        let i = index_of(names(self.names@), name);
        if i < self.names@.len() {
            Some(self.values@[i])
        } else {
            None
        }
    }

    /// Bindings that bind nothing.
    pub fn new() -> (b: Self)
        ensures
            b.wf(),
            forall|name: Seq<char>| b.lookup(name) is None,
    {
        let b = Self { names: Vec::new(), values: Vec::new() };
        assert forall|name: Seq<char>| b.lookup(name) is None by {
            lemma_index_of(names(b.names@), name);
        }
        b
    }

    /// Binds `name` to `value`, in place of what it was bound to.
    pub fn set(&mut self, name: &str, value: u64)
        requires
            old(self).wf(),
        ensures
            final(self).wf(),
            forall|other: Seq<char>|
                final(self).lookup(other) == if other == name@ {
                    Some(value)
                } else {
                    old(self).lookup(other)
                },
    {
        let i = find_name(&self.names, name);
        let ghost before = names(self.names@);
        proof {
            lemma_index_of(before, name@);
        }
        if i < self.names.len() {
            self.values[i] = value;
            assert forall|other: Seq<char>|
                self.lookup(other) == if other == name@ {
                    Some(value)
                } else {
                    old(self).lookup(other)
                } by {
                lemma_index_of(before, other);
            }
        } else {
            self.names.push(String::from_str(name));
            self.values.push(value);
            assert(names(self.names@) =~= before.push(name@));
            assert forall|other: Seq<char>|
                self.lookup(other) == if other == name@ {
                    Some(value)
                } else {
                    old(self).lookup(other)
                } by {
                lemma_index_of_push(before, name@, other);
                lemma_index_of(before, other);
            }
        }
    }

    /// The value bound to `name`, if any.
    pub fn get(&self, name: &str) -> (v: Option<u64>)
        requires
            self.wf(),
        ensures
            v == self.lookup(name@),
    {
        let i = find_name(&self.names, name);
        if i < self.names.len() {
            Some(self.values[i])
        } else {
            None
        }
    }
}

impl Program {
    /// The context that holds, for each variable of the program, the value
    /// that `bindings` gives its name. The first variable without a value
    /// is reported as undefined.
    pub fn bind(&self, bindings: &Bindings) -> (r: Result<Context, Error>)
        requires
            bindings.wf(),
        ensures
            r matches Ok(ctx) ==> {
                &&& ctx@.len() == self@.var_names.len()
                &&& forall|i: int|
                    0 <= i < ctx@.len() ==> bindings.lookup(self@.var_names[i]) == Some(
                        #[trigger] ctx@[i],
                    )
            },
            r matches Err(e) ==> exists|k: int|
                {
                    &&& 0 <= k < self@.var_names.len()
                    &&& bindings.lookup(#[trigger] self@.var_names[k]) is None
                    &&& forall|j: int|
                        0 <= j < k ==> bindings.lookup(#[trigger] self@.var_names[j]) is Some
                    &&& e.kind@ == Fault::UndefinedVariable(self@.var_names[k])
                    &&& e.position is None
                    &&& e.source is None
                },
    {
        let mut values: Vec<u64> = Vec::with_capacity(self.var_names.len());
        let mut i: usize = 0;
        while i < self.var_names.len()
            invariant
                bindings.wf(),
                i <= self.var_names.len(),
                values@.len() == i,
                forall|j: int|
                    0 <= j < i ==> bindings.lookup(self@.var_names[j]) == Some(
                        #[trigger] values@[j],
                    ),
            decreases self.var_names.len() - i,
        {
            match bindings.get(self.var_names[i].as_str()) {
                Some(v) => {
                    values.push(v);
                },
                None => {
                    let e = Error::new(ErrorKind::UndefinedVariable(self.var_names[i].clone()));
                    proof {
                        let k = i as int;
                        assert(bindings.lookup(self@.var_names[k]) is None);
                        assert(e.kind@ == Fault::UndefinedVariable(self@.var_names[k]));
                        assert forall|j: int| 0 <= j < k implies bindings.lookup(
                            #[trigger] self@.var_names[j],
                        ) is Some by {
                            assert(bindings.lookup(self@.var_names[j]) == Some(values@[j]));
                        }
                    }
                    return Err(e);
                },
            }
            i += 1;
        }
        Ok(Context { values })
    }

    /// Evaluates the program with its variables bound by name.
    pub fn eval_named<F: Fn(Operation) -> u64>(&self, bindings: &Bindings, unit: &F) -> (r: Result<
        u64,
        Error,
    >)
        requires
            total(unit),
            self@.well_formed(),
            bindings.wf(),
        ensures
            (forall|i: int|
                0 <= i < self@.var_names.len() ==> bindings.lookup(#[trigger] self@.var_names[i])
                    is Some) ==> forall|o: Oracle| #[trigger]
                agrees(unit, o) ==> {
                    let env = Seq::new(
                        self@.var_names.len(),
                        |i: int| bindings.lookup(self@.var_names[i])->0,
                    );
                    gives(r, evaluate(self@, env, o))
                },
            (exists|i: int|
                0 <= i < self@.var_names.len() && bindings.lookup(#[trigger] self@.var_names[i])
                    is None) ==> (r matches Err(e) && e.kind@ is UndefinedVariable),
    {
        match self.bind(bindings) {
            Err(e) => Err(e),
            Ok(context) => {
                assert forall|i: int| 0 <= i < self@.var_names.len() implies bindings.lookup(
                    #[trigger] self@.var_names[i],
                ) is Some by {
                    assert(bindings.lookup(self@.var_names[i]) == Some(context@[i]));
                }
                assert(context@ =~= Seq::new(
                    self@.var_names.len(),
                    |i: int| bindings.lookup(self@.var_names[i])->0,
                ));
                self.eval(&context, unit)
            },
        }
    }
}

} // verus!
