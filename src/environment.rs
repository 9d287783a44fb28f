use vstd::prelude::*;
use crate::token::Token;
use crate::value::{ErrorModel, InterpreterError, Value, ValueModel, outcome};

verus! {

/// The map that a list of bindings denotes: a later binding of a name wins.
pub open spec fn bindings_map(s: Seq<(String, Value)>) -> Map<Seq<char>, ValueModel>
    decreases s.len(),
{
    if s.len() == 0 {
        Map::empty()
    } else {
        bindings_map(s.drop_last()).insert(s.last().0@, s.last().1@)
    }
}

proof fn lemma_absent(s: Seq<(String, Value)>, k: Seq<char>)
    requires
        forall|j: int| 0 <= j < s.len() ==> (#[trigger] s[j]).0@ != k,
    ensures
        !bindings_map(s).contains_key(k),
    decreases s.len(),
{
    if s.len() > 0 {
        assert(forall|j: int| 0 <= j < s.drop_last().len() ==> s.drop_last()[j] == s[j]);
        lemma_absent(s.drop_last(), k);
    }
}

proof fn lemma_last_binding(s: Seq<(String, Value)>, i: int)
    requires
        0 <= i < s.len(),
        forall|j: int| i < j < s.len() ==> (#[trigger] s[j]).0@ != s[i].0@,
    ensures
        bindings_map(s).contains_key(s[i].0@),
        bindings_map(s)[s[i].0@] == s[i].1@,
    decreases s.len(),
{
    if i < s.len() - 1 {
        assert(forall|j: int| 0 <= j < s.drop_last().len() ==> s.drop_last()[j] == s[j]);
        lemma_last_binding(s.drop_last(), i);
    }
}

proof fn lemma_rebind(s: Seq<(String, Value)>, i: int, e: (String, Value))
    requires
        0 <= i < s.len(),
        e.0@ == s[i].0@,
        forall|j: int| i < j < s.len() ==> (#[trigger] s[j]).0@ != s[i].0@,
    ensures
        bindings_map(s.update(i, e)) == bindings_map(s).insert(e.0@, e.1@),
    decreases s.len(),
{
    let t = s.update(i, e);
    if i == s.len() - 1 {
        assert(t.drop_last() =~= s.drop_last());
        assert(bindings_map(t) =~= bindings_map(s).insert(e.0@, e.1@));
    } else {
        assert(t.drop_last() =~= s.drop_last().update(i, e));
        assert(forall|j: int| 0 <= j < s.drop_last().len() ==> s.drop_last()[j] == s[j]);
        lemma_rebind(s.drop_last(), i, e);
        assert(s.last().0@ != e.0@);
        assert(bindings_map(t) =~= bindings_map(s).insert(e.0@, e.1@));
    }
}

/// The single flat scope of variables.
pub struct Environment {
    values: Vec<(String, Value)>,
}

impl Environment {
    /// The bindings, by name.
    pub closed spec fn bound(self) -> Map<Seq<char>, ValueModel> {
        bindings_map(self.values@)
    }

    pub fn new() -> (r: Environment)
        ensures
            r.bound() == Map::<Seq<char>, ValueModel>::empty(),
    {
        Environment { values: Vec::new() }
    }

    /// The index of the last binding of `name`, if any.
    fn find(&self, name: &String) -> (r: Option<usize>)
        ensures
            match r {
                Some(i) => i < self.values@.len() && self.values@[i as int].0@ == name@ && forall|j: int|
                    i < j < self.values@.len() ==> (#[trigger] self.values@[j]).0@ != name@,
                None => forall|j: int| 0 <= j < self.values@.len() ==> (#[trigger] self.values@[j]).0@ != name@,
            },
    {
        let mut i: usize = self.values.len();
        while i > 0
            invariant
                0 <= i <= self.values@.len(),
                forall|j: int| i <= j < self.values@.len() ==> (#[trigger] self.values@[j]).0@ != name@,
            decreases i,
        {
            i = i - 1;
            if self.values[i].0 == *name {
                return Some(i);
            }
        }
        None
    }

    /// Binds `name` to `value`, replacing any earlier binding.
    pub fn define(&mut self, name: String, value: Value)
        ensures
            final(self).bound() == old(self).bound().insert(name@, value@),
    {
        match self.find(&name) {
            Some(i) => {
                proof {
                    lemma_rebind(self.values@, i as int, (name, value));
                }
                self.values.set(i, (name, value));
            },
            None => {
                let ghost before = self.values@;
                self.values.push((name, value));
                assert(self.values@.drop_last() == before);
            },
        }
    }

    /// A copy of the value bound to the token's lexeme; an undefined-variable error if none is.
    pub fn get(&self, token: Token) -> (r: Result<Value, InterpreterError>)
        ensures
            outcome(r) == (if self.bound().contains_key(token.lexeme@) {
                Ok::<ValueModel, ErrorModel>(self.bound()[token.lexeme@])
            } else {
                Err::<ValueModel, ErrorModel>(ErrorModel::UndefinedVariable(token.lexeme@))
            }),
    {
        match self.find(&token.lexeme) {
            Some(i) => {
                proof {
                    lemma_last_binding(self.values@, i as int);
                }
                Ok(self.values[i].1.cloned())
            },
            None => {
                proof {
                    lemma_absent(self.values@, token.lexeme@);
                }
                Err(InterpreterError::UndefinedVariable(token.lexeme))
            },
        }
    }
}

} // verus!
