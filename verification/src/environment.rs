//! Variable environments: named flat mappings of string keys to string
//! values, used to resolve template substitution markers. Keys are unique;
//! mutation always yields a fully defined, consistent mapping.

use vstd::prelude::*;
use crate::text::kv_view;

verus! {

/// The value bound to `key` in `vars`, if any: the first pair whose key
/// matches.
pub open spec fn env_lookup(vars: Seq<(Seq<char>, Seq<char>)>, key: Seq<char>) -> Option<
    Seq<char>,
>
    decreases vars.len(),
{
    if vars.len() == 0 {
        None
    } else if vars[0].0 == key {
        Some(vars[0].1)
    } else {
        env_lookup(vars.drop_first(), key)
    }
}

/// `env_lookup` finds the first pair carrying `key`, or nothing when no pair
/// does.
pub proof fn lemma_env_lookup_spec(vars: Seq<(Seq<char>, Seq<char>)>, key: Seq<char>)
    ensures
        match env_lookup(vars, key) {
            Some(v) => exists|i: int|
                0 <= i < vars.len() && vars[i].0 == key && vars[i].1 == v && (forall|j: int|
                    0 <= j < i ==> vars[j].0 != key),
            None => forall|j: int| 0 <= j < vars.len() ==> vars[j].0 != key,
        },
    decreases vars.len(),
{
    if vars.len() > 0 && vars[0].0 != key {
        let t = vars.drop_first();
        lemma_env_lookup_spec(t, key);
        match env_lookup(t, key) {
            Some(v) => {
                let i = choose|i: int|
                    0 <= i < t.len() && t[i].0 == key && t[i].1 == v && (forall|j: int|
                        0 <= j < i ==> t[j].0 != key);
                assert(vars[i + 1] == t[i]);
                assert forall|j: int| 0 <= j < i + 1 implies vars[j].0 != key by {
                    if j > 0 {
                        assert(vars[j] == t[j - 1]);
                    }
                }
            },
            None => {
                assert forall|j: int| 0 <= j < vars.len() implies vars[j].0 != key by {
                    if j > 0 {
                        assert(vars[j] == t[j - 1]);
                    }
                }
            },
        }
    }
}

/// If the first pair carrying `key` sits at index `i`, lookup returns its
/// value.
pub proof fn lemma_env_lookup_at(vars: Seq<(Seq<char>, Seq<char>)>, key: Seq<char>, i: int)
    requires
        0 <= i < vars.len(),
        vars[i].0 == key,
        forall|j: int| 0 <= j < i ==> vars[j].0 != key,
    ensures
        env_lookup(vars, key) == Some(vars[i].1),
    decreases i,
{
    if i == 0 {
    } else {
        let t = vars.drop_first();
        assert forall|j: int| 0 <= j < i - 1 implies t[j].0 != key by {
            assert(t[j] == vars[j + 1]);
        }
        assert(t[i - 1] == vars[i]);
        lemma_env_lookup_at(t, key, i - 1);
    }
}

/// When no pair carries `key`, lookup returns nothing.
pub proof fn lemma_env_lookup_none(vars: Seq<(Seq<char>, Seq<char>)>, key: Seq<char>)
    requires
        forall|j: int| 0 <= j < vars.len() ==> vars[j].0 != key,
    ensures
        env_lookup(vars, key) is None,
{
    lemma_env_lookup_spec(vars, key);
    if env_lookup(vars, key) is Some {
        let i = choose|i: int| 0 <= i < vars.len() && vars[i].0 == key;
        assert(vars[i].0 != key);
    }
}

/// A named, flat bag of substitution variables.
pub struct Environment {
    pub id: usize,
    pub name: String,
    pub variables: Vec<(String, String)>,
}

impl Environment {
    /// The variable bindings, as character sequences, in storage order.
    pub open spec fn vars(&self) -> Seq<(Seq<char>, Seq<char>)> {
        kv_view(self.variables@)
    }

    /// Each key is bound at most once.
    pub open spec fn wf(&self) -> bool {
        forall|i: int, j: int|
            0 <= i < j < self.vars().len() ==> self.vars()[i].0 != self.vars()[j].0
    }

    /// A fresh environment with the given identifier and name and no
    /// variables.
    pub fn new(id: usize, name: &str) -> (r: Environment)
        ensures
            r.id == id,
            r.name@ == name@,
            r.vars() == Seq::<(Seq<char>, Seq<char>)>::empty(),
            r.wf(),
    {
        let r = Environment { id, name: name.to_owned(), variables: Vec::new() };
        proof {
            assert(r.vars() =~= Seq::<(Seq<char>, Seq<char>)>::empty());
        }
        r
    }

    /// An independent copy with the same identifier, name and variables.
    pub fn duplicate(&self) -> (r: Environment)
        ensures
            r.id == self.id,
            r.name@ == self.name@,
            r.vars() == self.vars(),
    {
        let mut vars: Vec<(String, String)> = Vec::new();
        let mut i: usize = 0;
        while i < self.variables.len()
            invariant
                0 <= i <= self.variables.len(),
                vars@.len() == i,
                forall|j: int| 0 <= j < i ==> vars@[j] == self.variables@[j],
            decreases self.variables.len() - i,
        {
            let k = self.variables[i].0.clone();
            let v = self.variables[i].1.clone();
            vars.push((k, v));
            i += 1;
        }
        let r = Environment { id: self.id, name: self.name.clone(), variables: vars };
        proof {
            assert(r.variables@ =~= self.variables@);
        }
        r
    }

    /// Replaces this environment's name and variables with those of `other`,
    /// keeping the identifier.
    pub fn assign_from(&mut self, other: &Environment)
        ensures
            final (self).id == old(self).id,
            final (self).name@ == other.name@,
            final (self).vars() == other.vars(),
    {
        let fresh = other.duplicate();
        self.name = fresh.name;
        self.variables = fresh.variables;
    }

    /// The value bound to `key`, or nothing when `key` is undefined.
    pub fn resolve(&self, key: &str) -> (r: Option<&String>)
        ensures
            match r {
                Some(v) => env_lookup(self.vars(), key@) == Some(v@),
                None => env_lookup(self.vars(), key@) is None,
            },
    {
        let n: usize = self.variables.len();
        let mut i: usize = 0;
        while i < n
            invariant
                n == self.variables.len(),
                0 <= i <= n,
                forall|j: int| 0 <= j < i ==> self.vars()[j].0 != key@,
            decreases n - i,
        {
            if crate::text::str_eq(self.variables[i].0.as_str(), key) {
                proof {
                    lemma_env_lookup_at(self.vars(), key@, i as int);
                }
                return Some(&self.variables[i].1);
            }
            i += 1;
        }
        proof {
            lemma_env_lookup_none(self.vars(), key@);
        }
        None
    }

    /// Binds `key` to `value`, replacing any earlier binding; every other
    /// binding is untouched.
    pub fn set_var(&mut self, key: &str, value: &str)
        requires
            old(self).wf(),
        ensures
            final (self).wf(),
            final (self).id == old(self).id,
            final (self).name@ == old(self).name@,
            env_lookup(final (self).vars(), key@) == Some(value@),
            forall|k: Seq<char>|
                k != key@ ==> env_lookup(final (self).vars(), k) == env_lookup(
                    old(self).vars(),
                    k,
                ),
    {
        let _ = self.remove_var(key);
        let ghost mid = self.vars();
        proof {
            lemma_env_lookup_spec(mid, key@);
        }
        self.variables.push((key.to_owned(), value.to_owned()));
        proof {
            assert(self.vars() =~= mid.push((key@, value@)));
            lemma_lookup_push(mid, key@, value@);
        }
    }

    /// Removes the binding of `key`; reports whether one existed. Every
    /// other binding is untouched.
    pub fn remove_var(&mut self, key: &str) -> (found: bool)
        requires
            old(self).wf(),
        ensures
            final (self).wf(),
            final (self).id == old(self).id,
            final (self).name@ == old(self).name@,
            found == (env_lookup(old(self).vars(), key@) is Some),
            env_lookup(final (self).vars(), key@) is None,
            forall|k: Seq<char>|
                k != key@ ==> env_lookup(final (self).vars(), k) == env_lookup(
                    old(self).vars(),
                    k,
                ),
    {
        let n: usize = self.variables.len();
        let mut i: usize = 0;
        while i < n
            invariant
                *self == *old(self),
                old(self).wf(),
                n == self.variables.len(),
                0 <= i <= n,
                forall|j: int| 0 <= j < i ==> self.vars()[j].0 != key@,
            decreases n - i,
        {
            if crate::text::str_eq(self.variables[i].0.as_str(), key) {
                let ghost before = self.vars();
                let _ = self.variables.remove(i);
                proof {
                    assert(self.vars() =~= before.remove(i as int));
                    lemma_env_lookup_at(before, key@, i as int);
                    lemma_lookup_remove(before, i as int);
                }
                return true;
            }
            i += 1;
        }
        proof {
            lemma_env_lookup_none(self.vars(), key@);
        }
        false
    }

    /// The number of variables.
    pub fn len(&self) -> (r: usize)
        ensures
            r == self.vars().len(),
    {
        self.variables.len()
    }
}

/// Appending a pair whose key is absent binds that key and leaves every
/// other key's binding unchanged.
proof fn lemma_lookup_push(vars: Seq<(Seq<char>, Seq<char>)>, key: Seq<char>, value: Seq<char>)
    requires
        forall|j: int| 0 <= j < vars.len() ==> vars[j].0 != key,
        forall|p: int, q: int| 0 <= p < q < vars.len() ==> vars[p].0 != vars[q].0,
    ensures
        env_lookup(vars.push((key, value)), key) == Some(value),
        forall|k: Seq<char>|
            k != key ==> env_lookup(vars.push((key, value)), k) == env_lookup(vars, k),
        forall|p: int, q: int|
            0 <= p < q < vars.push((key, value)).len() ==> vars.push((key, value))[p].0
                != vars.push((key, value))[q].0,
{
    let w = vars.push((key, value));
    assert(w[vars.len() as int].0 == key);
    assert forall|j: int| 0 <= j < vars.len() implies w[j] == vars[j] by {}
    lemma_env_lookup_at(w, key, vars.len() as int);
    assert forall|k: Seq<char>| k != key implies env_lookup(w, k) == env_lookup(vars, k) by {
        lemma_env_lookup_spec(vars, k);
        match env_lookup(vars, k) {
            Some(v) => {
                let p = choose|p: int|
                    0 <= p < vars.len() && vars[p].0 == k && vars[p].1 == v && (forall|j: int|
                        0 <= j < p ==> vars[j].0 != k);
                lemma_env_lookup_at(w, k, p);
            },
            None => {
                lemma_env_lookup_none(w, k);
            },
        }
    }
}

/// Removing the pair at `i` (whose key is unique in `vars`) unbinds that key
/// and leaves every other key's binding unchanged.
proof fn lemma_lookup_remove(vars: Seq<(Seq<char>, Seq<char>)>, i: int)
    requires
        0 <= i < vars.len(),
        forall|p: int, q: int| 0 <= p < q < vars.len() ==> vars[p].0 != vars[q].0,
    ensures
        env_lookup(vars.remove(i), vars[i].0) is None,
        forall|k: Seq<char>|
            k != vars[i].0 ==> env_lookup(vars.remove(i), k) == env_lookup(vars, k),
        forall|p: int, q: int|
            0 <= p < q < vars.remove(i).len() ==> vars.remove(i)[p].0 != vars.remove(i)[q].0,
{
    let w = vars.remove(i);
    let key = vars[i].0;
    assert forall|j: int| 0 <= j < w.len() implies w[j].0 != key by {
        if j < i {
            assert(w[j] == vars[j]);
        } else {
            assert(w[j] == vars[j + 1]);
        }
    }
    lemma_env_lookup_none(w, key);
    assert forall|p: int, q: int| 0 <= p < q < w.len() implies w[p].0 != w[q].0 by {
        if q < i {
        } else if p < i {
            assert(w[p] == vars[p]);
            assert(w[q] == vars[q + 1]);
        } else {
            assert(w[p] == vars[p + 1]);
            assert(w[q] == vars[q + 1]);
        }
    }
    assert forall|k: Seq<char>| k != key implies env_lookup(w, k) == env_lookup(vars, k) by {
        lemma_env_lookup_spec(vars, k);
        match env_lookup(vars, k) {
            Some(v) => {
                let p = choose|p: int|
                    0 <= p < vars.len() && vars[p].0 == k && vars[p].1 == v && (forall|j: int|
                        0 <= j < p ==> vars[j].0 != k);
                let p2: int = if p < i {
                    p
                } else {
                    p - 1
                };
                assert(w[p2] == vars[p]);
                assert forall|j: int| 0 <= j < p2 implies w[j].0 != k by {
                    if j < i {
                        assert(w[j] == vars[j]);
                    } else {
                        assert(w[j] == vars[j + 1]);
                    }
                }
                lemma_env_lookup_at(w, k, p2);
            },
            None => {
                lemma_env_lookup_none(w, k);
            },
        }
    }
}

} // verus!
