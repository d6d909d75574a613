//! The workspace: the aggregate root holding an ordered collection of named
//! request templates and named environments. Identifiers are assigned
//! monotonically and never reused after deletion, so a stale reference fails
//! loudly instead of silently aliasing a newer entity.

use vstd::prelude::*;
use crate::environment::Environment;
use crate::template::{compile_spec, CompilationError, CompileErr};

verus! {

/// One named, editable request template.
#[derive(Debug)]
pub struct Request {
    pub id: usize,
    pub name: String,
    pub template: String,
}

/// An operation referenced an identifier the workspace does not hold.
#[derive(Clone, Copy, PartialEq, Eq, Structural, Debug)]
pub enum WorkspaceError {
    NotFound,
}

/// Index of the first request carrying `id`, if any.
pub open spec fn find_req(s: Seq<Request>, id: usize) -> Option<int>
    decreases s.len(),
{
    if s.len() == 0 {
        None
    } else if s[0].id == id {
        Some(0int)
    } else {
        match find_req(s.drop_first(), id) {
            Some(i) => Some(i + 1),
            None => None,
        }
    }
}

/// The request carrying `id`, if any.
pub open spec fn lookup_req(s: Seq<Request>, id: usize) -> Option<Request> {
    match find_req(s, id) {
        Some(i) => if 0 <= i < s.len() {
            Some(s[i])
        } else {
            None
        },
        None => None,
    }
}

/// `find_req` finds the least index carrying `id`, or nothing.
pub proof fn lemma_find_req_spec(s: Seq<Request>, id: usize)
    ensures
        match find_req(s, id) {
            Some(i) => 0 <= i < s.len() && s[i].id == id && (forall|j: int|
                0 <= j < i ==> s[j].id != id),
            None => forall|j: int| 0 <= j < s.len() ==> s[j].id != id,
        },
    decreases s.len(),
{
    if s.len() > 0 && s[0].id != id {
        let t = s.drop_first();
        lemma_find_req_spec(t, id);
        match find_req(t, id) {
            Some(i) => {
                assert(s[i + 1] == t[i]);
                assert forall|j: int| 0 <= j < i + 1 implies s[j].id != id by {
                    if j > 0 {
                        assert(s[j] == t[j - 1]);
                    }
                }
            },
            None => {
                assert forall|j: int| 0 <= j < s.len() implies s[j].id != id by {
                    if j > 0 {
                        assert(s[j] == t[j - 1]);
                    }
                }
            },
        }
    }
}

/// If the first request carrying `id` sits at `i`, the search finds exactly
/// `i`.
pub proof fn lemma_find_req_at(s: Seq<Request>, id: usize, i: int)
    requires
        0 <= i < s.len(),
        s[i].id == id,
        forall|j: int| 0 <= j < i ==> s[j].id != id,
    ensures
        find_req(s, id) == Some(i),
{
    lemma_find_req_spec(s, id);
    match find_req(s, id) {
        Some(k) => {
            if k < i {
                assert(s[k].id != id);
            } else if k > i {
                assert(s[i].id != id);
            }
        },
        None => {
            assert(s[i].id != id);
        },
    }
}

/// When no request carries `id`, the search finds nothing.
pub proof fn lemma_find_req_none(s: Seq<Request>, id: usize)
    requires
        forall|j: int| 0 <= j < s.len() ==> s[j].id != id,
    ensures
        find_req(s, id) is None,
{
    lemma_find_req_spec(s, id);
    if find_req(s, id) is Some {
        let i = find_req(s, id)->0;
        assert(s[i].id != id);
    }
}

/// Index of the first environment carrying `id`, if any.
pub open spec fn find_env(s: Seq<Environment>, id: usize) -> Option<int>
    decreases s.len(),
{
    if s.len() == 0 {
        None
    } else if s[0].id == id {
        Some(0int)
    } else {
        match find_env(s.drop_first(), id) {
            Some(i) => Some(i + 1),
            None => None,
        }
    }
}

/// If the first environment carrying `id` sits at `i`, the search finds
/// exactly `i`.
pub proof fn lemma_find_env_at(s: Seq<Environment>, id: usize, i: int)
    requires
        0 <= i < s.len(),
        s[i].id == id,
        forall|j: int| 0 <= j < i ==> s[j].id != id,
    ensures
        find_env(s, id) == Some(i),
    decreases i,
{
    if i == 0 {
    } else {
        let t = s.drop_first();
        assert forall|j: int| 0 <= j < i - 1 implies t[j].id != id by {
            assert(t[j] == s[j + 1]);
        }
        assert(t[i - 1] == s[i]);
        lemma_find_env_at(t, id, i - 1);
    }
}

/// When no environment carries `id`, the search finds nothing.
pub proof fn lemma_find_env_none(s: Seq<Environment>, id: usize)
    requires
        forall|j: int| 0 <= j < s.len() ==> s[j].id != id,
    ensures
        find_env(s, id) is None,
    decreases s.len(),
{
    if s.len() > 0 {
        let t = s.drop_first();
        assert forall|j: int| 0 <= j < t.len() implies t[j].id != id by {
            assert(t[j] == s[j + 1]);
        }
        lemma_find_env_none(t, id);
    }
}

/// The persisted collection of requests and environments for one project.
pub struct Workspace {
    pub name: String,
    pub requests: Vec<Request>,
    pub environments: Vec<Environment>,
    pub next_request_id: usize,
    pub next_environment_id: usize,
}

impl Workspace {
    /// Identifiers are unique, increase in storage (= creation) order, stay
    /// below the next free identifier, and every environment is internally
    /// consistent.
    pub open spec fn wf(&self) -> bool {
        (forall|i: int, j: int|
            0 <= i < j < self.requests@.len() ==> #[trigger] self.requests@[i].id
                < #[trigger] self.requests@[j].id) && (forall|i: int|
            0 <= i < self.requests@.len() ==> #[trigger] self.requests@[i].id
                < self.next_request_id) && (forall|i: int, j: int|
            0 <= i < j < self.environments@.len() ==> #[trigger] self.environments@[i].id
                < #[trigger] self.environments@[j].id) && (forall|i: int|
            0 <= i < self.environments@.len() ==> #[trigger] self.environments@[i].id
                < self.next_environment_id) && (forall|i: int|
            0 <= i < self.environments@.len() ==> (#[trigger] self.environments@[i]).wf())
    }

    /// A fresh, empty workspace.
    pub fn new(name: &str) -> (r: Workspace)
        ensures
            r.wf(),
            r.name@ == name@,
            r.requests@ == Seq::<Request>::empty(),
            r.environments@ == Seq::<Environment>::empty(),
            r.next_request_id == 1,
            r.next_environment_id == 1,
    {
        let r = Workspace {
            name: name.to_owned(),
            requests: Vec::new(),
            environments: Vec::new(),
            next_request_id: 1,
            next_environment_id: 1,
        };
        proof {
            assert(r.requests@ =~= Seq::<Request>::empty());
            assert(r.environments@ =~= Seq::<Environment>::empty());
        }
        r
    }

    /// The workspace's name.
    pub fn name(&self) -> (r: &str)
        ensures
            r@ == self.name@,
    {
        self.name.as_str()
    }

    /// The requests, in creation order.
    pub fn requests(&self) -> (r: &Vec<Request>)
        ensures
            r@ == self.requests@,
    {
        &self.requests
    }

    /// The environments, in creation order.
    pub fn environments(&self) -> (r: &Vec<Environment>)
        ensures
            r@ == self.environments@,
    {
        &self.environments
    }

    /// Index of the request carrying `id`, scanning in storage order.
    fn index_of_request(&self, id: usize) -> (r: Option<usize>)
        ensures
            match r {
                Some(i) => find_req(self.requests@, id) == Some(i as int),
                None => find_req(self.requests@, id) is None,
            },
    {
        let n: usize = self.requests.len();
        let mut i: usize = 0;
        while i < n
            invariant
                n == self.requests.len(),
                0 <= i <= n,
                forall|j: int| 0 <= j < i ==> self.requests@[j].id != id,
            decreases n - i,
        {
            if self.requests[i].id == id {
                proof {
                    lemma_find_req_at(self.requests@, id, i as int);
                }
                return Some(i);
            }
            i += 1;
        }
        proof {
            lemma_find_req_none(self.requests@, id);
        }
        None
    }

    /// Index of the environment carrying `id`.
    fn index_of_environment(&self, id: usize) -> (r: Option<usize>)
        ensures
            match r {
                Some(i) => find_env(self.environments@, id) == Some(i as int),
                None => find_env(self.environments@, id) is None,
            },
    {
        let n: usize = self.environments.len();
        let mut i: usize = 0;
        while i < n
            invariant
                n == self.environments.len(),
                0 <= i <= n,
                forall|j: int| 0 <= j < i ==> self.environments@[j].id != id,
            decreases n - i,
        {
            if self.environments[i].id == id {
                proof {
                    lemma_find_env_at(self.environments@, id, i as int);
                }
                return Some(i);
            }
            i += 1;
        }
        proof {
            lemma_find_env_none(self.environments@, id);
        }
        None
    }

    /// The request carrying `id`, or nothing when `id` is stale or unknown.
    pub fn request(&self, id: usize) -> (r: Option<&Request>)
        ensures
            match r {
                Some(q) => lookup_req(self.requests@, id) == Some(*q),
                None => lookup_req(self.requests@, id) is None,
            },
    {
        match self.index_of_request(id) {
            Some(i) => {
                proof {
                    lemma_find_req_spec(self.requests@, id);
                }
                Some(&self.requests[i])
            },
            None => None,
        }
    }

    /// The environment carrying `id`, or nothing.
    pub fn environment(&self, id: usize) -> (r: Option<&Environment>)
        ensures
            match r {
                Some(e) => {
                    &&& find_env(self.environments@, id) is Some
                    &&& 0 <= find_env(self.environments@, id)->0 < self.environments@.len()
                    &&& self.environments@[find_env(self.environments@, id)->0] == *e
                },
                None => find_env(self.environments@, id) is None,
            },
    {
        match self.index_of_environment(id) {
            Some(i) => {
                proof {
                    if i >= self.environments.len() {
                        lemma_find_env_bounds(self.environments@, id);
                    }
                }
                Some(&self.environments[i])
            },
            None => None,
        }
    }

    /// Creates a request with the next unused identifier, the default name
    /// and an empty template, appended at the end; returns a snapshot of it.
    pub fn create_request(&mut self) -> (r: Request)
        requires
            old(self).wf(),
            old(self).next_request_id < usize::MAX,
        ensures
            final (self).wf(),
            r.id == old(self).next_request_id,
            r.name@ == "Untitled"@,
            r.template@ == Seq::<char>::empty(),
            final (self).requests@.len() == old(self).requests@.len() + 1,
            forall|j: int|
                0 <= j < old(self).requests@.len() ==> final (self).requests@[j] == old(
                    self,
                ).requests@[j],
            final (self).requests@.last().id == r.id,
            final (self).requests@.last().name@ == r.name@,
            final (self).requests@.last().template@ == r.template@,
            final (self).next_request_id == old(self).next_request_id + 1,
            final (self).environments@ == old(self).environments@,
            final (self).next_environment_id == old(self).next_environment_id,
            final (self).name@ == old(self).name@,
    {
        let id = self.next_request_id;
        self.next_request_id = id + 1;
        let stored = Request { id, name: "Untitled".to_owned(), template: String::new() };
        self.requests.push(stored);
        Request { id, name: "Untitled".to_owned(), template: String::new() }
    }

    /// Removes the request carrying `id` and reports whether one existed;
    /// an absent identifier leaves the workspace unchanged.
    pub fn delete_request(&mut self, id: usize) -> (found: bool)
        requires
            old(self).wf(),
        ensures
            final (self).wf(),
            match find_req(old(self).requests@, id) {
                None => !found && final (self).requests@ == old(self).requests@,
                Some(i) => found && final (self).requests@ == old(self).requests@.remove(i),
            },
            final (self).environments@ == old(self).environments@,
            final (self).next_request_id == old(self).next_request_id,
            final (self).next_environment_id == old(self).next_environment_id,
            final (self).name@ == old(self).name@,
    {
        match self.index_of_request(id) {
            None => false,
            Some(i) => {
                proof {
                    lemma_find_req_spec(self.requests@, id);
                }
                let _ = self.requests.remove(i);
                proof {
                    assert forall|p: int, q: int|
                        0 <= p < q < self.requests@.len() implies #[trigger] self.requests@[p].id
                        < #[trigger] self.requests@[q].id by {
                        let s = old(self).requests@;
                        if q < i {
                        } else if p < i {
                            assert(self.requests@[p] == s[p]);
                            assert(self.requests@[q] == s[q + 1]);
                        } else {
                            assert(self.requests@[p] == s[p + 1]);
                            assert(self.requests@[q] == s[q + 1]);
                        }
                    }
                    assert forall|p: int|
                        0 <= p < self.requests@.len() implies #[trigger] self.requests@[p].id
                        < self.next_request_id by {
                        let s = old(self).requests@;
                        if p < i {
                            assert(self.requests@[p] == s[p]);
                        } else {
                            assert(self.requests@[p] == s[p + 1]);
                        }
                    }
                }
                true
            },
        }
    }

    /// Renames the request carrying `id`, or reports `NotFound` and changes
    /// nothing.
    pub fn set_request_name(&mut self, id: usize, name: &str) -> (r: Result<(), WorkspaceError>)
        requires
            old(self).wf(),
        ensures
            final (self).wf(),
            match find_req(old(self).requests@, id) {
                None => r == Err::<(), WorkspaceError>(WorkspaceError::NotFound) && final(self).requests@ == old(self).requests@,
                Some(i) => {
                    &&& r == Ok::<(), WorkspaceError>(())
                    &&& final (self).requests@.len() == old(self).requests@.len()
                    &&& final (self).requests@[i].id == old(self).requests@[i].id
                    &&& final (self).requests@[i].name@ == name@
                    &&& final (self).requests@[i].template@ == old(self).requests@[i].template@
                    &&& forall|j: int|
                        0 <= j < old(self).requests@.len() && j != i ==> final (self).requests@[j]
                            == old(self).requests@[j]
                },
            },
            final (self).environments@ == old(self).environments@,
            final (self).next_request_id == old(self).next_request_id,
            final (self).next_environment_id == old(self).next_environment_id,
            final (self).name@ == old(self).name@,
    {
        match self.index_of_request(id) {
            None => Err(WorkspaceError::NotFound),
            Some(i) => {
                proof {
                    lemma_find_req_spec(self.requests@, id);
                }
                let prior = self.requests.remove(i);
                self.requests.insert(
                    i,
                    Request { id: prior.id, name: name.to_owned(), template: prior.template },
                );
                proof {
                    lemma_replace_at(old(self).requests@, self.requests@, i as int);
                    assert(self.wf());
                }
                Ok(())
            },
        }
    }

    /// Replaces the template of the request carrying `id`, or reports
    /// `NotFound` and changes nothing.
    pub fn set_request_template(&mut self, id: usize, text: &str) -> (r: Result<
        (),
        WorkspaceError,
    >)
        requires
            old(self).wf(),
        ensures
            final (self).wf(),
            match find_req(old(self).requests@, id) {
                None => r == Err::<(), WorkspaceError>(WorkspaceError::NotFound) && final(self).requests@ == old(self).requests@,
                Some(i) => {
                    &&& r == Ok::<(), WorkspaceError>(())
                    &&& final (self).requests@.len() == old(self).requests@.len()
                    &&& final (self).requests@[i].id == old(self).requests@[i].id
                    &&& final (self).requests@[i].name@ == old(self).requests@[i].name@
                    &&& final (self).requests@[i].template@ == text@
                    &&& forall|j: int|
                        0 <= j < old(self).requests@.len() && j != i ==> final (self).requests@[j]
                            == old(self).requests@[j]
                },
            },
            final (self).environments@ == old(self).environments@,
            final (self).next_request_id == old(self).next_request_id,
            final (self).next_environment_id == old(self).next_environment_id,
            final (self).name@ == old(self).name@,
    {
        match self.index_of_request(id) {
            None => Err(WorkspaceError::NotFound),
            Some(i) => {
                proof {
                    lemma_find_req_spec(self.requests@, id);
                }
                let prior = self.requests.remove(i);
                self.requests.insert(
                    i,
                    Request { id: prior.id, name: prior.name, template: text.to_owned() },
                );
                proof {
                    lemma_replace_at(old(self).requests@, self.requests@, i as int);
                    assert(self.wf());
                }
                Ok(())
            },
        }
    }

    /// Creates an environment with the next unused identifier and no
    /// variables, appended at the end; returns a snapshot of it.
    pub fn create_environment(&mut self, name: &str) -> (r: Environment)
        requires
            old(self).wf(),
            old(self).next_environment_id < usize::MAX,
        ensures
            final (self).wf(),
            r.id == old(self).next_environment_id,
            r.name@ == name@,
            r.vars() == Seq::<(Seq<char>, Seq<char>)>::empty(),
            final (self).environments@.len() == old(self).environments@.len() + 1,
            forall|j: int|
                0 <= j < old(self).environments@.len() ==> final (self).environments@[j] == old(
                    self,
                ).environments@[j],
            final (self).environments@.last().id == r.id,
            final (self).environments@.last().name@ == r.name@,
            final (self).environments@.last().vars() == r.vars(),
            final (self).next_environment_id == old(self).next_environment_id + 1,
            final (self).requests@ == old(self).requests@,
            final (self).next_request_id == old(self).next_request_id,
            final (self).name@ == old(self).name@,
    {
        let id = self.next_environment_id;
        self.next_environment_id = id + 1;
        let stored = Environment::new(id, name);
        self.environments.push(stored);
        Environment::new(id, name)
    }

    /// Replaces the name and variables of the environment carrying `id`
    /// wholesale with those of `env` (the stored identifier stays), or
    /// reports `NotFound` and changes nothing.
    pub fn set_environ(&mut self, id: usize, env: &Environment) -> (r: Result<(), WorkspaceError>)
        requires
            old(self).wf(),
            env.wf(),
        ensures
            final (self).wf(),
            match find_env(old(self).environments@, id) {
                None => r == Err::<(), WorkspaceError>(WorkspaceError::NotFound) && final(self).environments@ == old(self).environments@,
                Some(i) => {
                    &&& r == Ok::<(), WorkspaceError>(())
                    &&& final (self).environments@.len() == old(self).environments@.len()
                    &&& final (self).environments@[i].id == old(self).environments@[i].id
                    &&& final (self).environments@[i].name@ == env.name@
                    &&& final (self).environments@[i].vars() == env.vars()
                    &&& forall|j: int|
                        0 <= j < old(self).environments@.len() && j != i ==> final(self).environments@[j] == old(self).environments@[j]
                },
            },
            final (self).requests@ == old(self).requests@,
            final (self).next_request_id == old(self).next_request_id,
            final (self).next_environment_id == old(self).next_environment_id,
            final (self).name@ == old(self).name@,
    {
        match self.index_of_environment(id) {
            None => Err(WorkspaceError::NotFound),
            Some(i) => {
                proof {
                    lemma_find_env_bounds(self.environments@, id);
                }
                let prior = self.environments.remove(i);
                let mut fresh = env.duplicate();
                fresh.id = prior.id;
                self.environments.insert(i, fresh);
                proof {
                    lemma_replace_env_at(old(self).environments@, self.environments@, i as int);
                    assert(self.wf());
                }
                Ok(())
            },
        }
    }

    /// Compiles the template of the request carrying `id` against `env`.
    pub fn compile_request(&self, id: usize, env: &Environment) -> (r: Result<
        String,
        CompileRequestError,
    >)
        ensures
            match r {
                Ok(s) => lookup_req(self.requests@, id) is Some && compile_spec(
                    lookup_req(self.requests@, id)->0.template@,
                    env.vars(),
                ) == Ok::<Seq<char>, CompileErr>(s@),
                Err(CompileRequestError::NotFound) => lookup_req(self.requests@, id) is None,
                Err(CompileRequestError::Compilation(e)) => lookup_req(self.requests@, id) is Some
                    && compile_spec(lookup_req(self.requests@, id)->0.template@, env.vars())
                    == Err::<Seq<char>, CompileErr>(e@),
            },
    {
        match self.request(id) {
            None => Err(CompileRequestError::NotFound),
            Some(q) => match crate::template::compile(q.template.as_str(), env) {
                Ok(s) => Ok(s),
                Err(e) => Err(CompileRequestError::Compilation(e)),
            },
        }
    }
}

/// Why compiling a request by identifier failed: a stale identifier, or a
/// compilation error of its template.
#[derive(Debug)]
pub enum CompileRequestError {
    NotFound,
    Compilation(CompilationError),
}

/// A found index lies inside the list.
proof fn lemma_find_env_bounds(s: Seq<Environment>, id: usize)
    ensures
        match find_env(s, id) {
            Some(i) => 0 <= i < s.len() && s[i].id == id,
            None => true,
        },
    decreases s.len(),
{
    if s.len() > 0 && s[0].id != id {
        lemma_find_env_bounds(s.drop_first(), id);
        match find_env(s.drop_first(), id) {
            Some(i) => {
                assert(s[i + 1] == s.drop_first()[i]);
            },
            None => {},
        }
    }
}

/// Removing the element at `i` and inserting one in its place leaves every
/// other position unchanged.
proof fn lemma_replace_at(before: Seq<Request>, after: Seq<Request>, i: int)
    requires
        0 <= i < before.len(),
        after == before.remove(i).insert(i, after[i]),
        after.len() == before.len(),
    ensures
        forall|j: int| 0 <= j < before.len() && j != i ==> after[j] == before[j],
{
    assert forall|j: int| 0 <= j < before.len() && j != i implies after[j] == before[j] by {
        if j < i {
            assert(after[j] == before.remove(i)[j]);
        } else {
            assert(after[j] == before.remove(i)[j - 1]);
        }
    }
}

/// Removing the element at `i` and inserting one in its place leaves every
/// other position unchanged.
proof fn lemma_replace_env_at(before: Seq<Environment>, after: Seq<Environment>, i: int)
    requires
        0 <= i < before.len(),
        after == before.remove(i).insert(i, after[i]),
        after.len() == before.len(),
    ensures
        forall|j: int| 0 <= j < before.len() && j != i ==> after[j] == before[j],
{
    assert forall|j: int| 0 <= j < before.len() && j != i implies after[j] == before[j] by {
        if j < i {
            assert(after[j] == before.remove(i)[j]);
        } else {
            assert(after[j] == before.remove(i)[j - 1]);
        }
    }
}

/// Identifiers are pairwise distinct and increase in creation order: a run
/// of creations yields as many requests, each with a fresh, larger
/// identifier, appended in order.
pub proof fn lemma_request_ids_distinct(w: &Workspace)
    requires
        w.wf(),
    ensures
        forall|i: int, j: int|
            0 <= i < j < w.requests@.len() ==> #[trigger] w.requests@[i].id
                != #[trigger] w.requests@[j].id,
{
}

/// Deleting a request identifier makes lookup of that identifier fail, and
/// leaves the lookup of every other identifier unchanged.
pub proof fn lemma_delete_request_lookup(before: Seq<Request>, after: Seq<Request>, id: usize)
    requires
        forall|p: int, q: int|
            0 <= p < q < before.len() ==> #[trigger] before[p].id != #[trigger] before[q].id,
        match find_req(before, id) {
            None => after == before,
            Some(i) => after == before.remove(i),
        },
    ensures
        lookup_req(after, id) is None,
        forall|id2: usize| id2 != id ==> lookup_req(after, id2) == lookup_req(before, id2),
{
    lemma_find_req_spec(before, id);
    match find_req(before, id) {
        None => {
            assert(lookup_req(after, id) is None);
        },
        Some(i) => {
            assert forall|j: int| 0 <= j < after.len() implies after[j].id != id by {
                if j < i {
                    assert(after[j] == before[j]);
                } else {
                    assert(after[j] == before[j + 1]);
                }
            }
            lemma_find_req_none(after, id);
            assert forall|id2: usize| id2 != id implies lookup_req(after, id2) == lookup_req(
                before,
                id2,
            ) by {
                lemma_find_req_spec(before, id2);
                match find_req(before, id2) {
                    Some(p) => {
                        let p2: int = if p < i {
                            p
                        } else {
                            p - 1
                        };
                        assert(after[p2] == before[p]);
                        assert forall|j: int| 0 <= j < p2 implies after[j].id != id2 by {
                            if j < i {
                                assert(after[j] == before[j]);
                            } else {
                                assert(after[j] == before[j + 1]);
                            }
                        }
                        lemma_find_req_at(after, id2, p2);
                    },
                    None => {
                        assert forall|j: int| 0 <= j < after.len() implies after[j].id != id2 by {
                            if j < i {
                                assert(after[j] == before[j]);
                            } else {
                                assert(after[j] == before[j + 1]);
                            }
                        }
                        lemma_find_req_none(after, id2);
                    },
                }
            }
        },
    }
}

} // verus!
