//! The todo store: the authoritative in-memory collection of records.
//!
//! The store keeps identifiers pairwise distinct and insertion order stable.
//! Every mutation is validated here; a caller persists the collection after
//! each successful mutation (the store itself never touches the backing
//! file, it only says when a rewrite is owed).

use vstd::prelude::*;

use crate::todo::{
    get_random_id, get_status_from_string, spec_status_of_label, LabelMappingError, Todo,
    TodoStatus, TodoView,
};

verus! {

/// The mathematical value of a collection: each record by its view,
/// in collection order.
pub open spec fn views_of(todos: Seq<Todo>) -> Seq<TodoView> {
    Seq::new(todos.len(), |i: int| todos[i]@)
}

/// Identifiers are pairwise distinct.
pub open spec fn ids_unique(s: Seq<TodoView>) -> bool {
    forall|i: int, j: int| 0 <= i < j < s.len() ==> s[i].id != s[j].id
}

/// Some record carries this identifier.
pub open spec fn has_id(s: Seq<TodoView>, id: Seq<char>) -> bool {
    exists|k: int| 0 <= k < s.len() && s[k].id == id
}

/// Some record carries the given task text.
pub open spec fn has_task(s: Seq<TodoView>, task: Seq<char>) -> bool {
    exists|k: int| 0 <= k < s.len() && s[k].task == task
}

/// How many records are `Completed`.
pub open spec fn completed_count_of(s: Seq<TodoView>) -> nat
    decreases s.len(),
{
    if s.len() == 0 {
        0
    } else {
        completed_count_of(s.drop_last()) + if s.last().status == TodoStatus::Completed {
            1nat
        } else {
            0nat
        }
    }
}

/// `post` is `pre` with one freshly identified `Pending` record for
/// `task` appended.
pub open spec fn created_one(pre: Seq<TodoView>, post: Seq<TodoView>, rec: TodoView, task: Seq<char>) -> bool {
    rec.task == task && rec.status == TodoStatus::Pending && !has_id(pre, rec.id) && post
        == pre.push(rec)
}

/// `post` is `pre` with the status of every record carrying `id` (at most
/// one, when identifiers are distinct) replaced by `status`, and nothing
/// else touched.
pub open spec fn status_set(
    pre: Seq<TodoView>,
    post: Seq<TodoView>,
    id: Seq<char>,
    status: TodoStatus,
) -> bool {
    post.len() == pre.len() && (forall|k: int|
        0 <= k < pre.len() && pre[k].id != id ==> post[k] == pre[k]) && (forall|k: int|
        0 <= k < pre.len() && pre[k].id == id ==> post[k] == (TodoView {
            id: pre[k].id,
            task: pre[k].task,
            status,
        }))
}

/// `post` is `pre` with exactly one record, the one carrying `id`,
/// removed; the rest keep their values and relative order.
pub open spec fn removed_one(pre: Seq<TodoView>, post: Seq<TodoView>, id: Seq<char>) -> bool {
    exists|k: int| 0 <= k < pre.len() && pre[k].id == id && post == pre.remove(k)
}

/// A rejected creation: the task was empty, or it duplicates the task of
/// an existing record. Neither changes any state.
#[derive(Debug, Clone, PartialEq, Eq, Structural)]
pub enum ValidationError {
    EmptyTask,
    DuplicateTask,
}

/// The identifier named by an update or a deletion matches no record.
#[derive(Debug, Clone, PartialEq, Eq, Structural)]
pub struct NotFoundError;

/// A message-level failure: the target record does not exist, or the
/// status label is unrecognized.
#[derive(Debug, Clone, PartialEq, Eq, Structural)]
pub enum StoreError {
    NotFound(NotFoundError),
    BadLabel(LabelMappingError),
}

/// A user-facing event against the store: create from the pending input,
/// set a record's status (label, identifier), delete by identifier, or
/// replace the pending creation input.
#[derive(Debug, Clone)]
pub enum TodoMessage {
    TodoCreateMessage,
    TodoUpdateMessage(String, String),
    TodoDeleteMessage(String),
    CreateTodoInputMessage(String),
}

/// The store: the collection of records, the pending creation input, and
/// the message shown for a rejected creation.
#[derive(Debug)]
pub struct TodoBox {
    pub todos: Vec<Todo>,
    pub todo_input_create: String,
    pub error_creation: String,
}

/// The two stores hold the same records, pending input, and error text.
pub open spec fn same_state(a: TodoBox, b: TodoBox) -> bool {
    a.records() == b.records() && a.todo_input_create@ == b.todo_input_create@
        && a.error_creation@ == b.error_creation@
}

/// A run of successful creations from the empty collection: at step `k`
/// a record for `tasks[k]` was appended, exactly as `create` appends one.
pub open spec fn creation_chain(tasks: Seq<Seq<char>>, s: Seq<TodoView>) -> bool
    decreases tasks.len(),
{
    if tasks.len() == 0 {
        s == Seq::<TodoView>::empty()
    } else {
        exists|prev: Seq<TodoView>, rec: TodoView|
            creation_chain(tasks.drop_last(), prev) && #[trigger] created_one(
                prev,
                s,
                rec,
                tasks.last(),
            )
    }
}

/// Law: a run of successful creations from the empty collection yields
/// exactly one record per call, in call order, each `Pending`, with
/// pairwise distinct identifiers.
pub proof fn lemma_creation_chain(tasks: Seq<Seq<char>>, s: Seq<TodoView>)
    requires
        creation_chain(tasks, s),
    ensures
        s.len() == tasks.len(),
        forall|k: int| 0 <= k < tasks.len() ==> s[k].task == tasks[k],
        forall|k: int| 0 <= k < tasks.len() ==> s[k].status == TodoStatus::Pending,
        ids_unique(s),
    decreases tasks.len(),
{
    if tasks.len() == 0 {
    } else {
        let (prev, rec) = choose|prev: Seq<TodoView>, rec: TodoView|
            creation_chain(tasks.drop_last(), prev) && #[trigger] created_one(
                prev,
                s,
                rec,
                tasks.last(),
            );
        lemma_creation_chain(tasks.drop_last(), prev);
        lemma_fresh_push_keeps_unique(prev, rec);
        assert forall|k: int| 0 <= k < tasks.len() implies s[k].task == tasks[k] && s[k].status
            == TodoStatus::Pending by {
            if k < tasks.len() - 1 {
                assert(s[k] == prev[k]);
                assert(tasks.drop_last()[k] == tasks[k]);
            } else {
                assert(s[k] == rec);
            }
        }
    }
}

/// Law: appending a record with a fresh identifier keeps identifiers
/// pairwise distinct, leaves every existing record in place, and grows
/// the collection by exactly one.
pub proof fn lemma_fresh_push_keeps_unique(s: Seq<TodoView>, rec: TodoView)
    requires
        ids_unique(s),
        !has_id(s, rec.id),
    ensures
        ids_unique(s.push(rec)),
        s.push(rec).len() == s.len() + 1,
        forall|k: int| 0 <= k < s.len() ==> s.push(rec)[k] == s[k],
        s.push(rec)[s.len() as int] == rec,
{
    assert forall|i: int, j: int| 0 <= i < j < s.push(rec).len() implies s.push(rec)[i].id
        != s.push(rec)[j].id by {
        if j < s.len() {
            assert(s.push(rec)[i] == s[i] && s.push(rec)[j] == s[j]);
        } else {
            assert(s.push(rec)[j] == rec);
            assert(s.push(rec)[i] == s[i]);
            assert(s[i].id != rec.id);
        }
    }
}

/// Law: removing one record keeps the identifiers of the rest pairwise
/// distinct.
pub proof fn lemma_remove_keeps_unique(s: Seq<TodoView>, k: int)
    requires
        ids_unique(s),
        0 <= k < s.len(),
    ensures
        ids_unique(s.remove(k)),
{
    assert forall|i: int, j: int| 0 <= i < j < s.remove(k).len() implies s.remove(k)[i].id
        != s.remove(k)[j].id by {
        let i0: int = if i < k {
            i
        } else {
            i + 1
        };
        let j0: int = if j < k {
            j
        } else {
            j + 1
        };
        assert(s.remove(k)[i] == s[i0]);
        assert(s.remove(k)[j] == s[j0]);
    }
}

/// True when some record in `todos` carries `id`.
fn contains_id(todos: &Vec<Todo>, id: &String) -> (b: bool)
    ensures
        b == has_id(views_of(todos@), id@),
{
    let mut i: usize = 0;
    while i < todos.len()
        invariant
            0 <= i <= todos@.len(),
            forall|k: int| 0 <= k < i ==> views_of(todos@)[k].id != id@,
        decreases todos@.len() - i,
    {
        if todos[i].id == *id {
            assert(views_of(todos@)[i as int].id == id@);
            return true;
        }
        i += 1;
    }
    false
}

/// True when some record in `todos` carries `task`.
fn contains_task(todos: &Vec<Todo>, task: &String) -> (b: bool)
    ensures
        b == has_task(views_of(todos@), task@),
{
    let mut i: usize = 0;
    while i < todos.len()
        invariant
            0 <= i <= todos@.len(),
            forall|k: int| 0 <= k < i ==> views_of(todos@)[k].task != task@,
        decreases todos@.len() - i,
    {
        if todos[i].task == *task {
            assert(views_of(todos@)[i as int].task == task@);
            return true;
        }
        i += 1;
    }
    false
}

/// An identifier longer than every identifier in `todos`, hence absent
/// from it: the concatenation of all of them plus one more character.
fn fallback_id(todos: &Vec<Todo>) -> (r: String)
    ensures
        !has_id(views_of(todos@), r@),
{
    let mut s = String::new();
    let n = todos.len();
    let mut i: usize = 0;
    while i < n
        invariant
            0 <= i <= n == todos@.len(),
            forall|k: int| 0 <= k < i ==> s@.len() >= views_of(todos@)[k].id.len(),
        decreases n - i,
    {
        s.append(todos[i].id.as_str());
        i += 1;
    }
    s.append("x");
    proof {
        reveal_strlit("x");
        assert("x"@.len() == 1);
        assert forall|k: int| 0 <= k < todos@.len() implies views_of(todos@)[k].id != s@ by {
            assert(s@.len() > views_of(todos@)[k].id.len());
        }
    }
    s
}

/// Draws random identifiers until one is absent from `todos`; after a few
/// collisions it falls back to a deterministically fresh one.
fn fresh_id(todos: &Vec<Todo>) -> (r: String)
    ensures
        !has_id(views_of(todos@), r@),
{
    let mut tries: usize = 0;
    while tries < 16
        invariant
            tries <= 16,
        decreases 16 - tries,
    {
        let id = get_random_id();
        if !contains_id(todos, &id) {
            return id;
        }
        tries += 1;
    }
    fallback_id(todos)
}

impl TodoBox {
    /// The mathematical value of the collection.
    pub open spec fn records(&self) -> Seq<TodoView> {
        views_of(self.todos@)
    }

    /// Well-formed: identifiers are pairwise distinct.
    pub open spec fn wf(&self) -> bool {
        ids_unique(self.records())
    }

    /// An empty store.
    pub fn new_empty() -> (r: TodoBox)
        ensures
            r.wf(),
            r.records() == Seq::<TodoView>::empty(),
            r.todo_input_create@ == Seq::<char>::empty(),
            r.error_creation@ == Seq::<char>::empty(),
    {
        let r = TodoBox {
            todos: Vec::new(),
            todo_input_create: String::new(),
            error_creation: String::new(),
        };
        proof {
            assert(r.records() =~= Seq::<TodoView>::empty());
        }
        r
    }

    /// A store over a loaded collection; refused when two loaded records
    /// share an identifier, since such data breaks the store's invariant.
    pub fn initialize(todos: Vec<Todo>) -> (r: Option<TodoBox>)
        ensures
            r matches Some(b) ==> b.wf() && b.records() == views_of(todos@)
                && b.todo_input_create@ == Seq::<char>::empty() && b.error_creation@ == Seq::<
                char,
            >::empty(),
            r is Some <==> ids_unique(views_of(todos@)),
    {
        let n = todos.len();
        let mut i: usize = 0;
        while i < n
            invariant
                0 <= i <= n == todos@.len(),
                forall|a: int, b: int| 0 <= a < b < i ==> views_of(todos@)[a].id != views_of(
                    todos@,
                )[b].id,
                forall|a: int, b: int|
                    0 <= a < i && a < b < todos@.len() ==> views_of(todos@)[a].id != views_of(
                        todos@,
                    )[b].id,
            decreases n - i,
        {
            let mut j: usize = i + 1;
            while j < n
                invariant
                    0 <= i < j <= n == todos@.len(),
                    forall|b: int| i < b < j ==> views_of(todos@)[i as int].id != views_of(
                        todos@,
                    )[b].id,
                decreases n - j,
            {
                if todos[i].id == todos[j].id {
                    proof {
                        assert(views_of(todos@)[i as int].id == views_of(todos@)[j as int].id);
                        assert((i as int) < (j as int) && (j as int) < views_of(todos@).len());
                        assert(!ids_unique(views_of(todos@)));
                    }
                    return None;
                }
                j += 1;
            }
            i += 1;
        }
        Some(
            TodoBox {
                todos,
                todo_input_create: String::new(),
                error_creation: String::new(),
            },
        )
    }

    /// Creates a record for `task`: refused when the task is empty or
    /// duplicates an existing one (no state change either way); otherwise
    /// the record is appended with a fresh identifier and `Pending` status
    /// and returned.
    pub fn create(&mut self, task: String) -> (r: Result<Todo, ValidationError>)
        requires
            old(self).wf(),
        ensures
            final(self).wf(),
            final(self).todo_input_create == old(self).todo_input_create,
            final(self).error_creation == old(self).error_creation,
            task@.len() == 0 ==> r == Err::<Todo, ValidationError>(ValidationError::EmptyTask)
                && final(self).records() == old(self).records(),
            task@.len() > 0 && has_task(old(self).records(), task@) ==> r == Err::<
                Todo,
                ValidationError,
            >(ValidationError::DuplicateTask) && final(self).records() == old(self).records(),
            task@.len() > 0 && !has_task(old(self).records(), task@) ==> (r matches Ok(rec)
                && created_one(old(self).records(), final(self).records(), rec@, task@)),
    {
        if task.as_str().is_empty() {
            return Err(ValidationError::EmptyTask);
        }
        if contains_task(&self.todos, &task) {
            return Err(ValidationError::DuplicateTask);
        }
        let id = fresh_id(&self.todos);
        let stored = Todo { id: id.clone(), task: task.clone(), status: TodoStatus::Pending };
        let rec = Todo { id, task, status: TodoStatus::Pending };
        let ghost old_records = self.records();
        self.todos.push(stored);
        proof {
            assert(self.records() =~= old_records.push(rec@));
            lemma_fresh_push_keeps_unique(old_records, rec@);
        }
        Ok(rec)
    }

    /// Sets the status of the record carrying `id`; every other record and
    /// the collection order are untouched. An unknown identifier is a
    /// recoverable error and changes nothing.
    pub fn update_status(&mut self, id: &String, status: TodoStatus) -> (r: Result<
        (),
        NotFoundError,
    >)
        requires
            old(self).wf(),
        ensures
            final(self).wf(),
            final(self).todo_input_create == old(self).todo_input_create,
            final(self).error_creation == old(self).error_creation,
            !has_id(old(self).records(), id@) ==> r == Err::<(), NotFoundError>(NotFoundError)
                && final(self).records() == old(self).records(),
            has_id(old(self).records(), id@) ==> r == Ok::<(), NotFoundError>(())
                && final(self).records().len() == old(self).records().len()
                && (forall|k: int|
                    0 <= k < old(self).records().len() && old(self).records()[k].id != id@
                    ==> final(self).records()[k] == old(self).records()[k])
                && (forall|k: int|
                    0 <= k < old(self).records().len() && old(self).records()[k].id == id@
                    ==> final(self).records()[k] == (TodoView {
                        id: old(self).records()[k].id,
                        task: old(self).records()[k].task,
                        status,
                    })),
    {
        let n = self.todos.len();
        let mut i: usize = 0;
        while i < n
            invariant
                0 <= i <= n == self.todos@.len(),
                forall|k: int| 0 <= k < i ==> self.records()[k].id != id@,
                self == old(self),
                old(self).wf(),
            decreases n - i,
        {
            if self.todos[i].id == *id {
                assert(self.records()[i as int].id == id@);
                let ghost old_records = self.records();
                let old_id = self.todos[i].id.clone();
                let old_task = self.todos[i].task.clone();
                let replacement = Todo { id: old_id, task: old_task, status };
                self.todos[i] = replacement;
                proof {
                    assert(self.records().len() == old_records.len());
                    assert forall|k: int| 0 <= k < old_records.len() && k != i implies self
                        .records()[k] == old_records[k] by {}
                    assert(self.records()[i as int] == (TodoView {
                        id: old_records[i as int].id,
                        task: old_records[i as int].task,
                        status,
                    }));
                    assert forall|k: int|
                        0 <= k < old_records.len() && old_records[k].id == id@ implies self
                        .records()[k] == (TodoView {
                        id: old_records[k].id,
                        task: old_records[k].task,
                        status,
                    }) by {
                        if k < i {
                            assert(old_records[k].id != old_records[i as int].id);
                        } else if i < k {
                            assert(old_records[i as int].id != old_records[k].id);
                        }
                    }
                    assert forall|a: int, b: int|
                        0 <= a < b < self.records().len() implies self.records()[a].id != self
                        .records()[b].id by {
                        assert(self.records()[a].id == old_records[a].id);
                        assert(self.records()[b].id == old_records[b].id);
                        assert(old_records[a].id != old_records[b].id);
                    }
                }
                return Ok(());
            }
            i += 1;
        }
        Err(NotFoundError)
    }

    /// Removes exactly the record carrying `id`; the remaining records keep
    /// their values and relative order. An unknown identifier is a
    /// recoverable error and changes nothing.
    pub fn delete(&mut self, id: &String) -> (r: Result<(), NotFoundError>)
        requires
            old(self).wf(),
        ensures
            final(self).wf(),
            final(self).todo_input_create == old(self).todo_input_create,
            final(self).error_creation == old(self).error_creation,
            !has_id(old(self).records(), id@) ==> r == Err::<(), NotFoundError>(NotFoundError)
                && final(self).records() == old(self).records(),
            has_id(old(self).records(), id@) ==> r == Ok::<(), NotFoundError>(())
                && (exists|k: int|
                    0 <= k < old(self).records().len() && old(self).records()[k].id == id@
                    && final(self).records() == old(self).records().remove(k)),
    {
        let n = self.todos.len();
        let mut i: usize = 0;
        while i < n
            invariant
                0 <= i <= n == self.todos@.len(),
                forall|k: int| 0 <= k < i ==> self.records()[k].id != id@,
                self == old(self),
                old(self).wf(),
            decreases n - i,
        {
            if self.todos[i].id == *id {
                assert(self.records()[i as int].id == id@);
                let ghost old_records = self.records();
                self.todos.remove(i);
                proof {
                    assert(self.records() =~= old_records.remove(i as int));
                    lemma_remove_keeps_unique(old_records, i as int);
                }
                return Ok(());
            }
            i += 1;
        }
        Err(NotFoundError)
    }

    /// Applies one user message. Creation draws from the pending input; a
    /// rejected creation only sets the error text, as the user is told
    /// rather than the caller. A status update names a presentation label
    /// and an identifier; a deletion names an identifier; an unknown label
    /// or identifier is a recoverable error and changes nothing. `Ok(true)`
    /// says the collection changed, so a rewrite of the backing file is
    /// owed; `Ok(false)` says nothing is to be persisted.
    pub fn update(&mut self, message: TodoMessage) -> (r: Result<bool, StoreError>)
        requires
            old(self).wf(),
        ensures
            final(self).wf(),
            (match message {
                TodoMessage::CreateTodoInputMessage(v) => r == Ok::<bool, StoreError>(false)
                    && final(self).records() == old(self).records() && final(self).todo_input_create@ == v@ && final(self).error_creation@ == old(self).error_creation@,
                TodoMessage::TodoCreateMessage => ({
                    let t = old(self).todo_input_create@;
                    &&& (t.len() == 0 ==> r == Ok::<bool, StoreError>(false) && final(self).records() == old(self).records() && final(self).error_creation@
                        == "Todo task is require"@ && final(self).todo_input_create@ == t)
                    &&& (t.len() > 0 && has_task(old(self).records(), t) ==> r == Ok::<
                        bool,
                        StoreError,
                    >(false) && final(self).records() == old(self).records() && final(self).error_creation@ == "Task already exist"@ && final(self).todo_input_create@
                        == t)
                    &&& (t.len() > 0 && !has_task(old(self).records(), t) ==> r == Ok::<
                        bool,
                        StoreError,
                    >(true) && (exists|rec: TodoView|
                        created_one(old(self).records(), final(self).records(), rec, t)) && final(self).todo_input_create@ == Seq::<char>::empty() && final(self).error_creation@
                        == Seq::<char>::empty())
                }),
                TodoMessage::TodoUpdateMessage(label, id) => (match spec_status_of_label(label@) {
                    None => r == Err::<bool, StoreError>(StoreError::BadLabel(LabelMappingError))
                        && same_state(*final(self), *old(self)),
                    Some(st) => {
                        &&& (has_id(old(self).records(), id@) ==> r == Ok::<bool, StoreError>(true)
                            && status_set(old(self).records(), final(self).records(), id@, st)
                            && final(self).todo_input_create@ == old(self).todo_input_create@
                            && final(self).error_creation@ == old(self).error_creation@)
                        &&& (!has_id(old(self).records(), id@) ==> r == Err::<bool, StoreError>(
                            StoreError::NotFound(NotFoundError),
                        ) && same_state(*final(self), *old(self)))
                    },
                }),
                TodoMessage::TodoDeleteMessage(id) => {
                    &&& (has_id(old(self).records(), id@) ==> r == Ok::<bool, StoreError>(true)
                        && removed_one(old(self).records(), final(self).records(), id@) && final(self).todo_input_create@ == old(self).todo_input_create@ && final(self).error_creation@ == old(self).error_creation@)
                    &&& (!has_id(old(self).records(), id@) ==> r == Err::<bool, StoreError>(
                        StoreError::NotFound(NotFoundError),
                    ) && same_state(*final(self), *old(self)))
                },
            }),
    {
        match message {
            TodoMessage::CreateTodoInputMessage(v) => {
                self.todo_input_create = v;
                proof {
                    assert(self.records() == old(self).records());
                    assert(self.error_creation@ == old(self).error_creation@);
                }
                Ok(false)
            },
            TodoMessage::TodoCreateMessage => {
                let task = self.todo_input_create.clone();
                match self.create(task) {
                    Ok(rec) => {
                        proof {
                            assert(created_one(
                                old(self).records(),
                                self.records(),
                                rec@,
                                old(self).todo_input_create@,
                            ));
                            assert(exists|witness: TodoView|
                                created_one(
                                    old(self).records(),
                                    self.records(),
                                    witness,
                                    old(self).todo_input_create@,
                                ));
                        }
                        self.todo_input_create = String::new();
                        self.error_creation = String::new();
                        Ok(true)
                    },
                    Err(ValidationError::EmptyTask) => {
                        self.error_creation = String::from_str("Todo task is require");
                        Ok(false)
                    },
                    Err(ValidationError::DuplicateTask) => {
                        self.error_creation = String::from_str("Task already exist");
                        Ok(false)
                    },
                }
            },
            TodoMessage::TodoUpdateMessage(label, id) => {
                match get_status_from_string(label.as_str()) {
                    Err(e) => Err(StoreError::BadLabel(e)),
                    Ok(st) => {
                        proof {
                            assert(spec_status_of_label(label@) == Some(st));
                        }
                        match self.update_status(&id, st) {
                            Ok(_) => {
                                proof {
                                    assert(status_set(old(self).records(), self.records(), id@, st));
                                }
                                Ok(true)
                            },
                            Err(e) => Err(StoreError::NotFound(e)),
                        }
                    },
                }
            },
            TodoMessage::TodoDeleteMessage(id) => {
                match self.delete(&id) {
                    Ok(_) => Ok(true),
                    Err(e) => Err(StoreError::NotFound(e)),
                }
            },
        }
    }

    /// How many records are `Completed`.
    pub fn completed_count(&self) -> (n: usize)
        ensures
            n == completed_count_of(self.records()),
    {
        let len = self.todos.len();
        let mut n: usize = 0;
        let mut i: usize = 0;
        while i < len
            invariant
                0 <= i <= len == self.todos@.len(),
                n <= i,
                n == completed_count_of(self.records().take(i as int)),
            decreases len - i,
        {
            proof {
                assert(self.records().take(i + 1).drop_last() =~= self.records().take(i as int));
                assert(self.records().take(i + 1).last() == self.records()[i as int]);
            }
            if matches!(self.todos[i].status, TodoStatus::Completed) {
                n += 1;
            }
            i += 1;
        }
        proof {
            assert(self.records().take(len as int) =~= self.records());
        }
        n
    }

    /// How many records there are at all.
    pub fn total_count(&self) -> (n: usize)
        ensures
            n == self.records().len(),
    {
        self.todos.len()
    }
}

} // verus!
