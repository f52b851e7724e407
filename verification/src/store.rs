//! The record store: a collection of todo records with unique ids.

use vstd::prelude::*;

verus! {

/// A todo record. The `id` is supplied by the caller and serves as the
/// record's identity within the store; `text` and `completed` carry no
/// constraints of their own.
#[derive(Debug, Clone)]
pub struct Todo {
    pub id: u64,
    pub text: String,
    pub completed: bool,
}

/// The mathematical image of a [`Todo`]: the same three fields with the
/// text as a sequence of characters.
pub ghost struct TodoView {
    pub id: u64,
    pub text: Seq<char>,
    pub completed: bool,
}

impl View for Todo {
    type V = TodoView;

    open spec fn view(&self) -> TodoView {
        TodoView { id: self.id, text: self.text@, completed: self.completed }
    }
}

/// The two ways a store operation can fail. Both are ordinary results, never
/// panics: a caller maps them onto whatever error surface it has.
#[derive(Debug, Clone, Copy, PartialEq, Eq, Structural)]
pub enum StoreError {
    /// Create was given an id that is already present.
    DuplicateId,
    /// Update or Delete was given an id that is absent.
    NotFound,
}

/// Whether some record in `s` carries the id `id`.
pub open spec fn contains_id(s: Seq<TodoView>, id: u64) -> bool {
    exists|i: int| 0 <= i < s.len() && s[i].id == id
}

/// Whether no two records in `s` share an id.
pub open spec fn unique_ids(s: Seq<TodoView>) -> bool {
    forall|i: int, j: int| 0 <= i < j < s.len() ==> s[i].id != s[j].id
}

/// The position of the first record in `s` whose id is `id`; meaningful only
/// when such a record exists.
pub open spec fn first_index_of(s: Seq<TodoView>, id: u64) -> int
    decreases s.len(),
{
    if s.len() == 0 {
        0
    } else if s[0].id == id {
        0
    } else {
        1 + first_index_of(s.drop_first(), id)
    }
}

/// What Update stores: the replacement's content under the id named by the
/// caller. The id embedded in the replacement record itself is ignored.
pub open spec fn replaced(id: u64, r: TodoView) -> TodoView {
    TodoView { id: id, text: r.text, completed: r.completed }
}

/// The records of `s` that survive deleting `id`: every record whose id
/// differs, in unchanged order.
pub open spec fn removed(s: Seq<TodoView>, id: u64) -> Seq<TodoView> {
    s.filter(|t: TodoView| t.id != id)
}

/// How `removed` grows with its input, one appended record at a time.
pub proof fn lemma_removed_push(s: Seq<TodoView>, t: TodoView, id: u64)
    ensures
        t.id != id ==> removed(s.push(t), id) == removed(s, id).push(t),
        t.id == id ==> removed(s.push(t), id) == removed(s, id),
{
    reveal(Seq::filter);
    assert(s.push(t).drop_last() =~= s);
    assert(s.push(t).last() == t);
}

/// What deletion leaves behind: only records with other ids, each one a
/// record of the input, every non-matching record of the input kept, fewer
/// records exactly when one matched, and never a duplicate id introduced.
pub proof fn lemma_removed_props(s: Seq<TodoView>, id: u64)
    ensures
        removed(s, id).len() <= s.len(),
        forall|i: int| 0 <= i < removed(s, id).len() ==> (#[trigger] removed(s, id)[i]).id != id,
        forall|i: int| 0 <= i < removed(s, id).len() ==> s.contains(#[trigger] removed(s, id)[i]),
        forall|j: int| 0 <= j < s.len() && (#[trigger] s[j]).id != id ==> removed(s, id).contains(
            s[j],
        ),
        !contains_id(s, id) ==> removed(s, id) == s,
        contains_id(s, id) ==> removed(s, id).len() < s.len(),
        unique_ids(s) ==> unique_ids(removed(s, id)),
        !contains_id(removed(s, id), id),
    decreases s.len(),
{
    reveal(Seq::filter);
    if s.len() == 0 {
        assert(removed(s, id) =~= s);
    } else {
        let dl = s.drop_last();
        let l = s.last();
        lemma_removed_props(dl, id);
        assert(dl.push(l) =~= s);
        lemma_removed_push(dl, l, id);
        let r = removed(s, id);
        let rd = removed(dl, id);
        assert forall|i: int| 0 <= i < r.len() implies s.contains(#[trigger] r[i]) by {
            if i < rd.len() {
                let w = choose|j: int| 0 <= j < dl.len() && dl[j] == rd[i];
                assert(s[w] == rd[i]);
            } else {
                assert(r[i] == l);
                assert(s[s.len() - 1] == l);
            }
        }
        assert forall|j: int| 0 <= j < s.len() && (#[trigger] s[j]).id != id implies r.contains(
            s[j],
        ) by {
            if j < dl.len() {
                assert(dl[j] == s[j]);
                let w = choose|i: int| 0 <= i < rd.len() && rd[i] == dl[j];
                assert(r[w] == s[j]);
            } else {
                assert(s[j] == l);
                assert(r[r.len() - 1] == l);
            }
        }
        if !contains_id(s, id) {
            assert(!contains_id(dl, id)) by {
                assert forall|i: int| 0 <= i < dl.len() implies (#[trigger] dl[i]).id != id by {
                    assert(s[i] == dl[i]);
                }
            }
            assert(l.id != id) by {
                assert(s[s.len() - 1] == l);
            }
            assert(removed(s, id) =~= s);
        }
        if contains_id(s, id) {
            let w = choose|i: int| 0 <= i < s.len() && s[i].id == id;
            if w < dl.len() {
                assert(dl[w].id == id);
                assert(contains_id(dl, id));
            }
        }
        if unique_ids(s) {
            assert(unique_ids(dl)) by {
                assert forall|i: int, j: int| 0 <= i < j < dl.len() implies (#[trigger] dl[i]).id
                    != (#[trigger] dl[j]).id by {
                    assert(s[i] == dl[i] && s[j] == dl[j]);
                }
            }
            if l.id != id {
                assert forall|i: int, j: int| 0 <= i < j < r.len() implies (#[trigger] r[i]).id
                    != (#[trigger] r[j]).id by {
                    if j < rd.len() {
                    } else {
                        assert(r[j] == l);
                        let w = choose|m: int| 0 <= m < dl.len() && dl[m] == rd[i];
                        assert(s[w] == rd[i]);
                        assert(s[s.len() - 1] == l);
                        assert(s[w].id != s[s.len() - 1].id);
                    }
                }
            }
        }
    }
}

/// `first_index_of` names exactly the position whose earlier entries all miss
/// the id.
pub proof fn lemma_first_index_of_at(s: Seq<TodoView>, id: u64, k: int)
    requires
        0 <= k < s.len(),
        s[k].id == id,
        forall|j: int| 0 <= j < k ==> s[j].id != id,
    ensures
        first_index_of(s, id) == k,
    decreases s.len(),
{
    if k > 0 {
        let t = s.drop_first();
        assert(forall|j: int| 0 <= j < k - 1 ==> t[j] == s[j + 1]);
        lemma_first_index_of_at(t, id, k - 1);
    }
}

/// When some record carries the id, `first_index_of` lands on the first one.
pub proof fn lemma_first_index_of_hits(s: Seq<TodoView>, id: u64)
    requires
        contains_id(s, id),
    ensures
        0 <= first_index_of(s, id) < s.len(),
        s[first_index_of(s, id)].id == id,
        forall|j: int| 0 <= j < first_index_of(s, id) ==> s[j].id != id,
    decreases s.len(),
{
    if s[0].id != id {
        let t = s.drop_first();
        let w = choose|i: int| 0 <= i < s.len() && s[i].id == id;
        assert(t[w - 1] == s[w]);
        assert(contains_id(t, id));
        lemma_first_index_of_hits(t, id);
        assert forall|j: int| 0 <= j < first_index_of(s, id) implies s[j].id != id by {
            if j > 0 {
                assert(s[j] == t[j - 1]);
            }
        }
    }
}

/// The store of todo records. Its view is the sequence of record views in
/// storage order; a well-formed store never holds two records with one id.
pub struct TodoStore {
    todos: Vec<Todo>,
}

/// The views of the records held in a vector, in order.
spec fn views_of(v: Seq<Todo>) -> Seq<TodoView> {
    Seq::new(v.len(), |i: int| v[i]@)
}

impl View for TodoStore {
    type V = Seq<TodoView>;

    closed spec fn view(&self) -> Seq<TodoView> {
        views_of(self.todos@)
    }
}

impl TodoStore {
    /// The store's invariant: ids identify at most one record.
    pub open spec fn wf(&self) -> bool {
        unique_ids(self@)
    }

    /// An empty store.
    pub fn new() -> (s: TodoStore)
        ensures
            s@ =~= Seq::<TodoView>::empty(),
            s.wf(),
    {
        TodoStore { todos: Vec::new() }
    }

    /// A snapshot of the current records, as independent copies, in storage
    /// order.
    pub fn list_todos(&self) -> (r: Vec<Todo>)
        ensures
            r@.len() == self@.len(),
            forall|i: int| 0 <= i < r@.len() ==> r@[i]@ == self@[i],
    {
        let mut out: Vec<Todo> = Vec::new();
        let mut k: usize = 0;
        while k < self.todos.len()
            invariant
                k <= self.todos@.len(),
                out@.len() == k,
                forall|i: int| 0 <= i < k ==> out@[i]@ == self@[i],
            decreases self.todos@.len() - k,
        {
            let t = &self.todos[k];
            out.push(Todo { id: t.id, text: t.text.clone(), completed: t.completed });
            k = k + 1;
        }
        out
    }

    /// Appends `create` unless its id is already taken, in which case the
    /// store is left untouched and the duplicate is reported.
    pub fn create_todo(&mut self, create: Todo) -> (r: Result<(), StoreError>)
        ensures
            contains_id(old(self)@, create.id) ==> r == Err::<(), StoreError>(
                StoreError::DuplicateId,
            ) && final(self)@ == old(self)@,
            !contains_id(old(self)@, create.id) ==> r == Ok::<(), StoreError>(())
                && final(self)@ == old(self)@.push(create@),
            old(self).wf() ==> final(self).wf(),
    {
        let mut k: usize = 0;
        while k < self.todos.len()
            invariant
                k <= self.todos@.len(),
                *self == *old(self),
                forall|j: int| 0 <= j < k ==> self@[j].id != create.id,
            decreases self.todos@.len() - k,
        {
            if self.todos[k].id == create.id {
                assert(self@[k as int].id == create.id);
                assert(contains_id(self@, create.id));
                return Err(StoreError::DuplicateId);
            }
            k = k + 1;
        }
        assert(!contains_id(self@, create.id));
        let ghost prev = self@;
        self.todos.push(create);
        proof {
            assert(self@ =~= prev.push(create@));
            if old(self).wf() {
                assert forall|i: int, j: int| 0 <= i < j < self@.len() implies self@[i].id
                    != self@[j].id by {
                    if j < prev.len() {
                    } else {
                        assert(self@[j] == create@);
                        if prev[i].id == create.id {
                            assert(contains_id(prev, create.id));
                        }
                    }
                }
            }
        }
        Ok(())
    }

    /// Replaces the first record whose id is `id`, in place, by `update`'s
    /// content under that id; reports Not Found when no record matches and
    /// leaves the store untouched.
    pub fn update_todo(&mut self, id: u64, update: Todo) -> (r: Result<(), StoreError>)
        ensures
            !contains_id(old(self)@, id) ==> r == Err::<(), StoreError>(StoreError::NotFound)
                && final(self)@ == old(self)@,
            contains_id(old(self)@, id) ==> r == Ok::<(), StoreError>(())
                && final(self)@ == old(self)@.update(
                first_index_of(old(self)@, id),
                replaced(id, update@),
            ),
            old(self).wf() ==> final(self).wf(),
    {
        let mut k: usize = 0;
        while k < self.todos.len()
            invariant
                k <= self.todos@.len(),
                *self == *old(self),
                forall|j: int| 0 <= j < k ==> self@[j].id != id,
            decreases self.todos@.len() - k,
        {
            if self.todos[k].id == id {
                assert(self@[k as int].id == id);
                assert(contains_id(self@, id));
                proof {
                    lemma_first_index_of_at(self@, id, k as int);
                }
                let ghost prev = self@;
                let stored = Todo { id, text: update.text, completed: update.completed };
                self.todos.set(k, stored);
                proof {
                    assert(self@ =~= prev.update(k as int, replaced(id, update@)));
                    assert forall|i: int| 0 <= i < self@.len() implies self@[i].id
                        == prev[i].id by {}
                    if old(self).wf() {
                        assert forall|i: int, j: int| 0 <= i < j < self@.len() implies self@[i].id
                            != self@[j].id by {
                            assert(prev[i].id != prev[j].id);
                        }
                    }
                }
                return Ok(());
            }
            k = k + 1;
        }
        assert(!contains_id(self@, id));
        Err(StoreError::NotFound)
    }

    /// Removes every record whose id is `id`. Deleting is reported as a
    /// success exactly when the collection shrank, that is, when some record
    /// carried the id; otherwise Not Found.
    pub fn delete_todo(&mut self, id: u64) -> (r: Result<(), StoreError>)
        ensures
            final(self)@ == removed(old(self)@, id),
            r == Ok::<(), StoreError>(()) <==> contains_id(old(self)@, id),
            !contains_id(old(self)@, id) ==> r == Err::<(), StoreError>(StoreError::NotFound)
                && final(self)@ == old(self)@,
            !contains_id(final(self)@, id),
            old(self).wf() ==> final(self).wf(),
    {
        let mut out: Vec<Todo> = Vec::new();
        let mut found = false;
        let mut k: usize = 0;
        proof {
            reveal(Seq::filter);
            assert(self@.take(0) =~= Seq::<TodoView>::empty());
            assert(views_of(out@) =~= removed(self@.take(0), id));
        }
        while k < self.todos.len()
            invariant
                k <= self.todos@.len(),
                *self == *old(self),
                views_of(out@) == removed(self@.take(k as int), id),
                found <==> contains_id(self@.take(k as int), id),
            decreases self.todos@.len() - k,
        {
            let ghost pre = self@.take(k as int);
            proof {
                assert(self@.take(k as int + 1) =~= pre.push(self@[k as int]));
                lemma_removed_push(pre, self@[k as int], id);
            }
            let t = &self.todos[k];
            if t.id != id {
                out.push(Todo { id: t.id, text: t.text.clone(), completed: t.completed });
                proof {
                    assert(views_of(out@) =~= removed(self@.take(k as int + 1), id));
                    if contains_id(self@.take(k as int + 1), id) {
                        let w = choose|i: int|
                            0 <= i < k + 1 && (#[trigger] self@.take(k as int + 1)[i]).id == id;
                        assert(pre[w] == self@.take(k as int + 1)[w]);
                        assert(contains_id(pre, id));
                    }
                    if contains_id(pre, id) {
                        let w = choose|i: int| 0 <= i < k && pre[i].id == id;
                        assert(self@.take(k as int + 1)[w] == pre[w]);
                        assert(contains_id(self@.take(k as int + 1), id));
                    }
                }
            } else {
                found = true;
                proof {
                    assert(self@.take(k as int + 1)[k as int].id == id);
                    assert(contains_id(self@.take(k as int + 1), id));
                }
            }
            k = k + 1;
        }
        proof {
            assert(self@.take(self.todos@.len() as int) =~= self@);
        }
        let ghost prev = *self;
        self.todos = out;
        proof {
            assert(self@ == removed(prev@, id));
            lemma_removed_props(prev@, id);
        }
        if found {
            Ok(())
        } else {
            Err(StoreError::NotFound)
        }
    }

    /// The store as it stands at process start: a single example record with
    /// id 1 and an unfinished task.
    pub fn init_todos() -> (s: TodoStore)
        ensures
            s@ == seq![seed_view()],
            s.wf(),
    {
        let mut todos: Vec<Todo> = Vec::new();
        todos.push(Todo { id: 1, text: "TODOの内容について".to_owned(), completed: false });
        let s = TodoStore { todos };
        proof {
            assert(s@ =~= seq![seed_view()]);
        }
        s
    }
}

/// The one record the store is seeded with.
pub open spec fn seed_view() -> TodoView {
    TodoView { id: 1, text: "TODOの内容について"@, completed: false }
}

} // verus!
