use crate::env::Env;
use crate::fresh::now_millis;
use crate::todo::{Todo, TodoView};
use vstd::prelude::*;

verus! {

/// The ways a store operation can fail.
#[derive(Clone, Copy, Debug, PartialEq, Eq, Structural)]
pub enum DbError {
    /// The backing store cannot be created or opened.
    StorageUnavailable,
    /// Creating the task table failed.
    SchemaError,
    /// The store could not be reopened for an operation.
    ConnectionError,
    /// A statement failed for any other reason.
    QueryError,
    /// An insert collided with an id that is already stored.
    DuplicateKey,
    /// No stored task has the requested id.
    NotFound,
}

/// The views of a vector of tasks.
pub open spec fn views(v: Seq<Todo>) -> Seq<TodoView> {
    v.map_values(|t: Todo| t@)
}

/// Some stored task has this id.
pub open spec fn has_id(s: Seq<TodoView>, id: Seq<char>) -> bool {
    exists|i: int| 0 <= i < s.len() && #[trigger] s[i].id == id
}

/// No two stored tasks share an id.
pub open spec fn unique_ids(s: Seq<TodoView>) -> bool {
    forall|i: int, j: int| 0 <= i < s.len() && 0 <= j < s.len() && i != j ==> #[trigger] s[i].id != #[trigger] s[j].id
}

/// Creation times never decrease along the sequence.
pub open spec fn sorted_by_creation(s: Seq<TodoView>) -> bool {
    forall|i: int, j: int| 0 <= i <= j < s.len() ==> #[trigger] s[i].created_at <= #[trigger] s[j].created_at
}

/// What a well-formed table holds: unique ids, in order of creation time.
pub open spec fn table_wf(s: Seq<TodoView>) -> bool {
    unique_ids(s) && sorted_by_creation(s)
}

/// Where a task created at `c` goes: after the leading run of tasks created
/// at or before `c`, so that among equal creation times the older insert
/// comes first.
pub open spec fn slot(s: Seq<TodoView>, c: i64) -> nat
    decreases s.len(),
{
    if s.len() == 0 {
        0
    } else if s[0].created_at <= c {
        1 + slot(s.drop_first(), c)
    } else {
        0
    }
}

/// The table after inserting `t` at its place in creation order.
pub open spec fn sorted_insert(s: Seq<TodoView>, t: TodoView) -> Seq<TodoView> {
    s.insert(slot(s, t.created_at) as int, t)
}

/// The table built by inserting `rows` one after another into an empty table.
pub open spec fn arrange(rows: Seq<TodoView>) -> Seq<TodoView>
    decreases rows.len(),
{
    if rows.len() == 0 {
        Seq::empty()
    } else {
        sorted_insert(arrange(rows.drop_last()), rows.last())
    }
}

/// Up to `limit` tasks, the most recently created first.
pub open spec fn recent(s: Seq<TodoView>, limit: int) -> Seq<TodoView> {
    let n = if limit < s.len() { limit } else { s.len() as int };
    Seq::new(n as nat, |i: int| s[s.len() - 1 - i])
}

/// The task has not been marked complete.
pub open spec fn is_incomplete(t: TodoView) -> bool {
    t.is_completed == 0
}

/// The tasks that have not been marked complete, in table order.
pub open spec fn incomplete(s: Seq<TodoView>) -> Seq<TodoView> {
    s.filter(|t: TodoView| is_incomplete(t))
}

/// A task after it was marked complete at time `now`.
pub open spec fn completed_at(t: TodoView, now: i64) -> TodoView {
    TodoView { is_completed: 1, updated_at: now, ..t }
}

/// The table after the task with this id was marked complete at time `now`.
pub open spec fn complete_in(s: Seq<TodoView>, id: Seq<char>, now: i64) -> Seq<TodoView> {
    s.map_values(|t: TodoView| if t.id == id { completed_at(t, now) } else { t })
}

proof fn lemma_slot_bounds(s: Seq<TodoView>, c: i64)
    ensures
        slot(s, c) <= s.len(),
        forall|j: int| 0 <= j < slot(s, c) ==> s[j].created_at <= c,
        sorted_by_creation(s) ==> forall|j: int| slot(s, c) <= j < s.len() ==> s[j].created_at > c,
    decreases s.len(),
{
    if s.len() > 0 && s[0].created_at <= c {
        lemma_slot_bounds(s.drop_first(), c);
        assert forall|j: int| 0 <= j < slot(s, c) implies s[j].created_at <= c by {
            if j > 0 {
                assert(s[j] == s.drop_first()[j - 1]);
            }
        }
        if sorted_by_creation(s) {
            assert(sorted_by_creation(s.drop_first())) by {
                assert forall|i: int, j: int| 0 <= i <= j < s.drop_first().len() implies
                    #[trigger] s.drop_first()[i].created_at <= #[trigger] s.drop_first()[j].created_at by {
                    assert(s[i + 1].created_at <= s[j + 1].created_at);
                }
            }
            assert forall|j: int| slot(s, c) <= j < s.len() implies s[j].created_at > c by {
                assert(s[j] == s.drop_first()[j - 1]);
            }
        }
    }
}

/// Inserting a task whose id is not stored keeps the table well formed,
/// one longer, and holding exactly the old tasks and the new one.
pub proof fn lemma_sorted_insert_wf(s: Seq<TodoView>, t: TodoView)
    requires
        table_wf(s),
        !has_id(s, t.id),
    ensures
        table_wf(sorted_insert(s, t)),
        sorted_insert(s, t).len() == s.len() + 1,
        sorted_insert(s, t).contains(t),
        forall|x: TodoView| #[trigger] sorted_insert(s, t).contains(x) <==> (x == t || s.contains(x)),
{
    lemma_slot_bounds(s, t.created_at);
    let k = slot(s, t.created_at) as int;
    let r = sorted_insert(s, t);
    assert(r[k] == t);
    assert forall|i: int| 0 <= i < r.len() implies #[trigger] r[i] == (if i < k { s[i] } else if i == k { t } else { s[i - 1] }) by {}
    assert forall|i: int, j: int| 0 <= i <= j < r.len() implies #[trigger] r[i].created_at <= #[trigger] r[j].created_at by {
        if i < k && j > k {
            assert(s[i].created_at <= s[j - 1].created_at);
        }
    }
    assert forall|i: int, j: int| 0 <= i < r.len() && 0 <= j < r.len() && i != j implies #[trigger] r[i].id != #[trigger] r[j].id by {
        if i == k {
            if j < k { assert(s[j].id == r[j].id); } else { assert(s[j - 1].id == r[j].id); }
        } else if j == k {
            if i < k { assert(s[i].id == r[i].id); } else { assert(s[i - 1].id == r[i].id); }
        }
    }
    assert forall|x: TodoView| #[trigger] r.contains(x) <==> (x == t || s.contains(x)) by {
        if r.contains(x) {
            let i = choose|i: int| 0 <= i < r.len() && r[i] == x;
            if i < k { assert(s[i] == x); } else if i > k { assert(s[i - 1] == x); }
        }
        if s.contains(x) {
            let i = choose|i: int| 0 <= i < s.len() && s[i] == x;
            if i < k { assert(r[i] == x); } else { assert(r[i + 1] == x); }
        }
    }
}

/// Inserting rows one after another keeps exactly those rows, in a
/// well-formed table, as long as their ids are unique.
pub proof fn lemma_arrange_contents(rows: Seq<TodoView>)
    requires
        unique_ids(rows),
    ensures
        table_wf(arrange(rows)),
        arrange(rows).len() == rows.len(),
        forall|x: TodoView| #[trigger] arrange(rows).contains(x) <==> rows.contains(x),
    decreases rows.len(),
{
    if rows.len() > 0 {
        let pre = rows.drop_last();
        let t = rows.last();
        assert(unique_ids(pre)) by {
            assert forall|a: int, b: int| 0 <= a < pre.len() && 0 <= b < pre.len() && a != b implies
                #[trigger] pre[a].id != #[trigger] pre[b].id by {
                assert(rows[a].id != rows[b].id);
            }
        }
        lemma_arrange_contents(pre);
        assert(!has_id(arrange(pre), t.id)) by {
            if has_id(arrange(pre), t.id) {
                let k = choose|k: int| 0 <= k < arrange(pre).len() && #[trigger] arrange(pre)[k].id == t.id;
                assert(arrange(pre).contains(arrange(pre)[k]));
                assert(pre.contains(arrange(pre)[k]));
                let m = choose|m: int| 0 <= m < pre.len() && pre[m] == arrange(pre)[k];
                assert(rows[m].id == rows[rows.len() - 1].id);
            }
        }
        lemma_sorted_insert_wf(arrange(pre), t);
        assert forall|x: TodoView| #[trigger] arrange(rows).contains(x) <==> rows.contains(x) by {
            if pre.contains(x) {
                let m = choose|m: int| 0 <= m < pre.len() && pre[m] == x;
                assert(rows[m] == x);
            }
            if rows.contains(x) && x != t {
                let m = choose|m: int| 0 <= m < rows.len() && rows[m] == x;
                assert(pre[m] == x);
            }
            assert(rows[rows.len() - 1] == t);
        }
    }
}

/// The task table: every stored task, kept in order of creation time.
pub struct Db {
    env: Env,
    rows: Vec<Todo>,
}

impl View for Db {
    type V = Seq<TodoView>;

    closed spec fn view(&self) -> Seq<TodoView> {
        views(self.rows@)
    }
}

impl Db {
    /// The target whose storage this table mirrors.
    pub closed spec fn env_spec(&self) -> Env {
        self.env
    }

    /// The table keeps unique ids in order of creation time.
    pub open spec fn wf(&self) -> bool {
        table_wf(self@)
    }

    /// An empty table for the given target.
    pub fn new(env: Env) -> (r: Db)
        ensures
            r.wf(),
            r@ == Seq::<TodoView>::empty(),
            r.env_spec() == env,
    {
        let r = Db { env, rows: Vec::new() };
        assert(r@ =~= Seq::<TodoView>::empty());
        r
    }

    /// The target whose storage this table mirrors.
    pub fn env(&self) -> (r: Env)
        ensures
            r == self.env_spec(),
    {
        self.env
    }

    fn find(&self, id: &String) -> (r: Option<usize>)
        ensures
            match r {
                Some(i) => i < self@.len() && self@[i as int].id == id@,
                None => !has_id(self@, id@),
            },
    {
        let mut i: usize = 0;
        while i < self.rows.len()
            invariant
                i <= self.rows.len(),
                forall|j: int| 0 <= j < i ==> self@[j].id != id@,
            decreases self.rows.len() - i,
        {
            if self.rows[i].id == *id {
                return Some(i);
            }
            i = i + 1;
        }
        None
    }

    /// Stores a new task at its place in creation order; an id that is
    /// already stored is refused and leaves the table as it was.
    pub fn insert(&mut self, todo: &Todo) -> (r: Result<(), DbError>)
        requires
            old(self).wf(),
        ensures
            final(self).wf(),
            final(self).env_spec() == old(self).env_spec(),
            r is Ok <==> !has_id(old(self)@, todo.id@),
            r is Ok ==> final(self)@ == sorted_insert(old(self)@, todo@),
            r is Err ==> r == Err::<(), DbError>(DbError::DuplicateKey) && final(self)@ == old(self)@,
    {
        if self.find(&todo.id).is_some() {
            return Err(DbError::DuplicateKey);
        }
        let ghost s = self@;
        let c = todo.created_at;
        let mut i: usize = 0;
        assert(s.subrange(0, s.len() as int) =~= s);
        while i < self.rows.len() && self.rows[i].created_at <= c
            invariant
                s == self@,
                i <= s.len(),
                slot(s, c) == i + slot(s.subrange(i as int, s.len() as int), c),
            decreases self.rows.len() - i,
        {
            assert(s.subrange(i as int, s.len() as int).drop_first() =~= s.subrange(i + 1, s.len() as int));
            i = i + 1;
        }
        assert(slot(s.subrange(i as int, s.len() as int), c) == 0);
        self.rows.insert(i, todo.duplicate());
        assert(self@ =~= sorted_insert(s, todo@));
        proof {
            lemma_sorted_insert_wf(s, todo@);
        }
        Ok(())
    }

    /// The stored task with this id.
    pub fn get(&self, id: &String) -> (r: Result<Todo, DbError>)
        ensures
            r is Ok <==> has_id(self@, id@),
            r matches Ok(t) ==> t@.id == id@ && self@.contains(t@),
            r is Err ==> r == Err::<Todo, DbError>(DbError::NotFound),
    {
        match self.find(id) {
            Some(i) => {
                let t = self.rows[i].duplicate();
                assert(self@[i as int] == t@);
                Ok(t)
            },
            None => Err(DbError::NotFound),
        }
    }

    /// Every stored task, in order of creation time.
    pub fn list_all(&self) -> (r: Vec<Todo>)
        ensures
            views(r@) == self@,
    {
        let mut out: Vec<Todo> = Vec::new();
        let mut i: usize = 0;
        while i < self.rows.len()
            invariant
                i <= self.rows.len(),
                views(out@) == self@.subrange(0, i as int),
            decreases self.rows.len() - i,
        {
            let ghost before = out@;
            assert(views(before).len() == i);
            out.push(self.rows[i].duplicate());
            assert forall|j: int| 0 <= j < i implies views(out@)[j] == views(before)[j] by {
                assert(out@[j] == before[j]);
            }
            i = i + 1;
            assert(views(out@) =~= self@.subrange(0, i as int));
        }
        assert(self@.subrange(0, i as int) =~= self@);
        out
    }

    /// Up to `limit` tasks, the most recently created first.
    pub fn get_recent_todos(&self, limit: u32) -> (r: Vec<Todo>)
        ensures
            views(r@) == recent(self@, limit as int),
    {
        let n = self.rows.len();
        let mut out: Vec<Todo> = Vec::new();
        let mut i: usize = 0;
        while i < n && i < limit as usize
            invariant
                n == self@.len(),
                i <= n,
                i <= limit,
                views(out@) == recent(self@, i as int),
            decreases n - i,
        {
            let ghost before = out@;
            assert(views(before).len() == i);
            out.push(self.rows[n - 1 - i].duplicate());
            assert(views(out@)[i as int] == self@[n - 1 - i]);
            assert forall|j: int| 0 <= j < i implies views(out@)[j] == views(before)[j] by {
                assert(out@[j] == before[j]);
            }
            i = i + 1;
            assert(recent(self@, i as int).len() == i);
            assert(views(out@).len() == i);
            assert forall|j: int| 0 <= j < i implies views(out@)[j] == recent(self@, i as int)[j] by {
                if j + 1 < i {
                    assert(views(out@)[j] == views(before)[j]);
                }
            }
            assert(views(out@) =~= recent(self@, i as int));
        }
        assert(recent(self@, i as int) =~= recent(self@, limit as int));
        out
    }

    /// The tasks not yet marked complete, in order of creation time.
    pub fn get_incomplete_todos(&self) -> (r: Vec<Todo>)
        ensures
            views(r@) == incomplete(self@),
    {
        let mut out: Vec<Todo> = Vec::new();
        let mut i: usize = 0;
        while i < self.rows.len()
            invariant
                i <= self.rows.len(),
                views(out@) == incomplete(self@.subrange(0, i as int)),
            decreases self.rows.len() - i,
        {
            let ghost pre = self@.subrange(0, i as int);
            assert(self@.subrange(0, i + 1) =~= pre.push(self@[i as int]));
            proof {
                pre.lemma_filter_push(self@[i as int], |t: TodoView| is_incomplete(t));
            }
            if self.rows[i].is_completed == 0 {
                out.push(self.rows[i].duplicate());
                assert(views(out@) =~= views(out@).drop_last().push(self@[i as int]));
            }
            i = i + 1;
        }
        assert(self@.subrange(0, i as int) =~= self@);
        out
    }

    /// Marks the task with this id complete at time `now`: its flag becomes 1
    /// and its modification time `now`; every other task stays as it was.
    pub fn mark_complete_at(&mut self, id: &String, now: i64) -> (r: Result<(), DbError>)
        requires
            old(self).wf(),
        ensures
            final(self).wf(),
            final(self).env_spec() == old(self).env_spec(),
            r is Ok <==> has_id(old(self)@, id@),
            r is Ok ==> final(self)@ == complete_in(old(self)@, id@, now),
            r is Err ==> r == Err::<(), DbError>(DbError::NotFound) && final(self)@ == old(self)@,
    {
        match self.find(id) {
            None => Err(DbError::NotFound),
            Some(i) => {
                let ghost s = self@;
                let mut t = self.rows[i].duplicate();
                t.is_completed = 1;
                t.updated_at = now;
                self.rows.set(i, t);
                assert forall|j: int| 0 <= j < s.len() implies #[trigger] self@[j] == (if s[j].id == id@ {
                    completed_at(s[j], now)
                } else {
                    s[j]
                }) by {
                    if j != i {
                        assert(s[j].id != s[i as int].id);
                    }
                }
                assert(self@ =~= complete_in(s, id@, now));
                assert(sorted_by_creation(self@)) by {
                    assert forall|a: int, b: int| 0 <= a <= b < self@.len() implies
                        #[trigger] self@[a].created_at <= #[trigger] self@[b].created_at by {
                        assert(s[a].created_at <= s[b].created_at);
                    }
                }
                assert(unique_ids(self@)) by {
                    assert forall|a: int, b: int| 0 <= a < self@.len() && 0 <= b < self@.len() && a != b implies
                        #[trigger] self@[a].id != #[trigger] self@[b].id by {
                        assert(s[a].id != s[b].id);
                    }
                }
                Ok(())
            },
        }
    }

    /// Marks the task with this id complete at the current time; an unknown
    /// id is refused and leaves the table as it was.
    pub fn mark_as_complete(&mut self, id: &String) -> (r: Result<(), DbError>)
        requires
            old(self).wf(),
        ensures
            final(self).wf(),
            final(self).env_spec() == old(self).env_spec(),
            r is Ok <==> has_id(old(self)@, id@),
            r is Ok ==> exists|now: i64| now >= 0 && final(self)@ == complete_in(old(self)@, id@, now),
            r is Err ==> r == Err::<(), DbError>(DbError::NotFound) && final(self)@ == old(self)@,
    {
        let now = now_millis();
        self.mark_complete_at(id, now)
    }

    /// A table holding the given rows, each inserted in turn; a repeated id
    /// is refused.
    pub fn from_rows(env: Env, rows: Vec<Todo>) -> (r: Result<Db, DbError>)
        ensures
            r is Ok <==> unique_ids(views(rows@)),
            r matches Ok(db) ==> db.wf() && db.env_spec() == env && db@ == arrange(views(rows@)),
            r is Err ==> r == Err::<Db, DbError>(DbError::DuplicateKey),
    {
        let mut db = Db::new(env);
        let mut i: usize = 0;
        while i < rows.len()
            invariant
                i <= rows.len(),
                db.wf(),
                db.env_spec() == env,
                unique_ids(views(rows@).subrange(0, i as int)),
                db@ == arrange(views(rows@).subrange(0, i as int)),
            decreases rows.len() - i,
        {
            let ghost pre = views(rows@).subrange(0, i as int);
            let ghost next = views(rows@).subrange(0, i + 1);
            assert(next.drop_last() =~= pre);
            proof {
                lemma_arrange_contents(pre);
            }
            match db.insert(&rows[i]) {
                Ok(()) => {},
                Err(e) => {
                    proof {
                        let k = choose|k: int| 0 <= k < db@.len() && #[trigger] db@[k].id == rows@[i as int].id@;
                        assert(arrange(pre).contains(db@[k]));
                        assert(pre.contains(db@[k]));
                        let m = choose|m: int| 0 <= m < pre.len() && pre[m] == db@[k];
                        assert(views(rows@)[m].id == views(rows@)[i as int].id);
                    }
                    return Err(e);
                },
            }
            assert(unique_ids(next)) by {
                assert forall|a: int, b: int| 0 <= a < next.len() && 0 <= b < next.len() && a != b implies
                    #[trigger] next[a].id != #[trigger] next[b].id by {
                    if a == i {
                        if pre[b].id == next[a].id {
                            assert(has_id(arrange(pre), next[a].id)) by {
                                assert(arrange(pre).contains(pre[b]));
                                let k = choose|k: int| 0 <= k < arrange(pre).len() && arrange(pre)[k] == pre[b];
                                assert(arrange(pre)[k].id == next[a].id);
                            }
                        }
                    } else if b == i {
                        if pre[a].id == next[b].id {
                            assert(has_id(arrange(pre), next[b].id)) by {
                                assert(arrange(pre).contains(pre[a]));
                                let k = choose|k: int| 0 <= k < arrange(pre).len() && arrange(pre)[k] == pre[a];
                                assert(arrange(pre)[k].id == next[b].id);
                            }
                        }
                    } else {
                        assert(pre[a].id != pre[b].id);
                    }
                }
            }
            i = i + 1;
        }
        assert(views(rows@).subrange(0, i as int) =~= views(rows@));
        Ok(db)
    }
}

} // verus!
