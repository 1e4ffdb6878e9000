use crate::db::{
    arrange, complete_in, has_id, incomplete, is_incomplete, recent, sorted_by_creation, sorted_insert,
    table_wf, lemma_sorted_insert_wf,
};
use crate::todo::TodoView;
use vstd::prelude::*;

verus! {

/// A table that holds no task lists nothing: not all tasks, not the most
/// recent ones for any limit, not the incomplete ones.
pub proof fn lemma_empty_table_lists_nothing(k: int)
    requires
        k >= 0,
    ensures
        arrange(Seq::empty()) == Seq::<TodoView>::empty(),
        recent(Seq::empty(), k).len() == 0,
        incomplete(Seq::empty()).len() == 0,
{
    reveal(Seq::filter);
}

/// A task read back by its id right after it was inserted equals the
/// inserted task in every field: the id is stored, and the only stored task
/// with that id is the inserted one.
pub proof fn lemma_get_after_insert(s: Seq<TodoView>, t: TodoView)
    requires
        table_wf(s),
        !has_id(s, t.id),
    ensures
        has_id(sorted_insert(s, t), t.id),
        forall|x: TodoView| #[trigger] sorted_insert(s, t).contains(x) && x.id == t.id ==> x == t,
{
    lemma_sorted_insert_wf(s, t);
    let r = sorted_insert(s, t);
    let k = choose|k: int| 0 <= k < r.len() && r[k] == t;
    assert(r[k].id == t.id);
    assert forall|x: TodoView| #[trigger] r.contains(x) && x.id == t.id implies x == t by {
        if x != t {
            assert(s.contains(x));
            let m = choose|m: int| 0 <= m < s.len() && s[m] == x;
            assert(s[m].id == t.id);
        }
    }
}

/// After a task was inserted, a second insert with the same id finds that id
/// stored (and so is refused), while the first task stays in the table.
pub proof fn lemma_second_insert_refused(s: Seq<TodoView>, t: TodoView, u: TodoView)
    requires
        table_wf(s),
        !has_id(s, t.id),
        u.id == t.id,
    ensures
        has_id(sorted_insert(s, t), u.id),
        sorted_insert(s, t).contains(t),
{
    lemma_get_after_insert(s, t);
    lemma_sorted_insert_wf(s, t);
}

/// A well-formed table lists its tasks in non-decreasing creation time, and
/// its `k` most recent tasks come in decreasing creation time, none created
/// before any task that was left out.
pub proof fn lemma_listing_order(s: Seq<TodoView>, k: int)
    requires
        table_wf(s),
        0 <= k <= s.len(),
    ensures
        sorted_by_creation(s),
        recent(s, k).len() == k,
        forall|i: int, j: int| 0 <= i <= j < k ==> #[trigger] recent(s, k)[i].created_at >= #[trigger] recent(s, k)[j].created_at,
        forall|i: int, j: int| 0 <= i < k && 0 <= j < s.len() - k ==> #[trigger] s[j].created_at <= #[trigger] recent(s, k)[i].created_at,
{
    let r = recent(s, k);
    assert forall|i: int, j: int| 0 <= i <= j < k implies #[trigger] r[i].created_at >= #[trigger] r[j].created_at by {
        assert(s[s.len() - 1 - j].created_at <= s[s.len() - 1 - i].created_at);
    }
    assert forall|i: int, j: int| 0 <= i < k && 0 <= j < s.len() - k implies #[trigger] s[j].created_at <= #[trigger] r[i].created_at by {
        assert(s[j].created_at <= s[s.len() - 1 - i].created_at);
    }
}

/// Marking a stored task complete sets its flag and its modification time
/// and changes nothing else; the modification time grows whenever the clock
/// has moved past the task's previous one.
pub proof fn lemma_mark_complete_effect(s: Seq<TodoView>, id: Seq<char>, now: i64)
    requires
        table_wf(s),
    ensures
        complete_in(s, id, now).len() == s.len(),
        forall|i: int| 0 <= i < s.len() && s[i].id == id ==> {
            let t = #[trigger] complete_in(s, id, now)[i];
            &&& t.is_completed == 1
            &&& t.updated_at == now
            &&& (now > s[i].updated_at ==> t.updated_at > s[i].updated_at)
            &&& t.id == s[i].id && t.title == s[i].title && t.created_at == s[i].created_at
        },
        forall|i: int| 0 <= i < s.len() && s[i].id != id ==> #[trigger] complete_in(s, id, now)[i] == s[i],
{
}

/// The incomplete listing holds exactly the stored tasks whose flag is
/// unset, and a task just marked complete is not among them.
pub proof fn lemma_incomplete_listing(s: Seq<TodoView>, id: Seq<char>, now: i64)
    requires
        table_wf(s),
    ensures
        forall|x: TodoView| #[trigger] incomplete(s).contains(x) <==> (s.contains(x) && is_incomplete(x)),
        forall|x: TodoView| #[trigger] incomplete(complete_in(s, id, now)).contains(x) ==> x.id != id,
{
    broadcast use vstd::seq_lib::group_filter_ensures;

    let p = |t: TodoView| is_incomplete(t);
    assert forall|x: TodoView| #[trigger] incomplete(s).contains(x) <==> (s.contains(x) && is_incomplete(x)) by {
        if incomplete(s).contains(x) {
            s.lemma_filter_contains_rev(p, x);
            let i = choose|i: int| 0 <= i < s.filter(p).len() && s.filter(p)[i] == x;
            assert(p(s.filter(p)[i]));
        }
        if s.contains(x) && is_incomplete(x) {
            let i = choose|i: int| 0 <= i < s.len() && s[i] == x;
            assert(s.filter(p).contains(s[i]));
        }
    }
    let c = complete_in(s, id, now);
    assert forall|x: TodoView| #[trigger] incomplete(c).contains(x) implies x.id != id by {
        let i = choose|i: int| 0 <= i < c.filter(p).len() && c.filter(p)[i] == x;
        assert(p(c.filter(p)[i]));
        c.lemma_filter_contains_rev(p, x);
        let j = choose|j: int| 0 <= j < c.len() && c[j] == x;
        assert(c[j] == (if s[j].id == id { crate::db::completed_at(s[j], now) } else { s[j] }));
    }
}

} // verus!
