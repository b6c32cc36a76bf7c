//! Sequences of tasks keyed by their identifiers.
use vstd::prelude::*;
use crate::item::{ItemId, Task, TaskView};

verus! {

/// The mathematical values of a sequence of tasks.
pub open spec fn views(s: Seq<Task>) -> Seq<TaskView> {
    s.map_values(|t: Task| t@)
}

/// The mathematical values of a sequence of borrowed tasks.
pub open spec fn ref_views(s: Seq<&Task>) -> Seq<TaskView> {
    s.map_values(|t: &Task| t@)
}

/// No identifier occurs twice.
pub open spec fn unique_ids(s: Seq<TaskView>) -> bool {
    forall|a: int, b: int|
        0 <= a < s.len() && 0 <= b < s.len() && a != b ==> #[trigger] s[a].id != #[trigger] s[b].id
}

/// The task with the given identifier (the last one, should there be several).
pub open spec fn lookup(s: Seq<TaskView>, id: ItemId) -> Option<TaskView>
    decreases s.len(),
{
    if s.len() == 0 {
        None
    } else if s.last().id == id {
        Some(s.last())
    } else {
        lookup(s.drop_last(), id)
    }
}

pub proof fn lemma_lookup_push(s: Seq<TaskView>, x: TaskView, id: ItemId)
    ensures
        lookup(s.push(x), id) == (if x.id == id { Some(x) } else { lookup(s, id) }),
{
    assert(s.push(x).drop_last() =~= s);
}

pub proof fn lemma_lookup_none(s: Seq<TaskView>, id: ItemId)
    ensures
        lookup(s, id) is None <==> (forall|k: int| 0 <= k < s.len() ==> #[trigger] s[k].id != id),
    decreases s.len(),
{
    if s.len() > 0 {
        lemma_lookup_none(s.drop_last(), id);
        assert forall|k: int| 0 <= k < s.len() - 1 implies #[trigger] s[k] == s.drop_last()[k] by {}
    }
}

pub proof fn lemma_lookup_index(s: Seq<TaskView>, k: int)
    requires
        unique_ids(s),
        0 <= k < s.len(),
    ensures
        lookup(s, s[k].id) == Some(s[k]),
    decreases s.len(),
{
    if k < s.len() - 1 {
        let t = s.drop_last();
        assert(unique_ids(t)) by {
            assert forall|a: int, b: int|
                0 <= a < t.len() && 0 <= b < t.len() && a != b implies #[trigger] t[a].id != #[trigger] t[b].id by {
                assert(t[a] == s[a] && t[b] == s[b]);
            }
        }
        assert(t[k] == s[k]);
        assert(s[s.len() - 1].id != s[k].id);
        lemma_lookup_index(t, k);
    }
}

pub proof fn lemma_views_push(s: Seq<Task>, t: Task)
    ensures
        views(s.push(t)) == views(s).push(t@),
{
    assert(views(s.push(t)) =~= views(s).push(t@));
}

pub proof fn lemma_push_unique(s: Seq<TaskView>, x: TaskView)
    requires
        unique_ids(s),
        lookup(s, x.id) is None,
    ensures
        unique_ids(s.push(x)),
{
    lemma_lookup_none(s, x.id);
    let p = s.push(x);
    assert forall|a: int, b: int|
        0 <= a < p.len() && 0 <= b < p.len() && a != b implies #[trigger] p[a].id != #[trigger] p[b].id by {
        if a < s.len() && b < s.len() {
            assert(p[a] == s[a] && p[b] == s[b]);
        } else if a < s.len() {
            assert(p[a] == s[a]);
        } else {
            assert(p[b] == s[b]);
        }
    }
}

pub proof fn lemma_lookup_some(s: Seq<TaskView>, id: ItemId)
    requires
        lookup(s, id) is Some,
    ensures
        exists|k: int| 0 <= k < s.len() && s[k].id == id && lookup(s, id) == Some(#[trigger] s[k]),
    decreases s.len(),
{
    if s.last().id != id {
        lemma_lookup_some(s.drop_last(), id);
        let k = choose|k: int| 0 <= k < s.drop_last().len() && s.drop_last()[k].id == id && lookup(s.drop_last(), id) == Some(#[trigger] s.drop_last()[k]);
        assert(s[k] == s.drop_last()[k]);
    } else {
        assert(s[s.len() - 1] == s.last());
    }
}

/// Replacing the task at `k` by one with the same identifier.
pub proof fn lemma_lookup_update(s: Seq<TaskView>, k: int, t: TaskView)
    requires
        unique_ids(s),
        0 <= k < s.len(),
        t.id == s[k].id,
    ensures
        unique_ids(s.update(k, t)),
        forall|id: ItemId| #[trigger] lookup(s.update(k, t), id) == if id == t.id { Some(t) } else { lookup(s, id) },
{
    let u = s.update(k, t);
    assert forall|a: int, b: int| 0 <= a < u.len() && 0 <= b < u.len() && a != b implies #[trigger] u[a].id != #[trigger] u[b].id by {
        assert(u[a].id == s[a].id && u[b].id == s[b].id);
    }
    assert forall|id: ItemId| #[trigger] lookup(u, id) == if id == t.id { Some(t) } else { lookup(s, id) } by {
        if id == t.id {
            lemma_lookup_index(u, k);
        } else {
            lemma_lookup_none(s, id);
            lemma_lookup_none(u, id);
            if lookup(s, id) is Some {
                lemma_lookup_some(s, id);
                let j = choose|j: int| 0 <= j < s.len() && s[j].id == id && lookup(s, id) == Some(#[trigger] s[j]);
                assert(u[j] == s[j]);
                lemma_lookup_index(u, j);
            } else {
                assert forall|j: int| 0 <= j < u.len() implies #[trigger] u[j].id != id by {
                    assert(u[j].id == s[j].id);
                }
            }
        }
    }
}

/// Removing the task at `k`.
pub proof fn lemma_lookup_remove(s: Seq<TaskView>, k: int)
    requires
        unique_ids(s),
        0 <= k < s.len(),
    ensures
        unique_ids(s.remove(k)),
        forall|id: ItemId| #[trigger] lookup(s.remove(k), id) == if id == s[k].id { None } else { lookup(s, id) },
{
    let u = s.remove(k);
    assert forall|j: int| 0 <= j < u.len() implies #[trigger] u[j] == (if j < k { s[j] } else { s[j + 1] }) by {}
    assert forall|a: int, b: int| 0 <= a < u.len() && 0 <= b < u.len() && a != b implies #[trigger] u[a].id != #[trigger] u[b].id by {
        assert(u[a] == (if a < k { s[a] } else { s[a + 1] }));
        assert(u[b] == (if b < k { s[b] } else { s[b + 1] }));
    }
    assert forall|id: ItemId| #[trigger] lookup(u, id) == if id == s[k].id { None } else { lookup(s, id) } by {
        lemma_lookup_none(u, id);
        lemma_lookup_none(s, id);
        if id == s[k].id {
            assert forall|j: int| 0 <= j < u.len() implies #[trigger] u[j].id != id by {
                assert(u[j] == (if j < k { s[j] } else { s[j + 1] }));
            }
        } else if lookup(s, id) is Some {
            lemma_lookup_some(s, id);
            let j = choose|j: int| 0 <= j < s.len() && s[j].id == id && lookup(s, id) == Some(#[trigger] s[j]);
            let ju = if j < k { j } else { j - 1 };
            assert(u[ju] == s[j]);
            lemma_lookup_index(u, ju);
        } else {
            assert forall|j: int| 0 <= j < u.len() implies #[trigger] u[j].id != id by {
                assert(u[j] == (if j < k { s[j] } else { s[j + 1] }));
            }
        }
    }
}

/// The index of the task with the given identifier.
pub fn position(tasks: &Vec<Task>, id: ItemId) -> (r: Option<usize>)
    requires
        unique_ids(views(tasks@)),
    ensures
        match r {
            Some(k) => k < tasks.len() && tasks@[k as int]@.id == id && lookup(views(tasks@), id) == Some(tasks@[k as int]@),
            None => lookup(views(tasks@), id) is None,
        },
{
    let mut i: usize = 0;
    while i < tasks.len()
        invariant
            i <= tasks.len(),
            unique_ids(views(tasks@)),
            forall|k: int| 0 <= k < i ==> #[trigger] views(tasks@)[k].id != id,
        decreases tasks.len() - i,
    {
        if tasks[i].id() == id {
            proof {
                assert(views(tasks@)[i as int] == tasks@[i as int]@);
                lemma_lookup_index(views(tasks@), i as int);
            }
            return Some(i);
        }
        assert(views(tasks@)[i as int] == tasks@[i as int]@);
        i = i + 1;
    }
    proof {
        lemma_lookup_none(views(tasks@), id);
    }
    None
}

} // verus!
