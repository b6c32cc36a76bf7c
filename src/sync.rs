//! The reconciliation of two replicas of a calendar.
use vstd::prelude::*;
use crate::item::{ItemId, SyncStatus, Task, TaskView, VersionTag};
use crate::tasks::{
    lemma_lookup_index, lemma_lookup_none, lemma_lookup_push, lemma_push_unique, lemma_views_push,
    lookup, position, unique_ids, views,
};

verus! {

/// What reconciliation does with one item.
pub enum Resolution {
    /// Both sides stay as they are.
    Keep,
    /// The item is removed from both sides.
    Remove,
    /// Both sides take this content, marked synced.
    Take(TaskView),
}

/// The decision for one item, from its state on the local side and on the
/// remote side (`None`: absent there). Remote wins every conflict.
pub open spec fn resolve(l: Option<TaskView>, r: Option<TaskView>) -> Resolution {
    match (l, r) {
        (None, None) => Resolution::Keep,
        (Some(lt), None) => if lt.status is NotSynced {
            Resolution::Take(lt)
        } else {
            Resolution::Remove
        },
        (None, Some(rt)) => if rt.status is LocallyDeleted {
            Resolution::Remove
        } else {
            Resolution::Take(rt)
        },
        (Some(lt), Some(rt)) => if rt.status.is_unchanged() {
            if lt.status.is_unchanged() {
                Resolution::Keep
            } else if lt.status is LocallyDeleted {
                Resolution::Remove
            } else {
                Resolution::Take(lt)
            }
        } else if rt.status is LocallyDeleted {
            Resolution::Remove
        } else {
            Resolution::Take(rt)
        },
    }
}

/// What one side holds for an item after the decision `res`, given what it
/// held before (`mine`).
pub open spec fn apply(mine: Option<TaskView>, res: Resolution, tag: VersionTag) -> Option<TaskView> {
    match res {
        Resolution::Keep => mine,
        Resolution::Remove => None,
        Resolution::Take(t) => Some(TaskView { status: SyncStatus::Synced(tag), ..t }),
    }
}

/// The local side's item after reconciliation.
pub open spec fn local_after(l: Option<TaskView>, r: Option<TaskView>, tag: VersionTag) -> Option<TaskView> {
    apply(l, resolve(l, r), tag)
}

/// The remote side's item after reconciliation.
pub open spec fn remote_after(l: Option<TaskView>, r: Option<TaskView>, tag: VersionTag) -> Option<TaskView> {
    apply(r, resolve(l, r), tag)
}

/// The outcome of `reconcile_tasks` on every identifier.
pub open spec fn reconciled(
    l: Seq<TaskView>,
    r: Seq<TaskView>,
    nl: Seq<TaskView>,
    nr: Seq<TaskView>,
    tag: VersionTag,
) -> bool {
    &&& unique_ids(nl)
    &&& unique_ids(nr)
    &&& forall|id: ItemId| #[trigger] lookup(nl, id) == local_after(lookup(l, id), lookup(r, id), tag)
    &&& forall|id: ItemId| #[trigger] lookup(nr, id) == remote_after(lookup(l, id), lookup(r, id), tag)
}

/// The value of a task that may be absent.
pub open spec fn view_of(t: Option<&Task>) -> Option<TaskView> {
    match t {
        Some(t) => Some(t@),
        None => None,
    }
}

/// The executable form of a decision.
enum Choice {
    Keep,
    Remove,
    TakeLocal,
    TakeRemote,
}

fn choose_for(l: Option<&Task>, r: Option<&Task>) -> (c: Choice)
    ensures
        match (l, r) {
            (Some(lt), Some(rt)) => match c {
                Choice::Keep => resolve(Some(lt@), Some(rt@)) is Keep,
                Choice::Remove => resolve(Some(lt@), Some(rt@)) is Remove,
                Choice::TakeLocal => resolve(Some(lt@), Some(rt@)) == Resolution::Take(lt@),
                Choice::TakeRemote => resolve(Some(lt@), Some(rt@)) == Resolution::Take(rt@),
            },
            (Some(lt), None) => match c {
                Choice::Remove => resolve(Some(lt@), None) is Remove,
                Choice::TakeLocal => resolve(Some(lt@), None) == Resolution::Take(lt@),
                _ => false,
            },
            (None, Some(rt)) => match c {
                Choice::Remove => resolve(None, Some(rt@)) is Remove,
                Choice::TakeRemote => resolve(None, Some(rt@)) == Resolution::Take(rt@),
                _ => false,
            },
            (None, None) => c is Keep,
        },
{
    match (l, r) {
        (None, None) => Choice::Keep,
        (Some(lt), None) => if lt.sync_status() == SyncStatus::NotSynced {
            Choice::TakeLocal
        } else {
            Choice::Remove
        },
        (None, Some(rt)) => if rt.sync_status().is_locally_deleted() {
            Choice::Remove
        } else {
            Choice::TakeRemote
        },
        (Some(lt), Some(rt)) => if rt.sync_status().is_synced() {
            if lt.sync_status().is_synced() {
                Choice::Keep
            } else if lt.sync_status().is_locally_deleted() {
                Choice::Remove
            } else {
                Choice::TakeLocal
            }
        } else if rt.sync_status().is_locally_deleted() {
            Choice::Remove
        } else {
            Choice::TakeRemote
        },
    }
}

fn synced_copy(t: &Task, tag: VersionTag) -> (r: Task)
    ensures
        r@ == (TaskView { status: SyncStatus::Synced(tag), ..t@ }),
{
    let mut c = t.duplicate();
    c.set_sync_status(SyncStatus::Synced(tag));
    c
}

fn push_task(v: &mut Vec<Task>, t: Task)
    requires
        unique_ids(views(old(v)@)),
        lookup(views(old(v)@), t@.id) is None,
    ensures
        final(v)@ == old(v)@.push(t),
        unique_ids(views(final(v)@)),
        forall|id: ItemId| #[trigger]
            lookup(views(final(v)@), id) == (if id == t@.id { Some(t@) } else { lookup(views(old(v)@), id) }),
{
    proof {
        lemma_views_push(v@, t);
        lemma_push_unique(views(v@), t@);
        assert forall|id: ItemId| #[trigger]
            lookup(views(v@).push(t@), id) == (if id == t@.id { Some(t@) } else { lookup(views(v@), id) }) by {
            lemma_lookup_push(views(v@), t@, id);
        }
    }
    v.push(t);
}

/// Applies the decision for the item with identifier `id` to the two result
/// sequences, which do not hold that identifier yet.
fn settle(
    l: Option<&Task>,
    r: Option<&Task>,
    id: ItemId,
    tag: VersionTag,
    out_l: &mut Vec<Task>,
    out_r: &mut Vec<Task>,
)
    requires
        l.is_some() || r.is_some(),
        match l { Some(lt) => lt@.id == id, None => true },
        match r { Some(rt) => rt@.id == id, None => true },
        unique_ids(views(old(out_l)@)),
        unique_ids(views(old(out_r)@)),
        lookup(views(old(out_l)@), id) is None,
        lookup(views(old(out_r)@), id) is None,
    ensures
        unique_ids(views(final(out_l)@)),
        unique_ids(views(final(out_r)@)),
        forall|j: ItemId| #[trigger] lookup(views(final(out_l)@), j) == if j == id {
            local_after(view_of(l), view_of(r), tag)
        } else {
            lookup(views(old(out_l)@), j)
        },
        forall|j: ItemId| #[trigger] lookup(views(final(out_r)@), j) == if j == id {
            remote_after(view_of(l), view_of(r), tag)
        } else {
            lookup(views(old(out_r)@), j)
        },
{
    match choose_for(l, r) {
        Choice::Keep => {
            let lt = l.unwrap();
            let rt = r.unwrap();
            push_task(out_l, lt.duplicate());
            push_task(out_r, rt.duplicate());
        },
        Choice::Remove => {},
        Choice::TakeLocal => {
            let lt = l.unwrap();
            push_task(out_l, synced_copy(lt, tag));
            push_task(out_r, synced_copy(lt, tag));
        },
        Choice::TakeRemote => {
            let rt = r.unwrap();
            push_task(out_l, synced_copy(rt, tag));
            push_task(out_r, synced_copy(rt, tag));
        },
    }
}

/// Reconciles the tasks of two replicas of a calendar: returns what the local
/// side and the remote side hold afterwards. Each item is decided on its own
/// pair of states alone; reconciled items are marked `Synced(tag)`.
pub fn reconcile_tasks(local: &Vec<Task>, remote: &Vec<Task>, tag: VersionTag) -> (r: (Vec<Task>, Vec<Task>))
    requires
        unique_ids(views(local@)),
        unique_ids(views(remote@)),
    ensures
        reconciled(views(local@), views(remote@), views(r.0@), views(r.1@), tag),
{
    let ghost lv = views(local@);
    let ghost rv = views(remote@);
    let mut out_l: Vec<Task> = Vec::new();
    let mut out_r: Vec<Task> = Vec::new();
    proof {
        assert(views(out_l@) =~= Seq::<TaskView>::empty());
        assert(views(out_r@) =~= Seq::<TaskView>::empty());
    }
    let mut i: usize = 0;
    while i < local.len()
        invariant
            i <= local.len(),
            lv == views(local@),
            rv == views(remote@),
            unique_ids(lv),
            unique_ids(rv),
            unique_ids(views(out_l@)),
            unique_ids(views(out_r@)),
            forall|id: ItemId| #[trigger] lookup(views(out_l@), id) == if lookup(lv.take(i as int), id) is Some {
                local_after(lookup(lv, id), lookup(rv, id), tag)
            } else {
                None
            },
            forall|id: ItemId| #[trigger] lookup(views(out_r@), id) == if lookup(lv.take(i as int), id) is Some {
                remote_after(lookup(lv, id), lookup(rv, id), tag)
            } else {
                None
            },
        decreases local.len() - i,
    {
        let lt = &local[i];
        let id = lt.id();
        let k = position(remote, id);
        let rt = match k {
            Some(k) => Some(&remote[k]),
            None => None,
        };
        proof {
            assert(lv[i as int] == lt@);
            lemma_lookup_index(lv, i as int);
            assert(lv.take(i as int + 1) =~= lv.take(i as int).push(lv[i as int]));
            assert forall|j: ItemId| #[trigger] lookup(lv.take(i as int + 1), j) == if j == id {
                Some(lt@)
            } else {
                lookup(lv.take(i as int), j)
            } by {
                lemma_lookup_push(lv.take(i as int), lv[i as int], j);
            }
            assert forall|k: int| 0 <= k < i implies #[trigger] lv.take(i as int)[k].id != id by {
                assert(lv.take(i as int)[k] == lv[k]);
            }
            lemma_lookup_none(lv.take(i as int), id);
        }
        settle(Some(lt), rt, id, tag, &mut out_l, &mut out_r);
        i = i + 1;
    }
    proof {
        assert(lv.take(local.len() as int) =~= lv);
    }
    let mut j: usize = 0;
    while j < remote.len()
        invariant
            j <= remote.len(),
            lv == views(local@),
            rv == views(remote@),
            unique_ids(lv),
            unique_ids(rv),
            unique_ids(views(out_l@)),
            unique_ids(views(out_r@)),
            forall|id: ItemId| #[trigger] lookup(views(out_l@), id) ==
                if lookup(lv, id) is Some || lookup(rv.take(j as int), id) is Some {
                    local_after(lookup(lv, id), lookup(rv, id), tag)
                } else {
                    None
                },
            forall|id: ItemId| #[trigger] lookup(views(out_r@), id) ==
                if lookup(lv, id) is Some || lookup(rv.take(j as int), id) is Some {
                    remote_after(lookup(lv, id), lookup(rv, id), tag)
                } else {
                    None
                },
        decreases remote.len() - j,
    {
        let rt = &remote[j];
        let id = rt.id();
        proof {
            assert(rv[j as int] == rt@);
            lemma_lookup_index(rv, j as int);
            assert(rv.take(j as int + 1) =~= rv.take(j as int).push(rv[j as int]));
            assert forall|x: ItemId| #[trigger] lookup(rv.take(j as int + 1), x) == if x == id {
                Some(rt@)
            } else {
                lookup(rv.take(j as int), x)
            } by {
                lemma_lookup_push(rv.take(j as int), rv[j as int], x);
            }
            assert forall|k: int| 0 <= k < j implies #[trigger] rv.take(j as int)[k].id != id by {
                assert(rv.take(j as int)[k] == rv[k]);
            }
            lemma_lookup_none(rv.take(j as int), id);
        }
        if position(local, id).is_none() {
            settle(None, Some(rt), id, tag, &mut out_l, &mut out_r);
        }
        j = j + 1;
    }
    proof {
        assert(rv.take(remote.len() as int) =~= rv);
    }
    (out_l, out_r)
}

/// Reconciling twice with no edit in between changes nothing the second time:
/// contents and statuses stay as the first pass left them.
pub proof fn law_idempotent(
    l: Seq<TaskView>,
    r: Seq<TaskView>,
    l1: Seq<TaskView>,
    r1: Seq<TaskView>,
    l2: Seq<TaskView>,
    r2: Seq<TaskView>,
    tag1: VersionTag,
    tag2: VersionTag,
)
    requires
        reconciled(l, r, l1, r1, tag1),
        reconciled(l1, r1, l2, r2, tag2),
    ensures
        forall|id: ItemId| #[trigger] lookup(l2, id) == lookup(l1, id) && lookup(r2, id) == lookup(r1, id),
{
    assert forall|id: ItemId| #[trigger] lookup(l2, id) == lookup(l1, id) && lookup(r2, id) == lookup(r1, id) by {
        assert(lookup(l1, id) == local_after(lookup(l, id), lookup(r, id), tag1));
        assert(lookup(r1, id) == remote_after(lookup(l, id), lookup(r, id), tag1));
        assert(lookup(l2, id) == local_after(lookup(l1, id), lookup(r1, id), tag2));
        assert(lookup(r2, id) == remote_after(lookup(l1, id), lookup(r1, id), tag2));
    }
}

/// After reconciliation, every item is present on both sides or on neither,
/// with equal name and completion, and marked synced on both. This holds where
/// items that both sides hold as synced agree beforehand.
pub proof fn law_converges(l: Seq<TaskView>, r: Seq<TaskView>, l1: Seq<TaskView>, r1: Seq<TaskView>, tag: VersionTag)
    requires
        reconciled(l, r, l1, r1, tag),
        forall|id: ItemId|
            #![trigger lookup(l, id), lookup(r, id)]
            lookup(l, id) is Some && lookup(r, id) is Some && lookup(l, id)->0.status.is_unchanged()
                && lookup(r, id)->0.status.is_unchanged() ==> lookup(l, id)->0.content() == lookup(r, id)->0.content(),
    ensures
        forall|id: ItemId| #[trigger]
            lookup(l1, id) is Some <==> lookup(r1, id) is Some,
        forall|id: ItemId|
            #![trigger lookup(l1, id)]
            lookup(l1, id) is Some ==> lookup(l1, id)->0.content() == lookup(r1, id)->0.content()
                && lookup(l1, id)->0.status.is_unchanged() && lookup(r1, id)->0.status.is_unchanged(),
{
    assert forall|id: ItemId| #[trigger] lookup(l1, id) is Some <==> lookup(r1, id) is Some by {
        assert(lookup(l1, id) == local_after(lookup(l, id), lookup(r, id), tag));
        assert(lookup(r1, id) == remote_after(lookup(l, id), lookup(r, id), tag));
    }
    assert forall|id: ItemId| #[trigger] lookup(l1, id) is Some implies lookup(l1, id)->0.content() == lookup(
        r1,
        id,
    )->0.content() && lookup(l1, id)->0.status.is_unchanged() && lookup(r1, id)->0.status.is_unchanged() by {
        assert(lookup(l1, id) == local_after(lookup(l, id), lookup(r, id), tag));
        assert(lookup(r1, id) == remote_after(lookup(l, id), lookup(r, id), tag));
    }
}

/// An item changed on the local side alone (new there, or edited while the
/// remote copy is untouched) reaches both sides with the local content, synced.
pub proof fn law_local_change_propagates(
    l: Seq<TaskView>,
    r: Seq<TaskView>,
    l1: Seq<TaskView>,
    r1: Seq<TaskView>,
    tag: VersionTag,
    id: ItemId,
)
    requires
        reconciled(l, r, l1, r1, tag),
        lookup(l, id) is Some,
        lookup(l, id)->0.status is NotSynced || lookup(l, id)->0.status is LocallyModified,
        lookup(r, id) is None ==> lookup(l, id)->0.status is NotSynced,
        lookup(r, id) is Some ==> lookup(r, id)->0.status.is_unchanged(),
    ensures
        lookup(l1, id) == Some(TaskView { status: SyncStatus::Synced(tag), ..lookup(l, id)->0 }),
        lookup(r1, id) == lookup(l1, id),
{
    assert(lookup(l1, id) == local_after(lookup(l, id), lookup(r, id), tag));
    assert(lookup(r1, id) == remote_after(lookup(l, id), lookup(r, id), tag));
}

/// An item changed on the remote side alone reaches both sides with the
/// remote content, synced.
pub proof fn law_remote_change_propagates(
    l: Seq<TaskView>,
    r: Seq<TaskView>,
    l1: Seq<TaskView>,
    r1: Seq<TaskView>,
    tag: VersionTag,
    id: ItemId,
)
    requires
        reconciled(l, r, l1, r1, tag),
        lookup(r, id) is Some,
        !(lookup(r, id)->0.status is LocallyDeleted),
        lookup(l, id) is Some ==> lookup(l, id)->0.status.is_unchanged(),
    ensures
        lookup(l1, id) == (if lookup(l, id) is Some && lookup(r, id)->0.status.is_unchanged() {
            lookup(l, id)
        } else {
            Some(TaskView { status: SyncStatus::Synced(tag), ..lookup(r, id)->0 })
        }),
        lookup(r1, id) == (if lookup(l, id) is Some && lookup(r, id)->0.status.is_unchanged() {
            lookup(r, id)
        } else {
            lookup(l1, id)
        }),
{
    assert(lookup(l1, id) == local_after(lookup(l, id), lookup(r, id), tag));
    assert(lookup(r1, id) == remote_after(lookup(l, id), lookup(r, id), tag));
}

/// When both sides edited an item, the remote edit wins on both sides as a
/// whole, and the local edit is dropped.
pub proof fn law_remote_wins_conflict(
    l: Seq<TaskView>,
    r: Seq<TaskView>,
    l1: Seq<TaskView>,
    r1: Seq<TaskView>,
    tag: VersionTag,
    id: ItemId,
)
    requires
        reconciled(l, r, l1, r1, tag),
        lookup(l, id) is Some,
        lookup(r, id) is Some,
        !lookup(l, id)->0.status.is_unchanged(),
        lookup(r, id)->0.status is LocallyModified || lookup(r, id)->0.status is NotSynced,
    ensures
        lookup(l1, id) == Some(TaskView { status: SyncStatus::Synced(tag), ..lookup(r, id)->0 }),
        lookup(r1, id) == lookup(l1, id),
{
    assert(lookup(l1, id) == local_after(lookup(l, id), lookup(r, id), tag));
    assert(lookup(r1, id) == remote_after(lookup(l, id), lookup(r, id), tag));
}

/// An item deleted on one side and untouched on the other is gone from both.
pub proof fn law_single_deletion(
    l: Seq<TaskView>,
    r: Seq<TaskView>,
    l1: Seq<TaskView>,
    r1: Seq<TaskView>,
    tag: VersionTag,
    id: ItemId,
)
    requires
        reconciled(l, r, l1, r1, tag),
        ({
            let deleted_locally = lookup(l, id) is Some && lookup(l, id)->0.status is LocallyDeleted
                && lookup(r, id) is Some && lookup(r, id)->0.status.is_unchanged();
            let deleted_remotely = lookup(l, id) is Some && lookup(l, id)->0.status.is_unchanged()
                && (lookup(r, id) is None || lookup(r, id)->0.status is LocallyDeleted);
            deleted_locally || deleted_remotely
        }),
    ensures
        lookup(l1, id) is None,
        lookup(r1, id) is None,
{
    assert(lookup(l1, id) == local_after(lookup(l, id), lookup(r, id), tag));
    assert(lookup(r1, id) == remote_after(lookup(l, id), lookup(r, id), tag));
}

/// An item deleted on one side and modified on the other ends as the remote
/// side left it: gone where the remote deleted it, else with the remote
/// content on both sides.
pub proof fn law_deletion_against_edit(
    l: Seq<TaskView>,
    r: Seq<TaskView>,
    l1: Seq<TaskView>,
    r1: Seq<TaskView>,
    tag: VersionTag,
    id: ItemId,
)
    requires
        reconciled(l, r, l1, r1, tag),
        lookup(l, id) is Some,
        ({
            let local_deleted_remote_edited = lookup(l, id)->0.status is LocallyDeleted && lookup(r, id) is Some
                && lookup(r, id)->0.status is LocallyModified;
            let local_edited_remote_deleted = lookup(l, id)->0.status is LocallyModified && (lookup(r, id) is None
                || lookup(r, id)->0.status is LocallyDeleted);
            local_deleted_remote_edited || local_edited_remote_deleted
        }),
    ensures
        lookup(l, id)->0.status is LocallyDeleted ==> lookup(l1, id) == Some(
            TaskView { status: SyncStatus::Synced(tag), ..lookup(r, id)->0 },
        ) && lookup(r1, id) == lookup(l1, id),
        lookup(l, id)->0.status is LocallyModified ==> lookup(l1, id) is None && lookup(r1, id) is None,
{
    assert(lookup(l1, id) == local_after(lookup(l, id), lookup(r, id), tag));
    assert(lookup(r1, id) == remote_after(lookup(l, id), lookup(r, id), tag));
}

} // verus!
