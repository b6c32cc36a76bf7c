//! A store of calendars keyed by their URL.
use vstd::prelude::*;
use crate::calendar::{Calendar, CalendarView};
use crate::item::{ItemId, TaskView, VersionTag};
use crate::sync::{law_converges, law_idempotent, reconcile_tasks, reconciled};
use crate::tasks::lookup;

verus! {

/// The mathematical values of a sequence of calendars.
pub open spec fn cal_views(s: Seq<Calendar>) -> Seq<CalendarView> {
    s.map_values(|c: Calendar| c@)
}

/// No calendar identifier occurs twice.
pub open spec fn unique_cal_ids(s: Seq<CalendarView>) -> bool {
    forall|a: int, b: int|
        0 <= a < s.len() && 0 <= b < s.len() && a != b ==> #[trigger] s[a].id != #[trigger] s[b].id
}

/// The calendar with the given identifier.
pub open spec fn find_cal(s: Seq<CalendarView>, id: Seq<char>) -> Option<CalendarView>
    decreases s.len(),
{
    if s.len() == 0 {
        None
    } else if s.last().id == id {
        Some(s.last())
    } else {
        find_cal(s.drop_last(), id)
    }
}

pub proof fn lemma_find_cal_push(s: Seq<CalendarView>, x: CalendarView, id: Seq<char>)
    ensures
        find_cal(s.push(x), id) == (if x.id == id { Some(x) } else { find_cal(s, id) }),
{
    assert(s.push(x).drop_last() =~= s);
}

pub proof fn lemma_find_cal_none(s: Seq<CalendarView>, id: Seq<char>)
    ensures
        find_cal(s, id) is None <==> (forall|k: int| 0 <= k < s.len() ==> #[trigger] s[k].id != id),
    decreases s.len(),
{
    if s.len() > 0 {
        lemma_find_cal_none(s.drop_last(), id);
        assert forall|k: int| 0 <= k < s.len() - 1 implies #[trigger] s[k] == s.drop_last()[k] by {}
    }
}

pub proof fn lemma_find_cal_index(s: Seq<CalendarView>, k: int)
    requires
        unique_cal_ids(s),
        0 <= k < s.len(),
    ensures
        find_cal(s, s[k].id) == Some(s[k]),
    decreases s.len(),
{
    if k < s.len() - 1 {
        let t = s.drop_last();
        assert(unique_cal_ids(t)) by {
            assert forall|a: int, b: int|
                0 <= a < t.len() && 0 <= b < t.len() && a != b implies #[trigger] t[a].id != #[trigger] t[b].id by {
                assert(t[a] == s[a] && t[b] == s[b]);
            }
        }
        assert(t[k] == s[k]);
        assert(s[s.len() - 1].id != s[k].id);
        lemma_find_cal_index(t, k);
    }
}

pub proof fn lemma_cal_views_push(s: Seq<Calendar>, c: Calendar)
    ensures
        cal_views(s.push(c)) == cal_views(s).push(c@),
{
    assert(cal_views(s.push(c)) =~= cal_views(s).push(c@));
}

pub proof fn lemma_cal_push_unique(s: Seq<CalendarView>, x: CalendarView)
    requires
        unique_cal_ids(s),
        find_cal(s, x.id) is None,
    ensures
        unique_cal_ids(s.push(x)),
{
    lemma_find_cal_none(s, x.id);
    let p = s.push(x);
    assert forall|a: int, b: int|
        0 <= a < p.len() && 0 <= b < p.len() && a != b implies #[trigger] p[a].id != #[trigger] p[b].id by {
        if a < s.len() {
            assert(p[a] == s[a]);
        }
        if b < s.len() {
            assert(p[b] == s[b]);
        }
    }
}

/// The index of the calendar with the given identifier.
pub fn cal_position(cals: &Vec<Calendar>, id: &str) -> (r: Option<usize>)
    requires
        unique_cal_ids(cal_views(cals@)),
    ensures
        match r {
            Some(k) => k < cals.len() && cals@[k as int]@.id == id@ && find_cal(cal_views(cals@), id@) == Some(
                cals@[k as int]@,
            ),
            None => find_cal(cal_views(cals@), id@) is None,
        },
{
    let mut i: usize = 0;
    while i < cals.len()
        invariant
            i <= cals.len(),
            unique_cal_ids(cal_views(cals@)),
            forall|k: int| 0 <= k < i ==> #[trigger] cal_views(cals@)[k].id != id@,
        decreases cals.len() - i,
    {
        assert(cal_views(cals@)[i as int] == cals@[i as int]@);
        if crate::xml::same_text(cals[i].id().as_str(), id) {
            proof {
                lemma_find_cal_index(cal_views(cals@), i as int);
            }
            return Some(i);
        }
        i = i + 1;
    }
    proof {
        lemma_find_cal_none(cal_views(cals@), id@);
    }
    None
}

/// A store of calendars: a local cache, or a stand-in for a server.
#[derive(Debug)]
pub struct Cache {
    calendars: Vec<Calendar>,
}

impl View for Cache {
    type V = Seq<CalendarView>;

    closed spec fn view(&self) -> Seq<CalendarView> {
        cal_views(self.calendars@)
    }
}

impl Cache {
    /// Calendar identifiers are unique, and each calendar is well formed.
    pub closed spec fn wf(&self) -> bool {
        &&& unique_cal_ids(self@)
        &&& forall|k: int| 0 <= k < self.calendars.len() ==> (#[trigger] self.calendars@[k]).wf()
    }

    /// An empty store.
    pub fn new() -> (r: Cache)
        ensures
            r.wf(),
            r@ == Seq::<CalendarView>::empty(),
    {
        let r = Cache { calendars: Vec::new() };
        assert(r@ =~= Seq::<CalendarView>::empty());
        r
    }

    /// Adds a calendar whose identifier is not held yet; returns whether it was added.
    pub fn add_calendar(&mut self, cal: Calendar) -> (added: bool)
        requires
            old(self).wf(),
            cal.wf(),
        ensures
            final(self).wf(),
            added == (find_cal(old(self)@, cal@.id) is None),
            final(self)@ == if added { old(self)@.push(cal@) } else { old(self)@ },
    {
        if cal_position(&self.calendars, cal.id().as_str()).is_some() {
            return false;
        }
        proof {
            lemma_cal_views_push(self.calendars@, cal);
            lemma_cal_push_unique(self@, cal@);
        }
        self.calendars.push(cal);
        true
    }

    /// The calendars, in the order they are held.
    pub fn calendars(&self) -> (r: &Vec<Calendar>)
        ensures
            cal_views(r@) == self@,
    {
        &self.calendars
    }

    /// The calendar with the given identifier.
    pub fn get_calendar(&self, id: &str) -> (r: Option<&Calendar>)
        requires
            self.wf(),
        ensures
            match r {
                Some(c) => find_cal(self@, id@) == Some(c@) && c.wf(),
                None => find_cal(self@, id@) is None,
            },
    {
        match cal_position(&self.calendars, id) {
            Some(k) => Some(&self.calendars[k]),
            None => None,
        }
    }

    /// Removes the calendar with the given identifier and hands it over.
    pub fn take_calendar(&mut self, id: &str) -> (r: Option<Calendar>)
        requires
            old(self).wf(),
        ensures
            final(self).wf(),
            match r {
                Some(c) => find_cal(old(self)@, id@) == Some(c@) && c.wf() && find_cal(final(self)@, id@) is None,
                None => find_cal(old(self)@, id@) is None && final(self)@ == old(self)@,
            },
            forall|other: Seq<char>| other != id@ ==> #[trigger] find_cal(final(self)@, other) == find_cal(old(self)@, other),
    {
        match cal_position(&self.calendars, id) {
            None => None,
            Some(k) => {
                let ghost before = self@;
                let c = self.calendars.remove(k);
                proof {
                    let u = self@;
                    assert(u =~= before.remove(k as int));
                    assert forall|j: int| 0 <= j < u.len() implies #[trigger] u[j] == (if j < k { before[j] } else { before[j + 1] }) by {}
                    assert forall|a: int, b: int| 0 <= a < u.len() && 0 <= b < u.len() && a != b implies #[trigger] u[a].id != #[trigger] u[b].id by {
                        assert(u[a] == (if a < k { before[a] } else { before[a + 1] }));
                        assert(u[b] == (if b < k { before[b] } else { before[b + 1] }));
                    }
                    assert forall|j: int| 0 <= j < self.calendars.len() implies (#[trigger] self.calendars@[j]).wf() by {
                        if j >= k {
                            assert(self.calendars@[j] == old(self).calendars@[j + 1]);
                        }
                    }
                    assert forall|other: Seq<char>| #[trigger] find_cal(u, other) == if other == id@ { None } else { find_cal(before, other) } by {
                        lemma_find_cal_none(u, other);
                        lemma_find_cal_none(before, other);
                        if other == id@ {
                            assert(before[k as int] == old(self).calendars@[k as int]@);
                            assert forall|j: int| 0 <= j < u.len() implies #[trigger] u[j].id != other by {
                                assert(u[j] == (if j < k { before[j] } else { before[j + 1] }));
                            }
                        } else if find_cal(before, other) is Some {
                            let j = choose|j: int| 0 <= j < before.len() && #[trigger] before[j].id == other;
                            lemma_find_cal_index(before, j);
                            let ju = if j < k { j } else { j - 1 };
                            assert(u[ju] == before[j]);
                            lemma_find_cal_index(u, ju);
                        } else {
                            assert forall|j: int| 0 <= j < u.len() implies #[trigger] u[j].id != other by {
                                assert(u[j] == (if j < k { before[j] } else { before[j + 1] }));
                            }
                        }
                    }
                }
                Some(c)
            },
        }
    }
}

/// The tasks of the calendar with the given identifier; none where it is absent.
pub open spec fn tasks_or_empty(s: Seq<CalendarView>, id: Seq<char>) -> Seq<TaskView> {
    match find_cal(s, id) {
        Some(c) => c.tasks,
        None => Seq::empty(),
    }
}

/// What `sync_caches` establishes between the stores before (`l`, `r`) and
/// after (`l1`, `r1`): each side holds every calendar that either side held,
/// and the tasks of each are reconciled, a calendar absent on one side
/// counting there as empty.
pub open spec fn caches_reconciled(
    l: Seq<CalendarView>,
    r: Seq<CalendarView>,
    l1: Seq<CalendarView>,
    r1: Seq<CalendarView>,
    tag: VersionTag,
) -> bool {
    &&& forall|id: Seq<char>| #[trigger] find_cal(l1, id) is Some <==> (find_cal(l, id) is Some || find_cal(r, id) is Some)
    &&& forall|id: Seq<char>| #[trigger] find_cal(r1, id) is Some <==> (find_cal(l, id) is Some || find_cal(r, id) is Some)
    &&& forall|id: Seq<char>|
        #![trigger find_cal(l1, id)]
        find_cal(l1, id) is Some ==> reconciled(
            tasks_or_empty(l, id),
            tasks_or_empty(r, id),
            tasks_or_empty(l1, id),
            tasks_or_empty(r1, id),
            tag,
        )
}

/// Gives `to` an empty copy of each calendar of `from` that it lacks.
fn add_missing(from: &Cache, to: &mut Cache)
    requires
        from.wf(),
        old(to).wf(),
    ensures
        final(to).wf(),
        forall|id: Seq<char>| #[trigger] find_cal(final(to)@, id) is Some <==> (find_cal(old(to)@, id) is Some || find_cal(from@, id) is Some),
        forall|id: Seq<char>| #[trigger] tasks_or_empty(final(to)@, id) == tasks_or_empty(old(to)@, id),
{
    let ghost f0 = from@;
    let ghost t0 = to@;
    let mut i: usize = 0;
    while i < from.calendars.len()
        invariant
            i <= from.calendars.len(),
            f0 == from@,
            from.wf(),
            to.wf(),
            forall|id: Seq<char>| #[trigger] find_cal(to@, id) is Some <==> (find_cal(t0, id) is Some || find_cal(f0.take(i as int), id) is Some),
            forall|id: Seq<char>| #[trigger] tasks_or_empty(to@, id) == tasks_or_empty(t0, id),
        decreases from.calendars.len() - i,
    {
        let c = &from.calendars[i];
        proof {
            assert(f0[i as int] == c@);
            assert(f0.take(i as int + 1) =~= f0.take(i as int).push(f0[i as int]));
            assert forall|id: Seq<char>| #[trigger] find_cal(f0.take(i as int + 1), id) == (if c@.id == id { Some(c@) } else { find_cal(f0.take(i as int), id) }) by {
                lemma_find_cal_push(f0.take(i as int), f0[i as int], id);
            }
        }
        if cal_position(&to.calendars, c.id().as_str()).is_none() {
            let e = c.empty_copy();
            let ghost before = to@;
            to.add_calendar(e);
            proof {
                assert forall|id: Seq<char>| #[trigger] find_cal(to@, id) == (if e@.id == id { Some(e@) } else { find_cal(before, id) }) by {
                    lemma_find_cal_push(before, e@, id);
                }
                assert forall|id: Seq<char>| #[trigger] tasks_or_empty(to@, id) == tasks_or_empty(t0, id) by {
                    assert(tasks_or_empty(to@, id) == tasks_or_empty(before, id));
                }
            }
        }
        i = i + 1;
    }
    proof {
        assert(f0.take(i as int) =~= f0);
    }
}

/// Reconciles two stores: every calendar of either side ends on both sides,
/// and within each calendar every task is decided as `reconcile_tasks` does.
pub fn sync_caches(local: &mut Cache, remote: &mut Cache, tag: VersionTag)
    requires
        old(local).wf(),
        old(remote).wf(),
    ensures
        final(local).wf(),
        final(remote).wf(),
        caches_reconciled(old(local)@, old(remote)@, final(local)@, final(remote)@, tag),
{
    let ghost l0 = local@;
    let ghost r0 = remote@;
    add_missing(local, remote);
    add_missing(remote, local);
    let ghost lv = local@;
    let ghost rv = remote@;
    let mut nl = Cache::new();
    let mut nr = Cache::new();
    let mut i: usize = 0;
    while i < local.calendars.len()
        invariant
            i <= local.calendars.len(),
            lv == local@,
            rv == remote@,
            local.wf(),
            remote.wf(),
            nl.wf(),
            nr.wf(),
            forall|id: Seq<char>| #[trigger] find_cal(lv, id) is Some <==> (find_cal(l0, id) is Some || find_cal(r0, id) is Some),
            forall|id: Seq<char>| #[trigger] find_cal(rv, id) is Some <==> (find_cal(l0, id) is Some || find_cal(r0, id) is Some),
            forall|id: Seq<char>| #[trigger] tasks_or_empty(lv, id) == tasks_or_empty(l0, id),
            forall|id: Seq<char>| #[trigger] tasks_or_empty(rv, id) == tasks_or_empty(r0, id),
            forall|id: Seq<char>| #[trigger] find_cal(nl@, id) is Some <==> find_cal(lv.take(i as int), id) is Some,
            forall|id: Seq<char>| #[trigger] find_cal(nr@, id) is Some <==> find_cal(lv.take(i as int), id) is Some,
            forall|id: Seq<char>|
                #![trigger find_cal(nl@, id)]
                find_cal(nl@, id) is Some ==> reconciled(
                    tasks_or_empty(l0, id),
                    tasks_or_empty(r0, id),
                    tasks_or_empty(nl@, id),
                    tasks_or_empty(nr@, id),
                    tag,
                ),
        decreases local.calendars.len() - i,
    {
        let lc = &local.calendars[i];
        let ghost cid = lc@.id;
        proof {
            assert(lv[i as int] == lc@);
            lemma_find_cal_index(lv, i as int);
            assert(lv.take(i as int + 1) =~= lv.take(i as int).push(lv[i as int]));
            assert forall|id: Seq<char>| #[trigger] find_cal(lv.take(i as int + 1), id) == (if cid == id { Some(lc@) } else { find_cal(lv.take(i as int), id) }) by {
                lemma_find_cal_push(lv.take(i as int), lv[i as int], id);
            }
            assert forall|k: int| 0 <= k < i implies #[trigger] lv.take(i as int)[k].id != cid by {
                assert(lv.take(i as int)[k] == lv[k]);
            }
            lemma_find_cal_none(lv.take(i as int), cid);
            assert(find_cal(rv, cid) is Some);
        }
        let k = cal_position(&remote.calendars, lc.id().as_str()).unwrap();
        let rc = &remote.calendars[k];
        proof {
            assert(rv[k as int] == rc@);
            assert(lc.wf());
            assert(rc.wf());
        }
        let (tl, tr) = reconcile_tasks(lc.task_vec(), rc.task_vec(), tag);
        let mut a = lc.empty_copy();
        a.set_tasks(tl);
        let mut b = rc.empty_copy();
        b.set_tasks(tr);
        let ghost nl_before = nl@;
        let ghost nr_before = nr@;
        nl.add_calendar(a);
        nr.add_calendar(b);
        proof {
            assert forall|id: Seq<char>| #[trigger] find_cal(nl@, id) == (if cid == id { Some(a@) } else { find_cal(nl_before, id) }) by {
                lemma_find_cal_push(nl_before, a@, id);
            }
            assert forall|id: Seq<char>| #[trigger] find_cal(nr@, id) == (if cid == id { Some(b@) } else { find_cal(nr_before, id) }) by {
                lemma_find_cal_push(nr_before, b@, id);
            }
            assert(tasks_or_empty(lv, cid) == lc@.tasks);
            assert(tasks_or_empty(l0, cid) == lc@.tasks);
            assert(find_cal(rv, cid) == Some(rc@));
            assert(tasks_or_empty(rv, cid) == rc@.tasks);
            assert(tasks_or_empty(r0, cid) == rc@.tasks);
            assert forall|id: Seq<char>|
                #![trigger find_cal(nl@, id)]
                find_cal(nl@, id) is Some implies reconciled(
                    tasks_or_empty(l0, id),
                    tasks_or_empty(r0, id),
                    tasks_or_empty(nl@, id),
                    tasks_or_empty(nr@, id),
                    tag,
                ) by {
                if id != cid {
                    assert(find_cal(nl_before, id) is Some);
                    assert(tasks_or_empty(nl@, id) == tasks_or_empty(nl_before, id));
                    assert(tasks_or_empty(nr@, id) == tasks_or_empty(nr_before, id));
                }
            }
        }
        i = i + 1;
    }
    proof {
        assert(lv.take(i as int) =~= lv);
    }
    *local = nl;
    *remote = nr;
}

/// Synchronising two stores twice with no edit in between changes nothing the
/// second time: the same calendars, and in each the same tasks with the same
/// statuses.
pub proof fn law_sync_idempotent(
    l: Seq<CalendarView>,
    r: Seq<CalendarView>,
    l1: Seq<CalendarView>,
    r1: Seq<CalendarView>,
    l2: Seq<CalendarView>,
    r2: Seq<CalendarView>,
    tag1: VersionTag,
    tag2: VersionTag,
)
    requires
        caches_reconciled(l, r, l1, r1, tag1),
        caches_reconciled(l1, r1, l2, r2, tag2),
    ensures
        forall|cid: Seq<char>| #[trigger] find_cal(l2, cid) is Some <==> find_cal(l1, cid) is Some,
        forall|cid: Seq<char>| #[trigger] find_cal(r2, cid) is Some <==> find_cal(r1, cid) is Some,
        forall|cid: Seq<char>, id: ItemId|
            #![trigger lookup(tasks_or_empty(l2, cid), id)]
            #![trigger lookup(tasks_or_empty(r2, cid), id)]
            lookup(tasks_or_empty(l2, cid), id) == lookup(tasks_or_empty(l1, cid), id) && lookup(
                tasks_or_empty(r2, cid),
                id,
            ) == lookup(tasks_or_empty(r1, cid), id),
{
    assert forall|cid: Seq<char>, id: ItemId|
        lookup(tasks_or_empty(l2, cid), id) == lookup(tasks_or_empty(l1, cid), id) && lookup(tasks_or_empty(r2, cid), id)
            == lookup(tasks_or_empty(r1, cid), id) by {
        if find_cal(l2, cid) is Some {
            assert(find_cal(l1, cid) is Some || find_cal(r1, cid) is Some);
            assert(find_cal(l1, cid) is Some);
            law_idempotent(
                tasks_or_empty(l, cid),
                tasks_or_empty(r, cid),
                tasks_or_empty(l1, cid),
                tasks_or_empty(r1, cid),
                tasks_or_empty(l2, cid),
                tasks_or_empty(r2, cid),
                tag1,
                tag2,
            );
        } else {
            assert(find_cal(l1, cid) is None);
            assert(find_cal(r1, cid) is None);
            assert(find_cal(r2, cid) is None);
        }
    }
}

/// After synchronising two stores, both hold the same calendars, and in each
/// every task is present on both sides or on neither, with equal name and
/// completion, marked synced. This holds where tasks that both sides hold as
/// synced agree beforehand.
pub proof fn law_sync_converges(
    l: Seq<CalendarView>,
    r: Seq<CalendarView>,
    l1: Seq<CalendarView>,
    r1: Seq<CalendarView>,
    tag: VersionTag,
)
    requires
        caches_reconciled(l, r, l1, r1, tag),
        forall|cid: Seq<char>, id: ItemId|
            #![trigger lookup(tasks_or_empty(l, cid), id), lookup(tasks_or_empty(r, cid), id)]
            lookup(tasks_or_empty(l, cid), id) is Some && lookup(tasks_or_empty(r, cid), id) is Some
                && lookup(tasks_or_empty(l, cid), id)->0.status.is_unchanged()
                && lookup(tasks_or_empty(r, cid), id)->0.status.is_unchanged() ==> lookup(
                tasks_or_empty(l, cid),
                id,
            )->0.content() == lookup(tasks_or_empty(r, cid), id)->0.content(),
    ensures
        forall|cid: Seq<char>| #[trigger] find_cal(l1, cid) is Some <==> find_cal(r1, cid) is Some,
        forall|cid: Seq<char>, id: ItemId|
            #![trigger lookup(tasks_or_empty(l1, cid), id)]
            lookup(tasks_or_empty(l1, cid), id) is Some <==> lookup(tasks_or_empty(r1, cid), id) is Some,
        forall|cid: Seq<char>, id: ItemId|
            #![trigger lookup(tasks_or_empty(l1, cid), id)]
            lookup(tasks_or_empty(l1, cid), id) is Some ==> lookup(tasks_or_empty(l1, cid), id)->0.content()
                == lookup(tasks_or_empty(r1, cid), id)->0.content()
                && lookup(tasks_or_empty(l1, cid), id)->0.status.is_unchanged()
                && lookup(tasks_or_empty(r1, cid), id)->0.status.is_unchanged(),
{
    assert forall|cid: Seq<char>, id: ItemId|
        (lookup(tasks_or_empty(l1, cid), id) is Some <==> lookup(tasks_or_empty(r1, cid), id) is Some) && (lookup(
            tasks_or_empty(l1, cid),
            id,
        ) is Some ==> lookup(tasks_or_empty(l1, cid), id)->0.content() == lookup(tasks_or_empty(r1, cid), id)->0.content()
            && lookup(tasks_or_empty(l1, cid), id)->0.status.is_unchanged() && lookup(
            tasks_or_empty(r1, cid),
            id,
        )->0.status.is_unchanged()) by {
        if find_cal(l1, cid) is Some {
            law_converges(
                tasks_or_empty(l, cid),
                tasks_or_empty(r, cid),
                tasks_or_empty(l1, cid),
                tasks_or_empty(r1, cid),
                tag,
            );
            assert(lookup(tasks_or_empty(l1, cid), id) is Some <==> lookup(tasks_or_empty(r1, cid), id) is Some);
        } else {
            assert(find_cal(r1, cid) is None);
            assert(tasks_or_empty(l1, cid) =~= Seq::<TaskView>::empty());
            assert(tasks_or_empty(r1, cid) =~= Seq::<TaskView>::empty());
        }
    }
}

} // verus!
