//! A pair of stores kept in step by synchronisation.
use vstd::prelude::*;
use crate::cache::{caches_reconciled, sync_caches, Cache};
use crate::calendar::CalendarView;
use crate::item::VersionTag;

verus! {

/// A local store and a remote one, reconciled on demand.
pub struct Provider {
    remote: Cache,
    local: Cache,
}

impl Provider {
    pub open spec fn wf(&self) -> bool {
        self.remote_view_wf() && self.local_view_wf()
    }

    pub closed spec fn remote_view_wf(&self) -> bool {
        self.remote.wf()
    }

    pub closed spec fn local_view_wf(&self) -> bool {
        self.local.wf()
    }

    pub closed spec fn remote_view(&self) -> Seq<CalendarView> {
        self.remote@
    }

    pub closed spec fn local_view(&self) -> Seq<CalendarView> {
        self.local@
    }

    pub fn new(remote: Cache, local: Cache) -> (r: Provider)
        requires
            remote.wf(),
            local.wf(),
        ensures
            r.wf(),
            r.remote_view() == remote@,
            r.local_view() == local@,
    {
        Provider { remote, local }
    }

    pub fn remote(&self) -> (r: &Cache)
        ensures
            r@ == self.remote_view(),
            self.wf() ==> r.wf(),
    {
        &self.remote
    }

    pub fn local(&self) -> (r: &Cache)
        ensures
            r@ == self.local_view(),
            self.wf() ==> r.wf(),
    {
        &self.local
    }

    /// Reconciles the two stores; reconciled items are marked `Synced(tag)`.
    pub fn sync(&mut self, tag: VersionTag)
        requires
            old(self).wf(),
        ensures
            final(self).wf(),
            caches_reconciled(
                old(self).local_view(),
                old(self).remote_view(),
                final(self).local_view(),
                final(self).remote_view(),
                tag,
            ),
    {
        sync_caches(&mut self.local, &mut self.remote, tag);
    }
}

} // verus!
