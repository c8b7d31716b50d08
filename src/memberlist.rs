use vstd::prelude::*;
use crate::assignment::Membership;
use crate::ids::{same_elements, SortedIds};

verus! {

/// What the provider does after polling the membership registry.
#[derive(Clone, Copy, Debug, PartialEq, Eq, Structural)]
pub enum ProviderAction {
    /// The membership changed: publish the new snapshot to subscribers.
    Publish,
    /// The registry answered with the snapshot already published.
    Unchanged,
    /// The registry could not be reached: the last known snapshot stays in
    /// force and health is reported as degraded.
    Degraded,
}

/// The membership provider's state: the last snapshot the registry gave, if
/// any, and whether the last poll reached it.
pub struct MemberlistProvider {
    current: Option<SortedIds>,
    healthy: bool,
}

impl MemberlistProvider {
    /// The last known-good snapshot.
    pub closed spec fn known(&self) -> Option<Seq<u64>> {
        match self.current {
            Some(m) => Some(m@),
            None => None,
        }
    }

    pub closed spec fn is_healthy(&self) -> bool {
        self.healthy
    }

    pub open spec fn wf(&self) -> bool {
        self.known() matches Some(m) ==> crate::ids::strictly_sorted(m)
    }

    /// A provider that has not heard from the registry yet.
    pub fn new() -> (r: MemberlistProvider)
        ensures
            r.wf(),
            r.known() is None,
            r.is_healthy(),
    {
        MemberlistProvider { current: None, healthy: true }
    }

    /// The snapshot to publish, if one was ever learned.
    pub fn current(&self) -> (r: Option<&Membership>)
        ensures
            r is None <==> self.known() is None,
            r matches Some(m) ==> self.known() == Some(m@) && (self.wf() ==> m.wf()),
    {
        match &self.current {
            Some(m) => Some(m),
            None => None,
        }
    }

    pub fn healthy(&self) -> (r: bool)
        ensures
            r == self.is_healthy(),
    {
        self.healthy
    }

    /// Takes in the result of one registry poll: the member ids, or `None`
    /// when the registry could not be reached. A failure never empties the
    /// membership; an empty list from a reachable registry does.
    pub fn on_registry(&mut self, result: Option<Vec<u64>>) -> (r: ProviderAction)
        requires
            old(self).wf(),
        ensures
            final(self).wf(),
            result is None ==> r == ProviderAction::Degraded && final(self).known() == old(
                self,
            ).known() && !final(self).is_healthy(),
            result is Some ==> final(self).is_healthy(),
            result matches Some(ids) ==> (final(self).known() matches Some(m)
                && crate::ids::strictly_sorted(m) && same_elements(m, ids@)
                && (r == ProviderAction::Publish <==> old(self).known() != Some(m))
                && (r == ProviderAction::Unchanged <==> old(self).known() == Some(m))),
    {
        match result {
            None => {
                self.healthy = false;
                ProviderAction::Degraded
            },
            Some(ids) => {
                let next = SortedIds::new(&ids);
                self.healthy = true;
                let changed = match &self.current {
                    Some(m) => !m.same_as(&next),
                    None => true,
                };
                self.current = Some(next);
                if changed {
                    ProviderAction::Publish
                } else {
                    ProviderAction::Unchanged
                }
            },
        }
    }
}

} // verus!
