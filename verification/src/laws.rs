//! Laws of the job manager, proved from its invariant and contracts.

use vstd::prelude::*;
use crate::jobs::{Jid, JobManager};

verus! {

/// Identifiers issued by a single job manager are strictly increasing:
/// of any two, the one issued earlier is the smaller.
pub proof fn law_jids_strictly_increasing(m: JobManager, i: int, j: int)
    requires
        m.wf(),
        0 <= i < j < m.issued().len(),
    ensures
        m.issued()[i].0 < m.issued()[j].0,
{
}

/// Once an identifier has a recorded status it is never again in the
/// running table: the two tables are disjoint.
pub proof fn law_completed_never_running(m: JobManager, j: Jid)
    requires
        m.wf(),
        m.has_completed(j),
    ensures
        !m.is_running(j),
{
    if m.is_running(j) {
        let i = choose|i: int| 0 <= i < m.running().len() && m.running()[i].1 == j;
        assert(!m.completed().contains_key(m.running()[i].1.0));
    }
}

/// Recorded statuses are stable: any later state whose completed table
/// extends an earlier one — as every awaiting operation ensures —
/// reports the same status for a job recorded earlier, whatever else
/// was reaped in between.
pub proof fn law_status_stable(m1: JobManager, m2: JobManager, j: Jid)
    requires
        m1.completed().submap_of(m2.completed()),
        m1.has_completed(j),
    ensures
        m2.has_completed(j),
        m2.status_of(j) == m1.status_of(j),
{
    assert(m1.completed().dom().contains(j.0));
}

} // verus!
