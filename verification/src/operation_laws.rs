//! An operation is the push, the pull or the index that it is called.
use vstd::prelude::*;

use crate::action::{ActionModel, EventModel};
use crate::browse::{browse_all_next, browse_all_start, BrowseAllModel};
use crate::materialize::PaceModel;
use crate::materialize_laws::{materialize_run, materialize_step};
use crate::operation::{job_next, job_start, JobModel, Operation};
use crate::transport::SnapshotModel;
use crate::upload_laws::{upload_run, upload_step};

verus! {

/// The operation after a list of events, and the action that is then to be taken.
pub open spec fn job_run(
    operation: Operation,
    at: (Seq<char>, Seq<char>),
    pace: PaceModel,
    snapshot: Option<SnapshotModel>,
    events: Seq<EventModel>,
) -> (JobModel, ActionModel)
    decreases events.len(),
{
    if events.len() == 0 {
        job_start(operation, at, pace, snapshot)
    } else {
        job_next(
            job_run(operation, at, pace, snapshot, events.drop_last()).0,
            events.last(),
        )
    }
}

/// The index of what is browsed after a list of events, and the action that is then to be
/// taken.
pub open spec fn index_run(at: (Seq<char>, Seq<char>), events: Seq<EventModel>) -> (
    BrowseAllModel,
    ActionModel,
)
    decreases events.len(),
{
    if events.len() == 0 {
        browse_all_start(at)
    } else {
        browse_all_next(index_run(at, events.drop_last()).0, events.last())
    }
}

/// An operation does at any time what the push, the pull or the index does that it is called.
pub proof fn operations_do_what_they_are_called(
    at: (Seq<char>, Seq<char>),
    pace: PaceModel,
    snapshot: Option<SnapshotModel>,
    events: Seq<EventModel>,
)
    ensures
        ({
            let (s, action) = upload_run(at, snapshot, events);
            job_run(Operation::Upload, at, pace, snapshot, events) == (JobModel::Upload(s), action)
        }),
        ({
            let (s, action) = materialize_run(at, pace, snapshot, events);
            job_run(Operation::Materialize, at, pace, snapshot, events) == (
                JobModel::Materialize(s),
                action,
            )
        }),
        ({
            let (s, action) = index_run(at, events);
            job_run(Operation::IndexBrowse, at, pace, snapshot, events) == (
                JobModel::IndexBrowse(s),
                action,
            )
        }),
    decreases events.len(),
{
    reveal(upload_step);
    reveal(materialize_step);
    if events.len() > 0 {
        operations_do_what_they_are_called(at, pace, snapshot, events.drop_last());
    }
}

} // verus!
