//! The operations of the program that synchronizes packs.
use vstd::prelude::*;

use crate::action::{Action, ActionModel, Event, EventModel, Repository};
use crate::browse::{browse_all_next, browse_all_start, BrowseAll, BrowseAllModel};
use crate::materialize::{
    materialize_next, materialize_start, Materialize, MaterializeModel, Pace, PaceModel,
};
use crate::text::{same_text, texts};
use crate::transport::{maybe_snapshot, usable, SnapshotModel, TransportSnapshot};
use crate::upload::{upload_next, upload_start, Upload, UploadModel};

verus! {

/// An operation.
#[derive(Clone, Copy, Debug, PartialEq, Eq, Structural)]
pub enum Operation {
    Upload,
    Materialize,
    IndexBrowse,
}

/// What the program is asked to do.
#[derive(Debug)]
pub struct Order {
    pub operation: Operation,
    pub canister: String,
    pub at: Repository,
    pub git_dir: String,
}

/// The model of what the program is asked to do.
pub struct OrderModel {
    pub operation: Operation,
    pub canister: Seq<char>,
    pub at: (Seq<char>, Seq<char>),
    pub git_dir: Seq<char>,
}

impl View for Order {
    type V = OrderModel;

    open spec fn view(&self) -> OrderModel {
        OrderModel {
            operation: self.operation,
            canister: self.canister@,
            at: self.at@,
            git_dir: self.git_dir@,
        }
    }
}

/// The operation of this name.
pub open spec fn operation_named(name: Seq<char>) -> Option<Operation> {
    if name == "upload"@ {
        Some(Operation::Upload)
    } else if name == "materialize"@ {
        Some(Operation::Materialize)
    } else if name == "index-browse"@ {
        Some(Operation::IndexBrowse)
    } else {
        None
    }
}

/// What the arguments of the program ask for; the first is the name of the program.
pub open spec fn order_of(arguments: Seq<Seq<char>>) -> Result<OrderModel, Seq<char>> {
    if arguments.len() != 6 {
        Err(
            "usage: infinigit-pack <upload|materialize|index-browse> <canister> <owner-principal> <repo> <bare-git-dir>"@,
        )
    } else {
        match operation_named(arguments[1]) {
            None => Err("operation must be upload, materialize, or index-browse"@),
            Some(operation) => Ok(
                OrderModel {
                    operation,
                    canister: arguments[2],
                    at: (arguments[3], arguments[4]),
                    git_dir: arguments[5],
                },
            ),
        }
    }
}

/// Reads the arguments of the program.
pub fn read_order(arguments: &Vec<String>) -> (r: Result<Order, String>)
    ensures
        match r {
            Ok(order) => order_of(texts(arguments@)) == Ok::<OrderModel, Seq<char>>(order@),
            Err(message) => order_of(texts(arguments@)) == Err::<OrderModel, Seq<char>>(message@),
        },
{
    let ghost all = texts(arguments@);
    if arguments.len() != 6 {
        return Err(
            "usage: infinigit-pack <upload|materialize|index-browse> <canister> <owner-principal> <repo> <bare-git-dir>".to_owned(),
        );
    }
    assert(all[1] == arguments@[1]@);
    let name = arguments[1].as_str();
    let operation = if same_text(name, "upload") {
        Operation::Upload
    } else if same_text(name, "materialize") {
        Operation::Materialize
    } else if same_text(name, "index-browse") {
        Operation::IndexBrowse
    } else {
        return Err("operation must be upload, materialize, or index-browse".to_owned());
    };
    Ok(
        Order {
            operation,
            canister: arguments[2].clone(),
            at: Repository { owner: arguments[3].clone(), name: arguments[4].clone() },
            git_dir: arguments[5].clone(),
        },
    )
}

/// An operation under way.
pub enum Job {
    Upload(Upload),
    Materialize(Materialize),
    IndexBrowse(BrowseAll),
}

/// The model of an operation under way.
pub enum JobModel {
    Upload(UploadModel),
    Materialize(MaterializeModel),
    IndexBrowse(BrowseAllModel),
}

impl View for Job {
    type V = JobModel;

    open spec fn view(&self) -> JobModel {
        match *self {
            Job::Upload(upload) => JobModel::Upload(upload@),
            Job::Materialize(materialize) => JobModel::Materialize(materialize@),
            Job::IndexBrowse(browse) => JobModel::IndexBrowse(browse@),
        }
    }
}

/// The beginning of an operation.
pub open spec fn job_start(
    operation: Operation,
    at: (Seq<char>, Seq<char>),
    pace: PaceModel,
    snapshot: Option<SnapshotModel>,
) -> (JobModel, ActionModel) {
    match operation {
        Operation::Upload => {
            let (upload, action) = upload_start(at, snapshot);
            (JobModel::Upload(upload), action)
        },
        Operation::Materialize => {
            let (materialize, action) = materialize_start(at, pace, snapshot);
            (JobModel::Materialize(materialize), action)
        },
        Operation::IndexBrowse => {
            let (browse, action) = browse_all_start(at);
            (JobModel::IndexBrowse(browse), action)
        },
    }
}

/// The operation after an event, and the next action.
pub open spec fn job_next(job: JobModel, event: EventModel) -> (JobModel, ActionModel) {
    match job {
        JobModel::Upload(s) => {
            let (after, action) = upload_next(s, event);
            (JobModel::Upload(after), action)
        },
        JobModel::Materialize(s) => {
            let (after, action) = materialize_next(s, event);
            (JobModel::Materialize(after), action)
        },
        JobModel::IndexBrowse(s) => {
            let (after, action) = browse_all_next(s, event);
            (JobModel::IndexBrowse(after), action)
        },
    }
}

/// The limits that an operation goes by are usable.
pub open spec fn job_usable(job: Job) -> bool {
    job matches Job::Upload(upload) ==> usable(upload.capabilities)
}

impl Job {
    /// Starts an operation.
    pub fn start(
        operation: Operation,
        at: Repository,
        pace: Pace,
        snapshot: Option<TransportSnapshot>,
    ) -> (r: (Job, Action))
        requires
            snapshot matches Some(known) ==> usable(known.capabilities),
        ensures
            (r.0@, r.1@) == job_start(operation, at@, pace@, maybe_snapshot(snapshot)),
            job_usable(r.0),
    {
        match operation {
            Operation::Upload => {
                let (upload, action) = Upload::start(at, snapshot);
                (Job::Upload(upload), action)
            },
            Operation::Materialize => {
                let (materialize, action) = Materialize::start(at, pace, snapshot);
                (Job::Materialize(materialize), action)
            },
            Operation::IndexBrowse => {
                let (browse, action) = BrowseAll::start(at);
                (Job::IndexBrowse(browse), action)
            },
        }
    }

    /// Takes the answer to the last action and gives the next one.
    pub fn step(&mut self, event: Event) -> (r: Action)
        requires
            job_usable(*old(self)),
        ensures
            (final(self)@, r@) == job_next(old(self)@, event@),
            job_usable(*final(self)),
    {
        match self {
            Job::Upload(upload) => upload.step(event),
            Job::Materialize(materialize) => materialize.step(event),
            Job::IndexBrowse(browse) => browse.step(event),
        }
    }
}

} // verus!
