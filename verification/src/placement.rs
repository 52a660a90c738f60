//! Moving staged clones to their destinations, one step at a time.

use vstd::prelude::*;
use crate::execution::PoolError;
use crate::paths::strictly_contains;
use crate::tree::{parent_first, Entry};

verus! {

/// One step of placing: what is to be done on the filesystem.
#[derive(Debug, PartialEq)]
pub enum PlacementAction {
    /// Make sure that the directory and all directories above it exist.
    Create(String),
    /// Move the staged clone to its destination.
    Rename { from: String, to: String },
}

/// The mathematical value of a `PlacementAction`.
pub enum ActionModel {
    Create(Seq<char>),
    Rename { from: Seq<char>, to: Seq<char> },
}

impl View for PlacementAction {
    type V = ActionModel;

    open spec fn view(&self) -> ActionModel {
        match self {
            PlacementAction::Create(directory) => ActionModel::Create(directory@),
            PlacementAction::Rename { from, to } => ActionModel::Rename { from: from@, to: to@ },
        }
    }
}

/// The state of placing: the pairs of destination and staging path in the
/// order in which they are placed, how many of them are in place, whether
/// the directory of the next one was made, and whether a step has failed.
pub struct Progress {
    pub order: Seq<Entry>,
    pub placed: nat,
    pub created: bool,
    pub failed: bool,
}

impl Progress {
    /// No more pairs are in place than there are, and no directory was made
    /// beyond the last pair.
    pub open spec fn well_formed(self) -> bool {
        &&& self.placed <= self.order.len()
        &&& self.placed == self.order.len() ==> !self.created
    }

    /// The step that is due: for each pair in turn its directory is made and
    /// then the staged clone is moved there. Nothing is due once every pair
    /// is in place, nor after a step has failed.
    pub open spec fn due(self) -> Option<ActionModel> {
        if self.failed || self.placed >= self.order.len() {
            None
        } else if !self.created {
            Some(ActionModel::Create(self.order[self.placed as int].0))
        } else {
            Some(
                ActionModel::Rename {
                    from: self.order[self.placed as int].1,
                    to: self.order[self.placed as int].0,
                },
            )
        }
    }

    /// The state after the step that was due has been tried. A failure is
    /// kept, and what was done before it stays done.
    pub open spec fn after(self, succeeded: bool) -> Progress {
        if !succeeded {
            Progress { failed: true, ..self }
        } else if self.due() is None {
            self
        } else if !self.created {
            Progress { created: true, ..self }
        } else {
            Progress { placed: self.placed + 1, created: false, ..self }
        }
    }

    /// Whether every pair is in place.
    pub open spec fn complete(self) -> bool {
        !self.failed && self.placed == self.order.len()
    }
}

/// Where the order has parents first, every destination in it that lies
/// above the one whose step is due is already in place.
pub proof fn lemma_parents_in_place(progress: Progress, above: int)
    requires
        progress.well_formed(),
        parent_first(progress.order),
        progress.due() is Some,
        0 <= above < progress.order.len(),
        strictly_contains(progress.order[above].0, progress.order[progress.placed as int].0),
    ensures
        above < progress.placed,
{
}

/// The placing of the clones of a run.
pub struct PlacementPlan {
    order: Vec<(String, String)>,
    placed: usize,
    created: bool,
    failed: bool,
}

impl View for PlacementPlan {
    type V = Progress;

    closed spec fn view(&self) -> Progress {
        Progress {
            order: self.order.deep_view(),
            placed: self.placed as nat,
            created: self.created,
            failed: self.failed,
        }
    }
}

impl PlacementPlan {
    #[verifier::type_invariant]
    spec fn well_formed(&self) -> bool {
        self@.well_formed()
    }

    /// The plan to place the pairs of destination and staging path in the
    /// given order, before its first step.
    pub fn new(order: Vec<(String, String)>) -> (plan: PlacementPlan)
        ensures
            plan@ == (Progress {
                order: order.deep_view(),
                placed: 0,
                created: false,
                failed: false,
            }),
            plan@.well_formed(),
    {
        PlacementPlan { order, placed: 0, created: false, failed: false }
    }

    /// The step that is due, if any.
    pub fn next(&self) -> (action: Option<PlacementAction>)
        ensures
            match (action, self@.due()) {
                (Some(action), Some(due)) => action@ == due,
                (None, None) => true,
                _ => false,
            },
    {
        proof {
            use_type_invariant(self);
        }
        if self.failed || self.placed >= self.order.len() {
            None
        } else {
            let pair = &self.order[self.placed];
            if !self.created {
                Some(PlacementAction::Create(pair.0.clone()))
            } else {
                Some(PlacementAction::Rename { from: pair.1.clone(), to: pair.0.clone() })
            }
        }
    }

    /// Takes the result of the step that was due. A failed step fails the
    /// placing for good: no further step is due, and nothing is undone.
    pub fn report(&mut self, result: Result<(), String>) -> (reported: Result<(), PoolError>)
        ensures
            final(self)@ == old(self)@.after(result is Ok),
            final(self)@.well_formed(),
            match result {
                Ok(_) => reported is Ok,
                Err(report) => reported == Err::<(), PoolError>(
                    PoolError::PlacementFailure(report),
                ),
            },
    {
        proof {
            use_type_invariant(&*self);
        }
        match result {
            Err(report) => {
                self.failed = true;
                Err(PoolError::PlacementFailure(report))
            },
            Ok(_) => {
                if !self.failed && self.placed < self.order.len() {
                    if !self.created {
                        self.created = true;
                    } else {
                        self.created = false;
                        self.placed = self.placed + 1;
                    }
                }
                Ok(())
            },
        }
    }

    /// Whether every clone is in place.
    pub fn complete(&self) -> (complete: bool)
        ensures
            complete == self@.complete(),
    {
        !self.failed && self.placed == self.order.len()
    }
}

} // verus!
