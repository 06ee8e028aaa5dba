//! Envelopes for state-machine updates as they travel between nodes:
//! the payload together with bookkeeping about state changes, and the
//! reply naming the node that handled the write.

use vstd::prelude::*;

use crate::state_machine::Request;
use crate::state_machine::RequestView;

verus! {

/// A record that one state change was processed, and when.
#[derive(Clone, PartialEq, Debug)]
pub struct StateChangeProcessed {
    pub state_change_id: String,
    pub processed_at: u64,
}

pub struct StateChangeProcessedView {
    pub state_change_id: Seq<char>,
    pub processed_at: u64,
}

impl View for StateChangeProcessed {
    type V = StateChangeProcessedView;

    open spec fn view(&self) -> StateChangeProcessedView {
        StateChangeProcessedView {
            state_change_id: self.state_change_id@,
            processed_at: self.processed_at,
        }
    }
}

/// A proposed update: the command, plus the state changes it reacts to.
#[derive(Clone, PartialEq, Debug)]
pub struct StateMachineUpdateRequest {
    pub payload: Request,
    pub state_changes_processed: Vec<StateChangeProcessed>,
}

pub struct StateMachineUpdateRequestView {
    pub payload: RequestView,
    pub state_changes_processed: Seq<StateChangeProcessedView>,
}

impl View for StateMachineUpdateRequest {
    type V = StateMachineUpdateRequestView;

    open spec fn view(&self) -> StateMachineUpdateRequestView {
        StateMachineUpdateRequestView {
            payload: self.payload@,
            state_changes_processed: self.state_changes_processed@.map_values(
                |c: StateChangeProcessed| c@,
            ),
        }
    }
}

/// The reply to an update: which node's leader handled it.
#[derive(Clone, Copy, PartialEq, Eq, Structural, Debug)]
pub struct StateMachineUpdateResponse {
    pub handled_by: u64,
}

impl StateMachineUpdateResponse {
    pub fn new(handled_by: u64) -> (r: Self)
        ensures
            r.handled_by == handled_by,
    {
        StateMachineUpdateResponse { handled_by }
    }
}

} // verus!
