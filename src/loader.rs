//! The decisions of the background load: what the polling side reports for each message
//! that the parsing side sends.

use crate::flow::Timestamp;
use crate::names::NameTable;
use crate::packets::FlowTable;
use crate::reader::{ParseState, Progress};
use vstd::prelude::*;

verus! {

/// A message from the parsing side: zero or more progress reports, then one result.
pub enum LoadStatus {
    Progress(Progress),
    Loaded(ParseState),
    Error(String),
}

/// What a poll reports.
pub enum FlowLoadStatus {
    Loading { progress: Progress },
    Ready { flows: FlowTable, start_timestamp: Option<Timestamp>, name_resolutions: NameTable },
    Error(String),
    Idle,
}

/// The polling side of one load: whether it still waits for a result, and the latest progress.
#[derive(Debug, Clone, Copy)]
pub struct FlowLoadController {
    active: bool,
    last_progress: Progress,
}

impl FlowLoadController {
    /// Whether the load still waits for its result.
    pub closed spec fn waiting(&self) -> bool {
        self.active
    }

    /// The latest progress received.
    pub closed spec fn latest(&self) -> Progress {
        self.last_progress
    }

    /// A load that has just started.
    pub fn new() -> (r: FlowLoadController)
        ensures
            r.waiting(),
            r.latest() == (Progress { bytes_read: 0, total: 0 }),
    {
        FlowLoadController { active: true, last_progress: Progress { bytes_read: 0, total: 0 } }
    }

    pub fn is_active(&self) -> (r: bool)
        ensures
            r == self.waiting(),
    {
        self.active
    }

    pub fn last_progress(&self) -> (r: Progress)
        ensures
            r == self.latest(),
    {
        self.last_progress
    }

    /// What a poll reports when no message is waiting: the latest progress while the load
    /// runs, `Idle` once its result has been reported.
    pub fn current(&self) -> (r: FlowLoadStatus)
        ensures
            self.waiting() ==> r == (FlowLoadStatus::Loading { progress: self.latest() }),
            !self.waiting() ==> r is Idle,
    {
        if self.active {
            FlowLoadStatus::Loading { progress: self.last_progress }
        } else {
            FlowLoadStatus::Idle
        }
    }

    /// Takes in one message. A progress report is remembered and nothing is returned; a result
    /// ends the load and is returned at once, to be reported by the poll.
    pub fn on_message(&mut self, message: LoadStatus) -> (r: Option<FlowLoadStatus>)
        requires
            old(self).waiting(),
        ensures
            match message {
                LoadStatus::Progress(p) => r is None && final(self).waiting() && final(self).latest() == p,
                LoadStatus::Loaded(state) => !final(self).waiting() && r == Some(
                    FlowLoadStatus::Ready {
                        flows: state.flows,
                        start_timestamp: state.first_packet_ts,
                        name_resolutions: state.name_resolutions,
                    },
                ),
                LoadStatus::Error(e) => !final(self).waiting() && r == Some(FlowLoadStatus::Error(e)),
            },
    {
        match message {
            LoadStatus::Progress(p) => {
                self.last_progress = p;
                None
            },
            LoadStatus::Loaded(state) => {
                self.active = false;
                Some(
                    FlowLoadStatus::Ready {
                        flows: state.flows,
                        start_timestamp: state.first_packet_ts,
                        name_resolutions: state.name_resolutions,
                    },
                )
            },
            LoadStatus::Error(e) => {
                self.active = false;
                Some(FlowLoadStatus::Error(e))
            },
        }
    }
}

} // verus!
