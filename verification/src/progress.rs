//! Progress reporting: the callback interface that user interfaces implement,
//! and the events that the transfer logic emits through it.

use vstd::prelude::*;
use crate::errors::{SeyfrError, error_message};

verus! {

/// Progress callback.
///
/// The UI receives:
/// - `current_bytes` / `total_bytes` for the file in flight
/// - `current_file` name for the file currently in flight
/// - `file_index` / `total_files` when transferring folders
pub trait ProgressSink: Send + Sync {
    /// Called when a new file starts processing.
    fn on_file_start(&self, file_name: String, file_index: u64, total_files: u64);

    /// Called with byte-level progress for the current file.
    fn on_file_progress(&self, file_name: String, current_bytes: u64, total_bytes: u64);

    /// Called when a file completes.
    fn on_file_complete(&self, file_name: String, file_index: u64, total_files: u64);

    /// Called when the entire transfer completes.
    fn on_complete(&self, details: String);

    /// Called on any error with a human-readable message.
    fn on_error(&self, details: String);
}

/// One call to make on a progress sink.
#[derive(Debug)]
pub enum ProgressEvent {
    FileStart { name: String, index: u64, total: u64 },
    FileProgress { name: String, current: u64, total: u64 },
    FileComplete { name: String, index: u64, total: u64 },
    Complete { details: String },
    Error { details: String },
}

/// A progress event with its texts as character sequences.
pub enum EventModel {
    FileStart { name: Seq<char>, index: u64, total: u64 },
    FileProgress { name: Seq<char>, current: u64, total: u64 },
    FileComplete { name: Seq<char>, index: u64, total: u64 },
    Complete { details: Seq<char> },
    Error { details: Seq<char> },
}

impl View for ProgressEvent {
    type V = EventModel;

    open spec fn view(&self) -> EventModel {
        match self {
            ProgressEvent::FileStart { name, index, total } => EventModel::FileStart {
                name: name@,
                index: *index,
                total: *total,
            },
            ProgressEvent::FileProgress { name, current, total } => EventModel::FileProgress {
                name: name@,
                current: *current,
                total: *total,
            },
            ProgressEvent::FileComplete { name, index, total } => EventModel::FileComplete {
                name: name@,
                index: *index,
                total: *total,
            },
            ProgressEvent::Complete { details } => EventModel::Complete { details: details@ },
            ProgressEvent::Error { details } => EventModel::Error { details: details@ },
        }
    }
}

/// The models of a list of events.
pub open spec fn events_view(v: Seq<ProgressEvent>) -> Seq<EventModel> {
    v.map_values(|e: ProgressEvent| e@)
}

/// The event that reports a failed transfer: the error's human-readable text.
pub fn error_event(e: &SeyfrError) -> (r: ProgressEvent)
    ensures
        r@ == (EventModel::Error { details: error_message(e@) }),
{
    ProgressEvent::Error { details: e.message() }
}

/// What a finished transfer reports beyond its own events: a failure is
/// reported as its error event; a success adds nothing.
pub fn outcome_event<T>(result: &Result<T, SeyfrError>) -> (r: Option<ProgressEvent>)
    ensures
        match result {
            Ok(_) => r is None,
            Err(e) => r matches Some(ev) && ev@ == (EventModel::Error { details: error_message(e@) }),
        },
{
    match result {
        Ok(_) => None,
        Err(e) => Some(error_event(e)),
    }
}

/// Deliver an event to a sink: each event becomes the call of the same name.
pub fn dispatch<P: ProgressSink + ?Sized>(sink: &P, event: ProgressEvent) {
    match event {
        ProgressEvent::FileStart { name, index, total } => sink.on_file_start(name, index, total),
        ProgressEvent::FileProgress { name, current, total } => sink.on_file_progress(
            name,
            current,
            total,
        ),
        ProgressEvent::FileComplete { name, index, total } => sink.on_file_complete(
            name,
            index,
            total,
        ),
        ProgressEvent::Complete { details } => sink.on_complete(details),
        ProgressEvent::Error { details } => sink.on_error(details),
    }
}

/// Deliver an event when there is a sink to deliver it to.
pub fn report<P: ProgressSink + ?Sized>(sink: Option<&P>, event: ProgressEvent) {
    if let Some(s) = sink {
        dispatch(s, event);
    }
}

} // verus!
