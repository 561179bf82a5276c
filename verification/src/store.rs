//! Adding bytes to the blob store: what each event of the import stream
//! means for the sender.

use vstd::prelude::*;
use crate::errors::{ErrorModel, SeyfrError};
use crate::hashseq::copy_bytes;

verus! {

/// One event of an import into the blob store.
#[derive(Debug)]
pub enum AddEvent {
    /// The import is stored; the content hash of the bytes.
    Done { hash: Vec<u8> },
    /// The import failed; the text of the store's error.
    Error { details: String },
    /// Progress or anything else.
    Other,
}

/// What the sender does on one event of an import.
#[derive(Debug)]
pub enum AddStep {
    /// The bytes are stored under this hash: the import is over.
    Stored { hash: Vec<u8> },
    /// The import failed with this error.
    Failed { error: SeyfrError },
    /// Wait for the next event.
    Continue,
}

pub open spec fn add_failure_text(details: Seq<char>) -> Seq<char> {
    "add bytes error: "@ + details
}

/// Read one event of an import: a stored import gives its hash, a failed
/// one its error, and anything else means waiting on.
pub fn on_add_event(event: &AddEvent) -> (r: AddStep)
    ensures
        match *event {
            AddEvent::Done { hash } => r matches AddStep::Stored { hash: h } && h@ == hash@,
            AddEvent::Error { details } => r matches AddStep::Failed { error } && error@
                == (ErrorModel::Store { details: add_failure_text(details@) }),
            AddEvent::Other => r is Continue,
        },
{
    match event {
        AddEvent::Done { hash } => AddStep::Stored { hash: copy_bytes(hash) },
        AddEvent::Error { details } => {
            let mut d = String::from_str("add bytes error: ");
            d.append(details.as_str());
            AddStep::Failed { error: SeyfrError::Store { details: d } }
        },
        AddEvent::Other => AddStep::Continue,
    }
}

/// The error when the import's events end before it is stored.
pub fn add_unfinished() -> (r: SeyfrError)
    ensures
        r@ == (ErrorModel::Store { details: "add_bytes stream ended without Done"@ }),
{
    SeyfrError::Store { details: String::from_str("add_bytes stream ended without Done") }
}

} // verus!
