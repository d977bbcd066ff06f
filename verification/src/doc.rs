//! A record as a statement works on it.

use vstd::prelude::*;
use crate::err::Error;
use crate::err::ErrorView;
use crate::value::RecordId;
use crate::value::Value;

verus! {

/// The body of a record at one time, if the record had one then.
#[derive(Debug)]
pub struct CursorDoc {
    pub doc: Option<Value>,
}

/// A record as a statement works on it: its id, where it has one, and its body before
/// and after the statement.
#[derive(Debug)]
pub struct Document {
    pub id: Option<RecordId>,
    pub initial: CursorDoc,
    pub current: CursorDoc,
}

/// Where a record stands while a statement creates, updates or deletes it.
#[derive(Clone, Copy, PartialEq, Eq, Structural, Debug)]
pub enum RecordState {
    /// The record was looked up.
    Loaded,
    /// The record is not in the store.
    Missing,
    /// The record is in the store and unchanged.
    Current,
    /// The record has a new body.
    Updated,
    /// The record is to be removed.
    Deleted,
    /// The statement is through with the record.
    Done,
}

/// What happens to a record while a statement works on it.
#[derive(Clone, Copy, PartialEq, Eq, Structural, Debug)]
pub enum RecordEvent {
    /// The record was found in the store, or not.
    Looked { exists: bool },
    /// The statement creates the record.
    Create,
    /// The statement changes the record.
    Mutate,
    /// The statement deletes the record.
    Delete,
    /// The transaction commits.
    Commit,
}

/// Where a record stands after something happened to it; nothing, where that cannot
/// happen to a record that stands where it does.
pub open spec fn record_step(state: RecordState, event: RecordEvent) -> Option<RecordState> {
    match (state, event) {
        (RecordState::Loaded, RecordEvent::Looked { exists }) => Some(
            if exists {
                RecordState::Current
            } else {
                RecordState::Missing
            },
        ),
        (RecordState::Missing, RecordEvent::Create) => Some(RecordState::Updated),
        (RecordState::Current, RecordEvent::Mutate) => Some(RecordState::Updated),
        (RecordState::Current, RecordEvent::Delete) => Some(RecordState::Deleted),
        (RecordState::Updated, RecordEvent::Commit) => Some(RecordState::Done),
        (RecordState::Updated, RecordEvent::Delete) => Some(RecordState::Done),
        (RecordState::Deleted, RecordEvent::Commit) => Some(RecordState::Done),
        _ => None,
    }
}

/// How many more things can happen to a record at most.
pub open spec fn steps_left(state: RecordState) -> nat {
    match state {
        RecordState::Loaded => 3,
        RecordState::Missing => 2,
        RecordState::Current => 2,
        RecordState::Updated => 1,
        RecordState::Deleted => 1,
        RecordState::Done => 0,
    }
}

/// Every step brings a record nearer to the end, and nothing happens to a record that
/// the statement is through with.
pub proof fn lemma_record_ends(state: RecordState, event: RecordEvent)
    ensures
        record_step(state, event) matches Some(next) ==> steps_left(next) < steps_left(state),
        state == RecordState::Done ==> record_step(state, event) is None,
{
}

impl RecordState {
    /// Where the record stands after `event`, if that can happen to it.
    pub fn step(self, event: RecordEvent) -> (next: Option<RecordState>)
        ensures
            next == record_step(self, event),
    {
        match (self, event) {
            (RecordState::Loaded, RecordEvent::Looked { exists }) => Some(
                if exists {
                    RecordState::Current
                } else {
                    RecordState::Missing
                },
            ),
            (RecordState::Missing, RecordEvent::Create) => Some(RecordState::Updated),
            (RecordState::Current, RecordEvent::Mutate) => Some(RecordState::Updated),
            (RecordState::Current, RecordEvent::Delete) => Some(RecordState::Deleted),
            (RecordState::Updated, RecordEvent::Commit) => Some(RecordState::Done),
            (RecordState::Updated, RecordEvent::Delete) => Some(RecordState::Done),
            (RecordState::Deleted, RecordEvent::Commit) => Some(RecordState::Done),
            _ => None,
        }
    }
}

impl Document {
    /// Whether the record is to be passed over: it has an id, but no body in the store.
    pub open spec fn skipped(&self) -> bool {
        self.id is Some && self.current.doc is None
    }

    /// Checks that a record which has an id has a body too. A record without one is
    /// passed over: the error is the signal for that, and does not reach the caller.
    pub fn empty(&self) -> (result: Result<(), Error>)
        ensures
            match result {
                Ok(_) => !self.skipped(),
                Err(e) => self.skipped() && e@ == ErrorView::Ignore,
            },
    {
        // Check if this record exists
        if self.id.is_some() {
            // There is no current record
            if self.current.doc.is_none() {
                // Ignore this requested record
                return Err(Error::Ignore);
            }
        }
        // Carry on
        Ok(())
    }

    /// Where the record stands after it was looked up.
    pub fn state(&self) -> (state: RecordState)
        ensures
            state == if self.current.doc is Some {
                RecordState::Current
            } else {
                RecordState::Missing
            },
            Some(state) == record_step(
                RecordState::Loaded,
                RecordEvent::Looked { exists: self.current.doc is Some },
            ),
    {
        if self.current.doc.is_some() {
            RecordState::Current
        } else {
            RecordState::Missing
        }
    }
}

} // verus!
