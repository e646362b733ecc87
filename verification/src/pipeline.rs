//! The run as a state machine: load, parse, connect, transform, write.
//!
//! The surrounding program performs the file read, the connection and the
//! insert; every decision between those steps is taken here. The loader
//! runs first: a file that does not parse ends the run before any
//! connection is asked for.

use vstd::prelude::*;

use crate::format::parse_doc;
use crate::ident::{doc_of, to_documents, AircraftDocument};
use crate::parse::parse_aircraft_json;
use crate::record::{seq_views, Aircraft};

verus! {

/// Why a run ended without writing.
#[derive(Debug, PartialEq, Eq, Structural)]
pub enum RunError {
    /// The connection string is missing from the environment.
    Config,
    /// The input file cannot be read.
    Io,
    /// The input file is rejected by the loader.
    Parse,
    /// The database cannot be reached.
    Connect,
    /// The batch insert was not accepted.
    Write,
}

/// Where a run stands.
pub enum RunState {
    Init,
    Parsed(Vec<Aircraft>),
    Inserting,
    Done,
    Failed(RunError),
}

/// What the surrounding program reports back after performing an action:
/// the file's text if it could be read, then whether the connection was
/// established, then whether the insert was accepted.
pub enum RunEvent {
    FileRead(Option<String>),
    ConnectResult(bool),
    InsertResult(bool),
}

/// What the surrounding program must do next.
pub enum RunAction {
    ReadFile,
    Connect,
    Insert(Vec<AircraftDocument>),
    Stop,
}

/// The events a state can answer.
pub open spec fn compatible(s: RunState, e: RunEvent) -> bool {
    match (s, e) {
        (RunState::Init, RunEvent::FileRead(_)) => true,
        (RunState::Parsed(_), RunEvent::ConnectResult(_)) => true,
        (RunState::Inserting, RunEvent::InsertResult(_)) => true,
        _ => false,
    }
}

/// A run begins by reading the input file.
pub fn start() -> (r: (RunState, RunAction))
    ensures
        r.0 is Init,
        r.1 is ReadFile,
{
    (RunState::Init, RunAction::ReadFile)
}

/// One decision of the run.
///
/// A file that does not read fails the run; a file that does not parse
/// fails the run with a parse error and asks for nothing further, so no
/// connection is ever attempted for a rejected file. A parsed file asks for
/// a connection. A connected run with no records ends at once: nothing is
/// submitted and the run succeeds. Otherwise it submits one document per
/// record, fields verbatim, each under a fresh identifier, and an accepted
/// insert ends the run. Every failure stops the run with the error of its
/// stage.
pub fn step(state: RunState, event: RunEvent) -> (r: (RunState, RunAction))
    requires
        compatible(state, event),
    ensures
        (match event {
            RunEvent::FileRead(op) => match op {
                None => r.0 is Failed && r.0->Failed_0 is Io && r.1 is Stop,
                Some(text) => {
                    if parse_doc(text@) is Some {
                        &&& r.0 is Parsed
                        &&& Some(seq_views(r.0->Parsed_0@)) == parse_doc(text@)
                        &&& r.1 is Connect
                    } else {
                        &&& r.0 is Failed
                        &&& r.0->Failed_0 is Parse
                        &&& r.1 is Stop
                    }
                },
            },
            RunEvent::ConnectResult(ok) => {
                if ok {
                    if state->Parsed_0@.len() == 0 {
                        r.0 is Done && r.1 is Stop
                    } else {
                        &&& r.0 is Inserting
                        &&& r.1 is Insert
                        &&& r.1->Insert_0@.len() == state->Parsed_0@.len()
                        &&& forall|i: int|
                            0 <= i < r.1->Insert_0@.len() ==> doc_of(
                                #[trigger] r.1->Insert_0@[i],
                                state->Parsed_0@[i],
                            )
                    }
                } else {
                    &&& r.0 is Failed
                    &&& r.0->Failed_0 is Connect
                    &&& r.1 is Stop
                }
            },
            RunEvent::InsertResult(ok) => {
                if ok {
                    r.0 is Done && r.1 is Stop
                } else {
                    r.0 is Failed && r.0->Failed_0 is Write && r.1 is Stop
                }
            },
        }),
{
    match event {
        RunEvent::FileRead(op) => match op {
            None => (RunState::Failed(RunError::Io), RunAction::Stop),
            Some(text) => match parse_aircraft_json(text.as_str()) {
                Ok(recs) => (RunState::Parsed(recs), RunAction::Connect),
                Err(_) => (RunState::Failed(RunError::Parse), RunAction::Stop),
            },
        },
        RunEvent::ConnectResult(ok) => {
            if ok {
                match state {
                    RunState::Parsed(recs) => {
                        if recs.len() == 0 {
                            (RunState::Done, RunAction::Stop)
                        } else {
                            let docs = to_documents(&recs);
                            (RunState::Inserting, RunAction::Insert(docs))
                        }
                    },
                    _ => {
                        proof {
                            assert(false);
                        }
                        (RunState::Failed(RunError::Connect), RunAction::Stop)
                    },
                }
            } else {
                (RunState::Failed(RunError::Connect), RunAction::Stop)
            }
        },
        RunEvent::InsertResult(ok) => {
            if ok {
                (RunState::Done, RunAction::Stop)
            } else {
                (RunState::Failed(RunError::Write), RunAction::Stop)
            }
        },
    }
}

/// Resolves the connection string looked up in the environment: a missing
/// value is the configuration failure that ends the run before anything
/// else happens.
pub fn resolve_connection_string(lookup: Option<String>) -> (r: Result<String, RunError>)
    ensures
        (match lookup {
            Some(uri) => r is Ok && r->Ok_0 == uri,
            None => r is Err && r->Err_0 is Config,
        }),
{
    match lookup {
        Some(uri) => Ok(uri),
        None => Err(RunError::Config),
    }
}

/// The fixed name of the database the documents go to.
pub fn database_name() -> (r: String)
    ensures
        r@ == "flights"@,
{
    "flights".to_owned()
}

/// The fixed name of the collection the documents go to.
pub fn collection_name() -> (r: String)
    ensures
        r@ == "aircraft"@,
{
    "aircraft".to_owned()
}

} // verus!
