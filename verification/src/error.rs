//! The error type shared by every module.
use vstd::prelude::*;
use crate::text::{owned, concat};

verus! {

#[verifier::external_type_specification]
#[verifier::external_body]
pub struct ExIoError(std::io::Error);

/// Errors shared by every module of the brain.
#[derive(Debug)]
pub enum BrainError {
    /// Configuration parsing or validation failed.
    Config(String),
    /// Communication with the flight controller or a peripheral failed.
    Transport(String),
    /// Low-level I/O failed (serial, CAN, network).
    Io(std::io::Error),
    /// Data bus or topic error.
    Bus(String),
    /// AI inference error.
    Inference(String),
    /// Behavior tree execution error.
    Behavior(String),
    /// Illegal state-machine transition.
    State(String),
    /// Mission planning error.
    Mission(String),
    /// Agent / LLM reasoning or tool-call error.
    Agent(String),
    /// Anything else.
    Other(String),
}

/// The crate-wide `Result` alias.
pub type Result<T> = std::result::Result<T, BrainError>;


/// `io::Error`'s display text (`ToString::to_string`). Nothing is stated of it:
/// the text comes from the operating system.
#[verifier::external_body]
fn io_error_text(e: &std::io::Error) -> String {
    e.to_string()
}

/// The fixed prefix of an error's display text.
pub open spec fn error_prefix(e: BrainError) -> Seq<char> {
    match e {
        BrainError::Config(_) => "configuration error: "@,
        BrainError::Transport(_) => "transport error: "@,
        BrainError::Io(_) => "io error: "@,
        BrainError::Bus(_) => "bus error: "@,
        BrainError::Inference(_) => "inference error: "@,
        BrainError::Behavior(_) => "behavior tree error: "@,
        BrainError::State(_) => "invalid state transition: "@,
        BrainError::Mission(_) => "mission error: "@,
        BrainError::Agent(_) => "agent error: "@,
        BrainError::Other(_) => "unknown error: "@,
    }
}

/// The detail text of an error that carries one (every variant but `Io`).
pub open spec fn error_detail(e: BrainError) -> Seq<char> {
    match e {
        BrainError::Config(m) => m@,
        BrainError::Transport(m) => m@,
        BrainError::Io(_) => Seq::empty(),
        BrainError::Bus(m) => m@,
        BrainError::Inference(m) => m@,
        BrainError::Behavior(m) => m@,
        BrainError::State(m) => m@,
        BrainError::Mission(m) => m@,
        BrainError::Agent(m) => m@,
        BrainError::Other(m) => m@,
    }
}

impl BrainError {
    /// The display text of the error: its kind, a colon, and its detail.
    pub fn message(&self) -> (s: String)
        ensures
            !(self is Io) ==> s@ == error_prefix(*self) + error_detail(*self),
            self is Io ==> s@.subrange(0, 10) == "io error: "@ && s@.len() >= 10,
    {
        match self {
            BrainError::Config(m) => concat(owned("configuration error: "), m.as_str()),
            BrainError::Transport(m) => concat(owned("transport error: "), m.as_str()),
            BrainError::Io(e) => {
                let head = owned("io error: ");
                proof {
                    reveal_strlit("io error: ");
                }
                let t = io_error_text(e);
                let s = concat(head, t.as_str());
                assert(s@.subrange(0, 10) =~= "io error: "@);
                s
            },
            BrainError::Bus(m) => concat(owned("bus error: "), m.as_str()),
            BrainError::Inference(m) => concat(owned("inference error: "), m.as_str()),
            BrainError::Behavior(m) => concat(owned("behavior tree error: "), m.as_str()),
            BrainError::State(m) => concat(owned("invalid state transition: "), m.as_str()),
            BrainError::Mission(m) => concat(owned("mission error: "), m.as_str()),
            BrainError::Agent(m) => concat(owned("agent error: "), m.as_str()),
            BrainError::Other(m) => concat(owned("unknown error: "), m.as_str()),
        }
    }
}

} // verus!
