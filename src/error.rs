//! The errors that store operations and command parsing report.
use vstd::prelude::*;
use crate::text::push_text;

verus! {

/// Every failure of the library; each carries the key or text concerned.
#[derive(Debug)]
pub enum FerrisError {
    KeyNotFound(String),
    KeyExists(String),
    Persistence(String),
    InvalidCommand(String),
    InvalidTTL(String),
}

pub open spec fn not_found_text(key: Seq<char>) -> Seq<char> {
    "key '"@ + key + "' not found"@
}

pub open spec fn exists_text(key: Seq<char>) -> Seq<char> {
    "key '"@ + key + "' already exists"@
}

pub open spec fn persistence_text(msg: Seq<char>) -> Seq<char> {
    "persistence error: "@ + msg
}

pub open spec fn invalid_command_text(line: Seq<char>) -> Seq<char> {
    "invalid command: "@ + line
}

pub open spec fn invalid_ttl_text(field: Seq<char>) -> Seq<char> {
    "invalid TTL: "@ + field
}

impl FerrisError {
    /// The human-readable description of the error.
    pub open spec fn message_spec(&self) -> Seq<char> {
        match self {
            FerrisError::KeyNotFound(k) => not_found_text(k@),
            FerrisError::KeyExists(k) => exists_text(k@),
            FerrisError::Persistence(m) => persistence_text(m@),
            FerrisError::InvalidCommand(l) => invalid_command_text(l@),
            FerrisError::InvalidTTL(f) => invalid_ttl_text(f@),
        }
    }

    /// Renders the human-readable description of the error.
    pub fn message(&self) -> (r: String)
        ensures
            r@ == self.message_spec(),
    {
        let mut s = String::new();
        match self {
            FerrisError::KeyNotFound(k) => {
                push_text(&mut s, "key '");
                push_text(&mut s, k.as_str());
                push_text(&mut s, "' not found");
            },
            FerrisError::KeyExists(k) => {
                push_text(&mut s, "key '");
                push_text(&mut s, k.as_str());
                push_text(&mut s, "' already exists");
            },
            FerrisError::Persistence(m) => {
                push_text(&mut s, "persistence error: ");
                push_text(&mut s, m.as_str());
            },
            FerrisError::InvalidCommand(l) => {
                push_text(&mut s, "invalid command: ");
                push_text(&mut s, l.as_str());
            },
            FerrisError::InvalidTTL(f) => {
                push_text(&mut s, "invalid TTL: ");
                push_text(&mut s, f.as_str());
            },
        }
        s
    }
}

} // verus!
