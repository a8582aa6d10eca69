use vstd::prelude::*;

use crate::text::{owned, push_str};

verus! {

/// Why the engine refused a chapter or a command.
#[derive(Debug)]
pub enum EngineError {
    InvalidIr(String),
    WrongMode(&'static str, String),
    UnknownChoice(String),
    Other(String),
}

/// The mathematical value of an [`EngineError`].
pub enum EngineErrorView {
    InvalidIr(Seq<char>),
    WrongMode(Seq<char>, Seq<char>),
    UnknownChoice(Seq<char>),
    Other(Seq<char>),
}

impl View for EngineError {
    type V = EngineErrorView;

    open spec fn view(&self) -> EngineErrorView {
        match self {
            EngineError::InvalidIr(s) => EngineErrorView::InvalidIr(s@),
            EngineError::WrongMode(c, m) => EngineErrorView::WrongMode(c@, m@),
            EngineError::UnknownChoice(s) => EngineErrorView::UnknownChoice(s@),
            EngineError::Other(s) => EngineErrorView::Other(s@),
        }
    }
}

/// The text shown for an engine error.
pub open spec fn engine_error_message(e: EngineErrorView) -> Seq<char> {
    match e {
        EngineErrorView::InvalidIr(s) => "invalid IR: "@ + s,
        EngineErrorView::WrongMode(c, m) => "command "@ + c + " is not valid in mode "@ + m,
        EngineErrorView::UnknownChoice(s) => "unknown choice "@ + s,
        EngineErrorView::Other(s) => s,
    }
}

impl EngineError {
    /// The text shown for this error.
    pub fn message(&self) -> (r: String)
        ensures
            r@ == engine_error_message(self@),
    {
        match self {
            EngineError::InvalidIr(s) => {
                let mut r = owned("invalid IR: ");
                push_str(&mut r, s.as_str());
                r
            },
            EngineError::WrongMode(c, m) => {
                let mut r = owned("command ");
                push_str(&mut r, c);
                push_str(&mut r, " is not valid in mode ");
                push_str(&mut r, m.as_str());
                r
            },
            EngineError::UnknownChoice(s) => {
                let mut r = owned("unknown choice ");
                push_str(&mut r, s.as_str());
                r
            },
            EngineError::Other(s) => owned(s.as_str()),
        }
    }
}

} // verus!
