//! The error signals of the framer, the server loop and the sweeper, each
//! with the reply line the server writes for it.

use vstd::prelude::*;
use crate::instruction::{Instruction, InstructionModel};

verus! {

/// Spec-level image of a [`ParseError`].
pub ghost enum ParseErrorModel {
    InsufficientData,
    InsufficientWaiting(InstructionModel, usize),
    InvalidInstruction,
    InvalidData,
}

/// Failures of the framer and of the header parser.
#[derive(Debug, Clone)]
pub enum ParseError {
    /// No complete CRLF-terminated line is buffered yet; more bytes are needed.
    InsufficientData,
    /// A storage header was parsed but its payload line has not arrived.
    /// Carries the header command and the announced payload size.
    InsufficientWaiting(Instruction, usize),
    /// Unknown verb, missing field, bad integer, or a line that is not UTF-8.
    InvalidInstruction,
    /// The payload line's byte length differs from the announced size.
    InvalidData,
}

impl View for ParseError {
    type V = ParseErrorModel;

    open spec fn view(&self) -> ParseErrorModel {
        match self {
            ParseError::InsufficientData => ParseErrorModel::InsufficientData,
            ParseError::InsufficientWaiting(ins, n) => ParseErrorModel::InsufficientWaiting(
                ins@,
                *n,
            ),
            ParseError::InvalidInstruction => ParseErrorModel::InvalidInstruction,
            ParseError::InvalidData => ParseErrorModel::InvalidData,
        }
    }
}

/// The reply line for each parse failure.
pub open spec fn spec_parse_error_message(e: ParseErrorModel) -> Seq<char> {
    match e {
        ParseErrorModel::InsufficientData => "INSUFFICIENT DATA"@,
        ParseErrorModel::InsufficientWaiting(_, _) => "WAITING FOR DATA"@,
        ParseErrorModel::InvalidInstruction => "INVALID INSTRUCION"@,
        ParseErrorModel::InvalidData => "INVALID DATA"@,
    }
}

impl ParseError {
    /// The reply line the server writes for this failure.
    pub fn message(&self) -> (r: &'static str)
        ensures
            r@ == spec_parse_error_message(self@),
    {
        match self {
            ParseError::InsufficientData => "INSUFFICIENT DATA",
            ParseError::InsufficientWaiting(_, _) => "WAITING FOR DATA",
            ParseError::InvalidInstruction => "INVALID INSTRUCION",
            ParseError::InvalidData => "INVALID DATA",
        }
    }
}

/// Failures of the connection itself.
#[derive(Debug, Clone)]
pub enum NetError {
    /// The socket read returned zero bytes: the client closed the connection.
    ConnClosedByClient,
}

impl NetError {
    /// The human-readable description of this failure.
    pub fn message(&self) -> (r: &'static str)
        ensures
            r@ == "CONNECTION CLOSED BY CLIENT"@,
    {
        match self {
            NetError::ConnClosedByClient => "CONNECTION CLOSED BY CLIENT",
        }
    }
}

/// Control signal of the sweeper.
#[derive(Debug, Clone)]
pub enum CleanupError {
    /// Many sampled keys were expired; the sweep is repeated without sleeping.
    NeedToRepeat,
}

impl CleanupError {
    /// The human-readable description of this signal.
    pub fn message(&self) -> (r: &'static str)
        ensures
            r@ == "NEED TO REPEAT"@,
    {
        match self {
            CleanupError::NeedToRepeat => "NEED TO REPEAT",
        }
    }
}

} // verus!
