//! Fiscal-data operators: which one to ask for a document, and what to ask it.
use vstd::prelude::*;
use crate::object::FiscalError;

pub mod custom;
pub mod providers;

verus! {

/// Why a document could not be had.
#[derive(Debug)]
pub enum Error {
    /// A field of a record holds a value of the wrong kind.
    FiscalData(FiscalError),
    /// Some other failure, described.
    Custom(String),
    /// The record lacks what the request needs: the name of the missing part.
    MissingData(&'static str),
    /// The answer could not be read.
    ParseError,
    /// No answer came.
    NoResponse,
    /// The user has to go to this address first (to log in, say).
    Redirect(String),
}

} // verus!
pub mod cache;
pub mod registry;
pub mod taxcom;
pub mod requests;
