//! Resolved exception-table entries: try blocks with their catch
//! handlers, exception types spelled as descriptor strings.

use vstd::prelude::*;

verus! {

/// The exception caught by a resolved handler.
#[derive(Debug, Clone, PartialEq, Eq)]
pub enum ExceptionType {
    /// Any exception: the catch-all entry.
    Base,
    /// The exception class with this descriptor.
    Type(String),
}

/// One resolved catch handler.
#[derive(Debug, Clone, PartialEq, Eq)]
pub struct CatchHandler {
    /// What the handler catches.
    pub exception: ExceptionType,
    /// Code-unit address of the handler.
    pub addr: u64,
}

/// One resolved try block: the covered range and its handlers, the
/// catch-all last when present.
#[derive(Debug, Clone, PartialEq, Eq)]
pub struct TryCatchBlock {
    /// First covered code unit.
    pub start_addr: u32,
    /// Number of covered 16-bit code units.
    pub insn_count: u16,
    /// The handlers, in the order they are tried.
    pub catch_handlers: Vec<CatchHandler>,
}

} // verus!
