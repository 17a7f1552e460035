//! The data model: message records, send payloads, outcomes of the external
//! ledger calls, and the error taxonomy.

use vstd::prelude::*;

verus! {

/// Relies on candid::Nat: the ledger's arbitrary-precision amount type. The
/// library carries such values through unchanged and never inspects them.
#[verifier::external_type_specification]
#[verifier::external_body]
pub struct ExNat(candid::Nat);

/// One accepted donation message, as persisted in the store.
pub struct CoffeeMessage {
    /// Unique identifier, assigned once by the allocator, never reused.
    pub id: u64,
    /// Display name supplied by the sender; free-form text.
    pub name: String,
    /// Free-form text body.
    pub message: String,
    /// Opaque textual identifier of the transfer's destination account.
    pub receiver: String,
    /// Wall-clock time captured at the moment of successful persistence.
    pub timestamp: u64,
}

/// The mathematical content of a `CoffeeMessage`: the text fields as
/// character sequences.
#[verifier::ext_equal]
pub struct CoffeeMessageView {
    pub id: u64,
    pub name: Seq<char>,
    pub message: Seq<char>,
    pub receiver: Seq<char>,
    pub timestamp: u64,
}

impl View for CoffeeMessage {
    type V = CoffeeMessageView;

    open spec fn view(&self) -> CoffeeMessageView {
        CoffeeMessageView {
            id: self.id,
            name: self.name@,
            message: self.message@,
            receiver: self.receiver@,
            timestamp: self.timestamp,
        }
    }
}

/// A request to send a coffee: display name, message body, amount to
/// transfer, and the receiver's textual account identifier.
pub struct MessagePayload {
    pub name: String,
    pub message: String,
    pub amount: candid::Nat,
    pub receiver: String,
}

/// What went wrong, by kind; the accompanying message is free text.
#[derive(PartialEq, Eq, Structural, Clone, Copy, Debug)]
pub enum ErrorKind {
    /// A lookup or delete referenced an unknown id. Non-fatal.
    NotFound,
    /// The ledger call did not complete, or the ledger refused the operation.
    Transfer,
    /// A programming-error condition, such as a record over the size bound.
    Fatal,
}

/// A typed error: a kind and a descriptive message.
pub struct Error {
    pub kind: ErrorKind,
    pub msg: String,
}

/// The outcome of the external ledger transfer call, as observed by the
/// caller that performed it: the ledger accepted the transfer and returned a
/// value, the ledger refused it, or the call itself could not be completed.
pub enum TransferOutcome {
    Transferred(candid::Nat),
    Refused(String),
    CallFailed(String),
}

/// The outcome of the external balance query call.
pub enum BalanceOutcome {
    Got(candid::Nat),
    CallFailed(String),
}

} // verus!
