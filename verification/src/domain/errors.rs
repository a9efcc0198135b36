//! The two kinds of failure.

use vstd::prelude::*;

verus! {

/// Why an operation was refused. Each kind carries a message for people.
#[derive(Debug, PartialEq, Eq)]
pub enum DomainError {
    /// The group that was asked for is not in the store.
    NotFound(String),
    /// A rule of the ledger was broken: an amount that is not positive, a
    /// payer or a participant who is not a member.
    Invalid(String),
}

/// What a [`DomainError`] is, as a mathematical value.
pub enum DomainErrorView {
    NotFound(Seq<char>),
    Invalid(Seq<char>),
}

impl View for DomainError {
    type V = DomainErrorView;

    open spec fn view(&self) -> DomainErrorView {
        match self {
            DomainError::NotFound(message) => DomainErrorView::NotFound(message@),
            DomainError::Invalid(message) => DomainErrorView::Invalid(message@),
        }
    }
}

/// Whether `outcome` is the failure `NotFound`, whatever its message.
pub open spec fn is_not_found<T>(outcome: Result<T, DomainError>) -> bool {
    outcome matches Err(error) && error is NotFound
}

/// Whether `outcome` is the failure `Invalid` with the message `reason`.
pub open spec fn is_invalid<T>(outcome: Result<T, DomainError>, reason: Seq<char>) -> bool {
    outcome matches Err(error) && error@ == DomainErrorView::Invalid(reason)
}

/// The message that an error carries.
pub open spec fn message_of(error: DomainErrorView) -> Seq<char> {
    match error {
        DomainErrorView::NotFound(message) => message,
        DomainErrorView::Invalid(message) => message,
    }
}

/// The text that presents an error to people: its kind, then its message.
pub open spec fn description(error: DomainErrorView) -> Seq<char> {
    match error {
        DomainErrorView::NotFound(message) => "not found: "@ + message,
        DomainErrorView::Invalid(message) => "invalid request: "@ + message,
    }
}

impl DomainError {
    /// The text that presents the error to people.
    pub fn describe(&self) -> (text: String)
        ensures
            text@ == description(self@),
    {
        match self {
            DomainError::NotFound(message) => String::from_str("not found: ").concat(
                message.as_str(),
            ),
            DomainError::Invalid(message) => String::from_str("invalid request: ").concat(
                message.as_str(),
            ),
        }
    }

    /// The message that the error carries.
    pub fn message(&self) -> (text: &String)
        ensures
            text@ == message_of(self@),
    {
        match self {
            DomainError::NotFound(message) => message,
            DomainError::Invalid(message) => message,
        }
    }
}

} // verus!
