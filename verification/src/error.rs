use vstd::prelude::*;
use vstd::string::*;

verus! {

/// What can go wrong in the domain.
#[derive(Debug, PartialEq, Eq)]
pub enum DomainError {
    /// A referenced entity is absent; carries the identifier that was looked for.
    NotFound(String),
    /// An object lacks the attribute that a rule reads; carries the attribute's name.
    MissingAttribute(String),
    /// A regex rule holds a pattern that does not compile; carries the pattern.
    InvalidPattern(String),
    /// The store or the transport failed.
    Unexpected(String),
}

/// A [`DomainError`] with its text as a sequence of characters.
pub enum DomainErrorView {
    NotFound(Seq<char>),
    MissingAttribute(Seq<char>),
    InvalidPattern(Seq<char>),
    Unexpected(Seq<char>),
}

impl View for DomainError {
    type V = DomainErrorView;

    open spec fn view(&self) -> DomainErrorView {
        match self {
            DomainError::NotFound(s) => DomainErrorView::NotFound(s@),
            DomainError::MissingAttribute(s) => DomainErrorView::MissingAttribute(s@),
            DomainError::InvalidPattern(s) => DomainErrorView::InvalidPattern(s@),
            DomainError::Unexpected(s) => DomainErrorView::Unexpected(s@),
        }
    }
}

impl DomainErrorView {
    /// The text that the error carries.
    pub open spec fn detail(self) -> Seq<char> {
        match self {
            DomainErrorView::NotFound(s) => s,
            DomainErrorView::MissingAttribute(s) => s,
            DomainErrorView::InvalidPattern(s) => s,
            DomainErrorView::Unexpected(s) => s,
        }
    }

    /// The words that come before the detail in the error's message.
    pub open spec fn prefix(self) -> Seq<char> {
        match self {
            DomainErrorView::NotFound(_) => "NotFound, id id "@,
            DomainErrorView::MissingAttribute(_) => "Missing Attribute: ["@,
            DomainErrorView::InvalidPattern(_) => "Invalid Pattern: ["@,
            DomainErrorView::Unexpected(_) => "Unexpected Error: ["@,
        }
    }

    /// The words that come after the detail in the error's message.
    pub open spec fn suffix(self) -> Seq<char> {
        match self {
            DomainErrorView::NotFound(_) => ""@,
            _ => "]"@,
        }
    }

    /// The whole message: prefix, detail, suffix.
    pub open spec fn message(self) -> Seq<char> {
        self.prefix() + self.detail() + self.suffix()
    }
}

impl Clone for DomainError {
    fn clone(&self) -> (copy: Self)
        ensures
            copy == *self,
    {
        match self {
            DomainError::NotFound(s) => DomainError::NotFound(s.clone()),
            DomainError::MissingAttribute(s) => DomainError::MissingAttribute(s.clone()),
            DomainError::InvalidPattern(s) => DomainError::InvalidPattern(s.clone()),
            DomainError::Unexpected(s) => DomainError::Unexpected(s.clone()),
        }
    }
}

impl DomainError {
    /// The message of the error, as it is shown to a reader.
    pub fn to_string(&self) -> (text: String)
        ensures
            text@ == self@.message(),
    {
        match self {
            DomainError::NotFound(s) => String::from_str("NotFound, id id ").concat(
                s.as_str(),
            ).concat(""),
            DomainError::MissingAttribute(s) => String::from_str("Missing Attribute: [").concat(
                s.as_str(),
            ).concat("]"),
            DomainError::InvalidPattern(s) => String::from_str("Invalid Pattern: [").concat(
                s.as_str(),
            ).concat("]"),
            DomainError::Unexpected(s) => String::from_str("Unexpected Error: [").concat(
                s.as_str(),
            ).concat("]"),
        }
    }
}

} // verus!
