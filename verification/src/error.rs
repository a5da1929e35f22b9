use vstd::prelude::*;

verus! {

/// The ways in which building, checking or reading theses and commands can fail.
#[derive(Debug, PartialEq, Eq)]
pub enum WoolError {
    /// An alias must be one or more characters, none of them white space.
    InvalidAlias(String),
    /// A tag must be one or more word characters.
    InvalidTag(String),
    /// A word of a text must be one or more Cyrillic or Latin letters, and the rest of it
    /// white space and the marks `,-:.'"`.
    InvalidWord(String),
    /// A relation kind must be one or more English letters, digits, `_` or spaces.
    InvalidRelationKind(String),
    /// The relation kind is not among the supported ones.
    UnsupportedRelationKind(String),
    /// The line does not have the form of the command it was read as.
    NotMatched(String),
    /// No thesis with this identifier is stored.
    UnknownThesis(String),
    /// No thesis is known under this alias.
    UnknownAlias(String),
    /// A bracketed identifier in a text is not a valid thesis identifier.
    InvalidDocumentId(String),
    /// The line could not be read as any command.
    Unparsable(String),
    /// The thesis is already stored.
    AlreadyExists(String),
    /// A relation names a thesis that is not stored.
    MissingRelated(String),
    /// The store behind a transaction failed.
    Storage(String),
}

} // verus!
