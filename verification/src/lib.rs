//! A personal code-snippet manager: snippets are named text fragments
//! tagged with a language, gathered in an ordered collection that is
//! persisted as a single text document through a pluggable storage backend.
//!
//! The document codec, the compound-name parser, the language classifier
//! and the collection queries are verified; reading and writing the backing
//! medium is left to the surrounding application, which hands the raw
//! document text in and out.
use vstd::prelude::*;

pub mod codec;
pub mod collection;
pub mod config;
pub mod connections;
pub mod lang;
pub mod snippet;
pub mod text;

verus! {

/// The failure kinds of the persistence layer. A missing query result is
/// expressed as an absent value, never as an error.
#[derive(Clone, Copy, Debug, PartialEq, Eq, Structural)]
pub enum Error {
    /// The backing medium is unreachable or unreadable.
    Connection,
    /// The stored text does not conform to the expected document shape.
    Serialization,
    /// A write could not complete.
    Io,
}

/// The uniform load/save contract shared by every persisted aggregate.
///
/// `save` produces the aggregate's full document text; `load` consumes the
/// text that the backend read (or `None` when nothing could be read) and
/// yields the hydrated aggregate, falling back to a default-valued instance
/// instead of failing. The `bool` says whether the fallback was used, so a
/// caller can decide to warn the user.
pub trait Persist: View + Sized {
    /// The canonical document text of this aggregate.
    spec fn doc_of(&self) -> Seq<char>;

    /// The model that loading `doc` on top of `prior` yields, when `doc`
    /// conforms; the backend reference is kept from `prior`, never taken
    /// from the document.
    spec fn decode_doc(prior: Self, doc: Seq<char>) -> Option<Self::V>;

    /// Whether `m` is a default-valued instance relative to `prior` (the
    /// backend reference is kept; a freshly drawn id may vary).
    spec fn is_fallback(prior: Self, m: Self::V) -> bool;

    /// Serializes the full aggregate state as one document.
    fn save(&self) -> (doc: String)
        ensures
            doc@ == self.doc_of(),
    ;

    /// Hydrates the aggregate from the text the backend read. Returns the
    /// new aggregate and whether the default fallback was used.
    fn load(self, text: Option<&String>) -> (r: (Self, bool))
        ensures
            (match text {
                Option::Some(t) => match Self::decode_doc(self, t@) {
                    Option::Some(m) => r.0@ == m && !r.1,
                    Option::None => Self::is_fallback(self, r.0@) && r.1,
                },
                Option::None => Self::is_fallback(self, r.0@) && r.1,
            }),
    ;
}

} // verus!
