//! The raw declaration tree that the host's declaration-parsing layer hands
//! in: names, opaque handles, and for each attribute its path and the token
//! sequence of its parenthesized payload.
//!
//! All handles (`span`, `ty`, `generics`) are opaque indices into structures
//! the host owns; this crate passes them through unexamined.

use vstd::prelude::*;

verus! {

/// One token of an annotation payload, as the host's tokenizer delivers it.
///
/// Tokens of parenthesis groups arrive flattened between [`Tok::OpenParen`]
/// and [`Tok::CloseParen`]; every other token the grammar does not know —
/// a non-string literal, stray punctuation, a brace or bracket group — arrives
/// as one [`Tok::Other`] carrying its text.
#[derive(Debug, Clone)]
pub enum Tok {
    /// A simple identifier.
    Ident(String),
    /// A plain quoted string literal, already decoded by the host; a suffix
    /// on the literal is accepted and ignored.
    StrLit(String),
    Eq,
    Colon,
    Comma,
    OpenParen,
    CloseParen,
    /// Any other token, carried as text.
    Other(String),
}

/// One raw attribute record: its path, the tokens inside its parentheses
/// (empty for a path-only attribute), and the host's span handle.
#[derive(Debug, Clone)]
pub struct RawAttr {
    pub path: String,
    pub tokens: Vec<Tok>,
    pub span: usize,
}

/// A declaration member as the host hands it in.
#[derive(Debug, Clone)]
pub struct RawField {
    /// The field's name; `None` for a tuple field.
    pub ident: Option<String>,
    pub attrs: Vec<RawAttr>,
    /// Opaque handle of the field's declared type.
    pub ty: usize,
    /// Opaque handle of the original member node.
    pub span: usize,
}

/// The field list of a struct or of one enum variant.
#[derive(Debug, Clone)]
pub enum RawFields {
    Named(Vec<RawField>),
    Unnamed(Vec<RawField>),
    Unit,
}

/// One enum case as the host hands it in.
#[derive(Debug, Clone)]
pub struct RawVariant {
    pub ident: String,
    pub attrs: Vec<RawAttr>,
    pub fields: RawFields,
    /// Opaque handle of the original variant node.
    pub span: usize,
}

/// The shape of a declaration: struct, enum, or anything else (e.g. an
/// untagged union), which this crate does not support.
#[derive(Debug, Clone)]
pub enum RawData {
    Struct(RawFields),
    Enum(Vec<RawVariant>),
    Union,
}

/// One whole declaration as the host hands it in.
#[derive(Debug, Clone)]
pub struct RawInput {
    /// The struct or enum name, without generics.
    pub ident: String,
    /// The declaration-level attributes.
    pub attrs: Vec<RawAttr>,
    pub data: RawData,
    /// Opaque handle of the declaration's generics.
    pub generics: usize,
    /// Opaque handle of the original declaration node.
    pub span: usize,
}

} // verus!
