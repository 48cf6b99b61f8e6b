//! The interned name that selects which annotation namespace the parser
//! processes; attributes under any other path belong to other consumers.

use vstd::prelude::*;

verus! {

/// The root of a helper attribute, e.g. `#[root(...)]`.
///
/// Matching is exact identifier equality against an attribute's path; no
/// prefix or fuzzy matching.
pub struct Symbol(pub String);

impl View for Symbol {
    type V = Seq<char>;

    open spec fn view(&self) -> Seq<char> {
        self.0@
    }
}

impl Symbol {
    /// Whether an attribute under `path` belongs to this namespace.
    pub fn matches(&self, path: &String) -> (r: bool)
        ensures
            r == (self@ == path@),
    {
        self.0 == *path
    }

    /// The symbol's name, for callers that print or compare it themselves.
    pub fn as_str(&self) -> (r: &str)
        ensures
            r@ == self@,
    {
        self.0.as_str()
    }
}

impl From<String> for Symbol {
    fn from(value: String) -> (r: Self) {
        Symbol(value)
    }
}

impl vstd::std_specs::convert::FromSpecImpl<String> for Symbol {
    open spec fn obeys_from_spec() -> bool {
        true
    }

    open spec fn from_spec(value: String) -> Self {
        Symbol(value)
    }
}

} // verus!
