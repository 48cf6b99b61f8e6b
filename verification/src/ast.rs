//! The value tree produced by parsing one annotation payload, and the
//! mathematical model it is specified against.

use vstd::prelude::*;

verus! {

/// Ghost model of a parsed value: the same shape as [`Val`], over `Seq`s.
pub enum SpecVal {
    /// A bare key with no payload.
    Empty,
    /// A quoted string literal's decoded characters.
    Str(Seq<char>),
    /// A parenthesized, comma-separated nested-meta list: keys in encounter
    /// order, each key at most once.
    Mapping(Seq<(Seq<char>, SpecVal)>),
    /// The merged values of a key that occurred more than once at one scope,
    /// first occurrence first.
    List(Seq<SpecVal>),
}

/// One `key -> value` binding of an [`AttrMap`].
#[derive(Debug)]
pub struct AttrEntry {
    pub key: String,
    pub value: Val,
}

/// An ordered mapping from key to [`Val`]; keys are unique once merging has
/// folded duplicates into a [`Val::List`].
#[derive(Debug)]
pub struct AttrMap {
    pub entries: Vec<AttrEntry>,
}

/// The value attached to one key of an attribute, e.g. `#[fsm(test, trans(to = "B"))]`
/// parses into `{ "test": Val::Empty, "trans": Val::Mapping({"to": Val::Str("B")}) }`.
#[derive(Debug)]
pub enum Val {
    Empty,
    Str(String),
    Mapping(AttrMap),
    List(Vec<Val>),
}

/// Ghost mapping that a sequence of entries stands for.
pub open spec fn deep_entries(es: Seq<AttrEntry>) -> Seq<(Seq<char>, SpecVal)>
    decreases es,
{
    if es.len() == 0 {
        Seq::empty()
    } else {
        seq![(es[0].key@, es[0].value.deep())] + deep_entries(es.subrange(1, es.len() as int))
    }
}

/// Ghost sequence that a list of values stands for.
pub open spec fn deep_vals(vs: Seq<Val>) -> Seq<SpecVal>
    decreases vs,
{
    if vs.len() == 0 {
        Seq::empty()
    } else {
        seq![vs[0].deep()] + deep_vals(vs.subrange(1, vs.len() as int))
    }
}

impl Val {
    /// The ghost value this tree stands for.
    pub open spec fn deep(&self) -> SpecVal
        decreases self,
    {
        match self {
            Val::Empty => SpecVal::Empty,
            Val::Str(s) => SpecVal::Str(s@),
            Val::Mapping(m) => SpecVal::Mapping(deep_entries(m.entries@)),
            Val::List(vs) => SpecVal::List(deep_vals(vs@)),
        }
    }
}

/// `deep_entries` is the entrywise image of its argument.
pub proof fn lemma_deep_entries(es: Seq<AttrEntry>)
    ensures
        deep_entries(es).len() == es.len(),
        forall|i: int|
            0 <= i < es.len() ==> deep_entries(es)[i] == (es[i].key@, es[i].value.deep()),
    decreases es,
{
    if es.len() > 0 {
        lemma_deep_entries(es.subrange(1, es.len() as int));
    }
}

/// `deep_vals` is the elementwise image of its argument.
pub proof fn lemma_deep_vals(vs: Seq<Val>)
    ensures
        deep_vals(vs).len() == vs.len(),
        forall|i: int| 0 <= i < vs.len() ==> deep_vals(vs)[i] == vs[i].deep(),
    decreases vs,
{
    if vs.len() > 0 {
        lemma_deep_vals(vs.subrange(1, vs.len() as int));
    }
}

/// `deep_entries` distributes over `push`.
pub proof fn lemma_deep_entries_push(es: Seq<AttrEntry>, e: AttrEntry)
    ensures
        deep_entries(es.push(e)) == deep_entries(es).push((e.key@, e.value.deep())),
{
    lemma_deep_entries(es.push(e));
    lemma_deep_entries(es);
    assert(deep_entries(es.push(e)) =~= deep_entries(es).push((e.key@, e.value.deep())));
}

/// `deep_vals` distributes over `push`.
pub proof fn lemma_deep_vals_push(vs: Seq<Val>, v: Val)
    ensures
        deep_vals(vs.push(v)) == deep_vals(vs).push(v.deep()),
{
    lemma_deep_vals(vs.push(v));
    lemma_deep_vals(vs);
    assert(deep_vals(vs.push(v)) =~= deep_vals(vs).push(v.deep()));
}

impl AttrMap {
    /// The ghost mapping this attribute map stands for.
    pub open spec fn deep(&self) -> Seq<(Seq<char>, SpecVal)> {
        deep_entries(self.entries@)
    }

    pub fn new() -> (r: AttrMap)
        ensures
            r.deep() == Seq::<(Seq<char>, SpecVal)>::empty(),
    {
        AttrMap { entries: Vec::new() }
    }
}

/// The structural shape of a field list, determined purely from field arity
/// and naming, never from annotations.
#[derive(Clone, Copy, Debug, PartialEq, Eq, Structural)]
pub enum Style {
    /// Named fields.
    Struct,
    /// Many unnamed fields.
    Tuple,
    /// One unnamed field.
    Newtype,
    /// No fields.
    Unit,
}

/// A reference to a struct or variant member: its name, or its position.
#[derive(Debug)]
pub enum Member {
    Named(String),
    Unnamed(usize),
}

/// A resolved field of a struct or of an enum variant.
#[derive(Debug)]
pub struct Field {
    pub member: Member,
    /// The field's attributes under the requested symbol.
    pub attrs: AttrMap,
    /// Opaque handle of the field's declared type.
    pub ty: usize,
    /// Opaque handle of the original member node.
    pub original: usize,
}

/// A resolved variant of an enum.
#[derive(Debug)]
pub struct Variant {
    pub ident: String,
    /// The variant's own attributes under the requested symbol.
    pub attrs: AttrMap,
    pub style: Style,
    pub fields: Vec<Field>,
    /// Opaque handle of the original variant node.
    pub original: usize,
}

/// The resolved contents of a struct or enum.
#[derive(Debug)]
pub enum Data {
    Enum(Vec<Variant>),
    Struct(Style, Vec<Field>),
}

/// The root result for one declaration: its name, its own attributes under
/// the requested symbol, its resolved contents, and opaque handles back into
/// the caller-owned declaration tree.
#[derive(Debug)]
pub struct Container {
    /// The struct or enum name, without generics.
    pub ident: String,
    /// Attributes on the declaration itself.
    pub attrs: AttrMap,
    /// The contents of the struct or enum.
    pub data: Data,
    /// Opaque handle of the declaration's generics.
    pub generics: usize,
    /// Opaque handle of the original declaration node.
    pub original: usize,
}

} // verus!
