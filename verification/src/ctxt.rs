//! The deferred-diagnostics context: a mutable error sink that every parsing
//! stage pushes into while parsing continues, finalized exactly once.

use vstd::prelude::*;

verus! {

/// What went wrong at one place of a parse.
#[derive(Clone, Copy, Debug, PartialEq, Eq, Structural)]
pub enum ErrKind {
    /// The declaration is neither a struct nor an enum (fatal).
    UnsupportedShape,
    /// Assembly was attempted without a resolved data shape (fatal, returned
    /// directly to the caller rather than recorded).
    MissingData,
    /// A nested-meta item's key position is not a simple identifier.
    MissingKeyIdentifier,
    /// The same key appeared twice at one scope; resolved by list-merging.
    DuplicateKey,
    /// A value position held something other than a string literal; resolved
    /// by substituting the empty string.
    MalformedValue,
}

/// One recorded error: its kind, the key it concerns (empty when the kind
/// names no key), and the source span handle of the attribute or declaration
/// it arose in.
#[derive(Clone, Debug)]
pub struct Diag {
    pub kind: ErrKind,
    pub key: String,
    pub span: usize,
}

/// Ghost model of a [`Diag`].
pub struct SpecDiag {
    pub kind: ErrKind,
    pub key: Seq<char>,
    pub span: int,
}

impl View for Diag {
    type V = SpecDiag;

    open spec fn view(&self) -> SpecDiag {
        SpecDiag { kind: self.kind, key: self.key@, span: self.span as int }
    }
}

/// The ghost models of a sequence of recorded errors.
pub open spec fn diag_views(ds: Seq<Diag>) -> Seq<SpecDiag> {
    ds.map_values(|d: Diag| d@)
}

/// `diag_views` distributes over `push`.
pub proof fn lemma_diag_views_push(ds: Seq<Diag>, d: Diag)
    ensures
        diag_views(ds.push(d)) == diag_views(ds).push(d@),
{
    assert(diag_views(ds.push(d)) =~= diag_views(ds).push(d@));
}


impl Diag {
    /// The rendered message of this diagnostic.
    pub open spec fn spec_message(&self) -> Seq<char> {
        match self.kind {
            ErrKind::UnsupportedShape => "derive supports only structs and enums"@,
            ErrKind::MissingData => "no data shape was resolved for the declaration"@,
            ErrKind::MissingKeyIdentifier => "expected a simple identifier as the nested meta key"@,
            ErrKind::DuplicateKey => "duplicated key {"@ + self.key@ + "}"@,
            ErrKind::MalformedValue => "expected a string literal value for key {"@ + self.key@
                + "}"@,
        }
    }

    pub fn message(&self) -> (r: String)
        ensures
            r@ == self.spec_message(),
    {
        match self.kind {
            ErrKind::UnsupportedShape => "derive supports only structs and enums".to_owned(),
            ErrKind::MissingData => "no data shape was resolved for the declaration".to_owned(),
            ErrKind::MissingKeyIdentifier => "expected a simple identifier as the nested meta key".to_owned(),
            ErrKind::DuplicateKey => {
                let mut s = "duplicated key {".to_owned();
                s.append(self.key.as_str());
                s.append("}");
                s
            },
            ErrKind::MalformedValue => {
                let mut s = "expected a string literal value for key {".to_owned();
                s.append(self.key.as_str());
                s.append("}");
                s
            },
        }
    }
}

/// The single combined text of every recorded message, in recording order,
/// separated by `"; "`.
pub open spec fn spec_combined(ds: Seq<Diag>) -> Seq<char>
    decreases ds,
{
    if ds.len() == 0 {
        Seq::empty()
    } else if ds.len() == 1 {
        ds[0].spec_message()
    } else {
        ds[0].spec_message() + "; "@ + spec_combined(ds.subrange(1, ds.len() as int))
    }
}

/// Appending one more diagnostic extends the combined message at its end.
pub proof fn lemma_combined_snoc(ds: Seq<Diag>, d: Diag)
    ensures
        spec_combined(ds.push(d)) == if ds.len() == 0 {
            d.spec_message()
        } else {
            spec_combined(ds) + "; "@ + d.spec_message()
        },
    decreases ds,
{
    let whole = ds.push(d);
    if ds.len() == 0 {
        assert(whole.len() == 1);
    } else {
        assert(whole.subrange(1, whole.len() as int) =~= ds.subrange(1, ds.len() as int).push(d));
        lemma_combined_snoc(ds.subrange(1, ds.len() as int), d);
        if ds.len() == 1 {
            assert(whole.subrange(1, whole.len() as int) =~= seq![d]);
        }
    }
}

/// The aggregate failure that a finalized context reports: every recorded
/// error, and one combined message over all of them.
pub struct CheckError {
    pub message: String,
    pub errors: Vec<Diag>,
}

/// The error sink for one logical compile unit. Created empty; every parsing
/// stage may record errors while parsing continues past them; finalized
/// exactly once by [`Ctxt::check`], which consumes the context.
pub struct Ctxt {
    pub errors: Vec<Diag>,
}

impl Ctxt {
    pub fn new() -> (r: Ctxt)
        ensures
            r.errors@ == Seq::<Diag>::empty(),
    {
        Ctxt { errors: Vec::new() }
    }

    /// Records one error; parsing is expected to continue.
    pub fn error(&mut self, d: Diag)
        ensures
            final (self).errors@ == old(self).errors@.push(d),
    {
        self.errors.push(d);
    }

    /// How many errors have been recorded so far.
    pub fn error_count(&self) -> (r: usize)
        ensures
            r == self.errors@.len(),
    {
        self.errors.len()
    }

    /// Finalizes the context: success if and only if no error was recorded,
    /// otherwise one combined failure carrying every recorded error and the
    /// concatenation of all their messages.
    pub fn check(self) -> (r: Result<(), CheckError>)
        ensures
            (r is Ok) <==> self.errors@.len() == 0,
            r matches Err(f) ==> f.errors@ == self.errors@ && f.message@ == spec_combined(
                self.errors@,
            ),
    {
        if self.errors.len() == 0 {
            return Ok(());
        }
        let n = self.errors.len();
        let mut msg = String::new();
        let mut i: usize = 0;
        while i < n
            invariant
                i <= n,
                n == self.errors@.len(),
                msg@ == spec_combined(self.errors@.subrange(0, i as int)),
            decreases n - i,
        {
            if i > 0 {
                msg.append("; ");
            }
            let m = self.errors[i].message();
            msg.append(m.as_str());
            proof {
                lemma_combined_snoc(self.errors@.subrange(0, i as int), self.errors@[i as int]);
                assert(self.errors@.subrange(0, i + 1 as int) =~= self.errors@.subrange(
                    0,
                    i as int,
                ).push(self.errors@[i as int]));
            }
            i += 1;
        }
        proof {
            assert(self.errors@.subrange(0, n as int) =~= self.errors@);
        }
        Err(CheckError { message: msg, errors: self.errors })
    }
}

} // verus!
