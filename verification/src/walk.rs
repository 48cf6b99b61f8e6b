//! The declaration walker and the container assembler: scanning a node's raw
//! attributes under one symbol, resolving every field and variant, and
//! composing the final [`Container`].

use vstd::prelude::*;

use crate::ast::AttrMap;
use crate::ast::Container;
use crate::ast::Data;
use crate::ast::Field;
use crate::ast::Member;
use crate::ast::SpecVal;
use crate::ast::Style;
use crate::ast::Variant;
use crate::ctxt::diag_views;
use crate::ctxt::Ctxt;
use crate::ctxt::Diag;
use crate::ctxt::ErrKind;
use crate::ctxt::SpecDiag;
use crate::parse::parse_list;
use crate::parse::merge_map;
use crate::parse::spec_list;
use crate::parse::spec_merge_map;
use crate::parse::SpecMap;
use crate::symbol::Symbol;
use crate::tokens::RawAttr;
use crate::tokens::RawData;
use crate::tokens::RawField;
use crate::tokens::RawFields;
use crate::tokens::RawInput;
use crate::tokens::RawVariant;

verus! {

/// One attribute payload parsed into a scope of its own: its whole token
/// sequence, from an empty accumulator, with the attribute's span on every
/// recorded event.
pub open spec fn spec_payload(a: RawAttr) -> (SpecMap, Seq<SpecDiag>) {
    let r = spec_list(a.tokens@, 0, a.span as int, Seq::empty());
    (r.0, r.1)
}

/// Whether `a` is processed under the symbol `root`: its path matches exactly
/// and its payload is non-empty.
pub open spec fn spec_is_processed(a: RawAttr, root: Seq<char>) -> bool {
    a.path@ == root && a.tokens@.len() > 0
}

/// Fold the matching attributes of `attrs` into `acc`, left to right: each
/// matching non-empty payload is parsed into its own scope, whose bindings
/// are then merged into the accumulator. Attributes under any other path are
/// ignored and contribute no event.
pub open spec fn spec_scan(attrs: Seq<RawAttr>, root: Seq<char>, acc: SpecMap) -> (
    SpecMap,
    Seq<SpecDiag>,
)
    decreases attrs.len(),
{
    if attrs.len() == 0 {
        (acc, Seq::empty())
    } else {
        let a = attrs[0];
        let rest = attrs.subrange(1, attrs.len() as int);
        if spec_is_processed(a, root) {
            let p = spec_payload(a);
            let m = spec_merge_map(acc, p.0, a.span as int);
            let r = spec_scan(rest, root, m.0);
            (r.0, p.1 + m.1 + r.1)
        } else {
            spec_scan(rest, root, acc)
        }
    }
}

/// Whether `a` is the open/forward-compatibility sentinel: a path-only
/// attribute named `non_exhaustive` that does not belong to `root`.
pub open spec fn spec_is_sentinel(a: RawAttr, root: Seq<char>) -> bool {
    a.path@ != root && a.path@ == "non_exhaustive"@ && a.tokens@.len() == 0
}

/// Whether the sentinel occurs anywhere in `attrs`.
pub open spec fn spec_has_sentinel(attrs: Seq<RawAttr>, root: Seq<char>) -> bool {
    exists|i: int| 0 <= i < attrs.len() && spec_is_sentinel(#[trigger] attrs[i], root)
}

/// Scans one node's raw attributes for the symbol `root` and folds every
/// matching payload into one attribute map; all malformed pieces and
/// duplicate keys are reported to `cx`. Attributes under any other path are
/// silently ignored.
pub fn parse_attrs(cx: &mut Ctxt, attrs: &Vec<RawAttr>, root: &Symbol) -> (r: AttrMap)
    ensures
        ({
            let g = spec_scan(attrs@, root@, Seq::empty());
            &&& r.deep() == g.0
            &&& diag_views(final (cx).errors@) == diag_views(old(cx).errors@) + g.1
        }),
{
    let ghost d0 = diag_views(old(cx).errors@);
    let ghost full = spec_scan(attrs@, root@, Seq::empty());
    let mut all = AttrMap::new();
    let ghost mut done: Seq<SpecDiag> = Seq::empty();
    let n = attrs.len();
    let mut i: usize = 0;
    proof {
        assert(d0 =~= d0 + done);
        assert(attrs@.subrange(0, n as int) =~= attrs@);
        assert(done + spec_scan(attrs@, root@, Seq::empty()).1 =~= spec_scan(
            attrs@,
            root@,
            Seq::empty(),
        ).1);
    }
    while i < n
        invariant
            i <= n,
            n == attrs@.len(),
            full == spec_scan(attrs@, root@, Seq::empty()),
            d0 == diag_views(old(cx).errors@),
            diag_views(cx.errors@) == d0 + done,
            full.0 == spec_scan(attrs@.subrange(i as int, n as int), root@, all.deep()).0,
            full.1 == done + spec_scan(attrs@.subrange(i as int, n as int), root@, all.deep()).1,
        decreases n - i,
    {
        let ghost suffix = attrs@.subrange(i as int, n as int);
        proof {
            assert(suffix[0] == attrs@[i as int]);
            assert(suffix.subrange(1, suffix.len() as int) =~= attrs@.subrange(
                i + 1 as int,
                n as int,
            ));
        }
        let a = &attrs[i];
        if root.matches(&a.path) && a.tokens.len() > 0 {
            let ghost acc_before = all.deep();
            let ghost p = spec_payload(attrs@[i as int]);
            let ghost m = spec_merge_map(acc_before, p.0, a.span as int);
            let mut scope = AttrMap::new();
            let _end = parse_list(&a.tokens, 0, a.span, &mut scope, cx);
            merge_map(cx, scope, &mut all, a.span);
            proof {
                let done0 = done;
                done = done + (p.1 + m.1);
                assert((d0 + done0) + p.1 + m.1 =~= d0 + (done0 + (p.1 + m.1)));
                let r = spec_scan(attrs@.subrange(i + 1 as int, n as int), root@, all.deep());
                assert(done0 + ((p.1 + m.1) + r.1) =~= (done0 + (p.1 + m.1)) + r.1);
                assert(p.1 + m.1 + r.1 =~= (p.1 + m.1) + r.1);
            }
        } else {
            proof {
                assert(!spec_is_processed(attrs@[i as int], root@));
            }
        }
        i += 1;
    }
    proof {
        assert(attrs@.subrange(n as int, n as int) =~= Seq::<RawAttr>::empty());
        assert(done + Seq::<SpecDiag>::empty() =~= done);
    }
    all
}

/// Whether the walked attribute list carries the forward-compatibility
/// sentinel `non_exhaustive` under a path other than `root`. The presence is
/// recorded as a boolean on the walk, never surfaced in an attribute map.
pub fn has_sentinel(attrs: &Vec<RawAttr>, root: &Symbol) -> (r: bool)
    ensures
        r == spec_has_sentinel(attrs@, root@),
{
    let sentinel: String = "non_exhaustive".to_owned();
    let n = attrs.len();
    let mut i: usize = 0;
    while i < n
        invariant
            i <= n,
            n == attrs@.len(),
            sentinel@ == "non_exhaustive"@,
            forall|j: int| 0 <= j < i ==> !spec_is_sentinel(#[trigger] attrs@[j], root@),
        decreases n - i,
    {
        let a = &attrs[i];
        if !root.matches(&a.path) && a.path == sentinel && a.tokens.len() == 0 {
            proof {
                assert(spec_is_sentinel(attrs@[i as int], root@));
            }
            return true;
        }
        i += 1;
    }
    false
}

/// The structural style of a field list, from arity and naming alone:
/// exactly one unnamed field is a newtype, two or more unnamed fields are a
/// tuple, and no fields at all — a unit field list or an empty unnamed one —
/// is a unit. A named field list makes a struct shape whatever its length:
/// an empty braced list still declares named-field syntax.
pub open spec fn spec_style(fields: RawFields) -> Style {
    match fields {
        RawFields::Named(_) => Style::Struct,
        RawFields::Unnamed(fs) => if fs@.len() == 1 {
            Style::Newtype
        } else if fs@.len() == 0 {
            Style::Unit
        } else {
            Style::Tuple
        },
        RawFields::Unit => Style::Unit,
    }
}

/// The members of a field list, named or unnamed alike.
pub open spec fn spec_raw_fields_list(fields: RawFields) -> Seq<RawField> {
    match fields {
        RawFields::Named(fs) => fs@,
        RawFields::Unnamed(fs) => fs@,
        RawFields::Unit => Seq::empty(),
    }
}

/// How a resolved [`Field`] relates to the raw member it came from: the
/// member reference is its name, or its position `i`; its attribute map is
/// the scan of its own raw attributes; the handles pass through.
pub open spec fn spec_field_ok(out: Field, f: RawField, i: int, root: Seq<char>) -> bool {
    &&& (match (out.member, f.ident) {
        (Member::Named(n), Some(s)) => n@ == s@,
        (Member::Unnamed(j), None) => j == i,
        _ => false,
    })
    &&& out.attrs.deep() == spec_scan(f.attrs@, root, Seq::empty()).0
    &&& out.ty == f.ty
    &&& out.original == f.span
}

/// The events that resolving a list of fields records, in field order.
pub open spec fn spec_fields_errs(fs: Seq<RawField>, root: Seq<char>) -> Seq<SpecDiag>
    decreases fs.len(),
{
    if fs.len() == 0 {
        Seq::empty()
    } else {
        spec_scan(fs[0].attrs@, root, Seq::empty()).1 + spec_fields_errs(
            fs.subrange(1, fs.len() as int),
            root,
        )
    }
}

/// Resolves the attributes of one field under `root`; errors go to `cx`.
pub fn filed_from_ast(cx: &mut Ctxt, _index: usize, field: &RawField, root: &Symbol) -> (r: AttrMap)
    ensures
        r.deep() == spec_scan(field.attrs@, root@, Seq::empty()).0,
        diag_views(final (cx).errors@) == diag_views(old(cx).errors@) + spec_scan(
            field.attrs@,
            root@,
            Seq::empty(),
        ).1,
{
    parse_attrs(cx, &field.attrs, root)
}

/// Resolves the attributes of one enum variant under `root`; errors go to `cx`.
pub fn variant_from_ast(cx: &mut Ctxt, variant: &RawVariant, root: &Symbol) -> (r: AttrMap)
    ensures
        r.deep() == spec_scan(variant.attrs@, root@, Seq::empty()).0,
        diag_views(final (cx).errors@) == diag_views(old(cx).errors@) + spec_scan(
            variant.attrs@,
            root@,
            Seq::empty(),
        ).1,
{
    parse_attrs(cx, &variant.attrs, root)
}

/// Resolves every field of a list: member reference, attribute map under
/// `root`, and the pass-through handles, in order.
pub fn fields_from_ast(cx: &mut Ctxt, fields: &Vec<RawField>, root: &Symbol) -> (r: Vec<Field>)
    ensures
        r@.len() == fields@.len(),
        forall|i: int|
            0 <= i < fields@.len() ==> spec_field_ok(#[trigger] r@[i], fields@[i], i, root@),
        diag_views(final (cx).errors@) == diag_views(old(cx).errors@) + spec_fields_errs(
            fields@,
            root@,
        ),
{
    let ghost d0 = diag_views(old(cx).errors@);
    let mut out: Vec<Field> = Vec::new();
    let ghost mut done: Seq<SpecDiag> = Seq::empty();
    let n = fields.len();
    let mut i: usize = 0;
    proof {
        assert(d0 =~= d0 + done);
        assert(fields@.subrange(0, n as int) =~= fields@);
        assert(done + spec_fields_errs(fields@, root@) =~= spec_fields_errs(fields@, root@));
    }
    while i < n
        invariant
            i <= n,
            n == fields@.len(),
            out@.len() == i,
            d0 == diag_views(old(cx).errors@),
            diag_views(cx.errors@) == d0 + done,
            forall|j: int| 0 <= j < i ==> spec_field_ok(#[trigger] out@[j], fields@[j], j, root@),
            spec_fields_errs(fields@, root@) == done + spec_fields_errs(
                fields@.subrange(i as int, n as int),
                root@,
            ),
        decreases n - i,
    {
        let ghost suffix = fields@.subrange(i as int, n as int);
        proof {
            assert(suffix[0] == fields@[i as int]);
            assert(suffix.subrange(1, suffix.len() as int) =~= fields@.subrange(
                i + 1 as int,
                n as int,
            ));
        }
        let f = &fields[i];
        let attrs = filed_from_ast(cx, i, f, root);
        let member = match &f.ident {
            Some(s) => Member::Named(s.clone()),
            None => Member::Unnamed(i),
        };
        let resolved = Field { member, attrs, ty: f.ty, original: f.span };
        out.push(resolved);
        proof {
            let step = spec_scan(fields@[i as int].attrs@, root@, Seq::empty()).1;
            let done0 = done;
            done = done + step;
            assert((d0 + done0) + step =~= d0 + (done0 + step));
            let tail = spec_fields_errs(fields@.subrange(i + 1 as int, n as int), root@);
            assert(done0 + (step + tail) =~= (done0 + step) + tail);
        }
        i += 1;
    }
    proof {
        assert(fields@.subrange(n as int, n as int) =~= Seq::<RawField>::empty());
        assert(done + Seq::<SpecDiag>::empty() =~= done);
    }
    out
}

/// Resolves a struct's (or one variant's) field list: its style and its
/// fields, each with its own attribute map under `root`.
pub fn struct_from_ast(cx: &mut Ctxt, fields: &RawFields, root: &Symbol) -> (r: (Style, Vec<Field>))
    ensures
        r.0 == spec_style(*fields),
        r.1@.len() == spec_raw_fields_list(*fields).len(),
        forall|i: int|
            0 <= i < r.1@.len() ==> spec_field_ok(
                #[trigger] r.1@[i],
                spec_raw_fields_list(*fields)[i],
                i,
                root@,
            ),
        diag_views(final (cx).errors@) == diag_views(old(cx).errors@) + spec_fields_errs(
            spec_raw_fields_list(*fields),
            root@,
        ),
{
    match fields {
        RawFields::Named(fs) => (Style::Struct, fields_from_ast(cx, fs, root)),
        RawFields::Unnamed(fs) => {
            let style = if fs.len() == 1 {
                Style::Newtype
            } else if fs.len() == 0 {
                Style::Unit
            } else {
                Style::Tuple
            };
            (style, fields_from_ast(cx, fs, root))
        },
        RawFields::Unit => {
            proof {
                assert(diag_views(cx.errors@) =~= diag_views(cx.errors@) + Seq::<
                    SpecDiag,
                >::empty());
            }
            (Style::Unit, Vec::new())
        },
    }
}

/// How a resolved [`Variant`] relates to the raw variant it came from.
pub open spec fn spec_variant_ok(out: Variant, v: RawVariant, root: Seq<char>) -> bool {
    &&& out.ident@ == v.ident@
    &&& out.attrs.deep() == spec_scan(v.attrs@, root, Seq::empty()).0
    &&& out.style == spec_style(v.fields)
    &&& out.fields@.len() == spec_raw_fields_list(v.fields).len()
    &&& (forall|i: int|
        0 <= i < out.fields@.len() ==> spec_field_ok(
            #[trigger] out.fields@[i],
            spec_raw_fields_list(v.fields)[i],
            i,
            root,
        ))
    &&& out.original == v.span
}

/// The events that resolving one variant records: first its own attributes,
/// then its fields in order.
pub open spec fn spec_variant_errs(v: RawVariant, root: Seq<char>) -> Seq<SpecDiag> {
    spec_scan(v.attrs@, root, Seq::empty()).1 + spec_fields_errs(
        spec_raw_fields_list(v.fields),
        root,
    )
}

/// The events that resolving a list of variants records, in variant order.
pub open spec fn spec_variants_errs(vs: Seq<RawVariant>, root: Seq<char>) -> Seq<SpecDiag>
    decreases vs.len(),
{
    if vs.len() == 0 {
        Seq::empty()
    } else {
        spec_variant_errs(vs[0], root) + spec_variants_errs(vs.subrange(1, vs.len() as int), root)
    }
}

/// Resolves every variant of an enum: its own attributes first, then its
/// fields, the same way a struct's fields are resolved.
pub fn enum_from_ast(cx: &mut Ctxt, variants: &Vec<RawVariant>, root: &Symbol) -> (r: Vec<Variant>)
    ensures
        r@.len() == variants@.len(),
        forall|i: int|
            0 <= i < variants@.len() ==> spec_variant_ok(#[trigger] r@[i], variants@[i], root@),
        diag_views(final (cx).errors@) == diag_views(old(cx).errors@) + spec_variants_errs(
            variants@,
            root@,
        ),
{
    let ghost d0 = diag_views(old(cx).errors@);
    let mut out: Vec<Variant> = Vec::new();
    let ghost mut done: Seq<SpecDiag> = Seq::empty();
    let n = variants.len();
    let mut i: usize = 0;
    proof {
        assert(d0 =~= d0 + done);
        assert(variants@.subrange(0, n as int) =~= variants@);
        assert(done + spec_variants_errs(variants@, root@) =~= spec_variants_errs(
            variants@,
            root@,
        ));
    }
    while i < n
        invariant
            i <= n,
            n == variants@.len(),
            out@.len() == i,
            d0 == diag_views(old(cx).errors@),
            diag_views(cx.errors@) == d0 + done,
            forall|j: int| 0 <= j < i ==> spec_variant_ok(#[trigger] out@[j], variants@[j], root@),
            spec_variants_errs(variants@, root@) == done + spec_variants_errs(
                variants@.subrange(i as int, n as int),
                root@,
            ),
        decreases n - i,
    {
        let ghost suffix = variants@.subrange(i as int, n as int);
        proof {
            assert(suffix[0] == variants@[i as int]);
            assert(suffix.subrange(1, suffix.len() as int) =~= variants@.subrange(
                i + 1 as int,
                n as int,
            ));
        }
        let v = &variants[i];
        let ghost e_before = diag_views(cx.errors@);
        let attrs = variant_from_ast(cx, v, root);
        let (style, fs) = struct_from_ast(cx, &v.fields, root);
        let resolved = Variant { ident: v.ident.clone(), attrs, style, fields: fs, original: v.span };
        out.push(resolved);
        proof {
            let e1 = spec_scan(variants@[i as int].attrs@, root@, Seq::empty()).1;
            let e2 = spec_fields_errs(spec_raw_fields_list(variants@[i as int].fields), root@);
            let step = spec_variant_errs(variants@[i as int], root@);
            let done0 = done;
            done = done + step;
            assert(step == e1 + e2);
            assert((d0 + done0) + e1 + e2 =~= d0 + (done0 + (e1 + e2)));
            let tail = spec_variants_errs(variants@.subrange(i + 1 as int, n as int), root@);
            assert(done0 + (step + tail) =~= (done0 + step) + tail);
        }
        i += 1;
    }
    proof {
        assert(variants@.subrange(n as int, n as int) =~= Seq::<RawVariant>::empty());
        assert(done + Seq::<SpecDiag>::empty() =~= done);
    }
    out
}

/// The events that resolving a declaration's contents records: per field or
/// per variant in order, or one unsupported-shape event for anything that is
/// neither a struct nor an enum.
pub open spec fn spec_data_errs(data: RawData, root: Seq<char>, span: int) -> Seq<SpecDiag> {
    match data {
        RawData::Struct(rf) => spec_fields_errs(spec_raw_fields_list(rf), root),
        RawData::Enum(vs) => spec_variants_errs(vs@, root),
        RawData::Union => seq![
            SpecDiag { kind: ErrKind::UnsupportedShape, key: Seq::empty(), span },
        ],
    }
}

/// How resolved contents relate to the raw declaration: a struct resolves to
/// its style and fields, an enum to its variants, and anything else to no
/// contents at all.
pub open spec fn spec_data_ok(out: Option<Data>, data: RawData, root: Seq<char>) -> bool {
    match (out, data) {
        (Some(Data::Struct(st, fs)), RawData::Struct(rf)) => {
            &&& st == spec_style(rf)
            &&& fs@.len() == spec_raw_fields_list(rf).len()
            &&& (forall|i: int|
                0 <= i < fs@.len() ==> spec_field_ok(
                    #[trigger] fs@[i],
                    spec_raw_fields_list(rf)[i],
                    i,
                    root,
                ))
        },
        (Some(Data::Enum(ovs)), RawData::Enum(vs)) => {
            &&& ovs@.len() == vs@.len()
            &&& (forall|i: int|
                0 <= i < vs@.len() ==> spec_variant_ok(#[trigger] ovs@[i], vs@[i], root))
        },
        (None, RawData::Union) => true,
        _ => false,
    }
}

/// Resolves the contents of a declaration under `root`. A declaration that is
/// neither a struct nor an enum records one unsupported-shape error and
/// yields no contents.
fn data_from_ast(cx: &mut Ctxt, input: &RawInput, root: &Symbol) -> (r: Option<Data>)
    ensures
        spec_data_ok(r, input.data, root@),
        (r is Some) <==> !(input.data is Union),
        diag_views(final (cx).errors@) == diag_views(old(cx).errors@) + spec_data_errs(
            input.data,
            root@,
            input.span as int,
        ),
{
    let ghost d0 = diag_views(old(cx).errors@);
    match &input.data {
        RawData::Enum(vs) => Some(Data::Enum(enum_from_ast(cx, vs, root))),
        RawData::Struct(rf) => {
            let (style, fs) = struct_from_ast(cx, rf, root);
            Some(Data::Struct(style, fs))
        },
        RawData::Union => {
            let d = Diag {
                kind: ErrKind::UnsupportedShape,
                key: String::new(),
                span: input.span,
            };
            let ghost gdiag = d;
            let ghost before = cx.errors@;
            cx.error(d);
            proof {
                crate::ctxt::lemma_diag_views_push(before, gdiag);
                assert(diag_views(cx.errors@) =~= d0 + seq![
                    SpecDiag {
                        kind: ErrKind::UnsupportedShape,
                        key: Seq::empty(),
                        span: input.span as int,
                    },
                ]);
            }
            None
        },
    }
}

/// How a [`Container`] relates to the declaration it was assembled from.
pub open spec fn spec_container_ok(c: Container, input: RawInput, root: Seq<char>) -> bool {
    &&& c.ident@ == input.ident@
    &&& c.attrs.deep() == spec_scan(input.attrs@, root, Seq::empty()).0
    &&& spec_data_ok(Some(c.data), input.data, root)
    &&& c.generics == input.generics
    &&& c.original == input.span
}

/// The events one whole parse of a declaration records: its own attributes
/// first, then its contents.
pub open spec fn spec_input_errs(input: RawInput, root: Seq<char>) -> Seq<SpecDiag> {
    spec_scan(input.attrs@, root, Seq::empty()).1 + spec_data_errs(
        input.data,
        root,
        input.span as int,
    )
}

/// Parses one whole declaration under the symbol `root` into a [`Container`]:
/// the declaration's own attribute map plus its resolved contents. Exactly
/// the declarations that are neither structs nor enums fail, with a
/// missing-data error returned directly (the unsupported shape is recorded in
/// `cx` besides); every non-fatal error is recorded in `cx` and parsing
/// continues past it.
pub fn from_ast(cx: &mut Ctxt, input: &RawInput, root: &Symbol) -> (r: Result<Container, Diag>)
    ensures
        (r is Ok) <==> !(input.data is Union),
        r matches Ok(c) ==> spec_container_ok(c, *input, root@),
        r matches Err(d) ==> d@ == (SpecDiag {
            kind: ErrKind::MissingData,
            key: Seq::empty(),
            span: input.span as int,
        }),
        diag_views(final (cx).errors@) == diag_views(old(cx).errors@) + spec_input_errs(
            *input,
            root@,
        ),
{
    let ghost d0 = diag_views(old(cx).errors@);
    let attrs = parse_attrs(cx, &input.attrs, root);
    let ghost e1 = spec_scan(input.attrs@, root@, Seq::empty()).1;
    let data = data_from_ast(cx, input, root);
    proof {
        let e2 = spec_data_errs(input.data, root@, input.span as int);
        assert((d0 + e1) + e2 =~= d0 + (e1 + e2));
    }
    match data {
        Some(data) => Ok(
            Container {
                ident: input.ident.clone(),
                attrs,
                data,
                generics: input.generics,
                original: input.span,
            },
        ),
        None => Err(Diag { kind: ErrKind::MissingData, key: String::new(), span: input.span }),
    }
}

/// Like [`from_ast`], and besides the container reports whether the walk saw
/// the forward-compatibility sentinel (`non_exhaustive` under a foreign path)
/// among the declaration's attributes.
pub fn root_from_ast(cx: &mut Ctxt, input: &RawInput, root: &Symbol) -> (r: Result<
    (Container, bool),
    Diag,
>)
    ensures
        (r is Ok) <==> !(input.data is Union),
        r matches Ok(p) ==> spec_container_ok(p.0, *input, root@) && p.1 == spec_has_sentinel(
            input.attrs@,
            root@,
        ),
        r matches Err(d) ==> d@ == (SpecDiag {
            kind: ErrKind::MissingData,
            key: Seq::empty(),
            span: input.span as int,
        }),
        diag_views(final (cx).errors@) == diag_views(old(cx).errors@) + spec_input_errs(
            *input,
            root@,
        ),
{
    let non_exhaustive = has_sentinel(&input.attrs, root);
    match from_ast(cx, input, root) {
        Ok(container) => Ok((container, non_exhaustive)),
        Err(d) => Err(d),
    }
}

} // verus!
