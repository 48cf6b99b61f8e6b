//! Laws of the parser and of the diagnostics context, each proved once and
//! for all inputs: what one assignment parses to, how repeated keys fold, how
//! foreign attributes are ignored, and what a finalized check surfaces.

use vstd::prelude::*;

use crate::ast::SpecVal;
use crate::ctxt::spec_combined;
use crate::ctxt::Diag;
use crate::ctxt::ErrKind;
use crate::ctxt::SpecDiag;
use crate::parse::spec_item;
use crate::parse::spec_list;
use crate::parse::spec_merge_map;
use crate::parse::wf_map;
use crate::parse::lemma_list_wf;
use crate::parse::lemma_merge_map_wf;
use crate::parse::SpecMap;
use crate::tokens::RawAttr;
use crate::tokens::Tok;
use crate::walk::spec_is_processed;
use crate::walk::spec_payload;
use crate::walk::spec_scan;

verus! {

/// For every identifier `k` and every string `v` (the empty one included),
/// parsing `k = "v"` — or `k : "v"` — yields `Str(v)` under the key `k`, with
/// no event recorded.
pub proof fn lemma_assignment_yields_str(k: String, v: String, colon: bool, span: int)
    ensures
        ({
            let sep: Tok = if colon {
                Tok::Colon
            } else {
                Tok::Eq
            };
            let toks = seq![Tok::Ident(k), sep, Tok::StrLit(v)];
            let g = spec_list(toks, 0, span, Seq::empty());
            &&& g.0 == seq![(k@, SpecVal::Str(v@))]
            &&& g.1 == Seq::<SpecDiag>::empty()
            &&& g.2 == 3
        }),
{
    let sep: Tok = if colon {
        Tok::Colon
    } else {
        Tok::Eq
    };
    let toks = seq![Tok::Ident(k), sep, Tok::StrLit(v)];
    let gi = spec_item(toks, 0, span);
    assert(gi.0 == Some((k@, SpecVal::Str(v@))) && gi.1 == Seq::<SpecDiag>::empty() && gi.2 == 3);
    let g = spec_list(toks, 0, span, Seq::empty());
    assert(g.0 =~= seq![(k@, SpecVal::Str(v@))]);
    assert(g.1 =~= Seq::<SpecDiag>::empty());
}

/// For distinct inner keys `a` and `b`, parsing `k(a = "va", b = "vb")`
/// yields under `k` a mapping holding exactly `a -> Str(va)` and
/// `b -> Str(vb)`, in that order, with no event recorded.
pub proof fn lemma_group_yields_mapping(
    k: String,
    a: String,
    va: String,
    b: String,
    vb: String,
    span: int,
)
    requires
        a@ != b@,
    ensures
        ({
            let toks = seq![
                Tok::Ident(k),
                Tok::OpenParen,
                Tok::Ident(a),
                Tok::Eq,
                Tok::StrLit(va),
                Tok::Comma,
                Tok::Ident(b),
                Tok::Eq,
                Tok::StrLit(vb),
                Tok::CloseParen,
            ];
            let g = spec_list(toks, 0, span, Seq::empty());
            &&& g.0 == seq![
                (k@, SpecVal::Mapping(seq![(a@, SpecVal::Str(va@)), (b@, SpecVal::Str(vb@))])),
            ]
            &&& g.1 == Seq::<SpecDiag>::empty()
            &&& g.2 == 10
        }),
{
    let toks = seq![
        Tok::Ident(k),
        Tok::OpenParen,
        Tok::Ident(a),
        Tok::Eq,
        Tok::StrLit(va),
        Tok::Comma,
        Tok::Ident(b),
        Tok::Eq,
        Tok::StrLit(vb),
        Tok::CloseParen,
    ];
    // The second inner item, `b = "vb"`, parsed from the scope already
    // holding `a`.
    let acc_a: SpecMap = seq![(a@, SpecVal::Str(va@))];
    let gib = spec_item(toks, 6, span);
    assert(gib.0 == Some((b@, SpecVal::Str(vb@))) && gib.1 == Seq::<SpecDiag>::empty() && gib.2
        == 9);
    let glb = spec_list(toks, 6, span, acc_a);
    assert(acc_a[0].0 == a@);
    assert(acc_a.subrange(1, 1) =~= Seq::<(Seq<char>, SpecVal)>::empty());
    assert(crate::parse::spec_find(acc_a.subrange(1, 1), b@) == -1);
    assert(crate::parse::spec_find(acc_a, b@) == -1);
    assert(glb.0 =~= seq![(a@, SpecVal::Str(va@)), (b@, SpecVal::Str(vb@))]);
    assert(glb.1 =~= Seq::<SpecDiag>::empty());
    assert(glb.2 == 9);
    // The first inner item, `a = "va"`, from the empty scope.
    let gia = spec_item(toks, 2, span);
    assert(gia.0 == Some((a@, SpecVal::Str(va@))) && gia.1 == Seq::<SpecDiag>::empty() && gia.2
        == 5);
    let gla = spec_list(toks, 2, span, Seq::empty());
    assert(spec_list(toks, 6, span, Seq::empty().push((a@, SpecVal::Str(va@)))) == glb);
    assert(gla.0 =~= glb.0);
    assert(gla.1 =~= Seq::<SpecDiag>::empty());
    assert(gla.2 == 9);
    // The outer item `k( ... )` wraps that scope as a mapping.
    let gi = spec_item(toks, 0, span);
    assert(gi.0 == Some((k@, SpecVal::Mapping(gla.0))) && gi.2 == 10);
    assert(gi.1 =~= Seq::<SpecDiag>::empty());
    let g = spec_list(toks, 0, span, Seq::empty());
    assert(g.0 =~= seq![(k@, SpecVal::Mapping(gla.0))]);
    assert(g.1 =~= Seq::<SpecDiag>::empty());
}

/// Repeating a key, as in `x = "v1", x = "v2"`, folds the two values into
/// `List([Str(v1), Str(v2)])` — first occurrence first — and records exactly
/// one duplicate-key event.
pub proof fn lemma_duplicate_twice(x: String, v1: String, v2: String, span: int)
    ensures
        ({
            let toks = seq![
                Tok::Ident(x),
                Tok::Eq,
                Tok::StrLit(v1),
                Tok::Comma,
                Tok::Ident(x),
                Tok::Eq,
                Tok::StrLit(v2),
            ];
            let g = spec_list(toks, 0, span, Seq::empty());
            &&& g.0 == seq![
                (x@, SpecVal::List(seq![SpecVal::Str(v1@), SpecVal::Str(v2@)])),
            ]
            &&& g.1 == seq![SpecDiag { kind: ErrKind::DuplicateKey, key: x@, span }]
            &&& g.2 == 7
        }),
{
    let toks = seq![
        Tok::Ident(x),
        Tok::Eq,
        Tok::StrLit(v1),
        Tok::Comma,
        Tok::Ident(x),
        Tok::Eq,
        Tok::StrLit(v2),
    ];
    let acc1: SpecMap = seq![(x@, SpecVal::Str(v1@))];
    let gi2 = spec_item(toks, 4, span);
    assert(gi2.0 == Some((x@, SpecVal::Str(v2@))) && gi2.1 == Seq::<SpecDiag>::empty() && gi2.2
        == 7);
    let gl2 = spec_list(toks, 4, span, acc1);
    assert(acc1[0].0 == x@);
    assert(gl2.0 =~= seq![(x@, SpecVal::List(seq![SpecVal::Str(v1@), SpecVal::Str(v2@)]))]);
    assert(gl2.1 =~= seq![SpecDiag { kind: ErrKind::DuplicateKey, key: x@, span }]);
    let gi1 = spec_item(toks, 0, span);
    assert(gi1.0 == Some((x@, SpecVal::Str(v1@))) && gi1.1 == Seq::<SpecDiag>::empty() && gi1.2
        == 3);
    let g = spec_list(toks, 0, span, Seq::empty());
    assert(spec_list(toks, 4, span, Seq::empty().push((x@, SpecVal::Str(v1@)))) == gl2) by {
        assert(Seq::empty().push((x@, SpecVal::Str(v1@))) =~= acc1);
    }
    assert(g.0 == gl2.0);
    assert(g.1 =~= seq![SpecDiag { kind: ErrKind::DuplicateKey, key: x@, span }]);
}

/// Repeating a key three times yields a list of length three, appending in
/// encounter order, and records one duplicate-key event per repetition.
pub proof fn lemma_duplicate_thrice(x: String, v1: String, v2: String, v3: String, span: int)
    ensures
        ({
            let toks = seq![
                Tok::Ident(x),
                Tok::Eq,
                Tok::StrLit(v1),
                Tok::Comma,
                Tok::Ident(x),
                Tok::Eq,
                Tok::StrLit(v2),
                Tok::Comma,
                Tok::Ident(x),
                Tok::Eq,
                Tok::StrLit(v3),
            ];
            let g = spec_list(toks, 0, span, Seq::empty());
            &&& g.0 == seq![
                (
                    x@,
                    SpecVal::List(
                        seq![SpecVal::Str(v1@), SpecVal::Str(v2@), SpecVal::Str(v3@)],
                    ),
                ),
            ]
            &&& g.1 == seq![
                SpecDiag { kind: ErrKind::DuplicateKey, key: x@, span },
                SpecDiag { kind: ErrKind::DuplicateKey, key: x@, span },
            ]
            &&& g.2 == 11
        }),
{
    let toks = seq![
        Tok::Ident(x),
        Tok::Eq,
        Tok::StrLit(v1),
        Tok::Comma,
        Tok::Ident(x),
        Tok::Eq,
        Tok::StrLit(v2),
        Tok::Comma,
        Tok::Ident(x),
        Tok::Eq,
        Tok::StrLit(v3),
    ];
    let acc2: SpecMap = seq![(x@, SpecVal::List(seq![SpecVal::Str(v1@), SpecVal::Str(v2@)]))];
    let gi3 = spec_item(toks, 8, span);
    assert(gi3.0 == Some((x@, SpecVal::Str(v3@))) && gi3.1 == Seq::<SpecDiag>::empty() && gi3.2
        == 11);
    let gl3 = spec_list(toks, 8, span, acc2);
    assert(acc2[0].0 == x@);
    assert(gl3.0 =~= seq![
        (x@, SpecVal::List(seq![SpecVal::Str(v1@), SpecVal::Str(v2@), SpecVal::Str(v3@)])),
    ]) by {
        assert(seq![SpecVal::Str(v1@), SpecVal::Str(v2@)].push(SpecVal::Str(v3@)) =~= seq![
            SpecVal::Str(v1@),
            SpecVal::Str(v2@),
            SpecVal::Str(v3@),
        ]);
    }
    assert(gl3.1 =~= seq![SpecDiag { kind: ErrKind::DuplicateKey, key: x@, span }]);
    let acc1: SpecMap = seq![(x@, SpecVal::Str(v1@))];
    let gi2 = spec_item(toks, 4, span);
    assert(gi2.0 == Some((x@, SpecVal::Str(v2@))) && gi2.1 == Seq::<SpecDiag>::empty() && gi2.2
        == 7);
    let gl2 = spec_list(toks, 4, span, acc1);
    assert(acc1[0].0 == x@);
    assert(spec_list(toks, 8, span, acc1.update(0, (x@, SpecVal::List(seq![SpecVal::Str(v1@), SpecVal::Str(v2@)])))) == gl3) by {
        assert(acc1.update(0, (x@, SpecVal::List(seq![SpecVal::Str(v1@), SpecVal::Str(v2@)])))
            =~= acc2);
    }
    assert(gl2.0 == gl3.0);
    assert(gl2.1 =~= seq![
        SpecDiag { kind: ErrKind::DuplicateKey, key: x@, span },
        SpecDiag { kind: ErrKind::DuplicateKey, key: x@, span },
    ]);
    let gi1 = spec_item(toks, 0, span);
    assert(gi1.0 == Some((x@, SpecVal::Str(v1@))) && gi1.1 == Seq::<SpecDiag>::empty() && gi1.2
        == 3);
    let g = spec_list(toks, 0, span, Seq::empty());
    assert(spec_list(toks, 4, span, Seq::empty().push((x@, SpecVal::Str(v1@)))) == gl2) by {
        assert(Seq::empty().push((x@, SpecVal::Str(v1@))) =~= acc1);
    }
    assert(g.0 == gl2.0);
    assert(g.1 =~= gl2.1);
}

/// A bare key with no following token yields `Empty` under that key, with no
/// event recorded.
pub proof fn lemma_bare_key_yields_empty(k: String, span: int)
    ensures
        ({
            let toks = seq![Tok::Ident(k)];
            let g = spec_list(toks, 0, span, Seq::empty());
            &&& g.0 == seq![(k@, SpecVal::Empty)]
            &&& g.1 == Seq::<SpecDiag>::empty()
            &&& g.2 == 1
        }),
{
    let toks = seq![Tok::Ident(k)];
    let gi = spec_item(toks, 0, span);
    assert(gi.0 == Some((k@, SpecVal::Empty)) && gi.1 == Seq::<SpecDiag>::empty() && gi.2 == 1);
    let g = spec_list(toks, 0, span, Seq::empty());
    assert(g.0 =~= seq![(k@, SpecVal::Empty)]);
    assert(g.1 =~= Seq::<SpecDiag>::empty());
}

/// A value that is not a string literal, e.g. `n = 10`, degrades to
/// `Str("")` under its key and records exactly one malformed-value event;
/// parsing does not abort. Parsing is a pure function of the tokens, so
/// re-parsing the same malformed text yields the same degraded result and
/// the same single event.
pub proof fn lemma_malformed_value(k: String, lit: String, span: int)
    ensures
        ({
            let toks = seq![Tok::Ident(k), Tok::Eq, Tok::Other(lit)];
            let g = spec_list(toks, 0, span, Seq::empty());
            &&& g.0 == seq![(k@, SpecVal::Str(Seq::empty()))]
            &&& g.1 == seq![SpecDiag { kind: ErrKind::MalformedValue, key: k@, span }]
            &&& g.2 == 3
        }),
{
    let toks = seq![Tok::Ident(k), Tok::Eq, Tok::Other(lit)];
    assert(crate::parse::spec_skip(toks, 3, 0) == 3);
    assert(crate::parse::spec_skip(toks, 2, 0) == 3);
    let gi = spec_item(toks, 0, span);
    assert(gi.0 == Some((k@, SpecVal::Str(Seq::empty()))) && gi.2 == 3);
    assert(gi.1 =~= seq![SpecDiag { kind: ErrKind::MalformedValue, key: k@, span }]);
    let g = spec_list(toks, 0, span, Seq::empty());
    assert(g.0 =~= seq![(k@, SpecVal::Str(Seq::empty()))]);
    assert(g.1 =~= seq![SpecDiag { kind: ErrKind::MalformedValue, key: k@, span }]);
}

/// A single parsed occurrence is never a `List`: lists arise only from the
/// key merger folding repeated keys.
pub proof fn lemma_item_never_yields_list(toks: Seq<Tok>, pos: int, span: int)
    ensures
        spec_item(toks, pos, span).0 matches Some(kv) ==> !(kv.1 is List),
{
}

/// The combined message of a finalized check mentions every recorded error:
/// the `j`-th recorded message occurs contiguously inside it.
pub proof fn lemma_combined_mentions_every(ds: Seq<Diag>, j: int)
    requires
        0 <= j < ds.len(),
    ensures
        exists|off: int|
            0 <= off && off + ds[j].spec_message().len() <= spec_combined(ds).len()
                && #[trigger] spec_combined(ds).subrange(
                off,
                off + ds[j].spec_message().len() as int,
            ) == ds[j].spec_message(),
    decreases ds.len(),
{
    let msg = ds[j].spec_message();
    let whole = spec_combined(ds);
    if ds.len() == 1 {
        assert(whole == msg);
        assert(whole.subrange(0, msg.len() as int) =~= msg);
        assert(0 <= 0 && 0 + msg.len() <= whole.len() && whole.subrange(
            0,
            0 + msg.len() as int,
        ) == msg);
    } else {
        let m0 = ds[0].spec_message();
        let sep = "; "@;
        let rest = spec_combined(ds.subrange(1, ds.len() as int));
        assert(whole == m0 + sep + rest);
        if j == 0 {
            assert(whole.subrange(0, msg.len() as int) =~= msg);
            assert(0 <= 0 && 0 + msg.len() <= whole.len() && whole.subrange(
                0,
                0 + msg.len() as int,
            ) == msg);
        } else {
            let ds1 = ds.subrange(1, ds.len() as int);
            lemma_combined_mentions_every(ds1, j - 1);
            let off1 = choose|off1: int|
                0 <= off1 && off1 + ds1[j - 1].spec_message().len() <= rest.len()
                    && #[trigger] rest.subrange(
                    off1,
                    off1 + ds1[j - 1].spec_message().len() as int,
                ) == ds1[j - 1].spec_message();
            assert(ds1[j - 1] == ds[j]);
            let off = m0.len() + sep.len() + off1;
            assert(whole.subrange(off as int, off + msg.len() as int) =~= msg) by {
                assert(rest.subrange(off1, off1 + msg.len() as int) == msg);
                assert forall|t: int| 0 <= t < msg.len() implies whole[off + t] == msg[t] by {
                    assert(whole[off + t] == rest[off1 + t]);
                    assert(rest[off1 + t] == rest.subrange(off1, off1 + msg.len() as int)[t]);
                }
            }
            assert(0 <= off && off + msg.len() <= whole.len() && whole.subrange(
                off as int,
                off + msg.len() as int,
            ) == msg);
        }
    }
}

/// The attributes that a scan actually processes: those whose path matches
/// the symbol and whose payload is non-empty, in order.
pub open spec fn spec_processed_only(attrs: Seq<RawAttr>, root: Seq<char>) -> Seq<RawAttr>
    decreases attrs.len(),
{
    if attrs.len() == 0 {
        Seq::empty()
    } else {
        let rest = spec_processed_only(attrs.subrange(1, attrs.len() as int), root);
        if spec_is_processed(attrs[0], root) {
            seq![attrs[0]] + rest
        } else {
            rest
        }
    }
}

/// Attributes under a non-matching symbol are absent from the result entirely
/// and never recorded as errors: a scan equals the scan of only its matching
/// attributes.
pub proof fn lemma_scan_ignores_foreign(attrs: Seq<RawAttr>, root: Seq<char>, acc: SpecMap)
    ensures
        spec_scan(attrs, root, acc) == spec_scan(spec_processed_only(attrs, root), root, acc),
    decreases attrs.len(),
{
    if attrs.len() > 0 {
        let rest = attrs.subrange(1, attrs.len() as int);
        let kept = spec_processed_only(attrs, root);
        let kept_rest = spec_processed_only(rest, root);
        if spec_is_processed(attrs[0], root) {
            let p = spec_payload(attrs[0]);
            let m = spec_merge_map(acc, p.0, attrs[0].span as int);
            lemma_scan_ignores_foreign(rest, root, m.0);
            assert(kept == seq![attrs[0]] + kept_rest);
            assert(kept[0] == attrs[0]);
            assert(kept.subrange(1, kept.len() as int) =~= kept_rest);
        } else {
            lemma_scan_ignores_foreign(rest, root, acc);
        }
    }
}

/// When no attribute of the list matches the symbol, the scan returns its
/// accumulator unchanged and records nothing at all.
pub proof fn lemma_scan_all_foreign(attrs: Seq<RawAttr>, root: Seq<char>, acc: SpecMap)
    requires
        forall|i: int| 0 <= i < attrs.len() ==> (#[trigger] attrs[i]).path@ != root,
    ensures
        spec_scan(attrs, root, acc) == (acc, Seq::<SpecDiag>::empty()),
    decreases attrs.len(),
{
    if attrs.len() > 0 {
        lemma_scan_all_foreign(attrs.subrange(1, attrs.len() as int), root, acc);
    }
}

/// Every finalized attribute map is well formed: its keys are unique, and so
/// are the keys of every mapping nested anywhere inside its values —
/// duplicates at each scope have already been folded into a list. A scan from
/// a well-formed accumulator keeps it so, whatever the attributes hold.
pub proof fn lemma_scan_wf(attrs: Seq<RawAttr>, root: Seq<char>, acc: SpecMap)
    requires
        wf_map(acc),
    ensures
        wf_map(spec_scan(attrs, root, acc).0),
    decreases attrs.len(),
{
    if attrs.len() > 0 {
        let rest = attrs.subrange(1, attrs.len() as int);
        if spec_is_processed(attrs[0], root) {
            let p = spec_payload(attrs[0]);
            let m = spec_merge_map(acc, p.0, attrs[0].span as int);
            assert(wf_map(Seq::<(Seq<char>, SpecVal)>::empty()));
            lemma_list_wf(attrs[0].tokens@, 0, attrs[0].span as int, Seq::empty());
            lemma_merge_map_wf(acc, p.0, attrs[0].span as int);
            lemma_scan_wf(rest, root, m.0);
        } else {
            lemma_scan_wf(rest, root, acc);
        }
    }
}

} // verus!
