//! The nested-meta grammar parser and the key merger.
//!
//! The grammar of one attribute payload (the text between the attribute's
//! parentheses, tokenized by the host):
//!
//! ```text
//! nested_meta_list := nested_meta (',' nested_meta)*
//! nested_meta      := ident
//!                    | ident '=' string_literal
//!                    | ident ':' string_literal
//!                    | ident '(' nested_meta_list ')'
//! ```
//!
//! Parsing is lenient: a malformed item is recorded in the diagnostics
//! context and skipped, and parsing continues with the rest of the list.

use vstd::prelude::*;

use crate::ast::AttrEntry;
use crate::ast::AttrMap;
use crate::ast::SpecVal;
use crate::ctxt::diag_views;
use crate::ctxt::Ctxt;
use crate::ctxt::Diag;
use crate::ctxt::ErrKind;
use crate::ctxt::SpecDiag;
use crate::ast::deep_vals;
use crate::ast::Val;
use crate::tokens::Tok;

verus! {

/// The ghost mapping of one scope: keys in encounter order with their values.
pub type SpecMap = Seq<(Seq<char>, SpecVal)>;

/// Position of the next item separator at or after `pos`: the first comma or
/// closing paren at parenthesis depth zero (`toks.len()` if none).
pub open spec fn spec_skip(toks: Seq<Tok>, pos: int, depth: int) -> int
    decreases toks.len() - pos,
{
    if pos >= toks.len() {
        pos
    } else {
        match toks[pos] {
            Tok::Comma => if depth == 0 {
                pos
            } else {
                spec_skip(toks, pos + 1, depth)
            },
            Tok::CloseParen => if depth == 0 {
                pos
            } else {
                spec_skip(toks, pos + 1, depth - 1)
            },
            Tok::OpenParen => spec_skip(toks, pos + 1, depth + 1),
            _ => spec_skip(toks, pos + 1, depth),
        }
    }
}

pub proof fn lemma_skip_bounds(toks: Seq<Tok>, pos: int, depth: int)
    requires
        0 <= pos <= toks.len(),
    ensures
        pos <= spec_skip(toks, pos, depth) <= toks.len(),
    decreases toks.len() - pos,
{
    if pos < toks.len() {
        match toks[pos] {
            Tok::Comma => {
                if depth != 0 {
                    lemma_skip_bounds(toks, pos + 1, depth);
                }
            },
            Tok::CloseParen => {
                if depth != 0 {
                    lemma_skip_bounds(toks, pos + 1, depth - 1);
                }
            },
            Tok::OpenParen => {
                lemma_skip_bounds(toks, pos + 1, depth + 1);
            },
            _ => {
                lemma_skip_bounds(toks, pos + 1, depth);
            },
        }
    }
}

/// `raw` clamped into `[lo, hi]`. The parser's recursion positions always lie
/// in that range (see the bounds lemmas), so on reachable values the clamp
/// changes nothing; it only makes termination of the definitions evident.
pub open spec fn clamp_pos(lo: int, raw: int, hi: int) -> int {
    if raw < lo {
        lo
    } else if raw > hi {
        hi
    } else {
        raw
    }
}

/// Index of the first entry of `m` whose key is `k`, or `-1` if none.
pub open spec fn spec_find(m: SpecMap, k: Seq<char>) -> int
    decreases m,
{
    if m.len() == 0 {
        -1
    } else if m[0].0 == k {
        0
    } else {
        let r = spec_find(m.subrange(1, m.len() as int), k);
        if r < 0 {
            -1
        } else {
            r + 1
        }
    }
}

/// `spec_find` returns the least index holding `k`, or `-1` when `k` is absent.
pub proof fn lemma_find_char(m: SpecMap, k: Seq<char>)
    ensures
        spec_find(m, k) < 0 ==> forall|j: int| 0 <= j < m.len() ==> m[j].0 != k,
        spec_find(m, k) >= 0 ==> {
            let i = spec_find(m, k);
            &&& 0 <= i < m.len()
            &&& m[i].0 == k
            &&& forall|j: int| 0 <= j < i ==> m[j].0 != k
        },
    decreases m,
{
    if m.len() > 0 && m[0].0 != k {
        let rest = m.subrange(1, m.len() as int);
        lemma_find_char(rest, k);
        assert(forall|j: int| 1 <= j < m.len() ==> m[j] == rest[j - 1]);
    }
}

/// The binding of `k` in `m`, if any.
pub open spec fn spec_get(m: SpecMap, k: Seq<char>) -> Option<SpecVal> {
    if spec_find(m, k) >= 0 {
        Some(m[spec_find(m, k)].1)
    } else {
        None
    }
}

/// The value a key resolves to when it occurs again: an existing plain value
/// pairs with the new one in a two-element list, first occurrence first; an
/// existing list has the new value appended.
pub open spec fn spec_merged_val(existing: SpecVal, v: SpecVal) -> SpecVal {
    match existing {
        SpecVal::List(l) => SpecVal::List(l.push(v)),
        _ => SpecVal::List(seq![existing, v]),
    }
}

/// Merge one `key -> value` pair into a scope: a new key is appended; a
/// repeated key folds into a list and reports one duplicate-key event.
pub open spec fn spec_merge_one(m: SpecMap, k: Seq<char>, v: SpecVal, span: int) -> (SpecMap, Seq<
    SpecDiag,
>) {
    let i = spec_find(m, k);
    if i < 0 {
        (m.push((k, v)), Seq::empty())
    } else {
        (
            m.update(i, (k, spec_merged_val(m[i].1, v))),
            seq![SpecDiag { kind: ErrKind::DuplicateKey, key: k, span }],
        )
    }
}

/// Left fold of [`spec_merge_one`] over `from`, in order.
pub open spec fn spec_merge_map(to: SpecMap, from: SpecMap, span: int) -> (SpecMap, Seq<SpecDiag>)
    decreases from.len(),
{
    if from.len() == 0 {
        (to, Seq::empty())
    } else {
        let r1 = spec_merge_one(to, from[0].0, from[0].1, span);
        let r2 = spec_merge_map(r1.0, from.subrange(1, from.len() as int), span);
        (r2.0, r1.1 + r2.1)
    }
}

/// Every key occurs at most once.
pub open spec fn unique_keys(m: SpecMap) -> bool {
    forall|i: int, j: int| 0 <= i < j < m.len() ==> m[i].0 != m[j].0
}

/// A value is well formed when every mapping inside it, at any depth, has
/// unique keys.
pub open spec fn wf_val(v: SpecVal) -> bool
    decreases v,
{
    match v {
        SpecVal::Empty => true,
        SpecVal::Str(_) => true,
        SpecVal::Mapping(m) => unique_keys(m) && (forall|i: int|
            0 <= i < m.len() ==> wf_val((#[trigger] m[i]).1)),
        SpecVal::List(l) => forall|i: int| 0 <= i < l.len() ==> wf_val(#[trigger] l[i]),
    }
}

/// A scope is well formed when its keys are unique and every value in it is.
pub open spec fn wf_map(m: SpecMap) -> bool {
    unique_keys(m) && (forall|i: int| 0 <= i < m.len() ==> wf_val((#[trigger] m[i]).1))
}

/// Merging one well-formed value into a well-formed scope keeps the scope
/// well formed.
pub proof fn lemma_merge_one_wf(m: SpecMap, k: Seq<char>, v: SpecVal, span: int)
    requires
        wf_map(m),
        wf_val(v),
    ensures
        wf_map(spec_merge_one(m, k, v, span).0),
{
    lemma_find_char(m, k);
    let f = spec_find(m, k);
    let r = spec_merge_one(m, k, v, span).0;
    if f < 0 {
        assert forall|i: int, j: int| 0 <= i < j < r.len() implies r[i].0 != r[j].0 by {
            if j == m.len() {
                assert(m[i].0 != k);
            }
        }
        assert forall|i: int| 0 <= i < r.len() implies wf_val((#[trigger] r[i]).1) by {
            if i < m.len() {
                assert(wf_val(m[i].1));
            }
        }
    } else {
        let merged = spec_merged_val(m[f].1, v);
        assert(wf_val(merged)) by {
            assert(wf_val(m[f].1));
            match m[f].1 {
                SpecVal::List(l) => {
                    assert forall|i: int| 0 <= i < l.push(v).len() implies wf_val(
                        #[trigger] l.push(v)[i],
                    ) by {
                        if i < l.len() {
                            assert(l.push(v)[i] == l[i]);
                            assert(wf_val(l[i]));
                        } else {
                            assert(l.push(v)[i] == v);
                        }
                    }
                },
                _ => {
                    let pair = seq![m[f].1, v];
                    assert forall|i: int| 0 <= i < pair.len() implies wf_val(
                        #[trigger] pair[i],
                    ) by {
                        assert(pair[0] == m[f].1 && pair[1] == v);
                    }
                },
            }
        }
        assert(forall|i: int| 0 <= i < r.len() ==> (#[trigger] r[i]).0 == m[i].0);
        assert forall|i: int| 0 <= i < r.len() implies wf_val((#[trigger] r[i]).1) by {
            if i != f {
                assert(r[i] == m[i]);
                assert(wf_val(m[i].1));
            }
        }
    }
}

/// Folding a sequence of well-formed values into a well-formed scope keeps it
/// well formed, whatever the keys.
pub proof fn lemma_merge_map_wf(to: SpecMap, from: SpecMap, span: int)
    requires
        wf_map(to),
        forall|i: int| 0 <= i < from.len() ==> wf_val((#[trigger] from[i]).1),
    ensures
        wf_map(spec_merge_map(to, from, span).0),
    decreases from.len(),
{
    if from.len() > 0 {
        assert(wf_val(from[0].1));
        lemma_merge_one_wf(to, from[0].0, from[0].1, span);
        let rest = from.subrange(1, from.len() as int);
        assert forall|i: int| 0 <= i < rest.len() implies wf_val((#[trigger] rest[i]).1) by {
            assert(rest[i] == from[i + 1]);
        }
        lemma_merge_map_wf(spec_merge_one(to, from[0].0, from[0].1, span).0, rest, span);
    }
}

/// Parse the value position after `=` or `:` for key `key`: a string literal
/// yields its decoded text; anything else — a bare number, an identifier, a
/// missing value — yields the empty string, records one malformed-value event,
/// and skips the rest of the item.
pub open spec fn spec_value(toks: Seq<Tok>, vpos: int, key: Seq<char>, span: int) -> (
    (Seq<char>, SpecVal),
    Seq<SpecDiag>,
    int,
) {
    if vpos >= toks.len() {
        (
            (key, SpecVal::Str(Seq::empty())),
            seq![SpecDiag { kind: ErrKind::MalformedValue, key, span }],
            vpos,
        )
    } else {
        match toks[vpos] {
            Tok::StrLit(s) => ((key, SpecVal::Str(s@)), Seq::empty(), vpos + 1),
            _ => (
                (key, SpecVal::Str(Seq::empty())),
                seq![SpecDiag { kind: ErrKind::MalformedValue, key, span }],
                spec_skip(toks, vpos, 0),
            ),
        }
    }
}

pub proof fn lemma_value_bounds(toks: Seq<Tok>, vpos: int, key: Seq<char>, span: int)
    requires
        0 <= vpos <= toks.len(),
    ensures
        vpos <= spec_value(toks, vpos, key, span).2 <= toks.len(),
{
    if vpos < toks.len() {
        lemma_skip_bounds(toks, vpos, 0);
    }
}

/// Parse one nested meta whose key position is `pos`: `ident`,
/// `ident = "str"`, `ident : "str"`, or `ident ( ... )`. A key position that
/// is not a simple identifier records a missing-key event and the item is
/// skipped. Yields the binding (if any), the recorded events, and the
/// position just after the item.
pub open spec fn spec_item(toks: Seq<Tok>, pos: int, span: int) -> (
    Option<(Seq<char>, SpecVal)>,
    Seq<SpecDiag>,
    int,
)
    decreases toks.len() - pos, 0int,
{
    if pos < 0 || pos >= toks.len() {
        (None, Seq::empty(), pos)
    } else {
        match toks[pos] {
            Tok::Ident(k) => {
                let p1 = pos + 1;
                if p1 >= toks.len() {
                    (Some((k@, SpecVal::Empty)), Seq::empty(), p1)
                } else {
                    match toks[p1] {
                        Tok::Eq => {
                            let r = spec_value(toks, p1 + 1, k@, span);
                            (Some(r.0), r.1, r.2)
                        },
                        Tok::Colon => {
                            let r = spec_value(toks, p1 + 1, k@, span);
                            (Some(r.0), r.1, r.2)
                        },
                        Tok::OpenParen => {
                            let r = spec_list(toks, p1 + 1, span, Seq::empty());
                            let after = if r.2 < toks.len() {
                                r.2 + 1
                            } else {
                                r.2
                            };
                            (Some((k@, SpecVal::Mapping(r.0))), r.1, after)
                        },
                        _ => (Some((k@, SpecVal::Empty)), Seq::empty(), p1),
                    }
                }
            },
            _ => (
                None,
                seq![SpecDiag { kind: ErrKind::MissingKeyIdentifier, key: Seq::empty(), span }],
                spec_skip(toks, pos, 0),
            ),
        }
    }
}

/// Parse a nested-meta list from `pos` until a closing paren at depth zero or
/// the end of the tokens, merging each item into `acc` as it is produced.
/// Yields the merged scope, every event recorded along the way in encounter
/// order, and the position of the terminating paren (or `toks.len()`).
pub open spec fn spec_list(toks: Seq<Tok>, pos: int, span: int, acc: SpecMap) -> (
    SpecMap,
    Seq<SpecDiag>,
    int,
)
    decreases toks.len() - pos, 1int,
{
    if pos < 0 || pos >= toks.len() {
        (acc, Seq::empty(), pos)
    } else if toks[pos] is CloseParen {
        (acc, Seq::empty(), pos)
    } else {
        let ri = spec_item(toks, pos, span);
        let merged = match ri.0 {
            Some(kv) => spec_merge_one(acc, kv.0, kv.1, span),
            None => (acc, Seq::empty()),
        };
        let acc1 = merged.0;
        let errs01 = ri.1 + merged.1;
        let p1 = ri.2;
        if p1 >= toks.len() {
            (acc1, errs01, p1)
        } else if toks[p1] is Comma {
            let r = spec_list(toks, clamp_pos(pos + 1, p1 + 1, toks.len() as int), span, acc1);
            (r.0, errs01 + r.1, r.2)
        } else if toks[p1] is CloseParen {
            (acc1, errs01, p1)
        } else {
            // Junk between an item and its separator: report it once and skip it.
            let key = match ri.0 {
                Some(kv) => kv.0,
                None => Seq::empty(),
            };
            let errs2 = errs01 + seq![SpecDiag { kind: ErrKind::MalformedValue, key, span }];
            let q = spec_skip(toks, p1, 0);
            if q >= toks.len() {
                (acc1, errs2, q)
            } else if toks[q] is Comma {
                let r = spec_list(toks, clamp_pos(pos + 1, q + 1, toks.len() as int), span, acc1);
                (r.0, errs2 + r.1, r.2)
            } else {
                (acc1, errs2, q)
            }
        }
    }
}

pub proof fn lemma_item_bounds(toks: Seq<Tok>, pos: int, span: int)
    requires
        0 <= pos <= toks.len(),
    ensures
        pos <= spec_item(toks, pos, span).2 <= toks.len(),
    decreases toks.len() - pos, 0int,
{
    if pos < toks.len() {
        match toks[pos] {
            Tok::Ident(k) => {
                let p1 = pos + 1;
                if p1 < toks.len() {
                    match toks[p1] {
                        Tok::Eq => {
                            lemma_value_bounds(toks, p1 + 1, k@, span);
                        },
                        Tok::Colon => {
                            lemma_value_bounds(toks, p1 + 1, k@, span);
                        },
                        Tok::OpenParen => {
                            lemma_list_bounds(toks, p1 + 1, span, Seq::empty());
                        },
                        _ => {},
                    }
                }
            },
            _ => {
                lemma_skip_bounds(toks, pos, 0);
            },
        }
    }
}

pub proof fn lemma_list_bounds(toks: Seq<Tok>, pos: int, span: int, acc: SpecMap)
    requires
        0 <= pos <= toks.len(),
    ensures
        pos <= spec_list(toks, pos, span, acc).2 <= toks.len(),
    decreases toks.len() - pos, 1int,
{
    if pos < toks.len() && !(toks[pos] is CloseParen) {
        lemma_item_bounds(toks, pos, span);
        let ri = spec_item(toks, pos, span);
        let merged = match ri.0 {
            Some(kv) => spec_merge_one(acc, kv.0, kv.1, span),
            None => (acc, Seq::<SpecDiag>::empty()),
        };
        let acc1 = merged.0;
        let p1 = ri.2;
        if p1 < toks.len() {
            if toks[p1] is Comma {
                lemma_list_bounds(toks, clamp_pos(pos + 1, p1 + 1, toks.len() as int), span, acc1);
            } else if !(toks[p1] is CloseParen) {
                lemma_skip_bounds(toks, p1, 0);
                let q = spec_skip(toks, p1, 0);
                if q < toks.len() && toks[q] is Comma {
                    lemma_list_bounds(
                        toks,
                        clamp_pos(pos + 1, q + 1, toks.len() as int),
                        span,
                        acc1,
                    );
                }
            }
        }
    }
}

/// The value of one parsed nested meta is well formed: a mapping it produces
/// has unique keys at every depth.
pub proof fn lemma_item_wf(toks: Seq<Tok>, pos: int, span: int)
    requires
        0 <= pos <= toks.len(),
    ensures
        spec_item(toks, pos, span).0 matches Some(kv) ==> wf_val(kv.1),
    decreases toks.len() - pos, 0int,
{
    if pos < toks.len() {
        match toks[pos] {
            Tok::Ident(k) => {
                let p1 = pos + 1;
                if p1 < toks.len() {
                    match toks[p1] {
                        Tok::OpenParen => {
                            assert(wf_map(Seq::<(Seq<char>, SpecVal)>::empty()));
                            lemma_list_wf(toks, p1 + 1, span, Seq::empty());
                        },
                        _ => {},
                    }
                }
            },
            _ => {},
        }
    }
}

/// A scope parsed from a well-formed accumulator is well formed: unique keys
/// in it and in every mapping nested anywhere inside its values.
pub proof fn lemma_list_wf(toks: Seq<Tok>, pos: int, span: int, acc: SpecMap)
    requires
        0 <= pos <= toks.len(),
        wf_map(acc),
    ensures
        wf_map(spec_list(toks, pos, span, acc).0),
    decreases toks.len() - pos, 1int,
{
    if pos < toks.len() && !(toks[pos] is CloseParen) {
        lemma_item_bounds(toks, pos, span);
        lemma_item_wf(toks, pos, span);
        let ri = spec_item(toks, pos, span);
        let merged = match ri.0 {
            Some(kv) => spec_merge_one(acc, kv.0, kv.1, span),
            None => (acc, Seq::<SpecDiag>::empty()),
        };
        if ri.0 is Some {
            let kv = ri.0->Some_0;
            lemma_merge_one_wf(acc, kv.0, kv.1, span);
        }
        let acc1 = merged.0;
        let p1 = ri.2;
        if p1 < toks.len() {
            if toks[p1] is Comma {
                lemma_list_wf(toks, clamp_pos(pos + 1, p1 + 1, toks.len() as int), span, acc1);
            } else if !(toks[p1] is CloseParen) {
                let q = spec_skip(toks, p1, 0);
                if q < toks.len() && toks[q] is Comma {
                    lemma_list_wf(toks, clamp_pos(pos + 1, q + 1, toks.len() as int), span, acc1);
                }
            }
        }
    }
}

impl AttrMap {
    /// Index of the first entry whose key equals `key`, if any.
    fn find_index(&self, key: &String) -> (r: Option<usize>)
        ensures
            match r {
                Some(i) => 0 <= i < self.deep().len() && spec_find(self.deep(), key@) == i as int,
                None => spec_find(self.deep(), key@) < 0,
            },
    {
        let n = self.entries.len();
        let mut i: usize = 0;
        while i < n
            invariant
                i <= n,
                n == self.entries@.len(),
                forall|j: int| 0 <= j < i ==> self.deep()[j].0 != key@,
            decreases n - i,
        {
            proof {
                crate::ast::lemma_deep_entries(self.entries@);
            }
            if self.entries[i].key == *key {
                proof {
                    lemma_find_char(self.deep(), key@);
                    let f = spec_find(self.deep(), key@);
                    assert(self.deep()[i as int].0 == key@);
                    if f < 0 {
                        assert(false);
                    } else if f < i {
                        assert(self.deep()[f].0 != key@);
                        assert(false);
                    } else if f > i {
                        assert(self.deep()[i as int].0 != key@);
                        assert(false);
                    }
                }
                return Some(i);
            }
            i += 1;
        }
        proof {
            crate::ast::lemma_deep_entries(self.entries@);
            lemma_find_char(self.deep(), key@);
        }
        None
    }

    /// The value bound to `key`, if any.
    pub fn get(&self, key: &String) -> (r: Option<&Val>)
        ensures
            match r {
                Some(v) => spec_get(self.deep(), key@) == Some(v.deep()),
                None => spec_get(self.deep(), key@) is None,
            },
    {
        match self.find_index(key) {
            Some(i) => {
                proof {
                    crate::ast::lemma_deep_entries(self.entries@);
                }
                Some(&self.entries[i].value)
            },
            None => None,
        }
    }

    /// How many keys this map binds.
    pub fn len(&self) -> (r: usize)
        ensures
            r == self.deep().len(),
    {
        proof {
            crate::ast::lemma_deep_entries(self.entries@);
        }
        self.entries.len()
    }

    /// Whether this map binds no key at all.
    pub fn is_empty(&self) -> (r: bool)
        ensures
            r == (self.deep().len() == 0),
    {
        proof {
            crate::ast::lemma_deep_entries(self.entries@);
        }
        self.entries.len() == 0
    }

    /// Merge one `key -> value` pair into this scope: a new key is appended;
    /// a repeated key folds into a list, and the duplicate is reported to
    /// `cx` while the merged list stands as the usable result.
    pub fn merge_insert(&mut self, key: String, value: Val, span: usize, cx: &mut Ctxt)
        ensures
            ({
                let r = spec_merge_one(old(self).deep(), key@, value.deep(), span as int);
                &&& final (self).deep() == r.0
                &&& diag_views(final (cx).errors@) == diag_views(old(cx).errors@) + r.1
            }),
    {
        let ghost gkey = key@;
        let ghost gval = value.deep();
        let found = self.find_index(&key);
        match found {
            None => {
                let e = AttrEntry { key, value };
                let ghost ge = e;
                self.entries.push(e);
                proof {
                    crate::ast::lemma_deep_entries_push(old(self).entries@, ge);
                    assert(diag_views(cx.errors@) =~= diag_views(cx.errors@) + Seq::<
                        SpecDiag,
                    >::empty());
                }
            },
            Some(i) => {
                let ghost m0 = old(self).deep();
                proof {
                    crate::ast::lemma_deep_entries(self.entries@);
                    lemma_find_char(m0, gkey);
                }
                let old_entry = self.entries.remove(i);
                let ghost gold = old_entry.value.deep();
                proof {
                    crate::ast::lemma_deep_entries(old(self).entries@);
                    assert(gold == m0[i as int].1);
                    assert(old_entry.key@ == m0[i as int].0);
                    assert(m0[i as int].0 == gkey);
                }
                let merged: Val = match old_entry.value {
                    Val::List(l) => {
                        let mut l = l;
                        let ghost l0 = l@;
                        l.push(value);
                        proof {
                            crate::ast::lemma_deep_vals_push(l0, l@[l@.len() - 1]);
                            assert(Val::List(l).deep() == spec_merged_val(gold, gval));
                        }
                        Val::List(l)
                    },
                    other => {
                        let ghost gother = other;
                        let mut l: Vec<Val> = Vec::new();
                        l.push(other);
                        l.push(value);
                        proof {
                            crate::ast::lemma_deep_vals(l@);
                            assert(deep_vals(l@) =~= seq![gold, gval]);
                            match gother {
                                Val::Empty => assert(!(gold is List)),
                                Val::Str(_) => assert(!(gold is List)),
                                Val::Mapping(_) => assert(!(gold is List)),
                                Val::List(_) => assert(false),
                            }
                            assert(Val::List(l).deep() == spec_merged_val(gold, gval));
                        }
                        Val::List(l)
                    },
                };
                let ghost gmerged = merged.deep();
                cx.error(Diag { kind: ErrKind::DuplicateKey, key: old_entry.key, span });
                let e = AttrEntry { key, value: merged };
                let ghost ge = e;
                self.entries.insert(i, e);
                proof {
                    assert(self.entries@ =~= old(self).entries@.update(i as int, ge));
                    crate::ast::lemma_deep_entries(self.entries@);
                    crate::ast::lemma_deep_entries(old(self).entries@);
                    assert(self.deep() =~= m0.update(i as int, (gkey, gmerged)));
                    crate::ctxt::lemma_diag_views_push(
                        old(cx).errors@,
                        Diag { kind: ErrKind::DuplicateKey, key: old_entry.key, span },
                    );
                    assert(diag_views(cx.errors@) =~= diag_views(old(cx).errors@) + seq![
                        SpecDiag {
                            kind: ErrKind::DuplicateKey,
                            key: gkey,
                            span: span as int,
                        },
                    ]);
                }
            },
        }
    }
}

/// Folds every binding of `from` into `to`, in order, with the merge policy
/// of [`AttrMap::merge_insert`]; duplicate keys are reported to `cx`.
pub fn merge_map(cx: &mut Ctxt, from: AttrMap, to: &mut AttrMap, span: usize)
    ensures
        ({
            let r = spec_merge_map(old(to).deep(), from.deep(), span as int);
            &&& final (to).deep() == r.0
            &&& diag_views(final (cx).errors@) == diag_views(old(cx).errors@) + r.1
        }),
{
    let ghost gfrom = from.deep();
    let ghost gto0 = old(to).deep();
    let ghost mut done: Seq<SpecDiag> = Seq::empty();
    let mut rest = from;
    proof {
        assert(diag_views(cx.errors@) =~= diag_views(old(cx).errors@) + done);
    }
    while rest.entries.len() > 0
        invariant
            spec_merge_map(gto0, gfrom, span as int).0 == spec_merge_map(
                to.deep(),
                rest.deep(),
                span as int,
            ).0,
            spec_merge_map(gto0, gfrom, span as int).1 == done + spec_merge_map(
                to.deep(),
                rest.deep(),
                span as int,
            ).1,
            diag_views(cx.errors@) == diag_views(old(cx).errors@) + done,
        decreases rest.entries@.len(),
    {
        let ghost r_before = rest.deep();
        let ghost m_before = to.deep();
        proof {
            crate::ast::lemma_deep_entries(rest.entries@);
        }
        let e = rest.entries.remove(0);
        let ghost gek = e.key@;
        let ghost gev = e.value.deep();
        proof {
            crate::ast::lemma_deep_entries(rest.entries@);
            crate::ast::lemma_deep_entries(old(to).entries@);
            assert(rest.deep() =~= r_before.subrange(1, r_before.len() as int));
            assert(r_before[0] == (gek, gev));
        }
        to.merge_insert(e.key, e.value, span, cx);
        proof {
            let step = spec_merge_one(m_before, gek, gev, span as int);
            let tail = spec_merge_map(to.deep(), rest.deep(), span as int).1;
            let done0 = done;
            done = done + step.1;
            assert(spec_merge_map(m_before, r_before, span as int).0 == spec_merge_map(
                to.deep(),
                rest.deep(),
                span as int,
            ).0);
            assert(spec_merge_map(m_before, r_before, span as int).1 == step.1 + tail);
            assert((done0 + step.1) + tail =~= done0 + (step.1 + tail));
        }
    }
    proof {
        assert(rest.deep() =~= Seq::<(Seq<char>, SpecVal)>::empty());
        assert(done + Seq::<SpecDiag>::empty() =~= done);
    }
}

/// Advances from `pos` to the next comma or closing paren at parenthesis
/// depth zero (or the end of the tokens).
fn skip_item(toks: &Vec<Tok>, pos: usize) -> (r: usize)
    requires
        pos <= toks@.len(),
    ensures
        r as int == spec_skip(toks@, pos as int, 0),
        pos <= r <= toks@.len(),
{
    proof {
        lemma_skip_bounds(toks@, pos as int, 0);
    }
    let n = toks.len();
    let mut i: usize = pos;
    let mut depth: usize = 0;
    while i < n
        invariant
            pos <= i <= n,
            n == toks@.len(),
            depth <= i - pos,
            spec_skip(toks@, pos as int, 0) == spec_skip(toks@, i as int, depth as int),
        decreases n - i,
    {
        match &toks[i] {
            Tok::Comma => {
                if depth == 0 {
                    return i;
                }
            },
            Tok::CloseParen => {
                if depth == 0 {
                    return i;
                }
                depth = depth - 1;
            },
            Tok::OpenParen => {
                depth = depth + 1;
            },
            _ => {},
        }
        i = i + 1;
    }
    i
}

/// Parse one nested meta whose key position is `pos`, reporting malformed
/// pieces to `cx`; yields the binding (if any) and the position just after
/// the item.
fn parse_item(toks: &Vec<Tok>, pos: usize, span: usize, cx: &mut Ctxt) -> (r: (
    Option<(String, Val)>,
    usize,
))
    requires
        pos <= toks@.len(),
    ensures
        ({
            let g = spec_item(toks@, pos as int, span as int);
            &&& r.1 as int == g.2
            &&& (match (r.0, g.0) {
                (Some(kv), Some(gkv)) => kv.0@ == gkv.0 && kv.1.deep() == gkv.1,
                (None, None) => true,
                _ => false,
            })
            &&& diag_views(final (cx).errors@) == diag_views(old(cx).errors@) + g.1
        }),
    decreases toks@.len() - pos, 0int,
{
    let ghost d0 = diag_views(old(cx).errors@);
    if pos >= toks.len() {
        proof {
            assert(d0 =~= d0 + Seq::<SpecDiag>::empty());
        }
        return (None, pos);
    }
    match &toks[pos] {
        Tok::Ident(k) => {
            let key = k.clone();
            let p1 = pos + 1;
            if p1 >= toks.len() {
                proof {
                    assert(d0 =~= d0 + Seq::<SpecDiag>::empty());
                }
                return (Some((key, Val::Empty)), p1);
            }
            let is_assign = match &toks[p1] {
                Tok::Eq => true,
                Tok::Colon => true,
                _ => false,
            };
            if is_assign {
                let vpos = p1 + 1;
                if vpos < toks.len() {
                    if let Tok::StrLit(s) = &toks[vpos] {
                        proof {
                            assert(d0 =~= d0 + Seq::<SpecDiag>::empty());
                        }
                        return (Some((key, Val::Str(s.clone()))), vpos + 1);
                    }
                }
                let d = Diag { kind: ErrKind::MalformedValue, key: key.clone(), span };
                let ghost gd = d@;
                cx.error(d);
                let np = skip_item(toks, vpos);
                proof {
                    crate::ctxt::lemma_diag_views_push(old(cx).errors@, old(cx).errors@[0]);
                    assert(diag_views(cx.errors@) =~= d0 + seq![gd]);
                }
                return (Some((key, Val::Str(String::new()))), np);
            }
            if let Tok::OpenParen = &toks[p1] {
                let mut sub = AttrMap::new();
                let close = parse_list(toks, p1 + 1, span, &mut sub, cx);
                let after = if close < toks.len() {
                    close + 1
                } else {
                    close
                };
                return (Some((key, Val::Mapping(sub))), after);
            }
            proof {
                assert(d0 =~= d0 + Seq::<SpecDiag>::empty());
            }
            (Some((key, Val::Empty)), p1)
        },
        _ => {
            let d = Diag { kind: ErrKind::MissingKeyIdentifier, key: String::new(), span };
            let ghost gd = d@;
            cx.error(d);
            let np = skip_item(toks, pos);
            proof {
                assert(diag_views(cx.errors@) =~= d0 + seq![gd]);
            }
            (None, np)
        },
    }
}

/// Parse a nested-meta list from `pos` until a closing paren at depth zero or
/// the end of the tokens, merging every item into `map` in encounter order
/// and reporting every malformed piece and duplicate key to `cx`; returns the
/// position of the terminating paren (or the token count).
pub(crate) fn parse_list(toks: &Vec<Tok>, pos: usize, span: usize, map: &mut AttrMap, cx: &mut Ctxt) -> (np:
    usize)
    requires
        pos <= toks@.len(),
    ensures
        ({
            let g = spec_list(toks@, pos as int, span as int, old(map).deep());
            &&& np as int == g.2
            &&& final (map).deep() == g.0
            &&& diag_views(final (cx).errors@) == diag_views(old(cx).errors@) + g.1
        }),
    decreases toks@.len() - pos, 1int,
{
    let ghost d0 = diag_views(old(cx).errors@);
    let ghost acc0 = old(map).deep();
    if pos >= toks.len() {
        proof {
            assert(d0 =~= d0 + Seq::<SpecDiag>::empty());
        }
        return pos;
    }
    if let Tok::CloseParen = &toks[pos] {
        proof {
            assert(d0 =~= d0 + Seq::<SpecDiag>::empty());
        }
        return pos;
    }
    let (opt, p1) = parse_item(toks, pos, span, cx);
    proof {
        lemma_item_bounds(toks@, pos as int, span as int);
    }
    let ghost e_item = spec_item(toks@, pos as int, span as int).1;
    let junk_key: String = match &opt {
        Some((k, _)) => k.clone(),
        None => String::new(),
    };
    match opt {
        Some((k, v)) => {
            map.merge_insert(k, v, span, cx);
        },
        None => {},
    }
    let ghost e_merge = (match spec_item(toks@, pos as int, span as int).0 {
        Some(kv) => spec_merge_one(acc0, kv.0, kv.1, span as int).1,
        None => Seq::<SpecDiag>::empty(),
    });
    proof {
        assert(diag_views(cx.errors@) =~= d0 + (e_item + e_merge));
        assert(map.deep() == (match spec_item(toks@, pos as int, span as int).0 {
            Some(kv) => spec_merge_one(acc0, kv.0, kv.1, span as int).0,
            None => acc0,
        }));
    }
    if p1 >= toks.len() {
        return p1;
    }
    let is_comma = match &toks[p1] {
        Tok::Comma => true,
        _ => false,
    };
    if is_comma {
        proof {
            assert(clamp_pos(pos + 1, p1 + 1, toks@.len() as int) == p1 + 1);
        }
        let ghost accm = map.deep();
        let np = parse_list(toks, p1 + 1, span, map, cx);
        proof {
            let rec = spec_list(toks@, p1 + 1, span as int, accm);
            assert(diag_views(cx.errors@) =~= d0 + ((e_item + e_merge) + rec.1));
        }
        return np;
    }
    if let Tok::CloseParen = &toks[p1] {
        return p1;
    }
    let d = Diag { kind: ErrKind::MalformedValue, key: junk_key, span };
    let ghost gd = d@;
    let ghost gdiag = d;
    let ghost before_junk = cx.errors@;
    cx.error(d);
    proof {
        crate::ctxt::lemma_diag_views_push(before_junk, gdiag);
        assert(diag_views(cx.errors@) =~= d0 + ((e_item + e_merge) + seq![gd]));
    }
    let q = skip_item(toks, p1);
    if q >= toks.len() {
        return q;
    }
    let q_comma = match &toks[q] {
        Tok::Comma => true,
        _ => false,
    };
    if q_comma {
        proof {
            assert(clamp_pos(pos + 1, q + 1, toks@.len() as int) == q + 1);
        }
        let ghost accm = map.deep();
        let np = parse_list(toks, q + 1, span, map, cx);
        proof {
            let rec = spec_list(toks@, q + 1, span as int, accm);
            assert(diag_views(cx.errors@) =~= d0 + (((e_item + e_merge) + seq![gd]) + rec.1));
        }
        return np;
    }
    q
}

/// Parse one nested meta of a payload into a fresh map of at most one
/// binding, reporting malformed pieces to `cx`; returns the map and the
/// position just after the item.
pub fn parse_sub_attrs(toks: &Vec<Tok>, pos: usize, span: usize, cx: &mut Ctxt) -> (r: (
    AttrMap,
    usize,
))
    requires
        pos <= toks@.len(),
    ensures
        ({
            let g = spec_item(toks@, pos as int, span as int);
            &&& r.1 as int == g.2
            &&& r.0.deep() == (match g.0 {
                Some(kv) => seq![kv],
                None => Seq::<(Seq<char>, SpecVal)>::empty(),
            })
            &&& diag_views(final (cx).errors@) == diag_views(old(cx).errors@) + g.1
        }),
{
    let ghost d0 = diag_views(old(cx).errors@);
    let (opt, np) = parse_item(toks, pos, span, cx);
    let ghost e_item = spec_item(toks@, pos as int, span as int).1;
    let mut m = AttrMap::new();
    match opt {
        Some((k, v)) => {
            let ghost gk = k@;
            let ghost gv = v.deep();
            m.merge_insert(k, v, span, cx);
            proof {
                assert(m.deep() =~= seq![(gk, gv)]);
                assert(diag_views(cx.errors@) =~= d0 + e_item);
            }
        },
        None => {},
    }
    (m, np)
}

} // verus!
