use derive_attr_parse::ast::{AttrMap, Val};
use derive_attr_parse::ctxt::{Ctxt, ErrKind};
use derive_attr_parse::parse::{merge_map, parse_sub_attrs};
use derive_attr_parse::symbol::Symbol;
use derive_attr_parse::tokens::{RawAttr, Tok};
use derive_attr_parse::walk::parse_attrs;

fn ident(s: &str) -> Tok {
    Tok::Ident(s.to_string())
}

fn strlit(s: &str) -> Tok {
    Tok::StrLit(s.to_string())
}

fn attr(path: &str, tokens: Vec<Tok>) -> RawAttr {
    RawAttr {
        path: path.to_string(),
        tokens,
        span: 0,
    }
}

fn sym(s: &str) -> Symbol {
    Symbol(s.to_string())
}

fn parse_payload(tokens: Vec<Tok>, cx: &mut Ctxt) -> AttrMap {
    let attrs = vec![attr("ns", tokens)];
    parse_attrs(cx, &attrs, &sym("ns"))
}

fn expect_str(v: &Val) -> &str {
    match v {
        Val::Str(s) => s.as_str(),
        _ => panic!("expected Val::Str"),
    }
}

#[test]
fn assignment_with_eq_yields_str() {
    let mut cx = Ctxt::new();
    let m = parse_payload(vec![ident("k"), Tok::Eq, strlit("v")], &mut cx);
    assert_eq!(m.len(), 1);
    assert_eq!(expect_str(m.get(&"k".to_string()).unwrap()), "v");
    assert_eq!(cx.error_count(), 0);
    assert!(cx.check().is_ok());
}

#[test]
fn assignment_with_colon_yields_str() {
    let mut cx = Ctxt::new();
    let m = parse_payload(vec![ident("k"), Tok::Colon, strlit("v")], &mut cx);
    assert_eq!(expect_str(m.get(&"k".to_string()).unwrap()), "v");
    assert_eq!(cx.error_count(), 0);
}

#[test]
fn assignment_of_empty_string() {
    let mut cx = Ctxt::new();
    let m = parse_payload(vec![ident("k"), Tok::Eq, strlit("")], &mut cx);
    assert_eq!(expect_str(m.get(&"k".to_string()).unwrap()), "");
    assert_eq!(cx.error_count(), 0);
}

#[test]
fn group_yields_mapping() {
    let mut cx = Ctxt::new();
    let m = parse_payload(
        vec![
            ident("k"),
            Tok::OpenParen,
            ident("a"),
            Tok::Eq,
            strlit("1"),
            Tok::Comma,
            ident("b"),
            Tok::Eq,
            strlit("2"),
            Tok::CloseParen,
        ],
        &mut cx,
    );
    assert_eq!(m.len(), 1);
    match m.get(&"k".to_string()).unwrap() {
        Val::Mapping(sub) => {
            assert_eq!(sub.len(), 2);
            assert_eq!(expect_str(sub.get(&"a".to_string()).unwrap()), "1");
            assert_eq!(expect_str(sub.get(&"b".to_string()).unwrap()), "2");
        }
        _ => panic!("expected Val::Mapping"),
    }
    assert_eq!(cx.error_count(), 0);
}

#[test]
fn repeated_key_twice_folds_into_list() {
    let mut cx = Ctxt::new();
    let m = parse_payload(
        vec![
            ident("x"),
            Tok::Eq,
            strlit("1"),
            Tok::Comma,
            ident("x"),
            Tok::Eq,
            strlit("2"),
        ],
        &mut cx,
    );
    assert_eq!(m.len(), 1);
    match m.get(&"x".to_string()).unwrap() {
        Val::List(items) => {
            assert_eq!(items.len(), 2);
            assert_eq!(expect_str(&items[0]), "1");
            assert_eq!(expect_str(&items[1]), "2");
        }
        _ => panic!("expected Val::List"),
    }
    assert_eq!(cx.error_count(), 1);
    let failure = cx.check().unwrap_err();
    assert_eq!(failure.errors.len(), 1);
    assert_eq!(failure.errors[0].kind, ErrKind::DuplicateKey);
    assert_eq!(failure.errors[0].key, "x");
}

#[test]
fn repeated_key_thrice_appends_in_order() {
    let mut cx = Ctxt::new();
    let m = parse_payload(
        vec![
            ident("x"),
            Tok::Eq,
            strlit("1"),
            Tok::Comma,
            ident("x"),
            Tok::Eq,
            strlit("2"),
            Tok::Comma,
            ident("x"),
            Tok::Eq,
            strlit("3"),
        ],
        &mut cx,
    );
    match m.get(&"x".to_string()).unwrap() {
        Val::List(items) => {
            assert_eq!(items.len(), 3);
            assert_eq!(expect_str(&items[0]), "1");
            assert_eq!(expect_str(&items[1]), "2");
            assert_eq!(expect_str(&items[2]), "3");
        }
        _ => panic!("expected Val::List"),
    }
    assert_eq!(cx.error_count(), 2);
}

#[test]
fn bare_key_yields_empty() {
    let mut cx = Ctxt::new();
    let m = parse_payload(vec![ident("flag")], &mut cx);
    assert!(matches!(m.get(&"flag".to_string()), Some(Val::Empty)));
    assert_eq!(cx.error_count(), 0);
}

#[test]
fn non_string_literal_value_degrades_to_empty_str() {
    let mut cx = Ctxt::new();
    let m = parse_payload(vec![ident("n"), Tok::Eq, Tok::Other("10".to_string())], &mut cx);
    assert_eq!(expect_str(m.get(&"n".to_string()).unwrap()), "");
    assert_eq!(cx.error_count(), 1);
    let failure = cx.check().unwrap_err();
    assert_eq!(failure.errors[0].kind, ErrKind::MalformedValue);
    assert_eq!(failure.errors[0].key, "n");
}

#[test]
fn reparsing_malformed_text_is_idempotent() {
    let toks = || vec![ident("n"), Tok::Eq, Tok::Other("10".to_string())];
    let mut cx1 = Ctxt::new();
    let m1 = parse_payload(toks(), &mut cx1);
    let count1 = cx1.error_count();
    let mut cx2 = Ctxt::new();
    let m2 = parse_payload(toks(), &mut cx2);
    assert_eq!(count1, cx2.error_count());
    assert_eq!(m1.len(), m2.len());
    assert_eq!(
        expect_str(m1.get(&"n".to_string()).unwrap()),
        expect_str(m2.get(&"n".to_string()).unwrap())
    );
    let msg1 = cx1.check().unwrap_err().message;
    let msg2 = cx2.check().unwrap_err().message;
    assert_eq!(msg1, msg2);
}

#[test]
fn non_identifier_key_is_reported_and_skipped() {
    let mut cx = Ctxt::new();
    let m = parse_payload(
        vec![
            strlit("oops"),
            Tok::Comma,
            ident("k"),
            Tok::Eq,
            strlit("v"),
        ],
        &mut cx,
    );
    // The malformed item is skipped; the sibling after it still parses.
    assert_eq!(m.len(), 1);
    assert_eq!(expect_str(m.get(&"k".to_string()).unwrap()), "v");
    assert_eq!(cx.error_count(), 1);
    assert_eq!(cx.check().unwrap_err().errors[0].kind, ErrKind::MissingKeyIdentifier);
}

#[test]
fn trailing_comma_is_accepted() {
    let mut cx = Ctxt::new();
    let m = parse_payload(vec![ident("a"), Tok::Comma], &mut cx);
    assert_eq!(m.len(), 1);
    assert!(matches!(m.get(&"a".to_string()), Some(Val::Empty)));
    assert_eq!(cx.error_count(), 0);
}

#[test]
fn empty_payload_attribute_is_skipped() {
    let mut cx = Ctxt::new();
    let attrs = vec![attr("ns", vec![])];
    let m = parse_attrs(&mut cx, &attrs, &sym("ns"));
    assert!(m.is_empty());
    assert_eq!(cx.error_count(), 0);
}

#[test]
fn key_repeated_across_attributes_merges_too() {
    let mut cx = Ctxt::new();
    let attrs = vec![
        attr("ns", vec![ident("x"), Tok::Eq, strlit("1")]),
        attr("ns", vec![ident("x"), Tok::Eq, strlit("2")]),
    ];
    let m = parse_attrs(&mut cx, &attrs, &sym("ns"));
    match m.get(&"x".to_string()).unwrap() {
        Val::List(items) => assert_eq!(items.len(), 2),
        _ => panic!("expected Val::List"),
    }
    assert_eq!(cx.error_count(), 1);
}

#[test]
fn parse_sub_attrs_reads_one_item() {
    let mut cx = Ctxt::new();
    let toks = vec![ident("a"), Tok::Eq, strlit("1"), Tok::Comma, ident("b")];
    let (m, next) = parse_sub_attrs(&toks, 0, 0, &mut cx);
    assert_eq!(m.len(), 1);
    assert_eq!(expect_str(m.get(&"a".to_string()).unwrap()), "1");
    assert_eq!(next, 3);
    assert_eq!(cx.error_count(), 0);
}

#[test]
fn merge_map_folds_duplicates_and_reports() {
    let mut cx = Ctxt::new();
    let mut to = AttrMap::new();
    to.merge_insert("x".to_string(), Val::Str("1".to_string()), 0, &mut cx);
    assert_eq!(cx.error_count(), 0);
    let mut from = AttrMap::new();
    from.merge_insert("x".to_string(), Val::Str("2".to_string()), 0, &mut cx);
    from.merge_insert("y".to_string(), Val::Empty, 0, &mut cx);
    assert_eq!(cx.error_count(), 0);
    merge_map(&mut cx, from, &mut to, 7);
    assert_eq!(to.len(), 2);
    match to.get(&"x".to_string()).unwrap() {
        Val::List(items) => assert_eq!(items.len(), 2),
        _ => panic!("expected Val::List"),
    }
    assert!(matches!(to.get(&"y".to_string()), Some(Val::Empty)));
    assert_eq!(cx.error_count(), 1);
    let failure = cx.check().unwrap_err();
    assert_eq!(failure.errors[0].kind, ErrKind::DuplicateKey);
    assert_eq!(failure.errors[0].span, 7);
}

#[test]
fn symbol_matches_exactly() {
    let s = sym("sim");
    assert!(s.matches(&"sim".to_string()));
    assert!(!s.matches(&"simulate".to_string()));
    assert!(!s.matches(&"si".to_string()));
    assert_eq!(s.as_str(), "sim");
    let t = Symbol::from("fsm".to_string());
    assert!(t.matches(&"fsm".to_string()));
}

#[test]
fn groups_nest_recursively() {
    let mut cx = Ctxt::new();
    let m = parse_payload(
        vec![
            ident("a"),
            Tok::OpenParen,
            ident("b"),
            Tok::OpenParen,
            ident("c"),
            Tok::Eq,
            strlit("1"),
            Tok::CloseParen,
            Tok::CloseParen,
        ],
        &mut cx,
    );
    let inner_b = match m.get(&"a".to_string()).unwrap() {
        Val::Mapping(sub) => sub,
        _ => panic!("expected Val::Mapping under a"),
    };
    let inner_c = match inner_b.get(&"b".to_string()).unwrap() {
        Val::Mapping(sub) => sub,
        _ => panic!("expected Val::Mapping under b"),
    };
    assert_eq!(expect_str(inner_c.get(&"c".to_string()).unwrap()), "1");
    assert_eq!(cx.error_count(), 0);
}

#[test]
fn junk_after_item_is_reported_and_skipped() {
    let mut cx = Ctxt::new();
    let m = parse_payload(
        vec![
            ident("flag"),
            strlit("stray"),
            Tok::Comma,
            ident("k"),
            Tok::Eq,
            strlit("v"),
        ],
        &mut cx,
    );
    assert!(matches!(m.get(&"flag".to_string()), Some(Val::Empty)));
    assert_eq!(expect_str(m.get(&"k".to_string()).unwrap()), "v");
    assert_eq!(cx.error_count(), 1);
    assert_eq!(cx.check().unwrap_err().errors[0].kind, ErrKind::MalformedValue);
}
