use derive_attr_parse::ast::{Data, Member, Style, Val};
use derive_attr_parse::ctxt::{Ctxt, ErrKind};
use derive_attr_parse::symbol::Symbol;
use derive_attr_parse::tokens::{RawAttr, RawData, RawField, RawFields, RawInput, RawVariant, Tok};
use derive_attr_parse::walk::{from_ast, has_sentinel, root_from_ast};

fn ident(s: &str) -> Tok {
    Tok::Ident(s.to_string())
}

fn strlit(s: &str) -> Tok {
    Tok::StrLit(s.to_string())
}

fn attr_with_span(path: &str, tokens: Vec<Tok>, span: usize) -> RawAttr {
    RawAttr {
        path: path.to_string(),
        tokens,
        span,
    }
}

fn attr(path: &str, tokens: Vec<Tok>) -> RawAttr {
    attr_with_span(path, tokens, 0)
}

fn field(name: Option<&str>, attrs: Vec<RawAttr>, ty: usize, span: usize) -> RawField {
    RawField {
        ident: name.map(|s| s.to_string()),
        attrs,
        ty,
        span,
    }
}

fn sym(s: &str) -> Symbol {
    Symbol(s.to_string())
}

#[test]
fn struct_with_annotated_and_unannotated_fields() {
    // struct S { a: T1, #[ns(stock)] b: T2 } parsed for symbol `ns`.
    let input = RawInput {
        ident: "S".to_string(),
        attrs: vec![],
        data: RawData::Struct(RawFields::Named(vec![
            field(Some("a"), vec![], 1, 10),
            field(Some("b"), vec![attr("ns", vec![ident("stock")])], 2, 11),
        ])),
        generics: 7,
        span: 99,
    };
    let mut cx = Ctxt::new();
    let c = from_ast(&mut cx, &input, &sym("ns")).unwrap();
    assert_eq!(c.ident, "S");
    assert!(c.attrs.is_empty());
    assert_eq!(c.generics, 7);
    assert_eq!(c.original, 99);
    match &c.data {
        Data::Struct(style, fields) => {
            assert_eq!(*style, Style::Struct);
            assert_eq!(fields.len(), 2);
            assert!(matches!(&fields[0].member, Member::Named(n) if n == "a"));
            assert!(fields[0].attrs.is_empty());
            assert_eq!(fields[0].ty, 1);
            assert_eq!(fields[0].original, 10);
            assert!(matches!(&fields[1].member, Member::Named(n) if n == "b"));
            assert_eq!(fields[1].attrs.len(), 1);
            assert!(matches!(
                fields[1].attrs.get(&"stock".to_string()),
                Some(Val::Empty)
            ));
        }
        Data::Enum(_) => panic!("expected a struct"),
    }
    assert!(cx.check().is_ok());
}

#[test]
fn tuple_newtype_and_unit_styles() {
    let mk = |fields: RawFields| RawInput {
        ident: "S".to_string(),
        attrs: vec![],
        data: RawData::Struct(fields),
        generics: 0,
        span: 0,
    };
    let mut cx = Ctxt::new();
    let c = from_ast(
        &mut cx,
        &mk(RawFields::Unnamed(vec![field(None, vec![], 0, 0)])),
        &sym("ns"),
    )
    .unwrap();
    assert!(matches!(c.data, Data::Struct(Style::Newtype, _)));
    let c = from_ast(
        &mut cx,
        &mk(RawFields::Unnamed(vec![
            field(None, vec![], 0, 0),
            field(None, vec![], 0, 1),
        ])),
        &sym("ns"),
    )
    .unwrap();
    match &c.data {
        Data::Struct(style, fields) => {
            assert_eq!(*style, Style::Tuple);
            assert!(matches!(fields[0].member, Member::Unnamed(0)));
            assert!(matches!(fields[1].member, Member::Unnamed(1)));
        }
        Data::Enum(_) => panic!("expected a struct"),
    }
    let c = from_ast(&mut cx, &mk(RawFields::Unit), &sym("ns")).unwrap();
    match &c.data {
        Data::Struct(style, fields) => {
            assert_eq!(*style, Style::Unit);
            assert!(fields.is_empty());
        }
        Data::Enum(_) => panic!("expected a struct"),
    }
    assert!(cx.check().is_ok());
}

#[test]
fn enum_variants_resolve_attrs_and_fields() {
    // enum E { #[ns(trans(to = "B"))] A, B { n: T } }
    let input = RawInput {
        ident: "E".to_string(),
        attrs: vec![],
        data: RawData::Enum(vec![
            RawVariant {
                ident: "A".to_string(),
                attrs: vec![attr(
                    "ns",
                    vec![
                        ident("trans"),
                        Tok::OpenParen,
                        ident("to"),
                        Tok::Eq,
                        strlit("B"),
                        Tok::CloseParen,
                    ],
                )],
                fields: RawFields::Unit,
                span: 1,
            },
            RawVariant {
                ident: "B".to_string(),
                attrs: vec![],
                fields: RawFields::Named(vec![field(Some("n"), vec![], 3, 2)]),
                span: 2,
            },
        ]),
        generics: 0,
        span: 0,
    };
    let mut cx = Ctxt::new();
    let c = from_ast(&mut cx, &input, &sym("ns")).unwrap();
    match &c.data {
        Data::Enum(variants) => {
            assert_eq!(variants.len(), 2);
            assert_eq!(variants[0].ident, "A");
            assert_eq!(variants[0].style, Style::Unit);
            match variants[0].attrs.get(&"trans".to_string()).unwrap() {
                Val::Mapping(sub) => match sub.get(&"to".to_string()).unwrap() {
                    Val::Str(s) => assert_eq!(s, "B"),
                    _ => panic!("expected Val::Str"),
                },
                _ => panic!("expected Val::Mapping"),
            }
            assert_eq!(variants[1].ident, "B");
            assert_eq!(variants[1].style, Style::Struct);
            assert_eq!(variants[1].fields.len(), 1);
        }
        Data::Struct(..) => panic!("expected an enum"),
    }
    assert!(cx.check().is_ok());
}

#[test]
fn union_shape_is_fatal_and_recorded() {
    let input = RawInput {
        ident: "U".to_string(),
        attrs: vec![],
        data: RawData::Union,
        generics: 0,
        span: 42,
    };
    let mut cx = Ctxt::new();
    let err = from_ast(&mut cx, &input, &sym("ns")).unwrap_err();
    assert_eq!(err.kind, ErrKind::MissingData);
    assert_eq!(err.span, 42);
    // The unsupported shape is recorded in the context besides.
    let failure = cx.check().unwrap_err();
    assert_eq!(failure.errors.len(), 1);
    assert_eq!(failure.errors[0].kind, ErrKind::UnsupportedShape);
    assert_eq!(failure.errors[0].span, 42);
}

#[test]
fn two_malformed_fields_surface_both_in_one_failure() {
    // Both fields carry a non-string literal value; the finalized failure
    // must mention both, not only the first.
    let input = RawInput {
        ident: "S".to_string(),
        attrs: vec![],
        data: RawData::Struct(RawFields::Named(vec![
            field(
                Some("a"),
                vec![attr("ns", vec![ident("p"), Tok::Eq, Tok::Other("10".to_string())])],
                0,
                0,
            ),
            field(
                Some("b"),
                vec![attr("ns", vec![ident("q"), Tok::Eq, Tok::Other("true".to_string())])],
                0,
                1,
            ),
        ])),
        generics: 0,
        span: 0,
    };
    let mut cx = Ctxt::new();
    let c = from_ast(&mut cx, &input, &sym("ns"));
    assert!(c.is_ok());
    assert_eq!(cx.error_count(), 2);
    let failure = cx.check().unwrap_err();
    assert_eq!(failure.errors.len(), 2);
    assert!(failure
        .message
        .contains("expected a string literal value for key {p}"));
    assert!(failure
        .message
        .contains("expected a string literal value for key {q}"));
}

#[test]
fn foreign_annotations_are_absent_and_error_free() {
    // A malformed payload under another symbol contributes nothing: no
    // binding and no recorded error.
    let input = RawInput {
        ident: "S".to_string(),
        attrs: vec![attr(
            "serde",
            vec![Tok::Other("!!".to_string()), ident("rename")],
        )],
        data: RawData::Struct(RawFields::Named(vec![field(
            Some("a"),
            vec![attr("serde", vec![strlit("junk")])],
            0,
            0,
        )])),
        generics: 0,
        span: 0,
    };
    let mut cx = Ctxt::new();
    let c = from_ast(&mut cx, &input, &sym("ns")).unwrap();
    assert!(c.attrs.is_empty());
    match &c.data {
        Data::Struct(_, fields) => assert!(fields[0].attrs.is_empty()),
        Data::Enum(_) => panic!("expected a struct"),
    }
    assert_eq!(cx.error_count(), 0);
    assert!(cx.check().is_ok());
}

#[test]
fn sentinel_is_seen_on_the_walk_only() {
    let attrs = vec![
        attr("non_exhaustive", vec![]),
        attr("ns", vec![ident("flag")]),
    ];
    assert!(has_sentinel(&attrs, &sym("ns")));
    // The sentinel does not count when it is the requested symbol itself.
    assert!(!has_sentinel(&attrs, &sym("non_exhaustive")));

    let input = RawInput {
        ident: "S".to_string(),
        attrs,
        data: RawData::Struct(RawFields::Unit),
        generics: 0,
        span: 0,
    };
    let mut cx = Ctxt::new();
    let (c, non_exhaustive) = root_from_ast(&mut cx, &input, &sym("ns")).unwrap();
    assert!(non_exhaustive);
    assert!(matches!(c.attrs.get(&"flag".to_string()), Some(Val::Empty)));
    assert!(cx.check().is_ok());
}

#[test]
fn empty_unnamed_field_list_is_unit() {
    // struct S(); has no fields, so its style is Unit, not Tuple.
    let input = RawInput {
        ident: "S".to_string(),
        attrs: vec![],
        data: RawData::Struct(RawFields::Unnamed(vec![])),
        generics: 0,
        span: 0,
    };
    let mut cx = Ctxt::new();
    let c = from_ast(&mut cx, &input, &sym("ns")).unwrap();
    match &c.data {
        Data::Struct(style, fields) => {
            assert_eq!(*style, Style::Unit);
            assert!(fields.is_empty());
        }
        Data::Enum(_) => panic!("expected a struct"),
    }
    assert!(cx.check().is_ok());
}
