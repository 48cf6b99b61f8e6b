use derive_attr_parse::ctxt::{Ctxt, Diag, ErrKind};

fn diag(kind: ErrKind, key: &str, span: usize) -> Diag {
    Diag {
        kind,
        key: key.to_string(),
        span,
    }
}

#[test]
fn check_of_fresh_context_succeeds() {
    let cx = Ctxt::new();
    assert!(cx.check().is_ok());
}

#[test]
fn check_reports_every_error_in_order() {
    let mut cx = Ctxt::new();
    cx.error(diag(ErrKind::DuplicateKey, "x", 3));
    cx.error(diag(ErrKind::MalformedValue, "y", 4));
    cx.error(diag(ErrKind::MissingKeyIdentifier, "", 5));
    assert_eq!(cx.error_count(), 3);
    let failure = cx.check().unwrap_err();
    assert_eq!(failure.errors.len(), 3);
    assert_eq!(failure.errors[0].kind, ErrKind::DuplicateKey);
    assert_eq!(failure.errors[0].span, 3);
    assert_eq!(failure.errors[1].kind, ErrKind::MalformedValue);
    assert_eq!(failure.errors[2].kind, ErrKind::MissingKeyIdentifier);
}

#[test]
fn combined_message_joins_messages_with_semicolons() {
    let mut cx = Ctxt::new();
    cx.error(diag(ErrKind::DuplicateKey, "x", 0));
    cx.error(diag(ErrKind::MalformedValue, "y", 0));
    let failure = cx.check().unwrap_err();
    assert_eq!(
        failure.message,
        "duplicated key {x}; expected a string literal value for key {y}"
    );
}

#[test]
fn rendered_messages_per_kind() {
    assert_eq!(
        diag(ErrKind::DuplicateKey, "x", 0).message(),
        "duplicated key {x}"
    );
    assert_eq!(
        diag(ErrKind::MalformedValue, "steps", 0).message(),
        "expected a string literal value for key {steps}"
    );
    assert_eq!(
        diag(ErrKind::MissingKeyIdentifier, "", 0).message(),
        "expected a simple identifier as the nested meta key"
    );
    assert_eq!(
        diag(ErrKind::UnsupportedShape, "", 0).message(),
        "derive supports only structs and enums"
    );
    assert_eq!(
        diag(ErrKind::MissingData, "", 0).message(),
        "no data shape was resolved for the declaration"
    );
}
