use derive_attr_parse::ast::Val;

fn str_val(s: &str) -> Val {
    Val::Str(s.to_string())
}

#[test]
fn as_ident_accepts_a_plain_identifier() {
    let id = str_val("potential_clients").as_ident().unwrap();
    assert_eq!(id.to_string(), "potential_clients");
}

#[test]
fn as_ident_rejects_non_identifiers() {
    assert!(str_val("a b").as_ident().is_err());
    assert!(str_val("3x").as_ident().is_err());
    assert!(str_val("").as_ident().is_err());
    assert!(Val::Empty.as_ident().is_err());
}

#[test]
fn as_expr_parses_an_expression() {
    let e = str_val("clients * contact_rate / total").as_expr().unwrap();
    assert!(matches!(e, syn::Expr::Binary(_)));
}

#[test]
fn as_expr_rejects_garbage() {
    assert!(str_val("###").as_expr().is_err());
    assert!(Val::Empty.as_expr().is_err());
}

#[test]
fn as_bin_expr_accepts_only_binary_operations() {
    let b = str_val("a * b + c").as_bin_expr().unwrap();
    assert!(matches!(b.op, syn::BinOp::Add(_)));
    assert!(str_val("lone_ident").as_bin_expr().is_err());
    assert!(str_val("###").as_bin_expr().is_err());
    assert!(Val::Empty.as_bin_expr().is_err());
}
