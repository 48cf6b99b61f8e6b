//! Conversions from parsed string values to host-language AST nodes, for the
//! downstream code generators: the string payloads are opaque to the parser
//! core, and these helpers hand them to `syn` on demand.

use vstd::prelude::*;

use crate::ast::Val;

verus! {

#[verifier::external_type_specification]
#[verifier::external_body]
pub struct ExIdent(syn::Ident);

#[verifier::external_type_specification]
#[verifier::external_body]
pub struct ExExpr(syn::Expr);

#[verifier::external_type_specification]
#[verifier::external_body]
pub struct ExExprBinary(syn::ExprBinary);

#[verifier::external_type_specification]
#[verifier::external_body]
pub struct ExError(syn::Error);

/// Whether `syn::parse_str::<syn::Ident>` accepts these characters as one
/// identifier (raw identifiers such as `r#loop` included); parsing is a
/// function of the characters alone.
pub uninterp spec fn ident_parse_ok(s: Seq<char>) -> bool;

/// Whether `syn::parse_str::<syn::Expr>` accepts these characters as one
/// expression; parsing is a function of the characters alone.
pub uninterp spec fn expr_parse_ok(s: Seq<char>) -> bool;

/// Whether the expression that `syn::parse_str::<syn::Expr>` reads from these
/// characters is a binary operation; a function of the characters alone.
pub uninterp spec fn expr_is_binary(s: Seq<char>) -> bool;

/// Relies on `syn::parse_str::<syn::Ident>`: deterministic in `s`, it returns
/// `Ok` exactly on the strings that lex as one identifier, raw identifiers
/// included.
#[verifier::external_body]
fn parse_ident_str(s: &str) -> (r: Result<syn::Ident, syn::Error>)
    ensures
        r is Ok <==> ident_parse_ok(s@),
{
    syn::parse_str::<syn::Ident>(s)
}

/// Relies on `syn::parse_str::<syn::Expr>`: deterministic in `s`, it returns
/// `Ok` exactly on the strings that parse as one expression.
#[verifier::external_body]
fn parse_expr_str(s: &str) -> (r: Result<syn::Expr, syn::Error>)
    ensures
        r is Ok <==> expr_parse_ok(s@),
{
    syn::parse_str::<syn::Expr>(s)
}

/// Relies on `syn::parse_str::<syn::Expr>` and the variants of `syn::Expr`:
/// yields the parsed expression when it is a binary operation, `Err(None)`
/// when it parses to any other shape, and `Err(Some(_))` with the parse error
/// when it does not parse at all.
#[verifier::external_body]
fn parse_binary_expr_str(s: &str) -> (r: Result<syn::ExprBinary, Option<syn::Error>>)
    ensures
        r is Ok <==> (expr_parse_ok(s@) && expr_is_binary(s@)),
        (r matches Err(Some(_))) <==> !expr_parse_ok(s@),
{
    match syn::parse_str::<syn::Expr>(s) {
        Ok(syn::Expr::Binary(b)) => Ok(b),
        Ok(_) => Err(None),
        Err(e) => Err(Some(e)),
    }
}

/// Relies on `syn::Error::new` and `proc_macro2::Span::call_site`: builds an
/// error value carrying `msg` at the call site.
#[verifier::external_body]
fn error_new_call_site(msg: &str) -> (r: syn::Error) {
    syn::Error::new(proc_macro2::Span::call_site(), msg)
}

impl Val {
    /// The string payload as a host-language identifier: succeeds exactly on
    /// a `Str` value whose text lexes as one identifier.
    pub fn as_ident(&self) -> (r: Result<syn::Ident, syn::Error>)
        ensures
            (r is Ok) <==> (self matches Val::Str(s) && ident_parse_ok(s@)),
    {
        match self {
            Val::Str(s) => parse_ident_str(s.as_str()),
            _ => Err(error_new_call_site("only a Val::Str can convert to an identifier")),
        }
    }

    /// The string payload as a host-language expression: succeeds exactly on
    /// a `Str` value whose text parses as one expression.
    pub fn as_expr(&self) -> (r: Result<syn::Expr, syn::Error>)
        ensures
            (r is Ok) <==> (self matches Val::Str(s) && expr_parse_ok(s@)),
    {
        match self {
            Val::Str(s) => parse_expr_str(s.as_str()),
            _ => Err(error_new_call_site("only a Val::Str can convert to an expression")),
        }
    }

    /// The string payload as a binary expression (e.g. `a*b + c`): succeeds
    /// exactly on a `Str` value whose text parses as one binary operation.
    pub fn as_bin_expr(&self) -> (r: Result<syn::ExprBinary, syn::Error>)
        ensures
            (r is Ok) <==> (self matches Val::Str(s) && expr_parse_ok(s@) && expr_is_binary(s@)),
    {
        match self {
            Val::Str(s) => match parse_binary_expr_str(s.as_str()) {
                Ok(b) => Ok(b),
                Err(Some(e)) => Err(e),
                Err(None) => Err(
                    error_new_call_site("only a binary expression (e.g. a*b, a*b+c) is supported"),
                ),
            },
            _ => Err(error_new_call_site("only a Val::Str can convert to a binary expression")),
        }
    }
}

} // verus!
