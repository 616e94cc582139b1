//! The parsed syntax tree, treated as an opaque value of the parser crate,
//! and the one entry point that turns source text into such a tree.

use vstd::prelude::*;

use crate::error::ParseError;

verus! {

/// The parser's syntax tree type, opaque to the rest of the library.
#[verifier::external_type_specification]
#[verifier::external_body]
pub struct ExSynFile(syn::File);

/// Whether the parser accepts this source text; the answer depends on the
/// text alone.
pub uninterp spec fn source_parses(content: Seq<char>) -> bool;

/// Relies on `syn::parse_file`: parses Rust source text into a syntax tree,
/// a pure function of the text; the error message is handed back as a string.
#[verifier::external_body]
pub fn parse_source(content: &str) -> (r: Result<syn::File, String>)
    ensures
        r is Ok <==> source_parses(content@),
{
    syn::parse_file(content).map_err(|e| e.to_string())
}

/// Parses source text, wrapping a refusal in the library's parse error.
pub fn parse_or_error(content: &str) -> (r: Result<syn::File, ParseError>)
    ensures
        r is Ok <==> source_parses(content@),
{
    match parse_source(content) {
        Ok(ast) => Ok(ast),
        Err(message) => Err(ParseError::new(message)),
    }
}

} // verus!
