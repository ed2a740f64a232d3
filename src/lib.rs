//! A parser and printer for MFM, the markup of federated social posts.
use vstd::prelude::*;

mod chars;
pub mod grammar;
pub mod lex;
pub mod merge;
pub mod model;
pub mod node;
pub mod parser;
pub mod printer;
pub mod simple;
pub mod util;

use crate::merge::text_merged;
use crate::node::{nodes_ok, nodes_within, Node, Simple};
use crate::parser::FullParser;
use crate::grammar::parse_from;
use crate::model::nodes_view;
use crate::printer::nodes_text;
use crate::simple::{simple_tokens, simple_view};

verus! {

/// A state that the grammar's own rules exclude; parsing never reports it.
#[derive(Clone, Copy, Debug, Eq, Hash, PartialEq)]
pub enum ParseError {
    Unreachable,
}

/// Parses `input` with the full grammar and the default nest limit of 20. Every input
/// parses, to the trees that the grammar gives; no two text leaves stand side by side at
/// any level, and containers nest at most 20 deep.
pub fn parse(input: &str) -> (r: Result<Vec<Node>, ParseError>)
    ensures
        r matches Ok(v) && nodes_view(v@) == parse_from(20, 0, input@, 0) && nodes_ok(v@)
            && nodes_within(v@, 20),
{
    let parser = FullParser::default();
    Ok(parser.parse(input))
}

/// Parses `input` with the full grammar and the given nest limit. Every input parses, to
/// the trees that the grammar gives; no two text leaves stand side by side at any level,
/// and containers nest at most `nest_limit` deep (one deep for a limit of 0 or 1, where
/// the content of the outermost containers stays literal text).
pub fn parse_with_nest_limit(input: &str, nest_limit: u32) -> (r: Result<Vec<Node>, ParseError>)
    ensures
        r matches Ok(v) && nodes_view(v@) == parse_from(nest_limit as int, 0, input@, 0)
            && nodes_ok(v@) && nodes_within(
            v@,
            if nest_limit > 1 {
                nest_limit as int
            } else {
                1
            },
        ),
{
    let parser = FullParser::new(nest_limit);
    Ok(parser.parse(input))
}

/// Parses `input` with the restricted grammar: emoji and text only. Every other
/// construct stays text.
pub fn parse_simple(input: &str) -> (r: Result<Vec<Simple>, ParseError>)
    ensures
        r matches Ok(v) && simple_view(v@) == simple_tokens(input@, 0) && text_merged(v@),
{
    let s = crate::chars::chars_of(input);
    Ok(crate::simple::parse_simple_chars(&s))
}

/// Prints a node tree in canonical MFM form.
pub fn to_string(nodes: Vec<Node>) -> (r: String)
    ensures
        r@ == nodes_text(nodes@),
{
    crate::printer::stringify_tree(nodes)
}

} // verus!
