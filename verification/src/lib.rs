//! A verified JSON codec: a tokenizer and a recursive-descent parser that
//! turn JSON text into an in-memory value tree, or fail with a closed set of
//! error kinds.  The top-level form must be an object or an array; a bare
//! scalar at the root is rejected.

pub mod parser;
pub mod tokenizer;
pub mod types;

use vstd::prelude::*;

use parser::{spec_parse_tokens, Parser};
use tokenizer::{spec_tokenize, Tokenizer};
use types::{doc_model, DocModel, ErrorKind};

pub use types::JsonDocument;

verus! {

/// The whole pipeline on a character sequence: the token sequence of the
/// text, then the document those tokens parse to, or the first error of
/// either stage.
pub open spec fn spec_parse_json(s: Seq<char>) -> Result<DocModel, ErrorKind> {
    match spec_tokenize(s) {
        Ok(ts) => spec_parse_tokens(ts),
        Err(e) => Err(e),
    }
}

/// Parses JSON text into its value tree: the text is tokenized in full, then
/// the tokens are parsed into the root document.  The first lexical or
/// syntactic violation aborts the whole parse; the caller receives either a
/// fully valid tree or one descriptive error, never a partial result.
pub fn parse_json(json_string: &str) -> (r: Result<JsonDocument, ErrorKind>)
    ensures
        match (r, spec_parse_json(json_string@)) {
            (Ok(d), Ok(m)) => doc_model(d) == m,
            (Err(e1), Err(e2)) => e1 == e2,
            _ => false,
        },
        r matches Ok(d) ==> types::doc_wf(doc_model(d)),
{
    let tokenizer = Tokenizer { input_string: json_string };
    let tokens = match tokenizer.tokenize_json() {
        Ok(tokens) => tokens,
        Err(e) => {
            return Err(e);
        },
    };
    let parser = Parser { tokens };
    let r = parser.parse_tokens();
    proof {
        parser::lemma_parse_tokens_wf(tokenizer::token_models(parser.tokens@));
    }
    r
}

/// Object keys are unique at read time: every object anywhere in a parsed
/// tree, the root included, has no two entries with the same key, because a
/// duplicate key overwrites the earlier entry instead of standing beside it.
pub proof fn lemma_parse_json_object_keys_unique(s: Seq<char>, m: DocModel)
    requires
        spec_parse_json(s) == Ok::<DocModel, ErrorKind>(m),
    ensures
        types::doc_wf(m),
{
    match spec_tokenize(s) {
        Ok(ts) => {
            parser::lemma_parse_tokens_wf(ts);
        },
        Err(_) => {},
    }
}

/// Parsing the same valid input twice yields structurally equal trees: the
/// parse result is a function of the text alone, so any two documents that
/// `parse_json`'s contract ties to the same text have equal models.
pub proof fn lemma_parse_structural_idempotence(s: Seq<char>, m1: DocModel, m2: DocModel)
    requires
        spec_parse_json(s) == Ok::<DocModel, ErrorKind>(m1),
        spec_parse_json(s) == Ok::<DocModel, ErrorKind>(m2),
    ensures
        m1 == m2,
{
}

} // verus!
