//! Predicting what embedding a text will cost: its token count under the
//! provider's tokenizer, times a fixed price per token.
use vstd::prelude::*;

use crate::error::SemanticSearchError;
use crate::generate::GenerateEmbeddingsCommand;
use crate::table::{
    csv_records, document_of_row, first_short_row, parse_documents, rows_complete, Document,
};

verus! {

/// Price of one token, in ten-millionths of a dollar (0.0004 dollars per
/// thousand tokens).
pub const TOKEN_COST_UNITS: u64 = 4;

/// The tokens the cl100k_base byte-pair tokenizer makes of a text, special
/// tokens allowed; nothing where it fails on the text.
pub uninterp spec fn cl100k_tokens(text: Seq<char>) -> Option<Seq<u32>>;

/// How many tokens the tokenizer makes of a text.
pub open spec fn cl100k_token_count(text: Seq<char>) -> Option<nat> {
    match cl100k_tokens(text) {
        Some(t) => Some(t.len()),
        None => None,
    }
}

/// Relies on tiktoken_rs::cl100k_base and CoreBPE::encode, with every special
/// token allowed: the tokens of `text`, or nothing where the tokenizer could
/// not be built or could not tokenize.
#[verifier::external_body]
fn encode_cl100k(text: &str) -> (r: Option<Vec<u32>>)
    ensures
        match r {
            Some(t) => cl100k_tokens(text@) == Some(t@),
            None => cl100k_tokens(text@) is None,
        },
{
    let bpe = tiktoken_rs::cl100k_base().ok()?;
    let allowed = bpe.special_tokens();
    bpe.encode(text, &allowed).ok().map(|(tokens, _)| tokens)
}

/// What embedding `text` costs, in ten-millionths of a dollar; nothing where
/// it cannot be tokenized.
pub open spec fn cost_units_spec(text: Seq<char>) -> Option<nat> {
    match cl100k_token_count(text) {
        Some(n) => Some(TOKEN_COST_UNITS as nat * n),
        None => None,
    }
}

/// The cost of `tokens` tokens, in ten-millionths of a dollar.
pub fn cost_of_tokens(tokens: usize) -> (r: u128)
    ensures
        r == TOKEN_COST_UNITS as nat * tokens as nat,
{
    let t = tokens as u128;
    let k = TOKEN_COST_UNITS as u128;
    assert(t * k <= 0xffff_ffff_ffff_ffff * 4) by (nonlinear_arith)
        requires
            t <= 0xffff_ffff_ffff_ffff,
            k == 4,
    ;
    t * k
}

/// Cost estimator determinism: equal texts have equal token counts and equal
/// costs.
pub proof fn lemma_cost_deterministic(a: Seq<char>, b: Seq<char>)
    requires
        a == b,
    ensures
        cl100k_token_count(a) == cl100k_token_count(b),
        cost_units_spec(a) == cost_units_spec(b),
{
}

/// The cost of embedding `query`, in ten-millionths of a dollar.
pub fn get_query_cost_units(query: &str) -> (r: Result<u128, SemanticSearchError>)
    ensures
        match r {
            Ok(c) => cost_units_spec(query@) == Some(c as nat),
            Err(e) => cost_units_spec(query@) is None && e == SemanticSearchError::Tokenizer,
        },
{
    match encode_cl100k(query) {
        None => Err(SemanticSearchError::Tokenizer),
        Some(tokens) => Ok(cost_of_tokens(tokens.len())),
    }
}

/// The body column of a table's rows, concatenated with no separator.
pub open spec fn bodies_text(rows: Seq<Seq<Seq<char>>>) -> Seq<char>
    decreases rows.len(),
{
    if rows.len() == 0 {
        seq![]
    } else {
        bodies_text(rows.drop_last()) + rows.last()[2]
    }
}

proof fn lemma_bodies_text(docs: Seq<Document>, rows: Seq<Seq<Seq<char>>>)
    requires
        docs.len() == rows.len(),
        forall|i: int| 0 <= i < docs.len() ==> document_of_row(#[trigger] docs[i], rows[i]),
    ensures
        concat_bodies_spec(docs) == bodies_text(rows),
    decreases docs.len(),
{
    if docs.len() > 0 {
        let d = docs.drop_last();
        let r = rows.drop_last();
        assert forall|i: int| 0 <= i < d.len() implies document_of_row(#[trigger] d[i], r[i]) by {
            assert(d[i] == docs[i] && r[i] == rows[i]);
        }
        lemma_bodies_text(d, r);
        assert(document_of_row(docs[docs.len() - 1], rows[rows.len() - 1]));
    }
}

/// The bodies of documents, concatenated with no separator.
pub open spec fn concat_bodies_spec(docs: Seq<Document>) -> Seq<char>
    decreases docs.len(),
{
    if docs.len() == 0 {
        seq![]
    } else {
        concat_bodies_spec(docs.drop_last()) + docs.last().body@
    }
}

/// All document bodies as one text, with no separator.
pub fn concat_bodies(docs: &Vec<Document>) -> (r: String)
    ensures
        r@ == concat_bodies_spec(docs@),
{
    let mut out = String::new();
    let mut i: usize = 0;
    while i < docs.len()
        invariant
            i <= docs@.len(),
            out@ == concat_bodies_spec(docs@.take(i as int)),
        decreases docs@.len() - i,
    {
        out.append(docs[i].body.as_str());
        proof {
            assert(docs@.take(i as int + 1).drop_last() =~= docs@.take(i as int));
        }
        i = i + 1;
    }
    assert(docs@.take(i as int) =~= docs@);
    out
}

impl GenerateEmbeddingsCommand {
    /// The cost of embedding every body of the input table, in
    /// ten-millionths of a dollar.
    pub fn get_input_cost_estimate(&self, input: &str) -> (r: Result<u128, SemanticSearchError>)
        ensures
            match csv_records(input@, true) {
                Err(m) => r matches Err(SemanticSearchError::MalformedTable(msg)) && msg@ == m,
                Ok(rows) => if !rows_complete(rows, 3) {
                    exists|i: int|
                        first_short_row(rows, 3, i) && r == Err::<u128, SemanticSearchError>(
                            SemanticSearchError::MissingColumn {
                                row: i as usize,
                                expected: 3,
                                found: rows[i].len() as usize,
                            },
                        )
                } else {
                    match r {
                        Ok(c) => cost_units_spec(bodies_text(rows)) == Some(c as nat),
                        Err(e) => cost_units_spec(bodies_text(rows)) is None && e
                            == SemanticSearchError::Tokenizer,
                    }
                },
            },
    {
        let docs = match parse_documents(input) {
            Ok(docs) => docs,
            Err(e) => {
                return Err(e);
            },
        };
        let text = concat_bodies(&docs);
        proof {
            lemma_bodies_text(docs@, csv_records(input@, true)->Ok_0);
        }
        get_query_cost_units(text.as_str())
    }
}

} // verus!
