use vstd::prelude::*;

verus! {

/// The embedding models shared by the workers. Each worker loads its own
/// model instance; this value only travels with them.
#[derive(Clone, Copy, Debug, PartialEq, Eq, Structural)]
pub struct Models {}

impl Models {
    pub fn new() -> Models {
        Models {}
    }
}

/// What a model's tokenizer hands to its encoder.
pub trait TokenizedOutput {}

/// Tokenizer output for a model that tokenizes inside its own encoder: the
/// text itself, passed through.
pub struct NullTokens {
    tokens: String,
}

impl TokenizedOutput for NullTokens {}

impl NullTokens {
    pub closed spec fn text(&self) -> Seq<char> {
        self.tokens@
    }

    pub fn as_text(&self) -> (r: &String)
        ensures
            r@ == self.text(),
    {
        &self.tokens
    }
}

/// One token record per text, each holding its text unchanged.
pub fn tokenize_plain(texts: &Vec<String>) -> (r: Vec<NullTokens>)
    ensures
        r@.len() == texts@.len(),
        forall|i: int| 0 <= i < texts@.len() ==> (#[trigger] r@[i]).text() == texts@[i]@,
{
    let mut out: Vec<NullTokens> = Vec::new();
    let mut i: usize = 0;
    while i < texts.len()
        invariant
            i <= texts.len(),
            out@.len() == i,
            forall|j: int| 0 <= j < i ==> (#[trigger] out@[j]).text() == texts@[j]@,
        decreases texts.len() - i,
    {
        out.push(NullTokens { tokens: texts[i].clone() });
        i = i + 1;
    }
    out
}

/// The texts that token records hold, in order: what the encoder is given.
pub fn token_texts(tokens: &Vec<NullTokens>) -> (r: Vec<String>)
    ensures
        r@.len() == tokens@.len(),
        forall|i: int| 0 <= i < tokens@.len() ==> (#[trigger] r@[i])@ == tokens@[i].text(),
{
    let mut out: Vec<String> = Vec::new();
    let mut i: usize = 0;
    while i < tokens.len()
        invariant
            i <= tokens.len(),
            out@.len() == i,
            forall|j: int| 0 <= j < i ==> (#[trigger] out@[j])@ == tokens@[j].text(),
        decreases tokens.len() - i,
    {
        out.push(tokens[i].as_text().clone());
        i = i + 1;
    }
    out
}

/// Requests to the indexer worker.
pub enum IndexMessage {
    Index { key: u64, text: String },
}

/// Replies of the indexer worker.
#[derive(Clone, Copy, Debug, PartialEq, Eq, Structural)]
pub enum IndexResponse {
    IndexResult,
}

} // verus!
