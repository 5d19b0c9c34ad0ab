//! Embedding model selection: which model a name denotes, its vector
//! dimension and its text prefixes. Loading a model and running
//! inference belong to the embedding backend outside the library;
//! callers hand embeddings in as plain vectors.

use vstd::prelude::*;

use crate::indexing::lower_seq;
use crate::indexing::to_lower;
use crate::strutil::str_eq;

verus! {

pub const DEFAULT_MODEL: &'static str = "minilm";

/// The embedding models the pipeline knows.
#[derive(Debug, Clone, Copy, PartialEq, Eq, Structural)]
pub enum ModelType {
    MiniLM,
    Nomic,
}

impl ModelType {
    /// The model a name denotes, compared case-insensitively; an
    /// unknown name falls back to the default model.
    pub open spec fn spec_parse(s: Seq<char>) -> ModelType {
        let l = lower_seq(s);
        if l == "minilm"@ || l == "all-minilm-l6-v2"@ {
            ModelType::MiniLM
        } else if l == "nomic"@ || l == "nomic-embed-text-v1.5"@ {
            ModelType::Nomic
        } else {
            ModelType::MiniLM
        }
    }

    /// Parses a model name.
    pub fn parse(s: &str) -> (r: Self)
        ensures
            r == Self::spec_parse(s@),
    {
        let l = to_lower(s);
        if str_eq(l.as_str(), "minilm") || str_eq(l.as_str(), "all-minilm-l6-v2") {
            ModelType::MiniLM
        } else if str_eq(l.as_str(), "nomic") || str_eq(l.as_str(), "nomic-embed-text-v1.5") {
            ModelType::Nomic
        } else {
            ModelType::MiniLM
        }
    }

    /// The fixed length of this model's embedding vectors.
    pub open spec fn spec_dimension(self) -> usize {
        match self {
            ModelType::MiniLM => 384usize,
            ModelType::Nomic => 768usize,
        }
    }

    /// The fixed length of this model's embedding vectors.
    pub fn dimension(&self) -> (r: usize)
        ensures
            r == self.spec_dimension(),
    {
        match self {
            ModelType::MiniLM => 384,
            ModelType::Nomic => 768,
        }
    }

    /// The prefix this model wants in front of document text.
    pub open spec fn spec_document_prefix(self) -> Seq<char> {
        match self {
            ModelType::MiniLM => ""@,
            ModelType::Nomic => "search_document: "@,
        }
    }

    /// The prefix this model wants in front of document text.
    pub fn document_prefix(&self) -> (r: &'static str)
        ensures
            r@ == self.spec_document_prefix(),
    {
        match self {
            ModelType::MiniLM => "",
            ModelType::Nomic => "search_document: ",
        }
    }

    /// The prefix this model wants in front of query text.
    pub open spec fn spec_query_prefix(self) -> Seq<char> {
        match self {
            ModelType::MiniLM => ""@,
            ModelType::Nomic => "search_query: "@,
        }
    }

    /// The prefix this model wants in front of query text.
    pub fn query_prefix(&self) -> (r: &'static str)
        ensures
            r@ == self.spec_query_prefix(),
    {
        match self {
            ModelType::MiniLM => "",
            ModelType::Nomic => "search_query: ",
        }
    }

    /// The model repository this model is published under.
    pub fn repo_id(&self) -> (r: &'static str)
        ensures
            self == ModelType::MiniLM ==> r@ == "sentence-transformers/all-MiniLM-L6-v2"@,
            self == ModelType::Nomic ==> r@ == "nomic-ai/nomic-embed-text-v1.5"@,
    {
        match self {
            ModelType::MiniLM => "sentence-transformers/all-MiniLM-L6-v2",
            ModelType::Nomic => "nomic-ai/nomic-embed-text-v1.5",
        }
    }
}

/// A chosen embedding model. The backend that loads weights and runs
/// inference lives with the caller; this value fixes which model the
/// caller must use and what shape its vectors have.
pub struct EmbeddingModel {
    model_type: ModelType,
}

impl EmbeddingModel {
    /// The model this value selects.
    pub closed spec fn spec_model_type(&self) -> ModelType {
        self.model_type
    }

    /// Selects a model by name; no name selects the default model.
    pub fn new(model_name: Option<&str>) -> (r: Self)
        ensures
            r.spec_model_type() == match model_name {
                Some(n) => ModelType::spec_parse(n@),
                None => ModelType::spec_parse(DEFAULT_MODEL@),
            },
    {
        let model_type = match model_name {
            Some(n) => ModelType::parse(n),
            None => ModelType::parse(DEFAULT_MODEL),
        };
        EmbeddingModel { model_type }
    }

    /// The model this value selects.
    pub fn model_type(&self) -> (r: ModelType)
        ensures
            r == self.spec_model_type(),
    {
        self.model_type
    }

    /// The fixed length of this model's embedding vectors.
    pub fn embedding_dimension(&self) -> (r: usize)
        ensures
            r == self.spec_model_type().spec_dimension(),
    {
        self.model_type.dimension()
    }
}

/// The vector dimension of the model a name denotes.
pub fn get_model_dimension(model: &str) -> (r: usize)
    ensures
        r == ModelType::spec_parse(model@).spec_dimension(),
{
    ModelType::parse(model).dimension()
}

} // verus!
