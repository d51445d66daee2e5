//! The semantic chunker: the pipeline from raw text to documents.

use vstd::prelude::*;

use crate::document::{assemble_documents, BackendError, Document};
use crate::splitter::{split_sentences, split_spec};
use crate::window::{build_windows, window_spec};

verus! {

/// The embedding capability the chunker consumes: one batch
/// operation that turns an ordered sequence of strings into an
/// equal-length, identically ordered sequence of vectors, failing as
/// a unit.  Implementations live outside this library; the length
/// promise below is their contract.
pub trait EmbeddingBackend {
    /// The numeric vector type the backend produces.
    type Vector;

    /// Embed the whole batch: on success, one vector per input
    /// string, in input order.
    fn embed(&self, texts: &Vec<String>) -> (r: Result<Vec<Self::Vector>, BackendError>)
        ensures
            r matches Ok(v) ==> v@.len() == texts@.len(),
    ;
}

/// The semantic chunker: splits text into sentences, embeds each
/// sentence's context window through the backend, and assembles one
/// document per sentence.
pub struct SemanticChunker<E: EmbeddingBackend> {
    embedder: E,
    buffer_size: usize,
}

impl<E: EmbeddingBackend> SemanticChunker<E> {
    /// The configured number of neighboring sentences joined on each
    /// side of a sentence when its window is built.
    pub closed spec fn buffer(self) -> int {
        self.buffer_size as int
    }

    /// A chunker over the given backend with a fixed buffer size.
    pub fn new(embedder: E, buffer_size: usize) -> (r: Self)
        ensures
            r.buffer() == buffer_size as int,
    {
        SemanticChunker { embedder, buffer_size }
    }

    /// Split `text` into its ordered sequence of trimmed sentences.
    pub fn split_text(&self, text: &str) -> (r: Vec<String>)
        ensures
            r.deep_view() == split_spec(text@),
    {
        split_sentences(text)
    }

    /// Build the context window for each sentence: the join, with
    /// single spaces, of the sentence and its in-bounds neighbors.
    pub fn combine_sentences(&self, sentences: &[String]) -> (r: Vec<String>)
        ensures
            r@.len() == sentences@.len(),
            forall|i: int|
                0 <= i < r@.len() ==> r@[i]@ == window_spec(sentences.deep_view(), i, self.buffer()),
    {
        build_windows(sentences, self.buffer_size)
    }

    /// Embed a batch of sentences through the backend.  The batch
    /// succeeds or fails as a unit; on success the backend returns
    /// one vector per sentence.
    pub fn embed_sentences(&self, sentences: Vec<String>) -> (r: Result<
        Vec<E::Vector>,
        BackendError,
    >)
        ensures
            r matches Ok(v) ==> v@.len() == sentences@.len(),
    {
        self.embedder.embed(&sentences)
    }

    /// Run the whole pipeline on `text`.  On success there is one
    /// document per sentence, in sentence order; document `i` carries
    /// sentence `i` as content — never the windowed text — and a
    /// single metadata binding for `"embedding"`.  A backend failure
    /// is returned unmodified.
    pub fn create_documents(&self, text: String) -> (r: Result<
        Vec<Document<E::Vector>>,
        BackendError,
    >)
        ensures
            r matches Ok(docs) ==> {
                &&& docs@.len() == split_spec(text@).len()
                &&& forall|i: int|
                    0 <= i < docs@.len() ==> (#[trigger] docs@[i]).content@ == split_spec(text@)[i]
                        && docs@[i].metadata@.dom() == Set::<Seq<char>>::empty().insert(
                        "embedding"@,
                    )
            },
    {
        let sentences = self.split_text(text.as_str());
        let combined = self.combine_sentences(sentences.as_slice());
        match self.embed_sentences(combined) {
            Ok(embeddings) => {
                let ghost sents = sentences.deep_view();
                let docs = assemble_documents(sentences, embeddings);
                proof {
                    assert(docs@.len() == sents.len());
                    assert(forall|i: int|
                        0 <= i < docs@.len() ==> (#[trigger] docs@[i]).metadata@.dom()
                            =~= Set::<Seq<char>>::empty().insert("embedding"@));
                }
                Ok(docs)
            },
            Err(e) => Err(e),
        }
    }
}

} // verus!
