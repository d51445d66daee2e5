use rs_rag::chunker::{EmbeddingBackend, SemanticChunker};
use rs_rag::document::{assemble_documents, BackendError, Metadata};

// Backend that records nothing and embeds each window as a vector of
// its byte length, three entries long.
struct LenEmbed;

impl EmbeddingBackend for LenEmbed {
    type Vector = Vec<f64>;

    fn embed(&self, texts: &Vec<String>) -> Result<Vec<Vec<f64>>, BackendError> {
        Ok(texts.iter().map(|t| vec![t.len() as f64; 3]).collect())
    }
}

// Backend whose whole batch fails, as an unavailable service would.
struct FailingEmbed;

impl EmbeddingBackend for FailingEmbed {
    type Vector = Vec<f64>;

    fn embed(&self, _texts: &Vec<String>) -> Result<Vec<Vec<f64>>, BackendError> {
        Err(BackendError {
            message: "backend unavailable".to_string(),
        })
    }
}

fn non_whitespace(s: &str) -> String {
    s.chars().filter(|c| !c.is_whitespace()).collect()
}

#[test]
fn split_without_terminal_punctuation_is_one_trimmed_sentence() {
    let chunker = SemanticChunker::new(LenEmbed, 0);
    let sentences = chunker.split_text("  no punctuation in this text  ");
    assert_eq!(sentences, vec!["no punctuation in this text".to_string()]);
}

#[test]
fn split_of_whitespace_only_text_is_one_empty_sentence() {
    let chunker = SemanticChunker::new(LenEmbed, 0);
    let sentences = chunker.split_text("   ");
    assert_eq!(sentences, vec!["".to_string()]);
}

#[test]
fn split_keeps_punctuation_and_drops_separator_whitespace() {
    let chunker = SemanticChunker::new(LenEmbed, 0);
    let sentences = chunker.split_text("One.  Two!\tThree? Four");
    assert_eq!(
        sentences,
        vec![
            "One.".to_string(),
            "Two!".to_string(),
            "Three?".to_string(),
            "Four".to_string()
        ]
    );
}

#[test]
fn split_with_trailing_separator_has_no_empty_final_sentence() {
    let chunker = SemanticChunker::new(LenEmbed, 0);
    let sentences = chunker.split_text("Hi there. Bye. ");
    assert_eq!(sentences, vec!["Hi there.".to_string(), "Bye.".to_string()]);
}

#[test]
fn split_of_terminal_punctuation_without_whitespace_is_one_sentence() {
    let chunker = SemanticChunker::new(LenEmbed, 0);
    let sentences = chunker.split_text("End.");
    assert_eq!(sentences, vec!["End.".to_string()]);
}

#[test]
fn consecutive_punctuation_separates_once_at_the_whitespace() {
    let chunker = SemanticChunker::new(LenEmbed, 0);
    let sentences = chunker.split_text("Wow!! Next one. Done");
    assert_eq!(
        sentences,
        vec![
            "Wow!!".to_string(),
            "Next one.".to_string(),
            "Done".to_string()
        ]
    );
}

#[test]
fn split_works_on_non_ascii_text() {
    let chunker = SemanticChunker::new(LenEmbed, 1);
    let sentences = chunker.split_text("Héllo wörld! Ça va? Très bien.");
    assert_eq!(
        sentences,
        vec![
            "Héllo wörld!".to_string(),
            "Ça va?".to_string(),
            "Très bien.".to_string()
        ]
    );
    let combined = chunker.combine_sentences(&sentences);
    assert_eq!(combined[1], "Héllo wörld! Ça va? Très bien.");
}

#[test]
fn joining_split_sentences_keeps_the_non_whitespace_characters() {
    let chunker = SemanticChunker::new(LenEmbed, 0);
    let text = "  One. Two!   Three?\nFour  ";
    let sentences = chunker.split_text(text);
    let joined = sentences.join(" ");
    assert_eq!(non_whitespace(&joined), non_whitespace(text));
}

#[test]
fn window_sentence_counts_match_the_buffer_and_position() {
    let chunker = SemanticChunker::new(LenEmbed, 2);
    let sentences = vec![
        "A.".to_string(),
        "B.".to_string(),
        "C.".to_string(),
        "D.".to_string(),
        "E.".to_string(),
    ];
    let combined = chunker.combine_sentences(&sentences);
    let counts: Vec<usize> = combined
        .iter()
        .map(|w| w.split_whitespace().count())
        .collect();
    // min(b, i) + 1 + min(b, n - 1 - i) for b = 2, n = 5
    assert_eq!(counts, vec![3, 4, 5, 4, 3]);
}

#[test]
fn zero_buffer_windows_equal_the_sentences() {
    let chunker = SemanticChunker::new(LenEmbed, 0);
    let sentences = vec![
        "First one.".to_string(),
        "Second one!".to_string(),
        "Third one?".to_string(),
    ];
    let combined = chunker.combine_sentences(&sentences);
    assert_eq!(combined, sentences);
}

#[test]
fn oversized_buffer_includes_every_sentence() {
    let chunker = SemanticChunker::new(LenEmbed, usize::MAX);
    let sentences = vec!["A.".to_string(), "B.".to_string(), "C.".to_string()];
    let combined = chunker.combine_sentences(&sentences);
    assert_eq!(combined, vec!["A. B. C.".to_string(); 3]);
}

#[test]
fn three_sentences_with_buffer_one_overlap_as_neighbors() {
    let chunker = SemanticChunker::new(LenEmbed, 1);
    let sentences = vec!["A.".to_string(), "B.".to_string(), "C.".to_string()];
    let combined = chunker.combine_sentences(&sentences);
    assert_eq!(combined.len(), 3);
    assert_eq!(combined[0], "A. B.");
    assert_eq!(combined[1], "A. B. C.");
    assert_eq!(combined[2], "B. C.");
}

#[test]
fn two_sentence_text_with_buffer_one_embeds_the_full_window() {
    let chunker = SemanticChunker::new(LenEmbed, 1);
    let text = "Hello world! This is a test.".to_string();

    let sentences = chunker.split_text(&text);
    assert_eq!(sentences, vec!["Hello world!", "This is a test."]);
    let combined = chunker.combine_sentences(&sentences);
    assert_eq!(
        combined,
        vec![
            "Hello world! This is a test.".to_string(),
            "Hello world! This is a test.".to_string()
        ]
    );

    let documents = chunker.create_documents(text).unwrap();
    assert_eq!(documents.len(), 2);
    assert_eq!(documents[0].content, "Hello world!");
    assert_eq!(documents[1].content, "This is a test.");
    // Both windows are the whole text, 28 bytes long.
    let expected = vec![28.0; 3];
    assert_eq!(documents[0].metadata.get("embedding"), Some(&expected));
    assert_eq!(documents[1].metadata.get("embedding"), Some(&expected));
}

#[test]
fn empty_text_yields_no_sentences_and_no_documents() {
    let chunker = SemanticChunker::new(LenEmbed, 1);
    assert_eq!(chunker.split_text("").len(), 0);
    let documents = chunker.create_documents("".to_string()).unwrap();
    assert_eq!(documents.len(), 0);
}

#[test]
fn a_backend_failure_is_surfaced_unmodified() {
    let chunker = SemanticChunker::new(FailingEmbed, 1);
    let result = chunker.create_documents("One. Two.".to_string());
    let err = result.err().unwrap();
    assert_eq!(err.message, "backend unavailable");
}

#[test]
fn assembly_stops_at_the_shorter_sequence() {
    let sentences = vec!["A.".to_string(), "B.".to_string(), "C.".to_string()];
    let embeddings: Vec<Vec<f64>> = vec![vec![1.0], vec![2.0]];
    let documents = assemble_documents(sentences, embeddings);
    assert_eq!(documents.len(), 2);
    assert_eq!(documents[0].content, "A.");
    assert_eq!(documents[0].metadata.get("embedding"), Some(&vec![1.0]));
    assert_eq!(documents[1].content, "B.");
    assert_eq!(documents[1].metadata.get("embedding"), Some(&vec![2.0]));

    let sentences = vec!["A.".to_string()];
    let embeddings: Vec<Vec<f64>> = vec![vec![1.0], vec![2.0], vec![3.0]];
    let documents = assemble_documents(sentences, embeddings);
    assert_eq!(documents.len(), 1);
    assert_eq!(documents[0].content, "A.");
}

#[test]
fn metadata_lookup_finds_the_latest_binding() {
    let mut metadata: Metadata<i32> = Metadata::new();
    assert!(!metadata.contains_key("embedding"));
    assert_eq!(metadata.get("embedding"), None);

    metadata.insert("embedding".to_string(), 7);
    metadata.insert("page".to_string(), 3);
    assert!(metadata.contains_key("embedding"));
    assert!(metadata.contains_key("page"));
    assert!(!metadata.contains_key("source"));
    assert_eq!(metadata.get("embedding"), Some(&7));
    assert_eq!(metadata.get("page"), Some(&3));

    metadata.insert("embedding".to_string(), 11);
    assert_eq!(metadata.get("embedding"), Some(&11));
}
