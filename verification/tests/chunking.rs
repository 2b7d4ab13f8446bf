use tokenizers::Tokenizer;
use vecembed::chunk_strings::{next_chunk_end, StringChunkIterator};

const TOKENIZER_JSON: &str = r#"{
  "version": "1.0",
  "truncation": null,
  "padding": null,
  "added_tokens": [],
  "normalizer": null,
  "pre_tokenizer": { "type": "Whitespace" },
  "post_processor": null,
  "decoder": null,
  "model": {
    "type": "WordLevel",
    "vocab": { "[UNK]": 0 },
    "unk_token": "[UNK]"
  }
}"#;

fn test_tokenizer() -> Tokenizer {
    Tokenizer::from_bytes(TOKENIZER_JSON.as_bytes()).expect("tokenizer config should load")
}

fn count(tok: &Tokenizer, s: &str) -> usize {
    tok.encode(s, true).expect("encoding should succeed").len()
}

#[test]
fn tiny_document_yields_one_chunk() {
    let tok = test_tokenizer();
    let text = "Hello, world.";
    let mut it = StringChunkIterator::new(text, 8192);
    let first = it.get_next_chunk(&tok).expect("one chunk expected").expect("no error");
    assert_eq!(first.1, 0);
    assert_eq!(first.2, 13);
    assert_eq!(first.0, "Hello, world.");
    assert!(it.get_next_chunk(&tok).is_none());
}

#[test]
fn empty_input_yields_nothing() {
    let tok = test_tokenizer();
    let mut it = StringChunkIterator::new("", 8192);
    assert!(it.get_next_chunk(&tok).is_none());
}

#[test]
fn multi_chunk_ascii_document() {
    let tok = test_tokenizer();
    // 100 KiB of eight-byte words, a period every 200 bytes.
    let mut text = String::new();
    while text.len() < 102400 {
        for _ in 0..24 {
            text.push_str("abcdefg ");
        }
        text.push_str("hijklmn.");
    }
    text.truncate(102400);
    let limit = 8192usize;
    let mut it = StringChunkIterator::new(&text, limit);
    let mut chunks: Vec<(usize, usize)> = Vec::new();
    while let Some(next) = it.get_next_chunk(&tok) {
        let (slice, start, end) = next.expect("no error");
        assert!(end > start, "chunks are never empty");
        assert!(text.is_char_boundary(start));
        assert!(text.is_char_boundary(end));
        assert_eq!(slice, &text[start..end]);
        assert!(count(&tok, slice) <= limit, "every chunk fits the token limit");
        chunks.push((start, end));
    }
    // The window is 4 * limit bytes, so about len / (4 * limit) chunks.
    let expected = (text.len() + 4 * limit - 1) / (4 * limit);
    assert_eq!(chunks.len(), expected);
    // Consecutive chunks elide exactly one ASCII byte.
    assert_eq!(chunks[0].0, 0);
    for pair in chunks.windows(2) {
        assert_eq!(pair[1].0, pair[0].1 + 1);
    }
    assert!(chunks.last().unwrap().1 >= text.len() - 1);
}

#[test]
fn chunk_ends_align_on_multibyte_characters() {
    let tok = test_tokenizer();
    let text = "ééé ééé ééé";
    let limit = 1usize;
    let mut it = StringChunkIterator::new(text, limit);
    let mut total: usize = 0;
    while let Some(next) = it.get_next_chunk(&tok) {
        let (slice, start, end) = next.expect("no error");
        assert!(end > start);
        assert!(text.is_char_boundary(start));
        assert!(text.is_char_boundary(end));
        assert_eq!(slice, &text[start..end]);
        total += end - start;
    }
    // Everything but the one-character elisions is covered.
    assert!(total >= text.len() / 2);
}

#[test]
fn next_chunk_end_respects_the_limit() {
    let tok = test_tokenizer();
    let text = "one two three four five six seven eight nine ten";
    let (end, tokens) = next_chunk_end(text, &tok, 0, 2).expect("no error");
    assert!(end > 0);
    assert!(tokens <= 2 || end <= 4);
    let slice = &text[0..end];
    assert!(count(&tok, slice) <= 2 || end <= 4);
}

#[test]
fn sentence_cut_prefers_a_late_period() {
    let tok = test_tokenizer();
    // Many words, with a period placed so that the shrink loop can cut
    // just after it (between 11 and 50 characters from the cut).
    let mut text = String::new();
    for _ in 0..40 {
        text.push_str("alpha beta gamma delta. epsilon zeta eta theta ");
    }
    let limit = 4usize;
    let mut it = StringChunkIterator::new(&text, limit);
    while let Some(next) = it.get_next_chunk(&tok) {
        let (slice, start, end) = next.expect("no error");
        assert!(end > start);
        assert!(count(&tok, slice) <= limit || end == start + 1);
        assert_eq!(slice, &text[start..end]);
    }
}
