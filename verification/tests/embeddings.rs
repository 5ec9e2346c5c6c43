use nodespace_core::embedding::{EmbeddingConfig, NodeEmbeddingService};

#[test]
fn test_chunk_content_single() {
    // Create a minimal service for testing chunking logic
    let config = EmbeddingConfig::default();

    // Test content under limit
    let short_content = "Hello world";
    // Approximate: 11 chars / 4 = ~3 tokens, well under 512
    assert!(short_content.len() < config.max_tokens_per_chunk * 4);
}

#[test]
fn test_content_hash() {
    let hash1 = NodeEmbeddingService::compute_content_hash("hello");
    let hash2 = NodeEmbeddingService::compute_content_hash("hello");
    let hash3 = NodeEmbeddingService::compute_content_hash("world");

    assert_eq!(hash1, hash2);
    assert_ne!(hash1, hash3);
    assert_eq!(hash1.len(), 64); // SHA256 hex = 64 chars
}

#[test]
fn test_find_char_boundary_ascii() {
    let s = "hello world";
    // ASCII characters are all single-byte, so any index is valid
    assert_eq!(NodeEmbeddingService::find_char_boundary(s, 0), 0);
    assert_eq!(NodeEmbeddingService::find_char_boundary(s, 5), 5);
    assert_eq!(NodeEmbeddingService::find_char_boundary(s, 100), s.len());
}

#[test]
fn test_find_char_boundary_emoji() {
    // ✅ is 3 bytes (E2 9C 85)
    let s = "test ✅ done";
    // Byte positions: t(0) e(1) s(2) t(3) ' '(4) ✅(5,6,7) ' '(8) d(9) o(10) n(11) e(12)

    // Index 5 is start of emoji - valid
    assert_eq!(NodeEmbeddingService::find_char_boundary(s, 5), 5);

    // Index 6 is inside emoji - should walk back to 5
    assert_eq!(NodeEmbeddingService::find_char_boundary(s, 6), 5);

    // Index 7 is inside emoji - should walk back to 5
    assert_eq!(NodeEmbeddingService::find_char_boundary(s, 7), 5);

    // Index 8 is after emoji (space) - valid
    assert_eq!(NodeEmbeddingService::find_char_boundary(s, 8), 8);
}

#[test]
fn test_find_char_boundary_multiple_emojis() {
    // Test with multiple multi-byte characters
    // 🎉 is 4 bytes, ✅ is 3 bytes
    let s = "🎉 done ✅";
    // Byte positions: 🎉(0-3) ' '(4) d(5) o(6) n(7) e(8) ' '(9) ✅(10-12)

    // Index inside first emoji
    assert_eq!(NodeEmbeddingService::find_char_boundary(s, 2), 0);

    // Index 4 (space after emoji)
    assert_eq!(NodeEmbeddingService::find_char_boundary(s, 4), 4);

    // Index inside second emoji
    assert_eq!(NodeEmbeddingService::find_char_boundary(s, 11), 10);
}

#[test]
fn test_chunk_content_no_infinite_loop() {
    // Regression test for infinite loop bug:
    // When content is just over 2 chunks worth, the overlap calculation
    // could cause start to only advance by 1 byte, creating hundreds of chunks.
    let tester = NodeEmbeddingService::new();
    let config = tester.config();

    // Create content that's about 2.5 chunks worth
    let max_chars = config.max_tokens_per_chunk * config.chars_per_token_estimate;
    let content_len = max_chars * 2 + (max_chars / 2);
    let content = "x".repeat(content_len);

    let chunks = tester.chunk_content(&content);

    // With default config (512 tokens, 100 overlap, 3 chars/token):
    // - max_chars = 1536, overlap_chars = 300
    // - Content ~3840 chars should produce ~3-4 chunks, not hundreds
    assert!(
        chunks.len() <= 10,
        "Expected at most 10 chunks for {}B content, got {} chunks",
        content_len,
        chunks.len()
    );

    // Verify chunks cover the entire content
    assert_eq!(
        chunks.first().unwrap().0,
        0,
        "First chunk should start at 0"
    );
    assert_eq!(
        chunks.last().unwrap().1 as usize,
        content.len(),
        "Last chunk should end at content length"
    );
}

#[test]
fn test_chunk_content_single_chunk() {
    let tester = NodeEmbeddingService::new();
    let short_content = "Hello world, this is a short test.";

    let chunks = tester.chunk_content(short_content);

    assert_eq!(chunks.len(), 1, "Short content should be single chunk");
    assert_eq!(chunks[0].0, 0);
    assert_eq!(chunks[0].1 as usize, short_content.len());
    assert_eq!(chunks[0].2, short_content);
}

#[test]
fn test_chunk_content_breaks_at_sentences() {
    let tester = NodeEmbeddingService::new();
    let config = tester.config();
    let max_chars = config.max_tokens_per_chunk * config.chars_per_token_estimate;

    // Create content with a sentence boundary before max_chars
    let first_part = "x".repeat(max_chars - 100);
    let sentence_break = ". This is a new sentence. ";
    let second_part = "y".repeat(max_chars);
    let content = format!("{}{}{}", first_part, sentence_break, second_part);

    let chunks = tester.chunk_content(&content);

    // Should break at the sentence boundary
    assert!(chunks.len() >= 2, "Should have at least 2 chunks");
    // First chunk should end after the sentence break
    assert!(
        chunks[0].2.ends_with(". "),
        "First chunk should end at sentence boundary"
    );
}

fn small(max_tokens: usize, overlap: usize) -> NodeEmbeddingService {
    NodeEmbeddingService::with_config(EmbeddingConfig {
        max_tokens_per_chunk: max_tokens,
        overlap_tokens: overlap,
        chars_per_token_estimate: 1,
        max_content_size: 20,
        debounce_duration_secs: 1,
        max_retries: 3,
    })
}

#[test]
fn the_hash_is_sha_256_in_lower_case() {
    assert_eq!(
        NodeEmbeddingService::compute_content_hash("abc"),
        "ba7816bf8f01cfea414140de5dae2223b00361a396177a9cb410ff61f20015ad"
    );
    assert_eq!(
        NodeEmbeddingService::compute_content_hash(""),
        "e3b0c44298fc1c149afbf4c8996fb92427ae41e4649b934ca495991b7852b855"
    );
}

#[test]
fn chunks_break_after_paragraphs_then_sentences_then_words() {
    let chunks = small(10, 2).chunk_content("ab\n\ncd. ef ghijklmnop");
    assert_eq!(chunks[0], (0, 4, "ab\n\n".to_string()));
    let chunks = small(10, 2).chunk_content("abcd. ef ghijklmnop");
    assert_eq!(chunks[0], (0, 6, "abcd. ".to_string()));
    let chunks = small(10, 2).chunk_content("abcdef ghijklmnop");
    assert_eq!(chunks[0], (0, 7, "abcdef ".to_string()));
    let chunks = small(10, 2).chunk_content("abcdefghijklmnop");
    assert_eq!(chunks[0], (0, 10, "abcdefghij".to_string()));
    assert_eq!(chunks[1], (8, 16, "ijklmnop".to_string()));
    assert_eq!(chunks.len(), 2);
}

#[test]
fn chunks_do_not_split_characters() {
    let text = "ääääääääää";
    for (start, end, part) in small(5, 1).chunk_content(text) {
        assert!(text.is_char_boundary(start as usize));
        assert!(text.is_char_boundary(end as usize));
        assert_eq!(&text[start as usize..end as usize], part);
        assert!(part.len() <= 5);
    }
}

#[test]
fn an_advance_below_the_width_of_a_character_does_not_end() {
    assert!(!small(2, 1).can_chunk("ääää"));
    assert!(small(2, 1).can_chunk("abcd"));
    assert!(NodeEmbeddingService::new().can_chunk("ää"));
}

#[test]
fn parts_of_a_text_are_put_together() {
    let service = small(10, 2);
    assert_eq!(
        service.assemble_content(Some("Title"), "own", Some("more")),
        Some("Title\n\nown\n\nmore".to_string())
    );
    assert_eq!(service.assemble_content(None, "own", Some("  ")), Some("own".to_string()));
    assert_eq!(service.assemble_content(Some(" "), "\n", None), None);
    assert_eq!(
        service.assemble_content(None, "0123456789012345678ä", None),
        Some("0123456789012345678".to_string())
    );
}

#[test]
fn the_default_configuration_is_used() {
    let service = NodeEmbeddingService::new();
    let config = service.config();
    assert_eq!(config.max_tokens_per_chunk, 512);
    assert_eq!(config.overlap_tokens, 100);
    assert_eq!(config.chars_per_token_estimate, 3);
    assert_eq!(config.max_content_size, usize::MAX);
    assert_eq!(config.debounce_duration_secs, 30);
    assert_eq!(config.max_retries, u32::MAX);
}

#[test]
fn chunks_that_end_early_leave_no_gap() {
    let service = NodeEmbeddingService::with_config(EmbeddingConfig {
        max_tokens_per_chunk: 8,
        overlap_tokens: 2,
        chars_per_token_estimate: 1,
        ..EmbeddingConfig::default()
    });
    for content in ["abc\n\ndefghij", "a bcdefghijklmnopq", "one. two three four. five six seven"] {
        assert!(service.can_chunk(content));
        let chunks = service.chunk_content(content);
        assert_eq!(chunks[0].0, 0);
        assert_eq!(chunks[chunks.len() - 1].1 as usize, content.len());
        for i in 1..chunks.len() {
            assert!(chunks[i - 1].0 < chunks[i].0);
            assert!(chunks[i].0 <= chunks[i - 1].1);
        }
    }
    let chunks = service.chunk_content("abc\n\ndefghij");
    assert_eq!((chunks[0].0, chunks[0].1), (0, 5));
    assert_eq!((chunks[1].0, chunks[1].1), (5, 12));
}
