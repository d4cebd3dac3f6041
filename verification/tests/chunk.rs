use cc_matrix_channel::access::ChunkMode;
use cc_matrix_channel::chunk::{chunk_message, chunk_text, MAX_CHUNK_SIZE};

#[test]
fn chunk_short_message() {
    let chunks = chunk_message("hello");
    assert_eq!(chunks, vec!["hello"]);
}

#[test]
fn chunk_long_message_at_newline() {
    let mut text = String::new();
    for i in 0..200 {
        text.push_str(&format!(
            "Line {i:03}: some content here to make this line longer for testing purposes\n"
        ));
    }
    let chunks = chunk_message(&text);
    assert!(chunks.len() > 1);
    for chunk in &chunks {
        assert!(chunk.len() <= MAX_CHUNK_SIZE);
        assert!(chunk.ends_with('\n'));
    }
    let reassembled: String = chunks.into_iter().collect();
    assert_eq!(reassembled, text);
}

#[test]
fn chunk_at_spaces_then_anywhere() {
    assert_eq!(
        chunk_text("aa bb cc", 6, ChunkMode::Newline),
        vec!["aa bb ", "cc"]
    );
    assert_eq!(
        chunk_text("aa\nbb cc", 6, ChunkMode::Newline),
        vec!["aa\n", "bb cc"]
    );
    assert_eq!(
        chunk_text("aaaaaabbbb", 6, ChunkMode::Newline),
        vec!["aaaaaa", "bbbb"]
    );
    assert_eq!(
        chunk_text("aa\nbb cc", 6, ChunkMode::Length),
        vec!["aa\nbb ", "cc"]
    );
}

#[test]
fn chunk_never_splits_a_character() {
    assert_eq!(chunk_text("ééééé", 5, ChunkMode::Length), vec!["ééééé"]);
    assert_eq!(chunk_text("ééééé", 2, ChunkMode::Length), vec!["éé", "éé", "é"]);
    assert_eq!(chunk_text("😀😀", 1, ChunkMode::Newline), vec!["😀", "😀"]);
    assert_eq!(chunk_text("ab", 1, ChunkMode::Length), vec!["a", "b"]);
}

#[test]
fn chunk_limit_counts_characters() {
    let text = "é".repeat(200);
    let half = "é".repeat(100);
    assert_eq!(
        chunk_text(&text, 100, ChunkMode::Length),
        vec![half.clone(), half.clone()]
    );
    assert_eq!(chunk_text(&text, 100, ChunkMode::Newline), vec![half.clone(), half]);
    assert_eq!(chunk_text(&text, 200, ChunkMode::Newline), vec![text.clone()]);
    assert_eq!(
        chunk_text("éé\néé éé", 6, ChunkMode::Newline),
        vec!["éé\n", "éé éé"]
    );
}

#[test]
fn chunk_message_counts_bytes() {
    let text = "é".repeat(MAX_CHUNK_SIZE / 2 + 1);
    let chunks = chunk_message(&text);
    assert_eq!(chunks, vec!["é".repeat(MAX_CHUNK_SIZE / 2), "é".to_string()]);
    let uneven = format!("x{}", "é".repeat(MAX_CHUNK_SIZE / 2));
    let chunks = chunk_message(&uneven);
    assert_eq!(chunks[0].len(), MAX_CHUNK_SIZE - 1);
    assert_eq!(chunks[1], "é");
}

#[test]
fn chunk_of_nothing_is_one_empty_piece() {
    assert_eq!(chunk_message(""), vec![""]);
    let full = "x".repeat(MAX_CHUNK_SIZE);
    assert_eq!(chunk_message(&full).len(), 1);
    let over = "x".repeat(MAX_CHUNK_SIZE + 1);
    assert_eq!(chunk_message(&over)[1], "x");
}
