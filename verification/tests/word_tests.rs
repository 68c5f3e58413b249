//! Tests for word extraction: completion prefixes and full hover tokens.

use gm_code::{full_word, get_word_in_document, get_word_in_document_full, prefix_word, Position};

#[test]
fn full_word_mid_token() {
    let text = "player_health = 10;";
    let pos = Position { line: 0, column: 3 };
    assert_eq!(get_word_in_document_full(text, pos), Some("player_health"));
    assert_eq!(full_word(text, pos), Some("player_health"));
}

#[test]
fn prefix_word_stops_at_cursor() {
    let text = "player_health = 10;";
    let pos = Position { line: 0, column: 3 };
    assert_eq!(get_word_in_document(text, pos), Some("pla"));
    assert_eq!(prefix_word(text, pos), Some("pla"));
}

#[test]
fn full_word_adjacent_to_token_edges() {
    let text = "player_health = 10;";
    // Just after the token's last character.
    assert_eq!(
        full_word(text, Position { line: 0, column: 13 }),
        Some("player_health")
    );
    // On the token's first character.
    assert_eq!(
        full_word(text, Position { line: 0, column: 0 }),
        Some("player_health")
    );
    // Between two delimiters: no token touches the cursor.
    assert_eq!(full_word(text, Position { line: 0, column: 14 }), None);
    // Inside the number.
    assert_eq!(full_word(text, Position { line: 0, column: 17 }), Some("10"));
}

#[test]
fn full_word_at_end_of_buffer() {
    assert_eq!(full_word("abc", Position { line: 0, column: 3 }), Some("abc"));
}

#[test]
fn prefix_word_empty_at_line_start() {
    assert_eq!(prefix_word("abc", Position { line: 0, column: 0 }), Some(""));
    assert_eq!(
        prefix_word("a b", Position { line: 0, column: 2 }),
        Some("")
    );
}

#[test]
fn out_of_range_coordinate_gives_no_word() {
    let text = "alpha\nbeta";
    assert_eq!(prefix_word(text, Position { line: 5, column: 0 }), None);
    assert_eq!(full_word(text, Position { line: 5, column: 0 }), None);
    assert_eq!(prefix_word(text, Position { line: 0, column: 9 }), None);
    assert_eq!(full_word(text, Position { line: 0, column: 9 }), None);
}

#[test]
fn words_do_not_span_lines() {
    let text = "alpha\nbeta";
    assert_eq!(full_word(text, Position { line: 1, column: 0 }), Some("beta"));
    assert_eq!(prefix_word(text, Position { line: 1, column: 0 }), Some(""));
    assert_eq!(
        prefix_word(text, Position { line: 1, column: 2 }),
        Some("be")
    );
    // At the end of the first line, only that line's token counts.
    assert_eq!(
        full_word(text, Position { line: 0, column: 5 }),
        Some("alpha")
    );
}

#[test]
fn underscores_and_digits_are_token_characters() {
    let text = "set_value_2(x)";
    assert_eq!(
        full_word(text, Position { line: 0, column: 7 }),
        Some("set_value_2")
    );
    assert_eq!(
        prefix_word(text, Position { line: 0, column: 11 }),
        Some("set_value_2")
    );
}
