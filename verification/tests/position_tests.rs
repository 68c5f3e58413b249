//! Tests for coordinate-to-offset translation: round trips, the
//! end-of-buffer coordinate, and out-of-range rejection.

use gm_code::{char_to_byte_offset, resolve_byte_offset, resolve_offset, Position, TextError};

#[test]
fn resolves_simple_coordinates() {
    let text = "ab\ncd";
    assert_eq!(resolve_offset(text, Position { line: 0, column: 0 }), Ok(0));
    assert_eq!(resolve_offset(text, Position { line: 0, column: 2 }), Ok(2));
    assert_eq!(resolve_offset(text, Position { line: 1, column: 0 }), Ok(3));
    assert_eq!(resolve_offset(text, Position { line: 1, column: 1 }), Ok(4));
}

#[test]
fn round_trip_reproduces_coordinate() {
    let text = "first line\nsecond\n\nfourth";
    for line in 0..4usize {
        for column in 0..8usize {
            let pos = Position { line, column };
            if let Ok(off) = resolve_offset(text, pos) {
                assert_eq!(Position::new_idx(off, text), pos);
            }
        }
    }
    for off in 0..=text.len() {
        let pos = Position::new_idx(off, text);
        assert_eq!(resolve_offset(text, pos), Ok(off));
    }
}

#[test]
fn end_of_buffer_resolves_to_length() {
    let text = "ab\ncd";
    assert_eq!(resolve_offset(text, Position { line: 1, column: 2 }), Ok(5));

    assert_eq!(resolve_offset("", Position { line: 0, column: 0 }), Ok(0));

    let trailing = "ab\n";
    assert_eq!(
        resolve_offset(trailing, Position { line: 1, column: 0 }),
        Ok(3)
    );

    let one_line = "abc";
    assert_eq!(
        resolve_offset(one_line, Position { line: 0, column: 3 }),
        Ok(3)
    );
}

#[test]
fn out_of_range_coordinates_are_rejected() {
    let text = "ab\ncd";
    assert_eq!(
        resolve_offset(text, Position { line: 0, column: 3 }),
        Err(TextError::OutOfRange)
    );
    assert_eq!(
        resolve_offset(text, Position { line: 2, column: 0 }),
        Err(TextError::OutOfRange)
    );
    assert_eq!(
        resolve_offset(text, Position { line: 9, column: 9 }),
        Err(TextError::OutOfRange)
    );
}

#[test]
fn carriage_return_advances_column() {
    let text = "a\r\nb";
    assert_eq!(resolve_offset(text, Position { line: 0, column: 1 }), Ok(1));
    assert_eq!(resolve_offset(text, Position { line: 0, column: 2 }), Ok(2));
    assert_eq!(resolve_offset(text, Position { line: 1, column: 0 }), Ok(3));
    assert_eq!(Position::new_idx(3, text), Position { line: 1, column: 0 });
}

#[test]
fn new_idx_clamps_to_end() {
    assert_eq!(
        Position::new_idx(100, "ab"),
        Position { line: 0, column: 2 }
    );
    assert_eq!(Position::new_idx(0, ""), Position { line: 0, column: 0 });
}

#[test]
fn get_idx_matches_resolve_offset() {
    let text = "one\ntwo";
    let pos = Position { line: 1, column: 1 };
    assert_eq!(pos.get_idx(text), Some(5));
    let bad = Position { line: 1, column: 4 };
    assert_eq!(bad.get_idx(text), None);
}

#[test]
fn end_of_buffer_resolves_to_byte_length() {
    for text in ["", "abc", "ab\ncd", "héllo\nwörld", "日本\n語"] {
        let lines = text.split('\n').collect::<Vec<_>>();
        let end = Position {
            line: lines.len() - 1,
            column: lines.last().unwrap().chars().count(),
        };
        assert_eq!(resolve_byte_offset(text, end), Ok(text.len()));
    }
}

#[test]
fn byte_offsets_fall_on_character_boundaries() {
    let text = "héllo wörld";
    let off = resolve_offset(text, Position { line: 0, column: 2 }).unwrap();
    let byte = char_to_byte_offset(text, off);
    assert_eq!(byte, 3);
    assert!(text.is_char_boundary(byte));
    assert_eq!(
        resolve_byte_offset(text, Position { line: 0, column: 8 }),
        Ok(10)
    );
    assert_eq!(
        resolve_byte_offset(text, Position { line: 9, column: 0 }),
        Err(TextError::OutOfRange)
    );
}

#[test]
fn columns_count_scalar_values() {
    let text = "héllo\nwörld";
    assert_eq!(resolve_offset(text, Position { line: 0, column: 5 }), Ok(5));
    assert_eq!(resolve_offset(text, Position { line: 1, column: 0 }), Ok(6));
    let pos = Position { line: 1, column: 3 };
    let off = resolve_offset(text, pos).unwrap();
    assert_eq!(off, 9);
    assert_eq!(Position::new_idx(off, text), pos);
}
