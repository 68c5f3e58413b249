//! Tests for the backward signature scan: the ported harness cases and the
//! scenario checks for the call-context queries.

use gm_code::signature::{func_name_and_param, SignatureIterator};
use gm_code::{signature_context, Position};

/// Splits a probe string on its `?` marker: returns the marker's offset and
/// the text with the marker removed.
fn char_pos_from_string(input: &str) -> (usize, String) {
    let pos = input
        .char_indices()
        .find_map(|v| if v.1 == '?' { Some(v.0) } else { None })
        .unwrap();

    let mut input = input.to_string();
    input.remove(pos);

    (pos, input)
}

#[test]
fn harness_tests() {
    let (idx, input) = char_pos_from_string("show_debug_message(?x, y);");
    assert_eq!(idx, 19);
    let position = Position::new_idx(idx, &input);
    assert_eq!(
        position,
        Position {
            line: 0,
            column: 19
        }
    );

    let (idx, input) = char_pos_from_string("show_debug_message\r\n\t(?x, y);");
    assert_eq!(idx, 22);
    let position = Position::new_idx(idx, &input);
    assert_eq!(position, Position { line: 1, column: 2 });
}

#[test]
fn signature_iterator() {
    let (idx, input) = char_pos_from_string("show_debug_message(x,? y);");
    let input = &input;

    let mut sig = SignatureIterator::new(input, idx);
    assert_eq!(1, sig.eat_parameters().unwrap());
    assert_eq!("show_debug_message", sig.eat_identifier().unwrap());

    let mut sig = SignatureIterator::new(input, idx - 1);
    assert_eq!(0, sig.eat_parameters().unwrap());
    assert_eq!("show_debug_message", sig.eat_identifier().unwrap());

    let mut sig = SignatureIterator::new(input, idx - 2);
    assert_eq!(0, sig.eat_parameters().unwrap());
    assert_eq!("show_debug_message", sig.eat_identifier().unwrap());

    let mut sig = SignatureIterator::new(input, idx - 3);
    assert!(sig.eat_parameters().is_none());
    assert!(sig.eat_identifier().is_none());
}

#[test]
fn full() {
    let (idx, input) = char_pos_from_string("show_debug_message(x,? y);");
    let position = Position::new_idx(idx, &input);

    assert_eq!(
        ("show_debug_message".to_string(), 1),
        func_name_and_param(&input, position).unwrap()
    );

    let (idx, input) = char_pos_from_string("show_debug_message(x?, y);");
    let position = Position::new_idx(idx, &input);

    assert_eq!(
        ("show_debug_message".to_string(), 0),
        func_name_and_param(&input, position).unwrap()
    );

    let (idx, input) = char_pos_from_string("show_debug_message(x, y?);");
    let position = Position::new_idx(idx, &input);

    assert_eq!(
        ("show_debug_message".to_string(), 1),
        func_name_and_param(&input, position).unwrap()
    );

    let (idx, input) = char_pos_from_string("show_debug_message(\n?x);");
    let position = Position::new_idx(idx, &input);

    assert_eq!(
        ("show_debug_message".to_string(), 0),
        func_name_and_param(&input, position).unwrap()
    );

    let (idx, input) = char_pos_from_string("show_debug_message(\n,?x);");
    let position = Position::new_idx(idx, &input);

    assert_eq!(
        ("show_debug_message".to_string(), 1),
        func_name_and_param(&input, position).unwrap()
    );

    let (idx, input) = char_pos_from_string("show_debug_message(,,?);");
    let position = Position::new_idx(idx, &input);

    assert_eq!(
        ("show_debug_message".to_string(), 2),
        func_name_and_param(&input, position).unwrap()
    );

    let (idx, input) = char_pos_from_string("warn(\"this is a message, yup {}\"?, y);");
    let position = Position::new_idx(idx, &input);

    assert_eq!(
        ("warn".to_string(), 0),
        func_name_and_param(&input, position).unwrap()
    );
}

#[test]
fn context_after_comma() {
    let text = "show_debug_message(x, y);";
    let ctx = signature_context(text, 22).unwrap();
    assert_eq!(ctx.identifier, "show_debug_message");
    assert_eq!(ctx.argument_index, 1);
}

#[test]
fn context_unclosed_call_at_end() {
    let text = "show_debug_message(x";
    let ctx = signature_context(text, text.len()).unwrap();
    assert_eq!(ctx.identifier, "show_debug_message");
    assert_eq!(ctx.argument_index, 0);
}

#[test]
fn context_bare_paren_and_no_call() {
    let ctx = signature_context("foo(", 4).unwrap();
    assert_eq!(ctx.identifier, "foo");
    assert_eq!(ctx.argument_index, 0);

    assert!(signature_context("bar", 3).is_none());
}

#[test]
fn context_ignores_literal_contents() {
    let text = "warn(\"a, b (c\", y);";
    let cursor = text.find("\", y").unwrap() + 1;
    let ctx = signature_context(text, cursor).unwrap();
    assert_eq!(ctx.identifier, "warn");
    assert_eq!(ctx.argument_index, 0);
}

#[test]
fn context_unterminated_literal_is_none() {
    let text = "foo(\"abc";
    assert!(signature_context(text, text.len()).is_none());
}

#[test]
fn context_skips_nested_calls_and_brackets() {
    let text = "outer(inner(a, b), arr[i, j], c)";
    let cursor = text.find(" c)").unwrap() + 1;
    let ctx = signature_context(text, cursor).unwrap();
    assert_eq!(ctx.identifier, "outer");
    assert_eq!(ctx.argument_index, 2);

    let cursor = text.find(" b)").unwrap() + 1;
    let ctx = signature_context(text, cursor).unwrap();
    assert_eq!(ctx.identifier, "inner");
    assert_eq!(ctx.argument_index, 1);
}

#[test]
fn context_paren_after_punctuation_is_none() {
    assert!(signature_context("1 + (", 5).is_none());
    assert!(signature_context("foo.(", 5).is_none());
}

#[test]
fn context_skips_whitespace_before_identifier() {
    let text = "show_debug_message\r\n\t(x";
    let ctx = signature_context(text, text.len()).unwrap();
    assert_eq!(ctx.identifier, "show_debug_message");
    assert_eq!(ctx.argument_index, 0);
}

#[test]
fn char_literal_skipped_like_string() {
    let text = "ord('(', x)";
    let cursor = text.find(" x").unwrap() + 1;
    let ctx = signature_context(text, cursor).unwrap();
    assert_eq!(ctx.identifier, "ord");
    assert_eq!(ctx.argument_index, 1);
}
