use terminal_window_manager::osc_progress::{
    OscProgressParser, BEL_BYTE, ESCAPE_BYTE, OSC_BYTE, OSC_PROGRESS_MAX_PENDING_BYTES,
    SEMICOLON_BYTE, ST_TERMINATOR_BYTE,
};

fn bel_sequence(state: &str, progress: &str) -> Vec<u8> {
    let mut bytes = vec![ESCAPE_BYTE, OSC_BYTE];
    bytes.extend_from_slice(b"9;4;");
    bytes.extend_from_slice(state.as_bytes());
    bytes.push(SEMICOLON_BYTE);
    bytes.extend_from_slice(progress.as_bytes());
    bytes.push(BEL_BYTE);
    bytes
}

fn st_sequence(state: &str, progress: &str) -> Vec<u8> {
    let mut bytes = vec![ESCAPE_BYTE, OSC_BYTE];
    bytes.extend_from_slice(b"9;4;");
    bytes.extend_from_slice(state.as_bytes());
    bytes.push(SEMICOLON_BYTE);
    bytes.extend_from_slice(progress.as_bytes());
    bytes.push(ESCAPE_BYTE);
    bytes.push(ST_TERMINATOR_BYTE);
    bytes
}

#[test]
fn pty_bel_sequence_yields_progress_and_strips_output() {
    let mut parser = OscProgressParser::new();
    let mut input = b"hello".to_vec();
    input.extend_from_slice(&bel_sequence("1", "50"));
    input.extend_from_slice(b"world");

    let parsed = parser.parse_chunk(&input);

    assert_eq!(parsed.visible, b"helloworld");
    assert_eq!(parsed.progress_events, vec![(1, 50)]);
    assert!(parser.flush().is_empty());
}

#[test]
fn pty_split_sequence_across_chunks_reassembles() {
    let mut parser = OscProgressParser::new();
    let full = bel_sequence("2", "75");
    let split_at = 5;
    let first = parser.parse_chunk(&full[..split_at]);
    // A partial prefix must not leak into visible output yet.
    assert!(first.visible.is_empty());
    assert!(first.progress_events.is_empty());

    let mut visible = first.visible;
    let mut events = first.progress_events;
    let second = parser.parse_chunk(&full[split_at..]);
    visible.extend_from_slice(&second.visible);
    events.extend(second.progress_events);

    assert!(visible.is_empty());
    assert_eq!(events, vec![(2, 75)]);
    assert!(parser.flush().is_empty());
}

#[test]
fn pty_split_sequence_with_surrounding_text_reassembles() {
    let mut parser = OscProgressParser::new();
    let mut first_input = b"hello".to_vec();
    let full = bel_sequence("1", "50");
    first_input.extend_from_slice(&full[..4]);
    let first = parser.parse_chunk(&first_input);
    assert_eq!(first.visible, b"hello");

    let mut second_input = full[4..].to_vec();
    second_input.extend_from_slice(b"world");
    let second = parser.parse_chunk(&second_input);
    assert_eq!(second.visible, b"world");
    assert_eq!(second.progress_events, vec![(1, 50)]);
}

#[test]
fn pty_st_terminator_yields_progress_and_strips_output() {
    let mut parser = OscProgressParser::new();
    let mut input = b"start-".to_vec();
    input.extend_from_slice(&st_sequence("4", "90"));
    input.extend_from_slice(b"-end");

    let parsed = parser.parse_chunk(&input);

    assert_eq!(parsed.visible, b"start--end");
    assert_eq!(parsed.progress_events, vec![(4, 90)]);
}

#[test]
fn pty_indeterminate_progress_normalizes_to_zero() {
    let mut parser = OscProgressParser::new();
    let parsed = parser.parse_chunk(&bel_sequence("3", "25"));
    assert!(parsed.visible.is_empty());
    assert_eq!(parsed.progress_events, vec![(3, 0)]);
}

#[test]
fn pty_malformed_input_passes_through() {
    let mut parser = OscProgressParser::new();
    // Invalid state (9) plus out-of-range progress: must not be dropped.
    let mut invalid = vec![ESCAPE_BYTE, OSC_BYTE];
    invalid.extend_from_slice(b"9;4;9;999");
    invalid.push(BEL_BYTE);
    let parsed = parser.parse_chunk(&invalid);
    assert_eq!(parsed.visible, invalid);
    assert!(parsed.progress_events.is_empty());

    // Non-progress escape sequences (e.g. SGR color) pass through.
    let mut parser = OscProgressParser::new();
    let color = b"\x1b[31mhi\x1b[0m".to_vec();
    let parsed = parser.parse_chunk(&color);
    assert_eq!(parsed.visible, color);
    assert!(parsed.progress_events.is_empty());

    // Truncated candidate with no terminator stays pending until flush,
    // then is forwarded as plain output rather than dropped.
    let mut parser = OscProgressParser::new();
    let partial = b"\x1b]9;4;1;5".to_vec();
    let parsed = parser.parse_chunk(&partial);
    assert!(parsed.visible.is_empty());
    assert_eq!(parser.flush(), partial);
}

#[test]
fn pty_pending_tail_stays_bounded() {
    let mut parser = OscProgressParser::new();
    // Adversarial input: ESC followed by many bytes that never form a
    // valid terminator must not accumulate without bound.
    let mut input = vec![ESCAPE_BYTE, OSC_BYTE];
    input.extend(vec![b'9'; 4096]);
    let parsed = parser.parse_chunk(&input);
    assert!(parsed.progress_events.is_empty());
    // Everything undecided must fit within the small bounded tail plus
    // whatever was just flushed to visible output.
    assert!(parser.pending_len() <= OSC_PROGRESS_MAX_PENDING_BYTES);
    assert_eq!(parsed.visible.len() + parser.pending_len(), input.len());
}
