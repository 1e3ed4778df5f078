use cursor_core::decode::{decode_chunk, decode_chunks};

#[test]
fn single_data_line_terminated() {
    let frags = decode_chunk("data: hello\r\n\r\n");
    assert_eq!(frags, vec!["hello".to_string()]);
}

#[test]
fn empty_payloads_become_newlines() {
    let frags = decode_chunk("data: \r\ndata: \r\n\r\n");
    assert_eq!(frags, vec!["\n".to_string(), "\n".to_string()]);
}

#[test]
fn done_sentinel_dropped_beside_content() {
    let frags = decode_chunk("data: foo\r\ndata: [DONE]\r\n\r\n");
    assert_eq!(frags, vec!["foo".to_string()]);
}

#[test]
fn done_sentinel_alone_yields_nothing() {
    assert!(decode_chunk("data: [DONE]\r\n\r\n").is_empty());
}

#[test]
fn done_sentinel_between_payloads_is_dropped() {
    let frags = decode_chunk("data: a\r\ndata: [DONE]\r\ndata: b\r\n\r\n");
    assert_eq!(frags, vec!["a".to_string(), "b".to_string()]);
}

#[test]
fn payload_merely_containing_done_is_kept() {
    let frags = decode_chunk("data: [DONE]!\r\n\r\n");
    assert_eq!(frags, vec!["[DONE]!".to_string()]);
}

#[test]
fn split_mid_word_across_chunks_is_dropped() {
    let chunks = vec!["data: Hel".to_string(), "lo\r\n\r\n".to_string()];
    assert!(decode_chunks(&chunks).is_empty());
    assert!(decode_chunk("data: Hel").is_empty());
    assert!(decode_chunk("lo\r\n\r\n").is_empty());
}

#[test]
fn fragments_keep_arrival_order() {
    let chunks = vec![
        "data: one\r\ndata: two\r\n".to_string(),
        "ignored\r\n".to_string(),
        "data: three\r\ndata: [DONE]\r\ndata: four\r\n".to_string(),
    ];
    assert_eq!(
        decode_chunks(&chunks),
        vec![
            "one".to_string(),
            "two".to_string(),
            "three".to_string(),
            "four".to_string(),
        ]
    );
}

#[test]
fn chunk_without_recognizable_lines_yields_nothing() {
    assert!(decode_chunk("").is_empty());
    assert!(decode_chunk("event: x\r\nnot data\r\n\r\n").is_empty());
    assert!(decode_chunk("\r\n\r\n").is_empty());
}

#[test]
fn unterminated_trailing_line_is_dropped() {
    let frags = decode_chunk("data: kept\r\ndata: partial");
    assert_eq!(frags, vec!["kept".to_string()]);
}

#[test]
fn prefix_must_be_exact_and_at_line_start() {
    assert!(decode_chunk("data:nospace\r\n\r\n").is_empty());
    assert!(decode_chunk("xdata: y\r\n\r\n").is_empty());
    assert!(decode_chunk("Data: y\r\n\r\n").is_empty());
}

#[test]
fn lone_cr_or_lf_does_not_terminate_a_line() {
    assert!(decode_chunk("data: a\n").is_empty());
    assert!(decode_chunk("data: a\r").is_empty());
    let frags = decode_chunk("data: a\nb\r\n");
    assert_eq!(frags, vec!["a\nb".to_string()]);
}

#[test]
fn non_ascii_payload_survives() {
    let frags = decode_chunk("data: h\u{e9}llo \u{4f60}\u{597d}\r\n\r\n");
    assert_eq!(frags, vec!["h\u{e9}llo \u{4f60}\u{597d}".to_string()]);
}
