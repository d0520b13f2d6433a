use base64::engine::general_purpose;
use base64::Engine;
use osc52_copy::osc52::{generate_osc52_sequence, osc52_prefix, osc52_suffix};
use osc52_copy::stream::Base64Stream;

fn as_text(bytes: Vec<u8>) -> String {
    String::from_utf8(bytes).unwrap()
}

fn encode_in_chunks(data: &[u8], size: usize) -> Vec<u8> {
    let mut enc = Base64Stream::new();
    let mut out = Vec::new();
    for chunk in data.chunks(size) {
        out.extend(enc.feed(chunk));
    }
    out.extend(enc.finish());
    out
}

#[test]
fn test_generate_osc52_sequence() {
    let test_data = b"hello world";
    let result = as_text(generate_osc52_sequence(test_data));
    let expected = "\x1b]52;c;aGVsbG8gd29ybGQ=\x07";
    assert_eq!(result, expected);
}

#[test]
fn test_generate_osc52_sequence_empty() {
    let test_data = b"";
    let result = as_text(generate_osc52_sequence(test_data));
    let expected = "\x1b]52;c;\x07";
    assert_eq!(result, expected);
}

#[test]
fn test_generate_osc52_sequence_binary() {
    let test_data = &[0x00, 0x01, 0x02, 0xFF];
    let result = as_text(generate_osc52_sequence(test_data));
    let expected = "\x1b]52;c;AAEC/w==\x07";
    assert_eq!(result, expected);
}

#[test]
fn test_stream_from_file_to_writer() {
    let test_content = b"test file content";
    let output = encode_in_chunks(test_content, 8192);
    let expected_base64 = general_purpose::STANDARD.encode(test_content);
    assert_eq!(as_text(output), expected_base64);
}

#[test]
fn test_stream_from_file_to_writer_empty() {
    let output = encode_in_chunks(b"", 8192);
    assert_eq!(as_text(output), "");
}

#[test]
fn test_stream_from_file_large() {
    let large_content = vec![b'x'; 10000];
    let output = encode_in_chunks(&large_content, 8192);
    let expected_base64 = general_purpose::STANDARD.encode(&large_content);
    assert_eq!(as_text(output), expected_base64);
}

#[test]
fn test_stream_from_stdin_to_writer() {
    let test_input = b"stdin test data";
    let output = encode_in_chunks(test_input, 8192);
    let expected_base64 = general_purpose::STANDARD.encode(test_input);
    assert_eq!(as_text(output), expected_base64);
}

#[test]
fn test_osc52_sequence_format() {
    let test_cases = vec![
        (b"a".as_slice(), "YQ=="),
        (b"ab".as_slice(), "YWI="),
        (b"abc".as_slice(), "YWJj"),
        (b"hello".as_slice(), "aGVsbG8="),
    ];

    for (input, expected_base64) in test_cases {
        let result = as_text(generate_osc52_sequence(input));
        let expected = format!("\x1b]52;c;{}\x07", expected_base64);
        assert_eq!(result, expected);
    }
}

#[test]
fn test_osc52_sequence_contains_correct_parts() {
    let test_data = b"test";
    let result = as_text(generate_osc52_sequence(test_data));

    assert!(result.starts_with("\x1b]52;c;"));
    assert!(result.ends_with("\x07"));

    let base64_part = &result[7..result.len() - 1];
    let decoded = general_purpose::STANDARD.decode(base64_part).unwrap();
    assert_eq!(decoded, test_data);
}

#[test]
fn test_osc52_prefix_suffix() {
    assert_eq!(osc52_prefix(), vec![0x1B, 0x5D, 0x35, 0x32, 0x3B, 0x63, 0x3B]);
    assert_eq!(osc52_suffix(), vec![0x07]);
}

#[test]
fn chunk_sizes_do_not_change_the_encoding() {
    let data: Vec<u8> = (0..=255u8).chain(0..=100u8).collect();
    let whole = general_purpose::STANDARD.encode(&data);
    for size in 1..=10 {
        assert_eq!(as_text(encode_in_chunks(&data, size)), whole);
    }
    assert_eq!(as_text(encode_in_chunks(&data, data.len())), whole);
}

#[test]
fn large_input_chunked_matches_single_block() {
    let data = vec![b'x'; 10000];
    let mut one = Base64Stream::new();
    let mut single = one.feed(&data);
    single.extend(one.finish());
    assert_eq!(encode_in_chunks(&data, 7), single);
    assert_eq!(encode_in_chunks(&data, 4096), single);
    assert_eq!(single.len(), 13336);
}

#[test]
fn feed_holds_back_partial_groups() {
    let mut enc = Base64Stream::new();
    assert_eq!(enc.feed(b"a"), Vec::<u8>::new());
    assert_eq!(enc.feed(b"b"), Vec::<u8>::new());
    assert_eq!(as_text(enc.feed(b"cd")), "YWJj");
    assert_eq!(as_text(enc.finish()), "ZA==");
}

#[test]
fn finish_without_input_is_empty() {
    let enc = Base64Stream::new();
    assert_eq!(enc.finish(), Vec::<u8>::new());
}

#[test]
fn every_body_decodes_to_its_input() {
    for n in 0..40usize {
        let data: Vec<u8> = (0..n).map(|i| (i * 37 + 11) as u8).collect();
        let framed = generate_osc52_sequence(&data);
        assert_eq!(&framed[..7], b"\x1b]52;c;");
        assert_eq!(framed[framed.len() - 1], 0x07);
        let body = &framed[7..framed.len() - 1];
        assert_eq!(body.len() % 4, 0);
        assert_eq!(general_purpose::STANDARD.decode(body).unwrap(), data);
    }
}

#[test]
fn encoding_differs_from_its_input() {
    assert_eq!(as_text(generate_osc52_sequence(b"Man")), "\x1b]52;c;TWFu\x07");
}
