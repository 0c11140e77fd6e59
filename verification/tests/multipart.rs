use cooklang_sync_client::errors::SyncError;
use cooklang_sync_client::multipart::{
    encode_batch, extract_next_part, find_boundary, find_double_crlf, process_part, read_part,
    BatchDecoder,
};

fn bad(msg: &str) -> SyncError {
    SyncError::BatchDownloadError(msg.to_string())
}

fn body(boundary: &str, parts: &[(&str, &[u8])]) -> Vec<u8> {
    let mut out = Vec::new();
    for (id, data) in parts {
        out.extend_from_slice(format!("--{}\r\n", boundary).as_bytes());
        out.extend_from_slice(b"Content-Type: text/plain\r\n");
        out.extend_from_slice(format!("X-Chunk-ID: {}\r\n\r\n", id).as_bytes());
        out.extend_from_slice(data);
        out.extend_from_slice(b"\r\n");
    }
    out.extend_from_slice(format!("--{}--\r\n", boundary).as_bytes());
    out
}

#[test]
fn find_boundary_finds_the_first_occurrence() {
    assert_eq!(find_boundary(b"xx--b--b", b"--b"), Some(2));
    assert_eq!(find_boundary(b"--b", b"--b"), Some(0));
    assert_eq!(find_boundary(b"xx--", b"--b"), None);
    assert_eq!(find_boundary(b"", b"--b"), None);
    assert_eq!(find_boundary(b"-", b"--b"), None);
    assert_eq!(find_boundary(b"aaab", b"ab"), Some(2));
    assert_eq!(find_boundary(b"abc", b""), Some(0));
}

#[test]
fn find_double_crlf_finds_the_end_of_headers() {
    assert_eq!(find_double_crlf(b"a: b\r\n\r\nbody"), Some(4));
    assert_eq!(find_double_crlf(b"\r\n\r\n"), Some(0));
    assert_eq!(find_double_crlf(b"a\r\nb\r\n"), None);
    assert_eq!(find_double_crlf(b"\r\n\r"), None);
}

#[test]
fn extract_needs_two_boundaries() {
    assert_eq!(extract_next_part(b"", b"--b"), Ok(None));
    assert_eq!(extract_next_part(b"--b\r\nabc", b"--b"), Ok(None));
    assert_eq!(
        extract_next_part(b"junk--b\r\nabc\r\n--b--\r\n", b"--b"),
        Ok(Some((b"\r\nabc\r\n".to_vec(), b"--b--\r\n".to_vec())))
    );
    assert_eq!(
        extract_next_part(b"--b--b", b"--b"),
        Ok(Some((Vec::new(), b"--b".to_vec())))
    );
}

#[test]
fn process_part_reads_id_and_content() {
    assert_eq!(
        process_part(b"\r\nContent-Type: text/plain\r\nX-Chunk-ID: abc123\r\n\r\nhello\r\n"),
        Ok(Some(("abc123".to_string(), b"hello".to_vec())))
    );
    assert_eq!(
        process_part(b"\r\nX-Chunk-ID:   padded  \r\n\r\n\r\n"),
        Ok(Some(("padded".to_string(), Vec::new())))
    );
    assert_eq!(
        process_part(b"X-Chunk-ID: a: b\r\n\r\n\x00\x01\r\n"),
        Ok(Some(("a".to_string(), vec![0, 1])))
    );
    assert_eq!(
        process_part(b"\nX-Chunk-ID: lf-only\nOther: x\r\n\r\nzz\r\n"),
        Ok(Some(("lf-only".to_string(), b"zz".to_vec())))
    );
}

#[test]
fn process_part_without_headers_end_is_no_part() {
    assert_eq!(process_part(b"X-Chunk-ID: abc\r\n"), Ok(None));
    assert_eq!(process_part(b"--\r\n"), Ok(None));
    assert_eq!(process_part(b""), Ok(None));
}

#[test]
fn process_part_malformed() {
    assert_eq!(process_part(b"\r\nContent-Type: x\r\n\r\nhello\r\n"), Err(bad("No chunk ID found")));
    assert_eq!(process_part(b"\r\nX-Chunk-ID:abc\r\n\r\nhello\r\n"), Err(bad("No chunk ID found")));
    assert_eq!(process_part(b"\r\nx-chunk-id: abc\r\n\r\nhello\r\n"), Err(bad("No chunk ID found")));
    assert_eq!(process_part(b"\r\nX-Chunk-ID: \xff\r\n\r\nhello\r\n"), Err(bad("Invalid headers")));
    assert_eq!(process_part(b"X-Chunk-ID: abc\r\n\r\n"), Err(bad("Part is cut short")));
    assert_eq!(process_part(b"X-Chunk-ID: abc\r\n\r\n\r"), Err(bad("Part is cut short")));
}

#[test]
fn decoder_needs_a_boundary() {
    assert_eq!(BatchDecoder::new(None).err(), Some(bad("No content-type header")));
    assert_eq!(
        BatchDecoder::new(Some("multipart/mixed")).err(),
        Some(bad("No boundary in content-type header"))
    );
    assert!(BatchDecoder::new(Some("multipart/mixed; boundary=xyz")).is_ok());
}

#[test]
fn decoder_hands_out_chunks_whatever_the_pieces() {
    let stream = body("xyz", &[("aa", b"first"), ("bb", b""), ("cc", b"--x\r\nmore")]);
    for step in [1usize, 2, 3, 7, 16, 1000] {
        let mut decoder = BatchDecoder::new(Some("multipart/mixed; boundary=xyz")).unwrap();
        let mut got: Vec<(String, Vec<u8>)> = Vec::new();
        for piece in stream.chunks(step) {
            decoder.push(piece);
            while let Some(chunk) = decoder.next().unwrap() {
                got.push(chunk);
            }
        }
        assert_eq!(
            got,
            vec![
                ("aa".to_string(), b"first".to_vec()),
                ("bb".to_string(), Vec::new()),
                ("cc".to_string(), b"--x\r\nmore".to_vec()),
            ],
            "pieces of {}",
            step
        );
        assert_eq!(decoder.next(), Ok(None));
    }
}

#[test]
fn decoder_reports_a_malformed_part_and_goes_on() {
    let mut stream = Vec::new();
    stream.extend_from_slice(b"--xyz\r\nNo-Id: 1\r\n\r\nzz\r\n");
    stream.extend_from_slice(b"--xyz\r\nX-Chunk-ID: ok\r\n\r\nyy\r\n--xyz--\r\n");
    let mut decoder = BatchDecoder::new(Some("multipart/mixed; boundary=xyz")).unwrap();
    decoder.push(&stream);
    assert_eq!(decoder.next(), Err(bad("No chunk ID found")));
    assert_eq!(decoder.next(), Ok(Some(("ok".to_string(), b"yy".to_vec()))));
    assert_eq!(decoder.next(), Ok(None));
}

#[test]
fn decoder_takes_the_boundary_up_to_the_next_parameter() {
    let mut decoder =
        BatchDecoder::new(Some("multipart/mixed; boundary=abboundary=ignored")).unwrap();
    decoder.push(b"--ab\r\nX-Chunk-ID: k\r\n\r\nv\r\n--ab--\r\n");
    assert_eq!(decoder.next(), Ok(Some(("k".to_string(), b"v".to_vec()))));
}

#[test]
fn upload_body_is_framed_part_by_part() {
    let chunks = vec![("aa".to_string(), b"one".to_vec()), ("bb".to_string(), vec![0u8, 255u8])];
    let mut expected = Vec::new();
    expected.extend_from_slice(
        b"--B\r\nContent-Disposition: form-data; name=\"aa\"\r\nContent-Type: application/octet-stream\r\n\r\none\r\n",
    );
    expected.extend_from_slice(
        b"--B\r\nContent-Disposition: form-data; name=\"bb\"\r\nContent-Type: application/octet-stream\r\n\r\n",
    );
    expected.extend_from_slice(&[0u8, 255u8]);
    expected.extend_from_slice(b"\r\n--B--\r\n");
    assert_eq!(encode_batch("B", &chunks), expected);
    assert_eq!(encode_batch("B", &Vec::new()), b"--B--\r\n".to_vec());
}

#[test]
fn decoder_sees_the_closing_line() {
    let mut decoder = BatchDecoder::new(Some("multipart/mixed; boundary=xyz")).unwrap();
    assert!(!decoder.is_finished());
    decoder.push(b"--xyz\r\nX-Chunk-ID: k\r\n\r\nv\r\n--xyz");
    assert!(!decoder.is_finished());
    assert_eq!(decoder.next(), Ok(Some(("k".to_string(), b"v".to_vec()))));
    assert!(!decoder.is_finished());
    decoder.push(b"--\r\n");
    assert!(decoder.is_finished());
    assert_eq!(decoder.next(), Ok(None));
}

#[test]
fn read_part_leaves_the_id_as_it_stands() {
    assert_eq!(
        read_part(b"\r\nX-Chunk-ID:   padded  \r\n\r\nabc\r\n"),
        Ok(Some(("  padded  ".to_string(), b"abc".to_vec())))
    );
    assert_eq!(read_part(b"no headers end"), Ok(None));
    assert_eq!(read_part(b"X-Chunk-ID: abc\r\n\r\n"), Err(bad("Part is cut short")));
}

#[test]
fn chunk_id_is_trimmed_of_every_white_space() {
    assert_eq!(
        process_part("X-Chunk-ID: \u{a0}\tabc\u{2003} \r\n\r\nv\r\n".as_bytes()),
        Ok(Some(("abc".to_string(), b"v".to_vec())))
    );
}
