use ordinals::inscription::parse_witness_envelope;

fn envelope(ct: &[u8], body_chunks: &[&[u8]]) -> Vec<u8> {
    let mut v = vec![0x00, 0x63, 0x03, b'o', b'r', b'd', 0x01, 0x01];
    v.push(ct.len() as u8);
    v.extend_from_slice(ct);
    v.push(0x00);
    for chunk in body_chunks {
        v.push(chunk.len() as u8);
        v.extend_from_slice(chunk);
    }
    v.push(0x68);
    v
}

#[test]
fn plain_envelope() {
    let w = vec![envelope(b"text/plain", &[b"hello"])];
    let insc = parse_witness_envelope(&w).unwrap();
    assert_eq!(insc.content_type, b"text/plain".to_vec());
    assert_eq!(insc.body, b"hello".to_vec());
}

#[test]
fn body_chunks_concatenate() {
    let w = vec![envelope(b"text/plain", &[b"hel", b"lo", b" world"])];
    let insc = parse_witness_envelope(&w).unwrap();
    assert_eq!(insc.body, b"hello world".to_vec());
}

#[test]
fn empty_body() {
    let w = vec![envelope(b"text/plain", &[])];
    let insc = parse_witness_envelope(&w).unwrap();
    assert!(insc.body.is_empty());
}

#[test]
fn envelope_after_leading_bytes_is_found() {
    let mut e = vec![0x51, 0x51, 0x51];
    e.extend_from_slice(&envelope(b"x", &[b"y"]));
    let w = vec![e];
    let insc = parse_witness_envelope(&w).unwrap();
    assert_eq!(insc.content_type, b"x".to_vec());
}

#[test]
fn later_witness_element_is_scanned() {
    let w = vec![vec![0x01, 0x02], envelope(b"a", &[b"b"])];
    let insc = parse_witness_envelope(&w).unwrap();
    assert_eq!(insc.content_type, b"a".to_vec());
}

#[test]
fn first_envelope_wins() {
    let mut e = envelope(b"first", &[b"1"]);
    e.extend_from_slice(&envelope(b"second", &[b"2"]));
    let insc = parse_witness_envelope(&vec![e]).unwrap();
    assert_eq!(insc.content_type, b"first".to_vec());
}

#[test]
fn pushdata1_lengths() {
    // a body chunk pushed with the one-byte-length opcode
    let mut v = vec![0x00, 0x63, 0x03, b'o', b'r', b'd', 0x01, 0x01];
    v.push(0x01);
    v.push(b't');
    v.push(0x00);
    let body: Vec<u8> = (0..200u16).map(|i| (i % 251) as u8).collect();
    v.push(0x4c);
    v.push(200);
    v.extend_from_slice(&body);
    v.push(0x68);
    let insc = parse_witness_envelope(&vec![v]).unwrap();
    assert_eq!(insc.body, body);
}

#[test]
fn malformed_envelopes_are_absent() {
    // truncated before the endif
    let mut truncated = envelope(b"x", &[b"y"]);
    truncated.pop();
    assert!(parse_witness_envelope(&vec![truncated]).is_none());
    // wrong protocol push
    let wrong = vec![0x00, 0x63, 0x03, b'o', b'r', b'e', 0x01, 0x01, 0x01, b'x', 0x00, 0x68];
    assert!(parse_witness_envelope(&vec![wrong]).is_none());
    // missing body separator
    let missing = vec![0x00, 0x63, 0x03, b'o', b'r', b'd', 0x01, 0x01, 0x01, b'x', 0x68];
    assert!(parse_witness_envelope(&vec![missing]).is_none());
    // no envelope at all
    assert!(parse_witness_envelope(&vec![vec![1, 2, 3]]).is_none());
    assert!(parse_witness_envelope(&Vec::new()).is_none());
}
