use gobridge::encoding::normalize_utf8_lossy;

#[test]
fn valid_ascii_unchanged() {
    assert_eq!(normalize_utf8_lossy(b"hello"), b"hello".to_vec());
}

#[test]
fn valid_multibyte_unchanged() {
    let two = "\u{e9}".as_bytes();
    assert_eq!(normalize_utf8_lossy(two), two.to_vec());
    let three = "\u{20ac}".as_bytes();
    assert_eq!(normalize_utf8_lossy(three), three.to_vec());
    let four = "\u{1f600}".as_bytes();
    assert_eq!(normalize_utf8_lossy(four), four.to_vec());
}

#[test]
fn empty_input_stays_empty() {
    assert_eq!(normalize_utf8_lossy(b""), Vec::<u8>::new());
}

#[test]
fn lone_invalid_byte_replaced() {
    assert_eq!(normalize_utf8_lossy(&[0xff]), vec![0xef, 0xbf, 0xbd]);
}

#[test]
fn invalid_byte_between_valid_text() {
    assert_eq!(
        normalize_utf8_lossy(&[b'a', 0xff, b'b']),
        vec![b'a', 0xef, 0xbf, 0xbd, b'b']
    );
}

#[test]
fn truncated_sequence_replaced_once() {
    // A three-byte encoding cut short: its maximal subpart is the two bytes
    // present, replaced by a single replacement character.
    assert_eq!(normalize_utf8_lossy(&[0xe2, 0x82]), vec![0xef, 0xbf, 0xbd]);
    assert_eq!(
        normalize_utf8_lossy(&[0xe2, 0x82, b'a']),
        vec![0xef, 0xbf, 0xbd, b'a']
    );
    // Likewise a four-byte encoding cut to three bytes.
    assert_eq!(normalize_utf8_lossy(&[0xf0, 0x9f, 0x98]), vec![0xef, 0xbf, 0xbd]);
}

#[test]
fn overlong_encoding_rejected() {
    assert_eq!(
        normalize_utf8_lossy(&[0xc0, 0xaf]),
        vec![0xef, 0xbf, 0xbd, 0xef, 0xbf, 0xbd]
    );
}

#[test]
fn surrogate_encoding_rejected() {
    assert_eq!(
        normalize_utf8_lossy(&[0xed, 0xa0, 0x80]),
        vec![0xef, 0xbf, 0xbd, 0xef, 0xbf, 0xbd, 0xef, 0xbf, 0xbd]
    );
}

#[test]
fn out_of_range_leading_byte_rejected() {
    assert_eq!(
        normalize_utf8_lossy(&[0xf5, 0x80, 0x80, 0x80]),
        vec![0xef, 0xbf, 0xbd, 0xef, 0xbf, 0xbd, 0xef, 0xbf, 0xbd, 0xef, 0xbf, 0xbd]
    );
}

#[test]
fn normalizing_twice_is_normalizing_once() {
    let inputs: [&[u8]; 5] = [b"plain", &[0xff], &[0xe2, 0x82], &[0xc3, 0xa9, 0x80], b""];
    for input in inputs {
        let once = normalize_utf8_lossy(input);
        let twice = normalize_utf8_lossy(once.as_slice());
        assert_eq!(twice, once);
    }
}

#[test]
fn agrees_with_std_lossy() {
    // The maximal-subpart substitution matches the standard library's lossy
    // conversion, ill-formed sequences of every kind included.
    let inputs: [&[u8]; 9] = [
        b"abc",
        &[0xff, b'x'],
        &[b'a', 0x80],
        &[0xc3, 0xa9],
        &[0xe2, 0x82],
        &[0xf0, 0x9f, 0x98],
        &[0xc0, 0xaf],
        &[0xed, 0xa0, 0x80],
        &[0xf4, 0x90, 0x80, 0x80],
    ];
    for input in inputs {
        let ours = normalize_utf8_lossy(input);
        let std_lossy = String::from_utf8_lossy(input).into_owned().into_bytes();
        assert_eq!(ours, std_lossy);
    }
}
