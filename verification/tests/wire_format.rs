use zeroconf::{Error, TxtRecord};

#[test]
fn wire_bytes_of_one_attribute() {
    let mut record = TxtRecord::new();
    record.insert(b"foo", Some(b"bar")).unwrap();
    assert_eq!(
        record.to_wire_bytes(),
        vec![0x07, b'f', b'o', b'o', b'=', b'b', b'a', b'r']
    );
}

#[test]
fn wire_bytes_follow_insertion_order() {
    let mut record = TxtRecord::new();
    record.insert(b"foo", Some(b"bar")).unwrap();
    record.insert(b"flag", None).unwrap();
    record.insert(b"e", Some(b"")).unwrap();
    assert_eq!(record.to_wire_bytes(), b"\x07foo=bar\x04flag\x02e=".to_vec());
}

#[test]
fn parse_reads_attributes_in_order() {
    let record = TxtRecord::parse(b"\x07foo=bar\x04flag\x02e=\x05a=b=c").unwrap();
    assert_eq!(
        record.iter(),
        vec![
            (b"foo".to_vec(), Some(b"bar".to_vec())),
            (b"flag".to_vec(), None),
            (b"e".to_vec(), Some(Vec::new())),
            (b"a".to_vec(), Some(b"b=c".to_vec())),
        ]
    );
}

#[test]
fn parse_of_nothing_is_the_empty_record() {
    let record = TxtRecord::parse(b"").unwrap();
    assert_eq!(record.len(), 0);
}

#[test]
fn round_trip_gives_the_record_back() {
    let mut record = TxtRecord::new();
    record.insert(b"foo", Some(b"bar")).unwrap();
    record.insert(b"Flag", None).unwrap();
    record.insert(b"bin", Some(&[0x00, 0xFF, 0x3D, 0x80, 0x0A])).unwrap();
    record.insert(b"empty", Some(b"")).unwrap();
    let long = vec![0xA5u8; 250];
    record.insert(b"long", Some(&long)).unwrap();
    let bytes = record.to_wire_bytes();
    let back = TxtRecord::parse(&bytes).unwrap();
    assert_eq!(back, record);
    assert_eq!(back.iter(), record.iter());
    assert_eq!(back.to_wire_bytes(), bytes);
}

#[test]
fn round_trip_of_the_empty_record() {
    let record = TxtRecord::new();
    let back = TxtRecord::parse(&record.to_wire_bytes()).unwrap();
    assert_eq!(back, record);
}

#[test]
fn parse_then_write_gives_the_bytes_back() {
    let bytes = b"\x03a=1\x01b\x06key=\x00\xff".to_vec();
    let record = TxtRecord::parse(&bytes).unwrap();
    assert_eq!(record.to_wire_bytes(), bytes);
}

#[test]
fn parse_refuses_length_past_the_end() {
    assert_eq!(TxtRecord::parse(b"\x08foo=bar").unwrap_err(), Error::EncodingError);
    assert_eq!(TxtRecord::parse(b"\x07foo=bar\x05ab").unwrap_err(), Error::EncodingError);
    assert_eq!(TxtRecord::parse(b"\x01").unwrap_err(), Error::EncodingError);
    assert_eq!(TxtRecord::parse(&[0xFF; 255]).unwrap_err(), Error::EncodingError);
}

#[test]
fn parse_reads_a_full_segment() {
    let mut bytes = vec![0xFFu8];
    bytes.extend(vec![0x61u8; 255]);
    let record = TxtRecord::parse(&bytes).unwrap();
    assert_eq!(record.keys(), vec![vec![0x61u8; 255]]);
    assert_eq!(record.values(), vec![None]);
}

#[test]
fn parse_refuses_segment_without_key() {
    assert_eq!(TxtRecord::parse(b"\x00").unwrap_err(), Error::EncodingError);
    assert_eq!(TxtRecord::parse(b"\x04=bar").unwrap_err(), Error::EncodingError);
    assert_eq!(TxtRecord::parse(b"\x03a=1\x00\x03b=2").unwrap_err(), Error::EncodingError);
}

#[test]
fn parse_refuses_key_that_comes_twice() {
    assert_eq!(TxtRecord::parse(b"\x03a=1\x03a=2").unwrap_err(), Error::EncodingError);
    assert_eq!(TxtRecord::parse(b"\x03a=1\x01b\x01A").unwrap_err(), Error::EncodingError);
}

#[test]
fn text_has_one_character_for_each_byte() {
    let mut record = TxtRecord::new();
    let value = vec![0xE9u8; 196];
    record.insert(b"key", Some(&value)).unwrap();
    let text = record.to_string();
    let chars: Vec<char> = text.chars().collect();
    assert_eq!(chars.len(), 201);
    assert_eq!(chars[0], '\u{C8}');
    assert_eq!(chars[1], 'k');
    assert_eq!(chars[4], '=');
    assert_eq!(chars[5], '\u{E9}');
    assert_eq!(chars[200], '\u{E9}');
}
