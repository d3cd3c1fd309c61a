use terracotta::server::network::{read_string, read_varint, write_string, write_varint};

fn encoded(value: i32) -> Vec<u8> {
    let mut buffer = Vec::new();
    write_varint(&mut buffer, value);
    buffer
}

#[test]
fn varint_encodings() {
    assert_eq!(encoded(0), vec![0x00]);
    assert_eq!(encoded(1), vec![0x01]);
    assert_eq!(encoded(127), vec![0x7f]);
    assert_eq!(encoded(128), vec![0x80, 0x01]);
    assert_eq!(encoded(300), vec![0xac, 0x02]);
    assert_eq!(encoded(25565), vec![0xdd, 0xc7, 0x01]);
    assert_eq!(encoded(2097151), vec![0xff, 0xff, 0x7f]);
    assert_eq!(encoded(i32::MAX), vec![0xff, 0xff, 0xff, 0xff, 0x07]);
    assert_eq!(encoded(-1), vec![0xff, 0xff, 0xff, 0xff, 0x0f]);
    assert_eq!(encoded(i32::MIN), vec![0x80, 0x80, 0x80, 0x80, 0x08]);
}

#[test]
fn write_varint_appends() {
    let mut buffer = vec![0x42];
    write_varint(&mut buffer, 128);
    assert_eq!(buffer, vec![0x42, 0x80, 0x01]);
}

#[test]
fn varint_roundtrip_values() {
    for value in [0, 1, -1, 127, 128, 255, 25565, 773, 2097151, 268435455, 268435456, i32::MAX, i32::MIN, -300] {
        let mut bytes = encoded(value);
        bytes.push(0x99);
        let mut it = bytes.iter();
        assert_eq!(read_varint(&mut it), Ok(value));
        assert_eq!(it.as_slice(), &[0x99]);
    }
}

#[test]
fn read_varint_takes_a_sixth_byte_after_five_continued_ones() {
    let bytes = [0xff, 0xff, 0xff, 0xff, 0xff, 0x42, 0x99];
    let mut it = bytes.iter();
    assert_eq!(read_varint(&mut it), Ok(-1));
    assert_eq!(it.as_slice(), &[0x99]);
}

#[test]
fn read_varint_drops_bits_beyond_32() {
    let bytes = [0x80, 0x80, 0x80, 0x80, 0x7f];
    let mut it = bytes.iter();
    assert_eq!(read_varint(&mut it), Ok(-268435456));
    assert_eq!(it.as_slice().len(), 0);
}

#[test]
fn strings() {
    let mut buffer = Vec::new();
    write_string(&mut buffer, "hello".to_string());
    assert_eq!(buffer, vec![5, b'h', b'e', b'l', b'l', b'o']);
    buffer.push(9);
    let mut it = buffer.iter();
    assert_eq!(read_string(&mut it), Ok("hello".to_string()));
    assert_eq!(it.as_slice(), &[9]);
}

#[test]
fn string_roundtrip_non_ascii() {
    let text = "héllo, wörld ✓".to_string();
    let mut buffer = Vec::new();
    write_string(&mut buffer, text.clone());
    assert_eq!(buffer[0] as usize, text.len());
    let mut it = buffer.iter();
    assert_eq!(read_string(&mut it), Ok(text));
    assert_eq!(it.as_slice().len(), 0);
}

#[test]
fn read_string_with_negative_length_is_empty() {
    let bytes = [0xff, 0xff, 0xff, 0xff, 0x0f, 7];
    let mut it = bytes.iter();
    assert_eq!(read_string(&mut it), Ok(String::new()));
    assert_eq!(it.as_slice(), &[7]);
}
