use git_integrity::local_drive::encoding::{
    cp1252_byte, cp1252_special, decode_local_text, decode_windows_1252, encode_local_text,
};
use git_integrity::local_drive::utf16::decode_utf16;

fn opened(bytes: &[u8]) -> (String, &'static str) {
    decode_local_text(bytes.to_vec()).unwrap()
}

fn refused(bytes: &[u8]) -> String {
    decode_local_text(bytes.to_vec()).unwrap_err()
}

const BINARY: &str = "The selected file appears to be binary and cannot be opened in the built-in text viewer";

#[test]
fn encodings_are_told_apart() {
    assert_eq!(opened(b""), (String::new(), "utf-8"));
    assert_eq!(opened("né".as_bytes()), ("né".to_string(), "utf-8"));
    assert_eq!(opened(&[0xef, 0xbb, 0xbf, b'x']), ("x".to_string(), "utf-8-bom"));
    assert_eq!(opened(&[0xff, 0xfe, b'A', 0]), ("A".to_string(), "utf-16le"));
    assert_eq!(opened(&[0xfe, 0xff, 0, b'A']), ("A".to_string(), "utf-16be"));
    assert_eq!(opened(&[b'A', 0, b'B', 0]), ("AB".to_string(), "utf-16le-no-bom"));
    assert_eq!(opened(&[0, b'A', 0, b'B']), ("AB".to_string(), "utf-16be-no-bom"));
    assert_eq!(opened(&[b'c', 0xe9, 0x80]), ("cé€".to_string(), "windows-1252"));
}

#[test]
fn what_is_no_text_is_refused() {
    assert_eq!(refused(&[0xef, 0xbb, 0xbf, 0x01]), BINARY);
    assert_eq!(refused(&[0xef, 0xbb, 0xbf, 0xff]), "The selected file has an invalid UTF-8 byte-order mark");
    assert_eq!(refused(&[0xff, 0xfe, b'A']), "The selected UTF-16 file has an incomplete final character");
    assert_eq!(refused(&[0xff, 0xfe, 0x00, 0xd8]), "The selected file contains invalid UTF-16 text");
    assert_eq!(refused(&[b'a', 0x1f, b'b']), BINARY);
    assert_eq!(refused(&[b'a', 0, b'b']), BINARY);
    assert_eq!(refused(&[0xe9, 0x81]), "The selected file appears to contain binary or unsupported control bytes");
    assert_eq!(decode_windows_1252(&[0]).unwrap_err(), BINARY);
}

#[test]
fn utf16_is_read_like_the_standard_library_reads_it() {
    let units: [u16; 5] = [0x41, 0xe9, 0xd83d, 0xde00, 0xffff];
    let bytes: Vec<u8> = units.iter().flat_map(|unit| unit.to_be_bytes()).collect();
    assert_eq!(decode_utf16(&bytes, false).unwrap(), String::from_utf16(&units).unwrap());
    for bad in [[0xd83du16, 0x41], [0xde00, 0x41], [0x41, 0xd83d]] {
        let bytes: Vec<u8> = bad.iter().flat_map(|unit| unit.to_le_bytes()).collect();
        assert_eq!(decode_utf16(&bytes, true).is_ok(), String::from_utf16(&bad).is_ok());
    }
}

#[test]
fn windows_1252_bytes_and_characters_match() {
    let mut special = 0;
    for byte in 0x80..=0x9fu8 {
        if let Some(character) = cp1252_special(byte) {
            assert_eq!(cp1252_byte(character), Some(byte));
            special += 1;
        }
    }
    assert_eq!(special, 27);
    assert_eq!(cp1252_special(0x81), None);
    assert_eq!(cp1252_special(b'a'), None);
    assert_eq!(cp1252_byte('€'), Some(0x80));
    assert_eq!(cp1252_byte('ÿ'), Some(0xff));
    assert_eq!(cp1252_byte('Ω'), None);
    assert_eq!(cp1252_byte('\u{85}'), None);
}

#[test]
fn saving_what_was_opened_keeps_every_byte() {
    let samples: [&[u8]; 9] = [
        b"",
        b"plain\n",
        "né €".as_bytes(),
        &[0xef, 0xbb, 0xbf, b'x'],
        &[0xff, 0xfe, 0x3d, 0xd8, 0x00, 0xde],
        &[0xfe, 0xff, 0, b'A'],
        &[b'A', 0, b'B', 0],
        &[0, b'A', 0, b'B'],
        &[b'c', 0xe9, 0x80],
    ];
    for bytes in samples {
        let (content, encoding) = opened(bytes);
        assert_eq!(encode_local_text(&content, encoding).unwrap(), bytes);
    }
}

#[test]
fn text_that_an_encoding_lacks_is_refused() {
    assert_eq!(
        encode_local_text("aΩ", "windows-1252").unwrap_err(),
        "The character 'Ω' cannot be represented in the file's original Windows-1252 encoding"
    );
    assert_eq!(encode_local_text("a", "ascii").unwrap_err(), "Unsupported text encoding 'ascii'");
    assert_eq!(encode_local_text("é", "utf-8-bom").unwrap(), [0xef, 0xbb, 0xbf, 0xc3, 0xa9]);
    assert_eq!(encode_local_text("é", "utf-16be-no-bom").unwrap(), [0, 0xe9]);
    assert_eq!(encode_local_text("😀", "utf-16le").unwrap(), [0xff, 0xfe, 0x3d, 0xd8, 0x00, 0xde]);
}

#[test]
fn saved_text_is_read_back_in_its_encoding() {
    for encoding in ["utf-8", "utf-8-bom", "utf-16le", "utf-16be"] {
        for content in ["plain text\n", "né €", "😀 and\ttabs"] {
            let bytes = encode_local_text(content, encoding).unwrap();
            assert_eq!(opened(&bytes), (content.to_string(), encoding));
        }
    }
    let bytes = encode_local_text("déjà", "windows-1252").unwrap();
    assert_eq!(opened(&bytes), ("déjà".to_string(), "windows-1252"));
    // Bytes that happen to be UTF-8 are found as such.
    let bytes = encode_local_text("Ã©", "windows-1252").unwrap();
    assert_eq!(opened(&bytes), ("é".to_string(), "utf-8"));
}
