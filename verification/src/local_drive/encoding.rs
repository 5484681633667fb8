//! Text files in the encodings that the built-in editor opens and saves without converting them.
use crate::local_drive::utf16;
use crate::text;
use vstd::prelude::*;
use vstd::string::*;
use vstd::utf8::*;

verus! {

/// `char::from_u32` gives the character of a Unicode scalar value, and none for any other number.
pub assume_specification[ char::from_u32 ](i: u32) -> (r: Option<char>)
    ensures
        r == if is_scalar(i) { Some(i as char) } else { None },
;

// Windows-1252.

/// The characters that Windows-1252 has in the place of the C1 control codes.
pub open spec fn special_1252(byte: u8) -> Option<char> {
    match byte {
        0x80 => Some('\u{20ac}'),
        0x82 => Some('\u{201a}'),
        0x83 => Some('\u{192}'),
        0x84 => Some('\u{201e}'),
        0x85 => Some('\u{2026}'),
        0x86 => Some('\u{2020}'),
        0x87 => Some('\u{2021}'),
        0x88 => Some('\u{2c6}'),
        0x89 => Some('\u{2030}'),
        0x8a => Some('\u{160}'),
        0x8b => Some('\u{2039}'),
        0x8c => Some('\u{152}'),
        0x8e => Some('\u{17d}'),
        0x91 => Some('\u{2018}'),
        0x92 => Some('\u{2019}'),
        0x93 => Some('\u{201c}'),
        0x94 => Some('\u{201d}'),
        0x95 => Some('\u{2022}'),
        0x96 => Some('\u{2013}'),
        0x97 => Some('\u{2014}'),
        0x98 => Some('\u{2dc}'),
        0x99 => Some('\u{2122}'),
        0x9a => Some('\u{161}'),
        0x9b => Some('\u{203a}'),
        0x9c => Some('\u{153}'),
        0x9e => Some('\u{17e}'),
        0x9f => Some('\u{178}'),
        _ => None,
    }
}

/// The Windows-1252 character of a byte; five bytes have none.
pub open spec fn char_1252(byte: u8) -> Option<char> {
    if 0x80 <= byte <= 0x9f {
        special_1252(byte)
    } else {
        Some(byte as char)
    }
}

/// The characters that Windows-1252 has in the place of the C1 control codes.
pub fn cp1252_special(byte: u8) -> (r: Option<char>)
    ensures
        r == special_1252(byte),
{
    match byte {
        0x80 => Some('\u{20ac}'),
        0x82 => Some('\u{201a}'),
        0x83 => Some('\u{192}'),
        0x84 => Some('\u{201e}'),
        0x85 => Some('\u{2026}'),
        0x86 => Some('\u{2020}'),
        0x87 => Some('\u{2021}'),
        0x88 => Some('\u{2c6}'),
        0x89 => Some('\u{2030}'),
        0x8a => Some('\u{160}'),
        0x8b => Some('\u{2039}'),
        0x8c => Some('\u{152}'),
        0x8e => Some('\u{17d}'),
        0x91 => Some('\u{2018}'),
        0x92 => Some('\u{2019}'),
        0x93 => Some('\u{201c}'),
        0x94 => Some('\u{201d}'),
        0x95 => Some('\u{2022}'),
        0x96 => Some('\u{2013}'),
        0x97 => Some('\u{2014}'),
        0x98 => Some('\u{2dc}'),
        0x99 => Some('\u{2122}'),
        0x9a => Some('\u{161}'),
        0x9b => Some('\u{203a}'),
        0x9c => Some('\u{153}'),
        0x9e => Some('\u{17e}'),
        0x9f => Some('\u{178}'),
        _ => None,
    }
}

/// The byte that stands for `character` in Windows-1252, if there is one.
pub fn cp1252_byte(character: char) -> (r: Option<u8>)
    ensures
        match r {
            Some(byte) => char_1252(byte) == Some(character),
            None => forall|byte: u8| #[trigger] char_1252(byte) != Some(character),
        },
{
    let code: u32 = character as u32;
    if code <= 0x7f || (0xa0 <= code && code <= 0xff) {
        return Some(code as u8);
    }
    match character {
        '\u{20ac}' => Some(0x80),
        '\u{201a}' => Some(0x82),
        '\u{192}' => Some(0x83),
        '\u{201e}' => Some(0x84),
        '\u{2026}' => Some(0x85),
        '\u{2020}' => Some(0x86),
        '\u{2021}' => Some(0x87),
        '\u{2c6}' => Some(0x88),
        '\u{2030}' => Some(0x89),
        '\u{160}' => Some(0x8a),
        '\u{2039}' => Some(0x8b),
        '\u{152}' => Some(0x8c),
        '\u{17d}' => Some(0x8e),
        '\u{2018}' => Some(0x91),
        '\u{2019}' => Some(0x92),
        '\u{201c}' => Some(0x93),
        '\u{201d}' => Some(0x94),
        '\u{2022}' => Some(0x95),
        '\u{2013}' => Some(0x96),
        '\u{2014}' => Some(0x97),
        '\u{2dc}' => Some(0x98),
        '\u{2122}' => Some(0x99),
        '\u{161}' => Some(0x9a),
        '\u{203a}' => Some(0x9b),
        '\u{153}' => Some(0x9c),
        '\u{17e}' => Some(0x9e),
        '\u{178}' => Some(0x9f),
        _ => None,
    }
}

/// No two bytes stand for one character.
pub proof fn lemma_char_1252_injective(a: u8, b: u8)
    requires
        char_1252(a) is Some,
        char_1252(a) == char_1252(b),
    ensures
        a == b,
{
}

/// The bytes that text does not hold: the control codes other than tab and the line breaks.
pub open spec fn is_binary_byte(byte: u8) -> bool {
    byte < 0x09 || 0x0e <= byte <= 0x1f
}

/// Whether some byte is one that text does not hold.
pub open spec fn looks_binary(bytes: Seq<u8>) -> bool {
    exists|i: int| 0 <= i < bytes.len() && is_binary_byte(#[trigger] bytes[i])
}

fn has_binary_byte(bytes: &[u8]) -> (r: bool)
    ensures
        r == looks_binary(bytes@),
{
    for i in 0..bytes.len()
        invariant
            forall|j: int| 0 <= j < i ==> !is_binary_byte(#[trigger] bytes@[j]),
    {
        let byte: u8 = bytes[i];
        if byte < 0x09 || (0x0e <= byte && byte <= 0x1f) {
            assert(is_binary_byte(bytes@[i as int]));
            return true;
        }
    }
    false
}

/// The error for a file that is no text.
pub open spec fn binary_error() -> Seq<char> {
    "The selected file appears to be binary and cannot be opened in the built-in text viewer"@
}

/// Whether every byte has a Windows-1252 character.
pub open spec fn all_1252(bytes: Seq<u8>) -> bool {
    forall|i: int| 0 <= i < bytes.len() ==> char_1252(#[trigger] bytes[i]) is Some
}

/// The text that the bytes spell in Windows-1252.
pub open spec fn text_1252(bytes: Seq<u8>) -> Seq<char> {
    bytes.map_values(|b: u8| char_1252(b)->0)
}

/// What a Windows-1252 file holds.
pub open spec fn read_1252(bytes: Seq<u8>) -> Result<Seq<char>, Seq<char>> {
    if looks_binary(bytes) {
        Err(binary_error())
    } else if all_1252(bytes) {
        Ok(text_1252(bytes))
    } else {
        Err("The selected file appears to contain binary or unsupported control bytes"@)
    }
}

/// Decodes a Windows-1252 file.
pub fn decode_windows_1252(bytes: &[u8]) -> (r: Result<String, String>)
    ensures
        text::result_view(r) == read_1252(bytes@),
{
    if has_binary_byte(bytes) {
        return Err(
            "The selected file appears to be binary and cannot be opened in the built-in text viewer".to_owned(),
        );
    }
    let mut content: String = String::new();
    for i in 0..bytes.len()
        invariant
            forall|j: int| 0 <= j < i ==> char_1252(#[trigger] bytes@[j]) is Some,
            content@ == text_1252(bytes@.take(i as int)),
            !looks_binary(bytes@),
    {
        let byte: u8 = bytes[i];
        let c: char = if 0x80 <= byte && byte <= 0x9f {
            match cp1252_special(byte) {
                Some(c) => c,
                None => {
                    assert(char_1252(bytes@[i as int]) is None);
                    return Err(
                        "The selected file appears to contain binary or unsupported control bytes".to_owned(),
                    );
                },
            }
        } else {
            byte as char
        };
        proof {
            assert(bytes@.take(i + 1) =~= bytes@.take(i as int).push(byte));
            assert(text_1252(bytes@.take(i + 1)) =~= text_1252(bytes@.take(i as int)).push(c));
        }
        content.push(c);
    }
    assert(bytes@.take(bytes@.len() as int) =~= bytes@);
    Ok(content)
}

// Telling encodings apart.

/// How a file is read, as far as its bytes tell.
pub enum Shape {
    /// UTF-8 behind a byte-order mark.
    Utf8Marked,
    /// Little-endian UTF-16 behind a byte-order mark.
    LittleMarked,
    /// Big-endian UTF-16 behind a byte-order mark.
    BigMarked,
    /// Little-endian UTF-16 without a mark, by its zero bytes.
    LittleUnmarked,
    /// Big-endian UTF-16 without a mark, by its zero bytes.
    BigUnmarked,
    /// One of the byte encodings.
    Bytes,
}

/// How many zero bytes stand at the even places (`parity` 0) or at the odd places (`parity` 1).
pub open spec fn zeroes(bytes: Seq<u8>, parity: int) -> nat
    decreases bytes.len(),
{
    if bytes.len() == 0 {
        0
    } else {
        zeroes(bytes.drop_last(), parity) + if bytes.last() == 0 && (bytes.len() - 1) % 2 == parity {
            1nat
        } else {
            0nat
        }
    }
}

/// The number of zero bytes on one side that identifies unmarked UTF-16.
pub open spec fn zero_threshold(len: nat) -> nat {
    if len / 2 / 4 < 1 {
        1
    } else {
        len / 2 / 4
    }
}

/// How a file is read. Unmarked UTF-16 is taken only when zero bytes identify the byte order
/// strongly and consistently.
pub open spec fn shape_of(bytes: Seq<u8>) -> Shape {
    if bytes.len() >= 3 && bytes[0] == 0xef && bytes[1] == 0xbb && bytes[2] == 0xbf {
        Shape::Utf8Marked
    } else if bytes.len() >= 2 && bytes[0] == 0xff && bytes[1] == 0xfe {
        Shape::LittleMarked
    } else if bytes.len() >= 2 && bytes[0] == 0xfe && bytes[1] == 0xff {
        Shape::BigMarked
    } else if bytes.len() >= 4 && bytes.len() % 2 == 0 && zeroes(bytes, 1) >= zero_threshold(bytes.len())
        && zeroes(bytes, 1) > 2 * zeroes(bytes, 0) {
        Shape::LittleUnmarked
    } else if bytes.len() >= 4 && bytes.len() % 2 == 0 && zeroes(bytes, 0) >= zero_threshold(bytes.len())
        && zeroes(bytes, 0) > 2 * zeroes(bytes, 1) {
        Shape::BigUnmarked
    } else {
        Shape::Bytes
    }
}

/// A text together with the name of the encoding in which it was found.
pub open spec fn named(content: Result<Seq<char>, Seq<char>>, encoding: Seq<char>) -> Result<
    (Seq<char>, Seq<char>),
    Seq<char>,
> {
    match content {
        Ok(c) => Ok((c, encoding)),
        Err(e) => Err(e),
    }
}

/// What a text file holds: its text and the name of its encoding, or why it cannot be opened.
pub open spec fn read_text(bytes: Seq<u8>) -> Result<(Seq<char>, Seq<char>), Seq<char>> {
    match shape_of(bytes) {
        Shape::Utf8Marked => if looks_binary(bytes.skip(3)) {
            Err(binary_error())
        } else if valid_utf8(bytes.skip(3)) {
            Ok((decode_utf8(bytes.skip(3)), "utf-8-bom"@))
        } else {
            Err("The selected file has an invalid UTF-8 byte-order mark"@)
        },
        Shape::LittleMarked => named(utf16::read_utf16(bytes.skip(2), true), "utf-16le"@),
        Shape::BigMarked => named(utf16::read_utf16(bytes.skip(2), false), "utf-16be"@),
        Shape::LittleUnmarked => named(utf16::read_utf16(bytes, true), "utf-16le-no-bom"@),
        Shape::BigUnmarked => named(utf16::read_utf16(bytes, false), "utf-16be-no-bom"@),
        Shape::Bytes => if looks_binary(bytes) {
            Err(binary_error())
        } else if valid_utf8(bytes) {
            Ok((decode_utf8(bytes), "utf-8"@))
        } else {
            named(read_1252(bytes), "windows-1252"@)
        },
    }
}

/// A decoded file by its characters.
pub open spec fn decoded_view(r: Result<(String, &'static str), String>) -> Result<
    (Seq<char>, Seq<char>),
    Seq<char>,
> {
    match r {
        Ok((content, encoding)) => Ok((content@, encoding@)),
        Err(e) => Err(e@),
    }
}

fn count_zeroes(bytes: &[u8]) -> (r: (usize, usize))
    ensures
        r.0 == zeroes(bytes@, 0),
        r.1 == zeroes(bytes@, 1),
        2 * r.0 <= bytes@.len() + 1,
        2 * r.1 <= bytes@.len(),
{
    let mut even: usize = 0;
    let mut odd: usize = 0;
    for i in 0..bytes.len()
        invariant
            even == zeroes(bytes@.take(i as int), 0),
            odd == zeroes(bytes@.take(i as int), 1),
            2 * even <= i + 1,
            2 * odd <= i,
            i % 2 == 0 ==> 2 * even <= i,
            i % 2 == 0 || 2 * odd <= i - 1,
    {
        proof {
            assert(bytes@.take(i + 1).drop_last() =~= bytes@.take(i as int));
        }
        if bytes[i] == 0 {
            if i % 2 == 0 {
                even = even + 1;
            } else {
                odd = odd + 1;
            }
        }
    }
    assert(bytes@.take(bytes@.len() as int) =~= bytes@);
    (even, odd)
}

fn detect_shape(bytes: &[u8]) -> (r: Shape)
    ensures
        r == shape_of(bytes@),
{
    let n: usize = bytes.len();
    if n >= 3 && bytes[0] == 0xef && bytes[1] == 0xbb && bytes[2] == 0xbf {
        return Shape::Utf8Marked;
    }
    if n >= 2 && bytes[0] == 0xff && bytes[1] == 0xfe {
        return Shape::LittleMarked;
    }
    if n >= 2 && bytes[0] == 0xfe && bytes[1] == 0xff {
        return Shape::BigMarked;
    }
    if n >= 4 && n % 2 == 0 {
        let (even, odd) = count_zeroes(bytes);
        let threshold: usize = if n / 2 / 4 < 1 {
            1
        } else {
            n / 2 / 4
        };
        if odd >= threshold && odd > 2 * even {
            return Shape::LittleUnmarked;
        }
        if even >= threshold && even > 2 * odd {
            return Shape::BigUnmarked;
        }
    }
    Shape::Bytes
}

fn bytes_from(bytes: &[u8], start: usize) -> (r: Vec<u8>)
    requires
        start <= bytes@.len(),
    ensures
        r@ == bytes@.skip(start as int),
{
    let mut r: Vec<u8> = Vec::new();
    for i in start..bytes.len()
        invariant
            start <= bytes@.len(),
            r@ == bytes@.subrange(start as int, i as int),
    {
        r.push(bytes[i]);
    }
    assert(r@ =~= bytes@.skip(start as int));
    r
}

fn with_encoding(content: Result<String, String>, encoding: &'static str) -> (r: Result<
    (String, &'static str),
    String,
>)
    ensures
        decoded_view(r) == named(text::result_view(content), encoding@),
{
    match content {
        Ok(c) => Ok((c, encoding)),
        Err(e) => Err(e),
    }
}

/// Opens a text file: its text and the name of the encoding in which it has to be saved again.
pub fn decode_local_text(bytes: Vec<u8>) -> (r: Result<(String, &'static str), String>)
    ensures
        decoded_view(r) == read_text(bytes@),
{
    match detect_shape(bytes.as_slice()) {
        Shape::Utf8Marked => {
            let rest: Vec<u8> = bytes_from(bytes.as_slice(), 3);
            if has_binary_byte(rest.as_slice()) {
                return Err(
                    "The selected file appears to be binary and cannot be opened in the built-in text viewer".to_owned(),
                );
            }
            match String::from_utf8(rest) {
                Ok(content) => {
                    proof {
                        encode_utf8_decode_utf8(content@);
                    }
                    Ok((content, "utf-8-bom"))
                },
                Err(_) => Err("The selected file has an invalid UTF-8 byte-order mark".to_owned()),
            }
        },
        Shape::LittleMarked => {
            let rest: Vec<u8> = bytes_from(bytes.as_slice(), 2);
            with_encoding(utf16::decode_utf16(rest.as_slice(), true), "utf-16le")
        },
        Shape::BigMarked => {
            let rest: Vec<u8> = bytes_from(bytes.as_slice(), 2);
            with_encoding(utf16::decode_utf16(rest.as_slice(), false), "utf-16be")
        },
        Shape::LittleUnmarked => {
            with_encoding(utf16::decode_utf16(bytes.as_slice(), true), "utf-16le-no-bom")
        },
        Shape::BigUnmarked => {
            with_encoding(utf16::decode_utf16(bytes.as_slice(), false), "utf-16be-no-bom")
        },
        Shape::Bytes => {
            if has_binary_byte(bytes.as_slice()) {
                return Err(
                    "The selected file appears to be binary and cannot be opened in the built-in text viewer".to_owned(),
                );
            }
            let whole: Vec<u8> = bytes_from(bytes.as_slice(), 0);
            assert(whole@ =~= bytes@);
            match String::from_utf8(whole) {
                Ok(content) => {
                    proof {
                        encode_utf8_decode_utf8(content@);
                    }
                    Ok((content, "utf-8"))
                },
                Err(_) => with_encoding(decode_windows_1252(bytes.as_slice()), "windows-1252"),
            }
        },
    }
}

// Saving.

/// The byte of a character in Windows-1252.
pub open spec fn byte_1252(c: char) -> u8 {
    choose|b: u8| #[trigger] char_1252(b) == Some(c)
}

/// Whether a character has a byte in Windows-1252.
pub open spec fn fits_1252(c: char) -> bool {
    exists|b: u8| #[trigger] char_1252(b) == Some(c)
}

/// The bytes of a text in Windows-1252. The first character without a byte is reported.
pub open spec fn write_1252(content: Seq<char>) -> Result<Seq<u8>, Seq<char>>
    decreases content.len(),
{
    if content.len() == 0 {
        Ok(Seq::empty())
    } else {
        match write_1252(content.drop_last()) {
            Ok(front) => if fits_1252(content.last()) {
                Ok(front.push(byte_1252(content.last())))
            } else {
                Err(
                    "The character '"@ + seq![content.last()]
                        + "' cannot be represented in the file's original Windows-1252 encoding"@,
                )
            },
            Err(e) => Err(e),
        }
    }
}

/// The bytes of a text in a named encoding.
pub open spec fn write_text(content: Seq<char>, encoding: Seq<char>) -> Result<Seq<u8>, Seq<char>> {
    if encoding == "utf-8"@ {
        Ok(encode_utf8(content))
    } else if encoding == "utf-8-bom"@ {
        Ok(seq![0xefu8, 0xbbu8, 0xbfu8] + encode_utf8(content))
    } else if encoding == "utf-16le"@ {
        Ok(seq![0xffu8, 0xfeu8] + utf16::bytes_of_units(utf16::to_units(content), true))
    } else if encoding == "utf-16le-no-bom"@ {
        Ok(utf16::bytes_of_units(utf16::to_units(content), true))
    } else if encoding == "utf-16be"@ {
        Ok(seq![0xfeu8, 0xffu8] + utf16::bytes_of_units(utf16::to_units(content), false))
    } else if encoding == "utf-16be-no-bom"@ {
        Ok(utf16::bytes_of_units(utf16::to_units(content), false))
    } else if encoding == "windows-1252"@ {
        write_1252(content)
    } else {
        Err("Unsupported text encoding '"@ + encoding + "'"@)
    }
}

/// Encoded bytes by their values.
pub open spec fn bytes_view(r: Result<Vec<u8>, String>) -> Result<Seq<u8>, Seq<char>> {
    match r {
        Ok(b) => Ok(b@),
        Err(e) => Err(e@),
    }
}

fn encode_windows_1252(content: &str) -> (r: Result<Vec<u8>, String>)
    ensures
        bytes_view(r) == write_1252(content@),
{
    let mut bytes: Vec<u8> = Vec::new();
    let chars: Vec<char> = text::chars_of(content);
    for i in 0..chars.len()
        invariant
            chars@ == content@,
            write_1252(content@.take(i as int)) == Ok::<Seq<u8>, Seq<char>>(bytes@),
    {
        let c: char = chars[i];
        proof {
            assert(content@.take(i + 1).drop_last() =~= content@.take(i as int));
        }
        match cp1252_byte(c) {
            Some(byte) => {
                proof {
                    assert(fits_1252(c));
                    lemma_char_1252_injective(byte, byte_1252(c));
                }
                bytes.push(byte);
            },
            None => {
                let mut e: String = "The character '".to_owned();
                e.push(c);
                e.append("' cannot be represented in the file's original Windows-1252 encoding");
                proof {
                    lemma_write_1252_error(content@, i + 1);
                    assert("The character '"@ + seq![c] =~= "The character '"@.push(c));
                }
                return Err(e);
            },
        }
    }
    assert(content@.take(content@.len() as int) =~= content@);
    Ok(bytes)
}

/// An error in a part of the text is the error of the whole.
proof fn lemma_write_1252_error(content: Seq<char>, n: int)
    requires
        0 <= n <= content.len(),
        write_1252(content.take(n)) is Err,
    ensures
        write_1252(content) == write_1252(content.take(n)),
    decreases content.len() - n,
{
    if n == content.len() {
        assert(content.take(n) =~= content);
    } else {
        assert(content.take(n + 1).drop_last() =~= content.take(n));
        lemma_write_1252_error(content, n + 1);
    }
}

/// Turns a text into the bytes of the encoding in which it was opened.
pub fn encode_local_text(content: &str, encoding: &str) -> (r: Result<Vec<u8>, String>)
    ensures
        bytes_view(r) == write_text(content@, encoding@),
{
    if text::same_text(encoding, "utf-8") {
        let bytes: Vec<u8> = bytes_from(content.as_bytes(), 0);
        assert(bytes@ =~= encode_utf8(content@));
        return Ok(bytes);
    }
    if text::same_text(encoding, "utf-8-bom") {
        let mut bytes: Vec<u8> = Vec::new();
        bytes.push(0xef);
        bytes.push(0xbb);
        bytes.push(0xbf);
        let mut rest: Vec<u8> = bytes_from(content.as_bytes(), 0);
        assert(rest@ =~= encode_utf8(content@));
        bytes.append(&mut rest);
        assert(bytes@ =~= seq![0xefu8, 0xbbu8, 0xbfu8] + encode_utf8(content@));
        return Ok(bytes);
    }
    if text::same_text(encoding, "utf-16le") {
        let mut start: Vec<u8> = Vec::new();
        start.push(0xff);
        start.push(0xfe);
        assert(start@ =~= seq![0xffu8, 0xfeu8]);
        return Ok(utf16::encode_utf16(content, start, true));
    }
    if text::same_text(encoding, "utf-16le-no-bom") {
        let bytes: Vec<u8> = utf16::encode_utf16(content, Vec::new(), true);
        assert(bytes@ =~= utf16::bytes_of_units(utf16::to_units(content@), true));
        return Ok(bytes);
    }
    if text::same_text(encoding, "utf-16be") {
        let mut start: Vec<u8> = Vec::new();
        start.push(0xfe);
        start.push(0xff);
        assert(start@ =~= seq![0xfeu8, 0xffu8]);
        return Ok(utf16::encode_utf16(content, start, false));
    }
    if text::same_text(encoding, "utf-16be-no-bom") {
        let bytes: Vec<u8> = utf16::encode_utf16(content, Vec::new(), false);
        assert(bytes@ =~= utf16::bytes_of_units(utf16::to_units(content@), false));
        return Ok(bytes);
    }
    if text::same_text(encoding, "windows-1252") {
        return encode_windows_1252(content);
    }
    let mut e: String = "Unsupported text encoding '".to_owned();
    e.append(encoding);
    e.append("'");
    Err(e)
}

// Laws of opening and saving.

proof fn lemma_names_differ()
    ensures
        "utf-8"@ != "utf-8-bom"@,
        "utf-8"@ != "utf-16le"@,
        "utf-8"@ != "utf-16be"@,
        "utf-8"@ != "utf-16le-no-bom"@,
        "utf-8"@ != "utf-16be-no-bom"@,
        "utf-8"@ != "windows-1252"@,
        "utf-8-bom"@ != "utf-16le"@,
        "utf-8-bom"@ != "utf-16be"@,
        "utf-8-bom"@ != "utf-16le-no-bom"@,
        "utf-8-bom"@ != "utf-16be-no-bom"@,
        "utf-8-bom"@ != "windows-1252"@,
        "utf-16le"@ != "utf-16be"@,
        "utf-16le"@ != "utf-16le-no-bom"@,
        "utf-16le"@ != "utf-16be-no-bom"@,
        "utf-16le"@ != "windows-1252"@,
        "utf-16be"@ != "utf-16le-no-bom"@,
        "utf-16be"@ != "utf-16be-no-bom"@,
        "utf-16be"@ != "windows-1252"@,
        "utf-16le-no-bom"@ != "utf-16be-no-bom"@,
        "utf-16le-no-bom"@ != "windows-1252"@,
        "utf-16be-no-bom"@ != "windows-1252"@,
{
    reveal_strlit("utf-8");
    reveal_strlit("utf-8-bom");
    reveal_strlit("utf-16le");
    reveal_strlit("utf-16be");
    reveal_strlit("utf-16le-no-bom");
    reveal_strlit("utf-16be-no-bom");
    reveal_strlit("windows-1252");
    assert("utf-8"@.len() == 5 && "utf-8-bom"@.len() == 9 && "utf-16le"@.len() == 8);
    assert("utf-16be"@.len() == 8 && "utf-16le-no-bom"@.len() == 15);
    assert("utf-16be-no-bom"@.len() == 15 && "windows-1252"@.len() == 12);
    assert("utf-16le"@[6] != "utf-16be"@[6]);
    assert("utf-16le-no-bom"@[6] != "utf-16be-no-bom"@[6]);
}

proof fn lemma_write_of_text_1252(bytes: Seq<u8>)
    requires
        all_1252(bytes),
    ensures
        write_1252(text_1252(bytes)) == Ok::<Seq<u8>, Seq<char>>(bytes),
    decreases bytes.len(),
{
    let content = text_1252(bytes);
    if bytes.len() == 0 {
        assert(content =~= Seq::empty());
        assert(bytes =~= Seq::empty());
    } else {
        let front = bytes.drop_last();
        assert(all_1252(front)) by {
            assert forall|i: int| 0 <= i < front.len() implies char_1252(#[trigger] front[i]) is Some by {
                assert(front[i] == bytes[i]);
            }
        }
        lemma_write_of_text_1252(front);
        assert(content.drop_last() =~= text_1252(front));
        let b = bytes[bytes.len() - 1];
        assert(char_1252(b) == Some(content.last()));
        lemma_char_1252_injective(b, byte_1252(content.last()));
        assert(front.push(b) =~= bytes);
    }
}

proof fn lemma_text_of_write_1252(content: Seq<char>)
    requires
        write_1252(content) is Ok,
    ensures
        all_1252(write_1252(content)->Ok_0),
        text_1252(write_1252(content)->Ok_0) == content,
    decreases content.len(),
{
    let bytes = write_1252(content)->Ok_0;
    if content.len() == 0 {
        assert(text_1252(bytes) =~= content);
    } else {
        lemma_text_of_write_1252(content.drop_last());
        let front = write_1252(content.drop_last())->Ok_0;
        assert forall|i: int| 0 <= i < bytes.len() implies char_1252(#[trigger] bytes[i]) is Some by {
            if i < front.len() {
                assert(bytes[i] == front[i]);
            }
        }
        assert(text_1252(bytes) =~= text_1252(front).push(content.last()));
        assert(content.drop_last().push(content.last()) =~= content);
    }
}

/// Opening a file and saving the text unchanged in the encoding that was found gives back exactly the
/// bytes of the file. No file is converted.
pub proof fn law_saving_unchanged_text_keeps_the_bytes(bytes: Seq<u8>)
    requires
        read_text(bytes) is Ok,
    ensures
        write_text((read_text(bytes)->Ok_0).0, (read_text(bytes)->Ok_0).1) == Ok::<Seq<u8>, Seq<char>>(bytes),
{
    lemma_names_differ();
    let (content, encoding) = read_text(bytes)->Ok_0;
    match shape_of(bytes) {
        Shape::Utf8Marked => {
            assert(encoding == "utf-8-bom"@);
            assert(encode_utf8(content) == bytes.skip(3)) by {
                decode_utf8_encode_utf8(bytes.skip(3));
            }
            assert(seq![0xefu8, 0xbbu8, 0xbfu8] + bytes.skip(3) =~= bytes);
        },
        Shape::LittleMarked => {
            assert(encoding == "utf-16le"@);
            lemma_utf16_kept(bytes.skip(2), true);
            assert(seq![0xffu8, 0xfeu8] + bytes.skip(2) =~= bytes);
        },
        Shape::BigMarked => {
            assert(encoding == "utf-16be"@);
            lemma_utf16_kept(bytes.skip(2), false);
            assert(seq![0xfeu8, 0xffu8] + bytes.skip(2) =~= bytes);
        },
        Shape::LittleUnmarked => {
            assert(encoding == "utf-16le-no-bom"@);
            lemma_utf16_kept(bytes, true);
        },
        Shape::BigUnmarked => {
            assert(encoding == "utf-16be-no-bom"@);
            lemma_utf16_kept(bytes, false);
        },
        Shape::Bytes => {
            if valid_utf8(bytes) {
                assert(encoding == "utf-8"@);
                assert(encode_utf8(content) == bytes) by {
                    decode_utf8_encode_utf8(bytes);
                }
            } else {
                assert(encoding == "windows-1252"@);
                lemma_write_of_text_1252(bytes);
            }
        },
    }
}

proof fn lemma_utf16_kept(bytes: Seq<u8>, little_endian: bool)
    requires
        utf16::read_utf16(bytes, little_endian) is Ok,
    ensures
        utf16::bytes_of_units(
            utf16::to_units(utf16::read_utf16(bytes, little_endian)->Ok_0),
            little_endian,
        ) == bytes,
{
    utf16::lemma_to_from_units(utf16::units_of_bytes(bytes, little_endian));
    utf16::lemma_bytes_units_inverse(bytes, little_endian);
}

/// A text that was saved and is found in the same encoding again is read back as it was written.
pub proof fn law_written_text_is_read_back(content: Seq<char>, encoding: Seq<char>)
    requires
        write_text(content, encoding) is Ok,
        read_text(write_text(content, encoding)->Ok_0) is Ok,
        (read_text(write_text(content, encoding)->Ok_0)->Ok_0).1 == encoding,
    ensures
        (read_text(write_text(content, encoding)->Ok_0)->Ok_0).0 == content,
{
    lemma_names_differ();
    let bytes = write_text(content, encoding)->Ok_0;
    let read = (read_text(bytes)->Ok_0).0;
    match shape_of(bytes) {
        Shape::Utf8Marked => {
            assert(encoding == "utf-8-bom"@);
            assert(bytes.skip(3) =~= encode_utf8(content));
            assert(read == content) by {
                encode_utf8_decode_utf8(content);
            }
        },
        Shape::LittleMarked => {
            assert(encoding == "utf-16le"@);
            assert(bytes.skip(2) =~= utf16::bytes_of_units(utf16::to_units(content), true));
            lemma_utf16_read_back(content, true);
        },
        Shape::BigMarked => {
            assert(encoding == "utf-16be"@);
            assert(bytes.skip(2) =~= utf16::bytes_of_units(utf16::to_units(content), false));
            lemma_utf16_read_back(content, false);
        },
        Shape::LittleUnmarked => {
            assert(encoding == "utf-16le-no-bom"@);
            lemma_utf16_read_back(content, true);
        },
        Shape::BigUnmarked => {
            assert(encoding == "utf-16be-no-bom"@);
            lemma_utf16_read_back(content, false);
        },
        Shape::Bytes => {
            if valid_utf8(bytes) {
                assert(encoding == "utf-8"@);
                assert(read == content) by {
                    encode_utf8_decode_utf8(content);
                }
            } else {
                assert(encoding == "windows-1252"@);
                lemma_text_of_write_1252(content);
            }
        },
    }
}

proof fn lemma_utf16_read_back(content: Seq<char>, little_endian: bool)
    ensures
        utf16::read_utf16(
            utf16::bytes_of_units(utf16::to_units(content), little_endian),
            little_endian,
        ) == Ok::<Seq<char>, Seq<char>>(content),
{
    utf16::lemma_from_to_units(content);
    utf16::lemma_units_bytes_inverse(utf16::to_units(content), little_endian);
}

/// Any text saved as UTF-16 with a byte-order mark is read back as it was written, in the same
/// encoding.
pub proof fn law_marked_utf16_is_read_back(content: Seq<char>)
    ensures
        write_text(content, "utf-16le"@) is Ok,
        read_text(write_text(content, "utf-16le"@)->Ok_0) == Ok::<(Seq<char>, Seq<char>), Seq<char>>(
            (content, "utf-16le"@),
        ),
        write_text(content, "utf-16be"@) is Ok,
        read_text(write_text(content, "utf-16be"@)->Ok_0) == Ok::<(Seq<char>, Seq<char>), Seq<char>>(
            (content, "utf-16be"@),
        ),
{
    lemma_names_differ();
    lemma_utf16_read_back(content, true);
    lemma_utf16_read_back(content, false);
    let little = write_text(content, "utf-16le"@)->Ok_0;
    let big = write_text(content, "utf-16be"@)->Ok_0;
    assert(little.skip(2) =~= utf16::bytes_of_units(utf16::to_units(content), true));
    assert(big.skip(2) =~= utf16::bytes_of_units(utf16::to_units(content), false));
}

/// The text without the control codes that make a file count as binary.
pub open spec fn is_plain(content: Seq<char>) -> bool {
    forall|i: int|
        0 <= i < content.len() ==> !((#[trigger] content[i] as u32) < 0x09 || 0x0e <= (content[i] as u32)
            <= 0x1f)
}

proof fn lemma_encoded_plain(content: Seq<char>)
    requires
        is_plain(content),
    ensures
        !looks_binary(encode_utf8(content)),
    decreases content.len(),
{
    let bytes = encode_utf8(content);
    if content.len() > 0 {
        let rest = content.drop_first();
        assert forall|i: int| 0 <= i < rest.len() implies !((#[trigger] rest[i] as u32) < 0x09 || 0x0e <= (
        rest[i] as u32) <= 0x1f) by {
            assert(rest[i] == content[i + 1]);
        }
        lemma_encoded_plain(rest);
        encode_utf8_first_scalar(content);
        let first = encode_scalar(content[0] as u32);
        let b0 = bytes[0];
        assert(b0 <= 0x7f ==> (b0 & 0x7f) == b0) by (bit_vector);
        assert forall|i: int| 0 <= i < bytes.len() implies !is_binary_byte(#[trigger] bytes[i]) by {
            if i >= first.len() {
                assert(bytes[i] == encode_utf8(rest)[i - first.len()]);
            }
        }
    }
}

proof fn lemma_no_zeroes(bytes: Seq<u8>, parity: int)
    requires
        !looks_binary(bytes),
    ensures
        zeroes(bytes, parity) == 0,
    decreases bytes.len(),
{
    if bytes.len() > 0 {
        let front = bytes.drop_last();
        assert forall|i: int| 0 <= i < front.len() implies !is_binary_byte(#[trigger] front[i]) by {
            assert(front[i] == bytes[i]);
        }
        lemma_no_zeroes(front, parity);
        assert(!is_binary_byte(bytes[bytes.len() - 1]));
    }
}

/// A text without binary control codes that does not begin with a byte-order mark, saved as UTF-8, is
/// read back as it was written, in the same encoding.
pub proof fn law_utf8_is_read_back(content: Seq<char>)
    requires
        is_plain(content),
        content.len() > 0 ==> content[0] != '\u{feff}',
    ensures
        write_text(content, "utf-8"@) is Ok,
        read_text(write_text(content, "utf-8"@)->Ok_0) == Ok::<(Seq<char>, Seq<char>), Seq<char>>(
            (content, "utf-8"@),
        ),
{
    let bytes = encode_utf8(content);
    lemma_encoded_plain(content);
    lemma_no_zeroes(bytes, 0);
    lemma_no_zeroes(bytes, 1);
    encode_utf8_valid_utf8(content);
    encode_utf8_decode_utf8(content);
    if content.len() > 0 {
        encode_utf8_first_scalar(content);
        if bytes.len() >= 3 && bytes[0] == 0xef && bytes[1] == 0xbb && bytes[2] == 0xbf {
            assert((((0xefu8 & 0x0f) as u32) << 12u32) | (((0xbbu8 & 0x3f) as u32) << 6u32) | ((0xbfu8
                & 0x3f) as u32) == 0xfeff) by (bit_vector);
            assert(content[0] as u32 == 0xfeff);
        }
    }
}

/// A text without binary control codes, saved as UTF-8 with a byte-order mark, is read back as it was
/// written, in the same encoding.
pub proof fn law_marked_utf8_is_read_back(content: Seq<char>)
    requires
        is_plain(content),
    ensures
        write_text(content, "utf-8-bom"@) is Ok,
        read_text(write_text(content, "utf-8-bom"@)->Ok_0) == Ok::<(Seq<char>, Seq<char>), Seq<char>>(
            (content, "utf-8-bom"@),
        ),
{
    lemma_names_differ();
    let bytes = write_text(content, "utf-8-bom"@)->Ok_0;
    lemma_encoded_plain(content);
    encode_utf8_valid_utf8(content);
    encode_utf8_decode_utf8(content);
    assert(bytes.skip(3) =~= encode_utf8(content));
}

/// A Windows-1252 file is read by the published table, byte for byte: ASCII and the upper half stand for the
/// characters with the same numbers, twenty-seven bytes between them for the characters listed here, and a file
/// with one of the five bytes that stand for nothing is not read.
pub proof fn law_windows_1252_is_read_by_the_published_table(
    bytes: Vec<u8>,
    r: Result<(String, &'static str), String>,
    i: int,
)
    requires
        call_ensures(decode_local_text, (bytes,), r),
        r is Ok,
        (r->Ok_0).1@ == "windows-1252"@,
        0 <= i < bytes@.len(),
    ensures
        (r->Ok_0).0@.len() == bytes@.len(),
        bytes@[i] < 0x80 ==> (r->Ok_0).0@[i] as int == bytes@[i] as int,
        bytes@[i] >= 0xa0 ==> (r->Ok_0).0@[i] as int == bytes@[i] as int,
        bytes@[i] == 0x80 ==> (r->Ok_0).0@[i] == '\u{20ac}',
        bytes@[i] == 0x82 ==> (r->Ok_0).0@[i] == '\u{201a}',
        bytes@[i] == 0x83 ==> (r->Ok_0).0@[i] == '\u{192}',
        bytes@[i] == 0x84 ==> (r->Ok_0).0@[i] == '\u{201e}',
        bytes@[i] == 0x85 ==> (r->Ok_0).0@[i] == '\u{2026}',
        bytes@[i] == 0x86 ==> (r->Ok_0).0@[i] == '\u{2020}',
        bytes@[i] == 0x87 ==> (r->Ok_0).0@[i] == '\u{2021}',
        bytes@[i] == 0x88 ==> (r->Ok_0).0@[i] == '\u{2c6}',
        bytes@[i] == 0x89 ==> (r->Ok_0).0@[i] == '\u{2030}',
        bytes@[i] == 0x8a ==> (r->Ok_0).0@[i] == '\u{160}',
        bytes@[i] == 0x8b ==> (r->Ok_0).0@[i] == '\u{2039}',
        bytes@[i] == 0x8c ==> (r->Ok_0).0@[i] == '\u{152}',
        bytes@[i] == 0x8e ==> (r->Ok_0).0@[i] == '\u{17d}',
        bytes@[i] == 0x91 ==> (r->Ok_0).0@[i] == '\u{2018}',
        bytes@[i] == 0x92 ==> (r->Ok_0).0@[i] == '\u{2019}',
        bytes@[i] == 0x93 ==> (r->Ok_0).0@[i] == '\u{201c}',
        bytes@[i] == 0x94 ==> (r->Ok_0).0@[i] == '\u{201d}',
        bytes@[i] == 0x95 ==> (r->Ok_0).0@[i] == '\u{2022}',
        bytes@[i] == 0x96 ==> (r->Ok_0).0@[i] == '\u{2013}',
        bytes@[i] == 0x97 ==> (r->Ok_0).0@[i] == '\u{2014}',
        bytes@[i] == 0x98 ==> (r->Ok_0).0@[i] == '\u{2dc}',
        bytes@[i] == 0x99 ==> (r->Ok_0).0@[i] == '\u{2122}',
        bytes@[i] == 0x9a ==> (r->Ok_0).0@[i] == '\u{161}',
        bytes@[i] == 0x9b ==> (r->Ok_0).0@[i] == '\u{203a}',
        bytes@[i] == 0x9c ==> (r->Ok_0).0@[i] == '\u{153}',
        bytes@[i] == 0x9e ==> (r->Ok_0).0@[i] == '\u{17e}',
        bytes@[i] == 0x9f ==> (r->Ok_0).0@[i] == '\u{178}',
        bytes@[i] != 0x81,
        bytes@[i] != 0x8d,
        bytes@[i] != 0x8f,
        bytes@[i] != 0x90,
        bytes@[i] != 0x9d,
{
    lemma_names_differ();
    assert(shape_of(bytes@) is Bytes);
    assert(char_1252(bytes@[i]) is Some);
    assert(text_1252(bytes@)[i] == char_1252(bytes@[i])->0);
}

/// Whether a character is one of those that Windows-1252 has beside ASCII and the upper half of Latin-1.
pub open spec fn is_extra_1252(c: char) -> bool {
    ||| c == '\u{20ac}'
    ||| c == '\u{201a}'
    ||| c == '\u{192}'
    ||| c == '\u{201e}'
    ||| c == '\u{2026}'
    ||| c == '\u{2020}'
    ||| c == '\u{2021}'
    ||| c == '\u{2c6}'
    ||| c == '\u{2030}'
    ||| c == '\u{160}'
    ||| c == '\u{2039}'
    ||| c == '\u{152}'
    ||| c == '\u{17d}'
    ||| c == '\u{2018}'
    ||| c == '\u{2019}'
    ||| c == '\u{201c}'
    ||| c == '\u{201d}'
    ||| c == '\u{2022}'
    ||| c == '\u{2013}'
    ||| c == '\u{2014}'
    ||| c == '\u{2dc}'
    ||| c == '\u{2122}'
    ||| c == '\u{161}'
    ||| c == '\u{203a}'
    ||| c == '\u{153}'
    ||| c == '\u{17e}'
    ||| c == '\u{178}'
}

/// Text is written to a Windows-1252 file by the published table, character for character.
pub proof fn law_windows_1252_is_written_by_the_published_table(
    content: &str,
    encoding: &str,
    r: Result<Vec<u8>, String>,
    i: int,
)
    requires
        call_ensures(encode_local_text, (content, encoding), r),
        encoding@ == "windows-1252"@,
        0 <= i < content@.len(),
    ensures
        r is Ok ==> (r->Ok_0)@.len() == content@.len(),
        r is Ok && (content@[i] as int) < 0x80 ==> (r->Ok_0)@[i] as int == content@[i] as int,
        r is Ok && 0xa0 <= content@[i] as int <= 0xff ==> (r->Ok_0)@[i] as int == content@[i] as int,
        r is Ok && content@[i] == '\u{20ac}' ==> (r->Ok_0)@[i] == 0x80,
        r is Ok && content@[i] == '\u{201a}' ==> (r->Ok_0)@[i] == 0x82,
        r is Ok && content@[i] == '\u{192}' ==> (r->Ok_0)@[i] == 0x83,
        r is Ok && content@[i] == '\u{201e}' ==> (r->Ok_0)@[i] == 0x84,
        r is Ok && content@[i] == '\u{2026}' ==> (r->Ok_0)@[i] == 0x85,
        r is Ok && content@[i] == '\u{2020}' ==> (r->Ok_0)@[i] == 0x86,
        r is Ok && content@[i] == '\u{2021}' ==> (r->Ok_0)@[i] == 0x87,
        r is Ok && content@[i] == '\u{2c6}' ==> (r->Ok_0)@[i] == 0x88,
        r is Ok && content@[i] == '\u{2030}' ==> (r->Ok_0)@[i] == 0x89,
        r is Ok && content@[i] == '\u{160}' ==> (r->Ok_0)@[i] == 0x8a,
        r is Ok && content@[i] == '\u{2039}' ==> (r->Ok_0)@[i] == 0x8b,
        r is Ok && content@[i] == '\u{152}' ==> (r->Ok_0)@[i] == 0x8c,
        r is Ok && content@[i] == '\u{17d}' ==> (r->Ok_0)@[i] == 0x8e,
        r is Ok && content@[i] == '\u{2018}' ==> (r->Ok_0)@[i] == 0x91,
        r is Ok && content@[i] == '\u{2019}' ==> (r->Ok_0)@[i] == 0x92,
        r is Ok && content@[i] == '\u{201c}' ==> (r->Ok_0)@[i] == 0x93,
        r is Ok && content@[i] == '\u{201d}' ==> (r->Ok_0)@[i] == 0x94,
        r is Ok && content@[i] == '\u{2022}' ==> (r->Ok_0)@[i] == 0x95,
        r is Ok && content@[i] == '\u{2013}' ==> (r->Ok_0)@[i] == 0x96,
        r is Ok && content@[i] == '\u{2014}' ==> (r->Ok_0)@[i] == 0x97,
        r is Ok && content@[i] == '\u{2dc}' ==> (r->Ok_0)@[i] == 0x98,
        r is Ok && content@[i] == '\u{2122}' ==> (r->Ok_0)@[i] == 0x99,
        r is Ok && content@[i] == '\u{161}' ==> (r->Ok_0)@[i] == 0x9a,
        r is Ok && content@[i] == '\u{203a}' ==> (r->Ok_0)@[i] == 0x9b,
        r is Ok && content@[i] == '\u{153}' ==> (r->Ok_0)@[i] == 0x9c,
        r is Ok && content@[i] == '\u{17e}' ==> (r->Ok_0)@[i] == 0x9e,
        r is Ok && content@[i] == '\u{178}' ==> (r->Ok_0)@[i] == 0x9f,
        r is Ok ==> (content@[i] as int) < 0x80 || 0xa0 <= content@[i] as int <= 0xff || is_extra_1252(content@[i]),
{
    lemma_names_differ();
    if r is Ok {
        lemma_text_of_write_1252(content@);
        let bytes = (r->Ok_0)@;
        assert(text_1252(bytes)[i] == char_1252(bytes[i])->0);
        assert(char_1252(bytes[i]) is Some);
        assert(text_1252(bytes) == content@);
    }
}

/// A text of which every character is in the table can be written in Windows-1252; of any other, the first character
/// that is not is named.
pub proof fn law_windows_1252_takes_exactly_its_characters(
    content: &str,
    encoding: &str,
    r: Result<Vec<u8>, String>,
    front: Seq<char>,
    c: char,
    rest: Seq<char>,
)
    requires
        call_ensures(encode_local_text, (content, encoding), r),
        encoding@ == "windows-1252"@,
        forall|i: int|
            0 <= i < front.len() ==> (#[trigger] front[i] as int) < 0x80 || 0xa0 <= front[i] as int <= 0xff
                || is_extra_1252(front[i]),
    ensures
        content@ == front ==> r is Ok,
        content@ == front + seq![c] + rest && !((c as int) < 0x80 || 0xa0 <= c as int <= 0xff || is_extra_1252(c))
            ==> (r matches Err(e) && e@ == "The character '"@ + seq![c]
            + "' cannot be represented in the file's original Windows-1252 encoding"@),
{
    lemma_names_differ();
    lemma_extra_1252_fits_all(front);
    lemma_write_1252_of_fitting(front);
    if content@ == front + seq![c] + rest && !((c as int) < 0x80 || 0xa0 <= c as int <= 0xff || is_extra_1252(c)) {
        assert(!fits_1252(c)) by {
            if fits_1252(c) {
                let b = choose|b: u8| #[trigger] char_1252(b) == Some(c);
                assert(char_1252(b) == Some(c));
            }
        }
        let head = front.push(c);
        assert(head.drop_last() =~= front);
        assert(write_1252(head) is Err);
        lemma_write_1252_keeps_error(head, rest);
        assert(head + rest =~= front + seq![c] + rest);
    }
}

proof fn lemma_extra_1252_fits_all(front: Seq<char>)
    requires
        forall|i: int|
            0 <= i < front.len() ==> (#[trigger] front[i] as int) < 0x80 || 0xa0 <= front[i] as int <= 0xff
                || is_extra_1252(front[i]),
    ensures
        forall|i: int| 0 <= i < front.len() ==> fits_1252(#[trigger] front[i]),
{
    assert forall|i: int| 0 <= i < front.len() implies fits_1252(#[trigger] front[i]) by {
        lemma_extra_1252_fits(front[i]);
    }
}

proof fn lemma_extra_1252_fits(c: char)
    requires
        (c as int) < 0x80 || 0xa0 <= c as int <= 0xff || is_extra_1252(c),
    ensures
        fits_1252(c),
{
    if (c as int) < 0x80 || 0xa0 <= c as int <= 0xff {
        let b = (c as u32) as u8;
        assert(b as char == c);
        assert(char_1252(b) == Some(c));
    } else {
        assert(char_1252(0x80u8) == Some('\u{20ac}'));
        assert(char_1252(0x82u8) == Some('\u{201a}'));
        assert(char_1252(0x83u8) == Some('\u{192}'));
        assert(char_1252(0x84u8) == Some('\u{201e}'));
        assert(char_1252(0x85u8) == Some('\u{2026}'));
        assert(char_1252(0x86u8) == Some('\u{2020}'));
        assert(char_1252(0x87u8) == Some('\u{2021}'));
        assert(char_1252(0x88u8) == Some('\u{2c6}'));
        assert(char_1252(0x89u8) == Some('\u{2030}'));
        assert(char_1252(0x8au8) == Some('\u{160}'));
        assert(char_1252(0x8bu8) == Some('\u{2039}'));
        assert(char_1252(0x8cu8) == Some('\u{152}'));
        assert(char_1252(0x8eu8) == Some('\u{17d}'));
        assert(char_1252(0x91u8) == Some('\u{2018}'));
        assert(char_1252(0x92u8) == Some('\u{2019}'));
        assert(char_1252(0x93u8) == Some('\u{201c}'));
        assert(char_1252(0x94u8) == Some('\u{201d}'));
        assert(char_1252(0x95u8) == Some('\u{2022}'));
        assert(char_1252(0x96u8) == Some('\u{2013}'));
        assert(char_1252(0x97u8) == Some('\u{2014}'));
        assert(char_1252(0x98u8) == Some('\u{2dc}'));
        assert(char_1252(0x99u8) == Some('\u{2122}'));
        assert(char_1252(0x9au8) == Some('\u{161}'));
        assert(char_1252(0x9bu8) == Some('\u{203a}'));
        assert(char_1252(0x9cu8) == Some('\u{153}'));
        assert(char_1252(0x9eu8) == Some('\u{17e}'));
        assert(char_1252(0x9fu8) == Some('\u{178}'));
    }
}

proof fn lemma_write_1252_of_fitting(content: Seq<char>)
    requires
        forall|i: int| 0 <= i < content.len() ==> fits_1252(#[trigger] content[i]),
    ensures
        write_1252(content) is Ok,
    decreases content.len(),
{
    if content.len() > 0 {
        let front = content.drop_last();
        assert forall|i: int| 0 <= i < front.len() implies fits_1252(#[trigger] front[i]) by {
            assert(front[i] == content[i]);
        }
        lemma_write_1252_of_fitting(front);
        assert(fits_1252(content[content.len() - 1]));
    }
}

proof fn lemma_write_1252_keeps_error(head: Seq<char>, rest: Seq<char>)
    requires
        write_1252(head) is Err,
    ensures
        write_1252(head + rest) == write_1252(head),
    decreases rest.len(),
{
    if rest.len() == 0 {
        assert(head + rest =~= head);
    } else {
        lemma_write_1252_keeps_error(head, rest.drop_last());
        assert((head + rest).drop_last() =~= head + rest.drop_last());
    }
}

/// A file without a byte-order mark and without control codes that text does not hold is read as UTF-8 wherever it is
/// UTF-8. Otherwise it is read as Windows-1252, if each byte stands for a character there.
pub proof fn law_bytes_without_mark_are_utf8_or_windows_1252(bytes: Vec<u8>, r: Result<(String, &'static str), String>)
    requires
        call_ensures(decode_local_text, (bytes,), r),
        bytes@.len() >= 2 ==> !(bytes@[0] == 0xff && bytes@[1] == 0xfe) && !(bytes@[0] == 0xfe && bytes@[1] == 0xff),
        bytes@.len() >= 3 ==> !(bytes@[0] == 0xef && bytes@[1] == 0xbb && bytes@[2] == 0xbf),
        forall|i: int|
            0 <= i < bytes@.len() ==> #[trigger] bytes@[i] >= 0x20 || 0x09 <= bytes@[i] <= 0x0d,
    ensures
        valid_utf8(bytes@) ==> (r matches Ok(found) && found.1@ == "utf-8"@ && encode_utf8(found.0@) == bytes@),
        !valid_utf8(bytes@) && (forall|i: int|
            0 <= i < bytes@.len() ==> #[trigger] bytes@[i] != 0x81 && bytes@[i] != 0x8d && bytes@[i] != 0x8f
                && bytes@[i] != 0x90 && bytes@[i] != 0x9d) ==> (r matches Ok(found) && found.1@ == "windows-1252"@),
{
    let b = bytes@;
    assert forall|i: int| 0 <= i < b.len() implies !is_binary_byte(#[trigger] b[i]) && b[i] != 0 by {
        assert(b[i] >= 0x20 || 0x09 <= b[i] <= 0x0d);
    }
    assert(!looks_binary(b));
    lemma_no_zeroes(b, 0);
    lemma_no_zeroes(b, 1);
    assert(shape_of(b) is Bytes);
    if valid_utf8(b) {
        decode_utf8_encode_utf8(b);
    } else if forall|i: int|
        0 <= i < b.len() ==> #[trigger] b[i] != 0x81 && b[i] != 0x8d && b[i] != 0x8f && b[i] != 0x90 && b[i] != 0x9d {
        assert(all_1252(b));
    }
}

/// A file without a byte-order mark that holds a control code other than tab, the line breaks and their like is not
/// opened as bytes of text: what is read of it at all is read as UTF-16.
pub proof fn law_control_codes_are_not_text(bytes: Vec<u8>, r: Result<(String, &'static str), String>, i: int)
    requires
        call_ensures(decode_local_text, (bytes,), r),
        0 <= i < bytes@.len(),
        bytes@[i] <= 0x08 || 0x0e <= bytes@[i] <= 0x1f,
    ensures
        r matches Ok(found) ==> found.1@ != "utf-8"@ && found.1@ != "windows-1252"@ && found.1@ != "utf-8-bom"@,
{
    lemma_names_differ();
    assert(is_binary_byte(bytes@[i]));
    if shape_of(bytes@) is Utf8Marked {
        assert(i >= 3);
        assert(bytes@.skip(3)[i - 3] == bytes@[i]);
    }
}

/// UTF-16 is written with the byte-order mark FF FE or FE FF, or without one, and then character by character: the lower
/// byte of each unit comes first in the little-endian encodings and the higher byte in the others, and a character above
/// the first 65536 is written as its two surrogates.
pub proof fn law_utf16_is_written_character_by_character(
    content: &str,
    longer: &str,
    c: char,
    encoding: &str,
    little_endian: bool,
    r: Result<Vec<u8>, String>,
    s: Result<Vec<u8>, String>,
)
    requires
        longer@ == content@.push(c),
        encoding@ == "utf-16le"@ || encoding@ == "utf-16le-no-bom"@ || encoding@ == "utf-16be"@ || encoding@
            == "utf-16be-no-bom"@,
        little_endian <==> encoding@ == "utf-16le"@ || encoding@ == "utf-16le-no-bom"@,
        call_ensures(encode_local_text, (content, encoding), r),
        call_ensures(encode_local_text, (longer, encoding), s),
    ensures
        r is Ok && s is Ok,
        content@.len() == 0 && encoding@ == "utf-16le"@ ==> (r->Ok_0)@ == seq![0xffu8, 0xfeu8],
        content@.len() == 0 && encoding@ == "utf-16be"@ ==> (r->Ok_0)@ == seq![0xfeu8, 0xffu8],
        content@.len() == 0 && encoding@ == "utf-16le-no-bom"@ ==> (r->Ok_0)@.len() == 0,
        content@.len() == 0 && encoding@ == "utf-16be-no-bom"@ ==> (r->Ok_0)@.len() == 0,
        (c as int) < 0x10000 ==> (s->Ok_0)@ == (r->Ok_0)@ + utf16::two_bytes(c as int, little_endian),
        (c as int) >= 0x10000 ==> (s->Ok_0)@ == (r->Ok_0)@ + utf16::two_bytes(
            0xd800 + (c as int - 0x10000) / 1024,
            little_endian,
        ) + utf16::two_bytes(0xdc00 + (c as int - 0x10000) % 1024, little_endian),
{
    lemma_names_differ();
    utf16::lemma_bytes_of_longer_text(content@, c, little_endian);
    if content@.len() == 0 {
        assert(content@ =~= Seq::empty());
        if r is Ok {
            assert((r->Ok_0)@.len() <= 2);
        }
    }
    if (c as int) < 0x10000 {
        assert((s->Ok_0)@ =~= (r->Ok_0)@ + utf16::two_bytes(c as int, little_endian));
    } else {
        assert((s->Ok_0)@ =~= (r->Ok_0)@ + utf16::two_bytes(0xd800 + (c as int - 0x10000) / 1024, little_endian)
            + utf16::two_bytes(0xdc00 + (c as int - 0x10000) % 1024, little_endian));
    }
}

/// UTF-8 is written as it is, with the mark EF BB BF or without one; a name that is none of the seven is refused.
pub proof fn law_utf8_is_written_as_it_is(content: &str, encoding: &str, r: Result<Vec<u8>, String>)
    requires
        call_ensures(encode_local_text, (content, encoding), r),
    ensures
        encoding@ == "utf-8"@ ==> (r matches Ok(bytes) && bytes@ == encode_utf8(content@)),
        encoding@ == "utf-8-bom"@ ==> (r matches Ok(bytes) && bytes@ == seq![0xefu8, 0xbbu8, 0xbfu8] + encode_utf8(
            content@,
        )),
        encoding@ != "utf-8"@ && encoding@ != "utf-8-bom"@ && encoding@ != "utf-16le"@ && encoding@ != "utf-16be"@
            && encoding@ != "utf-16le-no-bom"@ && encoding@ != "utf-16be-no-bom"@ && encoding@ != "windows-1252"@ ==> (
        r matches Err(e) && e@ == "Unsupported text encoding '"@ + encoding@ + "'"@),
{
    lemma_names_differ();
}

/// Text of ASCII characters in UTF-16 without a byte-order mark is recognised by where its zero bytes stand, and read
/// back as it was written.
pub proof fn law_unmarked_utf16_of_ascii_is_recognised(content: Seq<char>)
    requires
        content.len() >= 2,
        forall|i: int| 0 <= i < content.len() ==> 0 < (#[trigger] content[i]) as int && (content[i] as int) < 0x80,
    ensures
        read_text(write_text(content, "utf-16le-no-bom"@)->Ok_0) == Ok::<(Seq<char>, Seq<char>), Seq<char>>(
            (content, "utf-16le-no-bom"@),
        ),
        read_text(write_text(content, "utf-16be-no-bom"@)->Ok_0) == Ok::<(Seq<char>, Seq<char>), Seq<char>>(
            (content, "utf-16be-no-bom"@),
        ),
{
    lemma_names_differ();
    lemma_zeroes_of_ascii(content, true);
    lemma_zeroes_of_ascii(content, false);
    lemma_utf16_read_back(content, true);
    lemma_utf16_read_back(content, false);
    let little = utf16::bytes_of_units(utf16::to_units(content), true);
    let big = utf16::bytes_of_units(utf16::to_units(content), false);
    assert(little.len() == 2 * content.len());
    assert(big.len() == 2 * content.len());
    assert(zero_threshold(little.len()) <= content.len());
    assert(shape_of(little) is LittleUnmarked);
    assert(shape_of(big) is BigUnmarked);
}

#[verifier::spinoff_prover]
#[verifier::rlimit(40)]
proof fn lemma_zeroes_of_ascii(content: Seq<char>, little_endian: bool)
    requires
        forall|i: int| 0 <= i < content.len() ==> 0 < (#[trigger] content[i]) as int && (content[i] as int) < 0x80,
    ensures
        ({
            let bytes = utf16::bytes_of_units(utf16::to_units(content), little_endian);
            &&& bytes.len() == 2 * content.len()
            &&& zeroes(bytes, 0) == if little_endian {
                0
            } else {
                content.len()
            }
            &&& zeroes(bytes, 1) == if little_endian {
                content.len()
            } else {
                0
            }
            &&& content.len() > 0 ==> (bytes[0] < 0x80 && (bytes[0] == 0 <==> !little_endian))
        }),
    decreases content.len(),
{
    let bytes = utf16::bytes_of_units(utf16::to_units(content), little_endian);
    if content.len() == 0 {
        assert(content =~= Seq::empty());
        utf16::lemma_bytes_of_longer_text(content, 'a', little_endian);
    } else {
        let front = content.drop_last();
        let c = content.last();
        assert forall|i: int| 0 <= i < front.len() implies 0 < (#[trigger] front[i]) as int && (front[i] as int) < 0x80 by {
            assert(front[i] == content[i]);
        }
        lemma_zeroes_of_ascii(front, little_endian);
        assert(content[content.len() - 1] == c);
        assert(content =~= front.push(c));
        utf16::lemma_bytes_of_longer_text(front, c, little_endian);
        let had = utf16::bytes_of_units(utf16::to_units(front), little_endian);
        let two = utf16::two_bytes(c as int, little_endian);
        assert(bytes == had + two);
        assert(bytes.drop_last().drop_last() =~= had);
        assert(bytes.last() == two[1]);
        assert(bytes.drop_last().last() == two[0]);
        assert(zeroes(bytes.drop_last(), 0) == zeroes(had, 0) + if two[0] == 0 {
            1nat
        } else {
            0nat
        });
        assert(zeroes(bytes.drop_last(), 1) == zeroes(had, 1));
        if front.len() > 0 {
            assert(bytes[0] == had[0]);
        } else {
            assert(bytes[0] == two[0]);
        }
    }
}

/// How many of these bytes are zero.
pub open spec fn zero_count(bytes: Seq<u8>) -> nat {
    bytes.filter(|b: u8| b == 0).len()
}

proof fn lemma_zeroes_of_pairs(bytes: Seq<u8>, n: nat)
    requires
        bytes.len() == 2 * n,
    ensures
        zeroes(bytes, 0) == zero_count(Seq::new(n, |i: int| bytes[2 * i])),
        zeroes(bytes, 1) == zero_count(Seq::new(n, |i: int| bytes[2 * i + 1])),
    decreases n,
{
    reveal(Seq::filter);
    let firsts = Seq::new(n, |i: int| bytes[2 * i]);
    let seconds = Seq::new(n, |i: int| bytes[2 * i + 1]);
    if n > 0 {
        let m = (n - 1) as nat;
        let had = bytes.drop_last().drop_last();
        lemma_zeroes_of_pairs(had, m);
        assert(firsts.drop_last() =~= Seq::new(m, |i: int| had[2 * i]));
        assert(seconds.drop_last() =~= Seq::new(m, |i: int| had[2 * i + 1]));
        assert(firsts.last() == bytes[2 * n - 2]);
        assert(seconds.last() == bytes[2 * n - 1]);
        let one = bytes.drop_last();
        assert(one.last() == bytes[2 * n - 2]);
        assert(bytes.last() == bytes[2 * n - 1]);
        assert(zeroes(one, 0) == zeroes(had, 0) + if firsts.last() == 0 {
            1nat
        } else {
            0nat
        });
        assert(zeroes(one, 1) == zeroes(had, 1));
        assert(zeroes(bytes, 1) == zeroes(one, 1) + if seconds.last() == 0 {
            1nat
        } else {
            0nat
        });
        assert(zeroes(bytes, 0) == zeroes(one, 0));
    }
}

/// A file without a byte-order mark is read as UTF-16 exactly when it has at least two units and zero bytes tell the order:
/// in a quarter of the units or more, but in one at least, and on one side in more than twice as many as on the other.
pub proof fn law_unmarked_utf16_is_recognised_by_its_zero_bytes(
    bytes: Vec<u8>,
    n: nat,
    r: Result<(String, &'static str), String>,
)
    requires
        call_ensures(decode_local_text, (bytes,), r),
        bytes@.len() == 2 * n,
        n >= 2,
        !(bytes@[0] == 0xff && bytes@[1] == 0xfe),
        !(bytes@[0] == 0xfe && bytes@[1] == 0xff),
        !(bytes@[0] == 0xef && bytes@[1] == 0xbb && bytes@[2] == 0xbf),
        r is Ok,
    ensures
        ({
            let firsts = zero_count(Seq::new(n, |i: int| bytes@[2 * i]));
            let seconds = zero_count(Seq::new(n, |i: int| bytes@[2 * i + 1]));
            &&& (r->Ok_0).1@ == "utf-16le-no-bom"@ <==> seconds >= 1 && seconds >= n / 4 && seconds > 2 * firsts
            &&& (r->Ok_0).1@ == "utf-16be-no-bom"@ <==> firsts >= 1 && firsts >= n / 4 && firsts > 2 * seconds
        }),
{
    lemma_names_differ();
    lemma_zeroes_of_pairs(bytes@, n);
    assert(bytes@.len() / 2 == n);
}

/// A byte-order mark decides how the rest is read: a half unit behind it, a surrogate without its other half and, behind the
/// mark of UTF-8, bytes that are no UTF-8 are errors, each told by its own message.
pub proof fn law_a_mark_decides_how_the_rest_is_read(bytes: Vec<u8>, r: Result<(String, &'static str), String>)
    requires
        call_ensures(decode_local_text, (bytes,), r),
        bytes@.len() >= 3,
    ensures
        ({
            let little = bytes@[0] == 0xff && bytes@[1] == 0xfe;
            let big = bytes@[0] == 0xfe && bytes@[1] == 0xff;
            let marked = bytes@[0] == 0xef && bytes@[1] == 0xbb && bytes@[2] == 0xbf;
            &&& (little || big) && bytes@.len() % 2 == 1 ==> (r matches Err(e) && e@
                == "The selected UTF-16 file has an incomplete final character"@)
            &&& little && r is Ok ==> (r->Ok_0).1@ == "utf-16le"@
            &&& big && r is Ok ==> (r->Ok_0).1@ == "utf-16be"@
            &&& little && bytes@.len() == 4 && 0xd8 <= bytes@[3] <= 0xdf ==> (r matches Err(e) && e@
                == "The selected file contains invalid UTF-16 text"@)
            &&& big && bytes@.len() == 4 && 0xd8 <= bytes@[2] <= 0xdf ==> (r matches Err(e) && e@
                == "The selected file contains invalid UTF-16 text"@)
            &&& marked && r is Ok ==> (r->Ok_0).1@ == "utf-8-bom"@ && bytes@ == seq![0xefu8, 0xbbu8, 0xbfu8] + encode_utf8(
                (r->Ok_0).0@,
            )
            &&& marked && !valid_utf8(bytes@.skip(3)) ==> r is Err
        }),
{
    lemma_names_differ();
    let b = bytes@;
    let rest = b.skip(2);
    if b[0] == 0xff && b[1] == 0xfe && b.len() == 4 && 0xd8 <= b[3] <= 0xdf {
        let units = utf16::units_of_bytes(rest, true);
        assert(units.len() == 1);
        assert(units[0] == utf16::unit_of(b[2], b[3], true));
        assert(units[0] == b[2] + b[3] * 256);
        assert(utf16::is_high(units[0]) || utf16::is_low(units[0]));
    }
    if b[0] == 0xfe && b[1] == 0xff && b.len() == 4 && 0xd8 <= b[2] <= 0xdf {
        let units = utf16::units_of_bytes(rest, false);
        assert(units.len() == 1);
        assert(units[0] == utf16::unit_of(b[2], b[3], false));
        assert(units[0] == b[3] + b[2] * 256);
        assert(utf16::is_high(units[0]) || utf16::is_low(units[0]));
    }
    if b[0] == 0xef && b[1] == 0xbb && b[2] == 0xbf && r is Ok {
        decode_utf8_encode_utf8(b.skip(3));
        assert(seq![0xefu8, 0xbbu8, 0xbfu8] + b.skip(3) =~= b);
    }
}

/// A file of an odd number of bytes without a byte-order mark is refused as binary where it holds a control code that text
/// does not, and as unsupported where it is no UTF-8 and holds one of the five bytes that stand for nothing.
pub proof fn law_files_that_are_no_text_are_refused(bytes: Vec<u8>, r: Result<(String, &'static str), String>)
    requires
        call_ensures(decode_local_text, (bytes,), r),
        bytes@.len() % 2 == 1,
        bytes@.len() >= 2 ==> !(bytes@[0] == 0xff && bytes@[1] == 0xfe) && !(bytes@[0] == 0xfe && bytes@[1] == 0xff),
        bytes@.len() >= 3 ==> !(bytes@[0] == 0xef && bytes@[1] == 0xbb && bytes@[2] == 0xbf),
    ensures
        ({
            let control = exists|i: int|
                0 <= i < bytes@.len() && (#[trigger] bytes@[i] <= 0x08 || 0x0e <= bytes@[i] <= 0x1f);
            let nothing = exists|i: int|
                0 <= i < bytes@.len() && (#[trigger] bytes@[i] == 0x81 || bytes@[i] == 0x8d || bytes@[i] == 0x8f || bytes@[i]
                    == 0x90 || bytes@[i] == 0x9d);
            &&& control ==> (r matches Err(e) && e@
                == "The selected file appears to be binary and cannot be opened in the built-in text viewer"@)
            &&& !control && !valid_utf8(bytes@) && nothing ==> (r matches Err(e) && e@
                == "The selected file appears to contain binary or unsupported control bytes"@)
        }),
{
    let b = bytes@;
    assert(shape_of(b) is Bytes);
    if exists|i: int| 0 <= i < b.len() && (#[trigger] b[i] <= 0x08 || 0x0e <= b[i] <= 0x1f) {
        let i = choose|i: int| 0 <= i < b.len() && (#[trigger] b[i] <= 0x08 || 0x0e <= b[i] <= 0x1f);
        assert(is_binary_byte(b[i]));
    } else {
        assert(!looks_binary(b)) by {
            if looks_binary(b) {
                let i = choose|i: int| 0 <= i < b.len() && is_binary_byte(#[trigger] b[i]);
                assert(b[i] <= 0x08 || 0x0e <= b[i] <= 0x1f);
            }
        }
    }
    if exists|i: int| 0 <= i < b.len() && (#[trigger] b[i] == 0x81 || b[i] == 0x8d || b[i] == 0x8f || b[i] == 0x90 || b[i]
        == 0x9d) {
        let i = choose|i: int| 0 <= i < b.len() && (#[trigger] b[i] == 0x81 || b[i] == 0x8d || b[i] == 0x8f || b[i] == 0x90
            || b[i] == 0x9d);
        assert(char_1252(b[i]) is None);
    }
}

} // verus!
