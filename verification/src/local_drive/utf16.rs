//! UTF-16: code units, surrogate pairs and the two byte orders.
use crate::text;
use vstd::prelude::*;
use vstd::string::*;
use vstd::utf8::*;

verus! {

/// The first unit of a surrogate pair.
pub open spec fn is_high(unit: u16) -> bool {
    0xd800 <= unit <= 0xdbff
}

/// The second unit of a surrogate pair.
pub open spec fn is_low(unit: u16) -> bool {
    0xdc00 <= unit <= 0xdfff
}

/// The code point of a surrogate pair.
pub open spec fn pair_code(high: u16, low: u16) -> int {
    0x10000 + (high - 0xd800) * 0x400 + (low - 0xdc00)
}

/// The text of code units; none when a surrogate stands alone.
pub open spec fn from_units(units: Seq<u16>) -> Option<Seq<char>>
    decreases units.len(),
{
    if units.len() == 0 {
        Some(Seq::empty())
    } else if !is_high(units[0]) && !is_low(units[0]) {
        match from_units(units.skip(1)) {
            Some(rest) => Some(seq![(units[0] as u32) as char] + rest),
            None => None,
        }
    } else if is_high(units[0]) && units.len() > 1 && is_low(units[1]) {
        match from_units(units.skip(2)) {
            Some(rest) => Some(seq![(pair_code(units[0], units[1]) as u32) as char] + rest),
            None => None,
        }
    } else {
        None
    }
}

/// The code units of one character.
pub open spec fn units_of_char(c: char) -> Seq<u16> {
    if (c as u32) < 0x10000 {
        seq![(c as u32) as u16]
    } else {
        seq![
            (0xd800 + (c as u32 - 0x10000) / 0x400) as u16,
            (0xdc00 + (c as u32 - 0x10000) % 0x400) as u16,
        ]
    }
}

/// The code units of a text.
pub open spec fn to_units(chars: Seq<char>) -> Seq<u16>
    decreases chars.len(),
{
    if chars.len() == 0 {
        Seq::empty()
    } else {
        to_units(chars.drop_last()) + units_of_char(chars.last())
    }
}

/// A code unit of its two bytes.
pub open spec fn unit_of(first: u8, second: u8, little_endian: bool) -> u16 {
    if little_endian {
        (first + second * 256) as u16
    } else {
        (second + first * 256) as u16
    }
}

/// The code units of an even number of bytes.
pub open spec fn units_of_bytes(bytes: Seq<u8>, little_endian: bool) -> Seq<u16> {
    Seq::new(bytes.len() / 2, |i: int| unit_of(bytes[2 * i], bytes[2 * i + 1], little_endian))
}

/// The two bytes of a code unit.
pub open spec fn bytes_of_unit(unit: u16, little_endian: bool) -> Seq<u8> {
    if little_endian {
        seq![(unit % 256) as u8, (unit / 256) as u8]
    } else {
        seq![(unit / 256) as u8, (unit % 256) as u8]
    }
}

/// The bytes of code units.
pub open spec fn bytes_of_units(units: Seq<u16>, little_endian: bool) -> Seq<u8> {
    Seq::new(
        2 * units.len(),
        |i: int| bytes_of_unit(units[i / 2], little_endian)[i % 2],
    )
}

/// What UTF-16 bytes spell.
pub open spec fn read_utf16(bytes: Seq<u8>, little_endian: bool) -> Result<Seq<char>, Seq<char>> {
    if bytes.len() % 2 != 0 {
        Err("The selected UTF-16 file has an incomplete final character"@)
    } else {
        match from_units(units_of_bytes(bytes, little_endian)) {
            Some(content) => Ok(content),
            None => Err("The selected file contains invalid UTF-16 text"@),
        }
    }
}

/// Decodes UTF-16 bytes.
pub fn decode_utf16(bytes: &[u8], little_endian: bool) -> (r: Result<String, String>)
    ensures
        text::result_view(r) == read_utf16(bytes@, little_endian),
{
    if bytes.len() % 2 != 0 {
        return Err("The selected UTF-16 file has an incomplete final character".to_owned());
    }
    let n: usize = bytes.len() / 2;
    let ghost units = units_of_bytes(bytes@, little_endian);
    let mut content: String = String::new();
    let mut i: usize = 0;
    proof {
        assert(units.skip(0) =~= units);
        if from_units(units) is Some {
            assert(Seq::<char>::empty() + from_units(units)->0 =~= from_units(units)->0);
        }
    }
    while i < n
        invariant
            i <= n,
            n == bytes@.len() / 2,
            bytes@.len() % 2 == 0,
            units == units_of_bytes(bytes@, little_endian),
            from_units(units) == match from_units(units.skip(i as int)) {
                Some(rest) => Some(content@ + rest),
                None => None,
            },
        decreases n - i,
    {
        let unit: u16 = read_unit(bytes, i, little_endian);
        let ghost s = units.skip(i as int);
        let ghost had = content@;
        assert(s[0] == unit);
        if unit < 0xd800 || unit > 0xdfff {
            proof {
                assert(s.skip(1) =~= units.skip(i + 1));
            }
            match char::from_u32(unit as u32) {
                Some(c) => {
                    content.push(c);
                    proof {
                        if let Some(rest) = from_units(s.skip(1)) {
                            assert(had + (seq![c] + rest) =~= had.push(c) + rest);
                        }
                    }
                },
                None => {},
            }
            i = i + 1;
        } else if unit <= 0xdbff && i + 1 < n {
            let low: u16 = read_unit(bytes, i + 1, little_endian);
            assert(s[1] == low);
            if low < 0xdc00 || low > 0xdfff {
                return Err("The selected file contains invalid UTF-16 text".to_owned());
            }
            let code: u32 = 0x10000 + (unit as u32 - 0xd800) * 0x400 + (low as u32 - 0xdc00);
            proof {
                assert(s.skip(2) =~= units.skip(i + 2));
            }
            match char::from_u32(code) {
                Some(c) => {
                    content.push(c);
                    proof {
                        if let Some(rest) = from_units(s.skip(2)) {
                            assert(had + (seq![c] + rest) =~= had.push(c) + rest);
                        }
                    }
                },
                None => {},
            }
            i = i + 2;
        } else {
            return Err("The selected file contains invalid UTF-16 text".to_owned());
        }
    }
    proof {
        assert(content@ + Seq::<char>::empty() =~= content@);
    }
    Ok(content)
}

fn read_unit(bytes: &[u8], i: usize, little_endian: bool) -> (r: u16)
    requires
        i < bytes@.len() / 2,
    ensures
        r == units_of_bytes(bytes@, little_endian)[i as int],
{
    let _n: usize = bytes.len();
    assert(2 * i + 1 < bytes.len());
    let first: u16 = bytes[2 * i] as u16;
    let second: u16 = bytes[2 * i + 1] as u16;
    if little_endian {
        first + second * 256
    } else {
        second + first * 256
    }
}

fn push_unit(bytes: &mut Vec<u8>, unit: u16, little_endian: bool)
    ensures
        final(bytes)@ == old(bytes)@ + bytes_of_unit(unit, little_endian),
{
    let low: u8 = (unit % 256) as u8;
    let high: u8 = (unit / 256) as u8;
    let ghost had = bytes@;
    if little_endian {
        bytes.push(low);
        bytes.push(high);
    } else {
        bytes.push(high);
        bytes.push(low);
    }
    assert(bytes@ =~= had + bytes_of_unit(unit, little_endian));
}

proof fn lemma_bytes_of_units_push(units: Seq<u16>, unit: u16, little_endian: bool)
    ensures
        bytes_of_units(units.push(unit), little_endian) == bytes_of_units(units, little_endian)
            + bytes_of_unit(unit, little_endian),
{
    let a = bytes_of_units(units.push(unit), little_endian);
    let b = bytes_of_units(units, little_endian) + bytes_of_unit(unit, little_endian);
    assert(a.len() == b.len());
    assert forall|i: int| 0 <= i < a.len() implies a[i] == b[i] by {
        if i < 2 * units.len() {
            assert(i / 2 < units.len());
        } else {
            assert(i / 2 == units.len());
        }
    }
    assert(a =~= b);
}

/// Appends the UTF-16 bytes of a text.
pub fn encode_utf16(content: &str, start: Vec<u8>, little_endian: bool) -> (r: Vec<u8>)
    ensures
        r@ == start@ + bytes_of_units(to_units(content@), little_endian),
{
    let mut bytes: Vec<u8> = start;
    proof {
        assert(to_units(content@.take(0)) =~= Seq::empty());
        assert(bytes_of_units(Seq::empty(), little_endian) =~= Seq::empty());
        assert(start@ + Seq::<u8>::empty() =~= start@);
    }
    for c in it: content.chars()
        invariant
            it.seq() == content@,
            bytes@ == start@ + bytes_of_units(
                to_units(content@.take(it.index() as int)),
                little_endian,
            ),
    {
        let ghost i = it.index() as int;
        let ghost units = to_units(content@.take(i));
        let ghost had = bytes@;
        proof {
            assert(content@.take(i + 1).drop_last() =~= content@.take(i));
        }
        let code: u32 = c as u32;
        if code < 0x10000 {
            push_unit(&mut bytes, code as u16, little_endian);
            proof {
                assert(units + units_of_char(c) =~= units.push((c as u32) as u16));
                lemma_bytes_of_units_push(units, (c as u32) as u16, little_endian);
                assert(bytes@ =~= start@ + bytes_of_units(units.push((c as u32) as u16), little_endian));
            }
        } else {
            let offset: u32 = code - 0x10000;
            let high: u16 = (0xd800 + offset / 0x400) as u16;
            let low: u16 = (0xdc00 + offset % 0x400) as u16;
            push_unit(&mut bytes, high, little_endian);
            push_unit(&mut bytes, low, little_endian);
            proof {
                assert(units + units_of_char(c) =~= units.push(high).push(low));
                lemma_bytes_of_units_push(units, high, little_endian);
                lemma_bytes_of_units_push(units.push(high), low, little_endian);
                assert(bytes@ =~= start@ + bytes_of_units(units.push(high).push(low), little_endian));
            }
        }
    }
    assert(content@.take(content@.len() as int) =~= content@);
    bytes
}

/// Bytes and code units of one byte order are the same thing in two forms.
pub proof fn lemma_units_bytes_inverse(units: Seq<u16>, little_endian: bool)
    ensures
        bytes_of_units(units, little_endian).len() == 2 * units.len(),
        units_of_bytes(bytes_of_units(units, little_endian), little_endian) == units,
{
    let bytes = bytes_of_units(units, little_endian);
    assert forall|i: int| 0 <= i < units.len() implies units_of_bytes(bytes, little_endian)[i]
        == units[i] by {
        assert((2 * i) / 2 == i && (2 * i) % 2 == 0);
        assert((2 * i + 1) / 2 == i && (2 * i + 1) % 2 == 1);
        let u = units[i];
        assert(u as int == (u as int / 256) * 256 + u as int % 256);
    }
    assert(units_of_bytes(bytes, little_endian) =~= units);
}

/// Code units and an even number of bytes of one byte order are the same thing in two forms.
pub proof fn lemma_bytes_units_inverse(bytes: Seq<u8>, little_endian: bool)
    requires
        bytes.len() % 2 == 0,
    ensures
        bytes_of_units(units_of_bytes(bytes, little_endian), little_endian) == bytes,
{
    let units = units_of_bytes(bytes, little_endian);
    let back = bytes_of_units(units, little_endian);
    assert(back.len() == bytes.len());
    assert forall|i: int| 0 <= i < bytes.len() implies back[i] == bytes[i] by {
        let k = i / 2;
        assert(0 <= k < units.len());
        let u = units[k];
        let first = bytes[2 * k];
        let second = bytes[2 * k + 1];
        if little_endian {
            assert(u == first + second * 256);
            assert(u % 256 == first && u / 256 == second);
        } else {
            assert(u == second + first * 256);
            assert(u % 256 == second && u / 256 == first);
        }
        if i % 2 == 0 {
            assert(i == 2 * k);
        } else {
            assert(i == 2 * k + 1);
        }
    }
    assert(back =~= bytes);
}

proof fn lemma_to_units_first(chars: Seq<char>)
    requires
        chars.len() > 0,
    ensures
        to_units(chars) == units_of_char(chars[0]) + to_units(chars.skip(1)),
    decreases chars.len(),
{
    if chars.len() == 1 {
        assert(chars.drop_last() =~= Seq::empty());
        assert(chars.skip(1) =~= Seq::empty());
        assert(to_units(chars) =~= units_of_char(chars[0]) + to_units(chars.skip(1)));
    } else {
        lemma_to_units_first(chars.drop_last());
        assert(chars.drop_last().skip(1) =~= chars.skip(1).drop_last());
        assert(to_units(chars) =~= units_of_char(chars[0]) + to_units(chars.skip(1)));
    }
}

/// Decoding gives back what was encoded.
pub proof fn lemma_from_to_units(chars: Seq<char>)
    ensures
        from_units(to_units(chars)) == Some(chars),
    decreases chars.len(),
{
    if chars.len() == 0 {
        assert(chars =~= Seq::empty());
    } else {
        lemma_to_units_first(chars);
        lemma_from_to_units(chars.skip(1));
        let units = to_units(chars);
        let c = chars[0];
        char_is_scalar(c);
        assert(seq![c] + chars.skip(1) =~= chars);
        if (c as u32) < 0x10000 {
            assert(units.skip(1) =~= to_units(chars.skip(1)));
            assert(units[0] == units_of_char(c)[0]);
            assert(units[0] as u32 == c as u32);
            char_u32_cast(c, units[0] as u32);
            assert(!is_high(units[0]) && !is_low(units[0]));
            assert(from_units(units) == Some(seq![c] + chars.skip(1)));
        } else {
            assert(units.skip(2) =~= to_units(chars.skip(1)));
            assert(units[0] == units_of_char(c)[0] && units[1] == units_of_char(c)[1]);
            assert(pair_code(units[0], units[1]) == c as u32);
            assert(is_high(units[0]) && is_low(units[1]));
            char_u32_cast(c, pair_code(units[0], units[1]) as u32);
            assert(from_units(units) == Some(seq![c] + chars.skip(1)));
        }
    }
}

/// Encoding gives back what was decoded.
pub proof fn lemma_to_from_units(units: Seq<u16>)
    requires
        from_units(units) is Some,
    ensures
        to_units(from_units(units)->0) == units,
    decreases units.len(),
{
    let content = from_units(units)->0;
    if units.len() == 0 {
        assert(to_units(content) =~= units);
    } else if !is_high(units[0]) && !is_low(units[0]) {
        lemma_to_from_units(units.skip(1));
        let rest = from_units(units.skip(1))->0;
        assert(content.skip(1) =~= rest);
        lemma_to_units_first(content);
        assert(to_units(content) =~= units);
    } else {
        lemma_to_from_units(units.skip(2));
        let rest = from_units(units.skip(2))->0;
        assert(content.skip(1) =~= rest);
        lemma_to_units_first(content);
        let c = content[0];
        assert(c as u32 == pair_code(units[0], units[1]));
        assert(units_of_char(c) =~= seq![units[0], units[1]]);
        assert(to_units(content) =~= units);
    }
}

/// The bytes of a number below 65536 in one of the two orders.
pub open spec fn two_bytes(n: int, little_endian: bool) -> Seq<u8> {
    if little_endian {
        seq![(n % 256) as u8, (n / 256) as u8]
    } else {
        seq![(n / 256) as u8, (n % 256) as u8]
    }
}

/// One more character adds the two bytes of its number, or, above the first 65536 numbers, the bytes of its two
/// surrogates: what is left of the number in steps of 1024, and the rest.
pub proof fn lemma_bytes_of_longer_text(content: Seq<char>, c: char, little_endian: bool)
    ensures
        bytes_of_units(to_units(Seq::empty()), little_endian) == Seq::<u8>::empty(),
        (c as int) < 0x10000 ==> bytes_of_units(to_units(content.push(c)), little_endian) == bytes_of_units(
            to_units(content),
            little_endian,
        ) + two_bytes(c as int, little_endian),
        (c as int) >= 0x10000 ==> bytes_of_units(to_units(content.push(c)), little_endian) == bytes_of_units(
            to_units(content),
            little_endian,
        ) + two_bytes(0xd800 + (c as int - 0x10000) / 1024, little_endian) + two_bytes(
            0xdc00 + (c as int - 0x10000) % 1024,
            little_endian,
        ),
{
    let units = to_units(content);
    assert(content.push(c).drop_last() =~= content);
    assert(to_units(Seq::empty()) =~= Seq::empty());
    assert(bytes_of_units(Seq::empty(), little_endian) =~= Seq::<u8>::empty());
    if (c as int) < 0x10000 {
        let unit = (c as u32) as u16;
        assert(units + units_of_char(c) =~= units.push(unit));
        lemma_bytes_of_units_push(units, unit, little_endian);
        assert(bytes_of_unit(unit, little_endian) =~= two_bytes(c as int, little_endian));
    } else {
        let high = (0xd800 + (c as u32 - 0x10000) / 0x400) as u16;
        let low = (0xdc00 + (c as u32 - 0x10000) % 0x400) as u16;
        assert(units + units_of_char(c) =~= units.push(high).push(low));
        lemma_bytes_of_units_push(units, high, little_endian);
        lemma_bytes_of_units_push(units.push(high), low, little_endian);
        assert(bytes_of_unit(high, little_endian) =~= two_bytes(0xd800 + (c as int - 0x10000) / 1024, little_endian));
        assert(bytes_of_unit(low, little_endian) =~= two_bytes(0xdc00 + (c as int - 0x10000) % 1024, little_endian));
    }
}

} // verus!
