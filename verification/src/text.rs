//! Text as sequences of characters: trimming, splitting, joining, case, order and numerals.
use vstd::prelude::*;
use vstd::string::*;
use vstd::utf8::*;

verus! {

/// `String::push` appends one character to the text.
pub assume_specification[ String::push ](s: &mut String, ch: char)
    ensures
        final(s)@ == old(s)@.push(ch),
;

/// What `str::to_lowercase` makes of a text: the Unicode lowercase mapping, which depends on the
/// text alone.
pub uninterp spec fn lowercased(text: Seq<char>) -> Seq<char>;

/// Calls `str::to_lowercase`. Its result is given the name `lowercased`; nothing else is claimed of
/// the Unicode tables behind it.
#[verifier::external_body]
pub(crate) fn to_lowercase(text: &str) -> (r: String)
    ensures
        r@ == lowercased(text@),
{
    text.to_lowercase()
}

/// What `String::from_utf8_lossy` makes of bytes; it depends on the bytes alone.
pub uninterp spec fn lossy(bytes: Seq<u8>) -> Seq<char>;

/// Calls `String::from_utf8_lossy`. Its result is given the name `lossy`; of valid UTF-8 it is the
/// text that the bytes encode. How invalid sequences are replaced is left to the name.
#[verifier::external_body]
pub(crate) fn utf8_lossy(bytes: &[u8]) -> (r: String)
    ensures
        r@ == lossy(bytes@),
        valid_utf8(bytes@) ==> r@ == decode_utf8(bytes@),
{
    String::from_utf8_lossy(bytes).into_owned()
}

/// The error of `String::from_utf8`.
#[verifier::external_type_specification]
#[verifier::external_body]
pub struct ExFromUtf8Error(std::string::FromUtf8Error);

/// `String::from_utf8` takes exactly the valid UTF-8 sequences, and the text that it makes of one
/// has these bytes as its UTF-8 encoding.
pub assume_specification[ String::from_utf8 ](vec: Vec<u8>) -> (r: Result<String, std::string::FromUtf8Error>)
    ensures
        r is Ok <==> valid_utf8(vec@),
        r matches Ok(s) ==> encode_utf8(s@) == vec@,
;

/// An optional text by its characters.
pub open spec fn opt_view(text: Option<String>) -> Option<Seq<char>> {
    match text {
        Some(t) => Some(t@),
        None => None,
    }
}

/// A fallible text by its characters.
pub open spec fn result_view(text: Result<String, String>) -> Result<Seq<char>, Seq<char>> {
    match text {
        Ok(t) => Ok(t@),
        Err(e) => Err(e@),
    }
}

/// A fallible step without a value by the characters of its error.
pub open spec fn unit_view(outcome: Result<(), String>) -> Result<(), Seq<char>> {
    match outcome {
        Ok(_) => Ok(()),
        Err(e) => Err(e@),
    }
}

/// A list of texts by their characters.
pub open spec fn texts_view(texts: Seq<String>) -> Seq<Seq<char>> {
    texts.map_values(|t: String| t@)
}

/// The characters of `text`, in order.
pub fn chars_of(text: &str) -> (r: Vec<char>)
    ensures
        r@ == text@,
{
    let mut r: Vec<char> = Vec::new();
    for c in it: text.chars()
        invariant
            it.seq() == text@,
            r@ == text@.take(it.index() as int),
    {
        r.push(c);
    }
    r
}

/// The text that the characters from `start` up to `end` spell.
pub fn string_of(chars: &[char], start: usize, end: usize) -> (r: String)
    requires
        start <= end <= chars@.len(),
    ensures
        r@ == chars@.subrange(start as int, end as int),
{
    let mut r: String = String::new();
    for i in start..end
        invariant
            start <= end <= chars@.len(),
            r@ == chars@.subrange(start as int, i as int),
    {
        r.push(chars[i]);
    }
    r
}

/// Texts of their own with the characters of the given ones.
pub fn texts_of(list: &[&str]) -> (r: Vec<String>)
    ensures
        texts_view(r@) == list@.map_values(|s: &str| s@),
{
    let mut r: Vec<String> = Vec::new();
    for i in 0..list.len()
        invariant
            texts_view(r@) == list@.take(i as int).map_values(|s: &str| s@),
    {
        let ghost had = r@;
        r.push(list[i].to_owned());
        assert(texts_view(r@) =~= texts_view(had).push(list@[i as int]@));
        assert(list@.take(i + 1) =~= list@.take(i as int).push(list@[i as int]));
    }
    assert(list@.take(list@.len() as int) =~= list@);
    r
}

/// `middle` between `before` and `after`.
pub fn framed(before: &str, middle: &str, after: &str) -> (r: String)
    ensures
        r@ == before@ + middle@ + after@,
{
    let mut r: String = before.to_owned();
    r.append(middle);
    r.append(after);
    r
}

// Comparison.

/// Whether two texts are the same.
pub fn same_text(a: &str, b: &str) -> (r: bool)
    ensures
        r == (a@ == b@),
{
    let x = a.as_bytes();
    let y = b.as_bytes();
    proof {
        encode_utf8_decode_utf8(a@);
        encode_utf8_decode_utf8(b@);
    }
    if x.len() != y.len() {
        return false;
    }
    for i in 0..x.len()
        invariant
            x@ == encode_utf8(a@),
            y@ == encode_utf8(b@),
            x@.len() == y@.len(),
            forall|j: int| 0 <= j < i ==> x@[j] == y@[j],
    {
        if x[i] != y[i] {
            return false;
        }
    }
    assert(x@ =~= y@);
    true
}

/// Lexicographic order of byte sequences.
pub open spec fn bytes_before(a: Seq<u8>, b: Seq<u8>) -> bool
    decreases a.len(),
{
    if b.len() == 0 {
        false
    } else if a.len() == 0 {
        true
    } else if a[0] != b[0] {
        a[0] < b[0]
    } else {
        bytes_before(a.drop_first(), b.drop_first())
    }
}

/// The order of texts: lexicographic by their UTF-8 bytes, which is the order of their code points.
pub open spec fn before(a: Seq<char>, b: Seq<char>) -> bool {
    bytes_before(encode_utf8(a), encode_utf8(b))
}

/// Whether `a` comes before `b`.
pub fn text_before(a: &str, b: &str) -> (r: bool)
    ensures
        r == before(a@, b@),
{
    let x = a.as_bytes();
    let y = b.as_bytes();
    let mut i: usize = 0;
    assert(x@.skip(0) =~= x@);
    assert(y@.skip(0) =~= y@);
    while i < x.len() && i < y.len()
        invariant
            i <= x@.len(),
            i <= y@.len(),
            x@ == encode_utf8(a@),
            y@ == encode_utf8(b@),
            bytes_before(x@, y@) == bytes_before(x@.skip(i as int), y@.skip(i as int)),
        decreases x@.len() - i,
    {
        if x[i] != y[i] {
            return x[i] < y[i];
        }
        proof {
            assert(x@.skip(i as int).drop_first() =~= x@.skip(i + 1));
            assert(y@.skip(i as int).drop_first() =~= y@.skip(i + 1));
        }
        i = i + 1;
    }
    i < y.len()
}

proof fn lemma_bytes_before_irreflexive(a: Seq<u8>)
    ensures
        !bytes_before(a, a),
    decreases a.len(),
{
    if a.len() > 0 {
        lemma_bytes_before_irreflexive(a.drop_first());
    }
}

proof fn lemma_bytes_before_transitive(a: Seq<u8>, b: Seq<u8>, c: Seq<u8>)
    requires
        bytes_before(a, b),
        bytes_before(b, c),
    ensures
        bytes_before(a, c),
    decreases a.len(),
{
    if a.len() > 0 && a[0] == b[0] && b[0] == c[0] {
        lemma_bytes_before_transitive(a.drop_first(), b.drop_first(), c.drop_first());
    }
}

proof fn lemma_bytes_before_total(a: Seq<u8>, b: Seq<u8>)
    ensures
        bytes_before(a, b) || bytes_before(b, a) || a == b,
    decreases a.len(),
{
    if a.len() > 0 && b.len() > 0 {
        if a[0] == b[0] {
            lemma_bytes_before_total(a.drop_first(), b.drop_first());
            if a.drop_first() == b.drop_first() {
                assert(a =~= seq![a[0]] + a.drop_first());
                assert(b =~= seq![b[0]] + b.drop_first());
            }
        }
    } else if a.len() == 0 && b.len() == 0 {
        assert(a =~= b);
    }
}

/// No text comes before itself.
pub proof fn lemma_before_irreflexive(a: Seq<char>)
    ensures
        !before(a, a),
{
    lemma_bytes_before_irreflexive(encode_utf8(a));
}

/// The order of texts is transitive.
pub proof fn lemma_before_transitive(a: Seq<char>, b: Seq<char>, c: Seq<char>)
    requires
        before(a, b),
        before(b, c),
    ensures
        before(a, c),
{
    lemma_bytes_before_transitive(encode_utf8(a), encode_utf8(b), encode_utf8(c));
}

/// Of two different texts one comes before the other.
pub proof fn lemma_before_total(a: Seq<char>, b: Seq<char>)
    ensures
        before(a, b) || before(b, a) || a == b,
{
    lemma_bytes_before_total(encode_utf8(a), encode_utf8(b));
    encode_utf8_decode_utf8(a);
    encode_utf8_decode_utf8(b);
}

// Trimming.

/// The characters with the Unicode property White_Space.
pub open spec fn is_white_space(c: char) -> bool {
    ||| '\u{9}' <= c <= '\u{d}'
    ||| c == ' '
    ||| c == '\u{85}'
    ||| c == '\u{a0}'
    ||| c == '\u{1680}'
    ||| '\u{2000}' <= c <= '\u{200a}'
    ||| c == '\u{2028}'
    ||| c == '\u{2029}'
    ||| c == '\u{202f}'
    ||| c == '\u{205f}'
    ||| c == '\u{3000}'
}

/// Whether `c` is white space.
pub fn white_space(c: char) -> (r: bool)
    ensures
        r == is_white_space(c),
{
    ('\u{9}' <= c && c <= '\u{d}') || c == ' ' || c == '\u{85}' || c == '\u{a0}' || c == '\u{1680}' || (
    '\u{2000}' <= c && c <= '\u{200a}') || c == '\u{2028}' || c == '\u{2029}' || c == '\u{202f}' || c
        == '\u{205f}' || c == '\u{3000}'
}

/// `text` without the white space at its start.
pub open spec fn trim_start(text: Seq<char>) -> Seq<char>
    decreases text.len(),
{
    if text.len() > 0 && is_white_space(text[0]) {
        trim_start(text.drop_first())
    } else {
        text
    }
}

/// `text` without the white space at its end.
pub open spec fn trim_end(text: Seq<char>) -> Seq<char>
    decreases text.len(),
{
    if text.len() > 0 && is_white_space(text.last()) {
        trim_end(text.drop_last())
    } else {
        text
    }
}

/// `text` without the white space at both ends.
pub open spec fn trimmed(text: Seq<char>) -> Seq<char> {
    trim_end(trim_start(text))
}

/// `text` without the white space at both ends.
pub fn trim(text: &str) -> (r: String)
    ensures
        r@ == trimmed(text@),
{
    let chars: Vec<char> = chars_of(text);
    let n: usize = chars.len();
    let mut start: usize = 0;
    assert(chars@.subrange(0, n as int) =~= chars@);
    while start < n && white_space(chars[start])
        invariant
            start <= n,
            n == chars@.len(),
            chars@ == text@,
            trim_start(text@) == trim_start(chars@.subrange(start as int, n as int)),
        decreases n - start,
    {
        proof {
            assert(chars@.subrange(start as int, n as int).drop_first() =~= chars@.subrange(
                start + 1,
                n as int,
            ));
        }
        start = start + 1;
    }
    let mut end: usize = n;
    while end > start && white_space(chars[end - 1])
        invariant
            start <= end <= n,
            n == chars@.len(),
            trimmed(text@) == trim_end(chars@.subrange(start as int, end as int)),
        decreases end,
    {
        proof {
            assert(chars@.subrange(start as int, end as int).drop_last() =~= chars@.subrange(
                start as int,
                end - 1,
            ));
        }
        end = end - 1;
    }
    string_of(chars.as_slice(), start, end)
}

/// `text` without any `c` at its start.
pub open spec fn strip_start(text: Seq<char>, c: char) -> Seq<char>
    decreases text.len(),
{
    if text.len() > 0 && text[0] == c {
        strip_start(text.drop_first(), c)
    } else {
        text
    }
}

/// `text` without any `c` at its end.
pub open spec fn strip_end(text: Seq<char>, c: char) -> Seq<char>
    decreases text.len(),
{
    if text.len() > 0 && text.last() == c {
        strip_end(text.drop_last(), c)
    } else {
        text
    }
}

/// `text` without any `c` at both ends.
pub open spec fn stripped(text: Seq<char>, c: char) -> Seq<char> {
    strip_end(strip_start(text, c), c)
}

/// `text` without any `c` at both ends.
pub fn strip(text: &str, c: char) -> (r: String)
    ensures
        r@ == stripped(text@, c),
{
    let chars: Vec<char> = chars_of(text);
    let n: usize = chars.len();
    let mut start: usize = 0;
    assert(chars@.subrange(0, n as int) =~= chars@);
    while start < n && chars[start] == c
        invariant
            start <= n,
            n == chars@.len(),
            chars@ == text@,
            strip_start(text@, c) == strip_start(chars@.subrange(start as int, n as int), c),
        decreases n - start,
    {
        proof {
            assert(chars@.subrange(start as int, n as int).drop_first() =~= chars@.subrange(
                start + 1,
                n as int,
            ));
        }
        start = start + 1;
    }
    let mut end: usize = n;
    while end > start && chars[end - 1] == c
        invariant
            start <= end <= n,
            n == chars@.len(),
            stripped(text@, c) == strip_end(chars@.subrange(start as int, end as int), c),
        decreases end,
    {
        proof {
            assert(chars@.subrange(start as int, end as int).drop_last() =~= chars@.subrange(
                start as int,
                end - 1,
            ));
        }
        end = end - 1;
    }
    string_of(chars.as_slice(), start, end)
}

/// A text that neither starts nor ends with white space is left as it is by trimming.
pub proof fn lemma_trimmed_of_tight(text: Seq<char>)
    requires
        text.len() > 0 ==> !is_white_space(text[0]) && !is_white_space(text.last()),
    ensures
        trimmed(text) == text,
{
}

/// Trimming removes a run at each end and keeps what stands between.
pub proof fn lemma_trimmed_is_subrange(text: Seq<char>) -> (bounds: (int, int))
    ensures
        0 <= bounds.0 <= bounds.1 <= text.len(),
        trimmed(text) == text.subrange(bounds.0, bounds.1),
        trimmed(text).len() > 0 ==> !is_white_space(trimmed(text)[0]) && !is_white_space(
            trimmed(text).last(),
        ),
{
    let a = lemma_trim_start(text);
    let rest = trim_start(text);
    let b = lemma_trim_end(rest);
    assert(trimmed(text) =~= text.subrange(a, a + b));
    (a, a + b)
}

proof fn lemma_trim_start(text: Seq<char>) -> (a: int)
    ensures
        0 <= a <= text.len(),
        trim_start(text) == text.skip(a),
        trim_start(text).len() > 0 ==> !is_white_space(trim_start(text)[0]),
    decreases text.len(),
{
    if text.len() > 0 && is_white_space(text[0]) {
        let a = lemma_trim_start(text.drop_first());
        assert(text.drop_first().skip(a) =~= text.skip(a + 1));
        a + 1
    } else {
        assert(text.skip(0) =~= text);
        0
    }
}

proof fn lemma_trim_end(text: Seq<char>) -> (b: int)
    ensures
        0 <= b <= text.len(),
        trim_end(text) == text.take(b),
        trim_end(text).len() > 0 ==> !is_white_space(trim_end(text).last()),
    decreases text.len(),
{
    if text.len() > 0 && is_white_space(text.last()) {
        let b = lemma_trim_end(text.drop_last());
        assert(text.drop_last().take(b) =~= text.take(b));
        b
    } else {
        assert(text.take(text.len() as int) =~= text);
        text.len() as int
    }
}

/// Trimming a second time changes nothing.
pub proof fn lemma_trimmed_twice(text: Seq<char>)
    ensures
        trimmed(trimmed(text)) == trimmed(text),
{
    let _ = lemma_trimmed_is_subrange(text);
    lemma_trimmed_of_tight(trimmed(text));
}

// Characters.

/// `text` with every `from` replaced by `to`.
pub open spec fn replaced(text: Seq<char>, from: char, to: char) -> Seq<char> {
    text.map_values(|c: char| if c == from { to } else { c })
}

/// `text` with every `from` replaced by `to`.
pub fn replace_char(text: &str, from: char, to: char) -> (r: String)
    ensures
        r@ == replaced(text@, from, to),
{
    let mut r: String = String::new();
    for c in it: text.chars()
        invariant
            it.seq() == text@,
            r@ == replaced(text@.take(it.index() as int), from, to),
    {
        proof {
            let i = it.index() as int;
            assert(text@.take(i + 1) =~= text@.take(i).push(text@[i]));
            assert(replaced(text@.take(i + 1), from, to) =~= replaced(text@.take(i), from, to).push(
                if c == from { to } else { c },
            ));
        }
        r.push(if c == from { to } else { c });
    }
    assert(text@.take(text@.len() as int) =~= text@);
    r
}

/// Whether `c` occurs in `text`.
pub fn contains_char(text: &str, c: char) -> (r: bool)
    ensures
        r == text@.contains(c),
{
    let chars: Vec<char> = chars_of(text);
    for i in 0..chars.len()
        invariant
            chars@ == text@,
            forall|j: int| 0 <= j < i ==> text@[j] != c,
    {
        if chars[i] == c {
            assert(text@[i as int] == c);
            return true;
        }
    }
    false
}

/// The lower case of an ASCII letter; any other character stays.
pub open spec fn ascii_lower(c: char) -> char {
    if 'A' <= c <= 'Z' {
        ((c as u8) + 32) as char
    } else {
        c
    }
}

/// `text` with its ASCII letters in lower case.
pub open spec fn ascii_lowered(text: Seq<char>) -> Seq<char> {
    text.map_values(|c: char| ascii_lower(c))
}

/// `text` with its ASCII letters in lower case.
pub fn ascii_lowercase(text: &str) -> (r: String)
    ensures
        r@ == ascii_lowered(text@),
{
    let mut r: String = String::new();
    for c in it: text.chars()
        invariant
            it.seq() == text@,
            r@ == ascii_lowered(text@.take(it.index() as int)),
    {
        let d: char = if 'A' <= c && c <= 'Z' {
            ((c as u8) + 32) as char
        } else {
            c
        };
        proof {
            let i = it.index() as int;
            assert(text@.take(i + 1) =~= text@.take(i).push(text@[i]));
            assert(ascii_lowered(text@.take(i + 1)) =~= ascii_lowered(text@.take(i)).push(d));
        }
        r.push(d);
    }
    assert(text@.take(text@.len() as int) =~= text@);
    r
}

/// Whether two texts differ at most in the case of their ASCII letters.
pub open spec fn same_ignoring_case(a: Seq<char>, b: Seq<char>) -> bool {
    ascii_lowered(a) == ascii_lowered(b)
}

/// Whether two texts differ at most in the case of their ASCII letters.
pub fn eq_ignore_ascii_case(a: &str, b: &str) -> (r: bool)
    ensures
        r == same_ignoring_case(a@, b@),
{
    ascii_lowercase(a) == ascii_lowercase(b)
}

// Laws.

/// Whether every character is white space.
pub open spec fn is_blank(text: Seq<char>) -> bool {
    forall|i: int| 0 <= i < text.len() ==> is_white_space(#[trigger] text[i])
}

/// Whether a text is not empty and neither starts nor ends with white space.
pub open spec fn is_tight(text: Seq<char>) -> bool {
    text.len() > 0 && !is_white_space(text[0]) && !is_white_space(text.last())
}

proof fn lemma_trim_start_of_padded(lead: Seq<char>, rest: Seq<char>)
    requires
        is_blank(lead),
        rest.len() > 0 ==> !is_white_space(rest[0]),
    ensures
        trim_start(lead + rest) == rest,
    decreases lead.len(),
{
    if lead.len() == 0 {
        assert(lead + rest =~= rest);
    } else {
        let less = lead.drop_first();
        assert forall|i: int| 0 <= i < less.len() implies is_white_space(#[trigger] less[i]) by {
            assert(less[i] == lead[i + 1]);
        }
        assert(is_white_space(lead[0]));
        assert((lead + rest).drop_first() =~= less + rest);
        lemma_trim_start_of_padded(less, rest);
    }
}

proof fn lemma_trim_end_of_padded(rest: Seq<char>, tail: Seq<char>)
    requires
        is_blank(tail),
        rest.len() > 0 ==> !is_white_space(rest.last()),
    ensures
        trim_end(rest + tail) == rest,
    decreases tail.len(),
{
    if tail.len() == 0 {
        assert(rest + tail =~= rest);
    } else {
        let less = tail.drop_last();
        assert forall|i: int| 0 <= i < less.len() implies is_white_space(#[trigger] less[i]) by {
            assert(less[i] == tail[i]);
        }
        assert(is_white_space(tail[tail.len() - 1]));
        assert((rest + tail).drop_last() =~= rest + less);
        lemma_trim_end_of_padded(rest, less);
    }
}

/// White space around a text is all that trimming takes away.
pub proof fn lemma_trimmed_of_padded(lead: Seq<char>, core: Seq<char>, tail: Seq<char>)
    requires
        is_blank(lead),
        is_tight(core),
        is_blank(tail),
    ensures
        trimmed(lead + core + tail) == core,
{
    assert(lead + core + tail =~= lead + (core + tail));
    assert((core + tail)[0] == core[0]);
    lemma_trim_start_of_padded(lead, core + tail);
    lemma_trim_end_of_padded(core, tail);
}

/// Nothing is left of white space.
pub proof fn lemma_trimmed_of_blank(text: Seq<char>)
    requires
        is_blank(text),
    ensures
        trimmed(text) == Seq::<char>::empty(),
{
    lemma_trim_start_of_padded(text, Seq::empty());
    assert(text + Seq::<char>::empty() =~= text);
}

/// A text that is not blank is a tight one with white space around it.
pub proof fn lemma_padding_of(text: Seq<char>) -> (parts: (Seq<char>, Seq<char>, Seq<char>))
    requires
        !is_blank(text),
    ensures
        text == parts.0 + parts.1 + parts.2,
        is_blank(parts.0),
        is_tight(parts.1),
        is_blank(parts.2),
    decreases text.len(),
{
    if !is_white_space(text[0]) && !is_white_space(text.last()) {
        assert(text =~= Seq::<char>::empty() + text + Seq::<char>::empty());
        (Seq::empty(), text, Seq::empty())
    } else if is_white_space(text[0]) {
        let less = text.drop_first();
        assert(!is_blank(less)) by {
            let i = choose|i: int| 0 <= i < text.len() && !is_white_space(#[trigger] text[i]);
            assert(less[i - 1] == text[i]);
        }
        let (a, b, c) = lemma_padding_of(less);
        let lead = seq![text[0]] + a;
        assert forall|i: int| 0 <= i < lead.len() implies is_white_space(#[trigger] lead[i]) by {
            if i > 0 {
                assert(lead[i] == a[i - 1]);
            }
        }
        assert(text =~= seq![text[0]] + less);
        assert(seq![text[0]] + (a + b + c) =~= lead + b + c);
        (lead, b, c)
    } else {
        let less = text.drop_last();
        assert(!is_blank(less)) by {
            let i = choose|i: int| 0 <= i < text.len() && !is_white_space(#[trigger] text[i]);
            assert(less[i] == text[i]);
        }
        let (a, b, c) = lemma_padding_of(less);
        let tail = c.push(text.last());
        assert forall|i: int| 0 <= i < tail.len() implies is_white_space(#[trigger] tail[i]) by {
            if i < c.len() {
                assert(tail[i] == c[i]);
            }
        }
        assert(text =~= less.push(text.last()));
        assert((a + b + c).push(text.last()) =~= a + b + tail);
        (a, b, tail)
    }
}

/// White space is what Unicode lists under this name: five control codes, the space, and nineteen more code points.
pub proof fn law_white_space_is_that_of_unicode(c: char)
    ensures
        ({
            let n = c as u32;
            is_white_space(c) <==> (n == 0x9 || n == 0xa || n == 0xb || n == 0xc || n == 0xd || n == 0x20 || n
                == 0x85 || n == 0xa0 || n == 0x1680 || n == 0x2000 || n == 0x2001 || n == 0x2002 || n == 0x2003
                || n == 0x2004 || n == 0x2005 || n == 0x2006 || n == 0x2007 || n == 0x2008 || n == 0x2009 || n
                == 0x200a || n == 0x2028 || n == 0x2029 || n == 0x202f || n == 0x205f || n == 0x3000)
        }),
{
}

/// What trimming answers: of a tight text with white space around it exactly that text, and of white space nothing.
/// Every text is one of the two.
pub proof fn law_trimming_keeps_what_stands_between(
    text: &str,
    r: String,
    lead: Seq<char>,
    core: Seq<char>,
    tail: Seq<char>,
)
    requires
        call_ensures(trim, (text,), r),
    ensures
        text@ == lead + core + tail && is_blank(lead) && is_tight(core) && is_blank(tail) ==> r@ == core,
        is_blank(text@) ==> r@.len() == 0,
        is_blank(text@) || exists|a: Seq<char>, b: Seq<char>, c: Seq<char>|
            #![trigger is_blank(a), is_tight(b), is_blank(c)]
            text@ == a + b + c && is_blank(a) && is_tight(b) && is_blank(c),
{
    if is_blank(text@) {
        lemma_trimmed_of_blank(text@);
    } else {
        let (a, b, c) = lemma_padding_of(text@);
        assert(is_blank(a) && is_tight(b) && is_blank(c));
    }
    if text@ == lead + core + tail && is_blank(lead) && is_tight(core) && is_blank(tail) {
        lemma_trimmed_of_padded(lead, core, tail);
    }
}

/// Replacing a character leaves a text of the same length: what stood at a place still stands there, unless it was
/// the character that is replaced.
pub proof fn law_replacing_touches_only_the_character(text: &str, from: char, to: char, r: String, i: int)
    requires
        call_ensures(replace_char, (text, from, to), r),
        0 <= i < text@.len(),
    ensures
        r@.len() == text@.len(),
        text@[i] == from ==> r@[i] == to,
        text@[i] != from ==> r@[i] == text@[i],
{
}

/// Stripping takes away every `c` at both ends and nothing else.
pub proof fn law_stripping_keeps_what_stands_between(
    text: &str,
    c: char,
    r: String,
    lead: Seq<char>,
    core: Seq<char>,
    tail: Seq<char>,
)
    requires
        call_ensures(strip, (text, c), r),
        text@ == lead + core + tail,
        forall|i: int| 0 <= i < lead.len() ==> #[trigger] lead[i] == c,
        forall|i: int| 0 <= i < tail.len() ==> #[trigger] tail[i] == c,
        core.len() > 0 ==> core[0] != c && core.last() != c,
    ensures
        r@ == core,
{
    lemma_strip_of_padded(lead, core, tail, c);
}

/// What stands between runs of `c` is what is left after stripping.
pub proof fn lemma_strip_of_padded(lead: Seq<char>, core: Seq<char>, tail: Seq<char>, c: char)
    requires
        forall|i: int| 0 <= i < lead.len() ==> #[trigger] lead[i] == c,
        forall|i: int| 0 <= i < tail.len() ==> #[trigger] tail[i] == c,
        core.len() > 0 ==> core[0] != c && core.last() != c,
    ensures
        stripped(lead + core + tail, c) == core,
    decreases lead.len() + tail.len(),
{
    let text = lead + core + tail;
    if lead.len() > 0 {
        let less = lead.drop_first();
        assert forall|i: int| 0 <= i < less.len() implies #[trigger] less[i] == c by {
            assert(less[i] == lead[i + 1]);
        }
        assert(lead[0] == c);
        assert(text.drop_first() =~= less + core + tail);
        lemma_strip_of_padded(less, core, tail, c);
    } else if core.len() == 0 && tail.len() > 0 {
        assert(tail[0] == c);
        let less = tail.drop_first();
        assert forall|i: int| 0 <= i < less.len() implies #[trigger] less[i] == c by {
            assert(less[i] == tail[i + 1]);
        }
        assert(text.drop_first() =~= lead + core + less);
        lemma_strip_of_padded(lead, core, less, c);
    } else if tail.len() > 0 {
        let less = tail.drop_last();
        assert forall|i: int| 0 <= i < less.len() implies #[trigger] less[i] == c by {
            assert(less[i] == tail[i]);
        }
        assert(tail[tail.len() - 1] == c);
        assert(text[0] == core[0]);
        assert(text.drop_last() =~= lead + core + less);
        lemma_strip_of_padded(lead, core, less, c);
        assert((lead + core + less)[0] == core[0]);
    } else {
        assert(text =~= core);
    }
}

/// Two texts are the same but for case exactly when they are equally long and each two characters at one place are
/// equal or are one ASCII letter in its two cases, whose code points are thirty-two apart.
pub proof fn law_case_of_ascii_letters_does_not_count(a: &str, b: &str, r: bool)
    requires
        call_ensures(eq_ignore_ascii_case, (a, b), r),
    ensures
        r <==> a@.len() == b@.len() && forall|i: int|
            0 <= i < a@.len() ==> {
                let x = (#[trigger] a@[i]) as int;
                let y = b@[i] as int;
                ||| x == y
                ||| 65 <= x <= 90 && y == x + 32
                ||| 65 <= y <= 90 && x == y + 32
            },
{
    let low_a = ascii_lowered(a@);
    let low_b = ascii_lowered(b@);
    if r {
        assert(low_a == low_b);
        assert(a@.len() == low_a.len() && b@.len() == low_b.len());
        assert forall|i: int| 0 <= i < a@.len() implies {
            let x = (#[trigger] a@[i]) as int;
            let y = b@[i] as int;
            ||| x == y
            ||| 65 <= x <= 90 && y == x + 32
            ||| 65 <= y <= 90 && x == y + 32
        } by {
            assert(low_a[i] == ascii_lower(a@[i]));
            assert(low_b[i] == ascii_lower(b@[i]));
            assert(low_a[i] as int == low_b[i] as int);
            let c = a@[i];
            let d = b@[i];
            assert('A' <= c <= 'Z' ==> ascii_lower(c) as int == c as int + 32);
            assert('A' <= d <= 'Z' ==> ascii_lower(d) as int == d as int + 32);
        }
    }
    if a@.len() == b@.len() && forall|i: int|
        0 <= i < a@.len() ==> {
            let x = (#[trigger] a@[i]) as int;
            let y = b@[i] as int;
            ||| x == y
            ||| 65 <= x <= 90 && y == x + 32
            ||| 65 <= y <= 90 && x == y + 32
        } {
        assert forall|i: int| 0 <= i < low_a.len() implies low_a[i] == low_b[i] by {
            let c = a@[i];
            let d = b@[i];
            assert(c as int == d as int || c as int == d as int + 32 || d as int == c as int + 32);
        }
        assert(low_a =~= low_b);
    }
}

// The order of texts.

proof fn lemma_bytes_before_at(a: Seq<u8>, b: Seq<u8>, k: int)
    requires
        0 <= k < a.len(),
        k < b.len(),
        a.take(k) == b.take(k),
        a[k] < b[k],
    ensures
        bytes_before(a, b),
        !bytes_before(b, a),
    decreases k,
{
    if k > 0 {
        assert(a.take(k)[0] == a[0] && b.take(k)[0] == b[0]);
        let x = a.drop_first();
        let y = b.drop_first();
        assert(x.take(k - 1) =~= a.take(k).drop_first());
        assert(y.take(k - 1) =~= b.take(k).drop_first());
        lemma_bytes_before_at(x, y, k - 1);
    }
}

proof fn lemma_bytes_before_longer(a: Seq<u8>, b: Seq<u8>)
    requires
        b.len() > 0,
    ensures
        bytes_before(a, a + b),
        !bytes_before(a + b, a),
    decreases a.len(),
{
    if a.len() > 0 {
        assert((a + b).drop_first() =~= a.drop_first() + b);
        lemma_bytes_before_longer(a.drop_first(), b);
    }
}

proof fn lemma_encode_utf8_concat(a: Seq<char>, b: Seq<char>)
    ensures
        encode_utf8(a + b) == encode_utf8(a) + encode_utf8(b),
    decreases a.len(),
{
    if a.len() == 0 {
        assert(a + b =~= b);
        assert(encode_utf8(a) + encode_utf8(b) =~= encode_utf8(b));
    } else {
        assert((a + b).drop_first() =~= a.drop_first() + b);
        lemma_encode_utf8_concat(a.drop_first(), b);
        assert(encode_utf8(a + b) =~= encode_utf8(a) + encode_utf8(b));
    }
}

/// The bytes of a scalar value by arithmetic.
proof fn lemma_bytes_of_scalar(x: u32)
    requires
        is_scalar(x),
    ensures
        x < 0x80 ==> encode_scalar(x) == seq![x as u8],
        0x80 <= x < 0x800 ==> encode_scalar(x) == seq![(0xc0 + x / 64) as u8, (0x80 + x % 64) as u8],
        0x800 <= x < 0x10000 ==> encode_scalar(x) == seq![
            (0xe0 + x / 4096) as u8,
            (0x80 + x / 64 % 64) as u8,
            (0x80 + x % 64) as u8,
        ],
        0x10000 <= x ==> encode_scalar(x) == seq![
            (0xf0 + x / 262144) as u8,
            (0x80 + x / 4096 % 64) as u8,
            (0x80 + x / 64 % 64) as u8,
            (0x80 + x % 64) as u8,
        ],
{
    assert(x < 0x80 ==> (x & 0x7F) as u8 == x as u8) by (bit_vector);
    assert(x < 0x800 ==> 0xC0u8 | ((x >> 6u32) & 0x1F) as u8 == (0xc0 + x / 64) as u8) by (bit_vector);
    assert(x < 0x10000 ==> 0xE0u8 | ((x >> 12u32) & 0x0F) as u8 == (0xe0 + x / 4096) as u8) by (bit_vector);
    assert(x <= 0x10ffff ==> 0xF0u8 | ((x >> 18u32) & 0x7) as u8 == (0xf0 + x / 262144) as u8) by (bit_vector);
    assert(0x80u8 | (x & 0x3F) as u8 == (0x80 + x % 64) as u8) by (bit_vector);
    assert(0x80u8 | ((x >> 6u32) & 0x3F) as u8 == (0x80 + x / 64 % 64) as u8) by (bit_vector);
    assert(0x80u8 | ((x >> 12u32) & 0x3F) as u8 == (0x80 + x / 4096 % 64) as u8) by (bit_vector);
}

proof fn lemma_scalars_in_order(x: u32, y: u32, s: Seq<u8>, t: Seq<u8>)
    requires
        is_scalar(x),
        is_scalar(y),
        x < y,
    ensures
        bytes_before(encode_scalar(x) + s, encode_scalar(y) + t),
        !bytes_before(encode_scalar(y) + t, encode_scalar(x) + s),
{
    lemma_bytes_of_scalar(x);
    lemma_bytes_of_scalar(y);
    let a = encode_scalar(x) + s;
    let b = encode_scalar(y) + t;
    if a[0] != b[0] {
        assert(a.take(0) =~= b.take(0));
        assert(a[0] < b[0]);
        lemma_bytes_before_at(a, b, 0);
    } else if a[1] != b[1] {
        assert(a.take(1) =~= b.take(1));
        assert(a[1] < b[1]);
        lemma_bytes_before_at(a, b, 1);
    } else if a[2] != b[2] {
        assert(x >= 0x800 && y >= 0x800);
        assert(a.take(2) =~= b.take(2));
        assert(a[2] < b[2]);
        lemma_bytes_before_at(a, b, 2);
    } else {
        assert(x >= 0x10000 && y >= 0x10000);
        assert(a.take(3) =~= b.take(3));
        assert(a[3] < b[3]);
        lemma_bytes_before_at(a, b, 3);
    }
}

/// Texts stand in the order of the code points of the first characters in which they differ, and the start of a text
/// stands before it.
pub proof fn law_texts_are_ordered_by_code_points(
    a: &str,
    b: &str,
    start: Seq<char>,
    x: char,
    y: char,
    s: Seq<char>,
    t: Seq<char>,
    r: bool,
    reverse: bool,
)
    requires
        call_ensures(text_before, (a, b), r),
        call_ensures(text_before, (b, a), reverse),
    ensures
        a@ == start + seq![x] + s && b@ == start + seq![y] + t && x < y ==> r && !reverse,
        a@ == start && b@ == start + seq![y] + t ==> r && !reverse,
        a@ == b@ ==> !r && !reverse,
{
    let head = encode_utf8(start);
    if a@ == start + seq![x] + s && b@ == start + seq![y] + t && x < y {
        char_is_scalar(x);
        char_is_scalar(y);
        lemma_encode_utf8_concat(start, seq![x] + s);
        lemma_encode_utf8_concat(start, seq![y] + t);
        assert(start + (seq![x] + s) =~= a@);
        assert(start + (seq![y] + t) =~= b@);
        assert((seq![x] + s).drop_first() =~= s);
        assert((seq![y] + t).drop_first() =~= t);
        let p = encode_scalar(x as u32) + encode_utf8(s);
        let q = encode_scalar(y as u32) + encode_utf8(t);
        assert(encode_utf8(seq![x] + s) == p);
        assert(encode_utf8(seq![y] + t) == q);
        lemma_scalars_in_order(x as u32, y as u32, encode_utf8(s), encode_utf8(t));
        lemma_bytes_before_behind(head, p, q);
        lemma_bytes_before_behind(head, q, p);
    }
    if a@ == start && b@ == start + seq![y] + t {
        lemma_encode_utf8_concat(start, seq![y] + t);
        assert(start + (seq![y] + t) =~= b@);
        char_is_scalar(y);
        lemma_bytes_of_scalar(y as u32);
        assert(encode_utf8(seq![y] + t).len() > 0);
        lemma_bytes_before_longer(head, encode_utf8(seq![y] + t));
    }
    lemma_before_irreflexive(a@);
}

proof fn lemma_bytes_before_behind(head: Seq<u8>, p: Seq<u8>, q: Seq<u8>)
    ensures
        bytes_before(head + p, head + q) == bytes_before(p, q),
    decreases head.len(),
{
    if head.len() == 0 {
        assert(head + p =~= p);
        assert(head + q =~= q);
    } else {
        assert((head + p).drop_first() =~= head.drop_first() + p);
        assert((head + q).drop_first() =~= head.drop_first() + q);
        lemma_bytes_before_behind(head.drop_first(), p, q);
        if head.len() + q.len() == 0 {
            assert(false);
        }
    }
}

} // verus!
