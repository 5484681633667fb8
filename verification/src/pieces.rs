//! Splitting a text at a separator and joining pieces again.
use crate::text;
use vstd::prelude::*;
use vstd::string::*;

verus! {

/// The pieces of `text` between the occurrences of `sep`; one piece more than there are separators.
pub open spec fn split(text: Seq<char>, sep: char) -> Seq<Seq<char>>
    decreases text.len(),
{
    if text.len() == 0 {
        seq![Seq::<char>::empty()]
    } else {
        let front = split(text.drop_last(), sep);
        if text.last() == sep {
            front.push(Seq::<char>::empty())
        } else {
            front.drop_last().push(front.last().push(text.last()))
        }
    }
}

/// The pieces of `text` between the occurrences of `sep`.
pub fn split_at_char(text: &str, sep: char) -> (r: Vec<String>)
    ensures
        text::texts_view(r@) == split(text@, sep),
{
    let mut r: Vec<String> = Vec::new();
    let mut piece: String = String::new();
    for c in it: text.chars()
        invariant
            it.seq() == text@,
            text::texts_view(r@).push(piece@) == split(text@.take(it.index() as int), sep),
    {
        proof {
            let i = it.index() as int;
            assert(text@.take(i + 1).drop_last() =~= text@.take(i));
        }
        let ghost done = r@;
        if c == sep {
            r.push(piece);
            assert(text::texts_view(r@) =~= text::texts_view(done).push(piece@));
            piece = String::new();
        } else {
            let ghost before = piece@;
            piece.push(c);
            assert(text::texts_view(r@).push(before).drop_last() =~= text::texts_view(r@));
        }
    }
    let ghost done = r@;
    let ghost tail = piece@;
    r.push(piece);
    proof {
        assert(text@.take(text@.len() as int) =~= text@);
        assert(text::texts_view(r@) =~= text::texts_view(done).push(tail));
    }
    r
}

/// `pieces` one after the other, with `sep` between two.
pub open spec fn joined(pieces: Seq<Seq<char>>, sep: Seq<char>) -> Seq<char>
    decreases pieces.len(),
{
    if pieces.len() == 0 {
        Seq::empty()
    } else if pieces.len() == 1 {
        pieces[0]
    } else {
        joined(pieces.drop_last(), sep) + sep + pieces.last()
    }
}

/// `pieces` one after the other, with `sep` between two.
pub fn join(pieces: &Vec<String>, sep: &str) -> (r: String)
    ensures
        r@ == joined(text::texts_view(pieces@), sep@),
{
    let mut r: String = String::new();
    let ghost all = text::texts_view(pieces@);
    for i in 0..pieces.len()
        invariant
            all == text::texts_view(pieces@),
            r@ == joined(all.take(i as int), sep@),
    {
        proof {
            assert(all.take(i + 1).drop_last() =~= all.take(i as int));
        }
        if i > 0 {
            r.append(sep);
        }
        r.append(pieces[i].as_str());
        if i == 0 {
            assert(r@ =~= all.take(1)[0]);
        }
    }
    assert(all.take(all.len() as int) =~= all);
    r
}

/// The place of the first `c` in `text`, or its length when there is none.
pub open spec fn position(text: Seq<char>, c: char) -> int
    decreases text.len(),
{
    if text.len() == 0 || text[0] == c {
        0
    } else {
        1 + position(text.drop_first(), c)
    }
}

/// `position` is the place of a first occurrence.
pub proof fn lemma_position(text: Seq<char>, c: char)
    ensures
        0 <= position(text, c) <= text.len(),
        position(text, c) < text.len() <==> text.contains(c),
        position(text, c) < text.len() ==> text[position(text, c)] == c,
        forall|i: int| 0 <= i < position(text, c) ==> text[i] != c,
    decreases text.len(),
{
    if text.len() > 0 && text[0] != c {
        let rest = text.drop_first();
        lemma_position(rest, c);
        assert forall|i: int| 0 <= i < position(text, c) implies text[i] != c by {
            if i > 0 {
                assert(text[i] == rest[i - 1]);
            }
        }
        if text.contains(c) {
            let k = choose|k: int| 0 <= k < text.len() && text[k] == c;
            assert(rest[k - 1] == c);
        }
        if rest.contains(c) {
            let k = choose|k: int| 0 <= k < rest.len() && rest[k] == c;
            assert(text[k + 1] == c);
        }
    } else if text.len() > 0 {
        assert(text[0] == c);
    }
}

/// What stands before and behind the first `c`; nothing when `c` does not occur.
pub open spec fn split_once_at(text: Seq<char>, c: char) -> Option<(Seq<char>, Seq<char>)> {
    let k = position(text, c);
    if k < text.len() {
        Some((text.take(k), text.skip(k + 1)))
    } else {
        None
    }
}

/// What stands before and behind the first `c`; nothing when `c` does not occur.
pub fn split_once(text: &str, c: char) -> (r: Option<(String, String)>)
    ensures
        match r {
            Some((a, b)) => split_once_at(text@, c) == Some((a@, b@)),
            None => split_once_at(text@, c) is None,
        },
{
    let chars: Vec<char> = text::chars_of(text);
    let n: usize = chars.len();
    let mut k: usize = 0;
    assert(text@.skip(0) =~= text@);
    while k < n && chars[k] != c
        invariant
            k <= n,
            n == chars@.len(),
            chars@ == text@,
            position(text@, c) == k + position(text@.skip(k as int), c),
        decreases n - k,
    {
        assert(text@.skip(k as int).drop_first() =~= text@.skip(k + 1));
        k = k + 1;
    }
    if k < n {
        let a = text::string_of(chars.as_slice(), 0, k);
        let b = text::string_of(chars.as_slice(), k + 1, n);
        assert(a@ =~= text@.take(k as int));
        assert(b@ =~= text@.skip(k + 1));
        Some((a, b))
    } else {
        None
    }
}

/// Joining and splitting at the same separator gives back pieces that do not hold it.
pub proof fn lemma_split_of_joined(pieces: Seq<Seq<char>>, sep: char)
    requires
        pieces.len() > 0,
        forall|i: int| 0 <= i < pieces.len() ==> !(#[trigger] pieces[i]).contains(sep),
    ensures
        split(joined(pieces, seq![sep]), sep) == pieces,
    decreases pieces.len(),
{
    let last = pieces.last();
    assert(!pieces[pieces.len() - 1].contains(sep));
    if pieces.len() == 1 {
        lemma_split_append(Seq::empty(), last, sep);
        assert(Seq::<char>::empty() + last =~= last);
        assert(split(Seq::empty(), sep) =~= seq![Seq::<char>::empty()]);
        assert(Seq::<char>::empty() + last =~= last);
        assert(split(last, sep) =~= pieces);
    } else {
        let front = pieces.drop_last();
        assert forall|i: int| 0 <= i < front.len() implies !(#[trigger] front[i]).contains(sep) by {
            assert(front[i] == pieces[i]);
        }
        lemma_split_of_joined(front, sep);
        let head = joined(front, seq![sep]) + seq![sep];
        assert(head.drop_last() =~= joined(front, seq![sep]));
        assert(split(head, sep) == front.push(Seq::<char>::empty()));
        lemma_split_append(head, last, sep);
        assert(Seq::<char>::empty() + last =~= last);
        assert(front.push(Seq::<char>::empty()).drop_last() =~= front);
        assert(front.push(last) =~= pieces);
    }
}

/// Text without the separator prolongs the last piece.
pub proof fn lemma_split_append(head: Seq<char>, tail: Seq<char>, sep: char)
    requires
        !tail.contains(sep),
    ensures
        split(head, sep).len() > 0,
        split(head + tail, sep) == split(head, sep).drop_last().push(split(head, sep).last() + tail),
    decreases tail.len(),
{
    lemma_split_nonempty(head, sep);
    if tail.len() == 0 {
        assert(head + tail =~= head);
        assert(split(head, sep).last() + tail =~= split(head, sep).last());
        assert(split(head, sep).drop_last().push(split(head, sep).last()) =~= split(head, sep));
    } else {
        let t = tail.drop_last();
        assert forall|c: char| t.contains(c) implies tail.contains(c) by {
            let k = choose|k: int| 0 <= k < t.len() && t[k] == c;
            assert(tail[k] == c);
        }
        lemma_split_append(head, t, sep);
        assert((head + tail).drop_last() =~= head + t);
        assert(tail[tail.len() - 1] == tail.last());
        assert(tail.last() != sep);
        let f = split(head + t, sep);
        assert(f.drop_last() =~= split(head, sep).drop_last());
        assert((split(head, sep).last() + t).push(tail.last()) =~= split(head, sep).last() + tail);
    }
}

/// There is always at least one piece.
pub proof fn lemma_split_nonempty(text: Seq<char>, sep: char)
    ensures
        split(text, sep).len() > 0,
    decreases text.len(),
{
    if text.len() > 0 {
        lemma_split_nonempty(text.drop_last(), sep);
    }
}

/// No piece holds the separator, and every piece is made of characters of the text.
pub proof fn lemma_split_pieces(text: Seq<char>, sep: char)
    ensures
        forall|i: int, c: char|
            0 <= i < split(text, sep).len() && (#[trigger] split(text, sep)[i].contains(c)) ==> c
                != sep && text.contains(c),
    decreases text.len(),
{
    if text.len() > 0 {
        let t = text.drop_last();
        lemma_split_pieces(t, sep);
        lemma_split_nonempty(t, sep);
        let f = split(t, sep);
        assert forall|i: int, c: char|
            0 <= i < split(text, sep).len() && (#[trigger] split(text, sep)[i].contains(c)) implies c
            != sep && text.contains(c) by {
            if i < f.len() - 1 || (i == f.len() - 1 && text.last() == sep) {
                assert(split(text, sep)[i] == f[i]);
                assert(f[i].contains(c));
                let k = choose|k: int| 0 <= k < t.len() && t[k] == c;
                assert(text[k] == c);
            } else if i == f.len() - 1 {
                let p = split(text, sep)[i];
                assert(p == f.last().push(text.last()));
                let k = choose|k: int| 0 <= k < p.len() && p[k] == c;
                if k < f.last().len() {
                    assert(f[i][k] == c);
                    assert(f[i].contains(c));
                    let m = choose|m: int| 0 <= m < t.len() && t[m] == c;
                    assert(text[m] == c);
                } else {
                    assert(text[text.len() - 1] == c);
                }
            } else {
                assert(split(text, sep)[i].len() == 0);
            }
        }
    } else {
        assert(split(text, sep)[0].len() == 0);
    }
}

/// The first piece stands at the start, with the separator behind it.
pub proof fn lemma_joined_first(pieces: Seq<Seq<char>>, sep: Seq<char>)
    requires
        pieces.len() >= 2,
    ensures
        joined(pieces, sep) == pieces[0] + sep + joined(pieces.drop_first(), sep),
    decreases pieces.len(),
{
    let tail = pieces.drop_first();
    let front = pieces.drop_last();
    if pieces.len() == 2 {
        assert(joined(front, sep) == pieces[0]);
        assert(joined(tail, sep) == pieces[1]);
    } else {
        lemma_joined_first(front, sep);
        assert(front.drop_first() =~= tail.drop_last());
        assert(joined(tail, sep) == joined(tail.drop_last(), sep) + sep + pieces.last());
        assert(joined(pieces, sep) =~= pieces[0] + sep + joined(tail, sep));
    }
}

/// The first occurrence of a character stands behind everything before it.
pub proof fn lemma_position_of_first(head: Seq<char>, c: char, rest: Seq<char>)
    requires
        !head.contains(c),
    ensures
        position(head + seq![c] + rest, c) == head.len(),
    decreases head.len(),
{
    let all = head + seq![c] + rest;
    if head.len() > 0 {
        let less = head.drop_first();
        assert(head.contains(head[0]));
        assert forall|i: int| 0 <= i < less.len() implies less[i] != c by {
            assert(head.contains(head[i + 1]));
        }
        assert(all[0] == head[0]);
        assert(all.drop_first() =~= less + seq![c] + rest);
        lemma_position_of_first(less, c, rest);
    } else {
        assert(all[0] == c);
    }
}

/// Splitting at a character gives back the pieces that were joined with it.
pub proof fn law_splitting_undoes_joining(
    list: &Vec<String>,
    sep: &str,
    c: char,
    text: &str,
    whole: String,
    r: Vec<String>,
)
    requires
        list@.len() > 0,
        sep@ == seq![c],
        forall|i: int| 0 <= i < list@.len() ==> !(#[trigger] list@[i])@.contains(c),
        call_ensures(join, (list, sep), whole),
        text@ == whole@,
        call_ensures(split_at_char, (text, c), r),
    ensures
        text::texts_view(r@) == text::texts_view(list@),
{
    let view = text::texts_view(list@);
    assert forall|i: int| 0 <= i < view.len() implies !(#[trigger] view[i]).contains(c) by {
        assert(view[i] == list@[i]@);
    }
    lemma_split_of_joined(view, c);
}

/// One more piece stands behind the others with the separator before it; one piece alone is itself, and no piece is
/// nothing.
pub proof fn law_joining_puts_the_separator_between(
    list: &Vec<String>,
    longer: &Vec<String>,
    last: String,
    sep: &str,
    r: String,
    s: String,
)
    requires
        longer@ == list@.push(last),
        call_ensures(join, (list, sep), r),
        call_ensures(join, (longer, sep), s),
    ensures
        list@.len() == 0 ==> r@.len() == 0 && s@ == last@,
        list@.len() > 0 ==> s@ == r@ + sep@ + last@,
{
    let view = text::texts_view(list@);
    let more = text::texts_view(longer@);
    assert(more =~= view.push(last@));
    assert(more.drop_last() =~= view);
}

/// A text is parted at the first occurrence of a character: what stands before it and what stands behind it, whatever the
/// latter holds. Without an occurrence it is not parted.
pub proof fn law_a_text_is_parted_at_the_first_occurrence(
    text: &str,
    c: char,
    head: Seq<char>,
    rest: Seq<char>,
    r: Option<(String, String)>,
)
    requires
        call_ensures(split_once, (text, c), r),
    ensures
        text@ == head + seq![c] + rest && !head.contains(c) ==> (r matches Some(parts) && parts.0@ == head && parts.1@
            == rest),
        !text@.contains(c) ==> r is None,
{
    if text@ == head + seq![c] + rest && !head.contains(c) {
        lemma_position_of_first(head, c, rest);
        assert(text@.take(head.len() as int) =~= head);
        assert(text@.skip(head.len() as int + 1) =~= rest);
    }
    if !text@.contains(c) {
        lemma_position(text@, c);
    }
}

} // verus!
