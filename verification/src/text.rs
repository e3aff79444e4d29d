//! Text as sequences of characters: conversion from and to strings,
//! replacement, lines, trimming and a few searches.
use vstd::prelude::*;

verus! {

/// Appends one character to a string.
///
/// Trusted: calls `String::push`, which std documents as appending the given
/// character to the end of the string.
#[verifier::external_body]
fn push_char(s: &mut String, c: char)
    ensures
        final(s)@ == old(s)@.push(c),
{
    s.push(c)
}

/// The text `s` with every occurrence of `from`, found from left to right
/// without overlap, exchanged for `to`. The empty text occurs before every
/// character and at the end.
pub open spec fn replaced(s: Seq<char>, from: Seq<char>, to: Seq<char>) -> Seq<char>
    decreases s.len(),
{
    if from.len() == 0 {
        if s.len() == 0 {
            to
        } else {
            to + seq![s[0]] + replaced(s.skip(1), from, to)
        }
    } else if s.len() < from.len() {
        s
    } else if s.take(from.len() as int) == from {
        to + replaced(s.skip(from.len() as int), from, to)
    } else {
        seq![s[0]] + replaced(s.skip(1), from, to)
    }
}

/// The lower-case form of a text.
pub uninterp spec fn lowercase(s: Seq<char>) -> Seq<char>;

/// The pieces of `s` between the occurrences of `sep`; a text without one
/// is a single piece.
pub open spec fn pieces(s: Seq<char>, sep: char) -> Seq<Seq<char>>
    decreases s.len(),
{
    if s.len() == 0 {
        seq![Seq::<char>::empty()]
    } else if s.last() == sep {
        pieces(s.drop_last(), sep).push(Seq::<char>::empty())
    } else {
        let p = pieces(s.drop_last(), sep);
        p.drop_last().push(p.last().push(s.last()))
    }
}

/// A text always has at least one piece.
pub proof fn lemma_pieces_nonempty(s: Seq<char>, sep: char)
    ensures
        pieces(s, sep).len() >= 1,
    decreases s.len(),
{
    if s.len() > 0 {
        lemma_pieces_nonempty(s.drop_last(), sep);
    }
}

/// A piece without the carriage return at its end, if it has one.
pub open spec fn without_return(piece: Seq<char>) -> Seq<char> {
    if piece.len() > 0 && piece.last() == '\r' {
        piece.drop_last()
    } else {
        piece
    }
}

/// The lines of a text, without their line endings: the pieces between its
/// line feeds, each but the last without the carriage return before the
/// line feed; the last piece is no line where it is empty.
pub open spec fn text_lines(s: Seq<char>) -> Seq<Seq<char>> {
    let p = pieces(s, '\n');
    let n = p.len() as int;
    let count = if p.last().len() == 0 {
        n - 1
    } else {
        n
    };
    Seq::new(
        count as nat,
        |i: int|
            if i < n - 1 {
                without_return(p[i])
            } else {
                p[i]
            },
    )
}

/// Whether a character is white space: the tab, the line feed, the
/// vertical tab, the form feed, the carriage return, the blank, the next
/// line mark, the no-break blank and the blanks and separators beyond them
/// that Unicode lists as white space.
pub open spec fn is_space(c: char) -> bool {
    let n = c as u32;
    ||| 9 <= n <= 13
    ||| n == 32
    ||| n == 0x85
    ||| n == 0xA0
    ||| n == 0x1680
    ||| 0x2000 <= n <= 0x200A
    ||| n == 0x2028
    ||| n == 0x2029
    ||| n == 0x202F
    ||| n == 0x205F
    ||| n == 0x3000
}

/// A text without the white space at its start.
pub open spec fn trimmed_start(s: Seq<char>) -> Seq<char>
    decreases s.len(),
{
    if s.len() > 0 && is_space(s[0]) {
        trimmed_start(s.skip(1))
    } else {
        s
    }
}

/// A text without the white space at its end.
pub open spec fn trimmed_end(s: Seq<char>) -> Seq<char>
    decreases s.len(),
{
    if s.len() > 0 && is_space(s.last()) {
        trimmed_end(s.drop_last())
    } else {
        s
    }
}

/// A text with the white space at both ends removed.
pub open spec fn trimmed(s: Seq<char>) -> Seq<char> {
    trimmed_end(trimmed_start(s))
}

/// The texts held by a sequence of strings.
pub open spec fn strings(v: Seq<String>) -> Seq<Seq<char>> {
    Seq::new(v.len(), |i: int| v[i]@)
}

/// The lower-case form of `s`.
///
/// Trusted: calls `str::to_lowercase`, which follows the Unicode lower-case
/// mapping; the outcome is named `lowercase`.
#[verifier::external_body]
pub(crate) fn lowercase_text(s: &str) -> (r: String)
    ensures
        r@ == lowercase(s@),
{
    s.to_lowercase()
}

/// Tells whether a character is white space.
pub fn is_space_char(c: char) -> (r: bool)
    ensures
        r == is_space(c),
{
    let n: u32 = c as u32;
    (9 <= n && n <= 13) || n == 32 || n == 0x85 || n == 0xA0 || n == 0x1680 || (0x2000 <= n && n <= 0x200A)
        || n == 0x2028 || n == 0x2029 || n == 0x202F || n == 0x205F || n == 0x3000
}

/// The text `s` without the white space at its ends.
pub fn trim_text(s: &str) -> (r: String)
    ensures
        r@ == trimmed(s@),
{
    let chars = to_chars(s);
    let mut a: usize = 0;
    assert(chars@.skip(0) =~= chars@);
    while a < chars.len() && is_space_char(chars[a])
        invariant
            a <= chars.len(),
            trimmed_start(chars@) == trimmed_start(chars@.skip(a as int)),
        decreases chars.len() - a,
    {
        assert(chars@.skip(a as int)[0] == chars@[a as int]);
        assert(chars@.skip(a as int).skip(1) =~= chars@.skip(a + 1));
        a = a + 1;
    }
    assert(a < chars.len() ==> chars@.skip(a as int)[0] == chars@[a as int]);
    assert(trimmed_start(chars@) == chars@.skip(a as int));
    let mut b: usize = chars.len();
    assert(chars@.subrange(a as int, b as int) =~= chars@.skip(a as int));
    while b > a && is_space_char(chars[b - 1])
        invariant
            a <= b <= chars.len(),
            trimmed(chars@) == trimmed_end(chars@.subrange(a as int, b as int)),
        decreases b,
    {
        assert(chars@.subrange(a as int, b as int).last() == chars@[b - 1]);
        assert(chars@.subrange(a as int, b as int).drop_last() =~= chars@.subrange(a as int, b - 1));
        b = b - 1;
    }
    assert(b > a ==> chars@.subrange(a as int, b as int).last() == chars@[b - 1]);
    let mut out: Vec<char> = Vec::new();
    let mut i: usize = a;
    while i < b
        invariant
            a <= i <= b <= chars.len(),
            out@ == chars@.subrange(a as int, i as int),
        decreases b - i,
    {
        out.push(chars[i]);
        i = i + 1;
        assert(out@ =~= chars@.subrange(a as int, i as int));
    }
    to_text(&out)
}

/// Whether `s` begins with the character `a` followed by a slash.
pub fn starts_with_namespace(s: &str, a: char) -> (r: bool)
    ensures
        r == (s@.len() >= 2 && s@[0] == a && s@[1] == '/'),
{
    s.unicode_len() >= 2 && s.get_char(0) == a && s.get_char(1) == '/'
}

/// Whether `s` begins with the character `a`.
pub fn starts_with_char(s: &str, a: char) -> (r: bool)
    ensures
        r == (s@.len() >= 1 && s@[0] == a),
{
    s.unicode_len() >= 1 && s.get_char(0) == a
}

/// Whether one of the strings of `list` is the text `s`.
pub fn contains_text(list: &Vec<String>, s: &String) -> (r: bool)
    ensures
        r == strings(list@).contains(s@),
{
    let mut i: usize = 0;
    while i < list.len()
        invariant
            i <= list.len(),
            forall|j: int| 0 <= j < i ==> strings(list@)[j] != s@,
        decreases list.len() - i,
    {
        if list[i] == *s {
            assert(strings(list@)[i as int] == s@);
            return true;
        }
        i = i + 1;
    }
    false
}

/// Whether no text occurs twice in `list`.
pub fn all_distinct(list: &Vec<String>) -> (r: bool)
    ensures
        r == strings(list@).no_duplicates(),
{
    let ghost all = strings(list@);
    let mut i: usize = 0;
    while i < list.len()
        invariant
            i <= list.len(),
            all == strings(list@),
            forall|a: int, b: int| 0 <= a < b < i ==> all[a] != all[b],
        decreases list.len() - i,
    {
        let mut j: usize = 0;
        while j < i
            invariant
                j <= i < list.len(),
                all == strings(list@),
                forall|a: int| 0 <= a < j ==> all[a] != all[i as int],
            decreases i - j,
        {
            if list[j] == list[i] {
                assert(all[j as int] == all[i as int]);
                return false;
            }
            j = j + 1;
        }
        i = i + 1;
    }
    assert forall|a: int, b: int| 0 <= a < all.len() && 0 <= b < all.len() && a != b implies all[a] != all[b] by {
        if a < b {
            assert(all[a] != all[b]);
        } else {
            assert(all[b] != all[a]);
        }
    }
    true
}

/// The characters of `s`, in order.
pub fn to_chars(s: &str) -> (r: Vec<char>)
    ensures
        r@ == s@,
{
    broadcast use vstd::string::group_string_axioms;

    let mut r: Vec<char> = Vec::new();
    for c in it: s.chars()
        invariant
            it.seq() == s@,
            r@ == s@.take(it.index() as int),
    {
        r.push(c);
        assert(r@ =~= s@.take(it.index() + 1));
    }
    assert(s@.take(s@.len() as int) =~= s@);
    r
}

/// The string made of the characters of `v`, in order.
pub fn to_text(v: &Vec<char>) -> (r: String)
    ensures
        r@ == v@,
{
    let mut r = String::new();
    let mut i: usize = 0;
    while i < v.len()
        invariant
            i <= v.len(),
            r@ == v@.take(i as int),
        decreases v.len() - i,
    {
        push_char(&mut r, v[i]);
        i = i + 1;
        assert(r@ =~= v@.take(i as int));
    }
    assert(v@.take(v.len() as int) =~= v@);
    r
}

/// The lines of `s`, without their line endings.
pub fn split_lines(s: &str) -> (r: Vec<String>)
    ensures
        strings(r@) == text_lines(s@),
{
    let chars = to_chars(s);
    let mut r: Vec<String> = Vec::new();
    let mut cur: Vec<char> = Vec::new();
    let mut i: usize = 0;
    assert(chars@.take(0) =~= Seq::<char>::empty());
    assert(strings(r@) =~= Seq::new(0, |k: int| without_return(pieces(chars@.take(0), '\n')[k])));
    while i < chars.len()
        invariant
            i <= chars.len(),
            pieces(chars@.take(i as int), '\n').len() >= 1,
            cur@ == pieces(chars@.take(i as int), '\n').last(),
            strings(r@) == Seq::new(
                (pieces(chars@.take(i as int), '\n').len() - 1) as nat,
                |k: int| without_return(pieces(chars@.take(i as int), '\n')[k]),
            ),
        decreases chars.len() - i,
    {
        let c = chars[i];
        let ghost p = pieces(chars@.take(i as int), '\n');
        let ghost q = pieces(chars@.take(i + 1), '\n');
        let ghost done = strings(r@);
        proof {
            assert(chars@.take(i + 1).drop_last() =~= chars@.take(i as int));
            assert(chars@.take(i + 1).last() == c);
        }
        if c == '\n' {
            let n: usize = cur.len();
            if n > 0 && cur[n - 1] == '\r' {
                cur.pop();
            }
            assert(cur@ =~= without_return(p.last()));
            let line = to_text(&cur);
            r.push(line);
            cur = Vec::new();
            proof {
                assert(q == p.push(Seq::<char>::empty()));
                assert(strings(r@) =~= done.push(without_return(p.last())));
                assert(strings(r@) =~= Seq::new((q.len() - 1) as nat, |k: int| without_return(q[k])));
            }
        } else {
            cur.push(c);
            proof {
                assert(q == p.drop_last().push(p.last().push(c)));
                assert(strings(r@) =~= Seq::new((q.len() - 1) as nat, |k: int| without_return(q[k])));
            }
        }
        i = i + 1;
    }
    assert(chars@.take(chars.len() as int) =~= chars@);
    if cur.len() > 0 {
        let ghost done = strings(r@);
        let line = to_text(&cur);
        r.push(line);
        assert(strings(r@) =~= done.push(cur@));
        assert(strings(r@) =~= text_lines(s@));
    } else {
        assert(strings(r@) =~= text_lines(s@));
    }
    r
}

/// Appends the characters of `src` to `dst`.
pub fn append_chars(dst: &mut Vec<char>, src: &Vec<char>)
    ensures
        final(dst)@ == old(dst)@ + src@,
{
    let mut i: usize = 0;
    assert(dst@ =~= old(dst)@ + src@.take(0));
    while i < src.len()
        invariant
            i <= src.len(),
            dst@ == old(dst)@ + src@.take(i as int),
        decreases src.len() - i,
    {
        dst.push(src[i]);
        i = i + 1;
        assert(dst@ =~= old(dst)@ + src@.take(i as int));
    }
    assert(src@.take(src.len() as int) =~= src@);
}

/// Whether `from` stands in `s` at the place `at`.
pub fn occurs_at(s: &Vec<char>, from: &Vec<char>, at: usize) -> (r: bool)
    requires
        at + from.len() <= s.len(),
    ensures
        r == (s@.skip(at as int).take(from.len() as int) == from@),
{
    let ghost window = s@.skip(at as int).take(from.len() as int);
    let mut k: usize = 0;
    while k < from.len()
        invariant
            k <= from.len(),
            at + from.len() <= s.len(),
            window == s@.skip(at as int).take(from.len() as int),
            forall|j: int| 0 <= j < k ==> window[j] == from@[j],
        decreases from.len() - k,
    {
        assert(window[k as int] == s@[at + k]);
        if s[at + k] != from[k] {
            return false;
        }
        k = k + 1;
    }
    assert(window =~= from@);
    true
}

/// Exchanges every occurrence of `from` in `s` for `to`, on characters.
pub fn replace_chars(s: &Vec<char>, from: &Vec<char>, to: &Vec<char>) -> (r: Vec<char>)
    ensures
        r@ == replaced(s@, from@, to@),
{
    let mut r: Vec<char> = Vec::new();
    let mut i: usize = 0;
    assert(s@.skip(0) =~= s@);
    assert(r@ + replaced(s@, from@, to@) =~= replaced(s@, from@, to@));
    while i < s.len() && s.len() - i >= from.len()
        invariant
            i <= s.len(),
            replaced(s@, from@, to@) == r@ + replaced(s@.skip(i as int), from@, to@),
        decreases s.len() - i,
    {
        let ghost done = r@;
        let ghost tail = s@.skip(i as int);
        assert(tail[0] == s@[i as int]);
        if from.len() > 0 && occurs_at(s, from, i) {
            append_chars(&mut r, to);
            assert(tail.skip(from.len() as int) =~= s@.skip(i + from.len()));
            i = i + from.len();
            assert(done + (to@ + replaced(s@.skip(i as int), from@, to@)) =~= r@ + replaced(
                s@.skip(i as int),
                from@,
                to@,
            ));
        } else {
            if from.len() == 0 {
                append_chars(&mut r, to);
            }
            r.push(s[i]);
            assert(tail.skip(1) =~= s@.skip(i + 1));
            i = i + 1;
            if from.len() == 0 {
                assert(done + (to@ + seq![tail[0]] + replaced(s@.skip(i as int), from@, to@)) =~= r@
                    + replaced(s@.skip(i as int), from@, to@));
            } else {
                assert(done + (seq![tail[0]] + replaced(s@.skip(i as int), from@, to@)) =~= r@ + replaced(
                    s@.skip(i as int),
                    from@,
                    to@,
                ));
            }
        }
    }
    let ghost done = r@;
    if from.len() == 0 {
        append_chars(&mut r, to);
        assert(s@.skip(i as int).len() == 0);
    } else {
        let mut j: usize = i;
        while j < s.len()
            invariant
                i <= j <= s.len(),
                r@ == done + s@.subrange(i as int, j as int),
            decreases s.len() - j,
        {
            r.push(s[j]);
            j = j + 1;
            assert(r@ =~= done + s@.subrange(i as int, j as int));
        }
        assert(s@.subrange(i as int, s.len() as int) =~= s@.skip(i as int));
    }
    r
}

/// Exchanges every occurrence of `from` in `s` for `to`.
pub fn replace_text(s: &str, from: &str, to: &str) -> (r: String)
    ensures
        r@ == replaced(s@, from@, to@),
{
    let out = replace_chars(&to_chars(s), &to_chars(from), &to_chars(to));
    to_text(&out)
}

} // verus!
