//! What cutting, trimming, joining and writing numbers promise.

use vstd::prelude::*;

use crate::order;
use crate::text;
use crate::text::Class;

verus! {

/// Whether a text holds white space alone.
pub open spec fn is_blank(s: Seq<char>) -> bool {
    forall|i: int| 0 <= i < s.len() ==> text::white_space(#[trigger] s[i])
}

/// Whether a text holds no white space.
pub open spec fn is_word(s: Seq<char>) -> bool {
    s.len() > 0 && forall|i: int| 0 <= i < s.len() ==> !text::white_space(#[trigger] s[i])
}

/// Whether a text has no white space at its ends.
pub open spec fn is_trim(s: Seq<char>) -> bool {
    s.len() > 0 ==> !text::white_space(s[0]) && !text::white_space(s.last())
}

/// Trimming takes white space from both ends, all of it and nothing else.
pub proof fn law_trimming(front: Seq<char>, core: Seq<char>, back: Seq<char>)
    requires
        is_blank(front),
        is_blank(back),
        is_trim(core),
    ensures
        text::trimmed(front + core + back) == core,
{
    let s = front + core + back;
    if core.len() == 0 {
        assert(is_blank(s)) by {
            assert forall|i: int| 0 <= i < s.len() implies text::white_space(#[trigger] s[i]) by {
                if i < front.len() {
                    assert(s[i] == front[i]);
                } else {
                    assert(s[i] == back[i - front.len()]);
                }
            }
        }
        text::lemma_first_of_is(s, Class::Visible, s.len() as int);
        assert(text::trimmed(s) =~= core);
    } else {
        let n = front.len() as int;
        assert forall|k: int| 0 <= k < n implies !Class::Visible.has(#[trigger] s[k]) by {
            assert(s[k] == front[k]);
        }
        assert(s[n] == core[0]);
        text::lemma_first_of_is(s, Class::Visible, n);
        let t = s.skip(n);
        assert(t =~= core + back);
        assert forall|k: int| core.len() <= k < t.len() implies !Class::Visible.has(
            #[trigger] t[k],
        ) by {
            assert(t[k] == back[k - core.len()]);
        }
        assert(t[core.len() - 1] == core.last());
        text::lemma_after_last_of_is(t, Class::Visible, core.len() as int);
        assert(t.take(core.len() as int) =~= core);
    }
}

/// Every text is what trimming leaves of it, between white space.
pub proof fn law_trimmed_is_within(s: Seq<char>)
    ensures
        is_trim(text::trimmed(s)),
        exists|a: int, b: int| #![trigger s.take(a), s.skip(b)]
            0 <= a <= b <= s.len() && is_blank(s.take(a)) && is_blank(s.skip(b))
                && text::trimmed(s) == s.subrange(a, b),
{
    text::lemma_first_of(s, Class::Visible);
    let a = text::first_of(s, Class::Visible);
    let t = s.skip(a);
    text::lemma_after_last_of(t, Class::Visible);
    let n = text::after_last_of(t, Class::Visible);
    let b = a + n;
    assert(text::trimmed(s) =~= s.subrange(a, b));
    assert forall|i: int| 0 <= i < s.skip(b).len() implies text::white_space(
        #[trigger] s.skip(b)[i],
    ) by {
        assert(s.skip(b)[i] == t[n + i]);
    }
    assert forall|i: int| 0 <= i < s.take(a).len() implies text::white_space(
        #[trigger] s.take(a)[i],
    ) by {
        assert(!Class::Visible.has(s[i]));
    }
    assert(is_blank(s.take(a)) && is_blank(s.skip(b)));
    if n > 0 {
        assert(t[n - 1] == text::trimmed(s).last());
        assert(text::trimmed(s)[0] == s[a]);
    }
}

/// A text without white space at its ends is left alone.
pub proof fn lemma_trim(s: Seq<char>)
    requires
        is_trim(s),
    ensures
        text::trimmed(s) == s,
{
    law_trimming(seq![], s, seq![]);
    assert(Seq::<char>::empty() + s + Seq::<char>::empty() =~= s);
}

/// Trimming twice is trimming once.
pub proof fn law_trimming_twice(s: Seq<char>)
    ensures
        text::trimmed(text::trimmed(s)) == text::trimmed(s),
{
    law_trimmed_is_within(s);
    lemma_trim(text::trimmed(s));
}

/// A text is cut at the first of a character, which goes; a text without it is
/// not cut.
pub proof fn law_cutting(a: Seq<char>, c: char, b: Seq<char>)
    requires
        !a.contains(c),
    ensures
        text::cut_at(a + seq![c] + b, c) == Some((a, b)),
        text::cut_at(a, c) is None,
{
    let s = a + seq![c] + b;
    assert forall|k: int| 0 <= k < a.len() implies !Class::Is(c).has(#[trigger] s[k]) by {
        assert(a.contains(a[k]));
    }
    assert(s[a.len() as int] == c);
    text::lemma_first_of_is(s, Class::Is(c), a.len() as int);
    assert(s.take(a.len() as int) =~= a);
    assert(s.skip(a.len() + 1int) =~= b);
    assert forall|k: int| 0 <= k < a.len() implies !Class::Is(c).has(#[trigger] a[k]) by {
        assert(a.contains(a[k]));
    }
    text::lemma_first_of_is(a, Class::Is(c), a.len() as int);
}

/// A line ends with a line feed, or with a carriage return and a line feed,
/// and neither belongs to it. What stands behind the last one is a line too,
/// unless it is empty.
pub proof fn law_lines(line: Seq<char>, rest: Seq<char>)
    requires
        !line.contains('\n'),
    ensures
        line.len() == 0 || line.last() != '\r' ==> text::lines_of(line + seq!['\n'] + rest)
            == seq![line] + text::lines_of(rest),
        text::lines_of(line + seq!['\r', '\n'] + rest) == seq![line] + text::lines_of(rest),
        line.len() > 0 ==> text::lines_of(line) == seq![line],
        text::lines_of(seq![]) == Seq::<Seq<char>>::empty(),
{
    lemma_line(line, rest);
    let cr = line.push('\r');
    assert(!cr.contains('\n')) by {
        assert forall|i: int| 0 <= i < cr.len() implies cr[i] != '\n' by {
            if i < line.len() {
                assert(line.contains(line[i]));
            }
        }
    }
    lemma_line(cr, rest);
    assert(cr.drop_last() =~= line);
    assert(line + seq!['\r', '\n'] + rest =~= cr + seq!['\n'] + rest);
    assert forall|k: int| 0 <= k < line.len() implies !Class::Is('\n').has(#[trigger] line[k]) by {
        assert(line.contains(line[k]));
    }
    text::lemma_first_of_is(line, Class::Is('\n'), line.len() as int);
}

proof fn lemma_line(line: Seq<char>, rest: Seq<char>)
    requires
        !line.contains('\n'),
    ensures
        text::lines_of(line + seq!['\n'] + rest) == seq![text::without_cr(line)] + text::lines_of(
            rest,
        ),
{
    let s = line + seq!['\n'] + rest;
    assert forall|k: int| 0 <= k < line.len() implies !Class::Is('\n').has(#[trigger] s[k]) by {
        assert(line.contains(line[k]));
    }
    assert(s[line.len() as int] == '\n');
    text::lemma_first_of_is(s, Class::Is('\n'), line.len() as int);
    assert(s.take(line.len() as int) =~= line);
    assert(s.skip(line.len() + 1int) =~= rest);
}

/// Words are the runs between white space: the first begins where white space
/// ends, and reaches to the next.
pub proof fn law_words(front: Seq<char>, word: Seq<char>, rest: Seq<char>)
    requires
        is_blank(front),
        is_word(word),
        rest.len() > 0 ==> text::white_space(rest[0]),
    ensures
        text::words_of(front + word + rest) == seq![word] + text::words_of(rest),
        text::words_of(front) == Seq::<Seq<char>>::empty(),
{
    let s = front + word + rest;
    let n = front.len() as int;
    assert forall|k: int| 0 <= k < n implies !Class::Visible.has(#[trigger] s[k]) by {
        assert(s[k] == front[k]);
    }
    assert(s[n] == word[0]);
    text::lemma_first_of_is(s, Class::Visible, n);
    let t = s.skip(n);
    assert(t =~= word + rest);
    assert forall|k: int| 0 <= k < word.len() implies !Class::Space.has(#[trigger] t[k]) by {
        assert(t[k] == word[k]);
    }
    if rest.len() > 0 {
        assert(t[word.len() as int] == rest[0]);
    }
    text::lemma_first_of_is(t, Class::Space, word.len() as int);
    assert(t.take(word.len() as int) =~= word);
    assert(t.skip(word.len() as int) =~= rest);
    text::lemma_first_of_is(front, Class::Visible, front.len() as int);
}

/// Every word is a run without white space.
pub proof fn law_words_are_words(s: Seq<char>, i: int)
    requires
        0 <= i < text::words_of(s).len(),
    ensures
        is_word(text::words_of(s)[i]),
        text::includes(s, text::words_of(s)[i]),
    decreases s.len(),
{
    text::lemma_first_word(s);
    text::lemma_first_of(s, Class::Visible);
    let a = text::first_of(s, Class::Visible);
    let t = s.skip(a);
    text::lemma_first_of(t, Class::Space);
    let n = text::first_of(t, Class::Space);
    let word = t.take(n);
    let rest = t.skip(n);
    assert(text::words_of(s) == seq![word] + text::words_of(rest));
    if i == 0 {
        assert forall|k: int| 0 <= k < word.len() implies !text::white_space(#[trigger] word[k]) by {
            assert(!Class::Space.has(t[k]));
        }
        assert(s.subrange(a, a + word.len()) =~= word);
        assert(text::stands_at(s, word, a));
    } else {
        law_words_are_words(rest, i - 1);
        let w = text::words_of(rest)[i - 1];
        let k = choose|k: int| text::stands_at(rest, w, k);
        assert(s.subrange(a + n + k, a + n + k + w.len()) =~= rest.subrange(k, k + w.len()));
        assert(text::stands_at(s, w, a + n + k));
    }
}

/// A text stands in another wherever something stands before and behind it.
pub proof fn law_including(a: Seq<char>, p: Seq<char>, b: Seq<char>)
    ensures
        text::includes(a + p + b, p),
{
    let s = a + p + b;
    let n = a.len() as int;
    assert(s.subrange(n, n + p.len()) =~= p);
    assert(text::stands_at(s, p, n));
}

/// A text that stands in another has something before and behind it.
pub proof fn law_included(s: Seq<char>, p: Seq<char>)
    requires
        text::includes(s, p),
    ensures
        exists|a: Seq<char>, b: Seq<char>| #[trigger] (a + p + b) == s,
{
    let i = choose|i: int| text::stands_at(s, p, i);
    let a = s.take(i);
    let b = s.skip(i + p.len());
    assert(a + p + b =~= s);
}

/// A text is split at the first separator, and what follows is split on.
pub proof fn law_splitting(a: Seq<char>, sep: Seq<char>, b: Seq<char>)
    requires
        sep.len() > 0,
        !text::includes(a + sep.drop_last(), sep),
    ensures
        text::parts_of(a + sep + b, sep) == seq![a] + text::parts_of(b, sep),
        text::parts_of(a, sep) == seq![a],
{
    let s = a + sep + b;
    let n = a.len() as int;
    assert(s.subrange(n, n + sep.len()) =~= sep);
    let front = a + sep.drop_last();
    assert forall|k: int| 0 <= k < n implies !text::stands_at(s, sep, k) by {
        if text::stands_at(s, sep, k) {
            assert(front.subrange(k, k + sep.len()) =~= s.subrange(k, k + sep.len()));
            assert(text::stands_at(front, sep, k));
        }
    }
    text::lemma_first_place_is(s, sep, n);
    assert(s.take(n) =~= a);
    assert(s.skip(n + sep.len()) =~= b);
    text::lemma_first_place(a, sep);
    if text::first_place(a, sep) is Some {
        let k = text::first_place(a, sep)->0;
        assert(front.subrange(k, k + sep.len()) =~= a.subrange(k, k + sep.len()));
        assert(text::stands_at(front, sep, k));
    }
}

/// Parts are joined with the separator between them, and nowhere else.
pub proof fn law_joining(parts: Seq<Seq<char>>, last: Seq<char>, sep: Seq<char>)
    ensures
        text::joined(seq![], sep) == Seq::<char>::empty(),
        text::joined(seq![last], sep) == last,
        parts.len() > 0 ==> text::joined(parts.push(last), sep) == text::joined(parts, sep) + sep
            + last,
{
    assert(parts.push(last).drop_last() =~= parts);
}

/// What a run of decimal digits stands for.
pub open spec fn number_of(s: Seq<char>) -> int
    decreases s.len(),
{
    if s.len() == 0 {
        0
    } else {
        10 * number_of(s.drop_last()) + (s.last() as int - '0' as int)
    }
}

/// A number is written in decimal digits that stand for it, without a zero in
/// front.
pub proof fn law_decimal(n: nat)
    ensures
        number_of(text::decimal_of(n)) == n,
        text::decimal_of(n).len() > 0,
        forall|i: int|
            0 <= i < text::decimal_of(n).len() ==> '0' <= #[trigger] text::decimal_of(n)[i]
                && text::decimal_of(n)[i] <= '9',
        n > 0 ==> text::decimal_of(n)[0] != '0',
        n == 0 ==> text::decimal_of(n) == seq!['0'],
    decreases n,
{
    let s = text::decimal_of(n);
    if n < 10 {
        assert(s.drop_last() =~= seq![]);
        assert(number_of(s.drop_last()) == 0);
        if n == 0 {
            assert(s =~= seq!['0']);
        }
    } else {
        law_decimal(n / 10);
        let rest = text::decimal_of(n / 10);
        assert(s.drop_last() =~= rest);
        assert forall|i: int| 0 <= i < s.len() implies '0' <= #[trigger] s[i] && s[i] <= '9' by {
            if i < rest.len() {
                assert(s[i] == rest[i]);
            }
        }
        assert(s[0] == rest[0]);
    }
}

/// A count between two texts is written in decimal.
pub proof fn law_counting(front: Seq<char>, n: nat, back: Seq<char>)
    ensures
        text::counted(front, n, back) == front + text::decimal_of(n) + back,
{
}

/// Hexadecimal digits count from 0 to 15, in either case, and nothing else is
/// one.
pub proof fn law_hex_digit(c: char)
    ensures
        '0' <= c && c <= '9' ==> text::hex_digit(c) == Some((c as int - 48) as nat),
        'a' <= c && c <= 'f' ==> text::hex_digit(c) == Some((c as int - 87) as nat),
        'A' <= c && c <= 'F' ==> text::hex_digit(c) == Some((c as int - 55) as nat),
        !('0' <= c && c <= '9') && !('a' <= c && c <= 'f') && !('A' <= c && c <= 'F')
            ==> text::hex_digit(c) is None,
{
}

/// A hexadecimal number is worth sixteen times what stands before its last
/// digit, and that digit. It has a digit at least, and a plus sign in front
/// does not count.
pub proof fn law_hex_number(s: Seq<char>, c: char)
    ensures
        text::hex_number(seq![]) is None,
        c != '+' ==> text::hex_number(seq![c]) == text::hex_digit(c),
        text::hex_number(seq!['+']) is None,
        s.len() > 0 && s != seq!['+'] && text::hex_number(s) is Some && text::hex_digit(c) is Some
            ==> text::hex_number(s.push(c)) == Some(
            (16 * text::hex_number(s)->0 + text::hex_digit(c)->0) as nat,
        ),
        s.len() > 0 && (text::hex_number(s) is None && s != seq!['+'] || text::hex_digit(c) is None)
            ==> text::hex_number(s.push(c)) is None,
        s.len() > 0 && s[0] != '+' ==> text::hex_number(seq!['+'] + s) == text::hex_number(s),
{
    reveal_with_fuel(text::hex_digits, 2);
    assert(seq![c].drop_last() =~= seq![]);
    assert(text::hex_digits(seq![]) == Some(0nat));
    let t = s.push(c);
    if s.len() > 0 {
        if s[0] == '+' {
            assert(t.skip(1) =~= s.skip(1).push(c));
            assert(t.skip(1).drop_last() =~= s.skip(1));
            if s.len() == 1 {
                assert(s =~= seq!['+']);
            }
        } else {
            assert(t.drop_last() =~= s);
        }
        assert((seq!['+'] + s).skip(1) =~= s);
    }
}

/// Capital letters are those 32 places before the small ones.
pub proof fn law_upper(c: char)
    ensures
        'a' <= c && c <= 'z' ==> text::ascii_upper(c) as int == c as int - 32,
        !('a' <= c && c <= 'z') ==> text::ascii_upper(c) == c,
        text::ascii_upper('d') == 'D',
        text::ascii_upper(' ') == ' ',
{
}

/// What repeats in front of a text is taken away, however often it does.
pub proof fn law_without_leading(p: Seq<char>, s: Seq<char>)
    requires
        p.len() > 0,
    ensures
        text::without_leading(p + s, p) == text::without_leading(s, p),
        !p.is_prefix_of(s) ==> text::without_leading(s, p) == s,
{
    assert(p.is_prefix_of(p + s)) by {
        assert((p + s).subrange(0, p.len() as int) =~= p);
    }
    assert((p + s).skip(p.len() as int) =~= s);
}

/// Texts are ordered by the first byte in which they differ; a text comes
/// before every longer one that begins with it.
pub proof fn law_order(p: Seq<u8>, x: u8, s: Seq<u8>, y: u8, t: Seq<u8>)
    ensures
        x != y ==> order::bytes_before(p + seq![x] + s, p + seq![y] + t) == (x < y),
        order::bytes_before(p, p + seq![y] + t),
        !order::bytes_before(p + seq![x] + s, p),
        !order::bytes_before(p, p),
    decreases p.len(),
{
    let a = p + seq![x] + s;
    let b = p + seq![y] + t;
    if p.len() == 0 {
        assert(a[0] == x && b[0] == y);
    } else {
        let q = p.drop_first();
        law_order(q, x, s, y, t);
        assert(a[0] == p[0] && b[0] == p[0]);
        assert(a.drop_first() =~= q + seq![x] + s);
        assert(b.drop_first() =~= q + seq![y] + t);
    }
}

/// The order of strings is that of their bytes.
pub proof fn law_string_order(a: Seq<char>, b: Seq<char>)
    ensures
        order::before(a, b) == order::bytes_before(
            vstd::utf8::encode_utf8(a),
            vstd::utf8::encode_utf8(b),
        ),
{
}

} // verus!
