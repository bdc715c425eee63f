//! What reading JSON promises.

use vstd::prelude::*;

use crate::json;
use crate::laws::text as text_laws;
use crate::text;
use crate::text::Class;

verus! {

/// How many more braces a text opens than it closes.
pub open spec fn balance(s: Seq<char>) -> int
    decreases s.len(),
{
    if s.len() == 0 {
        0
    } else {
        balance(s.drop_last()) + (if s.last() == '{' {
            1int
        } else if s.last() == '}' {
            -1
        } else {
            0
        })
    }
}

/// Whether every brace that a text closes was opened in it, and all are
/// closed.
pub open spec fn is_balanced(s: Seq<char>) -> bool {
    &&& balance(s) == 0
    &&& forall|i: int| 0 <= i <= s.len() ==> balance(#[trigger] s.take(i)) >= 0
}

proof fn lemma_balance_first(s: Seq<char>)
    requires
        s.len() > 0,
    ensures
        balance(s) == balance(s.take(1)) + balance(s.drop_first()),
    decreases s.len(),
{
    if s.len() == 1 {
        assert(s.take(1) =~= s);
        assert(s.drop_first() =~= seq![]);
        assert(balance(s.drop_first()) == 0);
    } else {
        lemma_balance_first(s.drop_last());
        assert(s.drop_last().take(1) =~= s.take(1));
        assert(s.drop_last().drop_first() =~= s.drop_first().drop_last());
    }
}

/// Behind a text that keeps the depth above zero, the closing brace is found
/// where the depth reaches it.
proof fn lemma_closing(s: Seq<char>, depth: int, rest: Seq<char>)
    requires
        depth >= 1,
        depth + balance(s) == 1,
        forall|i: int| 0 <= i <= s.len() ==> depth + balance(#[trigger] s.take(i)) >= 1,
    ensures
        json::closing(s + seq!['}'] + rest, depth) == Some(s.len() + 1int),
    decreases s.len(),
{
    let all = s + seq!['}'] + rest;
    if s.len() == 0 {
        assert(all[0] == '}');
    } else {
        let t = s.drop_first();
        lemma_balance_first(s);
        let first = s.take(1);
        assert(first.drop_last() =~= seq![]);
        assert(balance(first.drop_last()) == 0);
        assert(first.last() == s[0]);
        let inner = depth + balance(first);
        assert forall|i: int| 0 <= i <= t.len() implies inner + balance(#[trigger] t.take(i))
            >= 1 by {
            let u = s.take(i + 1);
            lemma_balance_first(u);
            assert(u.take(1) =~= first);
            assert(u.drop_first() =~= t.take(i));
        }
        lemma_closing(t, inner, rest);
        assert(all[0] == s[0]);
        assert(all.drop_first() =~= t + seq!['}'] + rest);
        assert(depth + balance(s.take(1)) >= 1);
    }
}

/// The first of the results is the text from its opening brace to the brace
/// that closes it, however deep braces nest in between.
pub proof fn law_first_result(
    front: Seq<char>,
    gap: Seq<char>,
    inside: Seq<char>,
    rest: Seq<char>,
)
    requires
        !text::includes(front + "\"results\":["@.drop_last(), "\"results\":["@),
        text_laws::is_blank(gap),
        is_balanced(inside),
    ensures
        json::well_braced(
            front + "\"results\":["@ + (gap + seq!['{'] + inside + seq!['}'] + rest),
        ),
        json::first_object(
            front + "\"results\":["@ + (gap + seq!['{'] + inside + seq!['}'] + rest),
        ) == Some(seq!['{'] + inside + seq!['}']),
{
    let pat = "\"results\":["@;
    reveal_strlit("\"results\":[");
    let results = gap + seq!['{'] + inside + seq!['}'] + rest;
    lemma_behind(front, pat, results);
    let n = gap.len() as int;
    assert forall|k: int| 0 <= k < n implies text::white_space(#[trigger] results[k]) by {
        assert(results[k] == gap[k]);
    }
    assert(results[n] == '{');
    text::lemma_first_of_is(results, Class::Visible, n);
    assert(results.skip(n)[0] == '{');
    text::lemma_first_of_is(results, Class::Is('{'), n);
    text::lemma_first_of(results, Class::Is('}'));
    let close = text::first_of(results, Class::Is('}'));
    assert(close >= n) by {
        if close < n {
            assert(text::white_space(results[close]));
        }
    }
    let s = results.skip(n);
    let object = seq!['{'] + inside;
    assert(s =~= object + seq!['}'] + rest);
    assert(s.drop_first() =~= inside + seq!['}'] + rest);
    assert forall|i: int| 0 <= i <= inside.len() implies 1 + balance(#[trigger] inside.take(i))
        >= 1 by {}
    lemma_closing(inside, 1, rest);
    assert(json::closing(s, 0) == Some(inside.len() + 2int));
    assert(results.subrange(n, n + inside.len() + 2) =~= seq!['{'] + inside + seq!['}']);
}

/// What follows a pattern that stands for the first time.
proof fn lemma_behind(front: Seq<char>, pat: Seq<char>, rest: Seq<char>)
    requires
        pat.len() > 0,
        !text::includes(front + pat.drop_last(), pat),
    ensures
        text::first_place(front + pat + rest, pat) == Some(front.len() as int),
        (front + pat + rest).skip(front.len() as int + pat.len()) == rest,
{
    let s = front + pat + rest;
    let n = front.len() as int;
    assert(s.subrange(n, n + pat.len()) =~= pat);
    let head = front + pat.drop_last();
    assert forall|k: int| 0 <= k < n implies !text::stands_at(s, pat, k) by {
        if text::stands_at(s, pat, k) {
            assert(head.subrange(k, k + pat.len()) =~= s.subrange(k, k + pat.len()));
            assert(text::stands_at(head, pat, k));
        }
    }
    text::lemma_first_place_is(s, pat, n);
    assert(s.skip(front.len() as int + pat.len()) =~= rest);
}

/// An empty list of results, or none at all, has no first one.
pub proof fn law_no_result(front: Seq<char>, gap: Seq<char>, rest: Seq<char>, other: Seq<char>)
    requires
        !text::includes(front + "\"results\":["@.drop_last(), "\"results\":["@),
        text_laws::is_blank(gap),
        !text::includes(other, "\"results\":["@),
    ensures
        json::first_object(front + "\"results\":["@ + (gap + seq![']'] + rest)) is None,
        json::first_object(other) is None,
{
    let pat = "\"results\":["@;
    reveal_strlit("\"results\":[");
    let results = gap + seq![']'] + rest;
    lemma_behind(front, pat, results);
    let n = gap.len() as int;
    assert forall|k: int| 0 <= k < n implies text::white_space(#[trigger] results[k]) by {
        assert(results[k] == gap[k]);
    }
    assert(results[n] == ']');
    text::lemma_first_of_is(results, Class::Visible, n);
    assert(results.skip(n)[0] == ']');
    text::lemma_first_place(other, pat);
}

/// A string reaches to its closing quote. A backslash and `n` stand for a line
/// feed, a backslash and `u` with four digits for the character of that code
/// point, a backslash and anything else for that character itself.
pub proof fn law_strings(c: char, hex: Seq<char>, rest: Seq<char>)
    requires
        hex.len() == 4,
    ensures
        json::unquoted(seq![]) is None,
        json::unquoted(seq!['"'] + rest) == Some(Seq::<char>::empty()),
        json::unquoted(seq!['\\']) is None,
        c != '"' && c != '\\' ==> json::unquoted(seq![c] + rest) == prefixed(
            seq![c],
            json::unquoted(rest),
        ),
        json::unquoted(seq!['\\', 'n'] + rest) == prefixed(seq!['\n'], json::unquoted(rest)),
        c != 'u' && c != 'n' ==> json::unquoted(seq!['\\', c] + rest) == prefixed(
            seq![c],
            json::unquoted(rest),
        ),
        json::unquoted(seq!['\\', 'u'] + hex + rest) == prefixed(
            code_point(hex),
            json::unquoted(rest),
        ),
{
    let a = seq!['"'] + rest;
    assert(a[0] == '"');
    let b = seq![c] + rest;
    assert(b.skip(1) =~= rest);
    assert(b[0] == c);
    let d = seq!['\\', 'n'] + rest;
    assert(d.skip(2) =~= rest);
    assert(d[0] == '\\' && d[1] == 'n');
    let e = seq!['\\', c] + rest;
    assert(e.skip(2) =~= rest);
    assert(e[0] == '\\' && e[1] == c);
    let f = seq!['\\', 'u'] + hex + rest;
    assert(f[0] == '\\' && f[1] == 'u');
    assert(f.subrange(2, 6) =~= hex);
    assert(f.skip(6) =~= rest);
    lemma_escape_len(f);
}

/// An escape that is cut short takes all that is left, so that the string is
/// not closed.
pub proof fn law_short_escapes(hex: Seq<char>, cur: Seq<char>)
    requires
        hex.len() < 4,
    ensures
        json::unquoted(seq!['\\', 'u'] + hex) is None,
        json::strings_in(seq!['\\', 'u'] + hex, true, cur).len() == 0,
{
    let s = seq!['\\', 'u'] + hex;
    assert(s[0] == '\\' && s[1] == 'u');
    assert(s.skip(2) =~= hex);
    let end = s.skip(2 + json::escape_len(s.skip(2)));
    assert(end.len() == 0);
    assert(json::unquoted(end) is None);
    assert(json::strings_in(end, true, cur + json::code_char(hex)).len() == 0);
    assert(s.subrange(2, s.len() as int) =~= hex);
}

proof fn lemma_escape_len(f: Seq<char>)
    requires
        f.len() >= 6,
    ensures
        json::escape_len(f.skip(2)) == 4,
{
}

/// Characters in front of what follows, if that is there.
pub open spec fn prefixed(head: Seq<char>, rest: Option<Seq<char>>) -> Option<Seq<char>> {
    match rest {
        Some(t) => Some(head + t),
        None => None,
    }
}

/// The character of a code point written in hexadecimal; none where there is
/// no such character.
pub open spec fn code_point(hex: Seq<char>) -> Seq<char> {
    match text::hex_number(hex) {
        Some(n) => if 0xd800 <= n <= 0xdfff || n > 0x10ffff {
            seq![]
        } else {
            seq![n as char]
        },
        None => seq![],
    }
}

/// The string under a key follows the key, a colon and a quote.
pub proof fn law_string_under(front: Seq<char>, key: Seq<char>, rest: Seq<char>, other: Seq<char>)
    requires
        !text::includes(
            front + (seq!['"'] + key + seq!['"', ':', '"']).drop_last(),
            seq!['"'] + key + seq!['"', ':', '"'],
        ),
        !text::includes(other, seq!['"'] + key + seq!['"', ':', '"']),
    ensures
        json::string_under(front + (seq!['"'] + key + seq!['"', ':', '"']) + rest, key)
            == json::unquoted(rest),
        json::string_under(other, key) is None,
{
    let pat = seq!['"'] + key + seq!['"', ':', '"'];
    reveal_strlit("\"");
    reveal_strlit("\":");
    assert(json::key_pattern(key, "\""@) =~= pat);
    lemma_behind(front, pat, rest);
    text::lemma_first_place(other, pat);
}

/// The array under a key follows the key, a colon and a bracket, and reaches
/// to the next closing bracket.
pub proof fn law_array_under(
    front: Seq<char>,
    key: Seq<char>,
    inside: Seq<char>,
    rest: Seq<char>,
    other: Seq<char>,
)
    requires
        !text::includes(
            front + (seq!['"'] + key + seq!['"', ':', '[']).drop_last(),
            seq!['"'] + key + seq!['"', ':', '['],
        ),
        !inside.contains(']'),
        !text::includes(other, seq!['"'] + key + seq!['"', ':', '[']),
    ensures
        json::array_under(
            front + (seq!['"'] + key + seq!['"', ':', '[']) + (inside + seq![']'] + rest),
            key,
        ) == json::strings_in(inside, false, seq![]),
        json::array_under(front + (seq!['"'] + key + seq!['"', ':', '[']) + inside, key).len() == 0,
        json::array_under(other, key).len() == 0,
{
    let pat = seq!['"'] + key + seq!['"', ':', '['];
    reveal_strlit("\"");
    reveal_strlit("\":");
    reveal_strlit("[");
    assert(json::key_pattern(key, "["@) =~= pat);
    let all = inside + seq![']'] + rest;
    lemma_behind(front, pat, all);
    lemma_behind(front, pat, inside);
    text::lemma_first_place(other, pat);
    assert forall|k: int| 0 <= k < inside.len() implies !Class::Is(']').has(#[trigger] all[k]) by {
        assert(all[k] == inside[k]);
        assert(inside.contains(inside[k]));
    }
    assert(all[inside.len() as int] == ']');
    text::lemma_first_of_is(all, Class::Is(']'), inside.len() as int);
    assert(all.take(inside.len() as int) =~= inside);
    assert forall|k: int| 0 <= k < inside.len() implies !Class::Is(']').has(
        #[trigger] inside[k],
    ) by {
        assert(inside.contains(inside[k]));
    }
    text::lemma_first_of_is(inside, Class::Is(']'), inside.len() as int);
}

/// The strings of an array stand between quotes, with the same escapes as
/// elsewhere but for the line feed; what stands between them says nothing.
pub proof fn law_strings_in(c: char, cur: Seq<char>, hex: Seq<char>, rest: Seq<char>)
    requires
        hex.len() == 4,
    ensures
        json::strings_in(seq![], true, cur).len() == 0,
        json::strings_in(seq![], false, cur).len() == 0,
        json::strings_in(seq!['"'] + rest, true, cur) == seq![cur] + json::strings_in(
            rest,
            false,
            seq![],
        ),
        json::strings_in(seq!['"'] + rest, false, cur) == json::strings_in(rest, true, cur),
        c != '"' ==> json::strings_in(seq![c] + rest, false, cur) == json::strings_in(
            rest,
            false,
            cur,
        ),
        c != '"' && c != '\\' ==> json::strings_in(seq![c] + rest, true, cur) == json::strings_in(
            rest,
            true,
            cur.push(c),
        ),
        c != 'u' ==> json::strings_in(seq!['\\', c] + rest, true, cur) == json::strings_in(
            rest,
            true,
            cur.push(c),
        ),
        json::strings_in(seq!['\\', 'u'] + hex + rest, true, cur) == json::strings_in(
            rest,
            true,
            cur + code_point(hex),
        ),
{
    let a = seq!['"'] + rest;
    assert(a[0] == '"');
    assert(a.skip(1) =~= rest);
    let b = seq![c] + rest;
    assert(b.skip(1) =~= rest);
    assert(b[0] == c);
    let e = seq!['\\', c] + rest;
    assert(e.skip(2) =~= rest);
    assert(e[0] == '\\' && e[1] == c);
    let f = seq!['\\', 'u'] + hex + rest;
    assert(f[0] == '\\' && f[1] == 'u');
    assert(f.subrange(2, 6) =~= hex);
    assert(f.skip(6) =~= rest);
    lemma_escape_len(f);
}

/// An array of plain strings is read as those strings, in their order.
pub proof fn law_plain_strings_in(list: Seq<Seq<char>>, between: Seq<char>)
    requires
        !between.contains('"'),
        forall|i: int|
            0 <= i < list.len() ==> !(#[trigger] list[i]).contains('"') && !list[i].contains('\\'),
    ensures
        json::strings_in(quoted(list, between), false, seq![]) == list,
    decreases list.len(),
{
    if list.len() > 0 {
        let rest = list.drop_first();
        assert forall|i: int| 0 <= i < rest.len() implies !(#[trigger] rest[i]).contains('"')
            && !rest[i].contains('\\') by {
            assert(rest[i] == list[i + 1]);
        }
        law_plain_strings_in(rest, between);
        let tail = quoted(rest, between);
        let first = list[0];
        let more = between + tail;
        let behind = seq!['"'] + more;
        let body = first + behind;
        law_strings_in('"', seq![], seq!['0', '0', '0', '0'], body);
        lemma_plain_inside(first, seq![], behind);
        assert(Seq::<char>::empty() + first =~= first);
        law_strings_in('"', first, seq!['0', '0', '0', '0'], more);
        lemma_plain_between(between, tail);
        assert(quoted(list, between) =~= seq!['"'] + body);
        assert(seq![first] + rest =~= list);
    } else {
        assert(list =~= seq![]);
    }
}

/// Strings in quotes, each followed by the same text.
pub open spec fn quoted(list: Seq<Seq<char>>, between: Seq<char>) -> Seq<char>
    decreases list.len(),
{
    if list.len() == 0 {
        seq![]
    } else {
        seq!['"'] + list[0] + seq!['"'] + between + quoted(list.drop_first(), between)
    }
}

proof fn lemma_plain_inside(s: Seq<char>, cur: Seq<char>, rest: Seq<char>)
    requires
        !s.contains('"'),
        !s.contains('\\'),
    ensures
        json::strings_in(s + rest, true, cur) == json::strings_in(rest, true, cur + s),
    decreases s.len(),
{
    if s.len() == 0 {
        assert(s + rest =~= rest);
        assert(cur + s =~= cur);
    } else {
        let t = s.drop_first();
        assert(s.contains(s[0]));
        assert forall|c: char| t.contains(c) implies s.contains(c) by {
            let i = choose|i: int| 0 <= i < t.len() && t[i] == c;
            assert(s[i + 1] == c);
        }
        law_strings_in(s[0], cur, seq!['0', '0', '0', '0'], t + rest);
        assert(seq![s[0]] + (t + rest) =~= s + rest);
        lemma_plain_inside(t, cur.push(s[0]), rest);
        assert(cur.push(s[0]) + t =~= cur + s);
    }
}

proof fn lemma_plain_between(s: Seq<char>, rest: Seq<char>)
    requires
        !s.contains('"'),
    ensures
        json::strings_in(s + rest, false, seq![]) == json::strings_in(rest, false, seq![]),
    decreases s.len(),
{
    if s.len() == 0 {
        assert(s + rest =~= rest);
    } else {
        let t = s.drop_first();
        assert(s.contains(s[0]));
        assert forall|c: char| t.contains(c) implies s.contains(c) by {
            let i = choose|i: int| 0 <= i < t.len() && t[i] == c;
            assert(s[i + 1] == c);
        }
        law_strings_in(s[0], seq![], seq!['0', '0', '0', '0'], t + rest);
        assert(seq![s[0]] + (t + rest) =~= s + rest);
        lemma_plain_between(t, rest);
    }
}

} // verus!
