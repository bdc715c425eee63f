//! Tiny JSON reader.
//!
//! Only a handful of fields are needed from the AUR RPC, so this pulls out
//! that much and no more. Not a full parser, and does not need to be one.

use vstd::prelude::*;
use vstd::slice::slice_subrange;

use crate::text;
use crate::text::Class;

verus! {

// ---------------------------------------------------------------------------
// The first object of the results
// ---------------------------------------------------------------------------

/// What follows the opening bracket of the results.
pub open spec fn results_of(body: Seq<char>) -> Option<Seq<char>> {
    match text::first_place(body, "\"results\":["@) {
        Some(i) => Some(body.skip(i + "\"results\":["@.len())),
        None => None,
    }
}

/// Whether the results end before they begin.
pub open spec fn no_results(results: Seq<char>) -> bool {
    let t = text::from_first(results, Class::Visible);
    t.len() > 0 && t[0] == ']'
}

/// The place just after the brace that closes the last of `depth` open ones.
pub open spec fn closing(s: Seq<char>, depth: int) -> Option<int>
    decreases s.len(),
{
    if s.len() == 0 {
        None
    } else if s[0] == '}' && depth == 1 {
        Some(1)
    } else {
        let inner = if s[0] == '{' {
            depth + 1
        } else if s[0] == '}' {
            depth - 1
        } else {
            depth
        };
        match closing(s.drop_first(), inner) {
            Some(n) => Some(n + 1),
            None => None,
        }
    }
}

/// The first object of a text: from its first opening brace to the brace that
/// closes it.
pub open spec fn object_in(s: Seq<char>) -> Option<Seq<char>> {
    let from = text::first_of(s, Class::Is('{'));
    match closing(s.skip(from), 0) {
        Some(n) => Some(s.subrange(from, from + n)),
        None => None,
    }
}

/// The first of the results, when there is one.
pub open spec fn first_object(body: Seq<char>) -> Option<Seq<char>> {
    match results_of(body) {
        Some(results) => if no_results(results) {
            None
        } else {
            object_in(results)
        },
        None => None,
    }
}

/// Whether no result is closed before one was opened.
pub open spec fn well_braced(body: Seq<char>) -> bool {
    results_of(body) matches Some(results) ==> no_results(results) || text::first_of(
        results,
        Class::Is('{'),
    ) <= text::first_of(results, Class::Is('}'))
}

/// What follows the opening bracket of the results.
fn results<'a>(body: &'a [char]) -> (r: Option<&'a [char]>)
    ensures
        match r {
            Some(s) => results_of(body@) == Some(s@),
            None => results_of(body@) is None,
        },
{
    let pat = text::chars_of("\"results\":[");
    let n = pat.len();
    match text::search(body, pat.as_slice()) {
        Some(i) => {
            let len = body.len();
            assert(i + n <= len);
            Some(text::tail(body, i + n))
        },
        None => None,
    }
}

/// Whether the results end before they begin.
fn is_without_results(s: &[char]) -> (r: bool)
    ensures
        r == no_results(s@),
{
    let t = text::trim_start(s, Class::Visible);
    t.len() > 0 && t[0] == ']'
}

/// Whether no result is closed before one was opened.
pub fn is_well_braced(body: &str) -> (r: bool)
    ensures
        r == well_braced(body@),
{
    let chars = text::chars_of(body);
    match results(chars.as_slice()) {
        Some(rest) => {
            is_without_results(rest) || text::find(rest, Class::Is('{')) <= text::find(
                rest,
                Class::Is('}'),
            )
        },
        None => true,
    }
}

/// Takes the first object by counting braces (a single record in the array).
pub fn json_first_result(body: &str) -> (r: Option<String>)
    requires
        well_braced(body@),
    ensures
        match r {
            Some(obj) => first_object(body@) == Some(obj@),
            None => first_object(body@) is None,
        },
{
    let chars = text::chars_of(body);
    let rest = match results(chars.as_slice()) {
        Some(rest) => rest,
        None => {
            return None;
        },
    };
    if is_without_results(rest) {
        return None;
    }
    let from = text::find(rest, Class::Is('{'));
    let s = text::tail(rest, from);
    let n = s.len();
    let mut depth: usize = 0;
    let mut i: usize = 0;
    assert(s@.skip(0) =~= s@);
    proof {
        text::lemma_first_of(rest@, Class::Is('{'));
        text::lemma_first_of(rest@, Class::Is('}'));
    }
    while i < n
        invariant
            n == s@.len(),
            i <= n,
            from <= rest@.len(),
            s@ == rest@.skip(from as int),
            from == text::first_of(rest@, Class::Is('{')),
            first_object(body@) == object_in(rest@),
            depth <= i,
            depth == 0 ==> i == 0,
            s@.len() > 0 ==> s@[0] == '{',
            match closing(s@.skip(i as int), depth as int) {
                Some(k) => closing(s@, 0) == Some(i + k),
                None => closing(s@, 0) is None,
            },
        decreases n - i,
    {
        let c = s[i];
        assert(s@.skip(i as int).drop_first() =~= s@.skip(i + 1));
        if c == '{' {
            depth += 1;
        } else if c == '}' {
            if depth == 1 {
                assert(closing(s@, 0) == Some(i + 1));
                assert(s@.take(i + 1) =~= rest@.subrange(from as int, from + i + 1));
                return Some(text::string_of(text::head(s, i + 1)));
            }
            depth -= 1;
        }
        i += 1;
    }
    None
}

// ---------------------------------------------------------------------------
// Strings
// ---------------------------------------------------------------------------

/// How many of the four digits of an escape are there.
pub open spec fn escape_len(s: Seq<char>) -> int {
    if s.len() < 4 {
        s.len() as int
    } else {
        4
    }
}

/// What a `\u` escape stands for: the character with the code point that the
/// digits give, or nothing when they give none.
pub open spec fn code_char(digits: Seq<char>) -> Seq<char> {
    match text::hex_number(digits) {
        Some(n) => if n < 0xd800 || 0xe000 <= n <= 0x10ffff {
            seq![n as char]
        } else {
            seq![]
        },
        None => seq![],
    }
}

/// The characters of a string up to its closing quote, with the escapes
/// resolved; `None` when it is not closed.
pub open spec fn unquoted(s: Seq<char>) -> Option<Seq<char>>
    decreases s.len(),
{
    if s.len() == 0 {
        None
    } else if s[0] == '"' {
        Some(seq![])
    } else if s[0] != '\\' {
        prefixed(seq![s[0]], unquoted(s.skip(1)))
    } else if s.len() == 1 {
        None
    } else if s[1] == 'u' {
        let n = escape_len(s.skip(2));
        prefixed(code_char(s.subrange(2, 2 + n)), unquoted(s.skip(2 + n)))
    } else if s[1] == 'n' {
        prefixed(seq!['\n'], unquoted(s.skip(2)))
    } else {
        prefixed(seq![s[1]], unquoted(s.skip(2)))
    }
}

/// Characters in front of the rest of a string.
pub open spec fn prefixed(head: Seq<char>, rest: Option<Seq<char>>) -> Option<Seq<char>> {
    match rest {
        Some(t) => Some(head + t),
        None => None,
    }
}

/// A text without quotes and backslashes is read as it stands, up to the
/// closing quote.
pub proof fn law_plain_text_is_read(s: Seq<char>, rest: Seq<char>)
    requires
        !s.contains('"'),
        !s.contains('\\'),
    ensures
        unquoted(s + seq!['"'] + rest) == Some(s),
    decreases s.len(),
{
    let all = s + seq!['"'] + rest;
    if s.len() > 0 {
        let t = s.skip(1);
        assert(s.contains(s[0]));
        assert forall|c: char| t.contains(c) implies s.contains(c) by {
            let i = choose|i: int| 0 <= i < t.len() && t[i] == c;
            assert(s[i + 1] == c);
        }
        law_plain_text_is_read(t, rest);
        assert(all.skip(1) =~= t + seq!['"'] + rest);
        assert(seq![s[0]] + t =~= s);
    } else {
        assert(all[0] == '"');
        assert(s =~= seq![]);
    }
}

/// What introduces a key whose value begins with the given bracket or quote.
pub open spec fn key_pattern(key: Seq<char>, opening: Seq<char>) -> Seq<char> {
    "\""@ + key + "\":"@ + opening
}

/// What follows a key and the beginning of its value.
pub open spec fn after_key(obj: Seq<char>, key: Seq<char>, opening: Seq<char>) -> Option<Seq<char>> {
    let pat = key_pattern(key, opening);
    match text::first_place(obj, pat) {
        Some(i) => Some(obj.skip(i + pat.len())),
        None => None,
    }
}

/// The string under a key of an object.
pub open spec fn string_under(obj: Seq<char>, key: Seq<char>) -> Option<Seq<char>> {
    match after_key(obj, key, "\""@) {
        Some(rest) => unquoted(rest),
        None => None,
    }
}

/// What follows a key and the beginning of its value.
fn skip_key<'a>(obj: &'a [char], key: &str, opening: &str) -> (r: Option<&'a [char]>)
    ensures
        match r {
            Some(s) => after_key(obj@, key@, opening@) == Some(s@),
            None => after_key(obj@, key@, opening@) is None,
        },
{
    let mut pattern: String = text::concat3("\"", key, "\":");
    pattern.append(opening);
    let pat = text::chars_of(pattern.as_str());
    let n = pat.len();
    match text::search(obj, pat.as_slice()) {
        Some(i) => {
            let len = obj.len();
            assert(i + n <= len);
            Some(text::tail(obj, i + n))
        },
        None => None,
    }
}

/// Reads the character of a `\u` escape.
fn decode(digits: &[char]) -> (r: Option<char>)
    requires
        digits@.len() <= 4,
    ensures
        match r {
            Some(c) => code_char(digits@) == seq![c],
            None => code_char(digits@) == Seq::<char>::empty(),
        },
{
    match text::parse_hex(digits) {
        Some(v) => {
            let c = char::from_u32(v);
            proof {
                if let Some(x) = c {
                    vstd::utf8::char_u32_cast(x, v);
                }
            }
            c
        },
        None => None,
    }
}

/// Reads the string under a key of an object.
#[verifier::rlimit(60)]
pub fn json_str(obj: &str, key: &str) -> (r: Option<String>)
    ensures
        match r {
            Some(s) => string_under(obj@, key@) == Some(s@),
            None => string_under(obj@, key@) is None,
        },
{
    let chars = text::chars_of(obj);
    let rest = match skip_key(chars.as_slice(), key, "\"") {
        Some(rest) => rest,
        None => {
            return None;
        },
    };
    let n = rest.len();
    let mut out: String = String::new();
    let mut i: usize = 0;
    assert(rest@.skip(0) =~= rest@);
    proof {
        if let Some(t) = unquoted(rest@) {
            assert(Seq::<char>::empty() + t =~= t);
        }
    }
    while i < n
        invariant
            n == rest@.len(),
            i <= n,
            string_under(obj@, key@) == unquoted(rest@),
            unquoted(rest@) == prefixed(out@, unquoted(rest@.skip(i as int))),
        decreases n - i,
    {
        let ghost left = rest@.skip(i as int);
        let ghost was = out@;
        let c = rest[i];
        if c == '"' {
            assert(out@ + Seq::<char>::empty() =~= out@);
            return Some(out);
        } else if c != '\\' {
            out.push(c);
            proof {
                assert(left.skip(1) =~= rest@.skip(i + 1));
                lemma_prefixed(was, seq![c], unquoted(rest@.skip(i + 1)));
                assert(out@ =~= was + seq![c]);
            }
            i += 1;
        } else if i + 1 == n {
            return None;
        } else if rest[i + 1] == 'u' {
            let m: usize = if n - (i + 2) < 4 {
                n - (i + 2)
            } else {
                4
            };
            let digits = slice_subrange(rest, i + 2, i + 2 + m);
            proof {
                assert(left.skip(2).len() == n - (i + 2));
                assert(left.subrange(2, 2 + m) =~= digits@);
                assert(left.skip(2 + m) =~= rest@.skip(i + 2 + m));
                lemma_prefixed(was, code_char(digits@), unquoted(rest@.skip(i + 2 + m)));
            }
            match decode(digits) {
                Some(ch) => {
                    out.push(ch);
                    assert(out@ =~= was + seq![ch]);
                },
                None => {
                    assert(was + Seq::<char>::empty() =~= was);
                },
            }
            i += 2 + m;
        } else {
            let e = rest[i + 1];
            let ch = if e == 'n' {
                '\n'
            } else {
                e
            };
            out.push(ch);
            proof {
                assert(left.skip(2) =~= rest@.skip(i + 2));
                lemma_prefixed(was, seq![ch], unquoted(rest@.skip(i + 2)));
                assert(out@ =~= was + seq![ch]);
            }
            i += 2;
        }
    }
    assert(rest@.skip(n as int).len() == 0);
    None
}

/// Putting two heads in front one after the other puts their sum in front.
proof fn lemma_prefixed(a: Seq<char>, b: Seq<char>, rest: Option<Seq<char>>)
    ensures
        prefixed(a, prefixed(b, rest)) == prefixed(a + b, rest),
{
    if let Some(t) = rest {
        assert(a + (b + t) =~= (a + b) + t);
    }
}

// ---------------------------------------------------------------------------
// Arrays of strings
// ---------------------------------------------------------------------------

/// The strings that end within a text, with the escapes resolved. `cur` holds
/// the beginning of a string when `inside` says that one is open.
pub open spec fn strings_in(s: Seq<char>, inside: bool, cur: Seq<char>) -> Seq<Seq<char>>
    decreases s.len(),
{
    if s.len() == 0 {
        seq![]
    } else if s[0] == '"' {
        if inside {
            seq![cur] + strings_in(s.skip(1), false, seq![])
        } else {
            strings_in(s.skip(1), true, cur)
        }
    } else if !inside {
        strings_in(s.skip(1), false, cur)
    } else if s[0] != '\\' {
        strings_in(s.skip(1), true, cur.push(s[0]))
    } else if s.len() == 1 {
        seq![]
    } else if s[1] == 'u' {
        let n = escape_len(s.skip(2));
        strings_in(s.skip(2 + n), true, cur + code_char(s.subrange(2, 2 + n)))
    } else {
        strings_in(s.skip(2), true, cur.push(s[1]))
    }
}

/// The strings of the array under a key of an object. The array ends at the
/// first closing bracket.
pub open spec fn array_under(obj: Seq<char>, key: Seq<char>) -> Seq<Seq<char>> {
    match after_key(obj, key, "["@) {
        Some(rest) => {
            let end = text::first_of(rest, Class::Is(']'));
            if end < rest.len() {
                strings_in(rest.take(end), false, seq![])
            } else {
                seq![]
            }
        },
        None => seq![],
    }
}

/// Reads the array of strings under a key of an object.
pub fn json_array(obj: &str, key: &str) -> (r: Vec<String>)
    ensures
        text::texts(r@) == array_under(obj@, key@),
{
    let chars = text::chars_of(obj);
    let mut out: Vec<String> = Vec::new();
    assert(text::texts(out@) =~= seq![]);
    let rest = match skip_key(chars.as_slice(), key, "[") {
        Some(rest) => rest,
        None => {
            return out;
        },
    };
    let end = text::find(rest, Class::Is(']'));
    if end == rest.len() {
        return out;
    }
    let s = text::head(rest, end);
    let n = s.len();
    let mut cur: String = String::new();
    let mut inside: bool = false;
    let mut i: usize = 0;
    let ghost whole = strings_in(s@, false, seq![]);
    assert(s@.skip(0) =~= s@);
    assert(text::texts(out@) + whole =~= whole);
    while i < n
        invariant
            n == s@.len(),
            i <= n,
            array_under(obj@, key@) == whole,
            text::texts(out@) + strings_in(s@.skip(i as int), inside, cur@) == whole,
        decreases n - i,
    {
        let ghost left = s@.skip(i as int);
        let ghost done = text::texts(out@);
        let c = s[i];
        assert(left.skip(1) =~= s@.skip(i + 1));
        if c == '"' {
            if inside {
                let ghost item = cur@;
                out.push(cur);
                cur = String::new();
                proof {
                    let more = strings_in(s@.skip(i + 1), false, seq![]);
                    assert(text::texts(out@) + more =~= done + (seq![item] + more));
                }
            }
            inside = !inside;
            i += 1;
        } else if !inside {
            i += 1;
        } else if c != '\\' {
            cur.push(c);
            i += 1;
        } else if i + 1 == n {
            assert(text::texts(out@) + Seq::<Seq<char>>::empty() =~= text::texts(out@));
            return out;
        } else if s[i + 1] == 'u' {
            let m: usize = if n - (i + 2) < 4 {
                n - (i + 2)
            } else {
                4
            };
            let digits = slice_subrange(s, i + 2, i + 2 + m);
            proof {
                assert(left.skip(2).len() == n - (i + 2));
                assert(left.subrange(2, 2 + m) =~= digits@);
                assert(left.skip(2 + m) =~= s@.skip(i + 2 + m));
            }
            let ghost was = cur@;
            match decode(digits) {
                Some(ch) => {
                    cur.push(ch);
                    assert(cur@ =~= was + seq![ch]);
                },
                None => {
                    assert(was + Seq::<char>::empty() =~= was);
                },
            }
            i += 2 + m;
        } else {
            cur.push(s[i + 1]);
            assert(left.skip(2) =~= s@.skip(i + 2));
            i += 2;
        }
    }
    assert(text::texts(out@) + Seq::<Seq<char>>::empty() =~= text::texts(out@));
    out
}

} // verus!
