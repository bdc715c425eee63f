//! Text as sequences of characters: searching, cutting, trimming, joining and
//! ordering.
//!
//! The specifications speak of a string through its view, a `Seq<char>`. The
//! executable functions work on character slices, so that cutting a text into
//! blocks, lines and words copies nothing.

use vstd::prelude::*;
use vstd::slice::slice_subrange;

verus! {

// ---------------------------------------------------------------------------
// What the standard library is trusted for
// ---------------------------------------------------------------------------

/// `String::push` appends one character to the end of the string.
pub assume_specification[ String::push ](s: &mut String, c: char)
    ensures
        final(s)@ == old(s)@.push(c),
;

/// `String::pop` removes the last character and returns it, or returns `None`
/// and changes nothing when the string is empty.
pub assume_specification[ String::pop ](s: &mut String) -> (r: Option<char>)
    ensures
        old(s)@.len() == 0 ==> r is None && final(s)@ == old(s)@,
        old(s)@.len() > 0 ==> r == Some(old(s)@.last()) && final(s)@ == old(s)@.drop_last(),
;

/// The characters with the Unicode property `White_Space`.
pub open spec fn white_space(c: char) -> bool {
    let n = c as int;
    ||| 0x9 <= n <= 0xd
    ||| n == 0x20
    ||| n == 0x85
    ||| n == 0xa0
    ||| n == 0x1680
    ||| 0x2000 <= n <= 0x200a
    ||| n == 0x2028
    ||| n == 0x2029
    ||| n == 0x202f
    ||| n == 0x205f
    ||| n == 0x3000
}

/// `char::is_whitespace` is true exactly of the characters with the Unicode
/// property `White_Space`.
pub assume_specification[ char::is_whitespace ](c: char) -> (r: bool)
    ensures
        r == white_space(c),
;

/// Whether a character is an ASCII letter or digit.
pub open spec fn ascii_alphanumeric(c: char) -> bool {
    ||| '0' <= c && c <= '9'
    ||| 'A' <= c && c <= 'Z'
    ||| 'a' <= c && c <= 'z'
}

/// The ASCII lower case of a character; anything but `A` to `Z` is itself.
pub open spec fn ascii_lower(c: char) -> char {
    if 'A' <= c && c <= 'Z' {
        ((c as u8) + 32) as char
    } else {
        c
    }
}

/// What `char::is_alphanumeric` says of a character.
pub uninterp spec fn alphanumeric(c: char) -> bool;

/// `char::is_alphanumeric` is a fixed property of the character. Among the
/// ASCII characters it holds exactly of the letters and the digits.
pub assume_specification[ char::is_alphanumeric ](c: char) -> (r: bool)
    ensures
        r == alphanumeric(c),
        (c as u32) < 128 ==> r == ascii_alphanumeric(c),
;

/// The lower case mapping of one character.
pub uninterp spec fn char_lowercase(c: char) -> Seq<char>;

/// `char::to_lowercase` yields the lower case mapping of the character, one
/// character or more. An ASCII character maps to its ASCII lower case.
#[verifier::external_body]
pub(crate) fn lower_char(c: char) -> (r: Vec<char>)
    ensures
        r@ == char_lowercase(c),
        (c as u32) < 128 ==> r@ == seq![ascii_lower(c)],
{
    c.to_lowercase().collect()
}

/// The lower case of a whole string.
pub uninterp spec fn lowercase(s: Seq<char>) -> Seq<char>;

/// `str::to_lowercase` returns the lower case equivalent of the string. A
/// string of ASCII characters is mapped character by character.
pub assume_specification[ str::to_lowercase ](s: &str) -> (r: String)
    ensures
        r@ == lowercase(s@),
        (forall|i: int| 0 <= i < s@.len() ==> (#[trigger] s@[i] as u32) < 128) ==> r@ == Seq::new(
            s@.len(),
            |i: int| ascii_lower(s@[i]),
        ),
;

/// `char::from_u32` returns the character with the given code point, and
/// `None` for the surrogates and for what lies beyond the last code point.
pub assume_specification[ char::from_u32 ](v: u32) -> (r: Option<char>)
    ensures
        r is Some <==> (v < 0xd800 || 0xe000 <= v <= 0x10ffff),
        r matches Some(c) ==> c as u32 == v,
;

/// The ASCII upper case of a character; anything but `a` to `z` is itself.
pub open spec fn ascii_upper(c: char) -> char {
    if 'a' <= c && c <= 'z' {
        ((c as u8) - 32) as char
    } else {
        c
    }
}

/// The ASCII upper case of a character.
pub fn to_upper(c: char) -> (r: char)
    ensures
        r == ascii_upper(c),
{
    if 'a' <= c && c <= 'z' {
        ((c as u8) - 32) as char
    } else {
        c
    }
}

// ---------------------------------------------------------------------------
// Strings and character slices
// ---------------------------------------------------------------------------

/// The characters of a string.
pub fn chars_of(s: &str) -> (r: Vec<char>)
    ensures
        r@ == s@,
{
    let mut out: Vec<char> = Vec::new();
    for c in it: s.chars()
        invariant
            out@ == it.seq().take(it.index()),
            it.seq() == s@,
    {
        out.push(c);
    }
    assert(out@ =~= s@);
    out
}

/// The string made of the given characters.
pub fn string_of(s: &[char]) -> (r: String)
    ensures
        r@ == s@,
{
    let mut out: String = String::new();
    for i in 0..s.len()
        invariant
            out@ == s@.take(i as int),
    {
        out.push(s[i]);
        assert(s@.take(i + 1) =~= s@.take(i as int).push(s@[i as int]));
    }
    assert(out@ =~= s@);
    out
}

/// The texts of a list of strings.
pub open spec fn texts(v: Seq<String>) -> Seq<Seq<char>> {
    Seq::new(v.len(), |i: int| v[i]@)
}

/// The texts of a list of character slices.
pub open spec fn slices(v: Seq<&[char]>) -> Seq<Seq<char>> {
    Seq::new(v.len(), |i: int| v[i]@)
}

/// A copy of a list of strings.
pub fn copy_texts(v: &Vec<String>) -> (r: Vec<String>)
    ensures
        texts(r@) == texts(v@),
{
    let mut out: Vec<String> = Vec::new();
    for i in 0..v.len()
        invariant
            texts(out@) == texts(v@).take(i as int),
    {
        let ghost before = out@;
        out.push(v[i].clone());
        assert(texts(out@) =~= texts(before).push(v@[i as int]@));
        assert(texts(out@) =~= texts(v@).take(i + 1));
    }
    assert(texts(out@) =~= texts(v@));
    out
}

/// Whether two slices hold the same characters.
pub fn same(a: &[char], b: &[char]) -> (r: bool)
    ensures
        r == (a@ == b@),
{
    if a.len() != b.len() {
        return false;
    }
    for i in 0..a.len()
        invariant
            a@.len() == b@.len(),
            forall|k: int| 0 <= k < i ==> a@[k] == b@[k],
    {
        if a[i] != b[i] {
            return false;
        }
    }
    assert(a@ =~= b@);
    true
}

/// Strings with the same encoding are the same string.
pub proof fn lemma_encoding_injective(a: Seq<char>, b: Seq<char>)
    requires
        vstd::utf8::encode_utf8(a) == vstd::utf8::encode_utf8(b),
    ensures
        a == b,
{
    vstd::utf8::encode_utf8_decode_utf8(a);
    vstd::utf8::encode_utf8_decode_utf8(b);
}

/// Whether two strings are equal.
pub fn equal(a: &str, b: &str) -> (r: bool)
    ensures
        r == (a@ == b@),
{
    let x = a.as_bytes();
    let y = b.as_bytes();
    if x.len() != y.len() {
        return false;
    }
    for i in 0..x.len()
        invariant
            x@ == vstd::utf8::encode_utf8(a@),
            y@ == vstd::utf8::encode_utf8(b@),
            x@.len() == y@.len(),
            forall|k: int| 0 <= k < i ==> x@[k] == y@[k],
    {
        if x[i] != y[i] {
            return false;
        }
    }
    proof {
        assert(x@ =~= y@);
        lemma_encoding_injective(a@, b@);
    }
    true
}

/// Whether a list of strings holds the given text.
pub fn holds(list: &Vec<String>, s: &str) -> (r: bool)
    ensures
        r == texts(list@).contains(s@),
{
    for i in 0..list.len()
        invariant
            forall|k: int| 0 <= k < i ==> texts(list@)[k] != s@,
    {
        if equal(list[i].as_str(), s) {
            assert(texts(list@)[i as int] == s@);
            return true;
        }
    }
    false
}

// ---------------------------------------------------------------------------
// Finding characters
// ---------------------------------------------------------------------------

/// The classes of characters that texts are cut at.
#[derive(Clone, Copy)]
pub enum Class {
    /// One given character
    Is(char),
    /// Every other character
    Not(char),
    /// White space
    Space,
    /// Anything but white space
    Visible,
    /// What ends the name in a versioned dependency
    Relation,
}

impl Class {
    /// Whether the class holds the character.
    pub open spec fn has(self, c: char) -> bool {
        match self {
            Class::Is(x) => c == x,
            Class::Not(x) => c != x,
            Class::Space => white_space(c),
            Class::Visible => !white_space(c),
            Class::Relation => c == '>' || c == '<' || c == '=' || c == ':',
        }
    }

    /// Tests whether the class holds the character.
    pub fn test(self, c: char) -> (r: bool)
        ensures
            r == self.has(c),
    {
        match self {
            Class::Is(x) => c == x,
            Class::Not(x) => c != x,
            Class::Space => c.is_whitespace(),
            Class::Visible => !c.is_whitespace(),
            Class::Relation => c == '>' || c == '<' || c == '=' || c == ':',
        }
    }
}

/// Where the first character of the class stands; the length when there is
/// none.
pub open spec fn first_of(s: Seq<char>, class: Class) -> int
    decreases s.len(),
{
    if s.len() == 0 || class.has(s[0]) {
        0
    } else {
        1 + first_of(s.drop_first(), class)
    }
}

/// The place just after the last character of the class; 0 when there is none.
pub open spec fn after_last_of(s: Seq<char>, class: Class) -> int
    decreases s.len(),
{
    if s.len() == 0 || class.has(s.last()) {
        s.len() as int
    } else {
        after_last_of(s.drop_last(), class)
    }
}

/// What `first_of` finds is the first of its class.
pub proof fn lemma_first_of(s: Seq<char>, class: Class)
    ensures
        0 <= first_of(s, class) <= s.len(),
        forall|k: int| 0 <= k < first_of(s, class) ==> !class.has(#[trigger] s[k]),
        first_of(s, class) < s.len() ==> class.has(s[first_of(s, class)]),
    decreases s.len(),
{
    if s.len() > 0 && !class.has(s[0]) {
        let t = s.drop_first();
        lemma_first_of(t, class);
        assert forall|k: int| 0 <= k < first_of(s, class) implies !class.has(#[trigger] s[k]) by {
            if k > 0 {
                assert(t[k - 1] == s[k]);
            }
        }
    }
}

/// A place before which the class does not occur, and where it does, is the
/// one that `first_of` finds.
pub proof fn lemma_first_of_is(s: Seq<char>, class: Class, i: int)
    requires
        0 <= i <= s.len(),
        forall|k: int| 0 <= k < i ==> !class.has(#[trigger] s[k]),
        i < s.len() ==> class.has(s[i]),
    ensures
        first_of(s, class) == i,
{
    lemma_first_of(s, class);
    let j = first_of(s, class);
    if j < i {
        assert(!class.has(s[j]));
    }
}

/// What `after_last_of` finds follows the last of its class.
pub proof fn lemma_after_last_of(s: Seq<char>, class: Class)
    ensures
        0 <= after_last_of(s, class) <= s.len(),
        forall|k: int| after_last_of(s, class) <= k < s.len() ==> !class.has(#[trigger] s[k]),
        after_last_of(s, class) > 0 ==> class.has(s[after_last_of(s, class) - 1]),
    decreases s.len(),
{
    if s.len() > 0 && !class.has(s.last()) {
        lemma_after_last_of(s.drop_last(), class);
        let t = s.drop_last();
        assert forall|k: int| after_last_of(s, class) <= k < s.len() implies !class.has(
            #[trigger] s[k],
        ) by {
            if k < s.len() - 1 {
                assert(t[k] == s[k]);
            }
        }
    }
}

/// A place from which on the class does not occur, and just before which it
/// does, is the one that `after_last_of` finds.
pub proof fn lemma_after_last_of_is(s: Seq<char>, class: Class, i: int)
    requires
        0 <= i <= s.len(),
        forall|k: int| i <= k < s.len() ==> !class.has(#[trigger] s[k]),
        i > 0 ==> class.has(s[i - 1]),
    ensures
        after_last_of(s, class) == i,
{
    lemma_after_last_of(s, class);
    let j = after_last_of(s, class);
    if j > i {
        assert(!class.has(s[j - 1]));
    }
}

/// Finds the first character of a class.
pub fn find(s: &[char], class: Class) -> (r: usize)
    ensures
        r == first_of(s@, class),
        r <= s@.len(),
{
    let mut i: usize = 0;
    while i < s.len() && !class.test(s[i])
        invariant
            i <= s@.len(),
            forall|k: int| 0 <= k < i ==> !class.has(#[trigger] s@[k]),
        decreases s@.len() - i,
    {
        i += 1;
    }
    proof {
        lemma_first_of_is(s@, class, i as int);
    }
    i
}

/// Finds the place just after the last character of a class.
pub fn find_last(s: &[char], class: Class) -> (r: usize)
    ensures
        r == after_last_of(s@, class),
        r <= s@.len(),
{
    let mut i: usize = s.len();
    while i > 0 && !class.test(s[i - 1])
        invariant
            i <= s@.len(),
            forall|k: int| i <= k < s@.len() ==> !class.has(#[trigger] s@[k]),
        decreases i,
    {
        i -= 1;
    }
    proof {
        lemma_after_last_of_is(s@, class, i as int);
    }
    i
}

/// The first `n` characters of a slice.
pub fn head<'a>(s: &'a [char], n: usize) -> (r: &'a [char])
    requires
        n <= s@.len(),
    ensures
        r@ == s@.take(n as int),
{
    slice_subrange(s, 0, n)
}

/// What follows the first `n` characters of a slice.
pub fn tail<'a>(s: &'a [char], n: usize) -> (r: &'a [char])
    requires
        n <= s@.len(),
    ensures
        r@ == s@.skip(n as int),
{
    slice_subrange(s, n, s.len())
}

// ---------------------------------------------------------------------------
// Trimming
// ---------------------------------------------------------------------------

/// A text without the characters in front that are not of the class.
pub open spec fn from_first(s: Seq<char>, class: Class) -> Seq<char> {
    s.skip(first_of(s, class))
}

/// A text without the characters at its end that are not of the class.
pub open spec fn up_to_last(s: Seq<char>, class: Class) -> Seq<char> {
    s.take(after_last_of(s, class))
}

/// A text without white space on either side.
pub open spec fn trimmed(s: Seq<char>) -> Seq<char> {
    up_to_last(from_first(s, Class::Visible), Class::Visible)
}

/// Drops the characters in front that are not of the class.
pub fn trim_start<'a>(s: &'a [char], class: Class) -> (r: &'a [char])
    ensures
        r@ == from_first(s@, class),
{
    tail(s, find(s, class))
}

/// Drops the characters at the end that are not of the class.
pub fn trim_end<'a>(s: &'a [char], class: Class) -> (r: &'a [char])
    ensures
        r@ == up_to_last(s@, class),
{
    head(s, find_last(s, class))
}

/// Drops white space on either side.
pub fn trim<'a>(s: &'a [char]) -> (r: &'a [char])
    ensures
        r@ == trimmed(s@),
{
    trim_end(trim_start(s, Class::Visible), Class::Visible)
}

/// The string left when white space on either side is dropped.
pub fn trim_string(s: &[char]) -> (r: String)
    ensures
        r@ == trimmed(s@),
{
    string_of(trim(s))
}

// ---------------------------------------------------------------------------
// Prefixes, suffixes and substrings
// ---------------------------------------------------------------------------

/// Whether `p` stands in `s` at place `i`.
pub open spec fn stands_at(s: Seq<char>, p: Seq<char>, i: int) -> bool {
    &&& 0 <= i
    &&& i + p.len() <= s.len()
    &&& s.subrange(i, i + p.len()) == p
}

/// Whether `p` stands somewhere in `s`.
pub open spec fn includes(s: Seq<char>, p: Seq<char>) -> bool {
    exists|i: int| stands_at(s, p, i)
}

/// Where `p` first stands in `s`.
pub open spec fn first_place(s: Seq<char>, p: Seq<char>) -> Option<int>
    decreases s.len(),
{
    if stands_at(s, p, 0) {
        Some(0)
    } else if s.len() == 0 {
        None
    } else {
        match first_place(s.drop_first(), p) {
            Some(i) => Some(i + 1),
            None => None,
        }
    }
}

/// What `first_place` finds is the first place of all.
pub proof fn lemma_first_place(s: Seq<char>, p: Seq<char>)
    ensures
        first_place(s, p) matches Some(i) ==> stands_at(s, p, i) && forall|k: int|
            0 <= k < i ==> !stands_at(s, p, k),
        first_place(s, p) is None ==> !includes(s, p),
    decreases s.len(),
{
    if !stands_at(s, p, 0) && s.len() > 0 {
        let t = s.drop_first();
        lemma_first_place(t, p);
        assert forall|k: int| k > 0 implies stands_at(s, p, k) == #[trigger] stands_at(
            t,
            p,
            k - 1,
        ) by {
            if k + p.len() <= s.len() {
                assert(s.subrange(k, k + p.len()) =~= t.subrange(k - 1, k - 1 + p.len()));
            }
        }
        assert forall|k: int| k > 0 implies #[trigger] stands_at(s, p, k) == stands_at(
            t,
            p,
            k - 1,
        ) by {
            assert(stands_at(s, p, k) == stands_at(t, p, k - 1));
        }
    }
}

/// A place where `p` stands, and before which it never does, is the one that
/// `first_place` finds.
pub proof fn lemma_first_place_is(s: Seq<char>, p: Seq<char>, i: int)
    requires
        stands_at(s, p, i),
        forall|k: int| 0 <= k < i ==> !stands_at(s, p, k),
    ensures
        first_place(s, p) == Some(i),
{
    lemma_first_place(s, p);
}

/// Whether `p` stands at place `i`.
fn at(s: &[char], p: &[char], i: usize) -> (r: bool)
    requires
        i <= s@.len(),
    ensures
        r == stands_at(s@, p@, i as int),
{
    let n = s.len();
    let m = p.len();
    if m > n - i {
        return false;
    }
    for k in 0..m
        invariant
            n == s@.len(),
            m == p@.len(),
            i + m <= n,
            forall|j: int| 0 <= j < k ==> s@[i + j] == p@[j],
    {
        if s[i + k] != p[k] {
            assert(s@.subrange(i as int, i + p@.len())[k as int] != p@[k as int]);
            return false;
        }
    }
    assert(s@.subrange(i as int, i + p@.len()) =~= p@);
    true
}

/// Finds the first place of `p`.
pub fn search(s: &[char], p: &[char]) -> (r: Option<usize>)
    ensures
        match (r, first_place(s@, p@)) {
            (Some(i), Some(j)) => i == j,
            (None, None) => true,
            _ => false,
        },
        r matches Some(i) ==> i + p@.len() <= s@.len(),
{
    let mut i: usize = 0;
    while i <= s.len()
        invariant
            i <= s@.len() + 1,
            forall|k: int| 0 <= k < i ==> !stands_at(s@, p@, k),
        decreases s@.len() + 1 - i,
    {
        if at(s, p, i) {
            proof {
                lemma_first_place_is(s@, p@, i as int);
            }
            return Some(i);
        }
        if i == s.len() {
            proof {
                lemma_first_place(s@, p@);
            }
            return None;
        }
        i += 1;
    }
    proof {
        lemma_first_place(s@, p@);
    }
    None
}

/// Whether `p` stands somewhere in `s`.
pub fn contains(s: &[char], p: &[char]) -> (r: bool)
    ensures
        r == includes(s@, p@),
{
    proof {
        lemma_first_place(s@, p@);
    }
    search(s, p).is_some()
}

/// Whether `s` begins with `p`.
pub fn starts_with(s: &[char], p: &[char]) -> (r: bool)
    ensures
        r == p@.is_prefix_of(s@),
{
    let r = at(s, p, 0);
    assert(r == p@.is_prefix_of(s@)) by {
        if p@.len() <= s@.len() {
            assert(s@.subrange(0, p@.len() as int) =~= s@.take(p@.len() as int));
        }
    }
    r
}

/// Whether `s` ends with `p`.
pub fn ends_with(s: &[char], p: &[char]) -> (r: bool)
    ensures
        r == p@.is_suffix_of(s@),
{
    if p.len() > s.len() {
        return false;
    }
    at(s, p, s.len() - p.len())
}

/// A text without any repetition of `p` in front.
pub open spec fn without_leading(s: Seq<char>, p: Seq<char>) -> Seq<char>
    decreases s.len(),
{
    if p.len() > 0 && p.is_prefix_of(s) {
        without_leading(s.skip(p.len() as int), p)
    } else {
        s
    }
}

/// Drops every repetition of `p` in front.
pub fn trim_leading<'a>(s: &'a [char], p: &[char]) -> (r: &'a [char])
    ensures
        r@ == without_leading(s@, p@),
{
    let mut rest = s;
    while p.len() > 0 && starts_with(rest, p)
        invariant
            without_leading(rest@, p@) == without_leading(s@, p@),
        decreases rest@.len(),
    {
        rest = tail(rest, p.len());
    }
    rest
}

// ---------------------------------------------------------------------------
// Cutting
// ---------------------------------------------------------------------------

/// A text cut at the first of a character.
pub open spec fn cut_at(s: Seq<char>, c: char) -> Option<(Seq<char>, Seq<char>)> {
    let i = first_of(s, Class::Is(c));
    if i < s.len() {
        Some((s.take(i), s.skip(i + 1)))
    } else {
        None
    }
}

/// Cuts at the first of a character.
pub fn split_once<'a>(s: &'a [char], c: char) -> (r: Option<(&'a [char], &'a [char])>)
    ensures
        match r {
            Some((a, b)) => cut_at(s@, c) == Some((a@, b@)),
            None => cut_at(s@, c) is None,
        },
{
    let i = find(s, Class::Is(c));
    if i < s.len() {
        Some((head(s, i), tail(s, i + 1)))
    } else {
        None
    }
}

/// A line without the carriage return that stood before its line feed.
pub open spec fn without_cr(s: Seq<char>) -> Seq<char> {
    if s.len() > 0 && s.last() == '\r' {
        s.drop_last()
    } else {
        s
    }
}

/// The lines of a text: each ends with a line feed, or with a carriage return
/// and a line feed, neither of which belongs to it. The last needs no ending.
pub open spec fn lines_of(s: Seq<char>) -> Seq<Seq<char>>
    decreases s.len(),
    via lines_of_decreases
{
    if s.len() == 0 {
        seq![]
    } else {
        let i = first_of(s, Class::Is('\n'));
        if i < s.len() {
            seq![without_cr(s.take(i))] + lines_of(s.skip(i + 1))
        } else {
            seq![s]
        }
    }
}

#[via_fn]
proof fn lines_of_decreases(s: Seq<char>) {
    lemma_first_of(s, Class::Is('\n'));
}

/// Cuts a text into its lines.
pub fn lines<'a>(s: &'a [char]) -> (r: Vec<&'a [char]>)
    ensures
        slices(r@) == lines_of(s@),
{
    let mut out: Vec<&'a [char]> = Vec::new();
    let mut rest = s;
    assert(slices(out@) + lines_of(rest@) =~= lines_of(s@));
    while rest.len() > 0
        invariant
            slices(out@) + lines_of(rest@) == lines_of(s@),
        decreases rest@.len(),
    {
        let ghost before = slices(out@);
        let i = find(rest, Class::Is('\n'));
        if i < rest.len() {
            let line = head(rest, i);
            let line = if line.len() > 0 && line[line.len() - 1] == '\r' {
                head(line, line.len() - 1)
            } else {
                line
            };
            assert(line@ =~= without_cr(rest@.take(i as int)));
            out.push(line);
            let ghost next = rest@.skip(i + 1);
            assert(slices(out@) + lines_of(next) =~= before + (seq![line@] + lines_of(next)));
            rest = tail(rest, i + 1);
        } else {
            out.push(rest);
            assert(slices(out@) =~= before + seq![rest@]);
            return out;
        }
    }
    assert(slices(out@) =~= lines_of(s@));
    out
}

/// The parts of a text between the occurrences of a separator.
pub open spec fn parts_of(s: Seq<char>, sep: Seq<char>) -> Seq<Seq<char>>
    decreases s.len(),
    via parts_of_decreases
{
    match first_place(s, sep) {
        Some(i) => if sep.len() > 0 {
            seq![s.take(i)] + parts_of(s.skip(i + sep.len()), sep)
        } else {
            seq![s]
        },
        None => seq![s],
    }
}

#[via_fn]
proof fn parts_of_decreases(s: Seq<char>, sep: Seq<char>) {
    lemma_first_place(s, sep);
}

/// Cuts a text at every occurrence of a separator.
pub fn split<'a>(s: &'a [char], sep: &[char]) -> (r: Vec<&'a [char]>)
    requires
        sep@.len() > 0,
    ensures
        slices(r@) == parts_of(s@, sep@),
{
    let mut out: Vec<&'a [char]> = Vec::new();
    let mut rest = s;
    assert(slices(out@) + parts_of(rest@, sep@) =~= parts_of(s@, sep@));
    loop
        invariant
            sep@.len() > 0,
            slices(out@) + parts_of(rest@, sep@) == parts_of(s@, sep@),
        decreases rest@.len(),
    {
        let ghost before = slices(out@);
        let n = sep.len();
        match search(rest, sep) {
            Some(i) => {
                let size = rest.len();
                assert(i + n <= size);
                let part = head(rest, i);
                out.push(part);
                let ghost next = rest@.skip(i + sep@.len());
                assert(slices(out@) + parts_of(next, sep@) =~= before + (seq![part@] + parts_of(
                    next,
                    sep@,
                )));
                rest = tail(rest, i + n);
            },
            None => {
                out.push(rest);
                assert(slices(out@) =~= before + seq![rest@]);
                return out;
            },
        }
    }
}

/// The words of a text: its longest runs without white space.
pub open spec fn words_of(s: Seq<char>) -> Seq<Seq<char>>
    decreases s.len(),
    via words_of_decreases
{
    let t = from_first(s, Class::Visible);
    if t.len() == 0 {
        seq![]
    } else {
        let i = first_of(t, Class::Space);
        seq![t.take(i)] + words_of(t.skip(i))
    }
}

#[via_fn]
proof fn words_of_decreases(s: Seq<char>) {
    lemma_first_word(s);
}

/// The first word of a text is not empty, and ends within it.
pub proof fn lemma_first_word(s: Seq<char>)
    ensures
        ({
            let t = from_first(s, Class::Visible);
            &&& t.len() <= s.len()
            &&& t.len() > 0 ==> 0 < first_of(t, Class::Space) <= t.len()
        }),
{
    lemma_first_of(s, Class::Visible);
    let t = from_first(s, Class::Visible);
    lemma_first_of(t, Class::Space);
    if t.len() > 0 {
        assert(t[0] == s[first_of(s, Class::Visible)]);
    }
}

/// Cuts a text into its words.
pub fn words<'a>(s: &'a [char]) -> (r: Vec<&'a [char]>)
    ensures
        slices(r@) == words_of(s@),
{
    let mut out: Vec<&'a [char]> = Vec::new();
    let mut rest = s;
    assert(slices(out@) + words_of(rest@) =~= words_of(s@));
    loop
        invariant
            slices(out@) + words_of(rest@) == words_of(s@),
        decreases rest@.len(),
    {
        let ghost before = slices(out@);
        let t = trim_start(rest, Class::Visible);
        if t.len() == 0 {
            assert(slices(out@) =~= words_of(s@));
            return out;
        }
        let i = find(t, Class::Space);
        proof {
            lemma_first_word(rest@);
        }
        let word = head(t, i);
        out.push(word);
        let ghost next = t@.skip(i as int);
        assert(slices(out@) + words_of(next) =~= before + (seq![word@] + words_of(next)));
        rest = tail(t, i);
    }
}

// ---------------------------------------------------------------------------
// Joining
// ---------------------------------------------------------------------------

/// The parts one after the other, with the separator between them.
pub open spec fn joined(parts: Seq<Seq<char>>, sep: Seq<char>) -> Seq<char>
    decreases parts.len(),
{
    if parts.len() == 0 {
        seq![]
    } else if parts.len() == 1 {
        parts[0]
    } else {
        joined(parts.drop_last(), sep) + sep + parts.last()
    }
}

/// A single character stands where it is found.
proof fn lemma_stands_single(s: Seq<char>, c: char, i: int)
    ensures
        stands_at(s, seq![c], i) <==> 0 <= i < s.len() && s[i] == c,
{
    if 0 <= i < s.len() {
        assert(s.subrange(i, i + 1) =~= seq![s[i]]);
        assert(seq![s[i]][0] == s[i]);
        assert(seq![c][0] == c);
    }
}

/// The parts of two texts with the separator between them are those of the one
/// and those of the other.
proof fn lemma_parts_of_both(x: Seq<char>, y: Seq<char>, c: char)
    ensures
        parts_of(x + seq![c] + y, seq![c]) == parts_of(x, seq![c]) + parts_of(y, seq![c]),
    decreases x.len(),
{
    let sep = seq![c];
    let s = x + sep + y;
    lemma_first_place(x, sep);
    match first_place(x, sep) {
        Some(i) => {
            lemma_stands_single(x, c, i);
            lemma_stands_single(s, c, i);
            assert forall|k: int| 0 <= k < i implies !stands_at(s, sep, k) by {
                lemma_stands_single(s, c, k);
                lemma_stands_single(x, c, k);
                assert(!stands_at(x, sep, k));
            }
            lemma_first_place_is(s, sep, i);
            lemma_parts_of_both(x.skip(i + 1), y, c);
            assert(s.take(i) =~= x.take(i));
            assert(s.skip(i + 1) =~= x.skip(i + 1) + sep + y);
            assert(parts_of(s, sep) =~= parts_of(x, sep) + parts_of(y, sep));
        },
        None => {
            lemma_stands_single(s, c, x.len() as int);
            assert forall|k: int| 0 <= k < x.len() implies !stands_at(s, sep, k) by {
                lemma_stands_single(s, c, k);
                lemma_stands_single(x, c, k);
                assert(!stands_at(x, sep, k));
            }
            lemma_first_place_is(s, sep, x.len() as int);
            assert(s.take(x.len() as int) =~= x);
            assert(s.skip(x.len() as int + 1) =~= y);
        },
    }
}

/// Splitting undoes joining: parts that do not hold the separator come back
/// as they were.
pub proof fn law_splitting_undoes_joining(parts: Seq<Seq<char>>, c: char)
    requires
        parts.len() > 0,
        forall|i: int| 0 <= i < parts.len() ==> !(#[trigger] parts[i]).contains(c),
    ensures
        parts_of(joined(parts, seq![c]), seq![c]) == parts,
    decreases parts.len(),
{
    let last = parts.last();
    assert(!parts[parts.len() - 1].contains(c));
    lemma_first_place(last, seq![c]);
    if first_place(last, seq![c]) is Some {
        lemma_stands_single(last, c, first_place(last, seq![c])->0);
        assert(last.contains(c));
    }
    if parts.len() == 1 {
        assert(parts =~= seq![last]);
    } else {
        let rest = parts.drop_last();
        assert forall|i: int| 0 <= i < rest.len() implies !(#[trigger] rest[i]).contains(c) by {
            assert(rest[i] == parts[i]);
        }
        law_splitting_undoes_joining(rest, c);
        lemma_parts_of_both(joined(rest, seq![c]), last, c);
        assert(rest + seq![last] =~= parts);
    }
}

/// Joins the parts, with the separator between them.
pub fn join(parts: &Vec<String>, sep: &str) -> (r: String)
    ensures
        r@ == joined(texts(parts@), sep@),
{
    let mut out: String = String::new();
    for i in 0..parts.len()
        invariant
            out@ == joined(texts(parts@).take(i as int), sep@),
    {
        if i > 0 {
            out.append(sep);
        }
        out.append(parts[i].as_str());
        proof {
            let now = texts(parts@).take(i + 1);
            assert(now.drop_last() =~= texts(parts@).take(i as int));
            assert(now.last() == parts@[i as int]@);
            assert(out@ =~= joined(now, sep@));
        }
    }
    assert(texts(parts@).take(parts@.len() as int) =~= texts(parts@));
    out
}

/// The string of two pieces.
pub fn concat(a: &str, b: &str) -> (r: String)
    ensures
        r@ == a@ + b@,
{
    let mut out: String = String::new();
    out.append(a);
    out.append(b);
    assert(out@ =~= a@ + b@);
    out
}

/// The string of three pieces.
pub fn concat3(a: &str, b: &str, c: &str) -> (r: String)
    ensures
        r@ == a@ + b@ + c@,
{
    let mut out: String = concat(a, b);
    out.append(c);
    out
}

// ---------------------------------------------------------------------------
// Numbers
// ---------------------------------------------------------------------------

/// The character of a decimal digit.
pub open spec fn digit(n: nat) -> char {
    (48 + n) as char
}

/// A number written in decimal, without leading zeros.
pub open spec fn decimal_of(n: nat) -> Seq<char>
    decreases n,
{
    if n < 10 {
        seq![digit(n)]
    } else {
        decimal_of(n / 10).push(digit(n % 10))
    }
}

/// Writes a number in decimal.
pub fn decimal(n: usize) -> (r: String)
    ensures
        r@ == decimal_of(n as nat),
    decreases n,
{
    let mut out: String = if n < 10 {
        String::new()
    } else {
        decimal(n / 10)
    };
    let d: u8 = 48 + (n % 10) as u8;
    out.push(d as char);
    assert(out@ =~= decimal_of(n as nat));
    out
}

/// A number between two texts.
pub open spec fn counted(front: Seq<char>, n: nat, back: Seq<char>) -> Seq<char> {
    front + decimal_of(n) + back
}

/// Writes a number between two texts.
pub fn count(front: &str, n: usize, back: &str) -> (r: String)
    ensures
        r@ == counted(front@, n as nat, back@),
{
    let number = decimal(n);
    concat3(front, number.as_str(), back)
}

/// The value of a hexadecimal digit.
pub open spec fn hex_digit(c: char) -> Option<nat> {
    if '0' <= c && c <= '9' {
        Some((c as nat - '0' as nat) as nat)
    } else if 'a' <= c && c <= 'f' {
        Some((c as nat - 'a' as nat + 10) as nat)
    } else if 'A' <= c && c <= 'F' {
        Some((c as nat - 'A' as nat + 10) as nat)
    } else {
        None
    }
}

/// The number that a run of hexadecimal digits stands for; `None` when one of
/// the characters is no such digit.
pub open spec fn hex_digits(s: Seq<char>) -> Option<nat>
    decreases s.len(),
{
    if s.len() == 0 {
        Some(0)
    } else {
        match (hex_digits(s.drop_last()), hex_digit(s.last())) {
            (Some(n), Some(d)) => Some(16 * n + d),
            _ => None,
        }
    }
}

/// A hexadecimal number: at least one digit, with a plus sign allowed in
/// front.
pub open spec fn hex_number(s: Seq<char>) -> Option<nat> {
    let t = if s.len() > 0 && s[0] == '+' {
        s.skip(1)
    } else {
        s
    };
    if t.len() == 0 {
        None
    } else {
        hex_digits(t)
    }
}

/// `len` hexadecimal digits stay below 16 to the power `len`.
proof fn lemma_hex_bound(s: Seq<char>)
    requires
        s.len() <= 4,
    ensures
        hex_digits(s) matches Some(n) ==> n < 65536 && (s.len() <= 3 ==> n < 4096) && (s.len() <= 2
            ==> n < 256) && (s.len() <= 1 ==> n < 16) && (s.len() == 0 ==> n == 0),
    decreases s.len(),
{
    if s.len() > 0 {
        lemma_hex_bound(s.drop_last());
    }
}

/// Reads a hexadecimal number of up to four characters.
pub fn parse_hex(s: &[char]) -> (r: Option<u32>)
    requires
        s@.len() <= 4,
    ensures
        match (r, hex_number(s@)) {
            (Some(v), Some(n)) => v == n,
            (None, None) => true,
            _ => false,
        },
        r matches Some(v) ==> v < 65536 && (s@.len() <= 2 ==> v < 256),
{
    let t = if s.len() > 0 && s[0] == '+' {
        tail(s, 1)
    } else {
        s
    };
    if t.len() == 0 {
        return None;
    }
    let mut v: u32 = 0;
    for i in 0..t.len()
        invariant
            t@.len() <= 4,
            hex_number(s@) == hex_digits(t@),
            hex_digits(t@.take(i as int)) == Some(v as nat),
    {
        let c = t[i];
        let ghost now = t@.take(i + 1);
        assert(now.drop_last() =~= t@.take(i as int));
        assert(now.last() == c);
        proof {
            lemma_hex_bound(t@.take(i as int));
        }
        let d: u32 = if '0' <= c && c <= '9' {
            c as u32 - '0' as u32
        } else if 'a' <= c && c <= 'f' {
            c as u32 - 'a' as u32 + 10
        } else if 'A' <= c && c <= 'F' {
            c as u32 - 'A' as u32 + 10
        } else {
            proof {
                lemma_hex_stops(t@, i + 1);
            }
            return None;
        };
        v = 16 * v + d;
    }
    assert(t@.take(t@.len() as int) =~= t@);
    proof {
        lemma_hex_bound(t@);
    }
    Some(v)
}

/// A run of digits with a bad start is bad.
proof fn lemma_hex_stops(s: Seq<char>, i: int)
    requires
        0 <= i <= s.len(),
        hex_digits(s.take(i)) is None,
    ensures
        hex_digits(s) is None,
    decreases s.len(),
{
    if i == s.len() {
        assert(s.take(i) =~= s);
    } else {
        assert(s.drop_last().take(i) =~= s.take(i));
        lemma_hex_stops(s.drop_last(), i);
    }
}

} // verus!
