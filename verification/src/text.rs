//! Strings as sequences of characters: comparing, trimming, splitting.

use vstd::prelude::*;
use vstd::utf8::{decode_utf8, encode_utf8, encode_utf8_decode_utf8, valid_utf8};

verus! {

/// `String::push` appends one character.
pub assume_specification[ String::push ](s: &mut String, c: char)
    ensures
        final(s)@ == old(s)@.push(c),
;

/// Calls `String::from_utf8`: the characters the bytes write, unless they are
/// not valid UTF-8.
#[verifier::external_body]
pub(crate) fn utf8_string(bytes: Vec<u8>) -> (res: Option<String>)
    ensures
        match res {
            Some(s) => valid_utf8(bytes@) && s@ == decode_utf8(bytes@),
            None => !valid_utf8(bytes@),
        },
{
    String::from_utf8(bytes).ok()
}

/// Whether two texts are the same.
pub fn text_eq(a: &str, b: &str) -> (same: bool)
    ensures
        same == (a@ == b@),
{
    let x = a.as_bytes();
    let y = b.as_bytes();
    proof {
        encode_utf8_decode_utf8(a@);
        encode_utf8_decode_utf8(b@);
    }
    if x.len() != y.len() {
        return false;
    }
    for i in 0..x.len()
        invariant
            x@ == encode_utf8(a@),
            y@ == encode_utf8(b@),
            x@.len() == y@.len(),
            forall|k: int| 0 <= k < i ==> x@[k] == y@[k],
    {
        if x[i] != y[i] {
            return false;
        }
    }
    assert(x@ =~= y@);
    true
}

/// The characters of a text.
pub fn chars_of(s: &str) -> (chars: Vec<char>)
    ensures
        chars@ == s@,
{
    let mut chars: Vec<char> = Vec::new();
    for c in it: s.chars()
        invariant
            chars@ == it.seq().take(it.index() as int),
            it.seq() == s@,
    {
        chars.push(c);
    }
    chars
}

/// The text of the characters from `start` up to `end`.
pub fn text_of(chars: &Vec<char>, start: usize, end: usize) -> (s: String)
    requires
        start <= end <= chars@.len(),
    ensures
        s@ == chars@.subrange(start as int, end as int),
{
    let mut s = String::new();
    for i in start..end
        invariant
            start <= end <= chars@.len(),
            s@ == chars@.subrange(start as int, i as int),
    {
        s.push(chars[i]);
        assert(s@ =~= chars@.subrange(start as int, i + 1));
    }
    s
}

/// Characters with Unicode's `White_Space` property.
pub open spec fn is_white(c: char) -> bool {
    ('\u{9}' <= c && c <= '\u{d}') || c == ' ' || c == '\u{85}' || c == '\u{a0}' || c == '\u{1680}' || ('\u{2000}' <= c
        && c <= '\u{200a}') || c == '\u{2028}' || c == '\u{2029}' || c == '\u{202f}' || c == '\u{205f}' || c
        == '\u{3000}'
}

pub fn white(c: char) -> (w: bool)
    ensures
        w == is_white(c),
{
    ('\u{9}' <= c && c <= '\u{d}') || c == ' ' || c == '\u{85}' || c == '\u{a0}' || c == '\u{1680}' || ('\u{2000}' <= c
        && c <= '\u{200a}') || c == '\u{2028}' || c == '\u{2029}' || c == '\u{202f}' || c == '\u{205f}' || c
        == '\u{3000}'
}

/// A text without the white space at its start.
pub open spec fn trim_start(s: Seq<char>) -> Seq<char>
    decreases s.len(),
{
    if s.len() > 0 && is_white(s[0]) {
        trim_start(s.drop_first())
    } else {
        s
    }
}

/// A text without the white space at its end.
pub open spec fn trim_end(s: Seq<char>) -> Seq<char>
    decreases s.len(),
{
    if s.len() > 0 && is_white(s.last()) {
        trim_end(s.drop_last())
    } else {
        s
    }
}

/// A text without the white space at its start and end.
pub open spec fn trimmed(s: Seq<char>) -> Seq<char> {
    trim_end(trim_start(s))
}

/// The part of the characters from `start` up to `end` that is left when
/// white space is trimmed from it.
pub fn trim_range(chars: &Vec<char>, start: usize, end: usize) -> (range: (usize, usize))
    requires
        start <= end <= chars@.len(),
    ensures
        start <= range.0 <= range.1 <= end,
        chars@.subrange(range.0 as int, range.1 as int) == trimmed(chars@.subrange(start as int, end as int)),
{
    let mut a: usize = start;
    let ghost all = chars@.subrange(start as int, end as int);
    while a < end && white(chars[a])
        invariant
            start <= a <= end <= chars@.len(),
            all == chars@.subrange(start as int, end as int),
            trim_start(all) == trim_start(chars@.subrange(a as int, end as int)),
        decreases end - a,
    {
        assert(chars@.subrange(a as int, end as int).drop_first() =~= chars@.subrange(a + 1, end as int));
        a = a + 1;
    }
    let mut b: usize = end;
    let ghost head = chars@.subrange(a as int, end as int);
    assert(trim_start(all) == head);
    while b > a && white(chars[b - 1])
        invariant
            start <= a <= b <= end <= chars@.len(),
            head == chars@.subrange(a as int, end as int),
            trim_end(head) == trim_end(chars@.subrange(a as int, b as int)),
        decreases b,
    {
        assert(chars@.subrange(a as int, b as int).drop_last() =~= chars@.subrange(a as int, b - 1));
        b = b - 1;
    }
    (a, b)
}

/// Whether a text holds white space.
pub open spec fn has_white(s: Seq<char>) -> bool {
    exists|i: int| 0 <= i < s.len() && is_white(#[trigger] s[i])
}

/// Where `c` first stands in `s` from `from` on; the length when nowhere.
pub open spec fn index_from(s: Seq<char>, c: char, from: int) -> int
    decreases s.len() - from,
{
    if from < 0 || from >= s.len() || s[from] == c {
        from
    } else {
        index_from(s, c, from + 1)
    }
}

pub proof fn lemma_index_from(s: Seq<char>, c: char, from: int)
    requires
        0 <= from <= s.len(),
    ensures
        from <= index_from(s, c, from) <= s.len(),
        index_from(s, c, from) < s.len() ==> s[index_from(s, c, from)] == c,
        forall|i: int| from <= i < index_from(s, c, from) ==> s[i] != c,
    decreases s.len() - from,
{
    if from < s.len() && s[from] != c {
        lemma_index_from(s, c, from + 1);
    }
}

/// The first `c` is where `c` stands with none before.
pub proof fn lemma_index_is(s: Seq<char>, c: char, from: int, at: int)
    requires
        0 <= from <= at <= s.len(),
        at < s.len() ==> s[at] == c,
        forall|i: int| from <= i < at ==> s[i] != c,
    ensures
        index_from(s, c, from) == at,
    decreases at - from,
{
    if from < at {
        lemma_index_is(s, c, from + 1, at);
    }
}

/// Where `c` first stands from `from` on; the length when nowhere.
pub fn find_char(chars: &Vec<char>, c: char, from: usize) -> (at: usize)
    requires
        from <= chars@.len(),
    ensures
        at == index_from(chars@, c, from as int),
        from <= at <= chars@.len(),
{
    let mut at: usize = from;
    while at < chars.len() && chars[at] != c
        invariant
            from <= at <= chars@.len(),
            forall|i: int| from <= i < at ==> chars@[i] != c,
        decreases chars@.len() - at,
    {
        at = at + 1;
    }
    proof {
        lemma_index_is(chars@, c, from as int, at as int);
    }
    at
}

/// A text cut at every `c`: one piece more than there are `c`s.
pub open spec fn pieces(s: Seq<char>, c: char) -> Seq<Seq<char>>
    decreases s.len(),
{
    let at = index_from(s, c, 0);
    if 0 <= at < s.len() {
        seq![s.take(at)] + pieces(s.skip(at + 1), c)
    } else {
        seq![s]
    }
}

pub proof fn lemma_pieces_nonempty(s: Seq<char>, c: char)
    ensures
        pieces(s, c).len() >= 1,
{
    lemma_index_from(s, c, 0);
}

/// A digit.
pub open spec fn digit(d: nat) -> char {
    ('0' as nat + d) as char
}

/// A number in decimal digits.
pub open spec fn decimal(n: nat) -> Seq<char>
    decreases n,
{
    if n < 10 {
        seq![digit(n)]
    } else {
        decimal(n / 10).push(digit(n % 10))
    }
}

pub fn digit_char(d: u64) -> (c: char)
    requires
        d < 10,
    ensures
        c == digit(d as nat),
{
    (48 + d as u8) as char
}

/// Appends a number in decimal digits.
pub fn push_decimal(s: &mut String, n: u64)
    ensures
        final(s)@ == old(s)@ + decimal(n as nat),
    decreases n,
{
    if n >= 10 {
        push_decimal(s, n / 10);
    }
    s.push(digit_char(n % 10));
    assert(s@ =~= old(s)@ + decimal(n as nat));
}

/// An ASCII letter in lower case; any other character as it is.
pub open spec fn ascii_lower(c: char) -> char {
    if 'A' <= c <= 'Z' {
        (c as u32 + 32) as char
    } else {
        c
    }
}

/// An ASCII letter in upper case; any other character as it is.
pub open spec fn ascii_upper(c: char) -> char {
    if 'a' <= c <= 'z' {
        (c as u32 - 32) as char
    } else {
        c
    }
}

pub fn lower_char(c: char) -> (l: char)
    ensures
        l == ascii_lower(c),
{
    if 'A' <= c && c <= 'Z' {
        ((c as u32 + 32) as u8) as char
    } else {
        c
    }
}

/// A text in upper case.
pub uninterp spec fn uppercased(s: Seq<char>) -> Seq<char>;

/// Calls `str::to_uppercase`. Its mapping of ASCII text is stated; that of
/// other text has a name only.
#[verifier::external_body]
pub(crate) fn to_upper(s: &str) -> (u: String)
    ensures
        u@ == uppercased(s@),
        (forall|i: int| 0 <= i < s@.len() ==> (#[trigger] s@[i] as u32) < 128) ==> u@ == s@.map_values(
            |c: char| ascii_upper(c),
        ),
{
    s.to_uppercase()
}

/// A character is found where it first stands, and nowhere before; the end is
/// where it does not.
pub proof fn law_characters_are_found_first(s: Seq<char>, c: char, from: int)
    requires
        0 <= from <= s.len(),
    ensures
        from <= index_from(s, c, from) <= s.len(),
        index_from(s, c, from) < s.len() ==> s[index_from(s, c, from)] == c,
        forall|k: int| from <= k < index_from(s, c, from) ==> #[trigger] s[k] != c,
    decreases s.len() - from,
{
    if from < s.len() && s[from] != c {
        law_characters_are_found_first(s, c, from + 1);
    }
}

proof fn lemma_trim_start(s: Seq<char>) -> (n: int)
    ensures
        0 <= n <= s.len(),
        trim_start(s) == s.skip(n),
        forall|i: int| 0 <= i < n ==> is_white(#[trigger] s[i]),
        n < s.len() ==> !is_white(s[n]),
    decreases s.len(),
{
    if s.len() > 0 && is_white(s[0]) {
        let rest = s.drop_first();
        let m = lemma_trim_start(rest);
        assert(rest.skip(m) =~= s.skip(m + 1));
        assert forall|i: int| 0 <= i < m + 1 implies is_white(#[trigger] s[i]) by {
            if i > 0 {
                assert(rest[i - 1] == s[i]);
            }
        }
        m + 1
    } else {
        assert(s.skip(0) =~= s);
        0
    }
}

proof fn lemma_trim_end(s: Seq<char>) -> (n: int)
    ensures
        0 <= n <= s.len(),
        trim_end(s) == s.take(n),
        forall|i: int| n <= i < s.len() ==> is_white(#[trigger] s[i]),
        n > 0 ==> !is_white(s[n - 1]),
    decreases s.len(),
{
    if s.len() > 0 && is_white(s.last()) {
        let rest = s.drop_last();
        let m = lemma_trim_end(rest);
        assert(rest.take(m) =~= s.take(m));
        assert forall|i: int| m <= i < s.len() implies is_white(#[trigger] s[i]) by {
            if i < s.len() - 1 {
                assert(rest[i] == s[i]);
            }
        }
        m
    } else {
        assert(s.take(s.len() as int) =~= s);
        s.len() as int
    }
}

/// Trimming takes the white space at both ends, all of it and nothing else:
/// what is left neither begins nor ends with any, and only white space was
/// around it.
pub proof fn law_trimming_takes_the_white_space_around(s: Seq<char>)
    ensures
        ({
            let t = trimmed(s);
            &&& t.len() > 0 ==> !is_white(t[0]) && !is_white(t.last())
            &&& exists|a: int|
                0 <= a && a + t.len() <= s.len() && #[trigger] s.subrange(a, a + t.len()) == t && (forall|i: int|
                    0 <= i < a ==> is_white(#[trigger] s[i])) && (forall|i: int|
                    a + t.len() <= i < s.len() ==> is_white(#[trigger] s[i]))
        }),
{
    let a = lemma_trim_start(s);
    let mid = trim_start(s);
    let b = lemma_trim_end(mid);
    let t = trimmed(s);
    assert(s.subrange(a, a + t.len()) =~= t);
    assert forall|i: int| a + t.len() <= i < s.len() implies is_white(#[trigger] s[i]) by {
        assert(mid[i - a] == s[i]);
    }
    if t.len() > 0 {
        assert(t[0] == s[a]);
        assert(t.last() == mid[b - 1]);
    }
}

/// Pieces put together again, with the separator between them.
pub open spec fn together(parts: Seq<Seq<char>>, c: char) -> Seq<char>
    decreases parts.len(),
{
    if parts.len() == 0 {
        Seq::empty()
    } else if parts.len() == 1 {
        parts[0]
    } else {
        parts[0].push(c) + together(parts.drop_first(), c)
    }
}

/// A text is cut at every separator and only there: no piece holds one, and
/// put together again the pieces are the text.
pub proof fn law_pieces_make_up_the_text(s: Seq<char>, c: char)
    ensures
        pieces(s, c).len() > 0,
        together(pieces(s, c), c) == s,
        forall|i: int| 0 <= i < pieces(s, c).len() ==> !(#[trigger] pieces(s, c)[i]).contains(c),
    decreases s.len(),
{
    law_characters_are_found_first(s, c, 0);
    let at = index_from(s, c, 0);
    if at < s.len() {
        let rest = s.skip(at + 1);
        law_pieces_make_up_the_text(rest, c);
        let all = pieces(s, c);
        assert(all.drop_first() =~= pieces(rest, c));
        assert(s.take(at).push(c) + rest =~= s);
        assert forall|i: int| 0 <= i < all.len() implies !(#[trigger] all[i]).contains(c) by {
            if i > 0 {
                assert(all[i] == pieces(rest, c)[i - 1]);
            }
        }
    }
}

/// Small letters become capitals and back, and every other character stays.
pub proof fn law_letters_change_case_and_back(c: char)
    ensures
        'a' <= c <= 'z' ==> 'A' <= ascii_upper(c) <= 'Z' && ascii_lower(ascii_upper(c)) == c,
        !('a' <= c <= 'z') ==> ascii_upper(c) == c,
        'A' <= c <= 'Z' ==> 'a' <= ascii_lower(c) <= 'z' && ascii_upper(ascii_lower(c)) == c,
        !('A' <= c <= 'Z') ==> ascii_lower(c) == c,
{
}

} // verus!
