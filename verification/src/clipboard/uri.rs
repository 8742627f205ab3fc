//! Lists of local files as URIs.

use super::mime::{texts, GNOME_FILES_MIME, URI_LIST_MIME};
use crate::text::{
    chars_of, find_char, index_from, is_white, lemma_index_from, lemma_index_is, text_eq, text_of, trim_end, trim_range,
    trim_start, trimmed, utf8_string,
};
use vstd::prelude::*;
use vstd::utf8::{
    decode_utf8, encode_scalar, encode_utf8, encode_utf8_decode_utf8, encode_utf8_valid_utf8,
    is_ascii_chars_encode_utf8, valid_utf8,
};

verus! {

/// The value of a hexadecimal digit.
pub open spec fn hex_value(b: u8) -> Option<u8> {
    if 48 <= b <= 57 {
        Some((b - 48) as u8)
    } else if 65 <= b <= 70 {
        Some((b - 55) as u8)
    } else if 97 <= b <= 102 {
        Some((b - 87) as u8)
    } else {
        None
    }
}

fn hex_digit(b: u8) -> (v: Option<u8>)
    ensures
        v == hex_value(b),
{
    if 48 <= b && b <= 57 {
        Some(b - 48)
    } else if 65 <= b && b <= 70 {
        Some(b - 55)
    } else if 97 <= b && b <= 102 {
        Some(b - 87)
    } else {
        None
    }
}

/// The byte that two hexadecimal digits behind a percent sign write.
pub open spec fn hex_pair(a: u8, b: u8) -> Option<u8> {
    match (hex_value(a), hex_value(b)) {
        (Some(high), Some(low)) => Some((16 * high + low) as u8),
        _ => None,
    }
}

/// Bytes with their percent escapes resolved, from `i` on; `None` where an
/// escape is malformed.
pub open spec fn unescaped_from(s: Seq<u8>, i: int) -> Option<Seq<u8>>
    decreases s.len() - i,
{
    if i < 0 || i >= s.len() {
        Some(Seq::empty())
    } else if s[i] == 37 {
        if i + 3 > s.len() {
            None
        } else {
            match (hex_pair(s[i + 1], s[i + 2]), unescaped_from(s, i + 3)) {
                (Some(v), Some(rest)) => Some(seq![v] + rest),
                _ => None,
            }
        }
    } else {
        match unescaped_from(s, i + 1) {
            Some(rest) => Some(seq![s[i]] + rest),
            None => None,
        }
    }
}

/// A text with its percent escapes resolved; `None` where one is malformed or
/// the bytes are no text.
pub open spec fn percent_decoded(s: Seq<char>) -> Option<Seq<char>> {
    match unescaped_from(encode_utf8(s), 0) {
        None => None,
        Some(bytes) => if valid_utf8(bytes) {
            Some(decode_utf8(bytes))
        } else {
            None
        },
    }
}

fn percent_decode(s: &str) -> (res: Option<String>)
    ensures
        match (res, percent_decoded(s@)) {
            (Some(got), Some(want)) => got@ == want,
            (None, None) => true,
            _ => false,
        },
{
    let bytes = s.as_bytes();
    let mut out: Vec<u8> = Vec::new();
    let mut i: usize = 0;
    while i < bytes.len()
        invariant
            i <= bytes@.len(),
            bytes@ == encode_utf8(s@),
            match unescaped_from(bytes@, i as int) {
                Some(rest) => unescaped_from(bytes@, 0) == Some(out@ + rest),
                None => unescaped_from(bytes@, 0) is None,
            },
        decreases bytes@.len() - i,
    {
        let ghost before = out@;
        let b: u8 = bytes[i];
        if b == 37 {
            if bytes.len() - i < 3 {
                return None;
            }
            let v: u8 = match (hex_digit(bytes[i + 1]), hex_digit(bytes[i + 2])) {
                (Some(high), Some(low)) => 16 * high + low,
                _ => return None,
            };
            out.push(v);
            proof {
                if let Some(rest) = unescaped_from(bytes@, i + 3) {
                    assert(before + (seq![v] + rest) =~= out@ + rest);
                }
            }
            i = i + 3;
        } else {
            out.push(b);
            proof {
                if let Some(rest) = unescaped_from(bytes@, i + 1) {
                    assert(before + (seq![b] + rest) =~= out@ + rest);
                }
            }
            i = i + 1;
        }
    }
    assert(out@ + Seq::<u8>::empty() =~= out@);
    utf8_string(out)
}

/// The bytes written as themselves in a URI path: ASCII letters, digits and
/// `/-._~!$&'()*+,;=:@`.
pub open spec fn kept(b: u8) -> bool {
    ||| 48 <= b <= 57
    ||| 65 <= b <= 90
    ||| 97 <= b <= 122
    ||| b == 33
    ||| b == 36
    ||| 38 <= b <= 47
    ||| b == 58
    ||| b == 59
    ||| b == 61
    ||| b == 64
    ||| b == 95
    ||| b == 126
}

/// A number below 16 as an upper-case hexadecimal digit.
pub open spec fn hex_char(v: u8) -> char {
    if v < 10 {
        (48 + v) as char
    } else {
        (55 + v) as char
    }
}

/// A byte as it stands in a URI path.
pub open spec fn escaped_byte(b: u8) -> Seq<char> {
    if kept(b) {
        seq![b as char]
    } else {
        seq!['%', hex_char(b / 16), hex_char(b % 16)]
    }
}

/// Bytes as they stand in a URI path.
pub open spec fn escaped(bytes: Seq<u8>) -> Seq<char>
    decreases bytes.len(),
{
    if bytes.len() == 0 {
        Seq::empty()
    } else {
        escaped(bytes.drop_last()) + escaped_byte(bytes.last())
    }
}

fn hex(v: u8) -> (c: char)
    requires
        v < 16,
    ensures
        c == hex_char(v),
{
    if v < 10 {
        (48 + v) as char
    } else {
        (55 + v) as char
    }
}

/// Append a path, escaped.
fn push_escaped(out: &mut String, path: &str)
    ensures
        final(out)@ == old(out)@ + escaped(encode_utf8(path@)),
{
    let bytes = path.as_bytes();
    let ghost start = out@;
    assert(start =~= start + escaped(bytes@.take(0)));
    for i in 0..bytes.len()
        invariant
            bytes@ == encode_utf8(path@),
            out@ == start + escaped(bytes@.take(i as int)),
    {
        let b: u8 = bytes[i];
        let keep: bool = (48 <= b && b <= 57) || (65 <= b && b <= 90) || (97 <= b && b <= 122) || b == 33 || b == 36
            || (38 <= b && b <= 47) || b == 58 || b == 59 || b == 61 || b == 64 || b == 95 || b == 126;
        if keep {
            out.push(b as char);
        } else {
            out.push('%');
            out.push(hex(b / 16));
            out.push(hex(b % 16));
        }
        proof {
            assert(bytes@.take(i + 1).drop_last() =~= bytes@.take(i as int));
            assert(out@ =~= start + escaped(bytes@.take(i + 1)));
        }
    }
    assert(bytes@.take(bytes@.len() as int) =~= bytes@);
}

/// The URI of a local path.
pub open spec fn file_uri(path: Seq<char>) -> Seq<char> {
    "file://"@ + escaped(encode_utf8(path))
}

/// A `text/uri-list` body.
pub open spec fn uri_list_of(paths: Seq<Seq<char>>) -> Seq<char>
    decreases paths.len(),
{
    if paths.len() == 0 {
        Seq::empty()
    } else {
        uri_list_of(paths.drop_last()) + file_uri(paths.last()) + "\r\n"@
    }
}

/// An `x-special/gnome-copied-files` body.
pub open spec fn gnome_list_of(paths: Seq<Seq<char>>) -> Seq<char>
    decreases paths.len(),
{
    if paths.len() == 0 {
        "copy"@
    } else {
        gnome_list_of(paths.drop_last()) + "\n"@ + file_uri(paths.last())
    }
}

/// A `text/uri-list` body for local absolute paths (CRLF-separated, as the
/// format requires).
pub fn uri_list(paths: &[String]) -> (s: String)
    ensures
        s@ == uri_list_of(texts(paths@)),
{
    let ghost all = texts(paths@);
    let mut s = String::new();
    for i in 0..paths.len()
        invariant
            all == texts(paths@),
            s@ == uri_list_of(all.take(i as int)),
    {
        let ghost before = s@;
        s.append("file://");
        push_escaped(&mut s, paths[i].as_str());
        s.append("\r\n");
        proof {
            assert(all[i as int] == paths@[i as int]@);
            assert(all.take(i + 1).drop_last() =~= all.take(i as int));
            assert(s@ =~= before + file_uri(all[i as int]) + "\r\n"@);
        }
    }
    assert(all.take(all.len() as int) =~= all);
    s
}

/// An `x-special/gnome-copied-files` body: a `copy` verb then one URI per line.
pub fn gnome_copied_files(paths: &[String]) -> (s: String)
    ensures
        s@ == gnome_list_of(texts(paths@)),
{
    let ghost all = texts(paths@);
    let mut s: String = "copy".to_string();
    for i in 0..paths.len()
        invariant
            all == texts(paths@),
            s@ == gnome_list_of(all.take(i as int)),
    {
        let ghost before = s@;
        s.append("\n");
        s.append("file://");
        push_escaped(&mut s, paths[i].as_str());
        proof {
            assert(all[i as int] == paths@[i as int]@);
            assert(all.take(i + 1).drop_last() =~= all.take(i as int));
            assert(s@ =~= before + "\n"@ + file_uri(all[i as int]));
        }
    }
    assert(all.take(all.len() as int) =~= all);
    s
}

/// The body for a file-list mime type pointing at local copies.
pub fn file_list_body(mime: &str, paths: &[String]) -> (res: Option<String>)
    ensures
        mime@ == URI_LIST_MIME@ ==> (res matches Some(s) && s@ == uri_list_of(texts(paths@))),
        mime@ == GNOME_FILES_MIME@ ==> (res matches Some(s) && s@ == gnome_list_of(texts(paths@))),
        mime@ != URI_LIST_MIME@ && mime@ != GNOME_FILES_MIME@ ==> res is None,
{
    proof {
        reveal_strlit("text/uri-list");
        reveal_strlit("x-special/gnome-copied-files");
        assert(URI_LIST_MIME@.len() != GNOME_FILES_MIME@.len());
    }
    if text_eq(mime, URI_LIST_MIME) {
        Some(uri_list(paths))
    } else if text_eq(mime, GNOME_FILES_MIME) {
        Some(gnome_copied_files(paths))
    } else {
        None
    }
}

/// The local path a URI names: behind `file://` and an empty host or
/// `localhost`, percent escapes resolved, without a NUL.
pub open spec fn uri_path(uri: Seq<char>) -> Option<Seq<char>> {
    if uri.len() < 7 || uri.take(7) != "file://"@ {
        None
    } else {
        let rest = uri.skip(7);
        let slash = index_from(rest, '/', 0);
        if slash >= rest.len() || !(slash == 0 || rest.take(slash) == "localhost"@) {
            None
        } else {
            match percent_decoded(rest.skip(slash)) {
                None => None,
                Some(path) => if path.contains('\0') {
                    None
                } else {
                    Some(path)
                },
            }
        }
    }
}

/// The path a line of a list names, if any.
pub open spec fn line_path(line: Seq<char>) -> Option<Seq<char>> {
    uri_path(trimmed(line))
}

/// The paths the lines of a body name, in order.
pub open spec fn uri_paths(body: Seq<char>) -> Seq<Seq<char>>
    decreases body.len(),
{
    let at = index_from(body, '\n', 0);
    let rest = if 0 <= at < body.len() {
        uri_paths(body.skip(at + 1))
    } else {
        Seq::empty()
    };
    match line_path(body.take(at)) {
        Some(path) => seq![path] + rest,
        None => rest,
    }
}

fn has_nul(s: &str) -> (yes: bool)
    ensures
        yes == s@.contains('\0'),
{
    let chars: Vec<char> = chars_of(s);
    let at: usize = find_char(&chars, '\0', 0);
    proof {
        lemma_index_from(chars@, '\0', 0);
        if at < chars@.len() {
            assert(s@[at as int] == '\0');
        }
    }
    at < chars.len()
}

fn file_uri_to_path(uri: &Vec<char>) -> (res: Option<String>)
    ensures
        match (res, uri_path(uri@)) {
            (Some(got), Some(want)) => got@ == want,
            (None, None) => true,
            _ => false,
        },
{
    if uri.len() < 7 {
        return None;
    }
    let scheme: String = text_of(uri, 0, 7);
    assert(scheme@ =~= uri@.take(7));
    if !text_eq(scheme.as_str(), "file://") {
        return None;
    }
    let ghost rest = uri@.skip(7);
    // An authority (`file://host/path`) is only accepted when it is empty or
    // localhost; the path always starts at the first `/`.
    let slash: usize = find_char(uri, '/', 7);
    proof {
        lemma_index_from(uri@, '/', 7);
        lemma_index_is(rest, '/', 0, slash - 7);
    }
    if slash >= uri.len() {
        return None;
    }
    let host: String = text_of(uri, 7, slash);
    assert(host@ =~= rest.take(slash - 7));
    if !(slash == 7 || text_eq(host.as_str(), "localhost")) {
        return None;
    }
    let tail: String = text_of(uri, slash, uri.len());
    assert(tail@ =~= rest.skip(slash - 7));
    let path: String = match percent_decode(tail.as_str()) {
        Some(p) => p,
        None => return None,
    };
    if has_nul(path.as_str()) {
        return None;
    }
    Some(path)
}

/// Local paths from a `text/uri-list` or `x-special/gnome-copied-files` body.
/// Non-`file:` URIs and malformed lines are skipped.
pub fn parse_uri_list(body: &str) -> (paths: Vec<String>)
    ensures
        texts(paths@) == uri_paths(body@),
{
    let chars: Vec<char> = chars_of(body);
    let mut paths: Vec<String> = Vec::new();
    let mut start: usize = 0;
    assert(chars@.skip(0) =~= body@);
    assert(texts(paths@) + uri_paths(chars@.skip(0)) =~= uri_paths(body@));
    loop
        invariant
            start <= chars@.len(),
            uri_paths(body@) == texts(paths@) + uri_paths(chars@.skip(start as int)),
        decreases chars@.len() - start,
    {
        let at: usize = find_char(&chars, '\n', start);
        let (a, b) = trim_range(&chars, start, at);
        let line: String = text_of(&chars, a, b);
        let ghost left = chars@.skip(start as int);
        let ghost before = texts(paths@);
        let ghost tail = if at >= chars@.len() {
            Seq::empty()
        } else {
            uri_paths(chars@.skip(at + 1))
        };
        proof {
            lemma_index_from(chars@, '\n', start as int);
            lemma_index_is(left, '\n', 0, at - start);
            assert(left.take(at - start) =~= chars@.subrange(start as int, at as int));
            if at < chars@.len() {
                assert(left.skip(at - start + 1) =~= chars@.skip(at + 1));
            }
        }
        let line_chars: Vec<char> = chars_of(line.as_str());
        match file_uri_to_path(&line_chars) {
            Some(path) => {
                let ghost got = path@;
                let ghost old_paths = paths@;
                paths.push(path);
                proof {
                    assert(texts(paths@) =~= before.push(got));
                    assert(before + (seq![got] + tail) =~= texts(paths@) + tail);
                }
            },
            None => {},
        }
        if at >= chars.len() {
            assert(texts(paths@) + Seq::empty() =~= texts(paths@));
            return paths;
        }
        start = at + 1;
    }
}

/// The codes of characters.
spec fn codes(chars: Seq<char>) -> Seq<u8> {
    chars.map_values(|c: char| c as u8)
}

/// Escaped bytes start with the escape of the first.
proof fn lemma_escaped_first(bytes: Seq<u8>)
    requires
        bytes.len() > 0,
    ensures
        escaped(bytes) == escaped_byte(bytes[0]) + escaped(bytes.drop_first()),
    decreases bytes.len(),
{
    if bytes.len() == 1 {
        assert(bytes.drop_last() =~= Seq::empty());
        assert(bytes.drop_first() =~= Seq::empty());
        assert(escaped(Seq::<u8>::empty()) =~= Seq::empty());
        assert(escaped(bytes) =~= escaped_byte(bytes[0]) + escaped(bytes.drop_first()));
    } else {
        lemma_escaped_first(bytes.drop_last());
        assert(bytes.drop_last().drop_first() =~= bytes.drop_first().drop_last());
        assert(escaped(bytes) =~= escaped_byte(bytes[0]) + escaped(bytes.drop_first()));
    }
}

/// Escaped text consists of visible ASCII characters.
proof fn lemma_escaped_visible(bytes: Seq<u8>)
    ensures
        forall|i: int| 0 <= i < escaped(bytes).len() ==> visible(#[trigger] escaped(bytes)[i]),
        bytes.len() > 0 ==> escaped(bytes).len() > 0,
    decreases bytes.len(),
{
    if bytes.len() > 0 {
        let rest = escaped(bytes.drop_last());
        let last = escaped_byte(bytes.last());
        lemma_escaped_visible(bytes.drop_last());
        assert forall|i: int| 0 <= i < last.len() implies visible(#[trigger] last[i]) by {
            let b = bytes.last();
            if !kept(b) {
                assert(visible(hex_char(b / 16)));
                assert(visible(hex_char(b % 16)));
            }
        }
        assert forall|i: int| 0 <= i < escaped(bytes).len() implies visible(#[trigger] escaped(bytes)[i]) by {
            if i < rest.len() {
                assert(escaped(bytes)[i] == rest[i]);
            } else {
                assert(escaped(bytes)[i] == last[i - rest.len()]);
            }
        }
    }
}

/// A visible ASCII character.
spec fn visible(c: char) -> bool {
    '!' <= c && c <= '~'
}

/// Escapes are resolved to what was escaped.
proof fn lemma_unescape(s: Seq<u8>, i: int, bytes: Seq<u8>)
    requires
        0 <= i <= s.len(),
        s.skip(i) == codes(escaped(bytes)),
    ensures
        unescaped_from(s, i) == Some(bytes),
    decreases bytes.len(),
{
    if bytes.len() == 0 {
        assert(s.skip(i).len() == 0);
        assert(bytes =~= Seq::empty());
    } else {
        lemma_escaped_first(bytes);
        let b = bytes[0];
        let head = escaped_byte(b);
        let tail = escaped(bytes.drop_first());
        assert(codes(escaped(bytes)) =~= codes(head) + codes(tail));
        assert(s.skip(i) =~= codes(head) + codes(tail));
        let n = head.len() as int;
        assert(s.skip(i + n) =~= s.skip(i).skip(n));
        assert(s.skip(i + n) =~= codes(tail));
        lemma_unescape(s, i + n, bytes.drop_first());
        assert(s[i] == s.skip(i)[0]);
        assert(bytes =~= seq![b] + bytes.drop_first());
        if kept(b) {
            assert(s[i] == b);
            assert(b != 37);
        } else {
            assert(s[i] == 37);
            assert(s[i + 1] == s.skip(i)[1]);
            assert(s[i + 2] == s.skip(i)[2]);
            assert(hex_pair(s[i + 1], s[i + 2]) == Some(b));
        }
    }
}

/// Resolving the escapes of an escaped path gives the path back.
pub proof fn law_percent_round_trip(path: Seq<char>)
    ensures
        percent_decoded(escaped(encode_utf8(path))) == Some(path),
{
    let bytes = encode_utf8(path);
    let text = escaped(bytes);
    lemma_escaped_visible(bytes);
    assert forall|i: int| 0 <= i < text.len() implies '\0' <= #[trigger] text[i] <= '\u{7f}' by {
        assert(visible(text[i]));
    }
    is_ascii_chars_encode_utf8(text);
    assert(encode_utf8(text) =~= codes(text));
    assert(encode_utf8(text).skip(0) =~= codes(text));
    lemma_unescape(encode_utf8(text), 0, bytes);
    encode_utf8_valid_utf8(path);
    encode_utf8_decode_utf8(path);
}

/// An absolute path that a URI can name.
pub open spec fn plain_absolute(path: Seq<char>) -> bool {
    path.len() > 0 && path[0] == '/' && !path.contains('\0')
}

/// A path is read back from its URI.
pub proof fn law_file_uri_names_its_path(path: Seq<char>)
    requires
        plain_absolute(path),
    ensures
        uri_path(file_uri(path)) == Some(path),
{
    reveal_strlit("file://");
    let bytes = encode_utf8(path);
    let text = escaped(bytes);
    let uri = file_uri(path);
    assert(uri.take(7) =~= "file://"@);
    assert(uri.skip(7) =~= text);
    assert(encode_scalar('/' as u32) =~= seq![47u8]) by {
        assert(47u32 & 0x7F == 47) by (bit_vector);
    }
    assert(bytes[0] == 47);
    lemma_escaped_first(bytes);
    assert(text[0] == '/');
    assert(index_from(text, '/', 0) == 0);
    assert(text.skip(0) =~= text);
    law_percent_round_trip(path);
}

/// White space at neither end: nothing to trim.
proof fn lemma_nothing_to_trim(s: Seq<char>)
    requires
        s.len() > 0,
        !is_white(s[0]),
        !is_white(s.last()),
    ensures
        trimmed(s) == s,
        trimmed(s + "\r"@) == s,
{
    reveal_strlit("\r");
    let t = s + "\r"@;
    assert(t.last() == '\r');
    assert(t[0] == s[0]);
    assert(t.drop_last() =~= s);
    assert(trim_start(t) == t);
    assert(trim_end(t) == trim_end(t.drop_last()));
}

/// The URI of a path is one visible word.
proof fn lemma_uri_is_a_word(path: Seq<char>)
    requires
        plain_absolute(path),
    ensures
        file_uri(path).len() > 0,
        !is_white(file_uri(path)[0]),
        !is_white(file_uri(path).last()),
        forall|i: int| 0 <= i < file_uri(path).len() ==> (#[trigger] file_uri(path)[i]) != '\n',
{
    reveal_strlit("file://");
    let bytes = encode_utf8(path);
    lemma_escaped_visible(bytes);
    assert(encode_scalar(path[0] as u32).len() > 0);
    assert(bytes.len() > 0);
    let text = escaped(bytes);
    assert(file_uri(path).last() == text[text.len() - 1]);
    assert(visible(text[text.len() - 1]));
    assert forall|i: int| 0 <= i < file_uri(path).len() implies (#[trigger] file_uri(path)[i]) != '\n' by {
        if i >= 7 {
            assert(file_uri(path)[i] == text[i - 7]);
            assert(visible(text[i - 7]));
        }
    }
}

proof fn lemma_uri_list_first(paths: Seq<Seq<char>>)
    requires
        paths.len() > 0,
    ensures
        uri_list_of(paths) == (file_uri(paths[0]) + "\r\n"@) + uri_list_of(paths.drop_first()),
    decreases paths.len(),
{
    if paths.len() == 1 {
        assert(paths.drop_last() =~= Seq::empty());
        assert(paths.drop_first() =~= Seq::empty());
        assert(uri_list_of(paths) =~= (file_uri(paths[0]) + "\r\n"@) + uri_list_of(paths.drop_first()));
    } else {
        lemma_uri_list_first(paths.drop_last());
        assert(paths.drop_last().drop_first() =~= paths.drop_first().drop_last());
        assert(uri_list_of(paths) =~= (file_uri(paths[0]) + "\r\n"@) + uri_list_of(paths.drop_first()));
    }
}

/// A `text/uri-list` body names the absolute paths it was made of.
pub proof fn law_uri_list_round_trip(paths: Seq<Seq<char>>)
    requires
        forall|i: int| 0 <= i < paths.len() ==> plain_absolute(#[trigger] paths[i]),
    ensures
        uri_paths(uri_list_of(paths)) == paths,
    decreases paths.len(),
{
    let body = uri_list_of(paths);
    if paths.len() == 0 {
        assert(body.take(0) =~= Seq::empty());
        assert(trimmed(Seq::<char>::empty()) =~= Seq::empty());
        assert(paths =~= Seq::empty());
    } else {
        let first = paths[0];
        let others = paths.drop_first();
        assert forall|i: int| 0 <= i < others.len() implies plain_absolute(#[trigger] others[i]) by {
            assert(others[i] == paths[i + 1]);
        }
        law_uri_list_round_trip(others);
        lemma_uri_list_first(paths);
        lemma_uri_is_a_word(first);
        reveal_strlit("\r\n");
        reveal_strlit("\r");
        let uri = file_uri(first);
        let at = uri.len() as int + 1;
        assert forall|i: int| 0 <= i < at implies body[i] != '\n' by {
            if i < uri.len() {
                assert(body[i] == uri[i]);
            }
        }
        assert(body[at] == '\n');
        lemma_index_is(body, '\n', 0, at);
        assert(body.take(at) =~= uri + "\r"@);
        assert(body.skip(at + 1) =~= uri_list_of(others));
        lemma_nothing_to_trim(uri);
        law_file_uri_names_its_path(first);
        assert(paths =~= seq![first] + others);
    }
}

proof fn lemma_gnome_list_first(paths: Seq<Seq<char>>)
    ensures
        gnome_list_of(paths) == "copy"@ + uri_lines(paths),
    decreases paths.len(),
{
    if paths.len() == 0 {
        assert("copy"@ + Seq::<char>::empty() =~= "copy"@);
    } else {
        lemma_gnome_list_first(paths.drop_last());
        lemma_uri_lines_last(paths);
        assert(gnome_list_of(paths) =~= "copy"@ + uri_lines(paths));
    }
}

/// One URI per line, each behind a line break.
spec fn uri_lines(paths: Seq<Seq<char>>) -> Seq<char>
    decreases paths.len(),
{
    if paths.len() == 0 {
        Seq::empty()
    } else {
        "\n"@ + file_uri(paths[0]) + uri_lines(paths.drop_first())
    }
}

proof fn lemma_uri_lines_last(paths: Seq<Seq<char>>)
    requires
        paths.len() > 0,
    ensures
        uri_lines(paths) == uri_lines(paths.drop_last()) + "\n"@ + file_uri(paths.last()),
    decreases paths.len(),
{
    if paths.len() == 1 {
        assert(paths.drop_last() =~= Seq::empty());
        assert(paths.drop_first() =~= Seq::empty());
        assert(uri_lines(paths) =~= uri_lines(paths.drop_last()) + "\n"@ + file_uri(paths.last()));
    } else {
        lemma_uri_lines_last(paths.drop_first());
        assert(paths.drop_last().drop_first() =~= paths.drop_first().drop_last());
        assert(uri_lines(paths) =~= uri_lines(paths.drop_last()) + "\n"@ + file_uri(paths.last()));
    }
}

/// Lines behind a first line without a line break: that line, then theirs.
proof fn lemma_lines_behind(first: Seq<char>, paths: Seq<Seq<char>>)
    requires
        forall|i: int| 0 <= i < first.len() ==> (#[trigger] first[i]) != '\n',
        forall|i: int| 0 <= i < paths.len() ==> plain_absolute(#[trigger] paths[i]),
    ensures
        uri_paths(first + uri_lines(paths)) == (match line_path(first) {
            Some(p) => seq![p] + paths,
            None => paths,
        }),
    decreases paths.len(),
{
    let body = first + uri_lines(paths);
    reveal_strlit("\n");
    if paths.len() == 0 {
        assert(body =~= first);
        lemma_index_is(body, '\n', 0, body.len() as int);
        assert(body.take(body.len() as int) =~= first);
        assert(paths =~= Seq::empty());
    } else {
        let others = paths.drop_first();
        let uri = file_uri(paths[0]);
        assert forall|i: int| 0 <= i < others.len() implies plain_absolute(#[trigger] others[i]) by {
            assert(others[i] == paths[i + 1]);
        }
        lemma_uri_is_a_word(paths[0]);
        lemma_lines_behind(uri, others);
        lemma_nothing_to_trim(uri);
        law_file_uri_names_its_path(paths[0]);
        let at = first.len() as int;
        assert(body[at] == '\n');
        assert forall|i: int| 0 <= i < at implies body[i] != '\n' by {
            assert(body[i] == first[i]);
        }
        lemma_index_is(body, '\n', 0, at);
        assert(body.take(at) =~= first);
        assert(body.skip(at + 1) =~= uri + uri_lines(others));
        assert(seq![paths[0]] + others =~= paths);
    }
}

/// An `x-special/gnome-copied-files` body names the absolute paths it was
/// made of.
pub proof fn law_gnome_list_round_trip(paths: Seq<Seq<char>>)
    requires
        forall|i: int| 0 <= i < paths.len() ==> plain_absolute(#[trigger] paths[i]),
    ensures
        uri_paths(gnome_list_of(paths)) == paths,
{
    reveal_strlit("copy");
    lemma_gnome_list_first(paths);
    lemma_lines_behind("copy"@, paths);
    lemma_nothing_to_trim("copy"@);
}

/// A byte of a path is written as itself where it is a letter, a digit or one
/// of the marks that a path may hold.
pub proof fn law_what_is_written_as_itself(b: u8)
    ensures
        kept(b) <==> '0' <= b as char <= '9' || 'A' <= b as char <= 'Z' || 'a' <= b as char <= 'z'
            || "/-._~!$&'()*+,;=:@"@.contains(b as char),
{
    let marks = "/-._~!$&'()*+,;=:@"@;
    reveal_strlit("/-._~!$&'()*+,;=:@");
    assert(marks =~= seq![
        '/',
        '-',
        '.',
        '_',
        '~',
        '!',
        '$',
        '&',
        '\'',
        '(',
        ')',
        '*',
        '+',
        ',',
        ';',
        '=',
        ':',
        '@',
    ]);
    assert(marks[0] == '/' && marks[1] == '-' && marks[2] == '.' && marks[3] == '_' && marks[4] == '~' && marks[5]
        == '!');
    assert(marks[6] == '$' && marks[7] == '&' && marks[8] == '\'' && marks[9] == '(' && marks[10] == ')' && marks[11]
        == '*');
    assert(marks[12] == '+' && marks[13] == ',' && marks[14] == ';' && marks[15] == '=' && marks[16] == ':' && marks[17]
        == '@');
}

/// Every other byte is written as a percent sign and its two hexadecimal
/// digits, in capitals.
pub proof fn law_other_bytes_are_written_in_hexadecimal(b: u8)
    ensures
        kept(b) ==> escaped_byte(b) == seq![b as char],
        !kept(b) ==> escaped_byte(b) == seq![
            '%',
            "0123456789ABCDEF"@[b as int / 16],
            "0123456789ABCDEF"@[b as int % 16],
        ],
{
    reveal_strlit("0123456789ABCDEF");
    let digits = "0123456789ABCDEF"@;
    assert(forall|k: int| 0 <= k < 10 ==> #[trigger] digits[k] == (48 + k) as char);
    assert(digits[10] == 'A' && digits[11] == 'B' && digits[12] == 'C' && digits[13] == 'D' && digits[14] == 'E'
        && digits[15] == 'F');
    assert(hex_char(b / 16) == digits[b as int / 16]);
    assert(hex_char(b % 16) == digits[b as int % 16]);
}

} // verus!
