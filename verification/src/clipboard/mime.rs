//! Which mime types are offered, advertised and read.

use crate::text::{chars_of, has_white, is_white, text_eq, text_of, trim_range, trimmed, white};
use vstd::prelude::*;

verus! {

/// Mime type the pasting side uses for text it received as any text flavour.
pub const TEXT_MIME: &'static str = "text/plain;charset=utf-8";

/// Text flavours, best first; they are interchangeable for our purposes.
pub const TEXT_MIMES: [&'static str; 5] = ["text/plain;charset=utf-8", "text/plain", "UTF8_STRING", "STRING", "TEXT"];

/// Mime types that carry a list of local files. They are consumed at offer
/// time and regenerated on the pasting side.
pub const URI_LIST_MIME: &'static str = "text/uri-list";

pub const GNOME_FILES_MIME: &'static str = "x-special/gnome-copied-files";

pub const FILE_MIMES: [&'static str; 2] = ["text/uri-list", "x-special/gnome-copied-files"];

/// X11 selection atoms that name no data; some apps still advertise them.
pub const NON_DATA_TARGETS: [&'static str; 7] = [
    "TARGETS",
    "TIMESTAMP",
    "MULTIPLE",
    "SAVE_TARGETS",
    "DELETE",
    "INSERT_PROPERTY",
    "INSERT_SELECTION",
];

/// Whether `m` is one of `names`.
pub open spec fn named(names: Seq<&str>, m: Seq<char>) -> bool {
    exists|i: int| 0 <= i < names.len() && (#[trigger] names[i])@ == m
}

pub open spec fn text_mime(m: Seq<char>) -> bool {
    named(TEXT_MIMES@, m)
}

pub open spec fn file_mime(m: Seq<char>) -> bool {
    named(FILE_MIMES@, m)
}

/// The texts of strings.
pub open spec fn texts(list: Seq<String>) -> Seq<Seq<char>> {
    list.map_values(|s: String| s@)
}

/// The texts of string slices.
pub open spec fn names_of(list: Seq<&str>) -> Seq<Seq<char>> {
    list.map_values(|s: &str| s@)
}

fn among(names: &[&str], m: &str) -> (yes: bool)
    ensures
        yes == named(names@, m@),
{
    for i in 0..names.len()
        invariant
            forall|k: int| 0 <= k < i ==> (#[trigger] names@[k])@ != m@,
    {
        if text_eq(names[i], m) {
            return true;
        }
    }
    false
}

pub fn is_text_mime(mime: &str) -> (yes: bool)
    ensures
        yes == text_mime(mime@),
{
    among(&TEXT_MIMES, mime)
}

pub fn is_file_mime(mime: &str) -> (yes: bool)
    ensures
        yes == file_mime(mime@),
{
    among(&FILE_MIMES, mime)
}

/// Whether `offered` includes a file list.
pub fn offers_files(offered: &[String]) -> (yes: bool)
    ensures
        yes == exists|i: int| 0 <= i < offered@.len() && file_mime((#[trigger] offered@[i])@),
{
    for i in 0..offered.len()
        invariant
            forall|k: int| 0 <= k < i ==> !file_mime((#[trigger] offered@[k])@),
    {
        if is_file_mime(offered[i].as_str()) {
            return true;
        }
    }
    false
}

/// Whether a trimmed type is data of its own: not an atom, not a file list,
/// not a text flavour, and one word.
pub open spec fn is_data(m: Seq<char>) -> bool {
    m.len() > 0 && !named(NON_DATA_TARGETS@, m) && !file_mime(m) && !has_white(m) && !text_mime(m)
}

/// The data types among the first `n` offered, each once, in order of first
/// appearance.
pub open spec fn data_types(offered: Seq<Seq<char>>, n: int) -> Seq<Seq<char>>
    decreases n,
{
    if n <= 0 {
        Seq::empty()
    } else {
        let m = trimmed(offered[n - 1]);
        let before = data_types(offered, n - 1);
        if is_data(m) && !before.contains(m) {
            before.push(m)
        } else {
            before
        }
    }
}

/// Whether a text flavour is among the first `n` offered.
pub open spec fn has_text(offered: Seq<Seq<char>>, n: int) -> bool {
    exists|i: int| 0 <= i < n && text_mime(trimmed(#[trigger] offered[i]))
}

/// What is forwarded of an offer: every text flavour if it has one, then its
/// other data types.
pub open spec fn forwarded(offered: Seq<Seq<char>>) -> Seq<Seq<char>> {
    let n = offered.len() as int;
    (if has_text(offered, n) {
        names_of(TEXT_MIMES@)
    } else {
        Seq::empty()
    }) + data_types(offered, n)
}

fn holds(list: &Vec<String>, m: &str) -> (yes: bool)
    ensures
        yes == texts(list@).contains(m@),
{
    for i in 0..list.len()
        invariant
            forall|k: int| 0 <= k < i ==> (#[trigger] list@[k])@ != m@,
    {
        if text_eq(list[i].as_str(), m) {
            assert(texts(list@)[i as int] == m@);
            return true;
        }
    }
    proof {
        assert forall|k: int| 0 <= k < texts(list@).len() implies texts(list@)[k] != m@ by {
            assert(texts(list@)[k] == list@[k]@);
        }
    }
    false
}

fn any_white(m: &str) -> (yes: bool)
    ensures
        yes == has_white(m@),
{
    let chars: Vec<char> = chars_of(m);
    for i in 0..chars.len()
        invariant
            chars@ == m@,
            forall|k: int| 0 <= k < i ==> !is_white(#[trigger] m@[k]),
    {
        if white(chars[i]) {
            assert(is_white(m@[i as int]));
            return true;
        }
    }
    false
}

/// A text without the white space at its start and end.
fn trim(m: &str) -> (t: String)
    ensures
        t@ == trimmed(m@),
{
    let chars: Vec<char> = chars_of(m);
    let (a, b) = trim_range(&chars, 0, chars.len());
    assert(chars@.subrange(0, chars@.len() as int) =~= m@);
    text_of(&chars, a, b)
}

/// The text flavours as strings.
fn text_flavours() -> (list: Vec<String>)
    ensures
        texts(list@) == names_of(TEXT_MIMES@),
{
    let mut list: Vec<String> = Vec::new();
    for i in 0..5usize
        invariant
            list@.len() == i,
            forall|k: int| 0 <= k < i ==> (#[trigger] list@[k])@ == TEXT_MIMES@[k]@,
    {
        list.push(TEXT_MIMES[i].to_string());
    }
    assert(texts(list@) =~= names_of(TEXT_MIMES@));
    list
}

/// None of the special types is a text flavour, and every text flavour is
/// one word.
proof fn lemma_text_flavours(m: Seq<char>)
    requires
        text_mime(m),
    ensures
        m.len() > 0,
        !named(NON_DATA_TARGETS@, m),
        !file_mime(m),
        !has_white(m),
{
    reveal_strlit("text/plain;charset=utf-8");
    reveal_strlit("text/plain");
    reveal_strlit("UTF8_STRING");
    reveal_strlit("STRING");
    reveal_strlit("TEXT");
    reveal_strlit("text/uri-list");
    reveal_strlit("x-special/gnome-copied-files");
    reveal_strlit("TARGETS");
    reveal_strlit("TIMESTAMP");
    reveal_strlit("MULTIPLE");
    reveal_strlit("SAVE_TARGETS");
    reveal_strlit("DELETE");
    reveal_strlit("INSERT_PROPERTY");
    reveal_strlit("INSERT_SELECTION");
    let i = choose|i: int| 0 <= i < TEXT_MIMES@.len() && (#[trigger] TEXT_MIMES@[i])@ == m;
    assert(i == 0 || i == 1 || i == 2 || i == 3 || i == 4);
    assert forall|k: int| 0 <= k < NON_DATA_TARGETS@.len() implies (#[trigger] NON_DATA_TARGETS@[k])@ != m by {
        assert(k == 0 || k == 1 || k == 2 || k == 3 || k == 4 || k == 5 || k == 6);
        let n = NON_DATA_TARGETS@[k]@;
        assert(n.len() != m.len() || n[0] != m[0] || n[1] != m[1]);
    }
    assert forall|k: int| 0 <= k < FILE_MIMES@.len() implies (#[trigger] FILE_MIMES@[k])@ != m by {
        assert(k == 0 || k == 1);
        let n = FILE_MIMES@[k]@;
        assert(n.len() != m.len());
    }
}

/// The mime types worth advertising to the peer: real data types, minus the
/// file-list types (those become files), with duplicates removed and the
/// text flavours collapsed to what the pasting side regenerates anyway.
pub fn forwardable_mimes(offered: &[String]) -> (out: Vec<String>)
    ensures
        texts(out@) == forwarded(texts(offered@)),
{
    let ghost all = texts(offered@);
    let mut data: Vec<String> = Vec::new();
    let mut had_text: bool = false;
    assert(texts(data@) =~= Seq::empty());
    for i in 0..offered.len()
        invariant
            all == texts(offered@),
            texts(data@) == data_types(all, i as int),
            had_text == has_text(all, i as int),
    {
        let m: String = trim(offered[i].as_str());
        let ghost before = data@;
        assert(all[i as int] == offered@[i as int]@);
        if is_text_mime(m.as_str()) {
            proof {
                lemma_text_flavours(m@);
            }
            had_text = true;
        } else if !(m.as_str().is_empty() || among(&NON_DATA_TARGETS, m.as_str()) || is_file_mime(m.as_str())
            || any_white(m.as_str())) {
            if !holds(&data, m.as_str()) {
                data.push(m);
                assert(texts(data@) =~= texts(before).push(trimmed(all[i as int])));
            }
        }
        assert(had_text == has_text(all, i + 1)) by {
            if had_text && !has_text(all, i as int) {
                assert(text_mime(trimmed(all[i as int])));
            }
        }
    }
    if had_text {
        let mut out: Vec<String> = text_flavours();
        let ghost head = out@;
        let ghost tail = data@;
        out.append(&mut data);
        assert(texts(out@) =~= texts(head) + texts(tail));
        out
    } else {
        assert(texts(data@) =~= Seq::empty() + texts(data@));
        data
    }
}

/// The mime type to actually read from a local clipboard for a peer's
/// request: the exact type when present, otherwise any text flavour for a
/// text request.
pub open spec fn resolved(requested: Seq<char>, offered: Seq<Seq<char>>) -> Option<Seq<char>> {
    if offered.contains(requested) {
        Some(requested)
    } else if text_mime(requested) {
        first_flavour(offered, 0)
    } else {
        None
    }
}

/// The best text flavour offered, from flavour `i` on.
pub open spec fn first_flavour(offered: Seq<Seq<char>>, i: int) -> Option<Seq<char>>
    decreases 5 - i,
{
    if i < 0 || i >= 5 {
        None
    } else if offered.contains(TEXT_MIMES@[i]@) {
        Some(TEXT_MIMES@[i]@)
    } else {
        first_flavour(offered, i + 1)
    }
}

fn find_text<'a>(offered: &'a [String], m: &str) -> (res: Option<&'a str>)
    ensures
        match res {
            Some(s) => s@ == m@ && texts(offered@).contains(m@),
            None => !texts(offered@).contains(m@),
        },
{
    for i in 0..offered.len()
        invariant
            forall|k: int| 0 <= k < i ==> (#[trigger] offered@[k])@ != m@,
    {
        if text_eq(offered[i].as_str(), m) {
            assert(texts(offered@)[i as int] == m@);
            return Some(offered[i].as_str());
        }
    }
    proof {
        assert forall|k: int| 0 <= k < texts(offered@).len() implies texts(offered@)[k] != m@ by {
            assert(texts(offered@)[k] == offered@[k]@);
        }
    }
    None
}

/// The mime type to actually read from a local clipboard for a peer's
/// request: the exact type when present, otherwise any text flavour for a
/// text request.
pub fn resolve_mime<'a>(requested: &str, offered: &'a [String]) -> (res: Option<&'a str>)
    ensures
        match (res, resolved(requested@, texts(offered@))) {
            (Some(got), Some(want)) => got@ == want,
            (None, None) => true,
            _ => false,
        },
{
    if let Some(m) = find_text(offered, requested) {
        return Some(m);
    }
    if is_text_mime(requested) {
        for i in 0..5usize
            invariant
                first_flavour(texts(offered@), 0) == first_flavour(texts(offered@), i as int),
                !texts(offered@).contains(requested@),
                text_mime(requested@),
        {
            if let Some(m) = find_text(offered, TEXT_MIMES[i]) {
                return Some(m);
            }
        }
    }
    None
}

/// The types among the first `n` that are not file lists.
pub open spec fn without_file_mimes(mimes: Seq<Seq<char>>, n: int) -> Seq<Seq<char>>
    decreases n,
{
    if n <= 0 {
        Seq::empty()
    } else if file_mime(mimes[n - 1]) {
        without_file_mimes(mimes, n - 1)
    } else {
        without_file_mimes(mimes, n - 1).push(mimes[n - 1])
    }
}

/// What is advertised of a peer's offer: its types, with those of a file list
/// where the offer carries files, and only there.
pub open spec fn advertised(mimes: Seq<Seq<char>>, has_files: bool) -> Seq<Seq<char>> {
    without_file_mimes(mimes, mimes.len() as int) + (if has_files {
        names_of(FILE_MIMES@)
    } else {
        Seq::empty()
    })
}

/// What to advertise to the local compositor for a peer's offer: the peer's
/// mime types plus the file-list types when the offer carries files.
pub fn local_mimes_for_offer(mime_types: &[String], has_files: bool) -> (out: Vec<String>)
    ensures
        texts(out@) == advertised(texts(mime_types@), has_files),
{
    let ghost all = texts(mime_types@);
    let mut out: Vec<String> = Vec::new();
    assert(texts(out@) =~= Seq::empty());
    for i in 0..mime_types.len()
        invariant
            all == texts(mime_types@),
            texts(out@) == without_file_mimes(all, i as int),
    {
        let ghost before = out@;
        assert(all[i as int] == mime_types@[i as int]@);
        if !is_file_mime(mime_types[i].as_str()) {
            out.push(mime_types[i].clone());
            assert(texts(out@) =~= texts(before).push(all[i as int]));
        }
    }
    let ghost before = out@;
    if has_files {
        out.push(FILE_MIMES[0].to_string());
        out.push(FILE_MIMES[1].to_string());
        assert(texts(out@) =~= texts(before) + names_of(FILE_MIMES@));
    } else {
        assert(texts(out@) =~= texts(before) + Seq::empty());
    }
    out
}

/// Beside the text flavours, an offer is forwarded as data types of its own,
/// none of them twice.
pub proof fn law_forwarded_types_are_distinct_data(offered: Seq<Seq<char>>, n: int)
    requires
        0 <= n <= offered.len(),
    ensures
        data_types(offered, n).no_duplicates(),
        forall|i: int| 0 <= i < data_types(offered, n).len() ==> is_data(#[trigger] data_types(offered, n)[i]),
    decreases n,
{
    if n > 0 {
        law_forwarded_types_are_distinct_data(offered, n - 1);
    }
}

proof fn lemma_data_is_offered(offered: Seq<Seq<char>>, n: int, i: int)
    requires
        0 <= n <= offered.len(),
        0 <= i < data_types(offered, n).len(),
    ensures
        exists|k: int| 0 <= k < n && data_types(offered, n)[i] == trimmed(#[trigger] offered[k]),
    decreases n,
{
    let before = data_types(offered, n - 1);
    if i < before.len() {
        lemma_data_is_offered(offered, n - 1, i);
    } else {
        assert(data_types(offered, n)[i] == trimmed(offered[n - 1]));
    }
}

proof fn lemma_some_flavour(offered: Seq<Seq<char>>, i: int, k: int)
    requires
        0 <= i <= k < 5,
        offered.contains(TEXT_MIMES@[k]@),
    ensures
        first_flavour(offered, i) matches Some(m) && offered.contains(m),
    decreases k - i,
{
    if !offered.contains(TEXT_MIMES@[i]@) {
        lemma_some_flavour(offered, i + 1, k);
    }
}

/// Every type that is forwarded of a selection can be served from it, where
/// its types are named without white space around them.
pub proof fn law_forwarded_types_can_be_served(offered: Seq<Seq<char>>, i: int)
    requires
        forall|k: int| 0 <= k < offered.len() ==> trimmed(#[trigger] offered[k]) == offered[k],
        0 <= i < forwarded(offered).len(),
    ensures
        resolved(forwarded(offered)[i], offered) matches Some(m) && offered.contains(m),
{
    let n = offered.len() as int;
    let texts = if has_text(offered, n) {
        names_of(TEXT_MIMES@)
    } else {
        Seq::empty()
    };
    if i < texts.len() {
        assert(forwarded(offered)[i] == TEXT_MIMES@[i]@);
        assert(text_mime(TEXT_MIMES@[i]@));
        let k = choose|k: int| 0 <= k < n && text_mime(trimmed(#[trigger] offered[k]));
        let f = choose|f: int| 0 <= f < TEXT_MIMES@.len() && (#[trigger] TEXT_MIMES@[f])@ == offered[k];
        assert(offered.contains(TEXT_MIMES@[f]@));
        lemma_some_flavour(offered, 0, f);
    } else {
        let j = i - texts.len();
        assert(forwarded(offered)[i] == data_types(offered, n)[j]);
        lemma_data_is_offered(offered, n, j);
        let k = choose|k: int| 0 <= k < n && data_types(offered, n)[j] == trimmed(#[trigger] offered[k]);
        assert(offered[k] == forwarded(offered)[i]);
        assert(offered.contains(forwarded(offered)[i]));
    }
}

proof fn lemma_without_files(mimes: Seq<Seq<char>>, n: int, i: int)
    requires
        0 <= n <= mimes.len(),
        0 <= i < without_file_mimes(mimes, n).len(),
    ensures
        !file_mime(without_file_mimes(mimes, n)[i]),
    decreases n,
{
    if i < without_file_mimes(mimes, n - 1).len() {
        lemma_without_files(mimes, n - 1, i);
    }
}

/// A file list is advertised only of an offer that carries files, so that a
/// paste of it finds some.
pub proof fn law_file_lists_come_with_files(mimes: Seq<Seq<char>>, has_files: bool, i: int)
    requires
        0 <= i < advertised(mimes, has_files).len(),
        file_mime(advertised(mimes, has_files)[i]),
    ensures
        has_files,
{
    if !has_files {
        lemma_without_files(mimes, mimes.len() as int, i);
    }
}

/// The text flavours are these five and no other.
pub proof fn law_the_text_flavours(m: Seq<char>)
    ensures
        text_mime(m) <==> m == "text/plain;charset=utf-8"@ || m == "text/plain"@ || m == "UTF8_STRING"@ || m
            == "STRING"@ || m == "TEXT"@,
{
    assert(TEXT_MIMES@[0]@ == "text/plain;charset=utf-8"@);
    assert(TEXT_MIMES@[1]@ == "text/plain"@);
    assert(TEXT_MIMES@[2]@ == "UTF8_STRING"@);
    assert(TEXT_MIMES@[3]@ == "STRING"@);
    assert(TEXT_MIMES@[4]@ == "TEXT"@);
    assert(TEXT_MIMES@.len() == 5);
}

/// A file list is one of these two types and no other.
pub proof fn law_the_file_lists(m: Seq<char>)
    ensures
        file_mime(m) <==> m == "text/uri-list"@ || m == "x-special/gnome-copied-files"@,
{
    assert(FILE_MIMES@[0]@ == "text/uri-list"@);
    assert(FILE_MIMES@[1]@ == "x-special/gnome-copied-files"@);
    assert(FILE_MIMES@.len() == 2);
}

proof fn lemma_without_files_is_a_filter(mimes: Seq<Seq<char>>, n: int)
    requires
        0 <= n <= mimes.len(),
    ensures
        without_file_mimes(mimes, n) == mimes.take(n).filter(
            |m: Seq<char>| m != "text/uri-list"@ && m != "x-special/gnome-copied-files"@,
        ),
    decreases n,
{
    reveal(Seq::filter);
    let test = |m: Seq<char>| m != "text/uri-list"@ && m != "x-special/gnome-copied-files"@;
    if n > 0 {
        lemma_without_files_is_a_filter(mimes, n - 1);
        assert(mimes.take(n).drop_last() =~= mimes.take(n - 1));
        assert(mimes.take(n).last() == mimes[n - 1]);
        law_the_file_lists(mimes[n - 1]);
    } else {
        assert(mimes.take(0).filter(test) =~= Seq::empty());
    }
}

/// What is advertised of a peer's offer is complete and in order: every type
/// that is not a file list, as often and in the order it was offered, then the
/// two file lists exactly where there are files.
pub proof fn law_advertised_types_are_the_offered_ones(mimes: Seq<Seq<char>>, has_files: bool)
    ensures
        advertised(mimes, has_files) == mimes.filter(
            |m: Seq<char>| m != "text/uri-list"@ && m != "x-special/gnome-copied-files"@,
        ) + (if has_files {
            seq!["text/uri-list"@, "x-special/gnome-copied-files"@]
        } else {
            Seq::empty()
        }),
{
    lemma_without_files_is_a_filter(mimes, mimes.len() as int);
    assert(mimes.take(mimes.len() as int) =~= mimes);
    assert(names_of(FILE_MIMES@) =~= seq!["text/uri-list"@, "x-special/gnome-copied-files"@]);
}

proof fn lemma_data_is_kept(offered: Seq<Seq<char>>, n: int, k: int)
    requires
        0 <= k < n <= offered.len(),
        is_data(trimmed(offered[k])),
    ensures
        data_types(offered, n).contains(trimmed(offered[k])),
    decreases n,
{
    let before = data_types(offered, n - 1);
    let m = trimmed(offered[n - 1]);
    if k < n - 1 {
        lemma_data_is_kept(offered, n - 1, k);
        let i = choose|i: int| 0 <= i < before.len() && before[i] == trimmed(offered[k]);
        assert(data_types(offered, n)[i] == trimmed(offered[k]));
    } else if !before.contains(m) {
        assert(data_types(offered, n).last() == m);
        assert(data_types(offered, n)[before.len() as int] == m);
    }
}

proof fn lemma_data_keeps_its_order(offered: Seq<Seq<char>>, n: int, i: int, j: int, b: int)
    requires
        0 <= n <= offered.len(),
        0 <= i < j < data_types(offered, n).len(),
        0 <= b < n,
        trimmed(offered[b]) == data_types(offered, n)[j],
    ensures
        exists|a: int| 0 <= a < b && trimmed(#[trigger] offered[a]) == data_types(offered, n)[i],
    decreases n,
{
    let before = data_types(offered, n - 1);
    law_forwarded_types_are_distinct_data(offered, n - 1);
    law_forwarded_types_are_distinct_data(offered, n);
    if j < before.len() {
        if b < n - 1 {
            lemma_data_keeps_its_order(offered, n - 1, i, j, b);
        } else {
            lemma_data_is_offered(offered, n - 1, i);
        }
    } else {
        if b < n - 1 {
            lemma_data_is_kept(offered, n - 1, b);
        }
        assert(b == n - 1);
        lemma_data_is_offered(offered, n - 1, i);
    }
}

/// What is forwarded of a selection is complete: a text flavour brings all
/// five, best first, and behind them stands every type that is data of its
/// own; nothing else does.
pub proof fn law_forwarding_is_complete(offered: Seq<Seq<char>>)
    ensures
        ({
            let out = forwarded(offered);
            let has = exists|k: int| 0 <= k < offered.len() && text_mime(trimmed(#[trigger] offered[k]));
            let head: int = if has {
                5
            } else {
                0
            };
            &&& out.len() >= head
            &&& has ==> out.take(5) == seq![
                "text/plain;charset=utf-8"@,
                "text/plain"@,
                "UTF8_STRING"@,
                "STRING"@,
                "TEXT"@,
            ]
            &&& forall|k: int|
                0 <= k < offered.len() && is_data(trimmed(#[trigger] offered[k])) ==> out.skip(head).contains(
                    trimmed(offered[k]),
                )
            &&& forall|i: int|
                head <= i < out.len() ==> is_data(#[trigger] out[i]) && exists|k: int|
                    0 <= k < offered.len() && out[i] == trimmed(#[trigger] offered[k])
        }),
{
    let out = forwarded(offered);
    let n = offered.len() as int;
    let data = data_types(offered, n);
    let has = exists|k: int| 0 <= k < offered.len() && text_mime(trimmed(#[trigger] offered[k]));
    let head: int = if has {
        5
    } else {
        0
    };
    assert(has == has_text(offered, n));
    assert(names_of(TEXT_MIMES@).len() == 5);
    assert(out.skip(head) =~= data);
    if has {
        assert(out.take(5) =~= seq![
            "text/plain;charset=utf-8"@,
            "text/plain"@,
            "UTF8_STRING"@,
            "STRING"@,
            "TEXT"@,
        ]);
    }
    law_forwarded_types_are_distinct_data(offered, n);
    assert forall|k: int| 0 <= k < n && is_data(trimmed(#[trigger] offered[k])) implies out.skip(head).contains(
        trimmed(offered[k]),
    ) by {
        lemma_data_is_kept(offered, n, k);
    }
    assert forall|i: int| head <= i < out.len() implies is_data(#[trigger] out[i]) && exists|k: int|
        0 <= k < offered.len() && out[i] == trimmed(#[trigger] offered[k]) by {
        assert(out[i] == data[i - head]);
        lemma_data_is_offered(offered, n, i - head);
    }
}

/// Types are forwarded in the order of first appearance: before any place
/// where the later of two data types is offered, the earlier one was.
pub proof fn law_forwarding_keeps_the_order(offered: Seq<Seq<char>>, i: int, j: int, b: int)
    requires
        0 <= b < offered.len(),
        0 <= i < j < forwarded(offered).len(),
        !text_mime(forwarded(offered)[i]),
        forwarded(offered)[j] == trimmed(offered[b]),
    ensures
        exists|a: int| 0 <= a < b && trimmed(#[trigger] offered[a]) == forwarded(offered)[i],
{
    let n = offered.len() as int;
    let data = data_types(offered, n);
    let head = forwarded(offered).len() - data.len();
    if i < head {
        assert(forwarded(offered)[i] == TEXT_MIMES@[i]@);
        assert(text_mime(TEXT_MIMES@[i]@));
    }
    assert(forwarded(offered)[i] == data[i - head] && forwarded(offered)[j] == data[j - head]);
    lemma_data_keeps_its_order(offered, n, i - head, j - head, b);
}

/// A type is data of its own unless it is empty, holds white space, is a text
/// flavour, a file list, or one of the selection atoms that name no data.
pub proof fn law_what_counts_as_data(m: Seq<char>)
    ensures
        is_data(m) <==> {
            &&& m.len() > 0
            &&& forall|i: int| 0 <= i < m.len() ==> !is_white(#[trigger] m[i])
            &&& !text_mime(m)
            &&& m != "text/uri-list"@ && m != "x-special/gnome-copied-files"@
            &&& m != "TARGETS"@ && m != "TIMESTAMP"@ && m != "MULTIPLE"@ && m != "SAVE_TARGETS"@ && m != "DELETE"@ && m
                != "INSERT_PROPERTY"@ && m != "INSERT_SELECTION"@
        },
{
    law_the_file_lists(m);
    let atoms = NON_DATA_TARGETS@;
    assert(atoms.len() == 7);
    assert(atoms[0]@ == "TARGETS"@ && atoms[1]@ == "TIMESTAMP"@ && atoms[2]@ == "MULTIPLE"@ && atoms[3]@
        == "SAVE_TARGETS"@ && atoms[4]@ == "DELETE"@ && atoms[5]@ == "INSERT_PROPERTY"@ && atoms[6]@
        == "INSERT_SELECTION"@);
    if named(atoms, m) {
        let i = choose|i: int| 0 <= i < atoms.len() && (#[trigger] atoms[i])@ == m;
        assert(i == 0 || i == 1 || i == 2 || i == 3 || i == 4 || i == 5 || i == 6);
    }
}

proof fn lemma_first_flavour(offered: Seq<Seq<char>>, i: int)
    requires
        0 <= i <= 5,
    ensures
        match first_flavour(offered, i) {
            Some(m) => exists|k: int|
                i <= k < 5 && m == (#[trigger] TEXT_MIMES@[k])@ && offered.contains(m) && forall|j: int|
                    i <= j < k ==> !offered.contains((#[trigger] TEXT_MIMES@[j])@),
            None => forall|j: int| i <= j < 5 ==> !offered.contains((#[trigger] TEXT_MIMES@[j])@),
        },
    decreases 5 - i,
{
    if i < 5 && !offered.contains(TEXT_MIMES@[i]@) {
        lemma_first_flavour(offered, i + 1);
        if let Some(m) = first_flavour(offered, i + 1) {
            let k = choose|k: int|
                i + 1 <= k < 5 && m == (#[trigger] TEXT_MIMES@[k])@ && offered.contains(m) && forall|j: int|
                    i + 1 <= j < k ==> !offered.contains((#[trigger] TEXT_MIMES@[j])@);
            assert(m == TEXT_MIMES@[k]@);
        }
    } else if i < 5 {
        assert(TEXT_MIMES@[i]@ == first_flavour(offered, i)->0);
    }
}

/// A request is served from what is offered: by the very type where it is
/// there; a text request otherwise by a text flavour, if there is any, and by
/// the best of them; any other request not at all.
pub proof fn law_requests_resolve_to_the_best_offer(requested: Seq<char>, offered: Seq<Seq<char>>)
    ensures
        offered.contains(requested) ==> resolved(requested, offered) == Some(requested),
        resolved(requested, offered) matches Some(m) ==> offered.contains(m) && (m == requested || (text_mime(m)
            && text_mime(requested))),
        resolved(requested, offered) is None <==> !offered.contains(requested) && (text_mime(requested) ==> forall|
            m: Seq<char>,
        | #[trigger] offered.contains(m) ==> !text_mime(m)),
        resolved(requested, offered) matches Some(m) ==> m != requested ==> forall|j: int, k: int|
            0 <= j < k < 5 && (#[trigger] TEXT_MIMES@[k])@ == m && offered.contains((#[trigger] TEXT_MIMES@[j])@)
                ==> false,
{
    lemma_first_flavour(offered, 0);
    if !offered.contains(requested) && text_mime(requested) {
        match first_flavour(offered, 0) {
            None => {
                assert forall|m: Seq<char>| #[trigger] offered.contains(m) implies !text_mime(m) by {
                    if text_mime(m) {
                        let j = choose|j: int| 0 <= j < TEXT_MIMES@.len() && (#[trigger] TEXT_MIMES@[j])@ == m;
                        assert(!offered.contains(TEXT_MIMES@[j]@));
                    }
                }
            },
            Some(m) => {
                let k = choose|k: int|
                    0 <= k < 5 && m == (#[trigger] TEXT_MIMES@[k])@ && offered.contains(m) && forall|j: int|
                        0 <= j < k ==> !offered.contains((#[trigger] TEXT_MIMES@[j])@);
                assert(text_mime(m));
                assert forall|j: int, l: int|
                    0 <= j < l < 5 && (#[trigger] TEXT_MIMES@[l])@ == m && offered.contains(
                        (#[trigger] TEXT_MIMES@[j])@,
                    ) implies false by {
                    lemma_flavours_differ(k, l);
                }
            },
        }
    }
}

proof fn lemma_flavours_differ(k: int, l: int)
    requires
        0 <= k < 5,
        0 <= l < 5,
        TEXT_MIMES@[k]@ == TEXT_MIMES@[l]@,
    ensures
        k == l,
{
    reveal_strlit("text/plain;charset=utf-8");
    reveal_strlit("text/plain");
    reveal_strlit("UTF8_STRING");
    reveal_strlit("STRING");
    reveal_strlit("TEXT");
    assert(TEXT_MIMES@[0]@.len() == 24 && TEXT_MIMES@[1]@.len() == 10 && TEXT_MIMES@[2]@.len() == 11
        && TEXT_MIMES@[3]@.len() == 6 && TEXT_MIMES@[4]@.len() == 4);
    assert(k == 0 || k == 1 || k == 2 || k == 3 || k == 4);
    assert(l == 0 || l == 1 || l == 2 || l == 3 || l == 4);
}

} // verus!
