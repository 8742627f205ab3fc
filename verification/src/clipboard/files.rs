//! Lists of files in an offer: which are safe to store, and which are listed.

use super::msg::ClipboardFile;
use crate::text::{
    chars_of, find_char, index_from, law_pieces_make_up_the_text, lemma_index_from, lemma_index_is,
    lemma_pieces_nonempty, pieces, text_eq, text_of, together,
};
use vstd::prelude::*;

verus! {

/// Cap on the summed size of the files in one offer.
pub const MAX_FILES_TOTAL: u64 = 4294967296;

/// Cap on the number of entries (files and directories) in one offer.
pub const MAX_FILE_ENTRIES: usize = 10_000;

#[derive(Debug, Clone, PartialEq, Eq)]
pub enum FilesError {
    TooMany(usize),
    TooLarge(u64),
    BadPath(String),
}

/// A name that leads nowhere but down: not empty, not `.` and not `..`.
pub open spec fn is_name(piece: Seq<char>) -> bool {
    piece.len() > 0 && piece != "."@ && piece != ".."@
}

/// Pieces that name nothing, and that a path is the same without: empty ones
/// (of a doubled or trailing slash) and `.`.
pub open spec fn is_filler(piece: Seq<char>) -> bool {
    piece.len() == 0 || piece == "."@
}

/// The names among the first `n` pieces of a path, joined by slashes.
pub open spec fn names_joined(parts: Seq<Seq<char>>, n: int) -> Seq<char>
    decreases n,
{
    if n <= 0 {
        Seq::empty()
    } else {
        let before = names_joined(parts, n - 1);
        if is_filler(parts[n - 1]) {
            before
        } else if before.len() == 0 {
            parts[n - 1]
        } else {
            before.push('/') + parts[n - 1]
        }
    }
}

/// Whether a peer's path stays below the directory it is taken in: relative,
/// without a NUL, starting with a name, and without `..`.
pub open spec fn is_safe(path: Seq<char>) -> bool {
    let parts = pieces(path, '/');
    &&& !path.contains('\0')
    &&& is_name(parts[0])
    &&& forall|i: int| 0 <= i < parts.len() ==> (#[trigger] parts[i]) != ".."@
}

/// A safe path without what it is the same without.
pub open spec fn safe_path(path: Seq<char>) -> Option<Seq<char>> {
    if is_safe(path) {
        let parts = pieces(path, '/');
        Some(names_joined(parts, parts.len() as int))
    } else {
        None
    }
}

/// The pieces of the path from `start` on, and the path up to there, make up
/// the pieces of the whole.
proof fn lemma_pieces_step(s: Seq<char>, start: int)
    requires
        0 <= start <= s.len(),
    ensures
        ({
            let rest = s.skip(start);
            let at = index_from(s, '/', start);
            &&& start <= at <= s.len()
            &&& at < s.len() ==> pieces(rest, '/') == seq![s.subrange(start, at)] + pieces(s.skip(at + 1), '/')
            &&& at == s.len() ==> pieces(rest, '/') == seq![s.subrange(start, at)]
        }),
{
    let rest = s.skip(start);
    let at = index_from(s, '/', start);
    lemma_index_from(s, '/', start);
    lemma_index_is(rest, '/', 0, at - start);
    if at < s.len() {
        assert(rest.take(at - start) =~= s.subrange(start, at));
        assert(rest.skip(at - start + 1) =~= s.skip(at + 1));
    } else {
        assert(rest =~= s.subrange(start, at));
    }
}

/// A peer-supplied relative path that is safe to create under a spool
/// directory: non-empty, relative, and without `.`/`..` components or NULs.
pub fn safe_relative_path(path: &str) -> (res: Option<String>)
    ensures
        match (res, safe_path(path@)) {
            (Some(got), Some(want)) => got@ == want,
            (None, None) => true,
            _ => false,
        },
{
    let chars: Vec<char> = chars_of(path);
    let ghost parts = pieces(path@, '/');
    proof {
        reveal_strlit(".");
        reveal_strlit("..");
        lemma_pieces_nonempty(path@, '/');
        assert(path@.skip(0) =~= path@);
    }
    let nul: usize = find_char(&chars, '\0', 0);
    proof {
        lemma_index_from(path@, '\0', 0);
        if nul < chars@.len() {
            assert(path@[nul as int] == '\0');
        }
    }
    if nul < chars.len() {
        return None;
    }
    let mut out = String::new();
    let mut start: usize = 0;
    let ghost mut n: int = 0;
    loop
        invariant
            chars@ == path@,
            parts == pieces(path@, '/'),
            !path@.contains('\0'),
            start <= chars@.len(),
            0 <= n < parts.len(),
            parts.skip(n) == pieces(path@.skip(start as int), '/'),
            start == 0 <==> n == 0,
            out@ == names_joined(parts, n),
            n > 0 ==> is_name(parts[0]),
            n > 0 ==> out@.len() > 0,
            forall|i: int| 0 <= i < n ==> (#[trigger] parts[i]) != ".."@,
        decreases chars@.len() - start,
    {
        let at: usize = find_char(&chars, '/', start);
        let piece: String = text_of(&chars, start, at);
        proof {
            lemma_pieces_step(path@, start as int);
            assert(parts[n] == parts.skip(n)[0]);
            assert(parts[n] == piece@);
        }
        let dot: bool = text_eq(piece.as_str(), ".");
        if text_eq(piece.as_str(), "..") {
            return None;
        }
        if start == 0 && (dot || piece.as_str().is_empty()) {
            return None;
        }
        if !(dot || piece.as_str().is_empty()) {
            if start > 0 {
                out.push('/');
            }
            out.append(piece.as_str());
            assert(out@ =~= names_joined(parts, n + 1));
        }
        if at >= chars.len() {
            proof {
                assert(parts.skip(n).len() == 1);
                assert(parts.len() == n + 1);
            }
            return Some(out);
        }
        proof {
            lemma_pieces_nonempty(path@.skip(at + 1), '/');
            assert(parts.skip(n).skip(1) =~= parts.skip(n + 1));
            assert(parts.skip(n).skip(1) =~= pieces(path@.skip(at + 1), '/'));
            n = n + 1;
        }
        start = at + 1;
    }
}

/// Cutting a text off at its last slash: the last piece on its own.
proof fn lemma_pieces_append(s: Seq<char>, last: Seq<char>)
    requires
        forall|i: int| 0 <= i < last.len() ==> (#[trigger] last[i]) != '/',
    ensures
        pieces(s.push('/') + last, '/') == pieces(s, '/').push(last),
    decreases s.len(),
{
    let whole = s.push('/') + last;
    let at = index_from(s, '/', 0);
    lemma_index_from(s, '/', 0);
    if at < s.len() {
        lemma_index_is(whole, '/', 0, at);
        assert(whole.take(at) =~= s.take(at));
        assert(whole.skip(at + 1) =~= s.skip(at + 1).push('/') + last);
        lemma_pieces_append(s.skip(at + 1), last);
        assert(pieces(whole, '/') =~= pieces(s, '/').push(last));
    } else {
        lemma_index_is(whole, '/', 0, s.len() as int);
        assert(whole.take(s.len() as int) =~= s);
        assert(whole.skip(s.len() as int + 1) =~= last);
        lemma_one_piece(last);
        assert(pieces(whole, '/') =~= pieces(s, '/').push(last));
    }
}

/// A text without a slash is one piece.
proof fn lemma_one_piece(s: Seq<char>)
    requires
        forall|i: int| 0 <= i < s.len() ==> (#[trigger] s[i]) != '/',
    ensures
        pieces(s, '/') == seq![s],
{
    lemma_index_is(s, '/', 0, s.len() as int);
}

/// Pieces hold no slash, and nothing that the text does not.
proof fn lemma_pieces_content(s: Seq<char>, k: int)
    requires
        0 <= k < pieces(s, '/').len(),
    ensures
        forall|i: int| 0 <= i < pieces(s, '/')[k].len() ==> (#[trigger] pieces(s, '/')[k][i]) != '/',
        forall|i: int| 0 <= i < pieces(s, '/')[k].len() ==> s.contains(#[trigger] pieces(s, '/')[k][i]),
    decreases s.len(),
{
    let at = index_from(s, '/', 0);
    lemma_index_from(s, '/', 0);
    let piece = pieces(s, '/')[k];
    if at < s.len() {
        let rest = s.skip(at + 1);
        if k == 0 {
            assert(piece == s.take(at));
            assert forall|i: int| 0 <= i < piece.len() implies (#[trigger] piece[i]) != '/' && s.contains(piece[i]) by {
                assert(piece[i] == s[i]);
            }
        } else {
            lemma_pieces_content(rest, k - 1);
            assert(piece == pieces(rest, '/')[k - 1]);
            assert forall|i: int| 0 <= i < piece.len() implies s.contains(#[trigger] piece[i]) by {
                let j = choose|j: int| 0 <= j < rest.len() && rest[j] == piece[i];
                assert(s[j + at + 1] == piece[i]);
            }
        }
    } else {
        assert(piece == s);
        assert forall|i: int| 0 <= i < piece.len() implies s.contains(#[trigger] piece[i]) by {
            assert(s[i] == piece[i]);
        }
    }
}

/// The joined names of a path: one piece per name, all of them names, and no
/// character that the path does not have.
proof fn lemma_names_joined(path: Seq<char>, n: int)
    requires
        is_safe(path),
        1 <= n <= pieces(path, '/').len(),
    ensures
        ({
            let r = names_joined(pieces(path, '/'), n);
            &&& r.len() > 0
            &&& forall|i: int| 0 <= i < pieces(r, '/').len() ==> is_name(#[trigger] pieces(r, '/')[i])
            &&& !r.contains('\0')
        }),
    decreases n,
{
    let parts = pieces(path, '/');
    let r = names_joined(parts, n);
    let last = parts[n - 1];
    lemma_pieces_content(path, n - 1);
    assert forall|i: int| 0 <= i < last.len() implies (#[trigger] last[i]) != '\0' by {
        assert(path.contains(last[i]));
    }
    if n == 1 {
        assert(names_joined(parts, 0) =~= Seq::empty());
        assert(r == last);
        lemma_one_piece(last);
    } else {
        lemma_names_joined(path, n - 1);
        if !is_filler(last) {
            let before = names_joined(parts, n - 1);
            lemma_pieces_append(before, last);
            assert(pieces(r, '/') == pieces(before, '/').push(last));
            assert forall|i: int| 0 <= i < r.len() implies r[i] != '\0' by {
                if i < before.len() {
                    assert(r[i] == before[i]);
                    assert(before.contains(before[i]));
                } else if i > before.len() {
                    assert(r[i] == last[i - before.len() - 1]);
                }
            }
        }
    }
}

/// Names joined by slashes are joined from themselves.
proof fn lemma_names_only(parts: Seq<Seq<char>>, r: Seq<char>)
    requires
        parts == pieces(r, '/'),
        forall|i: int| 0 <= i < parts.len() ==> is_name(#[trigger] parts[i]),
    ensures
        names_joined(parts, parts.len() as int) == r,
    decreases r.len(),
{
    reveal_strlit(".");
    lemma_pieces_nonempty(r, '/');
    let last_slash = lemma_last_slash(r);
    if last_slash < 0 {
        lemma_one_piece(r);
        assert(names_joined(parts, 0) =~= Seq::empty());
        assert(names_joined(parts, 1) == r);
    } else {
        let s = r.take(last_slash);
        let last = r.skip(last_slash + 1);
        assert(r =~= s.push('/') + last);
        assert forall|i: int| 0 <= i < last.len() implies (#[trigger] last[i]) != '/' by {
            assert(last[i] == r[i + last_slash + 1]);
        }
        lemma_pieces_append(s, last);
        let head = pieces(s, '/');
        assert(parts == head.push(last));
        assert forall|i: int| 0 <= i < head.len() implies is_name(#[trigger] head[i]) by {
            assert(head[i] == parts[i]);
        }
        lemma_names_only(head, s);
        lemma_pieces_nonempty(s, '/');
        lemma_joined_prefix(parts, head, head.len() as int);
        assert(parts[parts.len() - 1] == last);
        assert(s.len() > 0) by {
            if s.len() == 0 {
                lemma_one_piece(s);
                assert(head[0] == s);
            }
        }
    }
}

/// Joining the first names does not look at the others.
proof fn lemma_joined_prefix(parts: Seq<Seq<char>>, head: Seq<Seq<char>>, n: int)
    requires
        0 <= n <= head.len() <= parts.len(),
        forall|i: int| 0 <= i < head.len() ==> (#[trigger] head[i]) == parts[i],
    ensures
        names_joined(parts, n) == names_joined(head, n),
    decreases n,
{
    if n > 0 {
        lemma_joined_prefix(parts, head, n - 1);
        assert(head[n - 1] == parts[n - 1]);
    }
}

/// The last slash of a text, or -1.
proof fn lemma_last_slash(s: Seq<char>) -> (at: int)
    ensures
        -1 <= at < s.len(),
        at >= 0 ==> s[at] == '/',
        forall|i: int| at < i < s.len() ==> (#[trigger] s[i]) != '/',
    decreases s.len(),
{
    if s.len() == 0 {
        -1
    } else if s.last() == '/' {
        s.len() - 1
    } else {
        let at = lemma_last_slash(s.drop_last());
        assert forall|i: int| at < i < s.len() implies (#[trigger] s[i]) != '/' by {
            if i < s.len() - 1 {
                assert(s.drop_last()[i] == s[i]);
            }
        }
        at
    }
}

/// What a safe path is taken as never leads out: it consists of names only,
/// without a NUL, and is itself safe and taken as it stands.
pub proof fn law_safe_paths_stay_inside(path: Seq<char>)
    requires
        safe_path(path) is Some,
    ensures
        ({
            let r = safe_path(path)->0;
            &&& r.len() > 0
            &&& r[0] != '/'
            &&& !r.contains('\0')
            &&& forall|i: int| 0 <= i < pieces(r, '/').len() ==> is_name(#[trigger] pieces(r, '/')[i])
            &&& safe_path(r) == Some(r)
        }),
{
    let parts = pieces(path, '/');
    lemma_pieces_nonempty(path, '/');
    lemma_names_joined(path, parts.len() as int);
    let r = names_joined(parts, parts.len() as int);
    lemma_pieces_nonempty(r, '/');
    lemma_names_only(pieces(r, '/'), r);
    assert(is_name(pieces(r, '/')[0]));
    assert(r[0] != '/') by {
        if r[0] == '/' {
            assert(index_from(r, '/', 0) == 0);
            assert(pieces(r, '/')[0] =~= Seq::empty());
        }
    }
    assert forall|i: int| 0 <= i < pieces(r, '/').len() implies (#[trigger] pieces(r, '/')[i]) != ".."@ by {
        assert(is_name(pieces(r, '/')[i]));
    }
}

/// Whether entry `i` of an offer is unacceptable: unsafe, at the same place
/// as an entry before it, or a directory with a size.
pub open spec fn bad_entry(files: Seq<ClipboardFile>, i: int) -> bool {
    let p = safe_path(files[i].path@);
    ||| p is None
    ||| exists|k: int| 0 <= k < i && safe_path((#[trigger] files[k]).path@) == p
    ||| files[i].dir && files[i].size != 0
}

/// The summed size of the first `n` entries.
pub open spec fn total_size(files: Seq<ClipboardFile>, n: int) -> nat
    decreases n,
{
    if n <= 0 {
        0
    } else {
        total_size(files, n - 1) + files[n - 1].size as nat
    }
}

/// A sum as a counter that stops at its limit holds it.
pub open spec fn counted(total: nat) -> u64 {
    if total > u64::MAX {
        u64::MAX
    } else {
        total as u64
    }
}

/// Whether `i` is the first unacceptable entry.
pub open spec fn first_bad(files: Seq<ClipboardFile>, i: int) -> bool {
    0 <= i < files.len() && bad_entry(files, i) && forall|k: int| 0 <= k < i ==> !#[trigger] bad_entry(files, k)
}

/// Whether the entries of an offer are acceptable: every path safe and
/// distinct, and the counts and sizes within the caps.
pub fn validate_files(files: &[ClipboardFile]) -> (res: Result<(), FilesError>)
    ensures
        res is Ok <==> files@.len() <= MAX_FILE_ENTRIES && (forall|i: int|
            0 <= i < files@.len() ==> !#[trigger] bad_entry(files@, i)) && total_size(
            files@,
            files@.len() as int,
        ) <= MAX_FILES_TOTAL,
        res matches Err(FilesError::TooMany(n)) ==> n == files@.len(),
        res matches Err(FilesError::TooMany(_)) <==> files@.len() > MAX_FILE_ENTRIES,
        res matches Err(FilesError::BadPath(p)) ==> exists|i: int| #[trigger]
            first_bad(files@, i) && p@ == files@[i].path@,
        res matches Err(FilesError::BadPath(_)) <==> files@.len() <= MAX_FILE_ENTRIES && exists|i: int|
            0 <= i < files@.len() && #[trigger] bad_entry(files@, i),
        res matches Err(FilesError::TooLarge(n)) ==> n == counted(total_size(files@, files@.len() as int)),
{
    if files.len() > MAX_FILE_ENTRIES {
        return Err(FilesError::TooMany(files.len()));
    }
    let mut total: u64 = 0;
    let mut seen: Vec<String> = Vec::new();
    for i in 0..files.len()
        invariant
            files@.len() <= MAX_FILE_ENTRIES,
            seen@.len() == i,
            forall|k: int| 0 <= k < i ==> safe_path(files@[k].path@) == Some((#[trigger] seen@[k])@),
            forall|k: int| 0 <= k < i ==> !#[trigger] bad_entry(files@, k),
            total == counted(total_size(files@, i as int)),
    {
        let f = &files[i];
        let p: String = match safe_relative_path(f.path.as_str()) {
            Some(p) => p,
            None => {
                assert(first_bad(files@, i as int));
                return Err(FilesError::BadPath(f.path.clone()));
            },
        };
        if listed(&seen, p.as_str()) {
            proof {
                let k = choose|k: int| 0 <= k < seen@.len() && (#[trigger] seen@[k])@ == p@;
                assert(safe_path(files@[k].path@) == Some(seen@[k]@));
                assert(first_bad(files@, i as int));
            }
            return Err(FilesError::BadPath(f.path.clone()));
        }
        if f.dir && f.size != 0 {
            assert(first_bad(files@, i as int));
            return Err(FilesError::BadPath(f.path.clone()));
        }
        proof {
            assert(!bad_entry(files@, i as int)) by {
                assert forall|k: int| 0 <= k < i implies safe_path((#[trigger] files@[k]).path@) != Some(p@) by {
                    assert(seen@[k]@ != p@);
                }
            }
        }
        total = total.saturating_add(f.size);
        seen.push(p);
    }
    if total > MAX_FILES_TOTAL {
        return Err(FilesError::TooLarge(total));
    }
    Ok(())
}

fn listed(list: &Vec<String>, p: &str) -> (yes: bool)
    ensures
        yes == exists|k: int| 0 <= k < list@.len() && (#[trigger] list@[k])@ == p@,
{
    for i in 0..list.len()
        invariant
            forall|k: int| 0 <= k < i ==> (#[trigger] list@[k])@ != p@,
    {
        if text_eq(list[i].as_str(), p) {
            return true;
        }
    }
    false
}

/// Whether an entry stands at the top: its path has no slash.
pub open spec fn is_top(f: ClipboardFile) -> bool {
    !f.path@.contains('/')
}

/// The top-level entries of a file list: those without a `/` in their path.
/// They are what the pasting side puts in its URI list.
pub fn top_level(files: &[ClipboardFile]) -> (tops: Vec<&ClipboardFile>)
    ensures
        tops@.map_values(|f: &ClipboardFile| *f) == files@.filter(|f: ClipboardFile| is_top(f)),
{
    let mut tops: Vec<&ClipboardFile> = Vec::new();
    let ghost test = |f: ClipboardFile| is_top(f);
    proof {
        reveal(Seq::filter);
        assert(tops@.map_values(|f: &ClipboardFile| *f) =~= files@.take(0).filter(test));
    }
    for i in 0..files.len()
        invariant
            test == (|f: ClipboardFile| is_top(f)),
            tops@.map_values(|f: &ClipboardFile| *f) == files@.take(i as int).filter(test),
    {
        let ghost before = tops@;
        let chars: Vec<char> = chars_of(files[i].path.as_str());
        let at: usize = find_char(&chars, '/', 0);
        proof {
            reveal(Seq::filter);
            lemma_index_from(chars@, '/', 0);
            if at < chars@.len() {
                assert(chars@.contains(chars@[at as int]));
            }
            assert(files@.take(i + 1).drop_last() =~= files@.take(i as int));
        }
        if at >= chars.len() {
            tops.push(&files[i]);
            assert(tops@.map_values(|f: &ClipboardFile| *f) =~= before.map_values(|f: &ClipboardFile| *f).push(
                files@[i as int],
            ));
        }
    }
    assert(files@.take(files@.len() as int) =~= files@);
    tops
}

/// The size of an offer is the sum of its entries' sizes.
pub proof fn law_sizes_add_up(files: Seq<ClipboardFile>, n: int)
    requires
        0 <= n <= files.len(),
    ensures
        total_size(files, n) == files.take(n).map_values(|f: ClipboardFile| f.size as int).fold_left(
            0int,
            |s: int, x: int| s + x,
        ),
    decreases n,
{
    let size = |f: ClipboardFile| f.size as int;
    if n > 0 {
        law_sizes_add_up(files, n - 1);
        assert(files.take(n).map_values(size).drop_last() =~= files.take(n - 1).map_values(size));
        assert(files.take(n).map_values(size).last() == files[n - 1].size);
    } else {
        assert(files.take(0).map_values(size) =~= Seq::empty());
    }
}

/// A path is refused exactly where it holds a NUL, begins with nothing or a
/// dot in place of a name, or has a piece that leads up.
pub proof fn law_what_makes_a_path_unsafe(path: Seq<char>)
    ensures
        ({
            let parts = pieces(path, '/');
            safe_path(path) is None <==> path.contains('\0') || parts[0].len() == 0 || parts[0] == "."@ || parts[0]
                == ".."@ || exists|i: int| 0 <= i < parts.len() && #[trigger] parts[i] == ".."@
        }),
{
}

proof fn lemma_joins(parts: Seq<Seq<char>>, n: int)
    requires
        0 <= n <= parts.len(),
        forall|i: int| 0 <= i < parts.len() ==> !(#[trigger] parts[i]).contains('/'),
    ensures
        ({
            let names = parts.take(n).filter(|p: Seq<char>| p.len() > 0 && p != "."@);
            &&& names.len() == 0 <==> names_joined(parts, n).len() == 0
            &&& together(names, '/') == names_joined(parts, n)
        }),
    decreases n,
{
    reveal(Seq::filter);
    let test = |p: Seq<char>| p.len() > 0 && p != "."@;
    if n > 0 {
        lemma_joins(parts, n - 1);
        assert(parts.take(n).drop_last() =~= parts.take(n - 1));
        let (names, front) = (parts.take(n).filter(test), parts.take(n - 1).filter(test));
        if !is_filler(parts[n - 1]) {
            assert(names =~= front.push(parts[n - 1]));
            lemma_together_push(front, parts[n - 1], '/');
        }
    } else {
        assert(parts.take(0).filter(test) =~= Seq::empty());
    }
}

proof fn lemma_together_push(names: Seq<Seq<char>>, last: Seq<char>, c: char)
    ensures
        names.len() == 0 ==> together(names.push(last), c) == last,
        names.len() > 0 ==> together(names.push(last), c) == together(names, c).push(c) + last,
    decreases names.len(),
{
    if names.len() == 1 {
        assert(names.push(last).drop_first() =~= seq![last]);
        assert(together(seq![last], c) == last);
    } else if names.len() > 1 {
        lemma_together_push(names.drop_first(), last, c);
        assert(names.push(last).drop_first() =~= names.drop_first().push(last));
        assert(together(names.push(last), c) =~= together(names, c).push(c) + last);
    }
}

/// A safe path is taken as its names, all of them and in order, with one slash
/// between them: only empty pieces and dots are left out.
pub proof fn law_safe_paths_keep_their_names(path: Seq<char>)
    requires
        safe_path(path) is Some,
    ensures
        safe_path(path)->0 == together(
            pieces(path, '/').filter(|p: Seq<char>| p.len() > 0 && p != "."@),
            '/',
        ),
{
    let parts = pieces(path, '/');
    law_pieces_make_up_the_text(path, '/');
    lemma_joins(parts, parts.len() as int);
    assert(parts.take(parts.len() as int) =~= parts);
}

/// An offer has no bad entry exactly where every path is safe, no two lead to
/// the same place and directories have no size.
pub proof fn law_good_offers_lead_to_different_places(files: Seq<ClipboardFile>)
    ensures
        (forall|i: int| 0 <= i < files.len() ==> !#[trigger] bad_entry(files, i)) <==> {
            &&& forall|i: int|
                0 <= i < files.len() ==> safe_path((#[trigger] files[i]).path@) is Some && (files[i].dir ==>
                    files[i].size
                    == 0)
            &&& forall|i: int, j: int|
                0 <= i < j < files.len() ==> safe_path((#[trigger] files[i]).path@) != safe_path(
                    (#[trigger] files[j]).path@,
                )
        },
{
    if forall|i: int| 0 <= i < files.len() ==> !#[trigger] bad_entry(files, i) {
        assert forall|i: int| 0 <= i < files.len() implies safe_path((#[trigger] files[i]).path@) is Some &&
            (files[i].dir
            ==> files[i].size == 0) by {
            assert(!bad_entry(files, i));
        }
        assert forall|i: int, j: int| 0 <= i < j < files.len() implies safe_path((#[trigger] files[i]).path@)
            != safe_path((#[trigger] files[j]).path@) by {
            assert(!bad_entry(files, j));
        }
    }
}

/// An entry stands at the top where its path is a single name.
pub proof fn law_top_entries_are_single_names(f: ClipboardFile)
    ensures
        is_top(f) <==> pieces(f.path@, '/').len() == 1,
{
    let s = f.path@;
    law_pieces_make_up_the_text(s, '/');
    let parts = pieces(s, '/');
    if parts.len() == 1 {
        assert(together(parts, '/') == parts[0]);
        assert(!parts[0].contains('/'));
    } else {
        assert(s[parts[0].len() as int] == '/');
    }
}

} // verus!
