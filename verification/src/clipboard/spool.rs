//! Files on the clipboard: what a local file list offers, and where a peer's
//! files go when something pastes them.

use super::files::{
    bad_entry, counted, first_bad, is_top, safe_path, safe_relative_path, top_level, total_size, validate_files,
    FilesError, MAX_FILES_TOTAL, MAX_FILE_ENTRIES,
};
use super::msg::{ClipboardFile, ClipboardItem};
use crate::text::{chars_of, decimal, digit, find_char, index_from, lemma_index_from, lemma_index_is, push_decimal};
use vstd::prelude::*;
use vstd::string::StringExecFns;

verus! {

/// How long a replaced offer's spool stays on disk, in nanoseconds, so an
/// application that was just handed a URI list into it can still open the
/// files.
pub const SPOOL_GRACE: u64 = 300_000_000_000;

/// The files behind a local offer: the entries sent to the peer and, at the
/// same index, the local path each one is served from.
#[derive(Debug, Clone, PartialEq, Eq)]
pub struct LocalFiles {
    pub entries: Vec<ClipboardFile>,
    pub paths: Vec<String>,
}

impl Default for LocalFiles {
    fn default() -> (l: LocalFiles)
        ensures
            l.entries@.len() == 0,
            l.paths@.len() == 0,
            l.wf(),
    {
        LocalFiles { entries: Vec::new(), paths: Vec::new() }
    }
}

/// Why local files are not offered.
#[derive(Debug, Clone, PartialEq, Eq)]
pub enum ListError {
    Files(FilesError),
    /// This path has no file name.
    NoName(String),
}

impl LocalFiles {
    /// Every entry has a path, and there are no more than an offer may have.
    pub open spec fn wf(&self) -> bool {
        self.entries@.len() == self.paths@.len() && self.entries@.len() <= MAX_FILE_ENTRIES
    }

    /// The path an item is served from.
    pub fn path_for(&self, item: &ClipboardItem) -> (path: Option<&String>)
        ensures
            match item {
                ClipboardItem::File(i) => if *i < self.paths@.len() {
                    path == Some(&self.paths@[*i as int])
                } else {
                    path is None
                },
                ClipboardItem::Mime(_) => path is None,
            },
    {
        match item {
            ClipboardItem::File(i) => {
                let i: usize = *i as usize;
                if i < self.paths.len() {
                    Some(&self.paths[i])
                } else {
                    None
                }
            },
            ClipboardItem::Mime(_) => None,
        }
    }

    /// List a directory that a walk has come to. Its contents follow.
    pub fn add_dir(&mut self, path: String, rel: String) -> (res: Result<(), FilesError>)
        requires
            old(self).wf(),
        ensures
            final(self).wf(),
            old(self).entries@.len() >= MAX_FILE_ENTRIES ==> res == Err::<(), FilesError>(
                FilesError::TooMany((old(self).entries@.len() + 1) as usize),
            ) && *final(self) == *old(self),
            old(self).entries@.len() < MAX_FILE_ENTRIES ==> res == Ok::<(), FilesError>(()) && final(self).entries@
                == old(self).entries@.push(ClipboardFile { path: rel, size: 0, dir: true }) && final(self).paths@
                == old(self).paths@.push(path),
    {
        let n: usize = self.entries.len();
        if n >= MAX_FILE_ENTRIES {
            return Err(FilesError::TooMany(n + 1));
        }
        self.entries.push(ClipboardFile { path: rel, size: 0, dir: true });
        self.paths.push(path);
        Ok(())
    }

    /// List a file that a walk has come to; `total` is the size of the files
    /// listed so far.
    pub fn add_file(&mut self, path: String, rel: String, size: u64, total: u64) -> (res: Result<u64, FilesError>)
        requires
            old(self).wf(),
        ensures
            final(self).wf(),
            res is Err ==> *final(self) == *old(self),
            res matches Ok(sum) ==> sum == total + size && final(self).entries@ == old(self).entries@.push(
                ClipboardFile { path: rel, size, dir: false },
            ) && final(self).paths@ == old(self).paths@.push(path),
            old(self).entries@.len() >= MAX_FILE_ENTRIES ==> res == Err::<u64, FilesError>(
                FilesError::TooMany((old(self).entries@.len() + 1) as usize),
            ),
            old(self).entries@.len() < MAX_FILE_ENTRIES && total + size > MAX_FILES_TOTAL ==> res == Err::<
                u64,
                FilesError,
            >(FilesError::TooLarge(counted((total + size) as nat))),
            old(self).entries@.len() < MAX_FILE_ENTRIES && total + size <= MAX_FILES_TOTAL ==> res is Ok,
    {
        let n: usize = self.entries.len();
        if n >= MAX_FILE_ENTRIES {
            return Err(FilesError::TooMany(n + 1));
        }
        let sum: u64 = if size <= u64::MAX - total {
            total + size
        } else {
            u64::MAX
        };
        if sum > MAX_FILES_TOTAL {
            return Err(FilesError::TooLarge(sum));
        }
        self.entries.push(ClipboardFile { path: rel, size, dir: false });
        self.paths.push(path);
        Ok(sum)
    }
}

/// One entry of a peer's offer, to be made under the spool.
#[derive(Debug, Clone, PartialEq, Eq)]
pub enum Place {
    /// Make this directory.
    Dir(String),
    /// Fetch the file with this index, of this many bytes, to this path.
    File { index: u32, path: String, size: u64 },
}

/// What an entry asks for.
pub open spec fn placed(f: ClipboardFile, index: int, p: Place) -> bool {
    match p {
        Place::Dir(path) => f.dir && safe_path(f.path@) == Some(path@),
        Place::File { index: i, path, size } => !f.dir && i == index && size == f.size && safe_path(f.path@) == Some(
            path@,
        ),
    }
}

/// How a peer's files are fetched: where each goes, all below the spool, and
/// the top-level paths for the URI list. Entries are validated first; any
/// bad path fails the whole paste.
pub fn fetch_plan(files: &[ClipboardFile]) -> (res: Result<(Vec<Place>, Vec<String>), FilesError>)
    ensures
        res is Ok <==> files@.len() <= MAX_FILE_ENTRIES && (forall|i: int|
            0 <= i < files@.len() ==> !#[trigger] bad_entry(files@, i)) && total_size(
            files@,
            files@.len() as int,
        ) <= MAX_FILES_TOTAL,
        res matches Err(FilesError::TooMany(n)) ==> n == files@.len(),
        res matches Err(FilesError::TooMany(_)) <==> files@.len() > MAX_FILE_ENTRIES,
        res matches Err(FilesError::BadPath(p)) ==> exists|i: int| #[trigger]
            first_bad(files@, i) && p@ == files@[i].path@,
        res matches Err(FilesError::BadPath(_)) <==> files@.len() <= MAX_FILE_ENTRIES && exists|i: int|
            0 <= i < files@.len() && #[trigger] bad_entry(files@, i),
        res matches Err(FilesError::TooLarge(n)) ==> n == counted(total_size(files@, files@.len() as int)),
        res matches Ok((places, tops)) ==> {
            &&& places@.len() == files@.len()
            &&& forall|i: int| 0 <= i < files@.len() ==> placed(files@[i], i, #[trigger] places@[i])
            &&& tops@.len() == files@.filter(|f: ClipboardFile| is_top(f)).len()
            &&& forall|i: int|
                0 <= i < tops@.len() ==> safe_path(files@.filter(|f: ClipboardFile| is_top(f))[i].path@) == Some(
                    (#[trigger] tops@[i])@,
                )
        },
{
    match validate_files(files) {
        Err(e) => return Err(e),
        Ok(()) => {},
    }
    let mut places: Vec<Place> = Vec::new();
    let n: usize = files.len();
    for i in 0..n
        invariant
            n == files@.len() <= MAX_FILE_ENTRIES,
            forall|k: int| 0 <= k < n ==> !#[trigger] bad_entry(files@, k),
            places@.len() == i,
            forall|k: int| 0 <= k < i ==> placed(files@[k], k, #[trigger] places@[k]),
    {
        proof {
            assert(!bad_entry(files@, i as int));
        }
        if let Some(path) = safe_relative_path(files[i].path.as_str()) {
            places.push(
                if files[i].dir {
                    Place::Dir(path)
                } else {
                    Place::File { index: i as u32, path, size: files[i].size }
                },
            );
        }
    }
    let listed: Vec<&ClipboardFile> = top_level(files);
    let mut tops: Vec<String> = Vec::new();
    let ghost want = files@.filter(|f: ClipboardFile| is_top(f));
    let m: usize = listed.len();
    for i in 0..m
        invariant
            m == listed@.len() == want.len(),
            listed@.map_values(|f: &ClipboardFile| *f) == want,
            want == files@.filter(|f: ClipboardFile| is_top(f)),
            forall|k: int| 0 <= k < files@.len() ==> !#[trigger] bad_entry(files@, k),
            tops@.len() == i,
            forall|k: int| 0 <= k < i ==> safe_path(want[k].path@) == Some((#[trigger] tops@[k])@),
    {
        proof {
            assert(listed@.map_values(|f: &ClipboardFile| *f)[i as int] == *listed@[i as int]);
            files@.lemma_filter_contains_rev(|f: ClipboardFile| is_top(f), want[i as int]);
            let k = choose|k: int| 0 <= k < files@.len() && files@[k] == want[i as int];
            assert(!bad_entry(files@, k));
        }
        if let Some(path) = safe_relative_path(listed[i].path.as_str()) {
            tops.push(path);
        }
    }
    Ok((places, tops))
}

/// Whether a fetched file is whole.
pub fn is_whole(got: u64, size: u64) -> (yes: bool)
    ensures
        yes == (got == size),
{
    got == size
}

/// The name of a process's `n`th spool.
pub fn spool_name(pid: u32, n: u32) -> (name: String)
    ensures
        name@ == decimal(pid as nat).push('-') + decimal(n as nat),
{
    let mut name: String = String::new();
    push_decimal(&mut name, pid as u64);
    name.push('-');
    push_decimal(&mut name, n as u64);
    assert(name@ =~= decimal(pid as nat).push('-') + decimal(n as nat));
    name
}

pub open spec fn is_digit(c: char) -> bool {
    '0' <= c <= '9'
}

/// The number that decimal digits write.
pub open spec fn number_of(s: Seq<char>) -> nat
    decreases s.len(),
{
    if s.len() == 0 {
        0
    } else {
        10 * number_of(s.drop_last()) + (s.last() as nat - '0' as nat) as nat
    }
}

/// A text without a plus at its start.
pub open spec fn unsigned(s: Seq<char>) -> Seq<char> {
    if s.len() > 0 && s[0] == '+' {
        s.skip(1)
    } else {
        s
    }
}

/// The number a text writes: digits, at least one, behind at most one plus.
pub open spec fn parsed(s: Seq<char>) -> Option<u32> {
    let digits = unsigned(s);
    if digits.len() > 0 && (
        forall|i: int| 0 <= i < digits.len() ==> is_digit(#[trigger] digits[i])
    ) && number_of(digits)
        <= u32::MAX {
        Some(number_of(digits) as u32)
    } else {
        None
    }
}

proof fn lemma_number_grows(s: Seq<char>, n: int)
    requires
        0 <= n <= s.len(),
        forall|i: int| 0 <= i < s.len() ==> is_digit(#[trigger] s[i]),
    ensures
        number_of(s.take(n)) <= number_of(s),
    decreases s.len() - n,
{
    if n < s.len() {
        lemma_number_grows(s, n + 1);
        assert(s.take(n + 1).drop_last() =~= s.take(n));
    } else {
        assert(s.take(n) =~= s);
    }
}

fn parse_number(chars: &Vec<char>, end: usize) -> (v: Option<u32>)
    requires
        end <= chars@.len(),
    ensures
        v == parsed(chars@.take(end as int)),
{
    let ghost s = chars@.take(end as int);
    let start: usize = if end > 0 && chars[0] == '+' {
        1
    } else {
        0
    };
    let ghost digits = s.skip(start as int);
    proof {
        assert(s.skip(0) =~= s);
        assert(digits.take(0) =~= Seq::empty());
    }
    if start >= end {
        return None;
    }
    let mut v: u32 = 0;
    for i in start..end
        invariant
            start <= 1,
            start <= end <= chars@.len(),
            s == chars@.take(end as int),
            digits == s.skip(start as int),
            digits == unsigned(s),
            digits.len() > 0,
            v == number_of(digits.take(i - start)),
            forall|k: int| 0 <= k < i - start ==> is_digit(#[trigger] digits[k]),
    {
        let c: char = chars[i];
        proof {
            assert(digits[i - start] == c);
            assert(digits.take(i - start + 1).drop_last() =~= digits.take(i - start));
        }
        if !('0' <= c && c <= '9') {
            assert(!is_digit(digits[i - start]));
            return None;
        }
        let d: u32 = c as u32 - 48;
        let wide: u64 = v as u64 * 10 + d as u64;
        if wide > 0xffff_ffff {
            proof {
                if forall|k: int| 0 <= k < digits.len() ==> is_digit(#[trigger] digits[k]) {
                    lemma_number_grows(digits, i - start + 1);
                    assert(digits.take(i - start + 1).last() == c);
                }
            }
            return None;
        }
        v = wide as u32;
    }
    proof {
        assert(digits.take(end - start) =~= digits);
    }
    Some(v)
}

/// The process a spool directory belongs to: the number before the first
/// hyphen of its name `<pid>-<n>`. None where no number stands there.
pub fn spool_pid(name: &str) -> (pid: Option<u32>)
    ensures
        pid == parsed(name@.take(index_from(name@, '-', 0))),
{
    let chars: Vec<char> = chars_of(name);
    proof {
        lemma_index_from(chars@, '-', 0);
    }
    let end: usize = find_char(&chars, '-', 0);
    parse_number(&chars, end)
}

/// Whether a spool is swept: one that a process left which is gone.
pub fn is_stale(pid: u32, own: u32, alive: bool) -> (yes: bool)
    ensures
        yes == (pid != own && !alive),
{
    pid != own && !alive
}

proof fn lemma_decimal_digits(n: nat)
    ensures
        decimal(n).len() > 0,
        forall|i: int| 0 <= i < decimal(n).len() ==> is_digit(#[trigger] decimal(n)[i]),
        number_of(decimal(n)) == n,
    decreases n,
{
    assert(digit(n % 10) as nat == '0' as nat + n % 10);
    if n >= 10 {
        lemma_decimal_digits(n / 10);
        assert(decimal(n).drop_last() =~= decimal(n / 10));
        assert(decimal(n).last() == digit(n % 10));
    } else {
        assert(decimal(n).drop_last() =~= Seq::empty());
        assert(number_of(Seq::empty()) == 0);
        assert(decimal(n).last() == digit(n));
    }
}

/// A spool's name tells the process that made it.
pub proof fn law_spool_names_tell_their_process(pid: u32, n: u32)
    ensures
        ({
            let name = decimal(pid as nat).push('-') + decimal(n as nat);
            parsed(name.take(index_from(name, '-', 0))) == Some(pid)
        }),
{
    let name = decimal(pid as nat).push('-') + decimal(n as nat);
    let len = decimal(pid as nat).len() as int;
    lemma_decimal_digits(pid as nat);
    assert forall|k: int| 0 <= k < len implies name[k] != '-' by {
        assert(is_digit(decimal(pid as nat)[k]));
    }
    lemma_index_is(name, '-', 0, len);
    assert(name.take(len) =~= decimal(pid as nat));
    assert(is_digit(decimal(pid as nat)[0]));
}

/// No two spools share a name.
pub proof fn law_spool_names_differ(a: Spool, b: Spool)
    requires
        a != b,
    ensures
        decimal(a.pid as nat).push('-') + decimal(a.n as nat) != decimal(b.pid as nat).push('-') + decimal(b.n as nat),
{
    let (x, y) = (decimal(a.pid as nat), decimal(b.pid as nat));
    let left = x.push('-') + decimal(a.n as nat);
    let right = y.push('-') + decimal(b.n as nat);
    law_spool_names_tell_their_process(a.pid, a.n);
    law_spool_names_tell_their_process(b.pid, b.n);
    lemma_decimal_digits(a.n as nat);
    lemma_decimal_digits(b.n as nat);
    if left == right {
        assert(left.skip(x.len() as int + 1) =~= decimal(a.n as nat));
        assert(right.skip(y.len() as int + 1) =~= decimal(b.n as nat));
    }
}

/// A name below a directory, with a slash between the two where the directory
/// does not end in one.
pub open spec fn joined(dir: Seq<char>, name: Seq<char>) -> Seq<char> {
    if dir.len() == 0 || dir.last() == '/' {
        dir + name
    } else {
        dir.push('/') + name
    }
}

/// Appends a name to a directory.
fn join(dir: &mut String, name: &str)
    ensures
        final(dir)@ == joined(old(dir)@, name@),
{
    let chars: Vec<char> = chars_of(dir.as_str());
    if chars.len() > 0 && chars[chars.len() - 1] != '/' {
        dir.append("/");
        proof {
            reveal_strlit("/");
            assert(dir@ =~= old(dir)@.push('/'));
        }
    }
    dir.append(name);
}

/// The directory that spools are kept in, by what the environment gives. It is
/// disk-backed on purpose: the runtime directory is RAM.
pub open spec fn base_of(
    given: Option<Seq<char>>,
    cache: Option<Seq<char>>,
    home: Option<Seq<char>>,
    temp: Seq<char>,
) -> Seq<char> {
    match (given, cache, home) {
        (Some(g), _, _) => g,
        (None, Some(c), _) => joined(joined(c, "gliff"@), "clipboard"@),
        (None, None, Some(h)) => joined(joined(joined(h, ".cache"@), "gliff"@), "clipboard"@),
        (None, None, None) => joined(joined(temp, "gliff"@), "clipboard"@),
    }
}

/// What an optional text holds.
pub open spec fn chars_if(s: Option<String>) -> Option<Seq<char>> {
    match s {
        Some(t) => Some(t@),
        None => None,
    }
}

/// The directory that spools are kept in: the one that was asked for, else
/// `gliff/clipboard` below the cache directory, below `.cache` in the home
/// directory or below the system's temporary directory, whichever there is
/// first.
pub fn base_path(given: Option<String>, cache: Option<String>, home: Option<String>, temp: String) -> (path: String)
    ensures
        path@ == base_of(chars_if(given), chars_if(cache), chars_if(home), temp@),
{
    let mut path: String = match (given, cache, home) {
        (Some(g), _, _) => return g,
        (None, Some(c), _) => c,
        (None, None, Some(h)) => {
            let mut below: String = h;
            join(&mut below, ".cache");
            below
        },
        (None, None, None) => temp,
    };
    join(&mut path, "gliff");
    join(&mut path, "clipboard");
    path
}

/// The directory that holds one offer's files on the pasting side: the first
/// of the process's that is free.
#[derive(Debug, Clone, Copy, PartialEq, Eq, Structural)]
pub struct Spool {
    pub pid: u32,
    pub n: u32,
}

impl Spool {
    /// The first directory to try.
    pub fn create(pid: u32) -> (s: Spool)
        ensures
            s == (Spool { pid, n: 0 }),
    {
        Spool { pid, n: 0 }
    }

    /// The directory exists already: the next one to try. None where all
    /// exist.
    pub fn taken(self) -> (next: Option<Spool>)
        ensures
            next == if self.n < u32::MAX {
                Some(Spool { pid: self.pid, n: (self.n + 1) as u32 })
            } else {
                None
            },
    {
        if self.n < u32::MAX {
            Some(Spool { pid: self.pid, n: self.n + 1 })
        } else {
            None
        }
    }

    /// The directory's path below the base.
    pub fn dir(&self, base: &str) -> (path: String)
        ensures
            path@ == joined(base@, decimal(self.pid as nat).push('-') + decimal(self.n as nat)),
    {
        let mut path: String = String::new();
        path.append(base);
        assert(path@ =~= base@);
        join(&mut path, self.name().as_str());
        path
    }

    /// The directory's name below the base.
    pub fn name(&self) -> (name: String)
        ensures
            name@ == decimal(self.pid as nat).push('-') + decimal(self.n as nat),
    {
        spool_name(self.pid, self.n)
    }
}

/// Spools are made where one is asked for, else under the cache, else under the
/// home directory's cache, else among the temporary files.
pub proof fn law_where_spools_are_made(dir: Seq<char>, cache: Option<Seq<char>>, home: Option<Seq<char>>, temp:
    Seq<char>)
    requires
        dir.len() > 0,
        dir.last() != '/',
    ensures
        base_of(Some(dir), cache, home, temp) == dir,
        base_of(None, Some(dir), home, temp) == dir.push('/') + "gliff"@.push('/') + "clipboard"@,
        base_of(None, None, Some(dir), temp) == dir.push('/') + ".cache"@.push('/') + "gliff"@.push('/')
            + "clipboard"@,
        base_of(None, None, None, dir) == dir.push('/') + "gliff"@.push('/') + "clipboard"@,
{
    reveal_strlit("gliff");
    reveal_strlit("clipboard");
    reveal_strlit(".cache");
    let a = joined(dir, "gliff"@);
    assert(a.last() == 'f');
    assert(joined(a, "clipboard"@) =~= dir.push('/') + "gliff"@.push('/') + "clipboard"@);
    let b = joined(dir, ".cache"@);
    assert(b.last() == 'e');
    let c = joined(b, "gliff"@);
    assert(c.last() == 'f');
    assert(joined(c, "clipboard"@) =~= dir.push('/') + ".cache"@.push('/') + "gliff"@.push('/') + "clipboard"@);
}

} // verus!
