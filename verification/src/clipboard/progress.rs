//! Progress of a paste as the user sees it: one job per paste, whether a
//! single item or a whole file set, with the bytes done of a known or unknown
//! total. A job that lasts longer than [`QUIET`] is reported at a steady
//! cadence so the owner can show a bar or a notification, and can be
//! cancelled, which aborts its fetch and tells the peer.

use super::files::{is_top, top_level};
use super::mime::{is_text_mime, text_mime};
use super::msg::ClipboardFile;
use crate::text::{
    ascii_lower, chars_of, decimal, digit, digit_char, find_char, index_from, law_characters_are_found_first,
        lemma_index_from,
    lower_char, push_decimal, text_eq, text_of, to_upper, trim_range, trimmed, uppercased,
};
use vstd::prelude::*;
use vstd::string::StringExecFns;

verus! {

/// A job shorter than this, in nanoseconds, is never reported, so a small
/// paste shows nothing.
pub const QUIET: u64 = 1_000_000_000;

/// How often a running job is reported after that.
pub const CADENCE: u64 = 250_000_000;

#[derive(Debug, Clone, PartialEq, Eq)]
pub enum State {
    Running,
    Done,
    Cancelled,
    Failed(String),
}

#[derive(Debug, Clone, PartialEq, Eq)]
pub struct Progress {
    /// What is being pasted: the kind of item or a file summary.
    pub label: String,
    pub done: u64,
    pub total: Option<u64>,
    /// Whole bytes per second over the last few reports, where any came.
    pub rate: Option<u64>,
    pub state: State,
}

impl Progress {
    pub fn is_final(&self) -> (yes: bool)
        ensures
            yes == !(self.state is Running),
    {
        match self.state {
            State::Running => false,
            _ => true,
        }
    }

    /// Completion in percent, when the total is known.
    pub fn percent(&self) -> (p: Option<u32>)
        ensures
            match self.total {
                None => p is None,
                Some(t) => if t == 0 {
                    p is None
                } else {
                    p == Some(percent_of(self.done as int, t as int) as u32)
                },
            },
            p matches Some(x) ==> x <= 100,
    {
        let total: u64 = match self.total {
            Some(t) => t,
            None => return None,
        };
        if total == 0 {
            return None;
        }
        let hundred: u64 = match self.done.checked_mul(100) {
            Some(x) => x,
            None => u64::MAX,
        };
        let p: u64 = hundred / total;
        if p < 100 {
            Some(p as u32)
        } else {
            Some(100)
        }
    }
}

/// `done` of `total` in whole percent, at most 100. The product stays within
/// 64 bits.
pub open spec fn percent_of(done: int, total: int) -> int {
    let hundred = if done * 100 <= u64::MAX {
        done * 100
    } else {
        u64::MAX as int
    };
    if hundred / total < 100 {
        hundred / total
    } else {
        100
    }
}

/// Bytes done so far.
#[derive(Debug, Clone, Copy, PartialEq, Eq, Structural)]
pub struct Meter {
    pub done: u64,
}

impl Default for Meter {
    fn default() -> (m: Meter)
        ensures
            m.done == 0,
    {
        Meter { done: 0 }
    }
}

impl Meter {
    pub fn add(&mut self, n: u64)
        requires
            old(self).done + n <= u64::MAX,
        ensures
            final(self).done == old(self).done + n,
    {
        self.done = self.done + n;
    }

    pub fn get(&self) -> (n: u64)
        ensures
            n == self.done,
    {
        self.done
    }
}

/// `a / b`, rounded to the nearest, a half to the even one.
pub open spec fn half_even(a: nat, b: nat) -> nat {
    if 2 * (a % b) > b || (2 * (a % b) == b && (a / b) % 2 == 1) {
        a / b + 1
    } else {
        a / b
    }
}

fn round_half_even(a: u128, b: u128) -> (q: u128)
    requires
        0 < b < 0x1_0000_0000_0000_0000,
        a < 0x1_0000_0000_0000_0000_0000,
    ensures
        q == half_even(a as nat, b as nat),
{
    let q: u128 = a / b;
    let r: u128 = a % b;
    proof {
        assert(q <= a) by (nonlinear_arith)
            requires
                b > 0,
                q == a / b,
        ;
    }
    if 2 * r > b || (2 * r == b && q % 2 == 1) {
        q + 1
    } else {
        q
    }
}

/// The step between numbers of this size that have 53 binary digits.
pub open spec fn step(n: nat) -> nat
    decreases n,
{
    if n < 0x20_0000_0000_0000 {
        1
    } else {
        2 * step(n / 2)
    }
}

/// The nearest number with 53 binary digits.
pub open spec fn in_53_bits(n: nat) -> nat {
    half_even(n, step(n)) * step(n)
}

proof fn lemma_step(n: nat)
    requires
        n <= u64::MAX,
    ensures
        1 <= step(n) <= 2048,
        step(n) <= n + 1,
{
    reveal_with_fuel(step, 13);
}

fn step_of(n: u64) -> (s: u64)
    ensures
        s == step(n as nat),
        1 <= s <= 2048,
    decreases n,
{
    proof {
        lemma_step(n as nat);
    }
    if n < 0x20_0000_0000_0000 {
        1
    } else {
        2 * step_of(n / 2)
    }
}

/// The unit a figure is told in: its size and name.
pub open spec fn unit_of(n: nat) -> (nat, Seq<char>) {
    if n < 0x10_0000 {
        (0x400, " KiB"@)
    } else if n < 0x4000_0000 {
        (0x10_0000, " MiB"@)
    } else if n < 0x100_0000_0000 {
        (0x4000_0000, " GiB"@)
    } else {
        (0x100_0000_0000, " TiB"@)
    }
}

/// Bytes as a short human figure: `1.5 MiB`.
pub open spec fn figure(n: nat) -> Seq<char> {
    if n < 1024 {
        decimal(n) + " B"@
    } else {
        let tenths = half_even(in_53_bits(n) * 10, unit_of(n).0);
        decimal(tenths / 10).push('.').push(digit(tenths % 10)) + unit_of(n).1
    }
}

proof fn lemma_tenths(n: nat)
    requires
        n <= u64::MAX,
    ensures
        in_53_bits(n) <= 0x1_0000_0000_0000_1000,
{
    lemma_step(n);
    let s = step(n);
    let q = n / s;
    assert(q * s <= n && half_even(n, s) <= q + 1 && (q + 1) * s == q * s + s) by (nonlinear_arith)
        requires
            s >= 1,
            q == n / s,
            half_even(n, s) == q || half_even(n, s) == q + 1,
    ;
    assert(half_even(n, s) * s <= (q + 1) * s) by (nonlinear_arith)
        requires
            half_even(n, s) <= q + 1,
            s >= 1,
    ;
}

pub fn human_bytes(n: u64) -> (s: String)
    ensures
        s@ == figure(n as nat),
{
    let mut s: String = String::new();
    if n < 1024 {
        push_decimal(&mut s, n);
        s.append(" B");
        assert(s@ =~= figure(n as nat));
        return s;
    }
    let step: u128 = step_of(n) as u128;
    let near: u128 = round_half_even(n as u128, step);
    proof {
        lemma_tenths(n as nat);
        assert(near <= n + 1) by (nonlinear_arith)
            requires
                near == half_even(n as nat, step as nat),
                step >= 1,
        ;
        assert(near * step <= 0x1_0000_0000_0000_1000);
    }
    let value: u128 = near * step;
    let (unit, name): (u128, &str) = if n < 0x10_0000 {
        (0x400, " KiB")
    } else if n < 0x4000_0000 {
        (0x10_0000, " MiB")
    } else if n < 0x100_0000_0000 {
        (0x4000_0000, " GiB")
    } else {
        (0x100_0000_0000, " TiB")
    };
    let tenths: u128 = round_half_even(value * 10, unit);
    proof {
        let a = (value * 10) as nat;
        assert(tenths <= a / 1024 + 1) by (nonlinear_arith)
            requires
                tenths == half_even(a, unit as nat),
                unit >= 1024,
        ;
    }
    let t: u64 = tenths as u64;
    push_decimal(&mut s, t / 10);
    s.push('.');
    s.push(digit_char(t % 10));
    s.append(name);
    assert(s@ =~= figure(n as nat));
    s
}

/// A one-line description of a job.
pub open spec fn line(p: Progress) -> Seq<char> {
    let a = figure(p.done as nat);
    let b = match p.total {
        Some(t) => a + " of "@ + figure(t as nat),
        None => a,
    };
    match p.rate {
        Some(r) => b + ", "@ + figure(r as nat) + "/s"@,
        None => b,
    }
}

/// A one-line description of a running job: `12.0 MiB of 40.0 MiB, 3.1 MiB/s`.
pub fn describe(p: &Progress) -> (s: String)
    ensures
        s@ == line(*p),
{
    let mut s: String = human_bytes(p.done);
    if let Some(total) = p.total {
        s.append(" of ");
        s.append(human_bytes(total).as_str());
    }
    if let Some(rate) = p.rate {
        s.append(", ");
        s.append(human_bytes(rate).as_str());
        s.append("/s");
    }
    s
}

/// The bytes of the files among the first `n` entries.
pub open spec fn sizes(files: Seq<ClipboardFile>, n: int) -> nat
    decreases n,
{
    if n <= 0 {
        0
    } else if files[n - 1].dir {
        sizes(files, n - 1)
    } else {
        sizes(files, n - 1) + files[n - 1].size as nat
    }
}

proof fn lemma_sizes(files: Seq<ClipboardFile>, n: int)
    requires
        0 <= n <= files.len(),
    ensures
        sizes(files, n) <= sizes(files, files.len() as int),
    decreases files.len() - n,
{
    if n < files.len() {
        lemma_sizes(files, n + 1);
    }
}

/// The label of a job that pastes a file set.
pub open spec fn files_label(files: Seq<ClipboardFile>) -> Seq<char> {
    let tops = files.filter(|f: ClipboardFile| is_top(f));
    if tops.len() == 1 {
        tops[0].path@
    } else {
        decimal(tops.len()) + " items"@
    }
}

/// The label and total of a job that pastes a file set: the single
/// top-level name, or a count, and the sum of the file sizes.
pub fn describe_files(files: &[ClipboardFile]) -> (res: (String, Option<u64>))
    requires
        sizes(files@, files@.len() as int) <= u64::MAX,
    ensures
        res.0@ == files_label(files@),
        res.1 == Some(sizes(files@, files@.len() as int) as u64),
{
    let tops: Vec<&ClipboardFile> = top_level(files);
    let ghost picked = tops@.map_values(|f: &ClipboardFile| *f);
    let label: String = if tops.len() == 1 {
        assert(picked[0] == *tops@[0]);
        tops[0].path.clone()
    } else {
        let mut s: String = String::new();
        push_decimal(&mut s, tops.len() as u64);
        s.append(" items");
        assert(s@ =~= decimal(tops@.len()) + " items"@);
        s
    };
    let mut total: u64 = 0;
    let n: usize = files.len();
    for i in 0..n
        invariant
            n == files@.len(),
            total == sizes(files@, i as int),
            sizes(files@, n as int) <= u64::MAX,
    {
        proof {
            lemma_sizes(files@, i + 1);
        }
        if !files[i].dir {
            total = total + files[i].size;
        }
    }
    (label, Some(total))
}

pub open spec fn lowered(s: Seq<char>) -> Seq<char> {
    s.map_values(|c: char| ascii_lower(c))
}

/// A mime type without its parameters, in lower case.
pub open spec fn mime_base(mime: Seq<char>) -> Seq<char> {
    lowered(trimmed(mime.take(index_from(mime, ';', 0))))
}

/// What the user would call an item of a mime type, when there is a common
/// name for it; else the type.
pub open spec fn mime_label(mime: Seq<char>) -> Seq<char> {
    let base = mime_base(mime);
    let slash = index_from(base, '/', 0);
    let kind = base.take(slash);
    let sub = base.skip(slash + 1);
    let format = sub.take(index_from(sub, '+', 0));
    if text_mime(mime) {
        "text"@
    } else if slash >= base.len() || sub.len() == 0 {
        mime
    } else if kind == "text"@ && sub == "html"@ {
        "formatted text"@
    } else if kind == "text"@ {
        "text"@
    } else if (kind == "image"@ || kind == "audio"@ || kind == "video"@) && format.len() > 0 {
        uppercased(format).push(' ') + kind
    } else if kind == "application"@ && sub == "octet-stream"@ {
        "binary data"@
    } else if kind == "application"@ && sub == "pdf"@ {
        "PDF"@
    } else {
        mime
    }
}

/// The label of a job that pastes one clipboard item: what the user would
/// call it, not its mime type, when there is a common name for it.
pub fn describe_mime(mime: &str) -> (label: String)
    ensures
        label@ == mime_label(mime@),
{
    if is_text_mime(mime) {
        return "text".to_string();
    }
    let chars: Vec<char> = chars_of(mime);
    let semicolon: usize = find_char(&chars, ';', 0);
    let (start, end): (usize, usize) = trim_range(&chars, 0, semicolon);
    let mut base: Vec<char> = Vec::new();
    let ghost part = chars@.subrange(start as int, end as int);
    for i in start..end
        invariant
            start <= end <= chars@.len(),
            part == chars@.subrange(start as int, end as int),
            base@ == lowered(part.take(i - start)),
    {
        base.push(lower_char(chars[i]));
        proof {
            assert(base@ =~= lowered(part.take(i + 1 - start)));
        }
    }
    proof {
        assert(part.take(end - start) =~= part);
        assert(chars@.take(semicolon as int) =~= chars@.subrange(0, semicolon as int));
        assert(base@ =~= mime_base(mime@));
        lemma_index_from(base@, '/', 0);
    }
    let n: usize = base.len();
    let slash: usize = find_char(&base, '/', 0);
    if slash >= n || slash + 1 >= n {
        return mime.to_string();
    }
    let kind: String = text_of(&base, 0, slash);
    let sub: String = text_of(&base, slash + 1, n);
    proof {
        assert(kind@ =~= base@.take(slash as int));
        assert(sub@ =~= base@.skip(slash + 1));
    }
    if text_eq(kind.as_str(), "text") {
        return if text_eq(sub.as_str(), "html") {
            "formatted text".to_string()
        } else {
            "text".to_string()
        };
    }
    let sub_chars: Vec<char> = chars_of(sub.as_str());
    let plus: usize = find_char(&sub_chars, '+', 0);
    let format: String = text_of(&sub_chars, 0, plus);
    proof {
        lemma_index_from(sub_chars@, '+', 0);
        assert(format@ =~= sub@.take(plus as int));
    }
    let picture: bool = text_eq(kind.as_str(), "image") || text_eq(kind.as_str(), "audio") || text_eq(
        kind.as_str(),
        "video",
    );
    if picture && plus > 0 {
        let mut s: String = to_upper(format.as_str());
        s.push(' ');
        s.append(kind.as_str());
        return s;
    }
    if text_eq(kind.as_str(), "application") && text_eq(sub.as_str(), "octet-stream") {
        return "binary data".to_string();
    }
    if text_eq(kind.as_str(), "application") && text_eq(sub.as_str(), "pdf") {
        return "PDF".to_string();
    }
    mime.to_string()
}

/// Progress in percent is the whole part of it: no more than was done, and
/// within one percent; all that was done, or more, is 100.
pub proof fn law_percents_are_rounded_down(done: int, total: int)
    requires
        0 <= done,
        0 < total,
        done * 100 <= u64::MAX,
    ensures
        done >= total ==> percent_of(done, total) == 100,
        done < total ==> percent_of(done, total) * total <= done * 100 < (percent_of(done, total) + 1) * total,
{
    let q = done * 100 / total;
    assert(q * total <= done * 100 < (q + 1) * total) by (nonlinear_arith)
        requires
            total > 0,
            q == done * 100 / total,
    ;
    if done >= total {
        assert(q >= 100) by (nonlinear_arith)
            requires
                total > 0,
                done >= total,
                done * 100 < (q + 1) * total,
        ;
    } else {
        assert(q < 100) by (nonlinear_arith)
            requires
                total > 0,
                done < total,
                q * total <= done * 100,
        ;
    }
}

/// A quotient is rounded to the nearest number, and to the even one of two.
pub proof fn law_quotients_are_rounded_to_the_nearest(a: nat, b: nat)
    requires
        b > 0,
    ensures
        ({
            let q = half_even(a, b);
            &&& 2 * q * b <= 2 * a + b
            &&& 2 * a <= 2 * q * b + b
            &&& 2 * q * b == 2 * a + b || 2 * a == 2 * q * b + b ==> q % 2 == 0
        }),
{
    let (d, r) = (a / b, a % b);
    assert(a == d * b + r && 0 <= r < b) by (nonlinear_arith)
        requires
            b > 0,
            d == a / b,
            r == a % b,
    ;
    let q = half_even(a, b);
    assert((d + 1) * b == d * b + b) by (nonlinear_arith);
    assert(2 * q * b == 2 * (q * b)) by (nonlinear_arith);
    if q == d + 1 {
        assert(q * b == d * b + b);
    } else {
        assert(q * b == d * b);
    }
}

/// A size is told in the largest unit that it reaches.
pub proof fn law_sizes_are_told_in_their_unit(n: nat)
    ensures
        n < 1024 * 1024 ==> unit_of(n) == (1024nat, " KiB"@),
        1024 * 1024 <= n < 1024 * 1024 * 1024 ==> unit_of(n) == ((1024 * 1024) as nat, " MiB"@),
        1024 * 1024 * 1024 <= n < 1024 * 1024 * 1024 * 1024 ==> unit_of(n) == ((1024 * 1024 * 1024) as nat, " GiB"@),
        n >= 1024 * 1024 * 1024 * 1024 ==> unit_of(n) == ((1024 * 1024 * 1024 * 1024) as nat, " TiB"@),
{
}

/// The bytes of an offer are those of its files; directories have none.
pub proof fn law_an_offers_size_is_that_of_its_files(files: Seq<ClipboardFile>, n: int)
    requires
        0 <= n <= files.len(),
    ensures
        sizes(files, n) == files.take(n).filter(|f: ClipboardFile| !f.dir).map_values(
            |f: ClipboardFile| f.size as int,
        ).fold_left(0int, |s: int, x: int| s + x),
    decreases n,
{
    reveal(Seq::filter);
    let file = |f: ClipboardFile| !f.dir;
    let size = |f: ClipboardFile| f.size as int;
    if n > 0 {
        law_an_offers_size_is_that_of_its_files(files, n - 1);
        assert(files.take(n).drop_last() =~= files.take(n - 1));
        let (now, before) = (files.take(n).filter(file), files.take(n - 1).filter(file));
        if !files[n - 1].dir {
            assert(now.map_values(size).drop_last() =~= before.map_values(size));
            assert(now.map_values(size).last() == files[n - 1].size);
        }
    } else {
        assert(files.take(0).filter(file).map_values(size) =~= Seq::empty());
    }
}

/// A file set goes by the name of its only entry at the top, else by how many
/// entries there are.
pub proof fn law_file_sets_are_labelled(files: Seq<ClipboardFile>)
    ensures
        ({
            let tops = files.filter(|f: ClipboardFile| !f.path@.contains('/'));
            &&& tops.len() == 1 ==> files_label(files) == tops[0].path@
            &&& tops.len() != 1 ==> files_label(files) == decimal(tops.len()) + " items"@
        }),
{
    lemma_tops(files);
}

proof fn lemma_tops(files: Seq<ClipboardFile>)
    ensures
        files.filter(|f: ClipboardFile| is_top(f)) == files.filter(|f: ClipboardFile| !f.path@.contains('/')),
    decreases files.len(),
{
    reveal(Seq::filter);
    if files.len() > 0 {
        lemma_tops(files.drop_last());
    }
}

proof fn lemma_split_at(kind: Seq<char>, sub: Seq<char>)
    requires
        !kind.contains('/'),
    ensures
        ({
            let base = kind.push('/') + sub;
            let at = index_from(base, '/', 0);
            at == kind.len() && base.take(at) == kind && base.skip(at + 1) == sub
        }),
{
    let base = kind.push('/') + sub;
    law_characters_are_found_first(base, '/', 0);
    let at = index_from(base, '/', 0);
    assert(base[kind.len() as int] == '/');
    if at < kind.len() {
        assert(kind[at] == base[at]);
        assert(kind.contains('/'));
    }
    assert(base.take(at) =~= kind);
    assert(base.skip(at + 1) =~= sub);
}

/// An image, a sound or a film goes by its format in capitals, up to a plus
/// sign, and its kind.
pub proof fn law_media_go_by_their_format(mime: Seq<char>, kind: Seq<char>, sub: Seq<char>)
    requires
        !text_mime(mime),
        kind == "image"@ || kind == "audio"@ || kind == "video"@,
        sub.len() > 0,
        sub[0] != '+',
        mime_base(mime) == kind.push('/') + sub,
    ensures
        ({
            let label = mime_label(mime);
            let end = index_from(sub, '+', 0);
            &&& label == uppercased(sub.take(end)).push(' ') + kind
            &&& !sub.contains('+') ==> label == uppercased(sub).push(' ') + kind
        }),
{
    reveal_strlit("image");
    reveal_strlit("audio");
    reveal_strlit("video");
    reveal_strlit("text");
    assert(kind.len() == 5);
    assert(!kind.contains('/'));
    assert(kind != "text"@);
    lemma_split_at(kind, sub);
    law_characters_are_found_first(sub, '+', 0);
    let end = index_from(sub, '+', 0);
    if !sub.contains('+') {
        assert(end == sub.len());
        assert(sub.take(end) =~= sub);
    }
}

/// Any text goes as text, but formatted text by that name; raw bytes and
/// portable documents have names of their own.
pub proof fn law_other_types_go_by_their_names(mime: Seq<char>, sub: Seq<char>)
    requires
        !text_mime(mime),
        sub.len() > 0,
    ensures
        mime_base(mime) == "text"@.push('/') + sub ==> mime_label(mime) == if sub == "html"@ {
            "formatted text"@
        } else {
            "text"@
        },
        mime_base(mime) == "application"@.push('/') + sub ==> mime_label(mime) == if sub == "octet-stream"@ {
            "binary data"@
        } else if sub == "pdf"@ {
            "PDF"@
        } else {
            mime
        },
{
    reveal_strlit("image");
    reveal_strlit("audio");
    reveal_strlit("video");
    reveal_strlit("text");
    reveal_strlit("application");
    reveal_strlit("octet-stream");
    reveal_strlit("pdf");
    assert(!"text"@.contains('/'));
    assert(!"application"@.contains('/'));
    lemma_split_at("text"@, sub);
    lemma_split_at("application"@, sub);
    assert("text"@.len() == 4 && "application"@.len() == 11 && "image"@.len() == 5);
    assert("audio"@.len() == 5 && "video"@.len() == 5);
    assert("octet-stream"@.len() == 12 && "pdf"@.len() == 3);
}

/// A type's parameters do not matter, nor does its case.
pub proof fn law_parameters_do_not_matter(mime: Seq<char>, parameters: Seq<char>)
    requires
        !mime.contains(';'),
    ensures
        mime_base(mime.push(';') + parameters) == mime_base(mime),
{
    let with = mime.push(';') + parameters;
    law_characters_are_found_first(with, ';', 0);
    law_characters_are_found_first(mime, ';', 0);
    let at = index_from(with, ';', 0);
    assert(with[mime.len() as int] == ';');
    if at < mime.len() {
        assert(mime[at] == with[at]);
        assert(mime.contains(';'));
    }
    assert(index_from(mime, ';', 0) == mime.len());
    assert(with.take(at) =~= mime.take(mime.len() as int));
}

/// A type without a name before its slash, or without anything behind it, has
/// no other name than itself.
pub proof fn law_broken_types_go_by_themselves(mime: Seq<char>)
    requires
        !text_mime(mime),
        mime_base(mime).len() > 0,
        mime_base(mime)[0] == '/' || !mime_base(mime).contains('/'),
    ensures
        mime_label(mime) == mime,
{
    reveal_strlit("text");
    reveal_strlit("image");
    reveal_strlit("audio");
    reveal_strlit("video");
    reveal_strlit("application");
    let base = mime_base(mime);
    law_characters_are_found_first(base, '/', 0);
    let slash = index_from(base, '/', 0);
    if base[0] == '/' {
        assert(slash == 0);
        let kind = base.take(slash);
        assert(kind.len() == 0);
        assert("text"@.len() == 4 && "application"@.len() == 11 && "image"@.len() == 5);
        assert("audio"@.len() == 5 && "video"@.len() == 5);
    } else {
        assert(slash == base.len()) by {
            if slash < base.len() {
                assert(base.contains(base[slash]));
            }
        }
    }
}

} // verus!
