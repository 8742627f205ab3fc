//! What a driver is asked for through the environment.

use crate::text::{
    chars_of, find_char, index_from, lemma_index_from, lemma_index_is, pieces, text_eq, text_of, together,
    trim_range, trimmed,
};
use vstd::prelude::*;
use vstd::string::StringExecFns;

verus! {

/// The variable that Mesa's Intel driver (ANV) reads. It compiles Vulkan
/// Video in but hides it until this names both.
pub const VAR: &'static str = "ANV_DEBUG";

pub const VIDEO_DECODE: &'static str = "video-decode";

pub const VIDEO_ENCODE: &'static str = "video-encode";

/// The flags in a list, without white space and empty ones.
pub open spec fn flags_in(parts: Seq<Seq<char>>) -> Seq<Seq<char>>
    decreases parts.len(),
{
    if parts.len() == 0 {
        Seq::empty()
    } else {
        let before = flags_in(parts.drop_last());
        if trimmed(parts.last()).len() == 0 {
            before
        } else {
            before.push(trimmed(parts.last()))
        }
    }
}

/// The flags that a value names.
pub open spec fn flags_of(value: Seq<char>) -> Seq<Seq<char>> {
    flags_in(pieces(value, ','))
}

/// With one more flag, unless it is named.
pub open spec fn asked(flags: Seq<Seq<char>>, wanted: Seq<char>) -> Seq<Seq<char>> {
    if flags.contains(wanted) {
        flags
    } else {
        flags.push(wanted)
    }
}

/// Flags with commas between them.
pub open spec fn listed(flags: Seq<Seq<char>>) -> Seq<char>
    decreases flags.len(),
{
    if flags.len() == 0 {
        Seq::empty()
    } else if flags.len() == 1 {
        flags[0]
    } else {
        listed(flags.drop_last()).push(',') + flags.last()
    }
}

/// The texts of strings.
pub open spec fn texts(list: Seq<String>) -> Seq<Seq<char>> {
    list.map_values(|s: String| s@)
}

fn names(list: &Vec<String>, flag: &str) -> (yes: bool)
    ensures
        yes == texts(list@).contains(flag@),
{
    let n: usize = list.len();
    for i in 0..n
        invariant
            n == list@.len(),
            forall|k: int| 0 <= k < i ==> #[trigger] texts(list@)[k] != flag@,
    {
        assert(texts(list@)[i as int] == list@[i as int]@);
        if text_eq(list[i].as_str(), flag) {
            return true;
        }
    }
    false
}

/// The part of a value from `start` to the next comma.
proof fn lemma_first_piece(s: Seq<char>, start: int)
    requires
        0 <= start <= s.len(),
    ensures
        ({
            let rest = s.skip(start);
            let at = index_from(s, ',', start);
            &&& start <= at <= s.len()
            &&& at < s.len() ==> pieces(rest, ',') == seq![s.subrange(start, at)] + pieces(s.skip(at + 1), ',')
            &&& at == s.len() ==> pieces(rest, ',') == seq![s.subrange(start, at)]
        }),
{
    let rest = s.skip(start);
    let at = index_from(s, ',', start);
    lemma_index_from(s, ',', start);
    lemma_index_is(rest, ',', 0, at - start);
    if at < s.len() {
        assert(rest.take(at - start) =~= s.subrange(start, at));
        assert(rest.skip(at - start + 1) =~= s.skip(at + 1));
    } else {
        assert(rest =~= s.subrange(start, at));
    }
}

fn parse_flags(value: &str) -> (flags: Vec<String>)
    ensures
        texts(flags@) == flags_of(value@),
{
    let chars: Vec<char> = chars_of(value);
    let mut flags: Vec<String> = Vec::new();
    let mut start: usize = 0;
    let ghost mut seen: Seq<Seq<char>> = Seq::empty();
    proof {
        assert(value@.skip(0) =~= value@);
        assert(seen + pieces(value@.skip(0), ',') =~= pieces(value@, ','));
        assert(texts(flags@) =~= Seq::empty());
    }
    loop
        invariant
            chars@ == value@,
            start <= chars@.len(),
            pieces(value@, ',') == seen + pieces(value@.skip(start as int), ','),
            texts(flags@) == flags_in(seen),
        decreases chars@.len() - start,
    {
        proof {
            lemma_first_piece(value@, start as int);
        }
        let at: usize = find_char(&chars, ',', start);
        let (a, b): (usize, usize) = trim_range(&chars, start, at);
        let ghost piece = value@.subrange(start as int, at as int);
        let ghost before = flags@;
        let ghost next = seen.push(piece);
        proof {
            assert(next.drop_last() =~= seen);
        }
        if a < b {
            let flag: String = text_of(&chars, a, b);
            flags.push(flag);
            proof {
                assert(texts(flags@) =~= texts(before).push(trimmed(piece)));
            }
        }
        proof {
            assert(texts(flags@) == flags_in(next));
        }
        if at >= chars.len() {
            proof {
                assert(seen + seq![piece] =~= next);
            }
            return flags;
        }
        proof {
            assert(seen + (seq![piece] + pieces(value@.skip(at + 1), ',')) =~= next + pieces(
                value@.skip(at + 1),
                ',',
            ));
            seen = next;
        }
        start = at + 1;
    }
}

fn join(flags: &Vec<String>) -> (s: String)
    ensures
        s@ == listed(texts(flags@)),
{
    let mut s: String = String::new();
    let n: usize = flags.len();
    let ghost all = texts(flags@);
    proof {
        assert(all.take(0) =~= Seq::empty());
    }
    for i in 0..n
        invariant
            n == flags@.len(),
            all == texts(flags@),
            s@ == listed(all.take(i as int)),
    {
        proof {
            assert(all.take(i + 1).drop_last() =~= all.take(i as int));
            assert(all.take(i + 1).last() == flags@[i as int]@);
        }
        if i > 0 {
            s.push(',');
        }
        s.append(flags[i].as_str());
        proof {
            assert(s@ =~= listed(all.take(i + 1)));
        }
    }
    proof {
        assert(all.take(n as int) =~= all);
    }
    s
}

/// The value the variable is to have so that both are named, by what it has;
/// none where it names them. Flags already there stay.
pub fn driver_flags(current: &str) -> (value: Option<String>)
    ensures
        ({
            let had = flags_of(current@);
            let has = had.contains(VIDEO_DECODE@) && had.contains(VIDEO_ENCODE@);
            if has {
                value is None
            } else {
                value matches Some(v) && v@ == listed(asked(asked(had, VIDEO_DECODE@), VIDEO_ENCODE@))
            }
        }),
{
    let mut flags: Vec<String> = parse_flags(current);
    let ghost had = texts(flags@);
    let decode: bool = names(&flags, VIDEO_DECODE);
    let encode: bool = names(&flags, VIDEO_ENCODE);
    if decode && encode {
        return None;
    }
    if !decode {
        let ghost before = flags@;
        flags.push(VIDEO_DECODE.to_string());
        proof {
            assert(texts(flags@) =~= texts(before).push(VIDEO_DECODE@));
        }
    }
    proof {
        let now = texts(flags@);
        assert(now == asked(had, VIDEO_DECODE@));
        reveal_strlit("video-decode");
        reveal_strlit("video-encode");
        assert(VIDEO_DECODE@[6] != VIDEO_ENCODE@[6]);
        assert(now.contains(VIDEO_ENCODE@) == had.contains(VIDEO_ENCODE@)) by {
            if had.contains(VIDEO_ENCODE@) {
                let i = choose|i: int| 0 <= i < had.len() && had[i] == VIDEO_ENCODE@;
                assert(now[i] == VIDEO_ENCODE@);
            }
            if now.contains(VIDEO_ENCODE@) {
                let i = choose|i: int| 0 <= i < now.len() && now[i] == VIDEO_ENCODE@;
                assert(i < had.len() ==> had[i] == now[i]);
            }
        }
    }
    if !encode {
        let ghost before = flags@;
        flags.push(VIDEO_ENCODE.to_string());
        proof {
            assert(texts(flags@) =~= texts(before).push(VIDEO_ENCODE@));
        }
    }
    Some(join(&flags))
}

/// The flags in a value are what stands between commas, without the white
/// space around it, where anything is left.
pub proof fn law_flags_stand_between_commas(parts: Seq<Seq<char>>)
    ensures
        flags_in(parts) == parts.map_values(|p: Seq<char>| trimmed(p)).filter(|t: Seq<char>| t.len() > 0),
    decreases parts.len(),
{
    reveal(Seq::filter);
    let all = parts.map_values(|p: Seq<char>| trimmed(p));
    let test = |t: Seq<char>| t.len() > 0;
    if parts.len() > 0 {
        law_flags_stand_between_commas(parts.drop_last());
        assert(all.drop_last() =~= parts.drop_last().map_values(|p: Seq<char>| trimmed(p)));
        assert(all.last() == trimmed(parts.last()));
    } else {
        assert(all.filter(test) =~= Seq::empty());
    }
}

/// A flag that is asked for is there afterwards, once more only where it was
/// not, behind those that were.
pub proof fn law_flags_are_asked_for_once(flags: Seq<Seq<char>>, wanted: Seq<char>)
    ensures
        asked(flags, wanted).contains(wanted),
        flags.is_prefix_of(asked(flags, wanted)),
        flags.contains(wanted) ==> asked(flags, wanted) == flags,
        asked(flags, wanted).len() <= flags.len() + 1,
{
    if !flags.contains(wanted) {
        assert(asked(flags, wanted)[flags.len() as int] == wanted);
    }
    assert(flags =~= asked(flags, wanted).take(flags.len() as int));
}

proof fn lemma_together(a: Seq<Seq<char>>, last: Seq<char>, c: char)
    requires
        a.len() > 0,
    ensures
        together(a.push(last), c) == together(a, c).push(c) + last,
    decreases a.len(),
{
    let all = a.push(last);
    assert(all.drop_first() =~= a.drop_first().push(last));
    if a.len() == 1 {
        assert(a.drop_first() =~= Seq::empty());
        assert(all.drop_first() =~= seq![last]);
        assert(together(seq![last], c) == last);
    } else {
        lemma_together(a.drop_first(), last, c);
        assert(together(all, c) =~= together(a, c).push(c) + last);
    }
}

/// A value is written with the flags in their order and commas between them.
pub proof fn law_flags_are_joined_by_commas(flags: Seq<Seq<char>>)
    ensures
        listed(flags) == together(flags, ','),
    decreases flags.len(),
{
    if flags.len() > 1 {
        law_flags_are_joined_by_commas(flags.drop_last());
        lemma_together(flags.drop_last(), flags.last(), ',');
        assert(flags.drop_last().push(flags.last()) =~= flags);
    }
}

} // verus!
