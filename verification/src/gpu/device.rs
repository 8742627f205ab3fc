//! Devices, queue families and memory types.

use crate::text::text_eq;
use vstd::prelude::*;

verus! {

/// Queue family indices; encode and decode are absent on GPUs without them.
#[derive(Debug, Clone, Copy, PartialEq, Eq, Structural)]
pub struct Families {
    pub compute: u32,
    pub encode: Option<u32>,
    pub decode: Option<u32>,
}

/// With one more family, unless it is listed.
pub open spec fn with_family(list: Seq<u32>, f: Option<u32>) -> Seq<u32> {
    match f {
        Some(x) => if list.contains(x) {
            list
        } else {
            list.push(x)
        },
        None => list,
    }
}

fn add_family(list: &mut Vec<u32>, f: Option<u32>)
    requires
        old(list)@.len() < usize::MAX,
    ensures
        final(list)@ == with_family(old(list)@, f),
{
    if let Some(x) = f {
        let n: usize = list.len();
        for i in 0..n
            invariant
                n == list@.len(),
                list@ == old(list)@,
                f == Some(x),
                forall|k: int| 0 <= k < i ==> list@[k] != x,
        {
            if list[i] == x {
                assert(list@.contains(list@[i as int]));
                return;
            }
        }
        list.push(x);
    }
}

impl Families {
    /// Distinct families, for images that several queues use.
    pub fn all(&self) -> (list: Vec<u32>)
        ensures
            list@ == with_family(with_family(seq![self.compute], self.encode), self.decode),
            list@.no_duplicates(),
    {
        let mut list: Vec<u32> = vec![self.compute];
        assert(list@ =~= seq![self.compute]);
        add_family(&mut list, self.encode);
        add_family(&mut list, self.decode);
        list
    }

    pub fn can_encode(&self) -> (yes: bool)
        ensures
            yes == (self.encode is Some),
    {
        self.encode.is_some()
    }

    pub fn can_decode(&self) -> (yes: bool)
        ensures
            yes == (self.decode is Some),
    {
        self.decode.is_some()
    }
}

/// What a queue family can do.
#[derive(Debug, Clone, Copy, PartialEq, Eq, Structural)]
pub struct QueueFamily {
    pub compute: bool,
    pub graphics: bool,
    pub encode_h264: bool,
    pub decode_h264: bool,
}

/// Something a queue family can do.
#[derive(Debug, Clone, Copy, PartialEq, Eq, Structural)]
pub enum Ability {
    Compute,
    /// Compute without graphics.
    ComputeOnly,
    Encode,
    Decode,
}

pub open spec fn able(f: QueueFamily, a: Ability) -> bool {
    match a {
        Ability::Compute => f.compute,
        Ability::ComputeOnly => f.compute && !f.graphics,
        Ability::Encode => f.encode_h264,
        Ability::Decode => f.decode_h264,
    }
}

/// The first family from `i` on with an ability.
pub open spec fn first_able(fs: Seq<QueueFamily>, a: Ability, i: int) -> Option<u32>
    decreases fs.len() - i,
{
    if !(0 <= i < fs.len()) {
        None
    } else if able(fs[i], a) {
        Some(i as u32)
    } else {
        first_able(fs, a, i + 1)
    }
}

fn find_able(fs: &[QueueFamily], a: Ability) -> (at: Option<u32>)
    requires
        fs@.len() <= u32::MAX,
    ensures
        at == first_able(fs@, a, 0),
{
    let n: usize = fs.len();
    for i in 0..n
        invariant
            n == fs@.len() <= u32::MAX,
            first_able(fs@, a, 0) == first_able(fs@, a, i as int),
    {
        let f: QueueFamily = fs[i];
        let yes: bool = match a {
            Ability::Compute => f.compute,
            Ability::ComputeOnly => f.compute && !f.graphics,
            Ability::Encode => f.encode_h264,
            Ability::Decode => f.decode_h264,
        };
        if yes {
            return Some(i as u32);
        }
    }
    None
}

/// The families of a device: a compute family (without graphics where there
/// is one, so it never competes with the compositor), and the video ones.
pub open spec fn families_of(fs: Seq<QueueFamily>) -> Option<Families> {
    let alone = first_able(fs, Ability::ComputeOnly, 0);
    let any = first_able(fs, Ability::Compute, 0);
    let compute = if alone is Some {
        alone
    } else {
        any
    };
    match compute {
        Some(c) => Some(
            Families {
                compute: c,
                encode: first_able(fs, Ability::Encode, 0),
                decode: first_able(fs, Ability::Decode, 0),
            },
        ),
        None => None,
    }
}

pub fn pick_families(fs: &[QueueFamily]) -> (f: Option<Families>)
    requires
        fs@.len() <= u32::MAX,
    ensures
        f == families_of(fs@),
{
    let alone: Option<u32> = find_able(fs, Ability::ComputeOnly);
    let compute: u32 = match alone {
        Some(c) => c,
        None => match find_able(fs, Ability::Compute) {
            Some(c) => c,
            None => return None,
        },
    };
    Some(
        Families { compute, encode: find_able(fs, Ability::Encode), decode: find_able(fs, Ability::Decode) },
    )
}

/// A device node's number.
#[derive(Debug, Clone, Copy, PartialEq, Eq, Structural)]
pub struct DevNumber {
    pub major: i64,
    pub minor: i64,
}

/// A device as the driver reports it.
#[derive(Debug, Clone)]
pub struct Device {
    pub render: Option<DevNumber>,
    pub primary: Option<DevNumber>,
    pub extensions: Vec<String>,
    pub families: Vec<QueueFamily>,
}

pub open spec fn listed(names: Seq<String>, name: Seq<char>) -> bool {
    exists|k: int| 0 <= k < names.len() && (#[trigger] names[k])@ == name
}

/// Whether a device is the one asked for, can do all that is required, and
/// has a compute family.
pub open spec fn suits(d: Device, want: Option<DevNumber>, required: Seq<&str>) -> bool {
    &&& want is None || d.render == want || d.primary == want
    &&& forall|k: int| 0 <= k < required.len() ==> listed(d.extensions@, (#[trigger] required[k])@)
    &&& families_of(d.families@) is Some
}

fn has_extension(names: &Vec<String>, name: &str) -> (yes: bool)
    ensures
        yes == listed(names@, name@),
{
    let n: usize = names.len();
    for i in 0..n
        invariant
            n == names@.len(),
            forall|k: int| 0 <= k < i ==> (#[trigger] names@[k])@ != name@,
    {
        if text_eq(names[i].as_str(), name) {
            return true;
        }
    }
    false
}

fn is_number(a: Option<DevNumber>, b: DevNumber) -> (yes: bool)
    ensures
        yes == (a == Some(b)),
{
    match a {
        Some(n) => n == b,
        None => false,
    }
}

/// The first device that suits, and its families.
pub fn pick_device(devices: &[Device], want: Option<DevNumber>, required: &[&str]) -> (
    chosen: Option<(usize, Families)>
)
    requires
        forall|k: int| 0 <= k < devices@.len() ==> (#[trigger] devices@[k]).families@.len() <= u32::MAX,
    ensures
        match chosen {
            Some((i, f)) => {
                &&& i < devices@.len()
                &&& suits(devices@[i as int], want, required@)
                &&& families_of(devices@[i as int].families@) == Some(f)
                &&& forall|k: int| 0 <= k < i ==> !suits(#[trigger] devices@[k], want, required@)
            },
            None => forall|k: int| 0 <= k < devices@.len() ==> !suits(#[trigger] devices@[k], want, required@),
        },
{
    let n: usize = devices.len();
    for i in 0..n
        invariant
            n == devices@.len(),
            forall|k: int| 0 <= k < devices@.len() ==> (#[trigger] devices@[k]).families@.len() <= u32::MAX,
            forall|k: int| 0 <= k < i ==> !suits(#[trigger] devices@[k], want, required@),
    {
        let wanted: bool = match want {
            Some(w) => is_number(devices[i].render, w) || is_number(devices[i].primary, w),
            None => true,
        };
        let mut complete: bool = true;
        let m: usize = required.len();
        for j in 0..m
            invariant
                i < n == devices@.len(),
                m == required@.len(),
                complete == forall|k: int|
                    0 <= k < j ==> listed(devices@[i as int].extensions@, (#[trigger] required@[k])@),
        {
            if !has_extension(&devices[i].extensions, required[j]) {
                complete = false;
            }
        }
        if wanted && complete {
            assert(devices@[i as int].families@.len() <= u32::MAX);
            if let Some(f) = pick_families(devices[i].families.as_slice()) {
                return Some((i, f));
            }
        }
    }
    None
}

/// The optional extensions that a device has, in order.
pub open spec fn present(names: Seq<String>, optional: Seq<&str>, n: int) -> Seq<Seq<char>>
    decreases n,
{
    if n <= 0 {
        Seq::empty()
    } else if listed(names, optional[n - 1]@) {
        present(names, optional, n - 1).push(optional[n - 1]@)
    } else {
        present(names, optional, n - 1)
    }
}

pub fn enabled_optional<'a>(d: &Device, optional: &[&'a str]) -> (out: Vec<&'a str>)
    ensures
        out@.map_values(|s: &str| s@) == present(d.extensions@, optional@, optional@.len() as int),
{
    let mut out: Vec<&'a str> = Vec::new();
    let n: usize = optional.len();
    proof {
        assert(out@.map_values(|s: &str| s@) =~= Seq::empty());
    }
    for i in 0..n
        invariant
            n == optional@.len(),
            out@.map_values(|s: &str| s@) == present(d.extensions@, optional@, i as int),
    {
        let name: &'a str = optional[i];
        if has_extension(&d.extensions, name) {
            let ghost before = out@;
            out.push(name);
            proof {
                assert(out@.map_values(|s: &str| s@) =~= before.map_values(|s: &str| s@).push(name@));
            }
        }
    }
    out
}

/// A device number by Linux's layout of `dev_t`: the major in bits 8 to 20
/// (and from 32 up), the minor in bits 0 to 8 and from 20 up.
pub fn drm_dev_number(rdev: u64) -> (d: DevNumber)
    ensures
        d.major == (rdev / 0x100) % 0x1000 + (rdev / 0x1_0000_0000) / 0x1000 * 0x1000,
        d.minor == rdev % 0x100 + (rdev / 0x1000) / 0x100 * 0x100,
{
    let major: u64 = ((rdev >> 8) & 0xfff) | ((rdev >> 32) & !0xfffu64);
    let minor: u64 = (rdev & 0xff) | ((rdev >> 12) & !0xffu64);
    assert(((rdev >> 8) & 0xfff) | ((rdev >> 32) & !0xfffu64) == (rdev / 0x100) % 0x1000 + (rdev / 0x1_0000_0000)
        / 0x1000 * 0x1000) by (bit_vector);
    assert((rdev & 0xff) | ((rdev >> 12) & !0xffu64) == rdev % 0x100 + (rdev / 0x1000) / 0x100 * 0x100) by (bit_vector);
    DevNumber { major: major as i64, minor: minor as i64 }
}

/// Whether a memory type is allowed and has all of the flags.
pub open spec fn memory_suits(types: Seq<u32>, type_bits: u32, flags: u32, i: int) -> bool {
    type_bits & (1u32 << i as u32) != 0 && types[i] & flags == flags
}

/// Index of a memory type allowed by `type_bits` with all of `flags`: the
/// first, by the flags of each.
pub fn memory_type(types: &[u32], type_bits: u32, flags: u32) -> (at: Option<u32>)
    requires
        types@.len() <= 32,
    ensures
        match at {
            Some(i) => {
                &&& i < types@.len()
                &&& memory_suits(types@, type_bits, flags, i as int)
                &&& forall|k: int| 0 <= k < i ==> !#[trigger] memory_suits(types@, type_bits, flags, k)
            },
            None => forall|k: int| 0 <= k < types@.len() ==> !#[trigger] memory_suits(types@, type_bits, flags, k),
        },
{
    let n: usize = types.len();
    for i in 0..n
        invariant
            n == types@.len() <= 32,
            forall|k: int| 0 <= k < i ==> !#[trigger] memory_suits(types@, type_bits, flags, k),
    {
        let bit: u32 = i as u32;
        if type_bits & (1u32 << bit) != 0 && types[i] & flags == flags {
            assert(memory_suits(types@, type_bits, flags, i as int));
            return Some(bit);
        }
    }
    None
}

/// Values that order compute and video work across queues.
#[derive(Debug, Clone, Copy, PartialEq, Eq, Structural)]
pub struct Timeline {
    pub next: u64,
}

impl Timeline {
    pub fn new() -> (t: Timeline)
        ensures
            t.next == 0,
    {
        Timeline { next: 0 }
    }

    /// The next value to signal.
    pub fn advance(&mut self) -> (v: u64)
        requires
            old(self).next < u64::MAX,
        ensures
            final(self).next == old(self).next + 1,
            v == final(self).next,
    {
        self.next = self.next + 1;
        self.next
    }
}

proof fn lemma_first_able(fs: Seq<QueueFamily>, a: Ability, i: int)
    requires
        fs.len() <= u32::MAX,
        0 <= i <= fs.len(),
    ensures
        match first_able(fs, a, i) {
            Some(k) => i <= k < fs.len() && able(fs[k as int], a) && forall|j: int|
                i <= j < k ==> !able(#[trigger] fs[j], a),
            None => forall|j: int| i <= j < fs.len() ==> !able(#[trigger] fs[j], a),
        },
    decreases fs.len() - i,
{
    if i < fs.len() && !able(fs[i], a) {
        lemma_first_able(fs, a, i + 1);
    }
}

/// A device computes on the first family that only computes, else on the first
/// that computes at all; it cannot be used without one. It encodes and decodes
/// on the first family that does, if any.
pub proof fn law_families_are_the_first_that_can(fs: Seq<QueueFamily>)
    requires
        fs.len() <= u32::MAX,
    ensures
        families_of(fs) is None <==> forall|j: int| 0 <= j < fs.len() ==> !(#[trigger] fs[j]).compute,
        families_of(fs) matches Some(f) ==> {
            &&& f.compute < fs.len() && fs[f.compute as int].compute
            &&& fs[f.compute as int].graphics ==> forall|j: int|
                0 <= j < fs.len() && (#[trigger] fs[j]).compute ==> fs[j].graphics && f.compute <= j
            &&& !fs[f.compute as int].graphics ==> forall|j: int|
                0 <= j < f.compute && (#[trigger] fs[j]).compute ==> fs[j].graphics
            &&& match f.encode {
                Some(e) => e < fs.len() && fs[e as int].encode_h264 && forall|j: int|
                    0 <= j < e ==> !(#[trigger] fs[j]).encode_h264,
                None => forall|j: int| 0 <= j < fs.len() ==> !(#[trigger] fs[j]).encode_h264,
            }
            &&& match f.decode {
                Some(e) => e < fs.len() && fs[e as int].decode_h264 && forall|j: int|
                    0 <= j < e ==> !(#[trigger] fs[j]).decode_h264,
                None => forall|j: int| 0 <= j < fs.len() ==> !(#[trigger] fs[j]).decode_h264,
            }
        },
{
    lemma_first_able(fs, Ability::ComputeOnly, 0);
    lemma_first_able(fs, Ability::Compute, 0);
    lemma_first_able(fs, Ability::Encode, 0);
    lemma_first_able(fs, Ability::Decode, 0);
    assert(forall|j: int| 0 <= j < fs.len() && (#[trigger] fs[j]).compute ==> able(fs[j], Ability::Compute));
    assert(forall|j: int|
        0 <= j < fs.len() && (#[trigger] fs[j]).compute && !fs[j].graphics ==> able(fs[j], Ability::ComputeOnly));
    assert(forall|j: int| 0 <= j < fs.len() && (#[trigger] fs[j]).encode_h264 ==> able(fs[j], Ability::Encode));
    assert(forall|j: int| 0 <= j < fs.len() && (#[trigger] fs[j]).decode_h264 ==> able(fs[j], Ability::Decode));
}

/// A family is added where it is not there yet, at the end, and the others
/// stay.
pub proof fn law_families_are_listed_once(list: Seq<u32>, f: Option<u32>, x: u32)
    ensures
        with_family(list, f).contains(x) <==> list.contains(x) || f == Some(x),
        list.is_prefix_of(with_family(list, f)),
        list.no_duplicates() ==> with_family(list, f).no_duplicates(),
        with_family(list, f).len() <= list.len() + 1,
{
    let after = with_family(list, f);
    if let Some(y) = f {
        if !list.contains(y) {
            assert(after.last() == y);
            assert(after =~= list.push(y));
            if list.contains(x) {
                let i = choose|i: int| 0 <= i < list.len() && list[i] == x;
                assert(after[i] == x);
            }
            if x == y {
                assert(after[list.len() as int] == x);
            }
        }
    }
    assert(list =~= after.take(list.len() as int));
}

/// Of the optional extensions those that the device has are turned on, in
/// their order, and no others.
pub proof fn law_optional_extensions_are_those_present(names: Seq<String>, optional: Seq<&str>)
    ensures
        present(names, optional, optional.len() as int) == optional.map_values(|s: &str| s@).filter(
            |t: Seq<char>| exists|k: int| 0 <= k < names.len() && (#[trigger] names[k])@ == t,
        ),
{
    lemma_present(names, optional, optional.len() as int);
    assert(optional.take(optional.len() as int) =~= optional);
}

proof fn lemma_present(names: Seq<String>, optional: Seq<&str>, n: int)
    requires
        0 <= n <= optional.len(),
    ensures
        present(names, optional, n) == optional.take(n).map_values(|s: &str| s@).filter(
            |t: Seq<char>| exists|k: int| 0 <= k < names.len() && (#[trigger] names[k])@ == t,
        ),
    decreases n,
{
    reveal(Seq::filter);
    let test = |t: Seq<char>| exists|k: int| 0 <= k < names.len() && (#[trigger] names[k])@ == t;
    let all = optional.take(n).map_values(|s: &str| s@);
    if n > 0 {
        lemma_present(names, optional, n - 1);
        assert(all.drop_last() =~= optional.take(n - 1).map_values(|s: &str| s@));
        assert(all.last() == optional[n - 1]@);
        assert(test(all.last()) == listed(names, optional[n - 1]@));
    } else {
        assert(all.filter(test) =~= Seq::empty());
    }
}

/// A device suits where it is the one asked for, by either of its numbers, has
/// every extension that is required, and can compute.
pub proof fn law_what_devices_suit(d: Device, want: Option<DevNumber>, required: Seq<&str>)
    requires
        d.families@.len() <= u32::MAX,
    ensures
        suits(d, want, required) <==> {
            &&& want matches Some(n) ==> d.render == Some(n) || d.primary == Some(n)
            &&& forall|k: int| 0 <= k < required.len() ==> listed(d.extensions@, (#[trigger] required[k])@)
            &&& exists|f: int| 0 <= f < d.families@.len() && (#[trigger] d.families@[f]).compute
        },
{
    law_families_are_the_first_that_can(d.families@);
}

} // verus!
