//! Deterministic feature coloring.
//!
//! Every feature is painted with a color derived from a stable 64-bit hash of
//! its name, so the same name gets the same color in every run and on every
//! platform. The raw hash bytes are then brightened so that at least one
//! channel is fully saturated, which keeps colors readable against a dark
//! globe.
use vstd::prelude::*;

verus! {

use vstd::string::StringSliceAdditionalSpecFns;

/// An 8-bit RGB triple.
#[derive(Clone, Copy, Debug, PartialEq, Eq, Structural)]
pub struct Rgb {
    pub r: u8,
    pub g: u8,
    pub b: u8,
}

/// The FNV-1a offset basis.
pub const FNV_OFFSET: u64 = 0xcbf29ce484222325;

/// The FNV-1a prime.
pub const FNV_PRIME: u64 = 0x100000001b3;

/// One FNV-1a round: fold a byte into the running hash.
pub open spec fn fnv1a_step(h: u64, byte: u8) -> u64 {
    vstd::wrapping::u64_specs::wrapping_mul(h ^ (byte as u64), FNV_PRIME)
}

/// The FNV-1a hash of a byte sequence.
pub open spec fn fnv1a(bytes: Seq<u8>) -> u64
    decreases bytes.len(),
{
    if bytes.len() == 0 {
        FNV_OFFSET
    } else {
        fnv1a_step(fnv1a(bytes.drop_last()), bytes.last())
    }
}

/// The largest of three channel values.
pub open spec fn max3(a: u8, b: u8, c: u8) -> u8 {
    if a >= b && a >= c {
        a
    } else if b >= c {
        b
    } else {
        c
    }
}

/// The color derived from a 64-bit hash: three byte windows of the hash,
/// shifted up so the largest channel is fully saturated.
pub open spec fn color_of_hash(h: u64) -> Rgb {
    let r0 = ((h / 0x10000) % 0x100) as u8;
    let g0 = ((h / 0x100) % 0x100) as u8;
    let b0 = (h % 0x100) as u8;
    let diff = (255 - max3(r0, g0, b0)) as u8;
    Rgb { r: (r0 + diff) as u8, g: (g0 + diff) as u8, b: (b0 + diff) as u8 }
}

/// The color assigned to a feature name, from its UTF-8 bytes.
pub open spec fn color_of_name(bytes: Seq<u8>) -> Rgb {
    color_of_hash(fnv1a(bytes))
}

/// The color assigned to a feature name, as a function of its characters.
pub open spec fn color_of_string(chars: Seq<char>) -> Rgb {
    color_of_name(vstd::utf8::encode_utf8(chars))
}

/// The stable 64-bit hash of a string's bytes.
pub fn fnv1a_hash(name: &str) -> (h: u64)
    ensures
        h == fnv1a(name.spec_bytes()),
{
    let bytes = name.as_bytes();
    let mut h: u64 = FNV_OFFSET;
    let mut i: usize = 0;
    while i < bytes.len()
        invariant
            0 <= i <= bytes@.len(),
            bytes@ == name.spec_bytes(),
            h == fnv1a(bytes@.subrange(0, i as int)),
        decreases bytes@.len() - i,
    {
        h = (h ^ (bytes[i] as u64)).wrapping_mul(FNV_PRIME);
        proof {
            assert(bytes@.subrange(0, i + 1).drop_last() =~= bytes@.subrange(0, i as int));
            assert(bytes@.subrange(0, i + 1).last() == bytes@[i as int]);
        }
        i = i + 1;
    }
    proof {
        assert(bytes@.subrange(0, bytes@.len() as int) =~= bytes@);
    }
    h
}

/// The deterministic color of a feature name: a stable hash of the name's
/// bytes, three byte windows of it as raw channels, brightened so that the
/// largest channel reaches 255.
pub fn hashable_to_rgb8(name: &str) -> (c: Rgb)
    ensures
        c == color_of_name(name.spec_bytes()),
        c == color_of_string(name@),
{
    let h = fnv1a_hash(name);
    let r0: u8 = ((h / 0x10000) % 0x100) as u8;
    let g0: u8 = ((h / 0x100) % 0x100) as u8;
    let b0: u8 = (h % 0x100) as u8;
    let mut m: u8 = r0;
    if g0 > m {
        m = g0;
    }
    if b0 > m {
        m = b0;
    }
    let diff: u8 = 255 - m;
    Rgb { r: r0 + diff, g: g0 + diff, b: b0 + diff }
}

/// Law: every assigned color has at least one fully saturated channel.
pub proof fn lemma_color_saturated(bytes: Seq<u8>)
    ensures
        color_of_name(bytes).r == 255 || color_of_name(bytes).g == 255 || color_of_name(bytes).b
            == 255,
{
}

/// Law: the assigned color depends on the name's bytes alone, so repeated
/// calls (in any process) agree.
pub proof fn lemma_color_deterministic(a: Seq<u8>, b: Seq<u8>)
    requires
        a =~= b,
    ensures
        color_of_name(a) == color_of_name(b),
{
}

} // verus!
