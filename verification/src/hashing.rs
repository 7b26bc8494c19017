//! Content hashing for the change detector, the compile cache and the
//! daemon's output comparison: a 64-bit Fowler–Noll–Vo hash, fully verified
//! against its mathematical definition, over byte contents and over source
//! text with a backend tag.

use vstd::prelude::*;

verus! {

pub const FNV_OFFSET: u64 = 0xcbf29ce484222325;

pub const FNV_PRIME: u64 = 0x100000001b3;

/// One hashing step: fold the value `b` into the running hash `h`.
pub open spec fn fnv_step(h: u64, b: u64) -> u64 {
    (h ^ b).wrapping_mul(FNV_PRIME)
}

pub open spec fn spec_hash_bytes_from(s: Seq<u8>, i: int, h: u64) -> u64
    decreases s.len() - i,
    when 0 <= i <= s.len()
{
    if i >= s.len() {
        h
    } else {
        spec_hash_bytes_from(s, i + 1, fnv_step(h, s[i] as u64))
    }
}

/// The hash of a byte content, as the change detector observes it.
pub open spec fn spec_content_hash(s: Seq<u8>) -> u64 {
    spec_hash_bytes_from(s, 0, FNV_OFFSET)
}

/// Hashes a byte content.
pub fn content_hash(s: &Vec<u8>) -> (r: u64)
    ensures
        r == spec_content_hash(s@),
{
    let mut h: u64 = FNV_OFFSET;
    let mut i: usize = 0;
    while i < s.len()
        invariant
            0 <= i <= s@.len(),
            spec_content_hash(s@) == spec_hash_bytes_from(s@, i as int, h),
        decreases s@.len() - i,
    {
        h = (h ^ (s[i] as u64)).wrapping_mul(FNV_PRIME);
        i += 1;
    }
    h
}

pub open spec fn spec_hash_chars_from(s: Seq<char>, i: int, h: u64) -> u64
    decreases s.len() - i,
    when 0 <= i <= s.len()
{
    if i >= s.len() {
        h
    } else {
        spec_hash_chars_from(s, i + 1, fnv_step(h, s[i] as u64))
    }
}

/// The compile-cache key: the hash of the rewritten source text folded with
/// the backend's tag, so that identical sources under different backends get
/// distinct keys.
pub open spec fn spec_source_key(s: Seq<char>, tag: u8) -> u64 {
    fnv_step(spec_hash_chars_from(s, 0, FNV_OFFSET), tag as u64)
}

/// Hashes a source text together with a backend tag.
pub fn source_key(s: &str, tag: u8) -> (r: u64)
    ensures
        r == spec_source_key(s@, tag),
{
    let s_len = s.unicode_len();
    let mut h: u64 = FNV_OFFSET;
    let mut i: usize = 0;
    while i < s_len
        invariant
            0 <= i <= s_len,
            s_len == s@.len(),
            spec_hash_chars_from(s@, 0, FNV_OFFSET) == spec_hash_chars_from(s@, i as int, h),
        decreases s_len - i,
    {
        h = (h ^ (s.get_char(i) as u64)).wrapping_mul(FNV_PRIME);
        i += 1;
    }
    (h ^ (tag as u64)).wrapping_mul(FNV_PRIME)
}

} // verus!
