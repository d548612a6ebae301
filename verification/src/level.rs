//! Compression levels and their selection by name. The level word is matched
//! without regard to ASCII letter case.

use vstd::prelude::*;
use vstd::string::StringSliceAdditionalSpecFns;
use crate::names::{high_word, high_word_vec, light_word, light_word_vec, medium_word, medium_word_vec};

verus! {

/// How aggressively the external worker should recompress payloads. The
/// engine itself only carries the choice; it never reads it.
#[derive(Clone, Copy, PartialEq, Eq, Structural, Debug)]
pub enum CompressionLevel {
    Light,
    Medium,
    High,
}

/// The byte with an ASCII upper-case letter folded to lower case.
pub open spec fn spec_lower_byte(b: u8) -> u8 {
    if 65 <= b <= 90 {
        (b + 32) as u8
    } else {
        b
    }
}

/// The byte string with ASCII upper-case letters folded to lower case.
pub open spec fn spec_lower_bytes(s: Seq<u8>) -> Seq<u8> {
    s.map_values(|b: u8| spec_lower_byte(b))
}

/// The level a byte string names: "light", "medium" or "high", in any ASCII
/// letter case; anything else names none.
pub open spec fn spec_level_of(s: Seq<u8>) -> Option<CompressionLevel> {
    if spec_lower_bytes(s) == light_word() {
        Some(CompressionLevel::Light)
    } else if spec_lower_bytes(s) == medium_word() {
        Some(CompressionLevel::Medium)
    } else if spec_lower_bytes(s) == high_word() {
        Some(CompressionLevel::High)
    } else {
        None
    }
}

/// Whether the byte string, lower-cased, reads as the given word.
fn matches_word(s: &[u8], word: &[u8]) -> (r: bool)
    ensures
        r == (spec_lower_bytes(s@) == word@),
{
    if s.len() != word.len() {
        proof {
            assert(spec_lower_bytes(s@).len() == s@.len());
        }
        return false;
    }
    let n = s.len();
    let mut i: usize = 0;
    while i < n
        invariant
            n == s@.len(),
            n == word@.len(),
            0 <= i <= n,
            forall|j: int| 0 <= j < i ==> spec_lower_bytes(s@)[j] == word@[j],
        decreases n - i,
    {
        let b = s[i];
        let lowered: u8 = if 65 <= b && b <= 90 {
            b + 32
        } else {
            b
        };
        if lowered != word[i] {
            proof {
                assert(spec_lower_bytes(s@)[i as int] == lowered);
            }
            return false;
        }
        i = i + 1;
    }
    proof {
        assert(spec_lower_bytes(s@) =~= word@);
    }
    true
}

/// Selects the compression level a string names: "light", "medium" or "high"
/// in any ASCII letter case. Any other string selects none.
pub fn compression_level_from_string(level: &str) -> (r: Option<CompressionLevel>)
    ensures
        r == spec_level_of(level.spec_bytes()),
{
    let bytes = level.as_bytes();
    let light = light_word_vec();
    if matches_word(bytes, light.as_slice()) {
        return Some(CompressionLevel::Light);
    }
    let medium = medium_word_vec();
    if matches_word(bytes, medium.as_slice()) {
        return Some(CompressionLevel::Medium);
    }
    let high = high_word_vec();
    if matches_word(bytes, high.as_slice()) {
        return Some(CompressionLevel::High);
    }
    None
}

} // verus!
