//! Strict parsing of the external address encoding "<id>-<generation>": two
//! hyphen-delimited fields of decimal digits, the id fitting an unsigned
//! 32-bit integer and the generation an unsigned 16-bit integer. Anything
//! else — a missing or extra hyphen, an empty field, a non-digit, a value out
//! of range — is rejected.

use vstd::prelude::*;
use crate::types::ObjectAddress;

verus! {

/// The byte is an ASCII decimal digit.
pub open spec fn spec_is_digit(b: u8) -> bool {
    48 <= b <= 57
}

/// Every byte of the sequence is a decimal digit, and there is at least one.
pub open spec fn spec_all_digits(s: Seq<u8>) -> bool {
    s.len() > 0 && forall|i: int| 0 <= i < s.len() ==> spec_is_digit(#[trigger] s[i])
}

/// The value of a sequence of decimal digits.
pub open spec fn spec_digits_value(s: Seq<u8>) -> nat
    decreases s.len(),
{
    if s.len() == 0 {
        0
    } else {
        spec_digits_value(s.drop_last()) * 10 + (s.last() - 48) as nat
    }
}

/// A decimal field parses when it is all digits and its value fits the bound.
pub open spec fn spec_parse_decimal(s: Seq<u8>, bound: nat) -> Option<nat> {
    if spec_all_digits(s) && spec_digits_value(s) <= bound {
        Some(spec_digits_value(s))
    } else {
        None
    }
}

/// The position `p` splits the sequence at its one and only hyphen.
pub open spec fn spec_split_point(s: Seq<u8>, p: int) -> bool {
    &&& 0 <= p < s.len()
    &&& s[p] == 45u8
    &&& forall|j: int| 0 <= j < s.len() && j != p ==> s[j] != 45u8
}

/// The address encoded by the byte string, if it is well formed: exactly one
/// hyphen, an all-digit id no larger than `u32::MAX` before it, and an
/// all-digit generation no larger than `u16::MAX` after it.
pub open spec fn spec_parse_address(s: Seq<u8>) -> Option<ObjectAddress> {
    if exists|p: int| spec_split_point(s, p) {
        let p = choose|p: int| spec_split_point(s, p);
        match (
            spec_parse_decimal(s.take(p), u32::MAX as nat),
            spec_parse_decimal(s.skip(p + 1), u16::MAX as nat),
        ) {
            (Some(id), Some(generation)) => Some(
                ObjectAddress { id: id as u32, generation: generation as u16 },
            ),
            _ => None,
        }
    } else {
        None
    }
}

/// The value of a digit sequence never shrinks as the sequence grows.
proof fn lemma_digits_value_take_le(s: Seq<u8>, n: int)
    requires
        0 <= n <= s.len(),
    ensures
        spec_digits_value(s.take(n)) <= spec_digits_value(s),
    decreases s.len() - n,
{
    if n == s.len() {
        assert(s.take(n) =~= s);
    } else {
        lemma_digits_value_take_le(s, n + 1);
        assert(s.take(n + 1).drop_last() =~= s.take(n));
        assert(spec_digits_value(s.take(n)) <= spec_digits_value(s.take(n + 1)));
    }
}

/// Parses a run of the byte string as a bounded decimal field.
fn parse_decimal_range(s: &[u8], from: usize, to: usize, bound: u32) -> (r: Option<u32>)
    requires
        from <= to <= s@.len(),
    ensures
        match r {
            Some(v) => spec_parse_decimal(s@.subrange(from as int, to as int), bound as nat)
                == Some(v as nat),
            None => spec_parse_decimal(s@.subrange(from as int, to as int), bound as nat)
                is None,
        },
{
    let ghost field = s@.subrange(from as int, to as int);
    if from == to {
        return None;
    }
    let mut acc: u64 = 0;
    let mut i: usize = from;
    while i < to
        invariant
            from <= i <= to <= s@.len(),
            field == s@.subrange(from as int, to as int),
            acc == spec_digits_value(field.take(i - from)),
            acc <= bound,
            bound <= u32::MAX,
            spec_all_digits(field) || i == from || (i > from && forall|j: int|
                0 <= j < i - from ==> spec_is_digit(#[trigger] field[j])),
        decreases to - i,
    {
        let b = s[i];
        if b < 48 || b > 57 {
            proof {
                assert(field[i - from] == b);
                assert(!spec_all_digits(field));
            }
            return None;
        }
        let d: u64 = (b - 48) as u64;
        let next: u64 = acc * 10 + d;
        proof {
            assert(field.take(i - from + 1).drop_last() =~= field.take(i - from));
            assert(field.take(i - from + 1).last() == b);
        }
        if next > bound as u64 {
            proof {
                assert(spec_digits_value(field.take(i - from + 1)) == next);
                lemma_digits_value_take_le(field, i - from + 1);
                assert(spec_digits_value(field) > bound);
            }
            return None;
        }
        acc = next;
        i = i + 1;
    }
    proof {
        assert(field.take(to - from) =~= field);
        assert(spec_all_digits(field));
        assert(spec_digits_value(field) == acc);
    }
    Some(acc as u32)
}

/// Parses the strict "<id>-<generation>" encoding of an object address.
/// Returns the address exactly when the string holds one hyphen between two
/// all-digit fields whose values fit 32 and 16 unsigned bits; returns nothing
/// on any other input.
pub fn parse_object_address(s: &[u8]) -> (r: Option<ObjectAddress>)
    ensures
        r == spec_parse_address(s@),
{
    let n = s.len();
    let mut hyphen: Option<usize> = None;
    let mut i: usize = 0;
    while i < n
        invariant
            n == s@.len(),
            0 <= i <= n,
            match hyphen {
                Some(p) => p < i && s@[p as int] == 45u8 && forall|j: int|
                    0 <= j < i && j != p ==> s@[j] != 45u8,
                None => forall|j: int| 0 <= j < i ==> s@[j] != 45u8,
            },
        decreases n - i,
    {
        if s[i] == 45 {
            match hyphen {
                Some(p) => {
                    proof {
                        assert(forall|q: int| spec_split_point(s@, q) ==> q == p || q == i);
                        assert(!(exists|q: int| spec_split_point(s@, q)));
                    }
                    return None;
                }
                None => {
                    hyphen = Some(i);
                }
            }
        }
        i = i + 1;
    }
    match hyphen {
        Some(p) => {
            proof {
                assert(spec_split_point(s@, p as int));
                assert(forall|q: int| spec_split_point(s@, q) ==> q == p);
                assert((choose|q: int| spec_split_point(s@, q)) == p as int);
            }
            let id = parse_decimal_range(s, 0, p, u32::MAX);
            let generation = parse_decimal_range(s, p + 1, n, u16::MAX as u32);
            proof {
                assert(s@.subrange(0, p as int) =~= s@.take(p as int));
                assert(s@.subrange(p as int + 1, n as int) =~= s@.skip(p as int + 1));
            }
            match (id, generation) {
                (Some(id), Some(generation)) => {
                    Some(ObjectAddress { id, generation: generation as u16 })
                }
                _ => None,
            }
        }
        None => {
            proof {
                assert(!(exists|q: int| spec_split_point(s@, q)));
            }
            None
        }
    }
}

} // verus!
