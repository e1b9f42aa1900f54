//! 128-bit unique identifiers for levels, layers' tilesets, entities and connections.

use vstd::prelude::*;
use crate::text::push_char;

verus! {

/// A 128-bit universally unique identifier, held as its integer value
/// (the 16 bytes read in big-endian order).
#[derive(Clone, Copy, Debug, PartialEq, Eq, Structural, Hash)]
pub struct Uuid {
    pub value: u128,
}

/// Whether `v` carries the version-4 marker (bits 76..79 equal to 4) and the
/// RFC 4122 variant marker (bits 62..63 equal to 0b10).
pub open spec fn is_random_v4(v: u128) -> bool {
    v & 0x0000_0000_0000_F000_C000_0000_0000_0000u128 == 0x0000_0000_0000_4000_8000_0000_0000_0000u128
}

/// A fresh random version-4 UUID from the `uuid` crate, as an integer.
/// `uuid::Uuid::new_v4` draws 128 random bits and then overwrites the version
/// and variant bits; the contract states only those fixed bits, since the
/// rest depends on the random number generator.
#[verifier::external_body]
fn random_v4_value() -> (r: u128)
    ensures
        is_random_v4(r),
{
    uuid::Uuid::new_v4().as_u128()
}

/// The lowercase hexadecimal digit for `n` (0..=15).
pub open spec fn hex_digit(n: int) -> char {
    if n < 10 {
        (('0' as int) + n) as char
    } else {
        (('a' as int) + n - 10) as char
    }
}

/// The last `count` hexadecimal digits of `v`, most significant first.
pub open spec fn hex_digits(v: nat, count: nat) -> Seq<char>
    decreases count,
{
    if count == 0 {
        Seq::empty()
    } else {
        hex_digits(v / 16, (count - 1) as nat).push(hex_digit((v % 16) as int))
    }
}

/// The hyphenated form of a UUID: 32 lowercase hex digits in groups of
/// 8-4-4-4-12 separated by '-'.
pub open spec fn spec_hyphenated(v: u128) -> Seq<char> {
    let d = hex_digits(v as nat, 32);
    d.subrange(0, 8) + seq!['-'] + d.subrange(8, 12) + seq!['-'] + d.subrange(12, 16) + seq!['-']
        + d.subrange(16, 20) + seq!['-'] + d.subrange(20, 32)
}

fn hex_digit_char(n: u128) -> (c: char)
    requires
        n < 16,
    ensures
        c == hex_digit(n as int),
{
    let b: u8 = if n < 10 {
        (48 + n) as u8
    } else {
        (87 + n) as u8
    };
    b as char
}

/// Appends the last `count` hex digits of `v` to `out`.
fn push_hex_digits(v: u128, count: usize, out: &mut Vec<char>)
    ensures
        final(out)@ == old(out)@ + hex_digits(v as nat, count as nat),
    decreases count,
{
    if count > 0 {
        push_hex_digits(v / 16, count - 1, out);
        out.push(hex_digit_char(v % 16));
        proof {
            assert(final(out)@ =~= old(out)@ + hex_digits(v as nat, count as nat));
        }
    } else {
        assert(old(out)@ + hex_digits(v as nat, 0) =~= old(out)@);
    }
}

impl Uuid {
    /// Create a random (version 4) UUID.
    pub fn new_v4() -> (r: Uuid)
        ensures
            is_random_v4(r.value),
    {
        Uuid { value: random_v4_value() }
    }

    /// The UUID whose 128 bits are those of `value`.
    pub fn from_u128(value: u128) -> (r: Uuid)
        ensures
            r.value == value,
    {
        Uuid { value }
    }

    /// The 128 bits of this UUID as an integer.
    pub fn as_u128(&self) -> (r: u128)
        ensures
            r == self.value,
    {
        self.value
    }

    /// The all-zero UUID.
    pub fn nil() -> (r: Uuid)
        ensures
            r.value == 0,
    {
        Uuid { value: 0 }
    }

    /// The hyphenated lowercase text form of this UUID,
    /// such as `67e55044-10b1-426f-9247-bb680e5fe0c8`.
    pub fn to_string(&self) -> (r: String)
        ensures
            r@ == spec_hyphenated(self.value),
    {
        let mut digits: Vec<char> = Vec::new();
        push_hex_digits(self.value, 32, &mut digits);
        assert(digits@ =~= hex_digits(self.value as nat, 32));
        proof {
            lemma_hex_digits_len(self.value as nat, 32);
        }
        let mut r = String::new();
        push_range(&mut r, &digits, 0, 8);
        push_char(&mut r, '-');
        push_range(&mut r, &digits, 8, 12);
        push_char(&mut r, '-');
        push_range(&mut r, &digits, 12, 16);
        push_char(&mut r, '-');
        push_range(&mut r, &digits, 16, 20);
        push_char(&mut r, '-');
        push_range(&mut r, &digits, 20, 32);
        assert(r@ =~= spec_hyphenated(self.value));
        r
    }
}

proof fn lemma_hex_digits_len(v: nat, count: nat)
    ensures
        hex_digits(v, count).len() == count,
    decreases count,
{
    if count > 0 {
        lemma_hex_digits_len(v / 16, (count - 1) as nat);
    }
}

/// Appends `d[from..to]` to `r`.
fn push_range(r: &mut String, d: &Vec<char>, from: usize, to: usize)
    requires
        from <= to <= d@.len(),
    ensures
        final(r)@ == old(r)@ + d@.subrange(from as int, to as int),
{
    let mut i = from;
    while i < to
        invariant
            from <= i <= to <= d@.len(),
            r@ == old(r)@ + d@.subrange(from as int, i as int),
        decreases to - i,
    {
        push_char(r, d[i]);
        i = i + 1;
        assert(r@ =~= old(r)@ + d@.subrange(from as int, i as int));
    }
}

} // verus!
