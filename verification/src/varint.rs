//! The variable-length integer of the wire format.
//!
//! A 32-bit value is written as one to five bytes. Each byte carries seven
//! bits of the value, lowest group first, and its high bit says that another
//! byte follows. Negative values are written by their 32 bits, so they always
//! take five bytes.

use vstd::prelude::*;

verus! {

/// Why a variable-length integer could not be read.
#[derive(Clone, Copy, Debug, PartialEq, Eq, Structural)]
pub enum VarIntError {
    /// The bytes end before the integer does. More input may complete it.
    Eof,
    /// The fifth byte still announces another one.
    TooLong,
    /// The groups hold a number that does not fit in 32 bits.
    Overflow,
}

/// The most bytes an encoded value takes.
pub const MAX_LEN: usize = 5;

/// The 32 bits of `value`, read as an unsigned number.
pub open spec fn bits_of(value: i32) -> nat {
    if value >= 0 {
        value as nat
    } else {
        (value + 0x1_0000_0000) as nat
    }
}

/// The signed value whose 32 bits are `bits`.
pub open spec fn value_of(bits: nat) -> i32
    recommends
        bits < 0x1_0000_0000,
{
    if bits < 0x8000_0000 {
        bits as i32
    } else {
        (bits - 0x1_0000_0000) as i32
    }
}

/// The groups of seven bits of `n`, lowest first. Every byte but the last has
/// its high bit set.
pub open spec fn groups(n: nat) -> Seq<u8>
    decreases n,
{
    if n < 128 {
        seq![n as u8]
    } else {
        seq![(128 + n % 128) as u8] + groups(n / 128)
    }
}

/// The bytes that stand for `value` on the wire.
pub open spec fn encoding(value: i32) -> Seq<u8> {
    groups(bits_of(value))
}

/// Reads groups from the front of `s`, at most `budget` of them, and gives
/// how many bytes they take and the number they hold.
pub open spec fn ungroup(s: Seq<u8>, budget: nat) -> Result<(nat, nat), VarIntError>
    decreases budget,
{
    if budget == 0 {
        Err(VarIntError::TooLong)
    } else if s.len() == 0 {
        Err(VarIntError::Eof)
    } else if s[0] < 128 {
        Ok((1, s[0] as nat))
    } else {
        match ungroup(s.skip(1), (budget - 1) as nat) {
            Ok((n, high)) => Ok((n + 1, (s[0] - 128) as nat + 128 * high)),
            Err(e) => Err(e),
        }
    }
}

/// What reading one value from the front of `s` gives: the number of bytes it
/// takes and the value, or the reason why there is none.
pub open spec fn decoding(s: Seq<u8>) -> Result<(nat, i32), VarIntError> {
    match ungroup(s, 5) {
        Ok((n, bits)) => if bits < 0x1_0000_0000 {
            Ok((n, value_of(bits)))
        } else {
            Err(VarIntError::Overflow)
        },
        Err(e) => Err(e),
    }
}

/// The number of groups that `n` takes.
pub open spec fn group_count(n: nat) -> nat {
    if n < 0x80 {
        1
    } else if n < 0x4000 {
        2
    } else if n < 0x20_0000 {
        3
    } else if n < 0x1000_0000 {
        4
    } else {
        5
    }
}

/// The groups of a number below 2^35 are as many as `group_count` says.
pub proof fn lemma_groups_len(n: nat)
    requires
        n < 0x8_0000_0000,
    ensures
        groups(n).len() == group_count(n),
    decreases n,
{
    if n >= 128 {
        lemma_groups_len(n / 128);
    }
}

/// An encoded value takes between one and five bytes.
pub proof fn lemma_encoding_len(value: i32)
    ensures
        encoding(value).len() == group_count(bits_of(value)),
        1 <= encoding(value).len() <= 5,
{
    lemma_groups_len(bits_of(value));
}

/// Reading the groups of `n` gives `n` back, whatever follows them.
pub proof fn lemma_ungroup_groups(n: nat, rest: Seq<u8>, budget: nat)
    requires
        groups(n).len() <= budget,
    ensures
        ungroup(groups(n) + rest, budget) == Ok::<(nat, nat), VarIntError>((groups(n).len(), n)),
    decreases n,
{
    let s = groups(n) + rest;
    if n >= 128 {
        let tail = groups(n / 128);
        assert(s.skip(1) =~= tail + rest);
        lemma_ungroup_groups(n / 128, rest, (budget - 1) as nat);
    }
}

/// Groups that were read lie within the bytes and within the budget.
pub proof fn lemma_ungroup_bounds(s: Seq<u8>, budget: nat)
    ensures
        match ungroup(s, budget) {
            Ok((n, _)) => 1 <= n <= budget && n <= s.len(),
            Err(_) => true,
        },
    decreases budget,
{
    if budget > 0 && s.len() > 0 && s[0] >= 128 {
        lemma_ungroup_bounds(s.skip(1), (budget - 1) as nat);
    }
}

/// A value that was written is read back as it was, from exactly the bytes
/// that were written, whatever follows them.
pub proof fn lemma_read_write(value: i32, rest: Seq<u8>)
    ensures
        decoding(encoding(value) + rest) == Ok::<(nat, i32), VarIntError>(
            (encoding(value).len(), value),
        ),
{
    lemma_encoding_len(value);
    lemma_ungroup_groups(bits_of(value), rest, 5);
}

/// The groups of `n`, cut short, end in a byte that announces another one.
proof fn lemma_ungroup_cut(n: nat, k: nat, budget: nat)
    requires
        k < groups(n).len(),
        k < budget,
    ensures
        ungroup(groups(n).take(k as int), budget) == Err::<(nat, nat), VarIntError>(
            VarIntError::Eof,
        ),
    decreases n,
{
    let s = groups(n).take(k as int);
    if k > 0 {
        let tail = groups(n / 128);
        assert(s.skip(1) =~= tail.take(k - 1));
        lemma_ungroup_cut(n / 128, (k - 1) as nat, (budget - 1) as nat);
    }
}

/// A proper prefix of an encoded value reads as incomplete, never as a
/// malformed or a different value.
pub proof fn lemma_prefix_incomplete(value: i32, k: nat)
    requires
        k < encoding(value).len(),
    ensures
        decoding(encoding(value).take(k as int)) == Err::<(nat, i32), VarIntError>(
            VarIntError::Eof,
        ),
{
    lemma_encoding_len(value);
    lemma_ungroup_cut(bits_of(value), k, 5);
}

/// What the groups read so far make of what the rest of the bytes holds.
spec fn resumed(rest: Result<(nat, nat), VarIntError>, count: nat, low: nat, scale: nat) -> Result<
    (nat, nat),
    VarIntError,
> {
    match rest {
        Ok((n, high)) => Ok((n + count, low + scale * high)),
        Err(e) => Err(e),
    }
}

/// The weight of the group at place `i`.
spec fn weight(i: nat) -> nat {
    if i == 0 {
        1
    } else if i == 1 {
        0x80
    } else if i == 2 {
        0x4000
    } else if i == 3 {
        0x20_0000
    } else if i == 4 {
        0x1000_0000
    } else {
        0x8_0000_0000
    }
}

/// The value that has the bits `bits`.
fn from_bits(bits: u32) -> (value: i32)
    ensures
        value == value_of(bits as nat),
{
    assert(bits >= 0x8000_0000u32 ==> (bits as i32) == bits - 0x1_0000_0000) by (bit_vector);
    bits as i32
}

/// The bits of `value`.
fn to_bits(value: i32) -> (bits: u32)
    ensures
        bits == bits_of(value),
{
    assert(value < 0i32 ==> (value as u32) == value + 0x1_0000_0000) by (bit_vector);
    value as u32
}

/// Reads one value from the front of `buf` and gives the number of bytes it
/// takes together with the value. `buf` itself is only looked at, so a read
/// that ends in [`VarIntError::Eof`] can be tried again once more bytes are
/// there.
pub fn read(buf: &[u8]) -> (r: Result<(usize, i32), VarIntError>)
    ensures
        match r {
            Ok((n, value)) => decoding(buf@) == Ok::<(nat, i32), VarIntError>((n as nat, value))
                && 1 <= n <= 5 && n <= buf@.len(),
            Err(e) => decoding(buf@) == Err::<(nat, i32), VarIntError>(e),
        },
{
    proof {
        lemma_ungroup_bounds(buf@, 5);
    }
    let mut low: u64 = 0;
    let mut scale: u64 = 1;
    let mut i: usize = 0;
    assert(buf@.skip(0) =~= buf@);
    while i < MAX_LEN
        invariant
            i <= 5,
            i <= buf@.len(),
            scale == weight(i as nat),
            low < scale,
            ungroup(buf@, 5) == resumed(
                ungroup(buf@.skip(i as int), (5 - i) as nat),
                i as nat,
                low as nat,
                scale as nat,
            ),
        decreases 5 - i,
    {
        if i >= buf.len() {
            return Err(VarIntError::Eof);
        }
        let byte = buf[i];
        if byte < 0x80 {
            let bits: u64 = low + byte as u64 * scale;
            if bits > 0xffff_ffff {
                return Err(VarIntError::Overflow);
            }
            return Ok((i + 1, from_bits(bits as u32)));
        }
        let group: u64 = (byte - 0x80) as u64;
        proof {
            assert(buf@.skip(i as int).skip(1) =~= buf@.skip(i + 1));
            if let Ok((_, high)) = ungroup(buf@.skip(i + 1), (4 - i) as nat) {
                assert(low + scale * (group + 128 * high) == low + group * scale + (scale * 128)
                    * high) by (nonlinear_arith);
            }
        }
        low = low + group * scale;
        scale = scale * 0x80;
        i = i + 1;
    }
    Err(VarIntError::TooLong)
}

/// The bytes that stand for `value`: between one and five of them.
pub fn write(value: i32) -> (bytes: Vec<u8>)
    ensures
        bytes@ == encoding(value),
        1 <= bytes@.len() <= 5,
{
    let mut bytes: Vec<u8> = Vec::with_capacity(MAX_LEN);
    let mut bits: u32 = to_bits(value);
    while bits >= 0x80
        invariant
            bytes@ + groups(bits as nat) == encoding(value),
        decreases bits,
    {
        bytes.push((bits % 0x80) as u8 + 0x80);
        bits = bits / 0x80;
    }
    bytes.push(bits as u8);
    proof {
        lemma_encoding_len(value);
    }
    bytes
}

/// The number of bytes that `value` takes on the wire, without writing them.
pub fn size(value: i32) -> (n: usize)
    ensures
        n == encoding(value).len(),
        1 <= n <= 5,
{
    proof {
        lemma_encoding_len(value);
    }
    let bits: u32 = to_bits(value);
    if bits < 0x80 {
        1
    } else if bits < 0x4000 {
        2
    } else if bits < 0x20_0000 {
        3
    } else if bits < 0x1000_0000 {
        4
    } else {
        5
    }
}

} // verus!
