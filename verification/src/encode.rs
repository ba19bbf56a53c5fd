//! The unsigned variable-length integer encoding used for the length field of a frame.

use vstd::prelude::*;

verus! {

/// Number of bytes that always suffice to hold the encoding of a `usize`.
pub const USIZE_LEN: usize = 10;

/// The encoding of `n`: groups of seven bits, least significant group first,
/// each byte but the last carrying the continuation bit `0x80`.
pub open spec fn uvarint(n: nat) -> Seq<u8>
    decreases n,
{
    if n < 128 {
        seq![n as u8]
    } else {
        seq![(n % 128 + 128) as u8] + uvarint(n / 128)
    }
}

/// `128` raised to the power `k`.
pub open spec fn radix_pow(k: nat) -> nat
    decreases k,
{
    if k == 0 {
        1
    } else {
        128 * radix_pow((k - 1) as nat)
    }
}

/// A number below `128^k` encodes in at most `k` bytes, and every encoding has at least one byte.
pub proof fn lemma_uvarint_len(n: nat, k: nat)
    requires
        k >= 1,
        n < radix_pow(k),
    ensures
        1 <= uvarint(n).len() <= k,
    decreases k,
{
    if n >= 128 {
        assert(radix_pow(1) == 128) by {
            reveal_with_fuel(radix_pow, 2);
        }
        lemma_uvarint_len(n / 128, (k - 1) as nat);
    }
}

/// The encoding of any `usize` fits the scratch buffer.
pub proof fn lemma_uvarint_fits(n: nat)
    requires
        n <= usize::MAX,
    ensures
        1 <= uvarint(n).len() <= USIZE_LEN,
{
    assert(radix_pow(10) == 0x40_0000_0000_0000_0000) by {
        reveal_with_fuel(radix_pow, 11);
    }
    lemma_uvarint_len(n, 10);
}

/// A zeroed buffer large enough for any encoded `usize`.
pub fn usize_buffer() -> (buf: [u8; USIZE_LEN])
    ensures
        forall|i: int| 0 <= i < USIZE_LEN ==> buf@[i] == 0,
{
    [0u8; USIZE_LEN]
}

/// Writes the encoding of `number` to the front of `buf` and returns how many bytes it takes.
pub fn encode_usize(number: usize, buf: &mut [u8; USIZE_LEN]) -> (used: usize)
    ensures
        1 <= used <= USIZE_LEN,
        final(buf)@.take(used as int) == uvarint(number as nat),
        final(buf)@.skip(used as int) == old(buf)@.skip(used as int),
{
    let mut n: usize = number;
    let mut i: usize = 0;
    proof {
        lemma_uvarint_fits(number as nat);
    }
    while n >= 128
        invariant
            i + uvarint(n as nat).len() == uvarint(number as nat).len(),
            uvarint(number as nat).len() <= USIZE_LEN,
            buf@.take(i as int) + uvarint(n as nat) == uvarint(number as nat),
            buf@.skip(i as int) == old(buf)@.skip(i as int),
        decreases n,
    {
        buf[i] = (n % 128 + 128) as u8;
        assert(old(buf)@.skip(i as int + 1) =~= old(buf)@.skip(i as int).skip(1));
        n = n / 128;
        i = i + 1;
    }
    buf[i] = n as u8;
    assert(old(buf)@.skip(i as int + 1) =~= old(buf)@.skip(i as int).skip(1));
    i + 1
}

} // verus!
