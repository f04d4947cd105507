//! CRC-16/BUYPASS: polynomial `0x8005`, initial value `0x0000`, no input or
//! output reflection, no final XOR. The framer uses it to validate the
//! two-byte trailer of each candidate frame.

use vstd::prelude::*;

verus! {

/// One shift step of the 16-bit CRC register.
pub open spec fn crc_step(c: u16) -> u16 {
    if c & 0x8000 != 0 {
        (c << 1) ^ 0x8005
    } else {
        c << 1
    }
}

/// `n` consecutive shift steps.
pub open spec fn crc_steps(c: u16, n: nat) -> u16
    decreases n,
{
    if n == 0 {
        c
    } else {
        crc_steps(crc_step(c), (n - 1) as nat)
    }
}

/// Folding one input byte into the register: XOR into the high byte,
/// then eight shift steps.
pub open spec fn crc_push_byte(c: u16, b: u8) -> u16 {
    crc_steps(c ^ ((b as u16) << 8), 8)
}

/// The CRC-16/BUYPASS value of a byte sequence.
pub open spec fn crc16_buypass(s: Seq<u8>) -> u16
    decreases s.len(),
{
    if s.len() == 0 {
        0u16
    } else {
        crc_push_byte(crc16_buypass(s.drop_last()), s.last())
    }
}

/// Compute the CRC-16/BUYPASS value of `data`.
pub fn crc(data: &[u8]) -> (r: u16)
    ensures
        r == crc16_buypass(data@),
{
    let mut c: u16 = 0;
    let mut i: usize = 0;
    while i < data.len()
        invariant
            i <= data@.len(),
            c == crc16_buypass(data@.take(i as int)),
        decreases data@.len() - i,
    {
        c = c ^ ((data[i] as u16) << 8);
        let ghost c0 = c;
        let mut k: usize = 0;
        while k < 8
            invariant
                k <= 8,
                crc_steps(c, (8 - k) as nat) == crc_steps(c0, 8),
            decreases 8 - k,
        {
            if c & 0x8000 != 0 {
                c = (c << 1) ^ 0x8005;
            } else {
                c = c << 1;
            }
            k = k + 1;
        }
        assert(data@.take(i as int + 1).drop_last() =~= data@.take(i as int));
        i = i + 1;
    }
    assert(data@.take(data@.len() as int) =~= data@);
    c
}


/// XOR of two equal-length byte sequences, pointwise.
pub open spec fn xor_bytes(a: Seq<u8>, b: Seq<u8>) -> Seq<u8>
    recommends
        a.len() == b.len(),
{
    Seq::new(a.len(), |i: int| a[i] ^ b[i])
}

/// One shift step is linear over XOR.
pub proof fn lemma_crc_step_linear(x: u16, y: u16)
    ensures
        crc_step(x ^ y) == crc_step(x) ^ crc_step(y),
{
    assert((if (x ^ y) & 0x8000 != 0 {
        ((x ^ y) << 1) ^ 0x8005
    } else {
        (x ^ y) << 1
    }) == (if x & 0x8000 != 0 {
        (x << 1) ^ 0x8005
    } else {
        x << 1
    }) ^ (if y & 0x8000 != 0 {
        (y << 1) ^ 0x8005
    } else {
        y << 1
    })) by (bit_vector);
}

/// Any number of shift steps is linear over XOR.
pub proof fn lemma_crc_steps_linear(x: u16, y: u16, n: nat)
    ensures
        crc_steps(x ^ y, n) == crc_steps(x, n) ^ crc_steps(y, n),
    decreases n,
{
    if n > 0 {
        lemma_crc_step_linear(x, y);
        lemma_crc_steps_linear(crc_step(x), crc_step(y), (n - 1) as nat);
    }
}

/// Folding a byte into the register is linear over XOR.
pub proof fn lemma_crc_push_linear(c1: u16, c2: u16, b1: u8, b2: u8)
    ensures
        crc_push_byte(c1 ^ c2, b1 ^ b2) == crc_push_byte(c1, b1) ^ crc_push_byte(c2, b2),
{
    assert((c1 ^ c2) ^ (((b1 ^ b2) as u16) << 8) == (c1 ^ ((b1 as u16) << 8)) ^ (c2 ^ ((b2 as u16)
        << 8))) by (bit_vector);
    lemma_crc_steps_linear(c1 ^ ((b1 as u16) << 8), c2 ^ ((b2 as u16) << 8), 8);
}

/// CRC-16/BUYPASS is linear over XOR: no reflection, zero initial value,
/// no final XOR.
pub proof fn lemma_crc_linear(a: Seq<u8>, b: Seq<u8>)
    requires
        a.len() == b.len(),
    ensures
        crc16_buypass(xor_bytes(a, b)) == crc16_buypass(a) ^ crc16_buypass(b),
    decreases a.len(),
{
    if a.len() == 0 {
        assert(xor_bytes(a, b).len() == 0);
        assert(0u16 ^ 0u16 == 0u16) by (bit_vector);
    } else {
        lemma_crc_linear(a.drop_last(), b.drop_last());
        assert(xor_bytes(a, b).drop_last() =~= xor_bytes(a.drop_last(), b.drop_last()));
        assert(xor_bytes(a, b).last() == (a.last() ^ b.last()));
        lemma_crc_push_linear(
            crc16_buypass(a.drop_last()),
            crc16_buypass(b.drop_last()),
            a.last(),
            b.last(),
        );
    }
}

/// One shift step is injective: distinct register values stay distinct.
pub proof fn lemma_crc_step_inj(x: u16, y: u16)
    ensures
        crc_step(x) == crc_step(y) ==> x == y,
{
    assert((if x & 0x8000 != 0 {
        (x << 1) ^ 0x8005
    } else {
        x << 1
    }) == (if y & 0x8000 != 0 {
        (y << 1) ^ 0x8005
    } else {
        y << 1
    }) ==> x == y) by (bit_vector);
}

/// Any number of shift steps is injective.
pub proof fn lemma_crc_steps_inj(x: u16, y: u16, n: nat)
    ensures
        crc_steps(x, n) == crc_steps(y, n) ==> x == y,
    decreases n,
{
    if n > 0 {
        lemma_crc_steps_inj(crc_step(x), crc_step(y), (n - 1) as nat);
        lemma_crc_step_inj(x, y);
    }
}

/// Folding a byte is injective in the pair of register and byte.
pub proof fn lemma_crc_push_inj(c1: u16, c2: u16, b1: u8, b2: u8)
    ensures
        crc_push_byte(c1, b1) == crc_push_byte(c2, b2) ==> c1 ^ ((b1 as u16) << 8) == c2 ^ ((
        b2 as u16) << 8),
{
    lemma_crc_steps_inj(c1 ^ ((b1 as u16) << 8), c2 ^ ((b2 as u16) << 8), 8);
}

/// The CRC register stays zero over zero input.
pub proof fn lemma_crc_steps_zero(n: nat)
    ensures
        crc_steps(0, n) == 0,
    decreases n,
{
    if n > 0 {
        assert(crc_step(0u16) == 0u16) by (bit_vector);
        lemma_crc_steps_zero((n - 1) as nat);
    }
}

/// The CRC of an all-zero message is zero.
pub proof fn lemma_crc_zeros(s: Seq<u8>)
    requires
        forall|k: int| 0 <= k < s.len() ==> s[k] == 0,
    ensures
        crc16_buypass(s) == 0,
    decreases s.len(),
{
    if s.len() > 0 {
        lemma_crc_zeros(s.drop_last());
        assert(0u16 ^ ((0u8 as u16) << 8) == 0u16) by (bit_vector);
        lemma_crc_steps_zero(8);
    }
}

/// A message that is zero except for one non-zero byte has a non-zero
/// CRC, so by linearity a single flipped bit always changes the CRC.
pub proof fn lemma_crc_single_nonzero(e: Seq<u8>, j: int)
    requires
        0 <= j < e.len(),
        forall|k: int| 0 <= k < e.len() && k != j ==> e[k] == 0,
        e[j] != 0,
    ensures
        crc16_buypass(e) != 0,
    decreases e.len(),
{
    let c = crc16_buypass(e.drop_last());
    if j == e.len() - 1 {
        lemma_crc_zeros(e.drop_last());
        let v = e[j];
        assert(0u16 ^ ((v as u16) << 8) != 0u16 ^ ((0u8 as u16) << 8)) by (bit_vector)
            requires
                v != 0,
        ;
        lemma_crc_steps_inj(0u16 ^ ((v as u16) << 8), 0u16 ^ ((0u8 as u16) << 8), 8);
        lemma_crc_steps_zero(8);
        assert(0u16 ^ ((0u8 as u16) << 8) == 0u16) by (bit_vector);
    } else {
        lemma_crc_single_nonzero(e.drop_last(), j);
        assert(c ^ ((0u8 as u16) << 8) == c) by (bit_vector);
        lemma_crc_steps_inj(c, 0, 8);
        lemma_crc_steps_zero(8);
    }
}

} // verus!
