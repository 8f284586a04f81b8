//! CRC-16 frame check sequence (the PPP FCS-16 polynomial of RFC 1662),
//! computed byte by byte, together with the facts the framing layer needs:
//! the fold splits over concatenation, appending the complemented CRC drives
//! the running value to the magic residue `0xF0B8`, and two inputs of equal
//! length that differ in a single byte never share a CRC.

use vstd::prelude::*;

verus! {

/// One byte of the FCS-16 update.
pub open spec fn crc16_step(seed: u16, b: u8) -> u16 {
    let e = (seed as u8) ^ b;
    let f = e ^ (e << 4);
    (seed >> 8) ^ ((f as u16) << 8) ^ ((f as u16) << 3) ^ ((f as u16) >> 4)
}

/// The FCS-16 of `data`, folded left to right from `seed`.
pub open spec fn crc16_spec(seed: u16, data: Seq<u8>) -> u16
    decreases data.len(),
{
    if data.len() == 0 {
        seed
    } else {
        crc16_step(crc16_spec(seed, data.drop_last()), data.last())
    }
}

/// Iterative FCS-16 over a byte slice.
pub fn crc16(seed: u16, data: &[u8]) -> (r: u16)
    ensures
        r == crc16_spec(seed, data@),
{
    let mut crc = seed;
    let mut i: usize = 0;
    while i < data.len()
        invariant
            i <= data@.len(),
            crc == crc16_spec(seed, data@.take(i as int)),
        decreases data@.len() - i,
    {
        let b = data[i];
        let e = (crc as u8) ^ b;
        let f = e ^ (e << 4u8);
        crc = (crc >> 8u16) ^ ((f as u16) << 8u16) ^ ((f as u16) << 3u16) ^ ((f as u16) >> 4u16);
        i = i + 1;
        proof {
            assert(data@.take(i as int).drop_last() =~= data@.take(i - 1));
            assert(data@.take(i as int).last() == b);
        }
    }
    proof {
        assert(data@.take(data@.len() as int) =~= data@);
    }
    crc
}

/// The fold over a concatenation is the fold over the second part, seeded
/// with the fold over the first.
pub proof fn lemma_crc16_append(seed: u16, a: Seq<u8>, b: Seq<u8>)
    ensures
        crc16_spec(seed, a + b) == crc16_spec(crc16_spec(seed, a), b),
    decreases b.len(),
{
    if b.len() == 0 {
        assert(a + b =~= a);
    } else {
        lemma_crc16_append(seed, a, b.drop_last());
        assert((a + b).drop_last() =~= a + b.drop_last());
        assert((a + b).last() == b.last());
    }
}

/// Appending the complemented running CRC, low byte first, always lands on
/// the residue `0xF0B8`; this is what lets a receiver check a frame by
/// folding over payload and FCS together.
pub proof fn lemma_crc16_residue(c: u16)
    ensures
        crc16_spec(c, seq![(c ^ 0xFFFF) as u8, (((c ^ 0xFFFF) as u16) >> 8) as u8]) == 0xF0B8,
{
    let fcs = c ^ 0xFFFF;
    let s = seq![fcs as u8, (fcs >> 8) as u8];
    assert(s.drop_last() =~= seq![fcs as u8]);
    assert(seq![fcs as u8].drop_last() =~= Seq::<u8>::empty());
    assert(crc16_spec(c, Seq::<u8>::empty()) == c);
    assert(crc16_spec(c, seq![fcs as u8]) == crc16_step(c, fcs as u8));
    assert(s.last() == (fcs >> 8) as u8);
    assert(crc16_spec(c, s) == crc16_step(crc16_step(c, fcs as u8), (fcs >> 8) as u8));
    assert(crc16_step(crc16_step(c, (c ^ 0xFFFF) as u8), ((c ^ 0xFFFF) >> 8) as u8) == 0xF0B8)
        by (bit_vector);
}

/// With the trailing byte fixed, the step is injective in the seed.
proof fn lemma_crc16_step_seed_injective(s1: u16, s2: u16, b: u8)
    by (bit_vector)
    ensures
        crc16_step(s1, b) == crc16_step(s2, b) ==> s1 == s2,
{
}

/// With the seed fixed, the step is injective in the byte.
proof fn lemma_crc16_step_byte_injective(s: u16, b1: u8, b2: u8)
    by (bit_vector)
    ensures
        crc16_step(s, b1) == crc16_step(s, b2) ==> b1 == b2,
{
}

/// Different seeds folded over the same data stay different.
pub proof fn lemma_crc16_seed_injective(s1: u16, s2: u16, d: Seq<u8>)
    requires
        s1 != s2,
    ensures
        crc16_spec(s1, d) != crc16_spec(s2, d),
    decreases d.len(),
{
    if d.len() > 0 {
        lemma_crc16_seed_injective(s1, s2, d.drop_last());
        lemma_crc16_step_seed_injective(crc16_spec(s1, d.drop_last()), crc16_spec(s2, d.drop_last()), d.last());
    }
}

/// Two sequences of equal length that differ in exactly one byte have
/// different CRCs, whatever the seed.
pub proof fn lemma_crc16_single_byte_change(seed: u16, a: Seq<u8>, b: Seq<u8>, j: int)
    requires
        a.len() == b.len(),
        0 <= j < a.len(),
        a[j] != b[j],
        forall|i: int| 0 <= i < a.len() && i != j ==> a[i] == b[i],
    ensures
        crc16_spec(seed, a) != crc16_spec(seed, b),
{
    let pre = a.take(j);
    let ta = a.skip(j + 1);
    let tb = b.skip(j + 1);
    assert(b.take(j) =~= pre);
    assert(a =~= (pre + seq![a[j]]) + ta);
    assert(b =~= (pre + seq![b[j]]) + tb);
    assert(ta =~= tb);
    lemma_crc16_append(seed, pre + seq![a[j]], ta);
    lemma_crc16_append(seed, pre + seq![b[j]], tb);
    let c = crc16_spec(seed, pre);
    assert((pre + seq![a[j]]).drop_last() =~= pre);
    assert((pre + seq![b[j]]).drop_last() =~= pre);
    assert(crc16_spec(seed, pre + seq![a[j]]) == crc16_step(c, a[j]));
    assert(crc16_spec(seed, pre + seq![b[j]]) == crc16_step(c, b[j]));
    lemma_crc16_step_byte_injective(c, a[j], b[j]);
    lemma_crc16_seed_injective(crc16_step(c, a[j]), crc16_step(c, b[j]), ta);
}

} // verus!
