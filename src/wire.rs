//! Big-endian integer fields of the wire format.

use vstd::prelude::*;

verus! {

/// Value of two bytes read as a big-endian 16-bit integer.
pub open spec fn be16(hi: u8, lo: u8) -> nat {
    hi as nat * 256 + lo as nat
}

/// Value of four bytes read as a big-endian 32-bit integer.
pub open spec fn be32(b0: u8, b1: u8, b2: u8, b3: u8) -> nat {
    ((b0 as nat * 256 + b1 as nat) * 256 + b2 as nat) * 256 + b3 as nat
}

/// The two bytes of `v`, most significant first.
pub open spec fn u16_bytes(v: u16) -> Seq<u8> {
    seq![(v / 256) as u8, (v % 256) as u8]
}

/// The four bytes of `v`, most significant first.
pub open spec fn u32_bytes(v: u32) -> Seq<u8> {
    seq![
        (v / 0x100_0000) as u8,
        ((v / 0x1_0000) % 256) as u8,
        ((v / 256) % 256) as u8,
        (v % 256) as u8,
    ]
}

pub proof fn lemma_be16_of_bytes(v: u16)
    ensures
        be16(u16_bytes(v)[0], u16_bytes(v)[1]) == v,
{
}

pub proof fn lemma_be32_of_bytes(v: u32)
    ensures
        be32(u32_bytes(v)[0], u32_bytes(v)[1], u32_bytes(v)[2], u32_bytes(v)[3]) == v,
{
}

/// Reads the big-endian `u16` held by the first two bytes of `buf`.
pub fn get_u16(buf: &[u8]) -> (r: u16)
    requires
        buf@.len() >= 2,
    ensures
        r == be16(buf@[0], buf@[1]),
{
    (buf[0] as u16) * 256 + (buf[1] as u16)
}

/// Writes `val` big-endian into `buf[at]` and `buf[at + 1]`.
pub fn set_u16(buf: &mut [u8], at: usize, val: u16)
    requires
        at + 2 <= old(buf)@.len(),
    ensures
        final(buf)@ == old(buf)@.update(at as int, u16_bytes(val)[0]).update(
            at + 1,
            u16_bytes(val)[1],
        ),
{
    buf[at] = (val / 256) as u8;
    buf[at + 1] = (val % 256) as u8;
}

/// Reads the big-endian `u32` held by the first four bytes of `buf`.
pub fn get_u32(buf: &[u8]) -> (r: u32)
    requires
        buf@.len() >= 4,
    ensures
        r == be32(buf@[0], buf@[1], buf@[2], buf@[3]),
{
    let hi = (buf[0] as u32) * 256 + (buf[1] as u32);
    let mid = hi * 256 + (buf[2] as u32);
    mid * 256 + (buf[3] as u32)
}

/// Writes `val` big-endian into `buf[at..at + 4]`.
pub fn set_u32(buf: &mut [u8], at: usize, val: u32)
    requires
        at + 4 <= old(buf)@.len(),
    ensures
        final(buf)@.len() == old(buf)@.len(),
        forall|i: int|
            0 <= i < old(buf)@.len() ==> #[trigger] final(buf)@[i] == if at <= i < at + 4 {
                u32_bytes(val)[i - at]
            } else {
                old(buf)@[i]
            },
{
    buf[at] = (val / 0x100_0000) as u8;
    buf[at + 1] = ((val / 0x1_0000) % 256) as u8;
    buf[at + 2] = ((val / 256) % 256) as u8;
    buf[at + 3] = (val % 256) as u8;
}

/// Appends `val` big-endian to `out`.
pub fn push_u16(out: &mut Vec<u8>, val: u16)
    ensures
        final(out)@ == old(out)@ + u16_bytes(val),
{
    out.push((val / 256) as u8);
    out.push((val % 256) as u8);
    proof {
        assert(final(out)@ =~= old(out)@ + u16_bytes(val));
    }
}

/// Appends `val` big-endian to `out`.
pub fn push_u32(out: &mut Vec<u8>, val: u32)
    ensures
        final(out)@ == old(out)@ + u32_bytes(val),
{
    out.push((val / 0x100_0000) as u8);
    out.push(((val / 0x1_0000) % 256) as u8);
    out.push(((val / 256) % 256) as u8);
    out.push((val % 256) as u8);
    proof {
        assert(final(out)@ =~= old(out)@ + u32_bytes(val));
    }
}

/// Copies `bytes` over the start of `buf`.
pub fn copy_into(buf: &mut [u8], bytes: &Vec<u8>)
    requires
        bytes@.len() <= old(buf)@.len(),
    ensures
        final(buf)@ == bytes@ + old(buf)@.subrange(bytes@.len() as int, old(buf)@.len() as int),
{
    let mut i: usize = 0;
    while i < bytes.len()
        invariant
            bytes@.len() <= buf@.len(),
            buf@.len() == old(buf)@.len(),
            0 <= i <= bytes@.len(),
            forall|j: int| 0 <= j < i ==> buf@[j] == bytes@[j],
            forall|j: int| i <= j < buf@.len() ==> buf@[j] == old(buf)@[j],
        decreases bytes@.len() - i,
    {
        buf[i] = bytes[i];
        i += 1;
    }
    proof {
        assert(buf@ =~= bytes@ + old(buf)@.subrange(bytes@.len() as int, old(buf)@.len() as int));
    }
}

} // verus!
