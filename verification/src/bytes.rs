//! Little-endian primitive readers over an in-memory byte image, and the
//! spec-level meaning of each fixed-width field.

use vstd::prelude::*;

verus! {

broadcast use vstd::std_specs::vec::group_vec_axioms;

/// The value of the little-endian u16 at position `i`.
pub open spec fn u16_at(d: Seq<u8>, i: int) -> nat {
    d[i] as nat + d[i + 1] as nat * 0x100
}

/// The value of the little-endian u32 at position `i`.
pub open spec fn u32_at(d: Seq<u8>, i: int) -> nat {
    d[i] as nat + d[i + 1] as nat * 0x100 + d[i + 2] as nat * 0x1_0000 + d[i
        + 3] as nat * 0x100_0000
}

/// The value of the little-endian u64 at position `i`.
pub open spec fn u64_at(d: Seq<u8>, i: int) -> nat {
    u32_at(d, i) + u32_at(d, i + 4) * 0x1_0000_0000
}

/// Reads the little-endian u16 at `pos`.
pub fn read_u16(d: &Vec<u8>, pos: usize) -> (r: u16)
    requires
        pos + 2 <= d.len(),
    ensures
        r as nat == u16_at(d@, pos as int),
{
    (d[pos] as u16) + (d[pos + 1] as u16) * 0x100
}

/// Reads the little-endian u32 at `pos`.
pub fn read_u32(d: &Vec<u8>, pos: usize) -> (r: u32)
    requires
        pos + 4 <= d.len(),
    ensures
        r as nat == u32_at(d@, pos as int),
{
    (d[pos] as u32) + (d[pos + 1] as u32) * 0x100 + (d[pos + 2] as u32) * 0x1_0000 + (d[pos
        + 3] as u32) * 0x100_0000
}

/// Reads the little-endian u64 at `pos`.
pub fn read_u64(d: &Vec<u8>, pos: usize) -> (r: u64)
    requires
        pos + 8 <= d.len(),
    ensures
        r as nat == u64_at(d@, pos as int),
{
    let lo = read_u32(d, pos);
    let hi = read_u32(d, pos + 4);
    (lo as u64) + (hi as u64) * 0x1_0000_0000
}

/// Copies `n` bytes starting at `pos` into a fresh vector.
pub fn copy_range(d: &Vec<u8>, pos: usize, n: usize) -> (r: Vec<u8>)
    requires
        pos + n <= d.len(),
    ensures
        r@ == d@.subrange(pos as int, pos as int + n as int),
{
    let mut out: Vec<u8> = Vec::new();
    let mut i: usize = 0;
    while i < n
        invariant
            pos + n <= d.len(),
            i <= n,
            out@ == d@.subrange(pos as int, pos as int + i as int),
        decreases n - i,
    {
        out.push(d[pos + i]);
        i = i + 1;
        proof {
            assert(d@.subrange(pos as int, pos as int + i as int) =~= d@.subrange(
                pos as int,
                pos as int + (i - 1) as int,
            ).push(d@[pos as int + (i - 1)]));
        }
    }
    out
}

/// Tests whether the four bytes at `pos` equal the given magic.
pub fn magic_matches(d: &Vec<u8>, pos: usize, m: &[u8; 4]) -> (r: bool)
    requires
        pos + 4 <= d.len(),
    ensures
        r == (d@.subrange(pos as int, pos as int + 4) == m@),
{
    let r = d[pos] == m[0] && d[pos + 1] == m[1] && d[pos + 2] == m[2] && d[pos + 3] == m[3];
    proof {
        let s = d@.subrange(pos as int, pos as int + 4);
        if r {
            assert(s =~= m@);
        } else {
            assert(s[0] == d@[pos as int] && s[1] == d@[pos as int + 1] && s[2] == d@[pos as int
                + 2] && s[3] == d@[pos as int + 3]);
        }
    }
    r
}

/// Copies a four-byte magic into a fresh vector.
pub fn magic_to_vec(m: &[u8; 4]) -> (r: Vec<u8>)
    ensures
        r@ == m@,
{
    let mut out: Vec<u8> = Vec::new();
    out.push(m[0]);
    out.push(m[1]);
    out.push(m[2]);
    out.push(m[3]);
    proof {
        assert(out@ =~= m@);
    }
    out
}

} // verus!
