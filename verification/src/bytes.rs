//! Byte-level helpers: comparisons, concatenation, hex and decimal
//! rendering, and the little-endian and varint primitives of the wire
//! formats the planner emits.

use vstd::prelude::*;

verus! {

/// Byte-wise equality of two vectors.
pub fn bytes_eq(a: &Vec<u8>, b: &Vec<u8>) -> (r: bool)
    ensures
        r <==> a@ == b@,
{
    if a.len() != b.len() {
        proof {
            assert(a@.len() != b@.len());
        }
        return false;
    }
    let mut i: usize = 0;
    while i < a.len()
        invariant
            i <= a.len(),
            a@.len() == b@.len(),
            forall|k: int| 0 <= k < i ==> a@[k] == b@[k],
        decreases a.len() - i,
    {
        if a[i] != b[i] {
            return false;
        }
        i += 1;
    }
    proof {
        assert(a@ =~= b@);
    }
    true
}

/// Appends all of `src` to `dst`.
pub fn extend(dst: &mut Vec<u8>, src: &Vec<u8>)
    ensures
        final(dst)@ == old(dst)@ + src@,
{
    let mut i: usize = 0;
    while i < src.len()
        invariant
            i <= src.len(),
            dst@ == old(dst)@ + src@.subrange(0, i as int),
        decreases src.len() - i,
    {
        dst.push(src[i]);
        proof {
            assert(dst@ =~= old(dst)@ + src@.subrange(0, i + 1));
        }
        i += 1;
    }
    proof {
        assert(dst@ =~= old(dst)@ + src@);
    }
}

/// Copy of a vector of bytes.
pub fn dup(src: &Vec<u8>) -> (r: Vec<u8>)
    ensures
        r@ == src@,
{
    let mut r: Vec<u8> = Vec::new();
    extend(&mut r, src);
    proof {
        assert(r@ =~= src@);
    }
    r
}

/// The lowercase hex digit for a value below sixteen.
pub open spec fn spec_hex_digit(n: u8) -> u8 {
    if n < 10 {
        (0x30 + n) as u8
    } else {
        (0x57 + n) as u8
    }
}

/// Lowercase hex rendering of a byte string, two digits per byte.
pub open spec fn spec_hex(b: Seq<u8>) -> Seq<u8>
    decreases b.len(),
{
    if b.len() == 0 {
        Seq::empty()
    } else {
        spec_hex(b.drop_last()) + seq![
            spec_hex_digit(b.last() / 16),
            spec_hex_digit((b.last() % 16) as u8),
        ]
    }
}

pub fn hex_encode(b: &Vec<u8>) -> (r: Vec<u8>)
    ensures
        r@ == spec_hex(b@),
{
    let mut r: Vec<u8> = Vec::new();
    let mut i: usize = 0;
    while i < b.len()
        invariant
            i <= b.len(),
            r@ == spec_hex(b@.subrange(0, i as int)),
        decreases b.len() - i,
    {
        let hi = b[i] / 16;
        let lo = b[i] % 16;
        r.push(if hi < 10 { 0x30 + hi } else { 0x57 + hi });
        r.push(if lo < 10 { 0x30 + lo } else { 0x57 + lo });
        proof {
            let pre = b@.subrange(0, i as int);
            let now = b@.subrange(0, i + 1);
            assert(now.drop_last() =~= pre);
            assert(now.last() == b@[i as int]);
            assert(r@ =~= spec_hex(now));
        }
        i += 1;
    }
    proof {
        assert(b@.subrange(0, b@.len() as int) =~= b@);
    }
    r
}

/// Decimal rendering of an unsigned number, most significant digit first.
pub open spec fn spec_dec(n: nat) -> Seq<u8>
    decreases n,
{
    if n < 10 {
        seq![(0x30 + n) as u8]
    } else {
        spec_dec(n / 10) + seq![(0x30 + n % 10) as u8]
    }
}

pub fn dec_render(n: u64) -> (r: Vec<u8>)
    ensures
        r@ == spec_dec(n as nat),
    decreases n,
{
    if n < 10 {
        let mut r: Vec<u8> = Vec::new();
        r.push(0x30 + (n as u8));
        proof {
            assert(r@ =~= spec_dec(n as nat));
        }
        r
    } else {
        let mut r = dec_render(n / 10);
        r.push(0x30 + ((n % 10) as u8));
        proof {
            assert(r@ =~= spec_dec(n as nat));
        }
        r
    }
}

/// The little-endian bytes of a number, `k` bytes long.
pub open spec fn spec_le_bytes(n: nat, k: nat) -> Seq<u8>
    decreases k,
{
    if k == 0 {
        Seq::empty()
    } else {
        seq![(n % 256) as u8] + spec_le_bytes(n / 256, (k - 1) as nat)
    }
}

/// Appends the four little-endian bytes of `n`.
pub fn push_u32_le(dst: &mut Vec<u8>, n: u32)
    ensures
        final(dst)@ == old(dst)@ + spec_le_bytes(n as nat, 4),
{
    let b0 = (n % 256) as u8;
    let b1 = ((n / 256) % 256) as u8;
    let b2 = ((n / 65536) % 256) as u8;
    let b3 = ((n / 16777216) % 256) as u8;
    dst.push(b0);
    dst.push(b1);
    dst.push(b2);
    dst.push(b3);
    proof {
        reveal_with_fuel(spec_le_bytes, 5);
        assert(dst@ =~= old(dst)@ + spec_le_bytes(n as nat, 4));
    }
}

/// Appends the eight little-endian bytes of `n`.
pub fn push_u64_le(dst: &mut Vec<u8>, n: u64)
    ensures
        final(dst)@ == old(dst)@ + spec_le_bytes(n as nat, 8),
{
    let mut rem = n;
    dst.push((rem % 256) as u8);
    rem = rem / 256;
    dst.push((rem % 256) as u8);
    rem = rem / 256;
    dst.push((rem % 256) as u8);
    rem = rem / 256;
    dst.push((rem % 256) as u8);
    rem = rem / 256;
    dst.push((rem % 256) as u8);
    rem = rem / 256;
    dst.push((rem % 256) as u8);
    rem = rem / 256;
    dst.push((rem % 256) as u8);
    rem = rem / 256;
    dst.push((rem % 256) as u8);
    proof {
        reveal_with_fuel(spec_le_bytes, 9);
        assert(dst@ =~= old(dst)@ + spec_le_bytes(n as nat, 8));
    }
}

/// The Bitcoin wire encoding of a variable-length integer.
pub open spec fn spec_varint_bytes(n: nat) -> Seq<u8> {
    if n < 0xFD {
        seq![n as u8]
    } else if n <= 0xFFFF {
        seq![0xFDu8] + spec_le_bytes(n, 2)
    } else if n <= 0xFFFF_FFFF {
        seq![0xFEu8] + spec_le_bytes(n, 4)
    } else {
        seq![0xFFu8] + spec_le_bytes(n, 8)
    }
}

/// Appends the varint encoding of `n`.
pub fn push_varint(dst: &mut Vec<u8>, n: u64)
    ensures
        final(dst)@ == old(dst)@ + spec_varint_bytes(n as nat),
{
    if n < 0xFD {
        dst.push(n as u8);
        proof {
            assert(dst@ =~= old(dst)@ + spec_varint_bytes(n as nat));
        }
    } else if n <= 0xFFFF {
        dst.push(0xFD);
        dst.push((n % 256) as u8);
        dst.push(((n / 256) % 256) as u8);
        proof {
            reveal_with_fuel(spec_le_bytes, 3);
            assert(spec_le_bytes(n as nat, 2) =~= seq![(n % 256) as u8, ((n / 256) % 256) as u8]);
            assert(dst@ =~= old(dst)@ + spec_varint_bytes(n as nat));
        }
    } else if n <= 0xFFFF_FFFF {
        dst.push(0xFE);
        push_u32_le(dst, n as u32);
        proof {
            assert(dst@ =~= old(dst)@ + spec_varint_bytes(n as nat));
        }
    } else {
        dst.push(0xFF);
        push_u64_le(dst, n);
        proof {
            assert(dst@ =~= old(dst)@ + spec_varint_bytes(n as nat));
        }
    }
}

/// The reverse of a byte string.
pub open spec fn spec_rev(b: Seq<u8>) -> Seq<u8> {
    Seq::new(b.len(), |i: int| b[b.len() - 1 - i])
}

/// A copy of the bytes in reverse order, as used to display a txid.
pub fn rev_bytes(b: &Vec<u8>) -> (r: Vec<u8>)
    ensures
        r@ == spec_rev(b@),
{
    let mut r: Vec<u8> = Vec::new();
    let mut i: usize = b.len();
    while i > 0
        invariant
            i <= b.len(),
            r@.len() == b@.len() - i,
            forall|k: int| 0 <= k < r@.len() ==> r@[k] == b@[b@.len() - 1 - k],
        decreases i,
    {
        i -= 1;
        r.push(b[i]);
    }
    proof {
        assert(r@ =~= spec_rev(b@));
    }
    r
}

} // verus!
