//! Little-endian integer encoding of byte sequences.

use vstd::prelude::*;

verus! {

/// `256^n`.
pub open spec fn pow256(n: nat) -> nat
    decreases n,
{
    if n == 0 {
        1
    } else {
        256 * pow256((n - 1) as nat)
    }
}

/// The unsigned integer whose little-endian encoding is `s`.
pub open spec fn le_value(s: Seq<u8>) -> nat
    decreases s.len(),
{
    if s.len() == 0 {
        0
    } else {
        s[0] as nat + 256 * le_value(s.drop_first())
    }
}

/// The little-endian integer stored in `width` bytes of `s` starting at `off`.
pub open spec fn le_at(s: Seq<u8>, off: int, width: int) -> nat {
    le_value(s.subrange(off, off + width))
}

pub proof fn lemma_pow256_monotone(a: nat, b: nat)
    requires
        a <= b,
    ensures
        pow256(a) <= pow256(b),
    decreases b,
{
    if a < b {
        lemma_pow256_monotone(a, (b - 1) as nat);
    }
}

pub proof fn lemma_pow256_values()
    ensures
        pow256(1) == 0x100,
        pow256(2) == 0x1_0000,
        pow256(4) == 0x1_0000_0000,
        pow256(8) == 0x1_0000_0000_0000_0000,
        pow256(7) == 0x100_0000_0000_0000,
{
    reveal_with_fuel(pow256, 9);
}

/// An encoding of `n` bytes holds a value below `256^n`.
pub proof fn lemma_le_value_bound(s: Seq<u8>)
    ensures
        le_value(s) < pow256(s.len()),
    decreases s.len(),
{
    if s.len() > 0 {
        lemma_le_value_bound(s.drop_first());
    }
}

/// Reads the little-endian unsigned integer of `width` bytes at `off`.
pub fn read_le(data: &[u8], off: usize, width: usize) -> (r: u64)
    requires
        width <= 8,
        off + width <= data@.len(),
    ensures
        r as nat == le_at(data@, off as int, width as int),
{
    let mut acc: u64 = 0;
    let mut i: usize = width;
    proof {
        assert(data@.subrange(off + width, off + width) =~= Seq::<u8>::empty());
        lemma_pow256_values();
    }
    while i > 0
        invariant
            width <= 8,
            i <= width,
            off + width <= data.len(),
            acc as nat == le_value(data@.subrange(off + i, off + width)),
            acc < pow256((width - i) as nat),
        decreases i,
    {
        let b = data[off + i - 1];
        proof {
            let tail = data@.subrange(off + i, off + width);
            let longer = data@.subrange(off + i - 1, off + width);
            assert(longer.drop_first() =~= tail);
            assert(longer[0] == b);
            lemma_pow256_monotone((width - i) as nat, 7);
            lemma_pow256_values();
        }
        acc = acc * 256 + b as u64;
        i = i - 1;
        proof {
            assert(pow256((width - i) as nat) == 256 * pow256((width - i - 1) as nat));
        }
    }
    acc
}

/// Reads a little-endian `u16` at `off`.
pub fn read_u16_le(data: &[u8], off: usize) -> (r: u16)
    requires
        off + 2 <= data@.len(),
    ensures
        r as nat == le_at(data@, off as int, 2),
{
    let v = read_le(data, off, 2);
    proof {
        lemma_le_value_bound(data@.subrange(off as int, off + 2));
        lemma_pow256_values();
    }
    v as u16
}

/// Reads a little-endian `u32` at `off`.
pub fn read_u32_le(data: &[u8], off: usize) -> (r: u32)
    requires
        off + 4 <= data@.len(),
    ensures
        r as nat == le_at(data@, off as int, 4),
{
    let v = read_le(data, off, 4);
    proof {
        lemma_le_value_bound(data@.subrange(off as int, off + 4));
        lemma_pow256_values();
    }
    v as u32
}

/// Reads a little-endian `u64` at `off`.
pub fn read_u64_le(data: &[u8], off: usize) -> (r: u64)
    requires
        off + 8 <= data@.len(),
    ensures
        r as nat == le_at(data@, off as int, 8),
{
    read_le(data, off, 8)
}

/// Copies the `N` bytes at `off` into an array.
pub fn read_array<const N: usize>(data: &[u8], off: usize) -> (r: [u8; N])
    requires
        off + N <= data@.len(),
    ensures
        r@ == data@.subrange(off as int, off + N),
{
    let mut out = [0u8; N];
    let mut i: usize = 0;
    while i < N
        invariant
            i <= N,
            off + N <= data.len(),
            out@.len() == N,
            forall|j: int| 0 <= j < i ==> out@[j] == data@[off + j],
        decreases N - i,
    {
        out[i] = data[off + i];
        i = i + 1;
    }
    assert(out@ =~= data@.subrange(off as int, off + N));
    out
}

/// The `n`-byte little-endian encoding of `x` (truncated to `n` bytes).
pub open spec fn le_bytes(x: nat, n: nat) -> Seq<u8>
    decreases n,
{
    if n == 0 {
        Seq::empty()
    } else {
        seq![(x % 256) as u8] + le_bytes(x / 256, (n - 1) as nat)
    }
}

/// The eight little-endian bytes of a `u64`.
pub open spec fn spec_le_bytes_u64(x: u64) -> Seq<u8> {
    le_bytes(x as nat, 8)
}

/// Decoding the `n`-byte encoding of a value below `256^n` gives it back.
pub proof fn lemma_le_bytes_value(x: nat, n: nat)
    requires
        x < pow256(n),
    ensures
        le_bytes(x, n).len() == n,
        le_value(le_bytes(x, n)) == x,
    decreases n,
{
    if n > 0 {
        let rest = le_bytes(x / 256, (n - 1) as nat);
        assert(x / 256 < pow256((n - 1) as nat)) by (nonlinear_arith)
            requires x < 256 * pow256((n - 1) as nat);
        lemma_le_bytes_value(x / 256, (n - 1) as nat);
        let s = le_bytes(x, n);
        assert(s.drop_first() =~= rest);
        assert(x == x % 256 + 256 * (x / 256)) by (nonlinear_arith);
    } else {
        assert(x == 0);
    }
}

/// The only `n`-byte sequence whose value is `x` is the encoding of `x`.
pub proof fn lemma_le_bytes_unique(s: Seq<u8>, x: nat)
    requires
        le_value(s) == x,
    ensures
        s =~= le_bytes(x, s.len()),
    decreases s.len(),
{
    if s.len() > 0 {
        let t = s.drop_first();
        let b = s[0];
        assert(x == b as nat + 256 * le_value(t));
        assert(x % 256 == b as nat && x / 256 == le_value(t)) by (nonlinear_arith)
            requires x == b as nat + 256 * le_value(t), 0 <= b < 256;
        lemma_le_bytes_unique(t, le_value(t));
        assert(le_bytes(x, s.len()) =~= seq![b] + le_bytes(le_value(t), t.len()));
    }
}

/// The little-endian encoding of `x` in eight bytes.
pub fn u64_to_le_bytes(x: u64) -> (r: [u8; 8])
    ensures
        r@ == spec_le_bytes_u64(x),
        le_value(r@) == x as nat,
{
    let mut out = [0u8; 8];
    let mut v: u64 = x;
    let mut i: usize = 0;
    proof {
        assert(out@.subrange(0, 0) + le_bytes(x as nat, 8) =~= le_bytes(x as nat, 8));
    }
    while i < 8
        invariant
            i <= 8,
            out@.len() == 8,
            out@.subrange(0, i as int) + le_bytes(v as nat, (8 - i) as nat) == le_bytes(x as nat, 8),
        decreases 8 - i,
    {
        let b = (v % 256) as u8;
        let ghost prefix = out@.subrange(0, i as int);
        out[i] = b;
        proof {
            assert(out@.subrange(0, i + 1) =~= prefix.push(b));
            let rest = le_bytes((v / 256) as nat, (8 - i - 1) as nat);
            assert(le_bytes(v as nat, (8 - i) as nat) =~= seq![b] + rest);
            assert(prefix.push(b) + rest =~= prefix + (seq![b] + rest));
        }
        v = v / 256;
        i = i + 1;
    }
    proof {
        assert(out@.subrange(0, 8) =~= out@);
        assert(le_bytes(v as nat, 0) =~= Seq::<u8>::empty());
        assert(out@ =~= le_bytes(x as nat, 8));
        lemma_pow256_values();
        lemma_le_bytes_value(x as nat, 8);
    }
    out
}

/// Encoding then decoding eight little-endian bytes gives the value back.
pub proof fn lemma_le_roundtrip_u64(bytes: Seq<u8>, x: u64)
    requires
        bytes.len() == 8,
        le_value(bytes) == x as nat,
    ensures
        le_at(bytes, 0, 8) == x as nat,
{
    assert(bytes.subrange(0, 8) =~= bytes);
}

} // verus!
