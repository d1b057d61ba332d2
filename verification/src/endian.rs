//! Little- and big-endian integer reads from raw bytes.

use vstd::prelude::*;

verus! {

/// Byte order of the image.
#[derive(Clone, Copy, Debug, PartialEq, Eq, Structural)]
pub enum Endianness {
    Little,
    Big,
}

/// The value of `s` read least-significant byte first.
pub open spec fn le_value(s: Seq<u8>) -> nat
    decreases s.len(),
{
    if s.len() == 0 {
        0
    } else {
        (s[0] + 256 * le_value(s.drop_first())) as nat
    }
}

/// The value of `s` read most-significant byte first.
pub open spec fn be_value(s: Seq<u8>) -> nat {
    le_value(s.reverse())
}

pub open spec fn pow256(n: nat) -> nat
    decreases n,
{
    if n == 0 {
        1
    } else {
        256 * pow256((n - 1) as nat)
    }
}

pub proof fn lemma_le_value_bound(s: Seq<u8>)
    ensures
        le_value(s) < pow256(s.len()),
    decreases s.len(),
{
    if s.len() > 0 {
        lemma_le_value_bound(s.drop_first());
        assert(le_value(s) < pow256(s.len())) by (nonlinear_arith)
            requires
                le_value(s) == s[0] + 256 * le_value(s.drop_first()),
                s[0] < 256,
                le_value(s.drop_first()) < pow256((s.len() - 1) as nat),
                pow256(s.len()) == 256 * pow256((s.len() - 1) as nat),
        {}
    }
}

proof fn lemma_pow256_mono(a: nat, b: nat)
    requires
        a <= b,
    ensures
        pow256(a) <= pow256(b),
    decreases b,
{
    if a < b && b > 0 {
        lemma_pow256_mono(a, (b - 1) as nat);
        lemma_pow256_pos((b - 1) as nat);
        assert(pow256(b) == 256 * pow256((b - 1) as nat));
        assert(pow256((b - 1) as nat) <= 256 * pow256((b - 1) as nat)) by (nonlinear_arith)
            requires
                pow256((b - 1) as nat) >= 1,
        {}
    }
}

proof fn lemma_pow256_pos(n: nat)
    ensures
        pow256(n) >= 1,
    decreases n,
{
    if n > 0 {
        lemma_pow256_pos((n - 1) as nat);
    }
}

/// Appending one more byte at the low end of a big-endian run shifts the
/// value up by one byte.
pub proof fn lemma_be_value_snoc(s: Seq<u8>, b: u8)
    ensures
        be_value(s.push(b)) == 256 * be_value(s) + b,
{
    assert(s.push(b).reverse() =~= seq![b] + s.reverse());
    assert((seq![b] + s.reverse()).drop_first() =~= s.reverse());
    assert(le_value(seq![b] + s.reverse()) == b + 256 * le_value(s.reverse()));
}

/// Reads `width` bytes at `offset` as a little-endian value.
pub fn read_le(bytes: &[u8], offset: usize, width: usize) -> (r: u64)
    requires
        width <= 8,
        offset + width <= bytes@.len(),
    ensures
        r == le_value(bytes@.subrange(offset as int, offset + width)),
{
    let n = bytes.len();
    let mut acc: u64 = 0;
    let mut i: usize = width;
    proof {
        assert(bytes@.subrange(offset + width, offset + width) =~= Seq::<u8>::empty());
    }
    while i > 0
        invariant
            i <= width,
            width <= 8,
            offset + width <= n,
            n == bytes@.len(),
            acc == le_value(bytes@.subrange(offset + i, offset + width)),
            acc < pow256((width - i) as nat),
        decreases i,
    {
        proof {
            assert(pow256((width - i) as nat) <= pow256(7)) by {
                lemma_pow256_mono((width - i) as nat, 7);
            }
            reveal_with_fuel(pow256, 9);
            assert(pow256(7) == 0x100000000000000);
        }
        let b = bytes[offset + i - 1];
        acc = acc * 256 + (b as u64);
        i = i - 1;
        proof {
            assert(bytes@.subrange(offset + i, offset + width).drop_first() =~= bytes@.subrange(
                offset + i + 1,
                offset + width,
            ));
            assert(acc < pow256((width - i) as nat)) by (nonlinear_arith)
                requires
                    acc == 256 * le_value(bytes@.subrange(offset + i + 1, offset + width))
                        + bytes@[offset + i],
                    bytes@[offset + i] < 256,
                    le_value(bytes@.subrange(offset + i + 1, offset + width)) < pow256(
                        (width - i - 1) as nat,
                    ),
                    pow256((width - i) as nat) == 256 * pow256((width - i - 1) as nat),
            {}
        }
    }
    proof {
        assert(bytes@.subrange(offset as int, offset + width) == bytes@.subrange(
            offset + 0,
            offset + width,
        ));
    }
    acc
}

/// Reads `width` bytes at `offset` as a big-endian value.
pub fn read_be(bytes: &[u8], offset: usize, width: usize) -> (r: u64)
    requires
        width <= 8,
        offset + width <= bytes@.len(),
    ensures
        r == be_value(bytes@.subrange(offset as int, offset + width)),
{
    let n = bytes.len();
    let mut acc: u64 = 0;
    let mut i: usize = 0;
    proof {
        assert(bytes@.subrange(offset as int, offset as int) =~= Seq::<u8>::empty());
        assert(Seq::<u8>::empty().reverse() =~= Seq::<u8>::empty());
    }
    while i < width
        invariant
            i <= width,
            width <= 8,
            offset + width <= n,
            n == bytes@.len(),
            acc == be_value(bytes@.subrange(offset as int, offset + i)),
            acc < pow256(i as nat),
        decreases width - i,
    {
        proof {
            assert(pow256(i as nat) <= pow256(7)) by {
                lemma_pow256_mono(i as nat, 7);
            }
            reveal_with_fuel(pow256, 9);
            assert(pow256(7) == 0x100000000000000);
        }
        let b = bytes[offset + i];
        proof {
            lemma_be_value_snoc(bytes@.subrange(offset as int, offset + i), bytes@[offset + i]);
            assert(bytes@.subrange(offset as int, offset + i).push(bytes@[offset + i])
                =~= bytes@.subrange(offset as int, offset + i + 1));
        }
        acc = acc * 256 + (b as u64);
        i = i + 1;
        proof {
            assert(acc < pow256(i as nat)) by (nonlinear_arith)
                requires
                    acc == 256 * be_value(bytes@.subrange(offset as int, offset + i - 1))
                        + bytes@[offset + i - 1],
                    bytes@[offset + i - 1] < 256,
                    be_value(bytes@.subrange(offset as int, offset + i - 1)) < pow256(
                        (i - 1) as nat,
                    ),
                    pow256(i as nat) == 256 * pow256((i - 1) as nat),
            {}
        }
    }
    acc
}

/// The value of a pointer-sized field under the given byte order.
pub open spec fn spec_read_value(s: Seq<u8>, endianness: Endianness) -> nat {
    match endianness {
        Endianness::Little => le_value(s),
        Endianness::Big => be_value(s),
    }
}

/// Reads `width` bytes at `offset` under the image's declared byte order.
pub fn read_value(bytes: &[u8], offset: usize, width: usize, endianness: Endianness) -> (r: u64)
    requires
        width <= 8,
        offset + width <= bytes@.len(),
    ensures
        r == spec_read_value(bytes@.subrange(offset as int, offset + width), endianness),
{
    match endianness {
        Endianness::Little => read_le(bytes, offset, width),
        Endianness::Big => read_be(bytes, offset, width),
    }
}

} // verus!
