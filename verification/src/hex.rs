//! Hexadecimal rendering with exact contracts.
//!
//! Addresses are rendered as fixed-width uppercase hexadecimal, left-padded
//! with zeros to ten digits; raw bytes as uppercase pairs separated by
//! spaces, truncated with `".."` when they exceed a column width.

use vstd::prelude::*;

verus! {

use vstd::string::StringExecFns;

/// The uppercase hex digit for `d` (meaningful for `d < 16`).
pub open spec fn spec_upper_digit(d: nat) -> char {
    if d == 0 {
        '0'
    } else if d == 1 {
        '1'
    } else if d == 2 {
        '2'
    } else if d == 3 {
        '3'
    } else if d == 4 {
        '4'
    } else if d == 5 {
        '5'
    } else if d == 6 {
        '6'
    } else if d == 7 {
        '7'
    } else if d == 8 {
        '8'
    } else if d == 9 {
        '9'
    } else if d == 10 {
        'A'
    } else if d == 11 {
        'B'
    } else if d == 12 {
        'C'
    } else if d == 13 {
        'D'
    } else if d == 14 {
        'E'
    } else {
        'F'
    }
}

/// The lowercase hex digit for `d` (meaningful for `d < 16`).
pub open spec fn spec_lower_digit(d: nat) -> char {
    if d < 10 {
        spec_upper_digit(d)
    } else if d == 10 {
        'a'
    } else if d == 11 {
        'b'
    } else if d == 12 {
        'c'
    } else if d == 13 {
        'd'
    } else if d == 14 {
        'e'
    } else {
        'f'
    }
}

/// `width` uppercase hex digits of `v`, most significant first.
pub open spec fn spec_upper_hex_fixed(v: nat, width: nat) -> Seq<char>
    decreases width,
{
    if width == 0 {
        Seq::empty()
    } else {
        spec_upper_hex_fixed(v / 16, (width - 1) as nat).push(spec_upper_digit(v % 16))
    }
}

/// `width` lowercase hex digits of `v`, most significant first.
pub open spec fn spec_lower_hex_fixed(v: nat, width: nat) -> Seq<char>
    decreases width,
{
    if width == 0 {
        Seq::empty()
    } else {
        spec_lower_hex_fixed(v / 16, (width - 1) as nat).push(spec_lower_digit(v % 16))
    }
}

/// How many hex digits `v` takes without padding.
pub open spec fn spec_hex_len(v: nat) -> nat
    decreases v,
{
    if v < 16 {
        1
    } else {
        1 + spec_hex_len(v / 16)
    }
}

/// An address as the renderer shows it: uppercase hex, left-padded with
/// zeros to ten digits (wider only if the value needs more).
pub open spec fn spec_addr_hex(v: nat) -> Seq<char> {
    if spec_hex_len(v) <= 10 {
        spec_upper_hex_fixed(v, 10)
    } else {
        spec_upper_hex_fixed(v, spec_hex_len(v))
    }
}

/// A value as `0x` followed by minimal lowercase hex digits.
pub open spec fn spec_value_hex(v: nat) -> Seq<char> {
    seq!['0', 'x'] + spec_lower_hex_fixed(v, spec_hex_len(v))
}

fn upper_digit(d: u8) -> (c: char)
    requires
        d < 16,
    ensures
        c == spec_upper_digit(d as nat),
{
    match d {
        0 => '0',
        1 => '1',
        2 => '2',
        3 => '3',
        4 => '4',
        5 => '5',
        6 => '6',
        7 => '7',
        8 => '8',
        9 => '9',
        10 => 'A',
        11 => 'B',
        12 => 'C',
        13 => 'D',
        14 => 'E',
        _ => 'F',
    }
}

fn lower_digit(d: u8) -> (c: char)
    requires
        d < 16,
    ensures
        c == spec_lower_digit(d as nat),
{
    match d {
        0 => '0',
        1 => '1',
        2 => '2',
        3 => '3',
        4 => '4',
        5 => '5',
        6 => '6',
        7 => '7',
        8 => '8',
        9 => '9',
        10 => 'a',
        11 => 'b',
        12 => 'c',
        13 => 'd',
        14 => 'e',
        _ => 'f',
    }
}

/// `width` uppercase hex digits of `v`, most significant first.
pub fn upper_hex_fixed(v: usize, width: usize) -> (r: String)
    ensures
        r@ == spec_upper_hex_fixed(v as nat, width as nat),
    decreases width,
{
    if width == 0 {
        String::new()
    } else {
        let mut rest = upper_hex_fixed(v / 16, width - 1);
        rest.push(upper_digit((v % 16) as u8));
        rest
    }
}

/// `width` lowercase hex digits of `v`, most significant first.
pub fn lower_hex_fixed(v: usize, width: usize) -> (r: String)
    ensures
        r@ == spec_lower_hex_fixed(v as nat, width as nat),
    decreases width,
{
    if width == 0 {
        String::new()
    } else {
        let mut rest = lower_hex_fixed(v / 16, width - 1);
        rest.push(lower_digit((v % 16) as u8));
        rest
    }
}

/// How many hex digits `v` takes without padding.
pub fn hex_len(v: usize) -> (n: usize)
    ensures
        n == spec_hex_len(v as nat),
        1 <= n,
    decreases v,
{
    if v < 16 {
        1
    } else {
        proof {
            lemma_hex_len_bound((v / 16) as nat);
        }
        1 + hex_len(v / 16)
    }
}

/// The digit count never exceeds the value's bit count, so adding one
/// digit cannot overflow a usize count.
proof fn lemma_hex_len_bound(v: nat)
    ensures
        spec_hex_len(v) <= v + 1,
    decreases v,
{
    if v >= 16 {
        lemma_hex_len_bound(v / 16);
    }
}

/// An address rendered as the presentation layer expects it.
pub fn addr_hex(v: usize) -> (r: String)
    ensures
        r@ == spec_addr_hex(v as nat),
{
    let len = hex_len(v);
    if len <= 10 {
        upper_hex_fixed(v, 10)
    } else {
        upper_hex_fixed(v, len)
    }
}

/// A value as minimal lowercase hex digits, without a prefix.
pub open spec fn spec_min_hex(v: nat) -> Seq<char> {
    spec_lower_hex_fixed(v, spec_hex_len(v))
}

/// A value rendered as minimal lowercase hex, without a prefix.
pub fn min_hex(v: usize) -> (r: String)
    ensures
        r@ == spec_min_hex(v as nat),
{
    let len = hex_len(v);
    lower_hex_fixed(v, len)
}

/// A value rendered as `0x` plus minimal lowercase hex.
pub fn value_hex(v: usize) -> (r: String)
    ensures
        r@ == spec_value_hex(v as nat),
{
    let len = hex_len(v);
    let digits = lower_hex_fixed(v, len);
    let mut out = String::new();
    out.push('0');
    out.push('x');
    proof {
        assert(out@ =~= seq!['0', 'x']);
    }
    let r = out.concat(digits.as_str());
    proof {
        assert(r@ =~= spec_value_hex(v as nat));
    }
    r
}

/// A 64-bit value rendered as `0x` plus minimal lowercase hex.
pub fn value_hex64(v: u64) -> (r: String)
    ensures
        r@ == spec_value_hex(v as nat),
{
    let len = hex_len64(v);
    let digits = lower_hex_fixed64(v, len);
    let mut out = String::new();
    out.push('0');
    out.push('x');
    proof {
        assert(out@ =~= seq!['0', 'x']);
    }
    let r = out.concat(digits.as_str());
    proof {
        assert(r@ =~= spec_value_hex(v as nat));
    }
    r
}

fn hex_len64(v: u64) -> (n: usize)
    ensures
        n == spec_hex_len(v as nat),
    decreases v,
{
    if v < 16 {
        1
    } else {
        proof {
            reveal_with_fuel(pow16, 17);
            lemma_hex_len_le((v / 16) as nat, 16);
        }
        1 + hex_len64(v / 16)
    }
}

pub open spec fn pow16(k: nat) -> nat
    decreases k,
{
    if k == 0 {
        1
    } else {
        16 * pow16((k - 1) as nat)
    }
}

/// A value below `16^k` takes at most `k` hex digits.
proof fn lemma_hex_len_le(v: nat, k: nat)
    requires
        k >= 1,
        v < pow16(k),
    ensures
        spec_hex_len(v) <= k,
    decreases k,
{
    if v >= 16 {
        assert(k >= 2) by {
            if k == 1 {
                assert(pow16(1) == 16);
            }
        }
        assert(v / 16 < pow16((k - 1) as nat)) by (nonlinear_arith)
            requires
                v < pow16(k),
                pow16(k) == 16 * pow16((k - 1) as nat),
        {}
        lemma_hex_len_le(v / 16, (k - 1) as nat);
    }
}

fn lower_hex_fixed64(v: u64, width: usize) -> (r: String)
    ensures
        r@ == spec_lower_hex_fixed(v as nat, width as nat),
    decreases width,
{
    if width == 0 {
        String::new()
    } else {
        let mut rest = lower_hex_fixed64(v / 16, width - 1);
        rest.push(lower_digit((v % 16) as u8));
        rest
    }
}

/// A byte dump: two uppercase digits and a space for each byte.
pub open spec fn spec_hex_bytes(bytes: Seq<u8>) -> Seq<char>
    decreases bytes.len(),
{
    if bytes.len() == 0 {
        Seq::empty()
    } else {
        seq![
            spec_upper_digit(bytes[0] as nat / 16),
            spec_upper_digit(bytes[0] as nat % 16),
            ' ',
        ] + spec_hex_bytes(bytes.drop_first())
    }
}

pub open spec fn spec_spaces(n: nat) -> Seq<char> {
    Seq::new(n, |i: int| ' ')
}

/// The byte dump truncated to `max` columns: when the full dump fits it is
/// kept (padded with spaces to `max` when `padded` is set); otherwise as
/// many whole bytes as fit are followed by `".."`.
pub open spec fn spec_hex_bytes_truncated(bytes: Seq<u8>, max: nat, padded: bool) -> Seq<char> {
    let full = spec_hex_bytes(bytes);
    if full.len() <= max {
        if padded {
            full + spec_spaces((max - full.len()) as nat)
        } else {
            full
        }
    } else {
        let keep = ((max - 2) / 3) as nat;
        let cut = spec_hex_bytes(bytes.take(keep as int)) + seq!['.', '.'];
        if padded {
            cut + spec_spaces((max - cut.len()) as nat)
        } else {
            cut
        }
    }
}

pub proof fn lemma_hex_bytes_len(bytes: Seq<u8>)
    ensures
        spec_hex_bytes(bytes).len() == 3 * bytes.len(),
    decreases bytes.len(),
{
    if bytes.len() > 0 {
        lemma_hex_bytes_len(bytes.drop_first());
    }
}

proof fn lemma_hex_bytes_snoc(bytes: Seq<u8>, i: int)
    requires
        0 <= i < bytes.len(),
    ensures
        spec_hex_bytes(bytes.take(i + 1)) == spec_hex_bytes(bytes.take(i)) + seq![
            spec_upper_digit(bytes[i] as nat / 16),
            spec_upper_digit(bytes[i] as nat % 16),
            ' ',
        ],
    decreases i,
{
    if i == 0 {
        assert(bytes.take(1).drop_first() =~= Seq::<u8>::empty());
        assert(bytes.take(0) =~= Seq::<u8>::empty());
        assert(spec_hex_bytes(bytes.take(1)) =~= spec_hex_bytes(bytes.take(0)) + seq![
            spec_upper_digit(bytes[0] as nat / 16),
            spec_upper_digit(bytes[0] as nat % 16),
            ' ',
        ]);
    } else {
        lemma_hex_bytes_snoc(bytes.drop_first(), i - 1);
        assert(bytes.take(i + 1).drop_first() =~= bytes.drop_first().take(i));
        assert(bytes.take(i).drop_first() =~= bytes.drop_first().take(i - 1));
        assert(spec_hex_bytes(bytes.take(i + 1)) =~= spec_hex_bytes(bytes.take(i)) + seq![
            spec_upper_digit(bytes[i] as nat / 16),
            spec_upper_digit(bytes[i] as nat % 16),
            ' ',
        ]);
    }
}

/// The full byte dump of `bytes[..count]`, two uppercase digits and a
/// space per byte.
fn hex_bytes_prefix(bytes: &[u8], count: usize) -> (r: String)
    requires
        count <= bytes@.len(),
        3 * count <= usize::MAX,
    ensures
        r@ == spec_hex_bytes(bytes@.take(count as int)),
{
    let mut out = String::new();
    let mut i: usize = 0;
    proof {
        assert(bytes@.take(0) =~= Seq::<u8>::empty());
    }
    while i < count
        invariant
            i <= count,
            count <= bytes@.len(),
            out@ == spec_hex_bytes(bytes@.take(i as int)),
        decreases count - i,
    {
        let b = bytes[i];
        out.push(upper_digit(b / 16));
        out.push(upper_digit(b % 16));
        out.push(' ');
        proof {
            lemma_hex_bytes_snoc(bytes@, i as int);
            assert(out@ =~= spec_hex_bytes(bytes@.take(i + 1)));
        }
        i = i + 1;
    }
    out
}

/// Append `n` spaces.
fn push_spaces(out: &mut String, n: usize)
    ensures
        final(out)@ == old(out)@ + spec_spaces(n as nat),
{
    let mut i: usize = 0;
    proof {
        assert(old(out)@ + spec_spaces(0) =~= old(out)@);
    }
    while i < n
        invariant
            i <= n,
            out@ == old(out)@ + spec_spaces(i as nat),
        decreases n - i,
    {
        out.push(' ');
        proof {
            assert(old(out)@ + spec_spaces((i + 1) as nat) =~= (old(out)@ + spec_spaces(
                i as nat,
            )).push(' '));
        }
        i = i + 1;
    }
}

/// A byte dump held to a column width, as used for instruction bytes.
pub fn encode_hex_bytes_truncated(bytes: &[u8], max: usize, padded: bool) -> (r: String)
    requires
        3 * bytes@.len() <= usize::MAX,
        max >= 2,
    ensures
        r@ == spec_hex_bytes_truncated(bytes@, max as nat, padded),
{
    proof {
        lemma_hex_bytes_len(bytes@);
    }
    let len = bytes.len();
    if 3 * len <= max {
        let mut out = hex_bytes_prefix(bytes, len);
        proof {
            assert(bytes@.take(len as int) =~= bytes@);
        }
        if padded {
            push_spaces(&mut out, max - 3 * len);
        }
        out
    } else {
        let keep = (max - 2) / 3;
        proof {
            lemma_hex_bytes_len(bytes@.take(keep as int));
        }
        let mut out = hex_bytes_prefix(bytes, keep);
        out.push('.');
        out.push('.');
        proof {
            assert(out@ =~= spec_hex_bytes(bytes@.take(keep as int)) + seq!['.', '.']);
        }
        if padded {
            push_spaces(&mut out, max - (3 * keep + 2));
        }
        out
    }
}

} // verus!
