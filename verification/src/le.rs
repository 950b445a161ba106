//! Little-endian integers: what a run of bytes is worth, and the bytes that a
//! number takes.

use vstd::prelude::*;

verus! {

/// The low `n` bytes of `v`, least significant first.
pub open spec fn le_bytes(v: nat, n: nat) -> Seq<u8>
    decreases n,
{
    if n == 0 {
        Seq::empty()
    } else {
        seq![(v % 256) as u8] + le_bytes(v / 256, (n - 1) as nat)
    }
}

/// The number whose bytes, least significant first, are `s`.
pub open spec fn le_value(s: Seq<u8>) -> nat
    decreases s.len(),
{
    if s.len() == 0 {
        0
    } else {
        s[0] as nat + 256 * le_value(s.drop_first())
    }
}

/// 256 to the power `n`: how many numbers fit in `n` bytes.
pub open spec fn byte_range(n: nat) -> nat
    decreases n,
{
    if n == 0 {
        1
    } else {
        256 * byte_range((n - 1) as nat)
    }
}

pub proof fn lemma_byte_range()
    ensures
        byte_range(2) == 0x1_0000,
        byte_range(4) == 0x1_0000_0000,
        byte_range(8) == 0x1_0000_0000_0000_0000,
{
    reveal_with_fuel(byte_range, 9);
}

pub proof fn lemma_le_bytes_len(v: nat, n: nat)
    ensures
        le_bytes(v, n).len() == n,
    decreases n,
{
    if n > 0 {
        lemma_le_bytes_len(v / 256, (n - 1) as nat);
    }
}

pub proof fn lemma_le_value_bound(s: Seq<u8>)
    ensures
        le_value(s) < byte_range(s.len()),
    decreases s.len(),
{
    if s.len() > 0 {
        lemma_le_value_bound(s.drop_first());
    }
}

/// A number that fits in `n` bytes is the value of its own bytes.
pub proof fn law_value_of_bytes(v: nat, n: nat)
    requires
        v < byte_range(n),
    ensures
        le_value(le_bytes(v, n)) == v,
    decreases n,
{
    if n > 0 {
        law_value_of_bytes(v / 256, (n - 1) as nat);
        assert(le_bytes(v, n).drop_first() =~= le_bytes(v / 256, (n - 1) as nat));
    }
}

/// A run of bytes is the byte form of its own value.
pub proof fn law_bytes_of_value(s: Seq<u8>)
    ensures
        le_bytes(le_value(s), s.len()) =~= s,
    decreases s.len(),
{
    if s.len() > 0 {
        let rest = s.drop_first();
        law_bytes_of_value(rest);
        assert(le_value(s) % 256 == s[0] as nat);
        assert(le_value(s) / 256 == le_value(rest));
        assert(s =~= seq![s[0]] + rest);
    }
}

/// The low `n` bytes of `v`, least significant first.
pub fn to_le(v: u64, n: usize) -> (out: Vec<u8>)
    ensures
        out@ == le_bytes(v as nat, n as nat),
{
    let mut out: Vec<u8> = Vec::new();
    let mut rest: u64 = v;
    let mut i: usize = 0;
    while i < n
        invariant
            i <= n,
            le_bytes(v as nat, n as nat) =~= out@ + le_bytes(rest as nat, (n - i) as nat),
        decreases n - i,
    {
        out.push((rest % 256) as u8);
        rest = rest / 256;
        i = i + 1;
    }
    out
}

/// The number whose bytes, least significant first, are `s`.
pub fn from_le(s: &[u8]) -> (v: u64)
    requires
        s@.len() <= 8,
    ensures
        v == le_value(s@),
{
    let mut v: u64 = 0;
    let mut i: usize = s.len();
    assert(s@.skip(i as int) =~= Seq::empty());
    while i > 0
        invariant
            i <= s@.len() <= 8,
            v == le_value(s@.skip(i as int)),
        decreases i,
    {
        i = i - 1;
        assert(s@.skip(i as int).drop_first() =~= s@.skip(i + 1));
        proof {
            lemma_le_value_bound(s@.skip(i as int));
            reveal_with_fuel(byte_range, 9);
        }
        v = s[i] as u64 + 256 * v;
    }
    assert(s@.skip(0) =~= s@);
    v
}

/// A two-byte two's complement number.
pub open spec fn le_i16(lo: u8, hi: u8) -> int {
    let v = lo as int + 256 * hi as int;
    if v < 0x8000 {
        v
    } else {
        v - 0x1_0000
    }
}

/// The two's complement number with the bytes `lo` and `hi`.
pub fn to_i16(lo: u8, hi: u8) -> (v: i16)
    ensures
        v == le_i16(lo, hi),
{
    let raw: i32 = lo as i32 + 256 * (hi as i32);
    if raw < 0x8000 {
        raw as i16
    } else {
        (raw - 0x1_0000) as i16
    }
}

/// Byte `i` of a number counts how often 256 to the power `i` goes into it.
pub proof fn law_byte_has_its_weight(v: nat, n: nat, i: nat)
    requires
        i < n,
    ensures
        le_bytes(v, n)[i as int] == (v / byte_range(i)) % 256,
        byte_range(0) == 1,
        byte_range(i + 1) == 256 * byte_range(i),
    decreases n,
{
    lemma_le_bytes_len(v, n);
    lemma_le_bytes_len(v / 256, (n - 1) as nat);
    if i > 0 {
        law_byte_has_its_weight(v / 256, (n - 1) as nat, (i - 1) as nat);
        let r = byte_range((i - 1) as nat);
        lemma_byte_range_positive((i - 1) as nat);
        assert(v / 256 / r == v / (256 * r)) by (nonlinear_arith)
            requires
                r > 0,
        ;
        assert(byte_range(i) == 256 * r);
        assert(v / byte_range(i) == v / 256 / r);
    } else {
        assert(v / byte_range(0) == v) by {
            assert(byte_range(0) == 1);
            assert(v / 1 == v);
        }
    }
}

proof fn lemma_byte_range_positive(n: nat)
    ensures
        byte_range(n) > 0,
    decreases n,
{
    if n > 0 {
        lemma_byte_range_positive((n - 1) as nat);
    }
}

/// The low and the high byte of a two's complement number.
pub open spec fn i16_bytes(v: i16) -> Seq<u8> {
    let u = if v < 0 {
        v + 0x1_0000
    } else {
        v as int
    };
    seq![(u % 256) as u8, (u / 256) as u8]
}

/// A two's complement number is read back from its bytes.
pub proof fn law_i16_reads_back(v: i16)
    ensures
        le_i16(i16_bytes(v)[0], i16_bytes(v)[1]) == v,
{
}

} // verus!
