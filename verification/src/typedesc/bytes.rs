//! Integers as they lie in a buffer: least significant byte first, negative
//! numbers in two's complement.

use vstd::prelude::*;

verus! {

/// The number of values that `width` bytes can tell apart: 256 to the power
/// of `width`.
pub open spec fn radix(width: nat) -> nat
    decreases width,
{
    if width == 0 {
        1
    } else {
        256 * radix((width - 1) as nat)
    }
}

/// The number that the bytes hold, the first byte being the least
/// significant.
pub open spec fn le_value(bytes: Seq<u8>) -> nat
    decreases bytes.len(),
{
    if bytes.len() == 0 {
        0
    } else {
        bytes[0] as nat + 256 * le_value(bytes.drop_first())
    }
}

/// The `width` bytes that hold `v`, the least significant first. Of a
/// number too large for them the low bytes are kept.
pub open spec fn le_bytes(v: nat, width: nat) -> Seq<u8>
    decreases width,
{
    if width == 0 {
        Seq::empty()
    } else {
        seq![(v % 256) as u8] + le_bytes(v / 256, (width - 1) as nat)
    }
}

/// The number that the bytes hold when they are read as a signed number in
/// two's complement.
pub open spec fn le_signed(bytes: Seq<u8>) -> int {
    if 2 * le_value(bytes) >= radix(bytes.len()) {
        le_value(bytes) - radix(bytes.len())
    } else {
        le_value(bytes) as int
    }
}

/// The first powers of 256.
pub proof fn lemma_radix_values()
    ensures
        radix(0) == 1,
        radix(1) == 0x100,
        radix(2) == 0x1_0000,
        radix(3) == 0x100_0000,
        radix(4) == 0x1_0000_0000,
        radix(5) == 0x100_0000_0000,
        radix(6) == 0x1_0000_0000_0000,
        radix(7) == 0x100_0000_0000_0000,
        radix(8) == 0x1_0000_0000_0000_0000,
{
    reveal_with_fuel(radix, 9);
}

/// Bytes hold a number below the power of 256 that goes with their count.
pub proof fn lemma_le_value_bound(bytes: Seq<u8>)
    ensures
        le_value(bytes) < radix(bytes.len()),
    decreases bytes.len(),
{
    if bytes.len() > 0 {
        lemma_le_value_bound(bytes.drop_first());
    }
}

/// Writing a number takes as many bytes as asked for.
pub proof fn lemma_le_bytes_len(v: nat, width: nat)
    ensures
        le_bytes(v, width).len() == width,
    decreases width,
{
    if width > 0 {
        lemma_le_bytes_len(v / 256, (width - 1) as nat);
    }
}

/// Reading what was written gives the number back, as far as the bytes
/// could take it: its remainder by the power of 256.
pub proof fn lemma_le_value_of_bytes(v: nat, width: nat)
    ensures
        le_value(le_bytes(v, width)) == v % radix(width),
    decreases width,
{
    if width > 0 {
        let rest = le_bytes(v / 256, (width - 1) as nat);
        let all = le_bytes(v, width);
        lemma_le_value_of_bytes(v / 256, (width - 1) as nat);
        assert(all.drop_first() =~= rest);
        let r = radix((width - 1) as nat);
        lemma_radix_positive((width - 1) as nat);
        // v == 256 * (v / 256) + v % 256, and so its remainder by 256 r is
        // 256 times the remainder of v / 256 by r, plus v % 256.
        lemma_split_remainder(v, r);
    } else {
        assert(v % 1 == 0);
    }
}

/// Writing what was read gives the bytes back.
pub proof fn lemma_le_bytes_of_value(bytes: Seq<u8>)
    ensures
        le_bytes(le_value(bytes), bytes.len()) == bytes,
    decreases bytes.len(),
{
    if bytes.len() > 0 {
        let rest = bytes.drop_first();
        lemma_le_bytes_of_value(rest);
        let v = le_value(bytes);
        assert(v % 256 == bytes[0] as nat);
        assert(v / 256 == le_value(rest));
        assert(le_bytes(v, bytes.len()) =~= bytes);
    } else {
        assert(le_bytes(le_value(bytes), bytes.len()) =~= bytes);
    }
}

/// Every power of 256 is at least 1.
pub proof fn lemma_radix_positive(width: nat)
    ensures
        radix(width) >= 1,
    decreases width,
{
    if width > 0 {
        lemma_radix_positive((width - 1) as nat);
    }
}

/// The remainder by `256 * r` is made of the remainder of the 256th part by
/// `r` and the remainder by 256.
proof fn lemma_split_remainder(v: nat, r: nat)
    requires
        r >= 1,
    ensures
        v % (256 * r) == 256 * ((v / 256) % r) + v % 256,
{
    let q = v / 256;
    let low = v % 256;
    let hi = q / r;
    let mid = q % r;
    assert(q == r * hi + mid) by {
        vstd::arithmetic::div_mod::lemma_fundamental_div_mod(q as int, r as int);
    }
    assert(v == (256 * r) * hi + (256 * mid + low)) by (nonlinear_arith)
        requires
            v == 256 * q + low,
            q == r * hi + mid,
    ;
    assert(0 <= 256 * mid + low < 256 * r) by (nonlinear_arith)
        requires
            0 <= mid < r,
            0 <= low < 256,
    ;
    vstd::arithmetic::div_mod::lemma_fundamental_div_mod_converse(
        v as int,
        (256 * r) as int,
        hi as int,
        (256 * mid + low) as int,
    );
}

/// The number that the `width` bytes of `s` from `at` on hold.
pub fn read_le(s: &[u8], at: usize, width: usize) -> (v: u64)
    requires
        width <= 8,
        at + width <= s.len(),
    ensures
        v == le_value(s@.subrange(at as int, at + width)),
        v < radix(width as nat),
{
    let mut v: u64 = 0;
    let mut k: usize = width;
    assert(s@.subrange(at + width, at + width) =~= Seq::<u8>::empty());
    proof {
        lemma_radix_values();
    }
    while k > 0
        invariant
            k <= width <= 8,
            at + width <= s.len(),
            v == le_value(s@.subrange(at + k, at + width)),
            v < radix((width - k) as nat),
        decreases k,
    {
        k = k - 1;
        proof {
            lemma_radix_values();
            let longer = s@.subrange(at + k, at + width);
            assert(longer.drop_first() =~= s@.subrange(at + k + 1, at + width));
            assert(radix((width - k) as nat) == 256 * radix((width - k - 1) as nat));
        }
        v = s[at + k] as u64 + 256 * v;
    }
    v
}

/// Writes the low `width` bytes of `v` into `s` from `at` on.
pub fn write_le(s: &mut [u8], at: usize, width: usize, v: u64)
    requires
        at + width <= old(s).len(),
    ensures
        final(s)@ == old(s)@.subrange(0, at as int) + le_bytes(v as nat, width as nat) + old(
            s,
        )@.subrange(at + width, old(s)@.len() as int),
{
    let mut rest: u64 = v;
    let mut k: usize = 0;
    let ghost written = Seq::<u8>::empty();
    assert(s@ =~= old(s)@.subrange(0, at as int) + written + old(s)@.subrange(
        at as int,
        old(s)@.len() as int,
    ));
    assert(le_bytes(v as nat, width as nat) =~= written + le_bytes(v as nat, width as nat));
    while k < width
        invariant
            k <= width,
            at + width <= old(s).len(),
            s@.len() == old(s)@.len(),
            written.len() == k,
            s@ == old(s)@.subrange(0, at as int) + written + old(s)@.subrange(
                at + k,
                old(s)@.len() as int,
            ),
            le_bytes(v as nat, width as nat) == written + le_bytes(
                rest as nat,
                (width - k) as nat,
            ),
        decreases width - k,
    {
        let ghost before = s@;
        let low: u8 = (rest % 256) as u8;
        s[at + k] = low;
        proof {
            let next = written.push(low);
            assert(s@ =~= old(s)@.subrange(0, at as int) + next + old(s)@.subrange(
                at + k + 1,
                old(s)@.len() as int,
            ));
            assert(le_bytes(rest as nat, (width - k) as nat) =~= seq![low] + le_bytes(
                (rest / 256) as nat,
                (width - k - 1) as nat,
            ));
            assert(written + (seq![low] + le_bytes((rest / 256) as nat, (width - k - 1) as nat))
                =~= next + le_bytes((rest / 256) as nat, (width - k - 1) as nat));
            written = next;
        }
        rest = rest / 256;
        k = k + 1;
    }
    proof {
        assert(le_bytes(rest as nat, 0) =~= Seq::<u8>::empty());
        assert(written + Seq::<u8>::empty() =~= written);
    }
}

} // verus!
