//! The byte-level wire format primitives: fixed-width little-endian numbers.

use vstd::prelude::*;

verus! {

/// 256 to the power `w`: the number of values a `w`-byte field can hold.
pub open spec fn pow256(w: nat) -> nat
    decreases w,
{
    if w == 0 {
        1
    } else {
        256 * pow256((w - 1) as nat)
    }
}

/// The `w` little-endian bytes of `v` (modulo 256^w): least significant first.
pub open spec fn le_of(v: nat, w: nat) -> Seq<u8>
    decreases w,
{
    if w == 0 {
        Seq::empty()
    } else {
        seq![(v % 256) as u8] + le_of(v / 256, (w - 1) as nat)
    }
}

/// The natural number whose little-endian bytes are `s`.
pub open spec fn le_val(s: Seq<u8>) -> nat
    decreases s.len(),
{
    if s.len() == 0 {
        0nat
    } else {
        (s[0] + 256 * le_val(s.drop_first())) as nat
    }
}

/// The `w` little-endian bytes of a signed value in two's complement.
pub open spec fn le_of_int(v: int, w: nat) -> Seq<u8> {
    if v >= 0 {
        le_of(v as nat, w)
    } else {
        le_of((v + pow256(w)) as nat, w)
    }
}

pub proof fn lemma_pow256_pos(w: nat)
    ensures
        pow256(w) >= 1,
    decreases w,
{
    if w > 0 {
        lemma_pow256_pos((w - 1) as nat);
    }
}

pub proof fn lemma_le_of_len(v: nat, w: nat)
    ensures
        le_of(v, w).len() == w,
    decreases w,
{
    if w > 0 {
        lemma_le_of_len(v / 256, (w - 1) as nat);
    }
}

pub proof fn lemma_le_val_bound(s: Seq<u8>)
    ensures
        le_val(s) < pow256(s.len()),
    decreases s.len(),
{
    if s.len() > 0 {
        lemma_le_val_bound(s.drop_first());
    }
}

/// Writing `w` bytes of a value below 256^w and reading them back is the identity.
pub proof fn lemma_le_round_trip(v: nat, w: nat)
    requires
        v < pow256(w),
    ensures
        le_val(le_of(v, w)) == v,
    decreases w,
{
    if w > 0 {
        assert(v / 256 < pow256((w - 1) as nat)) by (nonlinear_arith)
            requires
                v < 256 * pow256((w - 1) as nat),
        ;
        lemma_le_round_trip(v / 256, (w - 1) as nat);
        assert(le_of(v, w).drop_first() =~= le_of(v / 256, (w - 1) as nat));
    }
}

/// `le_of` depends only on the value modulo 256^w.
pub proof fn lemma_le_of_add_multiple(v: nat, k: nat, w: nat)
    ensures
        le_of(v + k * pow256(w), w) =~= le_of(v, w),
    decreases w,
{
    if w > 0 {
        let m = pow256((w - 1) as nat);
        let v2 = v + k * pow256(w);
        lemma_pow256_pos((w - 1) as nat);
        assert(v2 == v + (k * m) * 256) by (nonlinear_arith)
            requires
                v2 == v + k * (256 * m),
        ;
        assert(v2 % 256 == v % 256) by {
            vstd::arithmetic::div_mod::lemma_mod_multiples_vanish((k * m) as int, v as int, 256);
            assert(256 * (k * m) + v == v2) by (nonlinear_arith)
                requires
                    v2 == v + (k * m) * 256,
            ;
        }
        assert(v2 / 256 == v / 256 + k * m) by {
            vstd::arithmetic::div_mod::lemma_hoist_over_denominator(v as int, (k * m) as int, 256);
        }
        lemma_le_of_add_multiple(v / 256, k, (w - 1) as nat);
        assert(le_of(v + k * pow256(w), w) =~= le_of(v, w));
    }
}

/// Reads `w` little-endian bytes of `buf` starting at `i`, as an unsigned value.
pub fn read_le(buf: &Vec<u8>, i: usize, w: usize) -> (r: u128)
    requires
        w <= 16,
        i + w <= buf@.len(),
    ensures
        r == le_val(buf@.subrange(i as int, i as int + w as int)),
    decreases w,
{
    if w == 0 {
        proof {
            assert(buf@.subrange(i as int, i as int).len() == 0);
        }
        0
    } else {
        let n = buf.len();
        let lo = buf[i];
        let hi = read_le(buf, i + 1, w - 1);
        proof {
            let s = buf@.subrange(i as int, i as int + w as int);
            assert(s.drop_first() =~= buf@.subrange(i as int + 1, i as int + w as int));
            lemma_le_val_bound(s.drop_first());
            lemma_pow256_mono((w - 1) as nat, 15);
            assert(pow256(15) == 0x1000000000000000000000000000000) by {
                reveal_with_fuel(pow256, 16);
            }
            assert(le_val(s) == (s[0] + 256 * le_val(s.drop_first())) as nat);
            assert(s[0] == lo);
            assert(lo + 256 * hi <= 0xffffffffffffffffffffffffffffffff) by (nonlinear_arith)
                requires
                    hi < pow256(15),
                    pow256(15) == 0x1000000000000000000000000000000,
                    lo < 256,
            ;
        }
        lo as u128 + 256 * hi
    }
}

pub proof fn lemma_pow256_mono(a: nat, b: nat)
    requires
        a <= b,
    ensures
        pow256(a) <= pow256(b),
    decreases b,
{
    if a < b && b > 0 {
        lemma_pow256_mono(a, (b - 1) as nat);
        lemma_pow256_pos((b - 1) as nat);
    }
}

/// Appends the `w` little-endian bytes of `v` to `out`.
pub fn write_le(out: &mut Vec<u8>, v: u128, w: usize)
    ensures
        final(out)@ == old(out)@ + le_of(v as nat, w as nat),
    decreases w,
{
    if w == 0 {
        proof {
            assert(out@ =~= old(out)@ + le_of(v as nat, 0));
        }
    } else {
        out.push((v % 256) as u8);
        write_le(out, v / 256, w - 1);
        proof {
            assert(out@ =~= old(out)@ + le_of(v as nat, w as nat));
        }
    }
}

} // verus!
