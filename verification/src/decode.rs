//! The binary decoder: reads the wire layout of a flat type from a byte
//! buffer, advancing a cursor; bytes past what the type consumes are ignored.

use vstd::prelude::*;
use crate::wire::{le_val, pow256, read_le, lemma_le_val_bound, lemma_pow256_mono};
use crate::typedesc::{Prim, TypeDesc, IntKind, ByteLen, width, is_signed, blen_val};
use crate::values::{SpecPrim, SpecVal, PrimVal, FlatVal, views_of, views_of_opt, views_of_list};
use crate::textparse::lemma_kind_bounds;

verus! {

/// Reads one integer of kind `k`: its width in little-endian bytes, with the
/// top bit as sign for signed kinds.
pub open spec fn rd_int(k: IntKind, bs: Seq<u8>, i: int) -> Option<(SpecPrim, int)> {
    let w = width(k) as int;
    if 0 <= i && i + w <= bs.len() {
        let u = le_val(bs.subrange(i, i + w));
        let n: int = if is_signed(k) && u >= pow256(width(k)) / 2 {
            u - pow256(width(k))
        } else {
            u as int
        };
        Some((SpecPrim::I(n), i + w))
    } else {
        None
    }
}

/// Reads one boolean: one byte that must be 0 or 1.
pub open spec fn rd_bool(bs: Seq<u8>, i: int) -> Option<(SpecPrim, int)> {
    if 0 <= i < bs.len() {
        if bs[i] == 0 {
            Some((SpecPrim::B(false), i + 1))
        } else if bs[i] == 1 {
            Some((SpecPrim::B(true), i + 1))
        } else {
            None
        }
    } else {
        None
    }
}

/// Reads a 4-byte little-endian count.
pub open spec fn rd_count(bs: Seq<u8>, i: int) -> Option<(nat, int)> {
    if 0 <= i && i + 4 <= bs.len() {
        Some((le_val(bs.subrange(i, i + 4)), i + 4))
    } else {
        None
    }
}

/// Reads one string: a 4-byte byte length, then that many bytes, which must
/// be valid UTF-8.
pub open spec fn rd_string(bs: Seq<u8>, i: int) -> Option<(SpecPrim, int)> {
    match rd_count(bs, i) {
        None => None,
        Some(ne) => {
            let n = ne.0 as int;
            let j = ne.1;
            if j + n <= bs.len() && vstd::utf8::valid_utf8(bs.subrange(j, j + n)) {
                Some((SpecPrim::S(vstd::utf8::decode_utf8(bs.subrange(j, j + n))), j + n))
            } else {
                None
            }
        },
    }
}

pub open spec fn rd_prim(p: Prim, bs: Seq<u8>, i: int) -> Option<(SpecPrim, int)> {
    match p {
        Prim::Int(k) => rd_int(k, bs, i),
        Prim::Bool => rd_bool(bs, i),
        Prim::Str => rd_string(bs, i),
    }
}

/// Reads `n` primitive values in sequence.
pub open spec fn rd_elems(p: Prim, bs: Seq<u8>, i: int, n: nat) -> Option<(Seq<SpecPrim>, int)>
    decreases n,
{
    if n == 0 {
        Some((Seq::empty(), i))
    } else {
        match rd_prim(p, bs, i) {
            None => None,
            Some(ve) => match rd_elems(p, bs, ve.1, (n - 1) as nat) {
                None => None,
                Some(re) => Some((seq![ve.0] + re.0, re.1)),
            },
        }
    }
}

/// Reads one optional primitive: a tag byte that must be 0 or 1, then the
/// value when the tag is 1.
pub open spec fn rd_opt_prim(p: Prim, bs: Seq<u8>, i: int) -> Option<(Option<SpecPrim>, int)> {
    if 0 <= i < bs.len() {
        if bs[i] == 0 {
            Some((None, i + 1))
        } else if bs[i] == 1 {
            match rd_prim(p, bs, i + 1) {
                None => None,
                Some(ve) => Some((Some(ve.0), ve.1)),
            }
        } else {
            None
        }
    } else {
        None
    }
}

pub open spec fn rd_opt_elems(p: Prim, bs: Seq<u8>, i: int, n: nat) -> Option<
    (Seq<Option<SpecPrim>>, int),
>
    decreases n,
{
    if n == 0 {
        Some((Seq::empty(), i))
    } else {
        match rd_opt_prim(p, bs, i) {
            None => None,
            Some(ve) => match rd_opt_elems(p, bs, ve.1, (n - 1) as nat) {
                None => None,
                Some(re) => Some((seq![ve.0] + re.0, re.1)),
            },
        }
    }
}

/// Reads one inner vector: a 4-byte count, then its elements.
pub open spec fn rd_inner_list(p: Prim, bs: Seq<u8>, i: int) -> Option<(Seq<SpecPrim>, int)> {
    match rd_count(bs, i) {
        None => None,
        Some(ne) => rd_elems(p, bs, ne.1, ne.0),
    }
}

pub open spec fn rd_list_elems(p: Prim, bs: Seq<u8>, i: int, n: nat) -> Option<
    (Seq<Seq<SpecPrim>>, int),
>
    decreases n,
{
    if n == 0 {
        Some((Seq::empty(), i))
    } else {
        match rd_inner_list(p, bs, i) {
            None => None,
            Some(ve) => match rd_list_elems(p, bs, ve.1, (n - 1) as nat) {
                None => None,
                Some(re) => Some((seq![ve.0] + re.0, re.1)),
            },
        }
    }
}

/// Reads `n` raw bytes.
pub open spec fn rd_bytes(bs: Seq<u8>, i: int, n: nat) -> Option<(Seq<u8>, int)> {
    if 0 <= i && i + n <= bs.len() {
        Some((bs.subrange(i, i + n), i + n))
    } else {
        None
    }
}

/// Reads a whole flat value at cursor `i`; yields the value and the cursor
/// after it.  `None` is the malformed-bytes outcome.
pub open spec fn rd_flat(d: TypeDesc, bs: Seq<u8>, i: int) -> Option<(SpecVal, int)> {
    match d {
        TypeDesc::Prim(p) => match rd_prim(p, bs, i) {
            None => None,
            Some(ve) => Some((SpecVal::One(ve.0), ve.1)),
        },
        TypeDesc::VecOf(p) => match rd_count(bs, i) {
            None => None,
            Some(ne) => match rd_elems(p, bs, ne.1, ne.0) {
                None => None,
                Some(re) => Some((SpecVal::List(re.0), re.1)),
            },
        },
        TypeDesc::VecVec(p) => match rd_count(bs, i) {
            None => None,
            Some(ne) => match rd_list_elems(p, bs, ne.1, ne.0) {
                None => None,
                Some(re) => Some((SpecVal::ListList(re.0), re.1)),
            },
        },
        TypeDesc::OptOf(p) => match rd_opt_prim(p, bs, i) {
            None => None,
            Some(ve) => Some((SpecVal::OptOne(ve.0), ve.1)),
        },
        TypeDesc::VecOpt(p) => match rd_count(bs, i) {
            None => None,
            Some(ne) => match rd_opt_elems(p, bs, ne.1, ne.0) {
                None => None,
                Some(re) => Some((SpecVal::ListOpt(re.0), re.1)),
            },
        },
        TypeDesc::OptVec(p) => {
            if 0 <= i < bs.len() {
                if bs[i] == 0 {
                    Some((SpecVal::OptList(None), i + 1))
                } else if bs[i] == 1 {
                    match rd_count(bs, i + 1) {
                        None => None,
                        Some(ne) => match rd_elems(p, bs, ne.1, ne.0) {
                            None => None,
                            Some(re) => Some((SpecVal::OptList(Some(re.0)), re.1)),
                        },
                    }
                } else {
                    None
                }
            } else {
                None
            }
        },
        TypeDesc::FixedBytes(b) => match rd_bytes(bs, i, blen_val(b)) {
            None => None,
            Some(re) => Some((SpecVal::Bytes(re.0), re.1)),
        },
        TypeDesc::OptFixedBytes(b) => {
            if 0 <= i < bs.len() {
                if bs[i] == 0 {
                    Some((SpecVal::OptBytes(None), i + 1))
                } else if bs[i] == 1 {
                    match rd_bytes(bs, i + 1, blen_val(b)) {
                        None => None,
                        Some(re) => Some((SpecVal::OptBytes(Some(re.0)), re.1)),
                    }
                } else {
                    None
                }
            } else {
                None
            }
        },
        TypeDesc::Custom => None,
        TypeDesc::VecCustom => None,
    }
}

// ---------------------------------------------------------------------------
// Executable decoder.
// ---------------------------------------------------------------------------

/// Copies the bytes of `s` in positions `from..to`.
fn subbytes(s: &Vec<u8>, from: usize, to: usize) -> (r: Vec<u8>)
    requires
        from <= to <= s@.len(),
    ensures
        r@ == s@.subrange(from as int, to as int),
{
    let mut r: Vec<u8> = Vec::new();
    let mut i: usize = from;
    while i < to
        invariant
            from <= i <= to <= s@.len(),
            r@ == s@.subrange(from as int, i as int),
        decreases to - i,
    {
        r.push(s[i]);
        i = i + 1;
        proof {
            assert(r@ =~= s@.subrange(from as int, i as int));
        }
    }
    r
}

fn width_exec(k: IntKind) -> (r: usize)
    ensures
        r as nat == width(k),
{
    match k {
        IntKind::I8 => 1,
        IntKind::I16 => 2,
        IntKind::I32 => 4,
        IntKind::I64 => 8,
        IntKind::I128 => 16,
        IntKind::U8 => 1,
        IntKind::U16 => 2,
        IntKind::U32 => 4,
        IntKind::U64 => 8,
        IntKind::U128 => 16,
    }
}

fn half_bound(k: IntKind) -> (r: u128)
    requires
        is_signed(k),
    ensures
        r as nat == pow256(width(k)) / 2,
{
    proof {
        lemma_kind_bounds(k);
    }
    match k {
        IntKind::I8 => 128,
        IntKind::I16 => 32768,
        IntKind::I32 => 2147483648,
        IntKind::I64 => 9223372036854775808,
        _ => 170141183460469231731687303715884105728,
    }
}

fn int_rd(k: IntKind, bs: &Vec<u8>, i: usize) -> (r: Option<(PrimVal, usize)>)
    requires
        i <= bs@.len(),
    ensures
        match r {
            Some(ve) => rd_int(k, bs@, i as int) == Some((ve.0@, ve.1 as int)) && i <= ve.1
                <= bs@.len(),
            None => rd_int(k, bs@, i as int) is None,
        },
{
    let w = width_exec(k);
    if bs.len() - i < w {
        return None;
    }
    let u = read_le(bs, i, w);
    proof {
        lemma_le_val_bound(bs@.subrange(i as int, i as int + w as int));
        lemma_kind_bounds(k);
    }
    if is_signed_exec(k) {
        let h = half_bound(k);
        let v: i128 = if u >= h {
            // subtract 256^w in two's complement
            if w == 16 {
                let x = #[verifier::truncate] (u as i128);
                proof {
                    assert(u >= 0x80000000000000000000000000000000 ==> x
                        == u - 0x100000000000000000000000000000000) by (bit_vector)
                        requires
                            x == #[verifier::truncate] (u as i128),
                    ;
                    assert(pow256(16) == 0x100000000000000000000000000000000) by {
                        reveal_with_fuel(pow256, 17);
                    }
                }
                x
            } else {
                proof {
                    lemma_pow256_mono(width(k), 15);
                    assert(pow256(15) <= 0x7fffffffffffffffffffffffffffffff) by {
                        reveal_with_fuel(pow256, 17);
                    }
                }
                (u as i128) - (h as i128) - (h as i128)
            }
        } else {
            u as i128
        };
        Some((PrimVal::I(v), i + w))
    } else {
        Some((PrimVal::U(u), i + w))
    }
}

fn is_signed_exec(k: IntKind) -> (r: bool)
    ensures
        r == is_signed(k),
{
    match k {
        IntKind::I8 => true,
        IntKind::I16 => true,
        IntKind::I32 => true,
        IntKind::I64 => true,
        IntKind::I128 => true,
        _ => false,
    }
}

fn prim_rd(p: Prim, bs: &Vec<u8>, i: usize) -> (r: Option<(PrimVal, usize)>)
    requires
        i <= bs@.len(),
    ensures
        match r {
            Some(ve) => rd_prim(p, bs@, i as int) == Some((ve.0@, ve.1 as int)) && i <= ve.1
                <= bs@.len(),
            None => rd_prim(p, bs@, i as int) is None,
        },
{
    match p {
        Prim::Int(k) => int_rd(k, bs, i),
        Prim::Bool => {
            if i < bs.len() {
                if bs[i] == 0 {
                    Some((PrimVal::B(false), i + 1))
                } else if bs[i] == 1 {
                    Some((PrimVal::B(true), i + 1))
                } else {
                    None
                }
            } else {
                None
            }
        }
        Prim::Str => {
            if bs.len() - i < 4 {
                return None;
            }
            let n128 = read_le(bs, i, 4);
            proof {
                lemma_le_val_bound(bs@.subrange(i as int, i as int + 4));
                assert(pow256(4) == 0x100000000) by {
                    reveal_with_fuel(pow256, 5);
                }
            }
            let n = n128 as usize;
            let j = i + 4;
            if bs.len() - j < n {
                return None;
            }
            let raw = subbytes(bs, j, j + n);
            match crate::text::string_from_utf8(raw) {
                Some(st) => Some((PrimVal::S(st), j + n)),
                None => None,
            }
        }
    }
}

/// A cons step of reading a counted element list.
pub open spec fn cons_elems(prefix: Seq<SpecPrim>, r: Option<(Seq<SpecPrim>, int)>) -> Option<
    (Seq<SpecPrim>, int),
> {
    match r {
        None => None,
        Some(re) => Some((prefix + re.0, re.1)),
    }
}

fn elems_rd(p: Prim, bs: &Vec<u8>, i: usize, n: u64) -> (r: Option<(Vec<PrimVal>, usize)>)
    requires
        i <= bs@.len(),
    ensures
        match r {
            Some(ve) => rd_elems(p, bs@, i as int, n as nat) == Some(
                (views_of(ve.0@), ve.1 as int),
            ) && i <= ve.1 <= bs@.len(),
            None => rd_elems(p, bs@, i as int, n as nat) is None,
        },
{
    let mut out: Vec<PrimVal> = Vec::new();
    let mut cur: usize = i;
    let mut t: u64 = n;
    proof {
        assert(views_of(out@) =~= Seq::<SpecPrim>::empty());
    }
    while t > 0
        invariant
            i <= cur <= bs@.len(),
            rd_elems(p, bs@, i as int, n as nat) == cons_elems(
                views_of(out@),
                rd_elems(p, bs@, cur as int, t as nat),
            ),
        decreases t,
    {
        match prim_rd(p, bs, cur) {
            None => {
                return None;
            }
            Some((v, j)) => {
                let ghost prev = views_of(out@);
                let ghost oldv = out@;
                let ghost rest = rd_elems(p, bs@, j as int, (t - 1) as nat);
                out.push(v);
                proof {
                    crate::textparse::lemma_views_push(oldv, v);
                    match rest {
                        None => {}
                        Some(re) => {
                            assert(prev + (seq![v@] + re.0) =~= prev.push(v@) + re.0);
                        }
                    }
                }
                cur = j;
                t = t - 1;
            }
        }
    }
    proof {
        assert(views_of(out@) + Seq::<SpecPrim>::empty() =~= views_of(out@));
    }
    Some((out, cur))
}

fn opt_elems_rd(p: Prim, bs: &Vec<u8>, i: usize, n: u64) -> (r: Option<
    (Vec<Option<PrimVal>>, usize),
>)
    requires
        i <= bs@.len(),
    ensures
        match r {
            Some(ve) => rd_opt_elems(p, bs@, i as int, n as nat) == Some(
                (views_of_opt(ve.0@), ve.1 as int),
            ) && i <= ve.1 <= bs@.len(),
            None => rd_opt_elems(p, bs@, i as int, n as nat) is None,
        },
{
    let mut out: Vec<Option<PrimVal>> = Vec::new();
    let mut cur: usize = i;
    let mut t: u64 = n;
    proof {
        assert(views_of_opt(out@) =~= Seq::<Option<SpecPrim>>::empty());
    }
    while t > 0
        invariant
            i <= cur <= bs@.len(),
            ({
                let r0 = rd_opt_elems(p, bs@, cur as int, t as nat);
                rd_opt_elems(p, bs@, i as int, n as nat) == (match r0 {
                    None => None,
                    Some(re) => Some((views_of_opt(out@) + re.0, re.1)),
                })
            }),
        decreases t,
    {
        let ov: Option<PrimVal>;
        let j: usize;
        if cur < bs.len() {
            if bs[cur] == 0 {
                ov = None;
                j = cur + 1;
            } else if bs[cur] == 1 {
                match prim_rd(p, bs, cur + 1) {
                    None => {
                        return None;
                    }
                    Some((v, j2)) => {
                        ov = Some(v);
                        j = j2;
                    }
                }
            } else {
                return None;
            }
        } else {
            return None;
        }
        let ghost prev = views_of_opt(out@);
        let ghost oldv = out@;
        let ghost sv: Option<SpecPrim> = match &ov {
            Some(pv) => Some(pv@),
            None => None,
        };
        let ghost rest = rd_opt_elems(p, bs@, j as int, (t - 1) as nat);
        proof {
            assert(rd_opt_prim(p, bs@, cur as int) == Some((sv, j as int)));
        }
        out.push(ov);
        proof {
            crate::textparse::lemma_views_opt_push(oldv, ov);
            match rest {
                None => {}
                Some(re) => {
                    assert(prev + (seq![sv] + re.0) =~= prev.push(sv) + re.0);
                }
            }
        }
        cur = j;
        t = t - 1;
    }
    proof {
        assert(views_of_opt(out@) + Seq::<Option<SpecPrim>>::empty() =~= views_of_opt(out@));
    }
    Some((out, cur))
}

fn inner_list_rd(p: Prim, bs: &Vec<u8>, i: usize) -> (r: Option<(Vec<PrimVal>, usize)>)
    requires
        i <= bs@.len(),
    ensures
        match r {
            Some(ve) => rd_inner_list(p, bs@, i as int) == Some((views_of(ve.0@), ve.1 as int))
                && i <= ve.1 <= bs@.len(),
            None => rd_inner_list(p, bs@, i as int) is None,
        },
{
    if bs.len() - i < 4 {
        return None;
    }
    let n128 = read_le(bs, i, 4);
    proof {
        lemma_le_val_bound(bs@.subrange(i as int, i as int + 4));
        assert(pow256(4) == 0x100000000) by {
            reveal_with_fuel(pow256, 5);
        }
    }
    elems_rd(p, bs, i + 4, n128 as u64)
}

fn list_elems_rd(p: Prim, bs: &Vec<u8>, i: usize, n: u64) -> (r: Option<
    (Vec<Vec<PrimVal>>, usize),
>)
    requires
        i <= bs@.len(),
    ensures
        match r {
            Some(ve) => rd_list_elems(p, bs@, i as int, n as nat) == Some(
                (views_of_list(ve.0@), ve.1 as int),
            ) && i <= ve.1 <= bs@.len(),
            None => rd_list_elems(p, bs@, i as int, n as nat) is None,
        },
{
    let mut out: Vec<Vec<PrimVal>> = Vec::new();
    let mut cur: usize = i;
    let mut t: u64 = n;
    proof {
        assert(views_of_list(out@) =~= Seq::<Seq<SpecPrim>>::empty());
    }
    while t > 0
        invariant
            i <= cur <= bs@.len(),
            ({
                let r0 = rd_list_elems(p, bs@, cur as int, t as nat);
                rd_list_elems(p, bs@, i as int, n as nat) == (match r0 {
                    None => None,
                    Some(re) => Some((views_of_list(out@) + re.0, re.1)),
                })
            }),
        decreases t,
    {
        match inner_list_rd(p, bs, cur) {
            None => {
                return None;
            }
            Some((v, j)) => {
                let ghost prev = views_of_list(out@);
                let ghost oldv = out@;
                let ghost sv = views_of(v@);
                let ghost rest = rd_list_elems(p, bs@, j as int, (t - 1) as nat);
                out.push(v);
                proof {
                    crate::textparse::lemma_views_list_push(oldv, v);
                    match rest {
                        None => {}
                        Some(re) => {
                            assert(prev + (seq![sv] + re.0) =~= prev.push(sv) + re.0);
                        }
                    }
                }
                cur = j;
                t = t - 1;
            }
        }
    }
    proof {
        assert(views_of_list(out@) + Seq::<Seq<SpecPrim>>::empty() =~= views_of_list(out@));
    }
    Some((out, cur))
}

fn blen_exec(b: ByteLen) -> (r: usize)
    ensures
        r as nat == blen_val(b),
{
    match b {
        ByteLen::B32 => 32,
        ByteLen::B64 => 64,
    }
}

/// Reads a whole flat value at cursor `i` of the buffer.
#[verifier::rlimit(80)]
pub fn decode_value(d: TypeDesc, bs: &Vec<u8>, i: usize) -> (r: Option<(FlatVal, usize)>)
    requires
        i <= bs@.len(),
    ensures
        match r {
            Some(ve) => rd_flat(d, bs@, i as int) == Some((ve.0@, ve.1 as int)) && i <= ve.1
                <= bs@.len(),
            None => rd_flat(d, bs@, i as int) is None,
        },
{
    match d {
        TypeDesc::Prim(p) => match prim_rd(p, bs, i) {
            Some((v, j)) => Some((FlatVal::One(v), j)),
            None => None,
        },
        TypeDesc::VecOf(p) => {
            if bs.len() - i < 4 {
                return None;
            }
            let n128 = read_le(bs, i, 4);
            proof {
                lemma_le_val_bound(bs@.subrange(i as int, i as int + 4));
                assert(pow256(4) == 0x100000000) by {
                    reveal_with_fuel(pow256, 5);
                }
            }
            match elems_rd(p, bs, i + 4, n128 as u64) {
                Some((v, j)) => Some((FlatVal::List(v), j)),
                None => None,
            }
        }
        TypeDesc::VecVec(p) => {
            if bs.len() - i < 4 {
                return None;
            }
            let n128 = read_le(bs, i, 4);
            proof {
                lemma_le_val_bound(bs@.subrange(i as int, i as int + 4));
                assert(pow256(4) == 0x100000000) by {
                    reveal_with_fuel(pow256, 5);
                }
            }
            match list_elems_rd(p, bs, i + 4, n128 as u64) {
                Some((v, j)) => Some((FlatVal::ListList(v), j)),
                None => None,
            }
        }
        TypeDesc::OptOf(p) => {
            if i < bs.len() {
                if bs[i] == 0 {
                    Some((FlatVal::OptOne(None), i + 1))
                } else if bs[i] == 1 {
                    match prim_rd(p, bs, i + 1) {
                        Some((v, j)) => Some((FlatVal::OptOne(Some(v)), j)),
                        None => None,
                    }
                } else {
                    None
                }
            } else {
                None
            }
        }
        TypeDesc::VecOpt(p) => {
            if bs.len() - i < 4 {
                return None;
            }
            let n128 = read_le(bs, i, 4);
            proof {
                lemma_le_val_bound(bs@.subrange(i as int, i as int + 4));
                assert(pow256(4) == 0x100000000) by {
                    reveal_with_fuel(pow256, 5);
                }
            }
            match opt_elems_rd(p, bs, i + 4, n128 as u64) {
                Some((v, j)) => Some((FlatVal::ListOpt(v), j)),
                None => None,
            }
        }
        TypeDesc::OptVec(p) => {
            if i < bs.len() {
                if bs[i] == 0 {
                    Some((FlatVal::OptList(None), i + 1))
                } else if bs[i] == 1 {
                    if bs.len() - (i + 1) < 4 {
                        return None;
                    }
                    let n128 = read_le(bs, i + 1, 4);
                    proof {
                        lemma_le_val_bound(bs@.subrange(i as int + 1, i as int + 5));
                        assert(pow256(4) == 0x100000000) by {
                            reveal_with_fuel(pow256, 5);
                        }
                    }
                    match elems_rd(p, bs, i + 5, n128 as u64) {
                        Some((v, j)) => Some((FlatVal::OptList(Some(v)), j)),
                        None => None,
                    }
                } else {
                    None
                }
            } else {
                None
            }
        }
        TypeDesc::FixedBytes(b) => {
            let n = blen_exec(b);
            if bs.len() - i < n {
                return None;
            }
            let raw = subbytes(bs, i, i + n);
            Some((FlatVal::Bytes(raw), i + n))
        }
        TypeDesc::OptFixedBytes(b) => {
            if i < bs.len() {
                if bs[i] == 0 {
                    Some((FlatVal::OptBytes(None), i + 1))
                } else if bs[i] == 1 {
                    let n = blen_exec(b);
                    if bs.len() - (i + 1) < n {
                        return None;
                    }
                    let raw = subbytes(bs, i + 1, i + 1 + n);
                    Some((FlatVal::OptBytes(Some(raw)), i + 1 + n))
                } else {
                    None
                }
            } else {
                None
            }
        }
        TypeDesc::Custom => None,
        TypeDesc::VecCustom => None,
    }
}

} // verus!
