//! The binary encoder: the bit-exact wire layout of every flat value, and the
//! executable encoder proved against it.
//!
//! Layout rules: integers are little-endian at their declared width; a `bool`
//! is one byte, 0 or 1; a `String` is a 4-byte little-endian byte-length
//! prefix followed by its UTF-8 bytes; a `Vec` is a 4-byte little-endian
//! element count followed by the encoded elements; an `Option` is a 1-byte
//! tag, 0 for absent and 1 followed by the encoding when present; a fixed
//! byte array is its raw bytes, with no prefix.

use vstd::prelude::*;
use crate::wire::{le_of, le_of_int, pow256, write_le, lemma_le_of_add_multiple, lemma_pow256_pos};
use crate::typedesc::{Prim, TypeDesc, IntKind, width, is_signed, in_range, kind_min, kind_max, blen_val};
use crate::values::{SpecPrim, SpecVal, PrimVal, FlatVal, views_of, views_of_opt, views_of_list,
    wf_prim, wf_val, all_wf, all_wf_opt};
use crate::textparse::lemma_kind_bounds;

verus! {

/// The wire bytes of one primitive value.
pub open spec fn enc_prim(p: Prim, v: SpecPrim) -> Seq<u8> {
    match v {
        SpecPrim::I(n) => le_of_int(n, width(p->Int_0)),
        SpecPrim::B(b) => seq![if b { 1u8 } else { 0u8 }],
        SpecPrim::S(cs) => le_of(vstd::utf8::encode_utf8(cs).len(), 4) + vstd::utf8::encode_utf8(
            cs,
        ),
    }
}

/// The concatenated wire bytes of a list of primitive values.
pub open spec fn enc_list(p: Prim, s: Seq<SpecPrim>) -> Seq<u8>
    decreases s.len(),
{
    if s.len() == 0 {
        Seq::empty()
    } else {
        enc_prim(p, s[0]) + enc_list(p, s.drop_first())
    }
}

/// The wire bytes of one optional primitive: a tag byte, then the value.
pub open spec fn enc_opt_prim(p: Prim, o: Option<SpecPrim>) -> Seq<u8> {
    match o {
        None => seq![0u8],
        Some(v) => seq![1u8] + enc_prim(p, v),
    }
}

pub open spec fn enc_opt_list(p: Prim, s: Seq<Option<SpecPrim>>) -> Seq<u8>
    decreases s.len(),
{
    if s.len() == 0 {
        Seq::empty()
    } else {
        enc_opt_prim(p, s[0]) + enc_opt_list(p, s.drop_first())
    }
}

/// The wire bytes of one inner vector: a 4-byte count, then its elements.
pub open spec fn enc_inner_list(p: Prim, s: Seq<SpecPrim>) -> Seq<u8> {
    le_of(s.len(), 4) + enc_list(p, s)
}

pub open spec fn enc_list_list(p: Prim, s: Seq<Seq<SpecPrim>>) -> Seq<u8>
    decreases s.len(),
{
    if s.len() == 0 {
        Seq::empty()
    } else {
        enc_inner_list(p, s[0]) + enc_list_list(p, s.drop_first())
    }
}

/// The wire bytes of a whole flat value.
pub open spec fn enc_flat(d: TypeDesc, v: SpecVal) -> Seq<u8> {
    match d {
        TypeDesc::Prim(p) => enc_prim(p, v->One_0),
        TypeDesc::VecOf(p) => le_of(v->List_0.len(), 4) + enc_list(p, v->List_0),
        TypeDesc::VecVec(p) => le_of(v->ListList_0.len(), 4) + enc_list_list(p, v->ListList_0),
        TypeDesc::OptOf(p) => enc_opt_prim(p, v->OptOne_0),
        TypeDesc::VecOpt(p) => le_of(v->ListOpt_0.len(), 4) + enc_opt_list(p, v->ListOpt_0),
        TypeDesc::OptVec(p) => match v->OptList_0 {
            None => seq![0u8],
            Some(l) => seq![1u8] + le_of(l.len(), 4) + enc_list(p, l),
        },
        TypeDesc::FixedBytes(_) => v->Bytes_0,
        TypeDesc::OptFixedBytes(_) => match v->OptBytes_0 {
            None => seq![0u8],
            Some(b) => seq![1u8] + b,
        },
        TypeDesc::Custom => Seq::empty(),
        TypeDesc::VecCustom => Seq::empty(),
    }
}

/// A string value whose UTF-8 byte length fits the 4-byte prefix.
pub open spec fn prim_ok(p: Prim, v: SpecPrim) -> bool {
    match v {
        SpecPrim::S(cs) => vstd::utf8::encode_utf8(cs).len() < 0x100000000,
        _ => true,
    }
}

pub open spec fn list_ok(p: Prim, s: Seq<SpecPrim>) -> bool {
    s.len() < 0x100000000 && forall|i: int| 0 <= i < s.len() ==> prim_ok(p, #[trigger] s[i])
}

pub open spec fn opt_list_ok(p: Prim, s: Seq<Option<SpecPrim>>) -> bool {
    s.len() < 0x100000000 && forall|i: int|
        0 <= i < s.len() ==> (#[trigger] s[i] is Some ==> prim_ok(p, s[i]->0))
}

/// Every element count and string byte length inside the value fits its
/// 4-byte field; encoding is defined exactly for such values.
pub open spec fn enc_ok(d: TypeDesc, v: SpecVal) -> bool {
    match d {
        TypeDesc::Prim(p) => prim_ok(p, v->One_0),
        TypeDesc::VecOf(p) => list_ok(p, v->List_0),
        TypeDesc::VecVec(p) => v->ListList_0.len() < 0x100000000 && forall|i: int|
            0 <= i < v->ListList_0.len() ==> list_ok(p, #[trigger] v->ListList_0[i]),
        TypeDesc::OptOf(p) => match v->OptOne_0 {
            None => true,
            Some(pv) => prim_ok(p, pv),
        },
        TypeDesc::VecOpt(p) => opt_list_ok(p, v->ListOpt_0),
        TypeDesc::OptVec(p) => match v->OptList_0 {
            None => true,
            Some(l) => list_ok(p, l),
        },
        TypeDesc::FixedBytes(_) => true,
        TypeDesc::OptFixedBytes(_) => true,
        TypeDesc::Custom => false,
        TypeDesc::VecCustom => false,
    }
}

pub proof fn lemma_enc_list_snoc(p: Prim, s: Seq<SpecPrim>, x: SpecPrim)
    ensures
        enc_list(p, s.push(x)) == enc_list(p, s) + enc_prim(p, x),
    decreases s.len(),
{
    if s.len() == 0 {
        reveal_with_fuel(enc_list, 3);
        assert(s.push(x).drop_first() =~= Seq::<SpecPrim>::empty());
        assert(enc_list(p, s.push(x)) =~= enc_prim(p, x));
        assert(enc_list(p, s) + enc_prim(p, x) =~= enc_prim(p, x));
    } else {
        assert(s.push(x).drop_first() =~= s.drop_first().push(x));
        lemma_enc_list_snoc(p, s.drop_first(), x);
        assert(enc_list(p, s.push(x)) =~= enc_list(p, s) + enc_prim(p, x));
    }
}

pub proof fn lemma_enc_opt_list_snoc(p: Prim, s: Seq<Option<SpecPrim>>, x: Option<SpecPrim>)
    ensures
        enc_opt_list(p, s.push(x)) == enc_opt_list(p, s) + enc_opt_prim(p, x),
    decreases s.len(),
{
    if s.len() == 0 {
        reveal_with_fuel(enc_opt_list, 3);
        assert(s.push(x).drop_first() =~= Seq::<Option<SpecPrim>>::empty());
        assert(enc_opt_list(p, s.push(x)) =~= enc_opt_list(p, s) + enc_opt_prim(p, x));
    } else {
        assert(s.push(x).drop_first() =~= s.drop_first().push(x));
        lemma_enc_opt_list_snoc(p, s.drop_first(), x);
        assert(enc_opt_list(p, s.push(x)) =~= enc_opt_list(p, s) + enc_opt_prim(p, x));
    }
}

pub proof fn lemma_enc_list_list_snoc(p: Prim, s: Seq<Seq<SpecPrim>>, x: Seq<SpecPrim>)
    ensures
        enc_list_list(p, s.push(x)) == enc_list_list(p, s) + enc_inner_list(p, x),
    decreases s.len(),
{
    if s.len() == 0 {
        reveal_with_fuel(enc_list_list, 3);
        assert(s.push(x).drop_first() =~= Seq::<Seq<SpecPrim>>::empty());
        assert(enc_list_list(p, s.push(x)) =~= enc_list_list(p, s) + enc_inner_list(p, x));
    } else {
        assert(s.push(x).drop_first() =~= s.drop_first().push(x));
        lemma_enc_list_list_snoc(p, s.drop_first(), x);
        assert(enc_list_list(p, s.push(x)) =~= enc_list_list(p, s) + enc_inner_list(p, x));
    }
}

/// Appends the bytes of `src` to `out`.
fn copy_bytes(src: &Vec<u8>, out: &mut Vec<u8>)
    ensures
        final(out)@ == old(out)@ + src@,
{
    let mut i: usize = 0;
    while i < src.len()
        invariant
            i <= src@.len(),
            out@ == old(out)@ + src@.subrange(0, i as int),
        decreases src@.len() - i,
    {
        out.push(src[i]);
        i = i + 1;
        proof {
            assert(out@ =~= old(out)@ + src@.subrange(0, i as int));
        }
    }
    proof {
        assert(out@ =~= old(out)@ + src@);
    }
}

/// `le_of` of a signed value equals `le_of` of its truncating `u128` cast.
proof fn lemma_signed_cast_bytes(x: i128, w: nat)
    requires
        1 <= w <= 16,
        -(pow256(w) / 2) <= x < pow256(w),
    ensures
        le_of_int(x as int, w) == le_of(x as u128 as nat, w),
{
    let c = x as u128;
    if x >= 0 {
        assert(c == x) by (bit_vector)
            requires
                x >= 0,
                c == x as u128,
        ;
    } else {
        assert(c == x + 0x100000000000000000000000000000000) by (bit_vector)
            requires
                x < 0,
                c == x as u128,
        ;
        lemma_pow256_16_split(w);
        let q = pow256((16 - w) as nat);
        lemma_pow256_pos((16 - w) as nat);
        lemma_pow256_pos(w);
        assert(c == x + q * pow256(w));
        assert(c == (x + pow256(w)) + ((q - 1) as nat) * pow256(w)) by (nonlinear_arith)
            requires
                c == x + q * pow256(w),
                q >= 1,
        ;
        lemma_le_of_add_multiple((x + pow256(w)) as nat, (q - 1) as nat, w);
        assert((x + pow256(w)) as nat + ((q - 1) as nat) * pow256(w) == c as nat);
    }
}

/// 2^128 splits as pow256(w) times pow256(16 - w).
proof fn lemma_pow256_16_split(w: nat)
    requires
        w <= 16,
    ensures
        0x100000000000000000000000000000000 == pow256((16 - w) as nat) * pow256(w),
{
    lemma_pow256_add((16 - w) as nat, w);
    reveal_with_fuel(pow256, 17);
}

pub proof fn lemma_pow256_add(a: nat, b: nat)
    ensures
        pow256((a + b) as nat) == pow256(a) * pow256(b),
    decreases a,
{
    if a == 0 {
        assert(pow256(a) == 1);
        assert((a + b) as nat == b);
        assert(pow256(a) * pow256(b) == pow256(b)) by (nonlinear_arith)
            requires
                pow256(a) == 1,
        ;
    } else {
        lemma_pow256_add((a - 1) as nat, b);
        let pa1 = pow256((a - 1) as nat);
        let pb = pow256(b);
        assert(pow256((a + b) as nat) == 256 * pow256(((a - 1) + b) as nat));
        assert(pow256(((a - 1) + b) as nat) == pa1 * pb);
        assert(pow256(a) == 256 * pa1);
        assert(256 * (pa1 * pb) == (256 * pa1) * pb) by (nonlinear_arith);
        assert(pow256((a + b) as nat) == pow256(a) * pow256(b));
    }
}

fn width_exec(k: IntKind) -> (r: usize)
    ensures
        r as nat == width(k),
{
    match k {
        IntKind::I8 => 1,
        IntKind::I16 => 2,
        IntKind::I32 => 4,
        IntKind::I64 => 8,
        IntKind::I128 => 16,
        IntKind::U8 => 1,
        IntKind::U16 => 2,
        IntKind::U32 => 4,
        IntKind::U64 => 8,
        IntKind::U128 => 16,
    }
}

/// Writes one primitive value; `false` means its string is too long for the
/// 4-byte length prefix, and nothing was written.
fn enc_prim_exec(p: Prim, pv: &PrimVal, out: &mut Vec<u8>) -> (r: bool)
    requires
        wf_prim(p, pv@),
    ensures
        r == prim_ok(p, pv@),
        r ==> final(out)@ == old(out)@ + enc_prim(p, pv@),
        !r ==> final(out)@ == old(out)@,
{
    match pv {
        PrimVal::I(x) => {
            let k = match p {
                Prim::Int(k) => k,
                _ => {
                    proof {
                        assert(false);
                    }
                    IntKind::I8
                }
            };
            let w = width_exec(k);
            proof {
                lemma_kind_bounds(k);
                crate::wire::lemma_pow256_mono(1, width(k));
                lemma_signed_cast_bytes(*x, width(k));
            }
            let c = #[verifier::truncate] (*x as u128);
            write_le(out, c, w);
            true
        }
        PrimVal::U(m) => {
            let k = match p {
                Prim::Int(k) => k,
                _ => {
                    proof {
                        assert(false);
                    }
                    IntKind::U8
                }
            };
            let w = width_exec(k);
            write_le(out, *m, w);
            true
        }
        PrimVal::B(b) => {
            out.push(if *b { 1u8 } else { 0u8 });
            proof {
                assert(out@ =~= old(out)@ + enc_prim(p, pv@));
            }
            true
        }
        PrimVal::S(st) => {
            let bytes = st.as_str().as_bytes_vec();
            if bytes.len() as u64 >= 4294967296u64 {
                false
            } else {
                let n = bytes.len();
                write_le(out, n as u128, 4);
                let mut b2 = bytes;
                out.append(&mut b2);
                proof {
                    assert(out@ =~= old(out)@ + enc_prim(p, pv@));
                }
                true
            }
        }
    }
}

/// Writes the elements of a primitive list, without the count.
fn enc_list_exec(p: Prim, items: &Vec<PrimVal>, out: &mut Vec<u8>) -> (r: bool)
    requires
        all_wf(p, views_of(items@)),
    ensures
        r == (forall|i: int|
            0 <= i < items@.len() ==> prim_ok(p, #[trigger] views_of(items@)[i])),
        r ==> final(out)@ == old(out)@ + enc_list(p, views_of(items@)),
{
    let mut i: usize = 0;
    while i < items.len()
        invariant
            i <= items@.len(),
            all_wf(p, views_of(items@)),
            out@ == old(out)@ + enc_list(p, views_of(items@).subrange(0, i as int)),
            forall|j: int| 0 <= j < i ==> prim_ok(p, #[trigger] views_of(items@)[j]),
        decreases items@.len() - i,
    {
        proof {
            assert(views_of(items@)[i as int] == items@[i as int]@);
        }
        if !enc_prim_exec(p, &items[i], out) {
            return false;
        }
        proof {
            let vs = views_of(items@);
            assert(vs.subrange(0, i as int).push(vs[i as int]) =~= vs.subrange(0, i as int + 1));
            lemma_enc_list_snoc(p, vs.subrange(0, i as int), vs[i as int]);
        }
        i = i + 1;
    }
    proof {
        assert(views_of(items@).subrange(0, items@.len() as int) =~= views_of(items@));
    }
    true
}

/// Writes an inner vector: its 4-byte count, then its elements.
fn enc_inner_list_exec(p: Prim, items: &Vec<PrimVal>, out: &mut Vec<u8>) -> (r: bool)
    requires
        all_wf(p, views_of(items@)),
    ensures
        r == list_ok(p, views_of(items@)),
        r ==> final(out)@ == old(out)@ + enc_inner_list(p, views_of(items@)),
{
    if items.len() as u64 >= 4294967296u64 {
        return false;
    }
    write_le(out, items.len() as u128, 4);
    let ghost mid = out@;
    if enc_list_exec(p, items, out) {
        proof {
            assert(out@ =~= old(out)@ + enc_inner_list(p, views_of(items@)));
        }
        true
    } else {
        false
    }
}

fn enc_opt_list_exec(p: Prim, items: &Vec<Option<PrimVal>>, out: &mut Vec<u8>) -> (r: bool)
    requires
        all_wf_opt(p, views_of_opt(items@)),
    ensures
        r == (forall|i: int|
            0 <= i < items@.len() ==> (#[trigger] views_of_opt(items@)[i] is Some ==> prim_ok(
                p,
                views_of_opt(items@)[i]->0,
            ))),
        r ==> final(out)@ == old(out)@ + enc_opt_list(p, views_of_opt(items@)),
{
    let mut i: usize = 0;
    while i < items.len()
        invariant
            i <= items@.len(),
            all_wf_opt(p, views_of_opt(items@)),
            out@ == old(out)@ + enc_opt_list(p, views_of_opt(items@).subrange(0, i as int)),
            forall|j: int|
                0 <= j < i ==> (#[trigger] views_of_opt(items@)[j] is Some ==> prim_ok(
                    p,
                    views_of_opt(items@)[j]->0,
                )),
        decreases items@.len() - i,
    {
        let ghost vs = views_of_opt(items@);
        proof {
            assert(vs[i as int] == (match items@[i as int] {
                Some(pv) => Some(pv@),
                None => None,
            }));
        }
        match &items[i] {
            None => {
                out.push(0u8);
            }
            Some(pv) => {
                out.push(1u8);
                if !enc_prim_exec(p, pv, out) {
                    return false;
                }
            }
        }
        proof {
            assert(vs.subrange(0, i as int).push(vs[i as int]) =~= vs.subrange(0, i as int + 1));
            lemma_enc_opt_list_snoc(p, vs.subrange(0, i as int), vs[i as int]);
            assert(out@ =~= old(out)@ + enc_opt_list(p, vs.subrange(0, i as int + 1)));
        }
        i = i + 1;
    }
    proof {
        assert(views_of_opt(items@).subrange(0, items@.len() as int) =~= views_of_opt(items@));
    }
    true
}

fn enc_list_list_exec(p: Prim, items: &Vec<Vec<PrimVal>>, out: &mut Vec<u8>) -> (r: bool)
    requires
        forall|i: int| 0 <= i < items@.len() ==> all_wf(p, #[trigger] views_of_list(items@)[i]),
    ensures
        r == (forall|i: int|
            0 <= i < items@.len() ==> list_ok(p, #[trigger] views_of_list(items@)[i])),
        r ==> final(out)@ == old(out)@ + enc_list_list(p, views_of_list(items@)),
{
    let mut i: usize = 0;
    while i < items.len()
        invariant
            i <= items@.len(),
            forall|j: int| 0 <= j < items@.len() ==> all_wf(p, #[trigger] views_of_list(items@)[j]),
            out@ == old(out)@ + enc_list_list(p, views_of_list(items@).subrange(0, i as int)),
            forall|j: int| 0 <= j < i ==> list_ok(p, #[trigger] views_of_list(items@)[j]),
        decreases items@.len() - i,
    {
        let ghost vs = views_of_list(items@);
        proof {
            assert(vs[i as int] == views_of(items@[i as int]@));
        }
        if !enc_inner_list_exec(p, &items[i], out) {
            return false;
        }
        proof {
            assert(vs.subrange(0, i as int).push(vs[i as int]) =~= vs.subrange(0, i as int + 1));
            lemma_enc_list_list_snoc(p, vs.subrange(0, i as int), vs[i as int]);
            assert(out@ =~= old(out)@ + enc_list_list(p, vs.subrange(0, i as int + 1)));
        }
        i = i + 1;
    }
    proof {
        assert(views_of_list(items@).subrange(0, items@.len() as int) =~= views_of_list(items@));
    }
    true
}

/// Encodes a well-formed flat value to its wire bytes.  `None` exactly when
/// some element count or string byte length cannot fit its 4-byte field.
pub fn encode_value(d: TypeDesc, v: &FlatVal) -> (r: Option<Vec<u8>>)
    requires
        wf_val(d, v@),
    ensures
        r is Some <==> enc_ok(d, v@),
        r is Some ==> r->0@ == enc_flat(d, v@),
{
    let mut out: Vec<u8> = Vec::new();
    let ok: bool = match (d, v) {
        (TypeDesc::Prim(p), FlatVal::One(pv)) => enc_prim_exec(p, pv, &mut out),
        (TypeDesc::VecOf(p), FlatVal::List(items)) => {
            if items.len() as u64 >= 4294967296u64 {
                false
            } else {
                write_le(&mut out, items.len() as u128, 4);
                enc_list_exec(p, items, &mut out)
            }
        }
        (TypeDesc::VecVec(p), FlatVal::ListList(items)) => {
            if items.len() as u64 >= 4294967296u64 {
                false
            } else {
                write_le(&mut out, items.len() as u128, 4);
                proof {
                    assert(v@->ListList_0 == views_of_list(items@));
                    assert forall|i: int| 0 <= i < items@.len() implies all_wf(
                        p,
                        #[trigger] views_of_list(items@)[i],
                    ) by {
                        assert(views_of_list(items@)[i] == v@->ListList_0[i]);
                    }
                }
                enc_list_list_exec(p, items, &mut out)
            }
        }
        (TypeDesc::OptOf(p), FlatVal::OptOne(o)) => match o {
            None => {
                out.push(0u8);
                true
            }
            Some(pv) => {
                out.push(1u8);
                enc_prim_exec(p, pv, &mut out)
            }
        },
        (TypeDesc::VecOpt(p), FlatVal::ListOpt(items)) => {
            if items.len() as u64 >= 4294967296u64 {
                false
            } else {
                write_le(&mut out, items.len() as u128, 4);
                enc_opt_list_exec(p, items, &mut out)
            }
        }
        (TypeDesc::OptVec(p), FlatVal::OptList(o)) => match o {
            None => {
                out.push(0u8);
                true
            }
            Some(items) => {
                out.push(1u8);
                if items.len() as u64 >= 4294967296u64 {
                    false
                } else {
                    write_le(&mut out, items.len() as u128, 4);
                    enc_list_exec(p, items, &mut out)
                }
            }
        },
        (TypeDesc::FixedBytes(_), FlatVal::Bytes(b)) => {
            copy_bytes(b, &mut out);
            true
        }
        (TypeDesc::OptFixedBytes(_), FlatVal::OptBytes(o)) => match o {
            None => {
                out.push(0u8);
                true
            }
            Some(b) => {
                out.push(1u8);
                copy_bytes(b, &mut out);
                true
            }
        },
        _ => {
            proof {
                assert(false);
            }
            false
        }
    };
    if ok {
        proof {
            assert(out@ =~= enc_flat(d, v@));
        }
        Some(out)
    } else {
        None
    }
}

} // verus!
