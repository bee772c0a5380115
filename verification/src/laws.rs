//! The round-trip law of the codec: decoding what the encoder wrote yields
//! the same value and consumes exactly its bytes, so rendering the decoded
//! value shows the value that was encoded.

use vstd::prelude::*;
use crate::wire::{le_of, le_val, pow256, lemma_le_of_len, lemma_le_round_trip, lemma_pow256_pos};
use crate::typedesc::{Prim, TypeDesc, width, is_signed, blen_val, is_flat, desc_of_raw,
    strip_spaces};
use crate::values::{SpecPrim, SpecVal, wf_prim, wf_val, all_wf, all_wf_opt};
use crate::encode::{enc_prim, enc_list, enc_opt_prim, enc_opt_list, enc_inner_list, enc_list_list,
    enc_flat, prim_ok, list_ok, enc_ok};
use crate::decode::{rd_string, rd_prim, rd_elems, rd_opt_prim, rd_opt_elems, rd_inner_list,
    rd_list_elems, rd_bytes, rd_flat};
use crate::render::render_flat;
use crate::textparse::parse_flat_text;
use crate::parser::{prim_ser, dec_outcome, DecOut};
use crate::json::JsonSpec;

verus! {

/// Splits the bytes of a concatenation sitting at position `i`.
proof fn lemma_cat_sub(bs: Seq<u8>, i: int, a: Seq<u8>, b: Seq<u8>)
    requires
        0 <= i,
        i + a.len() + b.len() <= bs.len(),
        bs.subrange(i, i + a.len() + b.len()) == a + b,
    ensures
        bs.subrange(i, i + a.len() as int) == a,
        bs.subrange(i + a.len() as int, i + a.len() + b.len()) == b,
{
    let ab = bs.subrange(i, i + a.len() + b.len());
    assert forall|k: int| 0 <= k < a.len() implies bs.subrange(i, i + a.len() as int)[k]
        == a[k] by {
        assert(ab[k] == bs[i + k]);
        assert(ab[k] == (a + b)[k]);
    }
    assert(bs.subrange(i, i + a.len() as int) =~= a);
    assert forall|k: int| 0 <= k < b.len() implies bs.subrange(
        i + a.len() as int,
        i + a.len() + b.len(),
    )[k] == b[k] by {
        assert(ab[a.len() + k] == bs[i + a.len() + k]);
        assert(ab[a.len() + k] == (a + b)[a.len() + k]);
    }
    assert(bs.subrange(i + a.len() as int, i + a.len() + b.len()) =~= b);
}

proof fn lemma_pow256_4()
    ensures
        pow256(4) == 0x100000000,
{
    reveal_with_fuel(pow256, 5);
}

/// Reading back one encoded primitive gives the value and ends after it.
proof fn lemma_rt_prim(p: Prim, v: SpecPrim, bs: Seq<u8>, i: int)
    requires
        wf_prim(p, v),
        prim_ok(p, v),
        0 <= i,
        i + enc_prim(p, v).len() <= bs.len(),
        bs.subrange(i, i + enc_prim(p, v).len()) == enc_prim(p, v),
    ensures
        rd_prim(p, bs, i) == Some((v, i + enc_prim(p, v).len())),
{
    match v {
        SpecPrim::I(n) => {
            let k = p->Int_0;
            let w = width(k);
            lemma_le_of_len(if n >= 0 {
                n as nat
            } else {
                (n + pow256(w)) as nat
            }, w);
            lemma_pow256_pos(w);
            if n >= 0 {
                assert(n < pow256(w)) by {
                    if is_signed(k) {
                        assert(n <= pow256(w) / 2 - 1);
                    } else {
                        assert(n <= pow256(w) - 1);
                    }
                }
                lemma_le_round_trip(n as nat, w);
                assert(le_val(bs.subrange(i, i + w as int)) == n);
                if is_signed(k) {
                    assert(n < pow256(w) / 2);
                }
            } else {
                assert(is_signed(k));
                let u = (n + pow256(w)) as nat;
                assert(u < pow256(w));
                lemma_le_round_trip(u, w);
                assert(le_val(bs.subrange(i, i + w as int)) == u);
                assert(n >= -(pow256(w) / 2));
                assert(u >= pow256(w) / 2);
            }
        }
        SpecPrim::B(b) => {
            assert(bs.subrange(i, i + 1)[0] == bs[i]);
        }
        SpecPrim::S(cs) => {
            broadcast use vstd::utf8::encode_utf8_valid_utf8, vstd::utf8::encode_utf8_decode_utf8;

            let u = vstd::utf8::encode_utf8(cs);
            let pre = le_of(u.len(), 4);
            lemma_le_of_len(u.len(), 4);
            lemma_cat_sub(bs, i, pre, u);
            lemma_pow256_4();
            lemma_le_round_trip(u.len(), 4);
            assert(le_val(bs.subrange(i, i + 4)) == u.len());
            assert(bs.subrange(i + 4, i + 4 + u.len()) == u);
            assert(rd_string(bs, i) == Some((SpecPrim::S(vstd::utf8::decode_utf8(u)), i + 4
                + u.len())));
            assert(vstd::utf8::decode_utf8(u) == cs);
        }
    }
}

/// Reading back an encoded element list of known count gives the elements.
proof fn lemma_rt_elems(p: Prim, s: Seq<SpecPrim>, bs: Seq<u8>, i: int)
    requires
        all_wf(p, s),
        forall|k: int| 0 <= k < s.len() ==> prim_ok(p, #[trigger] s[k]),
        0 <= i,
        i + enc_list(p, s).len() <= bs.len(),
        bs.subrange(i, i + enc_list(p, s).len()) == enc_list(p, s),
    ensures
        rd_elems(p, bs, i, s.len()) == Some((s, i + enc_list(p, s).len())),
    decreases s.len(),
{
    if s.len() == 0 {
        assert(rd_elems(p, bs, i, 0) == Some((Seq::<SpecPrim>::empty(), i)));
        assert(s =~= Seq::<SpecPrim>::empty());
    } else {
        let e0 = enc_prim(p, s[0]);
        let rest = enc_list(p, s.drop_first());
        assert(enc_list(p, s) == e0 + rest);
        lemma_cat_sub(bs, i, e0, rest);
        lemma_rt_prim(p, s[0], bs, i);
        lemma_rt_elems(p, s.drop_first(), bs, i + e0.len());
        let re = rd_elems(p, bs, i + e0.len(), (s.len() - 1) as nat);
        assert(re == Some((s.drop_first(), i + e0.len() + rest.len())));
        assert(seq![s[0]] + s.drop_first() =~= s);
    }
}

proof fn lemma_rt_opt_elems(p: Prim, s: Seq<Option<SpecPrim>>, bs: Seq<u8>, i: int)
    requires
        all_wf_opt(p, s),
        forall|k: int|
            0 <= k < s.len() ==> (#[trigger] s[k] is Some ==> prim_ok(p, s[k]->0)),
        0 <= i,
        i + enc_opt_list(p, s).len() <= bs.len(),
        bs.subrange(i, i + enc_opt_list(p, s).len()) == enc_opt_list(p, s),
    ensures
        rd_opt_elems(p, bs, i, s.len()) == Some((s, i + enc_opt_list(p, s).len())),
    decreases s.len(),
{
    if s.len() == 0 {
        assert(s =~= Seq::<Option<SpecPrim>>::empty());
    } else {
        let e0 = enc_opt_prim(p, s[0]);
        let rest = enc_opt_list(p, s.drop_first());
        assert(enc_opt_list(p, s) == e0 + rest);
        lemma_cat_sub(bs, i, e0, rest);
        match s[0] {
            None => {
                assert(bs.subrange(i, i + 1)[0] == bs[i]);
                assert(rd_opt_prim(p, bs, i) == Some((None::<SpecPrim>, i + 1)));
            }
            Some(pv) => {
                let ep = enc_prim(p, pv);
                assert(e0 == seq![1u8] + ep);
                lemma_cat_sub(bs, i, seq![1u8], ep);
                assert(bs.subrange(i, i + 1)[0] == bs[i]);
                assert(bs[i] == 1u8);
                lemma_rt_prim(p, pv, bs, i + 1);
            }
        }
        lemma_rt_opt_elems(p, s.drop_first(), bs, i + e0.len());
        assert(seq![s[0]] + s.drop_first() =~= s);
    }
}

proof fn lemma_rt_inner_list(p: Prim, s: Seq<SpecPrim>, bs: Seq<u8>, i: int)
    requires
        all_wf(p, s),
        list_ok(p, s),
        0 <= i,
        i + enc_inner_list(p, s).len() <= bs.len(),
        bs.subrange(i, i + enc_inner_list(p, s).len()) == enc_inner_list(p, s),
    ensures
        rd_inner_list(p, bs, i) == Some((s, i + enc_inner_list(p, s).len())),
{
    let pre = le_of(s.len(), 4);
    let body = enc_list(p, s);
    lemma_le_of_len(s.len(), 4);
    lemma_cat_sub(bs, i, pre, body);
    lemma_pow256_4();
    lemma_le_round_trip(s.len(), 4);
    assert(le_val(bs.subrange(i, i + 4)) == s.len());
    lemma_rt_elems(p, s, bs, i + 4);
}

proof fn lemma_rt_list_elems(p: Prim, s: Seq<Seq<SpecPrim>>, bs: Seq<u8>, i: int)
    requires
        forall|k: int| 0 <= k < s.len() ==> all_wf(p, #[trigger] s[k]),
        forall|k: int| 0 <= k < s.len() ==> list_ok(p, #[trigger] s[k]),
        0 <= i,
        i + enc_list_list(p, s).len() <= bs.len(),
        bs.subrange(i, i + enc_list_list(p, s).len()) == enc_list_list(p, s),
    ensures
        rd_list_elems(p, bs, i, s.len()) == Some((s, i + enc_list_list(p, s).len())),
    decreases s.len(),
{
    if s.len() == 0 {
        assert(s =~= Seq::<Seq<SpecPrim>>::empty());
    } else {
        let e0 = enc_inner_list(p, s[0]);
        let rest = enc_list_list(p, s.drop_first());
        assert(enc_list_list(p, s) == e0 + rest);
        lemma_cat_sub(bs, i, e0, rest);
        lemma_rt_inner_list(p, s[0], bs, i);
        lemma_rt_list_elems(p, s.drop_first(), bs, i + e0.len());
        assert(seq![s[0]] + s.drop_first() =~= s);
    }
}

/// Round trip at a position inside a larger buffer: the decoder started at
/// the encoding's first byte returns exactly the encoded value and stops at
/// the byte after it.
pub proof fn lemma_round_trip_at(d: TypeDesc, v: SpecVal, bs: Seq<u8>, i: int)
    requires
        is_flat(d),
        wf_val(d, v),
        enc_ok(d, v),
        0 <= i,
        i + enc_flat(d, v).len() <= bs.len(),
        bs.subrange(i, i + enc_flat(d, v).len()) == enc_flat(d, v),
    ensures
        rd_flat(d, bs, i) == Some((v, i + enc_flat(d, v).len())),
{
    match d {
        TypeDesc::Prim(p) => {
            lemma_rt_prim(p, v->One_0, bs, i);
        }
        TypeDesc::VecOf(p) => {
            let s = v->List_0;
            lemma_rt_inner_list(p, s, bs, i);
            assert(enc_flat(d, v) == enc_inner_list(p, s));
        }
        TypeDesc::VecVec(p) => {
            let s = v->ListList_0;
            let pre = le_of(s.len(), 4);
            let body = enc_list_list(p, s);
            lemma_le_of_len(s.len(), 4);
            lemma_cat_sub(bs, i, pre, body);
            lemma_pow256_4();
            lemma_le_round_trip(s.len(), 4);
            assert(le_val(bs.subrange(i, i + 4)) == s.len());
            lemma_rt_list_elems(p, s, bs, i + 4);
        }
        TypeDesc::OptOf(p) => {
            match v->OptOne_0 {
                None => {
                    assert(bs.subrange(i, i + 1)[0] == bs[i]);
                }
                Some(pv) => {
                    let ep = enc_prim(p, pv);
                    assert(enc_flat(d, v) == seq![1u8] + ep);
                    lemma_cat_sub(bs, i, seq![1u8], ep);
                    assert(bs.subrange(i, i + 1)[0] == bs[i]);
                    lemma_rt_prim(p, pv, bs, i + 1);
                }
            }
        }
        TypeDesc::VecOpt(p) => {
            let s = v->ListOpt_0;
            let pre = le_of(s.len(), 4);
            let body = enc_opt_list(p, s);
            lemma_le_of_len(s.len(), 4);
            lemma_cat_sub(bs, i, pre, body);
            lemma_pow256_4();
            lemma_le_round_trip(s.len(), 4);
            assert(le_val(bs.subrange(i, i + 4)) == s.len());
            lemma_rt_opt_elems(p, s, bs, i + 4);
        }
        TypeDesc::OptVec(p) => {
            match v->OptList_0 {
                None => {
                    assert(bs.subrange(i, i + 1)[0] == bs[i]);
                }
                Some(s) => {
                    let pre = le_of(s.len(), 4);
                    let body = enc_list(p, s);
                    assert(enc_flat(d, v) == seq![1u8] + (pre + body)) by {
                        assert(seq![1u8] + pre + body =~= seq![1u8] + (pre + body));
                    }
                    lemma_cat_sub(bs, i, seq![1u8], pre + body);
                    assert(bs.subrange(i, i + 1)[0] == bs[i]);
                    lemma_le_of_len(s.len(), 4);
                    lemma_cat_sub(bs, i + 1, pre, body);
                    lemma_pow256_4();
                    lemma_le_round_trip(s.len(), 4);
                    assert(le_val(bs.subrange(i + 1, i + 5)) == s.len());
                    lemma_rt_elems(p, s, bs, i + 5);
                }
            }
        }
        TypeDesc::FixedBytes(b) => {
            let raw = v->Bytes_0;
            assert(rd_bytes(bs, i, blen_val(b)) == Some((bs.subrange(i, i + blen_val(b)), i
                + blen_val(b))));
        }
        TypeDesc::OptFixedBytes(b) => {
            match v->OptBytes_0 {
                None => {
                    assert(bs.subrange(i, i + 1)[0] == bs[i]);
                }
                Some(raw) => {
                    assert(enc_flat(d, v) == seq![1u8] + raw);
                    lemma_cat_sub(bs, i, seq![1u8], raw);
                    assert(bs.subrange(i, i + 1)[0] == bs[i]);
                }
            }
        }
        TypeDesc::Custom => {}
        TypeDesc::VecCustom => {}
    }
}

/// Round trip: for every supported flat type and every well-formed,
/// encodable value, decoding the encoding yields the value back and consumes
/// exactly its bytes.
pub proof fn lemma_round_trip(d: TypeDesc, v: SpecVal)
    requires
        is_flat(d),
        wf_val(d, v),
        enc_ok(d, v),
    ensures
        rd_flat(d, enc_flat(d, v), 0) == Some((v, enc_flat(d, v).len() as int)),
{
    let bs = enc_flat(d, v);
    assert(bs.subrange(0, bs.len() as int) =~= bs);
    lemma_round_trip_at(d, v, bs, 0);
}

/// Round trip at the contract level: whenever the textual encoder accepts a
/// value text for a type name, decoding its bytes against the same type name
/// renders exactly the parsed value, with no byte left over.
pub proof fn lemma_encode_then_decode(ty: Seq<char>, text: Seq<char>)
    requires
        prim_ser(text, ty) is Encoded,
    ensures
        ({
            let d = desc_of_raw(ty)->0;
            let v = parse_flat_text(d, text)->0;
            dec_outcome(prim_ser(text, ty)->Encoded_0, ty) == DecOut::Rendered(
                render_flat(v),
                enc_flat(d, v).len() as int,
            )
        }),
{
    let d = desc_of_raw(ty)->0;
    let v = parse_flat_text(d, text)->0;
    crate::textparse::lemma_parse_flat_wf(d, text);
    lemma_round_trip(d, v);
}

// ---------------------------------------------------------------------------
// Whitespace in type names is immaterial.
// ---------------------------------------------------------------------------

/// Two type-name spellings that differ only in whitespace canonicalize to
/// the same name.
pub proof fn lemma_normalize_whitespace(ty1: Seq<char>, ty2: Seq<char>)
    requires
        strip_spaces(ty1) == strip_spaces(ty2),
    ensures
        crate::typedesc::normalize(ty1) == crate::typedesc::normalize(ty2),
{
}

/// Whitespace in a type name never changes what the textual encoder does:
/// two spellings equal up to whitespace give the same outcome, the error
/// payloads included.
pub proof fn lemma_prim_ser_whitespace(value: Seq<char>, ty1: Seq<char>, ty2: Seq<char>)
    requires
        strip_spaces(ty1) == strip_spaces(ty2),
    ensures
        prim_ser(value, ty1) == prim_ser(value, ty2),
{
    lemma_normalize_whitespace(ty1, ty2);
}

/// In particular, a type name and the same name with its whitespace removed
/// give the same encoding outcome.
pub proof fn lemma_prim_ser_stripped(value: Seq<char>, ty: Seq<char>)
    ensures
        prim_ser(value, ty) == prim_ser(value, strip_spaces(ty)),
{
    crate::typedesc::lemma_strip_no_spaces(ty);
    crate::typedesc::lemma_strip_of_no_spaces(strip_spaces(ty));
    lemma_prim_ser_whitespace(value, ty, strip_spaces(ty));
}

/// The same, for whole argument values: string values go through the
/// textual path, and the Custom dispatch also reads the type name only with
/// its whitespace removed.
pub proof fn lemma_ser_value_whitespace(v: JsonSpec, ty1: Seq<char>, ty2: Seq<char>)
    requires
        strip_spaces(ty1) == strip_spaces(ty2),
    ensures
        crate::parser::ser_value(ty1, v) == crate::parser::ser_value(ty2, v),
{
    match v {
        JsonSpec::Str(text) => {
            lemma_prim_ser_whitespace(text, ty1, ty2);
        }
        JsonSpec::Arr(_) => {
        }
        _ => {}
    }
}

/// The same, for decoding against a type name.
pub proof fn lemma_dec_outcome_whitespace(bs: Seq<u8>, ty1: Seq<char>, ty2: Seq<char>)
    requires
        strip_spaces(ty1) == strip_spaces(ty2),
    ensures
        dec_outcome(bs, ty1) == dec_outcome(bs, ty2),
{
    lemma_normalize_whitespace(ty1, ty2);
}

} // verus!
