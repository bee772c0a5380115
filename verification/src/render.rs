//! Rendering of decoded values as text: decimal integers, `true`/`false`,
//! quoted strings with escaped quotes, backslashes and control characters,
//! `[e1, e2, ...]` for vectors and fixed arrays, and `Some(...)`/`None` for
//! options.

use vstd::prelude::*;
use crate::text::{dec_int, dec_digits, hex_digits, push_dec_i128, push_dec_u128, push_hex_u32,
    str_to_chars};
use crate::values::{SpecPrim, SpecVal, PrimVal, FlatVal, views_of, views_of_opt, views_of_list};

verus! {

/// How one character of a string value is shown inside its quotes: quotes
/// and backslashes get a backslash, the common control characters their
/// short escapes, and the remaining C0 controls, DEL and the C1 controls a
/// `\u{..}` escape.
pub open spec fn esc_char(c: char) -> Seq<char> {
    if c == '"' {
        seq!['\\', '"']
    } else if c == '\\' {
        seq!['\\', '\\']
    } else if c == '\n' {
        seq!['\\', 'n']
    } else if c == '\r' {
        seq!['\\', 'r']
    } else if c == '\t' {
        seq!['\\', 't']
    } else if (c as u32) < 0x20 || (0x7f <= c as u32 && c as u32 <= 0x9f) {
        seq!['\\', 'u', '{'] + hex_digits(c as u32 as nat) + seq!['}']
    } else {
        seq![c]
    }
}

pub open spec fn esc_str(s: Seq<char>) -> Seq<char>
    decreases s.len(),
{
    if s.len() == 0 {
        Seq::empty()
    } else {
        esc_char(s[0]) + esc_str(s.drop_first())
    }
}

/// The text of one primitive value.
pub open spec fn render_prim(v: SpecPrim) -> Seq<char> {
    match v {
        SpecPrim::I(n) => dec_int(n),
        SpecPrim::B(b) => if b {
            seq!['t', 'r', 'u', 'e']
        } else {
            seq!['f', 'a', 'l', 's', 'e']
        },
        SpecPrim::S(cs) => seq!['"'] + esc_str(cs) + seq!['"'],
    }
}

/// The comma-separated texts of the elements from index `i` on.
pub open spec fn items_from(s: Seq<SpecPrim>, i: int) -> Seq<char>
    decreases s.len() - i when 0 <= i <= s.len()
{
    if i >= s.len() {
        Seq::empty()
    } else if i + 1 == s.len() {
        render_prim(s[i])
    } else {
        render_prim(s[i]) + seq![',', ' '] + items_from(s, i + 1)
    }
}

pub open spec fn render_list(s: Seq<SpecPrim>) -> Seq<char> {
    seq!['['] + items_from(s, 0) + seq![']']
}

pub open spec fn render_opt(o: Option<SpecPrim>) -> Seq<char> {
    match o {
        None => seq!['N', 'o', 'n', 'e'],
        Some(v) => seq!['S', 'o', 'm', 'e', '('] + render_prim(v) + seq![')'],
    }
}

pub open spec fn opt_items_from(s: Seq<Option<SpecPrim>>, i: int) -> Seq<char>
    decreases s.len() - i when 0 <= i <= s.len()
{
    if i >= s.len() {
        Seq::empty()
    } else if i + 1 == s.len() {
        render_opt(s[i])
    } else {
        render_opt(s[i]) + seq![',', ' '] + opt_items_from(s, i + 1)
    }
}

pub open spec fn list_items_from(s: Seq<Seq<SpecPrim>>, i: int) -> Seq<char>
    decreases s.len() - i when 0 <= i <= s.len()
{
    if i >= s.len() {
        Seq::empty()
    } else if i + 1 == s.len() {
        render_list(s[i])
    } else {
        render_list(s[i]) + seq![',', ' '] + list_items_from(s, i + 1)
    }
}

pub open spec fn byte_items_from(s: Seq<u8>, i: int) -> Seq<char>
    decreases s.len() - i when 0 <= i <= s.len()
{
    if i >= s.len() {
        Seq::empty()
    } else if i + 1 == s.len() {
        dec_digits(s[i] as nat)
    } else {
        dec_digits(s[i] as nat) + seq![',', ' '] + byte_items_from(s, i + 1)
    }
}

pub open spec fn render_bytes(s: Seq<u8>) -> Seq<char> {
    seq!['['] + byte_items_from(s, 0) + seq![']']
}

/// The text of a whole decoded value.
pub open spec fn render_flat(v: SpecVal) -> Seq<char> {
    match v {
        SpecVal::One(pv) => render_prim(pv),
        SpecVal::List(s) => render_list(s),
        SpecVal::ListList(s) => seq!['['] + list_items_from(s, 0) + seq![']'],
        SpecVal::OptOne(o) => render_opt(o),
        SpecVal::ListOpt(s) => seq!['['] + opt_items_from(s, 0) + seq![']'],
        SpecVal::OptList(o) => match o {
            None => seq!['N', 'o', 'n', 'e'],
            Some(s) => seq!['S', 'o', 'm', 'e', '('] + render_list(s) + seq![')'],
        },
        SpecVal::Bytes(b) => render_bytes(b),
        SpecVal::OptBytes(o) => match o {
            None => seq!['N', 'o', 'n', 'e'],
            Some(b) => seq!['S', 'o', 'm', 'e', '('] + render_bytes(b) + seq![')'],
        },
    }
}

// ---------------------------------------------------------------------------
// Executable rendering.
// ---------------------------------------------------------------------------

fn push_esc_char(out: &mut Vec<char>, c: char)
    ensures
        final(out)@ == old(out)@ + esc_char(c),
{
    if c == '"' {
        out.push('\\');
        out.push('"');
    } else if c == '\\' {
        out.push('\\');
        out.push('\\');
    } else if c == '\n' {
        out.push('\\');
        out.push('n');
    } else if c == '\r' {
        out.push('\\');
        out.push('r');
    } else if c == '\t' {
        out.push('\\');
        out.push('t');
    } else if (c as u32) < 0x20 || (0x7f <= (c as u32) && (c as u32) <= 0x9f) {
        out.push('\\');
        out.push('u');
        out.push('{');
        push_hex_u32(out, c as u32);
        out.push('}');
    } else {
        out.push(c);
    }
    proof {
        assert(out@ =~= old(out)@ + esc_char(c));
    }
}

fn push_esc_str(out: &mut Vec<char>, cs: &Vec<char>, i: usize)
    requires
        i <= cs@.len(),
    ensures
        final(out)@ == old(out)@ + esc_str(cs@.subrange(i as int, cs@.len() as int)),
    decreases cs@.len() - i,
{
    if i < cs.len() {
        push_esc_char(out, cs[i]);
        push_esc_str(out, cs, i + 1);
        proof {
            let rest = cs@.subrange(i as int, cs@.len() as int);
            assert(rest[0] == cs@[i as int]);
            assert(rest.drop_first() =~= cs@.subrange(i as int + 1, cs@.len() as int));
            assert(out@ =~= old(out)@ + esc_str(rest));
        }
    } else {
        proof {
            assert(cs@.subrange(i as int, cs@.len() as int).len() == 0);
            assert(out@ =~= old(out)@ + esc_str(cs@.subrange(i as int, cs@.len() as int)));
        }
    }
}

fn push_prim(out: &mut Vec<char>, pv: &PrimVal)
    ensures
        final(out)@ == old(out)@ + render_prim(pv@),
{
    match pv {
        PrimVal::I(x) => {
            push_dec_i128(out, *x);
        }
        PrimVal::U(m) => {
            push_dec_u128(out, *m);
            proof {
                assert(dec_int(*m as int) == dec_digits(*m as nat));
            }
        }
        PrimVal::B(b) => {
            if *b {
                out.push('t');
                out.push('r');
                out.push('u');
                out.push('e');
            } else {
                out.push('f');
                out.push('a');
                out.push('l');
                out.push('s');
                out.push('e');
            }
            proof {
                assert(out@ =~= old(out)@ + render_prim(pv@));
            }
        }
        PrimVal::S(st) => {
            let cs = str_to_chars(st.as_str());
            out.push('"');
            push_esc_str(out, &cs, 0);
            out.push('"');
            proof {
                assert(cs@.subrange(0, cs@.len() as int) =~= st@);
                assert(out@ =~= old(out)@ + render_prim(pv@));
            }
        }
    }
}

fn push_items(out: &mut Vec<char>, items: &Vec<PrimVal>, i: usize)
    requires
        i <= items@.len(),
    ensures
        final(out)@ == old(out)@ + items_from(views_of(items@), i as int),
    decreases items@.len() - i,
{
    if i < items.len() {
        proof {
            assert(views_of(items@)[i as int] == items@[i as int]@);
        }
        push_prim(out, &items[i]);
        if i + 1 < items.len() {
            out.push(',');
            out.push(' ');
            push_items(out, items, i + 1);
        }
        proof {
            assert(out@ =~= old(out)@ + items_from(views_of(items@), i as int));
        }
    } else {
        proof {
            assert(out@ =~= old(out)@ + items_from(views_of(items@), i as int));
        }
    }
}

fn push_list(out: &mut Vec<char>, items: &Vec<PrimVal>)
    ensures
        final(out)@ == old(out)@ + render_list(views_of(items@)),
{
    out.push('[');
    push_items(out, items, 0);
    out.push(']');
    proof {
        assert(out@ =~= old(out)@ + render_list(views_of(items@)));
    }
}

fn push_opt_items(out: &mut Vec<char>, items: &Vec<Option<PrimVal>>, i: usize)
    requires
        i <= items@.len(),
    ensures
        final(out)@ == old(out)@ + opt_items_from(views_of_opt(items@), i as int),
    decreases items@.len() - i,
{
    if i < items.len() {
        let ghost sv = views_of_opt(items@)[i as int];
        match &items[i] {
            None => {
                out.push('N');
                out.push('o');
                out.push('n');
                out.push('e');
                proof {
                    assert(out@ =~= old(out)@ + render_opt(sv));
                }
            }
            Some(pv) => {
                out.push('S');
                out.push('o');
                out.push('m');
                out.push('e');
                out.push('(');
                push_prim(out, pv);
                out.push(')');
                proof {
                    assert(out@ =~= old(out)@ + render_opt(sv));
                }
            }
        }
        if i + 1 < items.len() {
            out.push(',');
            out.push(' ');
            push_opt_items(out, items, i + 1);
        }
        proof {
            assert(out@ =~= old(out)@ + opt_items_from(views_of_opt(items@), i as int));
        }
    } else {
        proof {
            assert(out@ =~= old(out)@ + opt_items_from(views_of_opt(items@), i as int));
        }
    }
}

fn push_list_items(out: &mut Vec<char>, items: &Vec<Vec<PrimVal>>, i: usize)
    requires
        i <= items@.len(),
    ensures
        final(out)@ == old(out)@ + list_items_from(views_of_list(items@), i as int),
    decreases items@.len() - i,
{
    if i < items.len() {
        proof {
            assert(views_of_list(items@)[i as int] == views_of(items@[i as int]@));
        }
        push_list(out, &items[i]);
        if i + 1 < items.len() {
            out.push(',');
            out.push(' ');
            push_list_items(out, items, i + 1);
        }
        proof {
            assert(out@ =~= old(out)@ + list_items_from(views_of_list(items@), i as int));
        }
    } else {
        proof {
            assert(out@ =~= old(out)@ + list_items_from(views_of_list(items@), i as int));
        }
    }
}

fn push_byte_items(out: &mut Vec<char>, items: &Vec<u8>, i: usize)
    requires
        i <= items@.len(),
    ensures
        final(out)@ == old(out)@ + byte_items_from(items@, i as int),
    decreases items@.len() - i,
{
    if i < items.len() {
        push_dec_u128(out, items[i] as u128);
        if i + 1 < items.len() {
            out.push(',');
            out.push(' ');
            push_byte_items(out, items, i + 1);
        }
        proof {
            assert(out@ =~= old(out)@ + byte_items_from(items@, i as int));
        }
    } else {
        proof {
            assert(out@ =~= old(out)@ + byte_items_from(items@, i as int));
        }
    }
}

fn push_bytes(out: &mut Vec<char>, items: &Vec<u8>)
    ensures
        final(out)@ == old(out)@ + render_bytes(items@),
{
    out.push('[');
    push_byte_items(out, items, 0);
    out.push(']');
    proof {
        assert(out@ =~= old(out)@ + render_bytes(items@));
    }
}

fn push_none(out: &mut Vec<char>)
    ensures
        final(out)@ == old(out)@ + seq!['N', 'o', 'n', 'e'],
{
    out.push('N');
    out.push('o');
    out.push('n');
    out.push('e');
    proof {
        assert(out@ =~= old(out)@ + seq!['N', 'o', 'n', 'e']);
    }
}

fn push_some_open(out: &mut Vec<char>)
    ensures
        final(out)@ == old(out)@ + seq!['S', 'o', 'm', 'e', '('],
{
    out.push('S');
    out.push('o');
    out.push('m');
    out.push('e');
    out.push('(');
    proof {
        assert(out@ =~= old(out)@ + seq!['S', 'o', 'm', 'e', '(']);
    }
}

/// Renders a decoded value as text.
pub fn render_value(v: &FlatVal) -> (r: Vec<char>)
    ensures
        r@ == render_flat(v@),
{
    let mut out: Vec<char> = Vec::new();
    match v {
        FlatVal::One(pv) => {
            push_prim(&mut out, pv);
        }
        FlatVal::List(items) => {
            push_list(&mut out, items);
        }
        FlatVal::ListList(items) => {
            out.push('[');
            push_list_items(&mut out, items, 0);
            out.push(']');
        }
        FlatVal::OptOne(o) => match o {
            None => {
                push_none(&mut out);
            }
            Some(pv) => {
                push_some_open(&mut out);
                push_prim(&mut out, pv);
                out.push(')');
            }
        },
        FlatVal::ListOpt(items) => {
            out.push('[');
            push_opt_items(&mut out, items, 0);
            out.push(']');
        }
        FlatVal::OptList(o) => match o {
            None => {
                push_none(&mut out);
            }
            Some(items) => {
                push_some_open(&mut out);
                push_list(&mut out, items);
                out.push(')');
            }
        },
        FlatVal::Bytes(b) => {
            push_bytes(&mut out, b);
        }
        FlatVal::OptBytes(o) => match o {
            None => {
                push_none(&mut out);
            }
            Some(b) => {
                push_some_open(&mut out);
                push_bytes(&mut out, b);
                out.push(')');
            }
        },
    }
    proof {
        assert(out@ =~= render_flat(v@));
    }
    out
}

} // verus!
