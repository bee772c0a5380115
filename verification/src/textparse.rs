//! The textual-value decoding stage of the encoder: every CLI-supplied
//! argument value arrives as JSON text, and this module parses that text
//! against a flat type descriptor into a typed value.  The grammar accepted
//! (a JSON value of the declared shape) is defined by the specification
//! functions here; the executable parser is proved to return exactly what
//! they say.

use vstd::prelude::*;
use crate::typedesc::{Prim, TypeDesc, IntKind, ByteLen, is_space, in_range, is_signed, blen_val, kind_min, kind_max};
use crate::values::{SpecPrim, SpecVal, PrimVal, FlatVal, views_of, views_of_opt, views_of_list, wf_prim, wf_val, all_wf, all_wf_opt};

verus! {

/// The first index at or after `i` holding a non-whitespace character.
pub open spec fn skip_ws(s: Seq<char>, i: int) -> int
    decreases s.len() - i when 0 <= i <= s.len()
{
    if i >= s.len() {
        i
    } else if is_space(s[i]) {
        skip_ws(s, i + 1)
    } else {
        i
    }
}

pub open spec fn is_digit(c: char) -> bool {
    '0' <= c <= '9'
}

pub open spec fn digit_val(c: char) -> int {
    c as int - 48
}

/// Scans a run of decimal digits starting at `i`, accumulating onto `acc`;
/// yields the value and the index after the run.
pub open spec fn scan_digits(s: Seq<char>, i: int, acc: int) -> (int, int)
    decreases s.len() - i when 0 <= i <= s.len()
{
    if i < s.len() && is_digit(s[i]) {
        scan_digits(s, i + 1, acc * 10 + digit_val(s[i]))
    } else {
        (acc, i)
    }
}

/// Parses a JSON integer token: an optional minus sign and a digit run with
/// no superfluous leading zero.  Yields the signed value and the index after
/// the token.
pub open spec fn parse_int_text(s: Seq<char>, i: int) -> Option<(int, int)> {
    let neg = i < s.len() && s[i] == '-';
    let j = if neg { i + 1 } else { i };
    if j < s.len() && is_digit(s[j]) {
        let ve = scan_digits(s, j, 0);
        if s[j] == '0' && ve.1 > j + 1 {
            None
        } else {
            Some((if neg { -ve.0 } else { ve.0 }, ve.1))
        }
    } else {
        None
    }
}

/// The characters of `pat` stand at position `i` of `s`.
pub open spec fn has_at(s: Seq<char>, i: int, pat: Seq<char>) -> bool {
    0 <= i && i + pat.len() <= s.len() && s.subrange(i, i + pat.len()) == pat
}

pub open spec fn null_at(s: Seq<char>, i: int) -> bool {
    has_at(s, i, seq!['n', 'u', 'l', 'l'])
}

pub open spec fn parse_bool_text(s: Seq<char>, i: int) -> Option<(bool, int)> {
    if has_at(s, i, seq!['t', 'r', 'u', 'e']) {
        Some((true, i + 4))
    } else if has_at(s, i, seq!['f', 'a', 'l', 's', 'e']) {
        Some((false, i + 5))
    } else {
        None
    }
}

/// The value of a hexadecimal digit character, or -1.
pub open spec fn hexv(c: char) -> int {
    if is_digit(c) {
        c as int - 48
    } else if 'a' <= c <= 'f' {
        c as int - 87
    } else if 'A' <= c <= 'F' {
        c as int - 55
    } else {
        -1
    }
}

/// The value of the four hexadecimal digits at `i`, if they are there.
pub open spec fn hex4(s: Seq<char>, i: int) -> Option<int> {
    if 0 <= i && i + 4 <= s.len() && hexv(s[i]) >= 0 && hexv(s[i + 1]) >= 0 && hexv(s[i + 2]) >= 0
        && hexv(s[i + 3]) >= 0 {
        Some(hexv(s[i]) * 4096 + hexv(s[i + 1]) * 256 + hexv(s[i + 2]) * 16 + hexv(s[i + 3]))
    } else {
        None
    }
}

/// The character a single-character string escape denotes.
pub open spec fn esc_map(e: char) -> Option<char> {
    if e == '"' { Some('"') }
    else if e == '\\' { Some('\\') }
    else if e == '/' { Some('/') }
    else if e == 'b' { Some('\u{8}') }
    else if e == 'f' { Some('\u{c}') }
    else if e == 'n' { Some('\n') }
    else if e == 'r' { Some('\r') }
    else if e == 't' { Some('\t') }
    else { None }
}

/// Parses the body of a JSON string literal from position `i` (just after the
/// opening quote) to its closing quote: escapes are decoded, a `\u` escape in
/// the surrogate range must pair with a following low `\u` escape, and
/// unescaped control characters are rejected.  Yields the decoded characters
/// and the index after the closing quote.
pub open spec fn string_body(s: Seq<char>, i: int) -> Option<(Seq<char>, int)>
    decreases s.len() - i when 0 <= i <= s.len()
{
    if i >= s.len() {
        None
    } else if s[i] == '"' {
        Some((Seq::empty(), i + 1))
    } else if s[i] == '\\' {
        if i + 2 > s.len() {
            None
        } else if s[i + 1] == 'u' {
            match hex4(s, i + 2) {
                None => None,
                Some(n) => {
                    if 0xD800 <= n <= 0xDBFF {
                        if s.len() - i >= 12 && s[i + 6] == '\\' && s[i + 7] == 'u' {
                            match hex4(s, i + 8) {
                                None => None,
                                Some(n2) => {
                                    if 0xDC00 <= n2 <= 0xDFFF {
                                        let cp = 0x10000 + (n - 0xD800) * 0x400 + (n2 - 0xDC00);
                                        match string_body(s, i + 12) {
                                            None => None,
                                            Some(re) => Some(
                                                (seq![(cp as u32) as char] + re.0, re.1),
                                            ),
                                        }
                                    } else {
                                        None
                                    }
                                },
                            }
                        } else {
                            None
                        }
                    } else if 0xDC00 <= n <= 0xDFFF {
                        None
                    } else {
                        match string_body(s, i + 6) {
                            None => None,
                            Some(re) => Some((seq![(n as u32) as char] + re.0, re.1)),
                        }
                    }
                },
            }
        } else {
            match esc_map(s[i + 1]) {
                None => None,
                Some(c) => match string_body(s, i + 2) {
                    None => None,
                    Some(re) => Some((seq![c] + re.0, re.1)),
                },
            }
        }
    } else if (s[i] as u32) < 0x20 {
        None
    } else {
        match string_body(s, i + 1) {
            None => None,
            Some(re) => Some((seq![s[i]] + re.0, re.1)),
        }
    }
}

pub open spec fn parse_string_text(s: Seq<char>, i: int) -> Option<(Seq<char>, int)> {
    if 0 <= i < s.len() && s[i] == '"' {
        string_body(s, i + 1)
    } else {
        None
    }
}

/// Parses one primitive value of kind `p` at position `i`: the token must be
/// there and, for an integer kind, its value must lie in the kind's range.
pub open spec fn parse_prim_text(p: Prim, s: Seq<char>, i: int) -> Option<(SpecPrim, int)> {
    match p {
        Prim::Int(k) => match parse_int_text(s, i) {
            None => None,
            Some(ve) => if in_range(k, ve.0) {
                Some((SpecPrim::I(ve.0), ve.1))
            } else {
                None
            },
        },
        Prim::Bool => match parse_bool_text(s, i) {
            None => None,
            Some(be) => Some((SpecPrim::B(be.0), be.1)),
        },
        Prim::Str => match parse_string_text(s, i) {
            None => None,
            Some(ce) => Some((SpecPrim::S(ce.0), ce.1)),
        },
    }
}

/// Parses the elements of a non-empty primitive list from just after a `[`
/// or a `,`: whitespace, an element, whitespace, then a `,` to continue or a
/// `]` to end.  `fuel` bounds the recursion.
pub open spec fn elems_prim(p: Prim, s: Seq<char>, i: int, fuel: nat) -> Option<
    (Seq<SpecPrim>, int),
>
    decreases fuel,
{
    if fuel == 0 {
        None
    } else if !(0 <= i <= s.len()) {
        None
    } else {
        match parse_prim_text(p, s, skip_ws(s, i)) {
            None => None,
            Some(ve) => {
                let k = skip_ws(s, ve.1);
                if 0 <= k < s.len() && s[k] == ',' {
                    match elems_prim(p, s, k + 1, (fuel - 1) as nat) {
                        None => None,
                        Some(re) => Some((seq![ve.0] + re.0, re.1)),
                    }
                } else if 0 <= k < s.len() && s[k] == ']' {
                    Some((seq![ve.0], k + 1))
                } else {
                    None
                }
            },
        }
    }
}

/// Parses a bracketed list of primitives at `i`.
pub open spec fn parse_list_prim(p: Prim, s: Seq<char>, i: int, fuel: nat) -> Option<
    (Seq<SpecPrim>, int),
> {
    if 0 <= i < s.len() && s[i] == '[' {
        let j = skip_ws(s, i + 1);
        if j < s.len() && s[j] == ']' {
            Some((Seq::empty(), j + 1))
        } else {
            elems_prim(p, s, i + 1, fuel)
        }
    } else {
        None
    }
}

/// Parses one list element that may be `null`.
pub open spec fn parse_opt_prim_text(p: Prim, s: Seq<char>, i: int) -> Option<
    (Option<SpecPrim>, int),
> {
    if null_at(s, i) {
        Some((None, i + 4))
    } else {
        match parse_prim_text(p, s, i) {
            None => None,
            Some(ve) => Some((Some(ve.0), ve.1)),
        }
    }
}

pub open spec fn elems_opt(p: Prim, s: Seq<char>, i: int, fuel: nat) -> Option<
    (Seq<Option<SpecPrim>>, int),
>
    decreases fuel,
{
    if fuel == 0 {
        None
    } else if !(0 <= i <= s.len()) {
        None
    } else {
        match parse_opt_prim_text(p, s, skip_ws(s, i)) {
            None => None,
            Some(ve) => {
                let k = skip_ws(s, ve.1);
                if 0 <= k < s.len() && s[k] == ',' {
                    match elems_opt(p, s, k + 1, (fuel - 1) as nat) {
                        None => None,
                        Some(re) => Some((seq![ve.0] + re.0, re.1)),
                    }
                } else if 0 <= k < s.len() && s[k] == ']' {
                    Some((seq![ve.0], k + 1))
                } else {
                    None
                }
            },
        }
    }
}

pub open spec fn parse_list_opt(p: Prim, s: Seq<char>, i: int, fuel: nat) -> Option<
    (Seq<Option<SpecPrim>>, int),
> {
    if 0 <= i < s.len() && s[i] == '[' {
        let j = skip_ws(s, i + 1);
        if j < s.len() && s[j] == ']' {
            Some((Seq::empty(), j + 1))
        } else {
            elems_opt(p, s, i + 1, fuel)
        }
    } else {
        None
    }
}

pub open spec fn elems_list(p: Prim, s: Seq<char>, i: int, fuel: nat) -> Option<
    (Seq<Seq<SpecPrim>>, int),
>
    decreases fuel,
{
    if fuel == 0 {
        None
    } else if !(0 <= i <= s.len()) {
        None
    } else {
        match parse_list_prim(p, s, skip_ws(s, i), fuel) {
            None => None,
            Some(ve) => {
                let k = skip_ws(s, ve.1);
                if 0 <= k < s.len() && s[k] == ',' {
                    match elems_list(p, s, k + 1, (fuel - 1) as nat) {
                        None => None,
                        Some(re) => Some((seq![ve.0] + re.0, re.1)),
                    }
                } else if 0 <= k < s.len() && s[k] == ']' {
                    Some((seq![ve.0], k + 1))
                } else {
                    None
                }
            },
        }
    }
}

/// Parses a bracketed list of bracketed lists at `i`.
pub open spec fn parse_list_list(p: Prim, s: Seq<char>, i: int, fuel: nat) -> Option<
    (Seq<Seq<SpecPrim>>, int),
> {
    if 0 <= i < s.len() && s[i] == '[' {
        let j = skip_ws(s, i + 1);
        if j < s.len() && s[j] == ']' {
            Some((Seq::empty(), j + 1))
        } else {
            elems_list(p, s, i + 1, fuel)
        }
    } else {
        None
    }
}

/// The bytes of a sequence of in-range `u8` integer values.
pub open spec fn prims_to_bytes(s: Seq<SpecPrim>) -> Seq<u8> {
    s.map_values(|p: SpecPrim| p->I_0 as u8)
}

/// Parses a value of flat shape `d` at position `i`.
pub open spec fn parse_flat_at(d: TypeDesc, s: Seq<char>, i: int) -> Option<(SpecVal, int)> {
    let fuel = (s.len() + 1) as nat;
    match d {
        TypeDesc::Prim(p) => match parse_prim_text(p, s, i) {
            None => None,
            Some(ve) => Some((SpecVal::One(ve.0), ve.1)),
        },
        TypeDesc::VecOf(p) => match parse_list_prim(p, s, i, fuel) {
            None => None,
            Some(ve) => Some((SpecVal::List(ve.0), ve.1)),
        },
        TypeDesc::VecVec(p) => match parse_list_list(p, s, i, fuel) {
            None => None,
            Some(ve) => Some((SpecVal::ListList(ve.0), ve.1)),
        },
        TypeDesc::OptOf(p) => if null_at(s, i) {
            Some((SpecVal::OptOne(None), i + 4))
        } else {
            match parse_prim_text(p, s, i) {
                None => None,
                Some(ve) => Some((SpecVal::OptOne(Some(ve.0)), ve.1)),
            }
        },
        TypeDesc::VecOpt(p) => match parse_list_opt(p, s, i, fuel) {
            None => None,
            Some(ve) => Some((SpecVal::ListOpt(ve.0), ve.1)),
        },
        TypeDesc::OptVec(p) => if null_at(s, i) {
            Some((SpecVal::OptList(None), i + 4))
        } else {
            match parse_list_prim(p, s, i, fuel) {
                None => None,
                Some(ve) => Some((SpecVal::OptList(Some(ve.0)), ve.1)),
            }
        },
        TypeDesc::FixedBytes(b) => match parse_list_prim(
            Prim::Int(IntKind::U8),
            s,
            i,
            fuel,
        ) {
            None => None,
            Some(ve) => if ve.0.len() == blen_val(b) {
                Some((SpecVal::Bytes(prims_to_bytes(ve.0)), ve.1))
            } else {
                None
            },
        },
        TypeDesc::OptFixedBytes(b) => if null_at(s, i) {
            Some((SpecVal::OptBytes(None), i + 4))
        } else {
            match parse_list_prim(Prim::Int(IntKind::U8), s, i, fuel) {
                None => None,
                Some(ve) => if ve.0.len() == blen_val(b) {
                    Some((SpecVal::OptBytes(Some(prims_to_bytes(ve.0))), ve.1))
                } else {
                    None
                },
            }
        },
        TypeDesc::Custom => None,
        TypeDesc::VecCustom => None,
    }
}

/// Parses a whole value text against a flat descriptor: leading and trailing
/// whitespace is allowed, and the value must span the rest of the text.
/// `None` is the malformed-value outcome.
pub open spec fn parse_flat_text(d: TypeDesc, s: Seq<char>) -> Option<SpecVal> {
    match parse_flat_at(d, s, skip_ws(s, 0)) {
        None => None,
        Some(ve) => if skip_ws(s, ve.1) == s.len() {
            Some(ve.0)
        } else {
            None
        },
    }
}

// ---------------------------------------------------------------------------
// Bounds and progress of the specification parsers.
// ---------------------------------------------------------------------------

pub proof fn lemma_skip_ws(s: Seq<char>, i: int)
    requires
        0 <= i <= s.len(),
    ensures
        i <= skip_ws(s, i) <= s.len(),
    decreases s.len() - i,
{
    if i < s.len() && is_space(s[i]) {
        lemma_skip_ws(s, i + 1);
    }
}

pub proof fn lemma_scan_bounds(s: Seq<char>, i: int, acc: int)
    requires
        0 <= i <= s.len(),
    ensures
        i <= scan_digits(s, i, acc).1 <= s.len(),
    decreases s.len() - i,
{
    if i < s.len() && is_digit(s[i]) {
        lemma_scan_bounds(s, i + 1, acc * 10 + digit_val(s[i]));
    }
}

pub proof fn lemma_string_body_bounds(s: Seq<char>, i: int)
    requires
        0 <= i <= s.len(),
        string_body(s, i) is Some,
    ensures
        ({ let re = string_body(s, i)->0; i < re.1 <= s.len() }),
    decreases s.len() - i,
{
    if s[i] == '"' {
    } else if s[i] == '\\' {
        if s[i + 1] == 'u' {
            let n = hex4(s, i + 2)->0;
            if 0xD800 <= n <= 0xDBFF {
                lemma_string_body_bounds(s, i + 12);
            } else {
                lemma_string_body_bounds(s, i + 6);
            }
        } else {
            lemma_string_body_bounds(s, i + 2);
        }
    } else {
        lemma_string_body_bounds(s, i + 1);
    }
}

pub proof fn lemma_parse_prim_progress(p: Prim, s: Seq<char>, i: int)
    requires
        0 <= i <= s.len(),
        parse_prim_text(p, s, i) is Some,
    ensures
        ({ let ve = parse_prim_text(p, s, i)->0; i < ve.1 <= s.len() }),
{
    match p {
        Prim::Int(k) => {
            let neg = i < s.len() && s[i] == '-';
            let j = if neg { i + 1 } else { i };
            lemma_scan_bounds(s, j + 1, digit_val(s[j]));
        }
        Prim::Bool => {}
        Prim::Str => {
            lemma_string_body_bounds(s, i + 1);
        }
    }
}

// ---------------------------------------------------------------------------
// Executable token parsers.
// ---------------------------------------------------------------------------

/// Relies on char::from_u32: `Some` exactly for Unicode scalar values, and
/// the returned character has the given scalar value.
pub assume_specification[ char::from_u32 ](v: u32) -> (r: Option<char>)
    ensures
        r is Some <==> vstd::utf8::is_scalar(v),
        r is Some ==> r->0 as u32 == v,
;

fn char_of_u32(n: u32) -> (c: char)
    requires
        vstd::utf8::is_scalar(n),
    ensures
        c as u32 == n,
        c == (n as char),
{
    match char::from_u32(n) {
        Some(c) => {
            proof {
                vstd::utf8::char_u32_cast(c, n);
            }
            c
        }
        None => {
            proof {
                assert(false);
            }
            ' '
        }
    }
}

fn skip_ws_exec(s: &Vec<char>, i: usize) -> (r: usize)
    requires
        i <= s@.len(),
    ensures
        r as int == skip_ws(s@, i as int),
        i <= r <= s@.len(),
    decreases s@.len() - i,
{
    if i < s.len() && crate::typedesc::is_space_exec(s[i]) {
        skip_ws_exec(s, i + 1)
    } else {
        i
    }
}

fn is_digit_exec(c: char) -> (r: bool)
    ensures
        r == is_digit(c),
{
    '0' <= c && c <= '9'
}

/// Scans a digit run from `i`: yields the accumulated value (when it fits in
/// a `u128`), the index after the run, and an overflow flag.
fn digits_scan(s: &Vec<char>, i: usize) -> (r: (u128, usize, bool))
    requires
        i <= s@.len(),
    ensures
        r.1 as int == scan_digits(s@, i as int, 0).1,
        i <= r.1 <= s@.len(),
        !r.2 ==> r.0 as int == scan_digits(s@, i as int, 0).0,
        r.2 ==> scan_digits(s@, i as int, 0).0 > u128::MAX,
{
    let mut j: usize = i;
    let mut acc: u128 = 0;
    let mut ovf: bool = false;
    let ghost mut g: int = 0;
    while j < s.len() && is_digit_exec(s[j])
        invariant
            i <= j <= s@.len(),
            scan_digits(s@, i as int, 0) == scan_digits(s@, j as int, g),
            g >= 0,
            !ovf ==> g == acc as int,
            ovf ==> g > u128::MAX,
        decreases s@.len() - j,
    {
        let d: u128 = ((s[j] as u32) - 48) as u128;
        proof {
            assert(d as int == digit_val(s@[j as int]));
            g = g * 10 + digit_val(s@[j as int]);
        }
        if !ovf {
            let m = acc.checked_mul(10);
            match m {
                Some(t) => {
                    match t.checked_add(d) {
                        Some(t2) => {
                            acc = t2;
                        }
                        None => {
                            ovf = true;
                        }
                    }
                }
                None => {
                    ovf = true;
                }
            }
        }
        j = j + 1;
    }
    (acc, j, ovf)
}

fn bool_at(s: &Vec<char>, i: usize) -> (r: Option<(bool, usize)>)
    requires
        i <= s@.len(),
    ensures
        match r {
            Some(ve) => parse_bool_text(s@, i as int) == Some((ve.0, ve.1 as int)) && i < ve.1
                <= s@.len(),
            None => parse_bool_text(s@, i as int) is None,
        },
{
    if s.len() - i >= 4 && s[i] == 't' && s[i + 1] == 'r' && s[i + 2] == 'u' && s[i + 3] == 'e' {
        proof {
            assert(s@.subrange(i as int, i as int + 4) =~= seq!['t', 'r', 'u', 'e']);
        }
        Some((true, i + 4))
    } else if s.len() - i >= 5 && s[i] == 'f' && s[i + 1] == 'a' && s[i + 2] == 'l' && s[i + 3]
        == 's' && s[i + 4] == 'e' {
        proof {
            assert(s@.subrange(i as int, i as int + 5) =~= seq!['f', 'a', 'l', 's', 'e']);
            let pt = seq!['t', 'r', 'u', 'e'];
            if has_at(s@, i as int, pt) {
                assert(s@.subrange(i as int, i as int + 4)[0] == pt[0]);
            }
        }
        Some((false, i + 5))
    } else {
        proof {
            let pt = seq!['t', 'r', 'u', 'e'];
            let pf = seq!['f', 'a', 'l', 's', 'e'];
            if has_at(s@, i as int, pt) {
                let sub = s@.subrange(i as int, i as int + 4);
                assert(sub[0] == pt[0] && sub[1] == pt[1] && sub[2] == pt[2] && sub[3] == pt[3]);
                assert(false);
            }
            if has_at(s@, i as int, pf) {
                let sub = s@.subrange(i as int, i as int + 5);
                assert(sub[0] == pf[0] && sub[1] == pf[1] && sub[2] == pf[2] && sub[3] == pf[3]
                    && sub[4] == pf[4]);
                assert(false);
            }
        }
        None
    }
}

fn null_at_exec(s: &Vec<char>, i: usize) -> (r: bool)
    requires
        i <= s@.len(),
    ensures
        r == null_at(s@, i as int),
{
    if s.len() - i >= 4 && s[i] == 'n' && s[i + 1] == 'u' && s[i + 2] == 'l' && s[i + 3] == 'l' {
        proof {
            assert(s@.subrange(i as int, i as int + 4) =~= seq!['n', 'u', 'l', 'l']);
        }
        true
    } else {
        proof {
            let pn = seq!['n', 'u', 'l', 'l'];
            if has_at(s@, i as int, pn) {
                let sub = s@.subrange(i as int, i as int + 4);
                assert(sub[0] == pn[0] && sub[1] == pn[1] && sub[2] == pn[2] && sub[3] == pn[3]);
                assert(false);
            }
        }
        false
    }
}

fn hexv_exec(c: char) -> (r: Option<u32>)
    ensures
        r is Some <==> hexv(c) >= 0,
        r is Some ==> r->0 as int == hexv(c) && r->0 < 16,
{
    if '0' <= c && c <= '9' {
        Some((c as u32) - 48)
    } else if 'a' <= c && c <= 'f' {
        Some((c as u32) - 87)
    } else if 'A' <= c && c <= 'F' {
        Some((c as u32) - 55)
    } else {
        None
    }
}

fn hex4_exec(s: &Vec<char>, i: usize) -> (r: Option<u32>)
    requires
        i <= s@.len(),
    ensures
        match r {
            Some(n) => hex4(s@, i as int) == Some(n as int) && n <= 0xFFFF,
            None => hex4(s@, i as int) is None,
        },
{
    if s.len() - i >= 4 {
        let h0 = hexv_exec(s[i]);
        let h1 = hexv_exec(s[i + 1]);
        let h2 = hexv_exec(s[i + 2]);
        let h3 = hexv_exec(s[i + 3]);
        match (h0, h1, h2, h3) {
            (Some(a), Some(b), Some(c), Some(d)) => Some(a * 4096 + b * 256 + c * 16 + d),
            _ => None,
        }
    } else {
        None
    }
}

fn esc_map_exec(e: char) -> (r: Option<char>)
    ensures
        r == esc_map(e),
{
    if e == '"' { Some('"') }
    else if e == '\\' { Some('\\') }
    else if e == '/' { Some('/') }
    else if e == 'b' { Some('\u{8}') }
    else if e == 'f' { Some('\u{c}') }
    else if e == 'n' { Some('\n') }
    else if e == 'r' { Some('\r') }
    else if e == 't' { Some('\t') }
    else { None }
}

/// Walks a string-literal body, appending the decoded characters to `out`.
fn string_body_exec(s: &Vec<char>, i: usize, out: &mut String) -> (r: Option<usize>)
    requires
        i <= s@.len(),
    ensures
        match r {
            Some(j) => ({
                let re = string_body(s@, i as int)->0;
                string_body(s@, i as int) is Some && final(out)@ == old(out)@ + re.0 && j as int
                    == re.1 && i < j <= s@.len()
            }),
            None => string_body(s@, i as int) is None,
        },
    decreases s@.len() - i,
{
    if i >= s.len() {
        return None;
    }
    let c = s[i];
    if c == '"' {
        proof {
            assert(out@ =~= old(out)@ + (string_body(s@, i as int)->0).0);
        }
        return Some(i + 1);
    }
    if c == '\\' {
        if s.len() - i < 2 {
            return None;
        }
        let e = s[i + 1];
        if e == 'u' {
            match hex4_exec(s, i + 2) {
                None => {
                    return None;
                }
                Some(n) => {
                    if 0xD800 <= n && n <= 0xDBFF {
                        if s.len() - i >= 12 && s[i + 6] == '\\' && s[i + 7] == 'u' {
                            match hex4_exec(s, i + 8) {
                                None => {
                                    return None;
                                }
                                Some(n2) => {
                                    if 0xDC00 <= n2 && n2 <= 0xDFFF {
                                        let cp: u32 = 0x10000 + (n - 0xD800) * 0x400 + (n2
                                            - 0xDC00);
                                        let ch = char_of_u32(cp);
                                        push_char_str(out, ch);
                                        match string_body_exec(s, i + 12, out) {
                                            Some(j) => {
                                                proof {
                                                    assert(out@ =~= old(out)@ + (string_body(
                                                        s@,
                                                        i as int,
                                                    )->0).0);
                                                }
                                                return Some(j);
                                            }
                                            None => {
                                                return None;
                                            }
                                        }
                                    } else {
                                        return None;
                                    }
                                }
                            }
                        } else {
                            return None;
                        }
                    } else if 0xDC00 <= n && n <= 0xDFFF {
                        return None;
                    } else {
                        let ch = char_of_u32(n);
                        push_char_str(out, ch);
                        match string_body_exec(s, i + 6, out) {
                            Some(j) => {
                                proof {
                                    assert(out@ =~= old(out)@ + (string_body(s@, i as int)->0).0);
                                }
                                return Some(j);
                            }
                            None => {
                                return None;
                            }
                        }
                    }
                }
            }
        } else {
            match esc_map_exec(e) {
                None => {
                    return None;
                }
                Some(ch) => {
                    push_char_str(out, ch);
                    match string_body_exec(s, i + 2, out) {
                        Some(j) => {
                            proof {
                                assert(out@ =~= old(out)@ + (string_body(s@, i as int)->0).0);
                            }
                            return Some(j);
                        }
                        None => {
                            return None;
                        }
                    }
                }
            }
        }
    }
    if (c as u32) < 0x20 {
        return None;
    }
    push_char_str(out, c);
    match string_body_exec(s, i + 1, out) {
        Some(j) => {
            proof {
                assert(out@ =~= old(out)@ + (string_body(s@, i as int)->0).0);
            }
            Some(j)
        }
        None => None,
    }
}

fn push_char_str(out: &mut String, c: char)
    ensures
        final(out)@ == old(out)@.push(c),
{
    crate::text::push_char(out, c);
}

// ---------------------------------------------------------------------------
// Integer and primitive parsing against a kind.
// ---------------------------------------------------------------------------

/// The concrete bounds of every integer kind.
pub proof fn lemma_kind_bounds(k: IntKind)
    ensures
        match k {
            IntKind::I8 => kind_min(k) == -128 && kind_max(k) == 127,
            IntKind::I16 => kind_min(k) == -32768 && kind_max(k) == 32767,
            IntKind::I32 => kind_min(k) == -2147483648 && kind_max(k) == 2147483647,
            IntKind::I64 => kind_min(k) == -9223372036854775808 && kind_max(k)
                == 9223372036854775807,
            IntKind::I128 => kind_min(k) == -170141183460469231731687303715884105728 && kind_max(
                k,
            ) == 170141183460469231731687303715884105727,
            IntKind::U8 => kind_min(k) == 0 && kind_max(k) == 255,
            IntKind::U16 => kind_min(k) == 0 && kind_max(k) == 65535,
            IntKind::U32 => kind_min(k) == 0 && kind_max(k) == 4294967295,
            IntKind::U64 => kind_min(k) == 0 && kind_max(k) == 18446744073709551615,
            IntKind::U128 => kind_min(k) == 0 && kind_max(k)
                == 340282366920938463463374607431768211455,
        },
{
    reveal_with_fuel(crate::wire::pow256, 17);
}

fn is_signed_exec(k: IntKind) -> (r: bool)
    ensures
        r == is_signed(k),
{
    match k {
        IntKind::I8 => true,
        IntKind::I16 => true,
        IntKind::I32 => true,
        IntKind::I64 => true,
        IntKind::I128 => true,
        _ => false,
    }
}

/// The largest magnitude a non-negative value of the kind can have.
fn pos_bound(k: IntKind) -> (r: u128)
    ensures
        r as int == kind_max(k),
{
    proof {
        lemma_kind_bounds(k);
    }
    match k {
        IntKind::I8 => 127,
        IntKind::I16 => 32767,
        IntKind::I32 => 2147483647,
        IntKind::I64 => 9223372036854775807,
        IntKind::I128 => 170141183460469231731687303715884105727,
        IntKind::U8 => 255,
        IntKind::U16 => 65535,
        IntKind::U32 => 4294967295,
        IntKind::U64 => 18446744073709551615,
        IntKind::U128 => 340282366920938463463374607431768211455,
    }
}

/// The largest magnitude a negative value of the kind can have.
fn neg_bound(k: IntKind) -> (r: u128)
    ensures
        r as int == -kind_min(k),
{
    proof {
        lemma_kind_bounds(k);
    }
    match k {
        IntKind::I8 => 128,
        IntKind::I16 => 32768,
        IntKind::I32 => 2147483648,
        IntKind::I64 => 9223372036854775808,
        IntKind::I128 => 170141183460469231731687303715884105728,
        _ => 0,
    }
}

fn int_at(k: IntKind, s: &Vec<char>, i: usize) -> (r: Option<(PrimVal, usize)>)
    requires
        i <= s@.len(),
    ensures
        match r {
            Some(ve) => parse_prim_text(Prim::Int(k), s@, i as int) == Some(
                (ve.0@, ve.1 as int),
            ) && i < ve.1 <= s@.len(),
            None => parse_prim_text(Prim::Int(k), s@, i as int) is None,
        },
{
    let neg = i < s.len() && s[i] == '-';
    let j = if neg { i + 1 } else { i };
    if !(j < s.len() && is_digit_exec(s[j])) {
        return None;
    }
    let (m, e, ovf) = digits_scan(s, j);
    let ghost sv = scan_digits(s@, j as int, 0).0;
    let ghost val: int = if neg { -sv } else { sv };
    proof {
        lemma_scan_nonneg(s@, j as int, 0);
        assert(scan_digits(s@, j as int, 0) == scan_digits(s@, j as int + 1, digit_val(s@[j as int])));
        lemma_scan_bounds(s@, j as int + 1, digit_val(s@[j as int]));
    }
    if s[j] == '0' && e > j + 1 {
        return None;
    }
    proof {
        lemma_kind_bounds(k);
    }
    if ovf {
        return None;
    }
    if neg {
        if m > neg_bound(k) {
            return None;
        }
        if is_signed_exec(k) {
            let v: i128 = if m == 0 {
                0
            } else if m <= 170141183460469231731687303715884105727u128 {
                -(m as i128)
            } else {
                proof {
                    assert(m == 170141183460469231731687303715884105728u128);
                }
                i128::MIN
            };
            assert(v as int == val);
            Some((PrimVal::I(v), e))
        } else {
            proof {
                assert(m == 0 && val == 0);
            }
            Some((PrimVal::U(m), e))
        }
    } else {
        if m > pos_bound(k) {
            return None;
        }
        if is_signed_exec(k) {
            Some((PrimVal::I(m as i128), e))
        } else {
            Some((PrimVal::U(m), e))
        }
    }
}

pub proof fn lemma_scan_nonneg(s: Seq<char>, i: int, acc: int)
    requires
        0 <= i <= s.len(),
        acc >= 0,
    ensures
        scan_digits(s, i, acc).0 >= 0,
    decreases s.len() - i,
{
    if i < s.len() && is_digit(s[i]) {
        lemma_scan_nonneg(s, i + 1, acc * 10 + digit_val(s[i]));
    }
}

/// Parses one primitive token of kind `p` at `i`.
fn prim_at(p: Prim, s: &Vec<char>, i: usize) -> (r: Option<(PrimVal, usize)>)
    requires
        i <= s@.len(),
    ensures
        match r {
            Some(ve) => parse_prim_text(p, s@, i as int) == Some((ve.0@, ve.1 as int)) && i < ve.1
                <= s@.len(),
            None => parse_prim_text(p, s@, i as int) is None,
        },
{
    match p {
        Prim::Int(k) => int_at(k, s, i),
        Prim::Bool => match bool_at(s, i) {
            Some((b, j)) => Some((PrimVal::B(b), j)),
            None => None,
        },
        Prim::Str => {
            if i < s.len() && s[i] == '"' {
                let mut out = String::new();
                match string_body_exec(s, i + 1, &mut out) {
                    Some(j) => {
                        proof {
                            assert(out@ =~= (string_body(s@, i as int + 1)->0).0);
                        }
                        Some((PrimVal::S(out), j))
                    }
                    None => None,
                }
            } else {
                None
            }
        }
    }
}

// ---------------------------------------------------------------------------
// Lists: bounds, fuel irrelevance, and executable parsers.
// ---------------------------------------------------------------------------

pub proof fn lemma_parse_opt_prim_progress(p: Prim, s: Seq<char>, i: int)
    requires
        0 <= i <= s.len(),
        parse_opt_prim_text(p, s, i) is Some,
    ensures
        ({ let ve = parse_opt_prim_text(p, s, i)->0; i < ve.1 <= s.len() }),
{
    if null_at(s, i) {
    } else {
        lemma_parse_prim_progress(p, s, i);
    }
}

pub proof fn lemma_elems_prim_bounds(p: Prim, s: Seq<char>, i: int, f: nat)
    requires
        0 <= i <= s.len(),
        elems_prim(p, s, i, f) is Some,
    ensures
        ({ let re = elems_prim(p, s, i, f)->0; i < re.1 <= s.len() }),
    decreases f,
{
    let w = skip_ws(s, i);
    lemma_skip_ws(s, i);
    let ve = parse_prim_text(p, s, w)->0;
    lemma_parse_prim_progress(p, s, w);
    let k = skip_ws(s, ve.1);
    lemma_skip_ws(s, ve.1);
    if 0 <= k < s.len() && s[k] == ',' {
        lemma_elems_prim_bounds(p, s, k + 1, (f - 1) as nat);
    }
}

pub proof fn lemma_elems_prim_fuel(p: Prim, s: Seq<char>, i: int, f1: nat, f2: nat)
    requires
        0 <= i <= s.len(),
        f1 > s.len() - i,
        f2 > s.len() - i,
    ensures
        elems_prim(p, s, i, f1) == elems_prim(p, s, i, f2),
    decreases f1,
{
    let w = skip_ws(s, i);
    lemma_skip_ws(s, i);
    match parse_prim_text(p, s, w) {
        None => {}
        Some(ve) => {
            lemma_parse_prim_progress(p, s, w);
            let k = skip_ws(s, ve.1);
            lemma_skip_ws(s, ve.1);
            if 0 <= k < s.len() && s[k] == ',' {
                lemma_elems_prim_fuel(p, s, k + 1, (f1 - 1) as nat, (f2 - 1) as nat);
            }
        }
    }
}

pub proof fn lemma_parse_list_prim_bounds(p: Prim, s: Seq<char>, i: int, f: nat)
    requires
        0 <= i <= s.len(),
        parse_list_prim(p, s, i, f) is Some,
    ensures
        ({ let re = parse_list_prim(p, s, i, f)->0; i < re.1 <= s.len() }),
{
    let j = skip_ws(s, i + 1);
    lemma_skip_ws(s, i + 1);
    if j < s.len() && s[j] == ']' {
    } else {
        lemma_elems_prim_bounds(p, s, i + 1, f);
    }
}

pub proof fn lemma_parse_list_prim_fuel(p: Prim, s: Seq<char>, i: int, f1: nat, f2: nat)
    requires
        0 <= i,
        f1 >= s.len() - i,
        f2 >= s.len() - i,
    ensures
        parse_list_prim(p, s, i, f1) == parse_list_prim(p, s, i, f2),
{
    if 0 <= i < s.len() && s[i] == '[' {
        let j = skip_ws(s, i + 1);
        lemma_skip_ws(s, i + 1);
        if j < s.len() && s[j] == ']' {
        } else {
            lemma_elems_prim_fuel(p, s, i + 1, f1, f2);
        }
    }
}


pub proof fn lemma_elems_opt_fuel(p: Prim, s: Seq<char>, i: int, f1: nat, f2: nat)
    requires
        0 <= i <= s.len(),
        f1 > s.len() - i,
        f2 > s.len() - i,
    ensures
        elems_opt(p, s, i, f1) == elems_opt(p, s, i, f2),
    decreases f1,
{
    let w = skip_ws(s, i);
    lemma_skip_ws(s, i);
    match parse_opt_prim_text(p, s, w) {
        None => {}
        Some(ve) => {
            lemma_parse_opt_prim_progress(p, s, w);
            let k = skip_ws(s, ve.1);
            lemma_skip_ws(s, ve.1);
            if 0 <= k < s.len() && s[k] == ',' {
                lemma_elems_opt_fuel(p, s, k + 1, (f1 - 1) as nat, (f2 - 1) as nat);
            }
        }
    }
}


pub proof fn lemma_elems_list_fuel(p: Prim, s: Seq<char>, i: int, f1: nat, f2: nat)
    requires
        0 <= i <= s.len(),
        f1 > s.len() - i,
        f2 > s.len() - i,
    ensures
        elems_list(p, s, i, f1) == elems_list(p, s, i, f2),
    decreases f1,
{
    let w = skip_ws(s, i);
    lemma_skip_ws(s, i);
    lemma_parse_list_prim_fuel(p, s, w, f1, f2);
    match parse_list_prim(p, s, w, f1) {
        None => {}
        Some(ve) => {
            lemma_parse_list_prim_bounds(p, s, w, f1);
            let k = skip_ws(s, ve.1);
            lemma_skip_ws(s, ve.1);
            if 0 <= k < s.len() && s[k] == ',' {
                lemma_elems_list_fuel(p, s, k + 1, (f1 - 1) as nat, (f2 - 1) as nat);
            }
        }
    }
}

/// The fuel every executable parser measures the specification against.
pub open spec fn full_fuel(s: Seq<char>) -> nat {
    (s.len() + 1) as nat
}

pub proof fn lemma_views_push(q: Seq<PrimVal>, x: PrimVal)
    ensures
        views_of(q.push(x)) =~= views_of(q).push(x@),
{
}

pub proof fn lemma_views_opt_push(q: Seq<Option<PrimVal>>, x: Option<PrimVal>)
    ensures
        views_of_opt(q.push(x)) =~= views_of_opt(q).push(
            match x {
                Some(p) => Some(p@),
                None => None,
            },
        ),
{
}

pub proof fn lemma_views_list_push(q: Seq<Vec<PrimVal>>, x: Vec<PrimVal>)
    ensures
        views_of_list(q.push(x)) =~= views_of_list(q).push(views_of(x@)),
{
}

fn elems_prim_exec(p: Prim, s: &Vec<char>, i: usize, out: &mut Vec<PrimVal>) -> (r: Option<usize>)
    requires
        i <= s@.len(),
    ensures
        match r {
            Some(j) => ({
                let sp = elems_prim(p, s@, i as int, full_fuel(s@));
                sp is Some && views_of(final(out)@) == views_of(old(out)@) + (sp->0).0 && j as int
                    == (sp->0).1 && i < j <= s@.len()
            }),
            None => elems_prim(p, s@, i as int, full_fuel(s@)) is None,
        },
    decreases s@.len() - i,
{
    let w = skip_ws_exec(s, i);
    match prim_at(p, s, w) {
        None => None,
        Some((v, j)) => {
            let k = skip_ws_exec(s, j);
            if k < s.len() && s[k] == ',' {
                out.push(v);
                proof {
                    lemma_views_push(old(out)@, v);
                }
                match elems_prim_exec(p, s, k + 1, out) {
                    Some(e) => {
                        proof {
                            lemma_elems_prim_fuel(
                                p,
                                s@,
                                k as int + 1,
                                full_fuel(s@),
                                (full_fuel(s@) - 1) as nat,
                            );
                            let sp = elems_prim(p, s@, i as int, full_fuel(s@));
                            let rest = elems_prim(p, s@, k as int + 1, (full_fuel(s@) - 1) as nat);
                            assert(views_of(out@) == views_of(old(out)@).push(v@) + (rest->0).0);
                            assert(views_of(out@) =~= views_of(old(out)@) + (sp->0).0);
                        }
                        Some(e)
                    }
                    None => {
                        proof {
                            lemma_elems_prim_fuel(
                                p,
                                s@,
                                k as int + 1,
                                full_fuel(s@),
                                (full_fuel(s@) - 1) as nat,
                            );
                        }
                        None
                    }
                }
            } else if k < s.len() && s[k] == ']' {
                out.push(v);
                proof {
                    lemma_views_push(old(out)@, v);
                    let sp = elems_prim(p, s@, i as int, full_fuel(s@));
                    assert(views_of(out@) =~= views_of(old(out)@) + (sp->0).0);
                }
                Some(k + 1)
            } else {
                None
            }
        }
    }
}

fn list_prim_at(p: Prim, s: &Vec<char>, i: usize) -> (r: Option<(Vec<PrimVal>, usize)>)
    requires
        i <= s@.len(),
    ensures
        match r {
            Some(ve) => ({
                let sp = parse_list_prim(p, s@, i as int, full_fuel(s@));
                sp is Some && views_of(ve.0@) == (sp->0).0 && ve.1 as int == (sp->0).1 && i < ve.1
                    <= s@.len()
            }),
            None => parse_list_prim(p, s@, i as int, full_fuel(s@)) is None,
        },
{
    if i < s.len() && s[i] == '[' {
        let w = skip_ws_exec(s, i + 1);
        if w < s.len() && s[w] == ']' {
            let ve: Vec<PrimVal> = Vec::new();
            proof {
                assert(views_of(ve@) =~= Seq::<SpecPrim>::empty());
            }
            Some((ve, w + 1))
        } else {
            let mut out: Vec<PrimVal> = Vec::new();
            proof {
                assert(views_of(out@) =~= Seq::<SpecPrim>::empty());
            }
            match elems_prim_exec(p, s, i + 1, &mut out) {
                Some(j) => {
                    proof {
                        let sp = elems_prim(p, s@, i as int + 1, full_fuel(s@));
                        assert(views_of(out@) =~= (sp->0).0);
                    }
                    Some((out, j))
                }
                None => None,
            }
        }
    } else {
        None
    }
}

fn opt_prim_at(p: Prim, s: &Vec<char>, i: usize) -> (r: Option<(Option<PrimVal>, usize)>)
    requires
        i <= s@.len(),
    ensures
        match r {
            Some(ve) => ({
                let sp = parse_opt_prim_text(p, s@, i as int);
                sp is Some && (match ve.0 {
                    Some(pv) => (sp->0).0 == Some(pv@),
                    None => (sp->0).0 is None,
                }) && ve.1 as int == (sp->0).1 && i < ve.1 <= s@.len()
            }),
            None => parse_opt_prim_text(p, s@, i as int) is None,
        },
{
    let nl = s.len();
    if null_at_exec(s, i) {
        proof {
            assert(seq!['n', 'u', 'l', 'l'].len() == 4);
            assert(has_at(s@, i as int, seq!['n', 'u', 'l', 'l']));
            assert(i as int + 4 <= nl as int);
        }
        Some((None, i + 4))
    } else {
        match prim_at(p, s, i) {
            Some((v, j)) => Some((Some(v), j)),
            None => None,
        }
    }
}

fn elems_opt_exec(p: Prim, s: &Vec<char>, i: usize, out: &mut Vec<Option<PrimVal>>) -> (r: Option<
    usize,
>)
    requires
        i <= s@.len(),
    ensures
        match r {
            Some(j) => ({
                let sp = elems_opt(p, s@, i as int, full_fuel(s@));
                sp is Some && views_of_opt(final(out)@) == views_of_opt(old(out)@) + (sp->0).0
                    && j as int == (sp->0).1 && i < j <= s@.len()
            }),
            None => elems_opt(p, s@, i as int, full_fuel(s@)) is None,
        },
    decreases s@.len() - i,
{
    let w = skip_ws_exec(s, i);
    match opt_prim_at(p, s, w) {
        None => None,
        Some((v, j)) => {
            let ghost sv = (parse_opt_prim_text(p, s@, w as int)->0).0;
            let k = skip_ws_exec(s, j);
            if k < s.len() && s[k] == ',' {
                out.push(v);
                proof {
                    lemma_views_opt_push(old(out)@, v);
                    assert(views_of_opt(out@) =~= views_of_opt(old(out)@).push(sv));
                }
                match elems_opt_exec(p, s, k + 1, out) {
                    Some(e) => {
                        proof {
                            lemma_elems_opt_fuel(
                                p,
                                s@,
                                k as int + 1,
                                full_fuel(s@),
                                (full_fuel(s@) - 1) as nat,
                            );
                            let sp = elems_opt(p, s@, i as int, full_fuel(s@));
                            assert(views_of_opt(out@) =~= views_of_opt(old(out)@) + (sp->0).0);
                        }
                        Some(e)
                    }
                    None => {
                        proof {
                            lemma_elems_opt_fuel(
                                p,
                                s@,
                                k as int + 1,
                                full_fuel(s@),
                                (full_fuel(s@) - 1) as nat,
                            );
                        }
                        None
                    }
                }
            } else if k < s.len() && s[k] == ']' {
                out.push(v);
                proof {
                    lemma_views_opt_push(old(out)@, v);
                    let sp = elems_opt(p, s@, i as int, full_fuel(s@));
                    assert(views_of_opt(out@) =~= views_of_opt(old(out)@) + (sp->0).0);
                }
                Some(k + 1)
            } else {
                None
            }
        }
    }
}

fn list_opt_at(p: Prim, s: &Vec<char>, i: usize) -> (r: Option<(Vec<Option<PrimVal>>, usize)>)
    requires
        i <= s@.len(),
    ensures
        match r {
            Some(ve) => ({
                let sp = parse_list_opt(p, s@, i as int, full_fuel(s@));
                sp is Some && views_of_opt(ve.0@) == (sp->0).0 && ve.1 as int == (sp->0).1 && i
                    < ve.1 <= s@.len()
            }),
            None => parse_list_opt(p, s@, i as int, full_fuel(s@)) is None,
        },
{
    if i < s.len() && s[i] == '[' {
        let w = skip_ws_exec(s, i + 1);
        if w < s.len() && s[w] == ']' {
            let ve: Vec<Option<PrimVal>> = Vec::new();
            proof {
                assert(views_of_opt(ve@) =~= Seq::<Option<SpecPrim>>::empty());
            }
            Some((ve, w + 1))
        } else {
            let mut out: Vec<Option<PrimVal>> = Vec::new();
            proof {
                assert(views_of_opt(out@) =~= Seq::<Option<SpecPrim>>::empty());
            }
            match elems_opt_exec(p, s, i + 1, &mut out) {
                Some(j) => {
                    proof {
                        let sp = elems_opt(p, s@, i as int + 1, full_fuel(s@));
                        assert(views_of_opt(out@) =~= (sp->0).0);
                    }
                    Some((out, j))
                }
                None => None,
            }
        }
    } else {
        None
    }
}

fn elems_list_exec(p: Prim, s: &Vec<char>, i: usize, out: &mut Vec<Vec<PrimVal>>) -> (r: Option<
    usize,
>)
    requires
        i <= s@.len(),
    ensures
        match r {
            Some(j) => ({
                let sp = elems_list(p, s@, i as int, full_fuel(s@));
                sp is Some && views_of_list(final(out)@) == views_of_list(old(out)@) + (sp->0).0
                    && j as int == (sp->0).1 && i < j <= s@.len()
            }),
            None => elems_list(p, s@, i as int, full_fuel(s@)) is None,
        },
    decreases s@.len() - i,
{
    let w = skip_ws_exec(s, i);
    match list_prim_at(p, s, w) {
        None => None,
        Some((v, j)) => {
            let ghost sv = (parse_list_prim(p, s@, w as int, full_fuel(s@))->0).0;
            let k = skip_ws_exec(s, j);
            if k < s.len() && s[k] == ',' {
                out.push(v);
                proof {
                    lemma_views_list_push(old(out)@, v);
                    assert(views_of_list(out@) =~= views_of_list(old(out)@).push(sv));
                }
                match elems_list_exec(p, s, k + 1, out) {
                    Some(e) => {
                        proof {
                            lemma_elems_list_fuel(
                                p,
                                s@,
                                k as int + 1,
                                full_fuel(s@),
                                (full_fuel(s@) - 1) as nat,
                            );
                            let sp = elems_list(p, s@, i as int, full_fuel(s@));
                            assert(views_of_list(out@) =~= views_of_list(old(out)@) + (sp->0).0);
                        }
                        Some(e)
                    }
                    None => {
                        proof {
                            lemma_elems_list_fuel(
                                p,
                                s@,
                                k as int + 1,
                                full_fuel(s@),
                                (full_fuel(s@) - 1) as nat,
                            );
                        }
                        None
                    }
                }
            } else if k < s.len() && s[k] == ']' {
                out.push(v);
                proof {
                    lemma_views_list_push(old(out)@, v);
                    let sp = elems_list(p, s@, i as int, full_fuel(s@));
                    assert(views_of_list(out@) =~= views_of_list(old(out)@) + (sp->0).0);
                }
                Some(k + 1)
            } else {
                None
            }
        }
    }
}

fn list_list_at(p: Prim, s: &Vec<char>, i: usize) -> (r: Option<(Vec<Vec<PrimVal>>, usize)>)
    requires
        i <= s@.len(),
    ensures
        match r {
            Some(ve) => ({
                let sp = parse_list_list(p, s@, i as int, full_fuel(s@));
                sp is Some && views_of_list(ve.0@) == (sp->0).0 && ve.1 as int == (sp->0).1 && i
                    < ve.1 <= s@.len()
            }),
            None => parse_list_list(p, s@, i as int, full_fuel(s@)) is None,
        },
{
    if i < s.len() && s[i] == '[' {
        let w = skip_ws_exec(s, i + 1);
        if w < s.len() && s[w] == ']' {
            let ve: Vec<Vec<PrimVal>> = Vec::new();
            proof {
                assert(views_of_list(ve@) =~= Seq::<Seq<SpecPrim>>::empty());
            }
            Some((ve, w + 1))
        } else {
            let mut out: Vec<Vec<PrimVal>> = Vec::new();
            proof {
                assert(views_of_list(out@) =~= Seq::<Seq<SpecPrim>>::empty());
            }
            match elems_list_exec(p, s, i + 1, &mut out) {
                Some(j) => {
                    proof {
                        let sp = elems_list(p, s@, i as int + 1, full_fuel(s@));
                        assert(views_of_list(out@) =~= (sp->0).0);
                    }
                    Some((out, j))
                }
                None => None,
            }
        }
    } else {
        None
    }
}

// ---------------------------------------------------------------------------
// Whole flat values.
// ---------------------------------------------------------------------------

fn blen_exec(b: ByteLen) -> (r: usize)
    ensures
        r as nat == blen_val(b),
{
    match b {
        ByteLen::B32 => 32,
        ByteLen::B64 => 64,
    }
}

/// Turns a parsed list of in-range `u8` values into bytes.
fn prims_to_bytes_exec(v: &Vec<PrimVal>) -> (r: Vec<u8>)
    requires
        all_wf(Prim::Int(IntKind::U8), views_of(v@)),
    ensures
        r@ == prims_to_bytes(views_of(v@)),
{
    proof {
        lemma_kind_bounds(IntKind::U8);
    }
    let mut r: Vec<u8> = Vec::new();
    let mut i: usize = 0;
    while i < v.len()
        invariant
            i <= v@.len(),
            all_wf(Prim::Int(IntKind::U8), views_of(v@)),
            kind_min(IntKind::U8) == 0 && kind_max(IntKind::U8) == 255,
            r@.len() == i,
            forall|j: int| 0 <= j < i ==> r@[j] == (#[trigger] views_of(v@)[j])->I_0 as u8,
        decreases v.len() - i,
    {
        proof {
            assert(wf_prim(Prim::Int(IntKind::U8), views_of(v@)[i as int]));
            assert(views_of(v@)[i as int] == v@[i as int]@);
        }
        let b: u8 = match &v[i] {
            PrimVal::I(x) => *x as u8,
            PrimVal::U(m) => *m as u8,
            PrimVal::B(_) => {
                proof {
                    assert(false);
                }
                0
            }
            PrimVal::S(_) => {
                proof {
                    assert(false);
                }
                0
            }
        };
        r.push(b);
        i = i + 1;
    }
    proof {
        assert(r@ =~= prims_to_bytes(views_of(v@)));
    }
    r
}

/// Parses a value of flat shape `d` at position `i` of the text.
fn flat_at_exec(d: TypeDesc, s: &Vec<char>, i: usize) -> (r: Option<(FlatVal, usize)>)
    requires
        i <= s@.len(),
    ensures
        match r {
            Some(ve) => parse_flat_at(d, s@, i as int) == Some((ve.0@, ve.1 as int)) && i <= ve.1
                <= s@.len(),
            None => parse_flat_at(d, s@, i as int) is None,
        },
{
    match d {
        TypeDesc::Prim(p) => match prim_at(p, s, i) {
            Some((v, j)) => Some((FlatVal::One(v), j)),
            None => None,
        },
        TypeDesc::VecOf(p) => match list_prim_at(p, s, i) {
            Some((v, j)) => Some((FlatVal::List(v), j)),
            None => None,
        },
        TypeDesc::VecVec(p) => match list_list_at(p, s, i) {
            Some((v, j)) => Some((FlatVal::ListList(v), j)),
            None => None,
        },
        TypeDesc::OptOf(p) => {
            let nl = s.len();
            if null_at_exec(s, i) {
                proof {
                    assert(seq!['n', 'u', 'l', 'l'].len() == 4);
                    assert(i as int + 4 <= nl as int);
                }
                Some((FlatVal::OptOne(None), i + 4))
            } else {
                match prim_at(p, s, i) {
                    Some((v, j)) => Some((FlatVal::OptOne(Some(v)), j)),
                    None => None,
                }
            }
        }
        TypeDesc::VecOpt(p) => match list_opt_at(p, s, i) {
            Some((v, j)) => Some((FlatVal::ListOpt(v), j)),
            None => None,
        },
        TypeDesc::OptVec(p) => {
            let nl = s.len();
            if null_at_exec(s, i) {
                proof {
                    assert(seq!['n', 'u', 'l', 'l'].len() == 4);
                    assert(i as int + 4 <= nl as int);
                }
                Some((FlatVal::OptList(None), i + 4))
            } else {
                match list_prim_at(p, s, i) {
                    Some((v, j)) => Some((FlatVal::OptList(Some(v)), j)),
                    None => None,
                }
            }
        }
        TypeDesc::FixedBytes(b) => match list_prim_at(Prim::Int(IntKind::U8), s, i) {
            Some((v, j)) => {
                if v.len() == blen_exec(b) {
                    proof {
                        lemma_parse_list_prim_wf(Prim::Int(IntKind::U8), s@, i as int, full_fuel(s@));
                    }
                    let bs = prims_to_bytes_exec(&v);
                    Some((FlatVal::Bytes(bs), j))
                } else {
                    None
                }
            }
            None => None,
        },
        TypeDesc::OptFixedBytes(b) => {
            let nl = s.len();
            if null_at_exec(s, i) {
                proof {
                    assert(seq!['n', 'u', 'l', 'l'].len() == 4);
                    assert(i as int + 4 <= nl as int);
                }
                Some((FlatVal::OptBytes(None), i + 4))
            } else {
                match list_prim_at(Prim::Int(IntKind::U8), s, i) {
                    Some((v, j)) => {
                        if v.len() == blen_exec(b) {
                            proof {
                                lemma_parse_list_prim_wf(
                                    Prim::Int(IntKind::U8),
                                    s@,
                                    i as int,
                                    full_fuel(s@),
                                );
                            }
                            let bs = prims_to_bytes_exec(&v);
                            Some((FlatVal::OptBytes(Some(bs)), j))
                        } else {
                            None
                        }
                    }
                    None => None,
                }
            }
        }
        TypeDesc::Custom => None,
        TypeDesc::VecCustom => None,
    }
}

/// Parses a whole value text against a flat descriptor.
pub fn parse_flat_exec(d: TypeDesc, s: &Vec<char>) -> (r: Option<FlatVal>)
    ensures
        match r {
            Some(v) => parse_flat_text(d, s@) == Some(v@),
            None => parse_flat_text(d, s@) is None,
        },
{
    let w = skip_ws_exec(s, 0);
    match flat_at_exec(d, s, w) {
        None => None,
        Some((v, j)) => {
            let e = skip_ws_exec(s, j);
            if e == s.len() {
                Some(v)
            } else {
                None
            }
        }
    }
}

// ---------------------------------------------------------------------------
// Parsed values are well-formed.
// ---------------------------------------------------------------------------

pub proof fn lemma_parse_prim_wf(p: Prim, s: Seq<char>, i: int)
    requires
        parse_prim_text(p, s, i) is Some,
    ensures
        wf_prim(p, (parse_prim_text(p, s, i)->0).0),
{
}

pub proof fn lemma_elems_prim_wf(p: Prim, s: Seq<char>, i: int, f: nat)
    requires
        elems_prim(p, s, i, f) is Some,
    ensures
        all_wf(p, (elems_prim(p, s, i, f)->0).0),
    decreases f,
{
    let w = skip_ws(s, i);
    let ve = parse_prim_text(p, s, w)->0;
    lemma_parse_prim_wf(p, s, w);
    let k = skip_ws(s, ve.1);
    if 0 <= k < s.len() && s[k] == ',' {
        lemma_elems_prim_wf(p, s, k + 1, (f - 1) as nat);
        let rest = (elems_prim(p, s, k + 1, (f - 1) as nat)->0).0;
        let whole = (elems_prim(p, s, i, f)->0).0;
        assert forall|j: int| 0 <= j < whole.len() implies wf_prim(p, #[trigger] whole[j]) by {
            if j == 0 {
            } else {
                assert(whole[j] == rest[j - 1]);
            }
        }
    }
}

pub proof fn lemma_parse_list_prim_wf(p: Prim, s: Seq<char>, i: int, f: nat)
    requires
        parse_list_prim(p, s, i, f) is Some,
    ensures
        all_wf(p, (parse_list_prim(p, s, i, f)->0).0),
{
    if 0 <= i < s.len() && s[i] == '[' {
        let j = skip_ws(s, i + 1);
        if j < s.len() && s[j] == ']' {
        } else {
            lemma_elems_prim_wf(p, s, i + 1, f);
        }
    }
}

pub proof fn lemma_elems_opt_wf(p: Prim, s: Seq<char>, i: int, f: nat)
    requires
        elems_opt(p, s, i, f) is Some,
    ensures
        all_wf_opt(p, (elems_opt(p, s, i, f)->0).0),
    decreases f,
{
    let w = skip_ws(s, i);
    let ve = parse_opt_prim_text(p, s, w)->0;
    if !null_at(s, w) {
        lemma_parse_prim_wf(p, s, w);
    }
    let k = skip_ws(s, ve.1);
    if 0 <= k < s.len() && s[k] == ',' {
        lemma_elems_opt_wf(p, s, k + 1, (f - 1) as nat);
        let rest = (elems_opt(p, s, k + 1, (f - 1) as nat)->0).0;
        let whole = (elems_opt(p, s, i, f)->0).0;
        assert forall|j: int| 0 <= j < whole.len() && #[trigger] whole[j] is Some implies wf_prim(
            p,
            whole[j]->0,
        ) by {
            if j == 0 {
            } else {
                assert(whole[j] == rest[j - 1]);
            }
        }
    }
}

pub proof fn lemma_parse_list_opt_wf(p: Prim, s: Seq<char>, i: int, f: nat)
    requires
        parse_list_opt(p, s, i, f) is Some,
    ensures
        all_wf_opt(p, (parse_list_opt(p, s, i, f)->0).0),
{
    if 0 <= i < s.len() && s[i] == '[' {
        let j = skip_ws(s, i + 1);
        if j < s.len() && s[j] == ']' {
        } else {
            lemma_elems_opt_wf(p, s, i + 1, f);
        }
    }
}

pub proof fn lemma_elems_list_wf(p: Prim, s: Seq<char>, i: int, f: nat)
    requires
        elems_list(p, s, i, f) is Some,
    ensures
        forall|j: int|
            0 <= j < (elems_list(p, s, i, f)->0).0.len() ==> all_wf(
                p,
                #[trigger] (elems_list(p, s, i, f)->0).0[j],
            ),
    decreases f,
{
    let w = skip_ws(s, i);
    let ve = parse_list_prim(p, s, w, f)->0;
    lemma_parse_list_prim_wf(p, s, w, f);
    let k = skip_ws(s, ve.1);
    if 0 <= k < s.len() && s[k] == ',' {
        lemma_elems_list_wf(p, s, k + 1, (f - 1) as nat);
        let rest = (elems_list(p, s, k + 1, (f - 1) as nat)->0).0;
        let whole = (elems_list(p, s, i, f)->0).0;
        assert forall|j: int| 0 <= j < whole.len() implies all_wf(p, #[trigger] whole[j]) by {
            if j == 0 {
            } else {
                assert(whole[j] == rest[j - 1]);
            }
        }
    }
}


/// Whatever the textual parser accepts is well-formed for its descriptor.
pub proof fn lemma_parse_flat_wf(d: TypeDesc, s: Seq<char>)
    requires
        parse_flat_text(d, s) is Some,
    ensures
        wf_val(d, parse_flat_text(d, s)->0),
{
    let i = skip_ws(s, 0);
    let f = full_fuel(s);
    match d {
        TypeDesc::Prim(p) => {
            lemma_parse_prim_wf(p, s, i);
        }
        TypeDesc::VecOf(p) => {
            lemma_parse_list_prim_wf(p, s, i, f);
        }
        TypeDesc::VecVec(p) => {
            if 0 <= i < s.len() && s[i] == '[' {
                let j = skip_ws(s, i + 1);
                if j < s.len() && s[j] == ']' {
                } else {
                    lemma_elems_list_wf(p, s, i + 1, f);
                }
            }
        }
        TypeDesc::OptOf(p) => {
            if !null_at(s, i) {
                lemma_parse_prim_wf(p, s, i);
            }
        }
        TypeDesc::VecOpt(p) => {
            lemma_parse_list_opt_wf(p, s, i, f);
        }
        TypeDesc::OptVec(p) => {
            if !null_at(s, i) {
                lemma_parse_list_prim_wf(p, s, i, f);
            }
        }
        TypeDesc::FixedBytes(b) => {
            lemma_parse_list_prim_wf(Prim::Int(IntKind::U8), s, i, f);
        }
        TypeDesc::OptFixedBytes(b) => {
            if !null_at(s, i) {
                lemma_parse_list_prim_wf(Prim::Int(IntKind::U8), s, i, f);
            }
        }
        TypeDesc::Custom => {}
        TypeDesc::VecCustom => {}
    }
}

} // verus!
